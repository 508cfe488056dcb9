use vstd::prelude::*;
use crate::string_map::{map_of, StringMap};
use crate::text::{
    append_chars, chars_of, decimal, decimal_spec, inner_chars, join_spec, seqs_of, split_on,
    split_spec, string_of, trim_space, trim_space_spec,
};

verus! {

/// A value that can be written as JSON text and read back from it.
pub trait Serde: Sized {
    /// The text that `to_json` writes for `v`.
    spec fn json_spec(v: &Self) -> Seq<char>;

    /// Whether `from_json` reads a value from `json`.
    spec fn reads(json: Seq<char>) -> bool;

    /// Whether `from_json` reads `v` from `json`.
    spec fn reads_as(json: Seq<char>, v: &Self) -> bool;

    fn to_json(&self) -> (r: String)
        ensures
            r@ == Self::json_spec(self),
    ;

    fn from_json(json: &str) -> (r: Result<Self, String>)
        ensures
            r is Ok <==> Self::reads(json@),
            r matches Ok(v) ==> Self::reads_as(json@, &v),
    ;
}

/// Whether `s` is framed by `open` and `close`: it holds at least both.
pub open spec fn framed(s: Seq<char>, open: char, close: char) -> bool {
    s.len() >= 2 && s[0] == open && s.last() == close
}

/// What lies between the frame.
pub open spec fn inside(s: Seq<char>) -> Seq<char> {
    s.subrange(1, s.len() - 1)
}

/// The items of a framed list: the pieces between commas, without white space
/// at either end.
pub open spec fn list_items(json: Seq<char>) -> Seq<Seq<char>> {
    split_spec(inside(json), seq![',']).map_values(|p: Seq<char>| trim_space_spec(p))
}

fn framed_exec(s: &[char], open: char, close: char) -> (r: bool)
    ensures
        r == framed(s@, open, close),
{
    s.len() >= 2 && s[0] == open && s[s.len() - 1] == close
}

fn error(msg: &str) -> (r: String)
    ensures
        r@ == msg@,
{
    string_of(chars_of(msg).as_slice())
}

impl Serde for String {
    open spec fn json_spec(v: &Self) -> Seq<char> {
        seq!['"'] + v@ + seq!['"']
    }

    open spec fn reads(json: Seq<char>) -> bool {
        framed(json, '"', '"')
    }

    open spec fn reads_as(json: Seq<char>, v: &Self) -> bool {
        v@ == inside(json)
    }

    /// The string between double quotes, as it is.
    fn to_json(&self) -> (r: String) {
        let mut out: Vec<char> = Vec::new();
        out.push('"');
        append_chars(&mut out, chars_of(self.as_str()).as_slice());
        out.push('"');
        string_of(out.as_slice())
    }

    fn from_json(json: &str) -> (r: Result<Self, String>) {
        let cs = chars_of(json);
        if framed_exec(cs.as_slice(), '"', '"') {
            Ok(string_of(inner_chars(cs.as_slice()).as_slice()))
        } else {
            Err(error("Invalid JSON string"))
        }
    }
}

pub open spec fn is_digit_spec(c: char) -> bool {
    '0' as u32 <= c as u32 && c as u32 <= '9' as u32
}

pub open spec fn all_digits(s: Seq<char>) -> bool {
    forall|i: int| 0 <= i < s.len() ==> is_digit_spec(#[trigger] s[i])
}

/// The number that the decimal digits `s` write.
pub open spec fn digits_value(s: Seq<char>) -> nat
    decreases s.len(),
{
    if s.len() == 0 {
        0
    } else {
        digits_value(s.drop_last()) * 10 + (s.last() as u32 - '0' as u32) as nat
    }
}

/// The `i32` that `s` writes: an optional sign and at least one decimal digit,
/// with a value in range.
pub open spec fn int_value(s: Seq<char>) -> Option<int> {
    let neg = s.len() > 0 && s[0] == '-';
    let signed = s.len() > 0 && (s[0] == '-' || s[0] == '+');
    let ds = if signed {
        s.drop_first()
    } else {
        s
    };
    if ds.len() == 0 || !all_digits(ds) {
        None
    } else {
        let v: int = if neg {
            -(digits_value(ds) as int)
        } else {
            digits_value(ds) as int
        };
        if i32::MIN <= v <= i32::MAX {
            Some(v)
        } else {
            None
        }
    }
}

/// The text of an integer: a minus sign where it is negative, then its digits.
pub open spec fn int_text(n: int) -> Seq<char> {
    if n < 0 {
        seq!['-'] + decimal_spec((-n) as nat)
    } else {
        decimal_spec(n as nat)
    }
}

/// A prefix of a run of digits writes no larger a number.
pub proof fn lemma_digits_prefix(s: Seq<char>, k: int)
    requires
        all_digits(s),
        0 <= k <= s.len(),
    ensures
        digits_value(s.subrange(0, k)) <= digits_value(s),
    decreases s.len(),
{
    if k < s.len() {
        let d = s.drop_last();
        assert(d.subrange(0, k) =~= s.subrange(0, k));
        assert(all_digits(d)) by {
            assert forall|i: int| 0 <= i < d.len() implies is_digit_spec(#[trigger] d[i]) by {
                assert(d[i] == s[i]);
            }
        }
        lemma_digits_prefix(d, k);
    } else {
        assert(s.subrange(0, k) =~= s);
    }
}

/// Whether every character of `s` from `start` on is a decimal digit.
fn digits_only(s: &[char], start: usize) -> (r: bool)
    requires
        start <= s@.len(),
    ensures
        r == all_digits(s@.subrange(start as int, s@.len() as int)),
{
    let mut m: usize = start;
    while m < s.len()
        invariant
            start <= m <= s@.len(),
            forall|i: int| start <= i < m ==> is_digit_spec(#[trigger] s@[i]),
        decreases s@.len() - m,
    {
        let c = s[m];
        if !((c as u32) >= ('0' as u32) && (c as u32) <= ('9' as u32)) {
            assert(s@.subrange(start as int, s@.len() as int)[m - start] == s@[m as int]);
            return false;
        }
        m += 1;
    }
    assert forall|i: int|
        0 <= i < s@.len() - start implies is_digit_spec(
        #[trigger] s@.subrange(start as int, s@.len() as int)[i],
    ) by {
        assert(s@.subrange(start as int, s@.len() as int)[i] == s@[start + i]);
    }
    true
}

fn parse_i32(s: &[char]) -> (r: Option<i32>)
    ensures
        match r {
            Some(v) => int_value(s@) == Some(v as int),
            None => int_value(s@) is None,
        },
{
    let neg = s.len() > 0 && s[0] == '-';
    let signed = s.len() > 0 && (s[0] == '-' || s[0] == '+');
    let start: usize = if signed {
        1
    } else {
        0
    };
    let ghost ds = if signed {
        s@.drop_first()
    } else {
        s@
    };
    assert(ds =~= s@.subrange(start as int, s@.len() as int));
    if start == s.len() {
        return None;
    }
    if !digits_only(s, start) {
        return None;
    }
    let mut acc: u64 = 0;
    let mut k: usize = start;
    while k < s.len()
        invariant
            start <= k <= s@.len(),
            ds == s@.subrange(start as int, s@.len() as int),
            ds == (if signed {
                s@.drop_first()
            } else {
                s@
            }),
            signed == (s@.len() > 0 && (s@[0] == '-' || s@[0] == '+')),
            neg == (s@.len() > 0 && s@[0] == '-'),
            all_digits(ds),
            acc as int == digits_value(ds.subrange(0, k - start)),
            acc <= 0x8000_0000,
        decreases s@.len() - k,
    {
        let c = s[k];
        assert(ds[k - start] == c);
        let d = (c as u32 - '0' as u32) as u64;
        assert(ds.subrange(0, k - start + 1).drop_last() =~= ds.subrange(0, k - start));
        acc = acc * 10 + d;
        k += 1;
        if acc > 0x8000_0000 {
            proof {
                lemma_digits_prefix(ds, k - start);
                assert(digits_value(ds) > 0x8000_0000);
            }
            return None;
        }
    }
    assert(ds.subrange(0, k - start) =~= ds);
    if neg {
        Some((0 - (acc as i64)) as i32)
    } else if acc <= 0x7fff_ffff {
        Some(acc as i32)
    } else {
        None
    }
}

impl Serde for i32 {
    open spec fn json_spec(v: &Self) -> Seq<char> {
        int_text(*v as int)
    }

    open spec fn reads(json: Seq<char>) -> bool {
        int_value(json) is Some
    }

    open spec fn reads_as(json: Seq<char>, v: &Self) -> bool {
        int_value(json) == Some(*v as int)
    }

    fn to_json(&self) -> (r: String) {
        let mut out: Vec<char> = Vec::new();
        let n = *self as i64;
        if n < 0 {
            out.push('-');
            append_chars(&mut out, decimal((0 - n) as u64).as_slice());
        } else {
            append_chars(&mut out, decimal(n as u64).as_slice());
        }
        string_of(out.as_slice())
    }

    fn from_json(json: &str) -> (r: Result<Self, String>) {
        match parse_i32(chars_of(json).as_slice()) {
            Some(v) => Ok(v),
            None => Err(error("invalid digit found in string")),
        }
    }
}

impl Serde for bool {
    open spec fn json_spec(v: &Self) -> Seq<char> {
        if *v {
            "true"@
        } else {
            "false"@
        }
    }

    open spec fn reads(json: Seq<char>) -> bool {
        json == "true"@ || json == "false"@
    }

    open spec fn reads_as(json: Seq<char>, v: &Self) -> bool {
        *v == (json == "true"@)
    }

    fn to_json(&self) -> (r: String) {
        if *self {
            error("true")
        } else {
            error("false")
        }
    }

    fn from_json(json: &str) -> (r: Result<Self, String>) {
        if crate::text::str_eq(json, "true") {
            Ok(true)
        } else if crate::text::str_eq(json, "false") {
            Ok(false)
        } else {
            Err(error("provided string was not `true` or `false`"))
        }
    }
}

/// The texts of the items, in order.
pub open spec fn item_texts<T: Serde>(s: Seq<T>) -> Seq<Seq<char>>
    decreases s.len(),
{
    if s.len() == 0 {
        Seq::empty()
    } else {
        item_texts(s.drop_last()).push(T::json_spec(&s.last()))
    }
}

impl<T: Serde> Serde for Vec<T> {
    open spec fn json_spec(v: &Self) -> Seq<char> {
        seq!['['] + join_spec(item_texts(v@), ", "@) + seq![']']
    }

    open spec fn reads(json: Seq<char>) -> bool {
        framed(json, '[', ']') && forall|i: int|
            0 <= i < list_items(json).len() ==> T::reads(#[trigger] list_items(json)[i])
    }

    open spec fn reads_as(json: Seq<char>, v: &Self) -> bool {
        v@.len() == list_items(json).len() && forall|i: int|
            0 <= i < v@.len() ==> T::reads_as(#[trigger] list_items(json)[i], &v@[i])
    }

    /// The items' texts, separated by a comma and a space, in brackets.
    fn to_json(&self) -> (r: String) {
        let sep = chars_of(", ");
        let mut out: Vec<char> = Vec::new();
        out.push('[');
        let mut i: usize = 0;
        while i < self.len()
            invariant
                i <= self@.len(),
                sep@ == ", "@,
                out@ == seq!['['] + join_spec(item_texts(self@.subrange(0, i as int)), ", "@),
            decreases self@.len() - i,
        {
            let t = chars_of(self[i].to_json().as_str());
            proof {
                assert(self@.subrange(0, i + 1).drop_last() =~= self@.subrange(0, i as int));
            }
            if i > 0 {
                append_chars(&mut out, sep.as_slice());
            }
            append_chars(&mut out, t.as_slice());
            proof {
                let its = item_texts(self@.subrange(0, i + 1));
                assert(its.drop_last() == item_texts(self@.subrange(0, i as int)));
                assert(its.last() == t@);
                if i == 0 {
                    assert(its.len() == 1);
                }
            }
            i += 1;
        }
        out.push(']');
        assert(self@.subrange(0, i as int) =~= self@);
        string_of(out.as_slice())
    }

    /// Reads the comma-separated items between brackets.
    fn from_json(json: &str) -> (r: Result<Self, String>) {
        let cs = chars_of(json);
        if !framed_exec(cs.as_slice(), '[', ']') {
            return Err(error("Invalid JSON array"));
        }
        let inner = inner_chars(cs.as_slice());
        let comma = vec![','];
        assert(comma@ =~= seq![',']);
        let parts = split_on(inner.as_slice(), comma.as_slice());
        let ghost items = list_items(json@);
        assert(items.len() == parts@.len());
        let mut out: Vec<T> = Vec::new();
        let mut i: usize = 0;
        while i < parts.len()
            invariant
                i <= parts@.len(),
                items == list_items(json@),
                items.len() == parts@.len(),
                seqs_of(parts@) == split_spec(inside(json@), seq![',']),
                out@.len() == i,
                forall|j: int| 0 <= j < i ==> T::reads(#[trigger] items[j]),
                forall|j: int| 0 <= j < i ==> T::reads_as(#[trigger] items[j], &out@[j]),
            decreases parts@.len() - i,
        {
            let item = trim_space(parts[i].as_slice());
            assert(item@ == items[i as int]) by {
                assert(seqs_of(parts@)[i as int] == parts@[i as int]@);
            }
            let s = string_of(item.as_slice());
            match T::from_json(s.as_str()) {
                Ok(v) => {
                    out.push(v);
                },
                Err(e) => {
                    return Err(e);
                },
            }
            i += 1;
        }
        Ok(out)
    }
}

/// The entries of a framed object: the pieces between commas.
pub open spec fn object_entries(json: Seq<char>) -> Seq<Seq<char>> {
    split_spec(inside(json), seq![','])
}

/// The key text and the value text of an entry, split at its first colon and
/// without white space at either end; `None` where it has no colon.
pub open spec fn entry_texts(e: Seq<char>) -> Option<(Seq<char>, Seq<char>)> {
    let kv = split_spec(e, seq![':']);
    if kv.len() < 2 {
        None
    } else {
        Some((trim_space_spec(kv[0]), trim_space_spec(e.subrange(kv[0].len() + 1 as int, e.len() as int))))
    }
}

/// The key and value that an entry reads as, where it reads.
pub open spec fn entry_value(e: Seq<char>) -> Option<(Seq<char>, Seq<char>)> {
    match entry_texts(e) {
        Some((k, v)) => if framed(k, '"', '"') && framed(v, '"', '"') {
            Some((inside(k), inside(v)))
        } else {
            None
        },
        None => None,
    }
}

/// The pairs that the entries read as, or `None` where one does not read.
pub open spec fn entry_pairs(es: Seq<Seq<char>>) -> Option<Seq<(Seq<char>, Seq<char>)>>
    decreases es.len(),
{
    if es.len() == 0 {
        Some(Seq::empty())
    } else {
        match (entry_pairs(es.drop_last()), entry_value(es.last())) {
            (Some(ps), Some(p)) => Some(ps.push(p)),
            _ => None,
        }
    }
}

/// The entry texts of a map, in order.
pub open spec fn entry_list(p: Seq<(Seq<char>, Seq<char>)>) -> Seq<Seq<char>>
    decreases p.len(),
{
    if p.len() == 0 {
        Seq::empty()
    } else {
        entry_list(p.drop_last()).push(
            seq!['"'] + p.last().0 + seq!['"'] + ": "@ + seq!['"'] + p.last().1 + seq!['"'],
        )
    }
}

proof fn lemma_entry_pairs_none(es: Seq<Seq<char>>, i: int)
    requires
        0 <= i < es.len(),
        entry_value(es[i]) is None,
    ensures
        entry_pairs(es) is None,
    decreases es.len(),
{
    if i < es.len() - 1 {
        lemma_entry_pairs_none(es.drop_last(), i);
    }
}

/// The key and value texts of one object entry.
fn entry_of(e: &[char]) -> (r: Option<(String, String)>)
    ensures
        match r {
            Some(p) => entry_value(e@) == Some((p.0@, p.1@)),
            None => entry_value(e@) is None,
        },
{
    let colon = vec![':'];
    assert(colon@ =~= seq![':']);
    let kv = split_on(e, colon.as_slice());
    if kv.len() < 2 {
        return None;
    }
    let key_text = trim_space(kv[0].as_slice());
    let ghost k0 = kv@[0]@;
    assert(seqs_of(kv@)[0] == k0);
    proof {
        crate::text::lemma_split_prefix(e@, ':');
    }
    let n = e.len();
    let start = kv[0].len() + 1;
    let mut rest: Vec<char> = Vec::new();
    let mut m: usize = start;
    while m < n
        invariant
            n == e@.len(),
            start <= m <= n,
            rest@ == e@.subrange(start as int, m as int),
        decreases n - m,
    {
        rest.push(e[m]);
        m += 1;
    }
    let value_text = trim_space(rest.as_slice());
    if framed_exec(key_text.as_slice(), '"', '"') && framed_exec(value_text.as_slice(), '"', '"') {
        let k = string_of(inner_chars(key_text.as_slice()).as_slice());
        let v = string_of(inner_chars(value_text.as_slice()).as_slice());
        Some((k, v))
    } else {
        None
    }
}

impl Serde for StringMap {
    open spec fn json_spec(v: &Self) -> Seq<char> {
        seq!['{'] + join_spec(entry_list(v.pairs()), ", "@) + seq!['}']
    }

    open spec fn reads(json: Seq<char>) -> bool {
        framed(json, '{', '}') && entry_pairs(object_entries(json)) is Some
    }

    open spec fn reads_as(json: Seq<char>, v: &Self) -> bool {
        v@ == map_of(entry_pairs(object_entries(json))->0)
    }

    /// The entries as `"key": "value"`, separated by a comma and a space, in
    /// braces.
    fn to_json(&self) -> (r: String) {
        let es = self.entries();
        let sep = chars_of(", ");
        let mut out: Vec<char> = Vec::new();
        out.push('{');
        let mut i: usize = 0;
        let ghost ps = self.pairs();
        while i < es.len()
            invariant
                i <= es@.len(),
                ps == crate::string_map::pair_views(es@),
                ps == self.pairs(),
                sep@ == ", "@,
                out@ == seq!['{'] + join_spec(entry_list(ps.subrange(0, i as int)), ", "@),
            decreases es@.len() - i,
        {
            let mut t: Vec<char> = Vec::new();
            t.push('"');
            append_chars(&mut t, chars_of(es[i].0.as_str()).as_slice());
            t.push('"');
            append_chars(&mut t, sep.as_slice());
            proof {
                reveal_strlit(", ");
                reveal_strlit(": ");
                assert(", "@ =~= seq![',', ' ']);
                assert(": "@ =~= seq![':', ' ']);
            }
            t.pop();
            t.pop();
            t.push(':');
            t.push(' ');
            t.push('"');
            append_chars(&mut t, chars_of(es[i].1.as_str()).as_slice());
            t.push('"');
            proof {
                assert(ps.subrange(0, i + 1).drop_last() =~= ps.subrange(0, i as int));
                assert(ps[i as int] == (es@[i as int].0@, es@[i as int].1@));
                assert(t@ =~= seq!['"'] + ps[i as int].0 + seq!['"'] + ": "@ + seq!['"'] + ps[i as int].1 + seq!['"']);
            }
            if i > 0 {
                append_chars(&mut out, sep.as_slice());
            }
            append_chars(&mut out, t.as_slice());
            proof {
                let el = entry_list(ps.subrange(0, i + 1));
                assert(el.drop_last() == entry_list(ps.subrange(0, i as int)));
                if i == 0 {
                    assert(el.len() == 1);
                }
            }
            i += 1;
        }
        out.push('}');
        assert(ps.subrange(0, i as int) =~= ps);
        string_of(out.as_slice())
    }

    /// Reads `"key": "value"` entries, separated by commas, between braces; a
    /// later key wins.
    fn from_json(json: &str) -> (r: Result<Self, String>) {
        let cs = chars_of(json);
        if !framed_exec(cs.as_slice(), '{', '}') {
            return Err(error("Invalid JSON object"));
        }
        let inner = inner_chars(cs.as_slice());
        let comma = vec![','];
        assert(comma@ =~= seq![',']);
        let parts = split_on(inner.as_slice(), comma.as_slice());
        let ghost es = object_entries(json@);
        let ghost mut acc: Seq<(Seq<char>, Seq<char>)> = Seq::empty();
        let mut m = StringMap::new();
        let mut i: usize = 0;
        assert(es.subrange(0, 0) =~= Seq::<Seq<char>>::empty());
        while i < parts.len()
            invariant
                i <= parts@.len(),
                es == object_entries(json@),
                seqs_of(parts@) == es,
                entry_pairs(es.subrange(0, i as int)) == Some(acc),
                m@ == map_of(acc),
            decreases parts@.len() - i,
        {
            assert(es[i as int] == parts@[i as int]@);
            match entry_of(parts[i].as_slice()) {
                Some(p) => {
                    let ghost old_acc = acc;
                    proof {
                        assert(es.subrange(0, i + 1).drop_last() =~= es.subrange(0, i as int));
                        acc = acc.push((p.0@, p.1@));
                        assert(acc.drop_last() =~= old_acc);
                    }
                    m.insert(p.0, p.1);
                },
                None => {
                    proof {
                        lemma_entry_pairs_none(es, i as int);
                    }
                    return Err(error("Invalid JSON object entry"));
                },
            }
            i += 1;
        }
        assert(es.subrange(0, i as int) =~= es);
        Ok(m)
    }
}

} // verus!
