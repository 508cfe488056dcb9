use vstd::prelude::*;
use vstd::string::StrSliceExecFns;

verus! {

/// The views of a sequence of character vectors.
pub open spec fn seqs_of(v: Seq<Vec<char>>) -> Seq<Seq<char>> {
    v.map_values(|x: Vec<char>| x@)
}

/// `c` put in front of the first piece of `p`.
pub open spec fn prepend_first(c: Seq<char>, p: Seq<Seq<char>>) -> Seq<Seq<char>> {
    p.update(0, c + p[0])
}

/// The pieces of `s` between the leftmost non-overlapping occurrences of `sep`.
pub open spec fn split_spec(s: Seq<char>, sep: Seq<char>) -> Seq<Seq<char>>
    decreases s.len(),
{
    if sep.len() == 0 {
        seq![s]
    } else if s.len() == 0 {
        seq![Seq::empty()]
    } else if s.len() >= sep.len() && s.subrange(0, sep.len() as int) == sep {
        seq![Seq::empty()] + split_spec(s.subrange(sep.len() as int, s.len() as int), sep)
    } else {
        prepend_first(seq![s[0]], split_spec(s.drop_first(), sep))
    }
}

/// Splitting gives at least one piece.
pub proof fn lemma_split_nonempty(s: Seq<char>, sep: Seq<char>)
    ensures
        split_spec(s, sep).len() >= 1,
    decreases s.len(),
{
    if sep.len() == 0 || s.len() == 0 {
    } else if s.len() >= sep.len() && s.subrange(0, sep.len() as int) == sep {
        lemma_split_nonempty(s.subrange(sep.len() as int, s.len() as int), sep);
    } else {
        lemma_split_nonempty(s.drop_first(), sep);
    }
}

/// The characters of `s`, in order.
pub fn chars_of(s: &str) -> (r: Vec<char>)
    ensures
        r@ == s@,
{
    let n = s.unicode_len();
    let mut out: Vec<char> = Vec::new();
    let mut i: usize = 0;
    while i < n
        invariant
            n == s@.len(),
            i <= n,
            out@ == s@.subrange(0, i as int),
        decreases n - i,
    {
        out.push(s.get_char(i));
        i += 1;
    }
    out
}

/// Relies on `FromIterator<&char> for String` (through `Iterator::collect`):
/// the string holds the given characters in order.
#[verifier::external_body]
pub(crate) fn string_of(v: &[char]) -> (r: String)
    ensures
        r@ == v@,
{
    v.iter().collect()
}

/// Whether `sep` occurs in `s` at position `i`.
fn occurs_at(s: &[char], i: usize, sep: &[char]) -> (r: bool)
    requires
        i <= s@.len(),
    ensures
        r == (s@.len() - i >= sep@.len() && s@.subrange(i as int, i + sep@.len()) == sep@),
{
    if s.len() - i < sep.len() {
        return false;
    }
    let n = s.len();
    let mut j: usize = 0;
    while j < sep.len()
        invariant
            n == s@.len(),
            i <= s@.len(),
            s@.len() - i >= sep@.len(),
            j <= sep@.len(),
            s@.subrange(i as int, i + j) == sep@.subrange(0, j as int),
        decreases sep@.len() - j,
    {
        if s[i + j] != sep[j] {
            assert(s@.subrange(i as int, i + sep@.len())[j as int] != sep@[j as int]);
            return false;
        }
        assert(s@.subrange(i as int, i + j + 1) =~= s@.subrange(i as int, i + j).push(s@[i + j]));
        assert(sep@.subrange(0, j + 1) =~= sep@.subrange(0, j as int).push(sep@[j as int]));
        j += 1;
    }
    assert(sep@.subrange(0, sep@.len() as int) =~= sep@);
    true
}

/// Splits `s` at every leftmost non-overlapping occurrence of `sep`.
pub fn split_on(s: &[char], sep: &[char]) -> (r: Vec<Vec<char>>)
    requires
        sep@.len() > 0,
    ensures
        seqs_of(r@) == split_spec(s@, sep@),
{
    let mut pieces: Vec<Vec<char>> = Vec::new();
    let mut cur: Vec<char> = Vec::new();
    let mut i: usize = 0;
    proof {
        lemma_split_nonempty(s@, sep@);
        assert(s@.subrange(0, s@.len() as int) =~= s@);
        assert(cur@ + split_spec(s@, sep@)[0] =~= split_spec(s@, sep@)[0]);
        assert(prepend_first(cur@, split_spec(s@, sep@)) =~= split_spec(s@, sep@));
        assert(seqs_of(pieces@) =~= Seq::empty());
    }
    while i < s.len()
        invariant
            i <= s@.len(),
            sep@.len() > 0,
            split_spec(s@, sep@) == seqs_of(pieces@) + prepend_first(
                cur@,
                split_spec(s@.subrange(i as int, s@.len() as int), sep@),
            ),
        decreases s@.len() - i,
    {
        let ghost rest = s@.subrange(i as int, s@.len() as int);
        if occurs_at(s, i, sep) {
            let ghost next = s@.subrange(i + sep@.len(), s@.len() as int);
            proof {
                assert(rest.subrange(0, sep@.len() as int) =~= s@.subrange(i as int, i + sep@.len()));
                assert(rest.subrange(sep@.len() as int, rest.len() as int) =~= next);
                lemma_split_nonempty(next, sep@);
                assert(cur@ + Seq::<char>::empty() =~= cur@);
                assert(Seq::<char>::empty() + split_spec(next, sep@)[0] =~= split_spec(next, sep@)[0]);
                assert(prepend_first(Seq::empty(), split_spec(next, sep@)) =~= split_spec(next, sep@));
                assert(prepend_first(cur@, split_spec(rest, sep@)) =~= seq![cur@] + split_spec(next, sep@));
                assert(seqs_of(pieces@.push(cur)) =~= seqs_of(pieces@).push(cur@));
            }
            pieces.push(cur);
            cur = Vec::new();
            i = i + sep.len();
        } else {
            let ghost next = s@.subrange(i + 1, s@.len() as int);
            proof {
                assert(rest.drop_first() =~= next);
                lemma_split_nonempty(next, sep@);
                if rest.len() >= sep@.len() {
                    assert(rest.subrange(0, sep@.len() as int) =~= s@.subrange(i as int, i + sep@.len()));
                }
                assert(cur@ + (seq![s@[i as int]] + split_spec(next, sep@)[0]) =~= cur@.push(s@[i as int]) + split_spec(next, sep@)[0]);
                assert(prepend_first(cur@, split_spec(rest, sep@)) =~= prepend_first(cur@.push(s@[i as int]), split_spec(next, sep@)));
            }
            cur.push(s[i]);
            i = i + 1;
        }
    }
    proof {
        assert(s@.subrange(i as int, s@.len() as int) =~= Seq::empty());
        assert(cur@ + Seq::<char>::empty() =~= cur@);
        assert(seqs_of(pieces@.push(cur)) =~= seqs_of(pieces@).push(cur@));
        assert(prepend_first(cur@, seq![Seq::empty()]) =~= seq![cur@]);
    }
    pieces.push(cur);
    pieces
}

/// Whether two character slices hold the same characters.
pub fn same_chars(a: &[char], b: &[char]) -> (r: bool)
    ensures
        r == (a@ == b@),
{
    if a.len() != b.len() {
        return false;
    }
    let mut i: usize = 0;
    while i < a.len()
        invariant
            a@.len() == b@.len(),
            i <= a@.len(),
            a@.subrange(0, i as int) == b@.subrange(0, i as int),
        decreases a@.len() - i,
    {
        if a[i] != b[i] {
            return false;
        }
        assert(a@.subrange(0, i + 1) =~= a@.subrange(0, i as int).push(a@[i as int]));
        assert(b@.subrange(0, i + 1) =~= b@.subrange(0, i as int).push(b@[i as int]));
        i += 1;
    }
    assert(a@.subrange(0, i as int) =~= a@);
    assert(b@.subrange(0, i as int) =~= b@);
    true
}

/// Whether two strings hold the same characters.
pub fn str_eq(a: &str, b: &str) -> (r: bool)
    ensures
        r == (a@ == b@),
{
    let x = chars_of(a);
    let y = chars_of(b);
    same_chars(x.as_slice(), y.as_slice())
}

/// White space as Unicode's `White_Space` property lists it.
pub open spec fn is_space_spec(c: char) -> bool {
    let u = c as u32;
    (0x9 <= u && u <= 0xD) || u == 0x20 || u == 0x85 || u == 0xA0 || u == 0x1680 || (0x2000 <= u
        && u <= 0x200A) || u == 0x2028 || u == 0x2029 || u == 0x202F || u == 0x205F || u == 0x3000
}

pub fn is_space(c: char) -> (r: bool)
    ensures
        r == is_space_spec(c),
{
    let u = c as u32;
    (0x9 <= u && u <= 0xD) || u == 0x20 || u == 0x85 || u == 0xA0 || u == 0x1680 || (0x2000 <= u
        && u <= 0x200A) || u == 0x2028 || u == 0x2029 || u == 0x202F || u == 0x205F || u == 0x3000
}

/// The pieces of `s` between white-space characters.
pub open spec fn split_space_spec(s: Seq<char>) -> Seq<Seq<char>>
    decreases s.len(),
{
    if s.len() == 0 {
        seq![Seq::empty()]
    } else if is_space_spec(s[0]) {
        seq![Seq::empty()] + split_space_spec(s.drop_first())
    } else {
        prepend_first(seq![s[0]], split_space_spec(s.drop_first()))
    }
}

/// Splitting at white space gives at least one piece.
pub proof fn lemma_split_space_nonempty(s: Seq<char>)
    ensures
        split_space_spec(s).len() >= 1,
    decreases s.len(),
{
    if s.len() > 0 {
        lemma_split_space_nonempty(s.drop_first());
    }
}

/// The pieces of `p` that are not empty, in order.
pub open spec fn nonempty_only(p: Seq<Seq<char>>) -> Seq<Seq<char>>
    decreases p.len(),
{
    if p.len() == 0 {
        p
    } else if p.last().len() > 0 {
        nonempty_only(p.drop_last()).push(p.last())
    } else {
        nonempty_only(p.drop_last())
    }
}

/// The maximal runs of characters that are not white space.
pub open spec fn words_spec(s: Seq<char>) -> Seq<Seq<char>> {
    nonempty_only(split_space_spec(s))
}

fn split_space(s: &[char]) -> (r: Vec<Vec<char>>)
    ensures
        seqs_of(r@) == split_space_spec(s@),
{
    let mut pieces: Vec<Vec<char>> = Vec::new();
    let mut cur: Vec<char> = Vec::new();
    let mut i: usize = 0;
    proof {
        lemma_split_space_nonempty(s@);
        assert(s@.subrange(0, s@.len() as int) =~= s@);
        assert(cur@ + split_space_spec(s@)[0] =~= split_space_spec(s@)[0]);
        assert(prepend_first(cur@, split_space_spec(s@)) =~= split_space_spec(s@));
        assert(seqs_of(pieces@) =~= Seq::empty());
    }
    while i < s.len()
        invariant
            i <= s@.len(),
            split_space_spec(s@) == seqs_of(pieces@) + prepend_first(
                cur@,
                split_space_spec(s@.subrange(i as int, s@.len() as int)),
            ),
        decreases s@.len() - i,
    {
        let ghost rest = s@.subrange(i as int, s@.len() as int);
        let ghost next = s@.subrange(i + 1, s@.len() as int);
        proof {
            assert(rest.drop_first() =~= next);
            lemma_split_space_nonempty(next);
        }
        if is_space(s[i]) {
            proof {
                assert(cur@ + Seq::<char>::empty() =~= cur@);
                assert(Seq::<char>::empty() + split_space_spec(next)[0] =~= split_space_spec(next)[0]);
                assert(prepend_first(Seq::empty(), split_space_spec(next)) =~= split_space_spec(next));
                assert(prepend_first(cur@, split_space_spec(rest)) =~= seq![cur@] + split_space_spec(next));
                assert(seqs_of(pieces@.push(cur)) =~= seqs_of(pieces@).push(cur@));
            }
            pieces.push(cur);
            cur = Vec::new();
        } else {
            proof {
                assert(cur@ + (seq![s@[i as int]] + split_space_spec(next)[0]) =~= cur@.push(s@[i as int]) + split_space_spec(next)[0]);
                assert(prepend_first(cur@, split_space_spec(rest)) =~= prepend_first(cur@.push(s@[i as int]), split_space_spec(next)));
            }
            cur.push(s[i]);
        }
        i = i + 1;
    }
    proof {
        assert(s@.subrange(i as int, s@.len() as int) =~= Seq::empty());
        assert(cur@ + Seq::<char>::empty() =~= cur@);
        assert(seqs_of(pieces@.push(cur)) =~= seqs_of(pieces@).push(cur@));
        assert(prepend_first(cur@, seq![Seq::empty()]) =~= seq![cur@]);
    }
    pieces.push(cur);
    pieces
}

/// Splits `s` into its maximal runs of characters that are not white space.
pub fn words(s: &[char]) -> (r: Vec<Vec<char>>)
    ensures
        seqs_of(r@) == words_spec(s@),
{
    let pieces = split_space(s);
    let mut out: Vec<Vec<char>> = Vec::new();
    let mut i: usize = 0;
    proof {
        assert(seqs_of(pieces@).subrange(0, 0) =~= Seq::empty());
        assert(seqs_of(out@) =~= Seq::empty());
    }
    while i < pieces.len()
        invariant
            i <= pieces@.len(),
            seqs_of(out@) == nonempty_only(seqs_of(pieces@).subrange(0, i as int)),
        decreases pieces@.len() - i,
    {
        let ghost ps = seqs_of(pieces@);
        proof {
            assert(ps.subrange(0, i + 1).drop_last() =~= ps.subrange(0, i as int));
            assert(ps.subrange(0, i + 1).last() == pieces@[i as int]@);
        }
        if pieces[i].len() > 0 {
            let w = crate::text::copy_chars(pieces[i].as_slice());
            proof {
                assert(seqs_of(out@.push(w)) =~= seqs_of(out@).push(w@));
            }
            out.push(w);
        }
        i += 1;
    }
    proof {
        assert(seqs_of(pieces@).subrange(0, i as int) =~= seqs_of(pieces@));
    }
    out
}

/// A copy of the characters.
pub fn copy_chars(s: &[char]) -> (r: Vec<char>)
    ensures
        r@ == s@,
{
    let mut out: Vec<char> = Vec::new();
    let mut i: usize = 0;
    while i < s.len()
        invariant
            i <= s@.len(),
            out@ == s@.subrange(0, i as int),
        decreases s@.len() - i,
    {
        out.push(s[i]);
        i += 1;
    }
    assert(out@ =~= s@);
    out
}

/// The position of the first `c` in `s`.
pub open spec fn index_of_spec(s: Seq<char>, c: char) -> Option<int>
    decreases s.len(),
{
    if s.len() == 0 {
        None
    } else if s[0] == c {
        Some(0)
    } else {
        match index_of_spec(s.drop_first(), c) {
            Some(i) => Some(i + 1),
            None => None,
        }
    }
}

pub fn index_of(s: &[char], c: char) -> (r: Option<usize>)
    ensures
        r matches Some(i) ==> index_of_spec(s@, c) == Some(i as int) && i < s@.len() && s@[i as int]
            == c,
        r is None ==> index_of_spec(s@, c) is None,
{
    let mut i: usize = 0;
    assert(s@.subrange(0, s@.len() as int) =~= s@);
    while i < s.len()
        invariant
            i <= s@.len(),
            index_of_spec(s@, c) == (match index_of_spec(s@.subrange(i as int, s@.len() as int), c) {
                Some(k) => Some(k + i),
                None => None::<int>,
            }),
        decreases s@.len() - i,
    {
        let ghost rest = s@.subrange(i as int, s@.len() as int);
        assert(rest.drop_first() =~= s@.subrange(i + 1, s@.len() as int));
        if s[i] == c {
            return Some(i);
        }
        i += 1;
    }
    assert(s@.subrange(i as int, s@.len() as int) =~= Seq::empty());
    None
}

/// The pieces joined, with `sep` between each two.
pub open spec fn join_spec(p: Seq<Seq<char>>, sep: Seq<char>) -> Seq<char>
    decreases p.len(),
{
    if p.len() == 0 {
        Seq::empty()
    } else if p.len() == 1 {
        p[0]
    } else {
        join_spec(p.drop_last(), sep) + sep + p.last()
    }
}

/// The pieces of `p` from `start` on, joined with `sep` between each two.
pub fn join_from(p: &[Vec<char>], start: usize, sep: &[char]) -> (r: Vec<char>)
    requires
        start <= p@.len(),
    ensures
        r@ == join_spec(seqs_of(p@).subrange(start as int, p@.len() as int), sep@),
{
    let mut out: Vec<char> = Vec::new();
    let mut i: usize = start;
    while i < p.len()
        invariant
            start <= i <= p@.len(),
            out@ == join_spec(seqs_of(p@).subrange(start as int, i as int), sep@),
        decreases p@.len() - i,
    {
        let ghost ps = seqs_of(p@);
        proof {
            assert(ps.subrange(start as int, i + 1).drop_last() =~= ps.subrange(start as int, i as int));
        }
        if i > start {
            append_chars(&mut out, sep);
        }
        append_chars(&mut out, p[i].as_slice());
        i += 1;
    }
    out
}

pub fn append_chars(out: &mut Vec<char>, s: &[char])
    ensures
        final(out)@ == old(out)@ + s@,
{
    let mut i: usize = 0;
    while i < s.len()
        invariant
            i <= s@.len(),
            out@ == old(out)@ + s@.subrange(0, i as int),
        decreases s@.len() - i,
    {
        out.push(s[i]);
        i += 1;
    }
    assert(s@.subrange(0, i as int) =~= s@);
}

/// `s` without the characters `c` at its start.
pub open spec fn trim_start_spec(s: Seq<char>, c: char) -> Seq<char>
    decreases s.len(),
{
    if s.len() > 0 && s[0] == c {
        trim_start_spec(s.drop_first(), c)
    } else {
        s
    }
}

/// `s` without the characters `c` at its end.
pub open spec fn trim_end_spec(s: Seq<char>, c: char) -> Seq<char>
    decreases s.len(),
{
    if s.len() > 0 && s.last() == c {
        trim_end_spec(s.drop_last(), c)
    } else {
        s
    }
}

/// `s` without the characters `c` at either end.
pub open spec fn trim_spec(s: Seq<char>, c: char) -> Seq<char> {
    trim_end_spec(trim_start_spec(s, c), c)
}

pub fn trim_char(s: &[char], c: char) -> (r: Vec<char>)
    ensures
        r@ == trim_spec(s@, c),
{
    let mut i: usize = 0;
    assert(s@.subrange(0, s@.len() as int) =~= s@);
    while i < s.len() && s[i] == c
        invariant
            i <= s@.len(),
            trim_start_spec(s@, c) == trim_start_spec(s@.subrange(i as int, s@.len() as int), c),
        decreases s@.len() - i,
    {
        assert(s@.subrange(i as int, s@.len() as int).drop_first() =~= s@.subrange(i + 1, s@.len() as int));
        i += 1;
    }
    let mut j: usize = s.len();
    assert(s@.subrange(i as int, j as int) =~= s@.subrange(i as int, s@.len() as int));
    while j > i && s[j - 1] == c
        invariant
            i <= j <= s@.len(),
            trim_spec(s@, c) == trim_end_spec(s@.subrange(i as int, j as int), c),
        decreases j,
    {
        assert(s@.subrange(i as int, j as int).drop_last() =~= s@.subrange(i as int, j - 1));
        j -= 1;
    }
    let mut out: Vec<char> = Vec::new();
    let mut k: usize = i;
    while k < j
        invariant
            i <= k <= j <= s@.len(),
            out@ == s@.subrange(i as int, k as int),
        decreases j - k,
    {
        out.push(s[k]);
        k += 1;
    }
    out
}

/// The decimal digit of `d`.
pub open spec fn digit_spec(d: nat) -> char {
    if d == 0 {
        '0'
    } else if d == 1 {
        '1'
    } else if d == 2 {
        '2'
    } else if d == 3 {
        '3'
    } else if d == 4 {
        '4'
    } else if d == 5 {
        '5'
    } else if d == 6 {
        '6'
    } else if d == 7 {
        '7'
    } else if d == 8 {
        '8'
    } else {
        '9'
    }
}

/// `n` written in decimal, without leading zeros.
pub open spec fn decimal_spec(n: nat) -> Seq<char>
    decreases n,
{
    if n < 10 {
        seq![digit_spec(n)]
    } else {
        decimal_spec(n / 10).push(digit_spec(n % 10))
    }
}

fn digit(d: u64) -> (r: char)
    requires
        d < 10,
    ensures
        r == digit_spec(d as nat),
{
    if d == 0 {
        '0'
    } else if d == 1 {
        '1'
    } else if d == 2 {
        '2'
    } else if d == 3 {
        '3'
    } else if d == 4 {
        '4'
    } else if d == 5 {
        '5'
    } else if d == 6 {
        '6'
    } else if d == 7 {
        '7'
    } else if d == 8 {
        '8'
    } else {
        '9'
    }
}

/// `n` written in decimal.
pub fn decimal(n: u64) -> (r: Vec<char>)
    ensures
        r@ == decimal_spec(n as nat),
    decreases n,
{
    if n < 10 {
        let mut v: Vec<char> = Vec::new();
        v.push(digit(n));
        v
    } else {
        let mut v = decimal(n / 10);
        v.push(digit(n % 10));
        v
    }
}

/// The lower-case form of a text, as Unicode defines it.
pub uninterp spec fn lower_of(s: Seq<char>) -> Seq<char>;

/// Relies on `str::to_lowercase`: its result depends on the characters alone.
#[verifier::external_body]
pub(crate) fn lowercase(s: &str) -> (r: String)
    ensures
        r@ == lower_of(s@),
{
    s.to_lowercase()
}

/// `s` without white space at its start.
pub open spec fn trim_start_space(s: Seq<char>) -> Seq<char>
    decreases s.len(),
{
    if s.len() > 0 && is_space_spec(s[0]) {
        trim_start_space(s.drop_first())
    } else {
        s
    }
}

/// `s` without white space at its end.
pub open spec fn trim_end_space(s: Seq<char>) -> Seq<char>
    decreases s.len(),
{
    if s.len() > 0 && is_space_spec(s.last()) {
        trim_end_space(s.drop_last())
    } else {
        s
    }
}

/// `s` without white space at either end.
pub open spec fn trim_space_spec(s: Seq<char>) -> Seq<char> {
    trim_end_space(trim_start_space(s))
}

pub fn trim_space(s: &[char]) -> (r: Vec<char>)
    ensures
        r@ == trim_space_spec(s@),
{
    let mut i: usize = 0;
    assert(s@.subrange(0, s@.len() as int) =~= s@);
    while i < s.len() && is_space(s[i])
        invariant
            i <= s@.len(),
            trim_start_space(s@) == trim_start_space(s@.subrange(i as int, s@.len() as int)),
        decreases s@.len() - i,
    {
        assert(s@.subrange(i as int, s@.len() as int).drop_first() =~= s@.subrange(i + 1, s@.len() as int));
        i += 1;
    }
    let mut j: usize = s.len();
    assert(s@.subrange(i as int, j as int) =~= s@.subrange(i as int, s@.len() as int));
    while j > i && is_space(s[j - 1])
        invariant
            i <= j <= s@.len(),
            trim_space_spec(s@) == trim_end_space(s@.subrange(i as int, j as int)),
        decreases j,
    {
        assert(s@.subrange(i as int, j as int).drop_last() =~= s@.subrange(i as int, j - 1));
        j -= 1;
    }
    let mut out: Vec<char> = Vec::new();
    let mut k: usize = i;
    while k < j
        invariant
            i <= k <= j <= s@.len(),
            out@ == s@.subrange(i as int, k as int),
        decreases j - k,
    {
        out.push(s[k]);
        k += 1;
    }
    out
}

/// `s` without its first and last character.
pub fn inner_chars(s: &[char]) -> (r: Vec<char>)
    requires
        s@.len() >= 2,
    ensures
        r@ == s@.subrange(1, s@.len() - 1),
{
    let mut out: Vec<char> = Vec::new();
    let mut k: usize = 1;
    while k < s.len() - 1
        invariant
            s@.len() >= 2,
            1 <= k <= s@.len() - 1,
            out@ == s@.subrange(1, k as int),
        decreases s@.len() - k,
    {
        out.push(s[k]);
        k += 1;
    }
    out
}

/// Where `c` occurs in `s`, the first piece of splitting at `c` is followed by `c`.
pub proof fn lemma_split_prefix(s: Seq<char>, c: char)
    ensures
        split_spec(s, seq![c]).len() >= 2 ==> {
            let p = split_spec(s, seq![c])[0];
            &&& p.len() < s.len()
            &&& s.subrange(0, p.len() as int) == p
            &&& s[p.len() as int] == c
        },
    decreases s.len(),
{
    let sep = seq![c];
    if s.len() == 0 {
    } else if s.len() >= 1 && s.subrange(0, 1) == sep {
        assert(s[0] == s.subrange(0, 1)[0]);
    } else {
        lemma_split_prefix(s.drop_first(), c);
        lemma_split_nonempty(s.drop_first(), sep);
        let q = split_spec(s.drop_first(), sep);
        if q.len() >= 2 {
            let p = split_spec(s, sep)[0];
            assert(p == seq![s[0]] + q[0]);
            assert(s.subrange(0, p.len() as int) =~= seq![s[0]] + s.drop_first().subrange(0, q[0].len() as int));
        }
    }
}

} // verus!
