use vstd::prelude::*;
use vstd::utf8::encode_utf8;
use crate::http::HttpMethod;
use crate::json::{all_digits, digits_value, is_digit_spec, lemma_digits_prefix};
use crate::string_map::{map_of, StringMap};
use crate::text::{
    chars_of, index_of, index_of_spec, join_from, join_spec, lemma_split_nonempty, seqs_of,
    split_on, split_spec, string_of, words, words_spec,
};

verus! {

/// Why a request could not be read.
#[derive(Clone, Copy, Debug, PartialEq, Eq, Structural)]
pub enum ParseError {
    /// The first line does not hold a method and a path.
    RequestLine,
    /// The method is not one the server serves.
    Method,
    /// A header line has no colon.
    Header,
}

/// What a request holds, as mathematical values.
pub struct RequestView {
    pub method: HttpMethod,
    pub path: Seq<char>,
    pub qualified_path: Seq<char>,
    pub query_params: Map<Seq<char>, Seq<char>>,
    pub path_params: Map<Seq<char>, Seq<char>>,
    pub headers: Map<Seq<char>, Seq<char>>,
    pub body: Seq<char>,
    pub raw: Seq<char>,
}

pub open spec fn crlf() -> Seq<char> {
    seq!['\r', '\n']
}

/// The index of the first empty line at or after `i`, or the number of lines.
pub open spec fn blank_from(lines: Seq<Seq<char>>, i: int) -> int
    decreases lines.len() - i,
{
    if i >= lines.len() {
        lines.len() as int
    } else if lines[i].len() == 0 {
        i
    } else {
        blank_from(lines, i + 1)
    }
}

/// `v` without one leading space.
pub open spec fn drop_one_space(v: Seq<char>) -> Seq<char> {
    if v.len() > 0 && v[0] == ' ' {
        v.drop_first()
    } else {
        v
    }
}

/// A header line split at its first colon; `None` where it has none.
pub open spec fn header_spec(line: Seq<char>) -> Option<(Seq<char>, Seq<char>)> {
    match index_of_spec(line, ':') {
        Some(c) => Some(
            (line.subrange(0, c), drop_one_space(line.subrange(c + 1, line.len() as int))),
        ),
        None => None,
    }
}

/// The headers of the lines, or `None` where one of them is malformed.
pub open spec fn header_pairs(ls: Seq<Seq<char>>) -> Option<Seq<(Seq<char>, Seq<char>)>>
    decreases ls.len(),
{
    if ls.len() == 0 {
        Some(Seq::empty())
    } else {
        match (header_pairs(ls.drop_last()), header_spec(ls.last())) {
            (Some(hs), Some(h)) => Some(hs.push(h)),
            _ => None,
        }
    }
}

/// A query parameter split at `=`; a missing value is empty.
pub open spec fn query_pair(p: Seq<char>) -> (Seq<char>, Seq<char>) {
    let kv = split_spec(p, seq!['=']);
    (kv[0], if kv.len() > 1 { kv[1] } else { Seq::empty() })
}

/// The key and value of each query parameter, in order.
pub open spec fn query_pairs(ps: Seq<Seq<char>>) -> Seq<(Seq<char>, Seq<char>)>
    decreases ps.len(),
{
    if ps.len() == 0 {
        Seq::empty()
    } else {
        query_pairs(ps.drop_last()).push(query_pair(ps.last()))
    }
}

/// The query parameters of a query string; a later key wins.
pub open spec fn query_map(qs: Seq<char>) -> Map<Seq<char>, Seq<char>> {
    if qs.len() == 0 {
        Map::empty()
    } else {
        map_of(query_pairs(split_spec(qs, seq!['&'])))
    }
}

/// The path before its first `?`.
pub open spec fn qualified_of(path: Seq<char>) -> Seq<char> {
    split_spec(path, seq!['?'])[0]
}

/// The text between the first and the second `?` of the path.
pub open spec fn query_of(path: Seq<char>) -> Seq<char> {
    let pp = split_spec(path, seq!['?']);
    if pp.len() > 1 {
        pp[1]
    } else {
        Seq::empty()
    }
}

/// The lines after the empty line `k`, joined again: the rest of the text.
pub open spec fn body_of(lines: Seq<Seq<char>>, k: int) -> Seq<char> {
    if k < lines.len() {
        join_spec(lines.subrange(k + 1, lines.len() as int), crlf())
    } else {
        Seq::empty()
    }
}

/// What reading `raw` as a request gives.
pub open spec fn parse_spec(raw: Seq<char>) -> Result<RequestView, ParseError> {
    let lines = split_spec(raw, crlf());
    let toks = words_spec(lines[0]);
    if toks.len() < 2 {
        Err(ParseError::RequestLine)
    } else {
        match HttpMethod::parse_spec(toks[0]) {
            None => Err(ParseError::Method),
            Some(m) => {
                let k = blank_from(lines, 1);
                match header_pairs(lines.subrange(1, k)) {
                    None => Err(ParseError::Header),
                    Some(hs) => Ok(
                        RequestView {
                            method: m,
                            path: toks[1],
                            qualified_path: qualified_of(toks[1]),
                            query_params: query_map(query_of(toks[1])),
                            path_params: Map::empty(),
                            headers: map_of(hs),
                            body: body_of(lines, k),
                            raw: raw,
                        },
                    ),
                }
            },
        }
    }
}

proof fn lemma_blank_from(lines: Seq<Seq<char>>, i: int)
    requires
        0 <= i <= lines.len(),
    ensures
        i <= blank_from(lines, i) <= lines.len(),
        blank_from(lines, i) < lines.len() ==> lines[blank_from(lines, i)].len() == 0,
        forall|m: int| i <= m < blank_from(lines, i) ==> lines[m].len() > 0,
    decreases lines.len() - i,
{
    if i < lines.len() && lines[i].len() > 0 {
        lemma_blank_from(lines, i + 1);
    }
}

proof fn lemma_header_pairs_none(ls: Seq<Seq<char>>, i: int)
    requires
        0 <= i < ls.len(),
        header_spec(ls[i]) is None,
    ensures
        header_pairs(ls) is None,
    decreases ls.len(),
{
    if i < ls.len() - 1 {
        lemma_header_pairs_none(ls.drop_last(), i);
    }
}

/// An HTTP request as the server read it.
pub struct Request {
    method: HttpMethod,
    path: String,
    qualified_path: String,
    query_params: StringMap,
    path_params: StringMap,
    headers: StringMap,
    body: String,
    raw: String,
}

impl View for Request {
    type V = RequestView;

    closed spec fn view(&self) -> RequestView {
        RequestView {
            method: self.method,
            path: self.path@,
            qualified_path: self.qualified_path@,
            query_params: self.query_params@,
            path_params: self.path_params@,
            headers: self.headers@,
            body: self.body@,
            raw: self.raw@,
        }
    }
}

impl Request {
    pub fn method(&self) -> (r: &HttpMethod)
        ensures
            *r == self@.method,
    {
        &self.method
    }

    pub fn path(&self) -> (r: &str)
        ensures
            r@ == self@.path,
    {
        self.path.as_str()
    }

    pub fn qualified_path(&self) -> (r: &str)
        ensures
            r@ == self@.qualified_path,
    {
        self.qualified_path.as_str()
    }

    pub fn headers(&self) -> (r: &StringMap)
        ensures
            r@ == self@.headers,
    {
        &self.headers
    }

    pub fn body(&self) -> (r: &str)
        ensures
            r@ == self@.body,
    {
        self.body.as_str()
    }

    pub fn query_params(&self) -> (r: &StringMap)
        ensures
            r@ == self@.query_params,
    {
        &self.query_params
    }

    pub fn path_params(&self) -> (r: &StringMap)
        ensures
            r@ == self@.path_params,
    {
        &self.path_params
    }

    /// Replaces the path parameters, leaving the rest as it was.
    pub fn set_path_params(&mut self, path_params: StringMap)
        ensures
            final(self)@ == (RequestView { path_params: path_params@, ..old(self)@ }),
    {
        self.path_params = path_params;
    }

    pub fn raw(&self) -> (r: &str)
        ensures
            r@ == self@.raw,
    {
        self.raw.as_str()
    }
}

/// The header of one line, or `None` where the line has no colon.
fn parse_header(line: &[char]) -> (r: Option<(String, String)>)
    ensures
        match r {
            Some(h) => header_spec(line@) == Some((h.0@, h.1@)),
            None => header_spec(line@) is None,
        },
{
    match index_of(line, ':') {
        None => None,
        Some(c) => {
            let mut key: Vec<char> = Vec::new();
            let mut i: usize = 0;
            while i < c
                invariant
                    c < line@.len(),
                    i <= c,
                    key@ == line@.subrange(0, i as int),
                decreases c - i,
            {
                key.push(line[i]);
                i += 1;
            }
            let n = line.len();
            assert(c < n);
            let mut start = c + 1;
            if start < line.len() && line[start] == ' ' {
                start = start + 1;
            }
            let mut value: Vec<char> = Vec::new();
            let mut k: usize = start;
            while k < line.len()
                invariant
                    start <= k <= line@.len(),
                    value@ == line@.subrange(start as int, k as int),
                decreases line@.len() - k,
            {
                value.push(line[k]);
                k += 1;
            }
            proof {
                let after = line@.subrange(c + 1, line@.len() as int);
                if after.len() > 0 && after[0] == ' ' {
                    assert(after.drop_first() =~= line@.subrange(start as int, line@.len() as int));
                } else {
                    assert(after =~= line@.subrange(start as int, line@.len() as int));
                }
            }
            Some((string_of(key.as_slice()), string_of(value.as_slice())))
        },
    }
}

/// The query parameters of a query string.
fn parse_query(qs: &[char]) -> (r: StringMap)
    ensures
        r@ == query_map(qs@),
{
    let mut m = StringMap::new();
    if qs.len() == 0 {
        return m;
    }
    let amp = vec!['&'];
    let eq = vec!['='];
    let ps = split_on(qs, amp.as_slice());
    assert(amp@ =~= seq!['&']);
    assert(eq@ =~= seq!['=']);
    let mut i: usize = 0;
    proof {
        assert(seqs_of(ps@).subrange(0, 0) =~= Seq::empty());
    }
    while i < ps.len()
        invariant
            i <= ps@.len(),
            eq@ == seq!['='],
            m@ == map_of(query_pairs(seqs_of(ps@).subrange(0, i as int))),
        decreases ps@.len() - i,
    {
        let kv = split_on(ps[i].as_slice(), eq.as_slice());
        proof {
            lemma_split_nonempty(ps@[i as int]@, eq@);
        }
        let key = string_of(kv[0].as_slice());
        let value = if kv.len() > 1 {
            string_of(kv[1].as_slice())
        } else {
            string_of(Vec::<char>::new().as_slice())
        };
        proof {
            let xs = seqs_of(ps@);
            assert(xs.subrange(0, i + 1).drop_last() =~= xs.subrange(0, i as int));
            assert(xs[i as int] == ps@[i as int]@);
            assert(seqs_of(kv@)[0] == kv@[0]@);
            if kv.len() > 1 {
                assert(seqs_of(kv@)[1] == kv@[1]@);
            }
            assert(query_pair(xs[i as int]) == (key@, value@));
            let qp = query_pairs(xs.subrange(0, i + 1));
            assert(qp.drop_last() == query_pairs(xs.subrange(0, i as int)));
        }
        m.insert(key, value);
        i += 1;
    }
    proof {
        assert(seqs_of(ps@).subrange(0, i as int) =~= seqs_of(ps@));
        assert(split_spec(qs@, seq!['&']) == seqs_of(ps@));
    }
    m
}

/// Reads a request from its text.
pub fn parse(request_raw: &str) -> (r: Result<Request, ParseError>)
    ensures
        match r {
            Ok(req) => parse_spec(request_raw@) == Ok::<RequestView, ParseError>(req@),
            Err(e) => parse_spec(request_raw@) == Err::<RequestView, ParseError>(e),
        },
{
    let raw = chars_of(request_raw);
    let sep = vec!['\r', '\n'];
    let lines = split_on(raw.as_slice(), sep.as_slice());
    let ghost ls = seqs_of(lines@);
    proof {
        assert(sep@ == crlf());
        lemma_split_nonempty(raw@, crlf());
    }
    let toks = words(lines[0].as_slice());
    let ghost ts = seqs_of(toks@);
    assert(ls[0] == lines@[0]@);
    assert(ls == split_spec(request_raw@, crlf()));
    assert(ts == words_spec(ls[0]));
    if toks.len() < 2 {
        return Err(ParseError::RequestLine);
    }
    assert(ts[0] == toks@[0]@ && ts[1] == toks@[1]@);
    let method = match HttpMethod::from_str(string_of(toks[0].as_slice()).as_str()) {
        Some(m) => m,
        None => {
            return Err(ParseError::Method);
        },
    };
    let mut headers = StringMap::new();
    let ghost mut hs: Seq<(Seq<char>, Seq<char>)> = Seq::empty();
    let mut j: usize = 1;
    proof {
        assert(ls.subrange(1, 1) =~= Seq::<Seq<char>>::empty());
    }
    while j < lines.len() && lines[j].len() > 0
        invariant
            ls == seqs_of(lines@),
            ls == split_spec(request_raw@, crlf()),
            ts == seqs_of(toks@),
            ts == words_spec(ls[0]),
            ts.len() >= 2,
            HttpMethod::parse_spec(ts[0]) == Some(method),
            1 <= j <= lines@.len(),
            blank_from(ls, 1) == blank_from(ls, j as int),
            header_pairs(ls.subrange(1, j as int)) == Some(hs),
            headers@ == map_of(hs),
        decreases lines@.len() - j,
    {
        match parse_header(lines[j].as_slice()) {
            None => {
                proof {
                    assert(ls[j as int] == lines@[j as int]@);
                    lemma_blank_from(ls, j as int);
                    let k = blank_from(ls, 1);
                    assert(j < k);
                    assert(ls.subrange(1, k)[j - 1] == ls[j as int]);
                    lemma_header_pairs_none(ls.subrange(1, k), j - 1);

                }
                return Err(ParseError::Header);
            },
            Some(h) => {
                let ghost old_hs = hs;
                proof {
                    assert(ls.subrange(1, j + 1).drop_last() =~= ls.subrange(1, j as int));
                    hs = hs.push((h.0@, h.1@));
                    assert(hs.drop_last() =~= old_hs);
                }
                headers.insert(h.0, h.1);
                j += 1;
            },
        }
    }
    let ghost k = j as int;
    assert(blank_from(ls, 1) == k);
    let qmark = vec!['?'];
    assert(qmark@ =~= seq!['?']);
    let pp = split_on(toks[1].as_slice(), qmark.as_slice());
    proof {
        lemma_split_nonempty(toks@[1]@, qmark@);
    }
    let qualified_path = string_of(pp[0].as_slice());
    let query_params = if pp.len() > 1 {
        parse_query(pp[1].as_slice())
    } else {
        parse_query(Vec::<char>::new().as_slice())
    };
    let body = if j < lines.len() {
        let joined = join_from(lines.as_slice(), j + 1, sep.as_slice());
        string_of(joined.as_slice())
    } else {
        string_of(Vec::<char>::new().as_slice())
    };
    proof {
        if j >= lines.len() {
            assert(body@ =~= Seq::<char>::empty());
        }
        let e: Seq<char> = Seq::empty();
        assert(query_map(e) == Map::<Seq<char>, Seq<char>>::empty());
    }
    let req = Request {
        method,
        path: string_of(toks[1].as_slice()),
        qualified_path,
        query_params,
        path_params: StringMap::new(),
        headers,
        body,
        raw: string_of(raw.as_slice()),
    };
    proof {
        assert(seqs_of(pp@)[0] == pp@[0]@);
        if pp.len() > 1 {
            assert(seqs_of(pp@)[1] == pp@[1]@);
        }
        assert(req@.query_params == query_map(query_of(toks@[1]@)));
    }
    Ok(req)
}

/// The length that a `Content-Length` header gives, where it is a run of
/// decimal digits.
pub open spec fn content_length_of(headers: Map<Seq<char>, Seq<char>>) -> Option<nat> {
    if headers.contains_key("Content-Length"@) && headers["Content-Length"@].len() > 0
        && all_digits(headers["Content-Length"@]) {
        Some(digits_value(headers["Content-Length"@]))
    } else {
        None
    }
}

/// Whether `raw` holds a whole request: its header block has ended with an
/// empty line, itself ended by a line break, and, where a `Content-Length` header gives a length, the body
/// holds at least that many bytes. A malformed header block counts as whole:
/// reading on would not mend it.
pub open spec fn complete_spec(raw: Seq<char>) -> bool {
    let lines = split_spec(raw, crlf());
    let k = blank_from(lines, 1);
    k + 1 < lines.len() && match header_pairs(lines.subrange(1, k)) {
        Some(hs) => match content_length_of(map_of(hs)) {
            Some(n) => encode_utf8(join_spec(lines.subrange(k + 1, lines.len() as int), crlf())).len()
                >= n,
            None => true,
        },
        None => true,
    }
}

/// Whether the body length `have` reaches the length that the digits `ds` write.
fn reaches(ds: &[char], have: usize) -> (r: bool)
    requires
        ds@.len() > 0,
        all_digits(ds@),
    ensures
        r == (have as nat >= digits_value(ds@)),
{
    let mut acc: u128 = 0;
    let mut k: usize = 0;
    while k < ds.len()
        invariant
            k <= ds@.len(),
            all_digits(ds@),
            acc as nat == digits_value(ds@.subrange(0, k as int)),
            acc <= have,
        decreases ds@.len() - k,
    {
        let c = ds[k];
        assert(is_digit_spec(ds@[k as int]));
        assert(ds@.subrange(0, k + 1).drop_last() =~= ds@.subrange(0, k as int));
        let d = (c as u32 - '0' as u32) as u128;
        acc = acc * 10 + d;
        k += 1;
        if acc > have as u128 {
            proof {
                lemma_digits_prefix(ds@, k as int);
            }
            return false;
        }
    }
    assert(ds@.subrange(0, k as int) =~= ds@);
    true
}

/// Whether the accumulated text `raw` holds a whole request, so that reading
/// from the connection can stop.
pub fn is_complete(raw: &str) -> (r: bool)
    ensures
        r == complete_spec(raw@),
{
    let cs = chars_of(raw);
    let sep = vec!['\r', '\n'];
    let lines = split_on(cs.as_slice(), sep.as_slice());
    let ghost ls = seqs_of(lines@);
    proof {
        assert(sep@ == crlf());
        lemma_split_nonempty(raw@, crlf());
    }
    let mut headers = StringMap::new();
    let ghost mut hs: Seq<(Seq<char>, Seq<char>)> = Seq::empty();
    let mut malformed = false;
    let ghost mut bad: int = 0;
    let mut j: usize = 1;
    proof {
        assert(ls.subrange(1, 1) =~= Seq::<Seq<char>>::empty());
    }
    while j < lines.len() && lines[j].len() > 0
        invariant
            ls == seqs_of(lines@),
            ls == split_spec(raw@, crlf()),
            1 <= j <= lines@.len(),
            blank_from(ls, 1) == blank_from(ls, j as int),
            !malformed ==> header_pairs(ls.subrange(1, j as int)) == Some(hs),
            !malformed ==> headers@ == map_of(hs),
            malformed ==> 1 <= bad < j && header_spec(ls[bad]) is None,
        decreases lines@.len() - j,
    {
        if !malformed {
            match parse_header(lines[j].as_slice()) {
                None => {
                    proof {
                        assert(ls[j as int] == lines@[j as int]@);
                        bad = j as int;
                    }
                    malformed = true;
                },
                Some(h) => {
                    let ghost old_hs = hs;
                    proof {
                        assert(ls.subrange(1, j + 1).drop_last() =~= ls.subrange(1, j as int));
                        hs = hs.push((h.0@, h.1@));
                        assert(hs.drop_last() =~= old_hs);
                    }
                    headers.insert(h.0, h.1);
                },
            }
        }
        j += 1;
    }
    assert(blank_from(ls, 1) == j as int);
    if j >= lines.len() - 1 {
        return false;
    }
    if malformed {
        proof {
            let k = j as int;
            assert(ls.subrange(1, k)[bad - 1] == ls[bad]);
            lemma_header_pairs_none(ls.subrange(1, k), bad - 1);
        }
        return true;
    }
    match headers.get("Content-Length") {
        None => true,
        Some(v) => {
            let ds = chars_of(v.as_str());
            if !(ds.len() > 0 && digits_only(ds.as_slice())) {
                return true;
            }
            assert(content_length_of(map_of(hs)) == Some(digits_value(ds@)));
            let body = join_from(lines.as_slice(), j + 1, sep.as_slice());
            assert(body@ == join_spec(ls.subrange(j + 1, ls.len() as int), crlf()));
            let body_str = string_of(body.as_slice());
            let have = body_str.as_str().as_bytes().len();
            assert(have == encode_utf8(body@).len());
            reaches(ds.as_slice(), have)
        },
    }
}

/// Whether every character of `s` is a decimal digit.
fn digits_only(s: &[char]) -> (r: bool)
    ensures
        r == all_digits(s@),
{
    let mut m: usize = 0;
    while m < s.len()
        invariant
            m <= s@.len(),
            forall|i: int| 0 <= i < m ==> is_digit_spec(#[trigger] s@[i]),
        decreases s@.len() - m,
    {
        let c = s[m];
        if !((c as u32) >= ('0' as u32) && (c as u32) <= ('9' as u32)) {
            assert(!is_digit_spec(s@[m as int]));
            return false;
        }
        m += 1;
    }
    true
}

} // verus!
