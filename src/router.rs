use vstd::prelude::*;
use crate::http::HttpMethod;
use crate::{Configuration, Logging};
use crate::string_map::{map_of, StringMap};
use crate::text::{
    chars_of, join_spec, lemma_split_nonempty, lower_of, lowercase, same_chars, seqs_of, split_on,
    split_spec, string_of,
};

verus! {

/// Whether a pattern segment names a parameter: it is written `{name}`.
pub open spec fn is_param_spec(seg: Seq<char>) -> bool {
    seg.len() >= 1 && seg[0] == '{' && seg.last() == '}'
}

/// `s` without any brace.
pub open spec fn strip_braces(s: Seq<char>) -> Seq<char>
    decreases s.len(),
{
    if s.len() == 0 {
        s
    } else if s.last() == '{' || s.last() == '}' {
        strip_braces(s.drop_last())
    } else {
        strip_braces(s.drop_last()).push(s.last())
    }
}

/// The name a parameter segment binds.
pub open spec fn param_name(seg: Seq<char>) -> Seq<char> {
    lower_of(strip_braces(seg))
}

/// `s` with each run of slashes made one slash.
pub open spec fn collapse_slashes(s: Seq<char>) -> Seq<char>
    decreases s.len(),
{
    if s.len() == 0 {
        s
    } else if s.len() >= 2 && s.last() == '/' && s[s.len() - 2] == '/' {
        collapse_slashes(s.drop_last())
    } else {
        collapse_slashes(s.drop_last()).push(s.last())
    }
}

/// The segments of a path: the pieces between its slashes.
pub open spec fn path_segments(p: Seq<char>) -> Seq<Seq<char>> {
    split_spec(p, seq!['/'])
}

/// The segments of `segs` that are literals, in order.
pub open spec fn literal_segments(segs: Seq<Seq<char>>) -> Seq<Seq<char>>
    decreases segs.len(),
{
    if segs.len() == 0 {
        segs
    } else if is_param_spec(segs.last()) {
        literal_segments(segs.drop_last())
    } else {
        literal_segments(segs.drop_last()).push(segs.last())
    }
}

/// The names of the parameter segments of `segs`, in order.
pub open spec fn param_names(segs: Seq<Seq<char>>) -> Seq<Seq<char>>
    decreases segs.len(),
{
    if segs.len() == 0 {
        segs
    } else if is_param_spec(segs.last()) {
        param_names(segs.drop_last()).push(param_name(segs.last()))
    } else {
        param_names(segs.drop_last())
    }
}

/// A route as mathematical values.
pub struct RouteView {
    pub method: HttpMethod,
    pub path: Seq<char>,
    pub base_path: Seq<char>,
    pub segments: Seq<Seq<char>>,
    /// For each segment, the name it binds where it is a parameter.
    pub names: Seq<Seq<char>>,
}

/// Whether a pattern segment accepts a request segment: a parameter accepts
/// any non-empty one, a literal only itself.
pub open spec fn segment_matches(pat: Seq<char>, seg: Seq<char>) -> bool {
    if is_param_spec(pat) {
        seg.len() > 0
    } else {
        pat == seg
    }
}

/// Whether a route accepts a request with method `m` and path segments `segs`.
pub open spec fn route_matches(r: RouteView, m: HttpMethod, segs: Seq<Seq<char>>) -> bool {
    &&& r.method == m
    &&& r.segments.len() == segs.len()
    &&& forall|i: int| 0 <= i < segs.len() ==> segment_matches(#[trigger] r.segments[i], segs[i])
}

/// The first route from position `i` on that accepts the request.
pub open spec fn first_match_from(
    routes: Seq<RouteView>,
    m: HttpMethod,
    segs: Seq<Seq<char>>,
    i: int,
) -> Option<int>
    decreases routes.len() - i,
{
    if i < 0 || i >= routes.len() {
        None
    } else if route_matches(routes[i], m, segs) {
        Some(i)
    } else {
        first_match_from(routes, m, segs, i + 1)
    }
}

/// The first route, in registration order, that accepts the request.
pub open spec fn first_match(routes: Seq<RouteView>, m: HttpMethod, segs: Seq<Seq<char>>) -> Option<
    int,
> {
    first_match_from(routes, m, segs, 0)
}

proof fn lemma_first_match_from(
    routes: Seq<RouteView>,
    m: HttpMethod,
    segs: Seq<Seq<char>>,
    start: int,
    i: int,
)
    requires
        0 <= start <= i < routes.len(),
        route_matches(routes[i], m, segs),
        forall|k: int| 0 <= k < start ==> !route_matches(#[trigger] routes[k], m, segs),
    ensures
        first_match_from(routes, m, segs, start) matches Some(j) && start <= j <= i
            && route_matches(routes[j], m, segs) && forall|k: int|
            0 <= k < j ==> !route_matches(#[trigger] routes[k], m, segs),
    decreases i - start,
{
    if !route_matches(routes[start], m, segs) {
        lemma_first_match_from(routes, m, segs, start + 1, i);
    }
}

/// Whenever a registered route accepts a request, exactly one route handles
/// it: the first, in registration order, of those that accept it; it stands
/// no later than that route.
pub proof fn lemma_first_registered_wins(
    routes: Seq<RouteView>,
    m: HttpMethod,
    segs: Seq<Seq<char>>,
    i: int,
)
    requires
        0 <= i < routes.len(),
        route_matches(routes[i], m, segs),
    ensures
        first_match(routes, m, segs) matches Some(j) && j <= i && route_matches(routes[j], m, segs)
            && forall|k: int| 0 <= k < j ==> !route_matches(#[trigger] routes[k], m, segs),
{
    lemma_first_match_from(routes, m, segs, 0, i);
}

/// The views of the routes of a table, in order.
pub open spec fn table_view<H>(t: Seq<(String, HttpMethod, Route<H>)>) -> Seq<RouteView>
    decreases t.len(),
{
    if t.len() == 0 {
        Seq::empty()
    } else {
        table_view(t.drop_last()).push(t.last().2@)
    }
}

proof fn lemma_table_view<H>(t: Seq<(String, HttpMethod, Route<H>)>)
    ensures
        table_view(t).len() == t.len(),
        forall|i: int| 0 <= i < t.len() ==> #[trigger] table_view(t)[i] == t[i].2@,
    decreases t.len(),
{
    if t.len() > 0 {
        lemma_table_view(t.drop_last());
        assert forall|i: int| 0 <= i < t.len() implies #[trigger] table_view(t)[i] == t[i].2@ by {
            if i < t.len() - 1 {
                assert(t.drop_last()[i] == t[i]);
            }
        }
    }
}

/// The listing of the first `n` routes of a table.
pub open spec fn listing_spec<H>(t: Seq<(String, HttpMethod, Route<H>)>, n: int) -> Seq<char>
    decreases n,
{
    if n <= 0 || n > t.len() {
        Seq::empty()
    } else {
        let e = t[n - 1];
        listing_spec(t, n - 1) + e.0@ + seq![' '] + e.1.name_spec() + seq![' '] + e.1.name_spec()
            + seq![' '] + e.2@.path + seq!['\n']
    }
}

/// The route that registering `pattern` for `m` gives.
pub open spec fn route_of(pattern: Seq<char>, m: HttpMethod) -> RouteView {
    let path = collapse_slashes(pattern);
    let segs = path_segments(path);
    RouteView {
        method: m,
        path: path,
        base_path: join_spec(literal_segments(segs), seq!['/']),
        segments: segs,
        names: segs.map_values(|s: Seq<char>| param_name(s)),
    }
}

/// The (name, value) pairs that the first `n` segments of a matched route bind.
pub open spec fn bound_pairs(r: RouteView, segs: Seq<Seq<char>>, n: int) -> Seq<
    (Seq<char>, Seq<char>),
>
    decreases n,
{
    if n <= 0 {
        Seq::empty()
    } else if is_param_spec(r.segments[n - 1]) {
        bound_pairs(r, segs, n - 1).push((r.names[n - 1], segs[n - 1]))
    } else {
        bound_pairs(r, segs, n - 1)
    }
}

/// The path parameters that a route binds from the request path `p`: each
/// parameter segment takes the request segment at its position. A path with
/// another number of segments binds none.
pub open spec fn bound_params(r: RouteView, p: Seq<char>) -> Map<Seq<char>, Seq<char>> {
    if r.segments.len() == path_segments(p).len() {
        map_of(bound_pairs(r, path_segments(p), r.segments.len() as int))
    } else {
        Map::empty()
    }
}

proof fn lemma_bound_pairs(r: RouteView, segs: Seq<Seq<char>>, n: int)
    requires
        0 <= n <= r.segments.len(),
        r.names.len() == r.segments.len(),
        segs.len() == r.segments.len(),
    ensures
        forall|k: Seq<char>|
            #[trigger] map_of(bound_pairs(r, segs, n)).contains_key(k) <==> exists|i: int|
                0 <= i < n && is_param_spec(r.segments[i]) && r.names[i] == k,
        forall|i: int|
            0 <= i < n && is_param_spec(r.segments[i]) && (forall|j: int|
                i < j < n && is_param_spec(r.segments[j]) ==> r.names[j] != r.names[i])
                ==> #[trigger] map_of(bound_pairs(r, segs, n))[r.names[i]] == segs[i],
    decreases n,
{
    if n > 0 {
        lemma_bound_pairs(r, segs, n - 1);
        let m0 = map_of(bound_pairs(r, segs, n - 1));
        let m = map_of(bound_pairs(r, segs, n));
        if is_param_spec(r.segments[n - 1]) {
            let bp = bound_pairs(r, segs, n);
            assert(bp.drop_last() == bound_pairs(r, segs, n - 1));
            assert(m == m0.insert(r.names[n - 1], segs[n - 1]));
            assert forall|k: Seq<char>| #[trigger] m.contains_key(k) <==> exists|i: int|
                0 <= i < n && is_param_spec(r.segments[i]) && r.names[i] == k by {
                if m0.contains_key(k) {
                    let i = choose|i: int|
                        0 <= i < n - 1 && is_param_spec(r.segments[i]) && r.names[i] == k;
                    assert(0 <= i < n && is_param_spec(r.segments[i]) && r.names[i] == k);
                }
            }
        }
    }
}

/// The path parameters that a route binds are exactly its parameter names;
/// each name takes the request segment at the position of its parameter
/// segment, the last such segment where a name repeats.
pub proof fn lemma_bound_params(r: RouteView, p: Seq<char>)
    requires
        r.names.len() == r.segments.len(),
        r.segments.len() == path_segments(p).len(),
    ensures
        forall|k: Seq<char>|
            #[trigger] bound_params(r, p).contains_key(k) <==> exists|i: int|
                0 <= i < r.segments.len() && is_param_spec(r.segments[i]) && r.names[i] == k,
        forall|i: int|
            0 <= i < r.segments.len() && is_param_spec(r.segments[i]) && (forall|j: int|
                i < j < r.segments.len() && is_param_spec(r.segments[j]) ==> r.names[j]
                    != r.names[i]) ==> #[trigger] bound_params(r, p)[r.names[i]]
                == path_segments(p)[i],
{
    lemma_bound_pairs(r, path_segments(p), r.segments.len() as int);
}

/// A registered route: its method, its pattern and the handler it leads to.
pub struct Route<H> {
    method: HttpMethod,
    path: String,
    base_path: String,
    handler: H,
    segments: Vec<Vec<char>>,
    names: Vec<String>,
}

impl<H> View for Route<H> {
    type V = RouteView;

    closed spec fn view(&self) -> RouteView {
        RouteView {
            method: self.method,
            path: self.path@,
            base_path: self.base_path@,
            segments: seqs_of(self.segments@),
            names: self.names@.map_values(|s: String| s@),
        }
    }
}

impl<H> Route<H> {
    #[verifier::type_invariant]
    closed spec fn inv(self) -> bool {
        self.names@.len() == self.segments@.len()
    }

    pub closed spec fn handler_spec(&self) -> H {
        self.handler
    }

    pub fn method(&self) -> (r: &HttpMethod)
        ensures
            *r == self@.method,
    {
        &self.method
    }

    pub fn path(&self) -> (r: &str)
        ensures
            r@ == self@.path,
    {
        self.path.as_str()
    }

    pub fn base_path(&self) -> (r: &str)
        ensures
            r@ == self@.base_path,
    {
        self.base_path.as_str()
    }

    pub fn handler(&self) -> (r: &H)
        ensures
            *r == self.handler_spec(),
    {
        &self.handler
    }
}

fn is_param(seg: &[char]) -> (r: bool)
    ensures
        r == is_param_spec(seg@),
{
    seg.len() >= 1 && seg[0] == '{' && seg[seg.len() - 1] == '}'
}

fn strip_braces_exec(s: &[char]) -> (r: Vec<char>)
    ensures
        r@ == strip_braces(s@),
{
    let mut out: Vec<char> = Vec::new();
    let mut i: usize = 0;
    while i < s.len()
        invariant
            i <= s@.len(),
            out@ == strip_braces(s@.subrange(0, i as int)),
        decreases s@.len() - i,
    {
        assert(s@.subrange(0, i + 1).drop_last() =~= s@.subrange(0, i as int));
        if s[i] != '{' && s[i] != '}' {
            out.push(s[i]);
        }
        i += 1;
    }
    assert(s@.subrange(0, i as int) =~= s@);
    out
}

fn collapse_slashes_exec(s: &[char]) -> (r: Vec<char>)
    ensures
        r@ == collapse_slashes(s@),
{
    let mut out: Vec<char> = Vec::new();
    let mut i: usize = 0;
    while i < s.len()
        invariant
            i <= s@.len(),
            out@ == collapse_slashes(s@.subrange(0, i as int)),
        decreases s@.len() - i,
    {
        let ghost pre = s@.subrange(0, i + 1);
        assert(pre.drop_last() =~= s@.subrange(0, i as int));
        if !(i >= 1 && s[i] == '/' && s[i - 1] == '/') {
            out.push(s[i]);
        }
        i += 1;
    }
    assert(s@.subrange(0, i as int) =~= s@);
    out
}

/// The routes, in the order in which they were registered.
pub struct RouteTable<H>(pub Vec<(String, HttpMethod, Route<H>)>);

impl<H> RouteTable<H> {
    pub fn new() -> (r: RouteTable<H>)
        ensures
            r.0@.len() == 0,
    {
        RouteTable(Vec::new())
    }

    /// Whether route `i` accepts a request with method `m` and path segments
    /// `segs`.
    fn accepts(&self, i: usize, m: &HttpMethod, segs: &Vec<Vec<char>>) -> (r: bool)
        requires
            i < self.0@.len(),
        ensures
            r == route_matches(self.0@[i as int].2@, *m, seqs_of(segs@)),
    {
        let route = &self.0[i].2;
        if route.method != *m || route.segments.len() != segs.len() {
            return false;
        }
        let mut k: usize = 0;
        while k < segs.len()
            invariant
                route == &self.0@[i as int].2,
                route.segments@.len() == segs@.len(),
                k <= segs@.len(),
                forall|j: int|
                    0 <= j < k ==> segment_matches(
                        #[trigger] seqs_of(route.segments@)[j],
                        seqs_of(segs@)[j],
                    ),
            decreases segs@.len() - k,
        {
            let pat = route.segments[k].as_slice();
            let seg = segs[k].as_slice();
            if is_param(pat) {
                if seg.len() == 0 {
                    assert(!segment_matches(seqs_of(route.segments@)[k as int], seqs_of(segs@)[k as int]));
                    return false;
                }
            } else if !same_chars(pat, seg) {
                assert(!segment_matches(seqs_of(route.segments@)[k as int], seqs_of(segs@)[k as int]));
                return false;
            }
            k += 1;
        }
        true
    }

    /// The position of the first route, in registration order, that accepts
    /// a request with method `http_method` and path `qualified_path`.
    pub fn find_index(&self, qualified_path: &str, http_method: &HttpMethod) -> (r: Option<usize>)
        ensures
            match r {
                Some(i) => {
                    &&& i < self.0@.len()
                    &&& route_matches(
                        self.0@[i as int].2@,
                        *http_method,
                        path_segments(qualified_path@),
                    )
                    &&& forall|j: int|
                        0 <= j < i ==> !route_matches(
                            #[trigger] self.0@[j].2@,
                            *http_method,
                            path_segments(qualified_path@),
                        )
                },
                None => forall|j: int|
                    0 <= j < self.0@.len() ==> !route_matches(
                        #[trigger] self.0@[j].2@,
                        *http_method,
                        path_segments(qualified_path@),
                    ),
            },
            r matches Some(i) ==> first_match(
                table_view(self.0@),
                *http_method,
                path_segments(qualified_path@),
            ) == Some(i as int),
            r is None ==> first_match(
                table_view(self.0@),
                *http_method,
                path_segments(qualified_path@),
            ) is None,
    {
        let ghost tv = table_view(self.0@);
        let ghost sg = path_segments(qualified_path@);
        proof {
            lemma_table_view(self.0@);
        }
        let path = chars_of(qualified_path);
        let slash = vec!['/'];
        assert(slash@ =~= seq!['/']);
        let segs = split_on(path.as_slice(), slash.as_slice());
        let mut i: usize = 0;
        while i < self.0.len()
            invariant
                i <= self.0@.len(),
                tv == table_view(self.0@),
                sg == path_segments(qualified_path@),
                tv.len() == self.0@.len(),
                forall|k: int| 0 <= k < self.0@.len() ==> #[trigger] tv[k] == self.0@[k].2@,
                first_match(tv, *http_method, sg) == first_match_from(tv, *http_method, sg, i as int),
                seqs_of(segs@) == path_segments(qualified_path@),
                forall|j: int|
                    0 <= j < i ==> !route_matches(
                        #[trigger] self.0@[j].2@,
                        *http_method,
                        path_segments(qualified_path@),
                    ),
            decreases self.0@.len() - i,
        {
            if self.accepts(i, http_method, &segs) {
                return Some(i);
            }
            assert(!route_matches(tv[i as int], *http_method, sg));
            i += 1;
        }
        None
    }

    /// The first route, in registration order, that accepts a request with
    /// method `http_method` and path `qualified_path`.
    pub fn find(&self, qualified_path: &str, http_method: &HttpMethod) -> (r: Option<&Route<H>>)
        ensures
            match r {
                Some(route) => exists|i: int|
                    0 <= i < self.0@.len() && *route == self.0@[i].2 && route_matches(
                        route@,
                        *http_method,
                        path_segments(qualified_path@),
                    ) && forall|j: int|
                        0 <= j < i ==> !route_matches(
                            #[trigger] self.0@[j].2@,
                            *http_method,
                            path_segments(qualified_path@),
                        ),
                None => forall|j: int|
                    0 <= j < self.0@.len() ==> !route_matches(
                        #[trigger] self.0@[j].2@,
                        *http_method,
                        path_segments(qualified_path@),
                    ),
            },
    {
        match self.find_index(qualified_path, http_method) {
            Some(i) => Some(&self.0[i].2),
            None => None,
        }
    }

    /// One line per route, in registration order: its literal path, its
    /// method, then its method and pattern again.
    pub fn listing(&self) -> (r: String)
        ensures
            r@ == listing_spec(self.0@, self.0@.len() as int),
    {
        let mut out: Vec<char> = Vec::new();
        let mut i: usize = 0;
        while i < self.0.len()
            invariant
                i <= self.0@.len(),
                out@ == listing_spec(self.0@, i as int),
            decreases self.0@.len() - i,
        {
            let entry = &self.0[i];
            let method = chars_of(entry.1.to_str());
            crate::text::append_chars(&mut out, chars_of(entry.0.as_str()).as_slice());
            out.push(' ');
            crate::text::append_chars(&mut out, method.as_slice());
            out.push(' ');
            crate::text::append_chars(&mut out, method.as_slice());
            out.push(' ');
            crate::text::append_chars(&mut out, chars_of(entry.2.path.as_str()).as_slice());
            out.push('\n');
            i += 1;
        }
        string_of(out.as_slice())
    }

    /// Adds a route after the others.
    pub fn insert(&mut self, route: Route<H>)
        ensures
            final(self).0@.len() == old(self).0@.len() + 1,
            forall|i: int| 0 <= i < old(self).0@.len() ==> final(self).0@[i] == old(self).0@[i],
            final(self).0@.last().2 == route,
            final(self).0@.last().1 == route@.method,
            final(self).0@.last().0@ == route@.base_path,
    {
        let base = string_of(chars_of(route.base_path.as_str()).as_slice());
        let m = route.method;
        self.0.push((base, m, route));
    }
}

/// The route that registering `path` for `method` gives.
pub fn make_route<H>(path: &str, method: HttpMethod, handler: H) -> (r: Route<H>)
    ensures
        r@ == route_of(path@, method),
        r.handler_spec() == handler,
{
    let cs = chars_of(path);
    let sanitized = collapse_slashes_exec(cs.as_slice());
    let slash = vec!['/'];
    assert(slash@ =~= seq!['/']);
    let tokens = split_on(sanitized.as_slice(), slash.as_slice());
    let ghost segs = seqs_of(tokens@);
    let mut names: Vec<String> = Vec::new();
    let mut literals: Vec<Vec<char>> = Vec::new();
    let mut i: usize = 0;
    proof {
        assert(segs.subrange(0, 0) =~= Seq::empty());
        assert(seqs_of(literals@) =~= Seq::empty());
    }
    while i < tokens.len()
        invariant
            segs == seqs_of(tokens@),
            i <= tokens@.len(),
            names@.len() == i,
            forall|j: int| 0 <= j < i ==> #[trigger] names@[j]@ == param_name(segs[j]),
            seqs_of(literals@) == literal_segments(segs.subrange(0, i as int)),
        decreases tokens@.len() - i,
    {
        let tok = tokens[i].as_slice();
        assert(segs.subrange(0, i + 1).drop_last() =~= segs.subrange(0, i as int));
        assert(segs[i as int] == tok@);
        let stripped = strip_braces_exec(tok);
        let name = lowercase(string_of(stripped.as_slice()).as_str());
        names.push(name);
        if !is_param(tok) {
            let lit = crate::text::copy_chars(tok);
            proof {
                assert(seqs_of(literals@.push(lit)) =~= seqs_of(literals@).push(lit@));
            }
            literals.push(lit);
        }
        i += 1;
    }
    proof {
        assert(segs.subrange(0, i as int) =~= segs);
    }
    let base = crate::text::join_from(literals.as_slice(), 0, slash.as_slice());
    proof {
        assert(seqs_of(literals@).subrange(0, literals@.len() as int) =~= seqs_of(literals@));
    }
    let r = Route {
        method,
        path: string_of(sanitized.as_slice()),
        base_path: string_of(base.as_slice()),
        handler,
        segments: tokens,
        names,
    };
    proof {
        assert(r@.names =~= segs.map_values(|s: Seq<char>| param_name(s)));
    }
    r
}

/// The path parameters that `route` binds from `qualified_path`.
pub fn bind_params<H>(route: &Route<H>, qualified_path: &str) -> (r: StringMap)
    ensures
        r@ == bound_params(route@, qualified_path@),
{
    proof {
        use_type_invariant(route);
    }
    let path = chars_of(qualified_path);
    let slash = vec!['/'];
    assert(slash@ =~= seq!['/']);
    let segs = split_on(path.as_slice(), slash.as_slice());
    let mut m = StringMap::new();
    if segs.len() != route.segments.len() {
        return m;
    }
    let mut i: usize = 0;
    while i < route.segments.len()
        invariant
            seqs_of(segs@) == path_segments(qualified_path@),
            route.segments@.len() == segs@.len(),
            route@.names.len() == route.names@.len(),
            route.names@.len() == segs@.len(),
            i <= segs@.len(),
            m@ == map_of(bound_pairs(route@, seqs_of(segs@), i as int)),
        decreases segs@.len() - i,
    {
        if is_param(route.segments[i].as_slice()) {
            let name = string_of(chars_of(route.names[i].as_str()).as_slice());
            let value = string_of(segs[i].as_slice());
            proof {
                let bp = bound_pairs(route@, seqs_of(segs@), i + 1);
                assert(route@.segments[i as int] == route.segments@[i as int]@);
                assert(route@.names[i as int] == route.names@[i as int]@);
                assert(seqs_of(segs@)[i as int] == segs@[i as int]@);
                assert(bp.drop_last() == bound_pairs(route@, seqs_of(segs@), i as int));
            }
            m.insert(name, value);
        } else {
            assert(route@.segments[i as int] == route.segments@[i as int]@);
        }
        i += 1;
    }
    m
}

/// Collects the server's settings and routes before it starts.
pub struct RouterBuilder<H> {
    pub configuration: Configuration,
    pub routes: RouteTable<H>,
}

impl<H> RouterBuilder<H> {
    pub fn port(&mut self, port: u16) -> (r: &mut Self)
        ensures
            r.configuration == (Configuration { port: port, ..old(self).configuration }),
            r.routes == old(self).routes,
            *final(self) == *final(r),
    {
        self.configuration.port = port;
        self
    }

    pub fn host(&mut self, host: String) -> (r: &mut Self)
        ensures
            r.configuration == (Configuration { host: host, ..old(self).configuration }),
            r.routes == old(self).routes,
            *final(self) == *final(r),
    {
        self.configuration.host = host;
        self
    }

    pub fn buffer_size(&mut self, buffer_size: usize) -> (r: &mut Self)
        ensures
            r.configuration == (Configuration {
                buffer_size: buffer_size,
                ..old(self).configuration
            }),
            r.routes == old(self).routes,
            *final(self) == *final(r),
    {
        self.configuration.buffer_size = buffer_size;
        self
    }

    pub fn logging_level(&mut self, level: String) -> (r: &mut Self)
        ensures
            r.configuration == (Configuration {
                logging: Logging { level: level },
                ..old(self).configuration
            }),
            r.routes == old(self).routes,
            *final(self) == *final(r),
    {
        self.configuration.logging.level = level;
        self
    }

    pub fn workers(&mut self, workers: usize) -> (r: &mut Self)
        ensures
            r.configuration == (Configuration { workers: workers, ..old(self).configuration }),
            r.routes == old(self).routes,
            *final(self) == *final(r),
    {
        self.configuration.workers = workers;
        self
    }

    /// The address to listen on: `host:port`.
    pub fn get_bind_address(&self) -> (r: String)
        ensures
            r@ == self.configuration.host@ + seq![':'] + crate::text::decimal_spec(
                self.configuration.port as nat,
            ),
    {
        let mut out = chars_of(self.configuration.host.as_str());
        out.push(':');
        let digits = crate::text::decimal(self.configuration.port as u64);
        crate::text::append_chars(&mut out, digits.as_slice());
        string_of(out.as_slice())
    }

    /// Registers `handler` for requests with `method` whose path fits `path`.
    pub fn add_route(&mut self, path: &str, method: HttpMethod, handler: H) -> (r: &Self)
        ensures
            final(self).configuration == old(self).configuration,
            final(self).routes.0@.len() == old(self).routes.0@.len() + 1,
            forall|i: int|
                0 <= i < old(self).routes.0@.len() ==> final(self).routes.0@[i] == old(
                    self,
                ).routes.0@[i],
            final(self).routes.0@.last().2@ == route_of(path@, method),
            final(self).routes.0@.last().0@ == route_of(path@, method).base_path,
            final(self).routes.0@.last().1 == method,
            final(self).routes.0@.last().2.handler_spec() == handler,
            *r == *final(self),
    {
        let route = make_route(path, method, handler);
        self.routes.insert(route);
        self
    }

    pub fn get(&mut self, path: &str, handler: H) -> (r: &Self)
        ensures
            final(self).configuration == old(self).configuration,
            final(self).routes.0@.len() == old(self).routes.0@.len() + 1,
            forall|i: int|
                0 <= i < old(self).routes.0@.len() ==> final(self).routes.0@[i] == old(
                    self,
                ).routes.0@[i],
            final(self).routes.0@.last().2@ == route_of(path@, HttpMethod::GET),
            final(self).routes.0@.last().0@ == route_of(path@, HttpMethod::GET).base_path,
            final(self).routes.0@.last().1 == HttpMethod::GET,
            final(self).routes.0@.last().2.handler_spec() == handler,
            *r == *final(self),
    {
        self.add_route(path, HttpMethod::GET, handler);
        self
    }

    pub fn post(&mut self, path: &str, handler: H) -> (r: &Self)
        ensures
            final(self).configuration == old(self).configuration,
            final(self).routes.0@.len() == old(self).routes.0@.len() + 1,
            forall|i: int|
                0 <= i < old(self).routes.0@.len() ==> final(self).routes.0@[i] == old(
                    self,
                ).routes.0@[i],
            final(self).routes.0@.last().2@ == route_of(path@, HttpMethod::POST),
            final(self).routes.0@.last().0@ == route_of(path@, HttpMethod::POST).base_path,
            final(self).routes.0@.last().1 == HttpMethod::POST,
            final(self).routes.0@.last().2.handler_spec() == handler,
            *r == *final(self),
    {
        self.add_route(path, HttpMethod::POST, handler);
        self
    }

    /// The registered routes.
    pub fn get_routes(&self) -> (r: &RouteTable<H>)
        ensures
            *r == self.routes,
    {
        &self.routes
    }
}

} // verus!
