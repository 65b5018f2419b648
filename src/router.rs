//! Route registration and resolution.
//!
//! Routes are kept per method, in registration order. A request resolves to
//! the most specific of the patterns that match it: comparing two of them at
//! the first position where one is static and the other dynamic, the static one
//! wins; of patterns with the same shape, the last registered wins. This is what
//! a route trie gives when it tries static children before the dynamic one and
//! backtracks.
use vstd::prelude::*;
use crate::error::XpressError;
use crate::kv::KeyValues;
use crate::parser::{parse_path_segments, path_parts, pattern_of};
use crate::text::{keep_non_empty, split, split_text, views, words};

verus! {

/// One segment of a route pattern.
#[derive(Debug, PartialEq, Eq)]
pub enum Segment {
    Static(String),
    Dynamic(String),
}

/// The mathematical form of a [`Segment`].
pub enum Part {
    Literal(Seq<char>),
    Param(Seq<char>),
}

impl View for Segment {
    type V = Part;

    open spec fn view(&self) -> Part {
        match self {
            Segment::Static(s) => Part::Literal(s@),
            Segment::Dynamic(n) => Part::Param(n@),
        }
    }
}

pub open spec fn parts_of(segs: Seq<Segment>) -> Seq<Part> {
    segs.map_values(|s: Segment| s@)
}

/// Whether a pattern segment is static.
pub open spec fn is_lit(p: Part) -> bool {
    p is Literal
}

/// A pattern segment fits a request segment: a literal equal to it, or a
/// parameter when it is not empty.
pub open spec fn fits(p: Part, s: Seq<char>) -> bool {
    match p {
        Part::Literal(t) => t == s,
        Part::Param(_) => s.len() > 0,
    }
}

/// The pattern `pat` matches the request segments `q`: as many segments, each
/// fitting its request segment.
pub open spec fn matches(pat: Seq<Part>, q: Seq<Seq<char>>) -> bool {
    &&& pat.len() == q.len()
    &&& forall|i: int| 0 <= i < q.len() ==> #[trigger] fits(pat[i], q[i])
}

/// The two patterns have a static segment at the same positions.
pub open spec fn same_shape(a: Seq<Part>, b: Seq<Part>) -> bool {
    &&& a.len() == b.len()
    &&& forall|i: int| 0 <= i < a.len() ==> is_lit(#[trigger] a[i]) == is_lit(b[i])
}

/// `i` is the first position where one pattern is static and the other dynamic.
pub open spec fn differs_first_at(a: Seq<Part>, b: Seq<Part>, i: int) -> bool {
    &&& 0 <= i < a.len()
    &&& i < b.len()
    &&& is_lit(a[i]) != is_lit(b[i])
    &&& forall|j: int| 0 <= j < i ==> is_lit(#[trigger] a[j]) == is_lit(b[j])
}

/// `a` is more specific than `b`: at the first position where their kinds
/// differ, `a` is static.
pub open spec fn more_specific(a: Seq<Part>, b: Seq<Part>) -> bool {
    exists|i: int| #[trigger] differs_first_at(a, b, i) && is_lit(a[i])
}

/// `k` wins among the first `n` patterns: it matches, no matching pattern is
/// more specific, and no later matching pattern has its shape.
pub open spec fn wins_among(pats: Seq<Seq<Part>>, q: Seq<Seq<char>>, n: int, k: int) -> bool {
    &&& 0 <= k < n <= pats.len()
    &&& matches(pats[k], q)
    &&& forall|j: int|
        0 <= j < n && matches(#[trigger] pats[j], q) ==> !more_specific(pats[j], pats[k])
    &&& forall|j: int| k < j < n && matches(#[trigger] pats[j], q) ==> !same_shape(pats[j], pats[k])
}

/// The pattern that a request resolves to: the most specific of those that match
/// it, the last registered of equally specific ones.
pub open spec fn wins(pats: Seq<Seq<Part>>, q: Seq<Seq<char>>, k: int) -> bool {
    wins_among(pats, q, pats.len() as int, k)
}

/// The parameters that the first `i` segments of `pat` bind on `q`, a later
/// binding of a name replacing an earlier one.
pub open spec fn bind(pat: Seq<Part>, q: Seq<Seq<char>>, i: nat) -> Map<Seq<char>, Seq<char>>
    decreases i,
{
    if i == 0 {
        Map::empty()
    } else {
        let m = bind(pat, q, (i - 1) as nat);
        match pat[i - 1] {
            Part::Param(n) => m.insert(n, q[i - 1]),
            Part::Literal(_) => m,
        }
    }
}

/// The outcome of resolving the request segments `q` against the patterns
/// `pats` of one method: the index of the winning pattern, and the parameters
/// that its own names bind.
pub open spec fn resolution(pats: Seq<Seq<Part>>, q: Seq<Seq<char>>) -> Option<
    (int, Map<Seq<char>, Seq<char>>),
> {
    if exists|k: int| wins(pats, q, k) {
        let k = choose|k: int| wins(pats, q, k);
        Some((k, bind(pats[k], q, q.len())))
    } else {
        None
    }
}

/// At least as specific: more specific, or of the same shape.
pub open spec fn beats(a: Seq<Part>, b: Seq<Part>) -> bool {
    more_specific(a, b) || same_shape(a, b)
}

/// The winner among the first `n` patterns, found by one pass in order.
pub open spec fn best_of(pats: Seq<Seq<Part>>, q: Seq<Seq<char>>, n: nat) -> Option<int>
    decreases n,
{
    if n == 0 {
        None
    } else {
        let b = best_of(pats, q, (n - 1) as nat);
        if matches(pats[n - 1], q) && (b is None || beats(pats[n - 1], pats[b->0])) {
            Some(n - 1)
        } else {
            b
        }
    }
}

pub proof fn lemma_first_difference_unique(a: Seq<Part>, b: Seq<Part>, i: int, j: int)
    requires
        differs_first_at(a, b, i),
        differs_first_at(a, b, j),
    ensures
        i == j,
{
    if i < j {
        assert(is_lit(a[i]) == is_lit(b[i]));
    } else if j < i {
        assert(is_lit(a[j]) == is_lit(b[j]));
    }
}

/// Of two patterns of one length, one is more specific unless they have the
/// same shape.
pub proof fn lemma_compare(a: Seq<Part>, b: Seq<Part>)
    requires
        a.len() == b.len(),
    ensures
        same_shape(a, b) || more_specific(a, b) || more_specific(b, a),
    decreases a.len(),
{
    if a.len() > 0 {
        let (x, y) = (a.drop_last(), b.drop_last());
        lemma_compare(x, y);
        let n = a.len() - 1;
        if same_shape(x, y) {
            if is_lit(a[n]) != is_lit(b[n]) {
                assert forall|j: int| 0 <= j < n implies is_lit(#[trigger] a[j]) == is_lit(b[j]) by {
                    assert(is_lit(x[j]) == is_lit(y[j]));
                }
                assert(differs_first_at(a, b, n));
                assert(differs_first_at(b, a, n));
            } else {
                assert forall|j: int| 0 <= j < a.len() implies is_lit(#[trigger] a[j]) == is_lit(b[j]) by {
                    if j < n {
                        assert(is_lit(x[j]) == is_lit(y[j]));
                    }
                }
            }
        } else if more_specific(x, y) {
            let i = choose|i: int| #[trigger] differs_first_at(x, y, i) && is_lit(x[i]);
            assert(a[i] == x[i] && b[i] == y[i]);
            assert forall|j: int| 0 <= j < i implies is_lit(#[trigger] a[j]) == is_lit(b[j]) by {
                assert(is_lit(x[j]) == is_lit(y[j]));
            }
            assert(differs_first_at(a, b, i));
        } else {
            let i = choose|i: int| #[trigger] differs_first_at(y, x, i) && is_lit(y[i]);
            assert(b[i] == y[i] && a[i] == x[i]);
            assert forall|j: int| 0 <= j < i implies is_lit(#[trigger] b[j]) == is_lit(a[j]) by {
                assert(is_lit(y[j]) == is_lit(x[j]));
            }
            assert(differs_first_at(b, a, i));
        }
    }
}

/// Being more specific is asymmetric, and excludes the same shape.
pub proof fn lemma_more_specific_strict(a: Seq<Part>, b: Seq<Part>)
    requires
        more_specific(a, b),
    ensures
        !more_specific(b, a),
        !same_shape(a, b),
        !same_shape(b, a),
{
    let i = choose|i: int| #[trigger] differs_first_at(a, b, i) && is_lit(a[i]);
    if more_specific(b, a) {
        let j = choose|j: int| #[trigger] differs_first_at(b, a, j) && is_lit(b[j]);
        assert(differs_first_at(a, b, j));
        lemma_first_difference_unique(a, b, i, j);
    }
}

/// Being more specific carries through patterns at least as specific.
pub proof fn lemma_more_specific_trans(a: Seq<Part>, b: Seq<Part>, c: Seq<Part>)
    requires
        more_specific(a, b),
        beats(b, c),
    ensures
        more_specific(a, c),
{
    let i = choose|i: int| #[trigger] differs_first_at(a, b, i) && is_lit(a[i]);
    if same_shape(b, c) {
        assert(differs_first_at(a, c, i));
    } else {
        let j = choose|j: int| #[trigger] differs_first_at(b, c, j) && is_lit(b[j]);
        if i < j {
            assert(is_lit(b[i]) == is_lit(c[i]));
            assert(differs_first_at(a, c, i));
        } else if j < i {
            assert(is_lit(a[j]) == is_lit(b[j]));
            assert(differs_first_at(a, c, j));
        }
    }
}

/// The pass in order finds a winner among the first `n` patterns, and finds none
/// only when none of them matches.
pub proof fn lemma_best_of(pats: Seq<Seq<Part>>, q: Seq<Seq<char>>, n: nat)
    requires
        n <= pats.len(),
    ensures
        best_of(pats, q, n) matches Some(k) ==> wins_among(pats, q, n as int, k),
        best_of(pats, q, n) is None ==> forall|j: int| 0 <= j < n ==> !matches(#[trigger] pats[j], q),
    decreases n,
{
    if n > 0 {
        let m = (n - 1) as nat;
        lemma_best_of(pats, q, m);
        let b = best_of(pats, q, m);
        let last = pats[n - 1];
        if matches(last, q) && (b is None || beats(last, pats[b->0])) {
            assert forall|j: int| 0 <= j < n && matches(#[trigger] pats[j], q) implies !more_specific(
                pats[j],
                last,
            ) by {
                if j == n - 1 {
                    if more_specific(last, last) {
                        lemma_more_specific_strict(last, last);
                    }
                } else if more_specific(pats[j], last) {
                    let k = b->0;
                    lemma_more_specific_trans(pats[j], last, pats[k]);
                }
            }
        } else if let Some(k) = b {
            assert forall|j: int| 0 <= j < n && matches(#[trigger] pats[j], q) implies !more_specific(
                pats[j],
                pats[k],
            ) by {
                if j == n - 1 {
                    assert(!beats(last, pats[k]));
                }
            }
            assert forall|j: int| k < j < n && matches(#[trigger] pats[j], q) implies !same_shape(
                pats[j],
                pats[k],
            ) by {
                if j == n - 1 {
                    assert(!beats(last, pats[k]));
                }
            }
        }
    }
}

/// Two winners are the same pattern.
pub proof fn lemma_winner_unique(pats: Seq<Seq<Part>>, q: Seq<Seq<char>>, k: int, c: int)
    requires
        wins(pats, q, k),
        wins(pats, q, c),
    ensures
        k == c,
{
    lemma_compare(pats[k], pats[c]);
    if k < c {
        assert(!same_shape(pats[c], pats[k]));
        if same_shape(pats[k], pats[c]) {
            assert(same_shape(pats[c], pats[k]));
        }
    } else if c < k {
        assert(!same_shape(pats[k], pats[c]));
    }
}

/// The resolution is what the pass in order finds.
pub proof fn lemma_resolution_is_best(pats: Seq<Seq<Part>>, q: Seq<Seq<char>>)
    ensures
        resolution(pats, q) == match best_of(pats, q, pats.len()) {
            Some(k) => Some((k, bind(pats[k], q, q.len()))),
            None => None,
        },
{
    lemma_best_of(pats, q, pats.len());
    match best_of(pats, q, pats.len()) {
        Some(k) => {
            assert(wins(pats, q, k));
            let c = choose|k: int| wins(pats, q, k);
            lemma_winner_unique(pats, q, k, c);
        },
        None => {
            if exists|k: int| wins(pats, q, k) {
                let c = choose|k: int| wins(pats, q, k);
                assert(matches(pats[c], q));
            }
        },
    }
}

struct Route<H> {
    segments: Vec<Segment>,
    handler: H,
}

spec fn route_pats<H>(rs: Seq<Route<H>>) -> Seq<Seq<Part>> {
    rs.map_values(|r: Route<H>| parts_of(r.segments@))
}

spec fn route_handlers<H>(rs: Seq<Route<H>>) -> Seq<H> {
    rs.map_values(|r: Route<H>| r.handler)
}

/// Whether the pattern `segs` matches the request segments `q`.
fn pattern_matches(segs: &Vec<Segment>, q: &Vec<String>) -> (r: bool)
    ensures
        r == matches(parts_of(segs@), views(q@)),
{
    if segs.len() != q.len() {
        return false;
    }
    let mut i: usize = 0;
    while i < segs.len()
        invariant
            i <= segs@.len(),
            segs@.len() == q@.len(),
            forall|j: int| 0 <= j < i ==> #[trigger] fits(parts_of(segs@)[j], views(q@)[j]),
        decreases segs@.len() - i,
    {
        let ok = match &segs[i] {
            Segment::Static(s) => s.eq(&q[i]),
            Segment::Dynamic(_) => !q[i].as_str().is_empty(),
        };
        assert(parts_of(segs@)[i as int] == segs@[i as int]@);
        if !ok {
            assert(!fits(parts_of(segs@)[i as int], views(q@)[i as int]));
            return false;
        }
        i += 1;
    }
    true
}

/// Whether pattern `a` is at least as specific as pattern `b` of the same length.
fn at_least_as_specific(a: &Vec<Segment>, b: &Vec<Segment>) -> (r: bool)
    requires
        a@.len() == b@.len(),
    ensures
        r == beats(parts_of(a@), parts_of(b@)),
{
    let ghost (x, y) = (parts_of(a@), parts_of(b@));
    let mut i: usize = 0;
    while i < a.len()
        invariant
            i <= a@.len(),
            a@.len() == b@.len(),
            x == parts_of(a@),
            y == parts_of(b@),
            forall|j: int| 0 <= j < i ==> is_lit(#[trigger] x[j]) == is_lit(y[j]),
        decreases a@.len() - i,
    {
        let la = match &a[i] {
            Segment::Static(_) => true,
            Segment::Dynamic(_) => false,
        };
        let lb = match &b[i] {
            Segment::Static(_) => true,
            Segment::Dynamic(_) => false,
        };
        assert(x[i as int] == a@[i as int]@ && y[i as int] == b@[i as int]@);
        if la != lb {
            assert(differs_first_at(x, y, i as int));
            assert(!same_shape(x, y));
            proof {
                if !la && more_specific(x, y) {
                    let k = choose|k: int| #[trigger] differs_first_at(x, y, k) && is_lit(x[k]);
                    lemma_first_difference_unique(x, y, k, i as int);
                }
            }
            return la;
        }
        i += 1;
    }
    true
}

/// The parameters that pattern `segs` binds on the request segments `q`.
fn bind_params(segs: &Vec<Segment>, q: &Vec<String>) -> (r: KeyValues)
    requires
        segs@.len() == q@.len(),
    ensures
        r@ == bind(parts_of(segs@), views(q@), q@.len() as nat),
{
    let mut params = KeyValues::new();
    let mut i: usize = 0;
    while i < segs.len()
        invariant
            i <= segs@.len(),
            segs@.len() == q@.len(),
            params@ == bind(parts_of(segs@), views(q@), i as nat),
        decreases segs@.len() - i,
    {
        assert(parts_of(segs@)[i as int] == segs@[i as int]@);
        match &segs[i] {
            Segment::Dynamic(name) => {
                params.insert(name.clone(), q[i].clone());
            },
            Segment::Static(_) => {},
        }
        i += 1;
    }
    params
}

/// Resolves the request segments `q` against the routes of one method.
fn resolve_in<H>(routes: &Vec<Route<H>>, q: &Vec<String>) -> (r: Option<(usize, KeyValues)>)
    ensures
        match resolution(route_pats(routes@), views(q@)) {
            None => r is None,
            Some((k, b)) => r matches Some((i, params)) && i == k && params@ == b,
        },
{
    let ghost pats = route_pats(routes@);
    let ghost qs = views(q@);
    let mut best: Option<usize> = None;
    let mut k: usize = 0;
    while k < routes.len()
        invariant
            k <= routes@.len(),
            pats == route_pats(routes@),
            qs == views(q@),
            best_of(pats, qs, k as nat) == match best {
                Some(b) => Some(b as int),
                None => None::<int>,
            },
            best matches Some(b) ==> b < k && pats[b as int].len() == qs.len(),
        decreases routes@.len() - k,
    {
        let segs = &routes[k].segments;
        assert(pats[k as int] == parts_of(segs@));
        if pattern_matches(segs, q) {
            let take = match best {
                None => true,
                Some(b) => {
                    assert(pats[b as int] == parts_of(routes@[b as int].segments@));
                    at_least_as_specific(segs, &routes[b].segments)
                },
            };
            if take {
                best = Some(k);
            }
        }
        k += 1;
    }
    proof {
        lemma_resolution_is_best(pats, qs);
    }
    match best {
        None => None,
        Some(b) => {
            assert(pats[b as int] == parts_of(routes@[b as int].segments@));
            Some((b, bind_params(&routes[b].segments, q)))
        },
    }
}

/// The method and the path of a route string such as `"GET /users/:id"`: its
/// first blank-separated word, and its second one without the query part.
/// There is none when the string holds fewer than two words.
pub open spec fn parse_route(s: Seq<char>) -> Option<(Seq<char>, Seq<char>)> {
    let ws = words(s);
    if ws.len() < 2 {
        None
    } else {
        Some((ws[0], split(ws[1], Some('?'))[0]))
    }
}

/// `after` is `before` with the route string `route` registered for `handler`:
/// the pattern and the handler go after the others of the route's method.
pub open spec fn route_added<H>(before: Router<H>, after: Router<H>, route: Seq<char>, handler: H) -> bool {
    match parse_route(route) {
        None => false,
        Some((method, path)) => {
            &&& after.methods() == if before.methods().contains(method) {
                before.methods()
            } else {
                before.methods().push(method)
            }
            &&& forall|m: Seq<char>| #[trigger] after.patterns(m) == if m == method {
                before.patterns(m).push(pattern_of(path))
            } else {
                before.patterns(m)
            }
            &&& forall|m: Seq<char>| #[trigger] after.handlers(m) == if m == method {
                before.handlers(m).push(handler)
            } else {
                before.handlers(m)
            }
        },
    }
}

/// A parsed route string.
pub struct RouteDef {
    pub method: String,
    pub segments: Vec<Segment>,
}

impl RouteDef {
    pub fn new() -> (r: RouteDef)
        ensures
            r.method@ == Seq::<char>::empty(),
            r.segments@ == Seq::<Segment>::empty(),
    {
        RouteDef { method: String::new(), segments: Vec::new() }
    }

    /// Parses a route string: fails when it does not hold a method word and a
    /// path word.
    pub fn parse(route_str: &str) -> (r: Result<RouteDef, XpressError>)
        ensures
            match parse_route(route_str@) {
                None => r matches Err(XpressError::ParsingError(_)),
                Some((m, path)) => r matches Ok(d) && d.method@ == m && parts_of(d.segments@)
                    == pattern_of(path),
            },
    {
        let mut def = RouteDef::new();
        let words = keep_non_empty(split_text(route_str, None));
        if words.len() < 2 {
            let mut msg = String::from_str("Error parsing route ");
            msg.append(route_str);
            return Err(XpressError::ParsingError(msg));
        }
        def.method = words[0].clone();
        let path = split_text(words[1].as_str(), Some('?'));
        proof {
            crate::text::lemma_split_len(words@[1]@, Some('?'));
        }
        def.segments = parse_path_segments(path[0].as_str());
        Ok(def)
    }
}

/// The routes of one method, in registration order.
struct MethodRoutes<H> {
    method: String,
    routes: Vec<Route<H>>,
}

/// The route table: one entry per method, in the order in which methods were
/// first registered.
pub struct Router<H> {
    roots: Vec<MethodRoutes<H>>,
}

/// The request segments of a path: its non-empty `/`-separated components.
pub fn path_segments(path: &str) -> (r: Vec<String>)
    ensures
        views(r@) == path_parts(path@),
{
    keep_non_empty(split_text(path, Some('/')))
}

/// One of the three outcomes of looking a request up.
pub enum Lookup<'a, H> {
    Found(&'a H, KeyValues),
    MethodNotAllowed,
    NotFound,
}

impl<H> Router<H> {
    /// The methods that have routes, each once.
    pub closed spec fn methods(&self) -> Seq<Seq<char>> {
        self.roots@.map_values(|r: MethodRoutes<H>| r.method@)
    }

    pub closed spec fn wf(&self) -> bool {
        forall|i: int, j: int|
            0 <= i < j < self.methods().len() ==> #[trigger] self.methods()[i]
                != #[trigger] self.methods()[j]
    }

    closed spec fn root_of(&self, m: Seq<char>) -> int {
        choose|i: int| 0 <= i < self.methods().len() && self.methods()[i] == m
    }

    /// The patterns registered for method `m`, in registration order.
    pub closed spec fn patterns(&self, m: Seq<char>) -> Seq<Seq<Part>> {
        if self.methods().contains(m) {
            route_pats(self.roots@[self.root_of(m)].routes@)
        } else {
            Seq::empty()
        }
    }

    /// The handlers registered for method `m`, in the order of `patterns(m)`.
    pub closed spec fn handlers(&self, m: Seq<char>) -> Seq<H> {
        if self.methods().contains(m) {
            route_handlers(self.roots@[self.root_of(m)].routes@)
        } else {
            Seq::empty()
        }
    }

    pub fn new() -> (r: Router<H>)
        ensures
            r.wf(),
            r.methods() == Seq::<Seq<char>>::empty(),
            forall|m: Seq<char>| #[trigger] r.patterns(m) == Seq::<Seq<Part>>::empty(),
            forall|m: Seq<char>| #[trigger] r.handlers(m) == Seq::<H>::empty(),
    {
        let r = Router { roots: Vec::new() };
        assert(r.methods() =~= Seq::<Seq<char>>::empty());
        r
    }

    /// The number of methods that have routes.
    pub fn method_count(&self) -> (r: usize)
        ensures
            r == self.methods().len(),
    {
        self.roots.len()
    }

    /// The index of the entry of `method`, if it has one.
    fn find_root(&self, method: &String) -> (r: Option<usize>)
        requires
            self.wf(),
        ensures
            match r {
                Some(i) => self.methods().contains(method@) && i == self.root_of(method@),
                None => !self.methods().contains(method@),
            },
    {
        let mut i: usize = 0;
        while i < self.roots.len()
            invariant
                i <= self.roots@.len(),
                self.wf(),
                forall|j: int| 0 <= j < i ==> #[trigger] self.methods()[j] != method@,
            decreases self.roots@.len() - i,
        {
            assert(self.methods()[i as int] == self.roots@[i as int].method@);
            if self.roots[i].method == *method {
                let ghost c = self.root_of(method@);
                assert(self.methods().contains(method@));
                assert(c == i) by {
                    if c != i {
                        assert(self.methods()[c] != self.methods()[i as int]);
                    }
                }
                return Some(i);
            }
            i += 1;
        }
        assert(!self.methods().contains(method@)) by {
            if self.methods().contains(method@) {
                let j = choose|j: int| 0 <= j < self.methods().len() && self.methods()[j] == method@;
                assert(self.methods()[j] != method@);
            }
        }
        None
    }

    /// Registers a handler for a route string such as `"GET /users/:id"`.
    /// A route string without a method word and a path word is refused, and
    /// leaves the routes as they were.
    pub fn register_route(&mut self, route_str: String, handler: H) -> (r: Result<(), XpressError>)
        requires
            old(self).wf(),
        ensures
            final(self).wf(),
            match parse_route(route_str@) {
                None => {
                    &&& r matches Err(XpressError::ParsingError(_))
                    &&& final(self).methods() == old(self).methods()
                    &&& forall|m: Seq<char>| #[trigger] final(self).patterns(m) == old(self).patterns(m)
                    &&& forall|m: Seq<char>| #[trigger] final(self).handlers(m) == old(self).handlers(m)
                },
                Some(_) => r is Ok && route_added(*old(self), *final(self), route_str@, handler),
            },
    {
        let def = match RouteDef::parse(route_str.as_str()) {
            Ok(d) => d,
            Err(e) => {
                return Err(e);
            },
        };
        let RouteDef { method, segments } = def;
        let ghost m = method@;
        let ghost pat = parts_of(segments@);
        let ghost old_router = *self;
        let route = Route { segments, handler };
        match self.find_root(&method) {
            Some(i) => {
                let mut root = self.roots.remove(i);
                let ghost old_routes = root.routes@;
                root.routes.push(route);
                self.roots.insert(i, root);
                assert(self.methods() =~= old_router.methods()) by {
                    assert forall|j: int| 0 <= j < self.methods().len() implies self.methods()[j]
                        == old_router.methods()[j] by {
                        assert(self.roots@[j].method@ == self.methods()[j]);
                        assert(old_router.roots@[j].method@ == old_router.methods()[j]);
                    }
                }
                assert(route_pats(root.routes@) =~= route_pats(old_routes).push(pat));
                assert(route_handlers(root.routes@) =~= route_handlers(old_routes).push(handler));
                assert forall|m2: Seq<char>| #[trigger] self.patterns(m2) == if m2 == m {
                    old_router.patterns(m2).push(pat)
                } else {
                    old_router.patterns(m2)
                } by {
                    if old_router.methods().contains(m2) && m2 != m {
                        let a = self.root_of(m2);
                        assert(a == old_router.root_of(m2));
                        assert(a != i);
                    }
                }
                assert forall|m2: Seq<char>| #[trigger] self.handlers(m2) == if m2 == m {
                    old_router.handlers(m2).push(handler)
                } else {
                    old_router.handlers(m2)
                } by {
                    if old_router.methods().contains(m2) && m2 != m {
                        let a = self.root_of(m2);
                        assert(a == old_router.root_of(m2));
                        assert(a != i);
                    }
                }
            },
            None => {
                let mut routes: Vec<Route<H>> = Vec::new();
                routes.push(route);
                self.roots.push(MethodRoutes { method, routes });
                assert(self.methods() =~= old_router.methods().push(m));
                assert(route_pats(routes@) =~= seq![pat]);
                assert(route_handlers(routes@) =~= seq![handler]);
                assert(self.methods()[old_router.methods().len() as int] == m);
                assert forall|m2: Seq<char>| #[trigger] self.patterns(m2) == if m2 == m {
                    old_router.patterns(m2).push(pat)
                } else {
                    old_router.patterns(m2)
                } by {
                    if m2 == m {
                        assert(self.root_of(m2) == old_router.methods().len());
                        assert(old_router.patterns(m2) =~= Seq::<Seq<Part>>::empty());
                    } else if old_router.methods().contains(m2) {
                        let a = old_router.root_of(m2);
                        assert(self.methods()[a] == m2);
                        assert(self.root_of(m2) == a);
                    }
                }
                assert forall|m2: Seq<char>| #[trigger] self.handlers(m2) == if m2 == m {
                    old_router.handlers(m2).push(handler)
                } else {
                    old_router.handlers(m2)
                } by {
                    if m2 == m {
                        assert(self.root_of(m2) == old_router.methods().len());
                        assert(old_router.handlers(m2) =~= Seq::<H>::empty());
                    } else if old_router.methods().contains(m2) {
                        let a = old_router.root_of(m2);
                        assert(self.methods()[a] == m2);
                        assert(self.root_of(m2) == a);
                    }
                }
            },
        }
        Ok(())
    }

    /// Resolves a request: the handler of the most specific route that matches it,
    /// and the parameters that the route's own names bind.
    pub fn resolve(&self, method: String, path: String) -> (r: Option<(&H, KeyValues)>)
        requires
            self.wf(),
        ensures
            resolves_to(*self, method@, path@, r),
    {
        let q = path_segments(path.as_str());
        match self.find_root(&method) {
            None => {
                proof {
                    lemma_no_patterns(views(q@));
                }
                None
            },
            Some(i) => {
                let routes = &self.roots[i].routes;
                match resolve_in(routes, &q) {
                    None => None,
                    Some((k, params)) => Some((&routes[k].handler, params)),
                }
            },
        }
    }

    /// Looks a request up: the route that matches it, or whether its path would
    /// match under another method.
    pub fn lookup(&self, method: String, path: String) -> (r: Lookup<'_, H>)
        requires
            self.wf(),
        ensures
            match resolution(self.patterns(method@), path_parts(path@)) {
                Some((k, b)) => r matches Lookup::Found(h, params) && *h == self.handlers(
                    method@,
                )[k] && params@ == b,
                None => if exists|m: Seq<char>|
                    #[trigger] self.methods().contains(m) && resolution(
                        self.patterns(m),
                        path_parts(path@),
                    ) is Some {
                    r is MethodNotAllowed
                } else {
                    r is NotFound
                },
            },
    {
        let q = path_segments(path.as_str());
        let ghost qs = path_parts(path@);
        match self.resolve(method.clone(), path.clone()) {
            Some((h, params)) => {
                return Lookup::Found(h, params);
            },
            None => {},
        }
        let mut i: usize = 0;
        while i < self.roots.len()
            invariant
                i <= self.roots@.len(),
                self.wf(),
                views(q@) == qs,
                qs == path_parts(path@),
                resolution(self.patterns(method@), qs) is None,
                forall|j: int|
                    0 <= j < i ==> #[trigger] resolution(route_pats(self.roots@[j].routes@), qs)
                        is None,
            decreases self.roots@.len() - i,
        {
            if resolve_in(&self.roots[i].routes, &q).is_some() {
                let ghost m = self.methods()[i as int];
                assert(self.methods().contains(m));
                assert(self.root_of(m) == i) by {
                    let c = self.root_of(m);
                    if c != i {
                        assert(self.methods()[c] != self.methods()[i as int]);
                    }
                }
                assert(resolution(self.patterns(m), qs) is Some);
                return Lookup::MethodNotAllowed;
            }
            i += 1;
        }
        assert forall|m: Seq<char>| #[trigger] self.methods().contains(m) implies resolution(
            self.patterns(m),
            qs,
        ) is None by {
            let a = self.root_of(m);
            assert(0 <= a < self.roots@.len());
            assert(resolution(route_pats(self.roots@[a].routes@), qs) is None);
        }
        Lookup::NotFound
    }
}

/// With no patterns nothing resolves.
proof fn lemma_no_patterns(q: Seq<Seq<char>>)
    ensures
        resolution(Seq::<Seq<Part>>::empty(), q) is None,
{
}

/// A request matches only a pattern with as many segments as its path: a path
/// that is a strict prefix or a strict extension of every pattern of its method
/// matches none.
pub proof fn lemma_match_same_length(pats: Seq<Seq<Part>>, q: Seq<Seq<char>>)
    ensures
        resolution(pats, q) matches Some((k, _)) ==> pats[k].len() == q.len(),
        (forall|k: int| 0 <= k < pats.len() ==> #[trigger] pats[k].len() != q.len())
            ==> resolution(pats, q) is None,
{
    if let Some((k, _)) = resolution(pats, q) {
        assert(wins(pats, q, k));
    }
}

/// A request that some pattern matches resolves, and to a pattern that matches
/// it.
pub proof fn lemma_match_found(pats: Seq<Seq<Part>>, q: Seq<Seq<char>>, k0: int)
    requires
        0 <= k0 < pats.len(),
        matches(pats[k0], q),
    ensures
        resolution(pats, q) matches Some((k, _)) && matches(pats[k], q),
{
    lemma_resolution_is_best(pats, q);
    lemma_best_of(pats, q, pats.len());
}

/// The outcome of a resolution is determined by the patterns and the request:
/// resolving the same request twice against an unchanged router gives the
/// same handler and the same parameters.
pub proof fn lemma_resolution_repeatable<H>(router: Router<H>, method: Seq<char>, path: Seq<char>)
    ensures
        forall|first: Option<(&H, KeyValues)>, second: Option<(&H, KeyValues)>|
            #[trigger] resolves_to(router, method, path, first) && #[trigger] resolves_to(
                router,
                method,
                path,
                second,
            ) ==> match (first, second) {
                (None, None) => true,
                (Some((h, params)), Some((g, again))) => *h == *g && params@ == again@,
                _ => false,
            },
{
}

/// The values that `resolve` may return for `method` and `path`.
pub open spec fn resolves_to<H>(
    router: Router<H>,
    method: Seq<char>,
    path: Seq<char>,
    r: Option<(&H, KeyValues)>,
) -> bool {
    match resolution(router.patterns(method), path_parts(path)) {
        None => r is None,
        Some((k, b)) => r matches Some((h, params)) && *h == router.handlers(method)[k] && params@
            == b,
    }
}

/// The pattern that spells a request path with literals only.
pub open spec fn literal_pattern(q: Seq<Seq<char>>) -> Seq<Part> {
    q.map_values(|s: Seq<char>| Part::Literal(s))
}

/// Static segments take priority over dynamic ones: when a pattern of literals
/// only spells the request path, the request resolves to such a pattern (the
/// last registered) and binds no parameter, whatever dynamic patterns would
/// also fit.
pub proof fn lemma_static_priority(pats: Seq<Seq<Part>>, q: Seq<Seq<char>>, k0: int)
    requires
        0 <= k0 < pats.len(),
        pats[k0] == literal_pattern(q),
    ensures
        resolution(pats, q) matches Some((k, b)) && pats[k] == literal_pattern(q) && b
            == Map::<Seq<char>, Seq<char>>::empty(),
{
    let lit = literal_pattern(q);
    assert(matches(lit, q)) by {
        assert forall|i: int| 0 <= i < q.len() implies #[trigger] fits(lit[i], q[i]) by {
            assert(lit[i] == Part::Literal(q[i]));
        }
    }
    lemma_match_found(pats, q, k0);
    let (k, b) = resolution(pats, q)->0;
    let c = choose|k: int| wins(pats, q, k);
    assert(wins(pats, q, k));
    let pat = pats[k];
    lemma_compare(lit, pat);
    if more_specific(pat, lit) {
        let i = choose|i: int| #[trigger] differs_first_at(pat, lit, i) && is_lit(pat[i]);
        assert(is_lit(lit[i]));
    }
    assert(!more_specific(lit, pat));
    assert(pat =~= lit) by {
        assert forall|i: int| 0 <= i < q.len() implies pat[i] == lit[i] by {
            assert(is_lit(lit[i]) == is_lit(pat[i]));
            assert(fits(pat[i], q[i]));
        }
    }
    lemma_literal_binds_nothing(lit, q, q.len());
}

proof fn lemma_literal_binds_nothing(pat: Seq<Part>, q: Seq<Seq<char>>, i: nat)
    requires
        i <= q.len(),
        pat == literal_pattern(q),
    ensures
        bind(pat, q, i) == Map::<Seq<char>, Seq<char>>::empty(),
    decreases i,
{
    if i > 0 {
        lemma_literal_binds_nothing(pat, q, (i - 1) as nat);
    }
}

/// The parameters come from the names of the matched pattern itself: each
/// dynamic segment binds its own name to its request segment, unless a later
/// segment of the same name replaces it.
pub proof fn lemma_params_named_by_pattern(pats: Seq<Seq<Part>>, q: Seq<Seq<char>>, k: int, i: int)
    requires
        resolution(pats, q) matches Some((w, _)) && w == k,
        0 <= i < q.len(),
        pats[k][i] is Param,
        forall|j: int| i < j < q.len() ==> #[trigger] pats[k][j] != pats[k][i],
    ensures
        resolution(pats, q) matches Some((_, b)) && b.contains_key(pats[k][i]->Param_0) && b[pats[k][
            i
        ]->Param_0] == q[i],
{
    assert(wins(pats, q, k));
    lemma_bind_names(pats[k], q, i, q.len());
}

proof fn lemma_bind_names(pat: Seq<Part>, q: Seq<Seq<char>>, i: int, n: nat)
    requires
        0 <= i < n <= q.len(),
        n <= pat.len(),
        pat[i] is Param,
        forall|j: int| i < j < q.len() ==> #[trigger] pat[j] != pat[i],
    ensures
        bind(pat, q, n).contains_key(pat[i]->Param_0),
        bind(pat, q, n)[pat[i]->Param_0] == q[i],
    decreases n,
{
    if n > i + 1 {
        lemma_bind_names(pat, q, i, (n - 1) as nat);
        assert(pat[n - 1] != pat[i]);
    }
}

} // verus!
