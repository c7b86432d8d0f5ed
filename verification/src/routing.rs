//! Routes, and how a request finds its route.
//!
//! A route binds a method and a pattern to a handler. A pattern is a path
//! whose segments are literals or, when they begin with `:`, parameters that
//! stand for any one segment. With each route comes the schema of its
//! operation. A router holds routes of which no two can be mistaken for each
//! other, so that every request resolves to at most one.

use crate::path::{
    all_segments, bytes_eq, copy_bytes, is_segment, lemma_segments_are_segments, segments,
    segs_view, split_segments, COLON, SLASH,
};
use crate::schema::{Schema, SchemaView};
use vstd::prelude::*;
use vstd::string::StringSliceAdditionalSpecFns;

verus! {

/// The request methods that a route can be bound to.
#[derive(Clone, Copy, Debug, PartialEq, Eq, Structural)]
pub enum Method {
    Get,
    Post,
    Put,
    Patch,
    Delete,
    Head,
    Options,
}

/// The name of a method, as a request spells it.
pub open spec fn method_name(method: Method) -> &'static str {
    match method {
        Method::Get => "GET",
        Method::Post => "POST",
        Method::Put => "PUT",
        Method::Patch => "PATCH",
        Method::Delete => "DELETE",
        Method::Head => "HEAD",
        Method::Options => "OPTIONS",
    }
}

/// The method that bears this name, if there is one. Names are in upper case.
pub open spec fn method_named(name: Seq<u8>) -> Option<Method> {
    if name == "GET".spec_bytes() {
        Some(Method::Get)
    } else if name == "POST".spec_bytes() {
        Some(Method::Post)
    } else if name == "PUT".spec_bytes() {
        Some(Method::Put)
    } else if name == "PATCH".spec_bytes() {
        Some(Method::Patch)
    } else if name == "DELETE".spec_bytes() {
        Some(Method::Delete)
    } else if name == "HEAD".spec_bytes() {
        Some(Method::Head)
    } else if name == "OPTIONS".spec_bytes() {
        Some(Method::Options)
    } else {
        None
    }
}

impl Method {
    /// The name of the method.
    pub fn name(&self) -> (name: &'static str)
        ensures
            name@ == method_name(*self)@,
    {
        match self {
            Method::Get => "GET",
            Method::Post => "POST",
            Method::Put => "PUT",
            Method::Patch => "PATCH",
            Method::Delete => "DELETE",
            Method::Head => "HEAD",
            Method::Options => "OPTIONS",
        }
    }

    /// The method that bears this name.
    pub fn parse(name: &str) -> (method: Option<Method>)
        ensures
            method == method_named(name.spec_bytes()),
    {
        let bytes = name.as_bytes();
        if bytes_eq(bytes, "GET".as_bytes()) {
            Some(Method::Get)
        } else if bytes_eq(bytes, "POST".as_bytes()) {
            Some(Method::Post)
        } else if bytes_eq(bytes, "PUT".as_bytes()) {
            Some(Method::Put)
        } else if bytes_eq(bytes, "PATCH".as_bytes()) {
            Some(Method::Patch)
        } else if bytes_eq(bytes, "DELETE".as_bytes()) {
            Some(Method::Delete)
        } else if bytes_eq(bytes, "HEAD".as_bytes()) {
            Some(Method::Head)
        } else if bytes_eq(bytes, "OPTIONS".as_bytes()) {
            Some(Method::Options)
        } else {
            None
        }
    }
}

/// Every method is the one that bears its name.
pub proof fn lemma_method_named(method: Method)
    ensures
        method_named(method_name(method).spec_bytes()) == Some(method),
{
    reveal_strlit("GET");
    reveal_strlit("POST");
    reveal_strlit("PUT");
    reveal_strlit("PATCH");
    reveal_strlit("DELETE");
    reveal_strlit("HEAD");
    reveal_strlit("OPTIONS");
    assert(vstd::string::is_ascii("GET"));
    assert(vstd::string::is_ascii("POST"));
    assert(vstd::string::is_ascii("PUT"));
    assert(vstd::string::is_ascii("PATCH"));
    assert(vstd::string::is_ascii("DELETE"));
    assert(vstd::string::is_ascii("HEAD"));
    assert(vstd::string::is_ascii("OPTIONS"));
    assert("GET".spec_bytes()[0] == 71 && "GET".spec_bytes().len() == 3);
    assert("POST".spec_bytes()[0] == 80 && "POST".spec_bytes()[1] == 79);
    assert("PUT".spec_bytes()[0] == 80 && "PUT".spec_bytes()[1] == 85);
    assert("PATCH".spec_bytes()[0] == 80 && "PATCH".spec_bytes()[1] == 65);
    assert("DELETE".spec_bytes()[0] == 68);
    assert("HEAD".spec_bytes()[0] == 72);
    assert("OPTIONS".spec_bytes()[0] == 79);
}

/// Why a route was not taken into a router.
#[derive(Clone, Copy, Debug, PartialEq, Eq, Structural)]
pub enum RouteError {
    /// The pattern does not begin with `/`, or has a parameter without a name.
    InvalidPath,
    /// A route with the same method and a pattern of the same shape is there
    /// already.
    Duplicate,
}

/// Why a request found no route.
#[derive(Clone, Copy, Debug, PartialEq, Eq, Structural)]
pub enum DispatchError {
    /// No route matches the path, whatever the method.
    PathNotFound,
    /// Some route matches the path, but none for the requested method.
    MethodNotAllowed,
}

/// Whether a pattern's segment is a parameter.
pub open spec fn is_param(seg: Seq<u8>) -> bool {
    seg.len() > 0 && seg[0] == COLON
}

/// What a pattern is made of: segments, each a literal or a named parameter.
pub open spec fn is_pattern(segs: Seq<Seq<u8>>) -> bool {
    &&& all_segments(segs)
    &&& forall|i: int| 0 <= i < segs.len() ==> #[trigger] segs[i] != seq![COLON]
}

/// A pattern as it is written: it begins with `/` and splits into a pattern.
pub open spec fn valid_pattern(bytes: Seq<u8>) -> bool {
    &&& bytes.len() > 0
    &&& bytes[0] == SLASH
    &&& is_pattern(segments(bytes))
}

/// A pattern matches a path of as many segments, each of which is equal to
/// the pattern's literal at that place or stands under a parameter.
pub open spec fn matches_path(pattern: Seq<Seq<u8>>, path: Seq<Seq<u8>>) -> bool {
    &&& pattern.len() == path.len()
    &&& forall|i: int|
        0 <= i < pattern.len() ==> is_param(#[trigger] pattern[i]) || pattern[i] == path[i]
}

/// Two patterns have the same shape when they match the same paths: place by
/// place, both hold a parameter or both hold the same literal.
pub open spec fn same_shape(p: Seq<Seq<u8>>, q: Seq<Seq<u8>>) -> bool {
    &&& p.len() == q.len()
    &&& forall|i: int|
        0 <= i < p.len() ==> (is_param(#[trigger] p[i]) && is_param(q[i])) || p[i] == q[i]
}

/// At place `k`, `p` holds a literal where `q` holds a parameter, and before
/// `k` the two hold the same kind of segment at every place.
pub open spec fn leads_at(p: Seq<Seq<u8>>, q: Seq<Seq<u8>>, k: int) -> bool {
    &&& 0 <= k < p.len()
    &&& k < q.len()
    &&& !is_param(p[k])
    &&& is_param(q[k])
    &&& forall|i: int| 0 <= i < k ==> is_param(#[trigger] p[i]) == is_param(q[i])
}

/// `p` is more specific than `q`: at the first place where one holds a
/// literal and the other a parameter, the literal is `p`'s.
pub open spec fn more_specific(p: Seq<Seq<u8>>, q: Seq<Seq<u8>>) -> bool {
    exists|k: int| leads_at(p, q, k)
}

/// The segments of the path that stand under the pattern's parameters, in
/// the order of the path.
pub open spec fn captures(pattern: Seq<Seq<u8>>, path: Seq<Seq<u8>>) -> Seq<Seq<u8>>
    decreases pattern.len(),
{
    if pattern.len() == 0 || path.len() != pattern.len() {
        Seq::empty()
    } else if is_param(pattern.last()) {
        captures(pattern.drop_last(), path.drop_last()).push(path.last())
    } else {
        captures(pattern.drop_last(), path.drop_last())
    }
}

/// A route: a method and a pattern, bound to a handler, with the schema of
/// the operation.
pub struct Route<H> {
    pub method: Method,
    pub segments: Vec<Vec<u8>>,
    pub handler: H,
    pub schema: Schema,
}

/// A route as contracts see it.
pub struct RouteView<H> {
    pub method: Method,
    pub pattern: Seq<Seq<u8>>,
    pub handler: H,
    pub schema: SchemaView,
}

impl<H> View for Route<H> {
    type V = RouteView<H>;

    open spec fn view(&self) -> RouteView<H> {
        RouteView {
            method: self.method,
            pattern: segs_view(self.segments@),
            handler: self.handler,
            schema: self.schema@,
        }
    }
}

/// Two routes that a request could not tell apart.
pub open spec fn conflict<H>(a: RouteView<H>, b: RouteView<H>) -> bool {
    a.method == b.method && same_shape(a.pattern, b.pattern)
}

/// The invariant of a router's routes: each pattern is a pattern, and no two
/// routes conflict.
pub open spec fn routes_wf<H>(routes: Seq<RouteView<H>>) -> bool {
    &&& forall|i: int| 0 <= i < routes.len() ==> is_pattern(#[trigger] routes[i].pattern)
    &&& forall|i: int, j: int|
        0 <= i < j < routes.len() ==> !conflict(#[trigger] routes[i], #[trigger] routes[j])
}

/// The route is bound to the method and its pattern matches the path.
pub open spec fn candidate<H>(route: RouteView<H>, method: Method, path: Seq<Seq<u8>>) -> bool {
    route.method == method && matches_path(route.pattern, path)
}

/// Route `i` is a candidate and more specific than every other candidate.
pub open spec fn is_best<H>(
    routes: Seq<RouteView<H>>,
    method: Method,
    path: Seq<Seq<u8>>,
    i: int,
) -> bool {
    &&& 0 <= i < routes.len()
    &&& candidate(routes[i], method, path)
    &&& forall|j: int|
        0 <= j < routes.len() && j != i && candidate(#[trigger] routes[j], method, path)
            ==> more_specific(routes[i].pattern, routes[j].pattern)
}

/// Some route's pattern matches the path, whatever its method.
pub open spec fn path_known<H>(routes: Seq<RouteView<H>>, path: Seq<Seq<u8>>) -> bool {
    exists|j: int| 0 <= j < routes.len() && matches_path(#[trigger] routes[j].pattern, path)
}

/// Where a request ends up.
pub enum Resolution {
    /// The route at this place in the router.
    Found(int),
    MethodNotAllowed,
    PathNotFound,
}

/// The route that a request for `path` with `method` resolves to: the most
/// specific of the candidates.
pub open spec fn resolve<H>(
    routes: Seq<RouteView<H>>,
    method: Method,
    path: Seq<Seq<u8>>,
) -> Resolution {
    if exists|i: int| is_best(routes, method, path, i) {
        Resolution::Found(choose|i: int| is_best(routes, method, path, i))
    } else if path_known(routes, path) {
        Resolution::MethodNotAllowed
    } else {
        Resolution::PathNotFound
    }
}

/// What registering a pattern for a method comes to: the error, if any.
pub open spec fn register_outcome<H>(
    routes: Seq<RouteView<H>>,
    method: Method,
    pattern: Seq<u8>,
) -> Option<RouteError> {
    if !valid_pattern(pattern) {
        Some(RouteError::InvalidPath)
    } else if exists|j: int|
        0 <= j < routes.len() && (#[trigger] routes[j]).method == method && same_shape(
            routes[j].pattern,
            segments(pattern),
        ) {
        Some(RouteError::Duplicate)
    } else {
        None
    }
}

/// The routes of a router as they stand under a prefix.
pub open spec fn mounted<H>(sub: Seq<RouteView<H>>, prefix: Seq<Seq<u8>>) -> Seq<RouteView<H>> {
    Seq::new(
        sub.len(),
        |i: int|
            RouteView {
                method: sub[i].method,
                pattern: prefix + sub[i].pattern,
                handler: sub[i].handler,
                schema: sub[i].schema,
            },
    )
}

/// What mounting a router under a prefix comes to: the error, if any.
pub open spec fn mount_outcome<H>(
    routes: Seq<RouteView<H>>,
    prefix: Seq<u8>,
    sub: Seq<RouteView<H>>,
) -> Option<RouteError> {
    if !valid_pattern(prefix) {
        Some(RouteError::InvalidPath)
    } else if exists|i: int, j: int|
        0 <= i < sub.len() && 0 <= j < routes.len() && conflict(
            #[trigger] routes[j],
            #[trigger] mounted(sub, segments(prefix))[i],
        ) {
        Some(RouteError::Duplicate)
    } else {
        None
    }
}

/// Of two patterns that lead one another, neither does: the order is strict.
pub proof fn lemma_specific_asymmetric(p: Seq<Seq<u8>>, q: Seq<Seq<u8>>)
    ensures
        !(more_specific(p, q) && more_specific(q, p)),
{
    if more_specific(p, q) && more_specific(q, p) {
        let k1 = choose|k: int| leads_at(p, q, k);
        let k2 = choose|k: int| leads_at(q, p, k);
        if k1 < k2 {
            assert(is_param(q[k1]) == is_param(p[k1]));
        } else if k2 < k1 {
            assert(is_param(p[k2]) == is_param(q[k2]));
        }
    }
}

/// Being more specific carries over: the order is transitive.
pub proof fn lemma_specific_transitive(p: Seq<Seq<u8>>, q: Seq<Seq<u8>>, r: Seq<Seq<u8>>)
    requires
        more_specific(p, q),
        more_specific(q, r),
    ensures
        more_specific(p, r),
{
    let k1 = choose|k: int| leads_at(p, q, k);
    let k2 = choose|k: int| leads_at(q, r, k);
    if k1 < k2 {
        assert(is_param(q[k1]) == is_param(r[k1]));
        assert forall|i: int| 0 <= i < k1 implies is_param(#[trigger] p[i]) == is_param(r[i]) by {
            assert(is_param(q[i]) == is_param(r[i]));
        }
        assert(leads_at(p, r, k1));
    } else if k2 < k1 {
        assert(is_param(p[k2]) == is_param(q[k2]));
        assert forall|i: int| 0 <= i < k2 implies is_param(#[trigger] p[i]) == is_param(r[i]) by {
            assert(is_param(q[i]) == is_param(r[i]));
        }
        assert(leads_at(p, r, k2));
    }
}

/// Up to place `n`, two patterns hold the same kinds of segment, or one of
/// them leads the other before `n`.
proof fn lemma_kinds_agree_or_lead(p: Seq<Seq<u8>>, q: Seq<Seq<u8>>, n: int)
    requires
        0 <= n <= p.len(),
        p.len() == q.len(),
    ensures
        (forall|i: int| 0 <= i < n ==> is_param(#[trigger] p[i]) == is_param(q[i]))
            || more_specific(p, q) || more_specific(q, p),
    decreases n,
{
    if n > 0 {
        lemma_kinds_agree_or_lead(p, q, n - 1);
        if forall|i: int| 0 <= i < n - 1 ==> is_param(#[trigger] p[i]) == is_param(q[i]) {
            if is_param(p[n - 1]) != is_param(q[n - 1]) {
                if is_param(q[n - 1]) {
                    assert(leads_at(p, q, n - 1));
                } else {
                    assert forall|i: int| 0 <= i < n - 1 implies is_param(#[trigger] q[i])
                        == is_param(p[i]) by {
                        assert(is_param(p[i]) == is_param(q[i]));
                    }
                    assert(leads_at(q, p, n - 1));
                }
            }
        }
    }
}

/// Of two patterns that match one path and differ in shape, one is more
/// specific than the other.
pub proof fn lemma_specific_total(p: Seq<Seq<u8>>, q: Seq<Seq<u8>>, path: Seq<Seq<u8>>)
    requires
        matches_path(p, path),
        matches_path(q, path),
        !same_shape(p, q),
    ensures
        more_specific(p, q) || more_specific(q, p),
{
    lemma_kinds_agree_or_lead(p, q, p.len() as int);
    if forall|i: int| 0 <= i < p.len() ==> is_param(#[trigger] p[i]) == is_param(q[i]) {
        assert forall|i: int| 0 <= i < p.len() implies (is_param(#[trigger] p[i]) && is_param(
            q[i],
        )) || p[i] == q[i] by {
            assert(is_param(p[i]) == is_param(q[i]));
            assert(is_param(q[i]) || q[i] == path[i]);
        }
    }
}

/// At most one route is the best for a request.
pub proof fn lemma_best_is_unique<H>(
    routes: Seq<RouteView<H>>,
    method: Method,
    path: Seq<Seq<u8>>,
    i: int,
    j: int,
)
    requires
        is_best(routes, method, path, i),
        is_best(routes, method, path, j),
    ensures
        i == j,
{
    if i != j {
        assert(candidate(routes[j], method, path));
        assert(candidate(routes[i], method, path));
        lemma_specific_asymmetric(routes[i].pattern, routes[j].pattern);
    }
}

/// A request resolves to route `i` exactly when that route is the best.
pub proof fn lemma_resolve_found<H>(
    routes: Seq<RouteView<H>>,
    method: Method,
    path: Seq<Seq<u8>>,
    i: int,
)
    ensures
        resolve(routes, method, path) == Resolution::Found(i) <==> is_best(
            routes,
            method,
            path,
            i,
        ),
{
    if is_best(routes, method, path, i) {
        let c = choose|c: int| is_best(routes, method, path, c);
        lemma_best_is_unique(routes, method, path, i, c);
    }
}

/// Whether a segment of a pattern is a parameter.
pub fn segment_is_param(seg: &Vec<u8>) -> (param: bool)
    ensures
        param == is_param(seg@),
{
    seg.len() > 0 && seg[0] == COLON
}

/// Whether a pattern matches a path.
pub fn pattern_matches(pattern: &Vec<Vec<u8>>, path: &Vec<Vec<u8>>) -> (hit: bool)
    ensures
        hit == matches_path(segs_view(pattern@), segs_view(path@)),
{
    if pattern.len() != path.len() {
        return false;
    }
    let mut i: usize = 0;
    while i < pattern.len()
        invariant
            pattern@.len() == path@.len(),
            0 <= i <= pattern.len(),
            forall|k: int|
                0 <= k < i ==> is_param(#[trigger] segs_view(pattern@)[k]) || segs_view(
                    pattern@,
                )[k] == segs_view(path@)[k],
        decreases pattern.len() - i,
    {
        if !segment_is_param(&pattern[i]) && !bytes_eq(pattern[i].as_slice(), path[i].as_slice()) {
            assert(!is_param(segs_view(pattern@)[i as int]));
            assert(segs_view(pattern@)[i as int] != segs_view(path@)[i as int]);
            return false;
        }
        i += 1;
    }
    true
}

/// Whether two patterns have the same shape.
pub fn patterns_same_shape(p: &Vec<Vec<u8>>, q: &Vec<Vec<u8>>) -> (same: bool)
    ensures
        same == same_shape(segs_view(p@), segs_view(q@)),
{
    if p.len() != q.len() {
        return false;
    }
    let mut i: usize = 0;
    while i < p.len()
        invariant
            p@.len() == q@.len(),
            0 <= i <= p.len(),
            forall|k: int|
                0 <= k < i ==> (is_param(#[trigger] segs_view(p@)[k]) && is_param(
                    segs_view(q@)[k],
                )) || segs_view(p@)[k] == segs_view(q@)[k],
        decreases p.len() - i,
    {
        let both_params = segment_is_param(&p[i]) && segment_is_param(&q[i]);
        if !both_params && !bytes_eq(p[i].as_slice(), q[i].as_slice()) {
            assert(!(is_param(segs_view(p@)[i as int]) && is_param(segs_view(q@)[i as int])));
            assert(segs_view(p@)[i as int] != segs_view(q@)[i as int]);
            return false;
        }
        i += 1;
    }
    true
}

/// Whether the first pattern is more specific than the second.
pub fn pattern_more_specific(p: &Vec<Vec<u8>>, q: &Vec<Vec<u8>>) -> (leads: bool)
    ensures
        leads == more_specific(segs_view(p@), segs_view(q@)),
{
    let ghost pv = segs_view(p@);
    let ghost qv = segs_view(q@);
    let mut i: usize = 0;
    while i < p.len() && i < q.len()
        invariant
            0 <= i <= p.len(),
            i <= q.len(),
            pv == segs_view(p@),
            qv == segs_view(q@),
            forall|k: int| 0 <= k < i ==> is_param(#[trigger] pv[k]) == is_param(qv[k]),
        decreases p.len() - i,
    {
        let p_param = segment_is_param(&p[i]);
        let q_param = segment_is_param(&q[i]);
        if p_param != q_param {
            proof {
                if q_param {
                    assert(leads_at(pv, qv, i as int));
                } else {
                    assert forall|k: int| !leads_at(pv, qv, k) by {
                        if leads_at(pv, qv, k) && k > i {
                            assert(is_param(pv[i as int]) == is_param(qv[i as int]));
                        }
                    }
                }
            }
            return q_param;
        }
        i += 1;
    }
    proof {
        assert forall|k: int| !leads_at(pv, qv, k) by {
            if leads_at(pv, qv, k) {
                assert(is_param(pv[k]) == is_param(qv[k]));
            }
        }
    }
    false
}

/// The segments of a path that stand under a pattern's parameters.
pub fn capture_params(pattern: &Vec<Vec<u8>>, path: &Vec<Vec<u8>>) -> (params: Vec<Vec<u8>>)
    ensures
        segs_view(params@) == captures(segs_view(pattern@), segs_view(path@)),
{
    let mut params: Vec<Vec<u8>> = Vec::new();
    if pattern.len() != path.len() {
        return params;
    }
    let ghost pv = segs_view(pattern@);
    let ghost sv = segs_view(path@);
    let mut i: usize = 0;
    while i < pattern.len()
        invariant
            pattern@.len() == path@.len(),
            0 <= i <= pattern.len(),
            pv == segs_view(pattern@),
            sv == segs_view(path@),
            segs_view(params@) == captures(pv.take(i as int), sv.take(i as int)),
        decreases pattern.len() - i,
    {
        proof {
            let p1 = pv.take(i as int + 1);
            let s1 = sv.take(i as int + 1);
            assert(p1.drop_last() == pv.take(i as int));
            assert(s1.drop_last() == sv.take(i as int));
            assert(p1.last() == pattern@[i as int]@);
            assert(s1.last() == path@[i as int]@);
        }
        if segment_is_param(&pattern[i]) {
            let ghost grown = segs_view(params@).push(path@[i as int]@);
            params.push(copy_bytes(path[i].as_slice()));
            assert(segs_view(params@) == grown);
        }
        i += 1;
    }
    assert(pv.take(i as int) == pv);
    assert(sv.take(i as int) == sv);
    params
}

/// The two patterns written one after the other.
pub fn concat_patterns(prefix: &Vec<Vec<u8>>, pattern: &Vec<Vec<u8>>) -> (whole: Vec<Vec<u8>>)
    ensures
        segs_view(whole@) == segs_view(prefix@) + segs_view(pattern@),
{
    let mut whole: Vec<Vec<u8>> = Vec::new();
    let mut i: usize = 0;
    while i < prefix.len()
        invariant
            0 <= i <= prefix.len(),
            segs_view(whole@) == segs_view(prefix@).take(i as int),
        decreases prefix.len() - i,
    {
        let ghost grown = segs_view(whole@).push(prefix@[i as int]@);
        whole.push(copy_bytes(prefix[i].as_slice()));
        assert(segs_view(whole@) == grown);
        assert(grown == segs_view(prefix@).take(i as int + 1));
        i += 1;
    }
    assert(segs_view(prefix@).take(i as int) == segs_view(prefix@));
    let mut j: usize = 0;
    while j < pattern.len()
        invariant
            0 <= j <= pattern.len(),
            segs_view(whole@) == segs_view(prefix@) + segs_view(pattern@).take(j as int),
        decreases pattern.len() - j,
    {
        let ghost grown = segs_view(whole@).push(pattern@[j as int]@);
        whole.push(copy_bytes(pattern[j].as_slice()));
        assert(segs_view(whole@) == grown);
        assert(grown == segs_view(prefix@) + segs_view(pattern@).take(j as int + 1));
        j += 1;
    }
    assert(segs_view(pattern@).take(j as int) == segs_view(pattern@));
    whole
}

/// Splits a pattern as it is written, if it is valid.
pub fn parse_pattern(pattern: &[u8]) -> (parsed: Option<Vec<Vec<u8>>>)
    ensures
        match parsed {
            Some(segs) => valid_pattern(pattern@) && segs_view(segs@) == segments(pattern@),
            None => !valid_pattern(pattern@),
        },
{
    if pattern.len() == 0 || pattern[0] != SLASH {
        return None;
    }
    let segs = split_segments(pattern);
    proof {
        lemma_segments_are_segments(pattern@);
    }
    let mut i: usize = 0;
    while i < segs.len()
        invariant
            0 <= i <= segs.len(),
            segs_view(segs@) == segments(pattern@),
            forall|k: int| 0 <= k < i ==> #[trigger] segs_view(segs@)[k] != seq![COLON],
        decreases segs.len() - i,
    {
        if segs[i].len() == 1 && segs[i][0] == COLON {
            assert(segs_view(segs@)[i as int] =~= seq![COLON]);
            assert(segments(pattern@)[i as int] == seq![COLON]);
            return None;
        }
        assert(segs_view(segs@)[i as int] != seq![COLON]) by {
            if segs_view(segs@)[i as int] == seq![COLON] {
                assert(seq![COLON].len() == 1);
                assert(seq![COLON][0] == COLON);
            }
        }
        i += 1;
    }
    Some(segs)
}

/// Having the same shape does not depend on the order of the two patterns.
pub proof fn lemma_same_shape_symmetric(p: Seq<Seq<u8>>, q: Seq<Seq<u8>>)
    ensures
        same_shape(p, q) == same_shape(q, p),
{
    if same_shape(p, q) {
        assert forall|i: int| 0 <= i < q.len() implies (is_param(#[trigger] q[i]) && is_param(
            p[i],
        )) || q[i] == p[i] by {
            assert((is_param(p[i]) && is_param(q[i])) || p[i] == q[i]);
        }
    }
    if same_shape(q, p) {
        assert forall|i: int| 0 <= i < p.len() implies (is_param(#[trigger] p[i]) && is_param(
            q[i],
        )) || p[i] == q[i] by {
            assert((is_param(q[i]) && is_param(p[i])) || q[i] == p[i]);
        }
    }
}

/// Under a common prefix two patterns have the same shape only if they have
/// it without the prefix.
pub proof fn lemma_same_shape_under_prefix(
    prefix: Seq<Seq<u8>>,
    p: Seq<Seq<u8>>,
    q: Seq<Seq<u8>>,
)
    ensures
        same_shape(prefix + p, prefix + q) == same_shape(p, q),
{
    let pp = prefix + p;
    let pq = prefix + q;
    if same_shape(pp, pq) {
        assert forall|i: int| 0 <= i < p.len() implies (is_param(#[trigger] p[i]) && is_param(
            q[i],
        )) || p[i] == q[i] by {
            let k = prefix.len() + i;
            assert(pp[k] == p[i] && pq[k] == q[i]);
            assert((is_param(pp[k]) && is_param(pq[k])) || pp[k] == pq[k]);
        }
    }
    if same_shape(p, q) {
        assert forall|i: int| 0 <= i < pp.len() implies (is_param(#[trigger] pp[i]) && is_param(
            pq[i],
        )) || pp[i] == pq[i] by {
            if i >= prefix.len() {
                let k = i - prefix.len();
                assert(pp[i] == p[k] && pq[i] == q[k]);
                assert((is_param(p[k]) && is_param(q[k])) || p[k] == q[k]);
            }
        }
    }
}

/// Two patterns written one after the other are a pattern.
pub proof fn lemma_pattern_concat(p: Seq<Seq<u8>>, q: Seq<Seq<u8>>)
    requires
        is_pattern(p),
        is_pattern(q),
    ensures
        is_pattern(p + q),
{
    let w = p + q;
    assert forall|i: int| 0 <= i < w.len() implies is_segment(#[trigger] w[i]) && w[i] != seq![
        COLON,
    ] by {
        if i < p.len() {
            assert(w[i] == p[i]);
        } else {
            assert(w[i] == q[i - p.len()]);
        }
    }
}

/// A route that a request resolved to.
pub struct Matched<H> {
    /// The place of the route in the router.
    pub index: usize,
    /// The handler that the route is bound to.
    pub handler: H,
    /// The segments of the path that stand under the pattern's parameters.
    pub params: Vec<Vec<u8>>,
}

/// A set of routes of which no two conflict, in the order of registration.
pub struct Router<H> {
    routes: Vec<Route<H>>,
}

impl<H> View for Router<H> {
    type V = Seq<RouteView<H>>;

    closed spec fn view(&self) -> Seq<RouteView<H>> {
        Seq::new(self.routes@.len(), |i: int| self.routes@[i]@)
    }
}

impl<H: Copy> Router<H> {
    /// The router's invariant.
    pub open spec fn wf(&self) -> bool {
        routes_wf(self@)
    }

    /// A router without routes.
    pub fn new() -> (router: Self)
        ensures
            router@ == Seq::<RouteView<H>>::empty(),
            router.wf(),
    {
        let router = Router { routes: Vec::new() };
        assert(router@ =~= Seq::<RouteView<H>>::empty());
        router
    }

    /// The number of routes.
    pub fn len(&self) -> (n: usize)
        ensures
            n == self@.len(),
    {
        self.routes.len()
    }

    /// The route at place `i`, in the order of registration.
    pub fn route(&self, i: usize) -> (route: &Route<H>)
        requires
            i < self@.len(),
        ensures
            route@ == self@[i as int],
    {
        &self.routes[i]
    }

    /// Whether a route for `method` is there whose pattern has the shape of
    /// `segs`.
    pub fn has_conflict(&self, method: Method, segs: &Vec<Vec<u8>>) -> (hit: bool)
        ensures
            hit == (exists|j: int|
                0 <= j < self@.len() && (#[trigger] self@[j]).method == method && same_shape(
                    self@[j].pattern,
                    segs_view(segs@),
                )),
    {
        let mut j: usize = 0;
        while j < self.routes.len()
            invariant
                0 <= j <= self.routes.len(),
                forall|k: int|
                    0 <= k < j ==> !((#[trigger] self@[k]).method == method && same_shape(
                        self@[k].pattern,
                        segs_view(segs@),
                    )),
            decreases self.routes.len() - j,
        {
            let route = &self.routes[j];
            if route.method == method && patterns_same_shape(&route.segments, segs) {
                assert(self@[j as int].method == method);
                return true;
            }
            j += 1;
        }
        false
    }

    /// Adds a route for `method` and `pattern`, bound to `handler` and
    /// described by `schema`.
    ///
    /// The pattern has to begin with `/`, and a parameter needs a name. A
    /// route with the same method whose pattern has the same shape must not
    /// be there yet. On an error the router stays as it was.
    pub fn register(
        &mut self,
        method: Method,
        pattern: &str,
        handler: H,
        schema: Schema,
    ) -> (res: Result<(), RouteError>)
        requires
            old(self).wf(),
        ensures
            final(self).wf(),
            match res {
                Ok(()) => {
                    &&& register_outcome(old(self)@, method, pattern.spec_bytes()) is None
                    &&& final(self)@ == old(self)@.push(
                        RouteView {
                            method,
                            pattern: segments(pattern.spec_bytes()),
                            handler,
                            schema: schema@,
                        },
                    )
                },
                Err(e) => {
                    &&& register_outcome(old(self)@, method, pattern.spec_bytes()) == Some(e)
                    &&& final(self)@ == old(self)@
                },
            },
    {
        let segs = match parse_pattern(pattern.as_bytes()) {
            None => {
                return Err(RouteError::InvalidPath);
            },
            Some(segs) => segs,
        };
        if self.has_conflict(method, &segs) {
            return Err(RouteError::Duplicate);
        }
        let ghost added = RouteView {
            method,
            pattern: segs_view(segs@),
            handler,
            schema: schema@,
        };
        self.routes.push(Route { method, segments: segs, handler, schema });
        proof {
            assert(self@ =~= old(self)@.push(added));
            assert forall|i: int, j: int| 0 <= i < j < self@.len() implies !conflict(
                #[trigger] self@[i],
                #[trigger] self@[j],
            ) by {
                if j == old(self)@.len() {
                    assert(self@[i] == old(self)@[i]);
                } else {
                    assert(self@[i] == old(self)@[i] && self@[j] == old(self)@[j]);
                }
            }
            assert forall|i: int| 0 <= i < self@.len() implies is_pattern(
                #[trigger] self@[i].pattern,
            ) by {
                if i < old(self)@.len() {
                    assert(self@[i] == old(self)@[i]);
                }
            }
        }
        Ok(())
    }

    /// Adds the routes of `sub`, each under `prefix`: a route of `sub` for the
    /// pattern `p` becomes a route for `prefix` followed by `p`.
    ///
    /// The prefix is a pattern of its own and has to be valid. None of the
    /// new routes may conflict with a route that is there already. On an
    /// error the router stays as it was. `sub` is only read, and can be
    /// mounted again under another prefix.
    pub fn mount(&mut self, prefix: &str, sub: &Router<H>) -> (res: Result<(), RouteError>)
        requires
            old(self).wf(),
            sub.wf(),
        ensures
            final(self).wf(),
            match res {
                Ok(()) => {
                    &&& mount_outcome(old(self)@, prefix.spec_bytes(), sub@) is None
                    &&& final(self)@ == old(self)@ + mounted(sub@, segments(prefix.spec_bytes()))
                },
                Err(e) => {
                    &&& mount_outcome(old(self)@, prefix.spec_bytes(), sub@) == Some(e)
                    &&& final(self)@ == old(self)@
                },
            },
    {
        let pre = match parse_pattern(prefix.as_bytes()) {
            None => {
                return Err(RouteError::InvalidPath);
            },
            Some(pre) => pre,
        };
        let ghost before = self@;
        let ghost under = mounted(sub@, segs_view(pre@));
        let mut pending: Vec<Route<H>> = Vec::new();
        let mut i: usize = 0;
        while i < sub.routes.len()
            invariant
                0 <= i <= sub.routes.len(),
                self@ == before,
                before == old(self)@,
                routes_wf(before),
                valid_pattern(prefix.spec_bytes()),
                segs_view(pre@) == segments(prefix.spec_bytes()),
                under == mounted(sub@, segs_view(pre@)),
                pending@.len() == i,
                forall|k: int| 0 <= k < i ==> (#[trigger] pending@[k])@ == under[k],
                forall|k: int, j: int|
                    0 <= k < i && 0 <= j < before.len() ==> !conflict(
                        #[trigger] before[j],
                        #[trigger] under[k],
                    ),
            decreases sub.routes.len() - i,
        {
            let route = &sub.routes[i];
            let whole = concat_patterns(&pre, &route.segments);
            assert(sub@[i as int] == route@);
            assert(under[i as int].pattern == segs_view(whole@));
            if self.has_conflict(route.method, &whole) {
                proof {
                    let j = choose|j: int|
                        0 <= j < self@.len() && (#[trigger] self@[j]).method == route.method
                            && same_shape(self@[j].pattern, segs_view(whole@));
                    assert(conflict(before[j], under[i as int]));
                }
                return Err(RouteError::Duplicate);
            }
            pending.push(
                Route {
                    method: route.method,
                    segments: whole,
                    handler: route.handler,
                    schema: route.schema.duplicate(),
                },
            );
            i += 1;
        }
        self.routes.append(&mut pending);
        proof {
            assert(self@ =~= before + under);
            assert forall|a: int| 0 <= a < self@.len() implies is_pattern(
                #[trigger] self@[a].pattern,
            ) by {
                if a < before.len() {
                    assert(self@[a] == before[a]);
                } else {
                    let k = a - before.len();
                    assert(self@[a] == under[k]);
                    assert(is_pattern(sub@[k].pattern));
                    lemma_pattern_concat(segs_view(pre@), sub@[k].pattern);
                }
            }
            assert forall|a: int, b: int| 0 <= a < b < self@.len() implies !conflict(
                #[trigger] self@[a],
                #[trigger] self@[b],
            ) by {
                if b < before.len() {
                    assert(self@[a] == before[a] && self@[b] == before[b]);
                } else if a < before.len() {
                    assert(self@[a] == before[a] && self@[b] == under[b - before.len()]);
                } else {
                    let ka = a - before.len();
                    let kb = b - before.len();
                    assert(self@[a] == under[ka] && self@[b] == under[kb]);
                    assert(!conflict(sub@[ka], sub@[kb]));
                    lemma_same_shape_under_prefix(
                        segs_view(pre@),
                        sub@[ka].pattern,
                        sub@[kb].pattern,
                    );
                }
            }
        }
        Ok(())
    }

    /// Finds the route for a request.
    ///
    /// Of the routes for `method` whose pattern matches `path`, the most
    /// specific one is taken. Where there is none, the error tells a path
    /// that some route matches for another method from a path that no route
    /// matches.
    pub fn dispatch(&self, method: Method, path: &str) -> (res: Result<Matched<H>, DispatchError>)
        requires
            self.wf(),
        ensures
            match res {
                Ok(found) => {
                    &&& resolve(self@, method, segments(path.spec_bytes())) == Resolution::Found(
                        found.index as int,
                    )
                    &&& found.index < self@.len()
                    &&& found.handler == self@[found.index as int].handler
                    &&& segs_view(found.params@) == captures(
                        self@[found.index as int].pattern,
                        segments(path.spec_bytes()),
                    )
                },
                Err(DispatchError::MethodNotAllowed) => resolve(
                    self@,
                    method,
                    segments(path.spec_bytes()),
                ) == Resolution::MethodNotAllowed,
                Err(DispatchError::PathNotFound) => resolve(
                    self@,
                    method,
                    segments(path.spec_bytes()),
                ) == Resolution::PathNotFound,
            },
    {
        let segs = split_segments(path.as_bytes());
        let ghost want = segments(path.spec_bytes());
        let mut best: Option<usize> = None;
        let mut known = false;
        let mut i: usize = 0;
        while i < self.routes.len()
            invariant
                0 <= i <= self.routes.len(),
                self.wf(),
                segs_view(segs@) == want,
                known == (exists|j: int| 0 <= j < i && matches_path(#[trigger] self@[j].pattern, want)),
                match best {
                    None => forall|j: int|
                        0 <= j < i ==> !candidate(#[trigger] self@[j], method, want),
                    Some(b) => {
                        &&& b < i
                        &&& candidate(self@[b as int], method, want)
                        &&& forall|j: int|
                            0 <= j < i && j != b && candidate(#[trigger] self@[j], method, want)
                                ==> more_specific(self@[b as int].pattern, self@[j].pattern)
                    },
                },
            decreases self.routes.len() - i,
        {
            let route = &self.routes[i];
            assert(route@ == self@[i as int]);
            let hit = pattern_matches(&route.segments, &segs);
            assert(hit == matches_path(self@[i as int].pattern, want));
            if hit {
                known = true;
                if route.method == method {
                    match best {
                        None => {
                            best = Some(i);
                        },
                        Some(b) => {
                            let held = &self.routes[b];
                            assert(held@ == self@[b as int]);
                            proof {
                                assert(!conflict(self@[b as int], self@[i as int]));
                                lemma_specific_total(route@.pattern, held@.pattern, want);
                            }
                            if pattern_more_specific(&route.segments, &held.segments) {
                                proof {
                                    assert forall|j: int|
                                        0 <= j < i + 1 && j != i && candidate(
                                            #[trigger] self@[j],
                                            method,
                                            want,
                                        ) implies more_specific(
                                        self@[i as int].pattern,
                                        self@[j].pattern,
                                    ) by {
                                        if j != b {
                                            lemma_specific_transitive(
                                                self@[i as int].pattern,
                                                self@[b as int].pattern,
                                                self@[j].pattern,
                                            );
                                        }
                                    }
                                }
                                best = Some(i);
                            }
                        },
                    }
                }
            }
            i += 1;
        }
        match best {
            Some(b) => {
                let route = &self.routes[b];
                assert(route@ == self@[b as int]);
                let params = capture_params(&route.segments, &segs);
                proof {
                    assert(is_best(self@, method, want, b as int));
                    lemma_resolve_found(self@, method, want, b as int);
                }
                Ok(Matched { index: b, handler: route.handler, params })
            },
            None => {
                assert(forall|j: int| !is_best(self@, method, want, j));
                if known {
                    Err(DispatchError::MethodNotAllowed)
                } else {
                    Err(DispatchError::PathNotFound)
                }
            },
        }
    }
}

} // verus!
