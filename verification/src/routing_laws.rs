//! What holds of every router: when a request finds a route, which one, and
//! how mounting carries the routes of one router into another.

use crate::path::{
    is_segment, lemma_segments_concat, lemma_segments_of_root, segments, COLON, SLASH,
};
use crate::routing::{
    candidate, conflict, is_best, is_param, is_pattern, leads_at, lemma_resolve_found,
    lemma_same_shape_symmetric, lemma_specific_total, lemma_specific_transitive, matches_path,
    more_specific, mount_outcome, mounted, path_known, register_outcome, resolve, routes_wf,
    same_shape, valid_pattern, Method, Resolution, RouteView,
};
use vstd::prelude::*;

verus! {

/// Route `b` is a candidate among the first `n` routes, and more specific
/// than every other candidate among them.
pub open spec fn best_among<H>(
    routes: Seq<RouteView<H>>,
    method: Method,
    path: Seq<Seq<u8>>,
    n: int,
    b: int,
) -> bool {
    &&& 0 <= b < n
    &&& candidate(routes[b], method, path)
    &&& forall|j: int|
        0 <= j < n && j != b && candidate(#[trigger] routes[j], method, path) ==> more_specific(
            routes[b].pattern,
            routes[j].pattern,
        )
}

/// Among the first `n` routes there is no candidate, or one of them is the
/// best.
proof fn lemma_best_among<H>(routes: Seq<RouteView<H>>, method: Method, path: Seq<Seq<u8>>, n: int)
    requires
        routes_wf(routes),
        0 <= n <= routes.len(),
    ensures
        (forall|j: int| 0 <= j < n ==> !candidate(#[trigger] routes[j], method, path)) || (exists|
            b: int,
        |
            best_among(routes, method, path, n, b)),
    decreases n,
{
    if n > 0 {
        let last = n - 1;
        lemma_best_among(routes, method, path, last);
        if candidate(routes[last], method, path) {
            if exists|b: int| best_among(routes, method, path, last, b) {
                let b = choose|b: int| best_among(routes, method, path, last, b);
                assert(!conflict(routes[b], routes[last]));
                lemma_specific_total(routes[last].pattern, routes[b].pattern, path);
                if more_specific(routes[last].pattern, routes[b].pattern) {
                    assert forall|j: int|
                        0 <= j < n && j != last && candidate(
                            #[trigger] routes[j],
                            method,
                            path,
                        ) implies more_specific(routes[last].pattern, routes[j].pattern) by {
                        if j != b {
                            lemma_specific_transitive(
                                routes[last].pattern,
                                routes[b].pattern,
                                routes[j].pattern,
                            );
                        }
                    }
                    assert(best_among(routes, method, path, n, last));
                } else {
                    assert(best_among(routes, method, path, n, b));
                }
            } else {
                assert(best_among(routes, method, path, n, last));
            }
        } else if exists|b: int| best_among(routes, method, path, last, b) {
            let b = choose|b: int| best_among(routes, method, path, last, b);
            assert(best_among(routes, method, path, n, b));
        }
    }
}

/// A request finds a route exactly when some route for its method matches
/// its path. Otherwise the method is not allowed exactly when some route
/// matches the path, and the path is not found exactly when none does.
pub proof fn lemma_resolve_cases<H>(routes: Seq<RouteView<H>>, method: Method, path: Seq<Seq<u8>>)
    requires
        routes_wf(routes),
    ensures
        resolve(routes, method, path) is Found <==> (exists|j: int|
            0 <= j < routes.len() && candidate(#[trigger] routes[j], method, path)),
        resolve(routes, method, path) is MethodNotAllowed <==> path_known(routes, path) && !(
        exists|j: int| 0 <= j < routes.len() && candidate(#[trigger] routes[j], method, path)),
        resolve(routes, method, path) is PathNotFound <==> !path_known(routes, path),
{
    lemma_best_among(routes, method, path, routes.len() as int);
    if exists|j: int| 0 <= j < routes.len() && candidate(#[trigger] routes[j], method, path) {
        let j = choose|j: int| 0 <= j < routes.len() && candidate(#[trigger] routes[j], method, path);
        let b = choose|b: int| best_among(routes, method, path, routes.len() as int, b);
        assert(is_best(routes, method, path, b));
        assert(matches_path(routes[j].pattern, path));
    } else {
        assert forall|i: int| !is_best(routes, method, path, i) by {
            if is_best(routes, method, path, i) {
                assert(candidate(routes[i], method, path));
            }
        }
    }
}

/// A route whose pattern has no parameter is the one that a request for
/// exactly that path and method resolves to, whatever routes with parameters
/// the router holds beside it: with `GET /a` and `GET /a/:id` registered,
/// `GET /a` goes to the first, and so it does were `GET /:x` registered too.
pub proof fn lemma_literal_route_wins<H>(routes: Seq<RouteView<H>>, i: int)
    requires
        routes_wf(routes),
        0 <= i < routes.len(),
        forall|k: int| 0 <= k < routes[i].pattern.len() ==> !is_param(#[trigger] routes[i].pattern[k]),
    ensures
        resolve(routes, routes[i].method, routes[i].pattern) == Resolution::Found(i),
{
    let method = routes[i].method;
    let path = routes[i].pattern;
    assert(matches_path(path, path));
    assert forall|j: int|
        0 <= j < routes.len() && j != i && candidate(
            #[trigger] routes[j],
            method,
            path,
        ) implies more_specific(routes[i].pattern, routes[j].pattern) by {
        if j < i {
            assert(!conflict(routes[j], routes[i]));
            lemma_same_shape_symmetric(routes[j].pattern, routes[i].pattern);
        } else {
            assert(!conflict(routes[i], routes[j]));
        }
        lemma_specific_total(routes[i].pattern, routes[j].pattern, path);
        if more_specific(routes[j].pattern, routes[i].pattern) {
            let k = choose|k: int| leads_at(routes[j].pattern, routes[i].pattern, k);
            assert(!is_param(routes[i].pattern[k]));
        }
    }
    assert(is_best(routes, method, path, i));
    lemma_resolve_found(routes, method, path, i);
}

/// Where some route matches the path but none of those is for the requested
/// method, the request ends as "method not allowed", not as "path not
/// found": `GET /a` with only `POST /a` registered.
pub proof fn lemma_other_methods_only<H>(
    routes: Seq<RouteView<H>>,
    method: Method,
    path: Seq<Seq<u8>>,
)
    requires
        path_known(routes, path),
        forall|j: int| 0 <= j < routes.len() ==> !candidate(#[trigger] routes[j], method, path),
    ensures
        resolve(routes, method, path) == Resolution::MethodNotAllowed,
{
    assert forall|i: int| !is_best(routes, method, path, i) by {
        if is_best(routes, method, path, i) {
            assert(candidate(routes[i], method, path));
        }
    }
}

/// Where no route matches the path, the request ends as "path not found",
/// whatever its method.
pub proof fn lemma_unknown_path<H>(routes: Seq<RouteView<H>>, method: Method, path: Seq<Seq<u8>>)
    requires
        !path_known(routes, path),
    ensures
        resolve(routes, method, path) == Resolution::PathNotFound,
{
    assert forall|i: int| !is_best(routes, method, path, i) by {
        if is_best(routes, method, path, i) {
            assert(matches_path(routes[i].pattern, path));
        }
    }
}

/// A pattern written behind a prefix is the prefix's segments followed by the
/// pattern's: the path of a mounted route is the prefix and the route's own
/// path, one after the other.
pub proof fn lemma_mounted_pattern(prefix: Seq<u8>, pattern: Seq<u8>)
    requires
        valid_pattern(pattern),
    ensures
        segments(prefix + pattern) == segments(prefix) + segments(pattern),
{
    lemma_segments_concat(prefix, pattern);
}

/// A mounted pattern matches a path exactly when the prefix matches the
/// path's head and the pattern matches the rest.
pub proof fn lemma_mounted_matches(
    prefix: Seq<Seq<u8>>,
    pattern: Seq<Seq<u8>>,
    head: Seq<Seq<u8>>,
    rest: Seq<Seq<u8>>,
)
    requires
        prefix.len() == head.len(),
    ensures
        matches_path(prefix + pattern, head + rest) == (matches_path(prefix, head) && matches_path(pattern, rest)),
{
    let whole = prefix + pattern;
    let path = head + rest;
    if matches_path(whole, path) {
        assert forall|i: int| 0 <= i < prefix.len() implies is_param(#[trigger] prefix[i])
            || prefix[i] == head[i] by {
            assert(whole[i] == prefix[i] && path[i] == head[i]);
            assert(is_param(whole[i]) || whole[i] == path[i]);
        }
        assert forall|i: int| 0 <= i < pattern.len() implies is_param(#[trigger] pattern[i])
            || pattern[i] == rest[i] by {
            let k = prefix.len() + i;
            assert(whole[k] == pattern[i] && path[k] == rest[i]);
            assert(is_param(whole[k]) || whole[k] == path[k]);
        }
    }
    if matches_path(prefix, head) && matches_path(pattern, rest) {
        assert forall|i: int| 0 <= i < whole.len() implies is_param(#[trigger] whole[i])
            || whole[i] == path[i] by {
            if i < prefix.len() {
                assert(whole[i] == prefix[i] && path[i] == head[i]);
                assert(is_param(prefix[i]) || prefix[i] == head[i]);
            } else {
                let k = i - prefix.len();
                assert(whole[i] == pattern[k] && path[i] == rest[k]);
                assert(is_param(pattern[k]) || pattern[k] == rest[k]);
            }
        }
    }
}

/// Under a common prefix one pattern is more specific than another exactly
/// when it is so without the prefix.
pub proof fn lemma_specific_under_prefix(prefix: Seq<Seq<u8>>, p: Seq<Seq<u8>>, q: Seq<Seq<u8>>)
    ensures
        more_specific(prefix + p, prefix + q) == more_specific(p, q),
{
    let pp = prefix + p;
    let pq = prefix + q;
    let n = prefix.len() as int;
    if more_specific(pp, pq) {
        let k = choose|k: int| leads_at(pp, pq, k);
        if k < n {
            assert(pp[k] == prefix[k] && pq[k] == prefix[k]);
        } else {
            assert(pp[k] == p[k - n] && pq[k] == q[k - n]);
            assert forall|i: int| 0 <= i < k - n implies is_param(#[trigger] p[i]) == is_param(
                q[i],
            ) by {
                assert(pp[i + n] == p[i] && pq[i + n] == q[i]);
                assert(is_param(pp[i + n]) == is_param(pq[i + n]));
            }
            assert(leads_at(p, q, k - n));
        }
    }
    if more_specific(p, q) {
        let k = choose|k: int| leads_at(p, q, k);
        assert(pp[k + n] == p[k] && pq[k + n] == q[k]);
        assert forall|i: int| 0 <= i < k + n implies is_param(#[trigger] pp[i]) == is_param(
            pq[i],
        ) by {
            if i < n {
                assert(pp[i] == prefix[i] && pq[i] == prefix[i]);
            } else {
                assert(pp[i] == p[i - n] && pq[i] == q[i - n]);
                assert(is_param(p[i - n]) == is_param(q[i - n]));
            }
        }
        assert(leads_at(pp, pq, k + n));
    }
}

/// Behind its prefix a mounted router resolves requests as it did on its
/// own: where the prefix matches the head of a path, the request goes to the
/// route that the rest of the path finds in the router that was mounted.
pub proof fn lemma_mounted_resolves_alike<H>(
    sub: Seq<RouteView<H>>,
    prefix: Seq<Seq<u8>>,
    method: Method,
    head: Seq<Seq<u8>>,
    rest: Seq<Seq<u8>>,
)
    requires
        matches_path(prefix, head),
    ensures
        resolve(mounted(sub, prefix), method, head + rest) == resolve(sub, method, rest),
{
    let outer = mounted(sub, prefix);
    let path = head + rest;
    assert forall|j: int| 0 <= j < sub.len() implies candidate(#[trigger] outer[j], method, path)
        == candidate(sub[j], method, rest) by {
        lemma_mounted_matches(prefix, sub[j].pattern, head, rest);
    }
    assert forall|i: int| is_best(outer, method, path, i) == is_best(sub, method, rest, i) by {
        if 0 <= i < sub.len() {
            assert(candidate(outer[i], method, path) == candidate(sub[i], method, rest));
            assert forall|j: int| 0 <= j < sub.len() implies more_specific(
                outer[i].pattern,
                #[trigger] outer[j].pattern,
            ) == more_specific(sub[i].pattern, sub[j].pattern) by {
                lemma_specific_under_prefix(prefix, sub[i].pattern, sub[j].pattern);
            }
            if is_best(sub, method, rest, i) {
                assert forall|j: int|
                    0 <= j < outer.len() && j != i && candidate(
                        #[trigger] outer[j],
                        method,
                        path,
                    ) implies more_specific(outer[i].pattern, outer[j].pattern) by {
                    assert(candidate(sub[j], method, rest));
                    assert(more_specific(outer[i].pattern, outer[j].pattern) == more_specific(
                        sub[i].pattern,
                        sub[j].pattern,
                    ));
                }
            }
            if is_best(outer, method, path, i) {
                assert forall|j: int|
                    0 <= j < sub.len() && j != i && candidate(
                        #[trigger] sub[j],
                        method,
                        rest,
                    ) implies more_specific(sub[i].pattern, sub[j].pattern) by {
                    assert(candidate(outer[j], method, path));
                    assert(more_specific(outer[i].pattern, outer[j].pattern) == more_specific(
                        sub[i].pattern,
                        sub[j].pattern,
                    ));
                }
            }
        }
    }
    if exists|i: int| is_best(sub, method, rest, i) {
        let i = choose|i: int| is_best(sub, method, rest, i);
        assert(is_best(outer, method, path, i));
        lemma_resolve_found(sub, method, rest, i);
        lemma_resolve_found(outer, method, path, i);
    } else {
        assert forall|i: int| !is_best(outer, method, path, i) by {}
        if path_known(sub, rest) {
            let j = choose|j: int| 0 <= j < sub.len() && matches_path(#[trigger] sub[j].pattern, rest);
            lemma_mounted_matches(prefix, sub[j].pattern, head, rest);
            assert(matches_path(outer[j].pattern, path));
        }
        if path_known(outer, path) {
            let j = choose|j: int|
                0 <= j < outer.len() && matches_path(#[trigger] outer[j].pattern, path);
            lemma_mounted_matches(prefix, sub[j].pattern, head, rest);
            assert(matches_path(sub[j].pattern, rest));
        }
    }
}

/// Mounting is transitive: to mount a router under an inner prefix and the
/// result under an outer one is to mount it under the two prefixes joined.
pub proof fn lemma_mount_transitive<H>(
    sub: Seq<RouteView<H>>,
    inner: Seq<Seq<u8>>,
    outer: Seq<Seq<u8>>,
)
    ensures
        mounted(mounted(sub, inner), outer) == mounted(sub, outer + inner),
{
    assert forall|i: int| 0 <= i < sub.len() implies (outer + inner) + sub[i].pattern == outer + (
    inner + #[trigger] sub[i].pattern) by {
        assert((outer + inner) + sub[i].pattern =~= outer + (inner + sub[i].pattern));
    }
    assert(mounted(mounted(sub, inner), outer) =~= mounted(sub, outer + inner));
}

/// Routers mounted under prefixes that differ in a literal do not touch each
/// other: no path matches a route under the one and a route under the other.
pub proof fn lemma_mounts_apart(
    first: Seq<Seq<u8>>,
    second: Seq<Seq<u8>>,
    k: int,
    p: Seq<Seq<u8>>,
    q: Seq<Seq<u8>>,
    path: Seq<Seq<u8>>,
)
    requires
        0 <= k < first.len(),
        k < second.len(),
        !is_param(first[k]),
        !is_param(second[k]),
        first[k] != second[k],
    ensures
        !(matches_path(first + p, path) && matches_path(second + q, path)),
{
    if matches_path(first + p, path) && matches_path(second + q, path) {
        assert((first + p)[k] == first[k]);
        assert((second + q)[k] == second[k]);
        assert(is_param((first + p)[k]) || (first + p)[k] == path[k]);
        assert(is_param((second + q)[k]) || (second + q)[k] == path[k]);
    }
}

/// Mounting leaves the routes that were there as they were, and adds those
/// of the mounted router behind them, in their order.
pub proof fn lemma_mount_keeps_routes<H>(
    routes: Seq<RouteView<H>>,
    sub: Seq<RouteView<H>>,
    prefix: Seq<Seq<u8>>,
    i: int,
)
    requires
        0 <= i < routes.len() + sub.len(),
    ensures
        i < routes.len() ==> (routes + mounted(sub, prefix))[i] == routes[i],
        i >= routes.len() ==> (routes + mounted(sub, prefix))[i] == (RouteView {
            method: sub[i - routes.len()].method,
            pattern: prefix + sub[i - routes.len()].pattern,
            handler: sub[i - routes.len()].handler,
            schema: sub[i - routes.len()].schema,
        }),
{
}

/// The root path can be registered for a method as long as no route for that
/// method has an empty pattern.
pub proof fn lemma_root_registers<H>(routes: Seq<RouteView<H>>, method: Method, bytes: Seq<u8>)
    requires
        bytes == seq![SLASH],
        forall|j: int|
            0 <= j < routes.len() && (#[trigger] routes[j]).method == method
                ==> routes[j].pattern.len() > 0,
    ensures
        register_outcome(routes, method, bytes) is None,
{
    lemma_segments_of_root();
    assert(is_pattern(segments(bytes)));
}

/// A path of one literal segment can be registered for a method as long as
/// no route for that method begins with that segment.
pub proof fn lemma_fresh_head_registers<H>(
    routes: Seq<RouteView<H>>,
    method: Method,
    bytes: Seq<u8>,
    name: Seq<u8>,
)
    requires
        bytes.len() > 0,
        bytes[0] == SLASH,
        segments(bytes) == seq![name],
        is_segment(name),
        !is_param(name),
        forall|j: int|
            0 <= j < routes.len() && (#[trigger] routes[j]).method == method
                ==> routes[j].pattern.len() == 0 || routes[j].pattern[0] != name,
    ensures
        register_outcome(routes, method, bytes) is None,
{
    let pattern = seq![name];
    assert(is_pattern(pattern)) by {
        assert forall|i: int| 0 <= i < pattern.len() implies is_segment(#[trigger] pattern[i])
            && pattern[i] != seq![COLON] by {
            assert(pattern[i] == name);
            assert(seq![COLON][0] == COLON);
        }
    }
    assert forall|j: int| 0 <= j < routes.len() && (#[trigger] routes[j]).method == method implies
        !same_shape(routes[j].pattern, pattern) by {
        if same_shape(routes[j].pattern, pattern) {
            assert(pattern[0] == name);
            assert((is_param(routes[j].pattern[0]) && is_param(pattern[0])) || routes[j].pattern[0]
                == pattern[0]);
        }
    }
}

/// A router can be mounted under a prefix of one literal segment as long as
/// no route begins with that segment.
pub proof fn lemma_fresh_head_mounts<H>(
    routes: Seq<RouteView<H>>,
    bytes: Seq<u8>,
    name: Seq<u8>,
    sub: Seq<RouteView<H>>,
)
    requires
        bytes.len() > 0,
        bytes[0] == SLASH,
        segments(bytes) == seq![name],
        is_segment(name),
        !is_param(name),
        forall|j: int|
            0 <= j < routes.len() ==> (#[trigger] routes[j]).pattern.len() == 0
                || routes[j].pattern[0] != name,
    ensures
        mount_outcome(routes, bytes, sub) is None,
{
    let prefix = seq![name];
    assert(is_pattern(prefix)) by {
        assert forall|i: int| 0 <= i < prefix.len() implies is_segment(#[trigger] prefix[i])
            && prefix[i] != seq![COLON] by {
            assert(prefix[i] == name);
            assert(seq![COLON][0] == COLON);
        }
    }
    let under = mounted(sub, prefix);
    assert forall|i: int, j: int| 0 <= i < sub.len() && 0 <= j < routes.len() implies !conflict(
        #[trigger] routes[j],
        #[trigger] under[i],
    ) by {
        let p = routes[j].pattern;
        let q = under[i].pattern;
        assert(q == prefix + sub[i].pattern);
        assert(q[0] == name);
        if same_shape(p, q) {
            assert((is_param(p[0]) && is_param(q[0])) || p[0] == q[0]);
        }
    }
}

} // verus!
