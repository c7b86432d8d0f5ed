//! What holds of the description of every router's routes.

use crate::document::{document_json, document_of};
use crate::path::{lemma_render_then_split, render_path, segments};
use crate::routing::{conflict, routes_wf, same_shape, RouteView};
use vstd::prelude::*;

verus! {

/// The document has as many entries as the router has routes, and entry `i`
/// is that of route `i`: it has the route's method and schema, and its path
/// names the route's pattern.
pub proof fn lemma_entry_describes_route<H>(routes: Seq<RouteView<H>>, i: int)
    requires
        routes_wf(routes),
        0 <= i < routes.len(),
    ensures
        document_of(routes).len() == routes.len(),
        document_of(routes)[i].method == routes[i].method,
        document_of(routes)[i].schema == routes[i].schema,
        document_of(routes)[i].path == render_path(routes[i].pattern),
        segments(document_of(routes)[i].path) == routes[i].pattern,
{
    lemma_render_then_split(routes[i].pattern);
}

/// No two entries of the document have the same method and the same path:
/// with the lemma before, the document holds exactly one entry for each
/// registered pair of a method and a path, and none for any other.
pub proof fn lemma_no_entry_twice<H>(routes: Seq<RouteView<H>>, i: int, j: int)
    requires
        routes_wf(routes),
        0 <= i < routes.len(),
        0 <= j < routes.len(),
        i != j,
    ensures
        !(document_of(routes)[i].method == document_of(routes)[j].method && document_of(
            routes,
        )[i].path == document_of(routes)[j].path),
{
    if document_of(routes)[i].method == document_of(routes)[j].method && document_of(
        routes,
    )[i].path == document_of(routes)[j].path {
        lemma_entry_describes_route(routes, i);
        lemma_entry_describes_route(routes, j);
        assert(routes[i].pattern == routes[j].pattern);
        assert(same_shape(routes[i].pattern, routes[j].pattern));
        if i < j {
            assert(conflict(routes[i], routes[j]));
        } else {
            assert(conflict(routes[j], routes[i]));
        }
    }
}

/// The entry for a method and a path is there exactly when a route for that
/// method with the pattern of that path is registered, and then it stands at
/// the route's own place.
pub proof fn lemma_one_entry_per_route<H>(routes: Seq<RouteView<H>>, i: int, k: int)
    requires
        routes_wf(routes),
        0 <= i < routes.len(),
        0 <= k < routes.len(),
    ensures
        (document_of(routes)[k].method == routes[i].method && segments(document_of(routes)[k].path)
            == routes[i].pattern) <==> k == i,
{
    lemma_entry_describes_route(routes, i);
    lemma_entry_describes_route(routes, k);
    if k != i && document_of(routes)[k].method == routes[i].method && segments(
        document_of(routes)[k].path,
    ) == routes[i].pattern {
        lemma_no_entry_twice(routes, i, k);
    }
}

/// The bytes of the document depend on nothing but the routes: routers with
/// the same methods, patterns and schemas, in the same order, give the same
/// bytes, whatever handlers they bind.
pub proof fn lemma_document_of_routes_alone<G, H>(first: Seq<RouteView<G>>, second: Seq<RouteView<H>>)
    requires
        first.len() == second.len(),
        forall|i: int|
            0 <= i < first.len() ==> {
                &&& (#[trigger] first[i]).method == second[i].method
                &&& first[i].pattern == second[i].pattern
                &&& first[i].schema == second[i].schema
            },
    ensures
        document_of(first) == document_of(second),
        document_json(document_of(first)) == document_json(document_of(second)),
{
    assert(document_of(first) =~= document_of(second)) by {
        assert forall|i: int| 0 <= i < first.len() implies document_of(first)[i] == document_of(
            second,
        )[i] by {
            assert(first[i].method == second[i].method);
        }
    }
}

} // verus!
