//! What holds of the service with its own routes, whatever its store holds.

use crate::apps::note::handlers::{create_outcome, draft_of};
use crate::apps::note::model::{form_outcome, NoteForm};
use crate::apps::note::store::{after_create, created_note, store_wf, StoreView};
use crate::apps::service::{answer, store_after, ResponseView, ServiceView};
use crate::apps::{lemma_service_paths, service_routes, User};
use crate::document::document_of;
use crate::json::text;
use crate::path::{is_segment, join_segments, render_path, SLASH};
use crate::routing::{
    candidate, conflict, is_param, is_pattern, matches_path, routes_wf, same_shape, Method,
};
use crate::routing_laws::{lemma_literal_route_wins, lemma_other_methods_only};
use vstd::prelude::*;

verus! {

/// The service with its own routes and this store.
pub open spec fn service_with(store: StoreView) -> ServiceView {
    ServiceView { routes: service_routes(), store }
}

/// The routes of the service are patterns of literals, and no two of them
/// conflict.
pub proof fn lemma_service_routes_wf()
    ensures
        routes_wf(service_routes()),
        forall|i: int, k: int|
            0 <= i < service_routes().len() && 0 <= k < service_routes()[i].pattern.len()
                ==> !is_param(#[trigger] service_routes()[i].pattern[k]),
{
    lemma_service_paths();
    let routes = service_routes();
    assert forall|i: int, k: int|
        0 <= i < routes.len() && 0 <= k < routes[i].pattern.len() implies !is_param(
        #[trigger] routes[i].pattern[k],
    ) && is_segment(routes[i].pattern[k]) by {
        if i == 1 {
            assert(routes[i].pattern[k] == text("user"));
        } else if i == 2 || i == 3 {
            assert(routes[i].pattern[k] == text("note"));
        } else if i == 4 {
            assert(routes[i].pattern[k] == text("openapi.json"));
        } else if i == 5 {
            assert(routes[i].pattern[k] == text("scalar"));
        }
    }
    assert forall|i: int| 0 <= i < routes.len() implies is_pattern(#[trigger] routes[i].pattern) by {
        let p = routes[i].pattern;
        assert forall|k: int| 0 <= k < p.len() implies is_segment(#[trigger] p[k]) && p[k] != seq![
            58u8,
        ] by {
            assert(!is_param(routes[i].pattern[k]));
            assert(seq![58u8][0] == 58u8);
        }
    }
    assert forall|i: int, j: int| 0 <= i < j < routes.len() implies !conflict(
        #[trigger] routes[i],
        #[trigger] routes[j],
    ) by {
        if same_shape(routes[i].pattern, routes[j].pattern) && routes[i].method
            == routes[j].method {
            assert(routes[i].pattern.len() == routes[j].pattern.len());
            assert(i >= 1);
            assert(!is_param(routes[i].pattern[0]));
            assert(routes[i].pattern[0] == routes[j].pattern[0]);
            assert(routes[i].pattern[0][0] != routes[j].pattern[0][0]);
        }
    }
}

/// Asking for the user gives the user with the identifier 1, whatever the
/// store holds and whatever the request brings, and leaves the store as it
/// is.
pub proof fn lemma_user_is_fixed(store: StoreView, form: Option<NoteForm>)
    ensures
        answer(service_with(store), Method::Get, seq![text("user")], form) == ResponseView::User(
            User { id: 1 },
        ),
        store_after(service_with(store), Method::Get, seq![text("user")], form) == store,
{
    lemma_service_routes_wf();
    assert(service_routes()[1].pattern == seq![text("user")]);
    lemma_literal_route_wins(service_routes(), 1);
}

/// A complete form posted to `/note` creates a note with the fields of the
/// form and an identifier of its own; the list that is then asked for at
/// `/note` holds what the store held, and that note behind it.
pub proof fn lemma_posted_note_is_listed(store: StoreView, form: NoteForm)
    requires
        store_wf(store),
        store.next_id < u64::MAX,
        form_outcome(form) is None,
    ensures
        answer(service_with(store), Method::Post, seq![text("note")], Some(form))
            == ResponseView::Created(created_note(store, draft_of(form))),
        store_after(service_with(store), Method::Post, seq![text("note")], Some(form))
            == after_create(store, draft_of(form)),
        answer(
            service_with(after_create(store, draft_of(form))),
            Method::Get,
            seq![text("note")],
            None,
        ) == ResponseView::Notes(store.notes.push(created_note(store, draft_of(form)))),
{
    lemma_service_routes_wf();
    assert(service_routes()[2].pattern == seq![text("note")]);
    assert(service_routes()[3].pattern == seq![text("note")]);
    lemma_literal_route_wins(service_routes(), 2);
    lemma_literal_route_wins(service_routes(), 3);
    assert(create_outcome(store, Some(form)) is None);
}

/// A method that `/note` does not take is refused as such, not as a path
/// that is not there.
pub proof fn lemma_note_takes_get_and_post_only(store: StoreView, method: Method)
    requires
        method != Method::Get,
        method != Method::Post,
    ensures
        answer(service_with(store), method, seq![text("note")], None)
            == ResponseView::MethodNotAllowed,
{
    let routes = service_routes();
    assert(routes[2].pattern == seq![text("note")]);
    assert(matches_path(routes[2].pattern, seq![text("note")]));
    assert forall|j: int| 0 <= j < routes.len() implies !candidate(
        #[trigger] routes[j],
        method,
        seq![text("note")],
    ) by {}
    lemma_other_methods_only(routes, method, seq![text("note")]);
}

/// The description of the service's routes names both routes of the note
/// resource, each under the path `/note`.
pub proof fn lemma_document_names_note_routes()
    ensures
        document_of(service_routes()).len() == 6,
        document_of(service_routes())[2].method == Method::Get,
        document_of(service_routes())[2].path == text("/note"),
        document_of(service_routes())[3].method == Method::Post,
        document_of(service_routes())[3].path == text("/note"),
{
    let pattern = seq![text("note")];
    assert(service_routes()[2].pattern == pattern);
    assert(service_routes()[3].pattern == pattern);
    assert(render_path(pattern) == text("/note")) by {
        reveal_with_fuel(join_segments, 2);
        assert(pattern.drop_last() =~= Seq::<Seq<u8>>::empty());
        assert(pattern.last() == text("note"));
        reveal_strlit("/note");
        reveal_strlit("note");
        assert(vstd::string::is_ascii("/note"));
        assert(vstd::string::is_ascii("note"));
        assert(join_segments(pattern) =~= seq![SLASH] + text("note"));
        assert(text("/note") =~= seq![SLASH] + text("note"));
    }
}

} // verus!
