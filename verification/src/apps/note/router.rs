//! The routes of the note resource, as they stand before they are mounted.

use crate::apps::operations::{handler_schema, schema_of, Handler};
use crate::json::text;
use crate::path::{lemma_segments_of_root, segments, SLASH};
use crate::routing::{Method, RouteView, Router};
use vstd::prelude::*;

verus! {

/// The routes of the note resource: to list the notes and to create one, both
/// at the root of wherever the resource is mounted.
pub open spec fn note_routes() -> Seq<RouteView<Handler>> {
    seq![
        RouteView {
            method: Method::Get,
            pattern: Seq::empty(),
            handler: Handler::ListNotes,
            schema: handler_schema(Handler::ListNotes),
        },
        RouteView {
            method: Method::Post,
            pattern: Seq::empty(),
            handler: Handler::CreateNote,
            schema: handler_schema(Handler::CreateNote),
        },
    ]
}

/// The path `/` is the byte `/`, and names no segment.
pub proof fn lemma_root_path()
    ensures
        text("/") == seq![SLASH],
        segments(text("/")) == Seq::<Seq<u8>>::empty(),
{
    reveal_strlit("/");
    assert(vstd::string::is_ascii("/"));
    assert(text("/") =~= seq![SLASH]);
    lemma_segments_of_root();
}

/// The router of the note resource.
pub fn router() -> (router: Router<Handler>)
    ensures
        router.wf(),
        router@ == note_routes(),
{
    let mut router: Router<Handler> = Router::new();
    proof {
        lemma_root_path();
    }
    let listed = router.register(Method::Get, "/", Handler::ListNotes, schema_of(Handler::ListNotes));
    assert(listed is Ok);
    let created = router.register(
        Method::Post,
        "/",
        Handler::CreateNote,
        schema_of(Handler::CreateNote),
    );
    assert(created is Ok);
    assert(router@ =~= note_routes());
    router
}

} // verus!
