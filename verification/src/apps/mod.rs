//! The resources that the service offers, and the router that binds them.

pub mod note;
pub mod operations;
pub mod service;
pub mod service_laws;
pub mod shared_service;

use crate::apps::note::router::{lemma_root_path, router};
use crate::apps::operations::{handler_schema, schema_of, Handler};
use crate::json::text;
use crate::path::{is_segment, lemma_segments_of_one, segments, SLASH};
use crate::routing::{mounted, Method, RouteView, Router};
use crate::routing_laws::{
    lemma_fresh_head_mounts, lemma_fresh_head_registers, lemma_root_registers,
};
use vstd::prelude::*;

verus! {

/// A user of the service.
#[derive(Clone, Copy, Debug, PartialEq, Eq, Structural)]
pub struct User {
    pub id: i32,
}

/// The one user that the service knows: the user with the identifier 1.
pub fn get_user() -> (user: User)
    ensures
        user == (User { id: 1 }),
{
    User { id: 1 }
}

/// A route of the service.
pub open spec fn service_route(
    method: Method,
    pattern: Seq<Seq<u8>>,
    handler: Handler,
) -> RouteView<Handler> {
    RouteView { method, pattern, handler, schema: handler_schema(handler) }
}

/// The routes of the service, in the order of their registration: the
/// greeting at `/`, the user at `/user`, the note resource under `/note`, the
/// description of the routes at `/openapi.json` and its viewer at `/scalar`.
pub open spec fn service_routes() -> Seq<RouteView<Handler>> {
    seq![
        service_route(Method::Get, Seq::empty(), Handler::Greeting),
        service_route(Method::Get, seq![text("user")], Handler::StaticUser),
        service_route(Method::Get, seq![text("note")], Handler::ListNotes),
        service_route(Method::Post, seq![text("note")], Handler::CreateNote),
        service_route(Method::Get, seq![text("openapi.json")], Handler::ApiDocument),
        service_route(Method::Get, seq![text("scalar")], Handler::Viewer),
    ]
}

/// The paths of the service, each a slash and one segment that is a literal.
pub proof fn lemma_service_paths()
    ensures
        text("/user").len() > 0,
        text("/user")[0] == SLASH,
        segments(text("/user")) == seq![text("user")],
        is_segment(text("user")),
        text("user")[0] == 117,
        text("/note").len() > 0,
        text("/note")[0] == SLASH,
        segments(text("/note")) == seq![text("note")],
        is_segment(text("note")),
        text("note")[0] == 110,
        text("/openapi.json").len() > 0,
        text("/openapi.json")[0] == SLASH,
        segments(text("/openapi.json")) == seq![text("openapi.json")],
        is_segment(text("openapi.json")),
        text("openapi.json")[0] == 111,
        text("/scalar").len() > 0,
        text("/scalar")[0] == SLASH,
        segments(text("/scalar")) == seq![text("scalar")],
        is_segment(text("scalar")),
        text("scalar")[0] == 115,
{
    reveal_strlit("/user");
    reveal_strlit("user");
    assert(vstd::string::is_ascii("/user"));
    assert(vstd::string::is_ascii("user"));
    assert(text("/user") =~= seq![SLASH] + text("user"));
    lemma_segments_of_one(text("user"));
    reveal_strlit("/note");
    reveal_strlit("note");
    assert(vstd::string::is_ascii("/note"));
    assert(vstd::string::is_ascii("note"));
    assert(text("/note") =~= seq![SLASH] + text("note"));
    lemma_segments_of_one(text("note"));
    reveal_strlit("/openapi.json");
    reveal_strlit("openapi.json");
    assert(vstd::string::is_ascii("/openapi.json"));
    assert(vstd::string::is_ascii("openapi.json"));
    assert(text("/openapi.json") =~= seq![SLASH] + text("openapi.json"));
    lemma_segments_of_one(text("openapi.json"));
    reveal_strlit("/scalar");
    reveal_strlit("scalar");
    assert(vstd::string::is_ascii("/scalar"));
    assert(vstd::string::is_ascii("scalar"));
    assert(text("/scalar") =~= seq![SLASH] + text("scalar"));
    lemma_segments_of_one(text("scalar"));
}

/// The router of the service.
pub fn create_router() -> (top: Router<Handler>)
    ensures
        top.wf(),
        top@ == service_routes(),
{
    let mut top: Router<Handler> = Router::new();
    proof {
        lemma_root_path();
        lemma_service_paths();
        lemma_root_registers(top@, Method::Get, text("/"));
    }
    let greeting = top.register(Method::Get, "/", Handler::Greeting, schema_of(Handler::Greeting));
    assert(greeting is Ok);
    assert(top@ =~= service_routes().take(1));
    proof {
        lemma_fresh_head_registers(top@, Method::Get, text("/user"), text("user"));
    }
    let user = top.register(
        Method::Get,
        "/user",
        Handler::StaticUser,
        schema_of(Handler::StaticUser),
    );
    assert(user is Ok);
    assert(top@ =~= service_routes().take(2));
    let notes = router();
    proof {
        lemma_fresh_head_mounts(top@, text("/note"), text("note"), notes@);
    }
    let mounting = top.mount("/note", &notes);
    assert(mounting is Ok);
    assert(top@ =~= service_routes().take(4)) by {
        let under = mounted(notes@, seq![text("note")]);
        assert(under[0].pattern =~= seq![text("note")]);
        assert(under[1].pattern =~= seq![text("note")]);
    }
    proof {
        lemma_fresh_head_registers(top@, Method::Get, text("/openapi.json"), text("openapi.json"));
    }
    let document = top.register(
        Method::Get,
        "/openapi.json",
        Handler::ApiDocument,
        schema_of(Handler::ApiDocument),
    );
    assert(document is Ok);
    assert(top@ =~= service_routes().take(5));
    proof {
        lemma_fresh_head_registers(top@, Method::Get, text("/scalar"), text("scalar"));
    }
    let viewer = top.register(Method::Get, "/scalar", Handler::Viewer, schema_of(Handler::Viewer));
    assert(viewer is Ok);
    assert(top@ =~= service_routes());
    top
}

} // verus!
