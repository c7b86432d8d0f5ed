//! The service: a router, a store of notes, and the description of the
//! routes, made once. It takes a request that was read and gives the answer
//! that is to be written; it reads from no socket and writes to none.

use crate::apps::note::handlers::{
    create_note, create_outcome, draft_of, get_note, id_of, list_notes, CreateError, GetError,
};
use crate::apps::note::model::{Note, NoteForm, NoteView, ValidationError};
use crate::apps::note::store::{
    after_create, created_note, lookup, store_wf, NoteStore, StoreView,
};
use crate::apps::operations::Handler;
use crate::apps::{create_router, get_user, service_routes, User};
use crate::document::{document_json, document_of};
use crate::path::{segments, segs_view};
use crate::routing::{
    captures, resolve, routes_wf, DispatchError, Method, Resolution, RouteView, Router,
};
use vstd::prelude::*;
use vstd::string::StringSliceAdditionalSpecFns;

verus! {

/// The greeting of the service.
pub const GREETING: &'static str = "Hello from Apps!";

/// The path under which the description of the routes is served.
pub const DOCUMENT_PATH: &'static str = "/openapi.json";

/// The page that shows the description of the routes: it asks for the
/// description at its path and lists each route's method, path and schema.
pub const VIEWER_PAGE: &'static str =
    "<!doctype html>\n<html>\n<head>\n<meta charset=\"utf-8\">\n<title>API</title>\n</head>\n<body>\n<h1>API</h1>\n<table id=\"routes\">\n<tr><th>Method</th><th>Path</th><th>Schema</th></tr>\n</table>\n<script>\nfetch(\"/openapi.json\")\n  .then(function (reply) { return reply.json(); })\n  .then(function (doc) {\n    var table = document.getElementById(\"routes\");\n    doc.routes.forEach(function (route) {\n      var row = table.insertRow();\n      row.insertCell().textContent = route.method;\n      row.insertCell().textContent = route.path;\n      row.insertCell().textContent = JSON.stringify({\n        operation: route.operation,\n        request: route.request,\n        responses: route.responses\n      });\n    });\n  });\n</script>\n</body>\n</html>\n";

/// An answer, before it is written.
#[derive(Debug)]
pub enum Response {
    /// The greeting, as plain text.
    Greeting,
    /// A user.
    User(User),
    /// The notes, oldest first.
    Notes(Vec<Note>),
    /// The note that was created.
    Created(Note),
    /// The note that was asked for.
    Found(Note),
    /// The description of the routes, in JSON.
    Document(Vec<u8>),
    /// The page that shows the description of the routes.
    Viewer,
    /// The request did not bring what the operation needs.
    Invalid(ValidationError),
    /// The store holds no note with this identifier.
    NoteNotFound(u64),
    /// No route matches the path.
    PathNotFound,
    /// Routes match the path, but none for the method.
    MethodNotAllowed,
    /// The store can take no more notes.
    Exhausted,
}

/// An answer as contracts see it.
pub enum ResponseView {
    Greeting,
    User(User),
    Notes(Seq<NoteView>),
    Created(NoteView),
    Found(NoteView),
    Document(Seq<u8>),
    Viewer,
    Invalid(ValidationError),
    NoteNotFound(u64),
    PathNotFound,
    MethodNotAllowed,
    Exhausted,
}

impl View for Response {
    type V = ResponseView;

    open spec fn view(&self) -> ResponseView {
        match *self {
            Response::Greeting => ResponseView::Greeting,
            Response::User(user) => ResponseView::User(user),
            Response::Notes(notes) => ResponseView::Notes(
                Seq::new(notes@.len(), |i: int| notes@[i]@),
            ),
            Response::Created(note) => ResponseView::Created(note@),
            Response::Found(note) => ResponseView::Found(note@),
            Response::Document(json) => ResponseView::Document(json@),
            Response::Viewer => ResponseView::Viewer,
            Response::Invalid(e) => ResponseView::Invalid(e),
            Response::NoteNotFound(id) => ResponseView::NoteNotFound(id),
            Response::PathNotFound => ResponseView::PathNotFound,
            Response::MethodNotAllowed => ResponseView::MethodNotAllowed,
            Response::Exhausted => ResponseView::Exhausted,
        }
    }
}

/// The status that an answer is written with.
pub open spec fn status_of(response: ResponseView) -> u16 {
    match response {
        ResponseView::Invalid(_) => 400,
        ResponseView::NoteNotFound(_) => 404,
        ResponseView::PathNotFound => 404,
        ResponseView::MethodNotAllowed => 405,
        ResponseView::Exhausted => 500,
        _ => 200,
    }
}

impl Response {
    /// The status that the answer is written with: 200 for what was asked
    /// for, 400 for a request that did not bring what it had to, 404 for a
    /// note or a path that is not there, 405 for a method that the path does
    /// not take, 500 for a store that is full.
    pub fn status(&self) -> (code: u16)
        ensures
            code == status_of(self@),
    {
        match self {
            Response::Invalid(_) => 400,
            Response::NoteNotFound(_) => 404,
            Response::PathNotFound => 404,
            Response::MethodNotAllowed => 405,
            Response::Exhausted => 500,
            _ => 200,
        }
    }
}

/// A service as contracts see it.
pub struct ServiceView {
    pub routes: Seq<RouteView<Handler>>,
    pub store: StoreView,
}

/// What an operation answers to a request, given the store as it is, the
/// segments of the path under the route's parameters, and the form.
pub open spec fn operation_answer(
    handler: Handler,
    s: ServiceView,
    params: Seq<Seq<u8>>,
    form: Option<NoteForm>,
) -> ResponseView {
    match handler {
        Handler::Greeting => ResponseView::Greeting,
        Handler::StaticUser => ResponseView::User(User { id: 1 }),
        Handler::ListNotes => ResponseView::Notes(s.store.notes),
        Handler::CreateNote => match create_outcome(s.store, form) {
            None => ResponseView::Created(created_note(s.store, draft_of(form->0))),
            Some(CreateError::Invalid(e)) => ResponseView::Invalid(e),
            Some(CreateError::Exhausted) => ResponseView::Exhausted,
        },
        Handler::GetNote => if params.len() == 0 {
            ResponseView::Invalid(ValidationError::BadIdentifier)
        } else {
            match id_of(params[0]) {
                None => ResponseView::Invalid(ValidationError::BadIdentifier),
                Some(id) => match lookup(s.store, id) {
                    Some(note) => ResponseView::Found(note),
                    None => ResponseView::NoteNotFound(id),
                },
            }
        },
        Handler::ApiDocument => ResponseView::Document(document_json(document_of(s.routes))),
        Handler::Viewer => ResponseView::Viewer,
    }
}

/// The answer of the service to a request.
pub open spec fn answer(
    s: ServiceView,
    method: Method,
    path: Seq<Seq<u8>>,
    form: Option<NoteForm>,
) -> ResponseView {
    match resolve(s.routes, method, path) {
        Resolution::PathNotFound => ResponseView::PathNotFound,
        Resolution::MethodNotAllowed => ResponseView::MethodNotAllowed,
        Resolution::Found(i) => operation_answer(
            s.routes[i].handler,
            s,
            captures(s.routes[i].pattern, path),
            form,
        ),
    }
}

/// The store after a request: only a note that was created changes it.
pub open spec fn store_after(
    s: ServiceView,
    method: Method,
    path: Seq<Seq<u8>>,
    form: Option<NoteForm>,
) -> StoreView {
    match resolve(s.routes, method, path) {
        Resolution::Found(i) => if s.routes[i].handler == Handler::CreateNote && create_outcome(
            s.store,
            form,
        ) is None {
            after_create(s.store, draft_of(form->0))
        } else {
            s.store
        },
        _ => s.store,
    }
}

/// The service.
pub struct Service {
    router: Router<Handler>,
    store: NoteStore,
    document: Vec<u8>,
}

impl View for Service {
    type V = ServiceView;

    closed spec fn view(&self) -> ServiceView {
        ServiceView { routes: self.router@, store: self.store@ }
    }
}

impl Service {
    /// The description that the service holds is that of its routes.
    pub closed spec fn described(&self) -> bool {
        self.document@ == document_json(document_of(self.router@))
    }

    /// The invariant of a service: those of its routes and its store, and
    /// the description it holds is that of its routes.
    pub open spec fn wf(&self) -> bool {
        &&& routes_wf(self@.routes)
        &&& store_wf(self@.store)
        &&& self.described()
    }

    /// A service with the routes of `create_router` and no notes.
    pub fn new() -> (service: Service)
        ensures
            service.wf(),
            service@.routes == service_routes(),
            service@.store == crate::apps::note::store::empty_store(),
    {
        Service::with_router(create_router())
    }

    /// A service with these routes and no notes.
    pub fn with_router(router: Router<Handler>) -> (service: Service)
        requires
            router.wf(),
        ensures
            service.wf(),
            service@.routes == router@,
            service@.store == crate::apps::note::store::empty_store(),
    {
        let document = router.build_document().to_json();
        Service { router, store: NoteStore::new(), document }
    }

    /// The router of the service.
    pub fn router(&self) -> (router: &Router<Handler>)
        ensures
            router@ == self@.routes,
            self.wf() ==> router.wf(),
    {
        &self.router
    }

    /// The store of the service.
    pub fn store(&self) -> (store: &NoteStore)
        ensures
            store@ == self@.store,
            self.wf() ==> store.wf(),
    {
        &self.store
    }

    /// Answers a request: finds its route and does what the route's
    /// operation does. The routes stay as they are; the store changes only
    /// when a note is created.
    pub fn handle(&mut self, method: Method, path: &str, form: Option<NoteForm>) -> (response:
        Response)
        requires
            old(self).wf(),
        ensures
            final(self).wf(),
            final(self)@.routes == old(self)@.routes,
            final(self)@.store == store_after(
                old(self)@,
                method,
                segments(path.spec_bytes()),
                form,
            ),
            response@ == answer(old(self)@, method, segments(path.spec_bytes()), form),
    {
        let found = match self.router.dispatch(method, path) {
            Err(DispatchError::PathNotFound) => {
                return Response::PathNotFound;
            },
            Err(DispatchError::MethodNotAllowed) => {
                return Response::MethodNotAllowed;
            },
            Ok(found) => found,
        };
        match found.handler {
            Handler::Greeting => Response::Greeting,
            Handler::StaticUser => Response::User(get_user()),
            Handler::ListNotes => {
                let notes = list_notes(&self.store);
                assert(Seq::new(notes@.len(), |i: int| notes@[i]@) =~= self.store@.notes);
                Response::Notes(notes)
            },
            Handler::CreateNote => match create_note(&mut self.store, form) {
                Ok(note) => Response::Created(note),
                Err(CreateError::Invalid(e)) => Response::Invalid(e),
                Err(CreateError::Exhausted) => Response::Exhausted,
            },
            Handler::GetNote => {
                if found.params.len() == 0 {
                    Response::Invalid(ValidationError::BadIdentifier)
                } else {
                    assert(segs_view(found.params@)[0] == found.params@[0]@);
                    match get_note(&self.store, found.params[0].as_slice()) {
                        Ok(note) => Response::Found(note),
                        Err(GetError::BadIdentifier) => Response::Invalid(
                            ValidationError::BadIdentifier,
                        ),
                        Err(GetError::NotFound(id)) => Response::NoteNotFound(id),
                    }
                }
            },
            Handler::ApiDocument => Response::Document(crate::path::copy_bytes(
                self.document.as_slice(),
            )),
            Handler::Viewer => Response::Viewer,
        }
    }
}

} // verus!
