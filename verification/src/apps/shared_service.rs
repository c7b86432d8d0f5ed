//! The service for requests that are handled at the same time: its routes and
//! their description never change, and its store stands behind a lock.
//!
//! What the store holds when a request arrives depends on the requests that
//! came before it, on whatever thread they were handled. The contract of
//! `handle` therefore does not name the store. It says that the answer is the
//! one that the service for one caller gives, with the same routes, on some
//! store that can stand behind the lock.

use crate::apps::note::handlers::parse_id;
use crate::apps::note::model::{NoteForm, ValidationError};
use crate::apps::note::shared::{notes_view, stands_behind, SharedStore};
use crate::apps::note::store::{created_note, empty_store, lookup, store_wf, StoreView};
use crate::apps::note::store_laws::lemma_extends_itself;
use crate::apps::operations::Handler;
use crate::apps::service::{answer, Response, ServiceView};
use crate::apps::{create_router, get_user, service_routes};
use crate::document::{document_json, document_of};
use crate::path::{copy_bytes, segments, segs_view};
use crate::routing::{routes_wf, DispatchError, Method, RouteView, Router};
use vstd::prelude::*;
use vstd::string::StringSliceAdditionalSpecFns;

verus! {

/// The service, for many at the same time.
pub struct SharedService {
    router: Router<Handler>,
    store: SharedStore,
    document: Vec<u8>,
}

impl SharedService {
    /// The routes of the service.
    pub closed spec fn routes(&self) -> Seq<RouteView<Handler>> {
        self.router@
    }

    /// The store as it was put behind the lock.
    pub closed spec fn base(&self) -> StoreView {
        self.store.base()
    }

    /// The service for one caller that has the routes of this one and the
    /// store `seen`.
    pub open spec fn on(&self, seen: StoreView) -> ServiceView {
        ServiceView { routes: self.routes(), store: seen }
    }

    /// The description that the service holds is that of its routes.
    pub closed spec fn described(&self) -> bool {
        self.document@ == document_json(document_of(self.router@))
    }

    /// The invariant of a service: those of its routes and of the store that
    /// was put behind the lock, and the description it holds is that of its
    /// routes.
    pub open spec fn wf(&self) -> bool {
        &&& routes_wf(self.routes())
        &&& store_wf(self.base())
        &&& self.described()
    }

    /// A service with the routes of `create_router` and no notes.
    pub fn new() -> (service: SharedService)
        ensures
            service.wf(),
            service.routes() == service_routes(),
            service.base() == empty_store(),
    {
        SharedService::with_router(create_router())
    }

    /// A service with these routes and no notes.
    pub fn with_router(router: Router<Handler>) -> (service: SharedService)
        requires
            router.wf(),
        ensures
            service.wf(),
            service.routes() == router@,
            service.base() == empty_store(),
    {
        let document = router.build_document().to_json();
        SharedService { router, store: SharedStore::new(), document }
    }

    /// Answers a request: finds its route and does what the route's
    /// operation does, as the service for one caller does on the store that
    /// the request finds behind the lock. Any number of requests can be
    /// answered at the same time; those that create a note take their turns
    /// at the store.
    pub fn handle(&self, method: Method, path: &str, form: Option<NoteForm>) -> (response: Response)
        requires
            self.wf(),
        ensures
            exists|seen: StoreView|
                #[trigger] stands_behind(seen, self.base()) && response@ == answer(
                    self.on(seen),
                    method,
                    segments(path.spec_bytes()),
                    form,
                ),
    {
        let ghost want = segments(path.spec_bytes());
        proof {
            lemma_extends_itself(self.base());
            assert(stands_behind(self.base(), self.base()));
        }
        let found = match self.router.dispatch(method, path) {
            Err(DispatchError::PathNotFound) => {
                assert(Response::PathNotFound@ == answer(self.on(self.base()), method, want, form));
                return Response::PathNotFound;
            },
            Err(DispatchError::MethodNotAllowed) => {
                assert(Response::MethodNotAllowed@ == answer(
                    self.on(self.base()),
                    method,
                    want,
                    form,
                ));
                return Response::MethodNotAllowed;
            },
            Ok(found) => found,
        };
        match found.handler {
            Handler::Greeting => {
                assert(Response::Greeting@ == answer(self.on(self.base()), method, want, form));
                Response::Greeting
            },
            Handler::StaticUser => {
                let response = Response::User(get_user());
                assert(response@ == answer(self.on(self.base()), method, want, form));
                response
            },
            Handler::ListNotes => {
                let notes = self.store.list();
                let response = Response::Notes(notes);
                proof {
                    let seen = choose|seen: StoreView| #[trigger]
                        stands_behind(seen, self.base()) && notes_view(
                            notes@,
                        ) == seen.notes;
                    assert(response@ == answer(self.on(seen), method, want, form));
                }
                response
            },
            Handler::CreateNote => {
                let form = match form {
                    None => {
                        let response = Response::Invalid(ValidationError::MissingBody);
                        assert(response@ == answer(self.on(self.base()), method, want, form));
                        return response;
                    },
                    Some(form) => form,
                };
                match form.validate() {
                    Err(e) => {
                        let response = Response::Invalid(e);
                        assert(response@ == answer(
                            self.on(self.base()),
                            method,
                            want,
                            Some(form),
                        ));
                        response
                    },
                    Ok(draft) => {
                        let made = self.store.create(draft);
                        let response = match made {
                            Some(note) => Response::Created(note),
                            None => Response::Exhausted,
                        };
                        proof {
                            let seen = choose|seen: StoreView| #[trigger]
                                stands_behind(seen, self.base()) && (match made {
                                    Some(note) => seen.next_id < u64::MAX && note@
                                        == created_note(seen, draft@),
                                    None => seen.next_id == u64::MAX,
                                });
                            assert(response@ == answer(self.on(seen), method, want, Some(form)));
                        }
                        response
                    },
                }
            },
            Handler::GetNote => {
                if found.params.len() == 0 {
                    let response = Response::Invalid(ValidationError::BadIdentifier);
                    assert(response@ == answer(self.on(self.base()), method, want, form));
                    return response;
                }
                assert(segs_view(found.params@)[0] == found.params@[0]@);
                match parse_id(found.params[0].as_slice()) {
                    None => {
                        let response = Response::Invalid(ValidationError::BadIdentifier);
                        assert(response@ == answer(self.on(self.base()), method, want, form));
                        response
                    },
                    Some(id) => {
                        let res = self.store.get(id);
                        let response = match res {
                            Ok(note) => Response::Found(note),
                            Err(e) => Response::NoteNotFound(e.id),
                        };
                        proof {
                            let seen = choose|seen: StoreView| #[trigger]
                                stands_behind(seen, self.base()) && (match res {
                                    Ok(note) => lookup(seen, id) == Some(
                                        note@,
                                    ),
                                    Err(e) => e.id == id && lookup(
                                        seen,
                                        id,
                                    ) is None,
                                });
                            assert(response@ == answer(self.on(seen), method, want, form));
                        }
                        response
                    },
                }
            },
            Handler::ApiDocument => {
                let response = Response::Document(copy_bytes(self.document.as_slice()));
                assert(response@ == answer(self.on(self.base()), method, want, form));
                response
            },
            Handler::Viewer => {
                assert(Response::Viewer@ == answer(self.on(self.base()), method, want, form));
                Response::Viewer
            },
        }
    }
}

} // verus!
