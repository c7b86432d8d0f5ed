//! A small note service, verified.
//!
//! The service has three parts. The router (`routing`) binds methods and path
//! patterns to handlers and finds the route of a request: the most specific
//! pattern that matches, a literal before a parameter. The store
//! (`apps::note::store`) keeps notes in memory, in the order in which they
//! came, each under an identifier that is given out once. The document
//! (`document`) describes the routes of a router from the routes themselves,
//! and writes that description as JSON.
//!
//! `apps` puts the parts together: `apps::create_router` is the router of
//! the service, `apps::service::Service` answers requests for one caller at a
//! time, `apps::shared_service::SharedService` for many. Neither reads from a
//! socket; they take a request that was read and give the answer that is to
//! be written.
//!
//! `learn` holds the worked examples of the language lessons.
//!
//! Every function carries a contract that Verus proves; the modules whose
//! names end in `_laws` state what holds across functions.

pub mod apps;
pub mod document;
pub mod document_laws;
pub mod json;
pub mod learn;
pub mod path;
pub mod routing;
pub mod routing_laws;
pub mod schema;
