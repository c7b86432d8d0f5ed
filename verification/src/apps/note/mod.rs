//! The note resource: its model, its store, its handlers and its routes.

pub mod handlers;
pub mod model;
pub mod router;
pub mod shared;
pub mod store;
pub mod store_laws;
