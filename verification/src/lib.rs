//! The state core of a media center. A model takes one message at a time,
//! changes its state, and hands back what is left to do for the host that
//! runs it; it reads nothing and writes nothing by itself.
//!
//! `runtime` holds the messages, the outcome of an update and the way a model
//! is put together; `models` holds the context, the update that replaces a
//! value only where it differs, and the view of the library through a filter;
//! `types` holds the library and the notifications; `deep_links` writes and
//! reads requests as text.

pub mod constants;
pub mod deep_links;
pub mod models;
pub mod order;
pub mod runtime;
pub mod text;
pub mod types;
