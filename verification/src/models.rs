//! The context, and the models that read it.

pub mod common;
pub mod ctx;
pub mod library_with_filters;
pub mod view_laws;
