//! The collections that the context holds.

pub mod library;
pub mod notifications;
