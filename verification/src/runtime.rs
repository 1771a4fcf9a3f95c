//! Messages, the outcome of an update, and the way a model takes a message.

pub mod effects;
pub mod msg;
pub mod update;
