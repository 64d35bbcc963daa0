//! Core of a multi-client terminal server that shows one animated document to
//! every connected viewer: input translation, per-client state, the session
//! registry and the parameters that each redraw renders with.

pub mod app;
pub mod events;
pub mod ids;
pub mod registry;
pub mod typing;
