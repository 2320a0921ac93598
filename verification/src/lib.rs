//! Live multi-user collaborative editing on a replicated (RGA) text document.
//!
//! Browser tabs send intents (insert text at a visible position, delete a
//! character by its identity); the server owns the authoritative document,
//! translates each intent into canonical operations, logs them and fans them
//! out to every tab. This crate holds the server's decisions; the HTTP and
//! WebSocket plumbing around it lives elsewhere.

pub mod kit;
pub mod model;
pub mod name;
pub mod ops;
pub mod roster;
pub mod session;
pub mod state;
pub mod token;

pub use ops::{ClientMsg, OperationId, ServerMsg, TextOperation};
pub use state::AppState;
