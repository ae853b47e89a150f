//! Assembly-time dependency injection: modules declare what they provide,
//! import, export and expose to the host; one assembly pass resolves them
//! into an immutable tree of shared instances.

pub mod assembly;
pub mod graph;
pub mod host;
pub mod laws;
pub mod module;
pub mod recipe;
pub mod resolve;
