use vstd::prelude::*;

pub mod global;
pub mod text;
pub mod assoc;
pub mod constants;
pub mod clip;
pub mod node;
pub mod abstract_pipeline;
pub mod nodes;
pub mod graph;
pub mod pipeline;
pub mod cache;
pub mod task;
pub mod networking;
pub mod status;
pub mod preview;
pub mod store;
pub mod server;
pub mod client;

verus! {

/// Identifier of nodes and clips: the 128-bit value of a UUID.
pub type ID = u128;

} // verus!
