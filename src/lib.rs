//! Locating, fetching and normalising assistant skills and MCP server
//! entries across the installations of several coding tools.
use vstd::prelude::*;

pub mod branches;
pub mod fetch;
pub mod guard;
pub mod json;
pub mod location;
pub mod normalize;
pub mod order;
pub mod servers;
pub mod skill;
pub mod slug;
pub mod sources;
pub mod sync;
pub mod text;
pub mod toml_value;

verus! {

} // verus!
