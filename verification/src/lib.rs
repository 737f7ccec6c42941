//! Core of a language server that maintains a live code graph of a workspace
//! and answers navigation, relationship, and context queries over it.
//!
//! The crate holds the in-memory property graph, the per-language dispatch
//! rules, the secondary symbol indices, the layered query cache, and the
//! resolver logic that turns editor coordinates into graph operations.
//! Transport, filesystem watching, and the language frontends themselves are
//! external collaborators; they talk to this library through plain values.

pub mod ai_context;
pub mod assoc;
pub mod graph;
pub mod index;
pub mod error;
pub mod parser_api;
pub mod parser_registry;
pub mod payload;
pub mod backend;
pub mod cache;
pub mod props;
pub mod protocol;
pub mod text;
pub mod watcher;

use vstd::prelude::*;

verus! {

} // verus!
