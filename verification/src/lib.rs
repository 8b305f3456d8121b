//! Visual retrieval-augmented generation: the verified core of the tiling,
//! configuration, argument parsing, caching and retrieval bookkeeping logic.
use vstd::prelude::*;

pub mod bench;
pub mod caching;
pub mod cli;
pub mod config;
pub mod embedding;
pub mod encoder;
pub mod error;
pub mod fixtures;
pub mod hashing;
pub mod index;
pub mod json;
pub mod lru;
pub mod metrics;
pub mod order;
pub mod outcome;
pub mod pipeline;
pub mod render;
pub mod search;
pub mod serve;
pub mod sidecar;
pub mod synthetic;
pub mod text;
pub mod tile;
pub mod visual;

verus! {

} // verus!
