//! A code-review pipeline's decision logic: diff and response parsing,
//! finding filters, prompt budgeting and evaluation bookkeeping.
use vstd::prelude::*;

pub mod text;
pub mod split;
pub mod sorted;
pub mod types;
pub mod integrity;
pub mod parser;
pub mod verify;
pub mod platform;
pub mod decimal;
pub mod prompts;
pub mod execution;
pub mod context;
pub mod config;
pub mod review;
pub mod summary;
pub mod hashing;
pub mod chunks;
pub mod fingerprint;
pub mod filter;
pub mod eval;
pub mod experiment;
pub mod embeddings;
pub mod feedback;
pub mod sarif;
pub mod cochange;
pub mod civil;
pub mod guidance;
pub mod syntax;
pub mod graph;

verus! {

} // verus!
