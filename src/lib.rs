//! Dataset lockfile library: canonical JSON, self-hashed lockfiles,
//! two-level verification and a hash-chained witness ledger.

pub mod text;
pub mod json;
pub mod canonical;
pub mod digest;
pub mod lockfile;
pub mod output;
pub mod self_hash;
pub mod input;
pub mod refusal;
pub mod orchestrate;
pub mod verify;
pub mod members;
pub mod cli;
pub mod witness;
pub mod report;
pub mod verify_flow;
