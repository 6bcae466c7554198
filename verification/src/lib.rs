//! Verified core of the nekocode agent: stream decoding, skill and profile
//! parsing, path sandboxing and the bookkeeping of subagent registries.
use vstd::prelude::*;

pub mod agent;
pub mod anthropic;
pub mod convert;
pub mod file;
pub mod mcp;
pub mod message;
pub mod openai;
pub mod profile;
pub mod registry;
pub mod shell;
pub mod skill;
pub mod skills;
pub mod spawn;
pub mod sse;
pub mod text;
pub mod workspace;

verus! {

} // verus!
