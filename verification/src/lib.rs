//! Verified core of the agent SDK: evolution ledgers, activation leases, kernel
//! sessions, artifacts, capability layers, turn ledgers and the protocol readers
//! around them.

pub mod text;
pub mod text_map;
pub mod conformance;
pub mod digest;
pub mod json;
pub mod evolution;
pub mod session;
pub mod harness;
pub mod activation;
pub mod artifact;
pub mod capability;
pub mod mcp;
pub mod kernel;
pub mod program;
pub mod schema;
pub mod session_state;
