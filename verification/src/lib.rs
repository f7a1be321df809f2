//! Verified routing, runtime-state and agent-configuration logic of the HiRoute gateway.

pub mod agents;
pub mod digest;
pub mod json;
pub mod paths;
pub mod runtime;
pub mod server;
pub mod server_laws;
pub mod sheets;
pub mod text;
pub mod text_laws;
pub mod toml;
pub mod tree;
pub mod uri;
