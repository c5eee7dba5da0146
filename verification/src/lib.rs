//! Peer discovery and messaging between coding sessions on one machine:
//! a broker holds the peer registry and the message queues, and each
//! session's MCP server talks to it over HTTP.

pub mod broker;
pub mod mcp;
pub mod process;
pub mod text;
pub mod types;
