//! The per-session MCP server: its broker client, the broker launcher, its
//! lifecycle decisions, its tools and the work-summary helper.

pub mod client;
pub mod launcher;
pub mod lifecycle;
pub mod server;
pub mod summary;
