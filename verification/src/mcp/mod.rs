//! MCP server building blocks: bearer-token authentication, protocol-version
//! negotiation, request routing decisions, header validation and line
//! framing for the stdio transport.

pub mod auth;
pub mod notification;
pub mod schema;
pub mod server;
pub mod transport;
pub mod http;
