//! Verified core of the SDK for the agent command-line interface.
//!
//! The library holds the decision logic of the SDK: version parsing and
//! checking, tool-name handling for in-process MCP servers, the line-oriented
//! circular buffer used by the transport, the control-protocol dispatch and
//! message routing, and the option validation performed before a session starts.
#![allow(unused_imports)]

pub mod control;
pub mod errors;
pub mod hooks;
pub mod mcp;
pub mod options;
pub mod ring_buffer;
pub mod routing;
pub mod session;
pub mod text;
pub mod version;
