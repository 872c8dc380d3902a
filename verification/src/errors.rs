//! Errors reported by the library.

use vstd::prelude::*;

verus! {

/// A JSON-RPC error of an in-process MCP server.
#[derive(Debug, Clone)]
pub struct McpError {
    /// JSON-RPC error code.
    pub code: i64,
    /// Human-readable message.
    pub message: String,
}

/// The JSON-RPC code for an unknown method.
pub const METHOD_NOT_FOUND: i64 = -32601;

/// The JSON-RPC code for an internal error.
pub const INTERNAL_ERROR: i64 = -32603;

impl McpError {
    /// The "method not found" error for `method`.
    pub fn method_not_found(method: &str) -> (r: McpError)
        ensures
            r.code == METHOD_NOT_FOUND,
            r.message@ == "Method not found: "@ + method@,
    {
        let mut message = String::from_str("Method not found: ");
        message.append(method);
        McpError { code: METHOD_NOT_FOUND, message }
    }
}

/// Errors of the SDK.
#[derive(Debug, Clone)]
pub enum ClaudeError {
    /// Invalid configuration.
    InvalidConfig(String),
    /// Control-protocol violation.
    ControlProtocol(String),
    /// Transport failure.
    Transport(String),
    /// A control request timed out.
    Timeout(String),
    /// Error from an in-process MCP server.
    Mcp(McpError),
}

impl ClaudeError {
    /// The message carried by the error.
    pub open spec fn spec_message(&self) -> Seq<char> {
        match self {
            ClaudeError::InvalidConfig(m) => m@,
            ClaudeError::ControlProtocol(m) => m@,
            ClaudeError::Transport(m) => m@,
            ClaudeError::Timeout(m) => m@,
            ClaudeError::Mcp(e) => e.message@,
        }
    }

    /// The message carried by the error.
    pub fn message(&self) -> (r: String)
        ensures
            r@ == self.spec_message(),
    {
        match self {
            ClaudeError::InvalidConfig(m) => m.clone(),
            ClaudeError::ControlProtocol(m) => m.clone(),
            ClaudeError::Transport(m) => m.clone(),
            ClaudeError::Timeout(m) => m.clone(),
            ClaudeError::Mcp(e) => e.message.clone(),
        }
    }

    /// The JSON-RPC `(code, message)` reported for this error by an in-process
    /// MCP server: an MCP error keeps its own code, every other error is an
    /// internal error.
    pub fn jsonrpc_error(&self) -> (r: (i64, String))
        ensures
            r.0 == (match self {
                ClaudeError::Mcp(e) => e.code,
                _ => INTERNAL_ERROR,
            }),
            r.1@ == self.spec_message(),
    {
        match self {
            ClaudeError::Mcp(e) => (e.code, e.message.clone()),
            _ => (INTERNAL_ERROR, self.message()),
        }
    }
}

} // verus!
