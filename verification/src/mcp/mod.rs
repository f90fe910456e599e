//! The NotePlan MCP server's vocabulary: how a note is addressed, and the
//! connection status shown to the user.
pub mod tools;

use vstd::prelude::*;

verus! {

/// Whether the MCP server is connected, and the tools it offers.
#[derive(Debug, Clone)]
pub struct McpStatus {
    pub connected: bool,
    pub tools: Vec<String>,
}

} // verus!
