//! Errors of tool calls.
use crate::error::{joined, PtyError};
use crate::scheduler::SchedulerError;
use vstd::prelude::*;
use vstd::string::*;

verus! {

/// Why a tool call failed.
#[derive(Debug, PartialEq, Eq)]
pub enum McpError {
    /// JSON could not be read or written, for this reason.
    Json(String),
    /// Reading or writing failed, for this reason.
    Io(String),
    /// A terminal session failed.
    Pty(PtyError),
    /// There is no tool of this name.
    ToolNotFound(String),
    /// The arguments are wrong, for this reason.
    InvalidParams(String),
    /// The call cannot be answered, for this reason.
    Protocol(String),
    /// The scheduler failed.
    Scheduler(SchedulerError),
}

impl McpError {
    /// The message that the error is shown with.
    pub open spec fn message(&self) -> Seq<char> {
        match *self {
            McpError::Json(e) => "JSON error: "@ + e@,
            McpError::Io(e) => "I/O error: "@ + e@,
            McpError::Pty(e) => "PTY error: "@ + e.message(),
            McpError::ToolNotFound(name) => "tool not found: "@ + name@,
            McpError::InvalidParams(e) => "invalid params: "@ + e@,
            McpError::Protocol(e) => "protocol error: "@ + e@,
            McpError::Scheduler(e) => "scheduler error: "@ + e.message(),
        }
    }

    /// The error as text.
    pub fn to_string(&self) -> (s: String)
        ensures
            s@ == self.message(),
    {
        match self {
            McpError::Json(e) => joined("JSON error: ", e.as_str()),
            McpError::Io(e) => joined("I/O error: ", e.as_str()),
            McpError::Pty(e) => joined("PTY error: ", e.to_string().as_str()),
            McpError::ToolNotFound(name) => joined("tool not found: ", name.as_str()),
            McpError::InvalidParams(e) => joined("invalid params: ", e.as_str()),
            McpError::Protocol(e) => joined("protocol error: ", e.as_str()),
            McpError::Scheduler(e) => joined("scheduler error: ", e.to_string().as_str()),
        }
    }
}

/// The error of a call in which an argument is missing.
pub fn missing(name: &str) -> (e: McpError)
    ensures
        e matches McpError::InvalidParams(m) && m@ == name@ + " required"@,
{
    McpError::InvalidParams(joined(name, " required"))
}

} // verus!
