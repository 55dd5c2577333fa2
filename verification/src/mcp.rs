//! The tools that the program offers to an agent, and the protocol in which they are called.
pub mod argument_laws;
pub mod arguments;
pub mod composite;
pub mod error;
pub mod handler;
pub mod notification_handler;
pub mod protocol;
pub mod proxy;
pub mod pty_handler;
pub mod pty_laws;
pub mod rate_limit;
pub mod replay_handler;
pub mod scheduler_handler;
pub mod scratchpad_handler;
pub mod sidebar_handler;
pub mod server;
pub mod tool_laws;
pub mod tools;
pub mod tui_handler;
