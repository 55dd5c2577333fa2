//! A terminal multiplexer core: sessions, screens, scheduling and tool dispatch.
pub mod ansi;
pub mod backend;
pub mod base64;
pub mod device;
pub mod error;
pub mod event;
pub mod input;
pub mod input_laws;
pub mod intervals;
pub mod json;
pub mod keys;
pub mod logging;
pub mod manager;
pub mod mcp;
pub mod notification;
pub mod pane_renderer;
pub mod pattern;
pub mod protocol;
pub mod pty_widget;
pub mod replay;
pub mod replay_laws;
pub mod sandbox;
pub mod scheduler;
pub mod scheduler_laws;
pub mod screen;
pub mod selection;
pub mod session;
pub mod sidebar;
pub mod sidebar_widget;
pub mod text;
pub mod time;
pub mod viewer;
pub mod vt100;
pub mod vt100_style;
