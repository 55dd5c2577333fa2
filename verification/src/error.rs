//! Errors of terminal sessions.
use crate::text;
use crate::text::push_decimal;
use vstd::prelude::*;
use vstd::string::*;

verus! {

/// Why an operation on a terminal session failed.
#[derive(Debug, PartialEq, Eq)]
pub enum PtyError {
    /// There is no session with this identifier.
    SessionNotFound(String),
    /// So many sessions are allowed, and there are as many.
    MaxSessionsReached(usize),
    /// Another session has this name.
    DuplicateName(String),
    /// The process of the session has exited.
    SessionExited,
    /// Reading or writing failed, for this reason.
    Io(String),
    /// The process could not be started, for this reason.
    Spawn(String),
    /// The terminal could not be resized, for this reason.
    Resize(String),
    /// Output is being captured already.
    CaptureAlreadyActive,
    /// No output is being captured.
    NoCaptureActive,
}

impl PtyError {
    /// The message that the error is shown with.
    pub open spec fn message(&self) -> Seq<char> {
        match *self {
            PtyError::SessionNotFound(id) => "session not found: "@ + id@,
            PtyError::MaxSessionsReached(n) => "max sessions reached: "@ + text::decimal(n as nat),
            PtyError::DuplicateName(name) => "session name already taken: "@ + name@,
            PtyError::SessionExited => "session already exited"@,
            PtyError::Io(e) => "pty I/O error: "@ + e@,
            PtyError::Spawn(e) => "pty spawn error: "@ + e@,
            PtyError::Resize(e) => "resize error: "@ + e@,
            PtyError::CaptureAlreadyActive => "capture already active"@,
            PtyError::NoCaptureActive => "no capture active"@,
        }
    }

    /// The error as text.
    pub fn to_string(&self) -> (s: String)
        ensures
            s@ == self.message(),
    {
        match self {
            PtyError::SessionNotFound(id) => joined("session not found: ", id.as_str()),
            PtyError::MaxSessionsReached(n) => {
                let mut s = "max sessions reached: ".to_string();
                push_decimal(&mut s, *n as u64);
                s
            },
            PtyError::DuplicateName(name) => joined("session name already taken: ", name.as_str()),
            PtyError::SessionExited => "session already exited".to_string(),
            PtyError::Io(e) => joined("pty I/O error: ", e.as_str()),
            PtyError::Spawn(e) => joined("pty spawn error: ", e.as_str()),
            PtyError::Resize(e) => joined("resize error: ", e.as_str()),
            PtyError::CaptureAlreadyActive => "capture already active".to_string(),
            PtyError::NoCaptureActive => "no capture active".to_string(),
        }
    }
}

/// Two texts one after the other.
pub fn joined(a: &str, b: &str) -> (s: String)
    ensures
        s@ == a@ + b@,
{
    let mut s = a.to_string();
    s.append(b);
    s
}

} // verus!
