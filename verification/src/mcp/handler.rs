//! What a tool call comes to, and what all handlers of tool calls have in common.
use crate::error::PtyError;
use crate::json;
use crate::json::{entry, object, Member};
use crate::mcp::arguments::{Arguments, Seconds};
use crate::mcp::error::McpError;
use crate::mcp::tools;
use crate::mcp::tools::{ToolDefinition, ToolView};
use crate::time::{Instant, Moment};
use vstd::prelude::*;
use vstd::string::*;

verus! {

/// Whether the client has cancelled the call that is under way.
pub type CancelToken = bool;

/// A call that goes on after a while.
#[derive(Debug)]
pub enum Pending {
    /// Waits for a process to end before its screen is shown.
    Screen { session_id: String, deadline: Instant },
    /// Waits for a pattern to appear on a screen.
    Pattern { session_id: String, pattern: String, timeout_ms: u64, deadline: Instant },
    /// Waits for a session to do nothing for a while.
    Idle {
        session_id: String,
        /// What does not count as a change of the screen; without it, all output counts.
        ignore_pattern: Option<String>,
        threshold: Seconds,
        deadline: Instant,
        /// The hash of what the screen showed last, and since when it has.
        last_hash: Option<u64>,
        stable_since: Instant,
    },
    /// Waits for a rate limit to end.
    Reset {
        session_id: String,
        prompt: String,
        deadline: Instant,
        reset_time: String,
        waited_minutes: u64,
    },
    /// Waits for a dialog to close.
    Prompt { session_id: String, prompt: String, reset_time: String, waited_minutes: u64 },
}

/// A session that is to be started.
#[derive(Debug)]
pub struct LaunchRequest {
    /// The command; the user's shell where there is none.
    pub command: Option<String>,
    pub args: Vec<String>,
    /// The directory it runs in; the handler's own where there is none.
    pub working_dir: Option<String>,
    pub name: Option<String>,
    pub cols: u16,
    pub rows: u16,
}

/// What a call asks a log for.
#[derive(Debug)]
pub enum Query {
    /// All sessions.
    Sessions,
    /// A session and its events, to be shown at an event, at a time, or at the end.
    Screen { session_id: String, event_index: Option<u64>, timestamp_ms: Option<u64> },
    /// The events of a session.
    Timeline { session_id: String },
}

/// What a call comes to.
#[derive(Debug)]
pub enum Step {
    /// It has a result, as JSON, or it has failed.
    Done(Result<String, McpError>),
    /// It goes on after a number of milliseconds.
    Wait { millis: u64, task: Pending },
    /// It needs a process on a terminal.
    Launch(LaunchRequest),
    /// It needs what is in a log.
    Read(Query),
    /// It asks for what cannot be done: keys with an escape that is cut short, a span that no
    /// clock can wait for, or one identifier more than there are numbers.
    Unsupported,
}

/// A call was answered with JSON.
pub open spec fn replied(step: Step, json: Seq<char>) -> bool {
    step matches Step::Done(Ok(text)) && text@ == json
}

/// A call failed for want of an argument.
pub open spec fn lacks(step: Step, name: Seq<char>) -> bool {
    step matches Step::Done(Err(McpError::InvalidParams(m))) && m@ == name + " required"@
}

/// A call failed for wrong arguments.
pub open spec fn refused(step: Step, message: Seq<char>) -> bool {
    step matches Step::Done(Err(McpError::InvalidParams(m))) && m@ == message
}

/// A call could not be answered.
pub open spec fn gave_up(step: Step, message: Seq<char>) -> bool {
    step matches Step::Done(Err(McpError::Protocol(m))) && m@ == message
}

/// A call failed with the error of a session.
pub open spec fn failed(step: Step, e: PtyError) -> bool {
    step matches Step::Done(Err(McpError::Pty(f))) && f == e
}

/// A call failed for want of a session.
pub open spec fn lacks_session(step: Step, id: Seq<char>) -> bool {
    step matches Step::Done(Err(McpError::Pty(PtyError::SessionNotFound(name)))) && name@ == id
}

/// A call failed for want of a tool.
pub open spec fn lacks_tool(step: Step, name: Seq<char>) -> bool {
    step matches Step::Done(Err(McpError::ToolNotFound(n))) && n@ == name
}

/// The answer of a call that has nothing to say.
pub open spec fn status_text(status: Seq<char>) -> Seq<char> {
    json::object_text(seq![("status"@, json::string_text(status))])
}

/// The answer of a call that has nothing to say.
pub fn status_json(status: &str) -> (s: String)
    ensures
        s@ == status_text(status@),
{
    let members: Vec<Member> = vec![entry("status", json::string(status))];
    assert(json::member_views(members@) =~= seq![("status"@, json::string_text(status@))]);
    object(&members)
}

/// A call that has failed.
pub fn fail(e: McpError) -> (step: Step)
    ensures
        step == Step::Done(Err(e)),
{
    Step::Done(Err(e))
}

/// A call that was answered.
pub fn reply(json: String) -> (step: Step)
    ensures
        step == Step::Done(Ok(json)),
{
    Step::Done(Ok(json))
}

/// A call of a tool that there is not.
pub fn no_tool(name: &str) -> (step: Step)
    ensures
        lacks_tool(step, name@),
{
    Step::Done(Err(McpError::ToolNotFound(name.to_string())))
}

/// The lower sixteen bits of a number.
pub open spec fn low_bits(n: u64) -> u16 {
    (n % 0x1_0000) as u16
}

/// The lower sixteen bits of a number.
pub fn low16(n: u64) -> (m: u16)
    ensures
        m == low_bits(n),
{
    (n % 0x1_0000) as u16
}

/// Handles tool calls.
pub trait ToolHandler: Sized {
    /// The handler is valid.
    spec fn wf(&self) -> bool;

    /// How a call of a tool changes the handler, and what it comes to.
    spec fn answers(
        before: Self,
        name: Seq<char>,
        args: Arguments,
        moment: Moment,
        after: Self,
        step: Step,
    ) -> bool;

    /// How going on with a call changes the handler, and what it comes to.
    spec fn resumes(before: Self, task: Pending, moment: Moment, after: Self, step: Step) -> bool;

    /// How it changes the handler to learn whether the client has cancelled.
    spec fn told(before: Self, token: CancelToken, after: Self) -> bool;

    /// The tools that the handler has.
    spec fn offers(&self) -> Seq<ToolView>;

    /// Handles a call of a tool.
    fn handle_tool_call(&mut self, name: &str, args: &Arguments, moment: Moment) -> (step: Step)
        requires
            old(self).wf(),
            moment.wf(),
        ensures
            final(self).wf(),
            Self::answers(*old(self), name@, *args, moment, *final(self), step),
    ;

    /// Goes on with a call that had to wait.
    fn resume(&mut self, task: Pending, moment: Moment) -> (step: Step)
        requires
            old(self).wf(),
            moment.wf(),
        ensures
            final(self).wf(),
            Self::resumes(*old(self), task, moment, *final(self), step),
    ;

    /// Tells the handler whether the client has cancelled the call that is under way.
    fn set_cancel_token(&mut self, token: CancelToken)
        requires
            old(self).wf(),
        ensures
            final(self).wf(),
            Self::told(*old(self), token, *final(self)),
    ;

    /// The tools that the handler has.
    fn tool_definitions(&self) -> (tools: Vec<ToolDefinition>)
        ensures
            tools::tool_views(tools@) == self.offers(),
    ;
}

} // verus!
