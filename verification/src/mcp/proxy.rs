//! A bridge between a client on standard input and output and a server behind a socket: how
//! messages are framed, and what is done when something happens. The caller reads and writes.
use crate::json;
use crate::json::{object, Member};
use crate::mcp::arguments::Arguments;
use crate::mcp::handler::{Pending, Step, ToolHandler};
use crate::mcp::protocol as rpc;
use crate::mcp::protocol::{JsonRpcError, JsonRpcRequest, JsonRpcResponse, ResponseView};
use crate::mcp::server;
use crate::mcp::server::{call_json, initialize_json, read_arguments, tools_json, Answer};
use crate::protocol;
use crate::protocol::encode_message;
use crate::text;
use crate::text::{chars_equal, push_bytes, to_chars};
use crate::time::Moment;
use vstd::prelude::*;
use vstd::string::*;
use vstd::utf8::*;

verus! {

/// How often a lost connection is tried again.
pub const MAX_RECONNECT_ATTEMPTS: u32 = 30;

/// How long to wait before the first new try, in milliseconds.
pub const RECONNECT_BASE_DELAY_MS: u64 = 100;

/// How long to wait at most between tries, in milliseconds.
pub const RECONNECT_MAX_DELAY_MS: u64 = 2_000;

/// The request that greets a server again after the connection was lost.
pub const INIT_REQUEST: &'static str =
    r#"{"jsonrpc":"2.0","id":"_reconnect_init","method":"initialize","params":{}}"#;

/// The notification that follows the greeting.
pub const INITIALIZED_NOTICE: &'static str =
    r#"{"jsonrpc":"2.0","id":null,"method":"initialized","params":{}}"#;

/// A message as it is sent: on a line of its own, or behind its length.
pub open spec fn message_bytes(message: Seq<u8>, ndjson: bool) -> Seq<u8> {
    if ndjson {
        message.push(0x0a)
    } else {
        protocol::framed(message)
    }
}

/// A message as it is sent: on a line of its own, or behind its length.
pub fn frame_message(message: &[u8], ndjson: bool) -> (bytes: Vec<u8>)
    ensures
        bytes@ == message_bytes(message@, ndjson),
{
    if ndjson {
        let mut bytes: Vec<u8> = Vec::new();
        push_bytes(&mut bytes, message);
        bytes.push(0x0a);
        assert(bytes@ =~= message@.push(0x0a));
        bytes
    } else {
        encode_message(message)
    }
}

/// A message on a line of its own ends at the first line end, provided that it has none itself.
pub proof fn law_lines_end_where_they_should(message: Seq<u8>, rest: Seq<u8>)
    requires
        !message.contains(0x0a),
    ensures
        text::first_index(message_bytes(message, true) + rest, |b: u8| b == 0x0a) == Some(
            message.len() as int,
        ),
{
    let all = message_bytes(message, true) + rest;
    assert forall|k: int| 0 <= k < message.len() implies all[k] != 0x0a by {
        assert(all[k] == message[k]);
        assert(message.contains(message[k]));
    }
    text::lemma_first_index_at(all, |b: u8| b == 0x0a, message.len() as int);
}

/// Whether some bytes occur among others.
pub open spec fn occurs(s: Seq<u8>, part: Seq<u8>) -> bool {
    exists|i: int| occurs_at(s, part, i)
}

/// Whether some bytes occur among others at a place.
pub open spec fn occurs_at(s: Seq<u8>, part: Seq<u8>, i: int) -> bool {
    0 <= i && i + part.len() <= s.len() && s.subrange(i, i + part.len()) == part
}

/// Whether a text occurs among bytes.
pub fn has_text(s: &[u8], part: &str) -> (b: bool)
    ensures
        b == occurs(s@, encode_utf8(part@)),
{
    let wanted = part.as_bytes();
    let ghost p = encode_utf8(part@);
    if wanted.len() > s.len() {
        return false;
    }
    let last = s.len() - wanted.len();
    let mut i: usize = 0;
    while i <= last
        invariant
            p == encode_utf8(part@),
            wanted@ == p,
            wanted.len() <= s.len(),
            last == s.len() - wanted.len(),
            i <= last + 1,
            last < usize::MAX || i <= last,
            forall|k: int| 0 <= k < i ==> !occurs_at(s@, p, k),
        ensures
            forall|k: int| 0 <= k <= last ==> !occurs_at(s@, p, k),
        decreases last + 1 - i,
    {
        let part_here = vstd::slice::slice_subrange(s, i, i + wanted.len());
        if text::bytes_equal(part_here, wanted) {
            assert(occurs_at(s@, p, i as int));
            return true;
        }
        assert(!occurs_at(s@, p, i as int));
        if i == last {
            break;
        }
        i += 1;
    }
    assert forall|k: int| !occurs_at(s@, p, k) by {}
    false
}

/// How a message that begins with a byte is framed: JSON begins with a brace and ends with its
/// line, everything else begins with a length.
pub fn is_ndjson(first_byte: u8) -> (b: bool)
    ensures
        b == (first_byte == 0x7b),
{
    first_byte == 0x7b
}

/// The request on a line: the bytes of what is left without white space around it.
pub fn line_request(line: &str) -> (request: Vec<u8>)
    ensures
        request@ == encode_utf8(text::trim(line@)),
{
    let chars = to_chars(line);
    let trimmed = text::from_chars(text::cut_both(&chars));
    let mut request: Vec<u8> = Vec::new();
    push_bytes(&mut request, trimmed.as_str().as_bytes());
    assert(request@ =~= encode_utf8(text::trim(line@)));
    request
}

/// Whether a message is a notification: it is JSON, and has no identifier, or `null` for one.
pub open spec fn is_notification(valid: bool, id: Option<Seq<u8>>) -> bool {
    valid && match id {
        Some(json) => json == encode_utf8("null"@),
        None => true,
    }
}

/// Whether a message is a notification, given whether it is JSON, and the JSON of its identifier.
pub fn notifies(valid: bool, id: Option<&[u8]>) -> (b: bool)
    ensures
        b == is_notification(
            valid,
            match id {
                Some(json) => Some(json@),
                None => None,
            },
        ),
{
    valid && match id {
        Some(json) => text::bytes_equal(json, "null".as_bytes()),
        None => true,
    }
}

/// Whether a message, on a line of its own, is a notification, which gets no response.
pub fn is_jsonrpc_notification(line: &str) -> (b: bool)
    ensures
        b == is_notification(
            json::is_valid_json(encode_utf8(line@)),
            json::member_of(encode_utf8(line@), "id"@),
        ),
{
    let data = line.as_bytes();
    match json::member(data, "id") {
        Some(id) => notifies(json::is_json(data), Some(&id)),
        None => notifies(json::is_json(data), None),
    }
}

/// What a reader on the server's side has read.
#[derive(Debug, PartialEq, Eq)]
pub enum TuiSocketEvent {
    /// A request, and whether it came on a line of its own.
    Request(Vec<u8>, bool),
    /// The client has cancelled the call that is under way.
    CancelReceived,
    /// There is no more to be read.
    Eof,
}

/// Whether a request says that the client has cancelled.
pub open spec fn is_cancel(request: Seq<u8>) -> bool {
    occurs(request, encode_utf8("notifications/cancelled"@))
}

/// Whether a request calls a tool.
pub open spec fn is_tools_call(request: Seq<u8>) -> bool {
    occurs(request, encode_utf8("\"method\":\"tools/call\""@)) || occurs(
        request,
        encode_utf8("\"method\": \"tools/call\""@),
    )
}

/// What reading a message comes to.
pub fn read_event(message: Vec<u8>, ndjson: bool) -> (event: TuiSocketEvent)
    ensures
        if is_cancel(message@) {
            event is CancelReceived
        } else {
            event matches TuiSocketEvent::Request(request, line) && request@ == message@ && line
                == ndjson
        },
{
    if has_text(&message, "notifications/cancelled") {
        TuiSocketEvent::CancelReceived
    } else {
        TuiSocketEvent::Request(message, ndjson)
    }
}

/// Whether a request calls a tool, which may take long.
pub fn calls_tool(request: &[u8]) -> (b: bool)
    ensures
        b == is_tools_call(request@),
{
    has_text(request, "\"method\":\"tools/call\"") || has_text(
        request,
        "\"method\": \"tools/call\"",
    )
}

/// What the server's side of a connection is at.
#[derive(Debug, PartialEq, Eq)]
pub enum ClientState {
    /// It waits for a request.
    Idle,
    /// It processes a request that came on a line of its own or not.
    Serving { ndjson: bool },
    /// It has a response, and sees to what came in meanwhile before it sends that.
    Draining { response: Vec<u8>, ndjson: bool },
    /// The connection is closed.
    Closed,
}

/// What happens on the server's side of a connection.
#[derive(Debug, PartialEq, Eq)]
pub enum ClientEvent {
    /// Something was read.
    Read(TuiSocketEvent),
    /// Nothing more has come in.
    Nothing,
    /// The request was processed; without a response it was a notification.
    Processed(Vec<u8>),
    /// Something could not be sent.
    WriteFailed,
}

/// What is to be done on the server's side of a connection.
#[derive(Debug, PartialEq, Eq)]
pub enum ClientAction {
    /// Wait for something to be read.
    Receive,
    /// See whether something was read meanwhile.
    TryReceive,
    /// Process a request. Before one that may take long, what was cancelled before is forgotten.
    Process { request: Vec<u8>, forget_cancel: bool },
    /// Process a request that came in meanwhile, and send its response, if it has one, in its own
    /// frame.
    ProcessPending { request: Vec<u8>, ndjson: bool },
    /// Send bytes, then wait for something to be read.
    Send(Vec<u8>),
    /// Close the connection.
    Close,
}

/// What a state, given as a value with views, is followed by.
pub open spec fn client_step(
    state: ClientState,
    event: ClientEvent,
    next: ClientState,
    action: ClientAction,
) -> bool {
    match (state, event) {
        (ClientState::Idle, ClientEvent::Read(TuiSocketEvent::Request(request, ndjson))) => {
            &&& next == (ClientState::Serving { ndjson })
            &&& action matches ClientAction::Process { request: r, forget_cancel } && r@
                == request@ && forget_cancel == is_tools_call(request@)
        },
        (ClientState::Idle, ClientEvent::Read(TuiSocketEvent::CancelReceived)) => {
            next is Idle && action is Receive
        },
        (ClientState::Idle, ClientEvent::Read(TuiSocketEvent::Eof)) => {
            next is Closed && action is Close
        },
        (ClientState::Serving { ndjson }, ClientEvent::Processed(response)) => {
            &&& next matches ClientState::Draining { response: r, ndjson: line } && r@
                == response@ && line == ndjson
            &&& action is TryReceive
        },
        (
            ClientState::Draining { response, ndjson },
            ClientEvent::Read(TuiSocketEvent::Request(request, pending)),
        ) => {
            &&& next matches ClientState::Draining { response: r, ndjson: line } && r@
                == response@ && line == ndjson
            &&& action matches ClientAction::ProcessPending { request: r, ndjson: line } && r@
                == request@ && line == pending
        },
        (
            ClientState::Draining { response, ndjson },
            ClientEvent::Read(TuiSocketEvent::CancelReceived),
        ) => {
            &&& next matches ClientState::Draining { response: r, ndjson: line } && r@
                == response@ && line == ndjson
            &&& action is TryReceive
        },
        (ClientState::Draining { response, ndjson }, ClientEvent::Read(TuiSocketEvent::Eof)) => {
            next is Idle && sends(response@, ndjson, action)
        },
        (ClientState::Draining { response, ndjson }, ClientEvent::Nothing) => {
            next is Idle && sends(response@, ndjson, action)
        },
        (ClientState::Idle, ClientEvent::Nothing) => next is Idle && action is Receive,
        _ => next is Closed && action is Close,
    }
}

/// A response is sent in its frame; where there is none, the next request is waited for.
pub open spec fn sends(response: Seq<u8>, ndjson: bool, action: ClientAction) -> bool {
    if response.len() == 0 {
        action is Receive
    } else {
        action matches ClientAction::Send(bytes) && bytes@ == message_bytes(response, ndjson)
    }
}

fn send(response: &[u8], ndjson: bool) -> (action: ClientAction)
    ensures
        sends(response@, ndjson, action),
{
    if response.len() == 0 {
        ClientAction::Receive
    } else {
        ClientAction::Send(frame_message(response, ndjson))
    }
}

/// What is to be done when something happens on the server's side of a connection.
pub fn handle_client_event(state: ClientState, event: ClientEvent) -> (done: (
    ClientState,
    ClientAction,
))
    ensures
        client_step(state, event, done.0, done.1),
{
    match (state, event) {
        (ClientState::Idle, ClientEvent::Read(TuiSocketEvent::Request(request, ndjson))) => {
            let forget_cancel = calls_tool(&request);
            (ClientState::Serving { ndjson }, ClientAction::Process { request, forget_cancel })
        },
        (ClientState::Idle, ClientEvent::Read(TuiSocketEvent::CancelReceived)) => (
            ClientState::Idle,
            ClientAction::Receive,
        ),
        (ClientState::Idle, ClientEvent::Read(TuiSocketEvent::Eof)) => (
            ClientState::Closed,
            ClientAction::Close,
        ),
        (ClientState::Serving { ndjson }, ClientEvent::Processed(response)) => (
            ClientState::Draining { response, ndjson },
            ClientAction::TryReceive,
        ),
        (
            ClientState::Draining { response, ndjson },
            ClientEvent::Read(TuiSocketEvent::Request(request, pending)),
        ) => (
            ClientState::Draining { response, ndjson },
            ClientAction::ProcessPending { request, ndjson: pending },
        ),
        (
            ClientState::Draining { response, ndjson },
            ClientEvent::Read(TuiSocketEvent::CancelReceived),
        ) => (ClientState::Draining { response, ndjson }, ClientAction::TryReceive),
        (ClientState::Draining { response, ndjson }, ClientEvent::Read(TuiSocketEvent::Eof)) => {
            let action = send(&response, ndjson);
            (ClientState::Idle, action)
        },
        (ClientState::Draining { response, ndjson }, ClientEvent::Nothing) => {
            let action = send(&response, ndjson);
            (ClientState::Idle, action)
        },
        (ClientState::Idle, ClientEvent::Nothing) => (ClientState::Idle, ClientAction::Receive),
        _ => (ClientState::Closed, ClientAction::Close),
    }
}

/// A request that was read is answered before the next one is waited for: once it is processed and
/// nothing more has come in, its response is sent in the frame that the request came in.
pub proof fn law_responses_are_sent_in_kind(
    request: Vec<u8>,
    ndjson: bool,
    serving: ClientState,
    process: ClientAction,
    response: Vec<u8>,
    draining: ClientState,
    look: ClientAction,
    next: ClientState,
    action: ClientAction,
)
    requires
        response@.len() > 0,
        client_step(
            ClientState::Idle,
            ClientEvent::Read(TuiSocketEvent::Request(request, ndjson)),
            serving,
            process,
        ),
        client_step(serving, ClientEvent::Processed(response), draining, look),
        client_step(draining, ClientEvent::Nothing, next, action),
    ensures
        next is Idle,
        action matches ClientAction::Send(bytes) && bytes@ == message_bytes(response@, ndjson),
{
}

/// The bytes that answer a request which came in while another one was answered; none where there is
/// nothing to say.
pub fn pending_bytes(response: &[u8], ndjson: bool) -> (bytes: Option<Vec<u8>>)
    ensures
        match bytes {
            Some(b) => response@.len() > 0 && b@ == message_bytes(response@, ndjson),
            None => response@.len() == 0,
        },
{
    if response.len() == 0 {
        None
    } else {
        Some(frame_message(response, ndjson))
    }
}

/// What it means for the bridge that a message was read from the server, or that reading failed.
/// An empty line means nothing.
pub fn server_event(message: Option<Vec<u8>>, ndjson: bool) -> (event: Option<ProxyEvent>)
    ensures
        match (message, event) {
            (None, Some(e)) => e is SocketError,
            (Some(m), Some(e)) => {
                &&& !(ndjson && m@.len() == 0)
                &&& e == ProxyEvent::SocketResponse(m)
            },
            (Some(m), None) => ndjson && m@.len() == 0,
            (None, None) => false,
        },
{
    match message {
        None => Some(ProxyEvent::SocketError),
        Some(m) => if ndjson && m.len() == 0 {
            None
        } else {
            Some(ProxyEvent::SocketResponse(m))
        },
    }
}

/// What happens in the bridge.
#[derive(Debug, PartialEq, Eq)]
pub enum ProxyEvent {
    /// The client has sent a line.
    StdinLine(String),
    /// The client has nothing more to send.
    StdinEof,
    /// The server has sent a response.
    SocketResponse(Vec<u8>),
    /// The connection to the server is lost.
    SocketError,
}

/// What the bridge is to do.
#[derive(Debug, PartialEq, Eq)]
pub enum ProxyAction {
    /// Nothing.
    Ignore,
    /// Send bytes to the server. Where that fails, connect anew, greet, and send them again.
    Forward(Vec<u8>),
    /// Hand bytes to the client.
    Output(Vec<u8>),
    /// Send nothing more to the server, and end once it has nothing more to say.
    CloseInput,
    /// Connect anew and greet. That this fails is no error.
    Reconnect,
}

/// The bridge: whether the client has nothing more to send, and how messages are framed.
#[derive(Debug, Clone, Copy, PartialEq, Eq, Structural)]
pub struct ProxyState {
    pub draining: bool,
    pub ndjson: bool,
}

impl ProxyState {
    /// A bridge that has just been set up.
    pub fn new(ndjson: bool) -> (s: Self)
        ensures
            s == (ProxyState { draining: false, ndjson }),
    {
        ProxyState { draining: false, ndjson }
    }

    /// What is to be done when something happens. Once the client has nothing more to send, only
    /// what the server still says is handed on.
    pub fn handle(&mut self, event: ProxyEvent) -> (action: ProxyAction)
        ensures
            final(self).ndjson == old(self).ndjson,
            final(self).draining == (old(self).draining || event is StdinEof),
            match event {
                ProxyEvent::StdinLine(line) => if old(self).draining {
                    action is Ignore
                } else {
                    action matches ProxyAction::Forward(bytes) && bytes@ == message_bytes(
                        encode_utf8(line@),
                        old(self).ndjson,
                    )
                },
                ProxyEvent::SocketResponse(response) => {
                    action matches ProxyAction::Output(bytes) && bytes@ == response@.push(0x0a)
                },
                ProxyEvent::StdinEof => action is CloseInput,
                ProxyEvent::SocketError => if old(self).draining {
                    action is Ignore
                } else {
                    action is Reconnect
                },
            },
    {
        match event {
            ProxyEvent::StdinLine(line) => {
                if self.draining {
                    return ProxyAction::Ignore;
                }
                ProxyAction::Forward(frame_message(line.as_str().as_bytes(), self.ndjson))
            },
            ProxyEvent::SocketResponse(response) => {
                let mut bytes = response;
                bytes.push(0x0a);
                ProxyAction::Output(bytes)
            },
            ProxyEvent::StdinEof => {
                self.draining = true;
                ProxyAction::CloseInput
            },
            ProxyEvent::SocketError => {
                if self.draining {
                    ProxyAction::Ignore
                } else {
                    ProxyAction::Reconnect
                }
            },
        }
    }
}

/// What to do when a connection cannot be made.
#[derive(Debug, Clone, Copy, PartialEq, Eq, Structural)]
pub enum Retry {
    /// Wait for a number of milliseconds and try again.
    After(u64),
    /// Give up.
    GiveUp,
}

/// The tries at a connection: how many have failed, and how long to wait after the next.
#[derive(Debug, Clone, Copy, PartialEq, Eq, Structural)]
pub struct Backoff {
    pub attempt: u32,
    pub delay_ms: u64,
    pub max_attempts: u32,
}

/// The tries before the first.
pub open spec fn first_try(max_attempts: u32) -> Backoff {
    Backoff { attempt: 0, delay_ms: RECONNECT_BASE_DELAY_MS, max_attempts }
}

impl Backoff {
    /// What to do after one more try has failed.
    pub open spec fn decision(self) -> Retry {
        if self.attempt + 1 < self.max_attempts {
            Retry::After(self.delay_ms)
        } else {
            Retry::GiveUp
        }
    }

    /// The tries after one more has failed: the wait is twice as long, up to a limit.
    pub open spec fn failed_again(self) -> Backoff {
        if self.attempt + 1 < self.max_attempts {
            Backoff {
                attempt: (self.attempt + 1) as u32,
                delay_ms: if self.delay_ms * 2 < RECONNECT_MAX_DELAY_MS {
                    (self.delay_ms * 2) as u64
                } else {
                    RECONNECT_MAX_DELAY_MS
                },
                ..self
            }
        } else {
            self
        }
    }

    /// No try yet, of so many.
    pub fn new(max_attempts: u32) -> (b: Self)
        ensures
            b == first_try(max_attempts),
    {
        Backoff { attempt: 0, delay_ms: RECONNECT_BASE_DELAY_MS, max_attempts }
    }

    /// Whether there is a try at all.
    pub fn may_try(&self) -> (b: bool)
        ensures
            b == (self.attempt < self.max_attempts),
    {
        self.attempt < self.max_attempts
    }

    /// What to do now that a try has failed.
    pub fn failed(&mut self) -> (retry: Retry)
        requires
            old(self).delay_ms <= RECONNECT_MAX_DELAY_MS,
            old(self).attempt < old(self).max_attempts,
        ensures
            retry == old(self).decision(),
            *final(self) == old(self).failed_again(),
            final(self).delay_ms <= RECONNECT_MAX_DELAY_MS,
            final(self).attempt < final(self).max_attempts,
    {
        if self.attempt + 1 >= self.max_attempts {
            return Retry::GiveUp;
        }
        let delay = self.delay_ms;
        self.attempt = self.attempt + 1;
        self.delay_ms = if delay * 2 < RECONNECT_MAX_DELAY_MS {
            delay * 2
        } else {
            RECONNECT_MAX_DELAY_MS
        };
        Retry::After(delay)
    }
}

/// The tries after a number of them have failed.
pub open spec fn after_failures(b: Backoff, n: nat) -> Backoff
    decreases n,
{
    if n == 0 {
        b
    } else {
        after_failures(b, (n - 1) as nat).failed_again()
    }
}

/// Trying comes to an end: after one failure less than tries are allowed, the next is the last, and
/// no wait is longer than the limit.
pub proof fn law_trying_ends(max_attempts: u32, n: nat)
    requires
        n < max_attempts,
    ensures
        after_failures(first_try(max_attempts), n).attempt == n,
        after_failures(first_try(max_attempts), n).max_attempts == max_attempts,
        after_failures(first_try(max_attempts), n).delay_ms <= RECONNECT_MAX_DELAY_MS,
        after_failures(first_try(max_attempts), n).decision() is GiveUp == (n + 1 == max_attempts),
    decreases n,
{
    if n > 0 {
        law_trying_ends(max_attempts, (n - 1) as nat);
    }
}

/// What a call comes to, as the answer of a request.
pub open spec fn proxy_outcome(step: Step, id: Seq<char>, answer: Answer) -> bool {
    match step {
        Step::Done(Ok(result)) => server::responds(
            answer,
            ResponseView { id, answer: Ok(server::call_text(result@)) },
        ),
        Step::Done(Err(e)) => server::responds(
            answer,
            ResponseView { id, answer: Err(rpc::rpc_error_view(e)) },
        ),
        _ => answer matches Answer::Continue { id: i, step: s } && i@ == id && s == step,
    }
}

/// What a call comes to, as the answer of a request.
pub fn call_outcome(step: Step, id: String) -> (answer: Answer)
    ensures
        proxy_outcome(step, id@, answer),
{
    match step {
        Step::Done(Ok(result)) => Answer::Respond(
            JsonRpcResponse::success(id, call_json(result.as_str())),
        ),
        Step::Done(Err(e)) => Answer::Respond(
            JsonRpcResponse::error(id, JsonRpcError::of_call(&e)),
        ),
        step => Answer::Continue { id, step },
    }
}

/// The name of the tool that a request calls; the empty name where it gives none.
pub open spec fn tool_name(request: JsonRpcRequest) -> Seq<char> {
    match json::text_member_of(request.params@, "name"@) {
        Some(name) => name,
        None => Seq::empty(),
    }
}

/// How the call of a tool changes a handler, and what it comes to.
pub open spec fn tool_called<H: ToolHandler>(
    before: H,
    request: JsonRpcRequest,
    moment: Moment,
    after: H,
    answer: Answer,
) -> bool {
    exists|args: Arguments, step: Step|
        #[trigger] server::call_made(
            before,
            tool_name(request),
            request,
            args,
            moment,
            after,
            step,
        ) && proxy_outcome(step, server::id_of(request), answer)
}

/// How a request changes a handler, and what it comes to.
pub open spec fn request_processed<H: ToolHandler>(
    before: H,
    request: JsonRpcRequest,
    server_name: Seq<char>,
    moment: Moment,
    after: H,
    answer: Answer,
) -> bool {
    let id = server::id_of(request);
    let method = request.method@;
    if method == "tools/call"@ {
        tool_called(before, request, moment, after, answer)
    } else {
        &&& after == before
        &&& if method == "initialize"@ {
            server::responds(
                answer,
                ResponseView {
                    id,
                    answer: Ok(server::initialize_text(server_name, "0.1.0"@)),
                },
            )
        } else if method == "initialized"@ || method == "notifications/cancelled"@ {
            answer is Silent
        } else if method == "ping"@ {
            server::responds(
                answer,
                ResponseView { id, answer: Ok(json::object_text(Seq::empty())) },
            )
        } else if method == "tools/list"@ {
            server::responds(
                answer,
                ResponseView { id, answer: Ok(server::tools_text(before.offers())) },
            )
        } else {
            server::responds(
                answer,
                ResponseView { id, answer: Err(rpc::method_not_found_view(method)) },
            )
        }
    }
}

fn call_tool<H: ToolHandler>(
    request: &JsonRpcRequest,
    id: String,
    handler: &mut H,
    moment: Moment,
) -> (answer: Answer)
    requires
        old(handler).wf(),
        moment.wf(),
        id@ == server::id_of(*request),
    ensures
        final(handler).wf(),
        tool_called(*old(handler), *request, moment, *final(handler), answer),
{
    let name = match json::text_member(&request.params, "name") {
        Some(name) => name,
        None => String::new(),
    };
    assert(name@ =~= tool_name(*request));
    let args = read_arguments(&request.params);
    let step = handler.handle_tool_call(name.as_str(), &args, moment);
    let ghost done = step;
    let answer = call_outcome(step, id);
    assert(server::call_made(
        *old(handler),
        tool_name(*request),
        *request,
        args,
        moment,
        *handler,
        done,
    ));
    answer
}

/// Processes a request that came over a socket; none stands for what is no request at all.
pub fn process_jsonrpc_request<H: ToolHandler>(
    request: Option<&JsonRpcRequest>,
    handler: &mut H,
    server_name: &str,
    moment: Moment,
) -> (answer: Answer)
    requires
        old(handler).wf(),
        moment.wf(),
    ensures
        final(handler).wf(),
        match request {
            None => *final(handler) == *old(handler) && server::responds(
                answer,
                ResponseView { id: "null"@, answer: Err(rpc::parse_error_view()) },
            ),
            Some(r) => request_processed(
                *old(handler),
                *r,
                server_name@,
                moment,
                *final(handler),
                answer,
            ),
        },
{
    let request = match request {
        None => {
            return Answer::Respond(
                JsonRpcResponse::error("null".to_string(), JsonRpcError::parse_error()),
            );
        },
        Some(r) => r,
    };
    let id = match &request.id {
        Some(id) => id.clone(),
        None => "null".to_string(),
    };
    let method = to_chars(request.method.as_str());
    if chars_equal(&method, "tools/call") {
        call_tool(request, id, handler, moment)
    } else if chars_equal(&method, "initialize") {
        Answer::Respond(JsonRpcResponse::success(id, initialize_json(server_name, "0.1.0")))
    } else if chars_equal(&method, "initialized") || chars_equal(
        &method,
        "notifications/cancelled",
    ) {
        Answer::Silent
    } else if chars_equal(&method, "ping") {
        let nothing: Vec<Member> = Vec::new();
        assert(json::member_views(nothing@) =~= Seq::empty());
        Answer::Respond(JsonRpcResponse::success(id, object(&nothing)))
    } else if chars_equal(&method, "tools/list") {
        let offered = handler.tool_definitions();
        Answer::Respond(JsonRpcResponse::success(id, tools_json(&offered)))
    } else {
        Answer::Respond(
            JsonRpcResponse::error(id, JsonRpcError::method_not_found(request.method.as_str())),
        )
    }
}

/// Goes on with a call that had to wait.
pub fn resume_call<H: ToolHandler>(id: String, task: Pending, handler: &mut H, moment: Moment) -> (
    answer: Answer)
    requires
        old(handler).wf(),
        moment.wf(),
    ensures
        final(handler).wf(),
        exists|step: Step|
            #[trigger] H::resumes(*old(handler), task, moment, *final(handler), step)
                && proxy_outcome(step, id@, answer),
{
    let step = handler.resume(task, moment);
    let ghost done = step;
    let answer = call_outcome(step, id);
    assert(H::resumes(*old(handler), task, moment, *handler, done));
    answer
}

/// The first wait is a tenth of a second, each further one is twice as long as the one before, and
/// none is longer than two seconds. Waiting never goes past the number of tries that are allowed.
pub proof fn law_waits_double(max_attempts: u32, n: nat)
    requires
        n + 1 < max_attempts,
    ensures
        ({
            let now = after_failures(first_try(max_attempts), n).delay_ms;
            let next = after_failures(first_try(max_attempts), n + 1).delay_ms;
            &&& n == 0 ==> now == 100
            &&& next == (if now * 2 > 2_000 {
                2_000
            } else {
                now * 2
            })
            &&& after_failures(first_try(max_attempts), n).decision() == Retry::After(now)
        }),
{
    law_trying_ends(max_attempts, n);
}

/// A request that comes to an idle connection is answered: it is processed, what comes of it is
/// kept while other requests are looked for, and it is sent when there are none, in the kind of frame
/// that the request came in. Nothing is sent for a request without a response.
pub proof fn law_requests_get_their_responses(
    request: Vec<u8>,
    ndjson: bool,
    response: Vec<u8>,
    a: ClientState,
    b: ClientState,
    c: ClientState,
    first: ClientAction,
    second: ClientAction,
    third: ClientAction,
)
    requires
        client_step(
            ClientState::Idle,
            ClientEvent::Read(TuiSocketEvent::Request(request, ndjson)),
            a,
            first,
        ),
        client_step(a, ClientEvent::Processed(response), b, second),
        client_step(b, ClientEvent::Nothing, c, third),
    ensures
        first matches ClientAction::Process { request: r, .. } && r@ == request@,
        second is TryReceive,
        c is Idle,
        response@.len() == 0 ==> third is Receive,
        response@.len() > 0 && ndjson ==> (third matches ClientAction::Send(bytes) && bytes@
            == response@.push(0x0a)),
        response@.len() > 0 && !ndjson ==> (third matches ClientAction::Send(bytes) && bytes@.len()
            == response@.len() + 4 && bytes@.skip(4) == response@),
{
    if response@.len() > 0 && !ndjson {
        let bytes = third->Send_0@;
        assert(bytes.skip(4) =~= response@);
    }
}

} // verus!
