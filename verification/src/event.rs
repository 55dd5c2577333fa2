//! Terminal input and output as it is logged.
use crate::base64;
use crate::json;
use crate::json::{entry, object, Member};
use crate::text;
use crate::text::push_bytes;
use vstd::prelude::*;
use vstd::string::*;

verus! {

/// Direction of terminal traffic.
#[derive(Debug, Clone, Copy, PartialEq, Eq, Structural)]
pub enum Direction {
    Input,
    Output,
    Meta,
}

impl Direction {
    /// The name of the direction.
    pub open spec fn spec_name(self) -> Seq<char> {
        match self {
            Direction::Input => "input"@,
            Direction::Output => "output"@,
            Direction::Meta => "meta"@,
        }
    }

    /// The name of the direction.
    pub fn as_str(&self) -> (s: &'static str)
        ensures
            s@ == self.spec_name(),
    {
        match self {
            Direction::Input => "input",
            Direction::Output => "output",
            Direction::Meta => "meta",
        }
    }

    /// The direction with a name; whatever is neither input nor output is about the session.
    pub fn from_name(name: &str) -> (d: Direction)
        ensures
            d == direction_named(name@),
    {
        let chars = text::to_chars(name);
        if text::chars_equal(&chars, "input") {
            Direction::Input
        } else if text::chars_equal(&chars, "output") {
            Direction::Output
        } else {
            Direction::Meta
        }
    }
}

/// The direction with a name.
pub open spec fn direction_named(name: Seq<char>) -> Direction {
    if name == "input"@ {
        Direction::Input
    } else if name == "output"@ {
        Direction::Output
    } else {
        Direction::Meta
    }
}

/// A direction is found again by its name.
pub proof fn law_direction_names_are_read_back(d: Direction)
    ensures
        direction_named(d.spec_name()) == d,
{
    reveal_strlit("input");
    reveal_strlit("output");
    reveal_strlit("meta");
    assert("input"@.len() == 5);
    assert("output"@.len() == 6);
    assert("meta"@.len() == 4);
}

/// One piece of terminal traffic.
#[derive(Debug)]
pub struct LogEvent {
    pub timestamp_ms: u64,
    pub session_id: String,
    pub direction: Direction,
    pub data: Vec<u8>,
}

/// A piece of terminal traffic as a mathematical value.
pub struct LogEventView {
    pub timestamp_ms: u64,
    pub session_id: Seq<char>,
    pub direction: Direction,
    pub data: Seq<u8>,
}

impl View for LogEvent {
    type V = LogEventView;

    open spec fn view(&self) -> LogEventView {
        LogEventView {
            timestamp_ms: self.timestamp_ms,
            session_id: self.session_id@,
            direction: self.direction,
            data: self.data@,
        }
    }
}

impl Clone for LogEvent {
    fn clone(&self) -> (e: Self)
        ensures
            e@ == self@,
    {
        let mut data: Vec<u8> = Vec::new();
        push_bytes(&mut data, &self.data);
        assert(data@ =~= self.data@);
        LogEvent {
            timestamp_ms: self.timestamp_ms,
            session_id: self.session_id.clone(),
            direction: self.direction,
            data,
        }
    }
}

impl LogEvent {
    /// An event that happens now; the time is passed in, in milliseconds.
    pub fn new(now_ms: u64, session_id: String, direction: Direction, data: Vec<u8>) -> (e: Self)
        ensures
            e@ == (LogEventView {
                timestamp_ms: now_ms,
                session_id: session_id@,
                direction,
                data: data@,
            }),
    {
        LogEvent::with_timestamp(now_ms, session_id, direction, data)
    }

    /// An event at a given time.
    pub fn with_timestamp(
        timestamp_ms: u64,
        session_id: String,
        direction: Direction,
        data: Vec<u8>,
    ) -> (e: Self)
        ensures
            e@ == (LogEventView {
                timestamp_ms,
                session_id: session_id@,
                direction,
                data: data@,
            }),
    {
        LogEvent { timestamp_ms, session_id, direction, data }
    }

    /// The event as it is written to a log: one line of JSON, with the data in base64.
    pub fn to_json(&self) -> (s: String)
        ensures
            s@ == event_text(self@),
    {
        let data = base64::encode(&self.data);
        let members: Vec<Member> = vec![
            entry("timestamp_ms", json::number(self.timestamp_ms)),
            entry("session_id", json::string(self.session_id.as_str())),
            entry("direction", json::string(self.direction.as_str())),
            entry("data", json::string(data.as_str())),
        ];
        assert(json::member_views(members@) =~= seq![
            ("timestamp_ms"@, text::decimal(self@.timestamp_ms as nat)),
            ("session_id"@, json::string_text(self@.session_id)),
            ("direction"@, json::string_text(self@.direction.spec_name())),
            ("data"@, json::string_text(data@)),
        ]);
        object(&members)
    }

    /// The name of the file that the events of a session are written to.
    pub fn log_file(session_id: &str) -> (name: String)
        ensures
            name@ == session_id@ + ".jsonl"@,
    {
        let mut name = session_id.to_string();
        name.append(".jsonl");
        name
    }
}

/// An event as it is written to a log.
pub open spec fn event_text(e: LogEventView) -> Seq<char> {
    json::object_text(
        seq![
            ("timestamp_ms"@, text::decimal(e.timestamp_ms as nat)),
            ("session_id"@, json::string_text(e.session_id)),
            ("direction"@, json::string_text(e.direction.spec_name())),
            ("data"@, json::string_text(base64::chars_of(base64::encoded(e.data)))),
        ],
    )
}

/// What is recorded about a session.
#[derive(Debug)]
pub struct SessionInfo {
    pub session_id: String,
    pub command: String,
    pub cols: u16,
    pub rows: u16,
    pub started_at_ms: u64,
    pub ended_at_ms: Option<u64>,
    pub name: Option<String>,
}

/// What is recorded about a session, as a mathematical value.
pub struct SessionInfoView {
    pub session_id: Seq<char>,
    pub command: Seq<char>,
    pub cols: u16,
    pub rows: u16,
    pub started_at_ms: u64,
    pub ended_at_ms: Option<u64>,
    pub name: Option<Seq<char>>,
}

impl View for SessionInfo {
    type V = SessionInfoView;

    open spec fn view(&self) -> SessionInfoView {
        SessionInfoView {
            session_id: self.session_id@,
            command: self.command@,
            cols: self.cols,
            rows: self.rows,
            started_at_ms: self.started_at_ms,
            ended_at_ms: self.ended_at_ms,
            name: text::optional_view(self.name),
        }
    }
}

impl SessionInfo {
    /// What can be said of a session that has events but was never recorded: when its first and
    /// its last event happened. None for a session without events.
    pub fn inferred(session_id: &str, span: Option<(u64, u64)>) -> (info: Option<SessionInfo>)
        ensures
            match info {
                Some(i) => span matches Some((first, last)) && i@ == (SessionInfoView {
                    session_id: session_id@,
                    command: "unknown"@,
                    cols: 80,
                    rows: 24,
                    started_at_ms: first,
                    ended_at_ms: Some(last),
                    name: None,
                }),
                None => span is None,
            },
    {
        match span {
            Some((first, last)) => Some(
                SessionInfo {
                    session_id: session_id.to_string(),
                    command: "unknown".to_string(),
                    cols: 80,
                    rows: 24,
                    started_at_ms: first,
                    ended_at_ms: Some(last),
                    name: None,
                },
            ),
            None => None,
        }
    }
}

} // verus!
