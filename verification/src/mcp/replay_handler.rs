//! The tools that look at what was logged. The log itself is read by the caller.
use crate::error::joined;
use crate::event::{LogEvent, SessionInfo, SessionInfoView};
use crate::json;
use crate::json::{entry, list, object, Member};
use crate::mcp::arguments::Arguments;
use crate::mcp::error::{missing, McpError};
use crate::mcp::handler;
use crate::mcp::handler::{fail, no_tool, reply, CancelToken, Pending, Query, Step, ToolHandler};
use crate::mcp::tools;
use crate::mcp::tools::{replay_tool_definitions, ToolDefinition, ToolView};
use crate::replay;
use crate::replay::{ReplayView, SessionReplay};
use crate::text;
use crate::text::{chars_equal, to_chars};
use crate::time::Moment;
use vstd::prelude::*;
use vstd::string::*;

verus! {

/// Handles the calls of the tools that look at what was logged.
pub struct ReplayToolHandler {
    db_path: String,
}

impl View for ReplayToolHandler {
    type V = Seq<char>;

    closed spec fn view(&self) -> Seq<char> {
        self.db_path@
    }
}

/// How a call that looks at one session is answered: the log is asked for it.
pub open spec fn session_query_answer(args: Arguments, screen: bool, step: Step) -> bool {
    match args.session_id {
        None => handler::lacks(step, "session_id"@),
        Some(id) => if screen {
            step matches Step::Read(Query::Screen { session_id, event_index, timestamp_ms })
                && session_id@ == id@ && event_index == args.event_index && timestamp_ms
                == args.timestamp_ms
        } else {
            step matches Step::Read(Query::Timeline { session_id }) && session_id@ == id@
        },
    }
}

/// How a call of a tool is answered.
pub open spec fn replay_answer(
    before: Seq<char>,
    name: Seq<char>,
    args: Arguments,
    moment: Moment,
    after: Seq<char>,
    step: Step,
) -> bool {
    if name == "tttt_replay_list_sessions"@ {
        after == before && step matches Step::Read(Query::Sessions)
    } else if name == "tttt_replay_get_screen"@ {
        after == before && session_query_answer(args, true, step)
    } else if name == "tttt_replay_get_timeline"@ {
        after == before && session_query_answer(args, false, step)
    } else {
        after == before && handler::lacks_tool(step, name)
    }
}

/// An optional number, as it is written.
pub open spec fn optional_number_text(n: Option<u64>) -> Seq<char> {
    match n {
        Some(n) => text::decimal(n as nat),
        None => "null"@,
    }
}

/// What is recorded about a session, as it is written.
pub open spec fn info_text(info: SessionInfoView) -> Seq<char> {
    json::object_text(
        seq![
            ("cols"@, text::decimal(info.cols as nat)),
            ("command"@, json::string_text(info.command)),
            ("ended_at_ms"@, optional_number_text(info.ended_at_ms)),
            ("name"@, json::optional_text(info.name)),
            ("rows"@, text::decimal(info.rows as nat)),
            ("session_id"@, json::string_text(info.session_id)),
            ("started_at_ms"@, text::decimal(info.started_at_ms as nat)),
        ],
    )
}

/// The views of what is recorded about sessions.
pub open spec fn info_views(v: Seq<SessionInfo>) -> Seq<SessionInfoView> {
    v.map_values(|i: SessionInfo| i@)
}

/// What is recorded about sessions, as it is written.
pub open spec fn sessions_text(infos: Seq<SessionInfoView>) -> Seq<char> {
    json::object_text(
        seq![
            ("sessions"@, json::list_text(infos.map_values(|i: SessionInfoView| info_text(i)))),
        ],
    )
}

/// A replay before its first event.
pub open spec fn fresh_replay(events: Seq<LogEvent>, cols: u16, rows: u16) -> ReplayView {
    replay::fresh_replay(replay::event_views(events), cols, rows)
}

/// A replay at the event that a call asks for, else at the time that it asks for, else at the end.
pub open spec fn sought(r: ReplayView, event_index: Option<u64>, timestamp_ms: Option<u64>) -> ReplayView {
    match (event_index, timestamp_ms) {
        (Some(idx), _) => r.at_index(idx as usize as int),
        (None, Some(ts)) => r.at_time(ts),
        (None, None) => r.at_index(r.events.len() as int),
    }
}

/// The time of the last event that a replay shows, and zero before the first.
pub open spec fn shown_time(r: ReplayView) -> u64 {
    if r.index == 0 {
        0
    } else {
        r.events[r.index - 1].timestamp_ms
    }
}

/// What a replay shows, as it is written.
pub open spec fn replay_text(r: ReplayView) -> Seq<char> {
    json::object_text(
        seq![
            (
                "cursor"@,
                json::list_text(
                    seq![
                        text::decimal(r.parser.screen.row as nat),
                        text::decimal(r.parser.screen.col as nat),
                    ],
                ),
            ),
            ("event_index"@, text::decimal(r.index as nat)),
            ("screen"@, json::string_text(r.parser.screen.text())),
            ("timestamp_ms"@, text::decimal(shown_time(r) as nat)),
        ],
    )
}

/// When an event happened and in which direction, as it is written.
pub open spec fn event_text(events: Seq<LogEvent>, i: int) -> Seq<char> {
    json::object_text(
        seq![
            ("direction"@, json::string_text(events[i].direction.spec_name())),
            ("index"@, text::decimal(i as nat)),
            ("timestamp_ms"@, text::decimal(events[i].timestamp_ms as nat)),
        ],
    )
}

/// When events happened and in which directions, as it is written.
pub open spec fn timeline_text(events: Seq<LogEvent>) -> Seq<char> {
    json::object_text(
        seq![
            (
                "timeline"@,
                json::list_text(Seq::new(events.len(), |i: int| event_text(events, i))),
            ),
        ],
    )
}

fn optional_number_json(n: Option<u64>) -> (s: String)
    ensures
        s@ == optional_number_text(n),
{
    match n {
        Some(n) => json::number(n),
        None => "null".to_string(),
    }
}

fn info_json(info: &SessionInfo) -> (s: String)
    ensures
        s@ == info_text(info@),
{
    let members: Vec<Member> = vec![
        entry("cols", json::number(info.cols as u64)),
        entry("command", json::string(info.command.as_str())),
        entry("ended_at_ms", optional_number_json(info.ended_at_ms)),
        entry("name", json::optional_string(&info.name)),
        entry("rows", json::number(info.rows as u64)),
        entry("session_id", json::string(info.session_id.as_str())),
        entry("started_at_ms", json::number(info.started_at_ms)),
    ];
    assert(json::member_views(members@) =~= seq![
        ("cols"@, text::decimal(info@.cols as nat)),
        ("command"@, json::string_text(info@.command)),
        ("ended_at_ms"@, optional_number_text(info@.ended_at_ms)),
        ("name"@, json::optional_text(info@.name)),
        ("rows"@, text::decimal(info@.rows as nat)),
        ("session_id"@, json::string_text(info@.session_id)),
        ("started_at_ms"@, text::decimal(info@.started_at_ms as nat)),
    ]);
    object(&members)
}

impl ReplayToolHandler {
    /// Every state is valid.
    pub open spec fn valid(&self) -> bool {
        true
    }

    /// A handler for the log in a file.
    pub fn new(db_path: String) -> (h: Self)
        ensures
            h@ == db_path@,
    {
        ReplayToolHandler { db_path }
    }

    /// The file that the log is in.
    pub fn db_path(&self) -> (path: &String)
        ensures
            path@ == self@,
    {
        &self.db_path
    }

    fn ask(&self, args: &Arguments, screen: bool) -> (step: Step)
        ensures
            session_query_answer(*args, screen, step),
    {
        match &args.session_id {
            None => fail(missing("session_id")),
            Some(id) => if screen {
                Step::Read(
                    Query::Screen {
                        session_id: id.clone(),
                        event_index: args.event_index,
                        timestamp_ms: args.timestamp_ms,
                    },
                )
            } else {
                Step::Read(Query::Timeline { session_id: id.clone() })
            },
        }
    }

    /// The answer of a call that could not read the log.
    pub fn log_failed(&self, message: String) -> (step: Step)
        ensures
            handler::gave_up(step, message@),
    {
        fail(McpError::Protocol(message))
    }

    /// The answer of the call that lists the sessions, given what is recorded about them.
    pub fn sessions_read(&self, sessions: &[SessionInfo]) -> (step: Step)
        ensures
            handler::replied(step, sessions_text(info_views(sessions@))),
    {
        let mut items: Vec<String> = Vec::new();
        let mut i: usize = 0;
        while i < sessions.len()
            invariant
                i <= sessions.len(),
                items.len() == i,
                forall|k: int| 0 <= k < i ==> (#[trigger] items@[k])@ == info_text(sessions@[k]@),
            decreases sessions.len() - i,
        {
            items.push(info_json(&sessions[i]));
            i += 1;
        }
        let ghost texts = info_views(sessions@).map_values(|i: SessionInfoView| info_text(i));
        assert(json::views(items@) =~= texts);
        let members: Vec<Member> = vec![entry("sessions", list(&items))];
        assert(json::member_views(members@) =~= seq![("sessions"@, json::list_text(texts))]);
        reply(object(&members))
    }

    /// The answer of the call that shows a screen, given what is recorded about the session and
    /// its events.
    pub fn screen_read(
        &self,
        session_id: &str,
        event_index: Option<u64>,
        timestamp_ms: Option<u64>,
        info: Option<SessionInfo>,
        events: Vec<LogEvent>,
    ) -> (step: Step)
        ensures
            match info {
                None => handler::gave_up(step, "session '"@ + session_id@ + "' not found"@),
                Some(info) => handler::replied(
                    step,
                    replay_text(
                        sought(
                            fresh_replay(events@, info.cols, info.rows),
                            event_index,
                            timestamp_ms,
                        ),
                    ),
                ),
            },
    {
        let info = match info {
            None => {
                let mut message = joined("session '", session_id);
                message.append("' not found");
                return fail(McpError::Protocol(message));
            },
            Some(info) => info,
        };
        let mut r = SessionReplay::new(events, info.cols, info.rows);
        match event_index {
            Some(idx) => {
                let target = #[verifier::truncate]
                (idx as usize);
                r.seek_to_index(target);
            },
            None => match timestamp_ms {
                Some(ts) => {
                    r.seek_to_timestamp(ts);
                },
                None => {
                    let end = r.event_count();
                    r.seek_to_index(end);
                },
            },
        }
        let screen = r.screen_contents();
        let (row, col) = r.cursor_position();
        let cursor: Vec<String> = vec![json::number(row as u64), json::number(col as u64)];
        assert(json::views(cursor@) =~= seq![text::decimal(row as nat), text::decimal(col as nat)]);
        let members: Vec<Member> = vec![
            entry("cursor", list(&cursor)),
            entry("event_index", json::number(r.current_index() as u64)),
            entry("screen", json::string(screen.as_str())),
            entry("timestamp_ms", json::number(r.current_timestamp())),
        ];
        assert(json::member_views(members@) =~= seq![
            (
                "cursor"@,
                json::list_text(seq![text::decimal(row as nat), text::decimal(col as nat)]),
            ),
            ("event_index"@, text::decimal(r@.index as nat)),
            ("screen"@, json::string_text(r@.parser.screen.text())),
            ("timestamp_ms"@, text::decimal(shown_time(r@) as nat)),
        ]);
        reply(object(&members))
    }

    /// The answer of the call that asks when things happened, given the events of the session.
    pub fn timeline_read(&self, events: Vec<LogEvent>) -> (step: Step)
        ensures
            handler::replied(step, timeline_text(events@)),
    {
        let ghost all = events@;
        let r = SessionReplay::new(events, 80, 24);
        let timeline = r.timeline();
        let mut items: Vec<String> = Vec::new();
        let mut i: usize = 0;
        while i < timeline.len()
            invariant
                r@.events == replay::event_views(all),
                timeline@.len() == r@.events.len(),
                forall|k: int|
                    0 <= k < timeline@.len() ==> #[trigger] timeline@[k] == (
                        k as usize,
                        r@.events[k].timestamp_ms,
                        r@.events[k].direction,
                    ),
                i <= timeline.len(),
                items.len() == i,
                forall|k: int| 0 <= k < i ==> (#[trigger] items@[k])@ == event_text(all, k),
            decreases timeline.len() - i,
        {
            let (index, timestamp_ms, direction) = timeline[i];
            assert(timeline@[i as int] == (index, timestamp_ms, direction));
            assert(r@.events[i as int] == all[i as int]@);
            let members: Vec<Member> = vec![
                entry("direction", json::string(direction.as_str())),
                entry("index", json::number(index as u64)),
                entry("timestamp_ms", json::number(timestamp_ms)),
            ];
            assert(json::member_views(members@) =~= seq![
                ("direction"@, json::string_text(all[i as int].direction.spec_name())),
                ("index"@, text::decimal(i as nat)),
                ("timestamp_ms"@, text::decimal(all[i as int].timestamp_ms as nat)),
            ]);
            items.push(object(&members));
            i += 1;
        }
        let ghost texts = Seq::new(all.len(), |i: int| event_text(all, i));
        assert(json::views(items@) =~= texts);
        let members: Vec<Member> = vec![entry("timeline", list(&items))];
        assert(json::member_views(members@) =~= seq![("timeline"@, json::list_text(texts))]);
        reply(object(&members))
    }
}

impl ToolHandler for ReplayToolHandler {
    open spec fn wf(&self) -> bool {
        self.valid()
    }

    open spec fn answers(
        before: Self,
        name: Seq<char>,
        args: Arguments,
        moment: Moment,
        after: Self,
        step: Step,
    ) -> bool {
        replay_answer(before@, name, args, moment, after@, step)
    }

    open spec fn resumes(
        before: Self,
        task: Pending,
        moment: Moment,
        after: Self,
        step: Step,
    ) -> bool {
        after == before && step is Unsupported
    }

    open spec fn told(before: Self, token: CancelToken, after: Self) -> bool {
        after == before
    }

    open spec fn offers(&self) -> Seq<ToolView> {
        tools::replay_tools()
    }

    fn handle_tool_call(&mut self, name: &str, args: &Arguments, moment: Moment) -> (step: Step) {
        let called = to_chars(name);
        if chars_equal(&called, "tttt_replay_list_sessions") {
            Step::Read(Query::Sessions)
        } else if chars_equal(&called, "tttt_replay_get_screen") {
            self.ask(args, true)
        } else if chars_equal(&called, "tttt_replay_get_timeline") {
            self.ask(args, false)
        } else {
            no_tool(name)
        }
    }

    fn resume(&mut self, task: Pending, moment: Moment) -> (step: Step) {
        Step::Unsupported
    }

    fn set_cancel_token(&mut self, token: CancelToken) {
    }

    fn tool_definitions(&self) -> (tools: Vec<ToolDefinition>) {
        replay_tool_definitions()
    }
}

/// A handler knows exactly the tools that it offers; a call of any other changes nothing.
pub proof fn law_replay_tools_are_those_offered(
    before: Seq<char>,
    name: Seq<char>,
    args: Arguments,
    moment: Moment,
    after: Seq<char>,
    step: Step,
)
    requires
        replay_answer(before, name, args, moment, after, step),
    ensures
        handler::lacks_tool(step, name) == !tools::has_tool(tools::replay_tools(), name),
        handler::lacks_tool(step, name) ==> after == before,
{
    let all = tools::replay_tools();
    assert(all[0].name == "tttt_replay_list_sessions"@);
    assert(all[1].name == "tttt_replay_get_screen"@);
    assert(all[2].name == "tttt_replay_get_timeline"@);
}

} // verus!
