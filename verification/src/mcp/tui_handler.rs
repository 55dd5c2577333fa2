//! The tools that control what is shown.
use crate::backend::PtyBackend;
use crate::error::joined;
use crate::json;
use crate::json::{entry, list, object, Member};
use crate::manager;
use crate::manager::{ManagerView, SessionManager};
use crate::mcp::arguments::Arguments;
use crate::mcp::error::{missing, McpError};
use crate::mcp::handler;
use crate::mcp::handler::{fail, low16, no_tool, reply, CancelToken, Pending, Step, ToolHandler};
use crate::mcp::protocol;
use crate::mcp::protocol::signed;
use crate::mcp::pty_handler;
use crate::mcp::tools;
use crate::mcp::tools::{tui_tool_definitions, ToolDefinition, ToolView};
use crate::session::{MetadataView, SessionMetadata, SessionStatus};
use crate::text;
use crate::text::{chars_equal, to_chars};
use crate::time::Moment;
use vstd::prelude::*;
use vstd::string::*;

verus! {

/// A rectangle that is highlighted on a pane.
#[derive(Debug)]
pub struct TuiHighlight {
    pub id: String,
    pub x: u16,
    pub y: u16,
    pub width: u16,
    pub height: u16,
    pub color: String,
}

/// A rectangle, as a mathematical value.
pub struct HighlightView {
    pub id: Seq<char>,
    pub x: u16,
    pub y: u16,
    pub width: u16,
    pub height: u16,
    pub color: Seq<char>,
}

impl View for TuiHighlight {
    type V = HighlightView;

    open spec fn view(&self) -> HighlightView {
        HighlightView {
            id: self.id@,
            x: self.x,
            y: self.y,
            width: self.width,
            height: self.height,
            color: self.color@,
        }
    }
}

/// A rectangle on the pane of a session.
#[derive(Debug)]
pub struct PaneHighlight {
    pub session_id: String,
    pub highlight: TuiHighlight,
}

/// A rectangle on the pane of a session, as a mathematical value.
pub struct PaneHighlightView {
    pub session_id: Seq<char>,
    pub highlight: HighlightView,
}

impl View for PaneHighlight {
    type V = PaneHighlightView;

    open spec fn view(&self) -> PaneHighlightView {
        PaneHighlightView { session_id: self.session_id@, highlight: self.highlight@ }
    }
}

/// The views of a list of rectangles.
pub open spec fn highlight_views(v: Seq<PaneHighlight>) -> Seq<PaneHighlightView> {
    v.map_values(|h: PaneHighlight| h@)
}

/// What the tools have asked to be shown, for the loop that draws.
#[derive(Debug)]
pub struct TuiState {
    /// The session to switch to, until that is done.
    pub pending_switch: Option<String>,
    /// All rectangles, the oldest first.
    pub highlights: Vec<PaneHighlight>,
    /// Whether something has changed since the last drawing.
    pub dirty: bool,
}

/// What the tools have asked to be shown, as a mathematical value.
pub struct TuiStateView {
    pub pending_switch: Option<Seq<char>>,
    pub highlights: Seq<PaneHighlightView>,
    pub dirty: bool,
}

impl View for TuiState {
    type V = TuiStateView;

    open spec fn view(&self) -> TuiStateView {
        TuiStateView {
            pending_switch: text::optional_view(self.pending_switch),
            highlights: highlight_views(self.highlights@),
            dirty: self.dirty,
        }
    }
}

/// The place of a rectangle on the pane of a session.
pub open spec fn place_of(highlights: Seq<PaneHighlightView>, session: Seq<char>, id: Seq<char>) -> Option<
    int,
> {
    text::first_index(
        highlights,
        |h: PaneHighlightView| h.session_id == session && h.highlight.id == id,
    )
}

impl TuiStateView {
    /// No two rectangles on a pane have the same identifier.
    pub open spec fn wf(self) -> bool {
        forall|i: int, j: int|
            0 <= i < j < self.highlights.len() ==> (#[trigger] self.highlights[i]).session_id != (
            #[trigger] self.highlights[j]).session_id || self.highlights[i].highlight.id
                != self.highlights[j].highlight.id
    }

    /// The state with a rectangle set: in the place of the one with its identifier, else as the
    /// last.
    pub open spec fn with_highlight(self, h: PaneHighlightView) -> TuiStateView {
        TuiStateView {
            highlights: match place_of(self.highlights, h.session_id, h.highlight.id) {
                Some(i) => self.highlights.update(i, h),
                None => self.highlights.push(h),
            },
            dirty: true,
            ..self
        }
    }

    /// The state without a rectangle.
    pub open spec fn without_highlight(self, session: Seq<char>, id: Seq<char>) -> TuiStateView {
        TuiStateView {
            highlights: match place_of(self.highlights, session, id) {
                Some(i) => self.highlights.remove(i),
                None => self.highlights,
            },
            dirty: true,
            ..self
        }
    }
}

/// The state of a handler.
pub struct TuiView<B> {
    pub state: TuiStateView,
    pub sessions: ManagerView<B>,
    pub cols: u16,
    pub rows: u16,
}

/// Handles the calls of the tools that control what is shown.
pub struct TuiToolHandler<B: PtyBackend> {
    tui_state: TuiState,
    sessions: SessionManager<B>,
    screen_cols: u16,
    screen_rows: u16,
}

impl<B: PtyBackend> View for TuiToolHandler<B> {
    type V = TuiView<B>;

    closed spec fn view(&self) -> TuiView<B> {
        TuiView {
            state: self.tui_state@,
            sessions: self.sessions@,
            cols: self.screen_cols,
            rows: self.screen_rows,
        }
    }
}

/// A call failed for want of a session.
pub open spec fn knows_no_session(step: Step, id: Seq<char>) -> bool {
    handler::refused(step, "session '"@ + id + "' not found"@)
}

/// How the call that switches to a session is answered.
pub open spec fn switch_answer<B: PtyBackend>(
    before: TuiView<B>,
    args: Arguments,
    after: TuiView<B>,
    step: Step,
) -> bool {
    match args.session_id {
        None => after == before && handler::lacks(step, "session_id"@),
        Some(id) => match before.sessions.place(id@) {
            None => after == before && knows_no_session(step, id@),
            Some(i) => {
                let key = before.sessions.sessions[i].key;
                &&& after == (TuiView {
                    state: TuiStateView {
                        pending_switch: Some(key),
                        dirty: true,
                        ..before.state
                    },
                    ..before
                })
                &&& handler::replied(
                    step,
                    json::object_text(
                        seq![
                            ("status"@, json::string_text("ok"@)),
                            ("switched_to"@, json::string_text(key)),
                        ],
                    ),
                )
            },
        },
    }
}

/// What is known about a session, as it is written.
pub open spec fn session_text(m: MetadataView) -> Seq<char> {
    json::object_text(
        seq![
            ("cols"@, text::decimal(m.cols as nat)),
            ("command"@, json::string_text(m.command)),
            ("id"@, json::string_text(m.id)),
            ("name"@, json::optional_text(m.name)),
            ("rows"@, text::decimal(m.rows as nat)),
            ("status"@, json::string_text(pty_handler::status_words(m.status))),
        ],
    )
}

/// How the call that asks what is shown is answered.
pub open spec fn get_info_answer<B: PtyBackend>(
    before: TuiView<B>,
    after: TuiView<B>,
    step: Step,
) -> bool {
    after == before && handler::replied(
        step,
        json::object_text(
            seq![
                ("highlight_count"@, text::decimal(before.state.highlights.len())),
                ("screen_cols"@, text::decimal(before.cols as nat)),
                ("screen_rows"@, text::decimal(before.rows as nat)),
                (
                    "sessions"@,
                    json::list_text(
                        before.sessions.listing().map_values(|m: MetadataView| session_text(m)),
                    ),
                ),
            ],
        ),
    )
}

/// An answer that says what was done with a rectangle.
pub open spec fn action_text(action: Seq<char>, id: Seq<char>) -> Seq<char> {
    json::object_text(
        seq![
            ("action"@, json::string_text(action)),
            ("id"@, json::string_text(id)),
            ("status"@, json::string_text("ok"@)),
        ],
    )
}

/// A number in sixteen bits, with a default.
pub open spec fn number_or(given: Option<u64>, usual: u16) -> u16 {
    match given {
        Some(n) => handler::low_bits(n),
        None => usual,
    }
}

/// How the call that sets or removes a rectangle is answered: an empty colour removes it.
pub open spec fn highlight_answer<B: PtyBackend>(
    before: TuiView<B>,
    args: Arguments,
    after: TuiView<B>,
    step: Step,
) -> bool {
    match args.session_id {
        None => after == before && handler::lacks(step, "session_id"@),
        Some(session) => match before.sessions.place(session@) {
            None => after == before && knows_no_session(step, session@),
            Some(i) => if args.id is None {
                after == before && handler::lacks(step, "id"@)
            } else if args.color is None {
                after == before && handler::lacks(step, "color"@)
            } else {
                let key = before.sessions.sessions[i].key;
                let id = args.id->0@;
                let color = args.color->0@;
                if color.len() == 0 {
                    &&& after == (TuiView {
                        state: before.state.without_highlight(key, id),
                        ..before
                    })
                    &&& handler::replied(step, action_text("removed"@, id))
                } else {
                    &&& after == (TuiView {
                        state: before.state.with_highlight(
                            PaneHighlightView {
                                session_id: key,
                                highlight: HighlightView {
                                    id,
                                    x: number_or(args.x, 0),
                                    y: number_or(args.y, 0),
                                    width: number_or(args.width, 1),
                                    height: number_or(args.height, 1),
                                    color,
                                },
                            },
                        ),
                        ..before
                    })
                    &&& handler::replied(step, action_text("set"@, id))
                }
            },
        },
    }
}

/// How a call of a tool is answered.
pub open spec fn tui_answer<B: PtyBackend>(
    before: TuiView<B>,
    name: Seq<char>,
    args: Arguments,
    moment: Moment,
    after: TuiView<B>,
    step: Step,
) -> bool {
    if name == "tttt_tui_switch"@ {
        switch_answer(before, args, after, step)
    } else if name == "tttt_tui_get_info"@ {
        get_info_answer(before, after, step)
    } else if name == "tttt_tui_highlight"@ {
        highlight_answer(before, args, after, step)
    } else {
        after == before && handler::lacks_tool(step, name)
    }
}

fn action_json(action: &str, id: &str) -> (s: String)
    ensures
        s@ == action_text(action@, id@),
{
    let members: Vec<Member> = vec![
        entry("action", json::string(action)),
        entry("id", json::string(id)),
        entry("status", json::string("ok")),
    ];
    assert(json::member_views(members@) =~= seq![
        ("action"@, json::string_text(action@)),
        ("id"@, json::string_text(id@)),
        ("status"@, json::string_text("ok"@)),
    ]);
    object(&members)
}

fn session_json(m: &SessionMetadata) -> (s: String)
    ensures
        s@ == session_text(m@),
{
    let status = match m.status {
        SessionStatus::Running => "Running".to_string(),
        SessionStatus::Exited(code) => {
            let mut w = joined("Exited(", signed(code as i64).as_str());
            w.append(")");
            w
        },
    };
    assert(status@ =~= pty_handler::status_words(m@.status));
    let members: Vec<Member> = vec![
        entry("cols", json::number(m.cols as u64)),
        entry("command", json::string(m.command.as_str())),
        entry("id", json::string(m.id.as_str())),
        entry("name", json::optional_string(&m.name)),
        entry("rows", json::number(m.rows as u64)),
        entry("status", json::string(status.as_str())),
    ];
    assert(json::member_views(members@) =~= seq![
        ("cols"@, text::decimal(m@.cols as nat)),
        ("command"@, json::string_text(m@.command)),
        ("id"@, json::string_text(m@.id)),
        ("name"@, json::optional_text(m@.name)),
        ("rows"@, text::decimal(m@.rows as nat)),
        ("status"@, json::string_text(pty_handler::status_words(m@.status))),
    ]);
    object(&members)
}

fn number_given(given: Option<u64>, usual: u16) -> (n: u16)
    ensures
        n == number_or(given, usual),
{
    match given {
        Some(n) => low16(n),
        None => usual,
    }
}

impl TuiState {
    /// Nothing to be shown.
    pub fn new() -> (s: Self)
        ensures
            s@.wf(),
            s@ == (TuiStateView {
                pending_switch: None,
                highlights: Seq::empty(),
                dirty: false,
            }),
    {
        let s = TuiState { pending_switch: None, highlights: Vec::new(), dirty: false };
        assert(s@.highlights =~= Seq::empty());
        s
    }

    fn find(&self, session: &str, id: &str) -> (at: Option<usize>)
        ensures
            match at {
                Some(i) => i < self.highlights@.len() && place_of(self@.highlights, session@, id@)
                    == Some(i as int) && self@.highlights[i as int].session_id == session@
                    && self@.highlights[i as int].highlight.id == id@,
                None => place_of(self@.highlights, session@, id@) is None && forall|k: int|
                    0 <= k < self@.highlights.len() ==> (#[trigger] self@.highlights[k]).session_id
                        != session@ || self@.highlights[k].highlight.id != id@,
            },
    {
        let ghost test = |h: PaneHighlightView|
            h.session_id == session@ && h.highlight.id == id@;
        let wanted_session = to_chars(session);
        let wanted_id = to_chars(id);
        let mut i: usize = 0;
        while i < self.highlights.len()
            invariant
                test == (|h: PaneHighlightView|
                    h.session_id == session@ && h.highlight.id == id@),
                wanted_session@ == session@,
                wanted_id@ == id@,
                i <= self.highlights.len(),
                forall|k: int|
                    0 <= k < i ==> (#[trigger] self@.highlights[k]).session_id != session@
                        || self@.highlights[k].highlight.id != id@,
            decreases self.highlights.len() - i,
        {
            assert(self@.highlights[i as int] == self.highlights@[i as int]@);
            if chars_equal(&wanted_session, self.highlights[i].session_id.as_str()) && chars_equal(
                &wanted_id,
                self.highlights[i].highlight.id.as_str(),
            ) {
                proof {
                    text::lemma_first_index_at(self@.highlights, test, i as int);
                }
                return Some(i);
            }
            i += 1;
        }
        proof {
            text::lemma_first_index_none(self@.highlights, test);
        }
        None
    }

    /// Sets a rectangle: in the place of the one with its identifier, else as the last.
    pub fn set_highlight(&mut self, h: PaneHighlight)
        requires
            old(self)@.wf(),
        ensures
            final(self)@.wf(),
            final(self)@ == old(self)@.with_highlight(h@),
    {
        let ghost before = self@.highlights;
        let ghost list = self.highlights@;
        let ghost view = h@;
        match self.find(h.session_id.as_str(), h.highlight.id.as_str()) {
            Some(i) => {
                self.highlights.set(i, h);
                proof {
                    assert(self@.highlights =~= before.update(i as int, view));
                    assert forall|a: int, b: int| 0 <= a < b < self@.highlights.len() implies (
                    #[trigger] self@.highlights[a]).session_id != (
                    #[trigger] self@.highlights[b]).session_id
                        || self@.highlights[a].highlight.id != self@.highlights[b].highlight.id by {
                        assert(self@.highlights[a].session_id == before[a].session_id);
                        assert(self@.highlights[b].session_id == before[b].session_id);
                        assert(self@.highlights[a].highlight.id == before[a].highlight.id);
                        assert(self@.highlights[b].highlight.id == before[b].highlight.id);
                    }
                }
            },
            None => {
                self.highlights.push(h);
                proof {
                    assert(self@.highlights =~= before.push(view));
                    assert forall|a: int, b: int| 0 <= a < b < self@.highlights.len() implies (
                    #[trigger] self@.highlights[a]).session_id != (
                    #[trigger] self@.highlights[b]).session_id
                        || self@.highlights[a].highlight.id != self@.highlights[b].highlight.id by {
                        assert(self@.highlights[a] == before[a]);
                        if b < before.len() {
                            assert(self@.highlights[b] == before[b]);
                        }
                    }
                }
            },
        }
        self.dirty = true;
    }

    /// Removes a rectangle.
    pub fn remove_highlight(&mut self, session: &str, id: &str)
        requires
            old(self)@.wf(),
        ensures
            final(self)@.wf(),
            final(self)@ == old(self)@.without_highlight(session@, id@),
    {
        let ghost before = self@.highlights;
        match self.find(session, id) {
            Some(i) => {
                let _removed = self.highlights.remove(i);
                proof {
                    assert(self@.highlights =~= before.remove(i as int));
                    assert forall|a: int, b: int| 0 <= a < b < self@.highlights.len() implies (
                    #[trigger] self@.highlights[a]).session_id != (
                    #[trigger] self@.highlights[b]).session_id
                        || self@.highlights[a].highlight.id != self@.highlights[b].highlight.id by {
                        assert(self@.highlights[a] == before[if a < i {
                            a
                        } else {
                            a + 1
                        }]);
                        assert(self@.highlights[b] == before[if b < i {
                            b
                        } else {
                            b + 1
                        }]);
                    }
                }
            },
            None => {},
        }
        self.dirty = true;
    }
}

impl<B: PtyBackend> TuiToolHandler<B> {
    /// The sessions and the rectangles are valid.
    pub open spec fn valid(&self) -> bool {
        self@.sessions.wf() && self@.state.wf()
    }

    /// A handler that owns its state and its sessions, on a screen of a size.
    pub fn new(
        tui_state: TuiState,
        sessions: SessionManager<B>,
        screen_cols: u16,
        screen_rows: u16,
    ) -> (h: Self)
        requires
            tui_state@.wf(),
            sessions.wf(),
        ensures
            h.valid(),
            h@ == (TuiView::<B> {
                state: tui_state@,
                sessions: sessions@,
                cols: screen_cols,
                rows: screen_rows,
            }),
    {
        TuiToolHandler { tui_state, sessions, screen_cols, screen_rows }
    }

    /// What the tools have asked to be shown.
    pub fn tui_state(&self) -> (s: &TuiState)
        ensures
            s@ == self@.state,
    {
        &self.tui_state
    }

    /// What the tools have asked to be shown, to be changed.
    pub fn tui_state_mut(&mut self) -> (s: &mut TuiState)
        ensures
            s@ == old(self)@.state,
            final(self)@ == (TuiView { state: (*final(s))@, ..old(self)@ }),
    {
        &mut self.tui_state
    }

    /// The sessions, to be changed.
    pub fn sessions_mut(&mut self) -> (m: &mut SessionManager<B>)
        ensures
            m@ == old(self)@.sessions,
            final(self)@ == (TuiView { sessions: (*final(m))@, ..old(self)@ }),
    {
        &mut self.sessions
    }

    fn no_session(&self, id: &str) -> (step: Step)
        ensures
            knows_no_session(step, id@),
    {
        let mut message = joined("session '", id);
        message.append("' not found");
        fail(McpError::InvalidParams(message))
    }

    /// Switches to a session.
    pub fn handle_tui_switch(&mut self, args: &Arguments) -> (step: Step)
        requires
            old(self).valid(),
        ensures
            final(self).valid(),
            switch_answer(old(self)@, *args, final(self)@, step),
    {
        match &args.session_id {
            None => fail(missing("session_id")),
            Some(id) => match self.sessions.resolve_id(id.as_str()) {
                Ok(found) => {
                    let members: Vec<Member> = vec![
                        entry("status", json::string("ok")),
                        entry("switched_to", json::string(found.as_str())),
                    ];
                    assert(json::member_views(members@) =~= seq![
                        ("status"@, json::string_text("ok"@)),
                        ("switched_to"@, json::string_text(found@)),
                    ]);
                    let ghost before = self@.state;
                    self.tui_state.pending_switch = Some(found);
                    self.tui_state.dirty = true;
                    assert(self@.state.highlights == before.highlights);
                    assert(self@.state.wf());
                    reply(object(&members))
                },
                Err(_) => self.no_session(id.as_str()),
            },
        }
    }

    /// Says what is shown.
    pub fn handle_tui_get_info(&self) -> (step: Step)
        ensures
            get_info_answer(self@, self@, step),
    {
        let sessions = self.sessions.list();
        let mut items: Vec<String> = Vec::new();
        let mut i: usize = 0;
        while i < sessions.len()
            invariant
                i <= sessions.len(),
                items.len() == i,
                forall|k: int|
                    0 <= k < i ==> (#[trigger] items@[k])@ == session_text(sessions@[k]@),
            decreases sessions.len() - i,
        {
            items.push(session_json(&sessions[i]));
            i += 1;
        }
        let ghost texts = self@.sessions.listing().map_values(|m: MetadataView| session_text(m));
        assert(json::views(items@) =~= texts) by {
            assert(manager::meta_views(sessions@) == self@.sessions.listing());
            assert forall|k: int| 0 <= k < sessions.len() implies self@.sessions.listing()[k]
                == sessions@[k]@ by {
                assert(manager::meta_views(sessions@)[k] == sessions@[k]@);
            }
        }
        let members: Vec<Member> = vec![
            entry("highlight_count", json::number(self.tui_state.highlights.len() as u64)),
            entry("screen_cols", json::number(self.screen_cols as u64)),
            entry("screen_rows", json::number(self.screen_rows as u64)),
            entry("sessions", list(&items)),
        ];
        assert(json::member_views(members@) =~= seq![
            ("highlight_count"@, text::decimal(self@.state.highlights.len())),
            ("screen_cols"@, text::decimal(self@.cols as nat)),
            ("screen_rows"@, text::decimal(self@.rows as nat)),
            ("sessions"@, json::list_text(texts)),
        ]);
        reply(object(&members))
    }

    /// Sets or removes a rectangle.
    pub fn handle_tui_highlight(&mut self, args: &Arguments) -> (step: Step)
        requires
            old(self).valid(),
        ensures
            final(self).valid(),
            highlight_answer(old(self)@, *args, final(self)@, step),
    {
        let session = match &args.session_id {
            None => {
                return fail(missing("session_id"));
            },
            Some(s) => s,
        };
        let key = match self.sessions.resolve_id(session.as_str()) {
            Ok(key) => key,
            Err(_) => {
                return self.no_session(session.as_str());
            },
        };
        let id = match &args.id {
            None => {
                return fail(missing("id"));
            },
            Some(s) => s,
        };
        let color = match &args.color {
            None => {
                return fail(missing("color"));
            },
            Some(s) => s,
        };
        if color.as_str().is_empty() {
            self.tui_state.remove_highlight(key.as_str(), id.as_str());
            return reply(action_json("removed", id.as_str()));
        }
        let h = PaneHighlight {
            session_id: key,
            highlight: TuiHighlight {
                id: id.clone(),
                x: number_given(args.x, 0),
                y: number_given(args.y, 0),
                width: number_given(args.width, 1),
                height: number_given(args.height, 1),
                color: color.clone(),
            },
        };
        self.tui_state.set_highlight(h);
        reply(action_json("set", id.as_str()))
    }
}

impl<B: PtyBackend> ToolHandler for TuiToolHandler<B> {
    open spec fn wf(&self) -> bool {
        self.valid()
    }

    open spec fn answers(
        before: Self,
        name: Seq<char>,
        args: Arguments,
        moment: Moment,
        after: Self,
        step: Step,
    ) -> bool {
        tui_answer(before@, name, args, moment, after@, step)
    }

    open spec fn resumes(
        before: Self,
        task: Pending,
        moment: Moment,
        after: Self,
        step: Step,
    ) -> bool {
        after == before && step is Unsupported
    }

    open spec fn told(before: Self, token: CancelToken, after: Self) -> bool {
        after == before
    }

    open spec fn offers(&self) -> Seq<ToolView> {
        tools::tui_tools()
    }

    fn handle_tool_call(&mut self, name: &str, args: &Arguments, moment: Moment) -> (step: Step) {
        let called = to_chars(name);
        if chars_equal(&called, "tttt_tui_switch") {
            self.handle_tui_switch(args)
        } else if chars_equal(&called, "tttt_tui_get_info") {
            self.handle_tui_get_info()
        } else if chars_equal(&called, "tttt_tui_highlight") {
            self.handle_tui_highlight(args)
        } else {
            no_tool(name)
        }
    }

    fn resume(&mut self, task: Pending, moment: Moment) -> (step: Step) {
        Step::Unsupported
    }

    fn set_cancel_token(&mut self, token: CancelToken) {
    }

    fn tool_definitions(&self) -> (tools: Vec<ToolDefinition>) {
        tui_tool_definitions()
    }
}

/// A handler knows exactly the tools that it offers; a call of any other changes nothing.
pub proof fn law_tui_tools_are_those_offered<B: PtyBackend>(
    before: TuiView<B>,
    name: Seq<char>,
    args: Arguments,
    moment: Moment,
    after: TuiView<B>,
    step: Step,
)
    requires
        tui_answer(before, name, args, moment, after, step),
    ensures
        handler::lacks_tool(step, name) == !tools::has_tool(tools::tui_tools(), name),
        handler::lacks_tool(step, name) ==> after == before,
{
    let all = tools::tui_tools();
    assert(all[0].name == "tttt_tui_switch"@);
    assert(all[1].name == "tttt_tui_get_info"@);
    assert(all[2].name == "tttt_tui_highlight"@);
}

} // verus!
