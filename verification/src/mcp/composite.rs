//! Several handlers of tool calls as one. Those that work on sessions may share them.
use crate::backend::PtyBackend;
use crate::manager::{ManagerView, SessionManager};
use crate::mcp::arguments::Arguments;
use crate::mcp::error::McpError;
use crate::mcp::handler;
use crate::mcp::handler::{no_tool, CancelToken, Pending, Step, ToolHandler};
use crate::mcp::notification_handler;
use crate::mcp::notification_handler::{NotificationToolHandler, NotifyView};
use crate::mcp::pty_handler;
use crate::mcp::pty_handler::{PtyHandlerView, PtyToolHandler};
use crate::mcp::replay_handler;
use crate::mcp::replay_handler::ReplayToolHandler;
use crate::mcp::scheduler_handler;
use crate::mcp::scheduler_handler::SchedulerToolHandler;
use crate::mcp::scratchpad_handler;
use crate::mcp::scratchpad_handler::ScratchpadToolHandler;
use crate::mcp::sidebar_handler;
use crate::mcp::sidebar_handler::{MessagesView, SidebarMessageToolHandler};
use crate::mcp::tools;
use crate::mcp::tools::{ToolDefinition, ToolView};
use crate::mcp::tui_handler;
use crate::mcp::tui_handler::{TuiToolHandler, TuiView};
use crate::scheduler::SchedulerView;
use crate::text;
use crate::time::Moment;
use vstd::prelude::*;

verus! {

/// One of the handlers.
pub enum AnyHandler<B: PtyBackend> {
    Pty(PtyToolHandler<B>),
    Scheduler(SchedulerToolHandler),
    Notification(NotificationToolHandler<B>),
    Sidebar(SidebarMessageToolHandler),
    Scratchpad(ScratchpadToolHandler),
    Replay(ReplayToolHandler),
    Tui(TuiToolHandler<B>),
}

/// The state of one of the handlers.
pub enum AnyView<B> {
    Pty(PtyHandlerView<B>),
    Scheduler(SchedulerView),
    Notification(NotifyView<B>),
    Sidebar(MessagesView),
    Scratchpad(Map<Seq<char>, Seq<char>>),
    Replay(Seq<char>),
    Tui(TuiView<B>),
}

impl<B: PtyBackend> View for AnyHandler<B> {
    type V = AnyView<B>;

    open spec fn view(&self) -> AnyView<B> {
        match *self {
            AnyHandler::Pty(h) => AnyView::Pty(h@),
            AnyHandler::Scheduler(h) => AnyView::Scheduler(h@),
            AnyHandler::Notification(h) => AnyView::Notification(h@),
            AnyHandler::Sidebar(h) => AnyView::Sidebar(h@),
            AnyHandler::Scratchpad(h) => AnyView::Scratchpad(h@),
            AnyHandler::Replay(h) => AnyView::Replay(h@),
            AnyHandler::Tui(h) => AnyView::Tui(h@),
        }
    }
}

/// How a call of a tool is answered.
#[verifier::opaque]
pub open spec fn any_answer<B: PtyBackend>(
    before: AnyView<B>,
    name: Seq<char>,
    args: Arguments,
    moment: Moment,
    after: AnyView<B>,
    step: Step,
) -> bool {
    match (before, after) {
        (AnyView::Pty(b), AnyView::Pty(a)) => pty_handler::pty_answer(
            b,
            name,
            args,
            moment,
            a,
            step,
        ),
        (AnyView::Scheduler(b), AnyView::Scheduler(a)) => scheduler_handler::scheduler_answer(
            b,
            name,
            args,
            moment,
            a,
            step,
        ),
        (AnyView::Notification(b), AnyView::Notification(a)) => notification_handler::notification_answer(
            b,
            name,
            args,
            moment,
            a,
            step,
        ),
        (AnyView::Sidebar(b), AnyView::Sidebar(a)) => sidebar_handler::sidebar_answer(
            b,
            name,
            args,
            moment,
            a,
            step,
        ),
        (AnyView::Scratchpad(b), AnyView::Scratchpad(a)) => scratchpad_handler::scratchpad_answer(
            b,
            name,
            args,
            moment,
            a,
            step,
        ),
        (AnyView::Replay(b), AnyView::Replay(a)) => replay_handler::replay_answer(
            b,
            name,
            args,
            moment,
            a,
            step,
        ),
        (AnyView::Tui(b), AnyView::Tui(a)) => tui_handler::tui_answer(
            b,
            name,
            args,
            moment,
            a,
            step,
        ),
        _ => false,
    }
}

/// How a call that had to wait goes on. Only those of the tools for sessions wait.
pub open spec fn any_goes_on<B: PtyBackend>(
    before: AnyView<B>,
    task: Pending,
    moment: Moment,
    after: AnyView<B>,
    step: Step,
) -> bool {
    match (before, after) {
        (AnyView::Pty(b), AnyView::Pty(a)) => pty_handler::pty_goes_on(b, task, moment, a, step),
        _ => after == before && step is Unsupported,
    }
}

impl<B: PtyBackend> AnyView<B> {
    /// The tools that the handler has.
    pub open spec fn offers(self) -> Seq<ToolView> {
        match self {
            AnyView::Pty(_) => tools::pty_tools(),
            AnyView::Scheduler(_) => tools::scheduler_tools(),
            AnyView::Notification(_) => tools::notification_tools(),
            AnyView::Sidebar(_) => tools::sidebar_tools(),
            AnyView::Scratchpad(_) => tools::scratchpad_tools(),
            AnyView::Replay(_) => tools::replay_tools(),
            AnyView::Tui(_) => tools::tui_tools(),
        }
    }

    /// The handler once it knows whether the client has cancelled.
    pub open spec fn told(self, token: CancelToken) -> AnyView<B> {
        match self {
            AnyView::Pty(v) => AnyView::Pty(PtyHandlerView { cancelled: token, ..v }),
            _ => self,
        }
    }

    /// The sessions that the handler works on.
    pub open spec fn sessions(self) -> Option<ManagerView<B>> {
        match self {
            AnyView::Pty(v) => Some(v.manager),
            AnyView::Notification(v) => Some(v.sessions),
            AnyView::Tui(v) => Some(v.sessions),
            _ => None,
        }
    }

    /// The handler with other sessions, where it works on any.
    pub open spec fn with_sessions(self, m: ManagerView<B>) -> AnyView<B> {
        match self {
            AnyView::Pty(v) => AnyView::Pty(PtyHandlerView { manager: m, ..v }),
            AnyView::Notification(v) => AnyView::Notification(NotifyView { sessions: m, ..v }),
            AnyView::Tui(v) => AnyView::Tui(TuiView { sessions: m, ..v }),
            _ => self,
        }
    }
}

/// A handler knows exactly the tools that it offers; a call of any other changes nothing.
pub proof fn law_tools_are_those_offered<B: PtyBackend>(
    before: AnyView<B>,
    name: Seq<char>,
    args: Arguments,
    moment: Moment,
    after: AnyView<B>,
    step: Step,
)
    requires
        any_answer(before, name, args, moment, after, step),
    ensures
        handler::lacks_tool(step, name) == !tools::has_tool(before.offers(), name),
        handler::lacks_tool(step, name) ==> after == before,
{
    reveal(any_answer);
    match (before, after) {
        (AnyView::Pty(b), AnyView::Pty(a)) => {
            pty_handler::law_pty_tools_are_those_offered(b, name, args, moment, a, step);
        },
        (AnyView::Scheduler(b), AnyView::Scheduler(a)) => {
            scheduler_handler::law_scheduler_tools_are_those_offered(b, name, args, moment, a, step);
        },
        (AnyView::Notification(b), AnyView::Notification(a)) => {
            notification_handler::law_notification_tools_are_those_offered(b, name, args, moment, a, step);
        },
        (AnyView::Sidebar(b), AnyView::Sidebar(a)) => {
            sidebar_handler::law_sidebar_tools_are_those_offered(b, name, args, moment, a, step);
        },
        (AnyView::Scratchpad(b), AnyView::Scratchpad(a)) => {
            scratchpad_handler::law_scratchpad_tools_are_those_offered(b, name, args, moment, a, step);
        },
        (AnyView::Replay(b), AnyView::Replay(a)) => {
            replay_handler::law_replay_tools_are_those_offered(b, name, args, moment, a, step);
        },
        (AnyView::Tui(b), AnyView::Tui(a)) => {
            tui_handler::law_tui_tools_are_those_offered(b, name, args, moment, a, step);
        },
        _ => {},
    }
}

impl<B: PtyBackend> ToolHandler for AnyHandler<B> {
    open spec fn wf(&self) -> bool {
        match *self {
            AnyHandler::Pty(h) => h.wf(),
            AnyHandler::Scheduler(h) => h.wf(),
            AnyHandler::Notification(h) => h.wf(),
            AnyHandler::Sidebar(h) => h.wf(),
            AnyHandler::Scratchpad(h) => h.wf(),
            AnyHandler::Replay(h) => h.wf(),
            AnyHandler::Tui(h) => h.wf(),
        }
    }

    open spec fn answers(
        before: Self,
        name: Seq<char>,
        args: Arguments,
        moment: Moment,
        after: Self,
        step: Step,
    ) -> bool {
        any_answer(before@, name, args, moment, after@, step)
    }

    open spec fn resumes(
        before: Self,
        task: Pending,
        moment: Moment,
        after: Self,
        step: Step,
    ) -> bool {
        any_goes_on(before@, task, moment, after@, step)
    }

    open spec fn told(before: Self, token: CancelToken, after: Self) -> bool {
        after@ == before@.told(token)
    }

    open spec fn offers(&self) -> Seq<ToolView> {
        self@.offers()
    }

    fn handle_tool_call(&mut self, name: &str, args: &Arguments, moment: Moment) -> (step: Step) {
        proof {
            reveal(any_answer);
        }
        match self {
            AnyHandler::Pty(h) => h.handle_tool_call(name, args, moment),
            AnyHandler::Scheduler(h) => h.handle_tool_call(name, args, moment),
            AnyHandler::Notification(h) => h.handle_tool_call(name, args, moment),
            AnyHandler::Sidebar(h) => h.handle_tool_call(name, args, moment),
            AnyHandler::Scratchpad(h) => h.handle_tool_call(name, args, moment),
            AnyHandler::Replay(h) => h.handle_tool_call(name, args, moment),
            AnyHandler::Tui(h) => h.handle_tool_call(name, args, moment),
        }
    }

    fn resume(&mut self, task: Pending, moment: Moment) -> (step: Step) {
        match self {
            AnyHandler::Pty(h) => h.resume(task, moment),
            AnyHandler::Scheduler(h) => h.resume(task, moment),
            AnyHandler::Notification(h) => h.resume(task, moment),
            AnyHandler::Sidebar(h) => h.resume(task, moment),
            AnyHandler::Scratchpad(h) => h.resume(task, moment),
            AnyHandler::Replay(h) => h.resume(task, moment),
            AnyHandler::Tui(h) => h.resume(task, moment),
        }
    }

    fn set_cancel_token(&mut self, token: CancelToken) {
        match self {
            AnyHandler::Pty(h) => h.set_cancel_token(token),
            AnyHandler::Scheduler(h) => h.set_cancel_token(token),
            AnyHandler::Notification(h) => h.set_cancel_token(token),
            AnyHandler::Sidebar(h) => h.set_cancel_token(token),
            AnyHandler::Scratchpad(h) => h.set_cancel_token(token),
            AnyHandler::Replay(h) => h.set_cancel_token(token),
            AnyHandler::Tui(h) => h.set_cancel_token(token),
        }
    }

    fn tool_definitions(&self) -> (tools: Vec<ToolDefinition>) {
        match self {
            AnyHandler::Pty(h) => h.tool_definitions(),
            AnyHandler::Scheduler(h) => h.tool_definitions(),
            AnyHandler::Notification(h) => h.tool_definitions(),
            AnyHandler::Sidebar(h) => h.tool_definitions(),
            AnyHandler::Scratchpad(h) => h.tool_definitions(),
            AnyHandler::Replay(h) => h.tool_definitions(),
            AnyHandler::Tui(h) => h.tool_definitions(),
        }
    }
}

/// The state of several handlers: the sessions that they share, if they do, and the handler whose
/// call waits, if one does.
#[verifier::ext_equal]
pub struct CompositeView<B> {
    pub shared: Option<ManagerView<B>>,
    pub handlers: Seq<AnyView<B>>,
    pub waiting: Option<int>,
}

/// Several handlers as one. A call goes to the first that has the tool.
pub struct CompositeToolHandler<B: PtyBackend> {
    shared: Option<SessionManager<B>>,
    handlers: Vec<AnyHandler<B>>,
    waiting: Option<usize>,
}

impl<B: PtyBackend> View for CompositeToolHandler<B> {
    type V = CompositeView<B>;

    closed spec fn view(&self) -> CompositeView<B> {
        CompositeView {
            shared: match self.shared {
                Some(m) => Some(m@),
                None => None,
            },
            handlers: self.handlers@.map_values(|h: AnyHandler<B>| h@),
            waiting: match self.waiting {
                Some(i) => Some(i as int),
                None => None,
            },
        }
    }
}

/// The tools of several handlers, one handler after the other.
pub open spec fn all_offers<B: PtyBackend>(handlers: Seq<AnyView<B>>) -> Seq<ToolView>
    decreases handlers.len(),
{
    if handlers.len() == 0 {
        Seq::empty()
    } else {
        all_offers(handlers.drop_last()) + handlers.last().offers()
    }
}

impl<B: PtyBackend> CompositeView<B> {
    /// The place of the first handler that has a tool.
    pub open spec fn place(self, name: Seq<char>) -> Option<int> {
        text::first_index(self.handlers, |h: AnyView<B>| tools::has_tool(h.offers(), name))
    }

    /// A handler that has been lent the sessions.
    pub open spec fn lent(self, i: int) -> AnyView<B> {
        match self.shared {
            Some(m) => self.handlers[i].with_sessions(m),
            None => self.handlers[i],
        }
    }

    /// The state once a handler has changed and has given the sessions back.
    pub open spec fn returned(self, i: int, h: AnyView<B>) -> CompositeView<B> {
        match (self.shared, self.handlers[i].sessions()) {
            (Some(_), Some(own)) => CompositeView {
                shared: h.sessions(),
                handlers: self.handlers.update(i, h.with_sessions(own)),
                ..self
            },
            _ => CompositeView { handlers: self.handlers.update(i, h), ..self },
        }
    }

    /// The state once it is known whether a call waits.
    pub open spec fn after(self, i: int, step: Step) -> CompositeView<B> {
        CompositeView {
            waiting: if step is Wait {
                Some(i)
            } else {
                None
            },
            ..self
        }
    }

    /// How a handler answers a call.
    pub open spec fn answered_by(
        self,
        i: int,
        name: Seq<char>,
        args: Arguments,
        moment: Moment,
        after: CompositeView<B>,
        step: Step,
    ) -> bool {
        exists|h: AnyView<B>|
            #[trigger] any_answer(self.lent(i), name, args, moment, h, step) && after
                == self.returned(i, h)
    }

    /// How a handler goes on with a call.
    pub open spec fn resumed_by(
        self,
        i: int,
        task: Pending,
        moment: Moment,
        after: CompositeView<B>,
        step: Step,
    ) -> bool {
        exists|h: AnyView<B>|
            #[trigger] any_goes_on(self.lent(i), task, moment, h, step) && after == self.returned(
                i,
                h,
            ).after(i, step)
    }
}

/// How a call is answered: by the first handler that has the tool.
pub open spec fn composite_answer<B: PtyBackend>(
    before: CompositeView<B>,
    name: Seq<char>,
    args: Arguments,
    moment: Moment,
    after: CompositeView<B>,
    step: Step,
) -> bool {
    match before.place(name) {
        None => after == before && handler::lacks_tool(step, name),
        Some(i) => exists|mid: CompositeView<B>|
            #[trigger] before.answered_by(i, name, args, moment, mid, step) && after == mid.after(
                i,
                step,
            ),
    }
}

/// How a call that had to wait goes on: by the handler whose call waits.
pub open spec fn composite_goes_on<B: PtyBackend>(
    before: CompositeView<B>,
    task: Pending,
    moment: Moment,
    after: CompositeView<B>,
    step: Step,
) -> bool {
    match before.waiting {
        Some(i) => if 0 <= i < before.handlers.len() {
            before.resumed_by(i, task, moment, after, step)
        } else {
            after == before && step is Unsupported
        },
        None => after == before && step is Unsupported,
    }
}

proof fn lemma_unchanged<B: PtyBackend>(s: CompositeView<B>, i: int)
    requires
        0 <= i < s.handlers.len(),
    ensures
        s.returned(i, s.lent(i)) == s,
{
    let h = s.handlers[i];
    match (s.shared, h.sessions()) {
        (Some(m), Some(own)) => {
            assert(h.with_sessions(m).with_sessions(own) == h);
            assert(h.with_sessions(m).sessions() == Some(m));
        },
        (Some(m), None) => {
            assert(h.with_sessions(m) == h);
        },
        _ => {},
    }
    assert(s.handlers.update(i, h) =~= s.handlers);
}

/// Exchanges the sessions of a handler, where it works on any.
fn exchange<B: PtyBackend>(h: &mut AnyHandler<B>, m: &mut SessionManager<B>)
    requires
        old(h).wf(),
        old(m).wf(),
    ensures
        final(h).wf(),
        final(m).wf(),
        final(h)@ == old(h)@.with_sessions(old(m)@),
        final(m)@ == match old(h)@.sessions() {
            Some(own) => own,
            None => old(m)@,
        },
{
    match h {
        AnyHandler::Pty(p) => {
            std::mem::swap(p.manager_mut(), m);
        },
        AnyHandler::Notification(p) => {
            std::mem::swap(p.sessions_mut(), m);
        },
        AnyHandler::Tui(p) => {
            std::mem::swap(p.sessions_mut(), m);
        },
        _ => {},
    }
}

impl<B: PtyBackend> CompositeToolHandler<B> {
    /// All handlers, and the sessions that they share, are valid.
    pub closed spec fn valid(&self) -> bool {
        &&& forall|i: int| 0 <= i < self.handlers@.len() ==> (#[trigger] self.handlers@[i]).wf()
        &&& self.shared matches Some(m) ==> m.wf()
    }

    /// No handlers yet. Each will work on its own sessions.
    pub fn new() -> (c: Self)
        ensures
            c.valid(),
            c@ == (CompositeView::<B> { shared: None, handlers: Seq::empty(), waiting: None }),
    {
        let c = CompositeToolHandler { shared: None, handlers: Vec::new(), waiting: None };
        assert(c@.handlers =~= Seq::empty());
        c
    }

    /// No handlers yet. They will share sessions.
    pub fn with_sessions(sessions: SessionManager<B>) -> (c: Self)
        requires
            sessions.wf(),
        ensures
            c.valid(),
            c@ == (CompositeView::<B> {
                shared: Some(sessions@),
                handlers: Seq::empty(),
                waiting: None,
            }),
    {
        let c = CompositeToolHandler {
            shared: Some(sessions),
            handlers: Vec::new(),
            waiting: None,
        };
        assert(c@.handlers =~= Seq::empty());
        c
    }

    /// Adds a handler behind those that are there.
    pub fn add_handler(&mut self, handler: AnyHandler<B>)
        requires
            old(self).valid(),
            handler.wf(),
        ensures
            final(self).valid(),
            final(self)@ == (CompositeView {
                handlers: old(self)@.handlers.push(handler@),
                ..old(self)@
            }),
    {
        let ghost before = self@.handlers;
        let ghost list = self.handlers@;
        self.handlers.push(handler);
        proof {
            assert(self@.handlers =~= before.push(handler@));
            assert forall|i: int| 0 <= i < self.handlers@.len() implies (
            #[trigger] self.handlers@[i]).wf() by {
                if i < list.len() {
                    assert(self.handlers@[i] == list[i]);
                }
            }
        }
    }

    /// Exchanges the sessions that the handlers share, where they do.
    pub fn exchange_sessions(&mut self, sessions: &mut SessionManager<B>)
        requires
            old(self).valid(),
            old(sessions).wf(),
        ensures
            final(self).valid(),
            final(sessions).wf(),
            match old(self)@.shared {
                Some(m) => final(sessions)@ == m && final(self)@ == (CompositeView {
                    shared: Some(old(sessions)@),
                    ..old(self)@
                }),
                None => final(sessions)@ == old(sessions)@ && final(self)@ == old(self)@,
            },
    {
        let mut shared: Option<SessionManager<B>> = None;
        std::mem::swap(&mut shared, &mut self.shared);
        match shared {
            Some(mut m) => {
                std::mem::swap(&mut m, sessions);
                self.shared = Some(m);
            },
            None => {},
        }
    }

    /// The handlers, to be changed.
    pub fn handler_at(&mut self, i: usize) -> (h: &mut AnyHandler<B>)
        requires
            old(self).valid(),
            i < old(self)@.handlers.len(),
        ensures
            h@ == old(self)@.handlers[i as int],
            h.wf(),
            final(self)@ =~= (CompositeView {
                handlers: old(self)@.handlers.update(i as int, (*final(h))@),
                ..old(self)@
            }),
            (*final(h)).wf() ==> final(self).valid(),
    {
        &mut self.handlers[i]
    }

    fn lend(&mut self, i: usize)
        requires
            old(self).valid(),
            i < old(self)@.handlers.len(),
        ensures
            final(self).valid(),
            final(self)@.waiting == old(self)@.waiting,
            match (old(self)@.shared, old(self)@.handlers[i as int].sessions()) {
                (Some(m), Some(own)) => final(self)@.shared == Some(own),
                _ => final(self)@.shared == old(self)@.shared,
            },
            final(self)@.handlers == old(self)@.handlers.update(
                i as int,
                old(self)@.lent(i as int),
            ),
    {
        let ghost before = self@;
        let ghost list = self.handlers@;
        let mut shared: Option<SessionManager<B>> = None;
        std::mem::swap(&mut shared, &mut self.shared);
        assert(before.handlers[i as int] == list[i as int]@);
        match shared {
            Some(mut m) => {
                exchange(&mut self.handlers[i], &mut m);
                self.shared = Some(m);
            },
            None => {},
        }
        proof {
            assert forall|k: int| 0 <= k < list.len() && k != i implies (
            #[trigger] self.handlers@[k]) == list[k] by {}
            assert(self@.handlers =~= before.handlers.update(i as int, before.lent(i as int)));
        }
    }

    fn call(&mut self, i: usize, name: &str, args: &Arguments, moment: Moment) -> (step: Step)
        requires
            old(self).valid(),
            i < old(self)@.handlers.len(),
            moment.wf(),
        ensures
            final(self).valid(),
            old(self)@.answered_by(i as int, name@, *args, moment, final(self)@, step),
    {
        let ghost before = self@;
        self.lend(i);
        let ghost list = self.handlers@;
        let ghost lent = self@;
        assert(lent.handlers.len() == before.handlers.len());
        assert(lent.handlers.len() == list.len());
        assert(list[i as int]@ == lent.handlers[i as int]);
        let step = self.handlers[i].handle_tool_call(name, args, moment);
        let ghost h = self.handlers@[i as int]@;
        let ghost mid = self@;
        proof {
            assert forall|k: int| 0 <= k < list.len() && k != i implies (
            #[trigger] self.handlers@[k]) == list[k] by {}
            assert(mid.handlers =~= lent.handlers.update(i as int, h));
            assert(any_answer(before.lent(i as int), name@, *args, moment, h, step));
            lemma_kind_is_kept(before.lent(i as int), name@, *args, moment, h, step);
        }
        self.lend(i);
        proof {
            lemma_lent_back(before, lent, mid, self@, i as int, h);
        }
        step
    }
}

/// A call does not change what a handler is, nor whether it works on sessions.
proof fn lemma_kind_is_kept<B: PtyBackend>(
    before: AnyView<B>,
    name: Seq<char>,
    args: Arguments,
    moment: Moment,
    after: AnyView<B>,
    step: Step,
)
    requires
        any_answer(before, name, args, moment, after, step),
    ensures
        (before.sessions() is Some) == (after.sessions() is Some),
{
    reveal(any_answer);
}

/// A handler that has not got a tool leaves everything as it is.
proof fn lemma_call<B: PtyBackend>(
    before: CompositeView<B>,
    i: int,
    name: Seq<char>,
    args: Arguments,
    moment: Moment,
    after: CompositeView<B>,
    step: Step,
)
    requires
        0 <= i < before.handlers.len(),
        before.answered_by(i, name, args, moment, after, step),
    ensures
        handler::lacks_tool(step, name) == !tools::has_tool(before.handlers[i].offers(), name),
        handler::lacks_tool(step, name) ==> after == before,
        (step matches Step::Done(Err(McpError::ToolNotFound(_)))) ==> handler::lacks_tool(
            step,
            name,
        ),
{
    let h = choose|h: AnyView<B>|
        #[trigger] any_answer(before.lent(i), name, args, moment, h, step) && after
            == before.returned(i, h);
    law_tools_are_those_offered(before.lent(i), name, args, moment, h, step);
    assert(before.lent(i).offers() == before.handlers[i].offers());
    lemma_unchanged(before, i);
    if step matches Step::Done(Err(McpError::ToolNotFound(_))) {
        lemma_unknown_tool(before.lent(i), name, args, moment, h, step);
    }
}

proof fn lemma_unknown_tool<B: PtyBackend>(
    before: AnyView<B>,
    name: Seq<char>,
    args: Arguments,
    moment: Moment,
    after: AnyView<B>,
    step: Step,
)
    requires
        any_answer(before, name, args, moment, after, step),
        step matches Step::Done(Err(McpError::ToolNotFound(_))),
    ensures
        handler::lacks_tool(step, name),
{
    reveal(any_answer);
}

proof fn lemma_lent_back<B: PtyBackend>(
    before: CompositeView<B>,
    lent: CompositeView<B>,
    mid: CompositeView<B>,
    after: CompositeView<B>,
    i: int,
    h: AnyView<B>,
)
    requires
        0 <= i < before.handlers.len(),
        lent.handlers == before.handlers.update(i, before.lent(i)),
        match (before.shared, before.handlers[i].sessions()) {
            (Some(m), Some(own)) => lent.shared == Some(own),
            _ => lent.shared == before.shared,
        },
        lent.waiting == before.waiting,
        mid.handlers == lent.handlers.update(i, h),
        mid.shared == lent.shared,
        mid.waiting == lent.waiting,
        (before.handlers[i].sessions() is Some) == (h.sessions() is Some),
        after.handlers == mid.handlers.update(i, mid.lent(i)),
        match (mid.shared, mid.handlers[i].sessions()) {
            (Some(m), Some(own)) => after.shared == Some(own),
            _ => after.shared == mid.shared,
        },
        after.waiting == mid.waiting,
    ensures
        after == before.returned(i, h),
{
    assert(mid.handlers[i] == h);
    let target = before.returned(i, h);
    assert(after.handlers =~= target.handlers);
    assert(after.shared == target.shared);
}

impl<B: PtyBackend> Default for CompositeToolHandler<B> {
    fn default() -> (c: Self)
        ensures
            c.valid(),
            c@ == (CompositeView::<B> { shared: None, handlers: Seq::empty(), waiting: None }),
    {
        CompositeToolHandler::new()
    }
}

impl<B: PtyBackend> ToolHandler for CompositeToolHandler<B> {
    open spec fn wf(&self) -> bool {
        self.valid()
    }

    open spec fn answers(
        before: Self,
        name: Seq<char>,
        args: Arguments,
        moment: Moment,
        after: Self,
        step: Step,
    ) -> bool {
        composite_answer(before@, name, args, moment, after@, step)
    }

    open spec fn resumes(
        before: Self,
        task: Pending,
        moment: Moment,
        after: Self,
        step: Step,
    ) -> bool {
        composite_goes_on(before@, task, moment, after@, step)
    }

    open spec fn told(before: Self, token: CancelToken, after: Self) -> bool {
        after@ == (CompositeView {
            handlers: before@.handlers.map_values(|h: AnyView<B>| h.told(token)),
            ..before@
        })
    }

    open spec fn offers(&self) -> Seq<ToolView> {
        all_offers(self@.handlers)
    }

    fn handle_tool_call(&mut self, name: &str, args: &Arguments, moment: Moment) -> (step: Step) {
        let ghost before = self@;
        let ghost test = |h: AnyView<B>| tools::has_tool(h.offers(), name@);
        let mut i: usize = 0;
        while i < self.handlers.len()
            invariant
                self.valid(),
                moment.wf(),
                self@ == before,
                before == old(self)@,
                test == (|h: AnyView<B>| tools::has_tool(h.offers(), name@)),
                i <= self.handlers@.len(),
                forall|k: int|
                    0 <= k < i ==> !tools::has_tool(
                        (#[trigger] before.handlers[k]).offers(),
                        name@,
                    ),
            decreases self.handlers.len() - i,
        {
            assert(self@.handlers.len() == self.handlers@.len());
            let step = self.call(i, name, args, moment);
            proof {
                lemma_call(before, i as int, name@, *args, moment, self@, step);
            }
            let unknown = match &step {
                Step::Done(Err(McpError::ToolNotFound(_))) => true,
                _ => false,
            };
            if !unknown {
                proof {
                    text::lemma_first_index_at(before.handlers, test, i as int);
                }
                let ghost mid = self@;
                self.waiting = match &step {
                    Step::Wait { .. } => Some(i),
                    _ => None,
                };
                assert(self@ =~= mid.after(i as int, step));
                assert(before.answered_by(i as int, name@, *args, moment, mid, step));
                return step;
            }
            assert(self@.handlers.len() == self.handlers@.len());
            i += 1;
        }
        proof {
            assert(self@.handlers.len() == self.handlers@.len());
            text::lemma_first_index_none(before.handlers, test);
        }
        no_tool(name)
    }

    fn resume(&mut self, task: Pending, moment: Moment) -> (step: Step) {
        let i = match self.waiting {
            Some(i) => i,
            None => {
                return Step::Unsupported;
            },
        };
        assert(self@.handlers.len() == self.handlers@.len());
        if i >= self.handlers.len() {
            return Step::Unsupported;
        }
        let ghost before = self@;
        self.lend(i);
        let ghost list = self.handlers@;
        let ghost lent = self@;
        assert(lent.handlers.len() == before.handlers.len());
        assert(lent.handlers.len() == list.len());
        assert(list[i as int]@ == lent.handlers[i as int]);
        let step = self.handlers[i].resume(task, moment);
        let ghost h = self.handlers@[i as int]@;
        let ghost mid = self@;
        proof {
            assert forall|k: int| 0 <= k < list.len() && k != i implies (
            #[trigger] self.handlers@[k]) == list[k] by {}
            assert(mid.handlers =~= lent.handlers.update(i as int, h));
            assert(any_goes_on(before.lent(i as int), task, moment, h, step));
        }
        self.lend(i);
        proof {
            lemma_lent_back(before, lent, mid, self@, i as int, h);
        }
        let ghost back = self@;
        self.waiting = match &step {
            Step::Wait { .. } => Some(i),
            _ => None,
        };
        assert(self@ =~= back.after(i as int, step));
        step
    }

    fn set_cancel_token(&mut self, token: CancelToken) {
        let ghost before = self@;
        let mut i: usize = 0;
        while i < self.handlers.len()
            invariant
                self.valid(),
                before == old(self)@,
                self@.shared == before.shared,
                self@.waiting == before.waiting,
                i <= self.handlers@.len(),
                self.handlers@.len() == before.handlers.len(),
                forall|k: int|
                    0 <= k < i ==> (#[trigger] self.handlers@[k])@ == before.handlers[k].told(
                        token,
                    ),
                forall|k: int|
                    i <= k < self.handlers@.len() ==> (#[trigger] self.handlers@[k])@
                        == before.handlers[k],
            decreases self.handlers.len() - i,
        {
            let ghost list = self.handlers@;
            self.handlers[i].set_cancel_token(token);
            proof {
                assert forall|k: int| 0 <= k < list.len() && k != i implies (
                #[trigger] self.handlers@[k]) == list[k] by {}
            }
            i += 1;
        }
        assert(self@.handlers =~= before.handlers.map_values(|h: AnyView<B>| h.told(token)));
    }

    fn tool_definitions(&self) -> (tools: Vec<ToolDefinition>) {
        let mut all: Vec<ToolDefinition> = Vec::new();
        let ghost views = self@.handlers;
        let mut i: usize = 0;
        assert(views.take(0) =~= Seq::empty());
        assert(tools::tool_views(all@) =~= Seq::empty());
        while i < self.handlers.len()
            invariant
                views == self@.handlers,
                views.len() == self.handlers@.len(),
                i <= self.handlers@.len(),
                tools::tool_views(all@) == all_offers(views.take(i as int)),
            decreases self.handlers.len() - i,
        {
            let mut more = self.handlers[i].tool_definitions();
            let ghost front = tools::tool_views(all@);
            let ghost tail = tools::tool_views(more@);
            proof {
                assert(views[i as int] == self.handlers@[i as int]@);
                assert(views.take(i + 1).drop_last() =~= views.take(i as int));
                assert(views.take(i + 1).last() == views[i as int]);
            }
            let ghost a = all@;
            let ghost b = more@;
            all.append(&mut more);
            proof {
                assert(all@ =~= a + b);
                assert(tools::tool_views(all@) =~= front + tail);
            }
            i += 1;
        }
        assert(views.take(i as int) =~= views);
        all
    }
}

/// A call goes to the first handler that offers the tool, and to no other: no other one changes, but
/// for the sessions that they share. A call of a tool that none offers changes nothing.
pub proof fn law_calls_go_to_the_first_that_offers<B: PtyBackend>(
    before: CompositeView<B>,
    name: Seq<char>,
    args: Arguments,
    moment: Moment,
    after: CompositeView<B>,
    step: Step,
    i: int,
)
    requires
        composite_answer(before, name, args, moment, after, step),
        0 <= i < before.handlers.len(),
        tools::has_tool(before.handlers[i].offers(), name),
        forall|k: int|
            0 <= k < i ==> !tools::has_tool((#[trigger] before.handlers[k]).offers(), name),
    ensures
        after.handlers.len() == before.handlers.len(),
        forall|k: int|
            0 <= k < before.handlers.len() && k != i ==> #[trigger] after.handlers[k]
                == before.handlers[k],
        after.waiting == (if step is Wait {
            Some(i)
        } else {
            None
        }),
        exists|h: AnyView<B>| #[trigger] any_answer(before.lent(i), name, args, moment, h, step),
{
    let p = |h: AnyView<B>| tools::has_tool(h.offers(), name);
    text::lemma_first_index_at(before.handlers, p, i);
    let mid = choose|mid: CompositeView<B>|
        #[trigger] before.answered_by(i, name, args, moment, mid, step) && after == mid.after(
            i,
            step,
        );
    let h = choose|h: AnyView<B>|
        #[trigger] any_answer(before.lent(i), name, args, moment, h, step) && mid
            == before.returned(i, h);
    assert(any_answer(before.lent(i), name, args, moment, h, step));
}

} // verus!
