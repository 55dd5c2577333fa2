//! The tools for notifications.
use crate::backend::PtyBackend;
use crate::error::{joined, PtyError};
use crate::json;
use crate::json::{entry, list, object, Member};
use crate::manager;
use crate::manager::{ManagerView, SessionManager};
use crate::mcp::arguments::Arguments;
use crate::mcp::error::{missing, McpError};
use crate::mcp::handler;
use crate::mcp::handler::{
    fail, no_tool, reply, status_json, CancelToken, Pending, Step, ToolHandler,
};
use crate::mcp::pty_handler;
use crate::mcp::scheduler_handler;
use crate::mcp::scheduler_handler::id_json;
use crate::mcp::tools;
use crate::mcp::tools::{notification_tool_definitions, ToolDefinition, ToolView};
use crate::notification;
use crate::notification::{NotificationRegistry, NotificationWatcher, WatcherView};
use crate::pattern;
use crate::text;
use crate::text::{chars_equal, push_bytes, to_chars};
use crate::time::{Instant, Moment};
use vstd::prelude::*;
use vstd::string::*;
use vstd::utf8::*;

verus! {

/// The state of a handler.
pub struct NotifyView<B> {
    pub watchers: Seq<WatcherView>,
    pub next: nat,
    pub sessions: ManagerView<B>,
}

/// Handles the calls of the tools for notifications.
pub struct NotificationToolHandler<B: PtyBackend> {
    registry: NotificationRegistry,
    sessions: SessionManager<B>,
}

impl<B: PtyBackend> View for NotificationToolHandler<B> {
    type V = NotifyView<B>;

    closed spec fn view(&self) -> NotifyView<B> {
        NotifyView {
            watchers: self.registry.active(),
            next: self.registry.next(),
            sessions: self.sessions@,
        }
    }
}

/// How a call that sets up a watcher is answered.
pub open spec fn notify_answer<B: PtyBackend>(
    before: NotifyView<B>,
    args: Arguments,
    one_shot: bool,
    after: NotifyView<B>,
    step: Step,
) -> bool {
    if args.watch_session_id is None {
        after == before && handler::lacks(step, "watch_session_id"@)
    } else if args.pattern is None {
        after == before && handler::lacks(step, "pattern"@)
    } else if args.inject_text is None {
        after == before && handler::lacks(step, "inject_text"@)
    } else if args.inject_session_id is None {
        after == before && handler::lacks(step, "inject_session_id"@)
    } else if before.next >= u64::MAX {
        after == before && step is Unsupported
    } else {
        let wanted = args.pattern->0@;
        match pattern::regex_error(wanted) {
            Some(e) => after == before && handler::refused(
                step,
                notification::invalid_pattern_message(wanted, e),
            ),
            None => {
                let id = "notify-"@ + text::decimal(before.next);
                &&& handler::replied(step, scheduler_handler::id_text("watcher_id"@, id))
                &&& after == (NotifyView {
                    watchers: before.watchers.push(
                        notification::new_watcher(
                            id,
                            args.watch_session_id->0@,
                            wanted,
                            args.inject_text->0@,
                            args.inject_session_id->0@,
                            one_shot,
                        ),
                    ),
                    next: before.next + 1,
                    ..before
                })
            },
        }
    }
}

/// How the call that removes a watcher is answered.
pub open spec fn notify_cancel_answer<B: PtyBackend>(
    before: NotifyView<B>,
    args: Arguments,
    after: NotifyView<B>,
    step: Step,
) -> bool {
    match args.watcher_id {
        None => after == before && handler::lacks(step, "watcher_id"@),
        Some(id) => {
            &&& after == (NotifyView {
                watchers: before.watchers.filter(|w: WatcherView| w.id != id@),
                ..before
            })
            &&& if exists|i: int|
                0 <= i < before.watchers.len() && (#[trigger] before.watchers[i]).id == id@ {
                handler::replied(step, handler::status_text("ok"@))
            } else {
                handler::refused(step, "watcher not found: "@ + id@)
            }
        },
    }
}

/// A watcher, as it is written.
pub open spec fn watcher_text(w: WatcherView) -> Seq<char> {
    json::object_text(
        seq![
            ("id"@, json::string_text(w.id)),
            ("inject_session_id"@, json::string_text(w.inject_session_id)),
            ("inject_text"@, json::string_text(w.inject_text)),
            ("one_shot"@, json::flag_text(w.one_shot)),
            ("pattern"@, json::string_text(w.pattern)),
            ("watch_session_id"@, json::string_text(w.watch_session_id)),
        ],
    )
}

/// Watchers, as they are written.
pub open spec fn watchers_text(watchers: Seq<WatcherView>) -> Seq<char> {
    json::list_text(watchers.map_values(|w: WatcherView| watcher_text(w)))
}

/// The bytes of a text that submits itself: a carriage return stands at its end.
pub open spec fn submitted(s: Seq<char>) -> Seq<u8> {
    let bytes = encode_utf8(s);
    if bytes.len() > 0 && bytes.last() == 0x0d {
        bytes
    } else {
        bytes.push(0x0d)
    }
}

/// How the call that types into a session is answered.
pub open spec fn self_inject_answer<B: PtyBackend>(
    before: NotifyView<B>,
    args: Arguments,
    now: Instant,
    after: NotifyView<B>,
    step: Step,
) -> bool {
    if args.session_id is None {
        after == before && handler::lacks(step, "session_id"@)
    } else if args.text is None {
        after == before && handler::lacks(step, "text"@)
    } else {
        let id = args.session_id->0@;
        match before.sessions.place(id) {
            None => after == before && handler::lacks_session(step, id),
            Some(i) => {
                let t = after.sessions.sessions[i].session;
                &&& after == (NotifyView { sessions: before.sessions.with_session(i, t), ..before })
                &&& exists|result: Result<(), PtyError>|
                    #[trigger] pty_handler::at(before.sessions.sessions[i].session, now).sent(
                        submitted(args.text->0@),
                        t,
                        result,
                    ) && (match result {
                        Ok(_) => handler::replied(step, handler::status_text("ok"@)),
                        Err(e) => handler::failed(step, e),
                    })
            },
        }
    }
}

/// How a call of a tool is answered.
pub open spec fn notification_answer<B: PtyBackend>(
    before: NotifyView<B>,
    name: Seq<char>,
    args: Arguments,
    moment: Moment,
    after: NotifyView<B>,
    step: Step,
) -> bool {
    if name == "tttt_notify_on_prompt"@ {
        notify_answer(before, args, true, after, step)
    } else if name == "tttt_notify_on_pattern"@ {
        notify_answer(before, args, false, after, step)
    } else if name == "tttt_notify_cancel"@ {
        notify_cancel_answer(before, args, after, step)
    } else if name == "tttt_notify_list"@ {
        after == before && handler::replied(step, watchers_text(before.watchers))
    } else if name == "tttt_self_inject"@ {
        self_inject_answer(before, args, moment.now, after, step)
    } else {
        after == before && handler::lacks_tool(step, name)
    }
}

fn watcher_json(w: &NotificationWatcher) -> (s: String)
    ensures
        s@ == watcher_text(w@),
{
    let members: Vec<Member> = vec![
        entry("id", json::string(w.id.as_str())),
        entry("inject_session_id", json::string(w.inject_session_id.as_str())),
        entry("inject_text", json::string(w.inject_text.as_str())),
        entry("one_shot", json::flag(w.one_shot)),
        entry("pattern", json::string(w.pattern.as_str())),
        entry("watch_session_id", json::string(w.watch_session_id.as_str())),
    ];
    assert(json::member_views(members@) =~= seq![
        ("id"@, json::string_text(w@.id)),
        ("inject_session_id"@, json::string_text(w@.inject_session_id)),
        ("inject_text"@, json::string_text(w@.inject_text)),
        ("one_shot"@, json::flag_text(w@.one_shot)),
        ("pattern"@, json::string_text(w@.pattern)),
        ("watch_session_id"@, json::string_text(w@.watch_session_id)),
    ]);
    object(&members)
}

impl<B: PtyBackend> NotificationToolHandler<B> {
    /// The sessions are valid.
    pub open spec fn valid(&self) -> bool {
        self@.sessions.wf()
    }

    /// A handler that owns its watchers and sessions.
    pub fn new(registry: NotificationRegistry, sessions: SessionManager<B>) -> (h: Self)
        requires
            sessions.wf(),
        ensures
            h.valid(),
            h@ == (NotifyView::<B> {
                watchers: registry.active(),
                next: registry.next(),
                sessions: sessions@,
            }),
    {
        NotificationToolHandler { registry, sessions }
    }

    /// The watchers.
    pub fn registry(&self) -> (r: &NotificationRegistry)
        ensures
            r.active() == self@.watchers,
            r.next() == self@.next,
    {
        &self.registry
    }

    /// The watchers, to be changed.
    pub fn registry_mut(&mut self) -> (r: &mut NotificationRegistry)
        ensures
            r.active() == old(self)@.watchers,
            r.next() == old(self)@.next,
            final(self)@ == (NotifyView {
                watchers: (*final(r)).active(),
                next: (*final(r)).next(),
                ..old(self)@
            }),
    {
        &mut self.registry
    }

    /// The sessions.
    pub fn sessions(&self) -> (m: &SessionManager<B>)
        ensures
            m@ == self@.sessions,
    {
        &self.sessions
    }

    /// The sessions, to be changed.
    pub fn sessions_mut(&mut self) -> (m: &mut SessionManager<B>)
        ensures
            m@ == old(self)@.sessions,
            final(self)@ == (NotifyView { sessions: (*final(m))@, ..old(self)@ }),
    {
        &mut self.sessions
    }

    fn handle_notify(&mut self, args: &Arguments, one_shot: bool) -> (step: Step)
        requires
            old(self).valid(),
        ensures
            final(self).valid(),
            notify_answer(old(self)@, *args, one_shot, final(self)@, step),
    {
        let watch_session_id = match &args.watch_session_id {
            None => {
                return fail(missing("watch_session_id"));
            },
            Some(s) => s.clone(),
        };
        let wanted = match &args.pattern {
            None => {
                return fail(missing("pattern"));
            },
            Some(s) => s,
        };
        let inject_text = match &args.inject_text {
            None => {
                return fail(missing("inject_text"));
            },
            Some(s) => s.clone(),
        };
        let inject_session_id = match &args.inject_session_id {
            None => {
                return fail(missing("inject_session_id"));
            },
            Some(s) => s.clone(),
        };
        if !self.registry.can_add_watcher() {
            return Step::Unsupported;
        }
        match self.registry.add_watcher(
            watch_session_id,
            wanted.as_str(),
            inject_text,
            inject_session_id,
            one_shot,
        ) {
            Ok(id) => reply(id_json("watcher_id", id.as_str())),
            Err(e) => fail(McpError::InvalidParams(e)),
        }
    }

    /// Sets up a watcher that fires once.
    pub fn handle_notify_on_prompt(&mut self, args: &Arguments) -> (step: Step)
        requires
            old(self).valid(),
        ensures
            final(self).valid(),
            notify_answer(old(self)@, *args, true, final(self)@, step),
    {
        self.handle_notify(args, true)
    }

    /// Sets up a watcher that fires again and again.
    pub fn handle_notify_on_pattern(&mut self, args: &Arguments) -> (step: Step)
        requires
            old(self).valid(),
        ensures
            final(self).valid(),
            notify_answer(old(self)@, *args, false, final(self)@, step),
    {
        self.handle_notify(args, false)
    }

    /// Removes a watcher.
    pub fn handle_notify_cancel(&mut self, args: &Arguments) -> (step: Step)
        requires
            old(self).valid(),
        ensures
            final(self).valid(),
            notify_cancel_answer(old(self)@, *args, final(self)@, step),
    {
        match &args.watcher_id {
            None => fail(missing("watcher_id")),
            Some(id) => {
                if self.registry.remove_watcher(id.as_str()) {
                    reply(status_json("ok"))
                } else {
                    fail(McpError::InvalidParams(joined("watcher not found: ", id.as_str())))
                }
            },
        }
    }

    /// Lists the watchers.
    pub fn handle_notify_list(&self) -> (step: Step)
        ensures
            handler::replied(step, watchers_text(self@.watchers)),
    {
        let watchers = self.registry.list_watchers();
        let mut items: Vec<String> = Vec::new();
        let mut i: usize = 0;
        while i < watchers.len()
            invariant
                i <= watchers.len(),
                items.len() == i,
                forall|k: int|
                    0 <= k < i ==> (#[trigger] items@[k])@ == watcher_text(watchers@[k]@),
            decreases watchers.len() - i,
        {
            items.push(watcher_json(&watchers[i]));
            i += 1;
        }
        assert(json::views(items@) =~= self@.watchers.map_values(
            |w: WatcherView| watcher_text(w),
        )) by {
            assert(notification::watcher_views(watchers@) == self@.watchers);
            assert forall|k: int| 0 <= k < watchers.len() implies self@.watchers[k]
                == watchers@[k]@ by {
                assert(notification::watcher_views(watchers@)[k] == watchers@[k]@);
            }
        }
        reply(list(&items))
    }

    /// Types a text into a session and submits it.
    pub fn handle_self_inject(&mut self, args: &Arguments, moment: Moment) -> (step: Step)
        requires
            old(self).valid(),
        ensures
            final(self).valid(),
            self_inject_answer(old(self)@, *args, moment.now, final(self)@, step),
    {
        let id = match &args.session_id {
            None => {
                return fail(missing("session_id"));
            },
            Some(s) => s,
        };
        let typed = match &args.text {
            None => {
                return fail(missing("text"));
            },
            Some(s) => s,
        };
        let ghost before = self@;
        proof {
            manager::lemma_place(before.sessions, id@);
        }
        match self.sessions.get_mut(id.as_str()) {
            Ok(session) => {
                session.set_clock(moment.now);
                let ghost s = session@;
                let mut bytes: Vec<u8> = Vec::new();
                push_bytes(&mut bytes, typed.as_str().as_bytes());
                assert(bytes@ =~= encode_utf8(typed@));
                if bytes.len() == 0 || bytes[bytes.len() - 1] != 0x0d {
                    bytes.push(0x0d);
                }
                assert(bytes@ == submitted(typed@));
                let sent = session.send_raw(&bytes);
                let ghost result = sent;
                let ghost t = session@;
                assert(s.sent(submitted(typed@), t, result));
                proof {
                    manager::lemma_change_keeps_wf(
                        before.sessions,
                        before.sessions.place(id@)->0,
                        t,
                    );
                }
                match sent {
                    Ok(_) => reply(status_json("ok")),
                    Err(e) => fail(McpError::Pty(e)),
                }
            },
            Err(e) => fail(McpError::Pty(e)),
        }
    }
}

impl<B: PtyBackend> ToolHandler for NotificationToolHandler<B> {
    open spec fn wf(&self) -> bool {
        self.valid()
    }

    open spec fn answers(
        before: Self,
        name: Seq<char>,
        args: Arguments,
        moment: Moment,
        after: Self,
        step: Step,
    ) -> bool {
        notification_answer(before@, name, args, moment, after@, step)
    }

    open spec fn resumes(
        before: Self,
        task: Pending,
        moment: Moment,
        after: Self,
        step: Step,
    ) -> bool {
        after == before && step is Unsupported
    }

    open spec fn told(before: Self, token: CancelToken, after: Self) -> bool {
        after == before
    }

    open spec fn offers(&self) -> Seq<ToolView> {
        tools::notification_tools()
    }

    fn handle_tool_call(&mut self, name: &str, args: &Arguments, moment: Moment) -> (step: Step) {
        let called = to_chars(name);
        if chars_equal(&called, "tttt_notify_on_prompt") {
            self.handle_notify_on_prompt(args)
        } else if chars_equal(&called, "tttt_notify_on_pattern") {
            self.handle_notify_on_pattern(args)
        } else if chars_equal(&called, "tttt_notify_cancel") {
            self.handle_notify_cancel(args)
        } else if chars_equal(&called, "tttt_notify_list") {
            self.handle_notify_list()
        } else if chars_equal(&called, "tttt_self_inject") {
            self.handle_self_inject(args, moment)
        } else {
            no_tool(name)
        }
    }

    fn resume(&mut self, task: Pending, moment: Moment) -> (step: Step) {
        Step::Unsupported
    }

    fn set_cancel_token(&mut self, token: CancelToken) {
    }

    fn tool_definitions(&self) -> (tools: Vec<ToolDefinition>) {
        notification_tool_definitions()
    }
}

/// A handler knows exactly the tools that it offers; a call of any other changes nothing.
pub proof fn law_notification_tools_are_those_offered<B: PtyBackend>(
    before: NotifyView<B>,
    name: Seq<char>,
    args: Arguments,
    moment: Moment,
    after: NotifyView<B>,
    step: Step,
)
    requires
        notification_answer(before, name, args, moment, after, step),
    ensures
        handler::lacks_tool(step, name) == !tools::has_tool(tools::notification_tools(), name),
        handler::lacks_tool(step, name) ==> after == before,
{
    let all = tools::notification_tools();
    assert(all[0].name == "tttt_notify_on_prompt"@);
    assert(all[1].name == "tttt_notify_on_pattern"@);
    assert(all[2].name == "tttt_notify_cancel"@);
    assert(all[3].name == "tttt_notify_list"@);
    assert(all[4].name == "tttt_self_inject"@);
}

} // verus!
