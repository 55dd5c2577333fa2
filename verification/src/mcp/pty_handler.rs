//! The tools for terminal sessions.
use crate::backend;
use crate::backend::{MockPty, PtyBackend};
use crate::error::{joined, PtyError};
use crate::json;
use crate::json::{entry, list, object, Member};
use crate::keys;
use crate::keys::has_whole_hex_escapes;
use crate::manager;
use crate::manager::{ManagerView, SessionManager};
use crate::mcp::arguments::{Arguments, Seconds};
use crate::mcp::error::{missing, McpError};
use crate::mcp::handler;
use crate::mcp::handler::{
    fail, low16, no_tool, reply, status_json, CancelToken, LaunchRequest, Pending, Step, ToolHandler,
};
use crate::mcp::protocol;
use crate::mcp::protocol::signed;
use crate::mcp::rate_limit;
use crate::mcp::rate_limit::{calculate_wait_duration, clock, parse_rate_limit_reset};
use crate::mcp::tools;
use crate::mcp::tools::{pty_tool_definitions, ToolDefinition, ToolView};
use crate::pattern;
use crate::session;
use crate::session::{MetadataView, PtySession, SessionMetadata, SessionStatus, SessionView};
use crate::text;
use crate::text::{chars_equal, clone_optional, push_decimal, to_chars};
use crate::time;
use crate::time::{Duration, Instant, Moment};
use crate::vt100::contents;
use crate::vt100::screen::min;
use std::collections::hash_map::DefaultHasher;
use std::hash::Hasher;
use vstd::prelude::*;
use vstd::std_specs::hash::*;
use vstd::string::*;
use vstd::utf8::*;

verus! {

/// The state of a handler.
pub struct PtyHandlerView<B> {
    pub manager: ManagerView<B>,
    pub work_dir: Seq<char>,
    pub cols: u16,
    pub rows: u16,
    pub cancelled: bool,
}

/// Handles the calls of the tools for terminal sessions.
pub struct PtyToolHandler<B: PtyBackend> {
    manager: SessionManager<B>,
    work_dir: String,
    default_cols: u16,
    default_rows: u16,
    cancelled: CancelToken,
}

impl<B: PtyBackend> View for PtyToolHandler<B> {
    type V = PtyHandlerView<B>;

    closed spec fn view(&self) -> PtyHandlerView<B> {
        PtyHandlerView {
            manager: self.manager@,
            work_dir: self.work_dir@,
            cols: self.default_cols,
            rows: self.default_rows,
            cancelled: self.cancelled,
        }
    }
}

/// A session that has been told the time.
pub open spec fn at<B>(s: SessionView<B>, now: Instant) -> SessionView<B> {
    SessionView { clock: now, ..s }
}

/// How a call works on one session, given by an identifier or a name: without it, it fails.
pub open spec fn in_session<B: PtyBackend>(
    before: PtyHandlerView<B>,
    id: Seq<char>,
    after: PtyHandlerView<B>,
    step: Step,
    works: spec_fn(SessionView<B>, SessionView<B>) -> bool,
) -> bool {
    match before.manager.place(id) {
        None => after == before && handler::lacks_session(step, id),
        Some(i) => {
            &&& after == (PtyHandlerView {
                manager: before.manager.with_session(i, after.manager.sessions[i].session),
                ..before
            })
            &&& works(before.manager.sessions[i].session, after.manager.sessions[i].session)
        },
    }
}

/// How a call works on the session that its arguments name.
pub open spec fn on_session<B: PtyBackend>(
    before: PtyHandlerView<B>,
    args: Arguments,
    after: PtyHandlerView<B>,
    step: Step,
    works: spec_fn(SessionView<B>, SessionView<B>) -> bool,
) -> bool {
    match args.session_id {
        None => after == before && handler::lacks(step, "session_id"@),
        Some(id) => in_session(before, id@, after, step, works),
    }
}

/// How a call reads the output of a session and then answers; an error of the session is handed
/// on.
pub open spec fn after_pump<B: PtyBackend>(
    before: SessionView<B>,
    after: SessionView<B>,
    step: Step,
    answered: bool,
) -> bool {
    ||| (manager::pumped_ok(before, after) && answered)
    ||| (step matches Step::Done(Err(McpError::Pty(e))) && before.pumped(after, Err(e)))
}

/// How a call sends keys to a session and then goes on. Keys that are cut short cannot be sent to
/// a session that runs; an error of the session is handed on.
pub open spec fn after_keys<B: PtyBackend>(
    before: SessionView<B>,
    typed: Seq<u8>,
    after: SessionView<B>,
    step: Step,
    answered: bool,
) -> bool {
    if before.status == SessionStatus::Running && !keys::hex_escapes_are_whole(typed) {
        after == before && step is Unsupported
    } else {
        exists|result: Result<(), PtyError>|
            #[trigger] before.sent(keys::key_bytes(typed), after, result) && (match result {
                Ok(_) => answered,
                Err(e) => handler::failed(step, e),
            })
    }
}

/// The status of a session, as it is written.
pub open spec fn status_value(status: SessionStatus) -> Seq<char> {
    match status {
        SessionStatus::Running => json::string_text("Running"@),
        SessionStatus::Exited(code) => json::object_text(
            seq![("Exited"@, protocol::signed_text(code as int))],
        ),
    }
}

/// What is known about a session, as it is written.
pub open spec fn metadata_text(m: MetadataView) -> Seq<char> {
    let first = seq![
        ("cols"@, text::decimal(m.cols as nat)),
        ("command"@, json::string_text(m.command)),
        ("id"@, json::string_text(m.id)),
    ];
    let second = tools::with_if(
        first,
        m.name is Some,
        ("name"@, json::string_text(m.name->0)),
    );
    json::object_text(
        second + seq![
            ("rows"@, text::decimal(m.rows as nat)),
            ("status"@, status_value(m.status)),
        ],
    )
}

/// What is known about sessions, as it is written.
pub open spec fn listing_text(list: Seq<MetadataView>) -> Seq<char> {
    json::list_text(list.map_values(|m: MetadataView| metadata_text(m)))
}

/// A screen and its cursor, as they are written: the column stands first.
pub open spec fn screen_text<B>(s: SessionView<B>) -> Seq<char> {
    json::object_text(
        seq![
            (
                "cursor"@,
                json::list_text(
                    seq![
                        text::decimal(s.screen.parser.screen.col as nat),
                        text::decimal(s.screen.parser.screen.row as nat),
                    ],
                ),
            ),
            ("screen"@, json::string_text(s.screen.parser.screen.text())),
        ],
    )
}

/// A span in nanoseconds as a number of seconds, as it is written.
pub open spec fn span_text(nanos: int) -> Seq<char> {
    let secs = if nanos / 1_000_000_000 > u64::MAX {
        u64::MAX
    } else {
        (nanos / 1_000_000_000) as u64
    };
    json::seconds_text_of(secs, (nanos % 1_000_000_000) as u32)
}

/// The time between two points; none where the first is later.
pub open spec fn elapsed(since: Instant, now: Instant) -> int {
    if now.nanos >= since.nanos {
        now.nanos - since.nanos
    } else {
        0
    }
}

/// The answer that names an idle session.
pub open spec fn idle_text(nanos: int, last_line: Seq<char>, status: Seq<char>) -> Seq<char> {
    json::object_text(
        seq![
            ("idle_seconds"@, span_text(nanos)),
            ("last_output_line"@, json::string_text(last_line)),
            ("status"@, json::string_text(status)),
        ],
    )
}

/// A later point in time.
pub open spec fn later(now: Instant, nanos: int) -> Instant {
    Instant { nanos: (now.nanos + nanos) as u128 }
}

/// What is answered, or waited for, once the output of a session was read that is to end.
pub open spec fn screen_answer<B>(
    s: SessionView<B>,
    id: Seq<char>,
    deadline: Instant,
    now: Instant,
    step: Step,
) -> bool {
    if s.status != SessionStatus::Running || now.nanos >= deadline.nanos {
        handler::replied(step, screen_text(s))
    } else {
        step matches Step::Wait { millis, task: Pending::Screen { session_id, deadline: d } }
            && millis == 10 && session_id@ == id && d == deadline
    }
}

/// Whether a span is as long as a number of seconds.
pub open spec fn reaches(nanos: int, threshold: Seconds) -> bool {
    match threshold {
        Seconds::Span(d) => nanos >= d.nanos,
        Seconds::Negative => true,
        Seconds::TooLong => false,
    }
}

/// The hash of a text.
pub open spec fn hash_of(s: Seq<char>) -> u64 {
    DefaultHasher::spec_finish(seq![encode_utf8(s), seq![0xffu8]])
}

/// What waiting for a session to be idle depends on.
pub struct IdleWait {
    pub session_id: Seq<char>,
    pub ignore_pattern: Option<Seq<char>>,
    pub threshold: Seconds,
    pub deadline: Instant,
    pub last_hash: Option<u64>,
    pub stable_since: Instant,
}

/// The wait that a call goes on with.
pub open spec fn idle_wait(task: Pending) -> Option<IdleWait> {
    match task {
        Pending::Idle { session_id, ignore_pattern, threshold, deadline, last_hash, stable_since } => Some(
            IdleWait {
                session_id: session_id@,
                ignore_pattern: text::optional_view(ignore_pattern),
                threshold,
                deadline,
                last_hash,
                stable_since,
            },
        ),
        _ => None,
    }
}

impl IdleWait {
    /// The wait after the screen has been looked at: where it has changed, the time starts anew.
    pub open spec fn seen(self, screen: Seq<char>, now: Instant) -> IdleWait {
        match self.ignore_pattern {
            None => self,
            Some(p) => {
                let hash = hash_of(pattern::regex_removed(p, screen));
                if self.last_hash == Some(hash) {
                    self
                } else {
                    IdleWait { last_hash: Some(hash), stable_since: now, ..self }
                }
            },
        }
    }

    /// How long the session has been idle: since its last output, or, where a pattern is ignored,
    /// since the rest of the screen has changed.
    pub open spec fn idle_nanos<B>(self, s: SessionView<B>, now: Instant) -> int {
        match self.ignore_pattern {
            None => elapsed(s.last_output, now),
            Some(_) => elapsed(self.stable_since, now),
        }
    }

    /// What is answered, or waited for, once the output of the session was read.
    pub open spec fn answer<B>(self, s: SessionView<B>, now: Instant, step: Step) -> bool {
        let screen = s.screen.parser.screen.text();
        let wait = self.seen(screen, now);
        let nanos = wait.idle_nanos(s, now);
        if reaches(nanos, self.threshold) {
            handler::replied(step, idle_text(nanos, session::last_text_line(screen), "idle"@))
        } else if now.nanos >= self.deadline.nanos {
            handler::replied(step, idle_text(nanos, session::last_text_line(screen), "timeout"@))
        } else {
            step matches Step::Wait { millis, task } && millis == 1_000 && idle_wait(task) == Some(
                wait,
            )
        }
    }

    /// How waiting goes on.
    pub open spec fn goes_on<B: PtyBackend>(
        self,
        before: PtyHandlerView<B>,
        now: Instant,
        after: PtyHandlerView<B>,
        step: Step,
    ) -> bool {
        if before.cancelled {
            after == before && handler::replied(step, handler::status_text("cancelled"@))
        } else {
            in_session(
                before,
                self.session_id,
                after,
                step,
                |s: SessionView<B>, t: SessionView<B>|
                    after_pump(at(s, now), t, step, self.answer(t, now, step)),
            )
        }
    }
}

/// What is answered, or waited for, once the output of a session was read that is to show a
/// pattern.
pub open spec fn pattern_answer<B>(
    s: SessionView<B>,
    id: Seq<char>,
    wanted: Seq<char>,
    timeout_ms: u64,
    deadline: Instant,
    now: Instant,
    step: Step,
) -> bool {
    let screen = s.screen.parser.screen.text();
    if pattern::regex_matches(wanted, screen) {
        handler::replied(
            step,
            json::object_text(
                seq![
                    ("screen"@, json::string_text(screen)),
                    ("status"@, json::string_text("matched"@)),
                ],
            ),
        )
    } else if now.nanos >= deadline.nanos {
        handler::gave_up(
            step,
            "timeout waiting for pattern '"@ + wanted + "' after "@ + text::decimal(
                timeout_ms as nat,
            ) + "ms"@,
        )
    } else {
        step matches Step::Wait {
            millis,
            task: Pending::Pattern { session_id, pattern: p, timeout_ms: t, deadline: d },
        } && millis == 100 && session_id@ == id && p@ == wanted && t == timeout_ms && d == deadline
    }
}

/// How waiting for a pattern goes on.
pub open spec fn pattern_goes_on<B: PtyBackend>(
    before: PtyHandlerView<B>,
    id: Seq<char>,
    wanted: Seq<char>,
    timeout_ms: u64,
    deadline: Instant,
    now: Instant,
    after: PtyHandlerView<B>,
    step: Step,
) -> bool {
    if before.cancelled {
        after == before && handler::replied(step, handler::status_text("cancelled"@))
    } else {
        in_session(
            before,
            id,
            after,
            step,
            |s: SessionView<B>, t: SessionView<B>|
                after_pump(
                    at(s, now),
                    t,
                    step,
                    pattern_answer(t, id, wanted, timeout_ms, deadline, now, step),
                ),
        )
    }
}

/// What is known about a rate limit while a call waits for it to end.
pub struct ResetWait {
    pub session_id: Seq<char>,
    pub prompt: Seq<char>,
    pub reset_time: Seq<char>,
    pub waited_minutes: u64,
}

impl ResetWait {
    /// A task waits for the end of the rate limit.
    pub open spec fn waits_for_reset(self, deadline: Instant, task: Pending) -> bool {
        task matches Pending::Reset {
            session_id,
            prompt,
            deadline: d,
            reset_time,
            waited_minutes,
        } && session_id@ == self.session_id && prompt@ == self.prompt && d == deadline
            && reset_time@ == self.reset_time && waited_minutes == self.waited_minutes
    }

    /// A task waits for the dialog to close.
    pub open spec fn waits_for_dialog(self, task: Pending) -> bool {
        task matches Pending::Prompt { session_id, prompt, reset_time, waited_minutes }
            && session_id@ == self.session_id && prompt@ == self.prompt && reset_time@
            == self.reset_time && waited_minutes == self.waited_minutes
    }

    /// How waiting for the end of the rate limit goes on: every second, unless it is cancelled.
    /// Then `a` is sent, and the dialog has two seconds to close.
    pub open spec fn reset_goes_on<B: PtyBackend>(
        self,
        deadline: Instant,
        before: PtyHandlerView<B>,
        now: Instant,
        after: PtyHandlerView<B>,
        step: Step,
    ) -> bool {
        if now.nanos < deadline.nanos {
            &&& after == before
            &&& if before.cancelled {
                handler::replied(
                    step,
                    message_text("Rate limit wait cancelled by client"@, "cancelled"@),
                )
            } else {
                step matches Step::Wait { millis, task } && millis == 1_000
                    && self.waits_for_reset(deadline, task)
            }
        } else {
            in_session(
                before,
                self.session_id,
                after,
                step,
                |s: SessionView<B>, t: SessionView<B>|
                    after_keys(
                        at(s, now),
                        encode_utf8("a"@),
                        t,
                        step,
                        step matches Step::Wait { millis, task } && millis == 2_000
                            && self.waits_for_dialog(task),
                    ),
            )
        }
    }

    /// How the session is told to go on once the dialog is closed.
    pub open spec fn dialog_goes_on<B: PtyBackend>(
        self,
        before: PtyHandlerView<B>,
        now: Instant,
        after: PtyHandlerView<B>,
        step: Step,
    ) -> bool {
        in_session(
            before,
            self.session_id,
            after,
            step,
            |s: SessionView<B>, t: SessionView<B>|
                after_keys(
                    at(s, now),
                    encode_utf8(self.prompt + "\n"@),
                    t,
                    step,
                    handler::replied(
                        step,
                        json::object_text(
                            seq![
                                (
                                    "message"@,
                                    json::string_text("Rate limit handled, session resumed"@),
                                ),
                                ("reset_time"@, json::string_text(self.reset_time)),
                                ("status"@, json::string_text("handled"@)),
                                ("waited_minutes"@, text::decimal(self.waited_minutes as nat)),
                            ],
                        ),
                    ),
                ),
        )
    }
}

/// How the call that lists the sessions is answered.
pub open spec fn list_answer<B: PtyBackend>(
    before: PtyHandlerView<B>,
    after: PtyHandlerView<B>,
    step: Step,
) -> bool {
    after == before && handler::replied(step, listing_text(before.manager.listing()))
}

/// How the call that shows a screen is answered: where the process runs, it has half a second to
/// end.
pub open spec fn get_screen_answer<B: PtyBackend>(
    before: PtyHandlerView<B>,
    args: Arguments,
    now: Instant,
    after: PtyHandlerView<B>,
    step: Step,
) -> bool {
    on_session(
        before,
        args,
        after,
        step,
        |s: SessionView<B>, t: SessionView<B>|
            after_pump(
                at(s, now),
                t,
                step,
                screen_answer(t, args.session_id->0@, later(now, 500_000_000), now, step),
            ),
    )
}

/// How the call that sends keys is answered.
pub open spec fn send_keys_answer<B: PtyBackend>(
    before: PtyHandlerView<B>,
    args: Arguments,
    now: Instant,
    after: PtyHandlerView<B>,
    step: Step,
) -> bool {
    if args.session_id is Some && args.keys is None {
        after == before && handler::lacks(step, "keys"@)
    } else {
        on_session(
            before,
            args,
            after,
            step,
            |s: SessionView<B>, t: SessionView<B>|
                after_keys(
                    at(s, now),
                    encode_utf8(args.keys->0@),
                    t,
                    step,
                    handler::replied(step, handler::status_text("ok"@)),
                ),
        )
    }
}

/// How the call that kills a session is answered.
pub open spec fn kill_answer<B: PtyBackend>(
    before: PtyHandlerView<B>,
    args: Arguments,
    after: PtyHandlerView<B>,
    step: Step,
) -> bool {
    match args.session_id {
        None => after == before && handler::lacks(step, "session_id"@),
        Some(id) => match before.manager.place_of_id(id@) {
            None => after == before && handler::lacks_session(step, id@),
            Some(i) => {
                &&& after == (PtyHandlerView { manager: after.manager, ..before })
                &&& exists|result: Result<(), PtyError>|
                    #[trigger] manager::killed_at(before.manager, i, after.manager, result) && (
                    match result {
                        Ok(_) => handler::replied(step, handler::status_text("ok"@)),
                        Err(e) => handler::failed(step, e),
                    })
            },
        },
    }
}

/// How the call that asks for the cursor is answered.
pub open spec fn get_cursor_answer<B: PtyBackend>(
    before: PtyHandlerView<B>,
    args: Arguments,
    after: PtyHandlerView<B>,
    step: Step,
) -> bool {
    &&& after == before
    &&& match args.session_id {
        None => handler::lacks(step, "session_id"@),
        Some(id) => match before.manager.place(id@) {
            None => handler::lacks_session(step, id@),
            Some(i) => {
                let screen = before.manager.sessions[i].session.screen.parser.screen;
                handler::replied(
                    step,
                    json::object_text(
                        seq![
                            ("col"@, text::decimal(screen.col as nat)),
                            ("row"@, text::decimal(screen.row as nat)),
                        ],
                    ),
                )
            },
        },
    }
}

/// How the call that resizes a session is answered.
pub open spec fn resize_answer<B: PtyBackend>(
    before: PtyHandlerView<B>,
    args: Arguments,
    after: PtyHandlerView<B>,
    step: Step,
) -> bool {
    if args.session_id is Some && args.cols is None {
        after == before && handler::lacks(step, "cols"@)
    } else if args.session_id is Some && args.rows is None {
        after == before && handler::lacks(step, "rows"@)
    } else {
        on_session(
            before,
            args,
            after,
            step,
            |s: SessionView<B>, t: SessionView<B>|
                exists|result: Result<(), PtyError>|
                    #[trigger] s.resized_to(
                        handler::low_bits(args.cols->0),
                        handler::low_bits(args.rows->0),
                        t,
                        result,
                    ) && (match result {
                        Ok(_) => handler::replied(step, handler::status_text("ok"@)),
                        Err(e) => handler::failed(step, e),
                    }),
        )
    }
}

/// The last lines that have scrolled off a screen, as they are written.
pub open spec fn scrollback_text<B>(s: SessionView<B>, max_lines: int) -> Seq<char> {
    let rows = s.screen.parser.screen.scrollback;
    let n = min(rows.len() as int, max_lines);
    json::object_text(
        seq![
            (
                "lines"@,
                json::list_text(
                    Seq::new(
                        n as nat,
                        |i: int|
                            json::string_text(
                                contents::line_text(rows[rows.len() - n + i].cells),
                            ),
                    ),
                ),
            ),
        ],
    )
}

/// How the call that asks for scrollback is answered. Unless it says how many, it gets a hundred
/// lines.
pub open spec fn get_scrollback_answer<B: PtyBackend>(
    before: PtyHandlerView<B>,
    args: Arguments,
    now: Instant,
    after: PtyHandlerView<B>,
    step: Step,
) -> bool {
    let lines = (match args.lines {
        Some(n) => n,
        None => 100,
    }) as usize;
    on_session(
        before,
        args,
        after,
        step,
        |s: SessionView<B>, t: SessionView<B>|
            after_pump(
                at(s, now),
                t,
                step,
                handler::replied(step, scrollback_text(t, lines as int)),
            ),
    )
}

/// How the call that sets the depth of scrollback is answered.
pub open spec fn set_scrollback_answer<B: PtyBackend>(
    before: PtyHandlerView<B>,
    args: Arguments,
    after: PtyHandlerView<B>,
    step: Step,
) -> bool {
    if args.session_id is Some && args.lines is None {
        after == before && handler::lacks(step, "lines"@)
    } else {
        on_session(
            before,
            args,
            after,
            step,
            |s: SessionView<B>, t: SessionView<B>|
                t == s.with_scrollback(args.lines->0 as usize) && handler::replied(
                    step,
                    handler::status_text("ok"@),
                ),
        )
    }
}

/// How the call that waits for a pattern begins.
pub open spec fn wait_for_answer<B: PtyBackend>(
    before: PtyHandlerView<B>,
    args: Arguments,
    now: Instant,
    after: PtyHandlerView<B>,
    step: Step,
) -> bool {
    let timeout_ms = match args.timeout_ms {
        Some(n) => n,
        None => 30_000,
    };
    match (args.session_id, args.pattern) {
        (None, _) => after == before && handler::lacks(step, "session_id"@),
        (Some(_), None) => after == before && handler::lacks(step, "pattern"@),
        (Some(id), Some(wanted)) => match pattern::regex_error(wanted@) {
            Some(e) => after == before && handler::refused(
                step,
                "invalid regex '"@ + wanted@ + "': "@ + e,
            ),
            None => pattern_goes_on(
                before,
                id@,
                wanted@,
                timeout_ms,
                later(now, timeout_ms * 1_000_000),
                now,
                after,
                step,
            ),
        },
    }
}

/// A number of seconds with a default.
pub open spec fn seconds_or(given: Option<Seconds>, secs: int) -> Seconds {
    match given {
        Some(s) => s,
        None => Seconds::Span(Duration { nanos: (secs * 1_000_000_000) as u128 }),
    }
}

/// How the call that waits for a session to be idle begins. Unless it says otherwise, ten seconds
/// count as idle, and after five minutes it gives up. No clock waits for a negative time, or for
/// longer than any span.
pub open spec fn wait_for_idle_answer<B: PtyBackend>(
    before: PtyHandlerView<B>,
    args: Arguments,
    now: Instant,
    after: PtyHandlerView<B>,
    step: Step,
) -> bool {
    match args.session_id {
        None => after == before && handler::lacks(step, "session_id"@),
        Some(id) => if args.ignore_pattern is Some && pattern::regex_error(
            args.ignore_pattern->0@,
        ) is Some {
            after == before && handler::refused(
                step,
                "invalid ignore_pattern: "@ + pattern::regex_error(args.ignore_pattern->0@)->0,
            )
        } else {
            match seconds_or(args.timeout, 300) {
                Seconds::Span(timeout) => if now.nanos + timeout.nanos > u128::MAX {
                    after == before && step is Unsupported
                } else {
                    (IdleWait {
                        session_id: id@,
                        ignore_pattern: text::optional_view(args.ignore_pattern),
                        threshold: seconds_or(args.idle_seconds, 10),
                        deadline: later(now, timeout.nanos as int),
                        last_hash: None,
                        stable_since: now,
                    }).goes_on(before, now, after, step)
                },
                _ => after == before && step is Unsupported,
            }
        },
    }
}

/// How the call that begins a capture is answered.
pub open spec fn start_capture_answer<B: PtyBackend>(
    before: PtyHandlerView<B>,
    args: Arguments,
    moment: Moment,
    after: PtyHandlerView<B>,
    step: Step,
) -> bool {
    on_session(
        before,
        args,
        after,
        step,
        |s: SessionView<B>, t: SessionView<B>|
            {
                let id = s.id + "-"@ + text::decimal(moment.unix.spec_millis() as nat);
                if s.capture_path is Some {
                    t == s && handler::failed(step, PtyError::CaptureAlreadyActive)
                } else {
                    &&& t == (SessionView {
                        capture_path: Some(session::capture_file(id)),
                        capture_bytes: 0,
                        ..s
                    })
                    &&& handler::replied(
                        step,
                        json::object_text(
                            seq![
                                ("capture_id"@, json::string_text(id)),
                                ("file_path"@, json::string_text(session::capture_file(id))),
                            ],
                        ),
                    )
                }
            },
    )
}

/// How the call that ends a capture is answered.
pub open spec fn stop_capture_answer<B: PtyBackend>(
    before: PtyHandlerView<B>,
    args: Arguments,
    after: PtyHandlerView<B>,
    step: Step,
) -> bool {
    on_session(
        before,
        args,
        after,
        step,
        |s: SessionView<B>, t: SessionView<B>|
            match s.capture_path {
                None => t == s && handler::failed(step, PtyError::NoCaptureActive),
                Some(path) => {
                    &&& t == (SessionView { capture_path: None, capture_bytes: 0, ..s })
                    &&& handler::replied(
                        step,
                        json::object_text(
                            seq![
                                ("bytes_written"@, text::decimal(s.capture_bytes as nat)),
                                ("file_path"@, json::string_text(path)),
                            ],
                        ),
                    )
                },
            },
    )
}

/// The status of a session in a few words.
pub open spec fn status_words(status: SessionStatus) -> Seq<char> {
    match status {
        SessionStatus::Running => "Running"@,
        SessionStatus::Exited(code) => "Exited("@ + protocol::signed_text(code as int) + ")"@,
    }
}

/// The state of a session, as it is written.
pub open spec fn session_status_text<B>(
    m: MetadataView,
    s: SessionView<B>,
    now: Instant,
) -> Seq<char> {
    json::object_text(
        seq![
            ("command"@, json::string_text(m.command)),
            ("id"@, json::string_text(m.id)),
            ("idle_seconds"@, span_text(elapsed(s.last_output, now))),
            ("input_idle_seconds"@, span_text(elapsed(s.last_input, now))),
            (
                "last_output_line"@,
                json::string_text(session::last_text_line(s.screen.parser.screen.text())),
            ),
            ("name"@, json::optional_text(m.name)),
            ("status"@, json::string_text(status_words(m.status))),
        ],
    )
}

/// The states of the listed sessions that are found under their identifiers.
pub open spec fn session_status_texts<B: PtyBackend>(
    manager: ManagerView<B>,
    list: Seq<MetadataView>,
    now: Instant,
) -> Seq<Seq<char>>
    decreases list.len(),
{
    if list.len() == 0 {
        Seq::empty()
    } else {
        let front = session_status_texts(manager, list.drop_last(), now);
        match manager.place(list.last().id) {
            Some(i) => front.push(
                session_status_text(list.last(), manager.sessions[i].session, now),
            ),
            None => front,
        }
    }
}

/// How the call that asks for the state of everything is answered.
pub open spec fn get_status_answer<B: PtyBackend>(
    before: PtyHandlerView<B>,
    now: Instant,
    after: PtyHandlerView<B>,
    step: Step,
) -> bool {
    after == before && handler::replied(
        step,
        json::object_text(
            seq![
                ("active_watchers"@, text::decimal(0)),
                ("pending_reminders"@, text::decimal(0)),
                (
                    "sessions"@,
                    json::list_text(
                        session_status_texts(before.manager, before.manager.listing(), now),
                    ),
                ),
            ],
        ),
    )
}

/// What is answered, or waited for, once the screen of a session was read that may show a rate
/// limit.
pub open spec fn rate_limit_answer<B: PtyBackend>(
    before: PtyHandlerView<B>,
    args: Arguments,
    moment: Moment,
    screen: Seq<char>,
    after: PtyHandlerView<B>,
    step: Step,
) -> bool {
    let reset = match pattern::regex_captures(rate_limit::RESET_PATTERN@, screen) {
        Some(groups) => rate_limit::reset_of(groups),
        None => None,
    };
    match reset {
        None => after == before && handler::replied(
            step,
            message_text("No rate limit dialog detected on screen"@, "no_rate_limit"@),
        ),
        Some((hour, minute, zone)) => match rate_limit::wait_of(
            hour,
            minute,
            zone,
            margin_of(args),
            moment.unix,
        ) {
            Err(e) => after == before && handler::gave_up(step, e),
            Ok(secs) => (ResetWait {
                session_id: args.session_id->0@,
                prompt: match args.continuation_prompt {
                    Some(p) => p@,
                    None => "Continue from where you left off."@,
                },
                reset_time: rate_limit::clock_text(hour, minute),
                waited_minutes: (secs / 60) as u64,
            }).reset_goes_on(
                later(moment.now, secs * 1_000_000_000),
                before,
                moment.now,
                after,
                step,
            ),
        },
    }
}

/// The minutes that are waited for beyond the end of a rate limit: fifteen unless the call says
/// otherwise, and what fits in 32 bits of what it says.
pub open spec fn margin_of(args: Arguments) -> int {
    match args.safety_margin_minutes {
        Some(n) => n as int % 0x1_0000_0000,
        None => 15,
    }
}

/// How the call that sits out a rate limit begins.
pub open spec fn handle_rate_limit_answer<B: PtyBackend>(
    before: PtyHandlerView<B>,
    args: Arguments,
    moment: Moment,
    after: PtyHandlerView<B>,
    step: Step,
) -> bool {
    match args.session_id {
        None => after == before && handler::lacks(step, "session_id"@),
        Some(id) => match before.manager.place(id@) {
            None => after == before && handler::lacks_session(step, id@),
            Some(i) => {
                let s = at(before.manager.sessions[i].session, moment.now);
                ||| (step matches Step::Done(Err(McpError::Pty(e))) && s.pumped(
                    after.manager.sessions[i].session,
                    Err(e),
                ) && after == before.with(i, after.manager.sessions[i].session))
                ||| (exists|t: SessionView<B>|
                    #[trigger] manager::pumped_ok(s, t) && rate_limit_answer(
                        before.with(i, t),
                        args,
                        moment,
                        t.screen.parser.screen.text(),
                        after,
                        step,
                    ))
            },
        },
    }
}

impl<B: PtyBackend> PtyHandlerView<B> {
    /// The handler with a session changed.
    pub open spec fn with(self, i: int, s: SessionView<B>) -> PtyHandlerView<B> {
        PtyHandlerView { manager: self.manager.with_session(i, s), ..self }
    }
}

/// The size that a session is started with: the handler's own where a call says nothing.
pub open spec fn size_or(given: Option<u64>, usual: u16) -> u16 {
    match given {
        Some(n) => handler::low_bits(n),
        None => usual,
    }
}

/// How the call that starts a session is answered: a process is asked for.
pub open spec fn launch_answer<B: PtyBackend>(
    before: PtyHandlerView<B>,
    args: Arguments,
    after: PtyHandlerView<B>,
    step: Step,
) -> bool {
    &&& after == before
    &&& step matches Step::Launch(r) && {
        &&& text::optional_view(r.command) == text::optional_view(args.command)
        &&& json::views(r.args@) == json::views(args.args@)
        &&& text::optional_view(r.working_dir) == text::optional_view(args.working_dir)
        &&& text::optional_view(r.name) == text::optional_view(args.name)
        &&& r.cols == size_or(args.cols, before.cols)
        &&& r.rows == size_or(args.rows, before.rows)
    }
}

/// An answer with a message and a status.
pub open spec fn message_text(message: Seq<char>, status: Seq<char>) -> Seq<char> {
    json::object_text(
        seq![
            ("message"@, json::string_text(message)),
            ("status"@, json::string_text(status)),
        ],
    )
}

fn message_json(message: &str, status: &str) -> (s: String)
    ensures
        s@ == message_text(message@, status@),
{
    let members: Vec<Member> = vec![
        entry("message", json::string(message)),
        entry("status", json::string(status)),
    ];
    assert(json::member_views(members@) =~= seq![
        ("message"@, json::string_text(message@)),
        ("status"@, json::string_text(status@)),
    ]);
    object(&members)
}

fn status_json_value(status: SessionStatus) -> (s: String)
    ensures
        s@ == status_value(status),
{
    match status {
        SessionStatus::Running => json::string("Running"),
        SessionStatus::Exited(code) => {
            let members: Vec<Member> = vec![entry("Exited", signed(code as i64))];
            assert(json::member_views(members@) =~= seq![
                ("Exited"@, protocol::signed_text(code as int)),
            ]);
            object(&members)
        },
    }
}

fn metadata_json(m: &SessionMetadata) -> (s: String)
    ensures
        s@ == metadata_text(m@),
{
    let mut members: Vec<Member> = vec![
        entry("cols", json::number(m.cols as u64)),
        entry("command", json::string(m.command.as_str())),
        entry("id", json::string(m.id.as_str())),
    ];
    let ghost first = seq![
        ("cols"@, text::decimal(m@.cols as nat)),
        ("command"@, json::string_text(m@.command)),
        ("id"@, json::string_text(m@.id)),
    ];
    assert(json::member_views(members@) =~= first);
    match &m.name {
        Some(name) => {
            members.push(entry("name", json::string(name.as_str())));
        },
        None => {},
    }
    let ghost second = tools::with_if(
        first,
        m@.name is Some,
        ("name"@, json::string_text(m@.name->0)),
    );
    assert(json::member_views(members@) =~= second);
    members.push(entry("rows", json::number(m.rows as u64)));
    members.push(entry("status", status_json_value(m.status)));
    assert(json::member_views(members@) =~= second + seq![
        ("rows"@, text::decimal(m@.rows as nat)),
        ("status"@, status_value(m@.status)),
    ]);
    object(&members)
}

/// What is known about sessions, as it is written.
pub fn listing_json(sessions: &[SessionMetadata]) -> (s: String)
    ensures
        s@ == listing_text(manager::meta_views(sessions@)),
{
    let mut items: Vec<String> = Vec::new();
    let mut i: usize = 0;
    while i < sessions.len()
        invariant
            i <= sessions.len(),
            items.len() == i,
            forall|k: int| 0 <= k < i ==> (#[trigger] items@[k])@ == metadata_text(sessions@[k]@),
        decreases sessions.len() - i,
    {
        items.push(metadata_json(&sessions[i]));
        i += 1;
    }
    assert(json::views(items@) =~= manager::meta_views(sessions@).map_values(
        |m: MetadataView| metadata_text(m),
    ));
    list(&items)
}

fn screen_json<B: PtyBackend>(session: &PtySession<B>) -> (s: String)
    requires
        session.wf(),
    ensures
        s@ == screen_text(session@),
{
    let contents = session.get_screen();
    let (row, col) = session.cursor_position();
    let cursor: Vec<String> = vec![json::number(col as u64), json::number(row as u64)];
    assert(json::views(cursor@) =~= seq![text::decimal(col as nat), text::decimal(row as nat)]);
    let members: Vec<Member> = vec![
        entry("cursor", list(&cursor)),
        entry("screen", json::string(contents.as_str())),
    ];
    assert(json::member_views(members@) =~= seq![
        (
            "cursor"@,
            json::list_text(seq![text::decimal(col as nat), text::decimal(row as nat)]),
        ),
        ("screen"@, json::string_text(contents@)),
    ]);
    object(&members)
}

/// A span as a number of seconds, as it is written.
pub fn span_json(d: Duration) -> (s: String)
    ensures
        s@ == span_text(d.nanos as int),
{
    let whole: u128 = d.nanos / 1_000_000_000;
    let secs: u64 = if whole > u64::MAX as u128 {
        u64::MAX
    } else {
        whole as u64
    };
    json::seconds(secs, (d.nanos % 1_000_000_000) as u32)
}

fn idle_json(d: Duration, last_line: &str, status: &str) -> (s: String)
    ensures
        s@ == idle_text(d.nanos as int, last_line@, status@),
{
    let members: Vec<Member> = vec![
        entry("idle_seconds", span_json(d)),
        entry("last_output_line", json::string(last_line)),
        entry("status", json::string(status)),
    ];
    assert(json::member_views(members@) =~= seq![
        ("idle_seconds"@, span_text(d.nanos as int)),
        ("last_output_line"@, json::string_text(last_line@)),
        ("status"@, json::string_text(status@)),
    ]);
    object(&members)
}

fn is_reached(d: Duration, threshold: Seconds) -> (b: bool)
    ensures
        b == reaches(d.nanos as int, threshold),
{
    match threshold {
        Seconds::Span(t) => d.nanos >= t.nanos,
        Seconds::Negative => true,
        Seconds::TooLong => false,
    }
}

fn text_hash(s: &str) -> (h: u64)
    ensures
        h == hash_of(s@),
{
    let mut hasher = DefaultHasher::new();
    hasher.write(s.as_bytes());
    let end: Vec<u8> = vec![0xff];
    hasher.write(&end);
    assert(end@ =~= seq![0xffu8]);
    assert(hasher@ =~= seq![encode_utf8(s@), seq![0xffu8]]);
    hasher.finish()
}

impl<B: PtyBackend> PtyToolHandler<B> {
    /// The sessions are valid.
    pub open spec fn valid(&self) -> bool {
        self@.manager.wf()
    }

    /// A handler that owns its sessions. New ones have 80 columns and 24 rows unless a call says
    /// otherwise.
    pub fn new(manager: SessionManager<B>, work_dir: String) -> (h: Self)
        requires
            manager.wf(),
        ensures
            h.valid(),
            h@ == (PtyHandlerView::<B> {
                manager: manager@,
                work_dir: work_dir@,
                cols: 80,
                rows: 24,
                cancelled: false,
            }),
    {
        PtyToolHandler {
            manager,
            work_dir,
            default_cols: 80,
            default_rows: 24,
            cancelled: false,
        }
    }

    /// A handler that owns its sessions.
    pub fn new_owned(manager: SessionManager<B>, work_dir: String) -> (h: Self)
        requires
            manager.wf(),
        ensures
            h.valid(),
            h@ == (PtyHandlerView::<B> {
                manager: manager@,
                work_dir: work_dir@,
                cols: 80,
                rows: 24,
                cancelled: false,
            }),
    {
        PtyToolHandler::new(manager, work_dir)
    }

    /// The handler with another size for new sessions.
    pub fn with_default_dims(self, cols: u16, rows: u16) -> (h: Self)
        ensures
            h@ == (PtyHandlerView { cols, rows, ..self@ }),
    {
        let mut h = self;
        h.default_cols = cols;
        h.default_rows = rows;
        h
    }

    /// Sets the size for new sessions.
    pub fn set_default_dims(&mut self, cols: u16, rows: u16)
        ensures
            final(self)@ == (PtyHandlerView { cols, rows, ..old(self)@ }),
    {
        self.default_cols = cols;
        self.default_rows = rows;
    }

    /// The sessions.
    pub fn manager(&self) -> (m: &SessionManager<B>)
        ensures
            m@ == self@.manager,
    {
        &self.manager
    }

    /// The sessions, to be changed.
    pub fn manager_mut(&mut self) -> (m: &mut SessionManager<B>)
        ensures
            m@ == old(self)@.manager,
            final(self)@ == (PtyHandlerView { manager: (*final(m))@, ..old(self)@ }),
    {
        &mut self.manager
    }

    /// The directory that commands run in unless a call says otherwise.
    pub fn work_dir(&self) -> (dir: &String)
        ensures
            dir@ == self@.work_dir,
    {
        &self.work_dir
    }

    fn handle_pty_list(&self) -> (step: Step)
        ensures
            list_answer(self@, self@, step),
    {
        let sessions = self.manager.list();
        reply(listing_json(&sessions))
    }

    fn screen_step(&mut self, id: &str, deadline: Instant, now: Instant) -> (step: Step)
        requires
            old(self).valid(),
        ensures
            final(self).valid(),
            in_session(
                old(self)@,
                id@,
                final(self)@,
                step,
                |s: SessionView<B>, t: SessionView<B>|
                    after_pump(at(s, now), t, step, screen_answer(t, id@, deadline, now, step)),
            ),
    {
        let ghost before = self@;
        proof {
            manager::lemma_place(before.manager, id@);
        }
        match self.manager.get_mut(id) {
            Ok(session) => {
                session.set_clock(now);
                let ghost s = session@;
                let pumped = session.pump();
                let ghost t = session@;
                let step = match pumped {
                    Ok(_) => {
                        assert(manager::pumped_ok(s, t));
                        if *session.status() != SessionStatus::Running || now.nanos
                            >= deadline.nanos {
                            reply(screen_json(session))
                        } else {
                            Step::Wait {
                                millis: 10,
                                task: Pending::Screen { session_id: id.to_string(), deadline },
                            }
                        }
                    },
                    Err(e) => fail(McpError::Pty(e)),
                };
                proof {
                    manager::lemma_change_keeps_wf(before.manager, before.manager.place(id@)->0, t);
                }
                step
            },
            Err(e) => fail(McpError::Pty(e)),
        }
    }

    /// Shows the screen of a session.
    pub fn handle_pty_get_screen(&mut self, args: &Arguments, moment: Moment) -> (step: Step)
        requires
            old(self).valid(),
            moment.wf(),
        ensures
            final(self).valid(),
            get_screen_answer(old(self)@, *args, moment.now, final(self)@, step),
    {
        match &args.session_id {
            None => fail(missing("session_id")),
            Some(id) => {
                let deadline = moment.now.plus(Duration::from_millis(500));
                self.screen_step(id.as_str(), deadline, moment.now)
            },
        }
    }

    fn type_keys(&mut self, id: &str, typed: &str, now: Instant, answer: Step) -> (step: Step)
        requires
            old(self).valid(),
            !(answer is Unsupported),
        ensures
            final(self).valid(),
            in_session(
                old(self)@,
                id@,
                final(self)@,
                step,
                |s: SessionView<B>, t: SessionView<B>|
                    after_keys(at(s, now), encode_utf8(typed@), t, step, step == answer),
            ),
    {
        let ghost before = self@;
        proof {
            manager::lemma_place(before.manager, id@);
        }
        match self.manager.get_mut(id) {
            Ok(session) => {
                session.set_clock(now);
                let ghost s = session@;
                let running = *session.status() == SessionStatus::Running;
                let step = if running && !has_whole_hex_escapes(typed) {
                    Step::Unsupported
                } else {
                    let sent = if running {
                        session.send_keys(typed)
                    } else {
                        Err(PtyError::SessionExited)
                    };
                    let ghost result = sent;
                    assert(s.sent(keys::key_bytes(encode_utf8(typed@)), session@, result));
                    match sent {
                        Ok(_) => answer,
                        Err(e) => fail(McpError::Pty(e)),
                    }
                };
                let ghost t = session@;
                proof {
                    manager::lemma_change_keeps_wf(before.manager, before.manager.place(id@)->0, t);
                }
                step
            },
            Err(e) => fail(McpError::Pty(e)),
        }
    }

    /// Sends keys to a session.
    pub fn handle_pty_send_keys(&mut self, args: &Arguments, moment: Moment) -> (step: Step)
        requires
            old(self).valid(),
        ensures
            final(self).valid(),
            send_keys_answer(old(self)@, *args, moment.now, final(self)@, step),
    {
        match &args.session_id {
            None => fail(missing("session_id")),
            Some(id) => match &args.keys {
                None => fail(missing("keys")),
                Some(typed) => self.type_keys(
                    id.as_str(),
                    typed.as_str(),
                    moment.now,
                    reply(status_json("ok")),
                ),
            },
        }
    }

    /// Kills a session.
    pub fn handle_pty_kill(&mut self, args: &Arguments) -> (step: Step)
        requires
            old(self).valid(),
        ensures
            final(self).valid(),
            kill_answer(old(self)@, *args, final(self)@, step),
    {
        match &args.session_id {
            None => fail(missing("session_id")),
            Some(id) => {
                let killed = self.manager.kill_session(id.as_str());
                let ghost result = killed;
                match killed {
                    Ok(_) => reply(status_json("ok")),
                    Err(e) => fail(McpError::Pty(e)),
                }
            },
        }
    }

    /// Says where the cursor of a session is.
    pub fn handle_pty_get_cursor(&self, args: &Arguments) -> (step: Step)
        requires
            self.valid(),
        ensures
            get_cursor_answer(self@, *args, self@, step),
    {
        match &args.session_id {
            None => fail(missing("session_id")),
            Some(id) => match self.manager.get(id.as_str()) {
                Ok(session) => {
                    let (row, col) = session.cursor_position();
                    let members: Vec<Member> = vec![
                        entry("col", json::number(col as u64)),
                        entry("row", json::number(row as u64)),
                    ];
                    assert(json::member_views(members@) =~= seq![
                        ("col"@, text::decimal(col as nat)),
                        ("row"@, text::decimal(row as nat)),
                    ]);
                    reply(object(&members))
                },
                Err(e) => fail(McpError::Pty(e)),
            },
        }
    }

    /// Resizes a session.
    pub fn handle_pty_resize(&mut self, args: &Arguments) -> (step: Step)
        requires
            old(self).valid(),
        ensures
            final(self).valid(),
            resize_answer(old(self)@, *args, final(self)@, step),
    {
        let id = match &args.session_id {
            None => {
                return fail(missing("session_id"));
            },
            Some(id) => id,
        };
        let cols = match args.cols {
            None => {
                return fail(missing("cols"));
            },
            Some(n) => low16(n),
        };
        let rows = match args.rows {
            None => {
                return fail(missing("rows"));
            },
            Some(n) => low16(n),
        };
        let ghost before = self@;
        proof {
            manager::lemma_place(before.manager, id@);
        }
        match self.manager.get_mut(id.as_str()) {
            Ok(session) => {
                let ghost s = session@;
                let resized = session.resize(cols, rows);
                let ghost result = resized;
                let ghost t = session@;
                assert(s.resized_to(cols, rows, t, result));
                proof {
                    manager::lemma_change_keeps_wf(before.manager, before.manager.place(id@)->0, t);
                }
                match resized {
                    Ok(_) => reply(status_json("ok")),
                    Err(e) => fail(McpError::Pty(e)),
                }
            },
            Err(e) => fail(McpError::Pty(e)),
        }
    }

    /// Shows what has scrolled off the screen of a session.
    pub fn handle_pty_get_scrollback(&mut self, args: &Arguments, moment: Moment) -> (step: Step)
        requires
            old(self).valid(),
        ensures
            final(self).valid(),
            get_scrollback_answer(old(self)@, *args, moment.now, final(self)@, step),
    {
        let id = match &args.session_id {
            None => {
                return fail(missing("session_id"));
            },
            Some(id) => id,
        };
        let wanted: u64 = match args.lines {
            Some(n) => n,
            None => 100,
        };
        let max_lines = #[verifier::truncate]
        (wanted as usize);
        let ghost before = self@;
        proof {
            manager::lemma_place(before.manager, id@);
        }
        match self.manager.get_mut(id.as_str()) {
            Ok(session) => {
                session.set_clock(moment.now);
                let ghost s = session@;
                let pumped = session.pump();
                let ghost t = session@;
                proof {
                    manager::lemma_change_keeps_wf(before.manager, before.manager.place(id@)->0, t);
                }
                match pumped {
                    Ok(_) => {
                        assert(manager::pumped_ok(s, t));
                        let lines = session.get_scrollback(max_lines);
                        let texts = strings(&lines);
                        let members: Vec<Member> = vec![entry("lines", list(&texts))];
                        proof {
                            let rows = t.screen.parser.screen.scrollback;
                            let n = min(rows.len() as int, max_lines as int);
                            assert(json::views(texts@) =~= Seq::new(
                                n as nat,
                                |i: int|
                                    json::string_text(
                                        contents::line_text(rows[rows.len() - n + i].cells),
                                    ),
                            ));
                            assert(json::member_views(members@) =~= seq![
                                ("lines"@, json::list_text(json::views(texts@))),
                            ]);
                        }
                        reply(object(&members))
                    },
                    Err(e) => fail(McpError::Pty(e)),
                }
            },
            Err(e) => fail(McpError::Pty(e)),
        }
    }

    /// Sets how much scrollback a session keeps.
    pub fn handle_pty_set_scrollback(&mut self, args: &Arguments) -> (step: Step)
        requires
            old(self).valid(),
        ensures
            final(self).valid(),
            set_scrollback_answer(old(self)@, *args, final(self)@, step),
    {
        let id = match &args.session_id {
            None => {
                return fail(missing("session_id"));
            },
            Some(id) => id,
        };
        let wanted: u64 = match args.lines {
            Some(n) => n,
            None => {
                return fail(missing("lines"));
            },
        };
        let lines = #[verifier::truncate]
        (wanted as usize);
        let ghost before = self@;
        proof {
            manager::lemma_place(before.manager, id@);
        }
        match self.manager.get_mut(id.as_str()) {
            Ok(session) => {
                session.set_scrollback(lines);
                let ghost t = session@;
                proof {
                    manager::lemma_change_keeps_wf(before.manager, before.manager.place(id@)->0, t);
                }
                reply(status_json("ok"))
            },
            Err(e) => fail(McpError::Pty(e)),
        }
    }

    /// Begins to capture the output of a session.
    pub fn handle_pty_start_capture(&mut self, args: &Arguments, moment: Moment) -> (step: Step)
        requires
            old(self).valid(),
            moment.wf(),
        ensures
            final(self).valid(),
            start_capture_answer(old(self)@, *args, moment, final(self)@, step),
    {
        let id = match &args.session_id {
            None => {
                return fail(missing("session_id"));
            },
            Some(id) => id,
        };
        let ghost before = self@;
        proof {
            manager::lemma_place(before.manager, id@);
        }
        match self.manager.get_mut(id.as_str()) {
            Ok(session) => {
                let started = session.start_capture(moment.unix.millis());
                let ghost t = session@;
                proof {
                    manager::lemma_change_keeps_wf(before.manager, before.manager.place(id@)->0, t);
                }
                match started {
                    Ok((capture_id, file_path)) => {
                        let members: Vec<Member> = vec![
                            entry("capture_id", json::string(capture_id.as_str())),
                            entry("file_path", json::string(file_path.as_str())),
                        ];
                        assert(json::member_views(members@) =~= seq![
                            ("capture_id"@, json::string_text(capture_id@)),
                            ("file_path"@, json::string_text(file_path@)),
                        ]);
                        reply(object(&members))
                    },
                    Err(e) => fail(McpError::Pty(e)),
                }
            },
            Err(e) => fail(McpError::Pty(e)),
        }
    }

    /// Ends a capture.
    pub fn handle_pty_stop_capture(&mut self, args: &Arguments) -> (step: Step)
        requires
            old(self).valid(),
        ensures
            final(self).valid(),
            stop_capture_answer(old(self)@, *args, final(self)@, step),
    {
        let id = match &args.session_id {
            None => {
                return fail(missing("session_id"));
            },
            Some(id) => id,
        };
        let ghost before = self@;
        proof {
            manager::lemma_place(before.manager, id@);
        }
        match self.manager.get_mut(id.as_str()) {
            Ok(session) => {
                let stopped = session.stop_capture();
                let ghost t = session@;
                proof {
                    manager::lemma_change_keeps_wf(before.manager, before.manager.place(id@)->0, t);
                }
                match stopped {
                    Ok((file_path, bytes)) => {
                        let members: Vec<Member> = vec![
                            entry("bytes_written", json::number(bytes)),
                            entry("file_path", json::string(file_path.as_str())),
                        ];
                        assert(json::member_views(members@) =~= seq![
                            ("bytes_written"@, text::decimal(bytes as nat)),
                            ("file_path"@, json::string_text(file_path@)),
                        ]);
                        reply(object(&members))
                    },
                    Err(e) => fail(McpError::Pty(e)),
                }
            },
            Err(e) => fail(McpError::Pty(e)),
        }
    }
}

fn strings(texts: &[String]) -> (items: Vec<String>)
    ensures
        items.len() == texts.len(),
        forall|i: int|
            0 <= i < texts.len() ==> (#[trigger] items@[i])@ == json::string_text(texts@[i]@),
{
    let mut items: Vec<String> = Vec::new();
    let mut i: usize = 0;
    while i < texts.len()
        invariant
            i <= texts.len(),
            items.len() == i,
            forall|k: int|
                0 <= k < i ==> (#[trigger] items@[k])@ == json::string_text(texts@[k]@),
        decreases texts.len() - i,
    {
        items.push(json::string(texts[i].as_str()));
        i += 1;
    }
    items
}

impl<B: PtyBackend> PtyToolHandler<B> {
    fn pattern_step(
        &mut self,
        id: &str,
        wanted: &str,
        timeout_ms: u64,
        deadline: Instant,
        now: Instant,
    ) -> (step: Step)
        requires
            old(self).valid(),
        ensures
            final(self).valid(),
            pattern_goes_on(
                old(self)@,
                id@,
                wanted@,
                timeout_ms,
                deadline,
                now,
                final(self)@,
                step,
            ),
    {
        if self.cancelled {
            return reply(status_json("cancelled"));
        }
        let ghost before = self@;
        proof {
            manager::lemma_place(before.manager, id@);
        }
        match self.manager.get_mut(id) {
            Ok(session) => {
                session.set_clock(now);
                let ghost s = session@;
                let pumped = session.pump();
                let ghost t = session@;
                proof {
                    manager::lemma_change_keeps_wf(before.manager, before.manager.place(id@)->0, t);
                }
                match pumped {
                    Ok(_) => {
                        assert(manager::pumped_ok(s, t));
                        let screen = session.get_screen();
                        if pattern::is_match(wanted, screen.as_str()) {
                            let members: Vec<Member> = vec![
                                entry("screen", json::string(screen.as_str())),
                                entry("status", json::string("matched")),
                            ];
                            assert(json::member_views(members@) =~= seq![
                                ("screen"@, json::string_text(screen@)),
                                ("status"@, json::string_text("matched"@)),
                            ]);
                            reply(object(&members))
                        } else if now.nanos >= deadline.nanos {
                            let mut message = joined("timeout waiting for pattern '", wanted);
                            message.append("' after ");
                            push_decimal(&mut message, timeout_ms);
                            message.append("ms");
                            fail(McpError::Protocol(message))
                        } else {
                            Step::Wait {
                                millis: 100,
                                task: Pending::Pattern {
                                    session_id: id.to_string(),
                                    pattern: wanted.to_string(),
                                    timeout_ms,
                                    deadline,
                                },
                            }
                        }
                    },
                    Err(e) => fail(McpError::Pty(e)),
                }
            },
            Err(e) => fail(McpError::Pty(e)),
        }
    }

    /// Waits for a pattern to appear on the screen of a session.
    pub fn handle_pty_wait_for(&mut self, args: &Arguments, moment: Moment) -> (step: Step)
        requires
            old(self).valid(),
            moment.wf(),
        ensures
            final(self).valid(),
            wait_for_answer(old(self)@, *args, moment.now, final(self)@, step),
    {
        let id = match &args.session_id {
            None => {
                return fail(missing("session_id"));
            },
            Some(id) => id,
        };
        let wanted = match &args.pattern {
            None => {
                return fail(missing("pattern"));
            },
            Some(p) => p,
        };
        let timeout_ms: u64 = match args.timeout_ms {
            Some(n) => n,
            None => 30_000,
        };
        match pattern::pattern_error(wanted.as_str()) {
            Some(e) => {
                let mut message = joined("invalid regex '", wanted.as_str());
                message.append("': ");
                message.append(e.as_str());
                return fail(McpError::InvalidParams(message));
            },
            None => {},
        }
        let deadline = moment.now.plus(Duration::from_millis(timeout_ms));
        self.pattern_step(id.as_str(), wanted.as_str(), timeout_ms, deadline, moment.now)
    }

    fn idle_step(
        &mut self,
        id: &str,
        ignore_pattern: &Option<String>,
        threshold: Seconds,
        deadline: Instant,
        last_hash: Option<u64>,
        stable_since: Instant,
        now: Instant,
    ) -> (step: Step)
        requires
            old(self).valid(),
        ensures
            final(self).valid(),
            (IdleWait {
                session_id: id@,
                ignore_pattern: text::optional_view(*ignore_pattern),
                threshold,
                deadline,
                last_hash,
                stable_since,
            }).goes_on(old(self)@, now, final(self)@, step),
    {
        let ghost wait = IdleWait {
            session_id: id@,
            ignore_pattern: text::optional_view(*ignore_pattern),
            threshold,
            deadline,
            last_hash,
            stable_since,
        };
        if self.cancelled {
            return reply(status_json("cancelled"));
        }
        let ghost before = self@;
        proof {
            manager::lemma_place(before.manager, id@);
        }
        match self.manager.get_mut(id) {
            Ok(session) => {
                session.set_clock(now);
                let ghost s = session@;
                let pumped = session.pump();
                let ghost t = session@;
                proof {
                    manager::lemma_change_keeps_wf(before.manager, before.manager.place(id@)->0, t);
                }
                match pumped {
                    Ok(_) => {},
                    Err(e) => {
                        return fail(McpError::Pty(e));
                    },
                }
                assert(manager::pumped_ok(s, t));
                let screen = session.get_screen();
                let last_line = session.last_non_empty_line();
                let mut hash = last_hash;
                let mut since = stable_since;
                let idle = match ignore_pattern {
                    None => session.idle_time(now),
                    Some(p) => {
                        let rest = pattern::remove_all(p.as_str(), screen.as_str());
                        let h = text_hash(rest.as_str());
                        let same = match last_hash {
                            Some(last) => last == h,
                            None => false,
                        };
                        if !same {
                            hash = Some(h);
                            since = now;
                        }
                        now.duration_since(since)
                    },
                };
                let ghost seen = wait.seen(screen@, now);
                assert(seen.last_hash == hash && seen.stable_since == since);
                assert(seen.idle_nanos(t, now) == idle.nanos);
                let step = if is_reached(idle, threshold) {
                    reply(idle_json(idle, last_line.as_str(), "idle"))
                } else if now.nanos >= deadline.nanos {
                    reply(idle_json(idle, last_line.as_str(), "timeout"))
                } else {
                    Step::Wait {
                        millis: 1_000,
                        task: Pending::Idle {
                            session_id: id.to_string(),
                            ignore_pattern: clone_optional(ignore_pattern),
                            threshold,
                            deadline,
                            last_hash: hash,
                            stable_since: since,
                        },
                    }
                };
                assert(wait.answer(t, now, step));
                step
            },
            Err(e) => fail(McpError::Pty(e)),
        }
    }

    /// Waits for a session to do nothing for a while.
    pub fn handle_pty_wait_for_idle(&mut self, args: &Arguments, moment: Moment) -> (step: Step)
        requires
            old(self).valid(),
            moment.wf(),
        ensures
            final(self).valid(),
            wait_for_idle_answer(old(self)@, *args, moment.now, final(self)@, step),
    {
        let id = match &args.session_id {
            None => {
                return fail(missing("session_id"));
            },
            Some(id) => id,
        };
        let threshold = match args.idle_seconds {
            Some(s) => s,
            None => Seconds::Span(Duration::from_secs(10)),
        };
        match &args.ignore_pattern {
            Some(p) => match pattern::pattern_error(p.as_str()) {
                Some(e) => {
                    return fail(
                        McpError::InvalidParams(joined("invalid ignore_pattern: ", e.as_str())),
                    );
                },
                None => {},
            },
            None => {},
        }
        let timeout = match args.timeout {
            Some(Seconds::Span(d)) => d,
            Some(_) => {
                return Step::Unsupported;
            },
            None => Duration::from_secs(300),
        };
        if timeout.nanos > u128::MAX - moment.now.nanos {
            return Step::Unsupported;
        }
        let deadline = moment.now.plus(timeout);
        self.idle_step(
            id.as_str(),
            &args.ignore_pattern,
            threshold,
            deadline,
            None,
            moment.now,
            moment.now,
        )
    }

    fn reset_step(
        &mut self,
        id: String,
        prompt: String,
        deadline: Instant,
        reset_time: String,
        waited_minutes: u64,
        now: Instant,
    ) -> (step: Step)
        requires
            old(self).valid(),
        ensures
            final(self).valid(),
            (ResetWait {
                session_id: id@,
                prompt: prompt@,
                reset_time: reset_time@,
                waited_minutes,
            }).reset_goes_on(deadline, old(self)@, now, final(self)@, step),
    {
        if now.nanos < deadline.nanos {
            if self.cancelled {
                return reply(message_json("Rate limit wait cancelled by client", "cancelled"));
            }
            return Step::Wait {
                millis: 1_000,
                task: Pending::Reset {
                    session_id: id,
                    prompt,
                    deadline,
                    reset_time,
                    waited_minutes,
                },
            };
        }
        let answer = Step::Wait {
            millis: 2_000,
            task: Pending::Prompt {
                session_id: id.clone(),
                prompt,
                reset_time,
                waited_minutes,
            },
        };
        self.type_keys(id.as_str(), "a", now, answer)
    }

    fn prompt_step(
        &mut self,
        id: &str,
        prompt: &str,
        reset_time: &str,
        waited_minutes: u64,
        now: Instant,
    ) -> (step: Step)
        requires
            old(self).valid(),
        ensures
            final(self).valid(),
            (ResetWait {
                session_id: id@,
                prompt: prompt@,
                reset_time: reset_time@,
                waited_minutes,
            }).dialog_goes_on(old(self)@, now, final(self)@, step),
    {
        let members: Vec<Member> = vec![
            entry("message", json::string("Rate limit handled, session resumed")),
            entry("reset_time", json::string(reset_time)),
            entry("status", json::string("handled")),
            entry("waited_minutes", json::number(waited_minutes)),
        ];
        assert(json::member_views(members@) =~= seq![
            ("message"@, json::string_text("Rate limit handled, session resumed"@)),
            ("reset_time"@, json::string_text(reset_time@)),
            ("status"@, json::string_text("handled"@)),
            ("waited_minutes"@, text::decimal(waited_minutes as nat)),
        ]);
        let typed = joined(prompt, "\n");
        self.type_keys(id, typed.as_str(), now, reply(object(&members)))
    }

    fn read_screen(&mut self, id: &str, now: Instant) -> (result: Result<String, McpError>)
        requires
            old(self).valid(),
        ensures
            final(self).valid(),
            match old(self)@.manager.place(id@) {
                None => final(self)@ == old(self)@ && (result matches Err(
                    McpError::Pty(PtyError::SessionNotFound(name)),
                ) && name@ == id@),
                Some(i) => {
                    let s = at(old(self)@.manager.sessions[i].session, now);
                    let t = final(self)@.manager.sessions[i].session;
                    &&& final(self)@ == old(self)@.with(i, t)
                    &&& match result {
                        Ok(screen) => manager::pumped_ok(s, t) && screen@
                            == t.screen.parser.screen.text(),
                        Err(McpError::Pty(e)) => s.pumped(t, Err(e)),
                        Err(_) => false,
                    }
                },
            },
    {
        let ghost before = self@;
        proof {
            manager::lemma_place(before.manager, id@);
        }
        match self.manager.get_mut(id) {
            Ok(session) => {
                session.set_clock(now);
                let ghost s = session@;
                let pumped = session.pump();
                let ghost t = session@;
                proof {
                    manager::lemma_change_keeps_wf(before.manager, before.manager.place(id@)->0, t);
                }
                match pumped {
                    Ok(_) => {
                        assert(manager::pumped_ok(s, t));
                        Ok(session.get_screen())
                    },
                    Err(e) => Err(McpError::Pty(e)),
                }
            },
            Err(e) => Err(McpError::Pty(e)),
        }
    }

    fn rate_limit_step(&mut self, args: &Arguments, screen: &str, moment: Moment) -> (step: Step)
        requires
            old(self).valid(),
            moment.wf(),
            args.session_id is Some,
        ensures
            final(self).valid(),
            rate_limit_answer(old(self)@, *args, moment, screen@, final(self)@, step),
    {
        let id = match &args.session_id {
            Some(id) => id.clone(),
            None => String::new(),
        };
        let margin: u32 = match args.safety_margin_minutes {
            Some(n) => (n % 0x1_0000_0000) as u32,
            None => 15,
        };
        let prompt = match &args.continuation_prompt {
            Some(p) => p.clone(),
            None => "Continue from where you left off.".to_string(),
        };
        let (hour, minute, zone) = match parse_rate_limit_reset(screen) {
            Some(reset) => reset,
            None => {
                return reply(
                    message_json("No rate limit dialog detected on screen", "no_rate_limit"),
                );
            },
        };
        let wait = match calculate_wait_duration(hour, minute, zone.as_str(), margin, moment.unix) {
            Ok(d) => d,
            Err(e) => {
                return fail(McpError::Protocol(e));
            },
        };
        let waited_minutes: u64 = (wait.as_secs() / 60) as u64;
        let reset_time = clock(hour, minute);
        let deadline = moment.now.plus(wait);
        let ghost secs = rate_limit::wait_of(
            hour as int,
            minute as int,
            zone@,
            margin as int,
            moment.unix,
        )->Ok_0;
        assert(wait.nanos == secs * 1_000_000_000);
        assert(waited_minutes == (secs / 60) as u64);
        self.reset_step(id, prompt, deadline, reset_time, waited_minutes, moment.now)
    }

    /// Sits out a rate limit that the screen of a session shows, and has the session go on.
    pub fn handle_pty_handle_rate_limit(&mut self, args: &Arguments, moment: Moment) -> (step: Step)
        requires
            old(self).valid(),
            moment.wf(),
        ensures
            final(self).valid(),
            handle_rate_limit_answer(old(self)@, *args, moment, final(self)@, step),
    {
        let id = match &args.session_id {
            None => {
                return fail(missing("session_id"));
            },
            Some(id) => id,
        };
        let ghost before = self@;
        match self.read_screen(id.as_str(), moment.now) {
            Ok(screen) => {
                let ghost place = before.manager.place(id@)->0;
                let ghost t = self@.manager.sessions[place].session;
                assert(self@ == before.with(place, t));
                let step = self.rate_limit_step(args, screen.as_str(), moment);
                assert(manager::pumped_ok(
                    at(before.manager.sessions[place].session, moment.now),
                    t,
                ));
                step
            },
            Err(e) => fail(e),
        }
    }

    /// Says what all sessions do.
    pub fn handle_get_status(&self, moment: Moment) -> (step: Step)
        requires
            self.valid(),
        ensures
            get_status_answer(self@, moment.now, self@, step),
    {
        let sessions = self.manager.list();
        let ghost all = manager::meta_views(sessions@);
        let mut items: Vec<String> = Vec::new();
        let mut i: usize = 0;
        assert(all.take(0) =~= Seq::empty());
        assert(json::views(items@) =~= Seq::empty());
        while i < sessions.len()
            invariant
                self.valid(),
                i <= sessions.len(),
                all == manager::meta_views(sessions@),
                json::views(items@) == session_status_texts(
                    self@.manager,
                    all.take(i as int),
                    moment.now,
                ),
            decreases sessions.len() - i,
        {
            let m = &sessions[i];
            let ghost front = json::views(items@);
            proof {
                assert(all.take(i + 1).drop_last() =~= all.take(i as int));
                assert(all.take(i + 1).last() == m@);
            }
            match self.manager.get(m.id.as_str()) {
                Ok(session) => {
                    items.push(session_status_json(m, session, moment.now));
                    assert(json::views(items@) =~= front.push(
                        session_status_text(m@, session@, moment.now),
                    ));
                },
                Err(_) => {},
            }
            i += 1;
        }
        assert(all.take(i as int) =~= all);
        let members: Vec<Member> = vec![
            entry("active_watchers", json::number(0)),
            entry("pending_reminders", json::number(0)),
            entry("sessions", list(&items)),
        ];
        assert(json::member_views(members@) =~= seq![
            ("active_watchers"@, text::decimal(0)),
            ("pending_reminders"@, text::decimal(0)),
            ("sessions"@, json::list_text(json::views(items@))),
        ]);
        reply(object(&members))
    }

    /// Asks for the process of a new session.
    pub fn handle_pty_launch(&self, args: &Arguments) -> (step: Step)
        ensures
            launch_answer(self@, *args, self@, step),
    {
        let cols = match args.cols {
            Some(n) => low16(n),
            None => self.default_cols,
        };
        let rows = match args.rows {
            Some(n) => low16(n),
            None => self.default_rows,
        };
        let mut words: Vec<String> = Vec::new();
        let mut i: usize = 0;
        while i < args.args.len()
            invariant
                i <= args.args.len(),
                words.len() == i,
                forall|k: int| 0 <= k < i ==> (#[trigger] words@[k])@ == args.args@[k]@,
            decreases args.args.len() - i,
        {
            words.push(args.args[i].clone());
            i += 1;
        }
        assert(json::views(words@) =~= json::views(args.args@));
        Step::Launch(
            LaunchRequest {
                command: clone_optional(&args.command),
                args: words,
                working_dir: clone_optional(&args.working_dir),
                name: clone_optional(&args.name),
                cols,
                rows,
            },
        )
    }

    /// The command of a new session, given the user's shell: what the call asks for, else the
    /// shell, else a usual one.
    pub fn launch_command(&self, request: &LaunchRequest, shell: Option<&str>) -> (command: String)
        ensures
            command@ == match (request.command, shell) {
                (Some(command), _) => command@,
                (None, Some(shell)) => shell@,
                (None, None) => "/bin/bash"@,
            },
    {
        match (&request.command, shell) {
            (Some(command), _) => command.clone(),
            (None, Some(shell)) => shell.to_string(),
            (None, None) => "/bin/bash".to_string(),
        }
    }

    /// The directory of a new session: what the call asks for, else the handler's own.
    pub fn launch_dir(&self, request: &LaunchRequest) -> (dir: String)
        ensures
            dir@ == match request.working_dir {
                Some(dir) => dir@,
                None => self@.work_dir,
            },
    {
        match &request.working_dir {
            Some(dir) => dir.clone(),
            None => self.work_dir.clone(),
        }
    }

    /// Takes in the process that a call has asked for, as a new session that runs a command.
    pub fn launched(
        &mut self,
        request: LaunchRequest,
        backend: B,
        command: String,
        moment: Moment,
    ) -> (step: Step)
        requires
            old(self).valid(),
        ensures
            final(self).valid(),
            launched_answer(
                old(self)@,
                text::optional_view(request.name),
                session::new_session(
                    "pty-"@ + text::decimal(old(self)@.manager.next_id as nat),
                    backend,
                    command@,
                    request.cols,
                    request.rows,
                    moment.now,
                ),
                final(self)@,
                step,
            ),
    {
        if self.manager.next_id() == u64::MAX {
            return Step::Unsupported;
        }
        let id = self.manager.generate_id();
        let new = PtySession::new_at(
            id.clone(),
            backend,
            command,
            request.cols,
            request.rows,
            moment.now,
        );
        let ghost s = new@;
        let ghost mid = self@;
        match request.name {
            Some(name) => {
                let shown = name.clone();
                match self.manager.add_session_with_name(new, name) {
                    Ok(_) => {
                        let members: Vec<Member> = vec![
                            entry("name", json::string(shown.as_str())),
                            entry("session_id", json::string(id.as_str())),
                        ];
                        assert(json::member_views(members@) =~= seq![
                            ("name"@, json::string_text(shown@)),
                            ("session_id"@, json::string_text(id@)),
                        ]);
                        reply(object(&members))
                    },
                    Err(e) => fail(McpError::Pty(e)),
                }
            },
            None => match self.manager.add_session(new) {
                Ok(_) => {
                    let members: Vec<Member> = vec![
                        entry("session_id", json::string(id.as_str())),
                    ];
                    assert(json::member_views(members@) =~= seq![
                        ("session_id"@, json::string_text(id@)),
                    ]);
                    reply(object(&members))
                },
                Err(e) => fail(McpError::Pty(e)),
            },
        }
    }
}

/// How a call that has got its process is answered. A number is used up even where the session
/// cannot be added: because its name is taken, or because there are too many.
pub open spec fn launched_answer<B: PtyBackend>(
    before: PtyHandlerView<B>,
    name: Option<Seq<char>>,
    s: SessionView<B>,
    after: PtyHandlerView<B>,
    step: Step,
) -> bool {
    if before.manager.next_id == u64::MAX {
        after == before && step is Unsupported
    } else {
        let mid = ManagerView {
            next_id: (before.manager.next_id + 1) as u64,
            ..before.manager
        };
        if name is Some && mid.place_of_name(name->0) is Some {
            &&& after == (PtyHandlerView { manager: mid, ..before })
            &&& step matches Step::Done(Err(McpError::Pty(PtyError::DuplicateName(n)))) && n@
                == name->0
        } else if mid.sessions.len() >= mid.max {
            &&& after == (PtyHandlerView { manager: mid, ..before })
            &&& handler::failed(step, PtyError::MaxSessionsReached(mid.max))
        } else {
            &&& after == (PtyHandlerView {
                manager: mid.with_added(SessionView { name, ..s }),
                ..before
            })
            &&& handler::replied(step, launched_text(name, s.id))
        }
    }
}

/// The answer that names a new session.
pub open spec fn launched_text(name: Option<Seq<char>>, id: Seq<char>) -> Seq<char> {
    match name {
        Some(name) => json::object_text(
            seq![("name"@, json::string_text(name)), ("session_id"@, json::string_text(id))],
        ),
        None => json::object_text(seq![("session_id"@, json::string_text(id))]),
    }
}

fn session_status_json<B: PtyBackend>(
    m: &SessionMetadata,
    session: &PtySession<B>,
    now: Instant,
) -> (s: String)
    requires
        session.wf(),
    ensures
        s@ == session_status_text(m@, session@, now),
{
    let words = match m.status {
        SessionStatus::Running => "Running".to_string(),
        SessionStatus::Exited(code) => {
            let mut w = joined("Exited(", signed(code as i64).as_str());
            w.append(")");
            w
        },
    };
    assert(words@ =~= status_words(m@.status));
    let last_line = session.last_non_empty_line();
    let members: Vec<Member> = vec![
        entry("command", json::string(m.command.as_str())),
        entry("id", json::string(m.id.as_str())),
        entry("idle_seconds", span_json(session.idle_time(now))),
        entry("input_idle_seconds", span_json(session.input_idle_time(now))),
        entry("last_output_line", json::string(last_line.as_str())),
        entry("name", json::optional_string(&m.name)),
        entry("status", json::string(words.as_str())),
    ];
    assert(json::member_views(members@) =~= seq![
        ("command"@, json::string_text(m@.command)),
        ("id"@, json::string_text(m@.id)),
        ("idle_seconds"@, span_text(elapsed(session@.last_output, now))),
        ("input_idle_seconds"@, span_text(elapsed(session@.last_input, now))),
        (
            "last_output_line"@,
            json::string_text(session::last_text_line(session@.screen.parser.screen.text())),
        ),
        ("name"@, json::optional_text(m@.name)),
        ("status"@, json::string_text(status_words(m@.status))),
    ]);
    object(&members)
}

/// A text, and another one where there is none.
pub open spec fn text_or(given: Option<Seq<char>>, usual: Seq<char>) -> Seq<char> {
    match given {
        Some(t) => t,
        None => usual,
    }
}

/// A device was just made, with a size.
pub open spec fn is_new(mock: MockPty, cols: u16, rows: u16) -> bool {
    mock@ == backend::new_mock(cols, rows)
}

impl PtyToolHandler<MockPty> {
    /// Starts a session on a device that only remembers what it is told.
    pub fn handle_pty_launch_mock(&mut self, args: &Arguments, moment: Moment) -> (step: Step)
        requires
            old(self).valid(),
        ensures
            final(self).valid(),
            exists|mock: MockPty|
                #[trigger] is_new(
                    mock,
                    size_or(args.cols, old(self)@.cols),
                    size_or(args.rows, old(self)@.rows),
                ) && launched_answer(
                    old(self)@,
                    text::optional_view(args.name),
                    session::new_session(
                        "pty-"@ + text::decimal(old(self)@.manager.next_id as nat),
                        mock,
                        text_or(text::optional_view(args.command), "bash"@),
                        size_or(args.cols, old(self)@.cols),
                        size_or(args.rows, old(self)@.rows),
                        moment.now,
                    ),
                    final(self)@,
                    step,
                ),
    {
        let cols = match args.cols {
            Some(n) => low16(n),
            None => self.default_cols,
        };
        let rows = match args.rows {
            Some(n) => low16(n),
            None => self.default_rows,
        };
        let command = match &args.command {
            Some(c) => c.clone(),
            None => "bash".to_string(),
        };
        assert(command@ == text_or(text::optional_view(args.command), "bash"@));
        let request = LaunchRequest {
            command: None,
            args: Vec::new(),
            working_dir: None,
            name: clone_optional(&args.name),
            cols,
            rows,
        };
        let mock = MockPty::new(cols, rows);
        let ghost before = self@;
        let ghost device = mock;
        assert(is_new(device, size_or(args.cols, before.cols), size_or(args.rows, before.rows)));
        assert(text::optional_view(request.name) == text::optional_view(args.name));
        let step = self.launched(request, mock, command, moment);
        assert(launched_answer(
            before,
            text::optional_view(args.name),
            session::new_session(
                "pty-"@ + text::decimal(before.manager.next_id as nat),
                device,
                text_or(text::optional_view(args.command), "bash"@),
                size_or(args.cols, before.cols),
                size_or(args.rows, before.rows),
                moment.now,
            ),
            self@,
            step,
        ));
        step
    }
}

/// How a call of a tool is answered.
pub open spec fn pty_answer<B: PtyBackend>(
    before: PtyHandlerView<B>,
    name: Seq<char>,
    args: Arguments,
    moment: Moment,
    after: PtyHandlerView<B>,
    step: Step,
) -> bool {
    if name == "tttt_pty_launch"@ {
        launch_answer(before, args, after, step)
    } else if name == "tttt_pty_list"@ {
        list_answer(before, after, step)
    } else if name == "tttt_pty_get_screen"@ {
        get_screen_answer(before, args, moment.now, after, step)
    } else if name == "tttt_pty_send_keys"@ {
        send_keys_answer(before, args, moment.now, after, step)
    } else if name == "tttt_pty_kill"@ {
        kill_answer(before, args, after, step)
    } else if name == "tttt_pty_get_cursor"@ {
        get_cursor_answer(before, args, after, step)
    } else if name == "tttt_pty_resize"@ {
        resize_answer(before, args, after, step)
    } else if name == "tttt_pty_get_scrollback"@ {
        get_scrollback_answer(before, args, moment.now, after, step)
    } else if name == "tttt_pty_set_scrollback"@ {
        set_scrollback_answer(before, args, after, step)
    } else if name == "tttt_pty_wait_for"@ {
        wait_for_answer(before, args, moment.now, after, step)
    } else if name == "tttt_pty_wait_for_idle"@ {
        wait_for_idle_answer(before, args, moment.now, after, step)
    } else if name == "tttt_pty_start_capture"@ {
        start_capture_answer(before, args, moment, after, step)
    } else if name == "tttt_pty_stop_capture"@ {
        stop_capture_answer(before, args, after, step)
    } else if name == "tttt_pty_handle_rate_limit"@ {
        handle_rate_limit_answer(before, args, moment, after, step)
    } else if name == "tttt_get_status"@ {
        get_status_answer(before, moment.now, after, step)
    } else {
        after == before && handler::lacks_tool(step, name)
    }
}

/// How a call that had to wait goes on.
pub open spec fn pty_goes_on<B: PtyBackend>(
    before: PtyHandlerView<B>,
    task: Pending,
    moment: Moment,
    after: PtyHandlerView<B>,
    step: Step,
) -> bool {
    match task {
        Pending::Screen { session_id, deadline } => in_session(
            before,
            session_id@,
            after,
            step,
            |s: SessionView<B>, t: SessionView<B>|
                after_pump(
                    at(s, moment.now),
                    t,
                    step,
                    screen_answer(t, session_id@, deadline, moment.now, step),
                ),
        ),
        Pending::Pattern { session_id, pattern: wanted, timeout_ms, deadline } => pattern_goes_on(
            before,
            session_id@,
            wanted@,
            timeout_ms,
            deadline,
            moment.now,
            after,
            step,
        ),
        Pending::Idle { .. } => idle_wait(task)->0.goes_on(before, moment.now, after, step),
        Pending::Reset { session_id, prompt, deadline, reset_time, waited_minutes } => (ResetWait {
            session_id: session_id@,
            prompt: prompt@,
            reset_time: reset_time@,
            waited_minutes,
        }).reset_goes_on(deadline, before, moment.now, after, step),
        Pending::Prompt { session_id, prompt, reset_time, waited_minutes } => (ResetWait {
            session_id: session_id@,
            prompt: prompt@,
            reset_time: reset_time@,
            waited_minutes,
        }).dialog_goes_on(before, moment.now, after, step),
    }
}

impl<B: PtyBackend> ToolHandler for PtyToolHandler<B> {
    open spec fn wf(&self) -> bool {
        self.valid()
    }

    open spec fn answers(
        before: Self,
        name: Seq<char>,
        args: Arguments,
        moment: Moment,
        after: Self,
        step: Step,
    ) -> bool {
        pty_answer(before@, name, args, moment, after@, step)
    }

    open spec fn resumes(
        before: Self,
        task: Pending,
        moment: Moment,
        after: Self,
        step: Step,
    ) -> bool {
        pty_goes_on(before@, task, moment, after@, step)
    }

    open spec fn told(before: Self, token: CancelToken, after: Self) -> bool {
        after@ == (PtyHandlerView { cancelled: token, ..before@ })
    }

    open spec fn offers(&self) -> Seq<ToolView> {
        tools::pty_tools()
    }

    fn handle_tool_call(&mut self, name: &str, args: &Arguments, moment: Moment) -> (step: Step) {
        let called = to_chars(name);
        if chars_equal(&called, "tttt_pty_launch") {
            self.handle_pty_launch(args)
        } else if chars_equal(&called, "tttt_pty_list") {
            self.handle_pty_list()
        } else if chars_equal(&called, "tttt_pty_get_screen") {
            self.handle_pty_get_screen(args, moment)
        } else if chars_equal(&called, "tttt_pty_send_keys") {
            self.handle_pty_send_keys(args, moment)
        } else if chars_equal(&called, "tttt_pty_kill") {
            self.handle_pty_kill(args)
        } else if chars_equal(&called, "tttt_pty_get_cursor") {
            self.handle_pty_get_cursor(args)
        } else if chars_equal(&called, "tttt_pty_resize") {
            self.handle_pty_resize(args)
        } else if chars_equal(&called, "tttt_pty_get_scrollback") {
            self.handle_pty_get_scrollback(args, moment)
        } else if chars_equal(&called, "tttt_pty_set_scrollback") {
            self.handle_pty_set_scrollback(args)
        } else if chars_equal(&called, "tttt_pty_wait_for") {
            self.handle_pty_wait_for(args, moment)
        } else if chars_equal(&called, "tttt_pty_wait_for_idle") {
            self.handle_pty_wait_for_idle(args, moment)
        } else if chars_equal(&called, "tttt_pty_start_capture") {
            self.handle_pty_start_capture(args, moment)
        } else if chars_equal(&called, "tttt_pty_stop_capture") {
            self.handle_pty_stop_capture(args)
        } else if chars_equal(&called, "tttt_pty_handle_rate_limit") {
            self.handle_pty_handle_rate_limit(args, moment)
        } else if chars_equal(&called, "tttt_get_status") {
            self.handle_get_status(moment)
        } else {
            no_tool(name)
        }
    }

    fn resume(&mut self, task: Pending, moment: Moment) -> (step: Step) {
        match task {
            Pending::Screen { session_id, deadline } => self.screen_step(
                session_id.as_str(),
                deadline,
                moment.now,
            ),
            Pending::Pattern { session_id, pattern: wanted, timeout_ms, deadline } => self.pattern_step(
                session_id.as_str(),
                wanted.as_str(),
                timeout_ms,
                deadline,
                moment.now,
            ),
            Pending::Idle {
                session_id,
                ignore_pattern,
                threshold,
                deadline,
                last_hash,
                stable_since,
            } => self.idle_step(
                session_id.as_str(),
                &ignore_pattern,
                threshold,
                deadline,
                last_hash,
                stable_since,
                moment.now,
            ),
            Pending::Reset { session_id, prompt, deadline, reset_time, waited_minutes } => self.reset_step(
                session_id,
                prompt,
                deadline,
                reset_time,
                waited_minutes,
                moment.now,
            ),
            Pending::Prompt { session_id, prompt, reset_time, waited_minutes } => self.prompt_step(
                session_id.as_str(),
                prompt.as_str(),
                reset_time.as_str(),
                waited_minutes,
                moment.now,
            ),
        }
    }

    fn set_cancel_token(&mut self, token: CancelToken) {
        self.cancelled = token;
    }

    fn tool_definitions(&self) -> (tools: Vec<ToolDefinition>) {
        pty_tool_definitions()
    }
}

/// A handler knows exactly the tools that it offers; a call of any other changes nothing.
pub proof fn law_pty_tools_are_those_offered<B: PtyBackend>(
    before: PtyHandlerView<B>,
    name: Seq<char>,
    args: Arguments,
    moment: Moment,
    after: PtyHandlerView<B>,
    step: Step,
)
    requires
        pty_answer(before, name, args, moment, after, step),
    ensures
        handler::lacks_tool(step, name) == !tools::has_tool(tools::pty_tools(), name),
        handler::lacks_tool(step, name) ==> after == before,
{
    let all = tools::pty_tools();
    assert(all[0].name == "tttt_pty_launch"@);
    assert(all[1].name == "tttt_pty_send_keys"@);
    assert(all[2].name == "tttt_pty_get_screen"@);
    assert(all[3].name == "tttt_pty_list"@);
    assert(all[4].name == "tttt_pty_kill"@);
    assert(all[5].name == "tttt_pty_get_cursor"@);
    assert(all[6].name == "tttt_pty_resize"@);
    assert(all[7].name == "tttt_pty_set_scrollback"@);
    assert(all[8].name == "tttt_pty_get_scrollback"@);
    assert(all[9].name == "tttt_pty_wait_for"@);
    assert(all[10].name == "tttt_pty_wait_for_idle"@);
    assert(all[11].name == "tttt_pty_start_capture"@);
    assert(all[12].name == "tttt_pty_stop_capture"@);
    assert(all[13].name == "tttt_pty_handle_rate_limit"@);
    assert(all[14].name == "tttt_get_status"@);
}

} // verus!
