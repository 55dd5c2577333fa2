//! What the tools for terminal sessions promise.
use crate::backend::PtyBackend;
use crate::error::PtyError;
use crate::json;
use crate::keys;
use crate::manager;
use crate::mcp::arguments::{Arguments, Seconds};
use crate::mcp::error::McpError;
use crate::mcp::handler;
use crate::mcp::handler::{Pending, Step};
use crate::mcp::pty_handler;
use crate::mcp::pty_handler::{IdleWait, PtyHandlerView, ResetWait};
use crate::pattern;
use crate::session;
use crate::session::{SessionStatus, SessionView};
use crate::text;
use crate::time::{Instant, Moment};
use crate::vt100::contents;
use vstd::prelude::*;
use vstd::string::*;
use vstd::utf8::*;

verus! {

/// What stands at the end of an answer that ends with a status.
pub open spec fn status_end(status: Seq<char>) -> Seq<char> {
    "\"status\":\""@ + status + "\"}"@
}

/// Whether a call was answered with a status.
pub open spec fn tells_status(step: Step, status: Seq<char>) -> bool {
    step matches Step::Done(Ok(answer)) && answer@.len() >= status_end(status).len() && answer@.skip(
        answer@.len() - status_end(status).len(),
    ) == status_end(status)
}

/// The time from one point to another, in nanoseconds; none where the first is the later one.
pub open spec fn nanos_between(a: Instant, b: Instant) -> int {
    if a.nanos <= b.nanos {
        b.nanos - a.nanos
    } else {
        0
    }
}

proof fn lemma_plain_text(s: Seq<char>)
    requires
        forall|i: int| 0 <= i < s.len() ==> 'a' <= #[trigger] s[i] <= 'z',
    ensures
        json::escaped(s) == s,
    decreases s.len(),
{
    if s.len() > 0 {
        let front = s.drop_last();
        assert forall|i: int| 0 <= i < front.len() implies 'a' <= #[trigger] front[i] <= 'z' by {
            assert(front[i] == s[i]);
        }
        lemma_plain_text(front);
        assert('a' <= s[s.len() - 1] <= 'z');
        assert(json::escaped_char(s.last()) =~= seq![s.last()]);
        assert(front + seq![s.last()] =~= s);
    } else {
        assert(json::escaped(s) =~= s);
    }
}

proof fn lemma_status_end(nanos: int, line: Seq<char>, status: Seq<char>)
    requires
        forall|i: int| 0 <= i < status.len() ==> 'a' <= #[trigger] status[i] <= 'z',
    ensures
        ({
            let all = pty_handler::idle_text(nanos, line, status);
            all.len() >= status_end(status).len() && all.skip(
                all.len() - status_end(status).len(),
            ) == status_end(status)
        }),
{
    lemma_plain_text(status);
    let a = ("idle_seconds"@, pty_handler::span_text(nanos));
    let b = ("last_output_line"@, json::string_text(line));
    let c = ("status"@, json::string_text(status));
    let members = seq![a, b, c];
    let parts = members.map_values(|m: json::MemberView| json::member_text(m));
    let all = pty_handler::idle_text(nanos, line, status);
    assert(parts.last() == json::member_text(c));
    let front = json::joined_text(parts.drop_last()) + ","@;
    reveal_strlit("\"");
    reveal_strlit("\":");
    reveal_strlit("status");
    reveal_strlit("\"status\":\"");
    reveal_strlit("\"}");
    reveal_strlit("}");
    assert(json::member_text(c) + "}"@ =~= status_end(status));
    assert(all =~= "{"@ + front + status_end(status));
    assert(all.skip(all.len() - status_end(status).len()) =~= status_end(status));
}

/// No answer tells two of these statuses.
proof fn lemma_one_status(step: Step)
    ensures
        !(tells_status(step, "idle"@) && tells_status(step, "timeout"@)),
{
    reveal_strlit("idle");
    reveal_strlit("timeout");
    reveal_strlit("\"status\":\"");
    reveal_strlit("\"}");
    if tells_status(step, "idle"@) && tells_status(step, "timeout"@) {
        let answer = step->Done_0->Ok_0@;
        let a = status_end("idle"@);
        let b = status_end("timeout"@);
        assert(answer.skip(answer.len() - a.len())[a.len() - 3] == 'e');
        assert(answer.skip(answer.len() - b.len())[b.len() - 3] == 't');
    }
}

proof fn lemma_idle_answer<B>(wait: IdleWait, s: SessionView<B>, now: Instant, step: Step, idle: int)
    requires
        wait.threshold matches Seconds::Span(d) && d.nanos == idle,
        wait.answer(s, now, step),
    ensures
        ({
            let shown = s.screen.parser.screen.text();
            let silent = wait.seen(shown, now).idle_nanos(s, now);
            &&& tells_status(step, "idle"@) <==> silent >= idle
            &&& tells_status(step, "timeout"@) <==> silent < idle && now.nanos >= wait.deadline.nanos
        }),
{
    let shown = s.screen.parser.screen.text();
    let silent = wait.seen(shown, now).idle_nanos(s, now);
    let line = session::last_text_line(shown);
    reveal_strlit("idle");
    reveal_strlit("timeout");
    lemma_status_end(silent, line, "idle"@);
    lemma_status_end(silent, line, "timeout"@);
    lemma_one_status(step);
}

/// Output that is read ends the silence of a session at once: its last output is then as new as the
/// clock. Where nothing is read, the time of the last output stays. Reading is no input.
pub proof fn law_output_ends_the_silence<B: PtyBackend>(
    before: SessionView<B>,
    after: SessionView<B>,
    data: Seq<u8>,
)
    requires
        before.pumped(after, Ok(data)),
    ensures
        data.len() > 0 ==> after.last_output == before.clock,
        data.len() == 0 ==> after.last_output == before.last_output,
        after.last_input == before.last_input,
{
}

/// Keys that are sent make the last input as new as the clock, and are no output. They go to the
/// device as they are; a session that has exited gets none.
pub proof fn law_input_is_no_output<B: PtyBackend>(
    before: SessionView<B>,
    after: SessionView<B>,
    data: Seq<u8>,
    result: Result<(), PtyError>,
)
    requires
        before.sent(data, after, result),
    ensures
        after.last_output == before.last_output,
        after.screen == before.screen,
        before.status == SessionStatus::Running ==> after.last_input == before.clock && B::wrote(
            before.backend,
            data,
            after.backend,
            result,
        ),
        before.status != SessionStatus::Running ==> after == before && result == Err::<(), PtyError>(
            PtyError::SessionExited,
        ),
{
}

/// A call that waits for a session to be idle, and ignores nothing, is answered `idle` exactly when
/// the session has put out nothing for as long as the call says, or for ten seconds; it is answered
/// `timeout` when that is not so and there is no time left. Else it goes on waiting, until the time
/// that it says is over, or five minutes.
pub proof fn law_idle_is_without_output<B: PtyBackend>(
    before: PtyHandlerView<B>,
    args: Arguments,
    now: Instant,
    after: PtyHandlerView<B>,
    step: Step,
    i: int,
    idle: int,
    timeout: int,
)
    requires
        !before.cancelled,
        args.session_id matches Some(id) && before.manager.place(id@) == Some(i),
        args.ignore_pattern is None,
        args.idle_seconds is None ==> idle == 10_000_000_000,
        args.idle_seconds is Some ==> (args.idle_seconds->0 matches Seconds::Span(d) && d.nanos
            == idle),
        args.timeout is None ==> timeout == 300_000_000_000,
        args.timeout is Some ==> (args.timeout->0 matches Seconds::Span(d) && d.nanos == timeout),
        now.nanos + timeout <= u128::MAX,
        pty_handler::wait_for_idle_answer(before, args, now, after, step),
        !(step matches Step::Done(Err(_))),
    ensures
        ({
            let silent = nanos_between(after.manager.sessions[i].session.last_output, now);
            &&& tells_status(step, "idle"@) <==> silent >= idle
            &&& tells_status(step, "timeout"@) <==> silent < idle && timeout == 0
            &&& silent < idle && timeout > 0 ==> (step matches Step::Wait {
                millis,
                task: Pending::Idle { session_id, ignore_pattern, threshold, deadline, .. },
            } && session_id@ == args.session_id->0@ && ignore_pattern is None && deadline.nanos
                == now.nanos + timeout && (threshold matches Seconds::Span(d) && d.nanos == idle))
        }),
{
    let wait = IdleWait {
        session_id: args.session_id->0@,
        ignore_pattern: None,
        threshold: pty_handler::seconds_or(args.idle_seconds, 10),
        deadline: pty_handler::later(now, timeout),
        last_hash: None,
        stable_since: now,
    };
    let t = after.manager.sessions[i].session;
    assert(wait.goes_on(before, now, after, step));
    assert(wait.answer(t, now, step));
    lemma_idle_answer(wait, t, now, step, idle);
}

/// Waiting for a session to be idle goes on in the same way: what counts is the time since the last
/// output, and the point in time at which the call gives up.
pub proof fn law_waiting_for_silence_goes_on<B: PtyBackend>(
    wait: IdleWait,
    before: PtyHandlerView<B>,
    now: Instant,
    after: PtyHandlerView<B>,
    step: Step,
    i: int,
    idle: int,
)
    requires
        !before.cancelled,
        before.manager.place(wait.session_id) == Some(i),
        wait.ignore_pattern is None,
        wait.threshold matches Seconds::Span(d) && d.nanos == idle,
        wait.goes_on(before, now, after, step),
        !(step matches Step::Done(Err(_))),
    ensures
        ({
            let silent = nanos_between(after.manager.sessions[i].session.last_output, now);
            &&& tells_status(step, "idle"@) <==> silent >= idle
            &&& tells_status(step, "timeout"@) <==> silent < idle && now.nanos
                >= wait.deadline.nanos
            &&& silent < idle && now.nanos < wait.deadline.nanos ==> (step matches Step::Wait {
                millis,
                task: Pending::Idle { session_id, ignore_pattern, threshold, deadline, .. },
            } && session_id@ == wait.session_id && ignore_pattern is None && deadline
                == wait.deadline && threshold == wait.threshold)
        }),
{
    let t = after.manager.sessions[i].session;
    assert(wait.answer(t, now, step));
    lemma_idle_answer(wait, t, now, step, idle);
}

/// A session that puts something out while it is asked is not idle, unless no silence at all is
/// asked for.
pub proof fn law_printing_sessions_are_not_idle<B: PtyBackend>(
    wait: IdleWait,
    before: PtyHandlerView<B>,
    now: Instant,
    after: PtyHandlerView<B>,
    step: Step,
    i: int,
    data: Seq<u8>,
)
    requires
        !before.cancelled,
        before.manager.place(wait.session_id) == Some(i),
        wait.ignore_pattern is None,
        wait.threshold matches Seconds::Span(d) && d.nanos > 0,
        wait.goes_on(before, now, after, step),
        !(step matches Step::Done(Err(_))),
        (SessionView { clock: now, ..before.manager.sessions[i].session }).pumped(
            after.manager.sessions[i].session,
            Ok(data),
        ),
        data.len() > 0,
    ensures
        !tells_status(step, "idle"@),
{
    law_output_ends_the_silence(
        SessionView { clock: now, ..before.manager.sessions[i].session },
        after.manager.sessions[i].session,
        data,
    );
    law_waiting_for_silence_goes_on(
        wait,
        before,
        now,
        after,
        step,
        i,
        wait.threshold->Span_0.nanos as int,
    );
}

/// Where a pattern is ignored, what counts is how long the rest of the screen has been the same. A
/// rest with another hash than before starts the time anew.
pub proof fn law_the_rest_of_the_screen_counts<B: PtyBackend>(
    wait: IdleWait,
    before: PtyHandlerView<B>,
    now: Instant,
    after: PtyHandlerView<B>,
    step: Step,
    i: int,
    ignored: Seq<char>,
    idle: int,
)
    requires
        !before.cancelled,
        before.manager.place(wait.session_id) == Some(i),
        wait.ignore_pattern == Some(ignored),
        wait.threshold matches Seconds::Span(d) && d.nanos == idle,
        wait.goes_on(before, now, after, step),
        !(step matches Step::Done(Err(_))),
    ensures
        ({
            let shown = after.manager.sessions[i].session.screen.parser.screen.text();
            let hash = pty_handler::hash_of(pattern::regex_removed(ignored, shown));
            let since = if wait.last_hash == Some(hash) {
                wait.stable_since
            } else {
                now
            };
            let still = nanos_between(since, now);
            &&& tells_status(step, "idle"@) <==> still >= idle
            &&& tells_status(step, "timeout"@) <==> still < idle && now.nanos >= wait.deadline.nanos
            &&& still < idle && now.nanos < wait.deadline.nanos ==> (step matches Step::Wait {
                millis,
                task: Pending::Idle { session_id, last_hash, stable_since, deadline, .. },
            } && session_id@ == wait.session_id && last_hash == Some(hash) && stable_since == since
                && deadline == wait.deadline)
        }),
{
    let t = after.manager.sessions[i].session;
    assert(wait.answer(t, now, step));
    lemma_idle_answer(wait, t, now, step, idle);
}

/// A call that waits for a pattern is answered with the screen exactly when the pattern matches the
/// screen as it is once the output was read; it fails when that is not so and there is no time
/// left, and else goes on waiting.
pub proof fn law_patterns_are_looked_for_on_the_screen<B: PtyBackend>(
    before: PtyHandlerView<B>,
    id: Seq<char>,
    wanted: Seq<char>,
    timeout_ms: u64,
    deadline: Instant,
    now: Instant,
    after: PtyHandlerView<B>,
    step: Step,
    i: int,
)
    requires
        !before.cancelled,
        before.manager.place(id) == Some(i),
        pty_handler::pattern_goes_on(before, id, wanted, timeout_ms, deadline, now, after, step),
        !(step matches Step::Done(Err(McpError::Pty(_)))),
    ensures
        ({
            let shown = after.manager.sessions[i].session.screen.parser.screen.text();
            let found = pattern::regex_matches(wanted, shown);
            &&& (step matches Step::Done(Ok(_))) <==> found
            &&& found ==> handler::replied(
                step,
                json::object_text(
                    seq![
                        ("screen"@, json::string_text(shown)),
                        ("status"@, json::string_text("matched"@)),
                    ],
                ),
            )
            &&& (step matches Step::Done(Err(_))) <==> !found && now.nanos >= deadline.nanos
            &&& !found && now.nanos < deadline.nanos ==> (step matches Step::Wait {
                millis,
                task: Pending::Pattern { session_id, pattern: p, timeout_ms: t, deadline: d },
            } && session_id@ == id && p@ == wanted && t == timeout_ms && d == deadline)
        }),
{
    let t = after.manager.sessions[i].session;
    assert(pty_handler::pattern_answer(t, id, wanted, timeout_ms, deadline, now, step));
}

/// A call that waits for a pattern gives up after the milliseconds that it says, or half a minute.
pub proof fn law_waiting_for_a_pattern_begins<B: PtyBackend>(
    before: PtyHandlerView<B>,
    args: Arguments,
    now: Instant,
    after: PtyHandlerView<B>,
    step: Step,
    timeout_ms: u64,
)
    requires
        args.session_id is Some && args.pattern is Some,
        pattern::regex_error(args.pattern->0@) is None,
        args.timeout_ms == Some(timeout_ms) || (args.timeout_ms is None && timeout_ms == 30_000),
        now.nanos + timeout_ms * 1_000_000 <= u128::MAX,
        pty_handler::wait_for_answer(before, args, now, after, step),
    ensures
        pty_handler::pattern_goes_on(
            before,
            args.session_id->0@,
            args.pattern->0@,
            timeout_ms,
            Instant { nanos: (now.nanos + timeout_ms * 1_000_000) as u128 },
            now,
            after,
            step,
        ),
{
}

/// Keys are written to the device of the session that is meant, and of no other, as the bytes that
/// their notation stands for. Nothing changes on its screen.
pub proof fn law_keys_reach_their_session<B: PtyBackend>(
    before: PtyHandlerView<B>,
    args: Arguments,
    now: Instant,
    after: PtyHandlerView<B>,
    step: Step,
    i: int,
)
    requires
        args.session_id is Some && args.keys is Some,
        before.manager.place(args.session_id->0@) == Some(i),
        0 <= i < before.manager.sessions.len(),
        pty_handler::send_keys_answer(before, args, now, after, step),
        step matches Step::Done(Ok(_)),
    ensures
        ({
            let s = before.manager.sessions[i].session;
            let t = after.manager.sessions[i].session;
            &&& s.status == SessionStatus::Running
            &&& exists|result: Result<(), PtyError>|
                #[trigger] B::wrote(
                    s.backend,
                    keys::key_bytes(encode_utf8(args.keys->0@)),
                    t.backend,
                    result,
                ) && result is Ok
            &&& t.screen == s.screen && t.last_output == s.last_output && t.last_input == now
            &&& forall|j: int|
                0 <= j < before.manager.sessions.len() && j != i ==> #[trigger] after.manager.sessions[j]
                    == before.manager.sessions[j]
        }),
{
    let s = SessionView { clock: now, ..before.manager.sessions[i].session };
    let t = after.manager.sessions[i].session;
    let typed = keys::key_bytes(encode_utf8(args.keys->0@));
    assert(pty_handler::after_keys(
        s,
        encode_utf8(args.keys->0@),
        t,
        step,
        handler::replied(step, handler::status_text("ok"@)),
    ));
    let result = choose|result: Result<(), PtyError>|
        #[trigger] s.sent(typed, t, result) && (match result {
            Ok(_) => handler::replied(step, handler::status_text("ok"@)),
            Err(e) => handler::failed(step, e),
        });
    assert(s.sent(typed, t, result));
    assert(B::wrote(s.backend, typed, t.backend, result));
}

/// A screen is shown as it is once the output was read: its text, and the cursor with the column
/// before the line. A session that runs is given half a second to put out more.
pub proof fn law_screens_are_shown_as_read<B: PtyBackend>(
    before: PtyHandlerView<B>,
    args: Arguments,
    now: Instant,
    after: PtyHandlerView<B>,
    step: Step,
    i: int,
)
    requires
        args.session_id is Some,
        before.manager.place(args.session_id->0@) == Some(i),
        now.nanos + 500_000_000 <= u128::MAX,
        pty_handler::get_screen_answer(before, args, now, after, step),
        !(step matches Step::Done(Err(_))),
    ensures
        ({
            let t = after.manager.sessions[i].session;
            let shown = t.screen.parser.screen;
            &&& t.status != SessionStatus::Running ==> handler::replied(
                step,
                json::object_text(
                    seq![
                        (
                            "cursor"@,
                            json::list_text(
                                seq![
                                    text::decimal(shown.col as nat),
                                    text::decimal(shown.row as nat),
                                ],
                            ),
                        ),
                        ("screen"@, json::string_text(shown.text())),
                    ],
                ),
            )
            &&& t.status == SessionStatus::Running ==> (step matches Step::Wait {
                millis,
                task: Pending::Screen { session_id, deadline },
            } && session_id@ == args.session_id->0@ && deadline.nanos == now.nanos + 500_000_000)
        }),
{
    let t = after.manager.sessions[i].session;
    assert(pty_handler::screen_answer(
        t,
        args.session_id->0@,
        pty_handler::later(now, 500_000_000),
        now,
        step,
    ));
}

/// A session is resized to the columns and the lines that the call says, each in its place.
pub proof fn law_sessions_get_their_size<B: PtyBackend>(
    before: PtyHandlerView<B>,
    args: Arguments,
    after: PtyHandlerView<B>,
    step: Step,
    i: int,
    cols: u16,
    rows: u16,
)
    requires
        args.session_id is Some && args.cols == Some(cols as u64) && args.rows == Some(rows as u64),
        before.manager.place(args.session_id->0@) == Some(i),
        pty_handler::resize_answer(before, args, after, step),
        step matches Step::Done(Ok(_)),
    ensures
        ({
            let s = before.manager.sessions[i].session;
            let t = after.manager.sessions[i].session;
            &&& t.screen.cols == cols && t.screen.rows == rows
            &&& exists|result: Result<(), PtyError>|
                #[trigger] B::resized(s.backend, cols, rows, t.backend, result) && result is Ok
            &&& s.screen.cols == cols && s.screen.rows == rows ==> t.screen == s.screen
        }),
{
    let s = before.manager.sessions[i].session;
    let t = after.manager.sessions[i].session;
    assert(handler::low_bits(cols as u64) == cols);
    assert(handler::low_bits(rows as u64) == rows);
    let result = choose|result: Result<(), PtyError>|
        #[trigger] s.resized_to(
            handler::low_bits(cols as u64),
            handler::low_bits(rows as u64),
            t,
            result,
        ) && (match result {
            Ok(_) => handler::replied(step, handler::status_text("ok"@)),
            Err(e) => handler::failed(step, e),
        });
    assert(s.resized_to(cols, rows, t, result));
    assert(B::resized(s.backend, cols, rows, t.backend, result));
}

/// Scrollback is shown from its end: the answer has the last lines that have scrolled off, oldest
/// first, as many as were asked for, or a hundred.
#[verifier::spinoff_prover]
#[verifier::rlimit(30)]
pub proof fn law_the_newest_scrollback_is_shown<B: PtyBackend>(
    before: PtyHandlerView<B>,
    args: Arguments,
    now: Instant,
    after: PtyHandlerView<B>,
    step: Step,
    i: int,
    asked: int,
)
    requires
        args.session_id is Some,
        before.manager.place(args.session_id->0@) == Some(i),
        args.lines is None ==> asked == 100,
        args.lines is Some ==> args.lines->0 == asked && asked <= usize::MAX,
        pty_handler::get_scrollback_answer(before, args, now, after, step),
        !(step matches Step::Done(Err(_))),
    ensures
        ({
            let gone = after.manager.sessions[i].session.screen.parser.screen.scrollback;
            let kept = if gone.len() > asked {
                gone.skip(gone.len() - asked)
            } else {
                gone
            };
            handler::replied(
                step,
                json::object_text(
                    seq![
                        (
                            "lines"@,
                            json::list_text(
                                Seq::new(
                                    kept.len(),
                                    |k: int|
                                        json::string_text(contents::line_text(kept[k].cells)),
                                ),
                            ),
                        ),
                    ],
                ),
            )
        }),
{
    let t = after.manager.sessions[i].session;
    let gone = t.screen.parser.screen.scrollback;
    let kept = if gone.len() > asked {
        gone.skip(gone.len() - asked)
    } else {
        gone
    };
    let n = kept.len();
    assert(handler::replied(step, pty_handler::scrollback_text(t, asked)));
    assert(Seq::new(
        n,
        |k: int| json::string_text(contents::line_text(gone[gone.len() - n + k].cells)),
    ) =~= Seq::new(n, |k: int| json::string_text(contents::line_text(kept[k].cells))));
}

/// A session that was killed is no longer there, and the others stay in order; where that fails, all
/// are still there.
pub proof fn law_killed_sessions_are_removed<B: PtyBackend>(
    before: PtyHandlerView<B>,
    args: Arguments,
    after: PtyHandlerView<B>,
    step: Step,
    i: int,
)
    requires
        args.session_id is Some,
        before.manager.place_of_id(args.session_id->0@) == Some(i),
        0 <= i < before.manager.sessions.len(),
        pty_handler::kill_answer(before, args, after, step),
    ensures
        step matches Step::Done(Ok(_)) ==> after.manager.sessions == before.manager.sessions.remove(
            i,
        ),
        !(step matches Step::Done(Ok(_))) ==> after.manager.sessions.len()
            == before.manager.sessions.len(),
{
}

/// A capture is stopped with the number of bytes that it has taken and the file that it went to, and
/// there is none any more; where there was none, the call fails.
pub proof fn law_captures_end_with_their_count<B: PtyBackend>(
    before: PtyHandlerView<B>,
    args: Arguments,
    after: PtyHandlerView<B>,
    step: Step,
    i: int,
)
    requires
        args.session_id is Some,
        before.manager.place(args.session_id->0@) == Some(i),
        pty_handler::stop_capture_answer(before, args, after, step),
    ensures
        ({
            let s = before.manager.sessions[i].session;
            &&& (step matches Step::Done(Ok(_))) <==> s.capture_path is Some
            &&& after.manager.sessions[i].session.capture_path is None
            &&& s.capture_path is Some ==> handler::replied(
                step,
                json::object_text(
                    seq![
                        ("bytes_written"@, text::decimal(s.capture_bytes as nat)),
                        ("file_path"@, json::string_text(s.capture_path->0)),
                    ],
                ),
            )
        }),
{
}

/// The state of a session tells how long it has put out nothing and how long it was given nothing,
/// each under its own name.
pub proof fn law_states_tell_both_silences<B: PtyBackend>(s: SessionView<B>, now: Instant)
    requires
        now.nanos < 0xffff_ffff_ffff_ffff,
    ensures
        ({
            let out = nanos_between(s.last_output, now);
            let given = nanos_between(s.last_input, now);
            pty_handler::session_status_text(s.meta(), s, now) == json::object_text(
                seq![
                    ("command"@, json::string_text(s.command)),
                    ("id"@, json::string_text(s.id)),
                    (
                        "idle_seconds"@,
                        json::seconds_text_of(
                            (out / 1_000_000_000) as u64,
                            (out % 1_000_000_000) as u32,
                        ),
                    ),
                    (
                        "input_idle_seconds"@,
                        json::seconds_text_of(
                            (given / 1_000_000_000) as u64,
                            (given % 1_000_000_000) as u32,
                        ),
                    ),
                    (
                        "last_output_line"@,
                        json::string_text(session::last_text_line(s.screen.parser.screen.text())),
                    ),
                    ("name"@, json::optional_text(s.name)),
                    ("status"@, json::string_text(pty_handler::status_words(s.status))),
                ],
            )
        }),
{
}

/// A new session is asked for with what the call says; where it says no size, with the usual one.
pub proof fn law_launches_ask_for_what_is_said<B: PtyBackend>(
    before: PtyHandlerView<B>,
    args: Arguments,
    after: PtyHandlerView<B>,
    step: Step,
)
    requires
        pty_handler::launch_answer(before, args, after, step),
    ensures
        after == before,
        step matches Step::Launch(r) && {
            &&& args.command is Some ==> r.command is Some && r.command->0@ == args.command->0@
            &&& args.command is None ==> r.command is None
            &&& args.working_dir is Some ==> r.working_dir is Some && r.working_dir->0@
                == args.working_dir->0@
            &&& args.name is Some ==> r.name is Some && r.name->0@ == args.name->0@
            &&& args.cols is None ==> r.cols == before.cols
            &&& args.rows is None ==> r.rows == before.rows
            &&& args.cols is Some && args.cols->0 <= 0xffff ==> r.cols == args.cols->0
            &&& args.rows is Some && args.rows->0 <= 0xffff ==> r.rows == args.rows->0
            &&& r.args@.len() == args.args@.len()
            &&& forall|k: int|
                0 <= k < r.args@.len() ==> (#[trigger] r.args@[k])@ == args.args@[k]@
        },
{
    let r = step->Launch_0;
    assert(json::views(r.args@).len() == r.args@.len());
    assert(json::views(args.args@).len() == args.args@.len());
    assert forall|k: int| 0 <= k < r.args@.len() implies (#[trigger] r.args@[k])@
        == args.args@[k]@ by {
        assert(json::views(r.args@)[k] == r.args@[k]@);
        assert(json::views(args.args@)[k] == args.args@[k]@);
    }
}

/// What is read from the device goes to the screen, all of it and nothing else. A session that has
/// exited reads nothing.
pub proof fn law_output_goes_to_the_screen<B: PtyBackend>(
    before: SessionView<B>,
    after: SessionView<B>,
    data: Seq<u8>,
)
    requires
        before.pumped(after, Ok(data)),
    ensures
        after.screen.parser == before.screen.parser.fed_all(data),
        before.status != SessionStatus::Running ==> after == before && data.len() == 0,
        after.id == before.id && after.name == before.name && after.command == before.command,
{
    assert(data.len() == 0 ==> data =~= Seq::empty());
}

/// A rate limit is sat out: until the time has come nothing is sent, and the call goes on after a
/// second or is cancelled. Then `a` is sent to the session that is meant.
pub proof fn law_rate_limits_are_sat_out<B: PtyBackend>(
    wait: ResetWait,
    deadline: Instant,
    before: PtyHandlerView<B>,
    now: Instant,
    after: PtyHandlerView<B>,
    step: Step,
    i: int,
)
    requires
        wait.reset_goes_on(deadline, before, now, after, step),
        before.manager.place(wait.session_id) == Some(i),
    ensures
        now.nanos < deadline.nanos ==> after == before,
        now.nanos < deadline.nanos && !before.cancelled ==> (step matches Step::Wait {
            millis,
            task: Pending::Reset { session_id, prompt, deadline: d, .. },
        } && millis == 1_000 && session_id@ == wait.session_id && prompt@ == wait.prompt && d
            == deadline),
        now.nanos < deadline.nanos && before.cancelled ==> (step matches Step::Done(Ok(_))),
        now.nanos >= deadline.nanos && (step matches Step::Wait { .. }) ==> ({
            let s = before.manager.sessions[i].session;
            let t = after.manager.sessions[i].session;
            exists|result: Result<(), PtyError>|
                result is Ok && #[trigger] B::wrote(s.backend, seq![0x61u8], t.backend, result)
        }),
{
    if now.nanos >= deadline.nanos && (step matches Step::Wait { .. }) {
        let s = pty_handler::at(before.manager.sessions[i].session, now);
        let t = after.manager.sessions[i].session;
        let typed = keys::key_bytes(encode_utf8("a"@));
        reveal_strlit("a");
        is_ascii_chars_encode_utf8("a"@);
        assert(encode_utf8("a"@) =~= seq![0x61u8]);
        keys::law_plain_text_is_kept(seq![0x61u8]);
        let goes_on = step matches Step::Wait { millis, task } && millis == 2_000
            && wait.waits_for_dialog(task);
        assert(pty_handler::after_keys(s, encode_utf8("a"@), t, step, goes_on));
        let result = choose|result: Result<(), PtyError>|
            #[trigger] s.sent(typed, t, result) && (match result {
                Ok(_) => goes_on,
                Err(e) => handler::failed(step, e),
            });
        assert(s.sent(typed, t, result));
        assert(B::wrote(s.backend, seq![0x61u8], t.backend, result));
    }
}

/// The margin behind a rate limit is fifteen minutes unless the call says otherwise.
pub proof fn law_the_margin_is_what_is_said(args: Arguments)
    ensures
        args.safety_margin_minutes is None ==> pty_handler::margin_of(args) == 15,
        args.safety_margin_minutes is Some && args.safety_margin_minutes->0 <= 0xffff_ffff
            ==> pty_handler::margin_of(args) == args.safety_margin_minutes->0,
{
}

/// A screen that was waited for is shown once the process has ended or the time is over.
pub proof fn law_screens_are_shown_in_the_end<B: PtyBackend>(
    s: SessionView<B>,
    id: Seq<char>,
    deadline: Instant,
    now: Instant,
    step: Step,
)
    requires
        pty_handler::screen_answer(s, id, deadline, now, step),
    ensures
        (step matches Step::Done(Ok(_))) <==> s.status != SessionStatus::Running || now.nanos
            >= deadline.nanos,
        !(step matches Step::Done(_)) ==> (step matches Step::Wait {
            millis,
            task: Pending::Screen { session_id, deadline: d },
        } && session_id@ == id && d == deadline),
{
}

/// A session that was launched is found under the identifier that the answer gives, and under its
/// name; it runs, shows an empty screen of the size that was asked for, and has neither read nor
/// written anything. All others are still there.
pub proof fn law_launched_sessions_are_found<B: PtyBackend>(
    before: PtyHandlerView<B>,
    name: Option<Seq<char>>,
    backend: B,
    command: Seq<char>,
    cols: u16,
    rows: u16,
    now: Instant,
    after: PtyHandlerView<B>,
    step: Step,
    id: Seq<char>,
)
    requires
        before.manager.wf(),
        before.manager.place_of_id(id) is None,
        before.manager.sessions.len() < before.manager.max,
        before.manager.next_id < u64::MAX,
        name is Some ==> before.manager.place(name->0) is None && name->0 != id,
        pty_handler::launched_answer(
            before,
            name,
            session::new_session(id, backend, command, cols, rows, now),
            after,
            step,
        ),
    ensures
        step matches Step::Done(Ok(_)),
        after.manager.place(id) matches Some(i) && {
            let s = after.manager.sessions[i].session;
            &&& i == before.manager.sessions.len()
            &&& s.id == id && s.name == name && s.command == command
            &&& s.status == SessionStatus::Running
            &&& s.backend == backend
            &&& s.screen.cols == cols && s.screen.rows == rows
            &&& s.last_output == now && s.last_input == now && s.created_at == now
            &&& s.capture_path is None
            &&& name is Some ==> after.manager.place(name->0) == Some(i)
        },
        after.manager.sessions.drop_last() == before.manager.sessions,
{
    let mid = manager::ManagerView {
        next_id: (before.manager.next_id + 1) as u64,
        ..before.manager
    };
    let s = SessionView {
        name,
        ..session::new_session(id, backend, command, cols, rows, now)
    };
    assert(mid.sessions == before.manager.sessions);
    let is_id = |e: manager::EntryView<B>| e.key == id;
    text::lemma_first_index(mid.sessions, is_id);
    let n = mid.sessions.len() as int;
    if name is Some {
        let has_id = |e: manager::EntryView<B>| e.key == name->0;
        let has_name = |e: manager::EntryView<B>| e.session.name == Some(name->0);
        text::lemma_first_index(mid.sessions, has_id);
        text::lemma_first_index(mid.sessions, has_name);
        assert(mid.place_of_name(name->0) is None);
    }
    let all = after.manager.sessions;
    assert(all =~= mid.sessions.push(manager::EntryView { key: id, session: s }));
    assert(all.drop_last() =~= mid.sessions);
    assert forall|k: int| 0 <= k < n implies !is_id(#[trigger] all[k]) by {
        assert(all[k] == mid.sessions[k]);
        assert(!is_id(mid.sessions[k]));
    }
    text::lemma_first_index_at(all, is_id, n);
    if name is Some {
        let has_id = |e: manager::EntryView<B>| e.key == name->0;
        let has_name = |e: manager::EntryView<B>| e.session.name == Some(name->0);
        assert forall|k: int| 0 <= k < n implies !has_name(#[trigger] all[k]) && !has_id(all[k]) by {
            assert(all[k] == mid.sessions[k]);
            assert(!has_name(mid.sessions[k]));
            assert(!has_id(mid.sessions[k]));
        }
        text::lemma_first_index_at(all, has_name, n);
        text::lemma_first_index_none(all, has_id);
    }
}

/// The cursor is told by its line and its column, each under its own name.
pub proof fn law_cursors_are_told<B: PtyBackend>(
    before: PtyHandlerView<B>,
    args: Arguments,
    after: PtyHandlerView<B>,
    step: Step,
    i: int,
)
    requires
        args.session_id is Some,
        before.manager.place(args.session_id->0@) == Some(i),
        pty_handler::get_cursor_answer(before, args, after, step),
    ensures
        after == before,
        ({
            let shown = before.manager.sessions[i].session.screen.parser.screen;
            handler::replied(
                step,
                json::object_text(
                    seq![
                        ("col"@, text::decimal(shown.col as nat)),
                        ("row"@, text::decimal(shown.row as nat)),
                    ],
                ),
            )
        }),
{
}

/// A capture begins with no bytes, in a file that is named after the session and the time; a second
/// one beside it is refused.
pub proof fn law_captures_begin_empty<B: PtyBackend>(
    before: PtyHandlerView<B>,
    args: Arguments,
    moment: Moment,
    after: PtyHandlerView<B>,
    step: Step,
    i: int,
)
    requires
        args.session_id is Some,
        before.manager.place(args.session_id->0@) == Some(i),
        moment.wf(),
        moment.unix.secs >= 0,
        pty_handler::start_capture_answer(before, args, moment, after, step),
    ensures
        ({
            let s = before.manager.sessions[i].session;
            let t = after.manager.sessions[i].session;
            let millis = moment.unix.secs * 1_000 + moment.unix.nanos / 1_000_000;
            &&& s.capture_path is Some ==> t == s && handler::failed(
                step,
                PtyError::CaptureAlreadyActive,
            )
            &&& s.capture_path is None ==> (step matches Step::Done(Ok(_))) && t.capture_bytes == 0
                && t.capture_path == Some(
                "/tmp/tttt-capture-"@ + (s.id + "-"@ + text::decimal(millis as nat)) + ".raw"@,
            )
        }),
{
}

/// An exit code that the device gives ends the session with it, and without one it goes on.
pub proof fn law_exit_codes_end_sessions<B: PtyBackend>(
    before: SessionView<B>,
    after: SessionView<B>,
    answer: Result<Option<i32>, PtyError>,
)
    requires
        before.status_checked(after, answer),
    ensures
        answer matches Ok(Some(code)) ==> after.status == SessionStatus::Exited(code),
        !(answer matches Ok(Some(_))) ==> after.status == before.status,
        after.screen == before.screen && after.last_output == before.last_output,
{
}

/// A silence of less than no time is there at once, and one that is longer than any span never is.
pub proof fn law_odd_thresholds<B: PtyBackend>(
    wait: IdleWait,
    s: SessionView<B>,
    now: Instant,
    step: Step,
)
    requires
        wait.answer(s, now, step),
    ensures
        wait.threshold is Negative ==> tells_status(step, "idle"@),
        wait.threshold is TooLong ==> !tells_status(step, "idle"@),
        wait.threshold is TooLong && now.nanos >= wait.deadline.nanos ==> tells_status(
            step,
            "timeout"@,
        ),
        wait.threshold is TooLong && now.nanos < wait.deadline.nanos ==> step is Wait,
{
    let shown = s.screen.parser.screen.text();
    let silent = wait.seen(shown, now).idle_nanos(s, now);
    let line = session::last_text_line(shown);
    reveal_strlit("idle");
    reveal_strlit("timeout");
    lemma_status_end(silent, line, "idle"@);
    lemma_status_end(silent, line, "timeout"@);
    lemma_one_status(step);
}

/// A call that waits ends when the client has cancelled it, and changes nothing then.
pub proof fn law_cancelled_calls_end<B: PtyBackend>(
    wait: IdleWait,
    wanted: Seq<char>,
    timeout_ms: u64,
    before: PtyHandlerView<B>,
    now: Instant,
    a: PtyHandlerView<B>,
    first: Step,
    b: PtyHandlerView<B>,
    second: Step,
)
    requires
        before.cancelled,
        wait.goes_on(before, now, a, first),
        pty_handler::pattern_goes_on(
            before,
            wait.session_id,
            wanted,
            timeout_ms,
            wait.deadline,
            now,
            b,
            second,
        ),
    ensures
        a == before && b == before,
        handler::replied(first, handler::status_text("cancelled"@)),
        handler::replied(second, handler::status_text("cancelled"@)),
{
}

} // verus!
