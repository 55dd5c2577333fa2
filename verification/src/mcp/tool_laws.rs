//! What the tools beside those for terminal sessions promise.
use crate::backend::PtyBackend;
use crate::error::PtyError;
use crate::json;
use crate::mcp::arguments::Arguments;
use crate::mcp::handler;
use crate::mcp::handler::{Query, Step};
use crate::mcp::notification_handler;
use crate::mcp::notification_handler::NotifyView;
use crate::mcp::replay_handler;
use crate::mcp::scheduler_handler;
use crate::mcp::scratchpad_handler;
use crate::mcp::sidebar_handler;
use crate::mcp::sidebar_handler::MessagesView;
use crate::mcp::tui_handler;
use crate::mcp::tui_handler::{HighlightView, PaneHighlightView, TuiStateView, TuiView};
use crate::notification::WatcherView;
use crate::pattern;
use crate::replay::ReplayView;
use crate::scheduler::{BusyPolicy, SchedulerView};
use crate::session::SessionStatus;
use crate::text;
use crate::time::{Instant, Moment};
use vstd::prelude::*;
use vstd::string::*;
use vstd::utf8::*;

verus! {

/// The two tools that watch for a pattern register a watcher with what they are told, behind all
/// others. The one for prompts fires once, the other one again and again.
pub proof fn law_watchers_are_set_up<B: PtyBackend>(
    before: NotifyView<B>,
    args: Arguments,
    moment: Moment,
    after: NotifyView<B>,
    step: Step,
    once: bool,
)
    requires
        args.watch_session_id is Some && args.pattern is Some && args.inject_text is Some
            && args.inject_session_id is Some,
        pattern::regex_error(args.pattern->0@) is None,
        before.next < u64::MAX,
        notification_handler::notification_answer(
            before,
            if once {
                "tttt_notify_on_prompt"@
            } else {
                "tttt_notify_on_pattern"@
            },
            args,
            moment,
            after,
            step,
        ),
    ensures
        step matches Step::Done(Ok(_)),
        after.sessions == before.sessions,
        after.next == before.next + 1,
        after.watchers == before.watchers.push(
            WatcherView {
                id: "notify-"@ + text::decimal(before.next),
                watch_session_id: args.watch_session_id->0@,
                pattern: args.pattern->0@,
                inject_text: args.inject_text->0@,
                inject_session_id: args.inject_session_id->0@,
                one_shot: once,
                fired: false,
                last_screen: None,
            },
        ),
{
    reveal_strlit("tttt_notify_on_prompt");
    reveal_strlit("tttt_notify_on_pattern");
    assert("tttt_notify_on_prompt"@.len() != "tttt_notify_on_pattern"@.len());
}

/// Text that is typed into a session is submitted: it goes to the device with a carriage return at
/// its end, and no second one where it has one already.
pub proof fn law_injected_text_is_submitted<B: PtyBackend>(
    before: NotifyView<B>,
    args: Arguments,
    now: Instant,
    after: NotifyView<B>,
    step: Step,
    i: int,
    typed: Seq<u8>,
)
    requires
        args.session_id is Some && args.text is Some,
        before.sessions.place(args.session_id->0@) == Some(i),
        notification_handler::self_inject_answer(before, args, now, after, step),
        step matches Step::Done(Ok(_)),
        ({
            let bytes = encode_utf8(args.text->0@);
            typed == (if bytes.len() > 0 && bytes[bytes.len() - 1] == 0x0d {
                bytes
            } else {
                bytes + seq![0x0du8]
            })
        }),
    ensures
        ({
            let s = before.sessions.sessions[i].session;
            let t = after.sessions.sessions[i].session;
            &&& s.status == SessionStatus::Running
            &&& t.last_input == now
            &&& t.screen == s.screen
            &&& exists|result: Result<(), PtyError>|
                result is Ok && #[trigger] B::wrote(s.backend, typed, t.backend, result)
        }),
{
    let s = crate::mcp::pty_handler::at(before.sessions.sessions[i].session, now);
    let t = after.sessions.sessions[i].session;
    let bytes = encode_utf8(args.text->0@);
    assert(bytes.push(0x0d) =~= bytes + seq![0x0du8]);
    let result = choose|result: Result<(), PtyError>|
        #[trigger] s.sent(notification_handler::submitted(args.text->0@), t, result) && (match result {
            Ok(_) => handler::replied(step, handler::status_text("ok"@)),
            Err(e) => handler::failed(step, e),
        });
    assert(s.sent(typed, t, result));
    assert(B::wrote(s.backend, typed, t.backend, result));
}

/// Cancelling takes away the watchers with the identifier and no other, and fails where there is
/// none.
pub proof fn law_cancelled_watchers_are_gone<B: PtyBackend>(
    before: NotifyView<B>,
    args: Arguments,
    after: NotifyView<B>,
    step: Step,
    w: WatcherView,
)
    requires
        args.watcher_id is Some,
        notification_handler::notify_cancel_answer(before, args, after, step),
    ensures
        after.watchers.contains(w) <==> before.watchers.contains(w) && w.id != args.watcher_id->0@,
        after.sessions == before.sessions,
        before.watchers.contains(w) && w.id == args.watcher_id->0@ ==> (step matches Step::Done(
            Ok(_),
        )),
{
    let id = args.watcher_id->0@;
    let keep = |w: WatcherView| w.id != id;
    let all = before.watchers;
    if all.filter(keep).contains(w) {
        all.lemma_filter_contains_rev(keep, w);
        let i = choose|i: int| 0 <= i < all.filter(keep).len() && all.filter(keep)[i] == w;
        all.lemma_filter_pred(keep, i);
    }
    if all.contains(w) {
        let i = choose|i: int| 0 <= i < all.len() && all[i] == w;
        if w.id != id {
            all.lemma_filter_contains(keep, i);
        } else {
            assert(all[i].id == id);
        }
    }
}

/// A reminder is set for so many seconds from now, with the message that the call gives.
pub proof fn law_reminders_are_set_for_later(
    before: SchedulerView,
    args: Arguments,
    now: Instant,
    after: SchedulerView,
    step: Step,
    delay: u64,
)
    requires
        args.message is Some && args.delay_seconds == Some(delay),
        before.next_reminder < u64::MAX,
        now.nanos + delay * 1_000_000_000 <= u128::MAX,
        scheduler_handler::reminder_set_answer(before, args, now, after, step),
    ensures
        step matches Step::Done(Ok(_)),
        after == before.with_reminder(
            args.message->0@,
            Instant { nanos: (now.nanos + delay * 1_000_000_000) as u128 },
        ),
{
}

/// A job is set up with what the call gives. Only the word `wait` has it wait for a busy session.
pub proof fn law_jobs_are_set_up(
    before: SchedulerView,
    args: Arguments,
    now: Instant,
    after: SchedulerView,
    step: Step,
    seconds: int,
)
    requires
        args.expression is Some && args.command is Some,
        before.next_cron < u64::MAX,
        crate::scheduler::interval_seconds(args.expression->0@) == Some(seconds),
        seconds <= u64::MAX,
        scheduler_handler::cron_create_answer(before, args, now, after, step),
    ensures
        step matches Step::Done(Ok(_)),
        after.reminders == before.reminders,
        after.jobs.len() == before.jobs.len() + 1,
        after.jobs.drop_last() == before.jobs,
        ({
            let job = after.jobs.last();
            &&& job.expression == args.expression->0@
            &&& job.command == args.command->0@
            &&& args.session_id is Some ==> job.session_id == Some(args.session_id->0@)
            &&& args.session_id is None ==> job.session_id is None
            &&& job.if_busy == BusyPolicy::Wait <==> args.if_busy is Some && args.if_busy->0@
                == "wait"@
        }),
{
    assert(after.jobs.drop_last() =~= before.jobs);
}

/// The sidebar keeps the last ten messages, in the order in which they came; clearing takes them all
/// away.
pub proof fn law_the_last_messages_are_kept(
    before: MessagesView,
    args: Arguments,
    after: MessagesView,
    step: Step,
)
    requires
        before.messages.len() <= 10,
        sidebar_handler::message_answer(before, args, after, step),
    ensures
        args.clear == Some(true) ==> after.messages.len() == 0 && after.dirty,
        args.clear != Some(true) && args.message is Some ==> ({
            let all = before.messages.push(args.message->0@);
            &&& after.dirty
            &&& after.messages == (if all.len() > 10 {
                all.skip(all.len() - 10)
            } else {
                all
            })
        }),
        args.clear != Some(true) && args.message is None ==> after == before && handler::lacks(
            step,
            "message"@,
        ),
{
    if args.clear != Some(true) && args.message is Some && before.messages.len() == 10 {
        let all = before.messages.push(args.message->0@);
        assert(all.skip(1) =~= before.messages.remove(0).push(args.message->0@));
    }
}

/// Text that is appended to a note stands behind what was there, and is read back with it.
pub proof fn law_appended_notes_are_read_back(
    before: Map<Seq<char>, Seq<char>>,
    written: Arguments,
    mid: Map<Seq<char>, Seq<char>>,
    write: Step,
    asked: Arguments,
    after: Map<Seq<char>, Seq<char>>,
    read: Step,
)
    requires
        written.key is Some && written.content is Some && written.append == Some(true),
        asked.key is Some && asked.key->0@ == written.key->0@,
        scratchpad_handler::write_answer(before, written, mid, write),
        scratchpad_handler::read_answer(mid, asked, after, read),
    ensures
        ({
            let was = if before.dom().contains(written.key->0@) {
                before[written.key->0@]
            } else {
                Seq::empty()
            };
            handler::replied(
                read,
                json::object_text(
                    seq![("content"@, json::string_text(was + written.content->0@))],
                ),
            )
        }),
{
    assert(Seq::<char>::empty() + written.content->0@ =~= written.content->0@);
}

/// A rectangle that is set is on the pane of its session, in the place of one with the same
/// identifier there; all others stay.
pub proof fn law_rectangles_are_set<B: PtyBackend>(
    before: TuiView<B>,
    args: Arguments,
    after: TuiView<B>,
    step: Step,
    i: int,
    other: PaneHighlightView,
)
    requires
        before.state.wf(),
        args.session_id is Some && args.id is Some && args.color is Some,
        args.color->0@.len() > 0,
        before.sessions.place(args.session_id->0@) == Some(i),
        tui_handler::highlight_answer(before, args, after, step),
    ensures
        ({
            let pane = before.sessions.sessions[i].key;
            let id = args.id->0@;
            let set = PaneHighlightView {
                session_id: pane,
                highlight: HighlightView {
                    id,
                    x: if args.x is Some { (args.x->0 % 0x1_0000) as u16 } else { 0 },
                    y: if args.y is Some { (args.y->0 % 0x1_0000) as u16 } else { 0 },
                    width: if args.width is Some { (args.width->0 % 0x1_0000) as u16 } else { 1 },
                    height: if args.height is Some { (args.height->0 % 0x1_0000) as u16 } else { 1 },
                    color: args.color->0@,
                },
            };
            &&& after.state.highlights.contains(set)
            &&& after.state.dirty
            &&& after.state.pending_switch == before.state.pending_switch
            &&& other.session_id != pane || other.highlight.id != id
                ==> (after.state.highlights.contains(other) <==> before.state.highlights.contains(
                other,
            ))
            &&& other.session_id == pane && other.highlight.id == id && other != set
                ==> !after.state.highlights.contains(other)
        }),
{
    let pane = before.sessions.sessions[i].key;
    let id = args.id->0@;
    let was = before.state.highlights;
    let now = after.state.highlights;
    let p = |h: PaneHighlightView| h.session_id == pane && h.highlight.id == id;
    text::lemma_first_index(was, p);
    match text::first_index(was, p) {
        Some(k) => {
            let set = now[k];
            assert(now =~= was.update(k, set));
            assert(now[k] == set);
            if was.contains(other) && !p(other) {
                let j = choose|j: int| 0 <= j < was.len() && was[j] == other;
                assert(now[j] == other);
            }
            if now.contains(other) {
                let j = choose|j: int| 0 <= j < now.len() && now[j] == other;
                if j != k {
                    assert(was[j] == other);
                }
            }
        },
        None => {
            let set = now.last();
            assert(now =~= was.push(set));
            assert(now[was.len() as int] == set);
            if was.contains(other) {
                let j = choose|j: int| 0 <= j < was.len() && was[j] == other;
                assert(now[j] == other);
                assert(!p(was[j]));
            }
            if now.contains(other) {
                let j = choose|j: int| 0 <= j < now.len() && now[j] == other;
                if j < was.len() {
                    assert(was[j] == other);
                    assert(!p(was[j]));
                }
            }
        },
    }
}

/// An empty colour takes away the rectangle with the identifier from the pane of its session, and
/// leaves all others.
pub proof fn law_rectangles_are_removed<B: PtyBackend>(
    before: TuiView<B>,
    args: Arguments,
    after: TuiView<B>,
    step: Step,
    i: int,
    h: PaneHighlightView,
)
    requires
        before.state.wf(),
        args.session_id is Some && args.id is Some && args.color is Some,
        args.color->0@.len() == 0,
        before.sessions.place(args.session_id->0@) == Some(i),
        tui_handler::highlight_answer(before, args, after, step),
    ensures
        ({
            let pane = before.sessions.sessions[i].key;
            after.state.highlights.contains(h) <==> before.state.highlights.contains(h) && !(
            h.session_id == pane && h.highlight.id == args.id->0@)
        }),
{
    let pane = before.sessions.sessions[i].key;
    let id = args.id->0@;
    let was = before.state.highlights;
    let now = after.state.highlights;
    let p = |h: PaneHighlightView| h.session_id == pane && h.highlight.id == id;
    text::lemma_first_index(was, p);
    match text::first_index(was, p) {
        Some(k) => {
            assert(now =~= was.remove(k));
            if now.contains(h) {
                let j = choose|j: int| 0 <= j < now.len() && now[j] == h;
                if j < k {
                    assert(was[j] == h);
                    assert(!p(was[j]));
                } else {
                    assert(was[j + 1] == h);
                    assert(was[k].session_id != was[j + 1].session_id || was[k].highlight.id
                        != was[j + 1].highlight.id);
                }
            }
            if was.contains(h) && !p(h) {
                let j = choose|j: int| 0 <= j < was.len() && was[j] == h;
                if j < k {
                    assert(now[j] == h);
                } else {
                    assert(now[j - 1] == h);
                }
            }
        },
        None => {
            assert(now == was);
            if was.contains(h) {
                let j = choose|j: int| 0 <= j < was.len() && was[j] == h;
                assert(!p(was[j]));
            }
        },
    }
}

/// Switching asks for the session that is meant, by its identifier even where it was named
/// otherwise, and changes nothing else that is shown.
pub proof fn law_the_session_meant_is_switched_to<B: PtyBackend>(
    before: TuiView<B>,
    args: Arguments,
    after: TuiView<B>,
    step: Step,
    i: int,
)
    requires
        args.session_id is Some,
        before.sessions.place(args.session_id->0@) == Some(i),
        tui_handler::switch_answer(before, args, after, step),
    ensures
        after.state == (TuiStateView {
            pending_switch: Some(before.sessions.sessions[i].key),
            dirty: true,
            ..before.state
        }),
        after.sessions == before.sessions,
{
}

/// A recorded screen is asked for at an event or at a time, as the call says.
pub proof fn law_recorded_screens_are_asked_for(args: Arguments, step: Step)
    requires
        args.session_id is Some,
        replay_handler::session_query_answer(args, true, step),
    ensures
        step matches Step::Read(Query::Screen { session_id, event_index, timestamp_ms })
            && session_id@ == args.session_id->0@ && event_index == args.event_index
            && timestamp_ms == args.timestamp_ms,
{
}

/// A recorded screen is shown at the event that the call gives, whatever time it gives; without an
/// event at the time; and without either at the end.
pub proof fn law_events_come_before_times(r: ReplayView, idx: usize, ts: u64)
    ensures
        replay_handler::sought(r, Some(idx as u64), None) == r.at_index(idx as int),
        replay_handler::sought(r, Some(idx as u64), Some(ts)) == r.at_index(idx as int),
        replay_handler::sought(r, None, Some(ts)) == r.at_time(ts),
        replay_handler::sought(r, None, None) == r.at_index(r.events.len() as int),
{
    assert(idx as u64 as usize == idx);
}

} // verus!
