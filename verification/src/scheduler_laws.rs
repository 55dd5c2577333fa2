//! What reminders and jobs promise.
use crate::scheduler;
use crate::scheduler::{
    BusyPolicy, CronJobView, ReminderView, SchedulerEventView, SchedulerView, WaitingView,
};
use crate::text;
use crate::time::{Duration, Instant};
use vstd::prelude::*;
use vstd::string::*;

verus! {

proof fn lemma_due(reminders: Seq<WaitingView>, now: u128, n: int)
    requires
        0 <= n <= reminders.len(),
        forall|i: int| 0 <= i < n ==> (#[trigger] reminders[i]).due <= now,
        n < reminders.len() ==> reminders[n].due > now,
    ensures
        scheduler::due_count(reminders, now) == n,
    decreases n,
{
    if n > 0 {
        let rest = reminders.skip(1);
        assert forall|i: int| 0 <= i < n - 1 implies (#[trigger] rest[i]).due <= now by {
            assert(rest[i] == reminders[i + 1]);
        }
        lemma_due(rest, now, n - 1);
        assert(reminders[0].due <= now);
    }
}

/// A reminder fires with the first tick that reaches its time, with the message that it was set
/// with, and those that are due come in the order of their times. It is gone then.
pub proof fn law_reminders_fire_when_due(state: SchedulerView, now: Instant, n: int)
    requires
        state.wf(),
        0 <= n <= state.reminders.len(),
        forall|i: int| 0 <= i < n ==> (#[trigger] state.reminders[i]).due <= now.nanos,
        n < state.reminders.len() ==> state.reminders[n].due > now.nanos,
    ensures
        state.tick_events(now).len() >= n,
        forall|i: int|
            0 <= i < n ==> #[trigger] state.tick_events(now)[i] == SchedulerEventView::ReminderFired(
                state.reminders[i].reminder,
            ),
        forall|i: int|
            n <= i < state.tick_events(now).len() ==> #[trigger] state.tick_events(now)[i] is CronFired,
        state.after_tick(now).reminders == state.reminders.skip(n),
{
    lemma_due(state.reminders, now.nanos, n);
    lemma_only_jobs(state.jobs, now);
    let r = scheduler::reminder_events(state.reminders, now.nanos);
    assert(r.len() == n);
    assert forall|i: int| n <= i < state.tick_events(now).len() implies #[trigger] state.tick_events(
        now,
    )[i] is CronFired by {
        assert(state.tick_events(now)[i] == scheduler::job_events(state.jobs, now)[i - n]);
    }
}

proof fn lemma_only_jobs(jobs: Seq<CronJobView>, now: Instant)
    ensures
        forall|i: int|
            0 <= i < scheduler::job_events(jobs, now).len() ==> #[trigger] scheduler::job_events(
                jobs,
                now,
            )[i] is CronFired,
    decreases jobs.len(),
{
    if jobs.len() > 0 {
        lemma_only_jobs(jobs.drop_last(), now);
    }
}

/// A reminder that is set waits with its message and its time, behind all that are due no later and
/// in front of all that are due later. The others keep their order.
pub proof fn law_reminders_wait_in_order(
    state: SchedulerView,
    message: Seq<char>,
    fire_at: Instant,
    n: int,
)
    requires
        state.wf(),
        0 <= n <= state.reminders.len(),
        forall|i: int| 0 <= i < n ==> (#[trigger] state.reminders[i]).due <= fire_at.nanos,
        n < state.reminders.len() ==> state.reminders[n].due > fire_at.nanos,
    ensures
        state.with_reminder(message, fire_at) == (SchedulerView {
            reminders: state.reminders.take(n).push(
                WaitingView {
                    due: fire_at.nanos,
                    reminder: ReminderView {
                        id: "reminder-"@ + text::decimal(state.next_reminder),
                        message,
                        fire_at: Some(fire_at),
                    },
                },
            ) + state.reminders.skip(n),
            next_reminder: state.next_reminder + 1,
            ..state
        }),
{
    lemma_due(state.reminders, fire_at.nanos, n);
    let w = WaitingView {
        due: fire_at.nanos,
        reminder: ReminderView {
            id: "reminder-"@ + text::decimal(state.next_reminder),
            message,
            fire_at: Some(fire_at),
        },
    };
    assert(state.reminders.insert(n, w) =~= state.reminders.take(n).push(w)
        + state.reminders.skip(n));
}

/// Jobs fire by themselves: those of a longer list fire one after the other.
pub proof fn law_jobs_fire_one_by_one(a: Seq<CronJobView>, b: Seq<CronJobView>, now: Instant)
    ensures
        scheduler::job_events(a + b, now) == scheduler::job_events(a, now) + scheduler::job_events(
            b,
            now,
        ),
    decreases b.len(),
{
    if b.len() == 0 {
        assert(a + b =~= a);
        assert(scheduler::job_events(b, now) =~= Seq::empty());
    } else {
        assert((a + b).drop_last() =~= a + b.drop_last());
        law_jobs_fire_one_by_one(a, b.drop_last(), now);
        assert(scheduler::job_events(a + b, now) =~= scheduler::job_events(a, now)
            + scheduler::job_events(b, now));
    }
}

/// A job fires with a tick exactly when its time has come, as the job that it is, and is then due
/// again its interval after the tick; before its time nothing happens.
pub proof fn law_jobs_fire_when_due(
    state: SchedulerView,
    job: CronJobView,
    now: Instant,
    at: Instant,
    interval: Duration,
)
    requires
        state.jobs == seq![job],
        state.reminders.len() == 0,
        job.next_fire == Some(at),
        job.interval == Some(interval),
        now.nanos + interval.nanos <= u128::MAX,
    ensures
        now.nanos < at.nanos ==> state.tick_events(now).len() == 0 && state.after_tick(now).jobs
            == state.jobs,
        now.nanos >= at.nanos ==> state.tick_events(now) == seq![
            SchedulerEventView::CronFired(job),
        ],
        now.nanos >= at.nanos ==> state.after_tick(now).jobs == seq![
            CronJobView {
                next_fire: Some(Instant { nanos: (now.nanos + interval.nanos) as u128 }),
                ..job
            },
        ],
{
    assert(state.jobs.drop_last() =~= Seq::empty());
    assert(scheduler::job_events(state.jobs.drop_last(), now) =~= Seq::empty());
    assert(scheduler::due_count(state.reminders, now.nanos) == 0);
    let r = scheduler::reminder_events(state.reminders, now.nanos);
    assert(r =~= Seq::empty());
    assert(state.jobs[0] == job);
    assert(state.after_tick(now).jobs =~= seq![scheduler::job_after_tick(job, now)]);
    let j = scheduler::job_events(state.jobs, now);
    assert(state.tick_events(now) =~= j);
}

/// A job that is added has what it was given, and is due for the first time its interval later. An
/// expression without an interval adds none.
pub proof fn law_jobs_begin_an_interval_later(
    state: SchedulerView,
    expression: Seq<char>,
    command: Seq<char>,
    session_id: Option<Seq<char>>,
    if_busy: BusyPolicy,
    now: Instant,
    seconds: int,
)
    requires
        scheduler::interval_seconds(expression) == Some(seconds),
        0 <= seconds <= u64::MAX,
        now.nanos + seconds * 1_000_000_000 <= u128::MAX,
    ensures
        ({
            let after = state.with_job(expression, command, session_id, if_busy, now);
            &&& after.reminders == state.reminders
            &&& after.jobs == state.jobs.push(
                CronJobView {
                    id: "cron-"@ + text::decimal(state.next_cron),
                    expression,
                    command,
                    session_id,
                    if_busy,
                    interval: Some(Duration { nanos: (seconds * 1_000_000_000) as u128 }),
                    next_fire: Some(
                        Instant { nanos: (now.nanos + seconds * 1_000_000_000) as u128 },
                    ),
                },
            )
        }),
{
}

/// Removing a job takes away the one with the identifier and no other.
pub proof fn law_the_job_that_is_meant_is_removed(state: SchedulerView, i: int)
    requires
        state.wf(),
        0 <= i < state.jobs.len(),
    ensures
        state.without_job(state.jobs[i].id) == (SchedulerView {
            jobs: state.jobs.remove(i),
            ..state
        }),
{
    lemma_place(state.jobs, i);
    assert(state.has_job(state.jobs[i].id));
}

proof fn lemma_place(jobs: Seq<CronJobView>, i: int)
    requires
        0 <= i < jobs.len(),
        forall|a: int, b: int|
            0 <= a < b < jobs.len() ==> (#[trigger] jobs[a]).id != (#[trigger] jobs[b]).id,
    ensures
        scheduler::job_place(jobs, jobs[i].id) == i,
    decreases i,
{
    if i > 0 {
        let rest = jobs.skip(1);
        assert forall|a: int, b: int| 0 <= a < b < rest.len() implies (#[trigger] rest[a]).id != (
        #[trigger] rest[b]).id by {
            assert(rest[a] == jobs[a + 1] && rest[b] == jobs[b + 1]);
        }
        assert(rest[i - 1] == jobs[i]);
        assert(jobs[0].id != jobs[i].id);
        lemma_place(rest, i - 1);
    }
}

} // verus!
