//! Reminders that fire once and jobs that fire again and again.
use crate::text;
use crate::text::{chars_equal, cut_both, find_word_end, from_chars, numbered, parse_unsigned, split_words, strip_prefix, to_chars};
use crate::time;
use crate::time::{Duration, Instant};
use vstd::prelude::*;
use vstd::string::*;

verus! {

/// Why the scheduler refused a request.
#[derive(Debug, Clone, PartialEq, Eq)]
pub enum SchedulerError {
    /// The expression describes no interval.
    InvalidExpression(String),
    /// No job has this identifier.
    NotFound(String),
}

impl SchedulerError {
    /// The message that the error is shown with.
    pub open spec fn message(&self) -> Seq<char> {
        match *self {
            SchedulerError::InvalidExpression(s) => "invalid cron expression: "@ + s@,
            SchedulerError::NotFound(s) => "job not found: "@ + s@,
        }
    }

    /// The error as text.
    pub fn to_string(&self) -> (s: String)
        ensures
            s@ == self.message(),
    {
        match self {
            SchedulerError::InvalidExpression(e) => {
                let mut s = "invalid cron expression: ".to_string();
                s.append(e.as_str());
                s
            },
            SchedulerError::NotFound(id) => {
                let mut s = "job not found: ".to_string();
                s.append(id.as_str());
                s
            },
        }
    }
}

/// What to do when a job fires while its session is busy.
#[derive(Debug, Clone, Copy, PartialEq, Eq, Structural)]
pub enum BusyPolicy {
    /// Drop the message silently.
    Drop,
    /// Wait until the session is idle, then inject.
    Wait,
}

impl Default for BusyPolicy {
    fn default() -> (policy: Self)
        ensures
            policy == BusyPolicy::Drop,
    {
        BusyPolicy::Drop
    }
}

impl BusyPolicy {
    /// The policy with the given name; every other name, and none, means to drop.
    pub fn from_str_opt(s: Option<&str>) -> (policy: Self)
        ensures
            policy == if s matches Some(name) && name@ == "wait"@ {
                BusyPolicy::Wait
            } else {
                BusyPolicy::Drop
            },
    {
        match s {
            Some(name) => {
                let chars = to_chars(name);
                if chars_equal(&chars, "wait") {
                    BusyPolicy::Wait
                } else {
                    BusyPolicy::Drop
                }
            },
            None => BusyPolicy::Drop,
        }
    }
}

/// The number of seconds that a unit word stands for, whatever the case of its letters.
pub open spec fn unit_seconds(unit: Seq<char>) -> Option<int> {
    let u = lower(unit);
    if u == "second"@ || u == "seconds"@ || u == "sec"@ || u == "secs"@ || u == "s"@ {
        Some(1)
    } else if u == "minute"@ || u == "minutes"@ || u == "min"@ || u == "mins"@ || u == "m"@ {
        Some(60)
    } else if u == "hour"@ || u == "hours"@ || u == "hr"@ || u == "hrs"@ || u == "h"@ {
        Some(3600)
    } else {
        None
    }
}

/// The small letter of an ASCII capital; every other character itself.
pub open spec fn lower_char(c: char) -> char {
    if 'A' <= c <= 'Z' {
        (c as int + 32) as char
    } else {
        c
    }
}

/// ASCII capitals replaced by small letters.
pub open spec fn lower(s: Seq<char>) -> Seq<char> {
    s.map_values(|c: char| lower_char(c))
}

/// A number of at most 64 bits.
pub open spec fn count(s: Seq<char>) -> Option<int> {
    text::unsigned_value(s, u64::MAX as int)
}

/// `10s`, `5m`, `1h`: a number directly followed by the letter of a unit.
pub open spec fn compact_seconds(e: Seq<char>, letter: char, seconds: int) -> Option<int> {
    if e.len() > 0 && e.last() == letter {
        match count(e.drop_last()) {
            Some(n) => Some(n * seconds),
            None => None,
        }
    } else {
        None
    }
}

/// `*/5`: every so many minutes, at least one.
pub open spec fn step_seconds(field: Seq<char>) -> Option<int> {
    if text::has_prefix(field, "*/"@) {
        match count(field.skip("*/"@.len() as int)) {
            Some(n) => if n > 0 {
                Some(n * 60)
            } else {
                None
            },
            None => None,
        }
    } else {
        None
    }
}

/// `*/5 * * * *`: a step in the minute field, and stars in the other four.
pub open spec fn five_field_seconds(e: Seq<char>) -> Option<int> {
    let fields = text::words(e);
    if fields.len() == 5 && fields[1] == "*"@ && fields[2] == "*"@ && fields[3] == "*"@
        && fields[4] == "*"@ {
        step_seconds(fields[0])
    } else {
        None
    }
}

/// `30 seconds`: a number, white space and a unit word.
pub open spec fn number_and_unit_seconds(s: Seq<char>) -> Option<int> {
    let rest = text::trim(s);
    let n = text::word_end(rest);
    if n < rest.len() {
        match (count(rest.take(n)), unit_seconds(text::trim(rest.skip(n + 1)))) {
            (Some(k), Some(u)) => Some(k * u),
            _ => None,
        }
    } else {
        None
    }
}

/// `every 30 seconds`.
pub open spec fn every_seconds(e: Seq<char>) -> Option<int> {
    if text::has_prefix(e, "every "@) {
        number_and_unit_seconds(e.skip("every "@.len() as int))
    } else if text::has_prefix(e, "every\t"@) {
        number_and_unit_seconds(e.skip("every\t"@.len() as int))
    } else {
        None
    }
}

/// The first of the two that is there.
pub open spec fn or_else(a: Option<int>, b: Option<int>) -> Option<int> {
    if a is Some {
        a
    } else {
        b
    }
}

/// The interval that an expression describes, in seconds; white space around it does not count.
pub open spec fn interval_seconds(expr: Seq<char>) -> Option<int> {
    first_interval(text::trim(expr))
}

/// The interval of the first notation that fits.
pub open spec fn first_interval(e: Seq<char>) -> Option<int> {
    or_else(
        compact_seconds(e, 's', 1),
        or_else(
            compact_seconds(e, 'm', 60),
            or_else(
                compact_seconds(e, 'h', 3600),
                or_else(five_field_seconds(e), or_else(step_seconds(e), every_seconds(e))),
            ),
        ),
    )
}

/// An expression whose interval, if it has one, can be counted in 64 bits of seconds.
pub open spec fn interval_fits(expr: Seq<char>) -> bool {
    interval_seconds(expr) is Some ==> interval_seconds(expr)->0 <= u64::MAX
}

fn lowered(s: &[char]) -> (t: Vec<char>)
    ensures
        t@ == lower(s@),
{
    let mut t: Vec<char> = Vec::new();
    let mut i: usize = 0;
    while i < s.len()
        invariant
            i <= s.len(),
            t@ == lower(s@.take(i as int)),
        decreases s.len() - i,
    {
        let c: char = s[i];
        let small: char = if 'A' <= c && c <= 'Z' {
            ((c as u32 + 32) as u8) as char
        } else {
            c
        };
        t.push(small);
        i += 1;
        assert(lower(s@.take(i as int)) =~= lower(s@.take(i - 1)).push(small));
    }
    assert(s@.take(i as int) =~= s@);
    t
}

fn one_of(s: &[char], a: &str, b: &str, c: &str, d: &str, e: &str) -> (found: bool)
    ensures
        found == (s@ == a@ || s@ == b@ || s@ == c@ || s@ == d@ || s@ == e@),
{
    chars_equal(s, a) || chars_equal(s, b) || chars_equal(s, c) || chars_equal(s, d) || chars_equal(
        s,
        e,
    )
}

fn unit(s: &[char]) -> (seconds: Option<u128>)
    ensures
        match seconds {
            Some(n) => unit_seconds(s@) == Some(n as int) && n <= 3600,
            None => unit_seconds(s@) is None,
        },
{
    let u = lowered(s);
    if one_of(&u, "second", "seconds", "sec", "secs", "s") {
        Some(1)
    } else if one_of(&u, "minute", "minutes", "min", "mins", "m") {
        Some(60)
    } else if one_of(&u, "hour", "hours", "hr", "hrs", "h") {
        Some(3600)
    } else {
        None
    }
}

fn compact(e: &[char], letter: char, seconds: u128) -> (total: Option<u128>)
    requires
        seconds <= 3600,
    ensures
        match total {
            Some(n) => compact_seconds(e@, letter, seconds as int) == Some(n as int),
            None => compact_seconds(e@, letter, seconds as int) is None,
        },
{
    if e.len() == 0 || e[e.len() - 1] != letter {
        return None;
    }
    let number = vstd::slice::slice_subrange(e, 0, e.len() - 1);
    assert(number@ =~= e@.drop_last());
    match parse_unsigned(number, u64::MAX) {
        Some(n) => {
            assert(n as u128 * seconds <= u128::MAX) by (nonlinear_arith)
                requires
                    n <= u64::MAX,
                    seconds <= 3600,
            ;
            Some(n as u128 * seconds)
        },
        None => None,
    }
}

fn step(field: &[char]) -> (total: Option<u128>)
    ensures
        match total {
            Some(n) => step_seconds(field@) == Some(n as int),
            None => step_seconds(field@) is None,
        },
{
    match strip_prefix(field, "*/") {
        Some(number) => match parse_unsigned(number, u64::MAX) {
            Some(n) => if n > 0 {
                Some(n as u128 * 60)
            } else {
                None
            },
            None => None,
        },
        None => None,
    }
}

fn five_fields(e: &[char]) -> (total: Option<u128>)
    ensures
        match total {
            Some(n) => five_field_seconds(e@) == Some(n as int),
            None => five_field_seconds(e@) is None,
        },
{
    let fields = split_words(e);
    let ghost views = text::char_views(fields@);
    assert(views.len() == fields@.len());
    if fields.len() != 5 {
        return None;
    }
    assert(views[0] == fields@[0]@ && views[1] == fields@[1]@ && views[2] == fields@[2]@ && views[3]
        == fields@[3]@ && views[4] == fields@[4]@);
    if chars_equal(&fields[1], "*") && chars_equal(&fields[2], "*") && chars_equal(&fields[3], "*")
        && chars_equal(&fields[4], "*") {
        step(&fields[0])
    } else {
        None
    }
}

fn number_and_unit(s: &[char]) -> (total: Option<u128>)
    ensures
        match total {
            Some(n) => number_and_unit_seconds(s@) == Some(n as int),
            None => number_and_unit_seconds(s@) is None,
        },
{
    let rest = cut_both(s);
    let n = find_word_end(rest);
    if n == rest.len() {
        return None;
    }
    let number = vstd::slice::slice_subrange(rest, 0, n);
    assert(number@ =~= rest@.take(n as int));
    let tail = vstd::slice::slice_subrange(rest, n + 1, rest.len());
    assert(tail@ =~= rest@.skip(n + 1));
    let word = cut_both(tail);
    match (parse_unsigned(number, u64::MAX), unit(word)) {
        (Some(k), Some(u)) => {
            assert(k as u128 * u <= u128::MAX) by (nonlinear_arith)
                requires
                    k <= u64::MAX,
                    u <= 3600,
            ;
            Some(k as u128 * u)
        },
        _ => None,
    }
}

fn every(e: &[char]) -> (total: Option<u128>)
    ensures
        match total {
            Some(n) => every_seconds(e@) == Some(n as int),
            None => every_seconds(e@) is None,
        },
{
    match strip_prefix(e, "every ") {
        Some(rest) => number_and_unit(rest),
        None => match strip_prefix(e, "every\t") {
            Some(rest) => number_and_unit(rest),
            None => None,
        },
    }
}

fn total_seconds(e: &[char]) -> (seconds: Option<u128>)
    ensures
        match seconds {
            Some(n) => first_interval(e@) == Some(n as int),
            None => first_interval(e@) is None,
        },
{
    match compact(e, 's', 1) {
        Some(n) => Some(n),
        None => match compact(e, 'm', 60) {
            Some(n) => Some(n),
            None => match compact(e, 'h', 3600) {
                Some(n) => Some(n),
                None => match five_fields(e) {
                    Some(n) => Some(n),
                    None => match step(e) {
                        Some(n) => Some(n),
                        None => every(e),
                    },
                },
            },
        },
    }
}

/// Reads an interval expression.
///
/// - compact: `10s`, `5m`, `1h`
/// - cron style: `*/5 * * * *` (every five minutes)
/// - cron shorthand: `*/5`
/// - in words: `every 30 seconds`, `every 2 minutes`, `every 1 hour`
pub fn parse_interval(expr: &str) -> (interval: Result<Duration, SchedulerError>)
    requires
        interval_fits(expr@),
    ensures
        match interval {
            Ok(d) => interval_seconds(expr@) is Some && d.nanos == interval_seconds(expr@)->0
                * 1_000_000_000,
            Err(SchedulerError::InvalidExpression(s)) => interval_seconds(expr@) is None && s@
                == text::trim(expr@),
            Err(_) => false,
        },
{
    let chars = to_chars(expr);
    let e = cut_both(&chars);
    match total_seconds(e) {
        Some(n) => Ok(Duration::from_secs(n as u64)),
        None => Err(SchedulerError::InvalidExpression(from_chars(e))),
    }
}

/// Whether the interval of an expression, if it has one, can be counted in 64 bits of seconds.
pub fn has_countable_interval(expr: &str) -> (fits: bool)
    ensures
        fits == interval_fits(expr@),
{
    let chars = to_chars(expr);
    let e = cut_both(&chars);
    match total_seconds(e) {
        Some(n) => n <= u64::MAX as u128,
        None => true,
    }
}

/// A one-shot reminder.
#[derive(Debug)]
pub struct Reminder {
    pub id: String,
    pub message: String,
    pub fire_at: Option<Instant>,
}

/// A reminder as a mathematical value.
pub struct ReminderView {
    pub id: Seq<char>,
    pub message: Seq<char>,
    pub fire_at: Option<Instant>,
}

impl View for Reminder {
    type V = ReminderView;

    open spec fn view(&self) -> ReminderView {
        ReminderView { id: self.id@, message: self.message@, fire_at: self.fire_at }
    }
}

/// A recurring job.
#[derive(Debug)]
pub struct CronJob {
    pub id: String,
    pub expression: String,
    pub command: String,
    pub session_id: Option<String>,
    pub if_busy: BusyPolicy,
    pub interval: Option<Duration>,
    pub next_fire: Option<Instant>,
}

/// A job as a mathematical value.
pub struct CronJobView {
    pub id: Seq<char>,
    pub expression: Seq<char>,
    pub command: Seq<char>,
    pub session_id: Option<Seq<char>>,
    pub if_busy: BusyPolicy,
    pub interval: Option<Duration>,
    pub next_fire: Option<Instant>,
}

impl View for CronJob {
    type V = CronJobView;

    open spec fn view(&self) -> CronJobView {
        CronJobView {
            id: self.id@,
            expression: self.expression@,
            command: self.command@,
            session_id: text::optional_view(self.session_id),
            if_busy: self.if_busy,
            interval: self.interval,
            next_fire: self.next_fire,
        }
    }
}

impl Clone for Reminder {
    fn clone(&self) -> (r: Self)
        ensures
            r@ == self@,
    {
        Reminder { id: self.id.clone(), message: self.message.clone(), fire_at: self.fire_at }
    }
}

impl Clone for CronJob {
    fn clone(&self) -> (j: Self)
        ensures
            j@ == self@,
    {
        CronJob {
            id: self.id.clone(),
            expression: self.expression.clone(),
            command: self.command.clone(),
            session_id: text::clone_optional(&self.session_id),
            if_busy: self.if_busy,
            interval: self.interval,
            next_fire: self.next_fire,
        }
    }
}

/// Events emitted by the scheduler.
#[derive(Debug)]
pub enum SchedulerEvent {
    ReminderFired(Reminder),
    CronFired(CronJob),
}

/// A scheduler event as a mathematical value.
pub enum SchedulerEventView {
    ReminderFired(ReminderView),
    CronFired(CronJobView),
}

impl View for SchedulerEvent {
    type V = SchedulerEventView;

    open spec fn view(&self) -> SchedulerEventView {
        match *self {
            SchedulerEvent::ReminderFired(r) => SchedulerEventView::ReminderFired(r@),
            SchedulerEvent::CronFired(j) => SchedulerEventView::CronFired(j@),
        }
    }
}

/// A reminder that waits, with the time at which it is due, in nanoseconds.
struct Waiting {
    due: u128,
    reminder: Reminder,
}

/// A waiting reminder as a mathematical value.
pub struct WaitingView {
    pub due: u128,
    pub reminder: ReminderView,
}

/// The state of a scheduler: the reminders in the order in which they fire, the jobs in the order
/// in which they were added, the numbers of the next reminder and the next job, and the time at
/// which it was set up.
pub struct SchedulerView {
    pub reminders: Seq<WaitingView>,
    pub jobs: Seq<CronJobView>,
    pub next_reminder: nat,
    pub next_cron: nat,
    pub epoch: Instant,
}

/// Time-based scheduler for reminders and jobs. It never reads the clock: the time is passed in.
pub struct Scheduler {
    reminders: Vec<Waiting>,
    cron_jobs: Vec<CronJob>,
    next_reminder_id: u64,
    next_cron_id: u64,
    epoch: Instant,
}

/// Reminders ordered by the time at which they are due.
pub open spec fn in_due_order(reminders: Seq<WaitingView>) -> bool {
    forall|i: int, j: int|
        0 <= i <= j < reminders.len() ==> #[trigger] reminders[i].due <= #[trigger] reminders[j].due
}

/// The number of reminders that are due at or before a time: those at the front.
pub open spec fn due_count(reminders: Seq<WaitingView>, now: u128) -> int
    decreases reminders.len(),
{
    if reminders.len() > 0 && reminders[0].due <= now {
        1 + due_count(reminders.skip(1), now)
    } else {
        0
    }
}

/// The reminders with one more, behind those that are due no later.
pub open spec fn insert_reminder(reminders: Seq<WaitingView>, w: WaitingView) -> Seq<WaitingView> {
    reminders.insert(due_count(reminders, w.due), w)
}

/// Whether a job is due.
pub open spec fn job_is_due(job: CronJobView, now: Instant) -> bool {
    job.next_fire matches Some(t) && now.nanos >= t.nanos
}

/// A job after a tick: where it was due, it is due again an interval after the tick.
pub open spec fn job_after_tick(job: CronJobView, now: Instant) -> CronJobView {
    if job_is_due(job, now) && job.interval is Some {
        CronJobView {
            next_fire: Some(Instant { nanos: (now.nanos + job.interval->0.nanos) as u128 }),
            ..job
        }
    } else {
        job
    }
}

/// The events of the jobs that are due, in the order of the jobs.
pub open spec fn job_events(jobs: Seq<CronJobView>, now: Instant) -> Seq<SchedulerEventView>
    decreases jobs.len(),
{
    if jobs.len() == 0 {
        Seq::empty()
    } else {
        let before = job_events(jobs.drop_last(), now);
        if job_is_due(jobs.last(), now) {
            before.push(SchedulerEventView::CronFired(jobs.last()))
        } else {
            before
        }
    }
}

/// The events of the reminders that are due.
pub open spec fn reminder_events(reminders: Seq<WaitingView>, now: u128) -> Seq<SchedulerEventView> {
    reminders.take(due_count(reminders, now)).map_values(
        |w: WaitingView| SchedulerEventView::ReminderFired(w.reminder),
    )
}

/// The earlier of two times, where there are any.
pub open spec fn earlier(a: Option<Instant>, b: Option<Instant>) -> Option<Instant> {
    match (a, b) {
        (Some(x), Some(y)) => if y.nanos < x.nanos {
            Some(y)
        } else {
            Some(x)
        },
        (Some(x), None) => Some(x),
        (None, y) => y,
    }
}

/// The earliest time at which one of the jobs is due.
pub open spec fn earliest_job(jobs: Seq<CronJobView>) -> Option<Instant>
    decreases jobs.len(),
{
    if jobs.len() == 0 {
        None
    } else {
        earlier(earliest_job(jobs.drop_last()), jobs.last().next_fire)
    }
}

/// Whether an identifier was given to a job with a number below `limit`.
pub open spec fn is_given_id(id: Seq<char>, limit: nat) -> bool {
    exists|n: nat| n < limit && id == #[trigger] job_id(n)
}

/// Every job has an identifier that was given out, and no two have the same.
pub open spec fn job_ids_wf(jobs: Seq<CronJobView>, limit: nat) -> bool {
    &&& forall|i: int| 0 <= i < jobs.len() ==> is_given_id((#[trigger] jobs[i]).id, limit)
    &&& forall|i: int, j: int|
        0 <= i < j < jobs.len() ==> (#[trigger] jobs[i]).id != (#[trigger] jobs[j]).id
}

/// All jobs have intervals, which can be counted in 64 bits of seconds, and times at which they are
/// due next.
pub open spec fn intervals_wf(jobs: Seq<CronJobView>) -> bool {
    forall|i: int|
        0 <= i < jobs.len() ==> {
            &&& (#[trigger] jobs[i]).interval matches Some(d) && d.nanos <= u64::MAX * 1_000_000_000
            &&& jobs[i].next_fire is Some
        }
}

/// All waiting reminders are due at the times that they were set for.
pub open spec fn dues_wf(reminders: Seq<WaitingView>) -> bool {
    forall|i: int|
        0 <= i < reminders.len() ==> (#[trigger] reminders[i]).reminder.fire_at == Some(
            Instant { nanos: reminders[i].due },
        )
}

/// The place of the job with an identifier; the number of jobs where there is none.
pub open spec fn job_place(jobs: Seq<CronJobView>, id: Seq<char>) -> int
    decreases jobs.len(),
{
    if jobs.len() == 0 || jobs[0].id == id {
        0
    } else {
        1 + job_place(jobs.skip(1), id)
    }
}

impl SchedulerView {
    /// Reminders are in the order in which they fire and due when they were set for, every job has
    /// a time at which it is due next, no two jobs share an identifier, and the identifiers in use
    /// are those of earlier numbers.
    pub open spec fn wf(self) -> bool {
        &&& in_due_order(self.reminders)
        &&& dues_wf(self.reminders)
        &&& job_ids_wf(self.jobs, self.next_cron)
        &&& intervals_wf(self.jobs)
    }

    /// The state after a reminder was set.
    pub open spec fn with_reminder(self, message: Seq<char>, fire_at: Instant) -> SchedulerView {
        SchedulerView {
            reminders: insert_reminder(
                self.reminders,
                WaitingView {
                    due: fire_at.nanos,
                    reminder: ReminderView {
                        id: reminder_id(self.next_reminder),
                        message,
                        fire_at: Some(fire_at),
                    },
                },
            ),
            next_reminder: self.next_reminder + 1,
            ..self
        }
    }

    /// The state after a job was added, where the expression describes an interval.
    pub open spec fn with_job(
        self,
        expression: Seq<char>,
        command: Seq<char>,
        session_id: Option<Seq<char>>,
        if_busy: BusyPolicy,
        now: Instant,
    ) -> SchedulerView {
        if interval_seconds(expression) is Some {
            SchedulerView {
                jobs: self.jobs.push(
                    new_job(
                        job_id(self.next_cron),
                        expression,
                        command,
                        session_id,
                        if_busy,
                        now,
                    ),
                ),
                next_cron: self.next_cron + 1,
                ..self
            }
        } else {
            self
        }
    }

    /// The state after a job was removed, where there is one with the identifier.
    pub open spec fn without_job(self, id: Seq<char>) -> SchedulerView {
        if self.has_job(id) {
            SchedulerView { jobs: self.jobs.remove(job_place(self.jobs, id)), ..self }
        } else {
            self
        }
    }

    /// The events that a tick emits: the reminders that are due, then the jobs that are.
    pub open spec fn tick_events(self, now: Instant) -> Seq<SchedulerEventView> {
        reminder_events(self.reminders, now.nanos) + job_events(self.jobs, now)
    }

    /// The state after a tick: what has fired of the reminders is gone, and jobs that fired are
    /// due again an interval later.
    pub open spec fn after_tick(self, now: Instant) -> SchedulerView {
        SchedulerView {
            reminders: self.reminders.skip(due_count(self.reminders, now.nanos)),
            jobs: self.jobs.map_values(|j: CronJobView| job_after_tick(j, now)),
            ..self
        }
    }

    /// The next time at which a tick emits something.
    pub open spec fn wake_time(self) -> Option<Instant> {
        let first = if self.reminders.len() > 0 {
            Some(Instant { nanos: self.reminders[0].due })
        } else {
            None
        };
        earlier(first, earliest_job(self.jobs))
    }

    /// Whether some job has the identifier.
    pub open spec fn has_job(self, id: Seq<char>) -> bool {
        exists|i: int| 0 <= i < self.jobs.len() && #[trigger] self.jobs[i].id == id
    }
}

/// A scheduler without reminders and jobs.
pub open spec fn empty_scheduler(epoch: Instant) -> SchedulerView {
    SchedulerView {
        reminders: Seq::empty(),
        jobs: Seq::empty(),
        next_reminder: 1,
        next_cron: 1,
        epoch,
    }
}

/// The identifier of the reminder with a number.
pub open spec fn reminder_id(n: nat) -> Seq<char> {
    "reminder-"@ + text::decimal(n)
}

/// The identifier of the job with a number.
pub open spec fn job_id(n: nat) -> Seq<char> {
    "cron-"@ + text::decimal(n)
}

/// A job as it is added.
pub open spec fn new_job(
    id: Seq<char>,
    expression: Seq<char>,
    command: Seq<char>,
    session_id: Option<Seq<char>>,
    if_busy: BusyPolicy,
    now: Instant,
) -> CronJobView {
    let interval = Duration { nanos: (interval_seconds(expression)->0 * 1_000_000_000) as u128 };
    CronJobView {
        id,
        expression,
        command,
        session_id,
        if_busy,
        interval: Some(interval),
        next_fire: Some(Instant { nanos: (now.nanos + interval.nanos) as u128 }),
    }
}

proof fn lemma_job_ids_differ(a: nat, b: nat)
    requires
        job_id(a) == job_id(b),
    ensures
        a == b,
{
    let p = "cron-"@;
    assert(job_id(a).skip(p.len() as int) =~= text::decimal(a));
    assert(job_id(b).skip(p.len() as int) =~= text::decimal(b));
    text::law_decimal_is_injective(a, b);
}

proof fn lemma_due_count(reminders: Seq<WaitingView>, now: u128)
    ensures
        0 <= due_count(reminders, now) <= reminders.len(),
        forall|i: int| 0 <= i < due_count(reminders, now) ==> (#[trigger] reminders[i]).due <= now,
        in_due_order(reminders) ==> forall|i: int|
            due_count(reminders, now) <= i < reminders.len() ==> (#[trigger] reminders[i]).due
                > now,
    decreases reminders.len(),
{
    if reminders.len() > 0 && reminders[0].due <= now {
        let rest = reminders.skip(1);
        lemma_due_count(rest, now);
        assert forall|i: int| 0 < i < reminders.len() implies reminders[i] == rest[i - 1] by {}
        if in_due_order(reminders) {
            assert forall|i: int, j: int| 0 <= i <= j < rest.len() implies #[trigger] rest[i].due
                <= #[trigger] rest[j].due by {
                assert(rest[i] == reminders[i + 1] && rest[j] == reminders[j + 1]);
            }
        }
    }
}

proof fn lemma_insert_keeps_order(reminders: Seq<WaitingView>, w: WaitingView)
    requires
        in_due_order(reminders),
        dues_wf(reminders),
        w.reminder.fire_at == Some(Instant { nanos: w.due }),
    ensures
        in_due_order(insert_reminder(reminders, w)),
        dues_wf(insert_reminder(reminders, w)),
{
    lemma_due_count(reminders, w.due);
    let at = due_count(reminders, w.due);
    let r = insert_reminder(reminders, w);
    assert forall|i: int, j: int| 0 <= i <= j < r.len() implies #[trigger] r[i].due
        <= #[trigger] r[j].due by {
        let a = if i < at {
            reminders[i]
        } else if i == at {
            w
        } else {
            reminders[i - 1]
        };
        let b = if j < at {
            reminders[j]
        } else if j == at {
            w
        } else {
            reminders[j - 1]
        };
        assert(r[i] == a && r[j] == b);
    }
    assert forall|i: int| 0 <= i < r.len() implies (#[trigger] r[i]).reminder.fire_at == Some(
        Instant { nanos: r[i].due },
    ) by {
        assert(r[i] == if i < at {
            reminders[i]
        } else if i == at {
            w
        } else {
            reminders[i - 1]
        });
    }
}

proof fn lemma_job_place(jobs: Seq<CronJobView>, id: Seq<char>)
    ensures
        0 <= job_place(jobs, id) <= jobs.len(),
        job_place(jobs, id) < jobs.len() ==> jobs[job_place(jobs, id)].id == id,
        forall|i: int| 0 <= i < job_place(jobs, id) ==> (#[trigger] jobs[i]).id != id,
    decreases jobs.len(),
{
    if jobs.len() > 0 && jobs[0].id != id {
        let rest = jobs.skip(1);
        lemma_job_place(rest, id);
        assert forall|i: int| 0 <= i < job_place(jobs, id) implies (#[trigger] jobs[i]).id != id by {
            if i > 0 {
                assert(rest[i - 1] == jobs[i]);
            }
        }
    }
}

/// A tick keeps a valid state valid.
pub proof fn law_tick_keeps_wf(state: SchedulerView, now: Instant)
    requires
        state.wf(),
    ensures
        state.after_tick(now).wf(),
{
    let after = state.after_tick(now);
    lemma_due_count(state.reminders, now.nanos);
    let due = due_count(state.reminders, now.nanos);
    assert forall|i: int, j: int| 0 <= i <= j < after.reminders.len() implies
        #[trigger] after.reminders[i].due <= #[trigger] after.reminders[j].due by {
        assert(after.reminders[i] == state.reminders[i + due]);
        assert(after.reminders[j] == state.reminders[j + due]);
    }
    assert forall|i: int| 0 <= i < after.reminders.len() implies (
    #[trigger] after.reminders[i]).reminder.fire_at == Some(
        Instant { nanos: after.reminders[i].due },
    ) by {
        assert(after.reminders[i] == state.reminders[i + due]);
    }
    assert forall|i: int| 0 <= i < after.jobs.len() implies is_given_id(
        (#[trigger] after.jobs[i]).id,
        after.next_cron,
    ) by {
        assert(after.jobs[i].id == state.jobs[i].id);
    }
    assert forall|i: int| 0 <= i < after.jobs.len() implies ({
        &&& (#[trigger] after.jobs[i]).interval matches Some(d) && d.nanos <= u64::MAX
            * 1_000_000_000
        &&& after.jobs[i].next_fire is Some
    }) by {
        assert(after.jobs[i] == job_after_tick(state.jobs[i], now));
        assert(state.jobs[i].interval is Some);
    }
    assert forall|a: int, b: int| 0 <= a < b < after.jobs.len() implies (
    #[trigger] after.jobs[a]).id != (#[trigger] after.jobs[b]).id by {
        assert(after.jobs[a].id == state.jobs[a].id);
        assert(after.jobs[b].id == state.jobs[b].id);
    }
}

proof fn lemma_add_job_keeps_ids(jobs: Seq<CronJobView>, job: CronJobView, n: nat)
    requires
        job_ids_wf(jobs, n),
        job.id == job_id(n),
    ensures
        job_ids_wf(jobs.push(job), n + 1),
{
    let after = jobs.push(job);
    assert forall|i: int| 0 <= i < jobs.len() implies (#[trigger] jobs[i]).id != job.id && is_given_id(
        jobs[i].id,
        n + 1,
    ) by {
        let m = choose|m: nat| m < n && jobs[i].id == #[trigger] job_id(m);
        assert(is_given_id(jobs[i].id, n));
        if job_id(m) == job_id(n) {
            lemma_job_ids_differ(m, n);
        }
    }
    assert(n < n + 1 && job.id == job_id(n));
    assert forall|i: int| 0 <= i < after.len() implies is_given_id(
        (#[trigger] after[i]).id,
        n + 1,
    ) by {
        assert(i < jobs.len() ==> after[i] == jobs[i]);
    }
    assert forall|a: int, b: int| 0 <= a < b < after.len() implies (#[trigger] after[a]).id != (
    #[trigger] after[b]).id by {
        assert(after[a] == jobs[a]);
        assert(b < jobs.len() ==> after[b] == jobs[b]);
    }
}

proof fn lemma_remove_job_keeps_ids(jobs: Seq<CronJobView>, at: int, n: nat)
    requires
        job_ids_wf(jobs, n),
        0 <= at < jobs.len(),
    ensures
        job_ids_wf(jobs.remove(at), n),
{
    let after = jobs.remove(at);
    assert forall|i: int| 0 <= i < after.len() implies is_given_id((#[trigger] after[i]).id, n) by {
        assert(after[i] == jobs[if i < at { i } else { i + 1 }]);
    }
    assert forall|a: int, b: int| 0 <= a < b < after.len() implies (#[trigger] after[a]).id != (
    #[trigger] after[b]).id by {
        assert(after[a] == jobs[if a < at { a } else { a + 1 }]);
        assert(after[b] == jobs[if b < at { b } else { b + 1 }]);
    }
}

fn sooner(a: Option<Instant>, b: Option<Instant>) -> (t: Option<Instant>)
    ensures
        t == earlier(a, b),
{
    match (a, b) {
        (Some(x), Some(y)) => if y.nanos < x.nanos {
            Some(y)
        } else {
            Some(x)
        },
        (Some(x), None) => Some(x),
        (None, y) => y,
    }
}

impl View for Scheduler {
    type V = SchedulerView;

    closed spec fn view(&self) -> SchedulerView {
        SchedulerView {
            reminders: self.reminders@.map_values(
                |w: Waiting| WaitingView { due: w.due, reminder: w.reminder@ },
            ),
            jobs: self.cron_jobs@.map_values(|j: CronJob| j@),
            next_reminder: self.next_reminder_id as nat,
            next_cron: self.next_cron_id as nat,
            epoch: self.epoch,
        }
    }
}

impl Scheduler {
    /// The state is valid.
    pub open spec fn wf(&self) -> bool {
        self@.wf()
    }

    /// A scheduler whose epoch is the origin of the clock.
    pub fn new() -> (s: Self)
        ensures
            s.wf(),
            s@ == empty_scheduler(Instant { nanos: 0 }),
    {
        Scheduler::with_epoch(Instant { nanos: 0 })
    }

    /// A scheduler that is set up at `epoch`.
    pub fn with_epoch(epoch: Instant) -> (s: Self)
        ensures
            s.wf(),
            s@ == empty_scheduler(epoch),
    {
        let s = Scheduler {
            reminders: Vec::new(),
            cron_jobs: Vec::new(),
            next_reminder_id: 1,
            next_cron_id: 1,
            epoch,
        };
        assert(s@.reminders =~= Seq::empty());
        assert(s@.jobs =~= Seq::empty());
        s
    }

    /// Adds a one-shot reminder and returns its identifier.
    pub fn add_reminder(&mut self, message: String, fire_at: Instant) -> (id: String)
        requires
            old(self).wf(),
            old(self)@.next_reminder < u64::MAX,
        ensures
            final(self).wf(),
            id@ == reminder_id(old(self)@.next_reminder),
            final(self)@ == old(self)@.with_reminder(message@, fire_at),
    {
        let id = numbered("reminder-", self.next_reminder_id);
        let due: u128 = fire_at.nanos;
        let ghost views = self@.reminders;
        let mut at: usize = 0;
        assert(views.skip(0) =~= views);
        while at < self.reminders.len() && self.reminders[at].due <= due
            invariant
                at <= self.reminders.len(),
                views == self@.reminders,
                due_count(views, due) == at + due_count(views.skip(at as int), due),
            decreases self.reminders.len() - at,
        {
            assert(views[at as int].due == self.reminders@[at as int].due);
            assert(views.skip(at as int).skip(1) =~= views.skip(at + 1));
            at += 1;
        }
        proof {
            lemma_due_count(views, due);
            assert(due_count(views, due) == at) by {
                if at < views.len() {
                    assert(views[at as int].due == self.reminders@[at as int].due);
                    assert(views.skip(at as int)[0] == views[at as int]);
                }
            }
        }
        let waiting = Waiting {
            due,
            reminder: Reminder { id: id.clone(), message, fire_at: Some(fire_at) },
        };
        let ghost added = WaitingView { due, reminder: waiting.reminder@ };
        self.reminders.insert(at, waiting);
        self.next_reminder_id = self.next_reminder_id + 1;
        proof {
            assert(self@.reminders =~= views.insert(at as int, added));
            lemma_insert_keeps_order(views, added);
            assert(self@.jobs =~= old(self)@.jobs);
        }
        id
    }

    /// Adds a job that first fires an interval after `now`, and returns its identifier.
    pub fn add_cron(
        &mut self,
        expression: String,
        command: String,
        session_id: Option<String>,
        if_busy: BusyPolicy,
        now: Instant,
    ) -> (id: Result<String, SchedulerError>)
        requires
            old(self).wf(),
            old(self)@.next_cron < u64::MAX,
            interval_fits(expression@),
            now.nanos <= time::LAST_NANOS,
        ensures
            final(self).wf(),
            match id {
                Ok(id) => {
                    &&& interval_seconds(expression@) is Some
                    &&& id@ == job_id(old(self)@.next_cron)
                    &&& final(self)@ == old(self)@.with_job(
                        expression@,
                        command@,
                        text::optional_view(session_id),
                        if_busy,
                        now,
                    )
                },
                Err(SchedulerError::InvalidExpression(e)) => {
                    &&& interval_seconds(expression@) is None
                    &&& e@ == text::trim(expression@)
                    &&& final(self)@ == old(self)@
                },
                Err(_) => false,
            },
    {
        let interval = match parse_interval(expression.as_str()) {
            Ok(interval) => interval,
            Err(e) => {
                return Err(e);
            },
        };
        let id = numbered("cron-", self.next_cron_id);
        let job = CronJob {
            id: id.clone(),
            expression,
            command,
            session_id,
            if_busy,
            interval: Some(interval),
            next_fire: Some(now.plus(interval)),
        };
        let ghost before = self@.jobs;
        proof {
            lemma_add_job_keeps_ids(before, job@, self.next_cron_id as nat);
        }
        self.cron_jobs.push(job);
        self.next_cron_id = self.next_cron_id + 1;
        proof {
            assert(self@.jobs =~= before.push(job@));
            assert(self@.reminders =~= old(self)@.reminders);
        }
        Ok(id)
    }

    /// Removes the job with the identifier.
    pub fn remove_cron(&mut self, id: &str) -> (removed: Result<(), SchedulerError>)
        requires
            old(self).wf(),
        ensures
            final(self).wf(),
            match removed {
                Ok(()) => old(self)@.has_job(id@) && final(self)@ == old(self)@.without_job(id@),
                Err(SchedulerError::NotFound(name)) => !old(self)@.has_job(id@) && name@ == id@
                    && final(self)@ == old(self)@,
                Err(_) => false,
            },
    {
        let wanted = to_chars(id);
        let mut i: usize = 0;
        while i < self.cron_jobs.len()
            invariant
                i <= self.cron_jobs.len(),
                *self == *old(self),
                self.wf(),
                wanted@ == id@,
                forall|k: int| 0 <= k < i ==> (#[trigger] self@.jobs[k]).id != id@,
            decreases self.cron_jobs.len() - i,
        {
            assert(self@.jobs[i as int] == self.cron_jobs@[i as int]@);
            if chars_equal(&wanted, self.cron_jobs[i].id.as_str()) {
                let ghost before = self@.jobs;
                self.cron_jobs.remove(i);
                proof {
                    assert(self@.jobs =~= before.remove(i as int));
                    assert(self@.reminders =~= old(self)@.reminders);
                    assert(before[i as int].id == id@);
                    lemma_job_place(before, id@);
                    assert(job_place(before, id@) == i);
                    lemma_remove_job_keeps_ids(before, i as int, self.next_cron_id as nat);
                }
                return Ok(());
            }
            i += 1;
        }
        Err(SchedulerError::NotFound(id.to_string()))
    }

    /// All jobs, in the order in which they were added.
    pub fn list_cron(&self) -> (jobs: &Vec<CronJob>)
        ensures
            jobs@.map_values(|j: CronJob| j@) == self@.jobs,
    {
        &self.cron_jobs
    }

    /// Emits all events that are due at or before `now`.
    pub fn tick(&mut self, now: Instant) -> (events: Vec<SchedulerEvent>)
        requires
            old(self).wf(),
            now.nanos <= time::LAST_NANOS,
        ensures
            final(self).wf(),
            events@.map_values(|e: SchedulerEvent| e@) == old(self)@.tick_events(now),
            final(self)@ == old(self)@.after_tick(now),
    {
        let mut events: Vec<SchedulerEvent> = Vec::new();
        let ghost start = self@;
        let ghost due = due_count(start.reminders, now.nanos);
        proof {
            lemma_due_count(start.reminders, now.nanos);
            assert(start.reminders.skip(0) =~= start.reminders);
            assert(start.reminders.take(0) =~= Seq::empty());
        }
        let ghost mut fired: int = 0;
        while self.reminders.len() > 0 && self.reminders[0].due <= now.nanos
            invariant
                0 <= fired <= due <= start.reminders.len(),
                due == fired + due_count(self@.reminders, now.nanos),
                self@.reminders == start.reminders.skip(fired),
                self.cron_jobs == old(self).cron_jobs,
                self.next_cron_id == old(self).next_cron_id,
                self.next_reminder_id == old(self).next_reminder_id,
                self.epoch == old(self).epoch,
                start == old(self)@,
                events@.map_values(|e: SchedulerEvent| e@) == start.reminders.take(
                    fired,
                ).map_values(|w: WaitingView| SchedulerEventView::ReminderFired(w.reminder)),
            decreases self.reminders.len(),
        {
            let ghost before = self@.reminders;
            let ghost front = self.reminders@[0];
            assert(before[0].due == front.due && before[0].reminder == front.reminder@);
            let w = self.reminders.remove(0);
            assert(self@.reminders =~= before.skip(1));
            assert(before.skip(1) =~= start.reminders.skip(fired + 1));
            let ghost seen = events@.map_values(|e: SchedulerEvent| e@);
            events.push(SchedulerEvent::ReminderFired(w.reminder));
            proof {
                assert(start.reminders[fired] == before[0]);
                assert(start.reminders.take(fired + 1).map_values(
                    |w: WaitingView| SchedulerEventView::ReminderFired(w.reminder),
                ) =~= start.reminders.take(fired).map_values(
                    |w: WaitingView| SchedulerEventView::ReminderFired(w.reminder),
                ).push(SchedulerEventView::ReminderFired(before[0].reminder)));
                assert(events@.map_values(|e: SchedulerEvent| e@) =~= seen.push(
                    SchedulerEventView::ReminderFired(before[0].reminder),
                ));
                lemma_due_count(before.skip(1), now.nanos);
                fired = fired + 1;
            }
        }
        proof {
            if self@.reminders.len() > 0 {
                assert(self@.reminders[0].due == self.reminders@[0].due);
            }
            assert(fired == due);
            assert(events@.map_values(|e: SchedulerEvent| e@) == reminder_events(
                start.reminders,
                now.nanos,
            ));
        }
        let ghost head = reminder_events(start.reminders, now.nanos);
        let ghost kept = self@.reminders;
        let mut i: usize = 0;
        assert(start.jobs =~= self@.jobs);
        assert(head + job_events(start.jobs.take(0), now) =~= head);
        while i < self.cron_jobs.len()
            invariant
                i <= self.cron_jobs.len(),
                self.cron_jobs.len() == start.jobs.len(),
                self@.reminders == kept,
                self.next_cron_id == old(self).next_cron_id,
                self.next_reminder_id == old(self).next_reminder_id,
                self.epoch == old(self).epoch,
                now.nanos <= time::LAST_NANOS,
                intervals_wf(start.jobs),
                forall|k: int|
                    0 <= k < i ==> (#[trigger] self@.jobs[k]) == job_after_tick(start.jobs[k], now),
                forall|k: int|
                    i <= k < start.jobs.len() ==> (#[trigger] self@.jobs[k]) == start.jobs[k],
                events@.map_values(|e: SchedulerEvent| e@) == head + job_events(
                    start.jobs.take(i as int),
                    now,
                ),
            decreases self.cron_jobs.len() - i,
        {
            assert(self@.jobs[i as int] == self.cron_jobs@[i as int]@);
            assert(start.jobs.take(i + 1).drop_last() =~= start.jobs.take(i as int));
            let ghost seen = events@.map_values(|e: SchedulerEvent| e@);
            let due_now: bool = match self.cron_jobs[i].next_fire {
                Some(t) => now.nanos >= t.nanos,
                None => false,
            };
            let ghost job = start.jobs[i as int];
            if due_now {
                let copy = self.cron_jobs[i].clone();
                let ghost fired_view = SchedulerEventView::CronFired(job);
                events.push(SchedulerEvent::CronFired(copy));
                assert(events@.map_values(|e: SchedulerEvent| e@) =~= seen.push(fired_view));
                assert((head + job_events(start.jobs.take(i as int), now)).push(fired_view)
                    =~= head + job_events(start.jobs.take(i + 1), now));
                let interval = self.cron_jobs[i].interval;
                match interval {
                    Some(d) => {
                        let ghost before = self.cron_jobs@;
                        let ghost views = self@.jobs;
                        self.cron_jobs[i].next_fire = Some(now.plus(d));
                        assert forall|k: int| 0 <= k < self.cron_jobs@.len() && k != i implies (
                        #[trigger] self.cron_jobs@[k]) == before[k] by {}
                        assert forall|k: int| 0 <= k < start.jobs.len() implies (
                        #[trigger] self@.jobs[k]) == if k == i {
                            job_after_tick(job, now)
                        } else if k < i {
                            job_after_tick(start.jobs[k], now)
                        } else {
                            start.jobs[k]
                        } by {
                            assert(self@.jobs[k] == self.cron_jobs@[k]@);
                            assert(views[k] == before[k]@);
                        }
                    },
                    None => {},
                }
            }
            i += 1;
        }
        proof {
            assert(start.jobs.take(i as int) =~= start.jobs);
            assert(self@.jobs =~= start.jobs.map_values(|j: CronJobView| job_after_tick(j, now)));
            assert(self@.reminders =~= start.reminders.skip(due));
            law_tick_keeps_wf(start, now);
        }
        events
    }

    /// The next time at which something is due.
    pub fn next_wake(&self) -> (t: Option<Instant>)
        ensures
            t == self@.wake_time(),
    {
        let first: Option<Instant> = if self.reminders.len() > 0 {
            assert(self@.reminders[0].due == self.reminders@[0].due);
            Some(Instant { nanos: self.reminders[0].due })
        } else {
            None
        };
        let mut job: Option<Instant> = None;
        let mut i: usize = 0;
        assert(self@.jobs.take(0) =~= Seq::empty());
        while i < self.cron_jobs.len()
            invariant
                i <= self.cron_jobs.len(),
                job == earliest_job(self@.jobs.take(i as int)),
            decreases self.cron_jobs.len() - i,
        {
            assert(self@.jobs[i as int] == self.cron_jobs@[i as int]@);
            assert(self@.jobs.take(i + 1).drop_last() =~= self@.jobs.take(i as int));
            job = sooner(job, self.cron_jobs[i].next_fire);
            i += 1;
        }
        assert(self@.jobs.take(i as int) =~= self@.jobs);
        sooner(first, job)
    }

    /// Whether there is an identifier left for a reminder.
    pub fn can_add_reminder(&self) -> (b: bool)
        ensures
            b == (self@.next_reminder < u64::MAX),
    {
        self.next_reminder_id < u64::MAX
    }

    /// Whether there is an identifier left for a job.
    pub fn can_add_cron(&self) -> (b: bool)
        ensures
            b == (self@.next_cron < u64::MAX),
    {
        self.next_cron_id < u64::MAX
    }

    /// The number of pending reminders.
    pub fn reminder_count(&self) -> (n: usize)
        ensures
            n == self@.reminders.len(),
    {
        self.reminders.len()
    }

    /// The number of jobs.
    pub fn cron_count(&self) -> (n: usize)
        ensures
            n == self@.jobs.len(),
    {
        self.cron_jobs.len()
    }
}

impl Default for Scheduler {
    fn default() -> (s: Self)
        ensures
            s.wf(),
            s@ == empty_scheduler(Instant { nanos: 0 }),
    {
        Scheduler::new()
    }
}

proof fn lemma_no_job_events(jobs: Seq<CronJobView>, now: Instant)
    requires
        forall|i: int| 0 <= i < jobs.len() ==> !job_is_due(#[trigger] jobs[i], now),
    ensures
        job_events(jobs, now) == Seq::<SchedulerEventView>::empty(),
    decreases jobs.len(),
{
    if jobs.len() > 0 {
        assert forall|i: int| 0 <= i < jobs.drop_last().len() implies !job_is_due(
            #[trigger] jobs.drop_last()[i],
            now,
        ) by {
            assert(jobs.drop_last()[i] == jobs[i]);
        }
        lemma_no_job_events(jobs.drop_last(), now);
        assert(jobs.last() == jobs[jobs.len() - 1]);
    }
}

proof fn lemma_some_job_event(jobs: Seq<CronJobView>, i: int, now: Instant)
    requires
        0 <= i < jobs.len(),
        job_is_due(jobs[i], now),
    ensures
        job_events(jobs, now).len() > 0,
    decreases jobs.len(),
{
    if i < jobs.len() - 1 {
        lemma_some_job_event(jobs.drop_last(), i, now);
    }
}

proof fn lemma_earliest_job(jobs: Seq<CronJobView>)
    ensures
        match earliest_job(jobs) {
            Some(t) => (forall|i: int|
                0 <= i < jobs.len() ==> ((#[trigger] jobs[i]).next_fire matches Some(u) ==> t.nanos
                    <= u.nanos)) && exists|i: int|
                0 <= i < jobs.len() && (#[trigger] jobs[i]).next_fire == Some(t),
            None => forall|i: int| 0 <= i < jobs.len() ==> (#[trigger] jobs[i]).next_fire is None,
        },
    decreases jobs.len(),
{
    if jobs.len() > 0 {
        let front = jobs.drop_last();
        lemma_earliest_job(front);
        assert forall|i: int| 0 <= i < front.len() implies jobs[i] == front[i] by {}
        assert(jobs.last() == jobs[jobs.len() - 1]);
        match earliest_job(front) {
            Some(t) => {
                let k = choose|i: int| 0 <= i < front.len() && (#[trigger] front[i]).next_fire == Some(t);
                assert(jobs[k].next_fire == Some(t));
            },
            None => {},
        }
    }
}

/// Ticks lose no reminder and fire none before its time: those that fire are due, those that wait
/// on are not, and together they are all that there were, in order.
pub proof fn law_tick_loses_no_reminder(state: SchedulerView, now: Instant)
    requires
        state.wf(),
    ensures
        ({
            let n = due_count(state.reminders, now.nanos);
            &&& state.reminders.take(n) + state.after_tick(now).reminders == state.reminders
            &&& forall|i: int|
                0 <= i < n ==> ((#[trigger] state.reminders[i]).reminder.fire_at matches Some(t)
                    && t.nanos <= now.nanos)
        }),
        forall|i: int|
            0 <= i < state.after_tick(now).reminders.len() ==> ((
            #[trigger] state.after_tick(now).reminders[i]).reminder.fire_at matches Some(t)
                && t.nanos > now.nanos),
{
    lemma_due_count(state.reminders, now.nanos);
    let n = due_count(state.reminders, now.nanos);
    assert(state.reminders.take(n) + state.reminders.skip(n) =~= state.reminders);
    assert forall|i: int| 0 <= i < state.after_tick(now).reminders.len() implies ((
    #[trigger] state.after_tick(now).reminders[i]).reminder.fire_at matches Some(t) && t.nanos
        > now.nanos) by {
        assert(state.after_tick(now).reminders[i] == state.reminders[i + n]);
    }
}

/// What has fired does not fire again at the same time, where all intervals are longer than zero.
pub proof fn law_tick_twice_fires_once(state: SchedulerView, now: Instant)
    requires
        state.wf(),
        now.nanos <= time::LAST_NANOS,
        forall|i: int|
            0 <= i < state.jobs.len() ==> ((#[trigger] state.jobs[i]).interval matches Some(d)
                && d.nanos > 0),
    ensures
        state.after_tick(now).tick_events(now) == Seq::<SchedulerEventView>::empty(),
{
    let after = state.after_tick(now);
    law_tick_keeps_wf(state, now);
    law_tick_loses_no_reminder(state, now);
    if after.reminders.len() > 0 {
        assert(after.reminders[0].reminder.fire_at is Some);
        assert(after.reminders[0].due > now.nanos);
    }
    assert(due_count(after.reminders, now.nanos) == 0);
    assert(reminder_events(after.reminders, now.nanos) =~= Seq::empty());
    assert forall|i: int| 0 <= i < after.jobs.len() implies !job_is_due(
        #[trigger] after.jobs[i],
        now,
    ) by {
        assert(after.jobs[i] == job_after_tick(state.jobs[i], now));
        assert(state.jobs[i].interval is Some);
    }
    lemma_no_job_events(after.jobs, now);
    assert(after.tick_events(now) =~= Seq::empty());
}

/// Nothing fires before the wake time.
pub proof fn law_quiet_before_wake_time(state: SchedulerView, now: Instant)
    requires
        state.wf(),
        state.wake_time() matches Some(t) ==> now.nanos < t.nanos,
    ensures
        state.tick_events(now) == Seq::<SchedulerEventView>::empty(),
        state.after_tick(now) == state,
{
    lemma_earliest_job(state.jobs);
    assert(due_count(state.reminders, now.nanos) == 0);
    assert(reminder_events(state.reminders, now.nanos) =~= Seq::empty());
    assert forall|i: int| 0 <= i < state.jobs.len() implies !job_is_due(
        #[trigger] state.jobs[i],
        now,
    ) by {}
    lemma_no_job_events(state.jobs, now);
    assert(state.tick_events(now) =~= Seq::empty());
    assert(state.after_tick(now).jobs =~= state.jobs);
    assert(state.after_tick(now).reminders =~= state.reminders);
}

/// Something fires at the wake time and after it.
pub proof fn law_fires_from_wake_time(state: SchedulerView, now: Instant)
    requires
        state.wf(),
        state.wake_time() matches Some(t) && now.nanos >= t.nanos,
    ensures
        state.tick_events(now).len() > 0,
{
    lemma_earliest_job(state.jobs);
    let t = state.wake_time()->0;
    if earliest_job(state.jobs) == Some(t) {
        let i = choose|i: int|
            0 <= i < state.jobs.len() && (#[trigger] state.jobs[i]).next_fire == Some(t);
        lemma_some_job_event(state.jobs, i, now);
    } else {
        lemma_due_count(state.reminders.skip(1), now.nanos);
        assert(due_count(state.reminders, now.nanos) > 0);
        lemma_due_count(state.reminders, now.nanos);
    }
}

/// There is no wake time only where nothing is pending.
pub proof fn law_no_wake_time_where_nothing_waits(state: SchedulerView)
    requires
        state.wf(),
    ensures
        state.wake_time() is None <==> state.reminders.len() == 0 && state.jobs.len() == 0,
{
    lemma_earliest_job(state.jobs);
    if state.jobs.len() > 0 {
        assert(state.jobs[0].next_fire is Some);
    }
}

/// A call that changes a scheduler.
pub enum SchedulerCall {
    AddReminder { message: Seq<char>, fire_at: Instant },
    AddCron {
        expression: Seq<char>,
        command: Seq<char>,
        session_id: Option<Seq<char>>,
        if_busy: BusyPolicy,
        now: Instant,
    },
    RemoveCron { id: Seq<char> },
    Tick { now: Instant },
}

impl SchedulerView {
    /// The state after a call.
    pub open spec fn after_call(self, call: SchedulerCall) -> SchedulerView {
        match call {
            SchedulerCall::AddReminder { message, fire_at } => self.with_reminder(message, fire_at),
            SchedulerCall::AddCron { expression, command, session_id, if_busy, now } => {
                self.with_job(expression, command, session_id, if_busy, now)
            },
            SchedulerCall::RemoveCron { id } => self.without_job(id),
            SchedulerCall::Tick { now } => self.after_tick(now),
        }
    }

    /// The state after calls, one after the other.
    pub open spec fn after_calls(self, calls: Seq<SchedulerCall>) -> SchedulerView
        decreases calls.len(),
    {
        if calls.len() == 0 {
            self
        } else {
            self.after_calls(calls.drop_last()).after_call(calls.last())
        }
    }
}

/// The number of calls that set a reminder.
pub open spec fn reminders_set(calls: Seq<SchedulerCall>) -> nat
    decreases calls.len(),
{
    if calls.len() == 0 {
        0
    } else {
        reminders_set(calls.drop_last()) + (if calls.last() is AddReminder {
            1nat
        } else {
            0
        })
    }
}

/// The number of calls that add a job: those whose expression describes an interval.
pub open spec fn jobs_added(calls: Seq<SchedulerCall>) -> nat
    decreases calls.len(),
{
    if calls.len() == 0 {
        0
    } else {
        jobs_added(calls.drop_last()) + (match calls.last() {
            SchedulerCall::AddCron { expression, .. } => if interval_seconds(expression) is Some {
                1nat
            } else {
                0
            },
            _ => 0,
        })
    }
}

/// The number of calls that remove a job: those that name one which is there at the time.
pub open spec fn jobs_removed(start: SchedulerView, calls: Seq<SchedulerCall>) -> nat
    decreases calls.len(),
{
    if calls.len() == 0 {
        0
    } else {
        jobs_removed(start, calls.drop_last()) + (match calls.last() {
            SchedulerCall::RemoveCron { id } => if start.after_calls(calls.drop_last()).has_job(
                id,
            ) {
                1nat
            } else {
                0
            },
            _ => 0,
        })
    }
}

/// The times of the reminders that were set and that no tick has reached since.
pub open spec fn times_ahead(calls: Seq<SchedulerCall>) -> Seq<Instant>
    decreases calls.len(),
{
    if calls.len() == 0 {
        Seq::empty()
    } else {
        let before = times_ahead(calls.drop_last());
        match calls.last() {
            SchedulerCall::AddReminder { fire_at, .. } => before.push(fire_at),
            SchedulerCall::Tick { now } => before.filter(|t: Instant| t.nanos > now.nanos),
            _ => before,
        }
    }
}

/// Identifiers are never given twice: the one of the next reminder and the one of the next job are
/// numbered by the calls that set or added one so far.
pub proof fn law_identifiers_count_up(epoch: Instant, calls: Seq<SchedulerCall>)
    ensures
        empty_scheduler(epoch).after_calls(calls).next_reminder == reminders_set(calls) + 1,
        empty_scheduler(epoch).after_calls(calls).next_cron == jobs_added(calls) + 1,
    decreases calls.len(),
{
    if calls.len() > 0 {
        law_identifiers_count_up(epoch, calls.drop_last());
    }
}

/// A new reminder adds one to those that wait, and leaves the jobs as they are.
pub proof fn law_a_reminder_is_one_more(state: SchedulerView, message: Seq<char>, fire_at: Instant)
    ensures
        state.with_reminder(message, fire_at).reminders.len() == state.reminders.len() + 1,
        state.with_reminder(message, fire_at).jobs == state.jobs,
        state.with_reminder(message, fire_at).next_reminder == state.next_reminder + 1,
{
    lemma_due_count(state.reminders, fire_at.nanos);
}

/// The jobs that there are, are those that were added without those that were removed. Ticks and
/// reminders make no difference.
pub proof fn law_jobs_are_counted(epoch: Instant, calls: Seq<SchedulerCall>)
    ensures
        empty_scheduler(epoch).after_calls(calls).jobs.len() == jobs_added(calls) - jobs_removed(
            empty_scheduler(epoch),
            calls,
        ),
    decreases calls.len(),
{
    if calls.len() > 0 {
        law_jobs_are_counted(epoch, calls.drop_last());
        let before = empty_scheduler(epoch).after_calls(calls.drop_last());
        if let SchedulerCall::RemoveCron { id } = calls.last() {
            lemma_job_place(before.jobs, id);
            if before.has_job(id) {
                let i = choose|i: int| 0 <= i < before.jobs.len() && #[trigger] before.jobs[i].id == id;
                assert(job_place(before.jobs, id) <= i);
            }
        }
    }
}

/// The number of reminders that are due after a time.
spec fn later(reminders: Seq<WaitingView>, t: int) -> nat
    decreases reminders.len(),
{
    if reminders.len() == 0 {
        0
    } else {
        later(reminders.drop_last(), t) + (if reminders.last().due > t {
            1nat
        } else {
            0
        })
    }
}

/// The number of times after a time.
spec fn times_later(times: Seq<Instant>, t: int) -> nat
    decreases times.len(),
{
    if times.len() == 0 {
        0
    } else {
        times_later(times.drop_last(), t) + (if times.last().nanos > t {
            1nat
        } else {
            0
        })
    }
}

proof fn lemma_later_pieces(a: Seq<WaitingView>, b: Seq<WaitingView>, t: int)
    ensures
        later(a + b, t) == later(a, t) + later(b, t),
    decreases b.len(),
{
    if b.len() == 0 {
        assert(a + b =~= a);
    } else {
        assert((a + b).drop_last() =~= a + b.drop_last());
        lemma_later_pieces(a, b.drop_last(), t);
    }
}

proof fn lemma_later_all(r: Seq<WaitingView>, t: int)
    ensures
        later(r, t) <= r.len(),
        (forall|i: int| 0 <= i < r.len() ==> (#[trigger] r[i]).due > t) ==> later(r, t) == r.len(),
        (forall|i: int| 0 <= i < r.len() ==> (#[trigger] r[i]).due <= t) ==> later(r, t) == 0,
    decreases r.len(),
{
    if r.len() > 0 {
        let front = r.drop_last();
        lemma_later_all(front, t);
        assert(forall|i: int| 0 <= i < front.len() ==> front[i] == r[i]);
        assert(r.last() == r[r.len() - 1]);
    }
}

proof fn lemma_times_filtered(times: Seq<Instant>, now: u128, t: int)
    ensures
        times_later(times.filter(|x: Instant| x.nanos > now), t) == times_later(
            times,
            if t < now {
                now as int
            } else {
                t
            },
        ),
    decreases times.len(),
{
    reveal(Seq::filter);
    let f = |x: Instant| x.nanos > now;
    if times.len() > 0 {
        lemma_times_filtered(times.drop_last(), now, t);
        let before = times.drop_last().filter(f);
        if f(times.last()) {
            assert(before.push(times.last()).drop_last() =~= before);
        }
    }
}

proof fn lemma_times_all(times: Seq<Instant>)
    ensures
        times_later(times, -1) == times.len(),
    decreases times.len(),
{
    if times.len() > 0 {
        lemma_times_all(times.drop_last());
    }
}

proof fn lemma_calls_keep_order(epoch: Instant, calls: Seq<SchedulerCall>)
    ensures
        in_due_order(empty_scheduler(epoch).after_calls(calls).reminders),
        dues_wf(empty_scheduler(epoch).after_calls(calls).reminders),
    decreases calls.len(),
{
    if calls.len() > 0 {
        lemma_calls_keep_order(epoch, calls.drop_last());
        let before = empty_scheduler(epoch).after_calls(calls.drop_last());
        match calls.last() {
            SchedulerCall::AddReminder { message, fire_at } => {
                lemma_insert_keeps_order(
                    before.reminders,
                    WaitingView {
                        due: fire_at.nanos,
                        reminder: ReminderView {
                            id: reminder_id(before.next_reminder),
                            message,
                            fire_at: Some(fire_at),
                        },
                    },
                );
            },
            SchedulerCall::Tick { now } => {
                lemma_due_count(before.reminders, now.nanos);
                let n = due_count(before.reminders, now.nanos);
                let rest = before.reminders.skip(n);
                assert(forall|i: int| 0 <= i < rest.len() ==> rest[i] == before.reminders[i + n]);
            },
            _ => {},
        }
    }
}

proof fn lemma_calls_later(epoch: Instant, calls: Seq<SchedulerCall>, t: int)
    ensures
        later(empty_scheduler(epoch).after_calls(calls).reminders, t) == times_later(
            times_ahead(calls),
            t,
        ),
    decreases calls.len(),
{
    if calls.len() > 0 {
        let before = empty_scheduler(epoch).after_calls(calls.drop_last());
        let r = before.reminders;
        lemma_calls_keep_order(epoch, calls.drop_last());
        lemma_calls_later(epoch, calls.drop_last(), t);
        match calls.last() {
            SchedulerCall::AddReminder { message, fire_at } => {
                let after = before.with_reminder(message, fire_at).reminders;
                let n = due_count(r, fire_at.nanos);
                lemma_due_count(r, fire_at.nanos);
                let w = after[n];
                assert(after =~= r.take(n) + seq![w] + r.skip(n));
                assert(r =~= r.take(n) + r.skip(n));
                lemma_later_pieces(r.take(n) + seq![w], r.skip(n), t);
                lemma_later_pieces(r.take(n), seq![w], t);
                lemma_later_pieces(r.take(n), r.skip(n), t);
                assert(seq![w].drop_last() =~= Seq::empty());
                assert(later(seq![w].drop_last(), t) == 0);
                let times = times_ahead(calls.drop_last());
                assert(times.push(fire_at).drop_last() =~= times);
            },
            SchedulerCall::Tick { now } => {
                let n = due_count(r, now.nanos);
                lemma_due_count(r, now.nanos);
                let rest = r.skip(n);
                assert(r =~= r.take(n) + rest);
                let u = if t < now.nanos {
                    now.nanos as int
                } else {
                    t
                };
                lemma_calls_later(epoch, calls.drop_last(), u);
                lemma_times_filtered(times_ahead(calls.drop_last()), now.nanos, t);
                lemma_later_pieces(r.take(n), rest, u);
                assert(forall|i: int| 0 <= i < n ==> r.take(n)[i] == r[i]);
                assert(forall|i: int| 0 <= i < rest.len() ==> rest[i] == r[i + n]);
                lemma_later_all(r.take(n), u);
                if t < now.nanos {
                    lemma_later_all(rest, t);
                    lemma_later_all(rest, u);
                }
            },
            _ => {},
        }
    }
}

/// Each reminder is pending until the first tick that reaches its time: after any calls, as many
/// wait as were set for a time that no tick has reached since.
pub proof fn law_reminders_are_counted(epoch: Instant, calls: Seq<SchedulerCall>)
    ensures
        empty_scheduler(epoch).after_calls(calls).reminders.len() == times_ahead(calls).len(),
{
    let r = empty_scheduler(epoch).after_calls(calls).reminders;
    lemma_calls_later(epoch, calls, -1);
    lemma_later_all(r, -1);
    lemma_times_all(times_ahead(calls));
}

} // verus!
