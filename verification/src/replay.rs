//! Replaying a recorded session on a screen.
use crate::event::{Direction, LogEvent, LogEventView};
use crate::json;
use crate::text;
use crate::text::{chars_equal, to_chars};
use crate::vt100::parser;
use crate::vt100::parser::{Parser, ParserView};
use crate::vt100::screen::max;
use vstd::prelude::*;
use vstd::string::*;

verus! {

/// The state of a replay: the recorded events, the screen, the number of events shown, the
/// dimensions last asked for, and those at the start.
pub struct ReplayView {
    pub events: Seq<LogEventView>,
    pub parser: ParserView,
    pub index: int,
    pub cols: u16,
    pub rows: u16,
    pub initial_cols: u16,
    pub initial_rows: u16,
}

/// A replay before the first event.
pub open spec fn fresh_replay(events: Seq<LogEventView>, cols: u16, rows: u16) -> ReplayView {
    ReplayView {
        events,
        parser: parser::fresh_parser(rows, cols, 0),
        index: 0,
        cols,
        rows,
        initial_cols: cols,
        initial_rows: rows,
    }
}

/// The low 16 bits of a number.
pub open spec fn low_bits(n: u64) -> u16 {
    (n % 0x1_0000) as u16
}

/// The dimensions that a note about the session asks for: those of a resize note, as far as it
/// gives them. None for other notes.
pub open spec fn asked_size(
    kind: Option<Seq<char>>,
    asked_cols: Option<u64>,
    asked_rows: Option<u64>,
    cols: u16,
    rows: u16,
) -> Option<(u16, u16)> {
    if kind == Some("resize"@) {
        Some(
            (
                match asked_cols {
                    Some(n) => low_bits(n),
                    None => cols,
                },
                match asked_rows {
                    Some(n) => low_bits(n),
                    None => rows,
                },
            ),
        )
    } else {
        None
    }
}

/// The number of events up to the last one that is not later than a time.
pub open spec fn count_until(events: Seq<LogEventView>, ts: u64) -> int
    decreases events.len(),
{
    if events.len() == 0 {
        0
    } else if events.last().timestamp_ms <= ts {
        events.len() as int
    } else {
        count_until(events.drop_last(), ts)
    }
}

impl ReplayView {
    /// The screen is valid, no more events are shown than there are, and the state is that after so
    /// many events from the start.
    pub open spec fn wf(self) -> bool {
        &&& self.parser.wf()
        &&& 0 <= self.index <= self.events.len()
        &&& self.is_replayed()
    }

    /// The state is that after so many events from the start.
    #[verifier::opaque]
    pub open spec fn is_replayed(self) -> bool {
        self == self.restarted().stepped_times(self.index as nat)
    }

    /// The dimensions that a note asks for.
    pub open spec fn note_size(self, data: Seq<u8>) -> Option<(u16, u16)> {
        asked_size(
            json::text_member_of(data, "type"@),
            json::number_member_of(data, "cols"@),
            json::number_member_of(data, "rows"@),
            self.cols,
            self.rows,
        )
    }

    /// The screen in other dimensions.
    pub open spec fn with_size(self, size: Option<(u16, u16)>) -> ReplayView {
        match size {
            Some((cols, rows)) => ReplayView {
                cols,
                rows,
                parser: ParserView {
                    screen: self.parser.screen.resized(max(1, rows as int), max(1, cols as int)),
                    ..self.parser
                },
                ..self
            },
            None => self,
        }
    }

    /// The effect of an event: output goes to the screen, a note may resize it, input is left out.
    pub open spec fn with_event(self, e: LogEventView) -> ReplayView {
        match e.direction {
            Direction::Output => ReplayView { parser: self.parser.fed_all(e.data), ..self },
            Direction::Meta => self.with_size(self.note_size(e.data)),
            Direction::Input => self,
        }
    }

    /// One more event shown, where there is one.
    pub open spec fn stepped(self) -> ReplayView {
        if self.index >= self.events.len() {
            self
        } else {
            ReplayView { index: self.index + 1, ..self.with_event(self.events[self.index]) }
        }
    }

    /// Several more events shown, as far as there are any.
    pub open spec fn stepped_times(self, n: nat) -> ReplayView
        decreases n,
    {
        if n == 0 {
            self
        } else {
            self.stepped_times((n - 1) as nat).stepped()
        }
    }

    /// An empty screen before the first event, in the dimensions at the start.
    pub open spec fn restarted(self) -> ReplayView {
        fresh_replay(self.events, self.initial_cols, self.initial_rows)
    }

    /// Events shown until so many are.
    pub open spec fn run_to(self, target: int) -> ReplayView
        decreases target - self.index,
    {
        if self.index >= target || self.index >= self.events.len() {
            self
        } else {
            self.stepped().run_to(target)
        }
    }

    /// So many events shown, from the start again where there are already more.
    pub open spec fn at_index(self, idx: int) -> ReplayView {
        let target = if idx < self.events.len() {
            idx
        } else {
            self.events.len() as int
        };
        if target < self.index {
            self.restarted().run_to(target)
        } else {
            self.run_to(target)
        }
    }

    /// All events shown that are not later than a time, with those in front of them; from the start
    /// again where there are already more.
    pub open spec fn at_time(self, ts: u64) -> ReplayView {
        self.at_index(count_until(self.events, ts))
    }
}

/// A replay of a recorded session.
pub struct SessionReplay {
    events: Vec<LogEvent>,
    screen: Parser,
    current_index: usize,
    cols: u16,
    rows: u16,
    initial_cols: u16,
    initial_rows: u16,
}

/// The views of a list of events.
pub open spec fn event_views(events: Seq<LogEvent>) -> Seq<LogEventView> {
    events.map_values(|e: LogEvent| e@)
}

impl View for SessionReplay {
    type V = ReplayView;

    closed spec fn view(&self) -> ReplayView {
        ReplayView {
            events: event_views(self.events@),
            parser: self.screen@,
            index: self.current_index as int,
            cols: self.cols,
            rows: self.rows,
            initial_cols: self.initial_cols,
            initial_rows: self.initial_rows,
        }
    }
}

fn low(n: u64) -> (b: u16)
    ensures
        b == low_bits(n),
{
    assert(n as u16 == n % 0x1_0000) by (bit_vector);
    n as u16
}

/// The dimensions that a note asks for, given its kind and the numbers in it.
pub fn requested_size(
    kind: &Option<String>,
    asked_cols: Option<u64>,
    asked_rows: Option<u64>,
    cols: u16,
    rows: u16,
) -> (size: Option<(u16, u16)>)
    ensures
        size == asked_size(text::optional_view(*kind), asked_cols, asked_rows, cols, rows),
{
    let is_resize: bool = match kind {
        Some(k) => {
            let chars = to_chars(k.as_str());
            chars_equal(&chars, "resize")
        },
        None => false,
    };
    if !is_resize {
        return None;
    }
    let c: u16 = match asked_cols {
        Some(n) => low(n),
        None => cols,
    };
    let r: u16 = match asked_rows {
        Some(n) => low(n),
        None => rows,
    };
    Some((c, r))
}

impl SessionReplay {
    /// A replay before the first event.
    pub fn new(events: Vec<LogEvent>, cols: u16, rows: u16) -> (r: Self)
        ensures
            r@.wf(),
            r@ == fresh_replay(event_views(events@), cols, rows),
    {
        proof {
            reveal(ReplayView::is_replayed);
        }
        SessionReplay {
            events,
            screen: Parser::new(rows, cols, 0),
            current_index: 0,
            cols,
            rows,
            initial_cols: cols,
            initial_rows: rows,
        }
    }

    /// Shows the next event. Returns whether there was one.
    pub fn step_forward(&mut self) -> (stepped: bool)
        requires
            old(self)@.wf(),
        ensures
            final(self)@.wf(),
            final(self)@ == old(self)@.stepped(),
            stepped == (old(self)@.index < old(self)@.events.len()),
    {
        if self.current_index >= self.events.len() {
            return false;
        }
        let i = self.current_index;
        assert(self@.events[i as int] == self.events@[i as int]@);
        match self.events[i].direction {
            Direction::Output => {
                self.screen.process(&self.events[i].data);
            },
            Direction::Meta => {
                let kind = json::text_member(&self.events[i].data, "type");
                let asked_cols = json::number_member(&self.events[i].data, "cols");
                let asked_rows = json::number_member(&self.events[i].data, "rows");
                match requested_size(&kind, asked_cols, asked_rows, self.cols, self.rows) {
                    Some((cols, rows)) => {
                        self.cols = cols;
                        self.rows = rows;
                        self.screen.set_size(rows, cols);
                    },
                    None => {},
                }
            },
            Direction::Input => {},
        }
        self.current_index = i + 1;
        proof {
            lemma_step_is_replayed(old(self)@);
        }
        true
    }

    fn restart(&mut self)
        requires
            old(self)@.wf(),
        ensures
            final(self)@.wf(),
            final(self)@ == old(self)@.restarted(),
    {
        self.cols = self.initial_cols;
        self.rows = self.initial_rows;
        self.screen = Parser::new(self.rows, self.cols, 0);
        self.current_index = 0;
        proof {
            reveal(ReplayView::is_replayed);
        }
    }

    /// Shows so many events.
    pub fn seek_to_index(&mut self, idx: usize)
        requires
            old(self)@.wf(),
        ensures
            final(self)@.wf(),
            final(self)@ == old(self)@.at_index(idx as int),
    {
        let target: usize = if idx < self.events.len() {
            idx
        } else {
            self.events.len()
        };
        if target < self.current_index {
            self.restart();
        }
        let ghost start = self@;
        while self.current_index < target
            invariant
                self@.wf(),
                target <= self@.events.len(),
                self@.index <= target,
                self@.run_to(target as int) == start.run_to(target as int),
            decreases target - self@.index,
        {
            self.step_forward();
        }
    }

    /// Shows all events up to a time.
    pub fn seek_to_timestamp(&mut self, ts: u64)
        requires
            old(self)@.wf(),
        ensures
            final(self)@.wf(),
            final(self)@ == old(self)@.at_time(ts),
    {
        let mut n: usize = self.events.len();
        assert(self@.events.take(n as int) =~= self@.events);
        while n > 0 && self.events[n - 1].timestamp_ms > ts
            invariant
                n <= self.events.len(),
                *self == *old(self),
                count_until(self@.events.take(n as int), ts) == count_until(self@.events, ts),
            decreases n,
        {
            assert(self@.events[n - 1] == self.events@[n - 1]@);
            assert(self@.events.take(n as int).drop_last() =~= self@.events.take(n - 1));
            n -= 1;
        }
        proof {
            if n > 0 {
                assert(self@.events[n - 1] == self.events@[n - 1]@);
                assert(self@.events.take(n as int).last() == self@.events[n - 1]);
            }
        }
        self.seek_to_index(n);
    }

    /// The plain text of the screen.
    pub fn screen_contents(&self) -> (s: String)
        requires
            self@.wf(),
        ensures
            s@ == self@.parser.screen.text(),
    {
        self.screen.screen().contents()
    }

    /// The screen with its formatting.
    pub fn screen_contents_formatted(&self) -> (bytes: Vec<u8>)
        requires
            self@.wf(),
        ensures
            bytes@ == self@.parser.screen.formatted(),
    {
        self.screen.screen().contents_formatted()
    }

    /// The cursor as line and column, counted from zero.
    pub fn cursor_position(&self) -> (p: (u16, u16))
        ensures
            p.0 == self@.parser.screen.row,
            p.1 == self@.parser.screen.col,
    {
        self.screen.screen().cursor_position()
    }

    /// The dimensions of the screen, columns first.
    pub fn size(&self) -> (p: (u16, u16))
        ensures
            p == (self@.cols, self@.rows),
    {
        (self.cols, self.rows)
    }

    /// The number of events shown.
    pub fn current_index(&self) -> (n: usize)
        ensures
            n == self@.index,
    {
        self.current_index
    }

    /// The number of events.
    pub fn event_count(&self) -> (n: usize)
        ensures
            n == self@.events.len(),
    {
        self.events.len()
    }

    /// The time of the last event shown, and zero before the first.
    pub fn current_timestamp(&self) -> (ts: u64)
        requires
            self@.wf(),
        ensures
            ts == if self@.index == 0 {
                0
            } else {
                self@.events[self@.index - 1].timestamp_ms
            },
    {
        if self.current_index == 0 {
            0
        } else {
            assert(self@.events[self.current_index - 1] == self.events@[self.current_index - 1]@);
            self.events[self.current_index - 1].timestamp_ms
        }
    }

    /// The number, the time and the direction of every event.
    pub fn timeline(&self) -> (t: Vec<(usize, u64, Direction)>)
        ensures
            t@.len() == self@.events.len(),
            forall|i: int|
                0 <= i < t@.len() ==> #[trigger] t@[i] == (
                    i as usize,
                    self@.events[i].timestamp_ms,
                    self@.events[i].direction,
                ),
    {
        let mut t: Vec<(usize, u64, Direction)> = Vec::new();
        let mut i: usize = 0;
        while i < self.events.len()
            invariant
                i <= self.events.len(),
                t@.len() == i,
                forall|k: int|
                    0 <= k < i ==> #[trigger] t@[k] == (
                        k as usize,
                        self@.events[k].timestamp_ms,
                        self@.events[k].direction,
                    ),
            decreases self.events.len() - i,
        {
            assert(self@.events[i as int] == self.events@[i as int]@);
            t.push((i, self.events[i].timestamp_ms, self.events[i].direction));
            i += 1;
        }
        t
    }
}

/// A step changes neither the recording nor the dimensions at the start.
proof fn lemma_origin(r: ReplayView)
    ensures
        r.stepped().restarted() == r.restarted(),
        r.stepped().events == r.events,
{
}

proof fn lemma_step_is_replayed(r: ReplayView)
    requires
        0 <= r.index < r.events.len(),
        r.is_replayed(),
    ensures
        r.stepped().is_replayed(),
{
    reveal(ReplayView::is_replayed);
    lemma_origin(r);
}

proof fn lemma_run_to(r: ReplayView, a: int, b: int)
    requires
        r.index <= a <= b <= r.events.len(),
        0 <= r.index,
    ensures
        r.run_to(a).run_to(b) == r.run_to(b),
        r.run_to(a).index == a,
        r.run_to(a).events == r.events,
    decreases a - r.index,
{
    if r.index < a {
        lemma_run_to(r.stepped(), a, b);
    }
}

/// Steps one after the other lead on from where steps have led.
proof fn lemma_run_to_steps(r: ReplayView, target: int)
    requires
        0 <= r.index <= target <= r.events.len(),
        r == r.restarted().stepped_times(r.index as nat),
    ensures
        r.run_to(target) == r.restarted().stepped_times(target as nat),
    decreases target - r.index,
{
    if r.index < target {
        let next = r.stepped();
        lemma_origin(r);
        assert(next == r.restarted().stepped_times(next.index as nat));
        lemma_run_to_steps(next, target);
    }
}

proof fn lemma_steps(r: ReplayView, n: nat)
    requires
        r.index == 0,
        n <= r.events.len(),
    ensures
        r.stepped_times(n).index == n,
        r.stepped_times(n).events == r.events,
        r.stepped_times(n).restarted() == r.restarted(),
    decreases n,
{
    if n > 0 {
        lemma_steps(r, (n - 1) as nat);
        lemma_origin(r.stepped_times((n - 1) as nat));
    }
}

/// Going forward in two steps shows what going there at once shows.
pub proof fn law_forward_seeks_compose(r: ReplayView, a: int, b: int)
    requires
        r.wf(),
        r.index <= a <= b <= r.events.len(),
    ensures
        r.at_index(a).at_index(b) == r.at_index(b),
{
    lemma_run_to(r, a, b);
}

/// Seeking shows what so many steps from the start show, from whatever position.
pub proof fn law_seeking_is_stepping(r: ReplayView, idx: nat)
    requires
        r.wf(),
    ensures
        ({
            let n = if idx < r.events.len() {
                idx
            } else {
                r.events.len()
            };
            &&& r.at_index(idx as int) == fresh_replay(
                r.events,
                r.initial_cols,
                r.initial_rows,
            ).stepped_times(n)
            &&& r.at_index(idx as int).index == n
        }),
{
    reveal(ReplayView::is_replayed);
    let n = if idx < r.events.len() {
        idx
    } else {
        r.events.len()
    };
    if n < r.index {
        assert(r.restarted().restarted() == r.restarted());
        lemma_run_to_steps(r.restarted(), n as int);
    } else {
        lemma_run_to_steps(r, n as int);
    }
    lemma_steps(r.restarted(), n);
}

/// Going back shows what a replay from the start shows, in the dimensions at the start.
pub proof fn law_going_back_starts_anew(r: ReplayView, idx: int)
    requires
        r.wf(),
        0 <= idx < r.index,
    ensures
        r.at_index(idx) == fresh_replay(r.events, r.initial_cols, r.initial_rows).at_index(idx),
        r.at_index(idx).index == idx,
{
    lemma_run_to(r.restarted(), idx, idx);
}

/// A number of events beyond the last shows all events.
pub proof fn law_seeks_stop_at_the_end(r: ReplayView, idx: int)
    requires
        r.wf(),
        idx >= r.events.len(),
    ensures
        r.at_index(idx) == r.at_index(r.events.len() as int),
        r.at_index(idx).index == r.events.len(),
{
    lemma_run_to(r, r.events.len() as int, r.events.len() as int);
}

/// Whether the events are in the order of their times.
pub open spec fn in_time_order(events: Seq<LogEventView>) -> bool {
    forall|i: int, j: int|
        0 <= i <= j < events.len() ==> (#[trigger] events[i]).timestamp_ms <= (
        #[trigger] events[j]).timestamp_ms
}

proof fn lemma_count_until(events: Seq<LogEventView>, ts: u64)
    ensures
        0 <= count_until(events, ts) <= events.len(),
        forall|i: int|
            count_until(events, ts) <= i < events.len() ==> (#[trigger] events[i]).timestamp_ms > ts,
        count_until(events, ts) > 0 ==> events[count_until(events, ts) - 1].timestamp_ms <= ts,
    decreases events.len(),
{
    if events.len() > 0 && events.last().timestamp_ms > ts {
        let front = events.drop_last();
        lemma_count_until(front, ts);
        assert forall|i: int| count_until(events, ts) <= i < events.len() implies (
        #[trigger] events[i]).timestamp_ms > ts by {
            if i < front.len() {
                assert(front[i] == events[i]);
            }
        }
    }
}

/// Seeking to a time shows all events up to it, as steps from the start do. Of a recording in the
/// order of time it shows no others.
pub proof fn law_seeking_a_time_shows_all_until_it(r: ReplayView, ts: u64)
    requires
        r.wf(),
    ensures
        ({
            let s = r.at_time(ts);
            &&& s.events == r.events
            &&& s == fresh_replay(r.events, r.initial_cols, r.initial_rows).stepped_times(
                s.index as nat,
            )
            &&& forall|i: int|
                0 <= i < s.events.len() && (#[trigger] s.events[i]).timestamp_ms <= ts ==> i
                    < s.index
            &&& in_time_order(r.events) ==> forall|i: int|
                0 <= i < s.index ==> (#[trigger] s.events[i]).timestamp_ms <= ts
        }),
{
    let n = count_until(r.events, ts);
    lemma_count_until(r.events, ts);
    law_seeking_is_stepping(r, n as nat);
    lemma_steps(r.restarted(), n as nat);
}

/// Whether an event leaves a trace on the screen: output and notes about a resize do.
pub open spec fn leaves_a_trace(e: LogEventView) -> bool {
    match e.direction {
        Direction::Output => true,
        Direction::Meta => json::text_member_of(e.data, "type"@) == Some("resize"@),
        Direction::Input => false,
    }
}

/// The effects of events, one after the other.
spec fn with_events(r: ReplayView, events: Seq<LogEventView>) -> ReplayView
    decreases events.len(),
{
    if events.len() == 0 {
        r
    } else {
        with_events(r, events.drop_last()).with_event(events.last())
    }
}

/// Whether two replays show the same in the same dimensions.
pub open spec fn same_display(a: ReplayView, b: ReplayView) -> bool {
    a.parser == b.parser && a.cols == b.cols && a.rows == b.rows
}

proof fn lemma_steps_are_effects(r: ReplayView, n: nat)
    requires
        r.index == 0,
        n <= r.events.len(),
    ensures
        same_display(r.stepped_times(n), with_events(r, r.events.take(n as int))),
    decreases n,
{
    if n > 0 {
        let m = (n - 1) as nat;
        lemma_steps_are_effects(r, m);
        lemma_steps(r, m);
        assert(r.events.take(n as int).drop_last() =~= r.events.take(m as int));
        assert(r.events.take(n as int).last() == r.events[m as int]);
    }
}

proof fn lemma_same_effect(a: ReplayView, b: ReplayView, e: LogEventView)
    requires
        same_display(a, b),
    ensures
        same_display(a.with_event(e), b.with_event(e)),
        !leaves_a_trace(e) ==> same_display(a.with_event(e), b),
{
}

proof fn lemma_only_traces_matter(a: ReplayView, b: ReplayView, events: Seq<LogEventView>)
    requires
        same_display(a, b),
    ensures
        same_display(
            with_events(a, events),
            with_events(b, events.filter(|e: LogEventView| leaves_a_trace(e))),
        ),
    decreases events.len(),
{
    let f = |e: LogEventView| leaves_a_trace(e);
    if events.len() == 0 {
        assert(events.filter(f) =~= Seq::empty()) by {
            reveal(Seq::filter);
        }
    } else {
        lemma_only_traces_matter(a, b, events.drop_last());
        let front = events.drop_last().filter(f);
        let all = events.filter(f);
        let last = events.last();
        lemma_same_effect(with_events(a, events.drop_last()), with_events(b, front), last);
        assert(all == if f(last) {
            front.push(last)
        } else {
            front
        }) by {
            reveal(Seq::filter);
        }
        if f(last) {
            assert(all.drop_last() =~= front);
        }
    }
}

/// Input and notes that are not about a resize leave no trace: a recording without them, shown to
/// the end, looks the same.
pub proof fn law_only_output_and_resizes_leave_traces(
    events: Seq<LogEventView>,
    cols: u16,
    rows: u16,
)
    ensures
        ({
            let kept = events.filter(|e: LogEventView| leaves_a_trace(e));
            same_display(
                fresh_replay(events, cols, rows).stepped_times(events.len()),
                fresh_replay(kept, cols, rows).stepped_times(kept.len()),
            )
        }),
{
    let kept = events.filter(|e: LogEventView| leaves_a_trace(e));
    let a = fresh_replay(events, cols, rows);
    let b = fresh_replay(kept, cols, rows);
    lemma_steps_are_effects(a, events.len());
    lemma_steps_are_effects(b, kept.len());
    assert(events.take(events.len() as int) =~= events);
    assert(kept.take(kept.len() as int) =~= kept);
    lemma_only_traces_matter(a, b, events);
}

} // verus!
