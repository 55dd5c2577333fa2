//! What a replay shows.
use crate::event::{Direction, LogEventView};
use crate::replay;
use crate::replay::ReplayView;
use crate::vt100::parser;
use crate::vt100::parser::ParserView;
use vstd::prelude::*;
use vstd::string::*;

verus! {

/// The interpreter after bytes.
#[verifier::opaque]
pub open spec fn played(p: ParserView, bytes: Seq<u8>) -> ParserView {
    p.fed_all(bytes)
}

/// The output among the first `n` events, in order.
pub open spec fn output_of(events: Seq<LogEventView>, n: nat) -> Seq<u8>
    decreases n,
{
    if n == 0 {
        Seq::empty()
    } else {
        output_of(events, (n - 1) as nat) + (if events[n - 1].direction == Direction::Output {
            events[n - 1].data
        } else {
            Seq::empty()
        })
    }
}

/// The state after one event.
#[verifier::opaque]
spec fn next(r: ReplayView) -> ReplayView {
    r.stepped()
}

proof fn lemma_next(r: ReplayView)
    requires
        0 <= r.index < r.events.len(),
    ensures
        next(r).index == r.index + 1,
        next(r).events == r.events,
        r.events[r.index].direction == Direction::Output ==> next(r) == (ReplayView {
            parser: played(r.parser, r.events[r.index].data),
            index: r.index + 1,
            ..r
        }),
        r.events[r.index].direction == Direction::Input ==> next(r) == (ReplayView {
            index: r.index + 1,
            ..r
        }),
{
    reveal(next);
    reveal(played);
}

/// A recording that only holds input and output is shown as the screen that all the output up to
/// there makes, in the size that it had at the start. Input is not shown.
pub proof fn law_output_makes_the_screen(
    events: Seq<LogEventView>,
    cols: u16,
    rows: u16,
    n: nat,
)
    requires
        n <= events.len(),
        forall|i: int|
            0 <= i < n ==> (#[trigger] events[i]).direction != Direction::Meta,
    ensures
        replay::fresh_replay(events, cols, rows).stepped_times(n) == (ReplayView {
            events,
            parser: played(parser::fresh_parser(rows, cols, 0), output_of(events, n)),
            index: n as int,
            cols,
            rows,
            initial_cols: cols,
            initial_rows: rows,
        }),
    decreases n,
{
    let start = replay::fresh_replay(events, cols, rows);
    let p = parser::fresh_parser(rows, cols, 0);
    if n == 0 {
        assert(played(p, output_of(events, 0)) == p) by {
            reveal(played);
        }
        assert(start.stepped_times(0) == start);
    } else {
        let m = (n - 1) as nat;
        law_output_makes_the_screen(events, cols, rows, m);
        let r = start.stepped_times(m);
        assert(start.stepped_times(n) == next(r)) by {
            reveal(next);
        }
        lemma_next(r);
        let e = events[m as int];
        let before = output_of(events, m);
        if e.direction == Direction::Output {
            assert(played(p, before + e.data) == played(played(p, before), e.data)) by {
                reveal(played);
                parser::law_pieces_make_no_difference(p, before, e.data);
            }
        } else {
            assert(before + Seq::<u8>::empty() =~= before);
        }
    }
}

/// A note about a new size gives the screen that size, columns and lines each in their place; what is
/// missing stays.
pub proof fn law_notes_give_the_size(cols: u16, rows: u16, now_cols: u16, now_rows: u16)
    ensures
        replay::asked_size(
            Some("resize"@),
            Some(cols as u64),
            Some(rows as u64),
            now_cols,
            now_rows,
        ) == Some((cols, rows)),
        replay::asked_size(Some("resize"@), Some(cols as u64), None, now_cols, now_rows) == Some(
            (cols, now_rows),
        ),
        replay::asked_size(Some("resize"@), None, Some(rows as u64), now_cols, now_rows) == Some(
            (now_cols, rows),
        ),
        replay::asked_size(None, Some(cols as u64), Some(rows as u64), now_cols, now_rows) is None,
{
}

/// In another size a replay has a screen of so many columns and lines, and shows as many events as
/// before.
pub proof fn law_replays_take_the_size(r: ReplayView, cols: u16, rows: u16)
    requires
        cols >= 1,
        rows >= 1,
    ensures
        ({
            let t = r.with_size(Some((cols, rows)));
            &&& t.cols == cols && t.rows == rows
            &&& t.parser.screen.width == cols && t.parser.screen.height == rows
            &&& t.index == r.index && t.events == r.events
            &&& r.with_size(None) == r
        }),
{
}

} // verus!
