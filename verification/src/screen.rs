//! The screen of a session, with what is needed to draw only what has changed.
use crate::vt100::contents;
use crate::vt100::parser;
use crate::vt100::parser::{Parser, ParserView};
use crate::vt100::redraw;
use crate::vt100::screen;
use crate::vt100::screen::{RowView, Screen, ScreenView};
use vstd::prelude::*;

verus! {

/// The state of a screen buffer: the emulator, the screen as it was last drawn, and the dimensions
/// that were asked for.
pub struct BufferView {
    pub parser: ParserView,
    pub drawn: ScreenView,
    pub cols: u16,
    pub rows: u16,
    pub scrollback_lines: usize,
}

/// A terminal screen buffer: it follows the output of a program on a grid of cells.
pub struct ScreenBuffer {
    parser: Parser,
    prev_screen: Screen,
    cols: u16,
    rows: u16,
    scrollback_lines: usize,
}

/// A buffer that has seen no output.
pub open spec fn fresh_buffer(cols: u16, rows: u16, scrollback: usize) -> BufferView {
    let parser = parser::fresh_parser(rows, cols, scrollback);
    BufferView { parser, drawn: parser.screen, cols, rows, scrollback_lines: scrollback }
}

impl View for ScreenBuffer {
    type V = BufferView;

    closed spec fn view(&self) -> BufferView {
        BufferView {
            parser: self.parser@,
            drawn: self.prev_screen@,
            cols: self.cols,
            rows: self.rows,
            scrollback_lines: self.scrollback_lines,
        }
    }
}

impl BufferView {
    /// The emulator and the screen last drawn are valid, and have the dimensions and the depth of
    /// scrollback that were asked for. A screen has at least one line and one column.
    pub open spec fn wf(self) -> bool {
        &&& self.parser.wf()
        &&& self.drawn.wf()
        &&& self.parser.screen.height == screen::max(1, self.rows as int)
        &&& self.parser.screen.width == screen::max(1, self.cols as int)
        &&& self.parser.screen.limit == self.scrollback_lines
        &&& parser::same_size(self.drawn, self.parser.screen)
    }
}

/// The texts of the last `max` lines that have scrolled off, the oldest first.
pub open spec fn recent_lines(scrollback: Seq<RowView>, max: int) -> Seq<Seq<char>> {
    let n = screen::min(scrollback.len() as int, max);
    Seq::new(
        n as nat,
        |i: int| contents::line_text(scrollback[scrollback.len() - n + i].cells),
    )
}

impl ScreenBuffer {
    /// A screen buffer that remembers a thousand lines that scroll off.
    pub fn new(cols: u16, rows: u16) -> (b: Self)
        ensures
            b@.wf(),
            b@ == fresh_buffer(cols, rows, 1000),
    {
        ScreenBuffer::with_scrollback(cols, rows, 1000)
    }

    /// A screen buffer with a custom depth of scrollback.
    pub fn with_scrollback(cols: u16, rows: u16, scrollback: usize) -> (b: Self)
        ensures
            b@.wf(),
            b@ == fresh_buffer(cols, rows, scrollback),
    {
        let parser = Parser::new(rows, cols, scrollback);
        let prev_screen = parser.screen().clone();
        ScreenBuffer { parser, prev_screen, cols, rows, scrollback_lines: scrollback }
    }

    /// Feeds raw output into the emulator.
    pub fn process(&mut self, data: &[u8])
        requires
            old(self)@.wf(),
        ensures
            final(self)@.wf(),
            final(self)@ == (BufferView {
                parser: old(self)@.parser.fed_all(data@),
                ..old(self)@
            }),
    {
        proof {
            parser::law_output_keeps_the_size(self@.parser, data@);
        }
        self.parser.process(data);
    }

    /// The plain text of the visible screen.
    pub fn contents(&self) -> (s: String)
        requires
            self@.wf(),
        ensures
            s@ == self@.parser.screen.text(),
    {
        self.parser.screen().contents()
    }

    /// The screen with its formatting, as escape sequences.
    pub fn contents_formatted(&self) -> (bytes: Vec<u8>)
        requires
            self@.wf(),
        ensures
            bytes@ == self@.parser.screen.formatted(),
    {
        self.parser.screen().contents_formatted()
    }

    /// The bytes that bring a display up to date that shows the screen as of the last call. What
    /// has not changed since is not drawn again.
    pub fn contents_diff(&mut self) -> (bytes: Vec<u8>)
        requires
            old(self)@.wf(),
        ensures
            final(self)@.wf(),
            bytes@ == old(self)@.parser.screen.difference(old(self)@.drawn),
            final(self)@ == (BufferView { drawn: old(self)@.parser.screen, ..old(self)@ }),
    {
        let diff = self.parser.screen().contents_diff(&self.prev_screen);
        self.prev_screen = self.parser.screen().clone();
        diff
    }

    /// The cursor as line and column, counted from zero.
    pub fn cursor_position(&self) -> (p: (u16, u16))
        ensures
            p.0 == self@.parser.screen.row,
            p.1 == self@.parser.screen.col,
    {
        self.parser.screen().cursor_position()
    }

    /// The dimensions as columns and lines.
    pub fn size(&self) -> (p: (u16, u16))
        ensures
            p == (self@.cols, self@.rows),
    {
        (self.cols, self.rows)
    }

    /// Gives the buffer other dimensions and starts anew. Nothing happens where they are the ones
    /// it has.
    pub fn resize(&mut self, cols: u16, rows: u16)
        requires
            old(self)@.wf(),
        ensures
            final(self)@.wf(),
            final(self)@ == if old(self)@.cols == cols && old(self)@.rows == rows {
                old(self)@
            } else {
                fresh_buffer(cols, rows, old(self)@.scrollback_lines)
            },
    {
        if self.cols == cols && self.rows == rows {
            return;
        }
        self.cols = cols;
        self.rows = rows;
        self.parser = Parser::new(rows, cols, self.scrollback_lines);
        self.prev_screen = self.parser.screen().clone();
    }

    /// Sets the depth of scrollback and starts anew.
    pub fn set_scrollback(&mut self, lines: usize)
        requires
            old(self)@.wf(),
        ensures
            final(self)@.wf(),
            final(self)@ == fresh_buffer(old(self)@.cols, old(self)@.rows, lines),
    {
        self.scrollback_lines = lines;
        self.parser = Parser::new(self.rows, self.cols, lines);
        self.prev_screen = self.parser.screen().clone();
    }

    /// The depth of scrollback.
    pub fn scrollback_lines(&self) -> (n: usize)
        ensures
            n == self@.scrollback_lines,
    {
        self.scrollback_lines
    }

    /// The underlying screen.
    pub fn screen(&self) -> (s: &Screen)
        ensures
            s@ == self@.parser.screen,
    {
        self.parser.screen()
    }

    /// The texts of the last `max_lines` lines that have scrolled off, the oldest first.
    pub fn get_scrollback(&self, max_lines: usize) -> (lines: Vec<String>)
        ensures
            lines@.map_values(|s: String| s@) == recent_lines(
                self@.parser.screen.scrollback,
                max_lines as int,
            ),
            lines@.len() == screen::min(
                self@.parser.screen.scrollback.len() as int,
                max_lines as int,
            ),
            forall|i: int|
                0 <= i < lines@.len() ==> (#[trigger] lines@[i])@ == contents::line_text(
                    self@.parser.screen.scrollback[self@.parser.screen.scrollback.len()
                        - lines@.len() + i].cells,
                ),
    {
        let lines = self.parser.screen().scrollback_contents(max_lines);
        assert(lines@.map_values(|s: String| s@) =~= recent_lines(
            self@.parser.screen.scrollback,
            max_lines as int,
        ));
        lines
    }
}

/// Drawing brings the display up to date: a second time, without output in between, there is
/// nothing to draw.
pub proof fn law_drawing_twice_draws_once(b: BufferView)
    ensures
        (BufferView { drawn: b.parser.screen, ..b }).parser.screen.difference(b.parser.screen)
            == Seq::<u8>::empty(),
{
    contents::law_no_change_needs_no_bytes(b.parser.screen);
}

/// A terminal that shows what was last drawn shows exactly the screen, and so its text, after the
/// bytes that draw what has changed since.
pub proof fn law_drawing_keeps_a_display_current(b: BufferView, p: ParserView)
    requires
        b.wf(),
        p.wf(),
        p.at_rest(),
        p.screen.shows(b.drawn),
    ensures
        p.fed_all(b.parser.screen.difference(b.drawn)).at_rest(),
        p.fed_all(b.parser.screen.difference(b.drawn)).screen.shows(b.parser.screen),
        p.fed_all(b.parser.screen.difference(b.drawn)).screen.text() == b.parser.screen.text(),
{
    redraw::law_differences_update_the_display(b.parser.screen, b.drawn, p);
}

/// Fewer lines of scrollback are the last of all that there are, in the same order.
pub proof fn law_fewer_lines_are_the_last(b: BufferView, max: nat)
    requires
        b.wf(),
    ensures
        ({
            let all = recent_lines(b.parser.screen.scrollback, b.scrollback_lines as int);
            let n = screen::min(max as int, all.len() as int);
            recent_lines(b.parser.screen.scrollback, max as int) == all.skip(all.len() - n)
        }),
{
    let all = recent_lines(b.parser.screen.scrollback, b.scrollback_lines as int);
    let n = screen::min(max as int, all.len() as int);
    assert(all.len() == b.parser.screen.scrollback.len());
    assert(recent_lines(b.parser.screen.scrollback, max as int) =~= all.skip(all.len() - n));
}

/// A call that changes a buffer.
pub enum BufferCall {
    Process { data: Seq<u8> },
    Resize { cols: u16, rows: u16 },
    SetScrollback { lines: usize },
    ContentsDiff,
}

impl BufferView {
    /// The state after a call.
    pub open spec fn after_call(self, call: BufferCall) -> BufferView {
        match call {
            BufferCall::Process { data } => BufferView {
                parser: self.parser.fed_all(data),
                ..self
            },
            BufferCall::Resize { cols, rows } => if self.cols == cols && self.rows == rows {
                self
            } else {
                fresh_buffer(cols, rows, self.scrollback_lines)
            },
            BufferCall::SetScrollback { lines } => fresh_buffer(self.cols, self.rows, lines),
            BufferCall::ContentsDiff => BufferView { drawn: self.parser.screen, ..self },
        }
    }

    /// The state after calls, one after the other.
    pub open spec fn after_calls(self, calls: Seq<BufferCall>) -> BufferView
        decreases calls.len(),
    {
        if calls.len() == 0 {
            self
        } else {
            self.after_calls(calls.drop_last()).after_call(calls.last())
        }
    }
}

/// The dimensions that the last resize asked for; the given ones where there was none.
pub open spec fn last_size(cols: u16, rows: u16, calls: Seq<BufferCall>) -> (u16, u16)
    decreases calls.len(),
{
    if calls.len() == 0 {
        (cols, rows)
    } else {
        match calls.last() {
            BufferCall::Resize { cols: c, rows: r } => (c, r),
            _ => last_size(cols, rows, calls.drop_last()),
        }
    }
}

/// After any calls a buffer has the dimensions that it was last given, and so has its screen, which
/// has at least one line and one column.
pub proof fn law_the_size_is_the_last_given(
    cols: u16,
    rows: u16,
    scrollback: usize,
    calls: Seq<BufferCall>,
)
    ensures
        ({
            let b = fresh_buffer(cols, rows, scrollback).after_calls(calls);
            &&& (b.cols, b.rows) == last_size(cols, rows, calls)
            &&& b.parser.screen.width == screen::max(1, b.cols as int)
            &&& b.parser.screen.height == screen::max(1, b.rows as int)
        }),
    decreases calls.len(),
{
    if calls.len() > 0 {
        law_the_size_is_the_last_given(cols, rows, scrollback, calls.drop_last());
        let before = fresh_buffer(cols, rows, scrollback).after_calls(calls.drop_last());
        if let BufferCall::Process { data } = calls.last() {
            parser::law_output_keeps_the_size(before.parser, data);
        }
    }
}

} // verus!
