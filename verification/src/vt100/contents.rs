//! What a screen shows, as text and as escape sequences.
use crate::ansi;
use crate::ansi::cursor_goto;
use crate::text::from_chars;
use crate::vt100::cell;
use crate::vt100::cell::{Cell, Color};
use crate::vt100::draw::{Drawing, Drawn};
use crate::vt100::parser;
use crate::vt100::parser::ParserView;
use crate::vt100::screen;
use crate::vt100::screen::{erase_row, full, make_blank_row, Row, RowView, Screen, ScreenView};
use vstd::prelude::*;
use vstd::string::*;
use vstd::utf8::*;

verus! {

/// The number of cells up to the last one with text.
pub open spec fn used_len(cells: Seq<Cell>) -> int
    decreases cells.len(),
{
    if cells.len() == 0 {
        0
    } else if cells.last().glyph != '\0' {
        cells.len() as int
    } else {
        used_len(cells.drop_last())
    }
}

/// The text of a cell within a line: an empty cell counts as a space, and the second half of a
/// wide character as nothing.
pub open spec fn cell_text(c: Cell) -> Seq<char> {
    if c.continuation {
        Seq::empty()
    } else if c.glyph == '\0' {
        seq![' ']
    } else {
        c.chars()
    }
}

/// The texts of cells one after the other.
pub open spec fn cells_text(cells: Seq<Cell>) -> Seq<char>
    decreases cells.len(),
{
    if cells.len() == 0 {
        Seq::empty()
    } else {
        cells_text(cells.drop_last()) + cell_text(cells.last())
    }
}

/// The text of a line, without empty cells at its end.
pub open spec fn line_text(cells: Seq<Cell>) -> Seq<char> {
    cells_text(cells.take(used_len(cells)))
}

/// The texts of lines, each ended by a newline unless it runs on in the next.
pub open spec fn lines_text(rows: Seq<RowView>) -> Seq<char>
    decreases rows.len(),
{
    if rows.len() == 0 {
        Seq::empty()
    } else {
        lines_text(rows.drop_last()) + line_text(rows.last().cells) + (if rows.last().wrapped {
            Seq::empty()
        } else {
            seq!['\n']
        })
    }
}

/// A text without newlines at its end.
pub open spec fn without_newlines(s: Seq<char>) -> Seq<char>
    decreases s.len(),
{
    if s.len() > 0 && s.last() == '\n' {
        without_newlines(s.drop_last())
    } else {
        s
    }
}

/// The first `n` cells of a line drawn where they differ from what was there. The second half of a
/// wide character is drawn with its first.
pub open spec fn drawn_cells(d: Drawn, before: Seq<Cell>, now: Seq<Cell>, row: int, n: nat) -> Drawn
    decreases n,
{
    if n == 0 {
        d
    } else {
        let e = drawn_cells(d, before, now, row, (n - 1) as nat);
        let c = now[n - 1];
        if c == before[n - 1] || c.continuation {
            e
        } else {
            e.with_cell((row + 1) as nat, n, c)
        }
    }
}

/// The column of the last character, in a line that is full.
pub open spec fn last_place(cells: Seq<Cell>) -> int {
    if cells.last().continuation {
        cells.len() - 2
    } else {
        cells.len() - 1
    }
}

/// A line without text in its last column, where it runs on; else the line itself.
pub open spec fn cut_off(row: RowView) -> RowView {
    if row.wrapped {
        screen::row_erased(row, row.cells.len() - 1, row.cells.len() as int)
    } else {
        row
    }
}

/// A full line made to run on: its last character is printed again, and a space behind it, which
/// goes to the start of the next line and is taken away there. For this the scrolling region is
/// the whole screen.
pub open spec fn with_edge(d: Drawn, cells: Seq<Cell>, row: int) -> Drawn {
    let k = last_place(cells);
    d.then_text("\x1b[r"@).with_cell((row + 1) as nat, (k + 1) as nat, cells[k]).then_text(
        " "@,
    ).with_cell((row + 2) as nat, 1, cell::blank_cell(Color::Default))
}

/// A line drawn where it differs from what was there.
pub open spec fn drawn_line(d: Drawn, was: RowView, now: RowView, row: int) -> Drawn {
    if was == now {
        d
    } else {
        let start = if was.wrapped {
            d.with_cell((row + 1) as nat, now.cells.len(), cell::blank_cell(Color::Default))
        } else {
            d
        };
        let e = drawn_cells(start, cut_off(was).cells, now.cells, row, now.cells.len());
        if now.wrapped {
            with_edge(e, now.cells, row)
        } else {
            e
        }
    }
}

/// What a line is when the lines above it have been drawn: where the one above was made to run on
/// into it, its first column is empty.
pub open spec fn line_was(before: Seq<RowView>, now: Seq<RowView>, r: int) -> RowView
    decreases r,
{
    if r > 0 && now[r - 1].wrapped && line_was(before, now, r - 1) != now[r - 1] {
        screen::row_erased(before[r], 0, 1)
    } else {
        before[r]
    }
}

/// The first `n` lines drawn where they differ from what was there.
pub open spec fn drawn_lines(d: Drawn, before: Seq<RowView>, now: Seq<RowView>, n: nat) -> Drawn
    decreases n,
{
    if n == 0 {
        d
    } else {
        drawn_line(
            drawn_lines(d, before, now, (n - 1) as nat),
            line_was(before, now, n - 1),
            now[n - 1],
            n - 1,
        )
    }
}

/// Nothing drawn.
pub open spec fn nothing_drawn() -> Drawn {
    Drawn { bytes: Seq::empty(), attrs: None }
}

impl ScreenView {
    /// The text of the screen.
    pub open spec fn text(self) -> Seq<char> {
        without_newlines(lines_text(self.rows))
    }

    /// The cursor put where it is. Behind the last column it gets by printing there what is there
    /// already; where that is nothing, by printing a space, which is then taken away.
    pub open spec fn cursor_drawn(self, d: Drawn) -> Drawn {
        let cells = self.rows[self.row].cells;
        let row = (self.row + 1) as nat;
        if self.col < self.width {
            d.then_text(ansi::goto_text(row, (self.col + 1) as nat))
        } else if screen::is_full(cells) {
            d.with_cell(row, (last_place(cells) + 1) as nat, cells[last_place(cells)])
        } else {
            d.with_text(row, self.width as nat, " "@, cells.last().attrs).then_text(
                "\x1b7"@,
            ).with_cell(row, self.width as nat, cells.last()).then_text("\x1b8"@)
        }
    }

    /// The end of a drawing: the cursor where it is, shown or hidden, and the attributes of the
    /// text that follows.
    pub open spec fn finished(self, d: Drawn) -> Drawn {
        self.cursor_drawn(d).with_attrs(self.attrs).then_text(
            if self.hidden {
                "\x1b[?25l"@
            } else {
                "\x1b[?25h"@
            },
        )
    }

    /// The bytes that draw the screen on an empty terminal or any other.
    pub open spec fn formatted(self) -> Seq<u8> {
        self.finished(
            drawn_lines(
                nothing_drawn().then_text("\x1b[m\x1b[H\x1b[J"@),
                screen::blank_rows(self.height, self.width),
                self.rows,
                self.height as nat,
            ),
        ).bytes
    }

    /// The bytes that turn the display of an earlier screen into that of this one: only what has
    /// changed is drawn.
    pub open spec fn difference(self, before: ScreenView) -> Seq<u8> {
        if self.height != before.height || self.width != before.width {
            self.formatted()
        } else {
            let d = drawn_lines(nothing_drawn(), before.rows, self.rows, self.height as nat);
            if d.bytes.len() == 0 && self.row == before.row && self.col == before.col && self.hidden
                == before.hidden && self.attrs == before.attrs {
                Seq::empty()
            } else {
                self.finished(d).bytes
            }
        }
    }
}

fn count_used(cells: &Vec<Cell>) -> (n: usize)
    ensures
        n == used_len(cells@),
        n <= cells.len(),
{
    let mut n: usize = cells.len();
    assert(cells@.take(n as int) =~= cells@);
    while n > 0
        invariant
            n <= cells.len(),
            used_len(cells@.take(n as int)) == used_len(cells@),
        decreases n,
    {
        if cells[n - 1].glyph != '\0' {
            return n;
        }
        assert(cells@.take(n as int).drop_last() =~= cells@.take(n - 1));
        n -= 1;
    }
    n
}

fn push_line(out: &mut Vec<char>, cells: &Vec<Cell>)
    ensures
        final(out)@ == old(out)@ + line_text(cells@),
{
    let n = count_used(cells);
    let ghost before = out@;
    let mut i: usize = 0;
    assert(cells@.take(0) =~= Seq::empty());
    assert(before + Seq::empty() =~= before);
    while i < n
        invariant
            i <= n <= cells.len(),
            out@ == before + cells_text(cells@.take(i as int)),
        decreases n - i,
    {
        let c = cells[i];
        assert(cells@.take(i + 1).drop_last() =~= cells@.take(i as int));
        if !c.continuation {
            if c.glyph == '\0' {
                out.push(' ');
            } else {
                out.push(c.glyph);
                if c.mark != '\0' {
                    out.push(c.mark);
                }
            }
        }
        i += 1;
        assert(out@ =~= before + cells_text(cells@.take(i as int)));
    }
}

fn line_string(cells: &Vec<Cell>) -> (s: String)
    ensures
        s@ == line_text(cells@),
{
    let mut out: Vec<char> = Vec::new();
    push_line(&mut out, cells);
    assert(out@ =~= line_text(cells@));
    from_chars(&out)
}

fn same_line(a: &Row, b: &Row) -> (same: bool)
    ensures
        same == (a@ == b@),
{
    if a.wrapped != b.wrapped || a.cells.len() != b.cells.len() {
        return false;
    }
    let mut i: usize = 0;
    while i < a.cells.len()
        invariant
            i <= a.cells.len(),
            a.cells.len() == b.cells.len(),
            forall|k: int| 0 <= k < i ==> a.cells@[k] == b.cells@[k],
        decreases a.cells.len() - i,
    {
        if a.cells[i] != b.cells[i] {
            assert(a@.cells[i as int] != b@.cells[i as int]);
            return false;
        }
        i += 1;
    }
    assert(a@.cells =~= b@.cells);
    true
}

fn draw_cells(d: &mut Drawing, was: &Vec<Cell>, now: &Vec<Cell>, row: u16)
    requires
        row < 0xffff,
        now.len() <= 0xffff,
        was.len() == now.len(),
    ensures
        final(d)@ == drawn_cells(old(d)@, was@, now@, row as int, now@.len()),
{
    let ghost start = d@;
    let mut i: usize = 0;
    while i < now.len()
        invariant
            i <= now.len(),
            now.len() <= 0xffff,
            row < 0xffff,
            was.len() == now.len(),
            d@ == drawn_cells(start, was@, now@, row as int, i as nat),
        decreases now.len() - i,
    {
        let c = now[i];
        if c != was[i] && !c.continuation {
            d.draw_cell(row + 1, i as u16 + 1, c);
        }
        i += 1;
    }
}

fn draw_line(d: &mut Drawing, was: &Row, now: &Row, row: u16)
    requires
        row < 0xffff,
        now.wrapped ==> row < 0xfffe,
        now.cells.len() <= 0xffff,
        screen::row_wf(was@, now.cells.len() as int),
        screen::row_wf(now@, now.cells.len() as int),
    ensures
        final(d)@ == drawn_line(old(d)@, was@, now@, row as int),
{
    if same_line(was, now) {
        return;
    }
    let width = now.cells.len();
    if was.wrapped {
        d.draw_cell(row + 1, width as u16, Cell::blank(Color::Default));
        let cut = erase_row(was, width - 1, width);
        draw_cells(d, &cut.cells, &now.cells, row);
    } else {
        draw_cells(d, &was.cells, &now.cells, row);
    }
    if now.wrapped {
        proof {
            lemma_last_place(now.cells@);
        }
        let k: usize = if now.cells[width - 1].continuation {
            width - 2
        } else {
            width - 1
        };
        d.push("\x1b[r");
        d.draw_cell(row + 1, k as u16 + 1, now.cells[k]);
        d.push(" ");
        d.draw_cell(row + 2, 1, Cell::blank(Color::Default));
    }
}

/// The last character of a full line is whole.
pub proof fn lemma_last_place(cells: Seq<Cell>)
    requires
        screen::whole(cells),
        screen::is_full(cells),
    ensures
        0 <= last_place(cells) < cells.len(),
        cells[last_place(cells)].glyph != '\0',
        !cells[last_place(cells)].continuation,
        cells[last_place(cells)].wide == (last_place(cells) == cells.len() - 2),
{
    reveal(screen::whole);
    let n = cells.len() - 1;
    assert(cells[n].sound() && !screen::torn(cells, n));
    if cells[n].continuation {
        assert(cells[n - 1].sound() && !screen::torn(cells, n - 1));
    }
}

impl Screen {
    /// The text of the screen: its lines without trailing empty cells, joined where they run on,
    /// and without empty lines at the end.
    pub fn contents(&self) -> (s: String)
        requires
            self@.wf(),
        ensures
            s@ == self@.text(),
    {
        let mut out: Vec<char> = Vec::new();
        let (height, _width) = self.size();
        let mut r: u16 = 0;
        assert(self@.rows.take(0) =~= Seq::empty());
        while r < height
            invariant
                r <= height,
                height == self@.height,
                self@.wf(),
                out@ == lines_text(self@.rows.take(r as int)),
            decreases height - r,
        {
            let line = self.line(r);
            assert(self@.rows.take(r + 1).drop_last() =~= self@.rows.take(r as int));
            push_line(&mut out, &line.cells);
            if !line.wrapped {
                out.push('\n');
            }
            r += 1;
            assert(out@ =~= lines_text(self@.rows.take(r as int)));
        }
        assert(self@.rows.take(r as int) =~= self@.rows);
        let mut n: usize = out.len();
        assert(out@.take(n as int) =~= out@);
        while n > 0 && out[n - 1] == '\n'
            invariant
                n <= out.len(),
                without_newlines(out@.take(n as int)) == without_newlines(out@),
            decreases n,
        {
            assert(out@.take(n as int).drop_last() =~= out@.take(n - 1));
            n -= 1;
        }
        let kept = vstd::slice::slice_subrange(&out, 0, n);
        assert(kept@ =~= out@.take(n as int));
        from_chars(kept)
    }

    /// The texts of the last `max_lines` lines that have scrolled off, the oldest first.
    pub fn scrollback_contents(&self, max_lines: usize) -> (lines: Vec<String>)
        ensures
            lines@.len() == screen::min(self@.scrollback.len() as int, max_lines as int),
            forall|i: int|
                0 <= i < lines@.len() ==> (#[trigger] lines@[i])@ == line_text(
                    self@.scrollback[self@.scrollback.len() - lines@.len() + i].cells,
                ),
    {
        let rows = self.scrolled_off();
        let mut lines: Vec<String> = Vec::new();
        let start: usize = if rows.len() > max_lines {
            rows.len() - max_lines
        } else {
            0
        };
        let mut i: usize = start;
        while i < rows.len()
            invariant
                start <= i <= rows.len(),
                screen::row_views(rows@) == self@.scrollback,
                lines.len() == i - start,
                forall|k: int|
                    0 <= k < lines@.len() ==> (#[trigger] lines@[k])@ == line_text(
                        self@.scrollback[start + k].cells,
                    ),
            decreases rows.len() - i,
        {
            assert(self@.scrollback[i as int] == rows@[i as int]@);
            lines.push(line_string(&rows[i].cells));
            i += 1;
        }
        lines
    }

    fn draw_since(&self, before: Option<&Screen>, d: &mut Drawing)
        requires
            self@.wf(),
            before matches Some(b) ==> b@.wf() && b@.height == self@.height && b@.width
                == self@.width,
        ensures
            final(d)@ == drawn_lines(
                old(d)@,
                match before {
                    Some(b) => b@.rows,
                    None => screen::blank_rows(self@.height, self@.width),
                },
                self@.rows,
                self@.height as nat,
            ),
    {
        let ghost was_rows = match before {
            Some(b) => b@.rows,
            None => screen::blank_rows(self@.height, self@.width),
        };
        let ghost start = d@;
        let (height, width) = self.size();
        let mut r: u16 = 0;
        let mut entered: bool = false;
        while r < height
            invariant
                r <= height,
                height == self@.height,
                width == self@.width,
                self@.wf(),
                before matches Some(b) ==> b@.wf() && b@.height == self@.height && b@.width
                    == self@.width,
                was_rows == (match before {
                    Some(b) => b@.rows,
                    None => screen::blank_rows(self@.height, self@.width),
                }),
                entered == (r > 0 && self@.rows[r - 1].wrapped && line_was(
                    was_rows,
                    self@.rows,
                    r - 1,
                ) != self@.rows[r - 1]),
                d@ == drawn_lines(start, was_rows, self@.rows, r as nat),
            decreases height - r,
        {
            let now = self.line(r);
            assert(screen::row_wf(self@.rows[r as int], self@.width));
            let old_line: Row = match before {
                Some(b) => {
                    assert(screen::row_wf(b@.rows[r as int], self@.width));
                    b.line(r).clone()
                },
                None => make_blank_row(width, Color::Default),
            };
            let was: Row = if entered {
                erase_row(&old_line, 0, 1)
            } else {
                old_line
            };
            draw_line(d, &was, now, r);
            entered = now.wrapped && !same_line(&was, now);
            r += 1;
        }
    }

    fn finish(&self, d: &mut Drawing)
        requires
            self@.wf(),
        ensures
            final(d)@ == self@.finished(old(d)@),
    {
        let (row, col) = self.cursor_position();
        let (_height, width) = self.size();
        let line = self.line(row);
        assert(screen::row_wf(self@.rows[row as int], self@.width));
        if col < width {
            let goto = cursor_goto(row + 1, col + 1);
            d.push(goto.as_str());
        } else if full(&line.cells) {
            proof {
                lemma_last_place(line.cells@);
            }
            let last: usize = width as usize - 1;
            let k: usize = if line.cells[last].continuation {
                last - 1
            } else {
                last
            };
            d.draw_cell(row + 1, k as u16 + 1, line.cells[k]);
        } else {
            let c = line.cells[width as usize - 1];
            d.draw(row + 1, width, " ", c.attrs);
            d.push("\x1b7");
            d.draw_cell(row + 1, width, c);
            d.push("\x1b8");
        }
        d.set_attrs(self.attrs());
        if self.hide_cursor() {
            d.push("\x1b[?25l");
        } else {
            d.push("\x1b[?25h");
        }
    }

    /// The bytes that draw the screen on a terminal of its size.
    pub fn contents_formatted(&self) -> (bytes: Vec<u8>)
        requires
            self@.wf(),
        ensures
            bytes@ == self@.formatted(),
    {
        let mut d = Drawing::new();
        d.push("\x1b[m\x1b[H\x1b[J");
        self.draw_since(None, &mut d);
        self.finish(&mut d);
        d.bytes
    }

    /// The bytes that turn the display of an earlier screen into that of this one.
    pub fn contents_diff(&self, before: &Screen) -> (bytes: Vec<u8>)
        requires
            self@.wf(),
            before@.wf(),
        ensures
            bytes@ == self@.difference(before@),
    {
        let (height, width) = self.size();
        let (old_height, old_width) = before.size();
        if height != old_height || width != old_width {
            return self.contents_formatted();
        }
        let mut d = Drawing::new();
        self.draw_since(Some(before), &mut d);
        let (row, col) = self.cursor_position();
        let (old_row, old_col) = before.cursor_position();
        if d.bytes.len() == 0 && row == old_row && col == old_col && self.hide_cursor()
            == before.hide_cursor() && self.attrs() == before.attrs() {
            assert(d.bytes@ =~= Seq::empty());
            return d.bytes;
        }
        self.finish(&mut d);
        d.bytes
    }
}

proof fn lemma_same_lines_draw_nothing(d: Drawn, rows: Seq<RowView>, n: nat)
    ensures
        drawn_lines(d, rows, rows, n) == d,
        n > 0 ==> line_was(rows, rows, n - 1) == rows[n - 1],
    decreases n,
{
    if n > 0 {
        lemma_same_lines_draw_nothing(d, rows, (n - 1) as nat);
    }
}

/// A screen that has not changed needs no bytes to be drawn.
pub proof fn law_no_change_needs_no_bytes(s: ScreenView)
    ensures
        s.difference(s) == Seq::<u8>::empty(),
{
    lemma_same_lines_draw_nothing(nothing_drawn(), s.rows, s.height as nat);
}

/// Whether bytes are printable characters of the seven-bit alphabet.
pub open spec fn is_printable(s: Seq<u8>) -> bool {
    forall|i: int| 0 <= i < s.len() ==> 0x20 <= #[trigger] s[i] <= 0x7e
}

/// The characters of the seven-bit alphabet with these numbers.
pub open spec fn ascii_text(s: Seq<u8>) -> Seq<char> {
    s.map_values(|b: u8| b as char)
}

spec fn typed_cells(s: Seq<u8>, width: int) -> Seq<Cell> {
    Seq::new(
        width as nat,
        |i: int|
            if i < s.len() {
                screen::glyph_cell(s[i] as char, false, cell::plain_attrs())
            } else {
                cell::blank_cell(Color::Default)
            },
    )
}

spec fn typed_screen(height: int, width: int, limit: int, s: Seq<u8>) -> ScreenView {
    let fresh = screen::fresh_screen(height, width, limit);
    ScreenView {
        rows: fresh.rows.update(0, RowView { cells: typed_cells(s, width), wrapped: false }),
        col: s.len() as int,
        ..fresh
    }
}

proof fn lemma_typed(height: u16, width: u16, limit: usize, s: Seq<u8>)
    requires
        is_printable(s),
        s.len() <= screen::max(1, width as int),
    ensures
        parser::fresh_parser(height, width, limit).fed_all(s) == (ParserView {
            screen: typed_screen(
                screen::max(1, height as int),
                screen::max(1, width as int),
                limit as int,
                s,
            ),
            ..parser::fresh_parser(height, width, limit)
        }),
    decreases s.len(),
{
    let h = screen::max(1, height as int);
    let w = screen::max(1, width as int);
    let l = limit as int;
    let fresh = screen::fresh_screen(h, w, l);
    if s.len() == 0 {
        assert(typed_cells(s, w) =~= fresh.rows[0].cells);
        assert(typed_screen(h, w, l, s).rows =~= fresh.rows);
    } else {
        let front = s.drop_last();
        let b = s.last();
        lemma_typed(height, width, limit, front);
        let before = typed_screen(h, w, l, front);
        let c = b as char;
        assert(b == s[s.len() - 1]);
        assert(cell::char_width(c) == 1);
        let cells = before.rows[0].cells;
        assert(cells == typed_cells(front, w));
        assert(screen::with_glyph(cells, front.len() as int, c, false, before.attrs) =~= typed_cells(
            s,
            w,
        ));
        assert(before.printed(c).rows =~= typed_screen(h, w, l, s).rows);
    }
}

proof fn lemma_typed_line(s: Seq<u8>, width: int)
    requires
        is_printable(s),
        s.len() <= width,
    ensures
        line_text(typed_cells(s, width)) == ascii_text(s),
{
    lemma_used_len(s, width, width);
    let cells = typed_cells(s, width).take(s.len() as int);
    lemma_cells_text(s, cells, s.len() as int);
    assert(cells.take(s.len() as int) =~= cells);
    assert(s.take(s.len() as int) =~= s);
}

proof fn lemma_used_len(s: Seq<u8>, width: int, n: int)
    requires
        is_printable(s),
        s.len() <= n <= width,
    ensures
        used_len(typed_cells(s, width).take(n)) == s.len(),
        n == width ==> used_len(typed_cells(s, width)) == s.len(),
    decreases n,
{
    let cells = typed_cells(s, width);
    if n == width {
        assert(cells.take(n) =~= cells);
    }
    if n > s.len() {
        lemma_used_len(s, width, n - 1);
        assert(cells.take(n).drop_last() =~= cells.take(n - 1));
    } else if n > 0 {
        assert(s[n - 1] >= 0x20);
        assert(cells.take(n).last() == cells[n - 1]);
    }
}

proof fn lemma_cells_text(s: Seq<u8>, cells: Seq<Cell>, n: int)
    requires
        is_printable(s),
        0 <= n <= s.len(),
        cells.len() == s.len(),
        forall|i: int|
            0 <= i < s.len() ==> #[trigger] cells[i] == screen::glyph_cell(
                s[i] as char,
                false,
                cell::plain_attrs(),
            ),
    ensures
        cells_text(cells.take(n)) == ascii_text(s.take(n)),
    decreases n,
{
    if n > 0 {
        lemma_cells_text(s, cells, n - 1);
        assert(cells.take(n).drop_last() =~= cells.take(n - 1));
        assert(cells.take(n).last() == cells[n - 1]);
        assert(s[n - 1] >= 0x20);
        assert(ascii_text(s.take(n)) =~= ascii_text(s.take(n - 1)).push(s[n - 1] as char));
    } else {
        assert(ascii_text(s.take(n)) =~= Seq::empty());
    }
}

spec fn newlines(n: nat) -> Seq<char> {
    Seq::new(n, |i: int| '\n')
}

proof fn lemma_typed_lines(height: int, width: int, limit: int, s: Seq<u8>, n: int)
    requires
        is_printable(s),
        s.len() <= width,
        1 <= n <= height,
    ensures
        lines_text(typed_screen(height, width, limit, s).rows.take(n)) == ascii_text(s) + newlines(
            n as nat,
        ),
    decreases n,
{
    let rows = typed_screen(height, width, limit, s).rows;
    assert(rows.take(n).drop_last() =~= rows.take(n - 1));
    assert(rows.take(n).last() == rows[n - 1]);
    if n == 1 {
        lemma_typed_line(s, width);
        assert(rows.take(0) =~= Seq::empty());
        assert(lines_text(rows.take(0)) =~= Seq::empty());
        assert(rows[0] == (RowView { cells: typed_cells(s, width), wrapped: false }));
        assert(lines_text(rows.take(1)) =~= ascii_text(s) + seq!['\n']);
        assert(ascii_text(s) + newlines(1) =~= Seq::<char>::empty() + ascii_text(s) + seq!['\n']);
    } else {
        lemma_typed_lines(height, width, limit, s, n - 1);
        lemma_typed_line(Seq::empty(), width);
        assert(rows[n - 1] == screen::blank_row(width, Color::Default));
        assert(rows[n - 1].cells =~= typed_cells(Seq::empty(), width));
        assert(ascii_text(Seq::empty()) =~= Seq::empty());
        assert(ascii_text(s) + newlines(n as nat) =~= ascii_text(s) + newlines((n - 1) as nat)
            + Seq::<char>::empty() + seq!['\n']);
    }
}

proof fn lemma_without_newlines(s: Seq<u8>, n: nat)
    requires
        is_printable(s),
    ensures
        without_newlines(ascii_text(s) + newlines(n)) == ascii_text(s),
    decreases n,
{
    let all = ascii_text(s) + newlines(n);
    if n > 0 {
        assert(all.drop_last() =~= ascii_text(s) + newlines((n - 1) as nat));
        lemma_without_newlines(s, (n - 1) as nat);
    } else {
        assert(all =~= ascii_text(s));
        if s.len() > 0 {
            assert(s[s.len() - 1] >= 0x20);
        }
    }
}

/// What is printed on a new screen is shown: printable characters of the seven-bit alphabet that
/// fit on a line are the text of the screen.
pub proof fn law_printed_text_is_shown(height: u16, width: u16, limit: usize, s: Seq<u8>)
    requires
        is_printable(s),
        s.len() <= screen::max(1, width as int),
    ensures
        parser::fresh_parser(height, width, limit).fed_all(s).screen.text() == ascii_text(s),
{
    let h = screen::max(1, height as int);
    let w = screen::max(1, width as int);
    lemma_typed(height, width, limit, s);
    lemma_typed_lines(h, w, limit as int, s, h);
    let rows = typed_screen(h, w, limit as int, s).rows;
    assert(rows.take(h) =~= rows);
    lemma_without_newlines(s, h as nat);
}

} // verus!
