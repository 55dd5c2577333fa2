//! Selecting text on a screen with the mouse.
use crate::text;
use crate::text::from_chars;
use crate::vt100::cell::Cell;
use crate::vt100::contents;
use crate::vt100::screen;
use crate::vt100::screen::{Screen, ScreenView};
use vstd::prelude::*;
use vstd::string::*;

verus! {

/// A selection between two cells of a screen.
#[derive(Debug, Clone, Copy, PartialEq, Eq)]
pub struct Selection {
    /// Where the mouse button was pressed, as line and column.
    pub anchor: (u16, u16),
    /// Where the mouse is now.
    pub head: (u16, u16),
}

/// Whether a place comes before another, or is the same, in reading order.
pub open spec fn reads_before(a: (u16, u16), b: (u16, u16)) -> bool {
    a.0 < b.0 || (a.0 == b.0 && a.1 <= b.1)
}

/// The text of the cell at a line and a column: a space off the screen and for an empty cell,
/// nothing for the second half of a wide character.
pub open spec fn cell_text_at(s: ScreenView, row: int, col: int) -> Seq<char> {
    if 0 <= row < s.height && 0 <= col < s.width {
        contents::cell_text(s.rows[row].cells[col])
    } else {
        seq![' ']
    }
}

/// The texts of the `n` cells from a column on.
pub open spec fn cells_text_from(s: ScreenView, row: int, col: int, n: nat) -> Seq<char>
    decreases n,
{
    if n == 0 {
        Seq::empty()
    } else {
        cells_text_from(s, row, col, (n - 1) as nat) + cell_text_at(s, row, col + n - 1)
    }
}

/// The text of a line from `first` to `last`, as far as the screen goes.
pub open spec fn line_part(s: ScreenView, row: int, first: int, last: int) -> Seq<char> {
    let end = if last < s.width - 1 {
        last
    } else {
        s.width - 1
    };
    if first > end {
        Seq::empty()
    } else {
        cells_text_from(s, row, first, (end - first + 1) as nat)
    }
}

/// The texts of whole lines, each behind a newline and without white space at its end.
pub open spec fn middle_lines(s: ScreenView, row: int, n: nat) -> Seq<char>
    decreases n,
{
    if n == 0 {
        Seq::empty()
    } else {
        middle_lines(s, row, (n - 1) as nat) + "\n"@ + text::trim_end(
            line_part(s, row + n - 1, 0, s.width - 1),
        )
    }
}

impl Selection {
    /// The place that comes first in reading order.
    pub open spec fn first(self) -> (u16, u16) {
        if reads_before(self.anchor, self.head) {
            self.anchor
        } else {
            self.head
        }
    }

    /// The place that comes last in reading order.
    pub open spec fn last(self) -> (u16, u16) {
        if reads_before(self.anchor, self.head) {
            self.head
        } else {
            self.anchor
        }
    }

    /// Whether a cell is selected: it lies between the two places in reading order.
    pub open spec fn selects(self, row: u16, col: u16) -> bool {
        reads_before(self.first(), (row, col)) && reads_before((row, col), self.last())
    }

    /// The selected text: line by line, without white space at the ends of the lines.
    pub open spec fn selected_text(self, s: ScreenView) -> Seq<char> {
        let (r1, c1) = self.first();
        let (r2, c2) = self.last();
        if r1 == r2 {
            text::trim_end(line_part(s, r1 as int, c1 as int, c2 as int))
        } else {
            text::trim_end(line_part(s, r1 as int, c1 as int, s.width - 1)) + middle_lines(
                s,
                r1 + 1,
                (r2 - r1 - 1) as nat,
            ) + "\n"@ + text::trim_end(line_part(s, r2 as int, 0, c2 as int))
        }
    }

    /// A selection of one cell.
    pub fn new(row: u16, col: u16) -> (s: Self)
        ensures
            s.anchor == (row, col),
            s.head == (row, col),
    {
        Selection { anchor: (row, col), head: (row, col) }
    }

    /// Moves the head.
    pub fn update(&mut self, row: u16, col: u16)
        ensures
            final(self).anchor == old(self).anchor,
            final(self).head == (row, col),
    {
        self.head = (row, col);
    }

    /// The two places in reading order.
    pub fn range(&self) -> (r: ((u16, u16), (u16, u16)))
        ensures
            r == (self.first(), self.last()),
            reads_before(r.0, r.1),
    {
        let (ar, ac) = self.anchor;
        let (hr, hc) = self.head;
        if ar < hr || (ar == hr && ac <= hc) {
            ((ar, ac), (hr, hc))
        } else {
            ((hr, hc), (ar, ac))
        }
    }

    /// Whether a cell is within the selection.
    pub fn contains(&self, row: u16, col: u16) -> (b: bool)
        ensures
            b == self.selects(row, col),
    {
        let ((start_row, start_col), (end_row, end_col)) = self.range();
        if row < start_row || row > end_row {
            return false;
        }
        if start_row == end_row {
            col >= start_col && col <= end_col
        } else if row == start_row {
            col >= start_col
        } else if row == end_row {
            col <= end_col
        } else {
            true
        }
    }

    /// Whether the mouse has not left the cell where it was pressed.
    pub fn is_empty(&self) -> (b: bool)
        ensures
            b == (self.anchor == self.head),
    {
        self.anchor.0 == self.head.0 && self.anchor.1 == self.head.1
    }

    /// The selected text.
    pub fn extract_text(&self, screen: &Screen) -> (s: String)
        requires
            screen@.wf(),
        ensures
            s@ == self.selected_text(screen@),
    {
        let ((start_row, start_col), (end_row, end_col)) = self.range();
        let (_height, width) = screen.size();
        if start_row == end_row {
            extract_line(screen, start_row, start_col, end_col)
        } else {
            let mut result = extract_line(screen, start_row, start_col, width - 1);
            let ghost head = result@;
            let mut row: u16 = start_row + 1;
            assert(head + Seq::empty() =~= head);
            while row < end_row
                invariant
                    start_row < row <= end_row,
                    screen@.wf(),
                    width == screen@.width,
                    result@ == head + middle_lines(
                        screen@,
                        start_row + 1,
                        (row - start_row - 1) as nat,
                    ),
                decreases end_row - row,
            {
                let line = extract_line(screen, row, 0, width - 1);
                result.append("\n");
                result.append(line.as_str());
                row += 1;
                assert(result@ =~= head + middle_lines(
                    screen@,
                    start_row + 1,
                    (row - start_row - 1) as nat,
                ));
            }
            let last = extract_line(screen, end_row, 0, end_col);
            result.append("\n");
            result.append(last.as_str());
            result
        }
    }
}

/// The text of a line from `start_col` to `end_col`, without white space at its end.
fn extract_line(screen: &Screen, row: u16, start_col: u16, end_col: u16) -> (s: String)
    requires
        screen@.wf(),
    ensures
        s@ == text::trim_end(line_part(screen@, row as int, start_col as int, end_col as int)),
{
    let mut out: Vec<char> = Vec::new();
    let (_height, width) = screen.size();
    let end: u16 = if end_col < width - 1 {
        end_col
    } else {
        width - 1
    };
    if start_col <= end {
        let mut n: u16 = 0;
        while n < end - start_col + 1
            invariant
                n <= end - start_col + 1,
                start_col <= end < 0xffff,
                end < width,
                screen@.wf(),
                width == screen@.width,
                out@ == cells_text_from(screen@, row as int, start_col as int, n as nat),
            decreases end - start_col + 1 - n,
        {
            match screen.cell(row, start_col + n) {
                Some(cell) => {
                    if !cell.is_wide_continuation() {
                        if cell.has_contents() {
                            let chars = cell.char_list();
                            let mut i: usize = 0;
                            let ghost before = out@;
                            while i < chars.len()
                                invariant
                                    i <= chars.len(),
                                    out@ == before + chars@.take(i as int),
                                decreases chars.len() - i,
                            {
                                out.push(chars[i]);
                                i += 1;
                                assert(chars@.take(i as int) =~= chars@.take(i - 1).push(
                                    chars@[i - 1],
                                ));
                            }
                            assert(chars@.take(i as int) =~= chars@);
                        } else {
                            out.push(' ');
                        }
                    }
                },
                None => {
                    out.push(' ');
                },
            }
            n += 1;
            assert(out@ =~= cells_text_from(screen@, row as int, start_col as int, n as nat));
        }
    }
    let kept = text::cut_end(&out);
    from_chars(kept)
}

/// A selection is the same from either end: it does not matter where the mouse was pressed and
/// where it was released.
pub proof fn law_direction_does_not_matter(a: (u16, u16), b: (u16, u16), row: u16, col: u16, s: ScreenView)
    ensures
        (Selection { anchor: a, head: b }).selects(row, col) == (Selection {
            anchor: b,
            head: a,
        }).selects(row, col),
        (Selection { anchor: a, head: b }).selected_text(s) == (Selection {
            anchor: b,
            head: a,
        }).selected_text(s),
{
    let x = Selection { anchor: a, head: b };
    let y = Selection { anchor: b, head: a };
    assert(x.first() == y.first());
    assert(x.last() == y.last());
}

/// The number of newlines in a text.
pub open spec fn newlines(s: Seq<char>) -> nat
    decreases s.len(),
{
    if s.len() == 0 {
        0
    } else {
        newlines(s.drop_last()) + (if s.last() == '\n' {
            1nat
        } else {
            0
        })
    }
}

proof fn lemma_newlines_pieces(a: Seq<char>, b: Seq<char>)
    ensures
        newlines(a + b) == newlines(a) + newlines(b),
    decreases b.len(),
{
    if b.len() == 0 {
        assert(a + b =~= a);
    } else {
        assert((a + b).drop_last() =~= a + b.drop_last());
        lemma_newlines_pieces(a, b.drop_last());
    }
}

proof fn lemma_newlines_trimmed(s: Seq<char>)
    ensures
        newlines(text::trim_end(s)) <= newlines(s),
    decreases s.len(),
{
    if s.len() > 0 && text::is_whitespace(s.last()) {
        lemma_newlines_trimmed(s.drop_last());
    }
}

proof fn lemma_one_newline()
    ensures
        newlines("\n"@) == 1,
{
    reveal_strlit("\n");
    assert("\n"@.drop_last() =~= Seq::empty());
    assert(newlines("\n"@.drop_last()) == 0);
}

proof fn lemma_cells_hold_no_newline(s: ScreenView, row: int, col: int, n: nat)
    requires
        s.wf(),
    ensures
        newlines(cells_text_from(s, row, col, n)) == 0,
    decreases n,
{
    if n > 0 {
        lemma_cells_hold_no_newline(s, row, col, (n - 1) as nat);
        let t = cell_text_at(s, row, col + n - 1);
        lemma_newlines_pieces(cells_text_from(s, row, col, (n - 1) as nat), t);
        if 0 <= row < s.height && 0 <= col + n - 1 < s.width {
            let cells = s.rows[row].cells;
            assert(screen::row_wf(s.rows[row], s.width));
            assert(cells[col + n - 1].sound()) by {
                reveal(screen::whole);
            }
        }
        assert(forall|i: int| 0 <= i < t.len() ==> t[i] != '\n');
        lemma_no_newline(t);
    }
}

proof fn lemma_no_newline(s: Seq<char>)
    requires
        forall|i: int| 0 <= i < s.len() ==> s[i] != '\n',
    ensures
        newlines(s) == 0,
    decreases s.len(),
{
    if s.len() > 0 {
        lemma_no_newline(s.drop_last());
    }
}

proof fn lemma_part_holds_no_newline(s: ScreenView, row: int, first: int, last: int)
    requires
        s.wf(),
    ensures
        newlines(text::trim_end(line_part(s, row, first, last))) == 0,
{
    let end = if last < s.width - 1 {
        last
    } else {
        s.width - 1
    };
    if first <= end {
        lemma_cells_hold_no_newline(s, row, first, (end - first + 1) as nat);
    }
    lemma_newlines_trimmed(line_part(s, row, first, last));
}

proof fn lemma_middle_newlines(s: ScreenView, row: int, n: nat)
    requires
        s.wf(),
    ensures
        newlines(middle_lines(s, row, n)) == n,
    decreases n,
{
    if n > 0 {
        let a = middle_lines(s, row, (n - 1) as nat);
        let b = text::trim_end(line_part(s, row + n - 1, 0, s.width - 1));
        lemma_middle_newlines(s, row, (n - 1) as nat);
        lemma_one_newline();
        lemma_part_holds_no_newline(s, row + n - 1, 0, s.width - 1);
        lemma_newlines_pieces(a + "\n"@, b);
        lemma_newlines_pieces(a, "\n"@);
    }
}

/// A selection gives one line of text for each line of the screen that it touches.
pub proof fn law_a_line_of_text_per_line(x: Selection, s: ScreenView)
    requires
        s.wf(),
    ensures
        newlines(x.selected_text(s)) == x.last().0 - x.first().0,
{
    let (r1, c1) = x.first();
    let (r2, c2) = x.last();
    lemma_part_holds_no_newline(s, r1 as int, c1 as int, c2 as int);
    if r1 != r2 {
        let a = text::trim_end(line_part(s, r1 as int, c1 as int, s.width - 1));
        let m = middle_lines(s, r1 + 1, (r2 - r1 - 1) as nat);
        let z = text::trim_end(line_part(s, r2 as int, 0, c2 as int));
        lemma_part_holds_no_newline(s, r1 as int, c1 as int, s.width - 1);
        lemma_part_holds_no_newline(s, r2 as int, 0, c2 as int);
        lemma_middle_newlines(s, r1 + 1, (r2 - r1 - 1) as nat);
        lemma_one_newline();
        lemma_newlines_pieces(a + m + "\n"@, z);
        lemma_newlines_pieces(a + m, "\n"@);
        lemma_newlines_pieces(a, m);
    }
}

/// The letters of a cell: its character with its mark, a space where it is empty, nothing where it
/// is the second half of a wide character.
pub open spec fn letters(c: Cell) -> Seq<char> {
    if c.continuation {
        Seq::empty()
    } else if c.glyph == '\0' {
        seq![' ']
    } else if c.mark == '\0' {
        seq![c.glyph]
    } else {
        seq![c.glyph, c.mark]
    }
}

/// The letters of the selected cells among the first `n` of a line, from left to right.
pub open spec fn selected_letters(x: Selection, s: ScreenView, row: int, n: int) -> Seq<char>
    decreases n,
{
    if n <= 0 {
        Seq::empty()
    } else {
        selected_letters(x, s, row, n - 1) + (if x.selects(row as u16, (n - 1) as u16) {
            letters(s.rows[row].cells[n - 1])
        } else {
            Seq::empty()
        })
    }
}

/// Lines with newlines between them.
pub open spec fn with_newlines(lines: Seq<Seq<char>>) -> Seq<char>
    decreases lines.len(),
{
    if lines.len() == 0 {
        Seq::empty()
    } else if lines.len() == 1 {
        lines[0]
    } else {
        with_newlines(lines.drop_last()) + seq!['\n'] + lines.last()
    }
}

/// A cell is selected exactly when it does not come before the one end nor behind the other, line by
/// line and in each line from left to right.
pub proof fn law_what_is_selected(x: Selection, row: u16, col: u16)
    ensures
        ({
            let here = row * 0x1_0000 + col;
            let a = x.anchor.0 * 0x1_0000 + x.anchor.1;
            let b = x.head.0 * 0x1_0000 + x.head.1;
            x.selects(row, col) <==> (a <= here <= b || b <= here <= a)
        }),
{
}

proof fn lemma_selected_letters(x: Selection, s: ScreenView, row: int, n: int, from: int, to: int)
    requires
        s.wf(),
        0 <= row < s.height,
        0 <= n <= s.width,
        0 <= from,
        forall|c: int|
            0 <= c < s.width ==> (#[trigger] x.selects(row as u16, c as u16) <==> from <= c <= to),
    ensures
        selected_letters(x, s, row, n) == (if from > to || from >= n {
            Seq::empty()
        } else {
            cells_text_from(
                s,
                row,
                from,
                (if to < n {
                    to + 1 - from
                } else {
                    n - from
                }) as nat,
            )
        }),
    decreases n,
{
    if n > 0 {
        lemma_selected_letters(x, s, row, n - 1, from, to);
        let c = s.rows[row].cells[n - 1];
        assert(x.selects(row as u16, (n - 1) as u16) <==> from <= n - 1 <= to);
        assert(letters(c) =~= cell_text_at(s, row, n - 1));
        if from <= n - 1 <= to {
            let k = (n - from) as nat;
            assert(cells_text_from(s, row, from, k) == cells_text_from(s, row, from, (k - 1) as nat)
                + cell_text_at(s, row, from + k - 1));
            assert(from + k - 1 == n - 1);
            if from == n - 1 {
                assert(cells_text_from(s, row, from, 0) =~= Seq::empty());
            }
            if to < n - 1 {
            } else {
                assert((if to < n {
                    to + 1 - from
                } else {
                    n - from
                }) == k);
            }
        } else {
            assert(selected_letters(x, s, row, n) =~= selected_letters(x, s, row, n - 1));
        }
    }
}

proof fn lemma_spaces_are_trimmed(s: ScreenView, row: int, col: int, n: nat)
    requires
        row >= s.height,
    ensures
        text::trim_end(cells_text_from(s, row, col, n)) == Seq::<char>::empty(),
    decreases n,
{
    if n > 0 {
        let t = cells_text_from(s, row, col, n);
        let u = cells_text_from(s, row, col, (n - 1) as nat);
        assert(t =~= u.push(' '));
        assert(t.drop_last() =~= u);
        lemma_spaces_are_trimmed(s, row, col, (n - 1) as nat);
    }
}

/// What is read of a line of the screen.
spec fn line_read(x: Selection, s: ScreenView, row: int) -> Seq<char> {
    if row < s.height {
        text::trim_end(selected_letters(x, s, row, s.width))
    } else {
        Seq::empty()
    }
}

proof fn lemma_line_read(x: Selection, s: ScreenView, row: int)
    requires
        s.wf(),
        x.first().0 <= row <= x.last().0,
    ensures
        line_read(x, s, row) == text::trim_end(
            line_part(
                s,
                row,
                if row == x.first().0 {
                    x.first().1 as int
                } else {
                    0
                },
                if row == x.last().0 {
                    x.last().1 as int
                } else {
                    s.width - 1
                },
            ),
        ),
{
    let from = if row == x.first().0 {
        x.first().1 as int
    } else {
        0
    };
    let to = if row == x.last().0 {
        x.last().1 as int
    } else {
        s.width - 1
    };
    if row < s.height {
        assert forall|c: int| 0 <= c < s.width implies (#[trigger] x.selects(row as u16, c as u16)
            <==> from <= c <= to) by {}
        lemma_selected_letters(x, s, row, s.width, from, to);
    } else {
        let end = if to < s.width - 1 {
            to
        } else {
            s.width - 1
        };
        if from <= end {
            lemma_spaces_are_trimmed(s, row, from, (end - from + 1) as nat);
        }
    }
}

proof fn lemma_lines_read(x: Selection, s: ScreenView, n: nat)
    requires
        s.wf(),
        1 <= n <= x.last().0 - x.first().0,
    ensures
        with_newlines(Seq::new(n, |k: int| line_read(x, s, x.first().0 + k))) == line_read(
            x,
            s,
            x.first().0 as int,
        ) + middle_lines(s, x.first().0 + 1, (n - 1) as nat),
    decreases n,
{
    reveal_strlit("\n");
    let r = x.first().0 as int;
    let lines = Seq::new(n, |k: int| line_read(x, s, r + k));
    if n == 1 {
        assert(line_read(x, s, r) + Seq::empty() =~= line_read(x, s, r));
        assert(lines[0] == line_read(x, s, r));
    } else {
        lemma_lines_read(x, s, (n - 1) as nat);
        assert(lines.drop_last() =~= Seq::new((n - 1) as nat, |k: int| line_read(x, s, r + k)));
        lemma_line_read(x, s, r + n - 1);
        assert("\n"@ =~= seq!['\n']);
        assert(r + 1 + (n - 1) - 1 == r + n - 1);
        assert(with_newlines(lines) =~= line_read(x, s, r) + middle_lines(s, r + 1, (n - 1) as nat));
    }
}

/// The selected text has a line for each line of the screen from the first to the last that is
/// selected: the letters of exactly the selected cells of that line, without white space at the end.
/// Below the screen the lines are empty.
pub proof fn law_lines_hold_the_selected_cells(x: Selection, s: ScreenView)
    requires
        s.wf(),
    ensures
        x.selected_text(s) == with_newlines(
            Seq::new(
                (x.last().0 - x.first().0 + 1) as nat,
                |k: int|
                    if x.first().0 + k < s.height {
                        text::trim_end(selected_letters(x, s, x.first().0 + k, s.width))
                    } else {
                        Seq::empty()
                    },
            ),
        ),
{
    let (r1, c1) = x.first();
    let (r2, c2) = x.last();
    let n = (r2 - r1 + 1) as nat;
    let given = Seq::new(
        n,
        |k: int|
            if x.first().0 + k < s.height {
                text::trim_end(selected_letters(x, s, x.first().0 + k, s.width))
            } else {
                Seq::empty()
            },
    );
    let lines = Seq::new(n, |k: int| line_read(x, s, r1 + k));
    assert(given =~= lines);
    lemma_line_read(x, s, r1 as int);
    lemma_line_read(x, s, r2 as int);
    if r1 == r2 {
        assert(lines[0] == line_read(x, s, r1 as int));
    } else {
        reveal_strlit("\n");
        assert("\n"@ =~= seq!['\n']);
        lemma_lines_read(x, s, (n - 1) as nat);
        assert(lines.drop_last() =~= Seq::new((n - 1) as nat, |k: int| line_read(x, s, r1 + k)));
        assert(lines.last() == line_read(x, s, r2 as int));
        assert(x.selected_text(s) =~= with_newlines(lines));
    }
}

} // verus!
