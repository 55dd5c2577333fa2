//! Drawing a screen into a part of the real terminal.
use crate::ansi;
use crate::text::from_chars;
use crate::vt100::cell;
use crate::vt100::cell::{Attrs, Cell};
use crate::vt100::draw::{Drawing, Drawn};
use crate::vt100::parser;
use crate::vt100::parser::ParserView;
use crate::vt100::redraw;
use crate::vt100::screen;
use crate::vt100::screen::{Screen, ScreenView};
use vstd::prelude::*;
use vstd::string::*;
use vstd::utf8::*;

verus! {

/// What is shown of a cell: a character, perhaps with a mark, and how it is drawn.
#[derive(Debug, Clone, Copy, PartialEq, Eq, Structural)]
pub struct Shown {
    pub glyph: char,
    /// A combining mark; `NUL` where there is none.
    pub mark: char,
    pub attrs: Attrs,
}

impl Shown {
    /// The characters that are shown.
    pub open spec fn chars(self) -> Seq<char> {
        if self.mark == '\0' {
            seq![self.glyph]
        } else {
            seq![self.glyph, self.mark]
        }
    }
}

/// A space without attributes.
pub open spec fn shown_blank() -> Shown {
    Shown { glyph: ' ', mark: '\0', attrs: cell::plain_attrs() }
}

/// What is shown of a cell; an empty one shows a space.
pub open spec fn shown_cell(c: Cell) -> Shown {
    if c.glyph == '\0' {
        Shown { glyph: ' ', mark: '\0', attrs: c.attrs }
    } else {
        Shown { glyph: c.glyph, mark: c.mark, attrs: c.attrs }
    }
}

/// What a screen shows at a line and a column; spaces off the screen.
pub open spec fn shown_at(s: ScreenView, row: int, col: int) -> Shown {
    if 0 <= row < s.height && 0 <= col < s.width {
        shown_cell(s.rows[row].cells[col])
    } else {
        shown_blank()
    }
}

/// The state of a pane: what it shows, its size, where its first cell is on the terminal (counted
/// from one), and whether everything is to be drawn again.
pub struct PaneView {
    pub shown: Seq<Seq<Shown>>,
    pub cols: u16,
    pub rows: u16,
    pub offset_row: u16,
    pub offset_col: u16,
    pub redraw: bool,
}

/// A pane that shows spaces.
pub open spec fn blank_pane(cols: u16, rows: u16, offset_row: u16, offset_col: u16) -> PaneView {
    PaneView {
        shown: Seq::new(rows as nat, |r: int| Seq::new(cols as nat, |c: int| shown_blank())),
        cols,
        rows,
        offset_row,
        offset_col,
        redraw: true,
    }
}

impl PaneView {
    /// What is shown has the size of the pane.
    pub open spec fn wf(self) -> bool {
        self.shown.len() == self.rows && forall|r: int|
            0 <= r < self.rows ==> (#[trigger] self.shown[r]).len() == self.cols
    }

    /// All cells of the pane have places on a terminal.
    pub open spec fn fits(self) -> bool {
        self.rows == 0 || self.cols == 0 || (self.offset_row + self.rows <= 0x1_0000
            && self.offset_col + self.cols <= 0x1_0000)
    }

    /// The first `n` cells of a line drawn where they have changed.
    pub open spec fn drawn_cells(self, d: Drawn, s: ScreenView, row: int, n: nat) -> Drawn
        decreases n,
    {
        if n == 0 {
            d
        } else {
            let e = self.drawn_cells(d, s, row, (n - 1) as nat);
            let now = shown_at(s, row, n - 1);
            if self.redraw || self.shown[row][n - 1] != now {
                e.with_text(
                    (self.offset_row + row) as nat,
                    (self.offset_col + n - 1) as nat,
                    now.chars(),
                    now.attrs,
                )
            } else {
                e
            }
        }
    }

    /// The first `n` lines drawn where they have changed.
    pub open spec fn drawn_lines(self, s: ScreenView, n: nat) -> Drawn
        decreases n,
    {
        if n == 0 {
            Drawn { bytes: Seq::empty(), attrs: None }
        } else {
            self.drawn_cells(self.drawn_lines(s, (n - 1) as nat), s, n - 1, self.cols as nat)
        }
    }

    /// The bytes that make the pane show a screen. Behind them text attributes are reset.
    pub open spec fn render_bytes(self, s: ScreenView) -> Seq<u8> {
        let d = self.drawn_lines(s, self.rows as nat);
        if d.attrs is Some {
            d.bytes + encode_utf8(ansi::attribute_text(ansi::Attribute::Reset))
        } else {
            d.bytes
        }
    }

    /// The pane after it was drawn: it shows the screen.
    pub open spec fn rendered(self, s: ScreenView) -> PaneView {
        PaneView {
            shown: Seq::new(
                self.rows as nat,
                |r: int| Seq::new(self.cols as nat, |c: int| shown_at(s, r, c)),
            ),
            redraw: false,
            ..self
        }
    }
}

/// Draws a screen into a part of the terminal. Cells are put in their places one by one, since the
/// terminal may be wider than the screen.
pub struct PaneRenderer {
    shown: Vec<Vec<Shown>>,
    pane_cols: u16,
    pane_rows: u16,
    offset_row: u16,
    offset_col: u16,
    force_redraw: bool,
}

impl View for PaneRenderer {
    type V = PaneView;

    closed spec fn view(&self) -> PaneView {
        PaneView {
            shown: self.shown@.map_values(|row: Vec<Shown>| row@),
            cols: self.pane_cols,
            rows: self.pane_rows,
            offset_row: self.offset_row,
            offset_col: self.offset_col,
            redraw: self.force_redraw,
        }
    }
}

fn make_blank(cols: u16, rows: u16) -> (shown: Vec<Vec<Shown>>)
    ensures
        shown@.map_values(|row: Vec<Shown>| row@) == blank_pane(cols, rows, 0, 0).shown,
{
    let blank = Shown { glyph: ' ', mark: '\0', attrs: Attrs::default() };
    let mut shown: Vec<Vec<Shown>> = Vec::new();
    let mut r: u16 = 0;
    while r < rows
        invariant
            r <= rows,
            shown.len() == r,
            blank == shown_blank(),
            forall|k: int|
                0 <= k < r ==> (#[trigger] shown@[k])@ == Seq::new(
                    cols as nat,
                    |c: int| shown_blank(),
                ),
        decreases rows - r,
    {
        let mut line: Vec<Shown> = Vec::new();
        let mut c: u16 = 0;
        while c < cols
            invariant
                c <= cols,
                line.len() == c,
                blank == shown_blank(),
                forall|k: int| 0 <= k < c ==> line@[k] == shown_blank(),
            decreases cols - c,
        {
            line.push(blank);
            c += 1;
        }
        assert(line@ =~= Seq::new(cols as nat, |c: int| shown_blank()));
        shown.push(line);
        r += 1;
    }
    assert(shown@.map_values(|row: Vec<Shown>| row@) =~= blank_pane(cols, rows, 0, 0).shown);
    shown
}

fn look_at(screen: &Screen, row: u16, col: u16) -> (s: Shown)
    requires
        screen@.wf(),
    ensures
        s == shown_at(screen@, row as int, col as int),
{
    match screen.cell(row, col) {
        Some(cell) => {
            if cell.has_contents() {
                Shown { glyph: cell.glyph, mark: cell.mark, attrs: cell.attrs }
            } else {
                Shown { glyph: ' ', mark: '\0', attrs: cell.attrs }
            }
        },
        None => Shown { glyph: ' ', mark: '\0', attrs: Attrs::default() },
    }
}

fn shown_string(s: Shown) -> (t: String)
    ensures
        t@ == s.chars(),
{
    let mut chars: Vec<char> = Vec::new();
    chars.push(s.glyph);
    if s.mark != '\0' {
        chars.push(s.mark);
    }
    assert(chars@ =~= s.chars());
    from_chars(&chars)
}

impl PaneRenderer {
    /// A renderer for a pane whose first cell is at a line and a column of the terminal, counted
    /// from one.
    pub fn new(pane_cols: u16, pane_rows: u16, offset_row: u16, offset_col: u16) -> (p: Self)
        ensures
            p@.wf(),
            p@ == blank_pane(pane_cols, pane_rows, offset_row, offset_col),
    {
        PaneRenderer {
            shown: make_blank(pane_cols, pane_rows),
            pane_cols,
            pane_rows,
            offset_row,
            offset_col,
            force_redraw: true,
        }
    }

    /// The bytes that make the pane show a screen. Only what has changed since the last time is
    /// drawn.
    pub fn render(&mut self, screen: &Screen) -> (bytes: Vec<u8>)
        requires
            old(self)@.wf(),
            old(self)@.fits(),
            screen@.wf(),
        ensures
            final(self)@.wf(),
            bytes@ == old(self)@.render_bytes(screen@),
            final(self)@ == old(self)@.rendered(screen@),
    {
        let mut d = Drawing::new();
        let ghost start = self@;
        let ghost s = screen@;
        let mut row: u16 = 0;
        while row < self.pane_rows
            invariant
                row <= self.pane_rows,
                screen@.wf(),
                s == screen@,
                start == old(self)@,
                start.wf(),
                start.fits(),
                self@ == (PaneView { shown: self@.shown, ..start }),
                self@.wf(),
                d@ == start.drawn_lines(s, row as nat),
                forall|r: int, c: int|
                    0 <= r < start.rows && 0 <= c < start.cols ==> #[trigger] self@.shown[r][c]
                        == if r < row {
                        shown_at(s, r, c)
                    } else {
                        start.shown[r][c]
                    },
            decreases self.pane_rows - row,
        {
            let mut col: u16 = 0;
            let ghost above = d@;
            while col < self.pane_cols
                invariant
                    row < self.pane_rows,
                    col <= self.pane_cols,
                    screen@.wf(),
                    s == screen@,
                    start.wf(),
                    start.fits(),
                    self@ == (PaneView { shown: self@.shown, ..start }),
                    self@.wf(),
                    d@ == start.drawn_cells(above, s, row as int, col as nat),
                    forall|r: int, c: int|
                        0 <= r < start.rows && 0 <= c < start.cols ==> #[trigger] self@.shown[r][c]
                            == if r < row || (r == row && c < col) {
                            shown_at(s, r, c)
                        } else {
                            start.shown[r][c]
                        },
                decreases self.pane_cols - col,
            {
                let now = look_at(screen, row, col);
                assert(self@.shown[row as int] == self.shown@[row as int]@);
                let before = self.shown[row as usize][col as usize];
                assert(before == self@.shown[row as int][col as int]);
                if self.force_redraw || before != now {
                    let text = shown_string(now);
                    d.draw(self.offset_row + row, self.offset_col + col, text.as_str(), now.attrs);
                    let ghost lines = self.shown@;
                    let ghost views = self@.shown;
                    self.shown[row as usize][col as usize] = now;
                    assert forall|r: int, c: int|
                        0 <= r < start.rows && 0 <= c < start.cols implies #[trigger] self@.shown[r][c]
                        == if r < row || (r == row && c < col + 1) {
                        shown_at(s, r, c)
                    } else {
                        start.shown[r][c]
                    } by {
                        assert(self@.shown[r] == self.shown@[r]@);
                        assert(views[r] == lines[r]@);
                        if r != row {
                            assert(self.shown@[r] == lines[r]);
                            assert(views[r][c] == self@.shown[r][c]);
                        } else {
                            assert(self.shown@[r]@ == lines[r]@.update(col as int, now));
                            if c != col {
                                assert(views[r][c] == self@.shown[r][c]);
                            }
                        }
                    }
                    assert forall|r: int| 0 <= r < self@.rows implies (
                    #[trigger] self@.shown[r]).len() == self@.cols by {
                        assert(self@.shown[r] == self.shown@[r]@);
                        assert(views[r] == lines[r]@);
                    }
                } else {
                    assert(self@.shown[row as int][col as int] == shown_at(
                        s,
                        row as int,
                        col as int,
                    ));
                }
                col += 1;
            }
            row += 1;
        }
        self.force_redraw = false;
        proof {
            let target = start.rendered(s).shown;
            assert forall|r: int| 0 <= r < start.rows implies self@.shown[r] =~= target[r] by {
                assert forall|c: int| 0 <= c < start.cols implies self@.shown[r][c]
                    == target[r][c] by {}
            }
            assert(self@.shown =~= target);
        }
        match d.attrs {
            Some(_) => {
                let reset = ansi::set_attribute(ansi::Attribute::Reset);
                d.push(reset.as_str());
            },
            None => {},
        }
        d.bytes
    }

    /// Makes the next rendering draw everything.
    pub fn invalidate(&mut self)
        requires
            old(self)@.wf(),
        ensures
            final(self)@.wf(),
            final(self)@ == (PaneView { redraw: true, ..old(self)@ }),
    {
        self.force_redraw = true;
    }

    /// Gives the pane another size, in the same place; the next rendering draws everything.
    pub fn resize(&mut self, pane_cols: u16, pane_rows: u16)
        requires
            old(self)@.wf(),
        ensures
            final(self)@.wf(),
            final(self)@ == blank_pane(
                pane_cols,
                pane_rows,
                old(self)@.offset_row,
                old(self)@.offset_col,
            ),
    {
        self.pane_cols = pane_cols;
        self.pane_rows = pane_rows;
        self.shown = make_blank(pane_cols, pane_rows);
        self.force_redraw = true;
    }

    /// The place on the terminal, counted from one, of a cursor on the screen, counted from zero.
    pub fn cursor_terminal_position(&self, pty_row: u16, pty_col: u16) -> (p: (u16, u16))
        requires
            self@.offset_row + pty_row <= 0xffff,
            self@.offset_col + pty_col <= 0xffff,
        ensures
            p.0 == self@.offset_row + pty_row,
            p.1 == self@.offset_col + pty_col,
    {
        (self.offset_row + pty_row, self.offset_col + pty_col)
    }
}

proof fn lemma_unchanged_line(p: PaneView, d: Drawn, s: ScreenView, row: int, n: nat)
    requires
        !p.redraw,
        0 <= row < p.rows,
        n <= p.cols,
        forall|c: int| 0 <= c < p.cols ==> #[trigger] p.shown[row][c] == shown_at(s, row, c),
    ensures
        p.drawn_cells(d, s, row, n) == d,
    decreases n,
{
    if n > 0 {
        lemma_unchanged_line(p, d, s, row, (n - 1) as nat);
        assert(p.shown[row][n - 1] == shown_at(s, row, n - 1));
    }
}

proof fn lemma_unchanged_lines(p: PaneView, s: ScreenView, n: nat)
    requires
        !p.redraw,
        n <= p.rows,
        forall|r: int, c: int|
            0 <= r < p.rows && 0 <= c < p.cols ==> #[trigger] p.shown[r][c] == shown_at(s, r, c),
    ensures
        p.drawn_lines(s, n) == (Drawn { bytes: Seq::empty(), attrs: None }),
    decreases n,
{
    if n > 0 {
        lemma_unchanged_lines(p, s, (n - 1) as nat);
        lemma_unchanged_line(p, p.drawn_lines(s, (n - 1) as nat), s, n - 1, p.cols as nat);
    }
}

/// A screen that has been drawn and has not changed since is not drawn again.
pub proof fn law_unchanged_screen_is_not_drawn_again(p: PaneView, s: ScreenView)
    ensures
        p.rendered(s).render_bytes(s) == Seq::<u8>::empty(),
        p.rendered(s).rendered(s) == p.rendered(s),
{
    let q = p.rendered(s);
    lemma_unchanged_lines(q, s, q.rows as nat);
    assert(q.rendered(s).shown =~= q.shown);
}

/// The cell of a terminal that shows this character in one column.
spec fn cell_of(s: Shown) -> Cell {
    Cell { glyph: s.glyph, mark: s.mark, wide: false, continuation: false, attrs: s.attrs }
}

/// Whether a cell of a terminal shows this in one column.
pub open spec fn is_shown_in(s: Shown, c: Cell) -> bool {
    shown_cell(c) == s && !c.wide && !c.continuation
}

impl PaneView {
    /// The pane lies on a terminal.
    pub open spec fn lies_on(self, t: ScreenView) -> bool {
        &&& 1 <= self.offset_row
        &&& 1 <= self.offset_col
        &&& self.offset_row - 1 + self.rows <= t.height
        &&& self.offset_col - 1 + self.cols <= t.width
    }

    /// The cell of a terminal that stands at a line and a column of the pane.
    pub open spec fn place(self, t: ScreenView, r: int, c: int) -> Cell {
        t.rows[self.offset_row - 1 + r].cells[self.offset_col - 1 + c]
    }

    /// Whether a cell of a terminal belongs to the pane.
    pub open spec fn covers(self, row: int, col: int) -> bool {
        &&& self.offset_row - 1 <= row < self.offset_row - 1 + self.rows
        &&& self.offset_col - 1 <= col < self.offset_col - 1 + self.cols
    }

    /// Whether the pane shows on a terminal what it is meant to show.
    pub open spec fn is_shown_on(self, t: ScreenView) -> bool {
        forall|r: int, c: int|
            0 <= r < self.rows && 0 <= c < self.cols ==> is_shown_in(
                self.shown[r][c],
                #[trigger] self.place(t, r, c),
            )
    }

    /// Whether each character that the pane shows of a screen takes one column.
    pub open spec fn is_narrow(self, s: ScreenView) -> bool {
        forall|r: int, c: int|
            0 <= r < self.rows && 0 <= c < self.cols ==> cell::char_width(
                (#[trigger] shown_at(s, r, c)).glyph,
            ) == 1
    }

    /// Whether no wide character of a terminal lies across the left or the right border.
    pub open spec fn cuts_no_character(self, t: ScreenView) -> bool {
        forall|r: int|
            0 <= r < self.rows && self.cols > 0 ==> !(#[trigger] self.place(t, r, 0)).continuation
                && !self.place(t, r, self.cols - 1).wide
    }

    /// Whether the cells that are drawn already show the screen, when the drawing is at a line and
    /// a column, and the others what the pane is meant to show.
    spec fn is_partly_shown(self, t: ScreenView, s: ScreenView, row: int, n: int) -> bool {
        forall|r: int, c: int|
            0 <= r < self.rows && 0 <= c < self.cols ==> if r < row || (r == row && c < n) {
                is_shown_in(shown_at(s, r, c), #[trigger] self.place(t, r, c))
            } else {
                !self.redraw ==> is_shown_in(self.shown[r][c], self.place(t, r, c))
            }
    }

    /// Whether the cells outside of the pane are those of another screen.
    spec fn spares(self, t: ScreenView, was: ScreenView) -> bool {
        forall|r: int, c: int|
            0 <= r < t.height && 0 <= c < t.width && !self.covers(r, c)
                ==> #[trigger] t.rows[r].cells[c] == was.rows[r].cells[c]
    }

    /// The state of a terminal while a screen is drawn into the pane, at a line and a column.
    #[verifier::opaque]
    spec fn follows(
        self,
        q: ParserView,
        was: ScreenView,
        attrs: Option<Attrs>,
        s: ScreenView,
        row: int,
        n: int,
    ) -> bool {
        &&& q.at_rest()
        &&& q.screen.height == was.height
        &&& q.screen.width == was.width
        &&& screen::grid_wf(q.screen.rows, was.height, was.width)
        &&& attrs matches Some(a) ==> q.screen.attrs == a
        &&& self.is_partly_shown(q.screen, s, row, n)
        &&& self.cuts_no_character(was) ==> self.cuts_no_character(q.screen) && self.spares(
            q.screen,
            was,
        )
    }
}

proof fn lemma_cell_of(s: ScreenView, r: int, c: int)
    requires
        s.wf(),
        cell::char_width(shown_at(s, r, c).glyph) == 1,
    ensures
        cell_of(shown_at(s, r, c)).sound(),
        shown_at(s, r, c).glyph != '\0',
        cell_of(shown_at(s, r, c)).chars() == shown_at(s, r, c).chars(),
        is_shown_in(shown_at(s, r, c), cell_of(shown_at(s, r, c))),
{
    if 0 <= r < s.height && 0 <= c < s.width {
        let cells = s.rows[r].cells;
        assert(cells.len() == s.width);
        assert(cells[c].sound()) by {
            reveal(screen::whole);
        }
    }
}

proof fn lemma_shown_further(
    v: PaneView,
    u: ScreenView,
    q: ScreenView,
    s: ScreenView,
    row: int,
    n: int,
)
    requires
        v.lies_on(q),
        screen::grid_wf(q.rows, q.height, q.width),
        0 <= row < v.rows,
        0 <= n < v.cols,
        v.is_partly_shown(q, s, row, n),
        redraw::has_cell_put(
            u,
            q,
            v.offset_row - 1 + row,
            v.offset_col - 1 + n,
            cell_of(shown_at(s, row, n)),
        ),
        is_shown_in(shown_at(s, row, n), cell_of(shown_at(s, row, n))),
    ensures
        v.is_partly_shown(u, s, row, n + 1),
{
    let y = v.offset_row - 1 + row;
    let x = v.offset_col - 1 + n;
    let was = q.rows[y].cells;
    assert(v.place(q, row, n) == was[x]);
    assert(was.len() == q.width && screen::whole(was));
    assert(was[x].sound() && !screen::torn(was, x)) by {
        reveal(screen::whole);
    }
    assert forall|r: int, c: int| 0 <= r < v.rows && 0 <= c < v.cols implies if r < row || (r
        == row && c < n + 1) {
        is_shown_in(shown_at(s, r, c), #[trigger] v.place(u, r, c))
    } else {
        !v.redraw ==> is_shown_in(v.shown[r][c], v.place(u, r, c))
    } by {
        let here = v.place(q, r, c);
        if r == row {
            assert(u.rows[y].cells[v.offset_col - 1 + c] == v.place(u, r, c));
            if c == n - 1 && was[x].continuation {
                assert(is_shown_in(shown_at(s, row, n - 1), v.place(q, row, n - 1)));
                assert(v.place(q, row, n - 1) == was[x - 1]);
            }
        } else {
            assert(u.rows[v.offset_row - 1 + r] == q.rows[v.offset_row - 1 + r]);
        }
    }
}

proof fn lemma_rest_spared(
    v: PaneView,
    u: ScreenView,
    q: ScreenView,
    was: ScreenView,
    row: int,
    n: int,
    k: Cell,
)
    requires
        v.lies_on(q),
        0 <= row < v.rows,
        0 <= n < v.cols,
        redraw::has_cell_put(u, q, v.offset_row - 1 + row, v.offset_col - 1 + n, k),
        !k.continuation,
        !k.wide,
        v.cuts_no_character(q),
        v.spares(q, was),
    ensures
        v.cuts_no_character(u),
        v.spares(u, was),
{
    let y = v.offset_row - 1 + row;
    assert forall|r: int| 0 <= r < v.rows && v.cols > 0 implies !(#[trigger] v.place(
        u,
        r,
        0,
    )).continuation && !v.place(u, r, v.cols - 1).wide by {
        let first = v.place(q, r, 0);
        if r == row {
            assert(u.rows[y].cells[v.offset_col - 1 + 0] == v.place(u, r, 0));
            assert(u.rows[y].cells[v.offset_col - 1 + (v.cols - 1)] == v.place(u, r, v.cols - 1));
        } else {
            assert(u.rows[v.offset_row - 1 + r] == q.rows[v.offset_row - 1 + r]);
        }
    }
    assert forall|r: int, c: int|
        0 <= r < u.height && 0 <= c < u.width && !v.covers(
            r,
            c,
        ) implies #[trigger] u.rows[r].cells[c] == was.rows[r].cells[c] by {
        assert(q.rows[r].cells[c] == was.rows[r].cells[c]);
        if r == y {
            let first = v.place(q, row, 0);
            let last = v.place(q, row, v.cols - 1);
        } else {
            assert(u.rows[r] == q.rows[r]);
        }
    }
}

proof fn lemma_cell_drawn(
    v: PaneView,
    p: ParserView,
    d: Drawn,
    t: ScreenView,
    s: ScreenView,
    row: int,
    n: int,
)
    requires
        s.wf(),
        t.wf(),
        v.lies_on(t),
        v.is_narrow(s),
        0 <= row < v.rows,
        0 <= n < v.cols,
        v.follows(p.fed_all(d.bytes), t, d.attrs, s, row, n),
    ensures
        ({
            let now = shown_at(s, row, n);
            let e = d.with_text(
                (v.offset_row + row) as nat,
                (v.offset_col + n) as nat,
                now.chars(),
                now.attrs,
            );
            v.follows(p.fed_all(e.bytes), t, e.attrs, s, row, n + 1)
        }),
{
    reveal(PaneView::follows);
    let now = shown_at(s, row, n);
    let k = cell_of(now);
    let y = v.offset_row - 1 + row;
    let x = v.offset_col - 1 + n;
    lemma_cell_of(s, row, n);
    redraw::lemma_narrow_text_is_drawn(p, d, y, x, k);
    let e = d.with_text((y + 1) as nat, (x + 1) as nat, now.chars(), now.attrs);
    let q = p.fed_all(d.bytes).screen;
    let u = p.fed_all(e.bytes).screen;
    lemma_shown_further(v, u, q, s, row, n);
    if v.cuts_no_character(t) {
        lemma_rest_spared(v, u, q, t, row, n, k);
    }
}

proof fn lemma_cell_passed(
    v: PaneView,
    q: ParserView,
    t: ScreenView,
    attrs: Option<Attrs>,
    s: ScreenView,
    row: int,
    n: int,
)
    requires
        0 <= row < v.rows,
        0 <= n < v.cols,
        !v.redraw,
        v.shown[row][n] == shown_at(s, row, n),
        v.follows(q, t, attrs, s, row, n),
    ensures
        v.follows(q, t, attrs, s, row, n + 1),
{
    reveal(PaneView::follows);
}

proof fn lemma_line_passed(
    v: PaneView,
    q: ParserView,
    t: ScreenView,
    attrs: Option<Attrs>,
    s: ScreenView,
    row: int,
)
    requires
        v.follows(q, t, attrs, s, row, v.cols as int),
    ensures
        v.follows(q, t, attrs, s, row + 1, 0),
{
    reveal(PaneView::follows);
}

proof fn lemma_cells_drawn(
    v: PaneView,
    p: ParserView,
    d: Drawn,
    t: ScreenView,
    s: ScreenView,
    row: int,
    n: nat,
)
    requires
        v.wf(),
        s.wf(),
        t.wf(),
        v.lies_on(t),
        v.is_narrow(s),
        0 <= row < v.rows,
        n <= v.cols,
        v.follows(p.fed_all(d.bytes), t, d.attrs, s, row, 0),
    ensures
        ({
            let e = v.drawn_cells(d, s, row, n);
            v.follows(p.fed_all(e.bytes), t, e.attrs, s, row, n as int)
        }),
    decreases n,
{
    if n > 0 {
        let m = (n - 1) as nat;
        let e = v.drawn_cells(d, s, row, m);
        let now = shown_at(s, row, m as int);
        lemma_cells_drawn(v, p, d, t, s, row, m);
        if v.redraw || v.shown[row][m as int] != now {
            lemma_cell_drawn(v, p, e, t, s, row, m as int);
        } else {
            lemma_cell_passed(v, p.fed_all(e.bytes), t, e.attrs, s, row, m as int);
        }
    }
}

proof fn lemma_lines_drawn(v: PaneView, p: ParserView, t: ScreenView, s: ScreenView, n: nat)
    requires
        v.wf(),
        s.wf(),
        t.wf(),
        v.lies_on(t),
        v.is_narrow(s),
        n <= v.rows,
        v.follows(p, t, None, s, 0, 0),
    ensures
        ({
            let e = v.drawn_lines(s, n);
            v.follows(p.fed_all(e.bytes), t, e.attrs, s, n as int, 0)
        }),
    decreases n,
{
    if n > 0 {
        let m = (n - 1) as nat;
        let e = v.drawn_lines(s, m);
        lemma_lines_drawn(v, p, t, s, m);
        lemma_cells_drawn(v, p, e, t, s, m as int, v.cols as nat);
        let f = v.drawn_lines(s, n);
        lemma_line_passed(v, p.fed_all(f.bytes), t, f.attrs, s, m as int);
    }
}

/// Drawing makes the pane show the screen on any terminal that it lies on, and leaves the rest of
/// the terminal as it is, unless a wide character lies across its border. The characters that are
/// shown have to take one column each, and a pane that is not drawn anew has to show what it was
/// last meant to show.
pub proof fn law_the_pane_shows_the_screen(v: PaneView, s: ScreenView, p: ParserView)
    requires
        v.wf(),
        s.wf(),
        p.wf(),
        p.at_rest(),
        v.lies_on(p.screen),
        v.is_narrow(s),
        !v.redraw ==> v.is_shown_on(p.screen),
    ensures
        ({
            let q = p.fed_all(v.render_bytes(s));
            &&& q.at_rest()
            &&& q.screen.height == p.screen.height
            &&& q.screen.width == p.screen.width
            &&& v.rendered(s).is_shown_on(q.screen)
            &&& v.cuts_no_character(p.screen) ==> forall|r: int, c: int|
                0 <= r < p.screen.height && 0 <= c < p.screen.width && !v.covers(r, c)
                    ==> #[trigger] q.screen.rows[r].cells[c] == p.screen.rows[r].cells[c]
        }),
{
    reveal(PaneView::follows);
    lemma_lines_drawn(v, p, p.screen, s, v.rows as nat);
    let d = v.drawn_lines(s, v.rows as nat);
    let e = p.fed_all(d.bytes);
    let q = p.fed_all(v.render_bytes(s));
    if d.attrs is Some {
        let reset = ansi::attribute_text(ansi::Attribute::Reset);
        parser::law_pieces_make_no_difference(p, d.bytes, encode_utf8(reset));
        redraw::lemma_reset_changes_only_attributes(e);
    }
    assert forall|r: int, c: int| 0 <= r < v.rows && 0 <= c < v.cols implies is_shown_in(
        v.rendered(s).shown[r][c],
        #[trigger] v.rendered(s).place(q.screen, r, c),
    ) by {
        assert(v.place(e.screen, r, c) == v.rendered(s).place(q.screen, r, c));
    }
}

} // verus!
