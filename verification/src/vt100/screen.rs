//! The screen of a terminal: a grid of cells, a cursor, and lines that have scrolled off.
use crate::vt100::cell;
use crate::vt100::cell::{width_of, Attrs, Cell, Color};
use vstd::prelude::*;

verus! {

/// A line of the grid.
pub struct Row {
    pub cells: Vec<Cell>,
    /// Whether the text runs on in the next line.
    pub wrapped: bool,
}

/// A line as a mathematical value.
pub struct RowView {
    pub cells: Seq<Cell>,
    pub wrapped: bool,
}

impl View for Row {
    type V = RowView;

    open spec fn view(&self) -> RowView {
        RowView { cells: self.cells@, wrapped: self.wrapped }
    }
}

/// The views of a list of lines.
pub open spec fn row_views(rows: Seq<Row>) -> Seq<RowView> {
    rows.map_values(|r: Row| r@)
}

/// The state of a screen. Rows and columns count from zero; a column equal to the width means that
/// the last cell of the line was just written.
pub struct ScreenView {
    pub rows: Seq<RowView>,
    pub height: int,
    pub width: int,
    pub row: int,
    pub col: int,
    pub saved_row: int,
    pub saved_col: int,
    pub saved_attrs: Attrs,
    pub attrs: Attrs,
    pub top: int,
    pub bottom: int,
    pub hidden: bool,
    pub main: Option<Seq<RowView>>,
    pub scrollback: Seq<RowView>,
    pub limit: int,
}

/// A line of empty cells.
pub open spec fn blank_row(width: int, background: Color) -> RowView {
    RowView {
        cells: Seq::new(width as nat, |i: int| cell::blank_cell(background)),
        wrapped: false,
    }
}

/// A grid of empty cells.
pub open spec fn blank_rows(height: int, width: int) -> Seq<RowView> {
    Seq::new(height as nat, |i: int| blank_row(width, Color::Default))
}

/// Whether a wide character and its second half stand at a column and behind it.
pub open spec fn paired(cells: Seq<Cell>, i: int) -> bool {
    0 <= i && i + 1 < cells.len() && cells[i].wide && cells[i + 1] == continuation_cell(
        cells[i].attrs,
    )
}

/// Whether the cell at a column shows only a part of a wide character.
pub open spec fn torn(cells: Seq<Cell>, i: int) -> bool {
    ||| cells[i].wide && !paired(cells, i)
    ||| cells[i].continuation && !paired(cells, i - 1)
    ||| !cells[i].wide && cell::char_width(cells[i].glyph) == 2 && cells.len() >= 2
}

/// Cells that hold whole characters. Where there is but one column, a wide character is cut to it.
#[verifier::opaque]
pub open spec fn whole(cells: Seq<Cell>) -> bool {
    forall|i: int| 0 <= i < cells.len() ==> (#[trigger] cells[i]).sound() && !torn(cells, i)
}

/// Cells from which the parts of wide characters are taken out.
pub open spec fn mended(cells: Seq<Cell>) -> Seq<Cell> {
    Seq::new(
        cells.len(),
        |i: int|
            if torn(cells, i) {
                emptied(cells[i])
            } else {
                cells[i]
            },
    )
}

/// Whether there is text in the last column.
pub open spec fn is_full(cells: Seq<Cell>) -> bool {
    cells.len() > 0 && (cells.last().glyph != '\0' || cells.last().continuation)
}

/// A line of the given width, of whole characters. It runs on only from text in its last column.
pub open spec fn row_wf(row: RowView, width: int) -> bool {
    row.cells.len() == width && whole(row.cells) && (row.wrapped ==> is_full(row.cells))
}

/// A grid of the given size, of valid lines. The last line runs on nowhere.
pub open spec fn grid_wf(rows: Seq<RowView>, height: int, width: int) -> bool {
    &&& rows.len() == height
    &&& forall|i: int| 0 <= i < rows.len() ==> row_wf(#[trigger] rows[i], width)
    &&& rows.len() > 0 ==> !rows.last().wrapped
}

/// The smaller number.
pub open spec fn min(a: int, b: int) -> int {
    if a < b {
        a
    } else {
        b
    }
}

/// The larger number.
pub open spec fn max(a: int, b: int) -> int {
    if a < b {
        b
    } else {
        a
    }
}

/// Cells with those from `from` up to `to` made empty.
pub open spec fn erased(cells: Seq<Cell>, from: int, to: int, blank: Cell) -> Seq<Cell> {
    Seq::new(
        cells.len(),
        |i: int|
            if from <= i < to {
                blank
            } else {
                cells[i]
            },
    )
}

/// Cells with `n` empty ones put in at a column; what no longer fits is lost.
pub open spec fn with_inserted(cells: Seq<Cell>, at: int, n: int, blank: Cell) -> Seq<Cell> {
    Seq::new(
        cells.len(),
        |i: int|
            if i < at {
                cells[i]
            } else if i < at + n {
                blank
            } else {
                cells[i - n]
            },
    )
}

/// Cells with `n` taken out at a column; empty ones come in at the end.
pub open spec fn with_deleted(cells: Seq<Cell>, at: int, n: int, blank: Cell) -> Seq<Cell> {
    Seq::new(
        cells.len(),
        |i: int|
            if i < at {
                cells[i]
            } else if i + n < cells.len() {
                cells[i + n]
            } else {
                blank
            },
    )
}

/// A line with a part made empty, in the default colours.
pub open spec fn row_erased(row: RowView, from: int, to: int) -> RowView {
    let cells = mended(erased(row.cells, from, to, cell::blank_cell(Color::Default)));
    RowView { cells, wrapped: row.wrapped && is_full(cells) }
}

/// The lines of a region moved up by one: the first is lost, an empty one comes in at the end.
pub open spec fn shifted_up(rows: Seq<RowView>, top: int, bottom: int, blank: RowView) -> Seq<
    RowView,
> {
    rows.remove(top).insert(bottom, blank)
}

/// The lines of a region moved down by one: the last is lost, an empty one comes in at the start.
/// What ran on into the lost line runs on no more.
pub open spec fn shifted_down(rows: Seq<RowView>, top: int, bottom: int, blank: RowView) -> Seq<
    RowView,
> {
    let moved = rows.remove(bottom).insert(top, blank);
    moved.update(bottom, RowView { cells: moved[bottom].cells, wrapped: false })
}

/// A line added behind those that have scrolled off, of which the oldest give way.
pub open spec fn remembered(scrollback: Seq<RowView>, row: RowView, limit: int) -> Seq<RowView> {
    let all = scrollback.push(row);
    if all.len() > limit {
        all.skip(all.len() - limit)
    } else {
        all
    }
}

/// The cell of a character just written.
pub open spec fn glyph_cell(c: char, wide: bool, attrs: Attrs) -> Cell {
    Cell { glyph: c, mark: '\0', wide, continuation: false, attrs }
}

/// The second half of a wide character.
pub open spec fn continuation_cell(attrs: Attrs) -> Cell {
    Cell { glyph: '\0', mark: '\0', wide: false, continuation: true, attrs }
}

/// A cell without its text.
pub open spec fn emptied(c: Cell) -> Cell {
    cell::blank_cell(c.attrs.bgcolor)
}

/// Cells from which a wide character that is about to be overwritten in part is taken out.
pub open spec fn without_halves(cells: Seq<Cell>, first: int, last: int) -> Seq<Cell> {
    let left = if cells[first].continuation && first > 0 {
        cells.update(first - 1, emptied(cells[first - 1]))
    } else {
        cells
    };
    if left[last].wide && last + 1 < left.len() {
        left.update(last + 1, emptied(left[last + 1]))
    } else {
        left
    }
}

/// Cells with a character written at a column.
pub open spec fn with_glyph(cells: Seq<Cell>, at: int, c: char, wide: bool, attrs: Attrs) -> Seq<
    Cell,
> {
    if wide {
        without_halves(cells, at, at + 1).update(at, glyph_cell(c, true, attrs)).update(
            at + 1,
            continuation_cell(attrs),
        )
    } else {
        without_halves(cells, at, at).update(at, glyph_cell(c, false, attrs))
    }
}

/// Cells with a combining mark put on the character in front of a column.
pub open spec fn with_mark(cells: Seq<Cell>, at: int, c: char) -> Seq<Cell> {
    if at == 0 {
        cells
    } else {
        let k = if cells[at - 1].continuation && at >= 2 {
            at - 2
        } else {
            at - 1
        };
        if cells[k].glyph != '\0' && cells[k].mark == '\0' {
            cells.update(k, Cell { mark: c, ..cells[k] })
        } else {
            cells
        }
    }
}

/// Cells cut or filled to a width.
pub open spec fn resized_cells(cells: Seq<Cell>, width: int) -> Seq<Cell> {
    Seq::new(
        width as nat,
        |i: int|
            if i < cells.len() {
                cells[i]
            } else {
                cell::blank_cell(Color::Default)
            },
    )
}

/// A line cut or filled to a width; a character that is cut in two is taken out. The line runs on
/// only where it keeps its width and is not the last one.
pub open spec fn resized_row(row: RowView, width: int, last: bool) -> RowView {
    RowView {
        cells: mended(resized_cells(row.cells, width)),
        wrapped: row.wrapped && width == row.cells.len() && !last,
    }
}

/// A grid cut or filled to a size, at the right and at the bottom.
pub open spec fn resized_rows(rows: Seq<RowView>, height: int, width: int) -> Seq<RowView> {
    Seq::new(
        height as nat,
        |i: int|
            if i < rows.len() {
                resized_row(rows[i], width, i == height - 1)
            } else {
                blank_row(width, Color::Default)
            },
    )
}

/// A fresh screen.
pub open spec fn fresh_screen(height: int, width: int, limit: int) -> ScreenView {
    ScreenView {
        rows: blank_rows(height, width),
        height,
        width,
        row: 0,
        col: 0,
        saved_row: 0,
        saved_col: 0,
        saved_attrs: cell::plain_attrs(),
        attrs: cell::plain_attrs(),
        top: 0,
        bottom: height - 1,
        hidden: false,
        main: None,
        scrollback: Seq::empty(),
        limit,
    }
}

impl ScreenView {
    /// The grids have the size of the screen and hold whole characters, the cursor is on it, the
    /// scrolling region lies in it and has two lines at least where there are two, and no more
    /// lines are remembered than allowed.
    pub open spec fn wf(self) -> bool {
        &&& 1 <= self.height <= 0xffff
        &&& 1 <= self.width <= 0xffff
        &&& grid_wf(self.rows, self.height, self.width)
        &&& 0 <= self.row < self.height
        &&& 0 <= self.col <= self.width
        &&& 0 <= self.top <= self.bottom < self.height
        &&& self.top < self.bottom || self.height == 1
        &&& self.main matches Some(m) ==> grid_wf(m, self.height, self.width)
        &&& 0 <= self.limit
        &&& self.scrollback.len() <= self.limit
    }

    /// What an erased cell looks like.
    pub open spec fn blank(self) -> Cell {
        cell::blank_cell(self.attrs.bgcolor)
    }

    /// What an erased line looks like.
    pub open spec fn blank_line(self) -> RowView {
        blank_row(self.width, self.attrs.bgcolor)
    }

    /// One line with other cells. It runs on as long as there is text in its last column.
    pub open spec fn with_cells(self, r: int, cells: Seq<Cell>) -> ScreenView {
        ScreenView {
            rows: self.rows.update(
                r,
                RowView { cells, wrapped: self.rows[r].wrapped && is_full(cells) },
            ),
            ..self
        }
    }

    /// The cursor moved to a place, kept on the screen.
    pub open spec fn moved(self, row: int, col: int) -> ScreenView {
        ScreenView {
            row: max(0, min(row, self.height - 1)),
            col: max(0, min(col, self.width - 1)),
            ..self
        }
    }

    /// The cursor moved up, not out of the scrolling region.
    pub open spec fn up(self, n: int) -> ScreenView {
        let limit = if self.row >= self.top {
            self.top
        } else {
            0
        };
        ScreenView { row: max(limit, self.row - n), ..self }
    }

    /// The cursor moved down, not out of the scrolling region.
    pub open spec fn down(self, n: int) -> ScreenView {
        let limit = if self.row <= self.bottom {
            self.bottom
        } else {
            self.height - 1
        };
        ScreenView { row: min(limit, self.row + n), ..self }
    }

    /// The cursor moved to the left.
    pub open spec fn left(self, n: int) -> ScreenView {
        ScreenView { col: max(0, min(self.col, self.width - 1) - n), ..self }
    }

    /// The cursor moved to the right.
    pub open spec fn right(self, n: int) -> ScreenView {
        ScreenView { col: min(self.width - 1, self.col + n), ..self }
    }

    /// The cursor moved to the next tab stop; there is one every eight columns.
    pub open spec fn tabbed(self) -> ScreenView {
        ScreenView { col: min(self.width - 1, (self.col / 8 + 1) * 8), ..self }
    }

    /// The lines of the scrolling region moved up. What leaves the screen at its top is
    /// remembered.
    pub open spec fn scrolled_up(self) -> ScreenView {
        ScreenView {
            rows: shifted_up(self.rows, self.top, self.bottom, self.blank_line()),
            scrollback: if self.top == 0 && self.main is None {
                remembered(self.scrollback, self.rows[0], self.limit)
            } else {
                self.scrollback
            },
            ..self
        }
    }

    /// The lines of the scrolling region moved up `n` times.
    pub open spec fn scrolled_up_by(self, n: nat) -> ScreenView
        decreases n,
    {
        if n == 0 {
            self
        } else {
            self.scrolled_up_by((n - 1) as nat).scrolled_up()
        }
    }

    /// The lines from `from` to the end of the scrolling region moved down.
    pub open spec fn shifted_down_at(self, from: int) -> ScreenView {
        ScreenView {
            rows: shifted_down(self.rows, from, self.bottom, self.blank_line()),
            ..self
        }
    }

    /// The same, `n` times.
    pub open spec fn shifted_down_by(self, from: int, n: nat) -> ScreenView
        decreases n,
    {
        if n == 0 {
            self
        } else {
            self.shifted_down_by(from, (n - 1) as nat).shifted_down_at(from)
        }
    }

    /// The lines from `from` to the end of the scrolling region moved up; nothing is remembered.
    pub open spec fn shifted_up_at(self, from: int) -> ScreenView {
        ScreenView { rows: shifted_up(self.rows, from, self.bottom, self.blank_line()), ..self }
    }

    /// The same, `n` times.
    pub open spec fn shifted_up_by(self, from: int, n: nat) -> ScreenView
        decreases n,
    {
        if n == 0 {
            self
        } else {
            self.shifted_up_by(from, (n - 1) as nat).shifted_up_at(from)
        }
    }

    /// The cursor on the next line; at the end of the scrolling region its lines move up.
    pub open spec fn line_fed(self) -> ScreenView {
        if self.row == self.bottom {
            self.scrolled_up()
        } else if self.row + 1 < self.height {
            ScreenView { row: self.row + 1, ..self }
        } else {
            self
        }
    }

    /// The cursor on the previous line; at the start of the scrolling region its lines move down.
    pub open spec fn reverse_fed(self) -> ScreenView {
        if self.row == self.top {
            self.shifted_down_at(self.top)
        } else if self.row > 0 {
            ScreenView { row: self.row - 1, ..self }
        } else {
            self
        }
    }

    /// The screen with room for `n` more columns at the cursor: where the line is full, the cursor
    /// goes to the start of the next, and the line runs on if there is text in its last column.
    pub open spec fn with_room(self, n: int) -> ScreenView {
        if self.col + n > self.width {
            let fed = (ScreenView { col: 0, ..self }).line_fed();
            if is_full(self.rows[self.row].cells) && (self.row == self.bottom || self.row + 1
                < self.height) && fed.row > 0 {
                ScreenView {
                    rows: fed.rows.update(
                        fed.row - 1,
                        RowView { cells: fed.rows[fed.row - 1].cells, wrapped: true },
                    ),
                    ..fed
                }
            } else {
                fed
            }
        } else {
            self
        }
    }

    /// A character written at the cursor, which moves behind it.
    pub open spec fn put(self, c: char, wide: bool) -> ScreenView {
        ScreenView {
            col: self.col + if wide {
                2int
            } else {
                1
            },
            ..self.with_cells(
                self.row,
                with_glyph(self.rows[self.row].cells, self.col, c, wide, self.attrs),
            )
        }
    }

    /// A character printed.
    pub open spec fn printed(self, c: char) -> ScreenView {
        if cell::char_width(c) == 0 {
            self.with_cells(self.row, with_mark(self.rows[self.row].cells, self.col, c))
        } else if cell::char_width(c) == 2 && self.width >= 2 {
            self.with_room(2).put(c, true)
        } else {
            self.with_room(1).put(c, false)
        }
    }

    /// A part of a line erased, with the characters of which it takes a half.
    pub open spec fn erased_part(self, r: int, from: int, to: int) -> ScreenView {
        self.with_cells(r, mended(erased(self.rows[r].cells, from, to, self.blank())))
    }

    /// Whole lines erased, from `from` up to `to`.
    pub open spec fn erased_lines(self, from: int, to: int) -> ScreenView {
        ScreenView {
            rows: Seq::new(
                self.rows.len(),
                |i: int|
                    if from <= i < to {
                        self.blank_line()
                    } else {
                        self.rows[i]
                    },
            ),
            ..self
        }
    }

    /// The line of the cursor erased: behind the cursor (0), up to the cursor (1) or whole (2).
    pub open spec fn line_erased(self, how: int) -> ScreenView {
        if how == 0 {
            self.erased_part(self.row, self.col, self.width)
        } else if how == 1 {
            self.erased_part(self.row, 0, self.col + 1)
        } else if how == 2 {
            self.erased_part(self.row, 0, self.width)
        } else {
            self
        }
    }

    /// The screen erased: behind the cursor (0), up to the cursor (1) or whole (2).
    pub open spec fn display_erased(self, how: int) -> ScreenView {
        if how == 0 {
            self.erased_part(self.row, self.col, self.width).erased_lines(self.row + 1, self.height)
        } else if how == 1 {
            self.erased_part(self.row, 0, self.col + 1).erased_lines(0, self.row)
        } else if how == 2 {
            self.erased_lines(0, self.height)
        } else {
            self
        }
    }

    /// Empty cells put in at the cursor.
    pub open spec fn chars_inserted(self, n: int) -> ScreenView {
        self.with_cells(
            self.row,
            mended(with_inserted(self.rows[self.row].cells, self.col, n, self.blank())),
        )
    }

    /// Cells taken out at the cursor.
    pub open spec fn chars_deleted(self, n: int) -> ScreenView {
        self.with_cells(
            self.row,
            mended(with_deleted(self.rows[self.row].cells, self.col, n, self.blank())),
        )
    }

    /// Empty lines put in at the cursor, where it is in the scrolling region.
    pub open spec fn lines_inserted(self, n: int) -> ScreenView {
        if self.top <= self.row <= self.bottom {
            self.shifted_down_by(self.row, n as nat)
        } else {
            self
        }
    }

    /// Lines taken out at the cursor, where it is in the scrolling region.
    pub open spec fn lines_deleted(self, n: int) -> ScreenView {
        if self.top <= self.row <= self.bottom {
            self.shifted_up_by(self.row, n as nat)
        } else {
            self
        }
    }

    /// The scrolling region set to the lines from `first` to `last`, where these are at least two
    /// lines of the screen; the cursor goes home.
    pub open spec fn with_region(self, first: int, last: int) -> ScreenView {
        if 0 <= first < last < self.height {
            ScreenView { top: first, bottom: last, row: 0, col: 0, ..self }
        } else {
            self
        }
    }

    /// The cursor and the attributes remembered.
    pub open spec fn cursor_saved(self) -> ScreenView {
        ScreenView {
            saved_row: self.row,
            saved_col: self.col,
            saved_attrs: self.attrs,
            ..self
        }
    }

    /// The remembered cursor and attributes put back.
    pub open spec fn cursor_restored(self) -> ScreenView {
        ScreenView {
            row: min(self.saved_row, self.height - 1),
            col: min(self.saved_col, self.width),
            attrs: self.saved_attrs,
            ..self
        }
    }

    /// The alternate screen, empty.
    pub open spec fn alternate(self) -> ScreenView {
        if self.main is None {
            ScreenView {
                main: Some(self.rows),
                rows: blank_rows(self.height, self.width),
                ..self
            }
        } else {
            self
        }
    }

    /// The main screen as it was left.
    pub open spec fn back_to_main(self) -> ScreenView {
        match self.main {
            Some(rows) => ScreenView { rows, main: None, ..self },
            None => self,
        }
    }

    /// The screen in another size: what does not fit is cut off at the right and at the bottom.
    pub open spec fn resized(self, height: int, width: int) -> ScreenView {
        ScreenView {
            rows: resized_rows(self.rows, height, width),
            height,
            width,
            row: min(self.row, height - 1),
            col: min(self.col, width),
            top: 0,
            bottom: height - 1,
            main: match self.main {
                Some(m) => Some(resized_rows(m, height, width)),
                None => None,
            },
            ..self
        }
    }
}

/// The screen of a terminal.
pub struct Screen {
    rows: Vec<Row>,
    height: u16,
    width: u16,
    row: u16,
    col: u16,
    saved_row: u16,
    saved_col: u16,
    saved_attrs: Attrs,
    attrs: Attrs,
    top: u16,
    bottom: u16,
    hidden: bool,
    main: Option<Vec<Row>>,
    scrollback: Vec<Row>,
    limit: usize,
}

impl View for Screen {
    type V = ScreenView;

    closed spec fn view(&self) -> ScreenView {
        ScreenView {
            rows: row_views(self.rows@),
            height: self.height as int,
            width: self.width as int,
            row: self.row as int,
            col: self.col as int,
            saved_row: self.saved_row as int,
            saved_col: self.saved_col as int,
            saved_attrs: self.saved_attrs,
            attrs: self.attrs,
            top: self.top as int,
            bottom: self.bottom as int,
            hidden: self.hidden,
            main: match self.main {
                Some(m) => Some(row_views(m@)),
                None => None,
            },
            scrollback: row_views(self.scrollback@),
            limit: self.limit as int,
        }
    }
}

/// A line of empty cells.
pub fn make_blank_row(width: u16, background: Color) -> (row: Row)
    ensures
        row@ == blank_row(width as int, background),
        whole(row@.cells),
{
    proof {
        lemma_blank_cells_are_whole(blank_row(width as int, background).cells, background);
    }
    let mut cells: Vec<Cell> = Vec::new();
    let mut i: u16 = 0;
    while i < width
        invariant
            i <= width,
            cells.len() == i,
            forall|k: int| 0 <= k < i ==> cells@[k] == cell::blank_cell(background),
        decreases width - i,
    {
        cells.push(Cell::blank(background));
        i += 1;
    }
    assert(cells@ =~= blank_row(width as int, background).cells);
    Row { cells, wrapped: false }
}

fn make_blank_rows(height: u16, width: u16) -> (rows: Vec<Row>)
    ensures
        row_views(rows@) == blank_rows(height as int, width as int),
        grid_wf(row_views(rows@), height as int, width as int),
{
    proof {
        lemma_blank_grid(height as int, width as int);
    }
    let mut rows: Vec<Row> = Vec::new();
    let mut i: u16 = 0;
    while i < height
        invariant
            i <= height,
            rows.len() == i,
            forall|k: int|
                0 <= k < i ==> (#[trigger] rows@[k])@ == blank_row(width as int, Color::Default),
        decreases height - i,
    {
        rows.push(make_blank_row(width, Color::Default));
        i += 1;
    }
    assert(row_views(rows@) =~= blank_rows(height as int, width as int));
    rows
}

impl Clone for Row {
    fn clone(&self) -> (r: Self)
        ensures
            r@ == self@,
    {
        let mut cells: Vec<Cell> = Vec::new();
        let mut i: usize = 0;
        while i < self.cells.len()
            invariant
                i <= self.cells.len(),
                cells@ == self.cells@.take(i as int),
            decreases self.cells.len() - i,
        {
            cells.push(self.cells[i]);
            i += 1;
            assert(self.cells@.take(i as int) =~= self.cells@.take(i - 1).push(self.cells@[i - 1]));
        }
        assert(self.cells@.take(i as int) =~= self.cells@);
        Row { cells, wrapped: self.wrapped }
    }
}

fn copy_rows(rows: &Vec<Row>) -> (copy: Vec<Row>)
    ensures
        row_views(copy@) == row_views(rows@),
{
    let mut copy: Vec<Row> = Vec::new();
    let mut i: usize = 0;
    while i < rows.len()
        invariant
            i <= rows.len(),
            copy.len() == i,
            forall|k: int| 0 <= k < i ==> (#[trigger] copy@[k])@ == rows@[k]@,
        decreases rows.len() - i,
    {
        copy.push(rows[i].clone());
        i += 1;
    }
    assert(row_views(copy@) =~= row_views(rows@));
    copy
}

impl Clone for Screen {
    fn clone(&self) -> (s: Self)
        ensures
            s@ == self@,
    {
        Screen {
            rows: copy_rows(&self.rows),
            height: self.height,
            width: self.width,
            row: self.row,
            col: self.col,
            saved_row: self.saved_row,
            saved_col: self.saved_col,
            saved_attrs: self.saved_attrs,
            attrs: self.attrs,
            top: self.top,
            bottom: self.bottom,
            hidden: self.hidden,
            main: match &self.main {
                Some(m) => Some(copy_rows(m)),
                None => None,
            },
            scrollback: copy_rows(&self.scrollback),
            limit: self.limit,
        }
    }
}

fn erase_cells(cells: &Vec<Cell>, from: usize, to: usize, blank: Cell) -> (out: Vec<Cell>)
    ensures
        out@ == erased(cells@, from as int, to as int, blank),
{
    let mut out: Vec<Cell> = Vec::new();
    let mut i: usize = 0;
    while i < cells.len()
        invariant
            i <= cells.len(),
            out.len() == i,
            forall|k: int|
                0 <= k < i ==> out@[k] == erased(cells@, from as int, to as int, blank)[k],
        decreases cells.len() - i,
    {
        if from <= i && i < to {
            out.push(blank);
        } else {
            out.push(cells[i]);
        }
        i += 1;
    }
    assert(out@ =~= erased(cells@, from as int, to as int, blank));
    out
}

fn insert_cells(cells: &Vec<Cell>, at: usize, n: usize, blank: Cell) -> (out: Vec<Cell>)
    requires
        at + n <= usize::MAX,
    ensures
        out@ == with_inserted(cells@, at as int, n as int, blank),
{
    let mut out: Vec<Cell> = Vec::new();
    let mut i: usize = 0;
    while i < cells.len()
        invariant
            i <= cells.len(),
            at + n <= usize::MAX,
            out.len() == i,
            forall|k: int|
                0 <= k < i ==> out@[k] == with_inserted(cells@, at as int, n as int, blank)[k],
        decreases cells.len() - i,
    {
        if i < at {
            out.push(cells[i]);
        } else if i < at + n {
            out.push(blank);
        } else {
            out.push(cells[i - n]);
        }
        i += 1;
    }
    assert(out@ =~= with_inserted(cells@, at as int, n as int, blank));
    out
}

fn delete_cells(cells: &Vec<Cell>, at: usize, n: usize, blank: Cell) -> (out: Vec<Cell>)
    ensures
        out@ == with_deleted(cells@, at as int, n as int, blank),
{
    let mut out: Vec<Cell> = Vec::new();
    let mut i: usize = 0;
    while i < cells.len()
        invariant
            i <= cells.len(),
            out.len() == i,
            forall|k: int|
                0 <= k < i ==> out@[k] == with_deleted(cells@, at as int, n as int, blank)[k],
        decreases cells.len() - i,
    {
        if i < at {
            out.push(cells[i]);
        } else if n < cells.len() - i {
            out.push(cells[i + n]);
        } else {
            out.push(blank);
        }
        i += 1;
    }
    assert(out@ =~= with_deleted(cells@, at as int, n as int, blank));
    out
}

/// Whether the cell at a column is a wide character with its second half behind it.
fn is_paired(cells: &Vec<Cell>, i: usize) -> (b: bool)
    requires
        i < cells.len(),
    ensures
        b == paired(cells@, i as int),
{
    if i + 1 < cells.len() && cells[i].wide {
        let half = Cell {
            glyph: '\0',
            mark: '\0',
            wide: false,
            continuation: true,
            attrs: cells[i].attrs,
        };
        cells[i + 1] == half
    } else {
        false
    }
}

fn mend_cells(cells: &Vec<Cell>) -> (out: Vec<Cell>)
    requires
        all_sound(cells@),
    ensures
        out@ == mended(cells@),
        whole(out@),
{
    proof {
        lemma_mended_is_whole(cells@);
    }
    let mut out: Vec<Cell> = Vec::new();
    let mut i: usize = 0;
    while i < cells.len()
        invariant
            i <= cells.len(),
            out.len() == i,
            forall|k: int| 0 <= k < i ==> out@[k] == mended(cells@)[k],
        decreases cells.len() - i,
    {
        let c = cells[i];
        let part = (c.wide && !is_paired(cells, i)) || (c.continuation && (i == 0 || !is_paired(
            cells,
            i - 1,
        ))) || (!c.wide && cells.len() >= 2 && width_of(c.glyph) == 2);
        assert(part == torn(cells@, i as int));
        if part {
            out.push(empty_cell(c));
        } else {
            out.push(c);
        }
        i += 1;
    }
    assert(out@ =~= mended(cells@));
    out
}

proof fn lemma_blank_cells_are_whole(cells: Seq<Cell>, background: Color)
    requires
        forall|i: int| 0 <= i < cells.len() ==> cells[i] == cell::blank_cell(background),
    ensures
        whole(cells),
{
    reveal(whole);
}

proof fn lemma_blank_grid(height: int, width: int)
    requires
        0 <= height,
        0 <= width,
    ensures
        grid_wf(blank_rows(height, width), height, width),
{
    lemma_blank_cells_are_whole(blank_row(width, Color::Default).cells, Color::Default);
}

/// Whether every cell holds what fits its kind.
spec fn all_sound(cells: Seq<Cell>) -> bool {
    forall|i: int| 0 <= i < cells.len() ==> (#[trigger] cells[i]).sound()
}

proof fn lemma_whole_is_sound(cells: Seq<Cell>)
    requires
        whole(cells),
    ensures
        all_sound(cells),
{
    reveal(whole);
}

proof fn lemma_mended_is_whole(cells: Seq<Cell>)
    requires
        all_sound(cells),
    ensures
        whole(mended(cells)),
{
    reveal(whole);
    let m = mended(cells);
    assert forall|i: int| 0 <= i < m.len() implies (#[trigger] m[i]).sound() && !torn(m, i) by {
        assert(cells[i].sound());
        if !torn(cells, i) {
            if cells[i].wide {
                assert(!torn(cells, i + 1));
            }
            if cells[i].continuation {
                assert(cells[i - 1].sound());
                assert(!torn(cells, i - 1));
            }
        }
    }
}

fn empty_cell(c: Cell) -> (e: Cell)
    ensures
        e == emptied(c),
{
    Cell::blank(c.attrs.bgcolor)
}

/// Erasing leaves whole characters.
pub proof fn lemma_erasing_keeps_whole(cells: Seq<Cell>, from: int, to: int, background: Color)
    requires
        whole(cells),
    ensures
        whole(mended(erased(cells, from, to, cell::blank_cell(background)))),
{
    lemma_whole_is_sound(cells);
    lemma_mended_is_whole(erased(cells, from, to, cell::blank_cell(background)));
}

/// A character written over whole characters leaves whole characters.
pub proof fn lemma_glyph_keeps_whole(cells: Seq<Cell>, at: int, c: char, wide: bool, attrs: Attrs)
    requires
        whole(cells),
        0 <= at,
        at + (if wide {
            2int
        } else {
            1
        }) <= cells.len(),
        cell::is_text(c),
        cell::char_width(c) != 0,
        wide == (cell::char_width(c) == 2 && cells.len() >= 2),
    ensures
        whole(with_glyph(cells, at, c, wide, attrs)),
{
    reveal(whole);
    let last = if wide {
        at + 1
    } else {
        at
    };
    let out = with_glyph(cells, at, c, wide, attrs);
    assert(cells[at].sound() && !torn(cells, at));
    assert(cells[last].sound() && !torn(cells, last));
    assert forall|i: int| 0 <= i < out.len() implies (#[trigger] out[i]).sound() && !torn(
        out,
        i,
    ) by {
        assert(cells[i].sound() && !torn(cells, i));
        if i > 0 {
            assert(cells[i - 1].sound() && !torn(cells, i - 1));
        }
        if i + 1 < cells.len() {
            assert(cells[i + 1].sound() && !torn(cells, i + 1));
        }
    }
}

/// A mark put on a character leaves whole characters.
pub proof fn lemma_mark_keeps_whole(cells: Seq<Cell>, at: int, c: char)
    requires
        whole(cells),
        0 <= at <= cells.len(),
        cell::char_width(c) == 0,
    ensures
        whole(with_mark(cells, at, c)),
{
    reveal(whole);
    let out = with_mark(cells, at, c);
    assert forall|i: int| 0 <= i < out.len() implies (#[trigger] out[i]).sound() && !torn(
        out,
        i,
    ) by {
        assert(cells[i].sound() && !torn(cells, i));
    }
}

/// A line with a part made empty, in the default colours.
pub fn erase_row(row: &Row, from: usize, to: usize) -> (out: Row)
    requires
        whole(row.cells@),
    ensures
        out@ == row_erased(row@, from as int, to as int),
        whole(out.cells@),
{
    proof {
        lemma_whole_is_sound(row.cells@);
    }
    let erased_cells = erase_cells(&row.cells, from, to, Cell::blank(Color::Default));
    let cells = mend_cells(&erased_cells);
    let wrapped = row.wrapped && full(&cells);
    Row { cells, wrapped }
}

/// Whether there is text in the last column.
pub fn full(cells: &Vec<Cell>) -> (b: bool)
    ensures
        b == is_full(cells@),
{
    let n = cells.len();
    n > 0 && (cells[n - 1].glyph != '\0' || cells[n - 1].continuation)
}

fn put_glyph(cells: &mut Vec<Cell>, at: usize, c: char, wide: bool, attrs: Attrs)
    requires
        if wide {
            at + 1 < old(cells).len()
        } else {
            at < old(cells).len()
        },
    ensures
        final(cells)@ == with_glyph(old(cells)@, at as int, c, wide, attrs),
{
    let last: usize = if wide {
        at + 1
    } else {
        at
    };
    if cells[at].continuation && at > 0 {
        let e = empty_cell(cells[at - 1]);
        cells.set(at - 1, e);
    }
    if cells[last].wide && last + 1 < cells.len() {
        let e = empty_cell(cells[last + 1]);
        cells.set(last + 1, e);
    }
    cells.set(at, Cell { glyph: c, mark: '\0', wide, continuation: false, attrs });
    if wide {
        cells.set(
            at + 1,
            Cell { glyph: '\0', mark: '\0', wide: false, continuation: true, attrs },
        );
    }
}

fn put_mark(cells: &mut Vec<Cell>, at: usize, c: char)
    requires
        at <= old(cells).len(),
    ensures
        final(cells)@ == with_mark(old(cells)@, at as int, c),
{
    if at == 0 {
        return;
    }
    let k: usize = if cells[at - 1].continuation && at >= 2 {
        at - 2
    } else {
        at - 1
    };
    let cell = cells[k];
    if cell.glyph != '\0' && cell.mark == '\0' {
        cells.set(
            k,
            Cell {
                glyph: cell.glyph,
                mark: c,
                wide: cell.wide,
                continuation: cell.continuation,
                attrs: cell.attrs,
            },
        );
    }
}

fn resize_row(row: &Row, width: u16, last: bool) -> (out: Row)
    requires
        row_wf(row@, row.cells.len() as int),
    ensures
        out@ == resized_row(row@, width as int, last),
        row_wf(out@, width as int),
        last ==> !out.wrapped,
{
    proof {
        lemma_whole_is_sound(row.cells@);
    }
    let mut cells: Vec<Cell> = Vec::new();
    let mut i: u16 = 0;
    while i < width
        invariant
            i <= width,
            cells.len() == i,
            forall|k: int|
                0 <= k < i ==> cells@[k] == resized_cells(row.cells@, width as int)[k],
        decreases width - i,
    {
        if (i as usize) < row.cells.len() {
            cells.push(row.cells[i as usize]);
        } else {
            cells.push(Cell::blank(Color::Default));
        }
        i += 1;
    }
    assert(cells@ =~= resized_cells(row.cells@, width as int));
    proof {
        if row.cells.len() == width {
            assert(cells@ =~= row.cells@);
            assert(mended(cells@) =~= row.cells@) by {
                reveal(whole);
            }
        }
    }
    let same: bool = row.cells.len() == width as usize;
    Row { cells: mend_cells(&cells), wrapped: row.wrapped && same && !last }
}

fn resize_rows(rows: &Vec<Row>, height: u16, width: u16) -> (out: Vec<Row>)
    requires
        forall|i: int|
            0 <= i < rows.len() ==> row_wf(
                #[trigger] row_views(rows@)[i],
                row_views(rows@)[i].cells.len() as int,
            ),
    ensures
        row_views(out@) == resized_rows(row_views(rows@), height as int, width as int),
        grid_wf(row_views(out@), height as int, width as int),
{
    let mut out: Vec<Row> = Vec::new();
    let mut i: u16 = 0;
    while i < height
        invariant
            i <= height,
            out.len() == i,
            forall|k: int|
                0 <= k < rows.len() ==> row_wf(
                    #[trigger] row_views(rows@)[k],
                    row_views(rows@)[k].cells.len() as int,
                ),
            forall|k: int|
                0 <= k < i ==> (#[trigger] out@[k])@ == resized_rows(
                    row_views(rows@),
                    height as int,
                    width as int,
                )[k],
            forall|k: int| 0 <= k < i ==> row_wf((#[trigger] out@[k])@, width as int),
            i == height && i > 0 ==> !out@[i - 1].wrapped,
        decreases height - i,
    {
        if (i as usize) < rows.len() {
            assert(row_views(rows@)[i as int] == rows@[i as int]@);
            out.push(resize_row(&rows[i as usize], width, i == height - 1));
        } else {
            out.push(make_blank_row(width, Color::Default));
        }
        i += 1;
    }
    assert(row_views(out@) =~= resized_rows(row_views(rows@), height as int, width as int));
    out
}

impl Screen {
    /// An empty screen. A screen has at least one line and one column.
    pub fn new(height: u16, width: u16, limit: usize) -> (s: Screen)
        ensures
            s@.wf(),
            s@ == fresh_screen(max(1, height as int), max(1, width as int), limit as int),
    {
        let h: u16 = if height == 0 {
            1
        } else {
            height
        };
        let w: u16 = if width == 0 {
            1
        } else {
            width
        };
        let s = Screen {
            rows: make_blank_rows(h, w),
            height: h,
            width: w,
            row: 0,
            col: 0,
            saved_row: 0,
            saved_col: 0,
            saved_attrs: Attrs::default(),
            attrs: Attrs::default(),
            top: 0,
            bottom: h - 1,
            hidden: false,
            main: None,
            scrollback: Vec::new(),
            limit,
        };
        assert(s@.scrollback =~= Seq::empty());
        s
    }

    fn set_row(&mut self, r: u16, row: Row)
        requires
            old(self)@.wf(),
            r < old(self)@.height,
            row_wf(row@, old(self)@.width),
            r == old(self)@.height - 1 ==> !row.wrapped,
        ensures
            final(self)@.wf(),
            final(self)@ == (ScreenView {
                rows: old(self)@.rows.update(r as int, row@),
                ..old(self)@
            }),
    {
        self.rows[r as usize] = row;
        assert(self@.rows =~= old(self)@.rows.update(r as int, row@));
    }

    fn take_row(&mut self, r: u16) -> (row: Row)
        requires
            old(self)@.wf(),
            r < old(self)@.height,
        ensures
            row@ == old(self)@.rows[r as int],
            final(self)@ == old(self)@,
    {
        let row = self.rows[r as usize].clone();
        row
    }

    /// Moves the cursor to a place, kept on the screen.
    pub fn move_to(&mut self, row: u16, col: u16)
        requires
            old(self)@.wf(),
        ensures
            final(self)@.wf(),
            final(self)@ == old(self)@.moved(row as int, col as int),
    {
        self.row = if row < self.height {
            row
        } else {
            self.height - 1
        };
        self.col = if col < self.width {
            col
        } else {
            self.width - 1
        };
    }

    /// Moves the cursor up.
    pub fn move_up(&mut self, n: u16)
        requires
            old(self)@.wf(),
        ensures
            final(self)@.wf(),
            final(self)@ == old(self)@.up(n as int),
    {
        let limit: u16 = if self.row >= self.top {
            self.top
        } else {
            0
        };
        self.row = if self.row - limit >= n {
            self.row - n
        } else {
            limit
        };
    }

    /// Moves the cursor down.
    pub fn move_down(&mut self, n: u16)
        requires
            old(self)@.wf(),
        ensures
            final(self)@.wf(),
            final(self)@ == old(self)@.down(n as int),
    {
        let limit: u16 = if self.row <= self.bottom {
            self.bottom
        } else {
            self.height - 1
        };
        self.row = if limit - self.row >= n {
            self.row + n
        } else {
            limit
        };
    }

    /// Moves the cursor to the left.
    pub fn move_left(&mut self, n: u16)
        requires
            old(self)@.wf(),
        ensures
            final(self)@.wf(),
            final(self)@ == old(self)@.left(n as int),
    {
        let col: u16 = if self.col < self.width {
            self.col
        } else {
            self.width - 1
        };
        self.col = if col >= n {
            col - n
        } else {
            0
        };
    }

    /// Moves the cursor to the right.
    pub fn move_right(&mut self, n: u16)
        requires
            old(self)@.wf(),
        ensures
            final(self)@.wf(),
            final(self)@ == old(self)@.right(n as int),
    {
        let last: u16 = self.width - 1;
        self.col = if self.col <= last && last - self.col >= n {
            self.col + n
        } else {
            last
        };
    }

    /// Moves the cursor to the start of the line.
    pub fn carriage_return(&mut self)
        requires
            old(self)@.wf(),
        ensures
            final(self)@.wf(),
            final(self)@ == (ScreenView { col: 0, ..old(self)@ }),
    {
        self.col = 0;
    }

    /// Moves the cursor back by one column.
    pub fn backspace(&mut self)
        requires
            old(self)@.wf(),
        ensures
            final(self)@.wf(),
            final(self)@ == (ScreenView { col: max(0, old(self)@.col - 1), ..old(self)@ }),
    {
        if self.col > 0 {
            self.col = self.col - 1;
        }
    }

    /// Moves the cursor to the next tab stop.
    pub fn tab(&mut self)
        requires
            old(self)@.wf(),
        ensures
            final(self)@.wf(),
            final(self)@ == old(self)@.tabbed(),
    {
        let next: u32 = (self.col as u32 / 8 + 1) * 8;
        self.col = if next < self.width as u32 {
            next as u16
        } else {
            self.width - 1
        };
    }

    fn shift_up(&mut self, from: u16) -> (lost: Row)
        requires
            old(self)@.wf(),
            from <= old(self)@.bottom,
        ensures
            final(self)@.wf(),
            lost@ == old(self)@.rows[from as int],
            final(self)@ == old(self)@.shifted_up_at(from as int),
    {
        let blank = make_blank_row(self.width, self.attrs.bgcolor);
        let lost = self.rows.remove(from as usize);
        self.rows.insert(self.bottom as usize, blank);
        assert(self@.rows =~= old(self)@.shifted_up_at(from as int).rows);
        lost
    }

    fn shift_down(&mut self, from: u16)
        requires
            old(self)@.wf(),
            from <= old(self)@.bottom,
        ensures
            final(self)@.wf(),
            final(self)@ == old(self)@.shifted_down_at(from as int),
    {
        let blank = make_blank_row(self.width, self.attrs.bgcolor);
        let bottom = self.bottom as usize;
        let _lost = self.rows.remove(bottom);
        self.rows.insert(from as usize, blank);
        self.rows[bottom].wrapped = false;
        assert(self@.rows =~= old(self)@.shifted_down_at(from as int).rows);
    }

    fn remember(&mut self, row: Row)
        requires
            old(self)@.wf(),
        ensures
            final(self)@.wf(),
            final(self)@ == (ScreenView {
                scrollback: remembered(old(self)@.scrollback, row@, old(self)@.limit),
                ..old(self)@
            }),
    {
        let ghost before = self@.scrollback;
        let ghost view = row@;
        if self.limit == 0 {
            assert(before.push(view).skip(1) =~= before);
            return;
        }
        if self.scrollback.len() == self.limit {
            let _oldest = self.scrollback.remove(0);
            self.scrollback.push(row);
            assert(self@.scrollback =~= before.push(view).skip(1));
        } else {
            self.scrollback.push(row);
            assert(self@.scrollback =~= before.push(view));
        }
    }

    /// Moves the lines of the scrolling region up.
    pub fn scroll_up(&mut self)
        requires
            old(self)@.wf(),
        ensures
            final(self)@.wf(),
            final(self)@ == old(self)@.scrolled_up(),
    {
        let top = self.top;
        let lost = self.shift_up(top);
        if self.top == 0 && self.main.is_none() {
            self.remember(lost);
        }
    }

    /// Moves the lines of the scrolling region up, several times.
    pub fn scroll_up_by(&mut self, n: u16)
        requires
            old(self)@.wf(),
        ensures
            final(self)@.wf(),
            final(self)@ == old(self)@.scrolled_up_by(n as nat),
    {
        let mut i: u16 = 0;
        while i < n
            invariant
                i <= n,
                self@.wf(),
                self@ == old(self)@.scrolled_up_by(i as nat),
            decreases n - i,
        {
            self.scroll_up();
            i += 1;
        }
    }

    /// Moves the lines of the scrolling region down, several times.
    pub fn scroll_down_by(&mut self, n: u16)
        requires
            old(self)@.wf(),
        ensures
            final(self)@.wf(),
            final(self)@ == old(self)@.shifted_down_by(old(self)@.top, n as nat),
    {
        let top = self.top;
        self.shift_down_by(top, n);
    }

    fn shift_down_by(&mut self, from: u16, n: u16)
        requires
            old(self)@.wf(),
            from <= old(self)@.bottom,
        ensures
            final(self)@.wf(),
            final(self)@ == old(self)@.shifted_down_by(from as int, n as nat),
    {
        let mut i: u16 = 0;
        while i < n
            invariant
                i <= n,
                self@.wf(),
                from <= self@.bottom,
                self@ == old(self)@.shifted_down_by(from as int, i as nat),
            decreases n - i,
        {
            self.shift_down(from);
            i += 1;
        }
    }

    /// Puts empty lines in at the cursor.
    pub fn insert_lines(&mut self, n: u16)
        requires
            old(self)@.wf(),
        ensures
            final(self)@.wf(),
            final(self)@ == old(self)@.lines_inserted(n as int),
    {
        if self.top <= self.row && self.row <= self.bottom {
            let row = self.row;
            self.shift_down_by(row, n);
        }
    }

    /// Takes lines out at the cursor.
    pub fn delete_lines(&mut self, n: u16)
        requires
            old(self)@.wf(),
        ensures
            final(self)@.wf(),
            final(self)@ == old(self)@.lines_deleted(n as int),
    {
        if self.top <= self.row && self.row <= self.bottom {
            let row = self.row;
            let mut i: u16 = 0;
            while i < n
                invariant
                    i <= n,
                    self@.wf(),
                    row <= self@.bottom,
                    self@ == old(self)@.shifted_up_by(row as int, i as nat),
                decreases n - i,
            {
                let _lost = self.shift_up(row);
                i += 1;
            }
        }
    }

    /// Moves the cursor to the next line.
    pub fn line_feed(&mut self)
        requires
            old(self)@.wf(),
        ensures
            final(self)@.wf(),
            final(self)@ == old(self)@.line_fed(),
    {
        if self.row == self.bottom {
            self.scroll_up();
        } else if self.row < self.height - 1 {
            self.row = self.row + 1;
        }
    }

    /// Moves the cursor to the previous line.
    pub fn reverse_line_feed(&mut self)
        requires
            old(self)@.wf(),
        ensures
            final(self)@.wf(),
            final(self)@ == old(self)@.reverse_fed(),
    {
        if self.row == self.top {
            let top = self.top;
            self.shift_down(top);
        } else if self.row > 0 {
            self.row = self.row - 1;
        }
    }

    fn make_room(&mut self, n: u16)
        requires
            old(self)@.wf(),
            n <= old(self)@.width,
        ensures
            final(self)@.wf(),
            final(self)@ == old(self)@.with_room(n as int),
            final(self)@.col + n <= final(self)@.width,
    {
        if self.width - self.col < n {
            let row = self.row;
            assert(self@.rows[row as int] == self.rows@[row as int]@);
            let runs_on = full(&self.rows[row as usize].cells) && (row == self.bottom || row
                < self.height - 1);
            self.col = 0;
            self.line_feed();
            if runs_on && self.row > 0 {
                let above = self.row - 1;
                let mut line = self.take_row(above);
                assert(line@.cells == old(self)@.rows[row as int].cells);
                line.wrapped = true;
                self.set_row(above, line);
            }
        }
    }

    fn put(&mut self, c: char, wide: bool)
        requires
            old(self)@.wf(),
            old(self)@.col + (if wide {
                2int
            } else {
                1
            }) <= old(self)@.width,
            cell::is_text(c),
            cell::char_width(c) != 0,
            wide == (cell::char_width(c) == 2 && old(self)@.width >= 2),
        ensures
            final(self)@.wf(),
            final(self)@ == old(self)@.put(c, wide),
    {
        let row = self.row;
        let col = self.col;
        let attrs = self.attrs;
        assert(self@.rows[row as int] == self.rows@[row as int]@);
        proof {
            lemma_glyph_keeps_whole(self@.rows[row as int].cells, col as int, c, wide, attrs);
        }
        put_glyph(&mut self.rows[row as usize].cells, col as usize, c, wide, attrs);
        let wrapped = self.rows[row as usize].wrapped && full(&self.rows[row as usize].cells);
        self.rows[row as usize].wrapped = wrapped;
        assert(self@.rows =~= old(self)@.put(c, wide).rows);
        self.col = if wide {
            col + 2
        } else {
            col + 1
        };
    }

    /// Prints a character at the cursor.
    pub fn print(&mut self, c: char)
        requires
            old(self)@.wf(),
            cell::is_text(c),
        ensures
            final(self)@.wf(),
            final(self)@ == old(self)@.printed(c),
    {
        let w = width_of(c);
        if w == 0 {
            let row = self.row;
            let mut line = self.take_row(row);
            assert(self@.rows[row as int].cells.len() == self@.width);
            proof {
                lemma_mark_keeps_whole(line.cells@, self.col as int, c);
            }
            put_mark(&mut line.cells, self.col as usize, c);
            line.wrapped = line.wrapped && full(&line.cells);
            self.set_row(row, line);
        } else if w == 2 && self.width >= 2 {
            self.make_room(2);
            self.put(c, true);
        } else {
            self.make_room(1);
            self.put(c, false);
        }
    }

    fn erase_part(&mut self, r: u16, from: usize, to: usize)
        requires
            old(self)@.wf(),
            r < old(self)@.height,
        ensures
            final(self)@.wf(),
            final(self)@ == old(self)@.erased_part(r as int, from as int, to as int),
    {
        let blank = Cell::blank(self.attrs.bgcolor);
        let line = self.take_row(r);
        assert(self@.rows[r as int].cells.len() == self@.width);
        let cells = erase_cells(&line.cells, from, to, blank);
        proof {
            lemma_whole_is_sound(line.cells@);
        }
        let mended_cells = mend_cells(&cells);
        let wrapped = line.wrapped && full(&mended_cells);
        self.set_row(r, Row { cells: mended_cells, wrapped });
    }

    fn erase_lines(&mut self, from: u16, to: u16)
        requires
            old(self)@.wf(),
            to <= old(self)@.height,
        ensures
            final(self)@.wf(),
            final(self)@ == old(self)@.erased_lines(from as int, to as int),
    {
        let mut i: u16 = from;
        while i < to
            invariant
                self@.wf(),
                to <= self@.height,
                from <= i,
                i <= to || i == from,
                self@ == (ScreenView { rows: self@.rows, ..old(self)@ }),
                self@.rows.len() == old(self)@.rows.len(),
                forall|k: int|
                    0 <= k < self@.rows.len() ==> #[trigger] self@.rows[k] == if from <= k < i {
                        old(self)@.blank_line()
                    } else {
                        old(self)@.rows[k]
                    },
            decreases to - i,
        {
            let blank = make_blank_row(self.width, self.attrs.bgcolor);
            self.set_row(i, blank);
            i += 1;
        }
        assert(self@.rows =~= old(self)@.erased_lines(from as int, to as int).rows);
    }

    /// Erases in the line of the cursor.
    pub fn erase_in_line(&mut self, how: u16)
        requires
            old(self)@.wf(),
        ensures
            final(self)@.wf(),
            final(self)@ == old(self)@.line_erased(how as int),
    {
        let row = self.row;
        let col = self.col as usize;
        let width = self.width as usize;
        if how == 0 {
            self.erase_part(row, col, width);
        } else if how == 1 {
            self.erase_part(row, 0, col + 1);
        } else if how == 2 {
            self.erase_part(row, 0, width);
        }
    }

    /// Erases in the screen.
    pub fn erase_in_display(&mut self, how: u16)
        requires
            old(self)@.wf(),
        ensures
            final(self)@.wf(),
            final(self)@ == old(self)@.display_erased(how as int),
    {
        let row = self.row;
        let col = self.col as usize;
        let width = self.width as usize;
        let height = self.height;
        if how == 0 {
            self.erase_part(row, col, width);
            self.erase_lines(row + 1, height);
        } else if how == 1 {
            self.erase_part(row, 0, col + 1);
            self.erase_lines(0, row);
        } else if how == 2 {
            self.erase_lines(0, height);
        }
    }

    /// Puts empty cells in at the cursor.
    pub fn insert_chars(&mut self, n: u16)
        requires
            old(self)@.wf(),
        ensures
            final(self)@.wf(),
            final(self)@ == old(self)@.chars_inserted(n as int),
    {
        let row = self.row;
        let blank = Cell::blank(self.attrs.bgcolor);
        let line = self.take_row(row);
        assert(self@.rows[row as int].cells.len() == self@.width);
        let cells = insert_cells(&line.cells, self.col as usize, n as usize, blank);
        proof {
            lemma_whole_is_sound(line.cells@);
        }
        let mended_cells = mend_cells(&cells);
        let wrapped = line.wrapped && full(&mended_cells);
        self.set_row(row, Row { cells: mended_cells, wrapped });
    }

    /// Takes cells out at the cursor.
    pub fn delete_chars(&mut self, n: u16)
        requires
            old(self)@.wf(),
        ensures
            final(self)@.wf(),
            final(self)@ == old(self)@.chars_deleted(n as int),
    {
        let row = self.row;
        let blank = Cell::blank(self.attrs.bgcolor);
        let line = self.take_row(row);
        assert(self@.rows[row as int].cells.len() == self@.width);
        let cells = delete_cells(&line.cells, self.col as usize, n as usize, blank);
        proof {
            lemma_whole_is_sound(line.cells@);
        }
        let mended_cells = mend_cells(&cells);
        let wrapped = line.wrapped && full(&mended_cells);
        self.set_row(row, Row { cells: mended_cells, wrapped });
    }

    /// Erases cells from the cursor on.
    pub fn erase_chars(&mut self, n: u16)
        requires
            old(self)@.wf(),
        ensures
            final(self)@.wf(),
            final(self)@ == old(self)@.erased_part(
                old(self)@.row,
                old(self)@.col,
                old(self)@.col + n,
            ),
    {
        let row = self.row;
        let col = self.col as usize;
        self.erase_part(row, col, col + n as usize);
    }

    /// Sets the scrolling region to the lines from `first` to `last`.
    pub fn set_region(&mut self, first: u16, last: u16)
        requires
            old(self)@.wf(),
        ensures
            final(self)@.wf(),
            final(self)@ == old(self)@.with_region(first as int, last as int),
    {
        if first < last && last < self.height {
            self.top = first;
            self.bottom = last;
            self.row = 0;
            self.col = 0;
        }
    }

    /// Remembers the cursor and the attributes.
    pub fn save_cursor(&mut self)
        requires
            old(self)@.wf(),
        ensures
            final(self)@.wf(),
            final(self)@ == old(self)@.cursor_saved(),
    {
        self.saved_row = self.row;
        self.saved_col = self.col;
        self.saved_attrs = self.attrs;
    }

    /// Puts the remembered cursor and attributes back.
    pub fn restore_cursor(&mut self)
        requires
            old(self)@.wf(),
        ensures
            final(self)@.wf(),
            final(self)@ == old(self)@.cursor_restored(),
    {
        self.row = if self.saved_row < self.height - 1 {
            self.saved_row
        } else {
            self.height - 1
        };
        self.col = if self.saved_col < self.width {
            self.saved_col
        } else {
            self.width
        };
        self.attrs = self.saved_attrs;
    }

    /// Changes to the alternate screen.
    pub fn enter_alternate(&mut self)
        requires
            old(self)@.wf(),
        ensures
            final(self)@.wf(),
            final(self)@ == old(self)@.alternate(),
    {
        if self.main.is_none() {
            let mut rows = make_blank_rows(self.height, self.width);
            std::mem::swap(&mut rows, &mut self.rows);
            self.main = Some(rows);
        }
    }

    /// Changes back to the main screen.
    pub fn leave_alternate(&mut self)
        requires
            old(self)@.wf(),
        ensures
            final(self)@.wf(),
            final(self)@ == old(self)@.back_to_main(),
    {
        match self.main.take() {
            Some(rows) => {
                self.rows = rows;
            },
            None => {},
        }
    }

    /// Shows or hides the cursor.
    pub fn set_hidden(&mut self, hidden: bool)
        requires
            old(self)@.wf(),
        ensures
            final(self)@.wf(),
            final(self)@ == (ScreenView { hidden, ..old(self)@ }),
    {
        self.hidden = hidden;
    }

    /// Sets how text is drawn from now on.
    pub fn set_attrs(&mut self, attrs: Attrs)
        requires
            old(self)@.wf(),
        ensures
            final(self)@.wf(),
            final(self)@ == (ScreenView { attrs, ..old(self)@ }),
    {
        self.attrs = attrs;
    }

    /// How text is drawn now.
    pub fn attrs(&self) -> (a: Attrs)
        ensures
            a == self@.attrs,
    {
        self.attrs
    }

    /// Whether the cursor is hidden.
    pub fn hide_cursor(&self) -> (h: bool)
        ensures
            h == self@.hidden,
    {
        self.hidden
    }

    /// Gives the screen another size.
    pub fn set_size(&mut self, height: u16, width: u16)
        requires
            old(self)@.wf(),
        ensures
            final(self)@.wf(),
            final(self)@ == old(self)@.resized(max(1, height as int), max(1, width as int)),
    {
        let h: u16 = if height == 0 {
            1
        } else {
            height
        };
        let w: u16 = if width == 0 {
            1
        } else {
            width
        };
        self.rows = resize_rows(&self.rows, h, w);
        self.main = match &self.main {
            Some(m) => Some(resize_rows(m, h, w)),
            None => None,
        };
        self.height = h;
        self.width = w;
        self.top = 0;
        self.bottom = h - 1;
        if self.row > h - 1 {
            self.row = h - 1;
        }
        if self.col > w {
            self.col = w;
        }
    }

    /// Makes the screen fresh, but remembers what has scrolled off.
    pub fn reset(&mut self)
        requires
            old(self)@.wf(),
        ensures
            final(self)@.wf(),
            final(self)@ == (ScreenView {
                scrollback: old(self)@.scrollback,
                ..fresh_screen(old(self)@.height, old(self)@.width, old(self)@.limit)
            }),
    {
        self.rows = make_blank_rows(self.height, self.width);
        self.row = 0;
        self.col = 0;
        self.saved_row = 0;
        self.saved_col = 0;
        self.saved_attrs = Attrs::default();
        self.attrs = Attrs::default();
        self.top = 0;
        self.bottom = self.height - 1;
        self.hidden = false;
        self.main = None;
    }

    /// The cursor, as line and column counted from zero.
    pub fn cursor_position(&self) -> (p: (u16, u16))
        ensures
            p.0 == self@.row,
            p.1 == self@.col,
    {
        (self.row, self.col)
    }

    /// The number of lines and columns.
    pub fn size(&self) -> (p: (u16, u16))
        ensures
            p.0 == self@.height,
            p.1 == self@.width,
    {
        (self.height, self.width)
    }

    /// A line of the screen.
    pub fn line(&self, row: u16) -> (r: &Row)
        requires
            self@.wf(),
            row < self@.height,
        ensures
            r@ == self@.rows[row as int],
    {
        assert(self@.rows[row as int] == self.rows@[row as int]@);
        &self.rows[row as usize]
    }

    /// The lines that have scrolled off, the oldest first.
    pub fn scrolled_off(&self) -> (rows: &Vec<Row>)
        ensures
            row_views(rows@) == self@.scrollback,
    {
        &self.scrollback
    }

    /// The cell at a line and a column; none off the screen.
    pub fn cell(&self, row: u16, col: u16) -> (c: Option<&Cell>)
        requires
            self@.wf(),
        ensures
            match c {
                Some(cell) => row < self@.height && col < self@.width && *cell
                    == self@.rows[row as int].cells[col as int],
                None => row >= self@.height || col >= self@.width,
            },
    {
        if row < self.height && col < self.width {
            assert(self@.rows[row as int] == self.rows@[row as int]@);
            Some(&self.rows[row as usize].cells[col as usize])
        } else {
            None
        }
    }
}

} // verus!
