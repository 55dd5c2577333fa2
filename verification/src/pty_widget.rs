//! The part of a screen that is shown in an area of the terminal.
use crate::selection::Selection;
use crate::vt100::screen::{Screen, ScreenView};
use crate::vt100_style;
use crate::vt100_style::{cell_style, Color, Style};
use vstd::prelude::*;
use vstd::string::*;

verus! {

/// What is drawn in one cell of the area.
#[derive(Debug)]
pub struct DrawnCell {
    pub symbol: String,
    pub style: Style,
}

/// What is drawn in one cell, as a mathematical value.
pub struct DrawnView {
    pub symbol: Seq<char>,
    pub style: Style,
}

impl View for DrawnCell {
    type V = DrawnView;

    open spec fn view(&self) -> DrawnView {
        DrawnView { symbol: self.symbol@, style: self.style }
    }
}

/// The view of an optional cell.
pub open spec fn optional_cell(c: Option<DrawnCell>) -> Option<DrawnView> {
    match c {
        Some(d) => Some(d@),
        None => None,
    }
}

/// Dim and dark gray: how the area outside the screen is drawn.
pub open spec fn gap_style() -> Style {
    Style {
        fg: Some(Color::DarkGray),
        bg: None,
        bold: false,
        dim: true,
        italic: false,
        underlined: false,
        reversed: false,
    }
}

/// The first line of the screen that is shown: where not all fit, the last ones are.
pub open spec fn first_line(s: ScreenView, height: int) -> int {
    if s.height < height {
        0
    } else {
        s.height - height
    }
}

/// Whether a place is in the selection.
pub open spec fn is_selected(selection: Option<Selection>, row: int, col: int) -> bool {
    match selection {
        Some(sel) => sel.selects(row as u16, col as u16),
        None => false,
    }
}

/// What is drawn at a line and a column of an area. The second half of a wide character is left
/// alone. Outside the screen there are dots, which are never highlighted.
pub open spec fn drawn_at(
    s: ScreenView,
    selection: Option<Selection>,
    height: int,
    row: int,
    col: int,
) -> Option<DrawnView> {
    let line = row + first_line(s, height);
    if line < s.height && col < s.width {
        let cell = s.rows[line].cells[col];
        let style = vt100_style::drawn_style(cell);
        if cell.continuation {
            None
        } else {
            Some(
                DrawnView {
                    symbol: if cell.chars().len() == 0 {
                        " "@
                    } else {
                        cell.chars()
                    },
                    style: Style {
                        reversed: style.reversed || is_selected(selection, line, col),
                        ..style
                    },
                },
            )
        }
    } else {
        Some(DrawnView { symbol: "."@, style: gap_style() })
    }
}

/// A screen to be drawn, perhaps with a selection.
pub struct PtyWidget<'a> {
    pub screen: &'a Screen,
    pub selection: Option<Selection>,
}

impl<'a> PtyWidget<'a> {
    /// A screen without a selection.
    pub fn new(screen: &'a Screen) -> (w: Self)
        ensures
            w == (PtyWidget { screen, selection: None }),
    {
        PtyWidget { screen, selection: None }
    }

    /// The screen with a selection, which is highlighted.
    pub fn with_selection(self, sel: &'a Selection) -> (w: Self)
        ensures
            w == (PtyWidget { selection: Some(*sel), ..self }),
    {
        PtyWidget { screen: self.screen, selection: Some(*sel) }
    }

    fn drawn_cell(&self, height: u16, row: u16, col: u16) -> (c: Option<DrawnCell>)
        requires
            self.screen@.wf(),
            row < height,
        ensures
            optional_cell(c) == drawn_at(
                self.screen@,
                self.selection,
                height as int,
                row as int,
                col as int,
            ),
    {
        let (pty_rows, pty_cols) = self.screen.size();
        let offset: u16 = pty_rows.saturating_sub(height);
        if row < pty_rows - offset && col < pty_cols {
            let line: u16 = row + offset;
            match self.screen.cell(line, col) {
                Some(cell) => {
                    if cell.is_wide_continuation() {
                        return None;
                    }
                    let mut style = cell_style(cell);
                    match &self.selection {
                        Some(sel) => {
                            if sel.contains(line, col) {
                                style.reversed = true;
                            }
                        },
                        None => {},
                    }
                    let symbol = if cell.has_contents() {
                        cell.contents()
                    } else {
                        " ".to_string()
                    };
                    Some(DrawnCell { symbol, style })
                },
                None => None,
            }
        } else {
            Some(
                DrawnCell {
                    symbol: ".".to_string(),
                    style: Style {
                        fg: Some(Color::DarkGray),
                        bg: None,
                        bold: false,
                        dim: true,
                        italic: false,
                        underlined: false,
                        reversed: false,
                    },
                },
            )
        }
    }

    /// What is drawn in an area of a size, line by line. Nothing is drawn where there is none.
    pub fn render(&self, width: u16, height: u16) -> (lines: Vec<Vec<Option<DrawnCell>>>)
        requires
            self.screen@.wf(),
        ensures
            lines.len() == height,
            forall|row: int| 0 <= row < height ==> (#[trigger] lines@[row]).len() == width,
            forall|row: int, col: int|
                0 <= row < height && 0 <= col < width ==> optional_cell(
                    #[trigger] lines@[row]@[col],
                ) == drawn_at(self.screen@, self.selection, height as int, row, col),
    {
        let mut lines: Vec<Vec<Option<DrawnCell>>> = Vec::new();
        let mut row: u16 = 0;
        while row < height
            invariant
                self.screen@.wf(),
                row <= height,
                lines.len() == row,
                forall|r: int| 0 <= r < row ==> (#[trigger] lines@[r]).len() == width,
                forall|r: int, c: int|
                    0 <= r < row && 0 <= c < width ==> optional_cell(#[trigger] lines@[r]@[c])
                        == drawn_at(self.screen@, self.selection, height as int, r, c),
            decreases height - row,
        {
            let mut line: Vec<Option<DrawnCell>> = Vec::new();
            let mut col: u16 = 0;
            while col < width
                invariant
                    self.screen@.wf(),
                    row < height,
                    col <= width,
                    line.len() == col,
                    forall|c: int|
                        0 <= c < col ==> optional_cell(#[trigger] line@[c]) == drawn_at(
                            self.screen@,
                            self.selection,
                            height as int,
                            row as int,
                            c,
                        ),
                decreases width - col,
            {
                line.push(self.drawn_cell(height, row, col));
                col += 1;
            }
            lines.push(line);
            row += 1;
        }
        lines
    }
}

/// Where the screen has more lines than the area, the last line of the area shows the last line of
/// the screen.
pub proof fn law_the_last_line_is_shown(
    s: ScreenView,
    selection: Option<Selection>,
    height: int,
    col: int,
)
    requires
        0 < height <= s.height,
        0 <= col < s.width,
        !s.rows[s.height - 1].cells[col].continuation,
        s.rows[s.height - 1].cells[col].chars().len() > 0,
    ensures
        drawn_at(s, selection, height, height - 1, col) matches Some(d) && d.symbol
            == s.rows[s.height - 1].cells[col].chars(),
{
}

/// Each cell of an area shows a cell of the screen, with its text, or a space where it is empty, in
/// its colours and attributes; a selected one is shown reversed. Of a screen that is higher than the
/// area the last lines are shown.
pub proof fn law_cells_are_shown_as_they_are(
    s: ScreenView,
    selection: Option<Selection>,
    height: int,
    row: int,
    col: int,
)
    requires
        s.wf(),
        0 <= row < height,
        0 <= col < s.width,
        row < s.height,
    ensures
        ({
            let line = if s.height > height {
                row + s.height - height
            } else {
                row
            };
            let c = s.rows[line].cells[col];
            let selected = selection matches Some(x) && x.selects(line as u16, col as u16);
            &&& c.continuation ==> drawn_at(s, selection, height, row, col) is None
            &&& !c.continuation ==> (drawn_at(s, selection, height, row, col) matches Some(d) && {
                &&& c.glyph == '\0' ==> d.symbol == seq![' ']
                &&& c.glyph != '\0' && c.mark == '\0' ==> d.symbol == seq![c.glyph]
                &&& c.glyph != '\0' && c.mark != '\0' ==> d.symbol == seq![c.glyph, c.mark]
                &&& d.style.reversed == (c.attrs.inverse || selected)
                &&& d.style.bold == c.attrs.bold
                &&& d.style.italic == c.attrs.italic
                &&& d.style.underlined == c.attrs.underline
                &&& d.style.fg == vt100_style::drawn_color(c.attrs.fgcolor)
                &&& d.style.bg == vt100_style::drawn_color(c.attrs.bgcolor)
                &&& !d.style.dim
            })
        }),
{
    reveal_strlit(" ");
    assert(" "@ =~= seq![' ']);
}

/// Outside of the screen dim dots are shown, selected or not.
pub proof fn law_dots_fill_the_rest(
    s: ScreenView,
    selection: Option<Selection>,
    height: int,
    row: int,
    col: int,
)
    requires
        s.wf(),
        0 <= row < height,
        0 <= col,
        row >= s.height || col >= s.width,
        height > s.height || col >= s.width,
    ensures
        drawn_at(s, selection, height, row, col) matches Some(d) && d.symbol == seq!['.']
            && d.style.dim && d.style.fg == Some(Color::DarkGray) && d.style.bg is None
            && !d.style.reversed && !d.style.bold,
{
    reveal_strlit(".");
    assert("."@ =~= seq!['.']);
}

} // verus!
