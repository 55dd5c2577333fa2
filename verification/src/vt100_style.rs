//! How the cells of a terminal screen are drawn.
use crate::vt100::cell;
use crate::vt100::cell::Cell;
use vstd::prelude::*;

verus! {

/// A colour that a cell is drawn in.
#[derive(Debug, Clone, Copy, PartialEq, Eq, Structural)]
pub enum Color {
    /// Dark gray.
    DarkGray,
    /// A colour of the palette.
    Indexed(u8),
    /// Red, green and blue.
    Rgb(u8, u8, u8),
}

/// How a cell is drawn. Where a colour is missing, the terminal's own is used.
#[derive(Debug, Clone, Copy, PartialEq, Eq, Structural)]
pub struct Style {
    pub fg: Option<Color>,
    pub bg: Option<Color>,
    pub bold: bool,
    pub dim: bool,
    pub italic: bool,
    pub underlined: bool,
    pub reversed: bool,
}

/// The colour that a screen's colour is drawn in.
pub open spec fn drawn_color(color: cell::Color) -> Option<Color> {
    match color {
        cell::Color::Default => None,
        cell::Color::Idx(i) => Some(Color::Indexed(i)),
        cell::Color::Rgb(r, g, b) => Some(Color::Rgb(r, g, b)),
    }
}

/// How a cell is drawn.
pub open spec fn drawn_style(c: Cell) -> Style {
    Style {
        fg: drawn_color(c.attrs.fgcolor),
        bg: drawn_color(c.attrs.bgcolor),
        bold: c.attrs.bold,
        dim: false,
        italic: c.attrs.italic,
        underlined: c.attrs.underline,
        reversed: c.attrs.inverse,
    }
}

/// How a cell is drawn.
pub fn cell_style(cell: &Cell) -> (s: Style)
    ensures
        s == drawn_style(*cell),
{
    Style {
        fg: convert_color(cell.fgcolor()),
        bg: convert_color(cell.bgcolor()),
        bold: cell.bold(),
        dim: false,
        italic: cell.italic(),
        underlined: cell.underline(),
        reversed: cell.inverse(),
    }
}

/// The colour that a screen's colour is drawn in; none for the terminal's own.
pub fn convert_color(color: cell::Color) -> (c: Option<Color>)
    ensures
        c == drawn_color(color),
{
    match color {
        cell::Color::Default => None,
        cell::Color::Idx(i) => Some(Color::Indexed(i)),
        cell::Color::Rgb(r, g, b) => Some(Color::Rgb(r, g, b)),
    }
}

/// Cells that look different are drawn differently: their colours and attributes can be told from
/// how they are drawn. The terminal's own colours are left to it, and all others are drawn as they
/// are.
pub proof fn law_styles_tell_cells_apart(a: Cell, b: Cell, i: u8, red: u8, green: u8, blue: u8)
    ensures
        drawn_style(a) == drawn_style(b) ==> a.attrs == b.attrs,
        drawn_color(cell::Color::Default) is None,
        drawn_color(cell::Color::Idx(i)) == Some(Color::Indexed(i)),
        drawn_color(cell::Color::Rgb(red, green, blue)) == Some(Color::Rgb(red, green, blue)),
        drawn_style(a).bold == a.attrs.bold,
        drawn_style(a).italic == a.attrs.italic,
        drawn_style(a).underlined == a.attrs.underline,
        drawn_style(a).reversed == a.attrs.inverse,
        drawn_style(a).fg == drawn_color(a.attrs.fgcolor),
        drawn_style(a).bg == drawn_color(a.attrs.bgcolor),
{
}

} // verus!
