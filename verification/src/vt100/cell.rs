//! Character cells and their attributes.
use crate::text::from_chars;
use vstd::prelude::*;

verus! {

/// A colour of a cell.
#[derive(Debug, Clone, Copy, PartialEq, Eq, Structural)]
pub enum Color {
    /// The terminal's default.
    Default,
    /// A colour of the palette.
    Idx(u8),
    /// Red, green and blue.
    Rgb(u8, u8, u8),
}

/// How the text of a cell is drawn.
#[derive(Debug, Clone, Copy, PartialEq, Eq, Structural)]
pub struct Attrs {
    pub bold: bool,
    pub italic: bool,
    pub underline: bool,
    pub inverse: bool,
    pub fgcolor: Color,
    pub bgcolor: Color,
}

/// Plain text in the default colours.
pub open spec fn plain_attrs() -> Attrs {
    Attrs {
        bold: false,
        italic: false,
        underline: false,
        inverse: false,
        fgcolor: Color::Default,
        bgcolor: Color::Default,
    }
}

impl Default for Attrs {
    fn default() -> (a: Self)
        ensures
            a == plain_attrs(),
    {
        Attrs {
            bold: false,
            italic: false,
            underline: false,
            inverse: false,
            fgcolor: Color::Default,
            bgcolor: Color::Default,
        }
    }
}

/// One cell of the grid. A character that is two columns wide takes two cells, of which the second
/// is its continuation.
#[derive(Debug, Clone, Copy, PartialEq, Eq, Structural)]
pub struct Cell {
    /// The character; `NUL` in an empty cell.
    pub glyph: char,
    /// A combining mark on the character; `NUL` where there is none.
    pub mark: char,
    /// Whether the character is two columns wide.
    pub wide: bool,
    /// Whether the cell is the second half of a wide character.
    pub continuation: bool,
    /// How the cell is drawn.
    pub attrs: Attrs,
}

/// An empty cell in the given background colour.
pub open spec fn blank_cell(background: Color) -> Cell {
    Cell {
        glyph: '\0',
        mark: '\0',
        wide: false,
        continuation: false,
        attrs: Attrs { bgcolor: background, ..plain_attrs() },
    }
}

impl Cell {
    /// The cell holds text that fits its kind: an empty cell and the second half of a wide
    /// character hold none, an empty cell has but a background, a mark takes no column, and only a
    /// wide character takes two.
    pub open spec fn sound(self) -> bool {
        &&& self.glyph == '\0' && !self.continuation ==> self == blank_cell(self.attrs.bgcolor)
        &&& self.glyph == '\0' ==> self.mark == '\0' && !self.wide
        &&& self.glyph != '\0' ==> is_text(self.glyph) && char_width(self.glyph) != 0
            && !self.continuation
        &&& self.mark != '\0' ==> char_width(self.mark) == 0
        &&& self.wide ==> char_width(self.glyph) == 2
    }

    /// The characters in the cell.
    pub open spec fn chars(self) -> Seq<char> {
        if self.glyph == '\0' {
            Seq::empty()
        } else if self.mark == '\0' {
            seq![self.glyph]
        } else {
            seq![self.glyph, self.mark]
        }
    }

    /// An empty cell.
    pub fn blank(background: Color) -> (c: Cell)
        ensures
            c == blank_cell(background),
    {
        Cell {
            glyph: '\0',
            mark: '\0',
            wide: false,
            continuation: false,
            attrs: Attrs {
                bold: false,
                italic: false,
                underline: false,
                inverse: false,
                fgcolor: Color::Default,
                bgcolor: background,
            },
        }
    }

    /// The characters in the cell, as a list.
    pub fn char_list(&self) -> (v: Vec<char>)
        ensures
            v@ == self.chars(),
    {
        let mut v: Vec<char> = Vec::new();
        if self.glyph != '\0' {
            v.push(self.glyph);
            if self.mark != '\0' {
                v.push(self.mark);
            }
        }
        assert(v@ =~= self.chars());
        v
    }

    /// The text in the cell; empty in an empty cell.
    pub fn contents(&self) -> (s: String)
        ensures
            s@ == self.chars(),
    {
        let v = self.char_list();
        from_chars(&v)
    }

    /// Whether there is text in the cell.
    pub fn has_contents(&self) -> (b: bool)
        ensures
            b == (self.chars().len() > 0),
    {
        self.glyph != '\0'
    }

    /// Whether the cell is the second half of a wide character.
    pub fn is_wide_continuation(&self) -> (b: bool)
        ensures
            b == self.continuation,
    {
        self.continuation
    }

    /// Whether the cell is drawn bold.
    pub fn bold(&self) -> (b: bool)
        ensures
            b == self.attrs.bold,
    {
        self.attrs.bold
    }

    /// Whether the cell is drawn in italics.
    pub fn italic(&self) -> (b: bool)
        ensures
            b == self.attrs.italic,
    {
        self.attrs.italic
    }

    /// Whether the cell is underlined.
    pub fn underline(&self) -> (b: bool)
        ensures
            b == self.attrs.underline,
    {
        self.attrs.underline
    }

    /// Whether foreground and background are exchanged.
    pub fn inverse(&self) -> (b: bool)
        ensures
            b == self.attrs.inverse,
    {
        self.attrs.inverse
    }

    /// The foreground colour.
    pub fn fgcolor(&self) -> (c: Color)
        ensures
            c == self.attrs.fgcolor,
    {
        self.attrs.fgcolor
    }

    /// The background colour.
    pub fn bgcolor(&self) -> (c: Color)
        ensures
            c == self.attrs.bgcolor,
    {
        self.attrs.bgcolor
    }
}

/// Whether a character takes two columns: the East Asian scripts, full-width forms and emoji.
pub open spec fn is_wide_char(n: int) -> bool {
    ||| 0x1100 <= n <= 0x115f
    ||| 0x2e80 <= n <= 0x303e
    ||| 0x3041 <= n <= 0xa4cf
    ||| 0xac00 <= n <= 0xd7a3
    ||| 0xf900 <= n <= 0xfaff
    ||| 0xfe30 <= n <= 0xfe6f
    ||| 0xff00 <= n <= 0xff60
    ||| 0xffe0 <= n <= 0xffe6
    ||| 0x1f300 <= n <= 0x1f64f
    ||| 0x1f680 <= n <= 0x1f6c5
    ||| 0x1f7e0 <= n <= 0x1f7eb
    ||| 0x1f900 <= n <= 0x1f9ff
    ||| 0x1fa70 <= n <= 0x1faff
    ||| 0x20000 <= n <= 0x3fffd
}

/// Whether a character takes no column of its own: combining marks and joiners.
pub open spec fn is_mark_char(n: int) -> bool {
    ||| 0x0300 <= n <= 0x036f
    ||| 0x1ab0 <= n <= 0x1aff
    ||| 0x1dc0 <= n <= 0x1dff
    ||| 0x200b <= n <= 0x200f
    ||| 0x20d0 <= n <= 0x20ff
    ||| 0xfe00 <= n <= 0xfe0f
    ||| 0xfe20 <= n <= 0xfe2f
}

/// Whether a character is text, and not one that controls the terminal.
pub open spec fn is_text(c: char) -> bool {
    c as int >= 0x20 && c as int != 0x7f
}

/// The number of columns that a character takes.
pub open spec fn char_width(c: char) -> int {
    if is_mark_char(c as int) {
        0
    } else if is_wide_char(c as int) {
        2
    } else {
        1
    }
}

/// The number of columns that a character takes.
pub fn width_of(c: char) -> (w: u16)
    ensures
        w == char_width(c),
{
    let n: u32 = c as u32;
    if (n >= 0x0300 && n <= 0x036f) || (n >= 0x1ab0 && n <= 0x1aff) || (n >= 0x1dc0 && n <= 0x1dff)
        || (n >= 0x200b && n <= 0x200f) || (n >= 0x20d0 && n <= 0x20ff) || (n >= 0xfe00 && n
        <= 0xfe0f) || (n >= 0xfe20 && n <= 0xfe2f) {
        0
    } else if (n >= 0x1100 && n <= 0x115f) || (n >= 0x2e80 && n <= 0x303e) || (n >= 0x3041 && n
        <= 0xa4cf) || (n >= 0xac00 && n <= 0xd7a3) || (n >= 0xf900 && n <= 0xfaff) || (n >= 0xfe30
        && n <= 0xfe6f) || (n >= 0xff00 && n <= 0xff60) || (n >= 0xffe0 && n <= 0xffe6) || (n
        >= 0x1f300 && n <= 0x1f64f) || (n >= 0x1f680 && n <= 0x1f6c5) || (n >= 0x1f7e0 && n
        <= 0x1f7eb) || (n >= 0x1f900 && n <= 0x1f9ff) || (n >= 0x1fa70 && n <= 0x1faff) || (n
        >= 0x20000 && n <= 0x3fffd) {
        2
    } else {
        1
    }
}

} // verus!
