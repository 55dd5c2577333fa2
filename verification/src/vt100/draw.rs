//! Drawing cells with escape sequences.
use crate::ansi;
use crate::ansi::cursor_goto;
use crate::text;
use crate::text::{push_bytes, push_decimal};
use crate::vt100::cell::{Attrs, Cell, Color};
use vstd::prelude::*;
use vstd::string::*;
use vstd::utf8::*;

verus! {

/// The part of an attribute sequence that sets a foreground colour.
pub open spec fn foreground_text(color: Color) -> Seq<char> {
    match color {
        Color::Default => Seq::empty(),
        Color::Idx(i) => if i < 8 {
            ";"@ + text::decimal((30 + i) as nat)
        } else if i < 16 {
            ";"@ + text::decimal((90 + i - 8) as nat)
        } else {
            ";38;5;"@ + text::decimal(i as nat)
        },
        Color::Rgb(r, g, b) => ";38;2;"@ + text::decimal(r as nat) + ";"@ + text::decimal(g as nat)
            + ";"@ + text::decimal(b as nat),
    }
}

/// The part of an attribute sequence that sets a background colour.
pub open spec fn background_text(color: Color) -> Seq<char> {
    match color {
        Color::Default => Seq::empty(),
        Color::Idx(i) => if i < 8 {
            ";"@ + text::decimal((40 + i) as nat)
        } else if i < 16 {
            ";"@ + text::decimal((100 + i - 8) as nat)
        } else {
            ";48;5;"@ + text::decimal(i as nat)
        },
        Color::Rgb(r, g, b) => ";48;2;"@ + text::decimal(r as nat) + ";"@ + text::decimal(g as nat)
            + ";"@ + text::decimal(b as nat),
    }
}

/// A text where a condition holds, and nothing where it does not.
pub open spec fn when(condition: bool, s: Seq<char>) -> Seq<char> {
    if condition {
        s
    } else {
        Seq::empty()
    }
}

/// The sequence that sets all attributes of the text that follows.
pub open spec fn attrs_text(a: Attrs) -> Seq<char> {
    "\x1b[0"@ + when(a.bold, ";1"@) + when(a.italic, ";3"@) + when(a.underline, ";4"@) + when(
        a.inverse,
        ";7"@,
    ) + foreground_text(a.fgcolor) + background_text(a.bgcolor) + "m"@
}

fn push_color(s: &mut String, color: Color, base: u64, bright: u64, palette: &str, rgb: &str)
    requires
        base <= 40,
        bright <= 100,
    ensures
        final(s)@ == old(s)@ + (match color {
            Color::Default => Seq::empty(),
            Color::Idx(i) => if i < 8 {
                ";"@ + text::decimal((base + i) as nat)
            } else if i < 16 {
                ";"@ + text::decimal((bright + i - 8) as nat)
            } else {
                palette@ + text::decimal(i as nat)
            },
            Color::Rgb(r, g, b) => rgb@ + text::decimal(r as nat) + ";"@ + text::decimal(g as nat)
                + ";"@ + text::decimal(b as nat),
        }),
{
    let ghost before = s@;
    match color {
        Color::Default => {
            assert(before + Seq::empty() =~= before);
        },
        Color::Idx(i) => {
            if i < 8 {
                s.append(";");
                push_decimal(s, base + i as u64);
                assert(s@ =~= before + (";"@ + text::decimal((base + i) as nat)));
            } else if i < 16 {
                s.append(";");
                push_decimal(s, bright + i as u64 - 8);
                assert(s@ =~= before + (";"@ + text::decimal((bright + i - 8) as nat)));
            } else {
                s.append(palette);
                push_decimal(s, i as u64);
                assert(s@ =~= before + (palette@ + text::decimal(i as nat)));
            }
        },
        Color::Rgb(r, g, b) => {
            s.append(rgb);
            push_decimal(s, r as u64);
            s.append(";");
            push_decimal(s, g as u64);
            s.append(";");
            push_decimal(s, b as u64);
            assert(s@ =~= before + (rgb@ + text::decimal(r as nat) + ";"@ + text::decimal(g as nat)
                + ";"@ + text::decimal(b as nat)));
        },
    }
}

fn push_when(s: &mut String, condition: bool, t: &str)
    ensures
        final(s)@ == old(s)@ + when(condition, t@),
{
    if condition {
        s.append(t);
    } else {
        assert(s@ + Seq::empty() =~= s@);
    }
}

/// The sequence that sets all attributes of the text that follows.
pub fn attrs_sequence(a: Attrs) -> (s: String)
    ensures
        s@ == attrs_text(a),
{
    let mut s = "\x1b[0".to_string();
    push_when(&mut s, a.bold, ";1");
    push_when(&mut s, a.italic, ";3");
    push_when(&mut s, a.underline, ";4");
    push_when(&mut s, a.inverse, ";7");
    push_color(&mut s, a.fgcolor, 30, 90, ";38;5;", ";38;2;");
    push_color(&mut s, a.bgcolor, 40, 100, ";48;5;", ";48;2;");
    s.append("m");
    s
}

/// What has been drawn so far: the bytes, and the attributes in force after them.
pub struct Drawn {
    pub bytes: Seq<u8>,
    pub attrs: Option<Attrs>,
}

/// What draws a cell at the cursor: its text, or the sequence that makes it empty.
pub open spec fn cell_sequence(c: Cell) -> Seq<char> {
    if c.chars().len() == 0 {
        "\x1b[X"@
    } else {
        c.chars()
    }
}

impl Drawn {
    /// A text drawn at a line and a column of the terminal, counted from one. Attributes are set
    /// only where they are not in force already.
    pub open spec fn with_text(self, row: nat, col: nat, shown: Seq<char>, attrs: Attrs) -> Drawn {
        Drawn {
            bytes: self.bytes + encode_utf8(ansi::goto_text(row, col)) + (if self.attrs == Some(
                attrs,
            ) {
                Seq::empty()
            } else {
                encode_utf8(attrs_text(attrs))
            }) + encode_utf8(shown),
            attrs: Some(attrs),
        }
    }

    /// A cell drawn at a line and a column of the terminal, counted from one.
    pub open spec fn with_cell(self, row: nat, col: nat, c: Cell) -> Drawn {
        self.with_text(row, col, cell_sequence(c), c.attrs)
    }

    /// Characters or a sequence behind what is drawn.
    pub open spec fn then_text(self, s: Seq<char>) -> Drawn {
        Drawn { bytes: self.bytes + encode_utf8(s), attrs: self.attrs }
    }

    /// The attributes set, where they are not in force already.
    pub open spec fn with_attrs(self, attrs: Attrs) -> Drawn {
        if self.attrs == Some(attrs) {
            self
        } else {
            Drawn { bytes: self.bytes + encode_utf8(attrs_text(attrs)), attrs: Some(attrs) }
        }
    }
}

/// Bytes that draw cells, in the making.
pub struct Drawing {
    pub bytes: Vec<u8>,
    pub attrs: Option<Attrs>,
}

impl View for Drawing {
    type V = Drawn;

    open spec fn view(&self) -> Drawn {
        Drawn { bytes: self.bytes@, attrs: self.attrs }
    }
}

/// Whether the attributes in force are the given ones.
fn in_force(current: Option<Attrs>, attrs: Attrs) -> (b: bool)
    ensures
        b == (current == Some(attrs)),
{
    match current {
        Some(a) => a == attrs,
        None => false,
    }
}

impl Drawing {
    /// Nothing drawn yet.
    pub fn new() -> (d: Drawing)
        ensures
            d@ == (Drawn { bytes: Seq::empty(), attrs: None }),
    {
        let d = Drawing { bytes: Vec::new(), attrs: None };
        assert(d@.bytes =~= Seq::empty());
        d
    }

    /// Draws a text at a line and a column, counted from one.
    pub fn draw(&mut self, row: u16, col: u16, shown: &str, attrs: Attrs)
        ensures
            final(self)@ == old(self)@.with_text(row as nat, col as nat, shown@, attrs),
    {
        let goto = cursor_goto(row, col);
        push_bytes(&mut self.bytes, goto.as_str().as_bytes());
        if !in_force(self.attrs, attrs) {
            let sequence = attrs_sequence(attrs);
            push_bytes(&mut self.bytes, sequence.as_str().as_bytes());
            self.attrs = Some(attrs);
        } else {
            assert(self.bytes@ + Seq::empty() =~= self.bytes@);
        }
        push_bytes(&mut self.bytes, shown.as_bytes());
    }

    /// Draws a cell at a line and a column, counted from one.
    pub fn draw_cell(&mut self, row: u16, col: u16, c: Cell)
        ensures
            final(self)@ == old(self)@.with_cell(row as nat, col as nat, c),
    {
        if c.has_contents() {
            let text = c.contents();
            self.draw(row, col, text.as_str(), c.attrs);
        } else {
            self.draw(row, col, "\x1b[X", c.attrs);
        }
    }

    /// Appends characters or a sequence.
    pub fn push(&mut self, sequence: &str)
        ensures
            final(self)@ == old(self)@.then_text(sequence@),
    {
        push_bytes(&mut self.bytes, sequence.as_bytes());
    }

    /// Sets the attributes.
    pub fn set_attrs(&mut self, attrs: Attrs)
        ensures
            final(self)@ == old(self)@.with_attrs(attrs),
    {
        if !in_force(self.attrs, attrs) {
            let sequence = attrs_sequence(attrs);
            push_bytes(&mut self.bytes, sequence.as_str().as_bytes());
            self.attrs = Some(attrs);
        }
    }
}

} // verus!
