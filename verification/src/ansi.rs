//! Escape sequences that move the cursor, clear and set text attributes.
use crate::text;
use crate::text::push_decimal;
use vstd::prelude::*;
use vstd::string::*;

verus! {

/// The sequence that moves the cursor to a line and a column, counted from one.
pub open spec fn goto_text(row: nat, col: nat) -> Seq<char> {
    "\x1b["@ + text::decimal(row) + ";"@ + text::decimal(col) + "H"@
}

/// Moves the cursor to a line and a column, counted from one.
pub fn cursor_goto(row: u16, col: u16) -> (s: String)
    ensures
        s@ == goto_text(row as nat, col as nat),
{
    let mut s = "\x1b[".to_string();
    push_decimal(&mut s, row as u64);
    s.append(";");
    push_decimal(&mut s, col as u64);
    s.append("H");
    s
}

/// Clears from the cursor to the end of the line.
pub fn clear_to_eol() -> (s: &'static str)
    ensures
        s@ == "\x1b[K"@,
{
    "\x1b[K"
}

/// Clears the screen and moves the cursor to its first cell.
pub fn clear_screen() -> (s: &'static str)
    ensures
        s@ == "\x1b[2J\x1b[1;1H"@,
{
    "\x1b[2J\x1b[1;1H"
}

/// Terminal text attributes.
#[derive(Debug, Clone, Copy, PartialEq, Eq, Structural)]
pub enum Attribute {
    Reset,
    Bold,
    Dim,
    /// A foreground colour (30 to 37, 90 to 97) on a background colour (40 to 47, 100 to 107).
    Colors { fg: u8, bg: u8 },
    /// Just a foreground colour.
    Fg(u8),
}

/// The sequence that sets a text attribute.
pub open spec fn attribute_text(attr: Attribute) -> Seq<char> {
    match attr {
        Attribute::Reset => "\x1b[0m"@,
        Attribute::Bold => "\x1b[1m"@,
        Attribute::Dim => "\x1b[2m"@,
        Attribute::Colors { fg, bg } => "\x1b["@ + text::decimal(fg as nat) + ";"@ + text::decimal(
            bg as nat,
        ) + "m"@,
        Attribute::Fg(fg) => "\x1b["@ + text::decimal(fg as nat) + "m"@,
    }
}

/// The escape sequence for a text attribute.
pub fn set_attribute(attr: Attribute) -> (s: String)
    ensures
        s@ == attribute_text(attr),
{
    match attr {
        Attribute::Reset => "\x1b[0m".to_string(),
        Attribute::Bold => "\x1b[1m".to_string(),
        Attribute::Dim => "\x1b[2m".to_string(),
        Attribute::Colors { fg, bg } => {
            let mut s = "\x1b[".to_string();
            push_decimal(&mut s, fg as u64);
            s.append(";");
            push_decimal(&mut s, bg as u64);
            s.append("m");
            s
        },
        Attribute::Fg(fg) => {
            let mut s = "\x1b[".to_string();
            push_decimal(&mut s, fg as u64);
            s.append("m");
            s
        },
    }
}

} // verus!
