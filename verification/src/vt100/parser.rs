//! The interpreter of the byte stream that a program writes to its terminal.
use crate::vt100::cell;
use crate::vt100::cell::{Attrs, Color};
use crate::vt100::screen;
use crate::vt100::screen::{Screen, ScreenView};
use vstd::prelude::*;

verus! {

/// `char::from_u32` gives the character with a number; there is none for surrogates and above the
/// last character.
pub assume_specification[ char::from_u32 ](n: u32) -> (c: Option<char>)
    ensures
        match c {
            Some(c) => c as u32 == n,
            None => 0xd800 <= n <= 0xdfff || n > 0x10ffff,
        },
;

/// Where in an escape sequence the interpreter is.
#[derive(Debug, Clone, Copy, PartialEq, Eq, Structural)]
pub enum Mode {
    /// Outside of escape sequences.
    Ground,
    /// Behind an escape character.
    Escape,
    /// In a short sequence that is skipped.
    EscapeSkip,
    /// In a control sequence.
    Csi,
    /// In a control sequence that is skipped.
    CsiSkip,
    /// In a string such as a window title, which is skipped.
    Text,
    /// Behind an escape character in a string.
    TextEscape,
}

/// The state of the interpreter: the screen, the place in an escape sequence with its numbers and
/// its marker, and the part of a character that has arrived.
pub struct ParserView {
    pub screen: ScreenView,
    pub mode: Mode,
    pub params: Seq<u16>,
    pub marker: u8,
    pub need: u8,
    pub code: u32,
}

/// The character that stands for bytes that are no character.
pub open spec fn replacement() -> char {
    0xfffdu32 as char
}

/// The character with a number, where there is one that several bytes may stand for.
pub open spec fn char_of(code: u32) -> char {
    if code < 0x80 || 0xd800 <= code <= 0xdfff || code > 0x10ffff {
        replacement()
    } else {
        code as char
    }
}

/// The number at a place, where there is one that is not zero; else the default.
pub open spec fn param(params: Seq<u16>, i: int, default: u16) -> u16 {
    if i < params.len() && params[i] != 0 {
        params[i]
    } else {
        default
    }
}

/// Another digit behind a number, which stops growing at its limit.
pub open spec fn with_digit(n: u16, digit: int) -> u16 {
    if n * 10 + digit > 0xffff {
        0xffff
    } else {
        (n * 10 + digit) as u16
    }
}

/// A colour given by the numbers from `i` on, behind 38 or 48: the colour, if there is one, and
/// the place behind it.
pub open spec fn extended_color(params: Seq<u16>, i: int) -> (Option<Color>, int) {
    if i + 1 < params.len() && params[i] == 5 {
        (
            if params[i + 1] < 256 {
                Some(Color::Idx(params[i + 1] as u8))
            } else {
                None
            },
            i + 2,
        )
    } else if i + 3 < params.len() && params[i] == 2 {
        (
            if params[i + 1] < 256 && params[i + 2] < 256 && params[i + 3] < 256 {
                Some(
                    Color::Rgb(params[i + 1] as u8, params[i + 2] as u8, params[i + 3] as u8),
                )
            } else {
                None
            },
            i + 4,
        )
    } else {
        (None, params.len() as int)
    }
}

/// Attributes after one number of an attribute sequence that is not 38 or 48.
pub open spec fn with_attribute(a: Attrs, n: u16) -> Attrs {
    if n == 0 {
        cell::plain_attrs()
    } else if n == 1 {
        Attrs { bold: true, ..a }
    } else if n == 3 {
        Attrs { italic: true, ..a }
    } else if n == 4 {
        Attrs { underline: true, ..a }
    } else if n == 7 {
        Attrs { inverse: true, ..a }
    } else if n == 22 {
        Attrs { bold: false, ..a }
    } else if n == 23 {
        Attrs { italic: false, ..a }
    } else if n == 24 {
        Attrs { underline: false, ..a }
    } else if n == 27 {
        Attrs { inverse: false, ..a }
    } else if 30 <= n <= 37 {
        Attrs { fgcolor: Color::Idx((n - 30) as u8), ..a }
    } else if n == 39 {
        Attrs { fgcolor: Color::Default, ..a }
    } else if 40 <= n <= 47 {
        Attrs { bgcolor: Color::Idx((n - 40) as u8), ..a }
    } else if n == 49 {
        Attrs { bgcolor: Color::Default, ..a }
    } else if 90 <= n <= 97 {
        Attrs { fgcolor: Color::Idx((n - 82) as u8), ..a }
    } else if 100 <= n <= 107 {
        Attrs { bgcolor: Color::Idx((n - 92) as u8), ..a }
    } else {
        a
    }
}

/// Attributes after the numbers of an attribute sequence from `i` on.
pub open spec fn with_attributes(a: Attrs, params: Seq<u16>, i: int) -> Attrs
    decreases params.len() - i,
{
    if i < 0 || i >= params.len() {
        a
    } else if params[i] == 38 || params[i] == 48 {
        let (color, next) = extended_color(params, i + 1);
        let b = match color {
            Some(c) => if params[i] == 38 {
                Attrs { fgcolor: c, ..a }
            } else {
                Attrs { bgcolor: c, ..a }
            },
            None => a,
        };
        if next > i {
            with_attributes(b, params, next)
        } else {
            b
        }
    } else {
        with_attributes(with_attribute(a, params[i]), params, i + 1)
    }
}

/// The screen after a control character.
pub open spec fn after_control(s: ScreenView, b: u8) -> ScreenView {
    if b == 0x08 {
        ScreenView { col: screen::max(0, s.col - 1), ..s }
    } else if b == 0x09 {
        s.tabbed()
    } else if 0x0a <= b <= 0x0c {
        s.line_fed()
    } else if b == 0x0d {
        ScreenView { col: 0, ..s }
    } else {
        s
    }
}

/// The screen after a short escape sequence.
pub open spec fn after_escape(s: ScreenView, b: u8) -> ScreenView {
    if b == 0x37 {
        s.cursor_saved()
    } else if b == 0x38 {
        s.cursor_restored()
    } else if b == 0x44 {
        s.line_fed()
    } else if b == 0x45 {
        (ScreenView { col: 0, ..s }).line_fed()
    } else if b == 0x4d {
        s.reverse_fed()
    } else if b == 0x63 {
        ScreenView {
            scrollback: s.scrollback,
            ..screen::fresh_screen(s.height, s.width, s.limit)
        }
    } else {
        s
    }
}

/// The screen after one mode is switched on or off.
pub open spec fn with_mode(s: ScreenView, mode: u16, on: bool) -> ScreenView {
    if mode == 25 {
        ScreenView { hidden: !on, ..s }
    } else if mode == 47 || mode == 1047 {
        if on {
            s.alternate()
        } else {
            s.back_to_main()
        }
    } else if mode == 1049 {
        if on {
            s.cursor_saved().alternate()
        } else {
            s.back_to_main().cursor_restored()
        }
    } else {
        s
    }
}

/// The screen after the first `n` of several modes are switched on or off.
pub open spec fn with_modes(s: ScreenView, params: Seq<u16>, n: nat, on: bool) -> ScreenView
    decreases n,
{
    if n == 0 {
        s
    } else {
        with_mode(with_modes(s, params, (n - 1) as nat, on), params[n - 1], on)
    }
}

/// The screen after a control sequence that ends in `b`.
pub open spec fn after_sequence(s: ScreenView, params: Seq<u16>, marker: u8, b: u8) -> ScreenView {
    let n = param(params, 0, 1) as int;
    if marker == 0x3f {
        if b == 0x68 {
            with_modes(s, params, params.len(), true)
        } else if b == 0x6c {
            with_modes(s, params, params.len(), false)
        } else {
            s
        }
    } else if marker != 0 {
        s
    } else if b == 0x40 {
        s.chars_inserted(n)
    } else if b == 0x41 {
        s.up(n)
    } else if b == 0x42 {
        s.down(n)
    } else if b == 0x43 {
        s.right(n)
    } else if b == 0x44 {
        s.left(n)
    } else if b == 0x45 {
        ScreenView { col: 0, ..s.down(n) }
    } else if b == 0x46 {
        ScreenView { col: 0, ..s.up(n) }
    } else if b == 0x47 {
        s.moved(s.row, n - 1)
    } else if b == 0x48 || b == 0x66 {
        s.moved(n - 1, param(params, 1, 1) - 1)
    } else if b == 0x4a {
        s.display_erased(param(params, 0, 0) as int)
    } else if b == 0x4b {
        s.line_erased(param(params, 0, 0) as int)
    } else if b == 0x4c {
        s.lines_inserted(n)
    } else if b == 0x4d {
        s.lines_deleted(n)
    } else if b == 0x50 {
        s.chars_deleted(n)
    } else if b == 0x53 {
        s.scrolled_up_by(n as nat)
    } else if b == 0x54 {
        s.shifted_down_by(s.top, n as nat)
    } else if b == 0x58 {
        s.erased_part(s.row, s.col, s.col + n)
    } else if b == 0x64 {
        s.moved(n - 1, s.col)
    } else if b == 0x6d {
        ScreenView { attrs: with_attributes(s.attrs, params, 0), ..s }
    } else if b == 0x72 {
        s.with_region(n - 1, param(params, 1, s.height as u16) - 1)
    } else if b == 0x73 {
        s.cursor_saved()
    } else if b == 0x75 {
        s.cursor_restored()
    } else {
        s
    }
}

impl ParserView {
    /// The state is valid.
    pub open spec fn wf(self) -> bool {
        &&& self.screen.wf()
        &&& self.need <= 3
        &&& self.mode == Mode::Csi ==> self.params.len() > 0
        &&& self.need > 0 ==> self.code < (if self.need == 3 {
            8int
        } else if self.need == 2 {
            0x200
        } else {
            0x8000
        })
    }

    /// The start of an escape sequence.
    pub open spec fn at_escape(self) -> ParserView {
        ParserView { mode: Mode::Escape, ..self }
    }

    /// The end of an escape sequence.
    pub open spec fn at_ground(self) -> ParserView {
        ParserView { mode: Mode::Ground, ..self }
    }

    /// A byte outside of escape sequences and between characters.
    pub open spec fn in_ground(self, b: u8) -> ParserView {
        if b == 0x1b {
            self.at_escape()
        } else if b < 0x20 {
            ParserView { screen: after_control(self.screen, b), ..self }
        } else if b < 0x7f {
            ParserView { screen: self.screen.printed(b as char), ..self }
        } else if b == 0x7f {
            self
        } else if 0xc2 <= b <= 0xdf {
            ParserView { need: 1, code: (b - 0xc0) as u32, ..self }
        } else if 0xe0 <= b <= 0xef {
            ParserView { need: 2, code: (b - 0xe0) as u32, ..self }
        } else if 0xf0 <= b <= 0xf4 {
            ParserView { need: 3, code: (b - 0xf0) as u32, ..self }
        } else {
            ParserView { screen: self.screen.printed(replacement()), ..self }
        }
    }

    /// A byte behind an escape character.
    pub open spec fn in_escape(self, b: u8) -> ParserView {
        if b == 0x1b {
            self.at_escape()
        } else if b < 0x20 {
            ParserView { screen: after_control(self.screen, b), ..self }
        } else if b < 0x30 {
            ParserView { mode: Mode::EscapeSkip, ..self }
        } else if b == 0x5b {
            ParserView { mode: Mode::Csi, params: seq![0u16], marker: 0, ..self }
        } else if b == 0x5d || b == 0x50 || b == 0x58 || b == 0x5e || b == 0x5f {
            ParserView { mode: Mode::Text, ..self }
        } else {
            ParserView { screen: after_escape(self.screen, b), ..self }.at_ground()
        }
    }

    /// A byte in a control sequence.
    pub open spec fn in_sequence(self, b: u8) -> ParserView {
        if b == 0x1b {
            self.at_escape()
        } else if b < 0x20 {
            ParserView { screen: after_control(self.screen, b), ..self }
        } else if b < 0x30 {
            ParserView { mode: Mode::CsiSkip, ..self }
        } else if b <= 0x39 {
            ParserView {
                params: self.params.update(
                    self.params.len() - 1,
                    with_digit(self.params.last(), b - 0x30),
                ),
                ..self
            }
        } else if b <= 0x3b {
            ParserView { params: self.params.push(0), ..self }
        } else if b <= 0x3f {
            ParserView { marker: b, ..self }
        } else if b <= 0x7e {
            ParserView {
                screen: after_sequence(self.screen, self.params, self.marker, b),
                ..self
            }.at_ground()
        } else if b == 0x7f {
            self
        } else {
            self.at_ground()
        }
    }

    /// The state after one more byte.
    pub open spec fn fed(self, b: u8) -> ParserView {
        match self.mode {
            Mode::Ground => if self.need > 0 {
                if 0x80 <= b <= 0xbf {
                    let code = (self.code * 64 + (b - 0x80)) as u32;
                    if self.need == 1 {
                        ParserView {
                            need: 0,
                            code,
                            screen: self.screen.printed(char_of(code)),
                            ..self
                        }
                    } else {
                        ParserView { need: (self.need - 1) as u8, code, ..self }
                    }
                } else {
                    ParserView {
                        need: 0,
                        screen: self.screen.printed(replacement()),
                        ..self
                    }.in_ground(b)
                }
            } else {
                self.in_ground(b)
            },
            Mode::Escape => self.in_escape(b),
            Mode::EscapeSkip => if b == 0x1b {
                self.at_escape()
            } else if 0x30 <= b <= 0x7e {
                self.at_ground()
            } else {
                self
            },
            Mode::Csi => self.in_sequence(b),
            Mode::CsiSkip => if b == 0x1b {
                self.at_escape()
            } else if 0x40 <= b <= 0x7e {
                self.at_ground()
            } else {
                self
            },
            Mode::Text => if b == 0x1b {
                ParserView { mode: Mode::TextEscape, ..self }
            } else if b == 0x07 || b == 0x18 || b == 0x1a {
                self.at_ground()
            } else {
                self
            },
            Mode::TextEscape => if b == 0x5c {
                self.at_ground()
            } else {
                self.in_escape(b)
            },
        }
    }

    /// The state after more bytes.
    pub open spec fn fed_all(self, s: Seq<u8>) -> ParserView
        decreases s.len(),
    {
        if s.len() == 0 {
            self
        } else {
            self.fed_all(s.drop_last()).fed(s.last())
        }
    }
}

/// An interpreter that has read nothing.
pub open spec fn fresh_parser(height: u16, width: u16, limit: usize) -> ParserView {
    ParserView {
        screen: screen::fresh_screen(
            screen::max(1, height as int),
            screen::max(1, width as int),
            limit as int,
        ),
        mode: Mode::Ground,
        params: Seq::empty(),
        marker: 0,
        need: 0,
        code: 0,
    }
}

/// Bytes may come in pieces: where they are cut makes no difference.
pub proof fn law_pieces_make_no_difference(p: ParserView, a: Seq<u8>, b: Seq<u8>)
    ensures
        p.fed_all(a + b) == p.fed_all(a).fed_all(b),
    decreases b.len(),
{
    if b.len() == 0 {
        assert(a + b =~= a);
    } else {
        assert((a + b).drop_last() =~= a + b.drop_last());
        assert((a + b).last() == b.last());
        law_pieces_make_no_difference(p, a, b.drop_last());
    }
}

/// Whether two screens have the same size and remember as many lines.
pub open spec fn same_size(a: ScreenView, b: ScreenView) -> bool {
    a.height == b.height && a.width == b.width && a.limit == b.limit
}

proof fn lemma_repeats_keep_size(s: ScreenView, from: int, n: nat)
    ensures
        same_size(s.scrolled_up_by(n), s),
        same_size(s.shifted_down_by(from, n), s),
        same_size(s.shifted_up_by(from, n), s),
    decreases n,
{
    if n > 0 {
        lemma_repeats_keep_size(s, from, (n - 1) as nat);
    }
}

proof fn lemma_modes_keep_size(s: ScreenView, params: Seq<u16>, n: nat, on: bool)
    ensures
        same_size(with_modes(s, params, n, on), s),
    decreases n,
{
    if n > 0 {
        lemma_modes_keep_size(s, params, (n - 1) as nat, on);
    }
}

proof fn lemma_sequence_keeps_size(s: ScreenView, params: Seq<u16>, marker: u8, b: u8)
    ensures
        same_size(after_sequence(s, params, marker, b), s),
{
    let n = param(params, 0, 1) as nat;
    lemma_repeats_keep_size(s, s.row, n);
    lemma_repeats_keep_size(s, s.top, n);
    lemma_modes_keep_size(s, params, params.len(), true);
    lemma_modes_keep_size(s, params, params.len(), false);
}

proof fn lemma_printing_keeps_size(s: ScreenView, c: char)
    ensures
        same_size(s.printed(c), s),
{
}

proof fn lemma_controls_keep_size(s: ScreenView, b: u8)
    ensures
        same_size(after_control(s, b), s),
        same_size(after_escape(s, b), s),
{
}

proof fn lemma_byte_keeps_size(p: ParserView, b: u8)
    ensures
        same_size(p.fed(b).screen, p.screen),
{
    lemma_controls_keep_size(p.screen, b);
    lemma_sequence_keeps_size(p.screen, p.params, p.marker, b);
    lemma_printing_keeps_size(p.screen, replacement());
    lemma_printing_keeps_size(p.screen, b as char);
    let q = p.screen.printed(replacement());
    lemma_controls_keep_size(q, b);
    lemma_printing_keeps_size(q, replacement());
    lemma_printing_keeps_size(q, b as char);
    lemma_printing_keeps_size(p.screen, char_of((p.code * 64 + (b - 0x80)) as u32));
}

/// No output changes the size of the screen or how many lines it remembers.
pub proof fn law_output_keeps_the_size(p: ParserView, s: Seq<u8>)
    ensures
        same_size(p.fed_all(s).screen, p.screen),
    decreases s.len(),
{
    if s.len() > 0 {
        law_output_keeps_the_size(p, s.drop_last());
        lemma_byte_keeps_size(p.fed_all(s.drop_last()), s.last());
    }
}

/// An interpreter with its screen.
pub struct Parser {
    screen: Screen,
    mode: Mode,
    params: Vec<u16>,
    marker: u8,
    need: u8,
    code: u32,
}

impl View for Parser {
    type V = ParserView;

    closed spec fn view(&self) -> ParserView {
        ParserView {
            screen: self.screen@,
            mode: self.mode,
            params: self.params@,
            marker: self.marker,
            need: self.need,
            code: self.code,
        }
    }
}

fn param_at(params: &Vec<u16>, i: usize, default: u16) -> (n: u16)
    ensures
        n == param(params@, i as int, default),
{
    if i < params.len() && params[i] != 0 {
        params[i]
    } else {
        default
    }
}

fn read_color(params: &Vec<u16>, i: usize) -> (r: (Option<Color>, usize))
    requires
        i <= params.len(),
    ensures
        extended_color(params@, i as int) == (r.0, r.1 as int),
        i <= r.1 <= params.len(),
{
    let n = params.len();
    if n - i >= 2 && params[i] == 5 {
        let color = if params[i + 1] < 256 {
            Some(Color::Idx(params[i + 1] as u8))
        } else {
            None
        };
        (color, i + 2)
    } else if n - i >= 4 && params[i] == 2 {
        let color = if params[i + 1] < 256 && params[i + 2] < 256 && params[i + 3] < 256 {
            Some(Color::Rgb(params[i + 1] as u8, params[i + 2] as u8, params[i + 3] as u8))
        } else {
            None
        };
        (color, i + 4)
    } else {
        (None, n)
    }
}

fn apply_attribute(a: Attrs, n: u16) -> (b: Attrs)
    ensures
        b == with_attribute(a, n),
{
    let mut b = a;
    if n == 0 {
        b = Attrs::default();
    } else if n == 1 {
        b.bold = true;
    } else if n == 3 {
        b.italic = true;
    } else if n == 4 {
        b.underline = true;
    } else if n == 7 {
        b.inverse = true;
    } else if n == 22 {
        b.bold = false;
    } else if n == 23 {
        b.italic = false;
    } else if n == 24 {
        b.underline = false;
    } else if n == 27 {
        b.inverse = false;
    } else if n >= 30 && n <= 37 {
        b.fgcolor = Color::Idx((n - 30) as u8);
    } else if n == 39 {
        b.fgcolor = Color::Default;
    } else if n >= 40 && n <= 47 {
        b.bgcolor = Color::Idx((n - 40) as u8);
    } else if n == 49 {
        b.bgcolor = Color::Default;
    } else if n >= 90 && n <= 97 {
        b.fgcolor = Color::Idx((n - 82) as u8);
    } else if n >= 100 && n <= 107 {
        b.bgcolor = Color::Idx((n - 92) as u8);
    }
    b
}

fn apply_attributes(a: Attrs, params: &Vec<u16>) -> (b: Attrs)
    ensures
        b == with_attributes(a, params@, 0),
{
    let mut b = a;
    let mut i: usize = 0;
    while i < params.len()
        invariant
            i <= params.len(),
            with_attributes(b, params@, i as int) == with_attributes(a, params@, 0),
        decreases params.len() - i,
    {
        let n = params[i];
        if n == 38 || n == 48 {
            let (color, next) = read_color(params, i + 1);
            match color {
                Some(c) => {
                    if n == 38 {
                        b.fgcolor = c;
                    } else {
                        b.bgcolor = c;
                    }
                },
                None => {},
            }
            i = next;
        } else {
            b = apply_attribute(b, n);
            i += 1;
        }
    }
    b
}

fn control(s: &mut Screen, b: u8)
    requires
        old(s)@.wf(),
    ensures
        final(s)@.wf(),
        final(s)@ == after_control(old(s)@, b),
{
    if b == 0x08 {
        s.backspace();
    } else if b == 0x09 {
        s.tab();
    } else if b >= 0x0a && b <= 0x0c {
        s.line_feed();
    } else if b == 0x0d {
        s.carriage_return();
    }
}

fn escape(s: &mut Screen, b: u8)
    requires
        old(s)@.wf(),
    ensures
        final(s)@.wf(),
        final(s)@ == after_escape(old(s)@, b),
{
    if b == 0x37 {
        s.save_cursor();
    } else if b == 0x38 {
        s.restore_cursor();
    } else if b == 0x44 {
        s.line_feed();
    } else if b == 0x45 {
        s.carriage_return();
        s.line_feed();
    } else if b == 0x4d {
        s.reverse_line_feed();
    } else if b == 0x63 {
        s.reset();
    }
}

fn switch_mode(s: &mut Screen, mode: u16, on: bool)
    requires
        old(s)@.wf(),
    ensures
        final(s)@.wf(),
        final(s)@ == with_mode(old(s)@, mode, on),
{
    if mode == 25 {
        s.set_hidden(!on);
    } else if mode == 47 || mode == 1047 {
        if on {
            s.enter_alternate();
        } else {
            s.leave_alternate();
        }
    } else if mode == 1049 {
        if on {
            s.save_cursor();
            s.enter_alternate();
        } else {
            s.leave_alternate();
            s.restore_cursor();
        }
    }
}

fn switch_modes(s: &mut Screen, params: &Vec<u16>, on: bool)
    requires
        old(s)@.wf(),
    ensures
        final(s)@.wf(),
        final(s)@ == with_modes(old(s)@, params@, params@.len(), on),
{
    let mut i: usize = 0;
    while i < params.len()
        invariant
            i <= params.len(),
            s@.wf(),
            s@ == with_modes(old(s)@, params@, i as nat, on),
        decreases params.len() - i,
    {
        switch_mode(s, params[i], on);
        i += 1;
    }
}

fn sequence(s: &mut Screen, params: &Vec<u16>, marker: u8, b: u8)
    requires
        old(s)@.wf(),
    ensures
        final(s)@.wf(),
        final(s)@ == after_sequence(old(s)@, params@, marker, b),
{
    let n = param_at(params, 0, 1);
    let (row, col) = s.cursor_position();
    if marker == 0x3f {
        if b == 0x68 {
            switch_modes(s, params, true);
        } else if b == 0x6c {
            switch_modes(s, params, false);
        }
    } else if marker != 0 {
    } else if b == 0x40 {
        s.insert_chars(n);
    } else if b == 0x41 {
        s.move_up(n);
    } else if b == 0x42 {
        s.move_down(n);
    } else if b == 0x43 {
        s.move_right(n);
    } else if b == 0x44 {
        s.move_left(n);
    } else if b == 0x45 {
        s.move_down(n);
        s.carriage_return();
    } else if b == 0x46 {
        s.move_up(n);
        s.carriage_return();
    } else if b == 0x47 {
        s.move_to(row, n - 1);
    } else if b == 0x48 || b == 0x66 {
        let m = param_at(params, 1, 1);
        s.move_to(n - 1, m - 1);
    } else if b == 0x4a {
        s.erase_in_display(param_at(params, 0, 0));
    } else if b == 0x4b {
        s.erase_in_line(param_at(params, 0, 0));
    } else if b == 0x4c {
        s.insert_lines(n);
    } else if b == 0x4d {
        s.delete_lines(n);
    } else if b == 0x50 {
        s.delete_chars(n);
    } else if b == 0x53 {
        s.scroll_up_by(n);
    } else if b == 0x54 {
        s.scroll_down_by(n);
    } else if b == 0x58 {
        s.erase_chars(n);
    } else if b == 0x64 {
        s.move_to(n - 1, col);
    } else if b == 0x6d {
        let attrs = apply_attributes(s.attrs(), params);
        s.set_attrs(attrs);
    } else if b == 0x72 {
        let (height, _width) = s.size();
        let last = param_at(params, 1, height);
        s.set_region(n - 1, last - 1);
    } else if b == 0x73 {
        s.save_cursor();
    } else if b == 0x75 {
        s.restore_cursor();
    }
}

fn character(code: u32) -> (c: char)
    ensures
        c == char_of(code),
{
    if code < 0x80 {
        return '\u{fffd}';
    }
    match char::from_u32(code) {
        Some(c) => {
            proof {
                vstd::utf8::char_is_scalar(c);
                vstd::utf8::char_u32_cast(c, code);
            }
            c
        },
        None => '\u{fffd}',
    }
}

impl Parser {
    /// An interpreter with an empty screen, which remembers up to `limit` lines that scroll off.
    pub fn new(height: u16, width: u16, limit: usize) -> (p: Parser)
        ensures
            p@.wf(),
            p@ == fresh_parser(height, width, limit),
    {
        let p = Parser {
            screen: Screen::new(height, width, limit),
            mode: Mode::Ground,
            params: Vec::new(),
            marker: 0,
            need: 0,
            code: 0,
        };
        assert(p@.params =~= Seq::empty());
        p
    }

    /// Interprets more bytes.
    pub fn process(&mut self, data: &[u8])
        requires
            old(self)@.wf(),
        ensures
            final(self)@.wf(),
            final(self)@ == old(self)@.fed_all(data@),
    {
        let mut i: usize = 0;
        assert(data@.take(0) =~= Seq::empty());
        while i < data.len()
            invariant
                i <= data.len(),
                self@.wf(),
                self@ == old(self)@.fed_all(data@.take(i as int)),
            decreases data.len() - i,
        {
            assert(data@.take(i + 1).drop_last() =~= data@.take(i as int));
            self.feed(data[i]);
            i += 1;
        }
        assert(data@.take(i as int) =~= data@);
    }

    /// Interprets one more byte.
    pub fn feed(&mut self, b: u8)
        requires
            old(self)@.wf(),
        ensures
            final(self)@.wf(),
            final(self)@ == old(self)@.fed(b),
    {
        match self.mode {
            Mode::Ground => {
                if self.need > 0 {
                    if b >= 0x80 && b <= 0xbf {
                        let code: u32 = self.code * 64 + (b as u32 - 0x80);
                        self.code = code;
                        self.need = self.need - 1;
                        if self.need == 0 {
                            self.screen.print(character(code));
                        }
                    } else {
                        self.need = 0;
                        self.screen.print('\u{fffd}');
                        self.ground(b);
                    }
                } else {
                    self.ground(b);
                }
            },
            Mode::Escape => {
                self.escape(b);
            },
            Mode::EscapeSkip => {
                if b == 0x1b {
                    self.mode = Mode::Escape;
                } else if b >= 0x30 && b <= 0x7e {
                    self.mode = Mode::Ground;
                }
            },
            Mode::Csi => {
                self.csi(b);
            },
            Mode::CsiSkip => {
                if b == 0x1b {
                    self.mode = Mode::Escape;
                } else if b >= 0x40 && b <= 0x7e {
                    self.mode = Mode::Ground;
                }
            },
            Mode::Text => {
                if b == 0x1b {
                    self.mode = Mode::TextEscape;
                } else if b == 0x07 || b == 0x18 || b == 0x1a {
                    self.mode = Mode::Ground;
                }
            },
            Mode::TextEscape => {
                if b == 0x5c {
                    self.mode = Mode::Ground;
                } else {
                    self.escape(b);
                }
            },
        }
    }

    fn ground(&mut self, b: u8)
        requires
            old(self)@.wf(),
            old(self)@.need == 0,
        ensures
            final(self)@.wf(),
            final(self)@ == old(self)@.in_ground(b),
    {
        if b == 0x1b {
            self.mode = Mode::Escape;
        } else if b < 0x20 {
            control(&mut self.screen, b);
        } else if b < 0x7f {
            self.screen.print(b as char);
        } else if b == 0x7f {
        } else if b >= 0xc2 && b <= 0xdf {
            self.need = 1;
            self.code = b as u32 - 0xc0;
        } else if b >= 0xe0 && b <= 0xef {
            self.need = 2;
            self.code = b as u32 - 0xe0;
        } else if b >= 0xf0 && b <= 0xf4 {
            self.need = 3;
            self.code = b as u32 - 0xf0;
        } else {
            self.screen.print('\u{fffd}');
        }
    }

    fn escape(&mut self, b: u8)
        requires
            old(self)@.wf(),
        ensures
            final(self)@.wf(),
            final(self)@ == old(self)@.in_escape(b),
    {
        if b == 0x1b {
            self.mode = Mode::Escape;
        } else if b < 0x20 {
            control(&mut self.screen, b);
        } else if b < 0x30 {
            self.mode = Mode::EscapeSkip;
        } else if b == 0x5b {
            let mut params: Vec<u16> = Vec::new();
            params.push(0);
            assert(params@ =~= seq![0u16]);
            self.mode = Mode::Csi;
            self.params = params;
            self.marker = 0;
        } else if b == 0x5d || b == 0x50 || b == 0x58 || b == 0x5e || b == 0x5f {
            self.mode = Mode::Text;
        } else {
            escape(&mut self.screen, b);
            self.mode = Mode::Ground;
        }
    }

    fn csi(&mut self, b: u8)
        requires
            old(self)@.wf(),
            old(self)@.mode == Mode::Csi,
        ensures
            final(self)@.wf(),
            final(self)@ == old(self)@.in_sequence(b),
    {
        if b == 0x1b {
            self.mode = Mode::Escape;
        } else if b < 0x20 {
            control(&mut self.screen, b);
        } else if b < 0x30 {
            self.mode = Mode::CsiSkip;
        } else if b <= 0x39 {
            let last = self.params.len() - 1;
            let grown: u32 = self.params[last] as u32 * 10 + (b as u32 - 0x30);
            let n: u16 = if grown > 0xffff {
                0xffff
            } else {
                grown as u16
            };
            self.params.set(last, n);
        } else if b <= 0x3b {
            self.params.push(0);
        } else if b <= 0x3f {
            self.marker = b;
        } else if b <= 0x7e {
            sequence(&mut self.screen, &self.params, self.marker, b);
            self.mode = Mode::Ground;
        } else if b == 0x7f {
        } else {
            self.mode = Mode::Ground;
        }
    }

    /// The screen.
    pub fn screen(&self) -> (s: &Screen)
        ensures
            s@ == self@.screen,
    {
        &self.screen
    }

    /// Gives the screen another size.
    pub fn set_size(&mut self, height: u16, width: u16)
        requires
            old(self)@.wf(),
        ensures
            final(self)@.wf(),
            final(self)@ == (ParserView {
                screen: old(self)@.screen.resized(
                    screen::max(1, height as int),
                    screen::max(1, width as int),
                ),
                ..old(self)@
            }),
    {
        self.screen.set_size(height, width);
    }
}

} // verus!
