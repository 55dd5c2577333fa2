//! What a terminal shows after the bytes that draw a screen.
use crate::ansi;
use crate::text;
use crate::vt100::cell;
use crate::vt100::cell::{Attrs, Cell, Color};
use crate::vt100::contents;
use crate::vt100::draw;
use crate::vt100::draw::Drawn;
use crate::vt100::parser;
use crate::vt100::parser::{Mode, ParserView};
use crate::vt100::screen;
use crate::vt100::screen::{RowView, ScreenView};
use vstd::prelude::*;
use vstd::utf8::*;

verus! {

impl ParserView {
    /// The interpreter is outside of escape sequences and between characters.
    pub open spec fn at_rest(self) -> bool {
        self.mode == Mode::Ground && self.need == 0
    }

    /// The state after bytes.
    #[verifier::opaque]
    spec fn heard(self, s: Seq<u8>) -> ParserView {
        self.fed_all(s)
    }

    /// The state after a text.
    #[verifier::opaque]
    spec fn told(self, s: Seq<char>) -> ParserView {
        self.heard(encode_utf8(s))
    }
}

proof fn lemma_heard_pieces(p: ParserView, a: Seq<u8>, b: Seq<u8>)
    ensures
        p.heard(a + b) == p.heard(a).heard(b),
{
    reveal(ParserView::heard);
    parser::law_pieces_make_no_difference(p, a, b);
}

proof fn lemma_heard_one(p: ParserView, b: u8)
    ensures
        p.heard(seq![b]) == p.fed(b),
{
    reveal(ParserView::heard);
    let s = seq![b];
    assert(s.drop_last() =~= Seq::empty());
    assert(p.fed_all(s.drop_last()) == p);
}

proof fn lemma_told_pieces(p: ParserView, a: Seq<char>, b: Seq<char>)
    ensures
        p.told(a + b) == p.told(a).told(b),
{
    reveal(ParserView::told);
    text::lemma_encoded_pieces(a, b);
    lemma_heard_pieces(p, encode_utf8(a), encode_utf8(b));
}

proof fn lemma_no_char_is_below(c: char)
    ensures
        '\0' <= c,
{
}

proof fn lemma_told_one(p: ParserView, s: Seq<char>)
    requires
        s.len() == 1,
        s[0] as int <= 0x7f,
    ensures
        p.told(s) == p.fed(s[0] as u8),
{
    reveal(ParserView::told);
    let c = s[0];
    assert forall|i: int| 0 <= i < s.len() implies '\0' <= #[trigger] s[i] <= '\u{7f}' by {
        assert(s[i] == c);
        lemma_no_char_is_below(c);
    }
    is_ascii_chars_encode_utf8(s);
    let e = encode_utf8(s);
    assert(s[0] as u8 == e[0]);
    assert(e =~= seq![c as u8]);
    lemma_heard_one(p, c as u8);
}

proof fn lemma_told_digit(p: ParserView, s: Seq<char>, d: nat)
    requires
        p.mode == Mode::Csi,
        p.params.len() > 0,
        d < 10,
        s == seq![text::digit_char(d)],
    ensures
        p.told(s) == (ParserView {
            params: p.params.update(
                p.params.len() - 1,
                parser::with_digit(p.params.last(), d as int),
            ),
            ..p
        }),
{
    assert(text::digit_char(d) as u8 == 0x30 + d);
    lemma_told_one(p, s);
}

proof fn lemma_told_semicolon(p: ParserView)
    requires
        p.mode == Mode::Csi,
    ensures
        p.told(";"@) == (ParserView { params: p.params.push(0), ..p }),
{
    reveal_strlit(";");
    lemma_told_one(p, ";"@);
}

/// Digits behind a zero make it the number that they denote.
proof fn lemma_told_digits(p: ParserView, n: nat)
    requires
        p.mode == Mode::Csi,
        p.params.len() > 0,
        p.params.last() == 0,
        n <= 0xffff,
    ensures
        p.told(text::decimal(n)) == (ParserView {
            params: p.params.update(p.params.len() - 1, n as u16),
            ..p
        }),
    decreases n,
{
    let last = p.params.len() - 1;
    if n < 10 {
        lemma_told_digit(p, text::decimal(n), n);
    } else {
        let a = text::decimal(n / 10);
        let b = seq![text::digit_char(n % 10)];
        assert(text::decimal(n) =~= a + b);
        lemma_told_digits(p, n / 10);
        lemma_told_pieces(p, a, b);
        lemma_told_digit(p.told(a), b, n % 10);
        assert(p.params.update(last, (n / 10) as u16).update(last, n as u16) =~= p.params.update(
            last,
            n as u16,
        ));
    }
}

/// The next number of a control sequence.
proof fn lemma_told_number(p: ParserView, n: nat)
    requires
        p.mode == Mode::Csi,
        n <= 0xffff,
    ensures
        p.told(";"@ + text::decimal(n)) == (ParserView { params: p.params.push(n as u16), ..p }),
{
    lemma_told_pieces(p, ";"@, text::decimal(n));
    lemma_told_semicolon(p);
    lemma_told_digits(p.told(";"@), n);
    assert(p.params.push(0).update(p.params.len() as int, n as u16) =~= p.params.push(n as u16));
}

/// The start of a control sequence.
proof fn lemma_told_start(p: ParserView)
    requires
        p.at_rest(),
    ensures
        p.told("\x1b["@) == (ParserView {
            mode: Mode::Csi,
            params: seq![0u16],
            marker: 0,
            ..p
        }),
{
    reveal_strlit("\x1b[");
    assert("\x1b["@ =~= seq!['\x1b', '[']);
    let a = seq!['\x1b'];
    let b = seq!['['];
    assert("\x1b["@ =~= a + b);
    lemma_told_pieces(p, a, b);
    lemma_told_one(p, a);
    lemma_told_one(p.told(a), b);
}

/// The end of a control sequence.
proof fn lemma_told_end(p: ParserView, s: Seq<char>)
    requires
        p.mode == Mode::Csi,
        s.len() == 1,
        0x40 <= s[0] as int <= 0x7e,
    ensures
        p.told(s) == (ParserView {
            screen: parser::after_sequence(p.screen, p.params, p.marker, s[0] as u8),
            mode: Mode::Ground,
            ..p
        }),
{
    lemma_told_one(p, s);
}

/// The sequence that moves the cursor does so.
proof fn lemma_told_goto(p: ParserView, row: nat, col: nat)
    requires
        p.at_rest(),
        1 <= row <= 0xffff,
        1 <= col <= 0xffff,
    ensures
        p.told(ansi::goto_text(row, col)).at_rest(),
        p.told(ansi::goto_text(row, col)).screen == p.screen.moved(row - 1, col - 1),
{
    reveal_strlit("H");
    let a = "\x1b["@;
    let b = text::decimal(row);
    let c = ";"@ + text::decimal(col);
    assert(ansi::goto_text(row, col) =~= a + b + c + "H"@);
    lemma_told_pieces(p, a + b + c, "H"@);
    lemma_told_pieces(p, a + b, c);
    lemma_told_pieces(p, a, b);
    lemma_told_start(p);
    lemma_told_digits(p.told(a), row);
    let q = p.told(a + b);
    assert(q.params =~= seq![row as u16]);
    lemma_told_number(q, col);
    assert(q.params.push(col as u16) =~= seq![row as u16, col as u16]);
    lemma_told_end(p.told(a + b + c), "H"@);
}

/// The number that switches an attribute on, where it is on.
spec fn flag_params(on: bool, n: u16) -> Seq<u16> {
    if on {
        seq![n]
    } else {
        Seq::empty()
    }
}

/// The numbers that set a colour.
spec fn color_params(color: Color, base: u16, bright: u16, extended: u16) -> Seq<u16> {
    match color {
        Color::Default => Seq::empty(),
        Color::Idx(i) => if i < 8 {
            seq![(base + i) as u16]
        } else if i < 16 {
            seq![(bright + i - 8) as u16]
        } else {
            seq![extended, 5, i as u16]
        },
        Color::Rgb(r, g, b) => seq![extended, 2, r as u16, g as u16, b as u16],
    }
}

/// The numbers that set the foreground or the background.
spec fn side_params(color: Color, front: bool) -> Seq<u16> {
    if front {
        color_params(color, 30, 90, 38)
    } else {
        color_params(color, 40, 100, 48)
    }
}

/// The numbers that set all attributes.
spec fn attrs_params(a: Attrs) -> Seq<u16> {
    seq![0u16] + flag_params(a.bold, 1) + flag_params(a.italic, 3) + flag_params(a.underline, 4)
        + flag_params(a.inverse, 7) + side_params(a.fgcolor, true) + side_params(a.bgcolor, false)
}

proof fn lemma_told_flag(p: ParserView, on: bool, n: nat, s: Seq<char>)
    requires
        p.mode == Mode::Csi,
        n < 10,
        s == ";"@ + text::decimal(n),
    ensures
        p.told(draw::when(on, s)) == (ParserView {
            params: p.params + flag_params(on, n as u16),
            ..p
        }),
{
    if on {
        lemma_told_number(p, n);
        assert(p.params.push(n as u16) =~= p.params + flag_params(on, n as u16));
    } else {
        assert(p.params + flag_params(on, n as u16) =~= p.params);
        lemma_told_nothing(p);
    }
}

proof fn lemma_told_nothing(p: ParserView)
    ensures
        p.told(Seq::empty()) == p,
{
    reveal(ParserView::told);
    reveal(ParserView::heard);
    assert(encode_utf8(Seq::empty()) =~= Seq::empty());
}

/// The text of a colour, with the texts that introduce one of the palette and one given by its
/// parts.
spec fn color_text(color: Color, base: int, bright: int, extended: nat) -> Seq<char> {
    let start = ";"@ + text::decimal(extended);
    match color {
        Color::Default => Seq::empty(),
        Color::Idx(i) => if i < 8 {
            ";"@ + text::decimal((base + i) as nat)
        } else if i < 16 {
            ";"@ + text::decimal((bright + i - 8) as nat)
        } else {
            start + (";"@ + text::decimal(5)) + (";"@ + text::decimal(i as nat))
        },
        Color::Rgb(r, g, b) => start + (";"@ + text::decimal(2)) + (";"@ + text::decimal(
            r as nat,
        )) + (";"@ + text::decimal(g as nat)) + (";"@ + text::decimal(b as nat)),
    }
}

proof fn lemma_told_color(p: ParserView, color: Color, base: u16, bright: u16, extended: u16)
    requires
        p.mode == Mode::Csi,
        base <= 40,
        bright <= 100,
        extended <= 48,
    ensures
        p.told(color_text(color, base as int, bright as int, extended as nat)) == (ParserView {
            params: p.params + color_params(color, base, bright, extended),
            ..p
        }),
{
    let added = color_params(color, base, bright, extended);
    match color {
        Color::Default => {
            assert(p.params + added =~= p.params);
            lemma_told_nothing(p);
        },
        Color::Idx(i) => {
            if i < 8 {
                lemma_told_number(p, (base + i) as nat);
                assert(p.params.push((base + i) as u16) =~= p.params + added);
            } else if i < 16 {
                lemma_told_number(p, (bright + i - 8) as nat);
                assert(p.params.push((bright + i - 8) as u16) =~= p.params + added);
            } else {
                let a = ";"@ + text::decimal(extended as nat);
                let b = ";"@ + text::decimal(5);
                let c = ";"@ + text::decimal(i as nat);
                lemma_told_pieces(p, a + b, c);
                lemma_told_pieces(p, a, b);
                lemma_told_number(p, extended as nat);
                lemma_told_number(p.told(a), 5);
                lemma_told_number(p.told(a + b), i as nat);
                assert(p.params.push(extended).push(5).push(i as u16) =~= p.params + added);
            }
        },
        Color::Rgb(r, g, b) => {
            let k0 = ";"@ + text::decimal(extended as nat);
            let k1 = ";"@ + text::decimal(2);
            let k2 = ";"@ + text::decimal(r as nat);
            let k3 = ";"@ + text::decimal(g as nat);
            let k4 = ";"@ + text::decimal(b as nat);
            lemma_told_pieces(p, k0 + k1 + k2 + k3, k4);
            lemma_told_pieces(p, k0 + k1 + k2, k3);
            lemma_told_pieces(p, k0 + k1, k2);
            lemma_told_pieces(p, k0, k1);
            lemma_told_number(p, extended as nat);
            lemma_told_number(p.told(k0), 2);
            lemma_told_number(p.told(k0 + k1), r as nat);
            lemma_told_number(p.told(k0 + k1 + k2), g as nat);
            lemma_told_number(p.told(k0 + k1 + k2 + k3), b as nat);
            assert(p.params.push(extended).push(2).push(r as u16).push(g as u16).push(b as u16)
                =~= p.params + added);
        },
    }
}

proof fn lemma_small_decimals()
    ensures
        text::decimal(0) == seq!['0'],
        text::decimal(1) == seq!['1'],
        text::decimal(2) == seq!['2'],
        text::decimal(3) == seq!['3'],
        text::decimal(4) == seq!['4'],
        text::decimal(5) == seq!['5'],
        text::decimal(7) == seq!['7'],
        text::decimal(38) == seq!['3', '8'],
        text::decimal(48) == seq!['4', '8'],
{
    reveal_with_fuel(text::decimal, 2);
    assert(text::digit_char(3) == '3');
    assert(text::digit_char(8) == '8');
    assert(text::digit_char(4) == '4');
    assert(text::decimal(38) =~= seq!['3', '8']);
    assert(text::decimal(48) =~= seq!['4', '8']);
}

proof fn lemma_color_texts(a: Attrs)
    ensures
        draw::foreground_text(a.fgcolor) == color_text(a.fgcolor, 30, 90, 38),
        draw::background_text(a.bgcolor) == color_text(a.bgcolor, 40, 100, 48),
{
    lemma_small_decimals();
    reveal_strlit(";");
    reveal_strlit(";38;5;");
    reveal_strlit(";38;2;");
    reveal_strlit(";48;5;");
    reveal_strlit(";48;2;");
    assert(draw::foreground_text(a.fgcolor) =~= color_text(a.fgcolor, 30, 90, 38));
    assert(draw::background_text(a.bgcolor) =~= color_text(a.bgcolor, 40, 100, 48));
}

/// The numbers set the attributes that they stand for.
proof fn lemma_attrs_params(a: Attrs, b: Attrs)
    ensures
        parser::with_attributes(b, attrs_params(a), 0) == a,
{
    let s0 = seq![0u16];
    let s1 = s0 + flag_params(a.bold, 1);
    let s2 = s1 + flag_params(a.italic, 3);
    let s3 = s2 + flag_params(a.underline, 4);
    let s4 = s3 + flag_params(a.inverse, 7);
    let s5 = s4 + side_params(a.fgcolor, true);
    let s = attrs_params(a);
    let a0 = cell::plain_attrs();
    let a1 = Attrs { bold: a.bold, ..a0 };
    let a2 = Attrs { italic: a.italic, ..a1 };
    let a3 = Attrs { underline: a.underline, ..a2 };
    let a4 = Attrs { inverse: a.inverse, ..a3 };
    let a5 = Attrs { fgcolor: a.fgcolor, ..a4 };
    assert(s[0] == 0);
    assert(parser::with_attributes(b, s, 0) == parser::with_attributes(a0, s, 1));
    lemma_flag(a0, a.bold, 1, s, 1);
    lemma_flag(a1, a.italic, 3, s, s1.len() as int);
    lemma_flag(a2, a.underline, 4, s, s2.len() as int);
    lemma_flag(a3, a.inverse, 7, s, s3.len() as int);
    lemma_color(a4, a.fgcolor, true, s, s4.len() as int);
    lemma_color(a5, a.bgcolor, false, s, s5.len() as int);
}

proof fn lemma_flag(a: Attrs, on: bool, n: u16, s: Seq<u16>, i: int)
    requires
        0 <= i,
        n == 1 || n == 3 || n == 4 || n == 7,
        i + flag_params(on, n).len() <= s.len(),
        forall|k: int|
            0 <= k < flag_params(on, n).len() ==> s[i + k] == #[trigger] flag_params(on, n)[k],
    ensures
        parser::with_attributes(a, s, i) == parser::with_attributes(
            if on {
                parser::with_attribute(a, n)
            } else {
                a
            },
            s,
            i + flag_params(on, n).len(),
        ),
{
    if on {
        assert(flag_params(on, n)[0] == n);
        assert(s[i + 0] == n);
    }
}

proof fn lemma_color(a: Attrs, color: Color, front: bool, s: Seq<u16>, i: int)
    requires
        0 <= i,
        front ==> a.fgcolor == Color::Default,
        !front ==> a.bgcolor == Color::Default,
        i + side_params(color, front).len() <= s.len(),
        forall|k: int|
            0 <= k < side_params(color, front).len() ==> s[i + k] == #[trigger] side_params(
                color,
                front,
            )[k],
    ensures
        parser::with_attributes(a, s, i) == parser::with_attributes(
            if front {
                Attrs { fgcolor: color, ..a }
            } else {
                Attrs { bgcolor: color, ..a }
            },
            s,
            i + side_params(color, front).len(),
        ),
{
    let c = side_params(color, front);
    match color {
        Color::Default => {},
        Color::Idx(n) => {
            assert(s[i + 0] == c[0]);
            if n >= 16 {
                assert(s[i + 1] == c[1]);
                assert(s[i + 2] == c[2]);
            }
        },
        Color::Rgb(r, g, b) => {
            assert(s[i + 0] == c[0]);
            assert(s[i + 1] == c[1]);
            assert(s[i + 2] == c[2]);
            assert(s[i + 3] == c[3]);
            assert(s[i + 4] == c[4]);
        },
    }
}

/// The sequence that sets the attributes does so.
proof fn lemma_told_attrs(p: ParserView, a: Attrs)
    requires
        p.at_rest(),
    ensures
        p.told(draw::attrs_text(a)).at_rest(),
        p.told(draw::attrs_text(a)).screen == (ScreenView { attrs: a, ..p.screen }),
{
    reveal_strlit("\x1b[0");
    reveal_strlit("\x1b[");
    reveal_strlit(";");
    reveal_strlit(";1");
    reveal_strlit(";3");
    reveal_strlit(";4");
    reveal_strlit(";7");
    reveal_strlit("m");
    lemma_small_decimals();
    lemma_color_texts(a);
    let k0 = "\x1b["@;
    let k1 = text::decimal(0);
    let f1 = draw::when(a.bold, ";1"@);
    let f2 = draw::when(a.italic, ";3"@);
    let f3 = draw::when(a.underline, ";4"@);
    let f4 = draw::when(a.inverse, ";7"@);
    let c1 = draw::foreground_text(a.fgcolor);
    let c2 = draw::background_text(a.bgcolor);
    assert("\x1b[0"@ =~= k0 + k1);
    assert(";1"@ =~= ";"@ + text::decimal(1));
    assert(";3"@ =~= ";"@ + text::decimal(3));
    assert(";4"@ =~= ";"@ + text::decimal(4));
    assert(";7"@ =~= ";"@ + text::decimal(7));
    let t1 = "\x1b[0"@;
    let t2 = t1 + f1;
    let t3 = t2 + f2;
    let t4 = t3 + f3;
    let t5 = t4 + f4;
    let t6 = t5 + c1;
    let t7 = t6 + c2;
    lemma_told_pieces(p, t7, "m"@);
    lemma_told_pieces(p, t6, c2);
    lemma_told_pieces(p, t5, c1);
    lemma_told_pieces(p, t4, f4);
    lemma_told_pieces(p, t3, f3);
    lemma_told_pieces(p, t2, f2);
    lemma_told_pieces(p, t1, f1);
    lemma_told_pieces(p, k0, k1);
    lemma_told_start(p);
    lemma_told_digits(p.told(k0), 0);
    assert(p.told(t1).params =~= seq![0u16]);
    lemma_told_flag(p.told(t1), a.bold, 1, ";1"@);
    lemma_told_flag(p.told(t2), a.italic, 3, ";3"@);
    lemma_told_flag(p.told(t3), a.underline, 4, ";4"@);
    lemma_told_flag(p.told(t4), a.inverse, 7, ";7"@);
    lemma_told_color(p.told(t5), a.fgcolor, 30, 90, 38);
    lemma_told_color(p.told(t6), a.bgcolor, 40, 100, 48);
    assert(p.told(t7).params == attrs_params(a));
    lemma_told_end(p.told(t7), "m"@);
    lemma_attrs_params(a, p.screen.attrs);
}

proof fn lemma_two_bytes(v: u32)
    by (bit_vector)
    requires
        0x80 <= v < 0x800,
    ensures
        ({
            let a = 0xc0u8 | ((v >> 6) & 0x1f) as u8;
            let b = 0x80u8 | (v & 0x3f) as u8;
            &&& 0xc2 <= a <= 0xdf
            &&& 0x80 <= b <= 0xbf
            &&& (a - 0xc0) * 64 + (b - 0x80) == v
        }),
{
}

proof fn lemma_three_bytes(v: u32)
    by (bit_vector)
    requires
        0x800 <= v < 0x10000,
    ensures
        ({
            let a = 0xe0u8 | ((v >> 12) & 0x0f) as u8;
            let b = 0x80u8 | ((v >> 6) & 0x3f) as u8;
            let c = 0x80u8 | (v & 0x3f) as u8;
            &&& 0xe0 <= a <= 0xef
            &&& 0x80 <= b <= 0xbf
            &&& 0x80 <= c <= 0xbf
            &&& ((a - 0xe0) * 64 + (b - 0x80)) * 64 + (c - 0x80) == v
        }),
{
}

proof fn lemma_four_bytes(v: u32)
    by (bit_vector)
    requires
        0x10000 <= v <= 0x10ffff,
    ensures
        ({
            let a = 0xf0u8 | ((v >> 18) & 0x7) as u8;
            let b = 0x80u8 | ((v >> 12) & 0x3f) as u8;
            let c = 0x80u8 | ((v >> 6) & 0x3f) as u8;
            let d = 0x80u8 | (v & 0x3f) as u8;
            &&& 0xf0 <= a <= 0xf4
            &&& 0x80 <= b <= 0xbf
            &&& 0x80 <= c <= 0xbf
            &&& 0x80 <= d <= 0xbf
            &&& (((a - 0xf0) * 64 + (b - 0x80)) * 64 + (c - 0x80)) * 64 + (d - 0x80) == v
        }),
{
}

/// The first byte of a character.
proof fn lemma_heard_first(p: ParserView, b: u8)
    requires
        p.at_rest(),
        0xc2 <= b <= 0xf4,
    ensures
        p.heard(seq![b]) == (ParserView {
            need: if b <= 0xdf {
                1
            } else if b <= 0xef {
                2
            } else {
                3
            },
            code: (if b <= 0xdf {
                b - 0xc0
            } else if b <= 0xef {
                b - 0xe0
            } else {
                b - 0xf0
            }) as u32,
            ..p
        }),
{
    lemma_heard_one(p, b);
}

/// A further byte of a character, but not the last.
proof fn lemma_heard_further(p: ParserView, b: u8)
    requires
        p.mode == Mode::Ground,
        2 <= p.need <= 3,
        0x80 <= b <= 0xbf,
    ensures
        p.heard(seq![b]) == (ParserView {
            need: (p.need - 1) as u8,
            code: (p.code * 64 + (b - 0x80)) as u32,
            ..p
        }),
{
    lemma_heard_one(p, b);
}

/// The last byte of a character.
proof fn lemma_heard_last(p: ParserView, b: u8)
    requires
        p.mode == Mode::Ground,
        p.need == 1,
        0x80 <= b <= 0xbf,
    ensures
        p.heard(seq![b]).at_rest(),
        p.heard(seq![b]).screen == p.screen.printed(
            parser::char_of((p.code * 64 + (b - 0x80)) as u32),
        ),
{
    lemma_heard_one(p, b);
}

/// A character is printed.
proof fn lemma_told_char(p: ParserView, c: char)
    requires
        p.at_rest(),
        cell::is_text(c),
    ensures
        p.told(seq![c]).at_rest(),
        p.told(seq![c]).screen == p.screen.printed(c),
{
    let v = c as u32;
    char_is_scalar(c);
    char_u32_cast(c, v);
    if v < 0x80 {
        lemma_told_one(p, seq![c]);
        assert((c as u8) as char == c);
    } else {
        lemma_told_long_char(p, c);
    }
}

/// A character of several bytes is printed.
proof fn lemma_told_long_char(p: ParserView, c: char)
    requires
        p.at_rest(),
        c as int >= 0x80,
    ensures
        p.told(seq![c]).at_rest(),
        p.told(seq![c]).screen == p.screen.printed(c),
{
    let v = c as u32;
    char_is_scalar(c);
    char_u32_cast(c, v);
    let e = encode_utf8(seq![c]);
    assert(seq![c].drop_first() =~= Seq::empty());
    assert(encode_utf8(Seq::empty()) =~= Seq::empty());
    assert(e =~= encode_scalar(v));
    assert(p.told(seq![c]) == p.heard(e)) by {
        reveal(ParserView::told);
    }
    assert(parser::char_of(v) == c);
    if v < 0x800 {
        lemma_two_bytes(v);
        assert(e =~= seq![e[0]] + seq![e[1]]);
        lemma_heard_pieces(p, seq![e[0]], seq![e[1]]);
        lemma_heard_first(p, e[0]);
        lemma_heard_last(p.heard(seq![e[0]]), e[1]);
    } else if v < 0x10000 {
        lemma_three_bytes(v);
        let k = seq![e[0]] + seq![e[1]];
        assert(e =~= k + seq![e[2]]);
        lemma_heard_pieces(p, k, seq![e[2]]);
        lemma_heard_pieces(p, seq![e[0]], seq![e[1]]);
        lemma_heard_first(p, e[0]);
        lemma_heard_further(p.heard(seq![e[0]]), e[1]);
        lemma_heard_last(p.heard(k), e[2]);
    } else {
        lemma_four_bytes(v);
        let k = seq![e[0]] + seq![e[1]];
        let l = k + seq![e[2]];
        assert(e =~= l + seq![e[3]]);
        lemma_heard_pieces(p, l, seq![e[3]]);
        lemma_heard_pieces(p, k, seq![e[2]]);
        lemma_heard_pieces(p, seq![e[0]], seq![e[1]]);
        lemma_heard_first(p, e[0]);
        lemma_heard_further(p.heard(seq![e[0]]), e[1]);
        lemma_heard_further(p.heard(k), e[2]);
        lemma_heard_last(p.heard(l), e[3]);
    }
}

/// Whether, of cells that are drawn from left to right where they differ from what was there, the
/// first `n` are as they should be, and of the others those that are not drawn.
spec fn ready(cells: Seq<Cell>, before: Seq<Cell>, now: Seq<Cell>, n: int) -> bool {
    &&& cells.len() == now.len()
    &&& before.len() == now.len()
    &&& screen::whole(cells)
    &&& forall|i: int|
        0 <= i < cells.len() && (i < n || now[i] == before[i]) ==> #[trigger] cells[i] == now[i]
}

/// Cells with a cell drawn at a column.
spec fn painted(cells: Seq<Cell>, at: int, c: Cell) -> Seq<Cell> {
    if c.glyph == '\0' {
        screen::mended(screen::erased(cells, at, at + 1, c))
    } else {
        let out = screen::with_glyph(cells, at, c.glyph, c.wide, c.attrs);
        if c.mark == '\0' {
            out
        } else {
            out.update(at, c)
        }
    }
}

/// The number of columns that a cell takes with its second half.
spec fn columns(c: Cell) -> int {
    if c.wide {
        2
    } else {
        1
    }
}

/// Whether a cell can be drawn at a column of a line.
spec fn can_stand(c: Cell, at: int, width: int) -> bool {
    &&& c.sound()
    &&& !c.continuation
    &&& 0 <= at
    &&& at + columns(c) <= width
    &&& c.wide == (cell::char_width(c.glyph) == 2 && width >= 2)
}

proof fn lemma_painted_is_whole(cells: Seq<Cell>, at: int, c: Cell)
    requires
        screen::whole(cells),
        can_stand(c, at, cells.len() as int),
    ensures
        screen::whole(painted(cells, at, c)),
        painted(cells, at, c).len() == cells.len(),
        painted(cells, at, c)[at] == c,
        c.wide ==> painted(cells, at, c)[at + 1] == screen::continuation_cell(c.attrs),
{
    if c.glyph == '\0' {
        screen::lemma_erasing_keeps_whole(cells, at, at + 1, c.attrs.bgcolor);
    } else {
        let out = screen::with_glyph(cells, at, c.glyph, c.wide, c.attrs);
        screen::lemma_glyph_keeps_whole(cells, at, c.glyph, c.wide, c.attrs);
        if c.mark != '\0' {
            screen::lemma_mark_keeps_whole(out, at + columns(c), c.mark);
            assert(screen::with_mark(out, at + columns(c), c.mark) =~= painted(cells, at, c));
        }
    }
}

/// Which cells change when one is drawn: beside its own those that hold the rest of a wide
/// character that is drawn over.
proof fn lemma_painted_at(cells: Seq<Cell>, at: int, c: Cell, i: int)
    requires
        screen::whole(cells),
        can_stand(c, at, cells.len() as int),
        0 <= i < cells.len(),
        i < at || i >= at + columns(c),
    ensures
        painted(cells, at, c)[i] == if (i == at - 1 && cells[at].continuation) || (i == at
            + columns(c) && cells[at + columns(c) - 1].wide) {
            screen::emptied(cells[i])
        } else {
            cells[i]
        },
{
    reveal(screen::whole);
    assert(cells[at].sound() && !screen::torn(cells, at));
    assert(cells[i].sound() && !screen::torn(cells, i));
    let last = at + columns(c) - 1;
    assert(cells[last].sound() && !screen::torn(cells, last));
    if c.glyph == '\0' {
        let e = screen::erased(cells, at, at + 1, c);
        if i > 0 {
            assert(cells[i - 1].sound() && !screen::torn(cells, i - 1));
        }
        if i + 1 < cells.len() {
            assert(cells[i + 1].sound() && !screen::torn(cells, i + 1));
        }
        assert(e[i] == cells[i]);
    }
}

proof fn lemma_step_over(cells: Seq<Cell>, before: Seq<Cell>, now: Seq<Cell>, n: int)
    requires
        ready(cells, before, now, n),
        screen::whole(now),
        0 <= n < now.len(),
        now[n] == before[n] || now[n].continuation,
    ensures
        ready(cells, before, now, n + 1),
{
    reveal(screen::whole);
    assert(now[n].sound() && !screen::torn(now, n));
    if now[n].continuation {
        assert(cells[n - 1] == now[n - 1]);
        assert(cells[n - 1].sound() && !screen::torn(cells, n - 1));
        assert(now[n - 1].sound() && !screen::torn(now, n - 1));
    }
    assert(cells[n] == now[n]);
}

proof fn lemma_can_stand(cells: Seq<Cell>, n: int)
    requires
        screen::whole(cells),
        0 <= n < cells.len(),
        !cells[n].continuation,
    ensures
        can_stand(cells[n], n, cells.len() as int),
        cells[n].wide ==> cells[n + 1] == screen::continuation_cell(cells[n].attrs),
{
    reveal(screen::whole);
    assert(cells[n].sound() && !screen::torn(cells, n));
}

proof fn lemma_painted(cells: Seq<Cell>, before: Seq<Cell>, now: Seq<Cell>, n: int)
    requires
        ready(cells, before, now, n),
        screen::whole(now),
        0 <= n < now.len(),
        !now[n].continuation,
    ensures
        ready(painted(cells, n, now[n]), before, now, n + 1),
{
    let c = now[n];
    let last = n + columns(c) - 1;
    let all = painted(cells, n, c);
    lemma_can_stand(now, n);
    lemma_painted_is_whole(cells, n, c);
    assert forall|i: int| 0 <= i < all.len() && (i < n + 1 || now[i] == before[i]) implies
        #[trigger] all[i] == now[i] by {
        reveal(screen::whole);
        assert(now[i].sound() && !screen::torn(now, i));
        assert(now[n].sound() && !screen::torn(now, n));
        assert(cells[n].sound() && !screen::torn(cells, n));
        if i < n || i > last {
            assert(cells[i] == now[i]);
            lemma_painted_at(cells, n, c, i);
            if i == n - 1 {
                assert(now[n - 1].sound() && !screen::torn(now, n - 1));
            }
            if i == last + 1 {
                assert(now[last].sound() && !screen::torn(now, last));
                assert(cells[last].sound() && !screen::torn(cells, last));
            }
        }
    }
}

/// A cell drawn over itself changes nothing.
proof fn lemma_repainted(cells: Seq<Cell>, at: int)
    requires
        screen::whole(cells),
        0 <= at < cells.len(),
        !cells[at].continuation,
    ensures
        painted(cells, at, cells[at]) == cells,
{
    let c = cells[at];
    let all = painted(cells, at, c);
    lemma_can_stand(cells, at);
    lemma_painted_is_whole(cells, at, c);
    assert forall|i: int| 0 <= i < all.len() implies all[i] == cells[i] by {
        if i < at || i >= at + columns(c) {
            lemma_painted_at(cells, at, c, i);
            reveal(screen::whole);
            assert(cells[at].sound() && !screen::torn(cells, at));
        }
    }
    assert(all =~= cells);
}

/// A line with a cell drawn at a column.
spec fn row_painted(row: RowView, at: int, c: Cell) -> RowView {
    let cells = painted(row.cells, at, c);
    RowView { cells, wrapped: row.wrapped && screen::is_full(cells) }
}

/// A cell that is printed at the cursor is painted there.
proof fn lemma_printed_cell(t: ScreenView, c: Cell)
    requires
        0 <= t.row < t.rows.len(),
        t.rows[t.row].cells.len() == t.width,
        can_stand(c, t.col, t.width),
        t.attrs == c.attrs,
        c.glyph != '\0',
    ensures
        ({
            let u = t.printed(c.glyph);
            let v = if c.mark == '\0' {
                u
            } else {
                u.printed(c.mark)
            };
            v == (ScreenView {
                rows: t.rows.update(t.row, row_painted(t.rows[t.row], t.col, c)),
                col: t.col + columns(c),
                ..t
            })
        }),
{
    let u = t.printed(c.glyph);
    let cells = t.rows[t.row].cells;
    let out = screen::with_glyph(cells, t.col, c.glyph, c.wide, c.attrs);
    assert(u == t.put(c.glyph, c.wide));
    assert(u.rows[u.row].cells == out);
    if c.mark != '\0' {
        assert(out[t.col] == screen::glyph_cell(c.glyph, c.wide, c.attrs));
        if c.wide {
            assert(out[t.col + 1] == screen::continuation_cell(c.attrs));
        }
        assert(screen::with_mark(out, u.col, c.mark) =~= painted(cells, t.col, c));
        assert(screen::is_full(out) == screen::is_full(painted(cells, t.col, c)));
        assert(u.printed(c.mark).rows =~= t.rows.update(
            t.row,
            row_painted(t.rows[t.row], t.col, c),
        ));
    }
}

/// The sequence that makes a cell empty does so.
proof fn lemma_told_erase(p: ParserView)
    requires
        p.at_rest(),
    ensures
        p.told("\x1b[X"@).at_rest(),
        p.told("\x1b[X"@).screen == p.screen.erased_part(
            p.screen.row,
            p.screen.col,
            p.screen.col + 1,
        ),
{
    reveal_strlit("\x1b[X");
    reveal_strlit("\x1b[");
    let a = "\x1b["@;
    let b = seq!['X'];
    assert("\x1b[X"@ =~= a + b);
    lemma_told_pieces(p, a, b);
    lemma_told_start(p);
    lemma_told_end(p.told(a), b);
}

/// The state of a terminal that shows certain lines, with attributes in force as far as they are
/// known.
spec fn displays(
    q: ParserView,
    attrs: Option<Attrs>,
    rows: Seq<RowView>,
    height: int,
    width: int,
) -> bool {
    &&& q.at_rest()
    &&& q.screen.height == height
    &&& q.screen.width == width
    &&& q.screen.rows == rows
    &&& attrs matches Some(a) ==> q.screen.attrs == a
}

/// A cell that is drawn at a line and a column is painted there, and nothing else changes but the
/// cursor and the attributes.
proof fn lemma_told_cell(q: ParserView, attrs: Option<Attrs>, row: int, col: int, c: Cell)
    requires
        q.at_rest(),
        q.screen.height <= 0xffff,
        q.screen.width <= 0xffff,
        attrs matches Some(a) ==> q.screen.attrs == a,
        q.screen.rows.len() == q.screen.height,
        0 <= row < q.screen.height,
        q.screen.rows[row].cells.len() == q.screen.width,
        can_stand(c, col, q.screen.width),
    ensures
        ({
            let d = Drawn { bytes: Seq::empty(), attrs };
            let u = q.heard(d.with_cell((row + 1) as nat, (col + 1) as nat, c).bytes);
            &&& u.at_rest()
            &&& u.screen == (ScreenView {
                rows: q.screen.rows.update(row, row_painted(q.screen.rows[row], col, c)),
                row,
                col: if c.glyph == '\0' {
                    col
                } else {
                    col + columns(c)
                },
                attrs: c.attrs,
                ..q.screen
            })
        }),
{
    let d = Drawn { bytes: Seq::empty(), attrs };
    let r = (row + 1) as nat;
    let k = (col + 1) as nat;
    let goto = encode_utf8(ansi::goto_text(r, k));
    let set = if attrs == Some(c.attrs) {
        Seq::empty()
    } else {
        encode_utf8(draw::attrs_text(c.attrs))
    };
    let shown = encode_utf8(draw::cell_sequence(c));
    assert(d.with_cell(r, k, c).bytes =~= goto + set + shown);
    lemma_heard_pieces(q, goto + set, shown);
    lemma_heard_pieces(q, goto, set);
    let q1 = q.heard(goto);
    assert(q1 == q.told(ansi::goto_text(r, k))) by {
        reveal(ParserView::told);
    }
    lemma_told_goto(q, r, k);
    let q2 = q1.heard(set);
    if attrs == Some(c.attrs) {
        assert(q2 == q1) by {
            reveal(ParserView::heard);
        }
    } else {
        assert(q2 == q1.told(draw::attrs_text(c.attrs))) by {
            reveal(ParserView::told);
        }
        lemma_told_attrs(q1, c.attrs);
    }
    let t = q2.screen;
    assert(t == (ScreenView { row, col, attrs: c.attrs, ..q.screen }));
    assert(q2.heard(shown) == q2.told(draw::cell_sequence(c))) by {
        reveal(ParserView::told);
    }
    if c.glyph == '\0' {
        lemma_told_erase(q2);
        assert(t.blank() == c);
    } else {
        lemma_printed_cell(t, c);
        lemma_told_char(q2, c.glyph);
        if c.mark != '\0' {
            assert(c.chars() =~= seq![c.glyph] + seq![c.mark]);
            lemma_told_pieces(q2, seq![c.glyph], seq![c.mark]);
            lemma_told_char(q2.told(seq![c.glyph]), c.mark);
        }
    }
}

/// A cell drawn behind other bytes.
proof fn lemma_heard_cell(p: ParserView, d: Drawn, row: int, col: int, c: Cell)
    requires
        p.heard(d.bytes).at_rest(),
        ({
            let q = p.heard(d.bytes);
            &&& q.screen.height <= 0xffff
            &&& q.screen.width <= 0xffff
            &&& d.attrs matches Some(a) ==> q.screen.attrs == a
            &&& q.screen.rows.len() == q.screen.height
            &&& 0 <= row < q.screen.height
            &&& q.screen.rows[row].cells.len() == q.screen.width
            &&& can_stand(c, col, q.screen.width)
        }),
    ensures
        ({
            let q = p.heard(d.bytes);
            let u = p.heard(d.with_cell((row + 1) as nat, (col + 1) as nat, c).bytes);
            &&& u.at_rest()
            &&& u.screen == (ScreenView {
                rows: q.screen.rows.update(row, row_painted(q.screen.rows[row], col, c)),
                row,
                col: if c.glyph == '\0' {
                    col
                } else {
                    col + columns(c)
                },
                attrs: c.attrs,
                ..q.screen
            })
        }),
{
    let e = d.with_cell((row + 1) as nat, (col + 1) as nat, c);
    let one = Drawn { bytes: Seq::empty(), attrs: d.attrs }.with_cell(
        (row + 1) as nat,
        (col + 1) as nat,
        c,
    );
    assert(e.bytes =~= d.bytes + one.bytes);
    lemma_heard_pieces(p, d.bytes, one.bytes);
    lemma_told_cell(p.heard(d.bytes), d.attrs, row, col, c);
}

/// A text behind other bytes.
proof fn lemma_heard_text(p: ParserView, d: Drawn, s: Seq<char>)
    ensures
        p.heard(d.then_text(s).bytes) == p.heard(d.bytes).told(s),
{
    lemma_heard_pieces(p, d.bytes, encode_utf8(s));
    reveal(ParserView::told);
}

/// Whether a screen is another one with a cell of one column put in its place. Of the other cells
/// only those change that hold the rest of a wide character that is drawn over.
pub open spec fn has_cell_put(
    t: ScreenView,
    s: ScreenView,
    row: int,
    col: int,
    c: Cell,
) -> bool {
    &&& t.height == s.height
    &&& t.width == s.width
    &&& t.attrs == c.attrs
    &&& screen::grid_wf(t.rows, t.height, t.width)
    &&& forall|r: int| 0 <= r < t.height && r != row ==> #[trigger] t.rows[r] == s.rows[r]
    &&& t.rows[row].cells[col] == c
    &&& forall|i: int|
        0 <= i < t.width && i != col ==> #[trigger] t.rows[row].cells[i] == if (i == col - 1
            && s.rows[row].cells[col].continuation) || (i == col + 1
            && s.rows[row].cells[col].wide) {
            screen::emptied(s.rows[row].cells[i])
        } else {
            s.rows[row].cells[i]
        }
}

proof fn lemma_told_narrow(p: ParserView, d: Drawn, row: int, col: int, c: Cell)
    requires
        p.heard(d.bytes).at_rest(),
        ({
            let s = p.heard(d.bytes).screen;
            &&& screen::grid_wf(s.rows, s.height, s.width)
            &&& s.height <= 0xffff
            &&& s.width <= 0xffff
            &&& d.attrs matches Some(a) ==> s.attrs == a
            &&& 0 <= row < s.height
            &&& 0 <= col < s.width
        }),
        c.sound(),
        c.glyph != '\0',
        !c.wide,
        cell::char_width(c.glyph) == 1,
    ensures
        ({
            let u = p.heard(d.with_cell((row + 1) as nat, (col + 1) as nat, c).bytes);
            u.at_rest() && has_cell_put(u.screen, p.heard(d.bytes).screen, row, col, c)
        }),
{
    let s = p.heard(d.bytes).screen;
    let was = s.rows[row].cells;
    assert(screen::row_wf(s.rows[row], s.width));
    lemma_heard_cell(p, d, row, col, c);
    lemma_painted_is_whole(was, col, c);
    let t = p.heard(d.with_cell((row + 1) as nat, (col + 1) as nat, c).bytes).screen;
    assert(t.rows[row].cells == painted(was, col, c));
    assert forall|i: int| 0 <= i < t.width && i != col implies #[trigger] t.rows[row].cells[i]
        == if (i == col - 1 && s.rows[row].cells[col].continuation) || (i == col + 1
        && s.rows[row].cells[col].wide) {
        screen::emptied(s.rows[row].cells[i])
    } else {
        s.rows[row].cells[i]
    } by {
        lemma_painted_at(was, col, c, i);
    }
    assert forall|r: int| 0 <= r < t.height && r != row implies #[trigger] t.rows[r]
        == s.rows[r] by {}
    assert forall|r: int| 0 <= r < t.rows.len() implies screen::row_wf(
        #[trigger] t.rows[r],
        t.width,
    ) by {
        assert(screen::row_wf(s.rows[r], s.width));
    }
    assert(s.rows.last() == s.rows[s.height - 1]);
    assert(t.rows.last() == t.rows[s.height - 1]);
}

/// A character that takes one column, drawn behind other bytes, is put in its place.
pub proof fn lemma_narrow_text_is_drawn(p: ParserView, d: Drawn, row: int, col: int, c: Cell)
    requires
        p.fed_all(d.bytes).at_rest(),
        ({
            let s = p.fed_all(d.bytes).screen;
            &&& screen::grid_wf(s.rows, s.height, s.width)
            &&& s.height <= 0xffff
            &&& s.width <= 0xffff
            &&& d.attrs matches Some(a) ==> s.attrs == a
            &&& 0 <= row < s.height
            &&& 0 <= col < s.width
        }),
        c.sound(),
        c.glyph != '\0',
        !c.wide,
        cell::char_width(c.glyph) == 1,
    ensures
        ({
            let e = d.with_text((row + 1) as nat, (col + 1) as nat, c.chars(), c.attrs);
            let u = p.fed_all(e.bytes);
            u.at_rest() && has_cell_put(u.screen, p.fed_all(d.bytes).screen, row, col, c)
        }),
{
    let e = d.with_text((row + 1) as nat, (col + 1) as nat, c.chars(), c.attrs);
    assert(p.heard(d.bytes) == p.fed_all(d.bytes) && p.heard(e.bytes) == p.fed_all(e.bytes)) by {
        reveal(ParserView::heard);
    }
    assert(e == d.with_cell((row + 1) as nat, (col + 1) as nat, c));
    lemma_told_narrow(p, d, row, col, c);
}

/// The state of a terminal on which the cells of a line are drawn where they differ from what was
/// there, when the drawing is at a column.
spec fn following(
    q: ParserView,
    attrs: Option<Attrs>,
    rows: Seq<RowView>,
    height: int,
    row: int,
    before: Seq<Cell>,
    now: Seq<Cell>,
    n: int,
) -> bool {
    &&& displays(q, attrs, rows.update(row, q.screen.rows[row]), height, now.len() as int)
    &&& !q.screen.rows[row].wrapped
    &&& ready(q.screen.rows[row].cells, before, now, n)
}

/// The cells of a line are drawn.
proof fn lemma_told_cells(
    p: ParserView,
    d: Drawn,
    rows: Seq<RowView>,
    height: int,
    row: int,
    before: Seq<Cell>,
    now: Seq<Cell>,
    n: nat,
)
    requires
        height <= 0xffff,
        now.len() <= 0xffff,
        rows.len() == height,
        0 <= row < height,
        n <= now.len(),
        screen::whole(now),
        following(p.heard(d.bytes), d.attrs, rows, height, row, before, now, 0),
    ensures
        ({
            let e = contents::drawn_cells(d, before, now, row, n);
            following(p.heard(e.bytes), e.attrs, rows, height, row, before, now, n as int)
        }),
    decreases n,
{
    if n > 0 {
        let m = (n - 1) as nat;
        let e = contents::drawn_cells(d, before, now, row, m);
        lemma_told_cells(p, d, rows, height, row, before, now, m);
        let q = p.heard(e.bytes);
        let cells = q.screen.rows[row].cells;
        let c = now[m as int];
        if c == before[m as int] || c.continuation {
            lemma_step_over(cells, before, now, m as int);
        } else {
            lemma_painted(cells, before, now, m as int);
            lemma_can_stand(now, m as int);
            lemma_heard_cell(p, e, row, m as int, c);
            let u = p.heard(e.with_cell((row + 1) as nat, n, c).bytes);
            assert(u.screen.rows =~= rows.update(row, u.screen.rows[row]));
        }
    }
}

/// The sequence that resets the attributes does so.
proof fn lemma_told_reset(p: ParserView)
    requires
        p.at_rest(),
    ensures
        p.told("\x1b[m"@).at_rest(),
        p.told("\x1b[m"@).screen == (ScreenView { attrs: cell::plain_attrs(), ..p.screen }),
{
    reveal_strlit("\x1b[m");
    reveal_strlit("\x1b[");
    let a = "\x1b["@;
    let b = seq!['m'];
    assert("\x1b[m"@ =~= a + b);
    lemma_told_pieces(p, a, b);
    lemma_told_start(p);
    lemma_told_end(p.told(a), b);
    let params = seq![0u16];
    assert(parser::with_attributes(p.screen.attrs, params, 0) == cell::plain_attrs()) by {
        reveal_with_fuel(parser::with_attributes, 2);
    }
}

/// The sequence that resets the attributes, written with its number, changes nothing else.
pub proof fn lemma_reset_changes_only_attributes(p: ParserView)
    requires
        p.at_rest(),
    ensures
        ({
            let q = p.fed_all(encode_utf8(ansi::attribute_text(ansi::Attribute::Reset)));
            q.at_rest() && q.screen == (ScreenView { attrs: cell::plain_attrs(), ..p.screen })
        }),
{
    reveal_strlit("\x1b[0m");
    reveal_strlit("\x1b[");
    lemma_small_decimals();
    let a = "\x1b["@;
    let b = text::decimal(0);
    let c = seq!['m'];
    let s = ansi::attribute_text(ansi::Attribute::Reset);
    assert(s =~= a + b + c);
    assert(p.told(s) == p.fed_all(encode_utf8(s))) by {
        reveal(ParserView::told);
        reveal(ParserView::heard);
    }
    lemma_told_pieces(p, a + b, c);
    lemma_told_pieces(p, a, b);
    lemma_told_start(p);
    lemma_told_digits(p.told(a), 0);
    let params = seq![0u16];
    assert(p.told(a + b).params =~= params);
    lemma_told_end(p.told(a + b), c);
    assert(parser::with_attributes(p.screen.attrs, params, 0) == cell::plain_attrs()) by {
        reveal_with_fuel(parser::with_attributes, 2);
    }
}

/// The sequence that shows or hides the cursor does so.
proof fn lemma_told_hidden(p: ParserView, hidden: bool)
    requires
        p.at_rest(),
    ensures
        ({
            let q = p.told(
                if hidden {
                    "\x1b[?25l"@
                } else {
                    "\x1b[?25h"@
                },
            );
            &&& q.at_rest()
            &&& q.screen == (ScreenView { hidden, ..p.screen })
        }),
{
    reveal_strlit("\x1b[?25l");
    reveal_strlit("\x1b[?25h");
    reveal_strlit("\x1b[");
    let a = "\x1b["@;
    let b = seq!['?'];
    let c = text::decimal(25);
    let d = if hidden {
        seq!['l']
    } else {
        seq!['h']
    };
    assert(c =~= seq!['2', '5']) by {
        reveal_with_fuel(text::decimal, 2);
        assert(text::digit_char(2) == '2');
        assert(text::digit_char(5) == '5');
    }
    let whole = if hidden {
        "\x1b[?25l"@
    } else {
        "\x1b[?25h"@
    };
    assert(whole =~= a + b + c + d);
    lemma_told_pieces(p, a + b + c, d);
    lemma_told_pieces(p, a + b, c);
    lemma_told_pieces(p, a, b);
    lemma_told_start(p);
    lemma_told_marker(p.told(a));
    lemma_told_digits(p.told(a + b), 25);
    let q = p.told(a + b + c);
    assert(q.params =~= seq![25u16]);
    lemma_told_end(q, d);
    assert(parser::with_modes(q.screen, q.params, 1, !hidden) == (ScreenView {
        hidden,
        ..p.screen
    })) by {
        reveal_with_fuel(parser::with_modes, 2);
    }
}

proof fn lemma_told_marker(p: ParserView)
    requires
        p.mode == Mode::Csi,
    ensures
        p.told(seq!['?']) == (ParserView { marker: 0x3f, ..p }),
{
    lemma_told_one(p, seq!['?']);
}

/// The sequence that makes the whole screen the scrolling region does so.
proof fn lemma_told_region(p: ParserView)
    requires
        p.at_rest(),
        1 < p.screen.height <= 0xffff,
    ensures
        p.told("\x1b[r"@).at_rest(),
        p.told("\x1b[r"@).screen == (ScreenView {
            top: 0,
            bottom: p.screen.height - 1,
            row: 0,
            col: 0,
            ..p.screen
        }),
{
    reveal_strlit("\x1b[r");
    reveal_strlit("\x1b[");
    let a = "\x1b["@;
    let b = seq!['r'];
    assert("\x1b[r"@ =~= a + b);
    lemma_told_pieces(p, a, b);
    lemma_told_start(p);
    lemma_told_end(p.told(a), b);
}

/// The sequences that remember the cursor and put it back do so.
proof fn lemma_told_saved(p: ParserView, back: bool)
    requires
        p.at_rest(),
    ensures
        ({
            let q = p.told(
                if back {
                    "\x1b8"@
                } else {
                    "\x1b7"@
                },
            );
            &&& q.at_rest()
            &&& q.screen == if back {
                p.screen.cursor_restored()
            } else {
                p.screen.cursor_saved()
            }
        }),
{
    reveal_strlit("\x1b7");
    reveal_strlit("\x1b8");
    let a = seq!['\x1b'];
    let b = if back {
        seq!['8']
    } else {
        seq!['7']
    };
    let s = if back {
        "\x1b8"@
    } else {
        "\x1b7"@
    };
    assert(s =~= a + b);
    lemma_told_pieces(p, a, b);
    lemma_told_one(p, a);
    lemma_told_one(p.told(a), b);
}

proof fn lemma_space()
    ensures
        " "@ == seq![' '],
{
    reveal_strlit(" ");
    assert(" "@ =~= seq![' ']);
}

/// A space taken away at the start of a line leaves what erasing there leaves.
proof fn lemma_space_taken_away(row: RowView, attrs: Attrs)
    requires
        screen::whole(row.cells),
        row.cells.len() > 0,
    ensures
        ({
            let cells = screen::with_glyph(row.cells, 0, ' ', false, attrs);
            let between = RowView { cells, wrapped: row.wrapped && screen::is_full(cells) };
            &&& screen::whole(cells)
            &&& row_painted(between, 0, cell::blank_cell(Color::Default)) == screen::row_erased(
                row,
                0,
                1,
            )
        }),
{
    let blank = cell::blank_cell(Color::Default);
    let space = screen::glyph_cell(' ', false, attrs);
    let cells = screen::with_glyph(row.cells, 0, ' ', false, attrs);
    assert(cells == painted(row.cells, 0, space));
    lemma_painted_is_whole(row.cells, 0, space);
    lemma_painted_is_whole(row.cells, 0, blank);
    lemma_painted_is_whole(cells, 0, blank);
    let a = painted(cells, 0, blank);
    let b = painted(row.cells, 0, blank);
    assert forall|i: int| 0 <= i < a.len() implies a[i] == b[i] by {
        if i > 0 {
            lemma_painted_at(cells, 0, blank, i);
            lemma_painted_at(row.cells, 0, blank, i);
            lemma_painted_at(row.cells, 0, space, i);
        }
    }
    assert(a =~= b);
    let n = row.cells.len() - 1;
    if n > 0 {
        lemma_painted_at(cells, 0, blank, n);
        lemma_painted_at(row.cells, 0, space, n);
    }
}

/// A full line is made to run on.
proof fn lemma_told_edge(p: ParserView, d: Drawn, rows: Seq<RowView>, height: int, row: int)
    requires
        height <= 0xffff,
        rows.len() == height,
        0 <= row,
        row + 1 < height,
        rows[row].cells.len() <= 0xffff,
        rows[row + 1].cells.len() == rows[row].cells.len(),
        screen::whole(rows[row].cells),
        screen::whole(rows[row + 1].cells),
        screen::is_full(rows[row].cells),
        !rows[row].wrapped,
        displays(p.heard(d.bytes), d.attrs, rows, height, rows[row].cells.len() as int),
    ensures
        ({
            let cells = rows[row].cells;
            let e = contents::with_edge(d, cells, row);
            displays(
                p.heard(e.bytes),
                e.attrs,
                rows.update(row, RowView { cells, wrapped: true }).update(
                    row + 1,
                    screen::row_erased(rows[row + 1], 0, 1),
                ),
                height,
                cells.len() as int,
            )
        }),
{
    let cells = rows[row].cells;
    let width = cells.len() as int;
    let k = contents::last_place(cells);
    let blank = cell::blank_cell(Color::Default);
    contents::lemma_last_place(cells);
    lemma_can_stand(cells, k);
    lemma_repainted(cells, k);
    let d1 = d.then_text("\x1b[r"@);
    lemma_heard_text(p, d, "\x1b[r"@);
    lemma_told_region(p.heard(d.bytes));
    let d2 = d1.with_cell((row + 1) as nat, (k + 1) as nat, cells[k]);
    lemma_heard_cell(p, d1, row, k, cells[k]);
    let s2 = p.heard(d2.bytes).screen;
    assert(row_painted(rows[row], k, cells[k]) == rows[row]);
    assert(s2.rows =~= rows);
    assert(s2.col == width);
    let d3 = d2.then_text(" "@);
    lemma_heard_text(p, d2, " "@);
    lemma_space();
    lemma_told_char(p.heard(d2.bytes), ' ');
    let s3 = p.heard(d3.bytes).screen;
    let between = screen::with_glyph(rows[row + 1].cells, 0, ' ', false, cells[k].attrs);
    assert(s3 == s2.printed(' '));
    let fed = s2.with_room(1);
    assert(fed.rows == rows.update(row, RowView { cells, wrapped: true }));
    assert(fed.row == row + 1 && fed.col == 0);
    assert(s3.rows =~= fed.rows.update(
        row + 1,
        RowView {
            cells: between,
            wrapped: rows[row + 1].wrapped && screen::is_full(between),
        },
    ));
    lemma_space_taken_away(rows[row + 1], cells[k].attrs);
    lemma_heard_cell(p, d3, row + 1, 0, blank);
    let s4 = p.heard(contents::with_edge(d, cells, row).bytes).screen;
    assert(s4.rows =~= rows.update(row, RowView { cells, wrapped: true }).update(
        row + 1,
        screen::row_erased(rows[row + 1], 0, 1),
    ));
}

/// The lines after one of them was drawn.
spec fn line_drawn(rows: Seq<RowView>, now: RowView, row: int) -> Seq<RowView> {
    if rows[row] == now {
        rows
    } else if now.wrapped {
        rows.update(row, now).update(row + 1, screen::row_erased(rows[row + 1], 0, 1))
    } else {
        rows.update(row, now)
    }
}

/// A line is drawn.
proof fn lemma_told_line(
    p: ParserView,
    d: Drawn,
    rows: Seq<RowView>,
    height: int,
    width: int,
    now: RowView,
    row: int,
)
    requires
        height <= 0xffff,
        1 <= width <= 0xffff,
        rows.len() == height,
        0 <= row < height,
        screen::row_wf(rows[row], width),
        screen::row_wf(now, width),
        now.wrapped ==> row + 1 < height && screen::row_wf(rows[row + 1], width),
        displays(p.heard(d.bytes), d.attrs, rows, height, width),
    ensures
        ({
            let e = contents::drawn_line(d, rows[row], now, row);
            displays(p.heard(e.bytes), e.attrs, line_drawn(rows, now, row), height, width)
        }),
{
    let was = rows[row];
    if was != now {
        let blank = cell::blank_cell(Color::Default);
        let start = if was.wrapped {
            d.with_cell((row + 1) as nat, now.cells.len(), blank)
        } else {
            d
        };
        let cut = contents::cut_off(was);
        if was.wrapped {
            lemma_heard_cell(p, d, row, width - 1, blank);
            lemma_painted_is_whole(was.cells, width - 1, blank);
            assert(cut.cells == painted(was.cells, width - 1, blank));
            assert(cut.cells.last() == blank);
        }
        let q = p.heard(start.bytes);
        assert(q.screen.rows =~= rows.update(row, cut));
        assert(following(q, start.attrs, rows, height, row, cut.cells, now.cells, 0));
        lemma_told_cells(p, start, rows, height, row, cut.cells, now.cells, now.cells.len());
        let e = contents::drawn_cells(start, cut.cells, now.cells, row, now.cells.len());
        let u = p.heard(e.bytes).screen;
        assert(u.rows[row].cells =~= now.cells);
        let drawn = rows.update(row, RowView { cells: now.cells, wrapped: false });
        assert(u.rows =~= drawn);
        if now.wrapped {
            lemma_told_edge(p, e, drawn, height, row);
            assert(drawn.update(row, now) =~= rows.update(row, now));
        } else {
            assert(drawn == rows.update(row, now));
        }
    }
}

/// The lines when the first `n` have been drawn.
spec fn lines_drawn(before: Seq<RowView>, now: Seq<RowView>, n: int) -> Seq<RowView> {
    Seq::new(
        now.len(),
        |k: int|
            if k < n {
                now[k]
            } else if k == n {
                contents::line_was(before, now, k)
            } else {
                before[k]
            },
    )
}

proof fn lemma_row_erased(row: RowView, width: int)
    requires
        screen::row_wf(row, width),
    ensures
        screen::row_wf(screen::row_erased(row, 0, 1), width),
{
    screen::lemma_erasing_keeps_whole(row.cells, 0, 1, Color::Default);
}

/// The lines of a screen are drawn.
proof fn lemma_told_lines(p: ParserView, d: Drawn, before: Seq<RowView>, now: ScreenView, n: nat)
    requires
        now.wf(),
        before.len() == now.height,
        forall|k: int| 0 <= k < before.len() ==> screen::row_wf(#[trigger] before[k], now.width),
        n <= now.height,
        displays(p.heard(d.bytes), d.attrs, before, now.height, now.width),
    ensures
        ({
            let e = contents::drawn_lines(d, before, now.rows, n);
            displays(
                p.heard(e.bytes),
                e.attrs,
                lines_drawn(before, now.rows, n as int),
                now.height,
                now.width,
            )
        }),
    decreases n,
{
    if n == 0 {
        assert(lines_drawn(before, now.rows, 0) =~= before);
    } else {
        let m = n - 1;
        let e = contents::drawn_lines(d, before, now.rows, m as nat);
        let rows = lines_drawn(before, now.rows, m);
        lemma_told_lines(p, d, before, now, m as nat);
        assert(screen::row_wf(before[m], now.width));
        lemma_row_erased(before[m], now.width);
        assert(screen::row_wf(now.rows[m], now.width));
        assert(rows[m] == contents::line_was(before, now.rows, m));
        if now.rows[m].wrapped {
            assert(now.rows.last() == now.rows[now.height - 1]);
            assert(m + 1 < now.height);
            assert(screen::row_wf(before[m + 1], now.width));
            assert(rows[m + 1] == before[m + 1]);
        }
        lemma_told_line(p, e, rows, now.height, now.width, now.rows[m], m);
        assert(line_drawn(rows, now.rows[m], m) =~= lines_drawn(before, now.rows, n as int));
    }
}

/// The sequences that start a drawing make the terminal empty.
proof fn lemma_told_clear(p: ParserView)
    requires
        p.at_rest(),
        p.screen.wf(),
    ensures
        displays(
            p.told("\x1b[m\x1b[H\x1b[J"@),
            None,
            screen::blank_rows(p.screen.height, p.screen.width),
            p.screen.height,
            p.screen.width,
        ),
{
    reveal_strlit("\x1b[m\x1b[H\x1b[J");
    reveal_strlit("\x1b[m");
    reveal_strlit("\x1b[");
    let a = "\x1b[m"@;
    let b = "\x1b["@;
    let h = seq!['H'];
    let j = seq!['J'];
    assert("\x1b[m\x1b[H\x1b[J"@ =~= a + b + h + b + j);
    lemma_told_pieces(p, a + b + h + b, j);
    lemma_told_pieces(p, a + b + h, b);
    lemma_told_pieces(p, a + b, h);
    lemma_told_pieces(p, a, b);
    lemma_told_reset(p);
    lemma_told_start(p.told(a));
    lemma_told_end(p.told(a + b), h);
    let q = p.told(a + b + h);
    assert(q.screen == (ScreenView { attrs: cell::plain_attrs(), row: 0, col: 0, ..p.screen }));
    lemma_told_start(q);
    lemma_told_end(p.told(a + b + h + b), j);
    let t = q.screen;
    let u = t.display_erased(0);
    let blank = screen::blank_row(t.width, Color::Default);
    assert(p.told("\x1b[m\x1b[H\x1b[J"@).screen == u);
    assert(screen::row_wf(t.rows[0], t.width));
    assert(screen::mended(screen::erased(t.rows[0].cells, 0, t.width, t.blank()))
        =~= blank.cells);
    assert forall|k: int| 0 <= k < p.screen.height implies #[trigger] u.rows[k] == blank by {
        if k == 0 {
            assert(u.rows[0] == t.erased_part(0, 0, t.width).rows[0]);
            assert(!screen::is_full(blank.cells));
        } else {
            assert(u.rows[k] == t.blank_line());
        }
    }
    assert(u.rows =~= screen::blank_rows(t.height, t.width));
}

impl ScreenView {
    /// Whether the screen shows exactly what another one does: the same lines of the same cells,
    /// running on in the same places, the cursor in the same place, shown or hidden, and the same
    /// attributes for the text that follows.
    pub open spec fn shows(self, s: ScreenView) -> bool {
        &&& self.height == s.height
        &&& self.width == s.width
        &&& self.rows == s.rows
        &&& self.row == s.row
        &&& self.col == s.col
        &&& self.hidden == s.hidden
        &&& self.attrs == s.attrs
    }
}

/// The cursor is put in its place.
proof fn lemma_told_cursor(p: ParserView, d: Drawn, s: ScreenView)
    requires
        s.wf(),
        displays(p.heard(d.bytes), d.attrs, s.rows, s.height, s.width),
    ensures
        ({
            let e = s.cursor_drawn(d);
            let q = p.heard(e.bytes);
            &&& displays(q, e.attrs, s.rows, s.height, s.width)
            &&& q.screen.row == s.row
            &&& q.screen.col == s.col
        }),
{
    let cells = s.rows[s.row].cells;
    let row = (s.row + 1) as nat;
    assert(screen::row_wf(s.rows[s.row], s.width));
    if s.col < s.width {
        let goto = ansi::goto_text(row, (s.col + 1) as nat);
        lemma_heard_text(p, d, goto);
        lemma_told_goto(p.heard(d.bytes), row, (s.col + 1) as nat);
    } else if screen::is_full(cells) {
        let k = contents::last_place(cells);
        contents::lemma_last_place(cells);
        lemma_can_stand(cells, k);
        lemma_repainted(cells, k);
        lemma_heard_cell(p, d, s.row, k, cells[k]);
        assert(s.rows.update(s.row, s.rows[s.row]) =~= s.rows);
    } else {
        let c = cells.last();
        let n = s.width - 1;
        let space = screen::glyph_cell(' ', false, c.attrs);
        lemma_space();
        assert(space.chars() == " "@);
        assert(c.sound() && !screen::torn(cells, n)) by {
            reveal(screen::whole);
            assert(cells[n].sound());
        }
        lemma_can_stand(cells, n);
        let d1 = d.with_text(row, s.width as nat, " "@, c.attrs);
        assert(d1 == d.with_cell(row, s.width as nat, space));
        lemma_heard_cell(p, d, s.row, n, space);
        lemma_painted_is_whole(cells, n, space);
        let d2 = d1.then_text("\x1b7"@);
        lemma_heard_text(p, d1, "\x1b7"@);
        lemma_told_saved(p.heard(d1.bytes), false);
        let d3 = d2.with_cell(row, s.width as nat, c);
        lemma_heard_cell(p, d2, s.row, n, c);
        lemma_heard_text(p, d3, "\x1b8"@);
        lemma_told_saved(p.heard(d3.bytes), true);
        let between = painted(cells, n, space);
        let after = painted(between, n, c);
        lemma_painted_is_whole(between, n, c);
        assert forall|i: int| 0 <= i < after.len() implies after[i] == cells[i] by {
            if i < n {
                lemma_painted_at(cells, n, space, i);
                lemma_painted_at(between, n, c, i);
            }
        }
        assert(after =~= cells);
        assert(p.heard(d3.bytes).screen.rows =~= s.rows);
    }
}

/// When all lines are drawn and the drawing is finished, the terminal shows the screen.
proof fn lemma_told_all(p: ParserView, d: Drawn, before: Seq<RowView>, now: ScreenView)
    requires
        now.wf(),
        before.len() == now.height,
        forall|k: int| 0 <= k < before.len() ==> screen::row_wf(#[trigger] before[k], now.width),
        displays(p.heard(d.bytes), d.attrs, before, now.height, now.width),
    ensures
        ({
            let e = contents::drawn_lines(d, before, now.rows, now.height as nat);
            let q = p.heard(now.finished(e).bytes);
            q.at_rest() && q.screen.shows(now)
        }),
{
    let e = contents::drawn_lines(d, before, now.rows, now.height as nat);
    lemma_told_lines(p, d, before, now, now.height as nat);
    assert(lines_drawn(before, now.rows, now.height) =~= now.rows);
    lemma_told_cursor(p, e, now);
    let f = now.cursor_drawn(e);
    let g = f.with_attrs(now.attrs);
    if f.attrs != Some(now.attrs) {
        assert(g.bytes == f.then_text(draw::attrs_text(now.attrs)).bytes);
        lemma_heard_text(p, f, draw::attrs_text(now.attrs));
        lemma_told_attrs(p.heard(f.bytes), now.attrs);
    }
    let h = if now.hidden {
        "\x1b[?25l"@
    } else {
        "\x1b[?25h"@
    };
    lemma_heard_text(p, g, h);
    lemma_told_hidden(p.heard(g.bytes), now.hidden);
}

/// The bytes that draw a screen reproduce it exactly on any terminal of its size: its text, the way
/// that each cell is drawn, where its lines run on, and the cursor.
pub proof fn law_drawing_reproduces_the_screen(s: ScreenView, p: ParserView)
    requires
        s.wf(),
        p.wf(),
        p.at_rest(),
        p.screen.height == s.height,
        p.screen.width == s.width,
    ensures
        p.fed_all(s.formatted()).at_rest(),
        p.fed_all(s.formatted()).screen.shows(s),
        p.fed_all(s.formatted()).screen.text() == s.text(),
{
    let start = "\x1b[m\x1b[H\x1b[J"@;
    let none = contents::nothing_drawn();
    let d = none.then_text(start);
    let before = screen::blank_rows(s.height, s.width);
    assert(p.heard(none.bytes) == p) by {
        reveal(ParserView::heard);
    }
    lemma_heard_text(p, none, start);
    lemma_told_clear(p);
    let blank = screen::blank_row(s.width, Color::Default);
    assert(screen::whole(blank.cells)) by {
        reveal(screen::whole);
    }
    assert(forall|k: int| 0 <= k < before.len() ==> before[k] == blank);
    lemma_told_all(p, d, before, s);
    reveal(ParserView::heard);
}

/// The bytes that turn the display of an earlier screen into that of this one do so, on a terminal
/// of its size: where the earlier screen has that size, the terminal has to show it.
pub proof fn law_differences_update_the_display(
    now: ScreenView,
    before: ScreenView,
    p: ParserView,
)
    requires
        now.wf(),
        before.wf(),
        p.wf(),
        p.at_rest(),
        p.screen.height == now.height,
        p.screen.width == now.width,
        before.height == now.height && before.width == now.width ==> p.screen.shows(before),
    ensures
        p.fed_all(now.difference(before)).at_rest(),
        p.fed_all(now.difference(before)).screen.shows(now),
        p.fed_all(now.difference(before)).screen.text() == now.text(),
{
    if now.height != before.height || now.width != before.width {
        law_drawing_reproduces_the_screen(now, p);
    } else {
        let d = contents::nothing_drawn();
        assert(p.heard(d.bytes) == p) by {
            reveal(ParserView::heard);
        }
        lemma_told_all(p, d, before.rows, now);
        let e = contents::drawn_lines(d, before.rows, now.rows, now.height as nat);
        if e.bytes.len() == 0 && now.row == before.row && now.col == before.col && now.hidden
            == before.hidden && now.attrs == before.attrs {
            lemma_told_lines(p, d, before.rows, now, now.height as nat);
            assert(lines_drawn(before.rows, now.rows, now.height) =~= now.rows);
            assert(e.bytes =~= Seq::empty());
        }
        assert(p.heard(now.difference(before)).at_rest());
        reveal(ParserView::heard);
    }
}

/// A character is printed when the bytes of its encoding are read.
pub proof fn lemma_char_is_printed(p: ParserView, c: char)
    requires
        p.at_rest(),
        cell::is_text(c),
    ensures
        p.fed_all(encode_utf8(seq![c])).at_rest(),
        p.fed_all(encode_utf8(seq![c])).screen == p.screen.printed(c),
{
    lemma_told_char(p, c);
    assert(p.fed_all(encode_utf8(seq![c])) == p.told(seq![c])) by {
        reveal(ParserView::told);
        reveal(ParserView::heard);
    }
}

} // verus!
