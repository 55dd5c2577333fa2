//! What the control sequences of a terminal do to its screen, byte by byte.
use crate::ansi;
use crate::ansi::Attribute;
use crate::text;
use crate::vt100::cell;
use crate::vt100::cell::{Attrs, Cell, Color};
use crate::vt100::parser;
use crate::vt100::parser::{Mode, ParserView};
use crate::vt100::redraw;
use crate::vt100::screen;
use crate::vt100::screen::{RowView, ScreenView};
use vstd::prelude::*;
use vstd::string::*;
use vstd::utf8::*;

verus! {

/// The bytes of a number in decimal notation.
pub open spec fn number_bytes(n: nat) -> Seq<u8> {
    text::decimal(n).map_values(|c: char| c as u8)
}

/// The bytes of numbers with semicolons between them.
pub open spec fn list_bytes(ns: Seq<nat>) -> Seq<u8>
    decreases ns.len(),
{
    if ns.len() == 0 {
        Seq::empty()
    } else if ns.len() == 1 {
        number_bytes(ns[0])
    } else {
        list_bytes(ns.drop_last()) + seq![0x3bu8] + number_bytes(ns.last())
    }
}

/// A control sequence: an escape character, a bracket, numbers and a last byte.
pub open spec fn control_bytes(ns: Seq<nat>, last: u8) -> Seq<u8> {
    seq![0x1bu8, 0x5b] + list_bytes(ns) + seq![last]
}

/// A control sequence that switches private modes: there is a question mark in front of the numbers.
pub open spec fn mode_bytes(ns: Seq<nat>, last: u8) -> Seq<u8> {
    seq![0x1bu8, 0x5b, 0x3f] + list_bytes(ns) + seq![last]
}

/// The screen after a control sequence.
#[verifier::opaque]
pub open spec fn controlled(p: ParserView, ns: Seq<nat>, last: u8) -> ScreenView {
    p.fed_all(control_bytes(ns, last)).screen
}

/// The screen after a control sequence that switches private modes.
#[verifier::opaque]
pub open spec fn switched(p: ParserView, ns: Seq<nat>, last: u8) -> ScreenView {
    p.fed_all(mode_bytes(ns, last)).screen
}

/// Whether the interpreter is outside of escape sequences and between characters, with a valid
/// screen.
pub open spec fn ready(p: ParserView) -> bool {
    p.at_rest() && p.screen.wf()
}

/// A number as an interpreter holds it.
spec fn held(n: nat) -> u16 {
    if n > 0xffff {
        0xffff
    } else {
        n as u16
    }
}

/// Numbers as an interpreter holds them; where there are none, a single zero.
spec fn all_held(ns: Seq<nat>) -> Seq<u16> {
    if ns.len() == 0 {
        seq![0u16]
    } else {
        ns.map_values(|n: nat| held(n))
    }
}

/// The state after bytes.
#[verifier::opaque]
spec fn heard(p: ParserView, s: Seq<u8>) -> ParserView {
    p.fed_all(s)
}

proof fn lemma_heard_pieces(p: ParserView, a: Seq<u8>, b: Seq<u8>)
    ensures
        heard(p, a + b) == heard(heard(p, a), b),
{
    reveal(heard);
    parser::law_pieces_make_no_difference(p, a, b);
}

proof fn lemma_heard_nothing(p: ParserView)
    ensures
        heard(p, Seq::empty()) == p,
{
    reveal(heard);
}

proof fn lemma_heard_one(p: ParserView, b: u8)
    ensures
        heard(p, seq![b]) == p.fed(b),
{
    reveal(heard);
    let s = seq![b];
    assert(s.drop_last() =~= Seq::empty());
    assert(p.fed_all(s.drop_last()) == p);
}

proof fn lemma_heard_digit(p: ParserView, d: nat)
    requires
        p.mode == Mode::Csi,
        p.params.len() > 0,
        d < 10,
    ensures
        heard(p, seq![(0x30 + d) as u8]) == (ParserView {
            params: p.params.update(
                p.params.len() - 1,
                parser::with_digit(p.params.last(), d as int),
            ),
            ..p
        }),
{
    lemma_heard_one(p, (0x30 + d) as u8);
}

proof fn lemma_heard_semicolon(p: ParserView)
    requires
        p.mode == Mode::Csi,
    ensures
        heard(p, seq![0x3bu8]) == (ParserView { params: p.params.push(0), ..p }),
{
    lemma_heard_one(p, 0x3b);
}

proof fn lemma_heard_digits(p: ParserView, n: nat)
    requires
        p.mode == Mode::Csi,
        p.params.len() > 0,
        p.params.last() == 0,
    ensures
        heard(p, number_bytes(n)) == (ParserView {
            params: p.params.update(p.params.len() - 1, held(n)),
            ..p
        }),
    decreases n,
{
    let last = p.params.len() - 1;
    if n < 10 {
        assert(text::digit_char(n) as u8 == 0x30 + n);
        assert(number_bytes(n) =~= seq![(0x30 + n) as u8]);
        lemma_heard_digit(p, n);
    } else {
        let a = number_bytes(n / 10);
        let b = (0x30 + n % 10) as u8;
        assert(text::digit_char(n % 10) as u8 == 0x30 + n % 10);
        assert(number_bytes(n) =~= a + seq![b]);
        lemma_heard_digits(p, n / 10);
        lemma_heard_pieces(p, a, seq![b]);
        lemma_heard_digit(heard(p, a), n % 10);
        assert(p.params.update(last, held(n / 10)).update(last, held(n)) =~= p.params.update(
            last,
            held(n),
        ));
    }
}

proof fn lemma_heard_list(p: ParserView, ns: Seq<nat>)
    requires
        p.mode == Mode::Csi,
        p.params == seq![0u16],
    ensures
        heard(p, list_bytes(ns)) == (ParserView { params: all_held(ns), ..p }),
    decreases ns.len(),
{
    if ns.len() == 0 {
        lemma_heard_nothing(p);
    } else if ns.len() == 1 {
        lemma_heard_digits(p, ns[0]);
        assert(p.params.update(0, held(ns[0])) =~= all_held(ns));
    } else {
        let a = list_bytes(ns.drop_last());
        let b = seq![0x3bu8];
        let c = number_bytes(ns.last());
        lemma_heard_list(p, ns.drop_last());
        lemma_heard_pieces(p, a + b, c);
        lemma_heard_pieces(p, a, b);
        let q = heard(p, a);
        lemma_heard_semicolon(q);
        let r = heard(p, a + b);
        lemma_heard_digits(r, ns.last());
        assert(r.params.update(r.params.len() - 1, held(ns.last())) =~= all_held(ns));
    }
}

proof fn lemma_heard_start(p: ParserView)
    requires
        p.at_rest(),
    ensures
        heard(p, seq![0x1bu8]) == (ParserView { mode: Mode::Escape, ..p }),
        heard(p, seq![0x1bu8, 0x5b]) == (ParserView {
            mode: Mode::Csi,
            params: seq![0u16],
            marker: 0,
            ..p
        }),
{
    lemma_heard_one(p, 0x1b);
    let q = heard(p, seq![0x1bu8]);
    assert(q == ParserView { mode: Mode::Escape, ..p });
    lemma_heard_one(q, 0x5b);
    assert(seq![0x1bu8, 0x5b] =~= seq![0x1bu8] + seq![0x5bu8]);
    lemma_heard_pieces(p, seq![0x1bu8], seq![0x5bu8]);
}

proof fn lemma_heard_marker(p: ParserView)
    requires
        p.mode == Mode::Csi,
    ensures
        heard(p, seq![0x3fu8]) == (ParserView { marker: 0x3f, ..p }),
{
    lemma_heard_one(p, 0x3f);
}

proof fn lemma_heard_end(p: ParserView, last: u8)
    requires
        p.mode == Mode::Csi,
        0x40 <= last <= 0x7e,
    ensures
        heard(p, seq![last]) == (ParserView {
            screen: parser::after_sequence(p.screen, p.params, p.marker, last),
            mode: Mode::Ground,
            ..p
        }),
{
    lemma_heard_one(p, last);
}

/// What the interpreter makes of a control sequence.
proof fn lemma_sequence(p: ParserView, ns: Seq<nat>, last: u8)
    requires
        p.at_rest(),
        0x40 <= last <= 0x7e,
    ensures
        heard(p, control_bytes(ns, last)) == (ParserView {
            screen: parser::after_sequence(p.screen, all_held(ns), 0, last),
            mode: Mode::Ground,
            params: all_held(ns),
            marker: 0,
            ..p
        }),
{
    let start = seq![0x1bu8, 0x5b];
    let l = list_bytes(ns);
    lemma_heard_pieces(p, start + l, seq![last]);
    lemma_heard_pieces(p, start, l);
    lemma_heard_start(p);
    let q = heard(p, start);
    lemma_heard_list(q, ns);
    lemma_heard_end(heard(q, l), last);
}

proof fn lemma_mode_sequence(p: ParserView, ns: Seq<nat>, last: u8)
    requires
        p.at_rest(),
        0x40 <= last <= 0x7e,
    ensures
        heard(p, mode_bytes(ns, last)) == (ParserView {
            screen: parser::after_sequence(p.screen, all_held(ns), 0x3f, last),
            mode: Mode::Ground,
            params: all_held(ns),
            marker: 0x3f,
            ..p
        }),
{
    let start = seq![0x1bu8, 0x5b, 0x3f];
    let l = list_bytes(ns);
    lemma_heard_pieces(p, start + l, seq![last]);
    lemma_heard_pieces(p, start, l);
    assert(start =~= seq![0x1bu8, 0x5b] + seq![0x3fu8]);
    lemma_heard_pieces(p, seq![0x1bu8, 0x5b], seq![0x3fu8]);
    lemma_heard_start(p);
    lemma_heard_marker(heard(p, seq![0x1bu8, 0x5b]));
    let q = heard(p, start);
    lemma_heard_list(q, ns);
    lemma_heard_end(heard(q, l), last);
}

proof fn lemma_controlled(p: ParserView, ns: Seq<nat>, last: u8)
    requires
        p.at_rest(),
        0x40 <= last <= 0x7e,
    ensures
        controlled(p, ns, last) == parser::after_sequence(p.screen, all_held(ns), 0, last),
{
    lemma_sequence(p, ns, last);
    assert(controlled(p, ns, last) == heard(p, control_bytes(ns, last)).screen) by {
        reveal(controlled);
        reveal(heard);
    }
}

proof fn lemma_switched(p: ParserView, ns: Seq<nat>, last: u8)
    requires
        p.at_rest(),
        0x40 <= last <= 0x7e,
    ensures
        switched(p, ns, last) == parser::after_sequence(p.screen, all_held(ns), 0x3f, last),
{
    lemma_mode_sequence(p, ns, last);
    assert(switched(p, ns, last) == heard(p, mode_bytes(ns, last)).screen) by {
        reveal(switched);
        reveal(heard);
    }
}

/// Cursor up and cursor down change nothing but the line of the cursor. It stays in the scrolling
/// region when it is in it, and on the screen in any case.
pub proof fn law_cursor_up_and_down(p: ParserView, n: nat)
    requires
        ready(p),
        n >= 1,
    ensures
        ({
            let s = p.screen;
            let up = controlled(p, seq![n], 0x41);
            let down = controlled(p, seq![n], 0x42);
            let first = if s.row >= s.top { s.top } else { 0 };
            let last = if s.row <= s.bottom { s.bottom } else { s.height - 1 };
            &&& up == ScreenView { row: if s.row - n < first { first } else { s.row - n }, ..s }
            &&& down == ScreenView { row: if s.row + n > last { last } else { s.row + n }, ..s }
        }),
{
    lemma_controlled(p, seq![n], 0x41);
    lemma_controlled(p, seq![n], 0x42);
    assert(all_held(seq![n])[0] == held(n));
}

/// Cursor right and cursor left change nothing but the column of the cursor, which stays on the
/// screen.
pub proof fn law_cursor_right_and_left(p: ParserView, n: nat)
    requires
        ready(p),
        n >= 1,
    ensures
        ({
            let s = p.screen;
            let right = controlled(p, seq![n], 0x43);
            let left = controlled(p, seq![n], 0x44);
            let from = if s.col == s.width { s.width - 1 } else { s.col };
            &&& right == ScreenView {
                col: if s.col + n > s.width - 1 { s.width - 1 } else { s.col + n },
                ..s
            }
            &&& left == ScreenView { col: if from < n { 0 } else { from - n }, ..s }
        }),
{
    lemma_controlled(p, seq![n], 0x43);
    lemma_controlled(p, seq![n], 0x44);
    assert(all_held(seq![n])[0] == held(n));
}

/// The sequences for a following and a preceding line move the cursor as those for down and up do,
/// and then to the first column.
pub proof fn law_following_and_preceding_lines(p: ParserView, n: nat)
    requires
        ready(p),
        n >= 1,
    ensures
        controlled(p, seq![n], 0x45) == (ScreenView {
            col: 0,
            ..controlled(p, seq![n], 0x42)
        }),
        controlled(p, seq![n], 0x46) == (ScreenView {
            col: 0,
            ..controlled(p, seq![n], 0x41)
        }),
{
    lemma_controlled(p, seq![n], 0x41);
    lemma_controlled(p, seq![n], 0x42);
    lemma_controlled(p, seq![n], 0x45);
    lemma_controlled(p, seq![n], 0x46);
}

/// The cursor is put at a line and a column, which count from one; places off the screen stand for
/// its edges. Nothing else changes.
pub proof fn law_the_cursor_is_placed(p: ParserView, row: nat, col: nat)
    requires
        ready(p),
        row >= 1,
        col >= 1,
    ensures
        ({
            let s = p.screen;
            let r = if row > s.height { s.height - 1 } else { row - 1 };
            let c = if col > s.width { s.width - 1 } else { col - 1 };
            &&& controlled(p, seq![row, col], 0x48) == ScreenView { row: r, col: c, ..s }
            &&& controlled(p, seq![row, col], 0x66) == ScreenView { row: r, col: c, ..s }
            &&& controlled(p, seq![row], 0x48) == ScreenView { row: r, col: 0, ..s }
            &&& controlled(p, Seq::empty(), 0x48) == ScreenView { row: 0, col: 0, ..s }
            &&& controlled(p, seq![col], 0x47) == ScreenView { col: c, ..s }
            &&& s.col < s.width ==> controlled(p, seq![row], 0x64) == ScreenView { row: r, ..s }
        }),
{
    lemma_controlled(p, seq![row, col], 0x48);
    lemma_controlled(p, seq![row, col], 0x66);
    lemma_controlled(p, seq![row], 0x48);
    lemma_controlled(p, Seq::empty(), 0x48);
    lemma_controlled(p, seq![col], 0x47);
    lemma_controlled(p, seq![row], 0x64);
    assert(all_held(seq![row, col])[0] == held(row));
    assert(all_held(seq![row, col])[1] == held(col));
    assert(all_held(seq![row])[0] == held(row));
    assert(all_held(seq![col])[0] == held(col));
}

/// Without a number, or with zero, the sequences that count do so once.
pub proof fn law_no_number_counts_as_one(p: ParserView, last: u8)
    requires
        ready(p),
        0x40 <= last <= 0x48 || last == 0x4c || last == 0x4d || last == 0x50 || last == 0x53 || last
            == 0x54 || last == 0x58 || last == 0x64,
    ensures
        controlled(p, Seq::empty(), last) == controlled(p, seq![1], last),
        controlled(p, seq![0], last) == controlled(p, seq![1], last),
{
    lemma_controlled(p, Seq::empty(), last);
    lemma_controlled(p, seq![0], last);
    lemma_controlled(p, seq![1], last);
    assert(all_held(seq![0nat])[0] == 0);
    assert(all_held(seq![1nat])[0] == 1);
}

/// The screen after bytes.
#[verifier::opaque]
pub open spec fn shown(p: ParserView, bytes: Seq<u8>) -> ScreenView {
    p.fed_all(bytes).screen
}

/// An empty cell in a background colour.
pub open spec fn is_empty_cell(c: Cell, background: Color) -> bool {
    c == Cell {
        glyph: '\0',
        mark: '\0',
        wide: false,
        continuation: false,
        attrs: Attrs {
            bold: false,
            italic: false,
            underline: false,
            inverse: false,
            fgcolor: Color::Default,
            bgcolor: background,
        },
    }
}

/// An empty line in a background colour.
pub open spec fn is_empty_line(row: RowView, width: int, background: Color) -> bool {
    &&& row.cells.len() == width
    &&& forall|c: int| 0 <= c < width ==> is_empty_cell(#[trigger] row.cells[c], background)
}

/// A cell that came from another: as it was, or empty where it was a part of a wide character.
pub open spec fn comes_from(now: Cell, was: Cell) -> bool {
    now == was || ((was.wide || was.continuation) && is_empty_cell(now, was.attrs.bgcolor))
}

/// Nothing but cells was erased: those at the given lines and columns, and wide characters of which
/// these are a part. All others are as they were.
pub open spec fn erases(s: ScreenView, t: ScreenView, inside: spec_fn(int, int) -> bool) -> bool {
    &&& t == ScreenView { rows: t.rows, ..s }
    &&& t.rows.len() == s.rows.len()
    &&& forall|r: int| 0 <= r < s.height ==> (#[trigger] t.rows[r]).cells.len() == s.width
    &&& forall|r: int, c: int|
        0 <= r < s.height && 0 <= c < s.width ==> (if inside(r, c) {
            is_empty_cell(#[trigger] t.rows[r].cells[c], s.attrs.bgcolor)
        } else {
            comes_from(t.rows[r].cells[c], s.rows[r].cells[c])
        })
    &&& forall|r: int|
        0 <= r < s.height && (forall|c: int| 0 <= c < s.width ==> !#[trigger] inside(r, c))
            ==> #[trigger] t.rows[r] == s.rows[r]
}

proof fn lemma_mended_cell(cells: Seq<Cell>, was: Cell, i: int)
    requires
        0 <= i < cells.len(),
        cells[i] == was,
        was.sound(),
        cells.len() >= 2 && !was.wide ==> cell::char_width(was.glyph) != 2,
    ensures
        comes_from(screen::mended(cells)[i], was),
{
}

proof fn lemma_narrow_cell(cells: Seq<Cell>, i: int)
    requires
        screen::whole(cells),
        0 <= i < cells.len(),
    ensures
        cells[i].sound(),
        cells.len() >= 2 && !cells[i].wide ==> cell::char_width(cells[i].glyph) != 2,
        !screen::torn(cells, i),
{
    reveal(screen::whole);
}

proof fn lemma_erased_part(s: ScreenView, row: int, from: int, to: int)
    requires
        s.wf(),
        0 <= row < s.height,
        0 <= from,
    ensures
        erases(s, s.erased_part(row, from, to), |r: int, c: int| r == row && from <= c < to),
{
    let t = s.erased_part(row, from, to);
    let inside = |r: int, c: int| r == row && from <= c < to;
    let was = s.rows[row].cells;
    let e = screen::erased(was, from, to, s.blank());
    assert(screen::row_wf(s.rows[row], s.width));
    assert forall|r: int, c: int| 0 <= r < s.height && 0 <= c < s.width implies (if inside(r, c) {
        is_empty_cell(#[trigger] t.rows[r].cells[c], s.attrs.bgcolor)
    } else {
        comes_from(t.rows[r].cells[c], s.rows[r].cells[c])
    }) by {
        if r == row {
            lemma_narrow_cell(was, c);
            if !(from <= c < to) {
                lemma_mended_cell(e, was[c], c);
            }
        }
    }
    assert forall|r: int| 0 <= r < s.height implies (#[trigger] t.rows[r]).cells.len()
        == s.width by {
        assert(screen::row_wf(s.rows[r], s.width));
    }
    assert forall|r: int|
        0 <= r < s.height && (forall|c: int| 0 <= c < s.width ==> !#[trigger] inside(r, c)) implies (
    #[trigger] t.rows[r]) == s.rows[r] by {
        if r == row {
            assert forall|c: int| 0 <= c < s.width implies screen::mended(e)[c] == was[c] by {
                assert(!inside(r, c));
                lemma_narrow_cell(was, c);
                assert(e =~= was) by {
                    assert forall|k: int| 0 <= k < was.len() implies e[k] == was[k] by {
                        assert(!inside(r, k));
                    }
                }
            }
            assert(screen::mended(e) =~= was);
        }
    }
}

proof fn lemma_same_cells(
    s: ScreenView,
    t: ScreenView,
    a: spec_fn(int, int) -> bool,
    b: spec_fn(int, int) -> bool,
)
    requires
        erases(s, t, a),
        forall|r: int, c: int|
            0 <= r < s.height && 0 <= c < s.width ==> #[trigger] a(r, c) == b(r, c),
        forall|r: int, c: int|
            0 <= r < s.height && 0 <= c < s.width ==> a(r, c) == #[trigger] b(r, c),
    ensures
        erases(s, t, b),
{
    assert forall|r: int, c: int| 0 <= r < s.height && 0 <= c < s.width implies (if b(r, c) {
        is_empty_cell(#[trigger] t.rows[r].cells[c], s.attrs.bgcolor)
    } else {
        comes_from(t.rows[r].cells[c], s.rows[r].cells[c])
    }) by {
        assert(a(r, c) == b(r, c));
    }
    assert forall|r: int|
        0 <= r < s.height && (forall|c: int| 0 <= c < s.width ==> !#[trigger] b(r, c)) implies (
    #[trigger] t.rows[r]) == s.rows[r] by {
        assert forall|c: int| 0 <= c < s.width implies !#[trigger] a(r, c) by {
            assert(!b(r, c));
        }
    }
}

/// Erasing the line of the cursor: from the cursor on, up to and with the cursor, or whole.
pub proof fn law_erasing_in_the_line(p: ParserView)
    requires
        ready(p),
    ensures
        ({
            let s = p.screen;
            &&& erases(s, controlled(p, seq![0], 0x4b), |r: int, c: int| r == s.row && c >= s.col)
            &&& erases(s, controlled(p, seq![1], 0x4b), |r: int, c: int| r == s.row && c <= s.col)
            &&& erases(s, controlled(p, seq![2], 0x4b), |r: int, c: int| r == s.row)
            &&& controlled(p, Seq::empty(), 0x4b) == controlled(p, seq![0], 0x4b)
        }),
{
    let s = p.screen;
    lemma_controlled(p, Seq::empty(), 0x4b);
    lemma_controlled(p, seq![0], 0x4b);
    lemma_controlled(p, seq![1], 0x4b);
    lemma_controlled(p, seq![2], 0x4b);
    assert(all_held(seq![0nat])[0] == 0);
    assert(all_held(seq![1nat])[0] == 1);
    assert(all_held(seq![2nat])[0] == 2);
    lemma_erased_part(s, s.row, s.col, s.width);
    lemma_erased_part(s, s.row, 0, s.col + 1);
    lemma_erased_part(s, s.row, 0, s.width);
    lemma_same_cells(
        s,
        controlled(p, seq![0], 0x4b),
        |r: int, c: int| r == s.row && s.col <= c < s.width,
        |r: int, c: int| r == s.row && c >= s.col,
    );
    lemma_same_cells(
        s,
        controlled(p, seq![1], 0x4b),
        |r: int, c: int| r == s.row && 0 <= c < s.col + 1,
        |r: int, c: int| r == s.row && c <= s.col,
    );
    lemma_same_cells(
        s,
        controlled(p, seq![2], 0x4b),
        |r: int, c: int| r == s.row && 0 <= c < s.width,
        |r: int, c: int| r == s.row,
    );
}

/// Erasing a number of cells from the cursor on.
pub proof fn law_erasing_cells(p: ParserView, n: nat)
    requires
        ready(p),
        n >= 1,
    ensures
        ({
            let s = p.screen;
            erases(
                s,
                controlled(p, seq![n], 0x58),
                |r: int, c: int| r == s.row && s.col <= c < s.col + n,
            )
        }),
{
    let s = p.screen;
    lemma_controlled(p, seq![n], 0x58);
    assert(all_held(seq![n])[0] == held(n));
    lemma_erased_part(s, s.row, s.col, s.col + held(n));
    lemma_same_cells(
        s,
        controlled(p, seq![n], 0x58),
        |r: int, c: int| r == s.row && s.col <= c < s.col + held(n),
        |r: int, c: int| r == s.row && s.col <= c < s.col + n,
    );
}

/// Erasing the screen: from the cursor on, up to and with the cursor, or whole.
pub proof fn law_erasing_in_the_display(p: ParserView)
    requires
        ready(p),
    ensures
        ({
            let s = p.screen;
            &&& erases(
                s,
                controlled(p, seq![0], 0x4a),
                |r: int, c: int| r > s.row || (r == s.row && c >= s.col),
            )
            &&& erases(
                s,
                controlled(p, seq![1], 0x4a),
                |r: int, c: int| r < s.row || (r == s.row && c <= s.col),
            )
            &&& erases(s, controlled(p, seq![2], 0x4a), |r: int, c: int| true)
            &&& controlled(p, Seq::empty(), 0x4a) == controlled(p, seq![0], 0x4a)
        }),
{
    let s = p.screen;
    lemma_controlled(p, Seq::empty(), 0x4a);
    lemma_controlled(p, seq![0], 0x4a);
    lemma_controlled(p, seq![1], 0x4a);
    lemma_controlled(p, seq![2], 0x4a);
    assert(all_held(seq![0nat])[0] == 0);
    assert(all_held(seq![1nat])[0] == 1);
    assert(all_held(seq![2nat])[0] == 2);
    lemma_erased_part(s, s.row, s.col, s.width);
    lemma_erased_part(s, s.row, 0, s.col + 1);
    let a = s.erased_part(s.row, s.col, s.width);
    let b = s.erased_part(s.row, 0, s.col + 1);
    lemma_erased_lines(s, a, s.row, s.col, s.width, s.row + 1, s.height);
    lemma_erased_lines(s, b, s.row, 0, s.col + 1, 0, s.row);
    lemma_same_cells(
        s,
        controlled(p, seq![0], 0x4a),
        |r: int, c: int|
            s.row + 1 <= r < s.height || (r == s.row && s.col <= c < s.width),
        |r: int, c: int| r > s.row || (r == s.row && c >= s.col),
    );
    lemma_same_cells(
        s,
        controlled(p, seq![1], 0x4a),
        |r: int, c: int| 0 <= r < s.row || (r == s.row && 0 <= c < s.col + 1),
        |r: int, c: int| r < s.row || (r == s.row && c <= s.col),
    );
    let z = s.erased_lines(0, s.height);
    let all = |r: int, c: int| true;
    assert forall|r: int|
        0 <= r < s.height && (forall|c: int| 0 <= c < s.width ==> !#[trigger] all(r, c)) implies (
    #[trigger] z.rows[r]) == s.rows[r] by {
        assert(!all(r, 0));
    }
    assert(erases(s, z, all));
}

proof fn lemma_erased_lines(
    s: ScreenView,
    a: ScreenView,
    row: int,
    from: int,
    to: int,
    first: int,
    last: int,
)
    requires
        s.wf(),
        0 <= row < s.height,
        erases(s, a, |r: int, c: int| r == row && from <= c < to),
        first > row || row >= last,
    ensures
        erases(
            s,
            a.erased_lines(first, last),
            |r: int, c: int| first <= r < last || (r == row && from <= c < to),
        ),
{
    let t = a.erased_lines(first, last);
    let one = |r: int, c: int| r == row && from <= c < to;
    let inside = |r: int, c: int| first <= r < last || (r == row && from <= c < to);
    assert forall|r: int, c: int| 0 <= r < s.height && 0 <= c < s.width implies (if inside(r, c) {
        is_empty_cell(#[trigger] t.rows[r].cells[c], s.attrs.bgcolor)
    } else {
        comes_from(t.rows[r].cells[c], s.rows[r].cells[c])
    }) by {
        if !(first <= r < last) {
            assert(t.rows[r] == a.rows[r]);
            assert(one(r, c) == inside(r, c));
            let known = a.rows[r].cells[c];
        }
    }
    assert forall|r: int| 0 <= r < s.height implies (#[trigger] t.rows[r]).cells.len()
        == s.width by {
        let known = a.rows[r];
    }
    assert forall|r: int|
        0 <= r < s.height && (forall|c: int| 0 <= c < s.width ==> !#[trigger] inside(r, c)) implies (
    #[trigger] t.rows[r]) == s.rows[r] by {
        assert(!inside(r, 0));
        assert(t.rows[r] == a.rows[r]);
        assert forall|c: int| 0 <= c < s.width implies !#[trigger] one(r, c) by {
            assert(!inside(r, c));
        }
    }
}

/// Empty cells are put in at the cursor, and the cells from the cursor on move to the right; or
/// cells are taken out there, and those behind them move to the left. Nothing changes but the line
/// of the cursor.
pub proof fn law_cells_are_put_in_and_taken_out(p: ParserView, n: nat)
    requires
        ready(p),
        n >= 1,
    ensures
        ({
            let s = p.screen;
            let more = controlled(p, seq![n], 0x40);
            let less = controlled(p, seq![n], 0x50);
            let was = s.rows[s.row].cells;
            &&& more == ScreenView { rows: s.rows.update(s.row, more.rows[s.row]), ..s }
            &&& less == ScreenView { rows: s.rows.update(s.row, less.rows[s.row]), ..s }
            &&& forall|c: int|
                0 <= c < s.width ==> (if c < s.col {
                    comes_from(#[trigger] more.rows[s.row].cells[c], was[c])
                } else if c < s.col + n {
                    is_empty_cell(more.rows[s.row].cells[c], s.attrs.bgcolor)
                } else {
                    comes_from(more.rows[s.row].cells[c], was[c - n])
                })
            &&& forall|c: int|
                0 <= c < s.width ==> (if c < s.col {
                    comes_from(#[trigger] less.rows[s.row].cells[c], was[c])
                } else if c + n < s.width {
                    comes_from(less.rows[s.row].cells[c], was[c + n])
                } else {
                    is_empty_cell(less.rows[s.row].cells[c], s.attrs.bgcolor)
                })
        }),
{
    let s = p.screen;
    lemma_controlled(p, seq![n], 0x40);
    lemma_controlled(p, seq![n], 0x50);
    assert(all_held(seq![n])[0] == held(n));
    let more = controlled(p, seq![n], 0x40);
    let less = controlled(p, seq![n], 0x50);
    let was = s.rows[s.row].cells;
    let k = held(n) as int;
    assert(screen::row_wf(s.rows[s.row], s.width));
    let i = screen::with_inserted(was, s.col, k, s.blank());
    let d = screen::with_deleted(was, s.col, k, s.blank());
    assert forall|c: int| 0 <= c < s.width implies (if c < s.col {
        comes_from(#[trigger] more.rows[s.row].cells[c], was[c])
    } else if c < s.col + n {
        is_empty_cell(more.rows[s.row].cells[c], s.attrs.bgcolor)
    } else {
        comes_from(more.rows[s.row].cells[c], was[c - n])
    }) by {
        assert(more.rows[s.row].cells == screen::mended(i));
        if c < s.col {
            lemma_narrow_cell(was, c);
            lemma_mended_cell(i, was[c], c);
        } else if c >= s.col + n {
            lemma_narrow_cell(was, c - n);
            lemma_mended_cell(i, was[c - n], c);
        }
    }
    assert forall|c: int| 0 <= c < s.width implies (if c < s.col {
        comes_from(#[trigger] less.rows[s.row].cells[c], was[c])
    } else if c + n < s.width {
        comes_from(less.rows[s.row].cells[c], was[c + n])
    } else {
        is_empty_cell(less.rows[s.row].cells[c], s.attrs.bgcolor)
    }) by {
        assert(less.rows[s.row].cells == screen::mended(d));
        if c < s.col {
            lemma_narrow_cell(was, c);
            lemma_mended_cell(d, was[c], c);
        } else if c + n < s.width {
            lemma_narrow_cell(was, c + n);
            lemma_mended_cell(d, was[c + n], c);
        }
    }
}

/// Lines `first` to `last` moved down by `n`, with empty ones above them; nothing else changed but
/// the scrollback.
pub open spec fn moved_down(s: ScreenView, t: ScreenView, first: int, last: int, n: int) -> bool {
    &&& t == ScreenView { rows: t.rows, scrollback: t.scrollback, ..s }
    &&& t.rows.len() == s.rows.len()
    &&& forall|r: int|
        0 <= r < s.height ==> (if r < first || r > last {
            #[trigger] t.rows[r] == s.rows[r]
        } else if r < first + n {
            is_empty_line(t.rows[r], s.width, s.attrs.bgcolor)
        } else {
            t.rows[r].cells == s.rows[r - n].cells
        })
}

/// Lines `first` to `last` moved up by `n`, with empty ones below them; nothing else changed but the
/// scrollback.
pub open spec fn moved_up(s: ScreenView, t: ScreenView, first: int, last: int, n: int) -> bool {
    &&& t == ScreenView { rows: t.rows, scrollback: t.scrollback, ..s }
    &&& t.rows.len() == s.rows.len()
    &&& forall|r: int|
        0 <= r < s.height ==> (if r < first || r > last {
            #[trigger] t.rows[r] == s.rows[r]
        } else if r + n <= last {
            t.rows[r] == s.rows[r + n]
        } else {
            is_empty_line(t.rows[r], s.width, s.attrs.bgcolor)
        })
}

proof fn lemma_down(s: ScreenView, first: int, n: nat)
    requires
        s.wf(),
        0 <= first <= s.bottom,
    ensures
        moved_down(s, s.shifted_down_by(first, n), first, s.bottom, n as int),
        s.shifted_down_by(first, n).scrollback == s.scrollback,
    decreases n,
{
    if n > 0 {
        let m = (n - 1) as nat;
        lemma_down(s, first, m);
        let t = s.shifted_down_by(first, m);
        let u = s.shifted_down_by(first, n);
        assert(u == t.shifted_down_at(first));
        assert forall|r: int| 0 <= r < s.height implies (if r < first || r > s.bottom {
            #[trigger] u.rows[r] == s.rows[r]
        } else if r < first + n {
            is_empty_line(u.rows[r], s.width, s.attrs.bgcolor)
        } else {
            u.rows[r].cells == s.rows[r - n].cells
        }) by {
            if r < first || r > s.bottom {
                assert(u.rows[r] == t.rows[r]);
            } else if r > first {
                assert(u.rows[r].cells == t.rows[r - 1].cells);
            } else {
                assert(u.rows[r].cells == t.blank_line().cells);
            }
        }
    }
}

proof fn lemma_up(s: ScreenView, first: int, n: nat)
    requires
        s.wf(),
        0 <= first <= s.bottom,
    ensures
        moved_up(s, s.shifted_up_by(first, n), first, s.bottom, n as int),
        s.shifted_up_by(first, n).scrollback == s.scrollback,
    decreases n,
{
    if n > 0 {
        let m = (n - 1) as nat;
        lemma_up(s, first, m);
        let t = s.shifted_up_by(first, m);
        let u = s.shifted_up_by(first, n);
        assert(u == t.shifted_up_at(first));
        assert forall|r: int| 0 <= r < s.height implies (if r < first || r > s.bottom {
            #[trigger] u.rows[r] == s.rows[r]
        } else if r + n <= s.bottom {
            u.rows[r] == s.rows[r + n]
        } else {
            is_empty_line(u.rows[r], s.width, s.attrs.bgcolor)
        }) by {
            if r < first || r > s.bottom {
                assert(u.rows[r] == t.rows[r]);
            } else if r < s.bottom {
                assert(u.rows[r] == t.rows[r + 1]);
            } else {
                assert(u.rows[r] == t.blank_line());
            }
        }
    }
}

/// The last lines, at most `limit`.
pub open spec fn newest(lines: Seq<RowView>, limit: int) -> Seq<RowView> {
    if lines.len() > limit {
        lines.skip(lines.len() - limit)
    } else {
        lines
    }
}

proof fn lemma_scrolled(s: ScreenView, n: nat)
    requires
        s.wf(),
    ensures
        moved_up(s, s.scrolled_up_by(n), s.top, s.bottom, n as int),
        s.top != 0 || s.main is Some ==> s.scrolled_up_by(n).scrollback == s.scrollback,
        s.top == 0 && s.main is None && n <= s.bottom + 1 ==> s.scrolled_up_by(n).scrollback
            == newest(s.scrollback + s.rows.take(n as int), s.limit),
    decreases n,
{
    if n == 0 {
        assert(s.scrollback + s.rows.take(0) =~= s.scrollback);
    } else {
        let m = (n - 1) as nat;
        lemma_scrolled(s, m);
        let t = s.scrolled_up_by(m);
        let u = s.scrolled_up_by(n);
        assert(u == t.scrolled_up());
        assert forall|r: int| 0 <= r < s.height implies (if r < s.top || r > s.bottom {
            #[trigger] u.rows[r] == s.rows[r]
        } else if r + n <= s.bottom {
            u.rows[r] == s.rows[r + n]
        } else {
            is_empty_line(u.rows[r], s.width, s.attrs.bgcolor)
        }) by {
            if r < s.top || r > s.bottom {
                assert(u.rows[r] == t.rows[r]);
            } else if r < s.bottom {
                assert(u.rows[r] == t.rows[r + 1]);
            } else {
                assert(u.rows[r] == t.blank_line());
            }
        }
        if s.top == 0 && s.main is None && n <= s.bottom + 1 {
            assert(t.rows[0] == s.rows[m as int]);
            let a = s.scrollback + s.rows.take(m as int);
            let b = s.scrollback + s.rows.take(n as int);
            assert(b =~= a.push(s.rows[m as int]));
            assert(u.scrollback =~= newest(b, s.limit));
        }
    }
}

/// Empty lines are put in at the cursor, or lines are taken out there, within the scrolling region;
/// outside of it nothing happens. Nothing is remembered.
pub proof fn law_lines_are_put_in_and_taken_out(p: ParserView, n: nat)
    requires
        ready(p),
        1 <= n <= 0xffff,
    ensures
        ({
            let s = p.screen;
            let more = controlled(p, seq![n], 0x4c);
            let less = controlled(p, seq![n], 0x4d);
            if s.top <= s.row <= s.bottom {
                &&& moved_down(s, more, s.row, s.bottom, n as int)
                &&& moved_up(s, less, s.row, s.bottom, n as int)
                &&& more.scrollback == s.scrollback
                &&& less.scrollback == s.scrollback
            } else {
                more == s && less == s
            }
        }),
{
    let s = p.screen;
    lemma_controlled(p, seq![n], 0x4c);
    lemma_controlled(p, seq![n], 0x4d);
    assert(all_held(seq![n])[0] == n);
    if s.top <= s.row <= s.bottom {
        lemma_down(s, s.row, n);
        lemma_up(s, s.row, n);
    }
}

/// The lines of the scrolling region scroll up or down; the cursor stays. What leaves the screen at
/// its top is remembered, the newest lines up to the limit, but for the alternate screen.
pub proof fn law_lines_scroll(p: ParserView, n: nat)
    requires
        ready(p),
        1 <= n <= 0xffff,
    ensures
        ({
            let s = p.screen;
            let up = controlled(p, seq![n], 0x53);
            let down = controlled(p, seq![n], 0x54);
            &&& moved_up(s, up, s.top, s.bottom, n as int)
            &&& moved_down(s, down, s.top, s.bottom, n as int)
            &&& down.scrollback == s.scrollback
            &&& s.top != 0 || s.main is Some ==> up.scrollback == s.scrollback
            &&& s.top == 0 && s.main is None && n <= s.bottom + 1 ==> up.scrollback == newest(
                s.scrollback + s.rows.take(n as int),
                s.limit,
            )
        }),
{
    let s = p.screen;
    lemma_controlled(p, seq![n], 0x53);
    lemma_controlled(p, seq![n], 0x54);
    assert(all_held(seq![n])[0] == n);
    lemma_scrolled(s, n);
    lemma_down(s, s.top, n);
}

/// The attributes of the text that follows change by one number as follows, and nothing else does.
/// A number that is not listed changes nothing.
pub proof fn law_attributes(p: ParserView, n: nat)
    requires
        ready(p),
        n <= 0xffff,
        n != 38 && n != 48,
    ensures
        ({
            let s = p.screen;
            let a = s.attrs;
            let plain = Attrs {
                bold: false,
                italic: false,
                underline: false,
                inverse: false,
                fgcolor: Color::Default,
                bgcolor: Color::Default,
            };
            let t = controlled(p, seq![n], 0x6d);
            &&& t == ScreenView { attrs: t.attrs, ..s }
            &&& controlled(p, Seq::empty(), 0x6d) == ScreenView { attrs: plain, ..s }
            &&& t.attrs == (if n == 0 {
                plain
            } else if n == 1 || n == 22 {
                Attrs { bold: n == 1, ..a }
            } else if n == 3 || n == 23 {
                Attrs { italic: n == 3, ..a }
            } else if n == 4 || n == 24 {
                Attrs { underline: n == 4, ..a }
            } else if n == 7 || n == 27 {
                Attrs { inverse: n == 7, ..a }
            } else if 30 <= n < 38 {
                Attrs { fgcolor: Color::Idx((n - 30) as u8), ..a }
            } else if 90 <= n < 98 {
                Attrs { fgcolor: Color::Idx((n - 90 + 8) as u8), ..a }
            } else if 40 <= n < 48 {
                Attrs { bgcolor: Color::Idx((n - 40) as u8), ..a }
            } else if 100 <= n < 108 {
                Attrs { bgcolor: Color::Idx((n - 100 + 8) as u8), ..a }
            } else if n == 39 {
                Attrs { fgcolor: Color::Default, ..a }
            } else if n == 49 {
                Attrs { bgcolor: Color::Default, ..a }
            } else {
                a
            })
        }),
{
    lemma_controlled(p, Seq::empty(), 0x6d);
    lemma_controlled(p, seq![n], 0x6d);
    let ps = all_held(seq![n]);
    assert(ps =~= seq![n as u16]);
    let b = parser::with_attribute(p.screen.attrs, n as u16);
    assert(parser::with_attributes(b, ps, 1) == b);
    let c = parser::with_attribute(p.screen.attrs, 0);
    assert(parser::with_attributes(c, seq![0u16], 1) == c);
}

/// Colours of the palette and colours given by red, green and blue, for the text and behind it.
pub proof fn law_extended_colors(p: ParserView, i: u8, r: u8, g: u8, b: u8)
    requires
        ready(p),
    ensures
        ({
            let s = p.screen;
            let a = s.attrs;
            let rgb = Color::Rgb(r, g, b);
            &&& controlled(p, seq![38, 5, i as nat], 0x6d) == ScreenView {
                attrs: Attrs { fgcolor: Color::Idx(i), ..a },
                ..s
            }
            &&& controlled(p, seq![48, 5, i as nat], 0x6d) == ScreenView {
                attrs: Attrs { bgcolor: Color::Idx(i), ..a },
                ..s
            }
            &&& controlled(p, seq![38, 2, r as nat, g as nat, b as nat], 0x6d) == ScreenView {
                attrs: Attrs { fgcolor: rgb, ..a },
                ..s
            }
            &&& controlled(p, seq![48, 2, r as nat, g as nat, b as nat], 0x6d) == ScreenView {
                attrs: Attrs { bgcolor: rgb, ..a },
                ..s
            }
        }),
{
    lemma_palette(p, 38, i);
    lemma_palette(p, 48, i);
    lemma_rgb(p, 38, r, g, b);
    lemma_rgb(p, 48, r, g, b);
}

proof fn lemma_palette(p: ParserView, side: nat, i: u8)
    requires
        ready(p),
        side == 38 || side == 48,
    ensures
        controlled(p, seq![side, 5, i as nat], 0x6d) == (ScreenView {
            attrs: if side == 38 {
                Attrs { fgcolor: Color::Idx(i), ..p.screen.attrs }
            } else {
                Attrs { bgcolor: Color::Idx(i), ..p.screen.attrs }
            },
            ..p.screen
        }),
{
    let ns = seq![side, 5, i as nat];
    lemma_controlled(p, ns, 0x6d);
    let ps = all_held(ns);
    assert(ps =~= seq![side as u16, 5u16, i as u16]);
    let b = if side == 38 {
        Attrs { fgcolor: Color::Idx(i), ..p.screen.attrs }
    } else {
        Attrs { bgcolor: Color::Idx(i), ..p.screen.attrs }
    };
    assert(parser::extended_color(ps, 1) == (Some(Color::Idx(i)), 3int));
    assert(parser::with_attributes(b, ps, 3) == b);
}

proof fn lemma_rgb(p: ParserView, side: nat, red: u8, green: u8, blue: u8)
    requires
        ready(p),
        side == 38 || side == 48,
    ensures
        controlled(p, seq![side, 2, red as nat, green as nat, blue as nat], 0x6d) == (ScreenView {
            attrs: if side == 38 {
                Attrs { fgcolor: Color::Rgb(red, green, blue), ..p.screen.attrs }
            } else {
                Attrs { bgcolor: Color::Rgb(red, green, blue), ..p.screen.attrs }
            },
            ..p.screen
        }),
{
    let ns = seq![side, 2, red as nat, green as nat, blue as nat];
    lemma_controlled(p, ns, 0x6d);
    let ps = all_held(ns);
    assert(ps =~= seq![side as u16, 2u16, red as u16, green as u16, blue as u16]);
    let c = Color::Rgb(red, green, blue);
    let b = if side == 38 {
        Attrs { fgcolor: c, ..p.screen.attrs }
    } else {
        Attrs { bgcolor: c, ..p.screen.attrs }
    };
    assert(parser::extended_color(ps, 1) == (Some(c), 5int));
    assert(parser::with_attributes(b, ps, 5) == b);
}

proof fn lemma_later_attributes(a: Attrs, first: u16, ps: Seq<u16>, i: int)
    requires
        0 <= i,
    ensures
        parser::with_attributes(a, seq![first] + ps, i + 1) == parser::with_attributes(a, ps, i),
    decreases ps.len() - i,
{
    let qs = seq![first] + ps;
    if i < ps.len() {
        assert(qs[i + 1] == ps[i]);
        if ps[i] == 38 || ps[i] == 48 {
            let (c, next) = parser::extended_color(ps, i + 1);
            assert(parser::extended_color(qs, i + 2) == (c, next + 1)) by {
                if i + 2 < ps.len() {
                    assert(qs[i + 2] == ps[i + 1] && qs[i + 3] == ps[i + 2]);
                }
                if i + 4 < ps.len() {
                    assert(qs[i + 4] == ps[i + 3] && qs[i + 5] == ps[i + 4]);
                }
            }
            let b = match c {
                Some(c) => if ps[i] == 38 {
                    Attrs { fgcolor: c, ..a }
                } else {
                    Attrs { bgcolor: c, ..a }
                },
                None => a,
            };
            lemma_later_attributes(b, first, ps, next);
        } else {
            lemma_later_attributes(parser::with_attribute(a, ps[i]), first, ps, i + 1);
        }
    }
}

/// Several numbers change the attributes one after the other: a sequence with a number in front does
/// what that number does by itself, and then what the others do.
pub proof fn law_attributes_add_up(p: ParserView, q: ParserView, n: nat, ns: Seq<nat>)
    requires
        ready(p),
        q.at_rest(),
        q.screen == controlled(p, seq![n], 0x6d),
        n != 38 && n != 48,
        ns.len() > 0,
    ensures
        controlled(p, seq![n] + ns, 0x6d) == controlled(q, ns, 0x6d),
{
    lemma_controlled(p, seq![n], 0x6d);
    lemma_controlled(p, seq![n] + ns, 0x6d);
    lemma_controlled(q, ns, 0x6d);
    let k = held(n);
    assert(all_held(seq![n]) =~= seq![k]);
    assert(all_held(seq![n] + ns) =~= seq![k] + all_held(ns));
    let b = parser::with_attribute(p.screen.attrs, k);
    assert(parser::with_attributes(b, seq![k], 1) == b);
    lemma_later_attributes(b, k, all_held(ns), 0);
    let all = seq![k] + all_held(ns);
    assert(all[0] == k);
    assert(parser::with_attributes(p.screen.attrs, all, 0) == parser::with_attributes(b, all, 1));
}

/// The scrolling region is set to lines of the screen that count from one, and the cursor goes home.
/// Without numbers it is the whole screen. A region of less than two lines, or that is not on the
/// screen, is not set.
pub proof fn law_the_scrolling_region(p: ParserView, first: nat, last: nat)
    requires
        ready(p),
        1 <= first <= 0xffff,
        1 <= last <= 0xffff,
    ensures
        ({
            let s = p.screen;
            let t = controlled(p, seq![first, last], 0x72);
            &&& first < last <= s.height ==> t == ScreenView {
                top: first - 1,
                bottom: last - 1,
                row: 0,
                col: 0,
                ..s
            }
            &&& first >= last || last > s.height ==> t == s
            &&& s.height >= 2 ==> controlled(p, Seq::empty(), 0x72) == ScreenView {
                top: 0,
                bottom: s.height - 1,
                row: 0,
                col: 0,
                ..s
            }
        }),
{
    let s = p.screen;
    lemma_controlled(p, seq![first, last], 0x72);
    lemma_controlled(p, Seq::empty(), 0x72);
    assert(all_held(seq![first, last]) =~= seq![held(first), held(last)]);
}

/// What the interpreter makes of an escape character and one more byte.
proof fn lemma_escape(p: ParserView, b: u8)
    requires
        p.at_rest(),
        0x30 <= b,
        b != 0x5b && b != 0x5d && b != 0x50 && b != 0x58 && b != 0x5e && b != 0x5f,
    ensures
        shown(p, seq![0x1bu8, b]) == parser::after_escape(p.screen, b),
        heard(p, seq![0x1bu8, b]).at_rest(),
{
    lemma_heard_start(p);
    let q = heard(p, seq![0x1bu8]);
    lemma_heard_one(q, b);
    assert(seq![0x1bu8, b] =~= seq![0x1bu8] + seq![b]);
    lemma_heard_pieces(p, seq![0x1bu8], seq![b]);
    assert(shown(p, seq![0x1bu8, b]) == heard(p, seq![0x1bu8, b]).screen) by {
        reveal(shown);
        reveal(heard);
    }
}

/// The cursor and the attributes are saved, and what is saved comes back from wherever the cursor
/// has gone and whatever attributes were set. Both ways of writing it do the same.
pub proof fn law_the_cursor_is_saved(p: ParserView, q: ParserView, row: int, col: int, attrs: Attrs)
    requires
        ready(p),
        q.at_rest(),
        q.screen == (ScreenView { row, col, attrs, ..shown(p, seq![0x1bu8, 0x37]) }),
    ensures
        ({
            let s = p.screen;
            let saved = ScreenView {
                saved_row: s.row,
                saved_col: s.col,
                saved_attrs: s.attrs,
                ..s
            };
            &&& shown(p, seq![0x1bu8, 0x37]) == saved
            &&& shown(q, seq![0x1bu8, 0x38]) == saved
            &&& controlled(p, Seq::empty(), 0x73) == shown(p, seq![0x1bu8, 0x37])
            &&& controlled(q, Seq::empty(), 0x75) == shown(q, seq![0x1bu8, 0x38])
        }),
{
    lemma_escape(p, 0x37);
    lemma_escape(q, 0x38);
    lemma_controlled(p, Seq::empty(), 0x73);
    lemma_controlled(q, Seq::empty(), 0x75);
}

/// The cursor is shown and hidden, and nothing else changes.
pub proof fn law_the_cursor_is_shown_and_hidden(p: ParserView)
    requires
        ready(p),
    ensures
        switched(p, seq![25], 0x68) == (ScreenView { hidden: false, ..p.screen }),
        switched(p, seq![25], 0x6c) == (ScreenView { hidden: true, ..p.screen }),
{
    lemma_one_mode(p, 25, true);
    lemma_one_mode(p, 25, false);
}

proof fn lemma_one_mode(p: ParserView, mode: nat, on: bool)
    requires
        p.at_rest(),
        mode <= 0xffff,
    ensures
        switched(
            p,
            seq![mode],
            if on {
                0x68
            } else {
                0x6c
            },
        ) == parser::with_mode(p.screen, mode as u16, on),
{
    lemma_switched(
        p,
        seq![mode],
        if on {
            0x68
        } else {
            0x6c
        },
    );
    let ps = all_held(seq![mode]);
    assert(ps =~= seq![mode as u16]);
    assert(parser::with_modes(p.screen, ps, 0, on) == p.screen);
    reveal_with_fuel(parser::with_modes, 2);
}

/// The alternate screen begins empty, and leaving it brings back the lines of the main screen,
/// whatever was done there. With the cursor saved on the way, that comes back too, and so do the
/// attributes; otherwise the cursor stays where it is.
pub proof fn law_the_alternate_screen(p: ParserView, q: ParserView, mode: nat)
    requires
        ready(p),
        p.screen.main is None,
        mode == 47 || mode == 1047 || mode == 1049,
        q.at_rest(),
        ({
            let t = switched(p, seq![mode], 0x68);
            &&& q.screen.height == t.height
            &&& q.screen.width == t.width
            &&& q.screen.main == t.main
            &&& q.screen.saved_row == t.saved_row
            &&& q.screen.saved_col == t.saved_col
            &&& q.screen.saved_attrs == t.saved_attrs
        }),
    ensures
        ({
            let s = p.screen;
            let t = switched(p, seq![mode], 0x68);
            let u = switched(q, seq![mode], 0x6c);
            &&& t.rows.len() == s.height
            &&& forall|r: int|
                0 <= r < s.height ==> is_empty_line(#[trigger] t.rows[r], s.width, Color::Default)
            &&& t.row == s.row && t.col == s.col && t.attrs == s.attrs
            &&& t.scrollback == s.scrollback
            &&& u.rows == s.rows && u.main is None
            &&& mode == 1049 ==> u.row == s.row && u.col == s.col && u.attrs == s.attrs
            &&& mode != 1049 ==> u == ScreenView { rows: s.rows, main: None, ..q.screen }
        }),
{
    lemma_one_mode(p, mode, true);
    lemma_one_mode(q, mode, false);
}

/// Backspace, return and tab move the cursor within its line: one column back, to the first column,
/// and on to the next column that is a multiple of eight, or the last one.
pub proof fn law_moves_within_the_line(p: ParserView)
    requires
        ready(p),
    ensures
        ({
            let s = p.screen;
            let next = s.col - s.col % 8 + 8;
            &&& shown(p, seq![0x08u8]) == ScreenView {
                col: if s.col == 0 {
                    0
                } else {
                    s.col - 1
                },
                ..s
            }
            &&& shown(p, seq![0x0du8]) == ScreenView { col: 0, ..s }
            &&& shown(p, seq![0x09u8]) == ScreenView {
                col: if next < s.width {
                    next
                } else {
                    s.width - 1
                },
                ..s
            }
        }),
{
    lemma_control(p, 0x08);
    lemma_control(p, 0x0d);
    lemma_control(p, 0x09);
}

proof fn lemma_control(p: ParserView, b: u8)
    requires
        p.at_rest(),
        b < 0x20,
        b != 0x1b,
    ensures
        shown(p, seq![b]) == parser::after_control(p.screen, b),
        heard(p, seq![b]).at_rest(),
{
    lemma_heard_one(p, b);
    assert(shown(p, seq![b]) == heard(p, seq![b]).screen) by {
        reveal(shown);
        reveal(heard);
    }
}

/// A line feed, in any of its forms, moves the cursor to the next line in the same column. On the
/// last line of the scrolling region the lines of the region move up instead, and what leaves the
/// screen at its top is remembered; below the region the last line of the screen is the end.
pub proof fn law_line_feeds(p: ParserView, b: u8)
    requires
        ready(p),
        b == 0x0a || b == 0x0b || b == 0x0c,
    ensures
        ({
            let s = p.screen;
            let t = shown(p, seq![b]);
            &&& s.row != s.bottom && s.row + 1 < s.height ==> t == ScreenView { row: s.row + 1, ..s }
            &&& s.row != s.bottom && s.row + 1 == s.height ==> t == s
            &&& s.row == s.bottom ==> moved_up(s, t, s.top, s.bottom, 1)
            &&& s.row == s.bottom && s.top == 0 && s.main is None ==> t.scrollback == newest(
                s.scrollback.push(s.rows[0]),
                s.limit,
            )
            &&& s.row == s.bottom && (s.top > 0 || s.main is Some) ==> t.scrollback == s.scrollback
            &&& shown(p, seq![0x1bu8, 0x44]) == t
            &&& shown(p, seq![0x1bu8, 0x45]) == ScreenView { col: 0, ..t }
        }),
{
    let s = p.screen;
    lemma_control(p, b);
    lemma_escape(p, 0x44);
    lemma_escape(p, 0x45);
    reveal_with_fuel(ScreenView::scrolled_up_by, 2);
    lemma_scrolled(s, 1);
    assert(s.scrolled_up_by(1) == s.scrolled_up());
    assert(s.scrollback + s.rows.take(1) =~= s.scrollback.push(s.rows[0]));
}

/// A reverse line feed moves the cursor to the line above. On the first line of the scrolling region
/// the lines of the region move down instead.
pub proof fn law_reverse_line_feeds(p: ParserView)
    requires
        ready(p),
    ensures
        ({
            let s = p.screen;
            let t = shown(p, seq![0x1bu8, 0x4d]);
            &&& s.row != s.top && s.row > 0 ==> t == ScreenView { row: s.row - 1, ..s }
            &&& s.row != s.top && s.row == 0 ==> t == s
            &&& s.row == s.top ==> moved_down(s, t, s.top, s.bottom, 1) && t.scrollback
                == s.scrollback
        }),
{
    let s = p.screen;
    lemma_escape(p, 0x4d);
    reveal_with_fuel(ScreenView::shifted_down_by, 2);
    lemma_down(s, s.top, 1);
    assert(s.shifted_down_by(s.top, 1) == s.shifted_down_at(s.top));
}

/// A full reset empties the screen and puts everything back to where it starts, but keeps the size
/// and what has scrolled off.
pub proof fn law_a_full_reset(p: ParserView)
    requires
        ready(p),
    ensures
        ({
            let s = p.screen;
            let t = shown(p, seq![0x1bu8, 0x63]);
            let plain = Attrs {
                bold: false,
                italic: false,
                underline: false,
                inverse: false,
                fgcolor: Color::Default,
                bgcolor: Color::Default,
            };
            &&& t == ScreenView {
                rows: t.rows,
                row: 0,
                col: 0,
                saved_row: 0,
                saved_col: 0,
                saved_attrs: plain,
                attrs: plain,
                top: 0,
                bottom: s.height - 1,
                hidden: false,
                main: None,
                ..s
            }
            &&& t.rows.len() == s.height
            &&& forall|r: int|
                0 <= r < s.height ==> is_empty_line(#[trigger] t.rows[r], s.width, Color::Default)
        }),
{
    lemma_escape(p, 0x63);
}

/// A character of one column is written at the cursor with the attributes that are set, and the
/// cursor moves behind it. No other character changes, but for a wide one that it covers in part.
pub proof fn law_narrow_characters_are_written(p: ParserView, c: char)
    requires
        ready(p),
        cell::is_text(c),
        cell::char_width(c) == 1,
        p.screen.col < p.screen.width,
    ensures
        ({
            let s = p.screen;
            let t = shown(p, encode_utf8(seq![c]));
            let was = s.rows[s.row].cells;
            let now = t.rows[s.row].cells;
            &&& t == ScreenView {
                rows: s.rows.update(s.row, t.rows[s.row]),
                col: s.col + 1,
                ..s
            }
            &&& now.len() == s.width
            &&& now[s.col] == Cell {
                glyph: c,
                mark: '\0',
                wide: false,
                continuation: false,
                attrs: s.attrs,
            }
            &&& forall|k: int|
                0 <= k < s.width && k != s.col ==> comes_from(#[trigger] now[k], was[k])
        }),
{
    let s = p.screen;
    redraw::lemma_char_is_printed(p, c);
    reveal(shown);
    assert(screen::row_wf(s.rows[s.row], s.width));
    let was = s.rows[s.row].cells;
    let now = screen::with_glyph(was, s.col, c, false, s.attrs);
    lemma_narrow_cell(was, s.col);
    assert(s.printed(c) == s.put(c, false));
    assert forall|k: int| 0 <= k < s.width && k != s.col implies comes_from(
        #[trigger] now[k],
        was[k],
    ) by {
        lemma_narrow_cell(was, k);
    }
}

/// A character of two columns takes the cell at the cursor and the one behind it.
pub proof fn law_wide_characters_are_written(p: ParserView, c: char)
    requires
        ready(p),
        cell::is_text(c),
        cell::char_width(c) == 2,
        p.screen.col + 2 <= p.screen.width,
    ensures
        ({
            let s = p.screen;
            let t = shown(p, encode_utf8(seq![c]));
            let was = s.rows[s.row].cells;
            let now = t.rows[s.row].cells;
            &&& t == ScreenView {
                rows: s.rows.update(s.row, t.rows[s.row]),
                col: s.col + 2,
                ..s
            }
            &&& now.len() == s.width
            &&& now[s.col] == Cell {
                glyph: c,
                mark: '\0',
                wide: true,
                continuation: false,
                attrs: s.attrs,
            }
            &&& now[s.col + 1] == Cell {
                glyph: '\0',
                mark: '\0',
                wide: false,
                continuation: true,
                attrs: s.attrs,
            }
            &&& forall|k: int|
                0 <= k < s.width && k != s.col && k != s.col + 1 ==> comes_from(
                    #[trigger] now[k],
                    was[k],
                )
        }),
{
    let s = p.screen;
    redraw::lemma_char_is_printed(p, c);
    reveal(shown);
    assert(screen::row_wf(s.rows[s.row], s.width));
    let was = s.rows[s.row].cells;
    let now = screen::with_glyph(was, s.col, c, true, s.attrs);
    lemma_narrow_cell(was, s.col);
    lemma_narrow_cell(was, s.col + 1);
    assert(s.printed(c) == s.put(c, true));
    assert forall|k: int| 0 <= k < s.width && k != s.col && k != s.col + 1 implies comes_from(
        #[trigger] now[k],
        was[k],
    ) by {
        lemma_narrow_cell(was, k);
    }
}

/// Where the line is full, a character goes to the start of the next line, as it would behind a
/// return and a line feed. Lines of which the last cell holds text are marked as running on.
pub proof fn law_text_runs_on(p: ParserView, q: ParserView, c: char)
    requires
        ready(p),
        cell::is_text(c),
        cell::char_width(c) == 1,
        p.screen.col == p.screen.width,
        p.screen.row != p.screen.bottom,
        p.screen.row + 1 < p.screen.height,
        q.at_rest(),
        q.screen == (ScreenView { row: p.screen.row + 1, col: 0, ..p.screen }),
    ensures
        ({
            let s = p.screen;
            let t = shown(p, encode_utf8(seq![c]));
            let u = shown(q, encode_utf8(seq![c]));
            let full = s.rows[s.row].cells.last().glyph != '\0'
                || s.rows[s.row].cells.last().continuation;
            &&& t == ScreenView { rows: t.rows, ..u }
            &&& t.rows.len() == u.rows.len()
            &&& forall|r: int|
                0 <= r < s.height && r != s.row ==> #[trigger] t.rows[r] == u.rows[r]
            &&& t.rows[s.row].cells == s.rows[s.row].cells
            &&& full ==> t.rows[s.row].wrapped
        }),
{
    let s = p.screen;
    redraw::lemma_char_is_printed(p, c);
    redraw::lemma_char_is_printed(q, c);
    reveal(shown);
    assert(screen::row_wf(s.rows[s.row], s.width));
}

/// A combining mark goes on the character in front of the cursor, which stays where it is.
pub proof fn law_marks_go_on_the_character_before(p: ParserView, c: char)
    requires
        ready(p),
        cell::is_text(c),
        cell::char_width(c) == 0,
        p.screen.col > 0,
        !p.screen.rows[p.screen.row].cells[p.screen.col - 1].continuation,
        p.screen.rows[p.screen.row].cells[p.screen.col - 1].glyph != '\0',
        p.screen.rows[p.screen.row].cells[p.screen.col - 1].mark == '\0',
    ensures
        ({
            let s = p.screen;
            let t = shown(p, encode_utf8(seq![c]));
            let was = s.rows[s.row].cells;
            &&& t == ScreenView { rows: s.rows.update(s.row, t.rows[s.row]), ..s }
            &&& t.rows[s.row].cells == was.update(
                s.col - 1,
                Cell { mark: c, ..was[s.col - 1] },
            )
        }),
{
    redraw::lemma_char_is_printed(p, c);
    reveal(shown);
}

/// Letters of ASCII, of the Latin, Greek, Cyrillic and other alphabets, and the signs for drawing
/// boxes take one column, the scripts of East Asia, full-width forms and most emoji two, and combining
/// accents none.
pub proof fn law_columns_of_characters(c: char)
    ensures
        0x20 <= c as int <= 0x2ff ==> cell::char_width(c) == 1,
        0x370 <= c as int <= 0x10ff || 0x2500 <= c as int <= 0x257f ==> cell::char_width(c) == 1,
        0x3041 <= c as int <= 0x30ff || 0xff01 <= c as int <= 0xff60 || 0x1f300 <= c as int <= 0x1f64f
            ==> cell::char_width(c) == 2,
        0x4e00 <= c as int <= 0x9fff || 0xac00 <= c as int <= 0xd7a3
            ==> cell::char_width(c) == 2,
        0x300 <= c as int <= 0x36f ==> cell::char_width(c) == 0,
{
}

/// A string such as a window title is skipped: nothing of it is shown, and what follows it is read
/// as if it were not there.
pub proof fn law_strings_are_skipped(p: ParserView, kind: u8, s: Seq<u8>, rest: Seq<u8>)
    requires
        ready(p),
        kind == 0x5d || kind == 0x50 || kind == 0x58 || kind == 0x5e || kind == 0x5f,
        forall|i: int|
            0 <= i < s.len() ==> #[trigger] s[i] != 0x1b && s[i] != 0x07 && s[i] != 0x18 && s[i]
                != 0x1a,
    ensures
        shown(p, seq![0x1bu8, kind] + s + seq![0x07u8] + rest) == shown(p, rest),
        shown(p, seq![0x1bu8, kind] + s + seq![0x1bu8, 0x5c] + rest) == shown(p, rest),
{
    let start = seq![0x1bu8, kind];
    lemma_heard_string_start(p, kind);
    let r = heard(p, start);
    lemma_heard_text(r, s);
    lemma_heard_pieces(p, start, s);
    let bell = start + s + seq![0x07u8];
    let mark = start + s + seq![0x1bu8, 0x5c];
    lemma_heard_pieces(p, start + s, seq![0x07u8]);
    lemma_heard_pieces(p, start + s, seq![0x1bu8, 0x5c]);
    lemma_heard_string_end(r);
    assert(ParserView { mode: Mode::Ground, ..r } == p);
    lemma_heard_pieces(p, bell, rest);
    lemma_heard_pieces(p, mark, rest);
    assert(forall|b: Seq<u8>| #[trigger] shown(p, b) == heard(p, b).screen) by {
        reveal(shown);
        reveal(heard);
    }
}

proof fn lemma_heard_string_start(p: ParserView, kind: u8)
    requires
        p.at_rest(),
        kind == 0x5d || kind == 0x50 || kind == 0x58 || kind == 0x5e || kind == 0x5f,
    ensures
        heard(p, seq![0x1bu8, kind]) == (ParserView { mode: Mode::Text, ..p }),
{
    lemma_heard_start(p);
    let q = heard(p, seq![0x1bu8]);
    lemma_heard_one(q, kind);
    assert(seq![0x1bu8, kind] =~= seq![0x1bu8] + seq![kind]);
    lemma_heard_pieces(p, seq![0x1bu8], seq![kind]);
}

proof fn lemma_heard_string_end(p: ParserView)
    requires
        p.mode == Mode::Text,
    ensures
        heard(p, seq![0x07u8]) == (ParserView { mode: Mode::Ground, ..p }),
        heard(p, seq![0x1bu8, 0x5c]) == (ParserView { mode: Mode::Ground, ..p }),
{
    lemma_heard_one(p, 0x07);
    assert(seq![0x1bu8, 0x5c] =~= seq![0x1bu8] + seq![0x5cu8]);
    lemma_heard_pieces(p, seq![0x1bu8], seq![0x5cu8]);
    lemma_heard_one(p, 0x1b);
    let e = ParserView { mode: Mode::TextEscape, ..p };
    assert(heard(p, seq![0x1bu8]) == e);
    lemma_heard_one(e, 0x5c);
}

proof fn lemma_heard_text(p: ParserView, s: Seq<u8>)
    requires
        p.mode == Mode::Text,
        forall|i: int|
            0 <= i < s.len() ==> #[trigger] s[i] != 0x1b && s[i] != 0x07 && s[i] != 0x18 && s[i]
                != 0x1a,
    ensures
        heard(p, s) == p,
    decreases s.len(),
{
    if s.len() == 0 {
        lemma_heard_nothing(p);
        assert(s =~= Seq::empty());
    } else {
        let front = s.drop_last();
        assert forall|i: int| 0 <= i < front.len() implies #[trigger] front[i] != 0x1b && front[i]
            != 0x07 && front[i] != 0x18 && front[i] != 0x1a by {
            assert(front[i] == s[i]);
        }
        lemma_heard_text(p, front);
        assert(s =~= front + seq![s.last()]);
        lemma_heard_pieces(p, front, seq![s.last()]);
        assert(s[s.len() - 1] == s.last());
        lemma_heard_one(p, s.last());
    }
}

/// A sequence that is not known changes nothing on the screen: one with another last byte, and one
/// with a marker that is not known.
pub proof fn law_unknown_sequences_change_nothing(p: ParserView, ns: Seq<nat>, last: u8)
    requires
        ready(p),
        0x40 <= last <= 0x7e,
    ensures
        last != 0x68 && last != 0x6c ==> switched(p, ns, last) == p.screen,
        last == 0x49 || last == 0x4e || last == 0x4f || last == 0x51 || last == 0x52 || 0x55 <= last
            <= 0x57 || 0x59 <= last <= 0x63 || last == 0x65 || 0x67 <= last <= 0x6c || 0x6e <= last
            <= 0x71 || last == 0x74 || 0x76 <= last ==> controlled(p, ns, last) == p.screen,
{
    lemma_controlled(p, ns, last);
    lemma_switched(p, ns, last);
}

/// A screen of another size shows what it showed, as far as it fits, from its upper left corner;
/// what is new is empty. The cursor stays on the screen, and the scrolling region is all of it.
pub proof fn law_resizing_keeps_what_fits(s: ScreenView, height: int, width: int)
    requires
        s.wf(),
        1 <= height <= 0xffff,
        1 <= width <= 0xffff,
    ensures
        ({
            let t = s.resized(height, width);
            &&& t.height == height && t.width == width && t.rows.len() == height
            &&& t.top == 0 && t.bottom == height - 1
            &&& t.row == (if s.row < height { s.row } else { height - 1 })
            &&& t.col == (if s.col <= width { s.col } else { width })
            &&& t.attrs == s.attrs && t.hidden == s.hidden && t.scrollback == s.scrollback
            &&& forall|r: int, c: int|
                0 <= r < height && 0 <= c < width ==> (if r < s.height && c < s.width {
                    comes_from(#[trigger] t.rows[r].cells[c], s.rows[r].cells[c]) || s.width == 1
                } else {
                    is_empty_cell(t.rows[r].cells[c], Color::Default)
                })
        }),
{
    let t = s.resized(height, width);
    assert forall|r: int, c: int| 0 <= r < height && 0 <= c < width implies (if r < s.height && c
        < s.width {
        comes_from(#[trigger] t.rows[r].cells[c], s.rows[r].cells[c]) || s.width == 1
    } else {
        is_empty_cell(t.rows[r].cells[c], Color::Default)
    }) by {
        if r < s.height {
            assert(screen::row_wf(s.rows[r], s.width));
            let was = s.rows[r].cells;
            let cells = screen::resized_cells(was, width);
            if c < s.width {
                lemma_narrow_cell(was, c);
                assert(cells[c] == was[c]);
                if s.width >= 2 {
                    lemma_mended_cell(cells, was[c], c);
                }
            }
        }
    }
}

/// A new terminal is empty, with the cursor at its upper left corner; it has one line and one column
/// at least.
pub proof fn law_new_terminals_are_empty(height: u16, width: u16, limit: usize)
    requires
        height >= 1,
        width >= 1,
    ensures
        ({
            let p = parser::fresh_parser(height, width, limit);
            let s = p.screen;
            &&& p.at_rest()
            &&& s.height == height && s.width == width && s.limit == limit
            &&& s.row == 0 && s.col == 0 && !s.hidden && s.main is None
            &&& s.top == 0 && s.bottom == height - 1
            &&& s.scrollback.len() == 0
            &&& s.rows.len() == height
            &&& forall|r: int|
                0 <= r < height ==> is_empty_line(
                    #[trigger] s.rows[r],
                    width as int,
                    Color::Default,
                )
        }),
{
}

proof fn lemma_lowest(c: char)
    ensures
        '\0' <= c,
{
}

proof fn lemma_ascii(s: Seq<char>)
    requires
        forall|i: int| 0 <= i < s.len() ==> #[trigger] s[i] as int <= 0x7f,
    ensures
        encode_utf8(s) == s.map_values(|c: char| c as u8),
{
    assert forall|i: int| 0 <= i < s.len() implies '\0' <= #[trigger] s[i] <= '\u{7f}' by {
        lemma_lowest(s[i]);
    }
    is_ascii_chars_encode_utf8(s);
    assert(encode_utf8(s) =~= s.map_values(|c: char| c as u8));
}

proof fn lemma_digits_are_ascii(n: nat)
    ensures
        encode_utf8(text::decimal(n)) == number_bytes(n),
{
    text::law_decimal_reads_back(n);
    let d = text::decimal(n);
    assert forall|i: int| 0 <= i < d.len() implies #[trigger] d[i] as int <= 0x7f by {
        assert(text::is_digit(d[i]));
    }
    lemma_ascii(d);
}

/// The text that moves the cursor is the control sequence for it, with the line before the column,
/// and the texts that set attributes are those for them.
pub proof fn law_drawing_texts_are_sequences(row: nat, col: nat, fg: u8, bg: u8)
    ensures
        encode_utf8(ansi::goto_text(row, col)) == control_bytes(seq![row, col], 0x48),
        encode_utf8(ansi::attribute_text(Attribute::Colors { fg, bg })) == control_bytes(
            seq![fg as nat, bg as nat],
            0x6d,
        ),
        encode_utf8(ansi::attribute_text(Attribute::Fg(fg))) == control_bytes(seq![fg as nat], 0x6d),
        encode_utf8(ansi::attribute_text(Attribute::Reset)) == control_bytes(seq![0], 0x6d),
        encode_utf8(ansi::attribute_text(Attribute::Bold)) == control_bytes(seq![1], 0x6d),
        encode_utf8(ansi::attribute_text(Attribute::Dim)) == control_bytes(seq![2], 0x6d),
{
    lemma_two(row, col, "H"@, 0x48);
    lemma_two(fg as nat, bg as nat, "m"@, 0x6d);
    lemma_one(fg as nat, "m"@);
    reveal_strlit("\x1b[");
    reveal_strlit("H");
    reveal_strlit("m");
    reveal_strlit("\x1b[0m");
    reveal_strlit("\x1b[1m");
    reveal_strlit("\x1b[2m");
    lemma_one(0, "m"@);
    lemma_one(1, "m"@);
    lemma_one(2, "m"@);
    assert("\x1b[0m"@ =~= "\x1b["@ + text::decimal(0) + "m"@);
    assert("\x1b[1m"@ =~= "\x1b["@ + text::decimal(1) + "m"@);
    assert("\x1b[2m"@ =~= "\x1b["@ + text::decimal(2) + "m"@);
}

proof fn lemma_one(n: nat, end: Seq<char>)
    requires
        end == "m"@,
    ensures
        encode_utf8("\x1b["@ + text::decimal(n) + end) == control_bytes(seq![n], 0x6d),
{
    reveal_strlit("\x1b[");
    reveal_strlit("m");
    let start = "\x1b["@;
    let d = text::decimal(n);
    text::lemma_encoded_pieces(start + d, end);
    text::lemma_encoded_pieces(start, d);
    lemma_digits_are_ascii(n);
    lemma_ascii(start);
    lemma_ascii(end);
    assert(encode_utf8(start) =~= seq![0x1bu8, 0x5b]);
    assert(encode_utf8(end) =~= seq![0x6du8]);
    assert(list_bytes(seq![n]) == number_bytes(n));
}

proof fn lemma_two(a: nat, b: nat, end: Seq<char>, last: u8)
    requires
        (end == "m"@ && last == 0x6d) || (end == "H"@ && last == 0x48),
    ensures
        encode_utf8("\x1b["@ + text::decimal(a) + ";"@ + text::decimal(b) + end) == control_bytes(
            seq![a, b],
            last,
        ),
{
    reveal_strlit("\x1b[");
    reveal_strlit(";");
    reveal_strlit("m");
    reveal_strlit("H");
    let start = "\x1b["@;
    let semi = ";"@;
    let da = text::decimal(a);
    let db = text::decimal(b);
    text::lemma_encoded_pieces(start + da + semi + db, end);
    text::lemma_encoded_pieces(start + da + semi, db);
    text::lemma_encoded_pieces(start + da, semi);
    text::lemma_encoded_pieces(start, da);
    lemma_digits_are_ascii(a);
    lemma_digits_are_ascii(b);
    lemma_ascii(start);
    lemma_ascii(semi);
    lemma_ascii(end);
    assert(encode_utf8(start) =~= seq![0x1bu8, 0x5b]);
    assert(encode_utf8(semi) =~= seq![0x3bu8]);
    assert(encode_utf8(end) =~= seq![last]);
    let ns = seq![a, b];
    assert(ns.drop_last() =~= seq![a]);
    assert(list_bytes(seq![a]) == number_bytes(a));
    assert(list_bytes(ns) == number_bytes(a) + seq![0x3bu8] + number_bytes(b));
    assert(control_bytes(ns, last) =~= encode_utf8(start) + number_bytes(a) + seq![0x3bu8]
        + number_bytes(b) + seq![last]);
}

/// A character that does not fit in its line is written as it would be behind a return and a line
/// feed, also where that makes the lines move up. All that differs is that the line before may be
/// marked as running on.
#[verifier::spinoff_prover]
#[verifier::rlimit(80)]
pub proof fn law_full_lines_are_continued(p: ParserView, q: ParserView, c: char)
    requires
        ready(p),
        cell::is_text(c),
        cell::char_width(c) == 1 || (cell::char_width(c) == 2 && p.screen.width >= 2),
        p.screen.col + cell::char_width(c) > p.screen.width,
        q.at_rest(),
        q.screen == shown(ParserView { screen: ScreenView { col: 0, ..p.screen }, ..p }, seq![0x0au8]),
    ensures
        ({
            let t = shown(p, encode_utf8(seq![c]));
            let u = shown(q, encode_utf8(seq![c]));
            &&& t == ScreenView { rows: t.rows, ..u }
            &&& t.rows.len() == u.rows.len()
            &&& forall|r: int|
                0 <= r < p.screen.height ==> (#[trigger] t.rows[r]).cells == u.rows[r].cells
            &&& u.row == q.screen.row
            &&& u.rows[u.row].cells[0].glyph == c
        }),
{
    let s = p.screen;
    let home = ParserView { screen: ScreenView { col: 0, ..s }, ..p };
    lemma_control(home, 0x0a);
    redraw::lemma_char_is_printed(p, c);
    redraw::lemma_char_is_printed(q, c);
    reveal(shown);
    assert(screen::row_wf(s.rows[s.row], s.width));
    let fed = home.screen.line_fed();
    assert(q.screen == fed);
    lemma_scrolled_rows(home.screen);
    let room = s.with_room(cell::char_width(c));
    assert(room == ScreenView { rows: room.rows, ..fed });
    assert(room.rows.len() == fed.rows.len());
    assert forall|r: int| 0 <= r < s.height implies (#[trigger] room.rows[r]).cells
        == fed.rows[r].cells by {}
    assert(fed.with_room(cell::char_width(c)) == fed);
    assert(fed.rows[fed.row].cells.len() == s.width);
}

proof fn lemma_scrolled_rows(s: ScreenView)
    requires
        s.wf(),
    ensures
        s.line_fed().rows.len() == s.height,
        0 <= s.line_fed().row < s.height,
        s.line_fed().rows[s.line_fed().row].cells.len() == s.width,
{
    assert(screen::row_wf(s.rows[s.row], s.width));
    if s.row != s.bottom && s.row + 1 < s.height {
        assert(screen::row_wf(s.rows[s.row + 1], s.width));
    }
}

/// Bytes that begin no character are shown as the replacement character, each by itself; the other
/// control characters, and delete, change nothing.
pub proof fn law_stray_bytes(p: ParserView, b: u8)
    requires
        ready(p),
    ensures
        0x80 <= b <= 0xc1 || 0xf5 <= b ==> shown(p, seq![b]) == shown(
            p,
            encode_utf8(seq!['\u{fffd}']),
        ),
        b <= 0x07 || 0x0e <= b <= 0x1a || 0x1c <= b <= 0x1f || b == 0x7f ==> shown(p, seq![b])
            == p.screen,
{
    lemma_heard_one(p, b);
    redraw::lemma_char_is_printed(p, '\u{fffd}');
    assert(shown(p, seq![b]) == heard(p, seq![b]).screen) by {
        reveal(shown);
        reveal(heard);
    }
    assert(shown(p, encode_utf8(seq!['\u{fffd}'])) == p.screen.printed('\u{fffd}')) by {
        reveal(shown);
    }
    assert(parser::replacement() == '\u{fffd}');
}

} // verus!
