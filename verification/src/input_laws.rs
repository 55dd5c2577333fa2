//! What the prefix key and the mouse stand for.
use crate::input;
use crate::input::{EventView, MouseButton, Part};
use crate::text;
use vstd::prelude::*;

verus! {

/// The events of input that comes at once, with nothing held back and no prefix key before it.
pub open spec fn events_of(prefix: u8, bytes: Seq<u8>) -> Seq<EventView> {
    input::part_events(prefix, false, input::input_parts(Seq::empty(), bytes))
}

/// Forwarded input, where there is any.
pub open spec fn forwarded(bytes: Seq<u8>) -> Seq<EventView> {
    if bytes.len() > 0 {
        seq![EventView::PassThrough(bytes)]
    } else {
        Seq::empty()
    }
}

proof fn lemma_no_reports(raw: Seq<u8>, s: Seq<u8>)
    requires
        forall|i: int| 0 <= i < s.len() ==> #[trigger] s[i] != 0x1b,
    ensures
        input::input_parts(raw, s) == input::raw_part(raw + s),
    decreases s.len(),
{
    if s.len() == 0 {
        assert(raw + s =~= raw);
    } else {
        assert(s[0] != 0x1b);
        let rest = s.skip(1);
        assert forall|i: int| 0 <= i < rest.len() implies #[trigger] rest[i] != 0x1b by {
            assert(rest[i] == s[i + 1]);
        }
        lemma_no_reports(raw.push(s[0]), rest);
        assert(raw.push(s[0]) + rest =~= raw + s);
    }
}

proof fn lemma_plain_keys(prefix: u8, gathered: Seq<u8>, plain: Seq<u8>, rest: Seq<u8>)
    requires
        forall|i: int| 0 <= i < plain.len() ==> #[trigger] plain[i] != prefix,
    ensures
        input::key_events(prefix, false, gathered, plain + rest) == input::key_events(
            prefix,
            false,
            gathered + plain,
            rest,
        ),
    decreases plain.len(),
{
    if plain.len() == 0 {
        assert(plain + rest =~= rest);
        assert(gathered + plain =~= gathered);
    } else {
        let s = plain + rest;
        let tail = plain.skip(1);
        assert forall|i: int| 0 <= i < tail.len() implies #[trigger] tail[i] != prefix by {
            assert(tail[i] == plain[i + 1]);
        }
        assert(s[0] == plain[0]);
        assert(plain[0] != prefix);
        assert(s.skip(1) =~= tail + rest);
        lemma_plain_keys(prefix, gathered.push(plain[0]), tail, rest);
        assert(gathered.push(plain[0]) + tail =~= gathered + plain);
    }
}

proof fn lemma_events(prefix: u8, s: Seq<u8>)
    requires
        s.len() > 0,
        forall|i: int| 0 <= i < s.len() ==> #[trigger] s[i] != 0x1b,
    ensures
        events_of(prefix, s) == input::key_events(prefix, false, Seq::empty(), s),
{
    lemma_no_reports(Seq::empty(), s);
    assert(Seq::<u8>::empty() + s =~= s);
    let parts = seq![Part::Raw(s)];
    assert(input::input_parts(Seq::empty(), s) =~= parts);
    assert(parts.skip(1) =~= Seq::empty());
    let armed = input::armed_after(prefix, false, s);
    assert(input::part_events(prefix, armed, parts.skip(1)) =~= Seq::empty());
    let e = input::key_events(prefix, false, Seq::empty(), s);
    assert(e + Seq::<EventView>::empty() =~= e);
}

/// The command of a key behind the prefix key, between input that is forwarded as it is: digits
/// switch to a terminal, `n` and `p` go on and back, `c` creates one, `d` detaches, `r` reloads, in
/// either case, and `?` asks for help. Any other key but the prefix key itself is dropped.
pub proof fn law_commands_behind_the_prefix(prefix: u8, b: u8, before: Seq<u8>, after: Seq<u8>)
    requires
        prefix != 0x1b && b != 0x1b && b != prefix,
        forall|i: int| 0 <= i < before.len() ==> #[trigger] before[i] != 0x1b && before[i] != prefix,
        forall|i: int| 0 <= i < after.len() ==> #[trigger] after[i] != 0x1b && after[i] != prefix,
    ensures
        ({
            let events = events_of(prefix, before + seq![prefix, b] + after);
            let command = |e: EventView| events == forwarded(before) + seq![e] + forwarded(after);
            &&& 0x30 <= b <= 0x39 ==> command(EventView::SwitchTerminal(b - 0x30))
            &&& b == 0x6e || b == 0x4e ==> command(EventView::NextTerminal)
            &&& b == 0x70 || b == 0x50 ==> command(EventView::PrevTerminal)
            &&& b == 0x63 || b == 0x43 ==> command(EventView::CreateTerminal)
            &&& b == 0x64 || b == 0x44 ==> command(EventView::Detach)
            &&& b == 0x72 || b == 0x52 ==> command(EventView::Reload)
            &&& b == 0x3f ==> command(EventView::ShowHelp)
            &&& b < 0x30 || (0x3a <= b && b != 0x3f && b != 0x6e && b != 0x4e && b != 0x70 && b
                != 0x50 && b != 0x63 && b != 0x43 && b != 0x64 && b != 0x44 && b != 0x72 && b
                != 0x52) ==> events == forwarded(before + after)
        }),
{
    let s = before + seq![prefix, b] + after;
    assert forall|i: int| 0 <= i < s.len() implies #[trigger] s[i] != 0x1b by {
        if i < before.len() {
            assert(s[i] == before[i]);
        } else if i >= before.len() + 2 {
            assert(s[i] == after[i - before.len() - 2]);
        }
    }
    lemma_events(prefix, s);
    let rest = seq![prefix, b] + after;
    assert(s =~= before + rest);
    lemma_plain_keys(prefix, Seq::empty(), before, rest);
    assert(Seq::<u8>::empty() + before =~= before);
    assert(rest.skip(1) =~= seq![b] + after);
    let tail = seq![b] + after;
    assert(tail[0] == b);
    assert(tail.skip(1) =~= after);
    assert(after + Seq::<u8>::empty() =~= after);
    lemma_plain_keys(prefix, Seq::empty(), after, Seq::empty());
    assert(Seq::<u8>::empty() + after =~= after);
    lemma_plain_keys(prefix, before, after, Seq::empty());
    assert(rest[0] == prefix);
    let events = events_of(prefix, s);
    assert(input::key_events(prefix, false, before, rest) == input::key_events(
        prefix,
        true,
        before,
        tail,
    ));
    let end = input::key_events(prefix, false, Seq::empty(), after);
    assert(end == forwarded(after));
    assert(input::key_events(prefix, false, before, after) == forwarded(before + after));
    match input::prefix_command(b) {
        Some(e) => {
            assert(events == forwarded(before) + seq![e] + forwarded(after));
        },
        None => {
            assert(events == forwarded(before + after));
        },
    }
}

/// The bytes of a number in decimal notation.
pub open spec fn number_bytes(n: nat) -> Seq<u8> {
    text::decimal(n).map_values(|c: char| c as u8)
}

/// A report of the mouse: the code, the column and the line, and how it ends.
pub open spec fn report_bytes(code: nat, x: nat, y: nat, end: u8) -> Seq<u8> {
    seq![0x1bu8, 0x5b, 0x3c] + number_bytes(code) + seq![0x3bu8] + number_bytes(x) + seq![0x3bu8]
        + number_bytes(y) + seq![end]
}

proof fn lemma_number_bytes(n: nat)
    ensures
        number_bytes(n).len() == text::decimal(n).len(),
        number_bytes(n).len() > 0,
        forall|i: int| 0 <= i < number_bytes(n).len() ==> 0x30 <= #[trigger] number_bytes(n)[i] <= 0x39,
        input::as_chars(number_bytes(n)) == text::decimal(n),
{
    text::law_decimal_reads_back(n);
    let d = text::decimal(n);
    assert forall|i: int| 0 <= i < d.len() implies 0x30 <= #[trigger] number_bytes(n)[i]
        <= 0x39 && number_bytes(n)[i] as char == d[i] by {
        assert(text::is_digit(d[i]));
    }
    assert(input::as_chars(number_bytes(n)) =~= d);
}

proof fn lemma_report(code: nat, x: nat, y: nat, end: u8, rest: Seq<u8>)
    requires
        code <= 0xffff,
        1 <= x <= 0xffff,
        1 <= y <= 0xffff,
        end == 0x4d || end == 0x6d,
    ensures
        input::mouse_report(report_bytes(code, x, y, end) + rest) == Some(
            (
                input::mouse_event(code as u16, (x - 1) as u16, (y - 1) as u16, end == 0x6d),
                report_bytes(code, x, y, end).len() as int,
            ),
        ),
{
    lemma_number_bytes(code);
    lemma_number_bytes(x);
    lemma_number_bytes(y);
    text::law_decimal_reads_back(code);
    text::law_decimal_reads_back(x);
    text::law_decimal_reads_back(y);
    let a = number_bytes(code);
    let b = number_bytes(x);
    let c = number_bytes(y);
    let semi = seq![0x3bu8];
    let inner = a + semi + b + semi + c;
    let s = report_bytes(code, x, y, end) + rest;
    assert(s =~= seq![0x1bu8, 0x5b, 0x3c] + inner + seq![end] + rest);
    let n = inner.len() as int;
    let behind = s.skip(3);
    assert(behind =~= inner + seq![end] + rest);
    assert forall|k: int| 0 <= k < n implies !input::ends_mouse_report(#[trigger] behind[k]) by {
        assert(behind[k] == inner[k]);
        if k < a.len() {
            assert(inner[k] == a[k]);
        } else if k == a.len() {
            assert(inner[k] == 0x3b);
        } else if k < a.len() + 1 + b.len() {
            assert(inner[k] == b[k - a.len() - 1]);
        } else if k == a.len() + 1 + b.len() {
            assert(inner[k] == 0x3b);
        } else {
            assert(inner[k] == c[k - a.len() - b.len() - 2]);
        }
    }
    assert(behind[n] == end);
    text::lemma_first_index_at(behind, |b: u8| input::ends_mouse_report(b), n);
    assert(s.subrange(3, 3 + n) =~= inner);
    assert(s[3 + n] == end);
    let t = input::as_chars(inner);
    let da = text::decimal(code);
    let db = text::decimal(x);
    let dc = text::decimal(y);
    assert(t =~= da + seq![';'] + db + seq![';'] + dc) by {
        assert(input::as_chars(a) == da);
        assert(input::as_chars(b) == db);
        assert(input::as_chars(c) == dc);
        assert forall|k: int| 0 <= k < t.len() implies t[k] == (da + seq![';'] + db + seq![';']
            + dc)[k] by {
            assert(t[k] == inner[k] as char);
            if k < a.len() {
                assert(inner[k] == a[k] && input::as_chars(a)[k] == a[k] as char);
            } else if k == a.len() {
            } else if k < a.len() + 1 + b.len() {
                let m = k - a.len() - 1;
                assert(inner[k] == b[m] && input::as_chars(b)[m] == b[m] as char);
            } else if k == a.len() + 1 + b.len() {
            } else {
                let m = k - a.len() - b.len() - 2;
                assert(inner[k] == c[m] && input::as_chars(c)[m] == c[m] as char);
            }
        }
    }
    lemma_three_numbers(code, x, y, t);
}

proof fn lemma_three_numbers(a: nat, b: nat, c: nat, t: Seq<char>)
    requires
        a <= 0xffff,
        b <= 0xffff,
        c <= 0xffff,
        t == text::decimal(a) + seq![';'] + text::decimal(b) + seq![';'] + text::decimal(c),
    ensures
        input::three_numbers(t) == Some((a as int, b as int, c as int)),
{
    text::law_decimal_reads_back(a);
    text::law_decimal_reads_back(b);
    text::law_decimal_reads_back(c);
    let da = text::decimal(a);
    let db = text::decimal(b);
    let dc = text::decimal(c);
    let p = |c: char| c == ';';
    let i = da.len() as int;
    assert forall|k: int| 0 <= k < i implies !p(#[trigger] t[k]) by {
        assert(t[k] == da[k]);
        assert(text::is_digit(da[k]));
    }
    assert(t[i] == ';');
    text::lemma_first_index_at(t, p, i);
    let u = t.skip(i + 1);
    let j = db.len() as int;
    assert(u =~= db + seq![';'] + dc);
    assert forall|k: int| 0 <= k < j implies !p(#[trigger] u[k]) by {
        assert(u[k] == db[k]);
        assert(text::is_digit(db[k]));
    }
    assert(u[j] == ';');
    text::lemma_first_index_at(u, p, j);
    assert(t.take(i) =~= da);
    assert(u.take(j) =~= db);
    assert(u.skip(j + 1) =~= dc);
    assert(text::is_digit(da[0]) && text::is_digit(db[0]) && text::is_digit(dc[0]));
}

/// Reports of the mouse: a press, a drag and a release of a button, and the wheel, at a column and a
/// line that count from one in the report and from zero in the event.
pub proof fn law_reports_of_the_mouse(prefix: u8, x: nat, y: nat)
    requires
        1 <= x <= 0xffff,
        1 <= y <= 0xffff,
    ensures
        ({
            let col = (x - 1) as u16;
            let row = (y - 1) as u16;
            let left = MouseButton::Left;
            let middle = MouseButton::Middle;
            let right = MouseButton::Right;
            let gives = |code: nat, end: u8, e: EventView|
                events_of(prefix, report_bytes(code, x, y, end)) == seq![e];
            &&& gives(0, 0x4d, EventView::MousePress { button: left, col, row })
            &&& gives(1, 0x4d, EventView::MousePress { button: middle, col, row })
            &&& gives(2, 0x4d, EventView::MousePress { button: right, col, row })
            &&& gives(32, 0x4d, EventView::MouseDrag { button: left, col, row })
            &&& gives(33, 0x4d, EventView::MouseDrag { button: middle, col, row })
            &&& gives(34, 0x4d, EventView::MouseDrag { button: right, col, row })
            &&& gives(0, 0x6d, EventView::MouseRelease { col, row })
            &&& gives(1, 0x6d, EventView::MouseRelease { col, row })
            &&& gives(2, 0x6d, EventView::MouseRelease { col, row })
            &&& gives(64, 0x4d, EventView::ScrollUp { col, row })
            &&& gives(65, 0x4d, EventView::ScrollDown { col, row })
        }),
{
    lemma_bits();
    lemma_one_report(prefix, 0, x, y, 0x4d);
    lemma_one_report(prefix, 1, x, y, 0x4d);
    lemma_one_report(prefix, 2, x, y, 0x4d);
    lemma_one_report(prefix, 32, x, y, 0x4d);
    lemma_one_report(prefix, 33, x, y, 0x4d);
    lemma_one_report(prefix, 34, x, y, 0x4d);
    lemma_one_report(prefix, 0, x, y, 0x6d);
    lemma_one_report(prefix, 1, x, y, 0x6d);
    lemma_one_report(prefix, 2, x, y, 0x6d);
    lemma_one_report(prefix, 64, x, y, 0x4d);
    lemma_one_report(prefix, 65, x, y, 0x4d);
}

proof fn lemma_bits()
    ensures
        0u16 & 64 == 0 && 0u16 & 32 == 0 && 0u16 & 0b11 == 0,
        1u16 & 64 == 0 && 1u16 & 32 == 0 && 1u16 & 0b11 == 1,
        2u16 & 64 == 0 && 2u16 & 32 == 0 && 2u16 & 0b11 == 2,
        32u16 & 64 == 0 && 32u16 & 32 == 32 && 32u16 & 0b11 == 0,
        33u16 & 64 == 0 && 33u16 & 32 == 32 && 33u16 & 0b11 == 1,
        34u16 & 64 == 0 && 34u16 & 32 == 32 && 34u16 & 0b11 == 2,
        64u16 & 64 == 64 && 64u16 & 0b11 == 0,
        65u16 & 64 == 64 && 65u16 & 0b11 == 1,
{
    assert(0u16 & 64 == 0 && 0u16 & 32 == 0 && 0u16 & 0b11 == 0 && 1u16 & 64 == 0 && 1u16 & 32 == 0
        && 1u16 & 0b11 == 1 && 2u16 & 64 == 0 && 2u16 & 32 == 0 && 2u16 & 0b11 == 2 && 32u16 & 64
        == 0 && 32u16 & 32 == 32 && 32u16 & 0b11 == 0 && 33u16 & 64 == 0 && 33u16 & 32 == 32
        && 33u16 & 0b11 == 1 && 34u16 & 64 == 0 && 34u16 & 32 == 32 && 34u16 & 0b11 == 2 && 64u16
        & 64 == 64 && 64u16 & 0b11 == 0 && 65u16 & 64 == 64 && 65u16 & 0b11 == 1) by (bit_vector);
}

proof fn lemma_one_report(prefix: u8, code: nat, x: nat, y: nat, end: u8)
    requires
        code <= 0xffff,
        1 <= x <= 0xffff,
        1 <= y <= 0xffff,
        end == 0x4d || end == 0x6d,
    ensures
        events_of(prefix, report_bytes(code, x, y, end)) == seq![
            input::mouse_event(code as u16, (x - 1) as u16, (y - 1) as u16, end == 0x6d),
        ],
{
    let s = report_bytes(code, x, y, end);
    lemma_report(code, x, y, end, Seq::empty());
    assert(s + Seq::<u8>::empty() =~= s);
    let e = input::mouse_event(code as u16, (x - 1) as u16, (y - 1) as u16, end == 0x6d);
    assert(s.len() >= 4);
    assert(s.skip(s.len() as int) =~= Seq::empty());
    let none = Seq::<u8>::empty();
    assert(input::input_parts(none, s.skip(s.len() as int)) =~= Seq::empty());
    assert(!input::is_incomplete_report(s));
    let parts = input::input_parts(none, s);
    assert(parts =~= seq![Part::Mouse(e)]);
    assert(parts.skip(1) =~= Seq::empty());
    assert(input::part_events(prefix, false, parts.skip(1)) =~= Seq::empty());
    assert(input::part_events(prefix, false, parts) =~= seq![e]);
}

} // verus!
