//! Terminal input: mouse reports and the prefix key.
use crate::text;
use crate::text::parse_unsigned;
use vstd::prelude::*;

verus! {

/// Mouse button identifier.
#[derive(Debug, Clone, Copy, PartialEq, Eq, Structural)]
pub enum MouseButton {
    Left,
    Middle,
    Right,
}

/// Configuration for the display and input handling.
#[derive(Debug, Clone)]
pub struct DisplayConfig {
    /// Width of the right sidebar in columns.
    pub sidebar_width: u16,
    /// The prefix key byte (by default Ctrl and backslash).
    pub prefix_key: u8,
    /// Whether to show the bottom status line.
    pub status_line: bool,
}

impl Default for DisplayConfig {
    fn default() -> (config: Self)
        ensures
            config.sidebar_width == 30,
            config.prefix_key == 0x1c,
            config.status_line,
    {
        DisplayConfig { sidebar_width: 30, prefix_key: 0x1c, status_line: true }
    }
}

/// Raw input bytes from the terminal.
#[derive(Debug, Clone)]
pub struct RawInput {
    pub bytes: Vec<u8>,
}

/// Parsed input event after prefix-key processing.
#[derive(Debug, Clone, PartialEq, Eq)]
pub enum InputEvent {
    /// Regular input to forward to the active session.
    PassThrough(Vec<u8>),
    /// Switch to terminal N (counted from zero).
    SwitchTerminal(usize),
    /// Switch to next terminal.
    NextTerminal,
    /// Switch to previous terminal.
    PrevTerminal,
    /// Show help overlay.
    ShowHelp,
    /// Send the literal prefix key byte.
    PrefixEscape,
    /// Detach / quit.
    Detach,
    /// Create a new terminal session.
    CreateTerminal,
    /// Live reload: save state and start the new binary.
    Reload,
    /// Mouse button pressed, at a position counted from zero.
    MousePress { button: MouseButton, col: u16, row: u16 },
    /// Mouse dragged while a button is held.
    MouseDrag { button: MouseButton, col: u16, row: u16 },
    /// Mouse button released.
    MouseRelease { col: u16, row: u16 },
    /// Scroll wheel up.
    ScrollUp { col: u16, row: u16 },
    /// Scroll wheel down.
    ScrollDown { col: u16, row: u16 },
}

/// An input event as a mathematical value.
pub enum EventView {
    PassThrough(Seq<u8>),
    SwitchTerminal(int),
    NextTerminal,
    PrevTerminal,
    ShowHelp,
    PrefixEscape,
    Detach,
    CreateTerminal,
    Reload,
    MousePress { button: MouseButton, col: u16, row: u16 },
    MouseDrag { button: MouseButton, col: u16, row: u16 },
    MouseRelease { col: u16, row: u16 },
    ScrollUp { col: u16, row: u16 },
    ScrollDown { col: u16, row: u16 },
}

impl View for InputEvent {
    type V = EventView;

    open spec fn view(&self) -> EventView {
        match *self {
            InputEvent::PassThrough(bytes) => EventView::PassThrough(bytes@),
            InputEvent::SwitchTerminal(n) => EventView::SwitchTerminal(n as int),
            InputEvent::NextTerminal => EventView::NextTerminal,
            InputEvent::PrevTerminal => EventView::PrevTerminal,
            InputEvent::ShowHelp => EventView::ShowHelp,
            InputEvent::PrefixEscape => EventView::PrefixEscape,
            InputEvent::Detach => EventView::Detach,
            InputEvent::CreateTerminal => EventView::CreateTerminal,
            InputEvent::Reload => EventView::Reload,
            InputEvent::MousePress { button, col, row } => EventView::MousePress {
                button,
                col,
                row,
            },
            InputEvent::MouseDrag { button, col, row } => EventView::MouseDrag { button, col, row },
            InputEvent::MouseRelease { col, row } => EventView::MouseRelease { col, row },
            InputEvent::ScrollUp { col, row } => EventView::ScrollUp { col, row },
            InputEvent::ScrollDown { col, row } => EventView::ScrollDown { col, row },
        }
    }
}

/// The views of a list of events.
pub open spec fn event_views(events: Seq<InputEvent>) -> Seq<EventView> {
    events.map_values(|e: InputEvent| e@)
}

/// The bytes of `s` read as characters of the same code.
pub open spec fn as_chars(s: Seq<u8>) -> Seq<char> {
    s.map_values(|b: u8| b as char)
}

/// Whether `s` begins with the introducer of an SGR mouse report, `ESC [ <`.
pub open spec fn starts_mouse_report(s: Seq<u8>) -> bool {
    s.len() >= 3 && s[0] == 0x1b && s[1] == 0x5b && s[2] == 0x3c
}

/// Whether a byte ends a mouse report: `M` for a press, `m` for a release.
pub open spec fn ends_mouse_report(b: u8) -> bool {
    b == 0x4d || b == 0x6d
}

/// The position of the byte that ends a mouse report, behind the introducer.
pub open spec fn mouse_report_end(s: Seq<u8>) -> Option<int> {
    text::first_index(s.skip(3), |b: u8| ends_mouse_report(b))
}

/// The first position of a semicolon.
pub open spec fn first_semicolon(s: Seq<char>) -> Option<int> {
    text::first_index(s, |c: char| c == ';')
}

/// Three numbers separated by semicolons.
pub open spec fn three_numbers(s: Seq<char>) -> Option<(int, int, int)> {
    match first_semicolon(s) {
        Some(i) => match first_semicolon(s.skip(i + 1)) {
            Some(j) => match (
                text::unsigned_value(s.take(i), 0xffff),
                text::unsigned_value(s.skip(i + 1).take(j), 0xffff),
                text::unsigned_value(s.skip(i + 1).skip(j + 1), 0xffff),
            ) {
                (Some(a), Some(b), Some(c)) => Some((a, b, c)),
                _ => None,
            },
            None => None,
        },
        None => None,
    }
}

/// One less, and zero for zero: from positions counted from one to positions counted from zero.
pub open spec fn from_one_based(n: int) -> u16 {
    if n > 0 {
        (n - 1) as u16
    } else {
        0
    }
}

/// The button named by the two low bits of a mouse code.
pub open spec fn button_of(code: u16) -> MouseButton {
    if code & 0b11 == 1 {
        MouseButton::Middle
    } else if code & 0b11 == 2 {
        MouseButton::Right
    } else {
        MouseButton::Left
    }
}

/// The event of a mouse report: `code` has bit 6 set for the wheel and bit 5 for motion.
pub open spec fn mouse_event(code: u16, col: u16, row: u16, release: bool) -> EventView {
    if code & 64 != 0 {
        if code & 0b11 == 0 {
            EventView::ScrollUp { col, row }
        } else {
            EventView::ScrollDown { col, row }
        }
    } else if release {
        EventView::MouseRelease { col, row }
    } else if code & 32 != 0 {
        EventView::MouseDrag { button: button_of(code), col, row }
    } else {
        EventView::MousePress { button: button_of(code), col, row }
    }
}

/// The complete, well-formed mouse report at the start of `s`: its event and its length.
pub open spec fn mouse_report(s: Seq<u8>) -> Option<(EventView, int)> {
    if !starts_mouse_report(s) {
        None
    } else {
        match mouse_report_end(s) {
            Some(end) => match three_numbers(as_chars(s.subrange(3, 3 + end))) {
                Some((code, x, y)) => Some(
                    (
                        mouse_event(
                            code as u16,
                            from_one_based(x),
                            from_one_based(y),
                            s[3 + end] == 0x6d,
                        ),
                        end + 4,
                    ),
                ),
                None => None,
            },
            None => None,
        }
    }
}

/// Whether `s` begins a mouse report whose end has not arrived yet.
pub open spec fn is_incomplete_report(s: Seq<u8>) -> bool {
    starts_mouse_report(s) && mouse_report_end(s) is None
}

/// A part of the input: a mouse event, or bytes between mouse reports.
pub enum Part {
    Mouse(EventView),
    Raw(Seq<u8>),
}

/// The bytes gathered so far as a part of their own, if there are any.
pub open spec fn raw_part(raw: Seq<u8>) -> Seq<Part> {
    if raw.len() > 0 {
        seq![Part::Raw(raw)]
    } else {
        Seq::empty()
    }
}

/// The parts of `raw` followed by `s`, up to an incomplete report.
pub open spec fn input_parts(raw: Seq<u8>, s: Seq<u8>) -> Seq<Part>
    decreases s.len(),
{
    if s.len() == 0 || is_incomplete_report(s) {
        raw_part(raw)
    } else {
        match mouse_report(s) {
            Some((event, n)) => if 0 < n <= s.len() {
                raw_part(raw) + seq![Part::Mouse(event)] + input_parts(Seq::empty(), s.skip(n))
            } else {
                Seq::empty()
            },
            None => input_parts(raw.push(s[0]), s.skip(1)),
        }
    }
}

/// The bytes held back for the next call: an incomplete report at the end of `s`.
pub open spec fn held_back(s: Seq<u8>) -> Seq<u8>
    decreases s.len(),
{
    if s.len() == 0 || is_incomplete_report(s) {
        s
    } else {
        match mouse_report(s) {
            Some((_, n)) => if 0 < n <= s.len() {
                held_back(s.skip(n))
            } else {
                Seq::empty()
            },
            None => held_back(s.skip(1)),
        }
    }
}

/// The command that a byte behind the prefix key stands for.
pub open spec fn prefix_command(b: u8) -> Option<EventView> {
    if 0x30 <= b <= 0x39 {
        Some(EventView::SwitchTerminal(b - 0x30))
    } else if b == 0x6e || b == 0x4e {
        Some(EventView::NextTerminal)
    } else if b == 0x70 || b == 0x50 {
        Some(EventView::PrevTerminal)
    } else if b == 0x3f {
        Some(EventView::ShowHelp)
    } else if b == 0x64 || b == 0x44 {
        Some(EventView::Detach)
    } else if b == 0x63 || b == 0x43 {
        Some(EventView::CreateTerminal)
    } else if b == 0x72 || b == 0x52 {
        Some(EventView::Reload)
    } else {
        None
    }
}

/// Gathered bytes as an event of their own, if there are any.
pub open spec fn pass_through(bytes: Seq<u8>) -> Seq<EventView> {
    if bytes.len() > 0 {
        seq![EventView::PassThrough(bytes)]
    } else {
        Seq::empty()
    }
}

/// The events of bytes without mouse reports, `gathered` having been read before them.
pub open spec fn key_events(prefix: u8, armed: bool, gathered: Seq<u8>, s: Seq<u8>) -> Seq<
    EventView,
>
    decreases s.len(),
{
    if s.len() == 0 {
        pass_through(gathered)
    } else if armed {
        match prefix_command(s[0]) {
            Some(event) => pass_through(gathered) + seq![event] + key_events(
                prefix,
                false,
                Seq::empty(),
                s.skip(1),
            ),
            None => if s[0] == prefix {
                key_events(prefix, false, gathered.push(prefix), s.skip(1))
            } else {
                key_events(prefix, false, gathered, s.skip(1))
            },
        }
    } else if s[0] == prefix {
        key_events(prefix, true, gathered, s.skip(1))
    } else {
        key_events(prefix, false, gathered.push(s[0]), s.skip(1))
    }
}

/// Whether the prefix key waits for a command behind `s`.
pub open spec fn armed_after(prefix: u8, armed: bool, s: Seq<u8>) -> bool
    decreases s.len(),
{
    if s.len() == 0 {
        armed
    } else {
        armed_after(prefix, !armed && s[0] == prefix, s.skip(1))
    }
}

/// The events of a list of parts.
pub open spec fn part_events(prefix: u8, armed: bool, parts: Seq<Part>) -> Seq<EventView>
    decreases parts.len(),
{
    if parts.len() == 0 {
        Seq::empty()
    } else {
        match parts[0] {
            Part::Mouse(event) => seq![event] + part_events(prefix, armed, parts.skip(1)),
            Part::Raw(bytes) => key_events(prefix, armed, Seq::empty(), bytes) + part_events(
                prefix,
                armed_after(prefix, armed, bytes),
                parts.skip(1),
            ),
        }
    }
}

/// Whether the prefix key waits for a command behind a list of parts.
pub open spec fn armed_after_parts(prefix: u8, armed: bool, parts: Seq<Part>) -> bool
    decreases parts.len(),
{
    if parts.len() == 0 {
        armed
    } else {
        match parts[0] {
            Part::Mouse(_) => armed_after_parts(prefix, armed, parts.skip(1)),
            Part::Raw(bytes) => armed_after_parts(
                prefix,
                armed_after(prefix, armed, bytes),
                parts.skip(1),
            ),
        }
    }
}

fn semicolon_from(s: &[char]) -> (at: Option<usize>)
    ensures
        match at {
            Some(i) => first_semicolon(s@) == Some(i as int) && i < s.len(),
            None => first_semicolon(s@) is None,
        },
{
    let mut i: usize = 0;
    while i < s.len()
        invariant
            i <= s.len(),
            forall|k: int| 0 <= k < i ==> s@[k] != ';',
        decreases s.len() - i,
    {
        if s[i] == ';' {
            proof {
                text::lemma_first_index_at(s@, |c: char| c == ';', i as int);
            }
            return Some(i);
        }
        i += 1;
    }
    proof {
        text::lemma_first_index_none(s@, |c: char| c == ';');
    }
    None
}

fn parse_three_numbers(s: &[char]) -> (numbers: Option<(u16, u16, u16)>)
    ensures
        match numbers {
            Some((a, b, c)) => three_numbers(s@) == Some((a as int, b as int, c as int)),
            None => three_numbers(s@) is None,
        },
{
    match semicolon_from(s) {
        None => None,
        Some(i) => {
            let first = vstd::slice::slice_subrange(s, 0, i);
            assert(first@ =~= s@.take(i as int));
            let rest = vstd::slice::slice_subrange(s, i + 1, s.len());
            assert(rest@ =~= s@.skip(i + 1));
            match semicolon_from(rest) {
                None => None,
                Some(j) => {
                    let second = vstd::slice::slice_subrange(rest, 0, j);
                    assert(second@ =~= rest@.take(j as int));
                    let third = vstd::slice::slice_subrange(rest, j + 1, rest.len());
                    assert(third@ =~= rest@.skip(j + 1));
                    match (
                        parse_unsigned(first, 0xffff),
                        parse_unsigned(second, 0xffff),
                        parse_unsigned(third, 0xffff),
                    ) {
                        (Some(a), Some(b), Some(c)) => Some((a as u16, b as u16, c as u16)),
                        _ => None,
                    }
                },
            }
        },
    }
}

fn button(code: u16) -> (b: MouseButton)
    ensures
        b == button_of(code),
{
    if code & 0b11 == 1 {
        MouseButton::Middle
    } else if code & 0b11 == 2 {
        MouseButton::Right
    } else {
        MouseButton::Left
    }
}

/// Reads an SGR mouse report at the start of `bytes`: the event and the number of bytes it takes.
/// None if there is no report, if it is malformed, or if its end has not arrived.
pub fn parse_sgr_mouse(bytes: &[u8]) -> (report: Option<(InputEvent, usize)>)
    ensures
        match report {
            Some((event, n)) => mouse_report(bytes@) == Some((event@, n as int)) && 3 < n
                <= bytes.len(),
            None => mouse_report(bytes@) is None,
        },
{
    if bytes.len() < 3 || bytes[0] != 0x1b || bytes[1] != 0x5b || bytes[2] != 0x3c {
        return None;
    }
    let end: usize = match report_end(bytes) {
        Some(end) => end,
        None => {
            return None;
        },
    };
    let mut params: Vec<char> = Vec::new();
    let mut k: usize = 3;
    while k < 3 + end
        invariant
            3 <= k <= 3 + end,
            3 + end < bytes.len(),
            params@ == as_chars(bytes@.subrange(3, k as int)),
        decreases 3 + end - k,
    {
        params.push(bytes[k] as char);
        k += 1;
        assert(as_chars(bytes@.subrange(3, k as int)) =~= as_chars(
            bytes@.subrange(3, k - 1),
        ).push(bytes@[k - 1] as char));
    }
    let (code, x, y) = match parse_three_numbers(&params) {
        Some(numbers) => numbers,
        None => {
            return None;
        },
    };
    let col: u16 = if x > 0 {
        x - 1
    } else {
        0
    };
    let row: u16 = if y > 0 {
        y - 1
    } else {
        0
    };
    let event = if code & 64 != 0 {
        if code & 0b11 == 0 {
            InputEvent::ScrollUp { col, row }
        } else {
            InputEvent::ScrollDown { col, row }
        }
    } else if bytes[3 + end] == 0x6d {
        InputEvent::MouseRelease { col, row }
    } else if code & 32 != 0 {
        InputEvent::MouseDrag { button: button(code), col, row }
    } else {
        InputEvent::MousePress { button: button(code), col, row }
    };
    Some((event, end + 4))
}

fn report_end(bytes: &[u8]) -> (end: Option<usize>)
    requires
        bytes.len() >= 3,
    ensures
        match end {
            Some(e) => mouse_report_end(bytes@) == Some(e as int) && 3 + e < bytes.len(),
            None => mouse_report_end(bytes@) is None,
        },
{
    let mut i: usize = 3;
    while i < bytes.len()
        invariant
            3 <= i <= bytes.len(),
            forall|k: int| 3 <= k < i ==> !ends_mouse_report(bytes@[k]),
        decreases bytes.len() - i,
    {
        if bytes[i] == 0x4d || bytes[i] == 0x6d {
            proof {
                assert forall|k: int| 0 <= k < i - 3 implies !ends_mouse_report(
                    bytes@.skip(3)[k],
                ) by {
                    assert(bytes@.skip(3)[k] == bytes@[k + 3]);
                }
                text::lemma_first_index_at(bytes@.skip(3), |b: u8| ends_mouse_report(b), i - 3);
            }
            return Some(i - 3);
        }
        i += 1;
    }
    proof {
        assert forall|k: int| 0 <= k < bytes@.skip(3).len() implies !ends_mouse_report(
            bytes@.skip(3)[k],
        ) by {
            assert(bytes@.skip(3)[k] == bytes@[k + 3]);
        }
        text::lemma_first_index_none(bytes@.skip(3), |b: u8| ends_mouse_report(b));
    }
    None
}

proof fn lemma_leading_raw_part(prefix: u8, armed: bool, raw: Seq<u8>, tail: Seq<Part>)
    ensures
        part_events(prefix, armed, raw_part(raw) + tail) == key_events(
            prefix,
            armed,
            Seq::empty(),
            raw,
        ) + part_events(prefix, armed_after(prefix, armed, raw), tail),
        armed_after_parts(prefix, armed, raw_part(raw) + tail) == armed_after_parts(
            prefix,
            armed_after(prefix, armed, raw),
            tail,
        ),
{
    let parts = raw_part(raw) + tail;
    if raw.len() > 0 {
        assert(parts[0] == Part::Raw(raw));
        assert(parts.skip(1) =~= tail);
    } else {
        assert(parts =~= tail);
        assert(key_events(prefix, armed, Seq::empty(), raw) =~= Seq::empty());
        assert(Seq::<EventView>::empty() + part_events(prefix, armed, tail) =~= part_events(
            prefix,
            armed,
            tail,
        ));
    }
}

proof fn lemma_push_view(events: Seq<InputEvent>, event: InputEvent)
    ensures
        event_views(events.push(event)) == event_views(events).push(event@),
{
    assert(event_views(events.push(event)) =~= event_views(events).push(event@));
}

/// Appends the bytes as an event of their own, if there are any.
fn push_pass_through(events: &mut Vec<InputEvent>, bytes: Vec<u8>)
    ensures
        event_views(final(events)@) == event_views(old(events)@) + pass_through(bytes@),
{
    if bytes.len() > 0 {
        let ghost before = events@;
        let event = InputEvent::PassThrough(bytes);
        proof {
            lemma_push_view(before, event);
        }
        events.push(event);
        assert(event_views(before) + pass_through(bytes@) =~= event_views(before).push(event@));
    } else {
        assert(event_views(events@) + pass_through(bytes@) =~= event_views(events@));
    }
}

fn command(b: u8) -> (event: Option<InputEvent>)
    ensures
        match event {
            Some(e) => prefix_command(b) == Some(e@),
            None => prefix_command(b) is None,
        },
{
    if b >= 0x30 && b <= 0x39 {
        Some(InputEvent::SwitchTerminal((b - 0x30) as usize))
    } else if b == 0x6e || b == 0x4e {
        Some(InputEvent::NextTerminal)
    } else if b == 0x70 || b == 0x50 {
        Some(InputEvent::PrevTerminal)
    } else if b == 0x3f {
        Some(InputEvent::ShowHelp)
    } else if b == 0x64 || b == 0x44 {
        Some(InputEvent::Detach)
    } else if b == 0x63 || b == 0x43 {
        Some(InputEvent::CreateTerminal)
    } else if b == 0x72 || b == 0x52 {
        Some(InputEvent::Reload)
    } else {
        None
    }
}

/// State machine for parsing input with prefix-key awareness.
pub struct InputParser {
    config: DisplayConfig,
    prefix_armed: bool,
    /// An incomplete mouse report, split across reads.
    mouse_buf: Vec<u8>,
}

impl InputParser {
    /// The configuration that the parser was made with.
    pub closed spec fn spec_config(&self) -> DisplayConfig {
        self.config
    }

    /// The prefix key.
    pub open spec fn prefix(&self) -> u8 {
        self.spec_config().prefix_key
    }

    /// Whether the prefix key waits for a command.
    pub closed spec fn armed(&self) -> bool {
        self.prefix_armed
    }

    /// The bytes of an incomplete mouse report, held back for the next call.
    pub closed spec fn held(&self) -> Seq<u8> {
        self.mouse_buf@
    }

    /// A parser that has read nothing yet.
    pub fn new(config: DisplayConfig) -> (parser: Self)
        ensures
            parser.spec_config() == config,
            !parser.armed(),
            parser.held() == Seq::<u8>::empty(),
            is_held(parser.held()),
    {
        InputParser { config, prefix_armed: false, mouse_buf: Vec::new() }
    }

    /// Turns raw input into events. Mouse reports are recognised before the prefix key; a report
    /// whose end has not arrived is held back for the next call.
    pub fn process(&mut self, input: &RawInput) -> (events: Vec<InputEvent>)
        ensures
            final(self).spec_config() == old(self).spec_config(),
            event_views(events@) == part_events(
                old(self).prefix(),
                old(self).armed(),
                input_parts(Seq::empty(), old(self).held() + input.bytes@),
            ),
            final(self).armed() == armed_after_parts(
                old(self).prefix(),
                old(self).armed(),
                input_parts(Seq::empty(), old(self).held() + input.bytes@),
            ),
            final(self).held() == held_back(old(self).held() + input.bytes@),
            is_held(final(self).held()),
    {
        proof {
            lemma_held(old(self).held() + input.bytes@);
        }
        let ghost prefix = self.prefix();
        let ghost armed = self.armed();
        let mut all: Vec<u8> = Vec::new();
        std::mem::swap(&mut all, &mut self.mouse_buf);
        text::push_bytes(&mut all, &input.bytes);
        assert(all@ == old(self).held() + input.bytes@);
        let ghost parts = input_parts(Seq::empty(), all@);
        let mut events: Vec<InputEvent> = Vec::new();
        let mut raw: Vec<u8> = Vec::new();
        let mut pos: usize = 0;
        assert(all@.skip(0) =~= all@);
        assert(event_views(events@) + part_events(prefix, armed, parts) =~= part_events(
            prefix,
            armed,
            parts,
        ));
        while pos < all.len()
            invariant
                pos <= all.len(),
                all@ == old(self).held() + input.bytes@,
                self.spec_config() == old(self).spec_config(),
                prefix == self.prefix(),
                self.held() == Seq::<u8>::empty(),
                parts == input_parts(Seq::empty(), all@),
                armed == old(self).armed(),
                event_views(events@) + part_events(
                    prefix,
                    self.armed(),
                    input_parts(raw@, all@.skip(pos as int)),
                ) == part_events(prefix, armed, parts),
                armed_after_parts(prefix, self.armed(), input_parts(raw@, all@.skip(pos as int)))
                    == armed_after_parts(prefix, armed, parts),
                held_back(all@.skip(pos as int)) == held_back(all@),
            decreases all.len() - pos,
        {
            let rest = vstd::slice::slice_subrange(&all, pos, all.len());
            assert(rest@ =~= all@.skip(pos as int));
            match parse_sgr_mouse(rest) {
                Some((event, n)) => {
                    let ghost seen = event_views(events@);
                    let ghost now = self.armed();
                    let ghost view = event@;
                    let ghost tail = input_parts(Seq::empty(), rest@.skip(n as int));
                    let ghost behind = seq![Part::Mouse(view)] + tail;
                    proof {
                        assert(raw_part(raw@) + seq![Part::Mouse(view)] + tail =~= raw_part(raw@)
                            + behind);
                        lemma_leading_raw_part(prefix, now, raw@, behind);
                        assert(behind.skip(1) =~= tail);
                        assert(rest@.skip(n as int) =~= all@.skip(pos + n));
                    }
                    self.process_raw_bytes(&raw, &mut events);
                    proof {
                        lemma_push_view(events@, event);
                        let keys = key_events(prefix, now, Seq::empty(), raw@);
                        let later = part_events(prefix, self.armed(), tail);
                        assert(seen + (keys + (seq![view] + later)) =~= (seen + keys).push(view)
                            + later);
                    }
                    events.push(event);
                    raw = Vec::new();
                    assert(raw@ =~= Seq::empty());
                    pos += n;
                },
                None => {
                    if rest.len() >= 3 && rest[0] == 0x1b && rest[1] == 0x5b && rest[2] == 0x3c
                        && report_end(rest).is_none() {
                        text::push_bytes(&mut self.mouse_buf, rest);
                        assert(self.held() =~= rest@);
                        proof {
                            lemma_leading_raw_part(prefix, self.armed(), raw@, Seq::empty());
                            assert(raw_part(raw@) + Seq::empty() =~= raw_part(raw@));
                        }
                        let ghost seen = event_views(events@);
                        let ghost keys = key_events(prefix, self.armed(), Seq::empty(), raw@);
                        self.process_raw_bytes(&raw, &mut events);
                        assert(seen + (keys + Seq::empty()) =~= event_views(events@));
                        return events;
                    }
                    raw.push(all[pos]);
                    assert(rest@.skip(1) =~= all@.skip(pos + 1));
                    pos += 1;
                },
            }
        }
        proof {
            assert(all@.skip(pos as int) =~= Seq::empty());
            lemma_leading_raw_part(prefix, self.armed(), raw@, Seq::empty());
            assert(raw_part(raw@) + Seq::empty() =~= raw_part(raw@));
        }
        let ghost seen = event_views(events@);
        let ghost keys = key_events(prefix, self.armed(), Seq::empty(), raw@);
        self.process_raw_bytes(&raw, &mut events);
        assert(seen + (keys + Seq::empty()) =~= event_views(events@));
        events
    }

    /// Runs the prefix-key state machine on bytes without mouse reports.
    fn process_raw_bytes(&mut self, bytes: &[u8], events: &mut Vec<InputEvent>)
        ensures
            final(self).spec_config() == old(self).spec_config(),
            final(self).held() == old(self).held(),
            final(self).armed() == armed_after(old(self).prefix(), old(self).armed(), bytes@),
            event_views(final(events)@) == event_views(old(events)@) + key_events(
                old(self).prefix(),
                old(self).armed(),
                Seq::empty(),
                bytes@,
            ),
    {
        let ghost prefix = self.prefix();
        let ghost before = event_views(events@);
        let ghost expected = before + key_events(prefix, self.armed(), Seq::empty(), bytes@);
        let ghost armed_at_end = armed_after(prefix, self.armed(), bytes@);
        let mut gathered: Vec<u8> = Vec::new();
        let mut i: usize = 0;
        assert(bytes@.skip(0) =~= bytes@);
        assert(gathered@ =~= Seq::empty());
        while i < bytes.len()
            invariant
                i <= bytes.len(),
                self.spec_config() == old(self).spec_config(),
                self.held() == old(self).held(),
                prefix == self.prefix(),
                event_views(events@) + key_events(
                    prefix,
                    self.armed(),
                    gathered@,
                    bytes@.skip(i as int),
                ) == expected,
                armed_after(prefix, self.armed(), bytes@.skip(i as int)) == armed_at_end,
            decreases bytes.len() - i,
        {
            let byte: u8 = bytes[i];
            assert(bytes@.skip(i as int).skip(1) =~= bytes@.skip(i + 1));
            if self.prefix_armed {
                self.prefix_armed = false;
                match command(byte) {
                    Some(event) => {
                        let ghost seen = event_views(events@);
                        let ghost flushed = pass_through(gathered@);
                        let ghost view = event@;
                        push_pass_through(events, gathered);
                        gathered = Vec::new();
                        proof {
                            lemma_push_view(events@, event);
                            let later = key_events(prefix, false, Seq::empty(), bytes@.skip(i + 1));
                            assert(gathered@ =~= Seq::empty());
                            assert(seen + (flushed + seq![view] + later) =~= (seen + flushed).push(
                                view,
                            ) + later);
                        }
                        events.push(event);
                    },
                    None => {
                        if byte == self.config.prefix_key {
                            gathered.push(byte);
                        }
                    },
                }
            } else if byte == self.config.prefix_key {
                self.prefix_armed = true;
            } else {
                gathered.push(byte);
            }
            i += 1;
        }
        assert(bytes@.skip(i as int) =~= Seq::empty());
        push_pass_through(events, gathered);
    }

    /// Whether the prefix key is armed, waiting for a command.
    pub fn is_prefix_armed(&self) -> (armed: bool)
        ensures
            armed == self.armed(),
    {
        self.prefix_armed
    }

    /// Cancels an armed prefix key, for example on a timeout.
    pub fn cancel_prefix(&mut self)
        ensures
            !final(self).armed(),
            final(self).spec_config() == old(self).spec_config(),
            final(self).held() == old(self).held(),
    {
        self.prefix_armed = false;
    }

    /// The configuration.
    pub fn config(&self) -> (config: &DisplayConfig)
        ensures
            *config == self.spec_config(),
    {
        &self.config
    }
}

proof fn lemma_parts_of_plain(raw: Seq<u8>, s: Seq<u8>, rest: Seq<u8>)
    requires
        forall|i: int| 0 <= i < s.len() ==> s[i] != 0x1b,
    ensures
        input_parts(raw, s + rest) == input_parts(raw + s, rest),
        held_back(s + rest) == held_back(rest),
    decreases s.len(),
{
    let all = s + rest;
    if s.len() > 0 {
        assert(all[0] == s[0]);
        assert(all.skip(1) =~= s.skip(1) + rest);
        assert forall|i: int| 0 <= i < s.skip(1).len() implies s.skip(1)[i] != 0x1b by {
            assert(s.skip(1)[i] == s[i + 1]);
        }
        lemma_parts_of_plain(raw.push(s[0]), s.skip(1), rest);
        assert(raw.push(s[0]) + s.skip(1) =~= raw + s);
    } else {
        assert(all =~= rest);
        assert(raw + s =~= raw);
    }
}

proof fn lemma_keys_of_plain(prefix: u8, gathered: Seq<u8>, s: Seq<u8>)
    requires
        forall|i: int| 0 <= i < s.len() ==> s[i] != prefix,
    ensures
        key_events(prefix, false, gathered, s) == pass_through(gathered + s),
        !armed_after(prefix, false, s),
    decreases s.len(),
{
    if s.len() > 0 {
        assert forall|i: int| 0 <= i < s.skip(1).len() implies s.skip(1)[i] != prefix by {
            assert(s.skip(1)[i] == s[i + 1]);
        }
        lemma_keys_of_plain(prefix, gathered.push(s[0]), s.skip(1));
        assert(gathered.push(s[0]) + s.skip(1) =~= gathered + s);
    } else {
        assert(gathered + s =~= gathered);
    }
}

/// Input that holds neither the prefix key nor an escape is forwarded as it is, in one event.
pub proof fn law_plain_input_passes_through(prefix: u8, s: Seq<u8>)
    requires
        s.len() > 0,
        forall|i: int| 0 <= i < s.len() ==> s[i] != prefix && s[i] != 0x1b,
    ensures
        part_events(prefix, false, input_parts(Seq::empty(), s)) == seq![EventView::PassThrough(s)],
        !armed_after_parts(prefix, false, input_parts(Seq::empty(), s)),
        held_back(s) == Seq::<u8>::empty(),
{
    lemma_parts_of_plain(Seq::empty(), s, Seq::empty());
    assert(s + Seq::empty() =~= s);
    assert(Seq::<u8>::empty() + s =~= s);
    lemma_keys_of_plain(prefix, Seq::empty(), s);
    lemma_leading_raw_part(prefix, false, s, Seq::empty());
    assert(raw_part(s) + Seq::empty() =~= raw_part(s));
    assert(pass_through(s) + Seq::<EventView>::empty() =~= seq![EventView::PassThrough(s)]);
    assert(held_back(s) =~= Seq::empty());
}

/// The prefix key pressed twice sends it once.
pub proof fn law_doubled_prefix_is_literal(prefix: u8)
    requires
        prefix != 0x1b,
        prefix_command(prefix) is None,
    ensures
        part_events(prefix, false, input_parts(Seq::empty(), seq![prefix, prefix])) == seq![
            EventView::PassThrough(seq![prefix]),
        ],
{
    let s = seq![prefix, prefix];
    lemma_parts_of_plain(Seq::empty(), s, Seq::empty());
    assert(s + Seq::empty() =~= s);
    assert(Seq::<u8>::empty() + s =~= s);
    lemma_leading_raw_part(prefix, false, s, Seq::empty());
    assert(raw_part(s) + Seq::empty() =~= raw_part(s));
    reveal_with_fuel(key_events, 3);
    assert(s.skip(1).skip(1) =~= Seq::empty());
    assert(s.skip(1)[0] == prefix);
    assert(Seq::<u8>::empty().push(prefix) =~= seq![prefix]);
    assert(key_events(prefix, false, Seq::empty(), s) =~= pass_through(seq![prefix]));
    assert(pass_through(seq![prefix]) + Seq::<EventView>::empty() =~= pass_through(seq![prefix]));
}

/// A mouse report that is cut anywhere behind its introducer is recognised when the rest comes:
/// the first piece gives only the events of the text in front of the report and holds the report
/// back, so that the next call reads the whole of it.
pub proof fn law_cut_report_is_held_back(plain: Seq<u8>, report: Seq<u8>)
    requires
        forall|i: int| 0 <= i < plain.len() ==> plain[i] != 0x1b,
        starts_mouse_report(report),
        forall|i: int| 3 <= i < report.len() ==> !ends_mouse_report(report[i]),
    ensures
        held_back(plain + report) == report,
        input_parts(Seq::empty(), plain + report) == raw_part(plain),
{
    assert forall|k: int| 0 <= k < report.skip(3).len() implies !ends_mouse_report(
        report.skip(3)[k],
    ) by {
        assert(report.skip(3)[k] == report[k + 3]);
    }
    text::lemma_first_index_none(report.skip(3), |b: u8| ends_mouse_report(b));
    lemma_parts_of_plain(Seq::empty(), plain, report);
    assert(Seq::<u8>::empty() + plain =~= plain);
}

/// What is held back is nothing, or the start of a mouse report.
pub open spec fn is_held(s: Seq<u8>) -> bool {
    s.len() == 0 || is_incomplete_report(s)
}

/// Whether input ends with one of the first two bytes of a report's introducer.
pub open spec fn cuts_introducer(s: Seq<u8>) -> bool {
    ||| s.len() >= 1 && s.last() == 0x1b
    ||| s.len() >= 2 && s[s.len() - 2] == 0x1b && s.last() == 0x5b
}

/// Events with neighbouring runs of forwarded input joined into one.
pub open spec fn merged(events: Seq<EventView>) -> Seq<EventView>
    decreases events.len(),
{
    if events.len() == 0 {
        Seq::empty()
    } else {
        let front = merged(events.drop_last());
        match (front.len() > 0, front.last(), events.last()) {
            (true, EventView::PassThrough(a), EventView::PassThrough(b)) => front.drop_last().push(
                EventView::PassThrough(a + b),
            ),
            _ => front.push(events.last()),
        }
    }
}

/// One forwarded byte, or one other event.
enum Atom {
    Byte(u8),
    Event(EventView),
}

/// One byte of the input, or one mouse report.
enum Item {
    Byte(u8),
    Mouse(EventView),
}

spec fn byte_atoms(s: Seq<u8>) -> Seq<Atom> {
    s.map_values(|b: u8| Atom::Byte(b))
}

spec fn byte_items(s: Seq<u8>) -> Seq<Item> {
    s.map_values(|b: u8| Item::Byte(b))
}

spec fn atoms_of(e: EventView) -> Seq<Atom> {
    match e {
        EventView::PassThrough(s) => byte_atoms(s),
        _ => seq![Atom::Event(e)],
    }
}

spec fn flat(events: Seq<EventView>) -> Seq<Atom>
    decreases events.len(),
{
    if events.len() == 0 {
        Seq::empty()
    } else {
        flat(events.drop_last()) + atoms_of(events.last())
    }
}

proof fn lemma_flat_pieces(a: Seq<EventView>, b: Seq<EventView>)
    ensures
        flat(a + b) == flat(a) + flat(b),
    decreases b.len(),
{
    if b.len() == 0 {
        assert(a + b =~= a);
        assert(flat(a) + flat(b) =~= flat(a));
    } else {
        assert((a + b).drop_last() =~= a + b.drop_last());
        lemma_flat_pieces(a, b.drop_last());
        assert(flat(a + b) =~= flat(a) + flat(b));
    }
}

proof fn lemma_flat_one(e: EventView)
    ensures
        flat(seq![e]) == atoms_of(e),
{
    assert(seq![e].drop_last() =~= Seq::empty());
    assert(flat(seq![e].drop_last()) =~= Seq::empty());
    assert(flat(seq![e]) =~= atoms_of(e));
}

/// The atoms joined into events.
spec fn joined(atoms: Seq<Atom>) -> Seq<EventView>
    decreases atoms.len(),
{
    if atoms.len() == 0 {
        Seq::empty()
    } else {
        let front = joined(atoms.drop_last());
        match atoms.last() {
            Atom::Event(e) => front.push(e),
            Atom::Byte(b) => match (front.len() > 0, front.last()) {
                (true, EventView::PassThrough(a)) => front.drop_last().push(
                    EventView::PassThrough(a.push(b)),
                ),
                _ => front.push(EventView::PassThrough(seq![b])),
            },
        }
    }
}

proof fn lemma_joined_bytes(atoms: Seq<Atom>, s: Seq<u8>)
    requires
        s.len() > 0,
    ensures
        ({
            let front = joined(atoms);
            joined(atoms + byte_atoms(s)) == match (front.len() > 0, front.last()) {
                (true, EventView::PassThrough(a)) => front.drop_last().push(
                    EventView::PassThrough(a + s),
                ),
                _ => front.push(EventView::PassThrough(s)),
            }
        }),
    decreases s.len(),
{
    let front = joined(atoms);
    let all = atoms + byte_atoms(s);
    assert(all.drop_last() =~= atoms + byte_atoms(s.drop_last()));
    assert(all.last() == Atom::Byte(s.last()));
    if s.len() == 1 {
        assert(byte_atoms(s.drop_last()) =~= Seq::empty());
        assert(all.drop_last() =~= atoms);
        assert(s =~= seq![s.last()]);
        if front.len() > 0 {
            if let EventView::PassThrough(a) = front.last() {
                assert(a.push(s.last()) =~= a + s);
            }
        }
    } else {
        let t = s.drop_last();
        lemma_joined_bytes(atoms, t);
        let g = joined(atoms + byte_atoms(t));
        assert(t.push(s.last()) =~= s);
        if front.len() > 0 && front.last() is PassThrough {
            let a = front.last()->PassThrough_0;
            assert(g.drop_last() =~= front.drop_last());
            assert((a + t).push(s.last()) =~= a + s);
        } else {
            assert(g.drop_last() =~= front);
        }
    }
}

/// No run of forwarded input is empty.
spec fn has_no_empty_run(events: Seq<EventView>) -> bool {
    forall|i: int|
        0 <= i < events.len() ==> ((#[trigger] events[i]) matches EventView::PassThrough(s)
            ==> s.len() > 0)
}

proof fn lemma_merged_is_joined(events: Seq<EventView>)
    requires
        has_no_empty_run(events),
    ensures
        merged(events) == joined(flat(events)),
    decreases events.len(),
{
    if events.len() > 0 {
        let front = events.drop_last();
        assert forall|i: int| 0 <= i < front.len() implies ((
        #[trigger] front[i]) matches EventView::PassThrough(s) ==> s.len() > 0) by {
            assert(front[i] == events[i]);
        }
        lemma_merged_is_joined(front);
        let last = events.last();
        assert(last == events[events.len() - 1]);
        match last {
            EventView::PassThrough(s) => {
                lemma_joined_bytes(flat(front), s);
            },
            _ => {
                let all = flat(front) + seq![Atom::Event(last)];
                assert(flat(events) == all);
                assert(all.drop_last() =~= flat(front));
            },
        }
    }
}

/// What a byte behind the prefix key, or not, becomes.
spec fn byte_step(prefix: u8, armed: bool, b: u8) -> Seq<Atom> {
    if armed {
        match prefix_command(b) {
            Some(event) => seq![Atom::Event(event)],
            None => if b == prefix {
                seq![Atom::Byte(prefix)]
            } else {
                Seq::empty()
            },
        }
    } else if b == prefix {
        Seq::empty()
    } else {
        seq![Atom::Byte(b)]
    }
}

spec fn item_armed(prefix: u8, armed: bool, items: Seq<Item>) -> bool
    decreases items.len(),
{
    if items.len() == 0 {
        armed
    } else {
        let before = item_armed(prefix, armed, items.drop_last());
        match items.last() {
            Item::Byte(b) => !before && b == prefix,
            Item::Mouse(_) => before,
        }
    }
}

spec fn item_atoms(prefix: u8, armed: bool, items: Seq<Item>) -> Seq<Atom>
    decreases items.len(),
{
    if items.len() == 0 {
        Seq::empty()
    } else {
        let front = items.drop_last();
        item_atoms(prefix, armed, front) + (match items.last() {
            Item::Byte(b) => byte_step(prefix, item_armed(prefix, armed, front), b),
            Item::Mouse(e) => seq![Atom::Event(e)],
        })
    }
}

proof fn lemma_item_pieces(prefix: u8, armed: bool, x: Seq<Item>, y: Seq<Item>)
    ensures
        item_armed(prefix, armed, x + y) == item_armed(prefix, item_armed(prefix, armed, x), y),
        item_atoms(prefix, armed, x + y) == item_atoms(prefix, armed, x) + item_atoms(
            prefix,
            item_armed(prefix, armed, x),
            y,
        ),
    decreases y.len(),
{
    if y.len() == 0 {
        assert(x + y =~= x);
        assert(item_atoms(prefix, armed, x) + Seq::empty() =~= item_atoms(prefix, armed, x));
    } else {
        assert((x + y).drop_last() =~= x + y.drop_last());
        lemma_item_pieces(prefix, armed, x, y.drop_last());
        assert(item_atoms(prefix, armed, x + y) =~= item_atoms(prefix, armed, x) + item_atoms(
            prefix,
            item_armed(prefix, armed, x),
            y,
        ));
    }
}

proof fn lemma_item_one(prefix: u8, armed: bool, i: Item)
    ensures
        item_armed(prefix, armed, seq![i]) == (match i {
            Item::Byte(b) => !armed && b == prefix,
            Item::Mouse(_) => armed,
        }),
        item_atoms(prefix, armed, seq![i]) == (match i {
            Item::Byte(b) => byte_step(prefix, armed, b),
            Item::Mouse(e) => seq![Atom::Event(e)],
        }),
{
    let front = seq![i].drop_last();
    assert(front =~= Seq::empty());
    assert(item_atoms(prefix, armed, front) =~= Seq::empty());
    assert(item_armed(prefix, armed, front) == armed);
    assert(item_atoms(prefix, armed, seq![i]) =~= (match i {
        Item::Byte(b) => byte_step(prefix, armed, b),
        Item::Mouse(e) => seq![Atom::Event(e)],
    }));
}

proof fn lemma_pass_through(s: Seq<u8>)
    ensures
        flat(pass_through(s)) == byte_atoms(s),
        has_no_empty_run(pass_through(s)),
{
    if s.len() > 0 {
        lemma_flat_one(EventView::PassThrough(s));
    } else {
        assert(byte_atoms(s) =~= Seq::empty());
    }
}

proof fn lemma_no_empty_runs(a: Seq<EventView>, b: Seq<EventView>)
    requires
        has_no_empty_run(a),
        has_no_empty_run(b),
    ensures
        has_no_empty_run(a + b),
{
    assert forall|i: int| 0 <= i < (a + b).len() implies ((
    #[trigger] (a + b)[i]) matches EventView::PassThrough(s) ==> s.len() > 0) by {
        if i < a.len() {
            assert((a + b)[i] == a[i]);
        } else {
            assert((a + b)[i] == b[i - a.len()]);
        }
    }
}

proof fn lemma_keys_flat(prefix: u8, armed: bool, gathered: Seq<u8>, s: Seq<u8>)
    ensures
        flat(key_events(prefix, armed, gathered, s)) == byte_atoms(gathered) + item_atoms(
            prefix,
            armed,
            byte_items(s),
        ),
        has_no_empty_run(key_events(prefix, armed, gathered, s)),
        armed_after(prefix, armed, s) == item_armed(prefix, armed, byte_items(s)),
    decreases s.len(),
{
    let items = byte_items(s);
    if s.len() == 0 {
        lemma_pass_through(gathered);
        assert(items =~= Seq::empty());
        assert(byte_atoms(gathered) + Seq::<Atom>::empty() =~= byte_atoms(gathered));
    } else {
        let b = s[0];
        let rest = s.skip(1);
        let i = Item::Byte(b);
        assert(items =~= seq![i] + byte_items(rest));
        lemma_item_pieces(prefix, armed, seq![i], byte_items(rest));
        lemma_item_one(prefix, armed, i);
        let next = !armed && b == prefix;
        let tail = item_atoms(prefix, next, byte_items(rest));
        if armed && prefix_command(b) is Some {
            let e = prefix_command(b)->0;
            lemma_keys_flat(prefix, false, Seq::empty(), rest);
            let later = key_events(prefix, false, Seq::empty(), rest);
            let first = pass_through(gathered) + seq![e];
            lemma_pass_through(gathered);
            lemma_flat_one(e);
            lemma_flat_pieces(pass_through(gathered), seq![e]);
            lemma_flat_pieces(first, later);
            lemma_no_empty_runs(pass_through(gathered), seq![e]);
            lemma_no_empty_runs(first, later);
            assert(byte_atoms(Seq::empty()) + tail =~= tail);
            assert(byte_atoms(gathered) + seq![Atom::Event(e)] + tail =~= byte_atoms(gathered) + (
            seq![Atom::Event(e)] + tail));
        } else if (armed && b == prefix) || (!armed && b != prefix) {
            lemma_keys_flat(prefix, false, gathered.push(b), rest);
            assert(byte_atoms(gathered.push(b)) + tail =~= byte_atoms(gathered) + (
            seq![Atom::Byte(b)] + tail));
        } else {
            lemma_keys_flat(prefix, next, gathered, rest);
            assert(Seq::<Atom>::empty() + tail =~= tail);
        }
    }
}

spec fn part_items(part: Part) -> Seq<Item> {
    match part {
        Part::Mouse(e) => seq![Item::Mouse(e)],
        Part::Raw(s) => byte_items(s),
    }
}

spec fn stream(parts: Seq<Part>) -> Seq<Item>
    decreases parts.len(),
{
    if parts.len() == 0 {
        Seq::empty()
    } else {
        part_items(parts[0]) + stream(parts.skip(1))
    }
}

proof fn lemma_stream_pieces(a: Seq<Part>, b: Seq<Part>)
    ensures
        stream(a + b) == stream(a) + stream(b),
    decreases a.len(),
{
    if a.len() == 0 {
        assert(a + b =~= b);
        assert(Seq::<Item>::empty() + stream(b) =~= stream(b));
    } else {
        assert((a + b).skip(1) =~= a.skip(1) + b);
        lemma_stream_pieces(a.skip(1), b);
        assert(stream(a + b) =~= stream(a) + stream(b));
    }
}

/// Whether the mouse events among parts are no runs of forwarded input.
spec fn has_mouse_events(parts: Seq<Part>) -> bool {
    forall|i: int|
        0 <= i < parts.len() ==> ((#[trigger] parts[i]) matches Part::Mouse(e)
            ==> !(e is PassThrough))
}

proof fn lemma_parts_flat(prefix: u8, armed: bool, parts: Seq<Part>)
    requires
        has_mouse_events(parts),
    ensures
        flat(part_events(prefix, armed, parts)) == item_atoms(prefix, armed, stream(parts)),
        has_no_empty_run(part_events(prefix, armed, parts)),
        armed_after_parts(prefix, armed, parts) == item_armed(prefix, armed, stream(parts)),
    decreases parts.len(),
{
    if parts.len() > 0 {
        let rest = parts.skip(1);
        assert forall|i: int| 0 <= i < rest.len() implies ((
        #[trigger] rest[i]) matches Part::Mouse(e) ==> !(e is PassThrough)) by {
            assert(rest[i] == parts[i + 1]);
        }
        lemma_item_pieces(prefix, armed, part_items(parts[0]), stream(rest));
        match parts[0] {
            Part::Mouse(e) => {
                lemma_parts_flat(prefix, armed, rest);
                lemma_item_one(prefix, armed, Item::Mouse(e));
                let later = part_events(prefix, armed, rest);
                lemma_flat_one(e);
                lemma_flat_pieces(seq![e], later);
                lemma_no_empty_runs(seq![e], later);
            },
            Part::Raw(s) => {
                let next = armed_after(prefix, armed, s);
                lemma_parts_flat(prefix, next, rest);
                lemma_keys_flat(prefix, armed, Seq::empty(), s);
                let keys = key_events(prefix, armed, Seq::empty(), s);
                let later = part_events(prefix, next, rest);
                lemma_flat_pieces(keys, later);
                lemma_no_empty_runs(keys, later);
                assert(byte_atoms(Seq::empty()) + item_atoms(prefix, armed, byte_items(s))
                    =~= item_atoms(prefix, armed, byte_items(s)));
            },
        }
    }
}

/// The bytes and the mouse reports of input, up to an incomplete report.
spec fn items_of(s: Seq<u8>) -> Seq<Item>
    decreases s.len(),
{
    if s.len() == 0 || is_incomplete_report(s) {
        Seq::empty()
    } else {
        match mouse_report(s) {
            Some((event, n)) => if 0 < n <= s.len() {
                seq![Item::Mouse(event)] + items_of(s.skip(n))
            } else {
                Seq::empty()
            },
            None => seq![Item::Byte(s[0])] + items_of(s.skip(1)),
        }
    }
}

proof fn lemma_raw_part(raw: Seq<u8>)
    ensures
        stream(raw_part(raw)) == byte_items(raw),
        has_mouse_events(raw_part(raw)),
{
    let parts = raw_part(raw);
    if raw.len() > 0 {
        assert(parts.skip(1) =~= Seq::empty());
        assert(stream(parts.skip(1)) =~= Seq::empty());
        assert(stream(parts) =~= byte_items(raw));
    } else {
        assert(byte_items(raw) =~= Seq::empty());
    }
}

proof fn lemma_parts_stream(raw: Seq<u8>, s: Seq<u8>)
    ensures
        stream(input_parts(raw, s)) == byte_items(raw) + items_of(s),
        has_mouse_events(input_parts(raw, s)),
    decreases s.len(),
{
    lemma_raw_part(raw);
    if s.len() == 0 || is_incomplete_report(s) {
        assert(byte_items(raw) + items_of(s) =~= byte_items(raw));
    } else {
        match mouse_report(s) {
            Some((event, n)) => {
                lemma_report_length(s);
                lemma_parts_stream(Seq::empty(), s.skip(n));
                let mouse = seq![Part::Mouse(event)];
                let later = input_parts(Seq::empty(), s.skip(n));
                lemma_stream_pieces(raw_part(raw) + mouse, later);
                lemma_stream_pieces(raw_part(raw), mouse);
                assert(mouse.skip(1) =~= Seq::empty());
                assert(stream(mouse.skip(1)) =~= Seq::empty());
                assert(stream(mouse) =~= seq![Item::Mouse(event)]);
                assert(byte_items(Seq::empty()) + items_of(s.skip(n)) =~= items_of(s.skip(n)));
                assert(stream(input_parts(raw, s)) =~= byte_items(raw) + items_of(s));
                let all = input_parts(raw, s);
                assert(all == raw_part(raw) + mouse + later);
                assert forall|i: int| 0 <= i < all.len() implies ((
                #[trigger] all[i]) matches Part::Mouse(e) ==> !(e is PassThrough)) by {
                    let k = raw_part(raw).len();
                    if i < k {
                        assert(all[i] == raw_part(raw)[i]);
                    } else if i > k {
                        assert(all[i] == later[i - k - 1]);
                    }
                }
            },
            None => {
                lemma_parts_stream(raw.push(s[0]), s.skip(1));
                assert(byte_items(raw.push(s[0])) + items_of(s.skip(1)) =~= byte_items(raw) + (
                seq![Item::Byte(s[0])] + items_of(s.skip(1))));
            },
        }
    }
}

proof fn lemma_report_length(s: Seq<u8>)
    ensures
        mouse_report(s) matches Some((_, n)) ==> 4 <= n <= s.len(),
{
    if starts_mouse_report(s) {
        text::lemma_first_index(s.skip(3), |b: u8| ends_mouse_report(b));
    }
}

/// More input behind a report that is there in full makes no difference to it.
proof fn lemma_report_behind(s: Seq<u8>, more: Seq<u8>)
    requires
        starts_mouse_report(s),
        !is_incomplete_report(s),
    ensures
        mouse_report(s + more) == mouse_report(s),
        !is_incomplete_report(s + more),
{
    let f = |b: u8| ends_mouse_report(b);
    let t = s + more;
    let end = mouse_report_end(s)->0;
    text::lemma_first_index(s.skip(3), f);
    assert forall|k: int| 0 <= k < end implies !f(#[trigger] t.skip(3)[k]) by {
        assert(t.skip(3)[k] == s.skip(3)[k]);
    }
    assert(t.skip(3)[end] == s.skip(3)[end]);
    text::lemma_first_index_at(t.skip(3), f, end);
    assert(t.subrange(3, 3 + end) =~= s.subrange(3, 3 + end));
}

/// Input that comes in two pieces is read as if it came at once.
proof fn lemma_items_pieces(s: Seq<u8>, more: Seq<u8>)
    requires
        is_incomplete_report(s) || !cuts_introducer(s),
    ensures
        items_of(s + more) == items_of(s) + items_of(held_back(s) + more),
        held_back(s + more) == held_back(held_back(s) + more),
    decreases s.len(),
{
    let all = s + more;
    if s.len() == 0 {
        assert(all =~= more);
        assert(held_back(s) + more =~= more);
        assert(Seq::<Item>::empty() + items_of(more) =~= items_of(more));
    } else if is_incomplete_report(s) {
        assert(Seq::<Item>::empty() + items_of(all) =~= items_of(all));
    } else {
        if starts_mouse_report(s) {
            lemma_report_behind(s, more);
        } else {
            assert(!starts_mouse_report(all)) by {
                assert(all[0] == s[0]);
                if s.len() >= 2 {
                    assert(all[1] == s[1]);
                }
                if s.len() >= 3 {
                    assert(all[2] == s[2]);
                }
            }
        }
        lemma_report_length(s);
        let n: int = match mouse_report(s) {
            Some((_, n)) => n,
            None => 1,
        };
        let rest = s.skip(n);
        assert(all.skip(n) =~= rest + more);
        assert(all[0] == s[0]);
        assert(!cuts_introducer(rest)) by {
            if rest.len() >= 1 {
                assert(rest.last() == s.last());
            }
            if rest.len() >= 2 {
                assert(rest[rest.len() - 2] == s[s.len() - 2]);
            }
        }
        lemma_items_pieces(rest, more);
        assert(items_of(all) =~= items_of(s) + items_of(held_back(s) + more));
    }
}

proof fn lemma_held(s: Seq<u8>)
    ensures
        is_held(held_back(s)),
    decreases s.len(),
{
    if s.len() > 0 && !is_incomplete_report(s) {
        lemma_report_length(s);
        match mouse_report(s) {
            Some((_, n)) => {
                lemma_held(s.skip(n));
            },
            None => {
                lemma_held(s.skip(1));
            },
        }
    }
}

/// Bytes behind what is held back cut no introducer, where they do not by themselves.
proof fn lemma_held_cut(held: Seq<u8>, a: Seq<u8>)
    requires
        is_held(held),
        !cuts_introducer(a),
    ensures
        is_incomplete_report(held + a) || !cuts_introducer(held + a),
{
    let s = held + a;
    if held.len() == 0 {
        assert(s =~= a);
    } else {
        let f = |b: u8| ends_mouse_report(b);
        text::lemma_first_index(held.skip(3), f);
        if forall|i: int| 0 <= i < a.len() ==> !ends_mouse_report(#[trigger] a[i]) {
            assert forall|k: int| 0 <= k < s.skip(3).len() implies !f(#[trigger] s.skip(3)[k]) by {
                if k < held.len() - 3 {
                    assert(s.skip(3)[k] == held.skip(3)[k]);
                    assert(!f(held.skip(3)[k]));
                } else {
                    assert(s.skip(3)[k] == a[k + 3 - held.len()]);
                }
            }
            text::lemma_first_index_none(s.skip(3), f);
        } else {
            let i = choose|i: int| 0 <= i < a.len() && ends_mouse_report(#[trigger] a[i]);
            assert(s.last() == a.last());
            if a.len() >= 2 {
                assert(s[s.len() - 2] == a[a.len() - 2]);
            }
        }
    }
}

/// How input is cut into reads does not matter, also inside a mouse report or behind the prefix
/// key: the events of two reads are those of one, with neighbouring runs of forwarded input
/// joined, and the same waits afterwards. The first read may not end within the introducer of a
/// report.
pub proof fn law_cuts_make_no_difference(
    prefix: u8,
    armed: bool,
    held: Seq<u8>,
    a: Seq<u8>,
    b: Seq<u8>,
)
    requires
        is_held(held),
        !cuts_introducer(a),
    ensures
        ({
            let first = input_parts(Seq::empty(), held + a);
            let between = armed_after_parts(prefix, armed, first);
            let second = input_parts(Seq::empty(), held_back(held + a) + b);
            let once = input_parts(Seq::empty(), held + (a + b));
            &&& merged(
                part_events(prefix, armed, first) + part_events(prefix, between, second),
            ) == merged(part_events(prefix, armed, once))
            &&& armed_after_parts(prefix, between, second) == armed_after_parts(
                prefix,
                armed,
                once,
            )
            &&& held_back(held_back(held + a) + b) == held_back(held + (a + b))
        }),
{
    let s = held + a;
    let h = held_back(s);
    assert(held + (a + b) =~= s + b);
    let first = input_parts(Seq::empty(), s);
    let between = armed_after_parts(prefix, armed, first);
    let second = input_parts(Seq::empty(), h + b);
    let once = input_parts(Seq::empty(), s + b);
    lemma_held_cut(held, a);
    lemma_items_pieces(s, b);
    lemma_parts_stream(Seq::empty(), s);
    lemma_parts_stream(Seq::empty(), h + b);
    lemma_parts_stream(Seq::empty(), s + b);
    assert(byte_items(Seq::empty()) + items_of(s) =~= items_of(s));
    assert(byte_items(Seq::empty()) + items_of(h + b) =~= items_of(h + b));
    assert(byte_items(Seq::empty()) + items_of(s + b) =~= items_of(s + b));
    lemma_parts_flat(prefix, armed, first);
    lemma_parts_flat(prefix, between, second);
    lemma_parts_flat(prefix, armed, once);
    lemma_item_pieces(prefix, armed, items_of(s), items_of(h + b));
    let x = part_events(prefix, armed, first);
    let y = part_events(prefix, between, second);
    lemma_flat_pieces(x, y);
    lemma_no_empty_runs(x, y);
    lemma_merged_is_joined(x + y);
    lemma_merged_is_joined(part_events(prefix, armed, once));
}

} // verus!
