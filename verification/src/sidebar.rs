//! The list of sessions at the right side of the terminal.
use crate::ansi;
use crate::ansi::{clear_to_eol, cursor_goto, set_attribute, Attribute};
use crate::session::{MetadataView, SessionMetadata, SessionStatus};
use crate::text;
use crate::text::{chars_equal, push_decimal, to_chars};
use vstd::prelude::*;
use vstd::string::*;
use vstd::utf8::*;

verus! {

/// The number of bytes that a text takes.
pub open spec fn byte_size(s: Seq<char>) -> int {
    encode_utf8(s).len() as int
}

/// Whether a text can be cut behind a number of bytes: no character is torn apart.
pub open spec fn can_cut(s: Seq<char>, n: int) -> bool {
    is_char_boundary(encode_utf8(s), n)
}

/// The first `n` bytes of a text.
pub open spec fn cut(s: Seq<char>, n: int) -> Seq<char> {
    decode_utf8(encode_utf8(s).subrange(0, n))
}

/// A number of spaces; none where it is negative.
pub open spec fn spaces(n: int) -> Seq<char> {
    Seq::new(
        (if n < 0 {
            0
        } else {
            n
        }) as nat,
        |i: int| ' ',
    )
}

/// A text followed by spaces, at least `width` characters in all.
pub open spec fn filled(s: Seq<char>, width: int) -> Seq<char> {
    s + spaces(width - s.len())
}

/// Where a text that is too long is cut.
pub open spec fn truncation_point(max_len: int) -> int {
    if max_len > 3 {
        max_len - 3
    } else {
        max_len
    }
}

/// Whether a text can be cut to a length.
pub open spec fn can_truncate(s: Seq<char>, max_len: int) -> bool {
    byte_size(s) > max_len ==> can_cut(s, truncation_point(max_len))
}

/// A text cut to at most `max_len` bytes. Where there is room for them, dots stand for what was
/// cut off.
pub open spec fn truncated(s: Seq<char>, max_len: int) -> Seq<char> {
    if byte_size(s) <= max_len {
        s
    } else if max_len > 3 {
        cut(s, max_len - 3) + "..."@
    } else {
        cut(s, max_len)
    }
}

/// Whether a text can be cut to a width.
pub open spec fn can_pad(s: Seq<char>, width: int) -> bool {
    byte_size(s) >= width ==> can_cut(s, width)
}

/// A text cut to, or filled up to, a width.
pub open spec fn padded(s: Seq<char>, width: int) -> Seq<char> {
    if byte_size(s) >= width {
        cut(s, width)
    } else {
        filled(s, width)
    }
}

/// What is left of a width beside `| ` and one column of padding.
pub open spec fn usable_width(width: int) -> int {
    if width < 3 {
        0
    } else {
        width - 3
    }
}

/// The width that is left for a name behind an index, a mark and a space.
pub open spec fn name_width(usable: int) -> int {
    if usable < 3 {
        0
    } else {
        usable - 3
    }
}

/// The mark of a session's status: `*` while it runs, `.` when it has ended well, `!` when not.
pub open spec fn status_mark(status: SessionStatus) -> char {
    match status {
        SessionStatus::Running => '*',
        SessionStatus::Exited(code) => if code == 0 {
            '.'
        } else {
            '!'
        },
    }
}

/// The name that a session is listed under: its own name, else its identifier.
pub open spec fn display_name(session: MetadataView) -> Seq<char> {
    match session.name {
        Some(name) => name,
        None => session.id,
    }
}

/// What stands in front of the name of the session at an index.
pub open spec fn label_start(i: nat, status: SessionStatus) -> Seq<char> {
    text::decimal(i) + seq![status_mark(status), ' ']
}

/// The entry of the session at an index.
pub open spec fn session_label(i: nat, session: MetadataView, usable: int) -> Seq<char> {
    label_start(i, session.status) + truncated(display_name(session), name_width(usable))
}

/// The views of a list of sessions.
pub open spec fn metadata_views(v: Seq<SessionMetadata>) -> Seq<MetadataView> {
    v.map_values(|m: SessionMetadata| m@)
}

/// The views of a list of texts.
pub open spec fn text_views(v: Seq<String>) -> Seq<Seq<char>> {
    v.map_values(|s: String| s@)
}

/// The view of an optional text.
pub open spec fn optional_text(s: Option<&str>) -> Option<Seq<char>> {
    match s {
        Some(t) => Some(t@),
        None => None,
    }
}

/// The first bytes of a text, which must not tear a character apart.
pub fn cut_text<'a>(s: &'a str, n: usize) -> (t: &'a str)
    requires
        can_cut(s@, n as int),
    ensures
        t@ == cut(s@, n as int),
{
    let (head, _) = s.split_at(n);
    proof {
        encode_utf8_decode_utf8(head@);
    }
    head
}

/// A text followed by spaces, at least `width` characters in all.
pub fn fill_text(s: &str, width: usize) -> (t: String)
    ensures
        t@ == filled(s@, width as int),
{
    let mut t = s.to_string();
    let mut n: usize = to_chars(s).len();
    let ghost size = n;
    assert(t@ =~= s@ + spaces(n - size));
    while n < width
        invariant
            size == s@.len(),
            size <= n,
            n <= width || n == size,
            t@ == s@ + spaces(n - size),
        decreases width - n,
    {
        t.push(' ');
        n += 1;
        assert(t@ =~= s@ + spaces(n - size));
    }
    assert(spaces(n - size) =~= spaces(width - size));
    t
}

/// A text cut to at most `max_len` bytes. Where there is room for them, dots stand for what was
/// cut off.
pub fn truncate(s: &str, max_len: usize) -> (t: String)
    requires
        can_truncate(s@, max_len as int),
    ensures
        t@ == truncated(s@, max_len as int),
{
    if s.as_bytes().len() <= max_len {
        s.to_string()
    } else if max_len > 3 {
        let mut t = cut_text(s, max_len - 3).to_string();
        t.append("...");
        t
    } else {
        cut_text(s, max_len).to_string()
    }
}

/// A text cut to, or filled up to, a width.
pub fn pad(s: &str, width: usize) -> (t: String)
    requires
        can_pad(s@, width as int),
    ensures
        t@ == padded(s@, width as int),
{
    if s.as_bytes().len() >= width {
        cut_text(s, width).to_string()
    } else {
        fill_text(s, width)
    }
}

/// Whether a text can be cut to a length.
pub fn truncates(s: &str, max_len: usize) -> (b: bool)
    ensures
        b == can_truncate(s@, max_len as int),
{
    s.as_bytes().len() <= max_len || s.is_char_boundary(
        if max_len > 3 {
            max_len - 3
        } else {
            max_len
        },
    )
}

/// Whether a text can be cut to a width.
pub fn pads(s: &str, width: usize) -> (b: bool)
    ensures
        b == can_pad(s@, width as int),
{
    s.as_bytes().len() < width || s.is_char_boundary(width)
}

/// The name that a session is listed under.
pub fn shown_name(session: &SessionMetadata) -> (name: &str)
    ensures
        name@ == display_name(session@),
{
    match &session.name {
        Some(name) => name.as_str(),
        None => session.id.as_str(),
    }
}

/// Whether the name of a session can be cut to what is left of a width.
pub fn name_can_be_cut(session: &SessionMetadata, usable: usize) -> (b: bool)
    ensures
        b == can_truncate(display_name(session@), name_width(usable as int)),
{
    truncates(shown_name(session), usable.saturating_sub(3))
}

/// What stands in front of the name of the session at an index.
pub fn start_label(i: usize, session: &SessionMetadata) -> (t: String)
    ensures
        t@ == label_start(i as nat, session@.status),
{
    let mut t = String::new();
    push_decimal(&mut t, i as u64);
    let mark = match session.status {
        SessionStatus::Running => '*',
        SessionStatus::Exited(code) => if code == 0 {
            '.'
        } else {
            '!'
        },
    };
    t.push(mark);
    t.push(' ');
    assert(t@ =~= label_start(i as nat, session@.status));
    t
}

/// The entry of the session at an index.
pub fn label(i: usize, session: &SessionMetadata, usable: usize) -> (t: String)
    requires
        can_truncate(display_name(session@), name_width(usable as int)),
    ensures
        t@ == session_label(i as nat, session@, usable as int),
{
    let mut t = start_label(i, session);
    let shown = truncate(shown_name(session), usable.saturating_sub(3));
    t.append(shown.as_str());
    t
}

/// Whether a session is the active one.
pub fn is_active(session: &SessionMetadata, active_id: Option<&str>) -> (b: bool)
    ensures
        b == (optional_text(active_id) == Some(session@.id)),
{
    match active_id {
        Some(id) => {
            let chars = to_chars(session.id.as_str());
            chars_equal(&chars, id)
        },
        None => false,
    }
}

/// A line of the sidebar, ready to be written.
#[derive(Debug, PartialEq, Eq)]
pub struct SidebarLine {
    /// The line of the terminal, counted from one.
    pub row: u16,
    /// What is written there.
    pub content: String,
}

/// A line of the sidebar, as a mathematical value.
pub struct LineView {
    pub row: int,
    pub content: Seq<char>,
}

impl View for SidebarLine {
    type V = LineView;

    open spec fn view(&self) -> LineView {
        LineView { row: self.row as int, content: self.content@ }
    }
}

/// The views of a list of lines.
pub open spec fn line_views(v: Seq<SidebarLine>) -> Seq<LineView> {
    v.map_values(|l: SidebarLine| l@)
}

/// A line that shows a text at a place: black on white where it is highlighted, else white on
/// black.
pub open spec fn sidebar_line(row: int, col: int, shown: Seq<char>, highlighted: bool) -> LineView {
    LineView {
        row,
        content: ansi::goto_text(row as nat, col as nat) + ansi::attribute_text(
            if highlighted {
                Attribute::Colors { fg: 30, bg: 47 }
            } else {
                Attribute::Colors { fg: 37, bg: 40 }
            },
        ) + "| "@ + shown + "\x1b[K"@ + ansi::attribute_text(Attribute::Reset),
    }
}

/// What the sidebar shows and where.
pub struct SidebarState {
    pub width: int,
    pub sessions: Seq<MetadataView>,
    pub active: Option<Seq<char>>,
    pub screen_cols: int,
    pub screen_rows: int,
    pub reminders: Seq<Seq<char>>,
}

impl SidebarState {
    /// The column that the sidebar begins in.
    pub open spec fn col(self) -> int {
        if self.screen_cols < self.width {
            1
        } else {
            self.screen_cols - self.width + 1
        }
    }

    /// The number of columns for text.
    pub open spec fn usable(self) -> int {
        usable_width(self.width)
    }

    /// The number of sessions for which there is a line.
    pub open spec fn sessions_shown(self) -> int {
        if self.screen_rows - 3 < 0 {
            0
        } else if self.sessions.len() < self.screen_rows - 3 {
            self.sessions.len() as int
        } else {
            self.screen_rows - 3
        }
    }

    /// The line behind the sessions. One is left free where there is room for it.
    pub open spec fn reminders_row(self) -> int {
        let row = 3 + self.sessions_shown();
        if row < self.screen_rows - (self.reminders.len() % 0x1_0000 + 2) {
            row + 1
        } else {
            row
        }
    }

    /// The number of reminders for which there is a line.
    pub open spec fn reminders_shown(self) -> int {
        let room = self.screen_rows - self.reminders_row() - 1;
        if self.reminders.len() == 0 || room < 0 {
            0
        } else if self.reminders.len() < room {
            self.reminders.len() as int
        } else {
            room
        }
    }

    /// The first line that stays empty.
    pub open spec fn filler_row(self) -> int {
        if self.reminders.len() > 0 && self.reminders_row() < self.screen_rows {
            self.reminders_row() + 1 + self.reminders_shown()
        } else {
            self.reminders_row()
        }
    }

    /// A line that shows a text.
    pub open spec fn line(self, row: int, shown: Seq<char>) -> LineView {
        sidebar_line(row, self.col(), padded(shown, self.usable()), false)
    }

    /// The line of a session.
    pub open spec fn session_line(self, i: int) -> LineView {
        sidebar_line(
            3 + i,
            self.col(),
            padded(session_label(i as nat, self.sessions[i], self.usable()), self.usable()),
            self.active == Some(self.sessions[i].id),
        )
    }

    /// The line of a reminder.
    pub open spec fn reminder_line(self, i: int) -> LineView {
        self.line(self.reminders_row() + 1 + i, truncated(self.reminders[i], self.usable()))
    }

    /// The header and the line under it.
    pub open spec fn head(self) -> Seq<LineView> {
        seq![
            self.line(1, "TERMINALS"@),
            self.line(2, Seq::new(self.usable() as nat, |i: int| '-')),
        ]
    }

    /// The lines of the first `n` sessions.
    pub open spec fn session_lines(self, n: int) -> Seq<LineView> {
        Seq::new(n as nat, |i: int| self.session_line(i))
    }

    /// The header of the reminders and the first `n` of them.
    pub open spec fn reminder_lines(self, n: int) -> Seq<LineView> {
        seq![self.line(self.reminders_row(), "REMINDERS"@)] + Seq::new(
            n as nat,
            |i: int| self.reminder_line(i),
        )
    }

    /// Empty lines from one line up to another.
    pub open spec fn empty_lines(self, from: int, to: int) -> Seq<LineView> {
        Seq::new(
            (if to < from {
                0
            } else {
                to - from
            }) as nat,
            |i: int| self.line(from + i, ""@),
        )
    }

    /// All the lines of the sidebar: the header, the sessions, the reminders, and empty lines down
    /// to the last line but one of the screen.
    pub open spec fn lines(self) -> Seq<LineView> {
        self.head() + self.session_lines(self.sessions_shown()) + (if self.reminders.len() > 0
            && self.reminders_row() < self.screen_rows {
            self.reminder_lines(self.reminders_shown())
        } else {
            Seq::empty()
        }) + self.empty_lines(self.filler_row(), self.screen_rows)
    }

    /// Whether the sidebar can be drawn: no character is torn apart where a text is cut, and the
    /// places are on a terminal.
    pub open spec fn drawable(self) -> bool {
        &&& self.col() <= u16::MAX
        &&& self.reminders.len() % 0x1_0000 + 2 <= u16::MAX
        &&& forall|i: int|
            0 <= i < self.sessions_shown() ==> #[trigger] self.session_can_be_drawn(i)
        &&& forall|i: int|
            0 <= i < self.reminders_shown() ==> #[trigger] self.reminder_can_be_drawn(i)
    }

    /// No character is torn apart in the line of a session.
    pub open spec fn session_can_be_drawn(self, i: int) -> bool {
        &&& can_truncate(display_name(self.sessions[i]), name_width(self.usable()))
        &&& can_pad(session_label(i as nat, self.sessions[i], self.usable()), self.usable())
    }

    /// No character is torn apart in the line of a reminder.
    pub open spec fn reminder_can_be_drawn(self, i: int) -> bool {
        &&& can_truncate(self.reminders[i], self.usable())
        &&& can_pad(truncated(self.reminders[i], self.usable()), self.usable())
    }
}

/// Draws the list of sessions and what is going on beside the terminal.
pub struct SidebarRenderer {
    pub width: u16,
}

impl SidebarRenderer {
    /// What is to be drawn.
    pub open spec fn state(
        &self,
        sessions: Seq<SessionMetadata>,
        active_id: Option<&str>,
        screen_cols: u16,
        screen_rows: u16,
        reminders: Seq<String>,
    ) -> SidebarState {
        SidebarState {
            width: self.width as int,
            sessions: metadata_views(sessions),
            active: optional_text(active_id),
            screen_cols: screen_cols as int,
            screen_rows: screen_rows as int,
            reminders: text_views(reminders),
        }
    }
}

/// Text of the seven-bit alphabet can be cut anywhere, and each byte is a character.
pub proof fn lemma_ascii_cut(s: Seq<char>, n: int)
    requires
        is_ascii_chars(s),
        0 <= n <= s.len(),
    ensures
        byte_size(s) == s.len(),
        can_cut(s, n),
        cut(s, n) == s.take(n),
{
    broadcast use is_ascii_chars_encode_utf8;

    let bytes = encode_utf8(s);
    encode_utf8_valid_utf8(s);
    if n < s.len() {
        assert(bytes[n] == s[n] as u8);
        assert(s[n] as u8 <= 127);
        is_char_boundary_iff_not_is_continuation_byte(bytes, n);
    } else {
        is_char_boundary_start_end_of_seq(bytes);
    }
    let head = s.take(n);
    assert(is_ascii_chars(head));
    assert(encode_utf8(head) =~= bytes.subrange(0, n));
    encode_utf8_decode_utf8(head);
}

impl SidebarRenderer {
    /// A sidebar of a width.
    pub fn new(width: u16) -> (r: Self)
        ensures
            r.width == width,
    {
        SidebarRenderer { width }
    }

    fn make_line(&self, row: u16, col: u16, content: &str, highlighted: bool) -> (line: SidebarLine)
        ensures
            line@ == sidebar_line(row as int, col as int, content@, highlighted),
    {
        let attr = if highlighted {
            set_attribute(Attribute::Colors { fg: 30, bg: 47 })
        } else {
            set_attribute(Attribute::Colors { fg: 37, bg: 40 })
        };
        let reset = set_attribute(Attribute::Reset);
        let mut text = cursor_goto(row, col);
        text.append(attr.as_str());
        text.append("| ");
        text.append(content);
        text.append(clear_to_eol());
        text.append(reset.as_str());
        SidebarLine { row, content: text }
    }

    /// Whether the sidebar can be drawn on a terminal of a size.
    pub fn can_render(
        &self,
        sessions: &[SessionMetadata],
        active_id: Option<&str>,
        screen_cols: u16,
        screen_rows: u16,
        reminders: &[String],
    ) -> (b: bool)
        ensures
            b == self.state(sessions@, active_id, screen_cols, screen_rows, reminders@).drawable(),
    {
        let ghost s = self.state(sessions@, active_id, screen_cols, screen_rows, reminders@);
        if (screen_cols == u16::MAX && self.width == 0) || low_half(reminders.len()) > u16::MAX - 2 {
            return false;
        }
        let usable: usize = (self.width as usize).saturating_sub(3);
        let mut i: usize = 0;
        while i < sessions.len() && i < (screen_rows as usize).saturating_sub(3)
            invariant
                s == self.state(sessions@, active_id, screen_cols, screen_rows, reminders@),
                usable == s.usable(),
                i <= s.sessions_shown() <= sessions.len(),
                forall|k: int| 0 <= k < i ==> #[trigger] s.session_can_be_drawn(k),
            decreases sessions.len() - i,
        {
            assert(s.sessions[i as int] == sessions@[i as int]@);
            if !name_can_be_cut(&sessions[i], usable) {
                assert(!s.session_can_be_drawn(i as int));
                return false;
            }
            let entry = label(i, &sessions[i], usable);
            if !pads(entry.as_str(), usable) {
                assert(!s.session_can_be_drawn(i as int));
                return false;
            }
            i += 1;
        }
        assert(i == s.sessions_shown());
        let row: usize = 3 + i;
        let section: usize = low_half(reminders.len()) as usize + 2;
        let first: usize = if row + section < screen_rows as usize {
            row + 1
        } else {
            row
        };
        assert(first == s.reminders_row());
        let mut j: usize = 0;
        while j < reminders.len() && first + 1 + j < screen_rows as usize
            invariant
                s == self.state(sessions@, active_id, screen_cols, screen_rows, reminders@),
                usable == s.usable(),
                first == s.reminders_row(),
                first <= 0x1_0004,
                j <= 0x1_0000,
                j <= s.reminders_shown() <= reminders.len(),
                forall|k: int| 0 <= k < j ==> #[trigger] s.reminder_can_be_drawn(k),
            decreases reminders.len() - j,
        {
            assert(s.reminders[j as int] == reminders@[j as int]@);
            if !truncates(reminders[j].as_str(), usable) {
                assert(!s.reminder_can_be_drawn(j as int));
                return false;
            }
            let shown = truncate(reminders[j].as_str(), usable);
            if !pads(shown.as_str(), usable) {
                assert(!s.reminder_can_be_drawn(j as int));
                return false;
            }
            j += 1;
        }
        assert(j == s.reminders_shown());
        true
    }

    /// The lines of the sidebar on a terminal of a size.
    pub fn render(
        &self,
        sessions: &[SessionMetadata],
        active_id: Option<&str>,
        screen_cols: u16,
        screen_rows: u16,
        reminders: &[String],
    ) -> (lines: Vec<SidebarLine>)
        requires
            self.state(sessions@, active_id, screen_cols, screen_rows, reminders@).drawable(),
        ensures
            line_views(lines@) == self.state(
                sessions@,
                active_id,
                screen_cols,
                screen_rows,
                reminders@,
            ).lines(),
    {
        let ghost s = self.state(sessions@, active_id, screen_cols, screen_rows, reminders@);
        let mut lines: Vec<SidebarLine> = Vec::new();
        let sidebar_col = screen_cols.saturating_sub(self.width) + 1;
        let usable: usize = (self.width as usize).saturating_sub(3);
        let ghost w = usable as int;
        proof {
            reveal_strlit("TERMINALS");
            reveal_strlit("REMINDERS");
            reveal_strlit("");
            lemma_ascii_pad("TERMINALS"@, w);
            lemma_ascii_pad("REMINDERS"@, w);
            lemma_ascii_pad(""@, w);
        }
        lines.push(self.make_line(1, sidebar_col, pad("TERMINALS", usable).as_str(), false));
        let mut dashes = String::new();
        let mut k: usize = 0;
        while k < usable
            invariant
                k <= usable,
                dashes@ == Seq::new(k as nat, |i: int| '-'),
            decreases usable - k,
        {
            dashes.push('-');
            k += 1;
            assert(dashes@ =~= Seq::new(k as nat, |i: int| '-'));
        }
        proof {
            lemma_ascii_pad(dashes@, w);
        }
        lines.push(self.make_line(2, sidebar_col, pad(dashes.as_str(), usable).as_str(), false));
        assert(line_views(lines@) =~= s.head() + s.session_lines(0));

        let mut row: u16 = 3;
        let mut i: usize = 0;
        while i < sessions.len() && row < screen_rows
            invariant
                s == self.state(sessions@, active_id, screen_cols, screen_rows, reminders@),
                s.drawable(),
                sidebar_col == s.col(),
                usable == s.usable(),
                i <= s.sessions_shown() <= sessions.len(),
                row == 3 + i,
                line_views(lines@) == s.head() + s.session_lines(i as int),
            decreases sessions.len() - i,
        {
            assert(s.sessions[i as int] == sessions@[i as int]@);
            assert(s.session_can_be_drawn(i as int));
            let active = is_active(&sessions[i], active_id);
            let entry = label(i, &sessions[i], usable);
            let line = self.make_line(row, sidebar_col, pad(entry.as_str(), usable).as_str(), active);
            let ghost before = line_views(lines@);
            lines.push(line);
            assert(line_views(lines@) =~= before.push(s.session_line(i as int)));
            assert(line_views(lines@) =~= s.head() + s.session_lines(i + 1));
            row += 1;
            i += 1;
        }
        let ghost shown = s.head() + s.session_lines(s.sessions_shown());
        let reminder_count = low_half(reminders.len());
        if row < screen_rows.saturating_sub(reminder_count + 2) {
            row += 1;
        }
        assert(row == s.reminders_row());
        let ghost mut all = shown;
        if reminders.len() > 0 && row < screen_rows {
            let line = self.make_line(row, sidebar_col, pad("REMINDERS", usable).as_str(), false);
            lines.push(line);
            assert(line_views(lines@) =~= shown + s.reminder_lines(0));
            row += 1;
            let mut j: usize = 0;
            while j < reminders.len() && row < screen_rows
                invariant
                    s == self.state(sessions@, active_id, screen_cols, screen_rows, reminders@),
                    s.drawable(),
                    sidebar_col == s.col(),
                    usable == s.usable(),
                    s.reminders_row() < screen_rows,
                    j <= s.reminders_shown() <= reminders.len(),
                    row == s.reminders_row() + 1 + j,
                    line_views(lines@) == shown + s.reminder_lines(j as int),
                decreases reminders.len() - j,
            {
                assert(s.reminders[j as int] == reminders@[j as int]@);
                assert(s.reminder_can_be_drawn(j as int));
                let text = truncate(reminders[j].as_str(), usable);
                let line = self.make_line(
                    row,
                    sidebar_col,
                    pad(text.as_str(), usable).as_str(),
                    false,
                );
                let ghost before = line_views(lines@);
                lines.push(line);
                assert(line_views(lines@) =~= before.push(s.reminder_line(j as int)));
                assert(line_views(lines@) =~= shown + s.reminder_lines(j + 1));
                row += 1;
                j += 1;
            }
            proof {
                all = shown + s.reminder_lines(s.reminders_shown());
            }
        }
        assert(row == s.filler_row());
        assert(line_views(lines@) =~= all);
        assert(line_views(lines@) =~= all + s.empty_lines(s.filler_row(), s.filler_row()));
        while row < screen_rows
            invariant
                s == self.state(sessions@, active_id, screen_cols, screen_rows, reminders@),
                sidebar_col == s.col(),
                usable == s.usable(),
                can_pad(""@, usable as int),
                row >= s.filler_row(),
                row <= screen_rows || row == s.filler_row(),
                line_views(lines@) == all + s.empty_lines(s.filler_row(), row as int),
            decreases screen_rows - row,
        {
            let line = self.make_line(row, sidebar_col, pad("", usable).as_str(), false);
            let ghost before = line_views(lines@);
            lines.push(line);
            assert(line_views(lines@) =~= before.push(s.line(row as int, ""@)));
            row += 1;
            assert(line_views(lines@) =~= all + s.empty_lines(s.filler_row(), row as int));
        }
        assert(s.empty_lines(s.filler_row(), row as int) =~= s.empty_lines(
            s.filler_row(),
            screen_rows as int,
        ));
        assert(s.lines() =~= all + s.empty_lines(s.filler_row(), screen_rows as int));
        lines
    }
}

/// The lower half of a number of items, in sixteen bits.
pub fn low_half(n: usize) -> (m: u16)
    ensures
        m == n % 0x1_0000,
{
    (n % 0x1_0000) as u16
}

proof fn lemma_ascii_pad(s: Seq<char>, width: int)
    requires
        is_ascii_chars(s),
        0 <= width,
    ensures
        can_pad(s, width),
{
    lemma_ascii_cut(s, 0);
    if width <= s.len() {
        lemma_ascii_cut(s, width);
    }
}

proof fn lemma_decimal_is_ascii(n: nat)
    ensures
        is_ascii_chars(text::decimal(n)),
    decreases n,
{
    if n >= 10 {
        lemma_decimal_is_ascii(n / 10);
    }
}

proof fn lemma_ascii_truncate(s: Seq<char>, max_len: int)
    requires
        is_ascii_chars(s),
        0 <= max_len,
    ensures
        can_truncate(s, max_len),
        is_ascii_chars(truncated(s, max_len)),
{
    lemma_ascii_cut(s, 0);
    reveal_strlit("...");
    if s.len() > max_len {
        lemma_ascii_cut(s, truncation_point(max_len));
    }
}

/// Names and reminders of the seven-bit alphabet can always be drawn.
pub proof fn law_ascii_can_be_drawn(s: SidebarState)
    requires
        0 <= s.width,
        s.col() <= u16::MAX,
        s.reminders.len() % 0x1_0000 + 2 <= u16::MAX,
        forall|i: int|
            0 <= i < s.sessions.len() ==> is_ascii_chars(display_name(#[trigger] s.sessions[i])),
        forall|i: int| 0 <= i < s.reminders.len() ==> is_ascii_chars(#[trigger] s.reminders[i]),
    ensures
        s.drawable(),
{
    let w = s.usable();
    assert forall|i: int| 0 <= i < s.sessions_shown() implies #[trigger] s.session_can_be_drawn(
        i,
    ) by {
        lemma_ascii_truncate(display_name(s.sessions[i]), name_width(w));
        lemma_decimal_is_ascii(i as nat);
        lemma_ascii_pad(session_label(i as nat, s.sessions[i], w), w);
    }
    assert forall|i: int| 0 <= i < s.reminders_shown() implies #[trigger] s.reminder_can_be_drawn(
        i,
    ) by {
        lemma_ascii_truncate(s.reminders[i], w);
        lemma_ascii_pad(truncated(s.reminders[i], w), w);
    }
}

/// The lines go down the screen: no two are drawn in one place. Below the header they stay above
/// the last line of the screen.
pub proof fn law_lines_go_down(s: SidebarState, i: int, j: int)
    requires
        0 <= i < j < s.lines().len(),
    ensures
        1 <= s.lines()[i].row < s.lines()[j].row,
        s.lines()[j].row > 2 ==> s.lines()[j].row < s.screen_rows,
{
}

/// Each session has a line, in order, below the header and at the right edge of the screen: its
/// index, a mark for its status and its name, or its identifier where it has none, filled with
/// spaces. The active session is drawn black on white and all others white on black.
pub proof fn law_sessions_have_lines(s: SidebarState, i: int)
    requires
        6 < s.width <= s.screen_cols,
        0 <= i < s.sessions.len(),
        i < s.screen_rows - 3,
    ensures
        ({
            let x = s.sessions[i];
            let mark = match x.status {
                SessionStatus::Running => '*',
                SessionStatus::Exited(code) => if code == 0 {
                    '.'
                } else {
                    '!'
                },
            };
            let name = match x.name {
                Some(n) => n,
                None => x.id,
            };
            let whole = text::decimal(i as nat) + seq![mark, ' '] + name;
            let place = ansi::goto_text((3 + i) as nat, (s.screen_cols - s.width + 1) as nat);
            let colors = ansi::attribute_text(
                if s.active == Some(x.id) {
                    Attribute::Colors { fg: 30, bg: 47 }
                } else {
                    Attribute::Colors { fg: 37, bg: 40 }
                },
            );
            &&& s.lines()[2 + i].row == 3 + i
            &&& byte_size(name) <= s.width - 6 && byte_size(whole) < s.width - 3
                ==> s.lines()[2 + i].content == place + colors + "| "@ + (whole + Seq::new(
                (if s.width - 3 < whole.len() {
                    0
                } else {
                    s.width - 3 - whole.len()
                }) as nat,
                |k: int| ' ',
            )) + "\x1b[K"@ + ansi::attribute_text(Attribute::Reset)
        }),
{
    let line = s.session_line(i);
    assert(s.lines()[2 + i] == line);
    let x = s.sessions[i];
    let name = display_name(x);
    let whole = text::decimal(i as nat) + seq![status_mark(x.status), ' '] + name;
    if byte_size(name) <= s.width - 6 && byte_size(whole) < s.width - 3 {
        let label = session_label(i as nat, x, s.usable());
        assert(label =~= whole);
        assert(padded(label, s.usable()) =~= whole + Seq::new(
            (if s.width - 3 < whole.len() {
                0
            } else {
                s.width - 3 - whole.len()
            }) as nat,
            |k: int| ' ',
        ));
    }
}

/// A name of plain letters that is too long keeps its start and ends in dots where there is room for
/// them; one that is not too long is kept.
pub proof fn law_long_names_are_cut(s: Seq<char>, n: int)
    requires
        0 <= n,
        forall|i: int| 0 <= i < s.len() ==> '\0' <= #[trigger] s[i] <= '\u{7f}',
    ensures
        s.len() <= n ==> truncated(s, n) == s,
        s.len() > n && n > 3 ==> truncated(s, n) == s.take(n - 3) + seq!['.', '.', '.'],
        s.len() > n && n <= 3 ==> truncated(s, n) == s.take(n),
        s.len() >= n ==> padded(s, n) == s.take(n),
        s.len() < n ==> padded(s, n) == s + Seq::new((n - s.len()) as nat, |k: int| ' '),
{
    reveal_strlit("...");
    assert("..."@ =~= seq!['.', '.', '.']);
    is_ascii_chars_encode_utf8(s);
    if s.len() > n {
        lemma_ascii_cut(s, n);
        if n > 3 {
            lemma_ascii_cut(s, n - 3);
        }
    } else if s.len() == n {
        lemma_ascii_cut(s, n);
    }
}

} // verus!
