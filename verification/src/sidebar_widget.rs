//! The rows of the session list beside the terminal, for a renderer that owns the screen's cells.
use crate::session::{MetadataView, SessionMetadata, SessionStatus};
use crate::sidebar;
use crate::sidebar::{fill_text, is_active, low_half, shown_name, start_label};
use crate::text;
use crate::text::{from_chars, to_chars};
use vstd::prelude::*;
use vstd::string::*;

verus! {

/// A row of the list. It is drawn behind the prefix, black on white for the active session and
/// white on black otherwise, over the whole width. Of two rows at one offset the later one covers
/// the earlier.
#[derive(Debug, PartialEq, Eq)]
pub struct SidebarRow {
    /// How far below the first line of the list.
    pub offset: u16,
    /// What stands behind the prefix.
    pub text: String,
    /// Whether it is the active session's.
    pub active: bool,
}

/// A row of the list, as a mathematical value.
pub struct RowView {
    pub offset: int,
    pub text: Seq<char>,
    pub active: bool,
}

impl View for SidebarRow {
    type V = RowView;

    open spec fn view(&self) -> RowView {
        RowView { offset: self.offset as int, text: self.text@, active: self.active }
    }
}

/// The views of a list of rows.
pub open spec fn row_views(v: Seq<SidebarRow>) -> Seq<RowView> {
    v.map_values(|r: SidebarRow| r@)
}

impl SidebarRow {
    /// What stands at the left of every row.
    pub fn prefix(&self) -> (s: &'static str)
        ensures
            s@ == "| "@,
    {
        "| "
    }
}

/// What the list shows, and the size it has.
pub struct WidgetState {
    pub sessions: Seq<MetadataView>,
    pub active: Option<Seq<char>>,
    pub reminders: Seq<Seq<char>>,
    pub build_info: Option<Seq<char>>,
    pub width: int,
    pub height: int,
}

/// A text cut to at most `max_len` characters. Where there is room for them, dots stand for what
/// was cut off.
pub open spec fn truncated(s: Seq<char>, max_len: int) -> Seq<char> {
    if s.len() <= max_len {
        s
    } else if max_len > 3 {
        s.take(max_len - 3) + "..."@
    } else {
        s.take(max_len)
    }
}

/// The entry of the session at an index.
pub open spec fn session_label(i: nat, session: MetadataView, usable: int) -> Seq<char> {
    sidebar::label_start(i, session.status) + truncated(
        sidebar::display_name(session),
        sidebar::name_width(usable),
    )
}

/// A text cut to a width in characters and filled up to it.
pub open spec fn fitted(s: Seq<char>, width: int) -> Seq<char> {
    sidebar::filled(
        if s.len() <= width {
            s
        } else {
            s.take(width)
        },
        width,
    )
}

impl WidgetState {
    /// The number of columns for text.
    pub open spec fn usable(self) -> int {
        sidebar::usable_width(self.width)
    }

    /// The first row: a title, with the build in brackets where it is known.
    pub open spec fn header(self) -> Seq<char> {
        match self.build_info {
            Some(info) => "TERMINALS ("@ + info + ")."@,
            None => "TERMINALS."@,
        }
    }

    /// The number of sessions for which there is a row.
    pub open spec fn sessions_shown(self) -> int {
        if self.height < 2 {
            0
        } else if self.sessions.len() < self.height - 2 {
            self.sessions.len() as int
        } else {
            self.height - 2
        }
    }

    /// The number of rows for the reminders and their header.
    pub open spec fn section_height(self) -> int {
        if self.reminders.len() == 0 {
            0
        } else {
            1 + self.reminders.len() as int % 0x1_0000
        }
    }

    /// The row that the reminders begin at: they stand at the bottom.
    pub open spec fn section_start(self) -> int {
        if self.height < self.section_height() {
            0
        } else {
            self.height - self.section_height()
        }
    }

    /// The number of reminders for which there is a row.
    pub open spec fn reminders_shown(self) -> int {
        let room = self.height - self.section_start() - 1;
        if self.reminders.len() == 0 {
            0
        } else if self.reminders.len() < room {
            self.reminders.len() as int
        } else {
            room
        }
    }

    /// The row of a session.
    pub open spec fn session_row(self, i: int) -> RowView {
        RowView {
            offset: 2 + i,
            text: fitted(
                session_label(i as nat, self.sessions[i], self.usable()),
                self.usable(),
            ),
            active: self.active == Some(self.sessions[i].id),
        }
    }

    /// A row that shows a text.
    pub open spec fn text_row(self, offset: int, text: Seq<char>) -> RowView {
        RowView { offset, text: sidebar::filled(text, self.usable()), active: false }
    }

    /// The row of a reminder.
    pub open spec fn reminder_row(self, i: int) -> RowView {
        self.text_row(
            self.section_start() + 1 + i,
            truncated(self.reminders[i], self.usable()),
        )
    }

    /// The header and the row under it, as far as there is room.
    pub open spec fn head(self) -> Seq<RowView> {
        let header = RowView {
            offset: 0,
            text: fitted(self.header(), self.usable()),
            active: false,
        };
        if self.height == 1 {
            seq![header]
        } else {
            seq![header, self.text_row(1, "====="@)]
        }
    }

    /// The rows of the first `n` sessions.
    pub open spec fn session_rows(self, n: int) -> Seq<RowView> {
        Seq::new(n as nat, |i: int| self.session_row(i))
    }

    /// Empty rows from one row up to another.
    pub open spec fn empty_rows(self, from: int, to: int) -> Seq<RowView> {
        Seq::new(
            (if to < from {
                0
            } else {
                to - from
            }) as nat,
            |i: int| self.text_row(from + i, ""@),
        )
    }

    /// The header of the reminders and the first `n` of them.
    pub open spec fn reminder_rows(self, n: int) -> Seq<RowView> {
        seq![self.text_row(self.section_start(), "REMINDERS"@)] + Seq::new(
            n as nat,
            |i: int| self.reminder_row(i),
        )
    }

    /// All the rows of the list: the header, the sessions, empty rows, and at the bottom the
    /// reminders, which cover what is above them where there is too little room.
    pub open spec fn rows(self) -> Seq<RowView> {
        if self.width == 0 || self.height == 0 {
            Seq::empty()
        } else {
            self.head() + self.session_rows(self.sessions_shown()) + self.empty_rows(
                2 + self.sessions_shown(),
                self.section_start(),
            ) + (if self.reminders.len() == 0 {
                Seq::empty()
            } else {
                self.reminder_rows(self.reminders_shown())
            })
        }
    }

    /// Whether the list can be drawn: the rows for the reminders and their header can be counted in
    /// 16 bits.
    pub open spec fn drawable(self) -> bool {
        self.width > 0 && self.height > 0 ==> self.reminders.len() % 0x1_0000 < u16::MAX
    }
}

/// The list of sessions and reminders.
pub struct SidebarWidget<'a> {
    pub sessions: &'a [SessionMetadata],
    pub active_id: Option<&'a str>,
    pub reminders: &'a [String],
    pub build_info: Option<&'a str>,
}

/// A text cut to at most `max_len` characters. Where there is room for them, dots stand for what
/// was cut off.
pub fn truncate(s: &str, max_len: usize) -> (t: String)
    ensures
        t@ == truncated(s@, max_len as int),
{
    let chars = to_chars(s);
    if chars.len() <= max_len {
        s.to_string()
    } else if max_len > 3 {
        let kept = vstd::slice::slice_subrange(&chars, 0, max_len - 3);
        assert(kept@ =~= s@.take(max_len - 3));
        let mut t = from_chars(kept);
        t.append("...");
        t
    } else {
        let kept = vstd::slice::slice_subrange(&chars, 0, max_len);
        assert(kept@ =~= s@.take(max_len as int));
        from_chars(kept)
    }
}

fn label(i: usize, session: &SessionMetadata, usable: usize) -> (t: String)
    ensures
        t@ == session_label(i as nat, session@, usable as int),
{
    let mut t = start_label(i, session);
    let shown = truncate(shown_name(session), usable.saturating_sub(3));
    t.append(shown.as_str());
    t
}

fn fit_text(s: &str, width: usize) -> (t: String)
    ensures
        t@ == fitted(s@, width as int),
{
    let chars = to_chars(s);
    if chars.len() <= width {
        fill_text(s, width)
    } else {
        let kept = vstd::slice::slice_subrange(&chars, 0, width);
        assert(kept@ =~= s@.take(width as int));
        let cut = from_chars(kept);
        fill_text(cut.as_str(), width)
    }
}

impl<'a> SidebarWidget<'a> {
    /// What is to be drawn.
    pub open spec fn state(&self, width: u16, height: u16) -> WidgetState {
        WidgetState {
            sessions: sidebar::metadata_views(self.sessions@),
            active: sidebar::optional_text(self.active_id),
            reminders: sidebar::text_views(self.reminders@),
            build_info: sidebar::optional_text(self.build_info),
            width: width as int,
            height: height as int,
        }
    }

    /// A list without build information.
    pub fn new(
        sessions: &'a [SessionMetadata],
        active_id: Option<&'a str>,
        reminders: &'a [String],
    ) -> (w: Self)
        ensures
            w == (SidebarWidget { sessions, active_id, reminders, build_info: None }),
    {
        SidebarWidget { sessions, active_id, reminders, build_info: None }
    }

    /// The list with build information.
    pub fn build_info(self, info: &'a str) -> (w: Self)
        ensures
            w == (SidebarWidget { build_info: Some(info), ..self }),
    {
        SidebarWidget {
            sessions: self.sessions,
            active_id: self.active_id,
            reminders: self.reminders,
            build_info: Some(info),
        }
    }

    fn title(&self, Ghost(s): Ghost<WidgetState>) -> (header: String)
        requires
            s.build_info == sidebar::optional_text(self.build_info),
        ensures
            header@ == s.header(),
    {
        let mut header = String::new();
        match self.build_info {
            Some(info) => {
                header.append("TERMINALS (");
                header.append(info);
                header.append(").");
                assert(header@ =~= s.header());
            },
            None => {
                header.append("TERMINALS.");
                assert(header@ =~= s.header());
            },
        }
        header
    }

    /// Whether the list can be drawn in an area of a size.
    pub fn can_render(&self, width: u16, height: u16) -> (b: bool)
        ensures
            b == self.state(width, height).drawable(),
    {
        width == 0 || height == 0 || low_half(self.reminders.len()) < u16::MAX
    }

    /// The rows of the list in an area of a size.
    pub fn render(&self, width: u16, height: u16) -> (rows: Vec<SidebarRow>)
        requires
            self.state(width, height).drawable(),
        ensures
            row_views(rows@) == self.state(width, height).rows(),
    {
        let ghost s = self.state(width, height);
        let mut rows: Vec<SidebarRow> = Vec::new();
        if width == 0 || height == 0 {
            assert(row_views(rows@) =~= s.rows());
            return rows;
        }
        let usable: usize = (width as usize).saturating_sub(3);
        let header = self.title(Ghost(s));
        rows.push(SidebarRow { offset: 0, text: fit_text(header.as_str(), usable), active: false });
        if height > 1 {
            rows.push(SidebarRow { offset: 1, text: fill_text("=====", usable), active: false });
        }
        assert(row_views(rows@) =~= s.head() + s.session_rows(0));

        let mut row: u16 = 2;
        let mut i: usize = 0;
        while i < self.sessions.len() && row < height
            invariant
                s == self.state(width, height),
                s.drawable(),
                width > 0,
                height > 0,
                usable == s.usable(),
                i <= s.sessions_shown() <= self.sessions.len(),
                row == 2 + i,
                row_views(rows@) == s.head() + s.session_rows(i as int),
            decreases self.sessions.len() - i,
        {
            assert(s.sessions[i as int] == self.sessions@[i as int]@);
            let active = is_active(&self.sessions[i], self.active_id);
            let entry = label(i, &self.sessions[i], usable);
            let ghost before = row_views(rows@);
            rows.push(SidebarRow { offset: row, text: fit_text(entry.as_str(), usable), active });
            assert(row_views(rows@) =~= before.push(s.session_row(i as int)));
            assert(row_views(rows@) =~= s.head() + s.session_rows(i + 1));
            row += 1;
            i += 1;
        }
        let ghost shown = s.head() + s.session_rows(s.sessions_shown());
        let section_height: u16 = if self.reminders.len() == 0 {
            0
        } else {
            1 + low_half(self.reminders.len())
        };
        let section_start: u16 = height.saturating_sub(section_height);
        assert(section_start == s.section_start());
        let ghost first = row as int;
        assert(first == 2 + s.sessions_shown());
        let mut r: u16 = row;
        assert(row_views(rows@) =~= shown + s.empty_rows(first, r as int));
        while r < section_start
            invariant
                s == self.state(width, height),
                usable == s.usable(),
                first <= r,
                r <= section_start || r == first,
                row_views(rows@) == shown + s.empty_rows(first, r as int),
            decreases section_start - r,
        {
            let ghost before = row_views(rows@);
            rows.push(SidebarRow { offset: r, text: fill_text("", usable), active: false });
            assert(row_views(rows@) =~= before.push(s.text_row(r as int, ""@)));
            r += 1;
            assert(row_views(rows@) =~= shown + s.empty_rows(first, r as int));
        }
        assert(s.empty_rows(first, r as int) =~= s.empty_rows(first, section_start as int));
        let ghost above = shown + s.empty_rows(first, section_start as int);
        if self.reminders.len() > 0 {
            rows.push(
                SidebarRow {
                    offset: section_start,
                    text: fill_text("REMINDERS", usable),
                    active: false,
                },
            );
            assert(row_views(rows@) =~= above + s.reminder_rows(0));
            let mut row: u16 = section_start + 1;
            let mut j: usize = 0;
            while j < self.reminders.len() && row < height
                invariant
                    s == self.state(width, height),
                    s.drawable(),
                    width > 0,
                    height > 0,
                    usable == s.usable(),
                    self.reminders.len() > 0,
                    j <= s.reminders_shown() <= self.reminders.len(),
                    row == s.section_start() + 1 + j,
                    row <= height,
                    row_views(rows@) == above + s.reminder_rows(j as int),
                decreases self.reminders.len() - j,
            {
                assert(s.reminders[j as int] == self.reminders@[j as int]@);
                let text = truncate(self.reminders[j].as_str(), usable);
                let ghost before = row_views(rows@);
                rows.push(
                    SidebarRow {
                        offset: row,
                        text: fill_text(text.as_str(), usable),
                        active: false,
                    },
                );
                assert(row_views(rows@) =~= before.push(s.reminder_row(j as int)));
                assert(row_views(rows@) =~= above + s.reminder_rows(j + 1));
                row += 1;
                j += 1;
            }
        }
        assert(row_views(rows@) =~= s.rows());
        rows
    }
}

/// All rows lie within the height of the list.
pub proof fn law_rows_are_inside(s: WidgetState, i: int)
    requires
        0 <= s.height,
        0 <= i < s.rows().len(),
    ensures
        0 <= s.rows()[i].offset < s.height,
{
}

/// Where the reminders have room below the sessions, every row is drawn exactly once, from the top
/// down.
pub proof fn law_rows_go_down(s: WidgetState, i: int)
    requires
        0 < s.width,
        0 < s.height,
        2 + s.sessions_shown() <= s.section_start(),
        s.reminders.len() < 0x1_0000,
        0 <= i < s.height,
    ensures
        s.rows().len() == s.height,
        s.rows()[i].offset == i,
{
}

/// Each session has a row, in order, below the header: its index, a mark for its status and its name,
/// or its identifier where it has none, filled with spaces. The row of the active session is marked.
pub proof fn law_sessions_are_listed(s: WidgetState, i: int)
    requires
        3 < s.width,
        2 < s.height,
        0 <= i < s.sessions.len(),
        i < s.height - 2,
    ensures
        ({
            let x = s.sessions[i];
            let mark = match x.status {
                SessionStatus::Running => '*',
                SessionStatus::Exited(code) => if code == 0 {
                    '.'
                } else {
                    '!'
                },
            };
            let name = match x.name {
                Some(n) => n,
                None => x.id,
            };
            let whole = text::decimal(i as nat) + seq![mark, ' '] + name;
            &&& s.rows()[2 + i].offset == 2 + i
            &&& s.rows()[2 + i].active <==> s.active == Some(x.id)
            &&& name.len() <= s.width - 6 && whole.len() <= s.width - 3 ==> s.rows()[2 + i].text
                == whole + Seq::new((s.width - 3 - whole.len()) as nat, |k: int| ' ')
        }),
{
    let row = s.session_row(i);
    assert(s.rows()[2 + i] == row);
    let x = s.sessions[i];
    let name = sidebar::display_name(x);
    if name.len() <= s.width - 6 {
        let label = session_label(i as nat, x, s.usable());
        let whole = text::decimal(i as nat) + seq![sidebar::status_mark(x.status), ' '] + name;
        assert(label =~= whole);
        if whole.len() <= s.width - 3 {
            assert(row.text =~= whole + Seq::new((s.width - 3 - whole.len()) as nat, |k: int| ' '));
        }
    }
}

/// The reminders stand at the bottom, in order, under a header of their own.
pub proof fn law_reminders_are_at_the_bottom(s: WidgetState, i: int)
    requires
        3 < s.width,
        2 <= s.height,
        0 <= i < s.reminders.len(),
        s.reminders.len() < 0xffff,
        2 + s.sessions.len() + 1 + s.reminders.len() <= s.height,
        s.reminders[i].len() <= s.width - 3,
    ensures
        s.rows().len() == s.height,
        s.rows()[s.height - s.reminders.len() + i].offset == s.height - s.reminders.len() + i,
        s.rows()[s.height - s.reminders.len() + i].text == s.reminders[i] + Seq::new(
            (s.width - 3 - s.reminders[i].len()) as nat,
            |k: int| ' ',
        ),
        !s.rows()[s.height - s.reminders.len() + i].active,
{
    let n = s.reminders.len() as int;
    assert(s.section_start() == s.height - n - 1);
    assert(s.reminders_shown() == n);
    let at = s.height - n + i;
    assert(s.rows()[at] == s.reminder_row(i));
    assert(s.reminder_row(i).text =~= s.reminders[i] + Seq::new(
        (s.width - 3 - s.reminders[i].len()) as nat,
        |k: int| ' ',
    ));
}

/// A text that is too long ends in dots where there is room for them, and keeps its start.
pub proof fn law_long_texts_are_cut(s: Seq<char>, n: int)
    requires
        0 <= n,
    ensures
        s.len() <= n ==> truncated(s, n) == s,
        s.len() > n ==> truncated(s, n).len() == n,
        s.len() > n && n > 3 ==> truncated(s, n) == s.take(n - 3) + seq!['.', '.', '.'],
        s.len() > n && n <= 3 ==> truncated(s, n) == s.take(n),
{
    reveal_strlit("...");
    assert("..."@ =~= seq!['.', '.', '.']);
}

} // verus!
