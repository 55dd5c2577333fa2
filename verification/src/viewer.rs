//! What a connected viewer has been sent, and what it is to be sent next.
use crate::pane_renderer;
use crate::pane_renderer::{PaneRenderer, PaneView};
use crate::protocol;
use crate::protocol::{ServerMsg, SessionInfo};
use crate::sidebar;
use crate::text;
use crate::text::push_bytes;
use crate::vt100::screen::{Screen, ScreenView};
use vstd::prelude::*;
use vstd::string::*;

verus! {

/// What came of reading from a viewer.
#[derive(Debug)]
pub enum ReadEvent {
    /// The viewer has closed the connection.
    Closed,
    /// It has sent something.
    Data(Vec<u8>),
    /// It has sent nothing yet.
    WouldBlock,
    /// Reading failed.
    Failed,
}

/// The state of a viewer.
pub struct ViewerView {
    pub active_session: Option<Seq<char>>,
    pub cols: u16,
    pub rows: u16,
    pub pane: PaneView,
    pub read_buf: Seq<u8>,
    pub connected: bool,
    pub last_cursor: (u16, u16),
}

/// A connected viewer. Messages are handed out to be sent, and it is told what came of that.
pub struct ViewerClient {
    /// The session that the viewer looks at.
    pub active_session: Option<String>,
    /// The size of the viewer's terminal.
    pub cols: u16,
    pub rows: u16,
    /// Knows what the viewer shows.
    pub renderer: PaneRenderer,
    /// What was read and not yet decoded.
    pub read_buf: Vec<u8>,
    /// Whether the viewer is still connected.
    pub connected: bool,
    last_cursor_row: u16,
    last_cursor_col: u16,
}

impl View for ViewerClient {
    type V = ViewerView;

    closed spec fn view(&self) -> ViewerView {
        ViewerView {
            active_session: text::optional_view(self.active_session),
            cols: self.cols,
            rows: self.rows,
            pane: self.renderer@,
            read_buf: self.read_buf@,
            connected: self.connected,
            last_cursor: (self.last_cursor_row, self.last_cursor_col),
        }
    }
}

/// The difference, and zero where it would be negative.
pub open spec fn less(a: u16, b: u16) -> u16 {
    if a < b {
        0
    } else {
        (a - b) as u16
    }
}

/// A viewer that has just connected.
pub open spec fn new_viewer(cols: u16, rows: u16, sidebar_width: u16) -> ViewerView {
    ViewerView {
        active_session: None,
        cols,
        rows,
        pane: pane_renderer::blank_pane(less(cols, sidebar_width), less(rows, 1), 1, 1),
        read_buf: Seq::empty(),
        connected: true,
        last_cursor: (0, 0),
    }
}

impl ViewerView {
    /// Whether the viewer shows a screen and a cursor already.
    pub open spec fn shows(self, screen: ScreenView, cursor: (u16, u16)) -> bool {
        self.pane.render_bytes(screen).len() == 0 && self.last_cursor == cursor
    }

    /// The viewer once it has been handed a screen and a cursor.
    pub open spec fn updated(self, screen: ScreenView, cursor: (u16, u16)) -> ViewerView {
        ViewerView {
            pane: self.pane.rendered(screen),
            last_cursor: if self.shows(screen, cursor) {
                self.last_cursor
            } else {
                cursor
            },
            ..self
        }
    }

    /// The viewer once something came of reading from it.
    pub open spec fn after_read(self, event: ReadEvent) -> ViewerView {
        match event {
            ReadEvent::Data(data) => if data.len() == 0 {
                ViewerView { connected: false, ..self }
            } else {
                ViewerView { read_buf: self.read_buf + data@, ..self }
            },
            ReadEvent::WouldBlock => self,
            ReadEvent::Closed => ViewerView { connected: false, ..self },
            ReadEvent::Failed => ViewerView { connected: false, ..self },
        }
    }
}

impl ViewerClient {
    /// A viewer that has just connected, with a terminal of a size.
    pub fn new(cols: u16, rows: u16, sidebar_width: u16) -> (v: Self)
        ensures
            v@ == new_viewer(cols, rows, sidebar_width),
            v@.pane.wf(),
            v@.pane.fits(),
    {
        let pty_cols = cols.saturating_sub(sidebar_width);
        let pty_rows = rows.saturating_sub(1);
        let v = ViewerClient {
            active_session: None,
            cols,
            rows,
            renderer: PaneRenderer::new(pty_cols, pty_rows, 1, 1),
            read_buf: Vec::new(),
            connected: true,
            last_cursor_row: 0,
            last_cursor_col: 0,
        };
        assert(v.read_buf@ =~= Seq::empty());
        v
    }

    /// The message that brings the viewer up to date; none where nothing has changed.
    pub fn send_screen_update(&mut self, screen: &Screen, cursor_row: u16, cursor_col: u16) -> (msg:
        Option<ServerMsg>)
        requires
            screen@.wf(),
            old(self)@.pane.wf(),
            old(self)@.pane.fits(),
        ensures
            final(self)@ == old(self)@.updated(screen@, (cursor_row, cursor_col)),
            final(self)@.pane.wf(),
            final(self)@.pane.fits(),
            match msg {
                None => old(self)@.shows(screen@, (cursor_row, cursor_col)),
                Some(ServerMsg::ScreenUpdate { screen_data, cursor_row: row, cursor_col: col }) => {
                    &&& !old(self)@.shows(screen@, (cursor_row, cursor_col))
                    &&& screen_data@ == screen@.formatted()
                    &&& row == cursor_row
                    &&& col == cursor_col
                },
                Some(_) => false,
            },
    {
        let pane_diff = self.renderer.render(screen);
        if pane_diff.len() == 0 && cursor_row == self.last_cursor_row && cursor_col
            == self.last_cursor_col {
            return None;
        }
        self.last_cursor_row = cursor_row;
        self.last_cursor_col = cursor_col;
        Some(
            ServerMsg::ScreenUpdate {
                screen_data: screen.contents_formatted(),
                cursor_row,
                cursor_col,
            },
        )
    }

    /// The message with the list of sessions.
    pub fn send_session_list(&self, sessions: &[SessionInfo], active_id: Option<&str>) -> (msg:
        ServerMsg)
        ensures
            msg matches ServerMsg::SessionList { sessions: list, active_id: id }
                && protocol::info_views(list@) == protocol::info_views(sessions@)
                && text::optional_view(id) == sidebar::optional_text(active_id),
    {
        let mut list: Vec<SessionInfo> = Vec::new();
        let mut i: usize = 0;
        while i < sessions.len()
            invariant
                i <= sessions.len(),
                list.len() == i,
                forall|k: int| 0 <= k < i ==> (#[trigger] list@[k])@ == sessions@[k]@,
            decreases sessions.len() - i,
        {
            list.push(sessions[i].clone());
            i += 1;
        }
        assert(protocol::info_views(list@) =~= protocol::info_views(sessions@));
        let id = match active_id {
            Some(s) => Some(s.to_string()),
            None => None,
        };
        ServerMsg::SessionList { sessions: list, active_id: id }
    }

    /// The message that says goodbye. The viewer counts as gone from here on.
    pub fn send_goodbye(&mut self) -> (msg: ServerMsg)
        ensures
            msg is Goodbye,
            final(self)@ == (ViewerView { connected: false, ..old(self)@ }),
    {
        self.connected = false;
        ServerMsg::Goodbye
    }

    /// Takes in whether a message could be sent; the viewer is gone where it could not. Returns
    /// the same.
    pub fn sent(&mut self, ok: bool) -> (b: bool)
        ensures
            b == ok,
            final(self)@ == (ViewerView { connected: old(self)@.connected && ok, ..old(self)@ }),
    {
        if !ok {
            self.connected = false;
        }
        ok
    }

    /// Takes in what came of reading from the viewer, and returns the number of bytes.
    pub fn read_available(&mut self, event: ReadEvent) -> (n: usize)
        ensures
            final(self)@ == old(self)@.after_read(event),
            n == (match event {
                ReadEvent::Data(data) => data.len(),
                _ => 0,
            }),
    {
        match event {
            ReadEvent::Data(data) => {
                if data.len() == 0 {
                    self.connected = false;
                } else {
                    push_bytes(&mut self.read_buf, &data);
                }
                data.len()
            },
            ReadEvent::WouldBlock => 0,
            ReadEvent::Closed => {
                self.connected = false;
                0
            },
            ReadEvent::Failed => {
                self.connected = false;
                0
            },
        }
    }

    /// Has everything drawn again with the next update.
    pub fn invalidate(&mut self)
        requires
            old(self)@.pane.wf(),
        ensures
            final(self)@ == (ViewerView {
                pane: PaneView { redraw: true, ..old(self)@.pane },
                ..old(self)@
            }),
    {
        self.renderer.invalidate();
    }
}

/// A viewer that was just sent a screen and a cursor is not sent them again.
pub proof fn law_nothing_is_sent_twice(v: ViewerView, screen: ScreenView, cursor: (u16, u16))
    ensures
        v.updated(screen, cursor).shows(screen, cursor),
{
    pane_renderer::law_unchanged_screen_is_not_drawn_again(v.pane, screen);
}

/// A viewer shows the screen beside the sidebar and above the last line of its terminal, which it
/// has from the first.
pub proof fn law_viewers_leave_room(cols: u16, rows: u16, sidebar_width: u16)
    ensures
        ({
            let v = new_viewer(cols, rows, sidebar_width);
            &&& v.cols == cols && v.rows == rows
            &&& v.pane.cols == (if cols > sidebar_width {
                cols - sidebar_width
            } else {
                0
            })
            &&& v.pane.rows == (if rows > 1 {
                rows - 1
            } else {
                0
            })
            &&& v.pane.offset_row == 1 && v.pane.offset_col == 1
            &&& v.connected && v.active_session is None && v.pane.redraw
            &&& v.read_buf.len() == 0
        }),
{
}

/// What comes from a viewer is kept in order. Nothing at all where there should be something means
/// that it is gone, as does an error; that there is nothing yet does not.
pub proof fn law_what_viewers_send_is_kept(v: ViewerView, data: Vec<u8>)
    ensures
        data@.len() > 0 ==> v.after_read(ReadEvent::Data(data)) == (ViewerView {
            read_buf: v.read_buf + data@,
            ..v
        }),
        data@.len() == 0 ==> v.after_read(ReadEvent::Data(data)) == (ViewerView {
            connected: false,
            ..v
        }),
        v.after_read(ReadEvent::WouldBlock) == v,
        v.after_read(ReadEvent::Failed) == (ViewerView { connected: false, ..v }),
        v.after_read(ReadEvent::Closed) == (ViewerView { connected: false, ..v }),
{
}

/// A viewer that does not show a cursor where it is, is brought up to date, and so is one that does
/// not show the screen. Then it shows both.
pub proof fn law_viewers_are_brought_up_to_date(v: ViewerView, screen: ScreenView, cursor: (u16, u16))
    ensures
        v.last_cursor != cursor ==> !v.shows(screen, cursor),
        v.pane.render_bytes(screen).len() > 0 ==> !v.shows(screen, cursor),
        v.updated(screen, cursor).last_cursor == cursor,
        v.updated(screen, cursor).pane == v.pane.rendered(screen),
{
}

} // verus!
