//! A terminal session: a device with a screen that follows its output.
use crate::backend;
use crate::backend::PtyBackend;
use crate::error::PtyError;
use crate::keys;
use crate::keys::process_special_keys;
use crate::screen;
use crate::screen::{BufferView, ScreenBuffer};
use crate::text;
use crate::text::{clone_optional, cut_both, from_chars, push_decimal, to_chars};
use crate::time::{Duration, Instant};
use crate::vt100::contents;
use crate::vt100::parser;
use crate::vt100::screen::min;
use vstd::prelude::*;
use vstd::string::*;

verus! {

/// Unique identifier of a session.
pub type SessionId = String;

/// Status of a session.
#[derive(Debug, Clone, Copy, PartialEq, Eq, Structural)]
pub enum SessionStatus {
    Running,
    Exited(i32),
}

/// What is known about a session.
#[derive(Debug)]
pub struct SessionMetadata {
    pub id: SessionId,
    pub command: String,
    pub status: SessionStatus,
    pub cols: u16,
    pub rows: u16,
    pub name: Option<String>,
    pub created_at: Option<Instant>,
}

/// What is known about a session, as a mathematical value.
pub struct MetadataView {
    pub id: Seq<char>,
    pub command: Seq<char>,
    pub status: SessionStatus,
    pub cols: u16,
    pub rows: u16,
    pub name: Option<Seq<char>>,
    pub created_at: Option<Instant>,
}

impl View for SessionMetadata {
    type V = MetadataView;

    open spec fn view(&self) -> MetadataView {
        MetadataView {
            id: self.id@,
            command: self.command@,
            status: self.status,
            cols: self.cols,
            rows: self.rows,
            name: text::optional_view(self.name),
            created_at: self.created_at,
        }
    }
}

/// How much output is read at a time.
pub const READ_SIZE: usize = 32768;

/// The state of a session.
pub struct SessionView<B> {
    pub id: Seq<char>,
    pub name: Option<Seq<char>>,
    pub backend: B,
    pub screen: BufferView,
    pub status: SessionStatus,
    pub command: Seq<char>,
    pub created_at: Instant,
    pub last_output: Instant,
    pub last_input: Instant,
    pub clock: Instant,
    pub capture_path: Option<Seq<char>>,
    pub capture_bytes: u64,
}

/// A session. It reads no clock: it stamps what happens with the time it was last told.
pub struct PtySession<B: PtyBackend> {
    pub id: SessionId,
    pub name: Option<String>,
    backend: B,
    screen: ScreenBuffer,
    status: SessionStatus,
    command: String,
    created_at: Instant,
    last_output_time: Instant,
    last_input_time: Instant,
    clock: Instant,
    capture_path: Option<String>,
    capture_bytes: u64,
}

/// The file that a capture goes to.
pub open spec fn capture_file(capture_id: Seq<char>) -> Seq<char> {
    "/tmp/tttt-capture-"@ + capture_id + ".raw"@
}

/// The sum, up to the limit.
pub open spec fn add_up(a: u64, b: nat) -> u64 {
    if a + b > u64::MAX {
        u64::MAX
    } else {
        (a + b) as u64
    }
}

/// The position of the last newline.
pub open spec fn last_newline(s: Seq<char>) -> Option<int>
    decreases s.len(),
{
    if s.len() == 0 {
        None
    } else if s.last() == '\n' {
        Some(s.len() - 1)
    } else {
        last_newline(s.drop_last())
    }
}

/// The last line of a text that is not blank, without white space around it; empty where all are.
pub open spec fn last_text_line(s: Seq<char>) -> Seq<char>
    decreases s.len(),
    via last_text_line_decreases
{
    match last_newline(s) {
        None => text::trim(s),
        Some(i) => if text::trim(s.skip(i + 1)).len() > 0 {
            text::trim(s.skip(i + 1))
        } else {
            last_text_line(s.take(i))
        },
    }
}

#[via_fn]
proof fn last_text_line_decreases(s: Seq<char>) {
    lemma_last_newline(s);
}

proof fn lemma_last_newline(s: Seq<char>)
    ensures
        match last_newline(s) {
            Some(i) => 0 <= i < s.len() && s[i] == '\n' && forall|k: int|
                i < k < s.len() ==> s[k] != '\n',
            None => forall|k: int| 0 <= k < s.len() ==> s[k] != '\n',
        },
    decreases s.len(),
{
    if s.len() > 0 && s.last() != '\n' {
        lemma_last_newline(s.drop_last());
        assert forall|k: int| 0 <= k < s.len() - 1 implies s[k] == s.drop_last()[k] by {}
    }
}

/// A session as it starts.
pub open spec fn new_session<B>(
    id: Seq<char>,
    backend: B,
    command: Seq<char>,
    cols: u16,
    rows: u16,
    now: Instant,
) -> SessionView<B> {
    SessionView {
        id,
        name: None,
        backend,
        screen: screen::fresh_buffer(cols, rows, 1000),
        status: SessionStatus::Running,
        command,
        created_at: now,
        last_output: now,
        last_input: now,
        clock: now,
        capture_path: None,
        capture_bytes: 0,
    }
}

impl<B: PtyBackend> SessionView<B> {
    /// The session after output was read: it is on the screen, and counted where it is captured.
    pub open spec fn with_output(self, data: Seq<u8>) -> SessionView<B> {
        if data.len() > 0 {
            SessionView {
                screen: BufferView { parser: self.screen.parser.fed_all(data), ..self.screen },
                last_output: self.clock,
                capture_bytes: if self.capture_path is Some {
                    add_up(self.capture_bytes, data.len())
                } else {
                    self.capture_bytes
                },
                ..self
            }
        } else {
            self
        }
    }

    /// The session on another state of its device.
    pub open spec fn on(self, backend: B) -> SessionView<B> {
        SessionView { backend, ..self }
    }

    /// How asking a running session's device for an exit code changes the session: with a code, it
    /// has exited. An error is handed on.
    pub open spec fn status_checked(
        self,
        after: SessionView<B>,
        answer: Result<Option<i32>, PtyError>,
    ) -> bool {
        &&& B::waited(self.backend, after.backend, answer)
        &&& after == (SessionView {
            backend: after.backend,
            status: match answer {
                Ok(Some(code)) => SessionStatus::Exited(code),
                _ => self.status,
            },
            ..self
        })
    }

    /// How pumping turns out. A session that has exited reads nothing. Else what the device gives
    /// goes to the screen, and the device is asked for an exit code; the first error is returned.
    pub open spec fn pumped(
        self,
        after: SessionView<B>,
        result: Result<Seq<u8>, PtyError>,
    ) -> bool {
        if self.status != SessionStatus::Running {
            after == self && result == Ok::<Seq<u8>, PtyError>(Seq::empty())
        } else {
            ||| (exists|read: Result<usize, PtyError>|
                #[trigger] B::was_read(
                    self.backend,
                    READ_SIZE as nat,
                    Seq::empty(),
                    after.backend,
                    read,
                ) && read is Err && result == Err::<Seq<u8>, PtyError>(read->Err_0) && after
                    == self.on(after.backend))
            ||| (exists|data: Seq<u8>, n: usize, mid: B, answer: Result<Option<i32>, PtyError>|
                data.len() == n && #[trigger] B::was_read(
                    self.backend,
                    READ_SIZE as nat,
                    data,
                    mid,
                    Ok(n),
                ) && #[trigger] self.on(mid).with_output(data).status_checked(after, answer)
                    && result == match answer {
                    Ok(_) => Ok::<Seq<u8>, PtyError>(data),
                    Err(e) => Err(e),
                })
        }
    }

    /// How sending bytes turns out: an exited session refuses them, else the device gets them.
    pub open spec fn sent(
        self,
        data: Seq<u8>,
        after: SessionView<B>,
        result: Result<(), PtyError>,
    ) -> bool {
        if self.status != SessionStatus::Running {
            after == self && result == Err::<(), PtyError>(PtyError::SessionExited)
        } else {
            after == (SessionView { backend: after.backend, last_input: self.clock, ..self })
                && B::wrote(self.backend, data, after.backend, result)
        }
    }

    /// How killing turns out: the device kills the process, and a session that was running is
    /// asked for its exit code; the first error is returned.
    pub open spec fn killed(self, after: SessionView<B>, result: Result<(), PtyError>) -> bool {
        ||| ((result is Err || self.status != SessionStatus::Running) && after == self.on(
            after.backend,
        ) && B::was_killed(self.backend, after.backend, result))
        ||| (exists|mid: B, kill: Result<(), PtyError>, answer: Result<Option<i32>, PtyError>|
            #[trigger] B::was_killed(self.backend, mid, kill) && kill is Ok && self.status
                == SessionStatus::Running && #[trigger] self.on(mid).status_checked(after, answer)
                && (match answer {
                Ok(_) => result is Ok,
                Err(e) => result == Err::<(), PtyError>(e),
            }))
    }

    /// How resizing turns out: first the device is resized, and where that succeeds the screen.
    pub open spec fn resized_to(
        self,
        cols: u16,
        rows: u16,
        after: SessionView<B>,
        result: Result<(), PtyError>,
    ) -> bool {
        &&& B::resized(self.backend, cols, rows, after.backend, result)
        &&& after == (SessionView {
            backend: after.backend,
            screen: if result is Ok && !(self.screen.cols == cols && self.screen.rows == rows) {
                screen::fresh_buffer(cols, rows, self.screen.scrollback_lines)
            } else {
                self.screen
            },
            ..self
        })
    }

    /// The session with another depth of scrollback, and an empty screen.
    pub open spec fn with_scrollback(self, lines: usize) -> SessionView<B> {
        SessionView {
            screen: screen::fresh_buffer(self.screen.cols, self.screen.rows, lines),
            ..self
        }
    }

    /// What is known about the session.
    pub open spec fn meta(self) -> MetadataView {
        MetadataView {
            id: self.id,
            command: self.command,
            status: self.status,
            cols: self.screen.cols,
            rows: self.screen.rows,
            name: self.name,
            created_at: Some(self.created_at),
        }
    }
}

impl<B: PtyBackend> View for PtySession<B> {
    type V = SessionView<B>;

    closed spec fn view(&self) -> SessionView<B> {
        SessionView {
            id: self.id@,
            name: text::optional_view(self.name),
            backend: self.backend,
            screen: self.screen@,
            status: self.status,
            command: self.command@,
            created_at: self.created_at,
            last_output: self.last_output_time,
            last_input: self.last_input_time,
            clock: self.clock,
            capture_path: text::optional_view(self.capture_path),
            capture_bytes: self.capture_bytes,
        }
    }
}

impl<B: PtyBackend> PtySession<B> {
    /// The screen is valid.
    pub open spec fn wf(&self) -> bool {
        self@.screen.wf()
    }

    /// A session that starts at the origin of the clock.
    pub fn new(id: SessionId, backend: B, command: String, cols: u16, rows: u16) -> (s: Self)
        ensures
            s.wf(),
            s@ == new_session(id@, backend, command@, cols, rows, Instant { nanos: 0 }),
    {
        PtySession::new_at(id, backend, command, cols, rows, Instant { nanos: 0 })
    }

    /// A session that starts at a given time.
    pub fn new_at(
        id: SessionId,
        backend: B,
        command: String,
        cols: u16,
        rows: u16,
        now: Instant,
    ) -> (s: Self)
        ensures
            s.wf(),
            s@ == new_session(id@, backend, command@, cols, rows, now),
    {
        PtySession {
            id,
            name: None,
            backend,
            screen: ScreenBuffer::new(cols, rows),
            status: SessionStatus::Running,
            command,
            created_at: now,
            last_output_time: now,
            last_input_time: now,
            clock: now,
            capture_path: None,
            capture_bytes: 0,
        }
    }

    /// Tells the session the time.
    pub fn set_clock(&mut self, now: Instant)
        requires
            old(self).wf(),
        ensures
            final(self).wf(),
            final(self)@ == (SessionView { clock: now, ..old(self)@ }),
    {
        self.clock = now;
    }

    /// Gives the session a name.
    pub fn set_name(&mut self, name: String)
        requires
            old(self).wf(),
        ensures
            final(self).wf(),
            final(self)@ == (SessionView { name: Some(name@), ..old(self)@ }),
    {
        self.name = Some(name);
    }

    /// Reads available output and feeds it to the screen. Returns the number of bytes read.
    pub fn pump(&mut self) -> (result: Result<usize, PtyError>)
        requires
            old(self).wf(),
        ensures
            final(self).wf(),
            match result {
                Ok(n) => exists|data: Seq<u8>|
                    data.len() == n && #[trigger] old(self)@.pumped(final(self)@, Ok(data)),
                Err(e) => old(self)@.pumped(final(self)@, Err(e)),
            },
    {
        match self.pump_raw() {
            Ok((n, _)) => Ok(n),
            Err(e) => Err(e),
        }
    }

    /// Reads available output, feeds it to the screen and returns it with its length. Where output
    /// is captured, the caller appends it to the file.
    pub fn pump_raw(&mut self) -> (result: Result<(usize, Vec<u8>), PtyError>)
        requires
            old(self).wf(),
        ensures
            final(self).wf(),
            match result {
                Ok((n, data)) => n == data@.len() && old(self)@.pumped(final(self)@, Ok(data@)),
                Err(e) => old(self)@.pumped(final(self)@, Err(e)),
            },
    {
        if self.status != SessionStatus::Running {
            let nothing: Vec<u8> = Vec::new();
            assert(nothing@ =~= Seq::empty());
            return Ok((0, nothing));
        }
        let ghost start = self@;
        let mut buf: Vec<u8> = vec![0u8; READ_SIZE];
        let read = self.backend.read(buf.as_mut_slice());
        let ghost outcome = read;
        let n: usize = match read {
            Ok(n) => n,
            Err(e) => {
                assert(self@ == start.on(self@.backend));
                assert(B::was_read(
                    start.backend,
                    READ_SIZE as nat,
                    Seq::empty(),
                    self@.backend,
                    outcome,
                ));
                return Err(e);
            },
        };
        let ghost mid = self.backend;
        buf.truncate(n);
        let ghost data = buf@;
        assert(self@ == start.on(mid));
        assert(B::was_read(start.backend, READ_SIZE as nat, data, mid, Ok(n)));
        if n > 0 {
            self.screen.process(&buf);
            self.last_output_time = self.clock;
            if self.capture_path.is_some() {
                self.capture_bytes = if self.capture_bytes <= u64::MAX - n as u64 {
                    self.capture_bytes + n as u64
                } else {
                    u64::MAX
                };
            }
        }
        assert(self@ == start.on(mid).with_output(data));
        let answer = self.update_status();
        match answer {
            Ok(_) => Ok((n, buf)),
            Err(e) => Err(e),
        }
    }

    /// Begins to capture output. Returns the identifier of the capture, made of that of the
    /// session and a time in milliseconds, and the file it goes to, which the caller creates.
    pub fn start_capture(&mut self, timestamp_ms: u64) -> (result: Result<
        (String, String),
        PtyError,
    >)
        requires
            old(self).wf(),
        ensures
            final(self).wf(),
            match result {
                Ok((id, path)) => {
                    &&& old(self)@.capture_path is None
                    &&& id@ == old(self)@.id + "-"@ + text::decimal(timestamp_ms as nat)
                    &&& path@ == capture_file(id@)
                    &&& final(self)@ == (SessionView {
                        capture_path: Some(path@),
                        capture_bytes: 0,
                        ..old(self)@
                    })
                },
                Err(e) => {
                    &&& old(self)@.capture_path is Some
                    &&& e == PtyError::CaptureAlreadyActive
                    &&& final(self)@ == old(self)@
                },
            },
    {
        if self.capture_path.is_some() {
            return Err(PtyError::CaptureAlreadyActive);
        }
        let mut capture_id = self.id.clone();
        capture_id.append("-");
        push_decimal(&mut capture_id, timestamp_ms);
        let mut path = "/tmp/tttt-capture-".to_string();
        path.append(capture_id.as_str());
        path.append(".raw");
        self.capture_path = Some(path.clone());
        self.capture_bytes = 0;
        Ok((capture_id, path))
    }

    /// Takes back a capture whose file could not be created, and gives the error that this is.
    pub fn capture_failed(&mut self, reason: String) -> (e: PtyError)
        requires
            old(self).wf(),
        ensures
            final(self).wf(),
            e == PtyError::Io(reason),
            final(self)@ == (SessionView { capture_path: None, capture_bytes: 0, ..old(self)@ }),
    {
        self.capture_path = None;
        self.capture_bytes = 0;
        PtyError::Io(reason)
    }

    /// Ends a capture. Returns the file and the number of bytes captured.
    pub fn stop_capture(&mut self) -> (result: Result<(String, u64), PtyError>)
        requires
            old(self).wf(),
        ensures
            final(self).wf(),
            match result {
                Ok((path, bytes)) => {
                    &&& old(self)@.capture_path == Some(path@)
                    &&& bytes == old(self)@.capture_bytes
                    &&& final(self)@ == (SessionView {
                        capture_path: None,
                        capture_bytes: 0,
                        ..old(self)@
                    })
                },
                Err(e) => {
                    &&& old(self)@.capture_path is None
                    &&& e == PtyError::NoCaptureActive
                    &&& final(self)@ == old(self)@
                },
            },
    {
        match self.capture_path.take() {
            None => Err(PtyError::NoCaptureActive),
            Some(path) => {
                let bytes = self.capture_bytes;
                self.capture_bytes = 0;
                Ok((path, bytes))
            },
        }
    }

    /// Whether output is being captured, and to which file.
    pub fn capture_path(&self) -> (path: &Option<String>)
        ensures
            text::optional_view(*path) == self@.capture_path,
    {
        &self.capture_path
    }

    /// Sends keys, written in key notation.
    pub fn send_keys(&mut self, keys: &str) -> (result: Result<(), PtyError>)
        requires
            old(self).wf(),
            keys::hex_escapes_are_whole(keys.spec_bytes()),
        ensures
            final(self).wf(),
            old(self)@.sent(keys::key_bytes(keys.spec_bytes()), final(self)@, result),
    {
        if self.status != SessionStatus::Running {
            return Err(PtyError::SessionExited);
        }
        self.last_input_time = self.clock;
        let data = process_special_keys(keys);
        self.backend.write(&data)
    }

    /// Sends bytes as they are.
    pub fn send_raw(&mut self, data: &[u8]) -> (result: Result<(), PtyError>)
        requires
            old(self).wf(),
        ensures
            final(self).wf(),
            old(self)@.sent(data@, final(self)@, result),
    {
        if self.status != SessionStatus::Running {
            return Err(PtyError::SessionExited);
        }
        self.last_input_time = self.clock;
        self.backend.write(data)
    }

    /// The plain text of the screen.
    pub fn get_screen(&self) -> (s: String)
        requires
            self.wf(),
        ensures
            s@ == self@.screen.parser.screen.text(),
    {
        self.screen.contents()
    }

    /// The screen with its formatting.
    pub fn get_screen_formatted(&self) -> (bytes: Vec<u8>)
        requires
            self.wf(),
        ensures
            bytes@ == self@.screen.parser.screen.formatted(),
    {
        self.screen.contents_formatted()
    }

    /// What has changed on the screen since the last call.
    pub fn screen_diff(&mut self) -> (bytes: Vec<u8>)
        requires
            old(self).wf(),
        ensures
            final(self).wf(),
            bytes@ == old(self)@.screen.parser.screen.difference(old(self)@.screen.drawn),
            final(self)@ == (SessionView {
                screen: BufferView {
                    drawn: old(self)@.screen.parser.screen,
                    ..old(self)@.screen
                },
                ..old(self)@
            }),
    {
        self.screen.contents_diff()
    }

    /// The cursor as line and column, counted from zero.
    pub fn cursor_position(&self) -> (p: (u16, u16))
        ensures
            p.0 == self@.screen.parser.screen.row,
            p.1 == self@.screen.parser.screen.col,
    {
        self.screen.cursor_position()
    }

    /// Resizes the terminal: first the device, and where that succeeds the screen.
    pub fn resize(&mut self, cols: u16, rows: u16) -> (result: Result<(), PtyError>)
        requires
            old(self).wf(),
        ensures
            final(self).wf(),
            old(self)@.resized_to(cols, rows, final(self)@, result),
    {
        let result = self.backend.resize(cols, rows);
        if result.is_ok() {
            self.screen.resize(cols, rows);
        }
        result
    }

    /// Kills the process.
    pub fn kill(&mut self) -> (result: Result<(), PtyError>)
        requires
            old(self).wf(),
        ensures
            final(self).wf(),
            old(self)@.killed(final(self)@, result),
    {
        let ghost start = self@;
        let result = self.backend.kill();
        let ghost kill = result;
        let ghost mid = self.backend;
        assert(self@ == start.on(mid));
        assert(B::was_killed(start.backend, mid, kill));
        if result.is_err() || self.status != SessionStatus::Running {
            return result;
        }
        let answer = self.update_status();
        assert(start.on(mid).status_checked(self@, answer));
        match answer {
            Ok(_) => Ok(()),
            Err(e) => Err(e),
        }
    }

    /// The name, where the session has one.
    pub fn name(&self) -> (n: &Option<String>)
        ensures
            text::optional_view(*n) == self@.name,
    {
        &self.name
    }

    /// The identifier.
    pub fn id(&self) -> (id: SessionId)
        ensures
            id@ == self@.id,
    {
        self.id.clone()
    }

    /// The status.
    pub fn status(&self) -> (s: &SessionStatus)
        ensures
            *s == self@.status,
    {
        &self.status
    }

    /// What is known about the session.
    pub fn metadata(&self) -> (m: SessionMetadata)
        ensures
            m@ == self@.meta(),
    {
        let (cols, rows) = self.screen.size();
        SessionMetadata {
            id: self.id.clone(),
            command: self.command.clone(),
            status: self.status,
            cols,
            rows,
            name: clone_optional(&self.name),
            created_at: Some(self.created_at),
        }
    }

    /// Feeds bytes to the screen that do not come from the device.
    pub fn inject_screen_data(&mut self, data: &[u8])
        requires
            old(self).wf(),
        ensures
            final(self).wf(),
            final(self)@ == (SessionView {
                screen: BufferView {
                    parser: old(self)@.screen.parser.fed_all(data@),
                    ..old(self)@.screen
                },
                ..old(self)@
            }),
    {
        self.screen.process(data);
    }

    /// The screen buffer.
    pub fn screen(&self) -> (s: &ScreenBuffer)
        ensures
            s@ == self@.screen,
    {
        &self.screen
    }

    /// The device.
    pub fn backend(&self) -> (b: &B)
        ensures
            *b == self@.backend,
    {
        &self.backend
    }

    /// The device, to be changed.
    pub fn backend_mut(&mut self) -> (b: &mut B)
        requires
            old(self).wf(),
        ensures
            *b == old(self)@.backend,
            final(self)@ == old(self)@.on(*final(b)),
    {
        &mut self.backend
    }

    /// The texts of the last `max_lines` lines that have scrolled off, the oldest first.
    pub fn get_scrollback(&self, max_lines: usize) -> (lines: Vec<String>)
        ensures
            lines@.len() == min(
                self@.screen.parser.screen.scrollback.len() as int,
                max_lines as int,
            ),
            forall|i: int|
                0 <= i < lines@.len() ==> (#[trigger] lines@[i])@ == contents::line_text(
                    self@.screen.parser.screen.scrollback[self@.screen.parser.screen.scrollback.len()
                        - lines@.len() + i].cells,
                ),
    {
        self.screen.get_scrollback(max_lines)
    }

    /// Sets the depth of scrollback, with an empty screen.
    pub fn set_scrollback(&mut self, lines: usize)
        requires
            old(self).wf(),
        ensures
            final(self).wf(),
            final(self)@ == old(self)@.with_scrollback(lines),
    {
        self.screen.set_scrollback(lines);
    }

    /// How long the session has produced no output.
    pub fn idle_time(&self, now: Instant) -> (d: Duration)
        ensures
            d.nanos == if now.nanos >= self@.last_output.nanos {
                now.nanos - self@.last_output.nanos
            } else {
                0
            },
    {
        now.duration_since(self.last_output_time)
    }

    /// How long the session has received no input.
    pub fn input_idle_time(&self, now: Instant) -> (d: Duration)
        ensures
            d.nanos == if now.nanos >= self@.last_input.nanos {
                now.nanos - self@.last_input.nanos
            } else {
                0
            },
    {
        now.duration_since(self.last_input_time)
    }

    /// The last line on the screen that is not blank, without white space around it.
    pub fn last_non_empty_line(&self) -> (s: String)
        requires
            self.wf(),
        ensures
            s@ == last_text_line(self@.screen.parser.screen.text()),
    {
        let contents = self.screen.contents();
        let chars = to_chars(contents.as_str());
        last_line(&chars)
    }

    /// Asks the device of a running session for an exit code.
    fn update_status(&mut self) -> (answer: Result<Option<i32>, PtyError>)
        requires
            old(self).wf(),
            old(self)@.status == SessionStatus::Running,
        ensures
            final(self).wf(),
            old(self)@.status_checked(final(self)@, answer),
    {
        let answer = self.backend.try_wait();
        match answer {
            Ok(Some(code)) => {
                self.status = SessionStatus::Exited(code);
            },
            _ => {},
        }
        answer
    }
}

/// The last line of a text that is not blank, without white space around it.
pub fn last_line(s: &[char]) -> (line: String)
    ensures
        line@ == last_text_line(s@),
    decreases s.len(),
{
    let mut n: usize = s.len();
    assert(s@.take(n as int) =~= s@);
    while n > 0 && s[n - 1] != '\n'
        invariant
            n <= s.len(),
            last_newline(s@.take(n as int)) == last_newline(s@),
        decreases n,
    {
        assert(s@.take(n as int).drop_last() =~= s@.take(n - 1));
        n -= 1;
    }
    proof {
        lemma_last_newline(s@);
    }
    let tail = vstd::slice::slice_subrange(s, n, s.len());
    assert(tail@ =~= s@.skip(n as int));
    let trimmed = cut_both(tail);
    if n == 0 {
        assert(s@.skip(0) =~= s@);
        return from_chars(trimmed);
    }
    if trimmed.len() > 0 {
        return from_chars(trimmed);
    }
    let rest = vstd::slice::slice_subrange(s, 0, n - 1);
    assert(rest@ =~= s@.take(n - 1));
    last_line(rest)
}

/// Output may be read in pieces: the screen, and what is counted of a capture, are the same as if it
/// came at once.
pub proof fn law_output_may_come_in_pieces<B: PtyBackend>(s: SessionView<B>, a: Seq<u8>, b: Seq<u8>)
    ensures
        s.with_output(a).with_output(b) == s.with_output(a + b),
{
    if a.len() == 0 {
        assert(a + b =~= b);
    } else if b.len() == 0 {
        assert(a + b =~= a);
    } else {
        parser::law_pieces_make_no_difference(s.screen.parser, a, b);
    }
}

/// A capture counts the bytes that were read since it was started, as far as they can be counted.
pub proof fn law_captures_count_what_is_read<B: PtyBackend>(s: SessionView<B>, path: Seq<char>, data: Seq<u8>)
    ensures
        (SessionView { capture_path: Some(path), capture_bytes: 0, ..s }).with_output(data).capture_bytes
            == add_up(0, data.len()),
{
}

/// A capture that is taken back leaves the session as it was before it began, without one.
pub proof fn law_failed_captures_leave_no_trace<B: PtyBackend>(s: SessionView<B>, path: Seq<char>)
    requires
        s.capture_path is None,
        s.capture_bytes == 0,
    ensures
        ({
            let started = SessionView { capture_path: Some(path), capture_bytes: 0, ..s };
            SessionView { capture_path: None, capture_bytes: 0, ..started } == s
        }),
{
}

/// The last line of a text that is not blank: blank lines behind it are passed over, and white space
/// around it does not count.
pub proof fn law_the_last_line_that_says_something(a: Seq<char>, line: Seq<char>)
    requires
        forall|i: int| 0 <= i < line.len() ==> #[trigger] line[i] != '\n',
    ensures
        text::trim(line).len() > 0 ==> last_text_line(a + seq!['\n'] + line) == text::trim(line),
        text::trim(line).len() == 0 ==> last_text_line(a + seq!['\n'] + line) == last_text_line(a),
        last_text_line(line) == text::trim(line),
{
    let s = a + seq!['\n'] + line;
    lemma_last_newline(s);
    lemma_last_newline(line);
    let i = last_newline(s)->0;
    assert(s[a.len() as int] == '\n');
    assert(i == a.len()) by {
        if i > a.len() {
            assert(s[i] == line[i - a.len() - 1]);
        }
    }
    assert(s.skip(i + 1) =~= line);
    assert(s.take(i) =~= a);
    if let Some(k) = last_newline(line) {
        assert(line[k] == '\n');
    }
}

} // verus!
