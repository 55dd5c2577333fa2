//! The terminal device that a session drives.
use crate::error::PtyError;
use crate::text::push_bytes;
use std::collections::VecDeque;
use vstd::prelude::*;

verus! {

/// A pseudo-terminal with a process behind it. How a device answers is its own affair: each
/// relation says which answers, and which states after them, it may give.
pub trait PtyBackend: Sized {
    /// How writing data may turn out. A device may leave this open, as it may what follows.
    open spec fn wrote(before: Self, data: Seq<u8>, after: Self, result: Result<(), PtyError>) -> bool {
        true
    }

    /// How reading up to `room` bytes may turn out; `data` is what was read.
    open spec fn was_read(
        before: Self,
        room: nat,
        data: Seq<u8>,
        after: Self,
        result: Result<usize, PtyError>,
    ) -> bool {
        true
    }

    /// How resizing may turn out.
    open spec fn resized(
        before: Self,
        cols: u16,
        rows: u16,
        after: Self,
        result: Result<(), PtyError>,
    ) -> bool {
        true
    }

    /// How killing the process may turn out.
    open spec fn was_killed(before: Self, after: Self, result: Result<(), PtyError>) -> bool {
        true
    }

    /// How asking for the exit code may turn out.
    open spec fn waited(before: Self, after: Self, result: Result<Option<i32>, PtyError>) -> bool {
        true
    }

    /// Writes data to the input of the process.
    fn write(&mut self, data: &[u8]) -> (result: Result<(), PtyError>)
        ensures
            Self::wrote(*old(self), data@, *final(self), result),
    ;

    /// Reads available output of the process. Does not wait: returns zero where there is none.
    fn read(&mut self, buf: &mut [u8]) -> (result: Result<usize, PtyError>)
        ensures
            final(buf)@.len() == old(buf)@.len(),
            match result {
                Ok(n) => n <= old(buf)@.len() && Self::was_read(
                    *old(self),
                    old(buf)@.len(),
                    final(buf)@.take(n as int),
                    *final(self),
                    result,
                ),
                Err(_) => Self::was_read(
                    *old(self),
                    old(buf)@.len(),
                    Seq::empty(),
                    *final(self),
                    result,
                ),
            },
    ;

    /// Resizes the window.
    fn resize(&mut self, cols: u16, rows: u16) -> (result: Result<(), PtyError>)
        ensures
            Self::resized(*old(self), cols, rows, *final(self), result),
    ;

    /// Kills the process.
    fn kill(&mut self) -> (result: Result<(), PtyError>)
        ensures
            Self::was_killed(*old(self), *final(self), result),
    ;

    /// The exit code of the process; none while it runs.
    fn try_wait(&mut self) -> (result: Result<Option<i32>, PtyError>)
        ensures
            Self::waited(*old(self), *final(self), result),
    ;

    /// Kills the process, harder and harder. A device that knows no harder way just kills it.
    fn kill_with_escalation(&mut self) -> (result: Result<(), PtyError>)
        default_ensures
            Self::was_killed(*old(self), *final(self), result),
    {
        self.kill()
    }
}

/// A device without a process, for tests.
pub struct MockPty {
    /// What `read` returns.
    pub output_buf: VecDeque<u8>,
    /// What was written.
    pub input_buf: Vec<u8>,
    /// The exit code, once there is one.
    pub exit_code: Option<i32>,
    /// Whether `kill` has been called.
    pub killed: bool,
    /// Whether `kill_with_escalation` has been called.
    pub escalation_killed: bool,
    /// How often `try_wait` was called.
    pub try_wait_calls: usize,
    /// Where set, the process exits when `try_wait` has been called so often, and does not when it
    /// is asked to with `kill_with_escalation`.
    pub exit_after_n_waits: Option<usize>,
    /// The dimensions.
    pub cols: u16,
    pub rows: u16,
}

/// The state of a mock device.
pub struct MockView {
    pub output: Seq<u8>,
    pub input: Seq<u8>,
    pub exit_code: Option<i32>,
    pub killed: bool,
    pub escalation_killed: bool,
    pub try_wait_calls: usize,
    pub exit_after_n_waits: Option<usize>,
    pub cols: u16,
    pub rows: u16,
}

impl View for MockPty {
    type V = MockView;

    open spec fn view(&self) -> MockView {
        MockView {
            output: self.output_buf@,
            input: self.input_buf@,
            exit_code: self.exit_code,
            killed: self.killed,
            escalation_killed: self.escalation_killed,
            try_wait_calls: self.try_wait_calls,
            exit_after_n_waits: self.exit_after_n_waits,
            cols: self.cols,
            rows: self.rows,
        }
    }
}

/// One more, up to the limit.
pub open spec fn count_up(n: usize) -> usize {
    if n == usize::MAX {
        n
    } else {
        (n + 1) as usize
    }
}

impl MockView {
    /// The device after it was asked for the exit code.
    pub open spec fn after_wait(self) -> MockView {
        let calls = count_up(self.try_wait_calls);
        MockView {
            try_wait_calls: calls,
            exit_code: if self.exit_code is None && (self.exit_after_n_waits matches Some(n)
                && calls >= n) {
                Some(137)
            } else {
                self.exit_code
            },
            ..self
        }
    }
}

/// A device with nothing to read.
pub open spec fn new_mock(cols: u16, rows: u16) -> MockView {
    MockView {
        output: Seq::empty(),
        input: Seq::empty(),
        exit_code: None,
        killed: false,
        escalation_killed: false,
        try_wait_calls: 0,
        exit_after_n_waits: None,
        cols,
        rows,
    }
}

impl MockPty {
    /// A device with nothing to read.
    pub fn new(cols: u16, rows: u16) -> (m: Self)
        ensures
            m@ == new_mock(cols, rows),
    {
        MockPty {
            output_buf: VecDeque::new(),
            input_buf: Vec::new(),
            exit_code: None,
            killed: false,
            escalation_killed: false,
            try_wait_calls: 0,
            exit_after_n_waits: None,
            cols,
            rows,
        }
    }

    /// Puts data behind what `read` will return.
    pub fn queue_output(&mut self, data: &[u8])
        ensures
            final(self)@ == (MockView { output: old(self)@.output + data@, ..old(self)@ }),
    {
        let mut i: usize = 0;
        while i < data.len()
            invariant
                i <= data.len(),
                self@ == (MockView {
                    output: old(self)@.output + data@.take(i as int),
                    ..old(self)@
                }),
            decreases data.len() - i,
        {
            self.output_buf.push_back(data[i]);
            i += 1;
            assert(data@.take(i as int) =~= data@.take(i - 1).push(data@[i - 1]));
            assert(self@.output =~= old(self)@.output + data@.take(i as int));
        }
        assert(data@.take(i as int) =~= data@);
    }
}

impl PtyBackend for MockPty {
    open spec fn wrote(
        before: Self,
        data: Seq<u8>,
        after: Self,
        result: Result<(), PtyError>,
    ) -> bool {
        result is Ok && after@ == (MockView { input: before@.input + data, ..before@ })
    }

    open spec fn was_read(
        before: Self,
        room: nat,
        data: Seq<u8>,
        after: Self,
        result: Result<usize, PtyError>,
    ) -> bool {
        let n = if room < before@.output.len() {
            room
        } else {
            before@.output.len()
        };
        &&& result is Ok
        &&& result->Ok_0 == n
        &&& data == before@.output.take(n as int)
        &&& after@ == (MockView { output: before@.output.skip(n as int), ..before@ })
    }

    open spec fn resized(
        before: Self,
        cols: u16,
        rows: u16,
        after: Self,
        result: Result<(), PtyError>,
    ) -> bool {
        result is Ok && after@ == (MockView { cols, rows, ..before@ })
    }

    open spec fn was_killed(before: Self, after: Self, result: Result<(), PtyError>) -> bool {
        result is Ok && after@ == (MockView { killed: true, exit_code: Some(137), ..before@ })
    }

    open spec fn waited(before: Self, after: Self, result: Result<Option<i32>, PtyError>) -> bool {
        result == Ok::<Option<i32>, PtyError>(before@.after_wait().exit_code) && after@
            == before@.after_wait()
    }

    fn write(&mut self, data: &[u8]) -> (result: Result<(), PtyError>) {
        push_bytes(&mut self.input_buf, data);
        Ok(())
    }

    fn read(&mut self, buf: &mut [u8]) -> (result: Result<usize, PtyError>) {
        let len: usize = if buf.len() < self.output_buf.len() {
            buf.len()
        } else {
            self.output_buf.len()
        };
        let ghost start = self@;
        let mut i: usize = 0;
        assert(start.output.skip(0) =~= start.output);
        while i < len
            invariant
                i <= len,
                len <= buf@.len(),
                buf@.len() == old(buf)@.len(),
                len <= start.output.len(),
                self@ == (MockView { output: start.output.skip(i as int), ..start }),
                forall|k: int| 0 <= k < i ==> buf@[k] == start.output[k],
            decreases len - i,
        {
            match self.output_buf.pop_front() {
                Some(b) => {
                    assert(b == start.output[i as int]);
                    buf[i] = b;
                },
                None => {},
            }
            assert(self@.output =~= start.output.skip(i + 1));
            i += 1;
        }
        assert(buf@.take(len as int) =~= start.output.take(len as int));
        Ok(len)
    }

    fn resize(&mut self, cols: u16, rows: u16) -> (result: Result<(), PtyError>) {
        self.cols = cols;
        self.rows = rows;
        Ok(())
    }

    fn kill(&mut self) -> (result: Result<(), PtyError>) {
        self.killed = true;
        self.exit_code = Some(137);
        Ok(())
    }

    fn try_wait(&mut self) -> (result: Result<Option<i32>, PtyError>) {
        if self.try_wait_calls < usize::MAX {
            self.try_wait_calls = self.try_wait_calls + 1;
        }
        match self.exit_after_n_waits {
            Some(n) => {
                if self.try_wait_calls >= n && self.exit_code.is_none() {
                    self.exit_code = Some(137);
                }
            },
            None => {},
        }
        Ok(self.exit_code)
    }

    fn kill_with_escalation(&mut self) -> (result: Result<(), PtyError>)
        ensures
            result is Ok,
            final(self)@ == (MockView {
                escalation_killed: true,
                exit_code: if old(self)@.exit_after_n_waits is None {
                    Some(15)
                } else {
                    old(self)@.exit_code
                },
                ..old(self)@
            }),
    {
        self.escalation_killed = true;
        if self.exit_after_n_waits.is_none() {
            self.exit_code = Some(15);
        }
        Ok(())
    }
}

} // verus!
