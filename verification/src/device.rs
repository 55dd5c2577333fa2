//! What to do next when a real device is written to or its process is killed.
use vstd::prelude::*;

verus! {

/// How many bytes are written at a time, so that the buffer of the device does not overflow.
pub const CHUNK_SIZE: usize = 512;

/// How often a write is tried that the device is not ready for.
pub const MAX_RETRIES: usize = 100;

/// How writing a chunk turned out.
#[derive(Debug, Clone, Copy, PartialEq, Eq, Structural)]
pub enum WriteEvent {
    /// So many bytes were written.
    Wrote(usize),
    /// The device was not ready.
    NotReady,
    /// The device refused.
    Failed,
}

/// What to do next.
#[derive(Debug, Clone, Copy, PartialEq, Eq, Structural)]
pub enum WriteAction {
    /// Write the bytes from `start` up to `end`.
    Write { start: usize, end: usize },
    /// Wait a little and try the same bytes again.
    Retry { start: usize, end: usize },
    /// Everything is written.
    Done,
    /// Give up because nothing was written.
    WroteNothing,
    /// Give up because the device was not ready for too long.
    TimedOut,
    /// Give up because the device refused.
    Broken,
}

/// How far writing has come.
#[derive(Debug, Clone, Copy, PartialEq, Eq, Structural)]
pub struct WriteProgress {
    pub len: usize,
    pub offset: usize,
    pub retries: usize,
    /// Whether a write of no bytes is an error.
    pub zero_is_error: bool,
}

impl WriteProgress {
    /// No more is written than there is.
    pub open spec fn wf(self) -> bool {
        self.offset <= self.len && self.retries < MAX_RETRIES
    }

    /// The end of the chunk at the offset.
    pub open spec fn chunk_end(self) -> usize {
        if self.len - self.offset > CHUNK_SIZE {
            (self.offset + CHUNK_SIZE) as usize
        } else {
            self.len
        }
    }

    /// What to do at the offset.
    pub open spec fn next(self) -> WriteAction {
        if self.offset < self.len {
            WriteAction::Write { start: self.offset, end: self.chunk_end() }
        } else {
            WriteAction::Done
        }
    }

    /// What follows from how the chunk at the offset turned out.
    pub open spec fn after(self, event: WriteEvent) -> (WriteProgress, WriteAction) {
        match event {
            WriteEvent::Wrote(n) => if n == 0 && self.zero_is_error {
                (self, WriteAction::WroteNothing)
            } else {
                let p = WriteProgress { offset: (self.offset + n) as usize, retries: 0, ..self };
                (p, p.next())
            },
            WriteEvent::NotReady => if self.retries + 1 >= MAX_RETRIES {
                (self, WriteAction::TimedOut)
            } else {
                (
                    WriteProgress { retries: (self.retries + 1) as usize, ..self },
                    WriteAction::Retry { start: self.offset, end: self.chunk_end() },
                )
            },
            WriteEvent::Failed => (self, WriteAction::Broken),
        }
    }

    /// The start of writing `len` bytes, and the first thing to do.
    pub fn start(len: usize, zero_is_error: bool) -> (r: (WriteProgress, WriteAction))
        ensures
            r.0 == (WriteProgress { len, offset: 0, retries: 0, zero_is_error }),
            r.0.wf(),
            r.1 == r.0.next(),
    {
        let p = WriteProgress { len, offset: 0, retries: 0, zero_is_error };
        (p, p.action())
    }

    fn end_of_chunk(&self) -> (end: usize)
        requires
            self.wf(),
        ensures
            end == self.chunk_end(),
    {
        if self.len - self.offset > CHUNK_SIZE {
            self.offset + CHUNK_SIZE
        } else {
            self.len
        }
    }

    fn action(&self) -> (a: WriteAction)
        requires
            self.wf(),
        ensures
            a == self.next(),
    {
        if self.offset < self.len {
            WriteAction::Write { start: self.offset, end: self.end_of_chunk() }
        } else {
            WriteAction::Done
        }
    }

    /// What to do after a write.
    pub fn step(&self, event: WriteEvent) -> (r: (WriteProgress, WriteAction))
        requires
            self.wf(),
            event matches WriteEvent::Wrote(n) ==> n <= self.chunk_end() - self.offset,
        ensures
            r == self.after(event),
            r.0.wf(),
    {
        match event {
            WriteEvent::Wrote(n) => {
                if n == 0 && self.zero_is_error {
                    return (*self, WriteAction::WroteNothing);
                }
                let p = WriteProgress {
                    len: self.len,
                    offset: self.offset + n,
                    retries: 0,
                    zero_is_error: self.zero_is_error,
                };
                (p, p.action())
            },
            WriteEvent::NotReady => {
                if self.retries + 1 >= MAX_RETRIES {
                    return (*self, WriteAction::TimedOut);
                }
                let p = WriteProgress {
                    len: self.len,
                    offset: self.offset,
                    retries: self.retries + 1,
                    zero_is_error: self.zero_is_error,
                };
                (p, WriteAction::Retry { start: self.offset, end: self.end_of_chunk() })
            },
            WriteEvent::Failed => (*self, WriteAction::Broken),
        }
    }
}

/// Writing is done only when everything is written, and each chunk is a small piece at the place
/// where writing has come to.
pub proof fn law_writing_covers_everything(p: WriteProgress, event: WriteEvent)
    requires
        p.wf(),
        event matches WriteEvent::Wrote(n) ==> n <= p.chunk_end() - p.offset,
    ensures
        p.after(event).1 is Done ==> p.after(event).0.offset == p.len,
        p.after(event).1 matches WriteAction::Write { start, end } ==> start == p.after(
            event,
        ).0.offset && start < end <= p.len && end - start <= CHUNK_SIZE,
        p.after(event).1 matches WriteAction::Retry { start, end } ==> start == p.offset && end
            == p.chunk_end(),
{
}

/// How hard a process is killed, step by step.
#[derive(Debug, Clone, Copy, PartialEq, Eq, Structural)]
pub enum KillAction {
    /// Ask it to end.
    Terminate,
    /// Wait a little and look whether it has ended.
    Poll,
    /// End it, and close the device.
    Kill,
    /// Stop, it has ended or never will.
    Stop,
}

/// How long to wait before looking whether the process has ended, in milliseconds.
pub const POLL_MS: u64 = 50;

/// What the steps of killing are: ask, look three times, kill, look ten times, stop.
pub open spec fn kill_plan(step: int) -> KillAction {
    if step == 0 {
        KillAction::Terminate
    } else if 1 <= step <= 3 {
        KillAction::Poll
    } else if step == 4 {
        KillAction::Kill
    } else if 5 <= step <= 14 {
        KillAction::Poll
    } else {
        KillAction::Stop
    }
}

/// What to do at a step of killing. Nothing more, once the process has ended.
pub fn kill_step(step: u8, ended: bool) -> (action: KillAction)
    ensures
        action == if ended {
            KillAction::Stop
        } else {
            kill_plan(step as int)
        },
{
    if ended {
        KillAction::Stop
    } else if step == 0 {
        KillAction::Terminate
    } else if step <= 3 {
        KillAction::Poll
    } else if step == 4 {
        KillAction::Kill
    } else if step <= 14 {
        KillAction::Poll
    } else {
        KillAction::Stop
    }
}

/// The time that killing has waited before a step, in milliseconds.
pub open spec fn waited_before(step: nat) -> nat
    decreases step,
{
    if step == 0 {
        0
    } else {
        waited_before((step - 1) as nat) + if kill_plan(step - 1) == KillAction::Poll {
            POLL_MS as nat
        } else {
            0
        }
    }
}

/// Killing never waits longer than 650 milliseconds, and never blocks for good.
pub proof fn law_killing_is_bounded(step: nat)
    ensures
        waited_before(step) <= 650,
        step >= 15 ==> kill_plan(step as int) == KillAction::Stop,
    decreases step,
{
    if step <= 15 {
        reveal_with_fuel(waited_before, 16);
    } else {
        law_killing_is_bounded((step - 1) as nat);
        assert(kill_plan(step - 1) == KillAction::Stop);
    }
}

/// What asking for a process has shown.
#[derive(Debug, Clone, Copy, PartialEq, Eq, Structural)]
pub enum ChildState {
    /// It has ended, and this is its exit code.
    Exited(i32),
    /// It was ended by a signal.
    Signaled,
    /// It runs.
    Running,
    /// It cannot be asked for; this is whether its terminal is closed.
    Unknown { closed: bool },
}

/// The exit code of a process; none while it runs. A process that cannot be asked for counts as
/// ended well once its terminal is closed.
pub open spec fn code_of(state: ChildState) -> Option<i32> {
    match state {
        ChildState::Exited(code) => Some(code),
        ChildState::Signaled => Some(128),
        ChildState::Running => None,
        ChildState::Unknown { closed } => if closed {
            Some(0)
        } else {
            None
        },
    }
}

/// The exit code of a process; none while it runs.
pub fn exit_code(state: ChildState) -> (code: Option<i32>)
    ensures
        code == code_of(state),
{
    match state {
        ChildState::Exited(code) => Some(code),
        ChildState::Signaled => Some(128),
        ChildState::Running => None,
        ChildState::Unknown { closed } => if closed {
            Some(0)
        } else {
            None
        },
    }
}

/// Which process, or with a minus sign which group of processes, is asked to end: the process
/// where it is known, else the group in the foreground of the terminal.
pub fn kill_target(child: Option<i32>, foreground: Option<i32>) -> (target: Option<i32>)
    requires
        foreground matches Some(group) ==> group > 0,
    ensures
        match (child, foreground) {
            (Some(pid), _) => target == Some(pid),
            (None, Some(group)) => target matches Some(t) && t == -group,
            (None, None) => target is None,
        },
{
    match (child, foreground) {
        (Some(pid), _) => Some(pid),
        (None, Some(group)) => Some(-group),
        (None, None) => None,
    }
}

} // verus!
