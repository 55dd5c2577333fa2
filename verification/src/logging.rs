//! Where events are logged to.
use crate::error::joined;
use crate::event::{LogEvent, LogEventView};
use vstd::prelude::*;
use vstd::string::*;

verus! {

/// Why an event could not be logged.
#[derive(Debug, PartialEq, Eq)]
pub enum LogError {
    /// Reading or writing failed.
    Io(String),
    /// An event could not be written as JSON.
    Json(String),
    /// The database refused.
    Sqlite(String),
}

impl LogError {
    /// The message that the error is shown with.
    pub open spec fn message(&self) -> Seq<char> {
        match *self {
            LogError::Io(e) => "I/O error: "@ + e@,
            LogError::Json(e) => "JSON error: "@ + e@,
            LogError::Sqlite(e) => "SQLite error: "@ + e@,
        }
    }

    /// The error as text.
    pub fn to_string(&self) -> (s: String)
        ensures
            s@ == self.message(),
    {
        match self {
            LogError::Io(e) => joined("I/O error: ", e.as_str()),
            LogError::Json(e) => joined("JSON error: ", e.as_str()),
            LogError::Sqlite(e) => joined("SQLite error: ", e.as_str()),
        }
    }
}

/// Something that takes events.
pub trait LogSink: Sized {
    /// How logging an event may turn out. A sink may leave it open.
    open spec fn logged(before: Self, event: LogEventView, after: Self, result: Result<(), LogError>) -> bool {
        true
    }

    /// How writing out what is buffered may turn out. A sink may leave it open.
    open spec fn flushed(before: Self, after: Self, result: Result<(), LogError>) -> bool {
        true
    }

    /// Logs one event.
    fn log_event(&mut self, event: &LogEvent) -> (result: Result<(), LogError>)
        ensures
            Self::logged(*old(self), event@, *final(self), result),
    ;

    /// Writes out what is buffered.
    fn flush(&mut self) -> (result: Result<(), LogError>)
        ensures
            Self::flushed(*old(self), *final(self), result),
    ;
}

/// The error to report after one more result: the last one that there was.
pub open spec fn last_error_after(last: Option<LogError>, result: Result<(), LogError>) -> Option<
    LogError,
> {
    match result {
        Ok(_) => last,
        Err(e) => Some(e),
    }
}

/// Keeps the last error.
pub fn keep_last_error(last: Option<LogError>, result: Result<(), LogError>) -> (kept: Option<
    LogError,
>)
    ensures
        kept == last_error_after(last, result),
{
    match result {
        Ok(_) => last,
        Err(e) => Some(e),
    }
}

/// The error to report after several results.
pub open spec fn last_error(results: Seq<Result<(), LogError>>) -> Option<LogError>
    decreases results.len(),
{
    if results.len() == 0 {
        None
    } else {
        last_error_after(last_error(results.drop_last()), results.last())
    }
}

/// Whether a result reports the last error of several results, and success where there is none.
pub open spec fn reports(result: Result<(), LogError>, results: Seq<Result<(), LogError>>) -> bool {
    match last_error(results) {
        Some(e) => result == Err::<(), LogError>(e),
        None => result is Ok,
    }
}

/// Every sink was handed an event, each with a result of its own.
pub open spec fn all_logged<S: LogSink>(
    before: Seq<S>,
    event: LogEventView,
    after: Seq<S>,
    results: Seq<Result<(), LogError>>,
) -> bool {
    &&& after.len() == before.len()
    &&& results.len() == before.len()
    &&& forall|i: int|
        0 <= i < before.len() ==> S::logged(before[i], event, #[trigger] after[i], results[i])
}

/// Every sink has written out what was buffered, each with a result of its own.
pub open spec fn all_flushed<S: LogSink>(
    before: Seq<S>,
    after: Seq<S>,
    results: Seq<Result<(), LogError>>,
) -> bool {
    &&& after.len() == before.len()
    &&& results.len() == before.len()
    &&& forall|i: int| 0 <= i < before.len() ==> S::flushed(before[i], #[trigger] after[i], results[i])
}

/// The outcome of the sinks' results.
fn outcome(last: Option<LogError>, results: Ghost<Seq<Result<(), LogError>>>) -> (result: Result<
    (),
    LogError,
>)
    requires
        last == last_error(results@),
    ensures
        reports(result, results@),
{
    match last {
        Some(e) => Err(e),
        None => Ok(()),
    }
}

/// Hands events to several sinks. Where one fails the others still get the event.
pub struct MultiLogger<S: LogSink> {
    sinks: Vec<S>,
}

impl<S: LogSink> View for MultiLogger<S> {
    type V = Seq<S>;

    closed spec fn view(&self) -> Seq<S> {
        self.sinks@
    }
}

impl<S: LogSink> MultiLogger<S> {
    /// A logger without sinks.
    pub fn new() -> (l: Self)
        ensures
            l@ == Seq::<S>::empty(),
    {
        MultiLogger { sinks: Vec::new() }
    }

    /// Adds a sink.
    pub fn add_sink(&mut self, sink: S)
        ensures
            final(self)@ == old(self)@.push(sink),
    {
        self.sinks.push(sink);
    }

    /// The number of sinks.
    pub fn sink_count(&self) -> (n: usize)
        ensures
            n == self@.len(),
    {
        self.sinks.len()
    }
}

impl<S: LogSink> LogSink for MultiLogger<S> {
    /// Every sink is handed the event, and the last error is reported.
    open spec fn logged(
        before: Self,
        event: LogEventView,
        after: Self,
        result: Result<(), LogError>,
    ) -> bool {
        exists|results: Seq<Result<(), LogError>>|
            all_logged(before@, event, after@, results) && #[trigger] reports(result, results)
    }

    /// Every sink writes out what is buffered, and the last error is reported.
    open spec fn flushed(before: Self, after: Self, result: Result<(), LogError>) -> bool {
        exists|results: Seq<Result<(), LogError>>|
            all_flushed(before@, after@, results) && #[trigger] reports(result, results)
    }

    fn log_event(&mut self, event: &LogEvent) -> (result: Result<(), LogError>) {
        let mut last: Option<LogError> = None;
        let ghost start = self.sinks@;
        let ghost mut results: Seq<Result<(), LogError>> = Seq::empty();
        let mut i: usize = 0;
        while i < self.sinks.len()
            invariant
                i <= self.sinks.len(),
                start == old(self).sinks@,
                start.len() == self.sinks.len(),
                results.len() == i,
                last == last_error(results),
                forall|k: int|
                    0 <= k < i ==> S::logged(
                        start[k],
                        event@,
                        #[trigger] self.sinks@[k],
                        results[k],
                    ),
                forall|k: int| i <= k < start.len() ==> #[trigger] self.sinks@[k] == start[k],
            decreases self.sinks.len() - i,
        {
            let ghost before = self.sinks@;
            let result = self.sinks[i].log_event(event);
            proof {
                assert forall|k: int| 0 <= k < before.len() && k != i implies (
                #[trigger] self.sinks@[k]) == before[k] by {}
                let earlier = results;
                results = results.push(result);
                assert(results.drop_last() =~= earlier);
            }
            last = keep_last_error(last, result);
            i += 1;
        }
        assert(all_logged(start, event@, self.sinks@, results));
        outcome(last, Ghost(results))
    }

    fn flush(&mut self) -> (result: Result<(), LogError>) {
        let mut last: Option<LogError> = None;
        let ghost start = self.sinks@;
        let ghost mut results: Seq<Result<(), LogError>> = Seq::empty();
        let mut i: usize = 0;
        while i < self.sinks.len()
            invariant
                i <= self.sinks.len(),
                start == old(self).sinks@,
                start.len() == self.sinks.len(),
                results.len() == i,
                last == last_error(results),
                forall|k: int|
                    0 <= k < i ==> S::flushed(start[k], #[trigger] self.sinks@[k], results[k]),
                forall|k: int| i <= k < start.len() ==> #[trigger] self.sinks@[k] == start[k],
            decreases self.sinks.len() - i,
        {
            let ghost before = self.sinks@;
            let result = self.sinks[i].flush();
            proof {
                assert forall|k: int| 0 <= k < before.len() && k != i implies (
                #[trigger] self.sinks@[k]) == before[k] by {}
                let earlier = results;
                results = results.push(result);
                assert(results.drop_last() =~= earlier);
            }
            last = keep_last_error(last, result);
            i += 1;
        }
        assert(all_flushed(start, self.sinks@, results));
        outcome(last, Ghost(results))
    }
}

/// A call of a logger.
pub enum SinkCall<S: LogSink> {
    AddSink { sink: S },
    LogEvent { event: LogEventView },
    Flush,
}

/// Whether a call leads from some sinks to others.
pub open spec fn leads_to<S: LogSink>(before: Seq<S>, call: SinkCall<S>, after: Seq<S>) -> bool {
    match call {
        SinkCall::AddSink { sink } => after == before.push(sink),
        SinkCall::LogEvent { event } => exists|results: Seq<Result<(), LogError>>|
            #[trigger] all_logged(before, event, after, results),
        SinkCall::Flush => exists|results: Seq<Result<(), LogError>>|
            #[trigger] all_flushed(before, after, results),
    }
}

/// Whether calls lead from each of several states to the next.
pub open spec fn is_run<S: LogSink>(states: Seq<Seq<S>>, calls: Seq<SinkCall<S>>) -> bool {
    &&& states.len() == calls.len() + 1
    &&& forall|i: int|
        0 <= i < calls.len() ==> leads_to(states[i], #[trigger] calls[i], states[i + 1])
}

/// The number of calls that add a sink.
pub open spec fn sinks_added<S: LogSink>(calls: Seq<SinkCall<S>>) -> nat
    decreases calls.len(),
{
    if calls.len() == 0 {
        0
    } else {
        sinks_added(calls.drop_last()) + (if calls.last() is AddSink {
            1nat
        } else {
            0
        })
    }
}

/// There are as many sinks as were added: logging and writing out lose none.
pub proof fn law_sinks_are_counted<S: LogSink>(states: Seq<Seq<S>>, calls: Seq<SinkCall<S>>)
    requires
        is_run(states, calls),
    ensures
        states.last().len() == states[0].len() + sinks_added(calls),
    decreases calls.len(),
{
    if calls.len() > 0 {
        let front = states.drop_last();
        let earlier = calls.drop_last();
        assert forall|i: int| 0 <= i < earlier.len() implies leads_to(
            front[i],
            #[trigger] earlier[i],
            front[i + 1],
        ) by {
            assert(leads_to(states[i], calls[i], states[i + 1]));
        }
        law_sinks_are_counted(front, earlier);
        let n = calls.len() - 1;
        assert(leads_to(states[n], calls[n], states[n + 1]));
    }
}

impl<S: LogSink> Default for MultiLogger<S> {
    fn default() -> (l: Self)
        ensures
            l@ == Seq::<S>::empty(),
    {
        MultiLogger::new()
    }
}

/// The error that is reported is the last one that there was; success is reported only where all
/// succeeded.
pub proof fn law_the_last_error_is_reported(
    result: Result<(), LogError>,
    results: Seq<Result<(), LogError>>,
)
    requires
        reports(result, results),
    ensures
        result is Ok <==> forall|i: int| 0 <= i < results.len() ==> (#[trigger] results[i]) is Ok,
        result is Err ==> exists|i: int|
            0 <= i < results.len() && #[trigger] results[i] == result && forall|j: int|
                i < j < results.len() ==> (#[trigger] results[j]) is Ok,
{
    lemma_last_error(results);
}

proof fn lemma_last_error(results: Seq<Result<(), LogError>>)
    ensures
        match last_error(results) {
            None => forall|i: int| 0 <= i < results.len() ==> (#[trigger] results[i]) is Ok,
            Some(e) => exists|i: int|
                0 <= i < results.len() && #[trigger] results[i] == Err::<(), LogError>(e) && forall|
                    j: int,
                |
                    i < j < results.len() ==> (#[trigger] results[j]) is Ok,
        },
    decreases results.len(),
{
    if results.len() > 0 {
        let front = results.drop_last();
        lemma_last_error(front);
        let n = results.len() - 1;
        assert forall|i: int| 0 <= i < n implies results[i] == front[i] by {}
        if results[n] is Ok {
            if let Some(e) = last_error(front) {
                let i = choose|i: int|
                    0 <= i < front.len() && #[trigger] front[i] == Err::<(), LogError>(e) && forall|
                        j: int,
                    |
                        i < j < front.len() ==> (#[trigger] front[j]) is Ok;
                assert(results[i] == Err::<(), LogError>(e));
                assert forall|j: int| i < j < results.len() implies (#[trigger] results[j]) is Ok by {
                    if j < n {
                        assert(front[j] is Ok);
                    }
                }
            }
        } else {
            assert(results[n] == Err::<(), LogError>(results[n]->Err_0));
        }
    }
}

/// Every sink gets every event, also behind one that fails.
pub proof fn law_every_sink_gets_the_event<S: LogSink>(
    before: Seq<S>,
    event: LogEventView,
    after: Seq<S>,
    results: Seq<Result<(), LogError>>,
    i: int,
)
    requires
        all_logged(before, event, after, results),
        0 <= i < before.len(),
    ensures
        after.len() == before.len(),
        S::logged(before[i], event, after[i], results[i]),
{
}

} // verus!
