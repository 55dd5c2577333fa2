//! The arguments of tool calls.
use crate::json;
use crate::text;
use crate::time::Duration;
use vstd::prelude::*;
use vstd::string::*;

verus! {

/// A number of seconds.
#[derive(Debug, Clone, Copy, PartialEq, Eq, Structural)]
pub enum Seconds {
    /// A span of time.
    Span(Duration),
    /// Less than nothing.
    Negative,
    /// Longer than any span.
    TooLong,
}

/// What a call gives as its arguments. An argument that is missing, or of the wrong type, is none.
#[derive(Debug)]
pub struct Arguments {
    pub append: Option<bool>,
    /// The arguments of a command, without those that are no texts.
    pub args: Vec<String>,
    pub clear: Option<bool>,
    pub color: Option<String>,
    pub cols: Option<u64>,
    pub command: Option<String>,
    pub content: Option<String>,
    pub continuation_prompt: Option<String>,
    pub delay_seconds: Option<u64>,
    pub event_index: Option<u64>,
    pub expression: Option<String>,
    pub height: Option<u64>,
    pub id: Option<String>,
    pub idle_seconds: Option<Seconds>,
    pub if_busy: Option<String>,
    pub ignore_pattern: Option<String>,
    pub inject_session_id: Option<String>,
    pub inject_text: Option<String>,
    pub job_id: Option<String>,
    pub key: Option<String>,
    pub keys: Option<String>,
    pub lines: Option<u64>,
    pub message: Option<String>,
    pub name: Option<String>,
    pub pattern: Option<String>,
    pub rows: Option<u64>,
    pub safety_margin_minutes: Option<u64>,
    pub session_id: Option<String>,
    pub text: Option<String>,
    pub timeout: Option<Seconds>,
    pub timeout_ms: Option<u64>,
    pub timestamp_ms: Option<u64>,
    pub watch_session_id: Option<String>,
    pub watcher_id: Option<String>,
    pub width: Option<u64>,
    pub working_dir: Option<String>,
    pub x: Option<u64>,
    pub y: Option<u64>,
}

/// A number of seconds, given a span of whole seconds and nanoseconds and whether it has a minus
/// sign.
pub open spec fn seconds_of(found: Option<Option<(u64, u32)>>, negative: bool) -> Option<Seconds> {
    match found {
        None => None,
        Some(Some((secs, nanos))) => Some(
            Seconds::Span(Duration { nanos: (secs * 1_000_000_000 + nanos) as u128 }),
        ),
        Some(None) => Some(
            if negative {
                Seconds::Negative
            } else {
                Seconds::TooLong
            },
        ),
    }
}

/// The texts of a list, without what is no text.
pub open spec fn only_texts(items: Seq<Option<Seq<char>>>) -> Seq<Seq<char>>
    decreases items.len(),
{
    if items.len() == 0 {
        Seq::empty()
    } else {
        match items.last() {
            Some(t) => only_texts(items.drop_last()).push(t),
            None => only_texts(items.drop_last()),
        }
    }
}

/// The texts of an optional list; none where there is no list.
pub open spec fn texts_of(items: Option<Seq<Option<Seq<char>>>>) -> Seq<Seq<char>> {
    match items {
        Some(items) => only_texts(items),
        None => Seq::empty(),
    }
}

fn read_seconds(data: &[u8], key: &str) -> (s: Option<Seconds>)
    ensures
        s == seconds_of(
            json::seconds_member_of(data@, key@),
            json::is_negative_member(data@, key@),
        ),
{
    match json::seconds_member(data, key) {
        None => None,
        Some(Some((secs, nanos))) => Some(
            Seconds::Span(Duration { nanos: secs as u128 * 1_000_000_000 + nanos as u128 }),
        ),
        Some(None) => if json::negative_member(data, key) {
            Some(Seconds::Negative)
        } else {
            Some(Seconds::TooLong)
        },
    }
}

fn read_texts(data: &[u8], key: &str) -> (texts: Vec<String>)
    ensures
        json::views(texts@) == texts_of(json::list_member_of(data@, key@)),
{
    let mut texts: Vec<String> = Vec::new();
    assert(json::views(texts@) =~= Seq::empty());
    match json::list_member(data, key) {
        None => {},
        Some(items) => {
            let ghost all = json::optional_views(items@);
            let mut i: usize = 0;
            assert(only_texts(all.take(0)) =~= Seq::empty());
            while i < items.len()
                invariant
                    i <= items.len(),
                    all == json::optional_views(items@),
                    json::views(texts@) == only_texts(all.take(i as int)),
                decreases items.len() - i,
            {
                proof {
                    assert(all.take(i + 1).drop_last() =~= all.take(i as int));
                    assert(all[i as int] == text::optional_view(items@[i as int]));
                }
                let ghost before = json::views(texts@);
                match &items[i] {
                    Some(t) => {
                        texts.push(t.clone());
                        assert(json::views(texts@) =~= before.push(t@));
                    },
                    None => {},
                }
                i += 1;
            }
            assert(all.take(i as int) =~= all);
        },
    }
    texts
}

impl Arguments {
    /// The arguments are those of a JSON object.
    pub open spec fn are_of(&self, data: Seq<u8>) -> bool {
        &&& self.append == json::flag_member_of(data, "append"@)
        &&& json::views(self.args@) == texts_of(json::list_member_of(data, "args"@))
        &&& self.clear == json::flag_member_of(data, "clear"@)
        &&& text::optional_view(self.color) == json::text_member_of(data, "color"@)
        &&& self.cols == json::number_member_of(data, "cols"@)
        &&& text::optional_view(self.command) == json::text_member_of(data, "command"@)
        &&& text::optional_view(self.content) == json::text_member_of(data, "content"@)
        &&& text::optional_view(self.continuation_prompt) == json::text_member_of(data, "continuation_prompt"@)
        &&& self.delay_seconds == json::number_member_of(data, "delay_seconds"@)
        &&& self.event_index == json::number_member_of(data, "event_index"@)
        &&& text::optional_view(self.expression) == json::text_member_of(data, "expression"@)
        &&& self.height == json::number_member_of(data, "height"@)
        &&& text::optional_view(self.id) == json::text_member_of(data, "id"@)
        &&& self.idle_seconds == seconds_of(
            json::seconds_member_of(data, "idle_seconds"@),
            json::is_negative_member(data, "idle_seconds"@),
        )
        &&& text::optional_view(self.if_busy) == json::text_member_of(data, "if_busy"@)
        &&& text::optional_view(self.ignore_pattern) == json::text_member_of(data, "ignore_pattern"@)
        &&& text::optional_view(self.inject_session_id) == json::text_member_of(data, "inject_session_id"@)
        &&& text::optional_view(self.inject_text) == json::text_member_of(data, "inject_text"@)
        &&& text::optional_view(self.job_id) == json::text_member_of(data, "job_id"@)
        &&& text::optional_view(self.key) == json::text_member_of(data, "key"@)
        &&& text::optional_view(self.keys) == json::text_member_of(data, "keys"@)
        &&& self.lines == json::number_member_of(data, "lines"@)
        &&& text::optional_view(self.message) == json::text_member_of(data, "message"@)
        &&& text::optional_view(self.name) == json::text_member_of(data, "name"@)
        &&& text::optional_view(self.pattern) == json::text_member_of(data, "pattern"@)
        &&& self.rows == json::number_member_of(data, "rows"@)
        &&& self.safety_margin_minutes == json::number_member_of(data, "safety_margin_minutes"@)
        &&& text::optional_view(self.session_id) == json::text_member_of(data, "session_id"@)
        &&& text::optional_view(self.text) == json::text_member_of(data, "text"@)
        &&& self.timeout == seconds_of(
            json::seconds_member_of(data, "timeout"@),
            json::is_negative_member(data, "timeout"@),
        )
        &&& self.timeout_ms == json::number_member_of(data, "timeout_ms"@)
        &&& self.timestamp_ms == json::number_member_of(data, "timestamp_ms"@)
        &&& text::optional_view(self.watch_session_id) == json::text_member_of(data, "watch_session_id"@)
        &&& text::optional_view(self.watcher_id) == json::text_member_of(data, "watcher_id"@)
        &&& self.width == json::number_member_of(data, "width"@)
        &&& text::optional_view(self.working_dir) == json::text_member_of(data, "working_dir"@)
        &&& self.x == json::number_member_of(data, "x"@)
        &&& self.y == json::number_member_of(data, "y"@)
    }

    /// No arguments at all.
    pub fn none() -> (a: Arguments)
        ensures
            a.are_none(),
    {
        Arguments {
            append: None,
            args: Vec::new(),
            clear: None,
            color: None,
            cols: None,
            command: None,
            content: None,
            continuation_prompt: None,
            delay_seconds: None,
            event_index: None,
            expression: None,
            height: None,
            id: None,
            idle_seconds: None,
            if_busy: None,
            ignore_pattern: None,
            inject_session_id: None,
            inject_text: None,
            job_id: None,
            key: None,
            keys: None,
            lines: None,
            message: None,
            name: None,
            pattern: None,
            rows: None,
            safety_margin_minutes: None,
            session_id: None,
            text: None,
            timeout: None,
            timeout_ms: None,
            timestamp_ms: None,
            watch_session_id: None,
            watcher_id: None,
            width: None,
            working_dir: None,
            x: None,
            y: None,
        }
    }

    /// Every argument is missing.
    pub open spec fn are_none(&self) -> bool {
        &&& self.append is None
        &&& self.args@.len() == 0
        &&& self.clear is None
        &&& self.color is None
        &&& self.cols is None
        &&& self.command is None
        &&& self.content is None
        &&& self.continuation_prompt is None
        &&& self.delay_seconds is None
        &&& self.event_index is None
        &&& self.expression is None
        &&& self.height is None
        &&& self.id is None
        &&& self.idle_seconds is None
        &&& self.if_busy is None
        &&& self.ignore_pattern is None
        &&& self.inject_session_id is None
        &&& self.inject_text is None
        &&& self.job_id is None
        &&& self.key is None
        &&& self.keys is None
        &&& self.lines is None
        &&& self.message is None
        &&& self.name is None
        &&& self.pattern is None
        &&& self.rows is None
        &&& self.safety_margin_minutes is None
        &&& self.session_id is None
        &&& self.text is None
        &&& self.timeout is None
        &&& self.timeout_ms is None
        &&& self.timestamp_ms is None
        &&& self.watch_session_id is None
        &&& self.watcher_id is None
        &&& self.width is None
        &&& self.working_dir is None
        &&& self.x is None
        &&& self.y is None
    }

    /// Reads the arguments from a JSON object.
    pub fn read(data: &[u8]) -> (a: Arguments)
        ensures
            a.are_of(data@),
    {
        Arguments {
            append: json::flag_member(data, "append"),
            args: read_texts(data, "args"),
            clear: json::flag_member(data, "clear"),
            color: json::text_member(data, "color"),
            cols: json::number_member(data, "cols"),
            command: json::text_member(data, "command"),
            content: json::text_member(data, "content"),
            continuation_prompt: json::text_member(data, "continuation_prompt"),
            delay_seconds: json::number_member(data, "delay_seconds"),
            event_index: json::number_member(data, "event_index"),
            expression: json::text_member(data, "expression"),
            height: json::number_member(data, "height"),
            id: json::text_member(data, "id"),
            idle_seconds: read_seconds(data, "idle_seconds"),
            if_busy: json::text_member(data, "if_busy"),
            ignore_pattern: json::text_member(data, "ignore_pattern"),
            inject_session_id: json::text_member(data, "inject_session_id"),
            inject_text: json::text_member(data, "inject_text"),
            job_id: json::text_member(data, "job_id"),
            key: json::text_member(data, "key"),
            keys: json::text_member(data, "keys"),
            lines: json::number_member(data, "lines"),
            message: json::text_member(data, "message"),
            name: json::text_member(data, "name"),
            pattern: json::text_member(data, "pattern"),
            rows: json::number_member(data, "rows"),
            safety_margin_minutes: json::number_member(data, "safety_margin_minutes"),
            session_id: json::text_member(data, "session_id"),
            text: json::text_member(data, "text"),
            timeout: read_seconds(data, "timeout"),
            timeout_ms: json::number_member(data, "timeout_ms"),
            timestamp_ms: json::number_member(data, "timestamp_ms"),
            watch_session_id: json::text_member(data, "watch_session_id"),
            watcher_id: json::text_member(data, "watcher_id"),
            width: json::number_member(data, "width"),
            working_dir: json::text_member(data, "working_dir"),
            x: json::number_member(data, "x"),
            y: json::number_member(data, "y"),
        }
    }
}

} // verus!
