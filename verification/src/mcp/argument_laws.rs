//! Where the arguments of a call come from.
use crate::json;
use crate::mcp::arguments::Arguments;
use crate::text;
use vstd::prelude::*;
use vstd::string::*;

verus! {

/// Each argument of a call comes from the member with its name and from no other: two calls whose
/// members of that name are the same have the same argument, whatever else differs.
pub proof fn law_arguments_come_from_their_members(a: Arguments, b: Arguments, x: Seq<u8>, y: Seq<u8>)
    requires
        a.are_of(x),
        b.are_of(y),
    ensures
        json::text_member_of(x, "color"@) == json::text_member_of(y, "color"@) ==> text::optional_view(
            a.color,
        ) == text::optional_view(b.color),
        a.color is Some <==> json::text_member_of(x, "color"@) is Some,
        a.color is Some ==> json::text_member_of(x, "color"@) == Some(a.color->0@),
        json::text_member_of(x, "command"@) == json::text_member_of(y, "command"@) ==> text::optional_view(
            a.command,
        ) == text::optional_view(b.command),
        a.command is Some <==> json::text_member_of(x, "command"@) is Some,
        a.command is Some ==> json::text_member_of(x, "command"@) == Some(a.command->0@),
        json::text_member_of(x, "content"@) == json::text_member_of(y, "content"@) ==> text::optional_view(
            a.content,
        ) == text::optional_view(b.content),
        a.content is Some <==> json::text_member_of(x, "content"@) is Some,
        a.content is Some ==> json::text_member_of(x, "content"@) == Some(a.content->0@),
        json::text_member_of(x, "continuation_prompt"@) == json::text_member_of(y, "continuation_prompt"@) ==> text::optional_view(
            a.continuation_prompt,
        ) == text::optional_view(b.continuation_prompt),
        a.continuation_prompt is Some <==> json::text_member_of(x, "continuation_prompt"@) is Some,
        a.continuation_prompt is Some ==> json::text_member_of(x, "continuation_prompt"@) == Some(a.continuation_prompt->0@),
        json::text_member_of(x, "expression"@) == json::text_member_of(y, "expression"@) ==> text::optional_view(
            a.expression,
        ) == text::optional_view(b.expression),
        a.expression is Some <==> json::text_member_of(x, "expression"@) is Some,
        a.expression is Some ==> json::text_member_of(x, "expression"@) == Some(a.expression->0@),
        json::text_member_of(x, "id"@) == json::text_member_of(y, "id"@) ==> text::optional_view(
            a.id,
        ) == text::optional_view(b.id),
        a.id is Some <==> json::text_member_of(x, "id"@) is Some,
        a.id is Some ==> json::text_member_of(x, "id"@) == Some(a.id->0@),
        json::text_member_of(x, "if_busy"@) == json::text_member_of(y, "if_busy"@) ==> text::optional_view(
            a.if_busy,
        ) == text::optional_view(b.if_busy),
        a.if_busy is Some <==> json::text_member_of(x, "if_busy"@) is Some,
        a.if_busy is Some ==> json::text_member_of(x, "if_busy"@) == Some(a.if_busy->0@),
        json::text_member_of(x, "ignore_pattern"@) == json::text_member_of(y, "ignore_pattern"@) ==> text::optional_view(
            a.ignore_pattern,
        ) == text::optional_view(b.ignore_pattern),
        a.ignore_pattern is Some <==> json::text_member_of(x, "ignore_pattern"@) is Some,
        a.ignore_pattern is Some ==> json::text_member_of(x, "ignore_pattern"@) == Some(a.ignore_pattern->0@),
        json::text_member_of(x, "inject_session_id"@) == json::text_member_of(y, "inject_session_id"@) ==> text::optional_view(
            a.inject_session_id,
        ) == text::optional_view(b.inject_session_id),
        a.inject_session_id is Some <==> json::text_member_of(x, "inject_session_id"@) is Some,
        a.inject_session_id is Some ==> json::text_member_of(x, "inject_session_id"@) == Some(a.inject_session_id->0@),
        json::text_member_of(x, "inject_text"@) == json::text_member_of(y, "inject_text"@) ==> text::optional_view(
            a.inject_text,
        ) == text::optional_view(b.inject_text),
        a.inject_text is Some <==> json::text_member_of(x, "inject_text"@) is Some,
        a.inject_text is Some ==> json::text_member_of(x, "inject_text"@) == Some(a.inject_text->0@),
        json::text_member_of(x, "job_id"@) == json::text_member_of(y, "job_id"@) ==> text::optional_view(
            a.job_id,
        ) == text::optional_view(b.job_id),
        a.job_id is Some <==> json::text_member_of(x, "job_id"@) is Some,
        a.job_id is Some ==> json::text_member_of(x, "job_id"@) == Some(a.job_id->0@),
        json::text_member_of(x, "key"@) == json::text_member_of(y, "key"@) ==> text::optional_view(
            a.key,
        ) == text::optional_view(b.key),
        a.key is Some <==> json::text_member_of(x, "key"@) is Some,
        a.key is Some ==> json::text_member_of(x, "key"@) == Some(a.key->0@),
        json::text_member_of(x, "keys"@) == json::text_member_of(y, "keys"@) ==> text::optional_view(
            a.keys,
        ) == text::optional_view(b.keys),
        a.keys is Some <==> json::text_member_of(x, "keys"@) is Some,
        a.keys is Some ==> json::text_member_of(x, "keys"@) == Some(a.keys->0@),
        json::text_member_of(x, "message"@) == json::text_member_of(y, "message"@) ==> text::optional_view(
            a.message,
        ) == text::optional_view(b.message),
        a.message is Some <==> json::text_member_of(x, "message"@) is Some,
        a.message is Some ==> json::text_member_of(x, "message"@) == Some(a.message->0@),
        json::text_member_of(x, "name"@) == json::text_member_of(y, "name"@) ==> text::optional_view(
            a.name,
        ) == text::optional_view(b.name),
        a.name is Some <==> json::text_member_of(x, "name"@) is Some,
        a.name is Some ==> json::text_member_of(x, "name"@) == Some(a.name->0@),
        json::text_member_of(x, "pattern"@) == json::text_member_of(y, "pattern"@) ==> text::optional_view(
            a.pattern,
        ) == text::optional_view(b.pattern),
        a.pattern is Some <==> json::text_member_of(x, "pattern"@) is Some,
        a.pattern is Some ==> json::text_member_of(x, "pattern"@) == Some(a.pattern->0@),
        json::text_member_of(x, "session_id"@) == json::text_member_of(y, "session_id"@) ==> text::optional_view(
            a.session_id,
        ) == text::optional_view(b.session_id),
        a.session_id is Some <==> json::text_member_of(x, "session_id"@) is Some,
        a.session_id is Some ==> json::text_member_of(x, "session_id"@) == Some(a.session_id->0@),
        json::text_member_of(x, "text"@) == json::text_member_of(y, "text"@) ==> text::optional_view(
            a.text,
        ) == text::optional_view(b.text),
        a.text is Some <==> json::text_member_of(x, "text"@) is Some,
        a.text is Some ==> json::text_member_of(x, "text"@) == Some(a.text->0@),
        json::text_member_of(x, "watch_session_id"@) == json::text_member_of(y, "watch_session_id"@) ==> text::optional_view(
            a.watch_session_id,
        ) == text::optional_view(b.watch_session_id),
        a.watch_session_id is Some <==> json::text_member_of(x, "watch_session_id"@) is Some,
        a.watch_session_id is Some ==> json::text_member_of(x, "watch_session_id"@) == Some(a.watch_session_id->0@),
        json::text_member_of(x, "watcher_id"@) == json::text_member_of(y, "watcher_id"@) ==> text::optional_view(
            a.watcher_id,
        ) == text::optional_view(b.watcher_id),
        a.watcher_id is Some <==> json::text_member_of(x, "watcher_id"@) is Some,
        a.watcher_id is Some ==> json::text_member_of(x, "watcher_id"@) == Some(a.watcher_id->0@),
        json::text_member_of(x, "working_dir"@) == json::text_member_of(y, "working_dir"@) ==> text::optional_view(
            a.working_dir,
        ) == text::optional_view(b.working_dir),
        a.working_dir is Some <==> json::text_member_of(x, "working_dir"@) is Some,
        a.working_dir is Some ==> json::text_member_of(x, "working_dir"@) == Some(a.working_dir->0@),
        a.cols == json::number_member_of(x, "cols"@),
        a.delay_seconds == json::number_member_of(x, "delay_seconds"@),
        a.event_index == json::number_member_of(x, "event_index"@),
        a.height == json::number_member_of(x, "height"@),
        a.lines == json::number_member_of(x, "lines"@),
        a.rows == json::number_member_of(x, "rows"@),
        a.safety_margin_minutes == json::number_member_of(x, "safety_margin_minutes"@),
        a.timeout_ms == json::number_member_of(x, "timeout_ms"@),
        a.timestamp_ms == json::number_member_of(x, "timestamp_ms"@),
        a.width == json::number_member_of(x, "width"@),
        a.x == json::number_member_of(x, "x"@),
        a.y == json::number_member_of(x, "y"@),
        a.append == json::flag_member_of(x, "append"@),
        a.clear == json::flag_member_of(x, "clear"@),
        json::seconds_member_of(x, "idle_seconds"@) == json::seconds_member_of(y, "idle_seconds"@)
            && json::is_negative_member(x, "idle_seconds"@) == json::is_negative_member(y, "idle_seconds"@) ==> a.idle_seconds
            == b.idle_seconds,
        json::seconds_member_of(x, "timeout"@) == json::seconds_member_of(y, "timeout"@)
            && json::is_negative_member(x, "timeout"@) == json::is_negative_member(y, "timeout"@) ==> a.timeout
            == b.timeout,
{
}

} // verus!
