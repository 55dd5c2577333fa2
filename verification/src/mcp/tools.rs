//! What the tools are called, what they do and which arguments they take.
use crate::json;
use crate::json::{entry, list, object, Member};
use vstd::prelude::*;
use vstd::string::*;

verus! {

/// The type of an argument.
#[derive(Debug, Clone, Copy, PartialEq, Eq, Structural)]
pub enum Kind {
    Text,
    Integer,
    Number,
    Flag,
    /// A list of texts.
    Texts,
}

/// An argument of a tool.
#[derive(Debug)]
pub struct Property {
    pub name: &'static str,
    pub kind: Kind,
    pub description: &'static str,
    /// The values that the argument may have; any where there are none.
    pub choices: Vec<&'static str>,
}

/// A tool: its name, what it does, its arguments in the order of their names, and those that must
/// not be missing.
#[derive(Debug)]
pub struct ToolDefinition {
    pub name: &'static str,
    pub description: &'static str,
    pub properties: Vec<Property>,
    pub required: Vec<&'static str>,
}

/// An argument of a tool, as a mathematical value.
pub struct PropertyView {
    pub name: Seq<char>,
    pub kind: Kind,
    pub description: Seq<char>,
    pub choices: Seq<Seq<char>>,
}

/// A tool, as a mathematical value.
pub struct ToolView {
    pub name: Seq<char>,
    pub description: Seq<char>,
    pub properties: Seq<PropertyView>,
    pub required: Seq<Seq<char>>,
}

/// The views of a list of texts.
pub open spec fn text_views(v: Seq<&'static str>) -> Seq<Seq<char>> {
    v.map_values(|s: &'static str| s@)
}

impl View for Property {
    type V = PropertyView;

    open spec fn view(&self) -> PropertyView {
        PropertyView {
            name: self.name@,
            kind: self.kind,
            description: self.description@,
            choices: text_views(self.choices@),
        }
    }
}

/// The views of a list of arguments.
pub open spec fn property_views(v: Seq<Property>) -> Seq<PropertyView> {
    v.map_values(|p: Property| p@)
}

impl View for ToolDefinition {
    type V = ToolView;

    open spec fn view(&self) -> ToolView {
        ToolView {
            name: self.name@,
            description: self.description@,
            properties: property_views(self.properties@),
            required: text_views(self.required@),
        }
    }
}

/// The views of a list of tools.
pub open spec fn tool_views(v: Seq<ToolDefinition>) -> Seq<ToolView> {
    v.map_values(|t: ToolDefinition| t@)
}

/// The name of a type in a schema.
pub open spec fn kind_name(kind: Kind) -> Seq<char> {
    match kind {
        Kind::Text => "string"@,
        Kind::Integer => "integer"@,
        Kind::Number => "number"@,
        Kind::Flag => "boolean"@,
        Kind::Texts => "array"@,
    }
}

/// Texts as JSON strings.
pub open spec fn string_texts(v: Seq<Seq<char>>) -> Seq<Seq<char>> {
    v.map_values(|s: Seq<char>| json::string_text(s))
}

/// A list with one more item on a condition.
pub open spec fn with_if(members: Seq<json::MemberView>, condition: bool, m: json::MemberView) -> Seq<
    json::MemberView,
> {
    if condition {
        members.push(m)
    } else {
        members
    }
}

impl PropertyView {
    /// The argument in the schema of its tool. The members stand in the order of their names.
    pub open spec fn json(self) -> Seq<char> {
        let first = seq![("description"@, json::string_text(self.description))];
        let second = with_if(
            first,
            self.choices.len() > 0,
            ("enum"@, json::list_text(string_texts(self.choices))),
        );
        let third = with_if(
            second,
            self.kind == Kind::Texts,
            ("items"@, json::object_text(seq![("type"@, json::string_text("string"@))])),
        );
        json::object_text(third.push(("type"@, json::string_text(kind_name(self.kind)))))
    }
}

impl ToolView {
    /// The tool with one more argument.
    pub open spec fn with(self, name: Seq<char>, kind: Kind, description: Seq<char>) -> ToolView {
        ToolView {
            properties: self.properties.push(
                PropertyView { name, kind, description, choices: Seq::empty() },
            ),
            ..self
        }
    }

    /// The tool with a text as one more argument, which has one of certain values.
    pub open spec fn with_choices(
        self,
        name: Seq<char>,
        description: Seq<char>,
        choices: Seq<Seq<char>>,
    ) -> ToolView {
        ToolView {
            properties: self.properties.push(
                PropertyView { name, kind: Kind::Text, description, choices },
            ),
            ..self
        }
    }

    /// The tool with one more argument that must not be missing.
    pub open spec fn requiring(self, name: Seq<char>) -> ToolView {
        ToolView { required: self.required.push(name), ..self }
    }

    /// The arguments in the schema of the tool.
    pub open spec fn property_members(self) -> Seq<json::MemberView> {
        self.properties.map_values(|p: PropertyView| (p.name, p.json()))
    }

    /// The schema of the arguments.
    pub open spec fn schema(self) -> Seq<char> {
        let first = seq![("properties"@, json::object_text(self.property_members()))];
        let second = with_if(
            first,
            self.required.len() > 0,
            ("required"@, json::list_text(string_texts(self.required))),
        );
        json::object_text(second.push(("type"@, json::string_text("object"@))))
    }

    /// The definition of the tool, as it is written.
    pub open spec fn json(self) -> Seq<char> {
        json::object_text(
            seq![
                ("description"@, json::string_text(self.description)),
                ("inputSchema"@, self.schema()),
                ("name"@, json::string_text(self.name)),
            ],
        )
    }
}

/// A tool without arguments.
pub open spec fn bare_tool(name: Seq<char>, description: Seq<char>) -> ToolView {
    ToolView { name, description, properties: Seq::empty(), required: Seq::empty() }
}

/// The definitions of tools, as they are written.
pub open spec fn definition_texts(tools: Seq<ToolView>) -> Seq<Seq<char>> {
    tools.map_values(|t: ToolView| t.json())
}

/// Whether there is a tool of a name.
pub open spec fn has_tool(tools: Seq<ToolView>, name: Seq<char>) -> bool {
    exists|i: int| 0 <= i < tools.len() && (#[trigger] tools[i]).name == name
}

fn kind_text(kind: Kind) -> (s: &'static str)
    ensures
        s@ == kind_name(kind),
{
    match kind {
        Kind::Text => "string",
        Kind::Integer => "integer",
        Kind::Number => "number",
        Kind::Flag => "boolean",
        Kind::Texts => "array",
    }
}

fn string_list(texts: &[&'static str]) -> (s: String)
    ensures
        s@ == json::list_text(string_texts(text_views(texts@))),
{
    let mut items: Vec<String> = Vec::new();
    let mut i: usize = 0;
    while i < texts.len()
        invariant
            i <= texts.len(),
            items.len() == i,
            forall|k: int| 0 <= k < i ==> (#[trigger] items@[k])@ == json::string_text(texts@[k]@),
        decreases texts.len() - i,
    {
        items.push(json::string(texts[i]));
        i += 1;
    }
    assert(json::views(items@) =~= string_texts(text_views(texts@)));
    list(&items)
}

impl Property {
    /// The argument in the schema of its tool.
    pub fn to_json(&self) -> (s: String)
        ensures
            s@ == self@.json(),
    {
        let mut members: Vec<Member> = vec![entry("description", json::string(self.description))];
        let ghost first = seq![("description"@, json::string_text(self@.description))];
        assert(json::member_views(members@) =~= first);
        if self.choices.len() > 0 {
            members.push(entry("enum", string_list(&self.choices)));
        }
        let ghost second = with_if(
            first,
            self@.choices.len() > 0,
            ("enum"@, json::list_text(string_texts(self@.choices))),
        );
        assert(json::member_views(members@) =~= second);
        if self.kind == Kind::Texts {
            let item: Vec<Member> = vec![entry("type", json::string("string"))];
            assert(json::member_views(item@) =~= seq![("type"@, json::string_text("string"@))]);
            members.push(entry("items", object(&item)));
        }
        let ghost third = with_if(
            second,
            self@.kind == Kind::Texts,
            ("items"@, json::object_text(seq![("type"@, json::string_text("string"@))])),
        );
        assert(json::member_views(members@) =~= third);
        members.push(entry("type", json::string(kind_text(self.kind))));
        assert(json::member_views(members@) =~= third.push(
            ("type"@, json::string_text(kind_name(self@.kind))),
        ));
        object(&members)
    }
}

impl ToolDefinition {
    /// A tool without arguments.
    pub fn new(name: &'static str, description: &'static str) -> (t: Self)
        ensures
            t@ == bare_tool(name@, description@),
    {
        let t = ToolDefinition { name, description, properties: Vec::new(), required: Vec::new() };
        assert(t@.properties =~= Seq::empty());
        assert(t@.required =~= Seq::empty());
        t
    }

    /// The tool with one more argument.
    pub fn with(self, name: &'static str, kind: Kind, description: &'static str) -> (t: Self)
        ensures
            t@ == self@.with(name@, kind, description@),
    {
        let mut t = self;
        let ghost before = t@.properties;
        let p = Property { name, kind, description, choices: Vec::new() };
        assert(p@.choices =~= Seq::empty());
        t.properties.push(p);
        assert(t@.properties =~= before.push(p@));
        t
    }

    /// The tool with a text as one more argument, which has one of certain values.
    pub fn with_choices(
        self,
        name: &'static str,
        description: &'static str,
        choices: Vec<&'static str>,
    ) -> (t: Self)
        ensures
            t@ == self@.with_choices(name@, description@, text_views(choices@)),
    {
        let mut t = self;
        let ghost before = t@.properties;
        let p = Property { name, kind: Kind::Text, description, choices };
        t.properties.push(p);
        assert(t@.properties =~= before.push(p@));
        t
    }

    /// The tool with one more argument that must not be missing.
    pub fn requiring(self, name: &'static str) -> (t: Self)
        ensures
            t@ == self@.requiring(name@),
    {
        let mut t = self;
        let ghost before = t@.required;
        t.required.push(name);
        assert(t@.required =~= before.push(name@));
        t
    }

    fn schema(&self) -> (s: String)
        ensures
            s@ == self@.schema(),
    {
        let mut properties: Vec<Member> = Vec::new();
        let mut i: usize = 0;
        while i < self.properties.len()
            invariant
                i <= self.properties.len(),
                properties.len() == i,
                forall|k: int|
                    0 <= k < i ==> (#[trigger] properties@[k])@ == (
                        self.properties@[k]@.name,
                        self.properties@[k]@.json(),
                    ),
            decreases self.properties.len() - i,
        {
            properties.push(entry(self.properties[i].name, self.properties[i].to_json()));
            i += 1;
        }
        assert(json::member_views(properties@) =~= self@.property_members());
        let mut members: Vec<Member> = vec![entry("properties", object(&properties))];
        let ghost first = seq![("properties"@, json::object_text(self@.property_members()))];
        assert(json::member_views(members@) =~= first);
        if self.required.len() > 0 {
            members.push(entry("required", string_list(&self.required)));
        }
        let ghost second = with_if(
            first,
            self@.required.len() > 0,
            ("required"@, json::list_text(string_texts(self@.required))),
        );
        assert(json::member_views(members@) =~= second);
        members.push(entry("type", json::string("object")));
        assert(json::member_views(members@) =~= second.push(
            ("type"@, json::string_text("object"@)),
        ));
        object(&members)
    }

    /// The definition of the tool, as it is written.
    pub fn to_json(&self) -> (s: String)
        ensures
            s@ == self@.json(),
    {
        let members: Vec<Member> = vec![
            entry("description", json::string(self.description)),
            entry("inputSchema", self.schema()),
            entry("name", json::string(self.name)),
        ];
        assert(json::member_views(members@) =~= seq![
            ("description"@, json::string_text(self@.description)),
            ("inputSchema"@, self@.schema()),
            ("name"@, json::string_text(self@.name)),
        ]);
        object(&members)
    }
}

/// The definitions of tools, as they are written: an array.
pub fn definitions_json(tools: &[ToolDefinition]) -> (s: String)
    ensures
        s@ == json::list_text(definition_texts(tool_views(tools@))),
{
    let mut items: Vec<String> = Vec::new();
    let mut i: usize = 0;
    while i < tools.len()
        invariant
            i <= tools.len(),
            items.len() == i,
            forall|k: int| 0 <= k < i ==> (#[trigger] items@[k])@ == tools@[k]@.json(),
        decreases tools.len() - i,
    {
        items.push(tools[i].to_json());
        i += 1;
    }
    assert(json::views(items@) =~= definition_texts(tool_views(tools@)));
    list(&items)
}

/// The tool `tttt_pty_launch`.
pub open spec fn pty_launch_tool() -> ToolView {
    bare_tool(
        "tttt_pty_launch"@,
        "Launch a new terminal session"@,
    ).with(
        "args"@,
        Kind::Texts,
        "Command arguments"@,
    ).with(
        "cols"@,
        Kind::Integer,
        "Terminal width (default: 80)"@,
    ).with(
        "command"@,
        Kind::Text,
        "Command to run (default: shell)"@,
    ).with(
        "name"@,
        Kind::Text,
        "Optional unique name for the session (can be used instead of session_id in other tools)"@,
    ).with(
        "rows"@,
        Kind::Integer,
        "Terminal height (default: 24)"@,
    ).with_choices(
        "sandbox_profile"@,
        "Sandbox profile: 'none', 'read_only_worktree', 'read_write_worktree', 'own_worktree'"@,
        seq!["none"@, "read_only_worktree"@, "read_write_worktree"@, "own_worktree"@],
    ).with(
        "working_dir"@,
        Kind::Text,
        "Working directory"@,
    )
}

/// The tool `tttt_pty_send_keys`.
pub open spec fn pty_send_keys_tool() -> ToolView {
    bare_tool(
        "tttt_pty_send_keys"@,
        "Send keystrokes to a terminal session. Keys are sent as-is. Use [ENTER] to submit. IMPORTANT: When sending multi-line text to a coding agent or similar TUI apps, send the text and [ENTER] as TWO SEPARATE calls — the app buffers pasted multi-line text and needs a separate Enter to submit it."@,
    ).with(
        "keys"@,
        Kind::Text,
        "Keys to send (supports [UP], [ENTER], [CTRL+C], ^C, etc.)"@,
    ).with(
        "session_id"@,
        Kind::Text,
        "Target session ID"@,
    ).requiring("session_id"@).requiring("keys"@)
}

/// The tool `tttt_pty_get_screen`.
pub open spec fn pty_get_screen_tool() -> ToolView {
    bare_tool(
        "tttt_pty_get_screen"@,
        "Get the current screen contents of a terminal session"@,
    ).with(
        "session_id"@,
        Kind::Text,
        "Target session ID"@,
    ).requiring("session_id"@)
}

/// The tool `tttt_pty_list`.
pub open spec fn pty_list_tool() -> ToolView {
    bare_tool(
        "tttt_pty_list"@,
        "List all terminal sessions"@,
    )
}

/// The tool `tttt_pty_kill`.
pub open spec fn pty_kill_tool() -> ToolView {
    bare_tool(
        "tttt_pty_kill"@,
        "Kill a terminal session"@,
    ).with(
        "session_id"@,
        Kind::Text,
        "Session to kill"@,
    ).requiring("session_id"@)
}

/// The tool `tttt_pty_get_cursor`.
pub open spec fn pty_get_cursor_tool() -> ToolView {
    bare_tool(
        "tttt_pty_get_cursor"@,
        "Get the cursor position in a terminal session"@,
    ).with(
        "session_id"@,
        Kind::Text,
        "Target session ID"@,
    ).requiring("session_id"@)
}

/// The tool `tttt_pty_resize`.
pub open spec fn pty_resize_tool() -> ToolView {
    bare_tool(
        "tttt_pty_resize"@,
        "Resize a terminal session"@,
    ).with(
        "cols"@,
        Kind::Integer,
        "New width"@,
    ).with(
        "rows"@,
        Kind::Integer,
        "New height"@,
    ).with(
        "session_id"@,
        Kind::Text,
        "Target session ID"@,
    ).requiring("session_id"@).requiring("cols"@).requiring("rows"@)
}

/// The tool `tttt_pty_set_scrollback`.
pub open spec fn pty_set_scrollback_tool() -> ToolView {
    bare_tool(
        "tttt_pty_set_scrollback"@,
        "Set the scrollback buffer size for a terminal session"@,
    ).with(
        "lines"@,
        Kind::Integer,
        "Scrollback buffer size in lines"@,
    ).with(
        "session_id"@,
        Kind::Text,
        "Target session ID"@,
    ).requiring("session_id"@).requiring("lines"@)
}

/// The tool `tttt_pty_get_scrollback`.
pub open spec fn pty_get_scrollback_tool() -> ToolView {
    bare_tool(
        "tttt_pty_get_scrollback"@,
        "Get scrollback buffer contents (text that has scrolled off the visible screen)"@,
    ).with(
        "lines"@,
        Kind::Integer,
        "Max lines to return (default: 100)"@,
    ).with(
        "session_id"@,
        Kind::Text,
        "Target session ID"@,
    ).requiring("session_id"@)
}

/// The tool `tttt_pty_wait_for`.
pub open spec fn pty_wait_for_tool() -> ToolView {
    bare_tool(
        "tttt_pty_wait_for"@,
        "Block until a regex pattern appears in the session's screen content, or timeout"@,
    ).with(
        "pattern"@,
        Kind::Text,
        "Regex pattern to match against screen content"@,
    ).with(
        "session_id"@,
        Kind::Text,
        "Target session ID"@,
    ).with(
        "timeout_ms"@,
        Kind::Integer,
        "Timeout in milliseconds (default: 30000)"@,
    ).requiring("session_id"@).requiring("pattern"@)
}

/// The tool `tttt_pty_wait_for_idle`.
pub open spec fn pty_wait_for_idle_tool() -> ToolView {
    bare_tool(
        "tttt_pty_wait_for_idle"@,
        "Block until a session has produced no output for idle_seconds, or timeout expires. Returns status 'idle' or 'timeout'. If ignore_pattern is provided, idle is detected by screen content hash (excluding text matching the pattern) rather than raw output silence — useful when timestamps or other noise keep updating."@,
    ).with(
        "idle_seconds"@,
        Kind::Number,
        "Seconds of silence to consider idle (default: 10)"@,
    ).with(
        "ignore_pattern"@,
        Kind::Text,
        "Optional regex: text matching this pattern is stripped before idle detection (e.g. '\\\\d{2}:\\\\d{2}:\\\\d{2}' to ignore HH:MM:SS timestamps)"@,
    ).with(
        "session_id"@,
        Kind::Text,
        "Target session ID"@,
    ).with(
        "timeout"@,
        Kind::Number,
        "Max seconds to wait before returning timeout (default: 300)"@,
    ).requiring("session_id"@)
}

/// The tool `tttt_pty_start_capture`.
pub open spec fn pty_start_capture_tool() -> ToolView {
    bare_tool(
        "tttt_pty_start_capture"@,
        "Begin capturing raw PTY output (including ANSI sequences) to a temp file. Only one capture per session at a time."@,
    ).with(
        "session_id"@,
        Kind::Text,
        "Target session ID"@,
    ).requiring("session_id"@)
}

/// The tool `tttt_pty_stop_capture`.
pub open spec fn pty_stop_capture_tool() -> ToolView {
    bare_tool(
        "tttt_pty_stop_capture"@,
        "Stop capturing raw PTY output. Returns the file path and number of bytes written."@,
    ).with(
        "session_id"@,
        Kind::Text,
        "Target session ID"@,
    ).requiring("session_id"@)
}

/// The tool `tttt_pty_handle_rate_limit`.
pub open spec fn pty_handle_rate_limit_tool() -> ToolView {
    bare_tool(
        "tttt_pty_handle_rate_limit"@,
        "Detect a coding agent rate limit dialog, wait until the limit resets, then auto-continue. Blocks until the session is resumed."@,
    ).with(
        "continuation_prompt"@,
        Kind::Text,
        "Text to inject after resuming (default: 'Continue from where you left off.')"@,
    ).with(
        "safety_margin_minutes"@,
        Kind::Number,
        "Extra minutes to wait after reset time (default: 15)"@,
    ).with(
        "session_id"@,
        Kind::Text,
        "Session to check and handle"@,
    ).requiring("session_id"@)
}

/// The tool `tttt_get_status`.
pub open spec fn get_status_tool() -> ToolView {
    bare_tool(
        "tttt_get_status"@,
        "Get a dashboard summary of all sessions and system state. Returns session list with last output line and idle time, plus counts of pending reminders and active watchers."@,
    )
}

/// The tools for terminal sessions.
pub open spec fn pty_tools() -> Seq<ToolView> {
    seq![
        pty_launch_tool(),
        pty_send_keys_tool(),
        pty_get_screen_tool(),
        pty_list_tool(),
        pty_kill_tool(),
        pty_get_cursor_tool(),
        pty_resize_tool(),
        pty_set_scrollback_tool(),
        pty_get_scrollback_tool(),
        pty_wait_for_tool(),
        pty_wait_for_idle_tool(),
        pty_start_capture_tool(),
        pty_stop_capture_tool(),
        pty_handle_rate_limit_tool(),
        get_status_tool(),
    ]
}

/// The tool `tttt_sidebar_message`.
pub open spec fn sidebar_message_tool() -> ToolView {
    bare_tool(
        "tttt_sidebar_message"@,
        "Display a message in the tttt sidebar REMINDERS section. Messages persist until cleared. Maximum 10 messages (oldest dropped when full)."@,
    ).with(
        "clear"@,
        Kind::Flag,
        "If true, clear all sidebar messages (message param ignored)"@,
    ).with(
        "message"@,
        Kind::Text,
        "Message to display in the sidebar"@,
    )
}

/// The tool `tttt_sidebar_list`.
pub open spec fn sidebar_list_tool() -> ToolView {
    bare_tool(
        "tttt_sidebar_list"@,
        "Return the current sidebar messages as a JSON array."@,
    )
}

/// The tools for messages in the sidebar.
pub open spec fn sidebar_tools() -> Seq<ToolView> {
    seq![
        sidebar_message_tool(),
        sidebar_list_tool(),
    ]
}

/// The tool `tttt_reminder_set`.
pub open spec fn reminder_set_tool() -> ToolView {
    bare_tool(
        "tttt_reminder_set"@,
        "Set a one-shot reminder that will be injected at a future time"@,
    ).with(
        "delay_seconds"@,
        Kind::Integer,
        "Seconds from now"@,
    ).with(
        "message"@,
        Kind::Text,
        "Reminder message"@,
    ).requiring("message"@).requiring("delay_seconds"@)
}

/// The tool `tttt_cron_create`.
pub open spec fn cron_create_tool() -> ToolView {
    bare_tool(
        "tttt_cron_create"@,
        "Create a recurring cron job"@,
    ).with(
        "command"@,
        Kind::Text,
        "Command or message to execute/inject"@,
    ).with(
        "expression"@,
        Kind::Text,
        "Cron expression (e.g., '*/5 * * * *')"@,
    ).with(
        "session_id"@,
        Kind::Text,
        "Optional target session"@,
    ).requiring("expression"@).requiring("command"@)
}

/// The tool `tttt_cron_list`.
pub open spec fn cron_list_tool() -> ToolView {
    bare_tool(
        "tttt_cron_list"@,
        "List all cron jobs"@,
    )
}

/// The tool `tttt_cron_delete`.
pub open spec fn cron_delete_tool() -> ToolView {
    bare_tool(
        "tttt_cron_delete"@,
        "Delete a cron job"@,
    ).with(
        "job_id"@,
        Kind::Text,
        "ID of the cron job to delete"@,
    ).requiring("job_id"@)
}

/// The tools for reminders and recurring jobs.
pub open spec fn scheduler_tools() -> Seq<ToolView> {
    seq![
        reminder_set_tool(),
        cron_create_tool(),
        cron_list_tool(),
        cron_delete_tool(),
    ]
}

/// The tool `tttt_notify_on_prompt`.
pub open spec fn notify_on_prompt_tool() -> ToolView {
    bare_tool(
        "tttt_notify_on_prompt"@,
        "Register a one-shot notification: when the target session's screen matches the pattern, inject text into the specified session and auto-submit (Enter). Eliminates polling."@,
    ).with(
        "inject_session_id"@,
        Kind::Text,
        "Session to inject into"@,
    ).with(
        "inject_text"@,
        Kind::Text,
        "Text to inject when pattern matches"@,
    ).with(
        "pattern"@,
        Kind::Text,
        "Regex pattern to match against screen content"@,
    ).with(
        "watch_session_id"@,
        Kind::Text,
        "Session to watch"@,
    ).requiring("watch_session_id"@).requiring("pattern"@).requiring("inject_text"@).requiring("inject_session_id"@)
}

/// The tool `tttt_notify_on_pattern`.
pub open spec fn notify_on_pattern_tool() -> ToolView {
    bare_tool(
        "tttt_notify_on_pattern"@,
        "Register a recurring notification: fires every time the pattern matches (not removed after firing). Auto-submits (Enter) after injection."@,
    ).with(
        "inject_session_id"@,
        Kind::Text,
        "Session to inject into"@,
    ).with(
        "inject_text"@,
        Kind::Text,
        "Text to inject on match"@,
    ).with(
        "pattern"@,
        Kind::Text,
        "Regex pattern to match"@,
    ).with(
        "watch_session_id"@,
        Kind::Text,
        "Session to watch"@,
    ).requiring("watch_session_id"@).requiring("pattern"@).requiring("inject_text"@).requiring("inject_session_id"@)
}

/// The tool `tttt_notify_cancel`.
pub open spec fn notify_cancel_tool() -> ToolView {
    bare_tool(
        "tttt_notify_cancel"@,
        "Cancel a registered notification watcher."@,
    ).with(
        "watcher_id"@,
        Kind::Text,
        "ID of the watcher to cancel"@,
    ).requiring("watcher_id"@)
}

/// The tool `tttt_notify_list`.
pub open spec fn notify_list_tool() -> ToolView {
    bare_tool(
        "tttt_notify_list"@,
        "List all active notification watchers."@,
    )
}

/// The tool `tttt_self_inject`.
pub open spec fn self_inject_tool() -> ToolView {
    bare_tool(
        "tttt_self_inject"@,
        "Inject text into a session's PTY stdin and auto-submit (Enter). Can be used to inject commands, /compact, reminders, etc."@,
    ).with(
        "session_id"@,
        Kind::Text,
        "Session to inject into"@,
    ).with(
        "text"@,
        Kind::Text,
        "Text to inject"@,
    ).requiring("session_id"@).requiring("text"@)
}

/// The tools for notifications.
pub open spec fn notification_tools() -> Seq<ToolView> {
    seq![
        notify_on_prompt_tool(),
        notify_on_pattern_tool(),
        notify_cancel_tool(),
        notify_list_tool(),
        self_inject_tool(),
    ]
}

/// The tool `tttt_replay_list_sessions`.
pub open spec fn replay_list_sessions_tool() -> ToolView {
    bare_tool(
        "tttt_replay_list_sessions"@,
        "List all recorded terminal sessions available for replay"@,
    )
}

/// The tool `tttt_replay_get_screen`.
pub open spec fn replay_get_screen_tool() -> ToolView {
    bare_tool(
        "tttt_replay_get_screen"@,
        "Replay a recorded session and return the terminal screen at a given point"@,
    ).with(
        "event_index"@,
        Kind::Integer,
        "Replay up to this event index (exclusive)"@,
    ).with(
        "session_id"@,
        Kind::Text,
        "Session ID to replay"@,
    ).with(
        "timestamp_ms"@,
        Kind::Integer,
        "Replay up to this timestamp in milliseconds"@,
    ).requiring("session_id"@)
}

/// The tool `tttt_replay_get_timeline`.
pub open spec fn replay_get_timeline_tool() -> ToolView {
    bare_tool(
        "tttt_replay_get_timeline"@,
        "Get the event timeline for a recorded session (index, timestamp, direction for each event)"@,
    ).with(
        "session_id"@,
        Kind::Text,
        "Session ID"@,
    ).requiring("session_id"@)
}

/// The tools that look at what was logged.
pub open spec fn replay_tools() -> Seq<ToolView> {
    seq![
        replay_list_sessions_tool(),
        replay_get_screen_tool(),
        replay_get_timeline_tool(),
    ]
}

/// The tool `tttt_scratchpad_write`.
pub open spec fn scratchpad_write_tool() -> ToolView {
    bare_tool(
        "tttt_scratchpad_write"@,
        "Write or append content to a named scratchpad key. Use for private working notes."@,
    ).with(
        "append"@,
        Kind::Flag,
        "Append to existing content instead of overwriting (default: false)"@,
    ).with(
        "content"@,
        Kind::Text,
        "Content to write"@,
    ).with(
        "key"@,
        Kind::Text,
        "Scratchpad key name"@,
    ).requiring("key"@).requiring("content"@)
}

/// The tool `tttt_scratchpad_read`.
pub open spec fn scratchpad_read_tool() -> ToolView {
    bare_tool(
        "tttt_scratchpad_read"@,
        "Read content from a named scratchpad key."@,
    ).with(
        "key"@,
        Kind::Text,
        "Scratchpad key name"@,
    ).requiring("key"@)
}

/// The tools for notes.
pub open spec fn scratchpad_tools() -> Seq<ToolView> {
    seq![
        scratchpad_write_tool(),
        scratchpad_read_tool(),
    ]
}

/// The tools for terminal sessions.
pub fn pty_tool_definitions() -> (tools: Vec<ToolDefinition>)
    ensures
        tool_views(tools@) == pty_tools(),
{
    let profiles: Vec<&'static str> = vec!["none", "read_only_worktree", "read_write_worktree", "own_worktree"];
    assert(text_views(profiles@) =~= seq!["none"@, "read_only_worktree"@, "read_write_worktree"@, "own_worktree"@]);
    let tools: Vec<ToolDefinition> = vec![
        ToolDefinition::new(
            "tttt_pty_launch",
            "Launch a new terminal session",
        ).with(
            "args",
            Kind::Texts,
            "Command arguments",
        ).with(
            "cols",
            Kind::Integer,
            "Terminal width (default: 80)",
        ).with(
            "command",
            Kind::Text,
            "Command to run (default: shell)",
        ).with(
            "name",
            Kind::Text,
            "Optional unique name for the session (can be used instead of session_id in other tools)",
        ).with(
            "rows",
            Kind::Integer,
            "Terminal height (default: 24)",
        ).with_choices(
            "sandbox_profile",
            "Sandbox profile: 'none', 'read_only_worktree', 'read_write_worktree', 'own_worktree'",
            profiles,
        ).with(
            "working_dir",
            Kind::Text,
            "Working directory",
        ),
        ToolDefinition::new(
            "tttt_pty_send_keys",
            "Send keystrokes to a terminal session. Keys are sent as-is. Use [ENTER] to submit. IMPORTANT: When sending multi-line text to a coding agent or similar TUI apps, send the text and [ENTER] as TWO SEPARATE calls — the app buffers pasted multi-line text and needs a separate Enter to submit it.",
        ).with(
            "keys",
            Kind::Text,
            "Keys to send (supports [UP], [ENTER], [CTRL+C], ^C, etc.)",
        ).with(
            "session_id",
            Kind::Text,
            "Target session ID",
        ).requiring("session_id").requiring("keys"),
        ToolDefinition::new(
            "tttt_pty_get_screen",
            "Get the current screen contents of a terminal session",
        ).with(
            "session_id",
            Kind::Text,
            "Target session ID",
        ).requiring("session_id"),
        ToolDefinition::new(
            "tttt_pty_list",
            "List all terminal sessions",
        ),
        ToolDefinition::new(
            "tttt_pty_kill",
            "Kill a terminal session",
        ).with(
            "session_id",
            Kind::Text,
            "Session to kill",
        ).requiring("session_id"),
        ToolDefinition::new(
            "tttt_pty_get_cursor",
            "Get the cursor position in a terminal session",
        ).with(
            "session_id",
            Kind::Text,
            "Target session ID",
        ).requiring("session_id"),
        ToolDefinition::new(
            "tttt_pty_resize",
            "Resize a terminal session",
        ).with(
            "cols",
            Kind::Integer,
            "New width",
        ).with(
            "rows",
            Kind::Integer,
            "New height",
        ).with(
            "session_id",
            Kind::Text,
            "Target session ID",
        ).requiring("session_id").requiring("cols").requiring("rows"),
        ToolDefinition::new(
            "tttt_pty_set_scrollback",
            "Set the scrollback buffer size for a terminal session",
        ).with(
            "lines",
            Kind::Integer,
            "Scrollback buffer size in lines",
        ).with(
            "session_id",
            Kind::Text,
            "Target session ID",
        ).requiring("session_id").requiring("lines"),
        ToolDefinition::new(
            "tttt_pty_get_scrollback",
            "Get scrollback buffer contents (text that has scrolled off the visible screen)",
        ).with(
            "lines",
            Kind::Integer,
            "Max lines to return (default: 100)",
        ).with(
            "session_id",
            Kind::Text,
            "Target session ID",
        ).requiring("session_id"),
        ToolDefinition::new(
            "tttt_pty_wait_for",
            "Block until a regex pattern appears in the session's screen content, or timeout",
        ).with(
            "pattern",
            Kind::Text,
            "Regex pattern to match against screen content",
        ).with(
            "session_id",
            Kind::Text,
            "Target session ID",
        ).with(
            "timeout_ms",
            Kind::Integer,
            "Timeout in milliseconds (default: 30000)",
        ).requiring("session_id").requiring("pattern"),
        ToolDefinition::new(
            "tttt_pty_wait_for_idle",
            "Block until a session has produced no output for idle_seconds, or timeout expires. Returns status 'idle' or 'timeout'. If ignore_pattern is provided, idle is detected by screen content hash (excluding text matching the pattern) rather than raw output silence — useful when timestamps or other noise keep updating.",
        ).with(
            "idle_seconds",
            Kind::Number,
            "Seconds of silence to consider idle (default: 10)",
        ).with(
            "ignore_pattern",
            Kind::Text,
            "Optional regex: text matching this pattern is stripped before idle detection (e.g. '\\\\d{2}:\\\\d{2}:\\\\d{2}' to ignore HH:MM:SS timestamps)",
        ).with(
            "session_id",
            Kind::Text,
            "Target session ID",
        ).with(
            "timeout",
            Kind::Number,
            "Max seconds to wait before returning timeout (default: 300)",
        ).requiring("session_id"),
        ToolDefinition::new(
            "tttt_pty_start_capture",
            "Begin capturing raw PTY output (including ANSI sequences) to a temp file. Only one capture per session at a time.",
        ).with(
            "session_id",
            Kind::Text,
            "Target session ID",
        ).requiring("session_id"),
        ToolDefinition::new(
            "tttt_pty_stop_capture",
            "Stop capturing raw PTY output. Returns the file path and number of bytes written.",
        ).with(
            "session_id",
            Kind::Text,
            "Target session ID",
        ).requiring("session_id"),
        ToolDefinition::new(
            "tttt_pty_handle_rate_limit",
            "Detect a coding agent rate limit dialog, wait until the limit resets, then auto-continue. Blocks until the session is resumed.",
        ).with(
            "continuation_prompt",
            Kind::Text,
            "Text to inject after resuming (default: 'Continue from where you left off.')",
        ).with(
            "safety_margin_minutes",
            Kind::Number,
            "Extra minutes to wait after reset time (default: 15)",
        ).with(
            "session_id",
            Kind::Text,
            "Session to check and handle",
        ).requiring("session_id"),
        ToolDefinition::new(
            "tttt_get_status",
            "Get a dashboard summary of all sessions and system state. Returns session list with last output line and idle time, plus counts of pending reminders and active watchers.",
        ),
    ];
    assert(tool_views(tools@) =~= pty_tools());
    tools
}

/// The tools for messages in the sidebar.
pub fn sidebar_tool_definitions() -> (tools: Vec<ToolDefinition>)
    ensures
        tool_views(tools@) == sidebar_tools(),
{
    let tools: Vec<ToolDefinition> = vec![
        ToolDefinition::new(
            "tttt_sidebar_message",
            "Display a message in the tttt sidebar REMINDERS section. Messages persist until cleared. Maximum 10 messages (oldest dropped when full).",
        ).with(
            "clear",
            Kind::Flag,
            "If true, clear all sidebar messages (message param ignored)",
        ).with(
            "message",
            Kind::Text,
            "Message to display in the sidebar",
        ),
        ToolDefinition::new(
            "tttt_sidebar_list",
            "Return the current sidebar messages as a JSON array.",
        ),
    ];
    assert(tool_views(tools@) =~= sidebar_tools());
    tools
}

/// The tools for reminders and recurring jobs.
pub fn scheduler_tool_definitions() -> (tools: Vec<ToolDefinition>)
    ensures
        tool_views(tools@) == scheduler_tools(),
{
    let tools: Vec<ToolDefinition> = vec![
        ToolDefinition::new(
            "tttt_reminder_set",
            "Set a one-shot reminder that will be injected at a future time",
        ).with(
            "delay_seconds",
            Kind::Integer,
            "Seconds from now",
        ).with(
            "message",
            Kind::Text,
            "Reminder message",
        ).requiring("message").requiring("delay_seconds"),
        ToolDefinition::new(
            "tttt_cron_create",
            "Create a recurring cron job",
        ).with(
            "command",
            Kind::Text,
            "Command or message to execute/inject",
        ).with(
            "expression",
            Kind::Text,
            "Cron expression (e.g., '*/5 * * * *')",
        ).with(
            "session_id",
            Kind::Text,
            "Optional target session",
        ).requiring("expression").requiring("command"),
        ToolDefinition::new(
            "tttt_cron_list",
            "List all cron jobs",
        ),
        ToolDefinition::new(
            "tttt_cron_delete",
            "Delete a cron job",
        ).with(
            "job_id",
            Kind::Text,
            "ID of the cron job to delete",
        ).requiring("job_id"),
    ];
    assert(tool_views(tools@) =~= scheduler_tools());
    tools
}

/// The tools for notifications.
pub fn notification_tool_definitions() -> (tools: Vec<ToolDefinition>)
    ensures
        tool_views(tools@) == notification_tools(),
{
    let tools: Vec<ToolDefinition> = vec![
        ToolDefinition::new(
            "tttt_notify_on_prompt",
            "Register a one-shot notification: when the target session's screen matches the pattern, inject text into the specified session and auto-submit (Enter). Eliminates polling.",
        ).with(
            "inject_session_id",
            Kind::Text,
            "Session to inject into",
        ).with(
            "inject_text",
            Kind::Text,
            "Text to inject when pattern matches",
        ).with(
            "pattern",
            Kind::Text,
            "Regex pattern to match against screen content",
        ).with(
            "watch_session_id",
            Kind::Text,
            "Session to watch",
        ).requiring("watch_session_id").requiring("pattern").requiring("inject_text").requiring("inject_session_id"),
        ToolDefinition::new(
            "tttt_notify_on_pattern",
            "Register a recurring notification: fires every time the pattern matches (not removed after firing). Auto-submits (Enter) after injection.",
        ).with(
            "inject_session_id",
            Kind::Text,
            "Session to inject into",
        ).with(
            "inject_text",
            Kind::Text,
            "Text to inject on match",
        ).with(
            "pattern",
            Kind::Text,
            "Regex pattern to match",
        ).with(
            "watch_session_id",
            Kind::Text,
            "Session to watch",
        ).requiring("watch_session_id").requiring("pattern").requiring("inject_text").requiring("inject_session_id"),
        ToolDefinition::new(
            "tttt_notify_cancel",
            "Cancel a registered notification watcher.",
        ).with(
            "watcher_id",
            Kind::Text,
            "ID of the watcher to cancel",
        ).requiring("watcher_id"),
        ToolDefinition::new(
            "tttt_notify_list",
            "List all active notification watchers.",
        ),
        ToolDefinition::new(
            "tttt_self_inject",
            "Inject text into a session's PTY stdin and auto-submit (Enter). Can be used to inject commands, /compact, reminders, etc.",
        ).with(
            "session_id",
            Kind::Text,
            "Session to inject into",
        ).with(
            "text",
            Kind::Text,
            "Text to inject",
        ).requiring("session_id").requiring("text"),
    ];
    assert(tool_views(tools@) =~= notification_tools());
    tools
}

/// The tools that look at what was logged.
pub fn replay_tool_definitions() -> (tools: Vec<ToolDefinition>)
    ensures
        tool_views(tools@) == replay_tools(),
{
    let tools: Vec<ToolDefinition> = vec![
        ToolDefinition::new(
            "tttt_replay_list_sessions",
            "List all recorded terminal sessions available for replay",
        ),
        ToolDefinition::new(
            "tttt_replay_get_screen",
            "Replay a recorded session and return the terminal screen at a given point",
        ).with(
            "event_index",
            Kind::Integer,
            "Replay up to this event index (exclusive)",
        ).with(
            "session_id",
            Kind::Text,
            "Session ID to replay",
        ).with(
            "timestamp_ms",
            Kind::Integer,
            "Replay up to this timestamp in milliseconds",
        ).requiring("session_id"),
        ToolDefinition::new(
            "tttt_replay_get_timeline",
            "Get the event timeline for a recorded session (index, timestamp, direction for each event)",
        ).with(
            "session_id",
            Kind::Text,
            "Session ID",
        ).requiring("session_id"),
    ];
    assert(tool_views(tools@) =~= replay_tools());
    tools
}

/// The tools for notes.
pub fn scratchpad_tool_definitions() -> (tools: Vec<ToolDefinition>)
    ensures
        tool_views(tools@) == scratchpad_tools(),
{
    let tools: Vec<ToolDefinition> = vec![
        ToolDefinition::new(
            "tttt_scratchpad_write",
            "Write or append content to a named scratchpad key. Use for private working notes.",
        ).with(
            "append",
            Kind::Flag,
            "Append to existing content instead of overwriting (default: false)",
        ).with(
            "content",
            Kind::Text,
            "Content to write",
        ).with(
            "key",
            Kind::Text,
            "Scratchpad key name",
        ).requiring("key").requiring("content"),
        ToolDefinition::new(
            "tttt_scratchpad_read",
            "Read content from a named scratchpad key.",
        ).with(
            "key",
            Kind::Text,
            "Scratchpad key name",
        ).requiring("key"),
    ];
    assert(tool_views(tools@) =~= scratchpad_tools());
    tools
}

/// The tool `tttt_tui_switch`.
pub open spec fn tui_switch_tool() -> ToolView {
    bare_tool("tttt_tui_switch"@, "Switch the visible terminal session"@).with(
        "session_id"@,
        Kind::Text,
        "Session ID or name to switch to"@,
    ).requiring("session_id"@)
}

/// The tool `tttt_tui_get_info`.
pub open spec fn tui_get_info_tool() -> ToolView {
    bare_tool(
        "tttt_tui_get_info"@,
        "Get the screen dimensions, the sessions and the number of highlights"@,
    )
}

/// The tool `tttt_tui_highlight`.
pub open spec fn tui_highlight_tool() -> ToolView {
    bare_tool(
        "tttt_tui_highlight"@,
        "Set, move or remove a highlighted rectangle on a terminal session"@,
    ).with("color"@, Kind::Text, "Color; empty to remove the highlight"@).with(
        "height"@,
        Kind::Integer,
        "Height in rows (default: 1)"@,
    ).with("id"@, Kind::Text, "Highlight ID"@).with(
        "session_id"@,
        Kind::Text,
        "Session ID or name"@,
    ).with("width"@, Kind::Integer, "Width in columns (default: 1)"@).with(
        "x"@,
        Kind::Integer,
        "First column (default: 0)"@,
    ).with("y"@, Kind::Integer, "First row (default: 0)"@).requiring("session_id"@).requiring(
        "id"@,
    ).requiring("color"@)
}

/// The tools that control what is shown.
pub open spec fn tui_tools() -> Seq<ToolView> {
    seq![tui_switch_tool(), tui_get_info_tool(), tui_highlight_tool()]
}

/// The tools that control what is shown.
pub fn tui_tool_definitions() -> (tools: Vec<ToolDefinition>)
    ensures
        tool_views(tools@) == tui_tools(),
{
    let tools: Vec<ToolDefinition> = vec![
        ToolDefinition::new("tttt_tui_switch", "Switch the visible terminal session").with(
        "session_id",
        Kind::Text,
        "Session ID or name to switch to",
    ).requiring("session_id"),
        ToolDefinition::new(
        "tttt_tui_get_info",
        "Get the screen dimensions, the sessions and the number of highlights",
    ),
        ToolDefinition::new(
        "tttt_tui_highlight",
        "Set, move or remove a highlighted rectangle on a terminal session",
    ).with("color", Kind::Text, "Color; empty to remove the highlight").with(
        "height",
        Kind::Integer,
        "Height in rows (default: 1)",
    ).with("id", Kind::Text, "Highlight ID").with(
        "session_id",
        Kind::Text,
        "Session ID or name",
    ).with("width", Kind::Integer, "Width in columns (default: 1)").with(
        "x",
        Kind::Integer,
        "First column (default: 0)",
    ).with("y", Kind::Integer, "First row (default: 0)").requiring("session_id").requiring(
        "id",
    ).requiring("color"),
    ];
    assert(tool_views(tools@) =~= tui_tools());
    tools
}

} // verus!
