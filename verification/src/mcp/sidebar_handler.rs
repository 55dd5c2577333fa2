//! The tools for messages in the sidebar.
use crate::json;
use crate::json::{entry, list, object, Member};
use crate::mcp::arguments::Arguments;
use crate::mcp::error::missing;
use crate::mcp::handler;
use crate::mcp::handler::{fail, no_tool, reply, CancelToken, Pending, Step, ToolHandler};
use crate::mcp::tools;
use crate::mcp::tools::{sidebar_tool_definitions, ToolDefinition, ToolView};
use crate::text;
use crate::text::{chars_equal, to_chars};
use crate::time::Moment;
use vstd::prelude::*;
use vstd::string::*;

verus! {

/// How many messages are kept.
pub const MAX_MESSAGES: usize = 10;

/// The state of a handler: the messages, the oldest first, and whether they have changed since
/// they were last drawn.
pub struct MessagesView {
    pub messages: Seq<Seq<char>>,
    pub dirty: bool,
}

/// Handles the calls of the tools for messages in the sidebar.
pub struct SidebarMessageToolHandler {
    messages: Vec<String>,
    dirty: bool,
}

impl View for SidebarMessageToolHandler {
    type V = MessagesView;

    closed spec fn view(&self) -> MessagesView {
        MessagesView { messages: json::views(self.messages@), dirty: self.dirty }
    }
}

/// An answer with the number of messages.
pub open spec fn count_text(n: nat) -> Seq<char> {
    json::object_text(seq![("count"@, text::decimal(n)), ("status"@, json::string_text("ok"@))])
}

/// The messages with one more; the oldest makes room for it where there are as many as are kept.
pub open spec fn with_message(messages: Seq<Seq<char>>, message: Seq<char>) -> Seq<Seq<char>> {
    if messages.len() >= MAX_MESSAGES {
        messages.remove(0).push(message)
    } else {
        messages.push(message)
    }
}

/// How the call that adds a message, or clears them all, is answered.
pub open spec fn message_answer(
    before: MessagesView,
    args: Arguments,
    after: MessagesView,
    step: Step,
) -> bool {
    if args.clear == Some(true) {
        &&& after == (MessagesView { messages: Seq::empty(), dirty: true })
        &&& handler::replied(step, count_text(0))
    } else {
        match args.message {
            None => after == before && handler::lacks(step, "message"@),
            Some(m) => {
                &&& after == (MessagesView {
                    messages: with_message(before.messages, m@),
                    dirty: true,
                })
                &&& handler::replied(step, count_text(after.messages.len()))
            },
        }
    }
}

/// The messages, as they are written.
pub open spec fn messages_text(messages: Seq<Seq<char>>) -> Seq<char> {
    json::object_text(seq![("messages"@, json::list_text(tools::string_texts(messages)))])
}

/// How a call of a tool is answered.
pub open spec fn sidebar_answer(
    before: MessagesView,
    name: Seq<char>,
    args: Arguments,
    moment: Moment,
    after: MessagesView,
    step: Step,
) -> bool {
    if name == "tttt_sidebar_message"@ {
        message_answer(before, args, after, step)
    } else if name == "tttt_sidebar_list"@ {
        after == before && handler::replied(step, messages_text(before.messages))
    } else {
        after == before && handler::lacks_tool(step, name)
    }
}

fn count_json(n: usize) -> (s: String)
    ensures
        s@ == count_text(n as nat),
{
    let members: Vec<Member> = vec![
        entry("count", json::number(n as u64)),
        entry("status", json::string("ok")),
    ];
    assert(json::member_views(members@) =~= seq![
        ("count"@, text::decimal(n as nat)),
        ("status"@, json::string_text("ok"@)),
    ]);
    object(&members)
}

impl SidebarMessageToolHandler {
    /// Every state is valid.
    pub open spec fn valid(&self) -> bool {
        true
    }

    /// A handler with messages.
    pub fn new(messages: Vec<String>, dirty: bool) -> (h: Self)
        ensures
            h@ == (MessagesView { messages: json::views(messages@), dirty }),
    {
        SidebarMessageToolHandler { messages, dirty }
    }

    /// The messages.
    pub fn messages(&self) -> (m: &Vec<String>)
        ensures
            json::views(m@) == self@.messages,
    {
        &self.messages
    }

    /// Whether the messages have changed since this was last asked.
    pub fn take_dirty(&mut self) -> (b: bool)
        ensures
            b == old(self)@.dirty,
            final(self)@ == (MessagesView { dirty: false, ..old(self)@ }),
    {
        let b = self.dirty;
        self.dirty = false;
        b
    }

    /// Lists the messages.
    pub fn handle_sidebar_list(&self) -> (step: Step)
        ensures
            handler::replied(step, messages_text(self@.messages)),
    {
        let mut items: Vec<String> = Vec::new();
        let mut i: usize = 0;
        while i < self.messages.len()
            invariant
                i <= self.messages.len(),
                items.len() == i,
                forall|k: int|
                    0 <= k < i ==> (#[trigger] items@[k])@ == json::string_text(
                        self.messages@[k]@,
                    ),
            decreases self.messages.len() - i,
        {
            items.push(json::string(self.messages[i].as_str()));
            i += 1;
        }
        assert(json::views(items@) =~= tools::string_texts(self@.messages));
        let members: Vec<Member> = vec![entry("messages", list(&items))];
        assert(json::member_views(members@) =~= seq![
            ("messages"@, json::list_text(tools::string_texts(self@.messages))),
        ]);
        reply(object(&members))
    }

    /// Adds a message, or clears them all.
    pub fn handle_sidebar_message(&mut self, args: &Arguments) -> (step: Step)
        ensures
            message_answer(old(self)@, *args, final(self)@, step),
    {
        let clear = match args.clear {
            Some(b) => b,
            None => false,
        };
        if clear {
            self.messages.clear();
            self.dirty = true;
            assert(self@.messages =~= Seq::empty());
            return reply(count_json(0));
        }
        let message = match &args.message {
            None => {
                return fail(missing("message"));
            },
            Some(m) => m.clone(),
        };
        let ghost before = self@.messages;
        if self.messages.len() >= MAX_MESSAGES {
            let _oldest = self.messages.remove(0);
            assert(json::views(self.messages@) =~= before.remove(0));
        }
        let ghost mid = json::views(self.messages@);
        self.messages.push(message);
        self.dirty = true;
        assert(json::views(self.messages@) =~= mid.push(message@));
        reply(count_json(self.messages.len()))
    }
}

impl ToolHandler for SidebarMessageToolHandler {
    open spec fn wf(&self) -> bool {
        self.valid()
    }

    open spec fn answers(
        before: Self,
        name: Seq<char>,
        args: Arguments,
        moment: Moment,
        after: Self,
        step: Step,
    ) -> bool {
        sidebar_answer(before@, name, args, moment, after@, step)
    }

    open spec fn resumes(
        before: Self,
        task: Pending,
        moment: Moment,
        after: Self,
        step: Step,
    ) -> bool {
        after == before && step is Unsupported
    }

    open spec fn told(before: Self, token: CancelToken, after: Self) -> bool {
        after == before
    }

    open spec fn offers(&self) -> Seq<ToolView> {
        tools::sidebar_tools()
    }

    fn handle_tool_call(&mut self, name: &str, args: &Arguments, moment: Moment) -> (step: Step) {
        let called = to_chars(name);
        if chars_equal(&called, "tttt_sidebar_message") {
            self.handle_sidebar_message(args)
        } else if chars_equal(&called, "tttt_sidebar_list") {
            self.handle_sidebar_list()
        } else {
            no_tool(name)
        }
    }

    fn resume(&mut self, task: Pending, moment: Moment) -> (step: Step) {
        Step::Unsupported
    }

    fn set_cancel_token(&mut self, token: CancelToken) {
    }

    fn tool_definitions(&self) -> (tools: Vec<ToolDefinition>) {
        sidebar_tool_definitions()
    }
}

/// A handler knows exactly the tools that it offers; a call of any other changes nothing.
pub proof fn law_sidebar_tools_are_those_offered(
    before: MessagesView,
    name: Seq<char>,
    args: Arguments,
    moment: Moment,
    after: MessagesView,
    step: Step,
)
    requires
        sidebar_answer(before, name, args, moment, after, step),
    ensures
        handler::lacks_tool(step, name) == !tools::has_tool(tools::sidebar_tools(), name),
        handler::lacks_tool(step, name) ==> after == before,
{
    let all = tools::sidebar_tools();
    assert(all[0].name == "tttt_sidebar_message"@);
    assert(all[1].name == "tttt_sidebar_list"@);
}

/// Never more messages are kept than there is room for.
pub proof fn law_messages_stay_few(
    before: MessagesView,
    name: Seq<char>,
    args: Arguments,
    moment: Moment,
    after: MessagesView,
    step: Step,
)
    requires
        before.messages.len() <= MAX_MESSAGES,
        sidebar_answer(before, name, args, moment, after, step),
    ensures
        after.messages.len() <= MAX_MESSAGES,
{
}

} // verus!
