//! The tools for notes.
use crate::error::joined;
use crate::json;
use crate::json::{entry, object, Member};
use crate::mcp::arguments::Arguments;
use crate::mcp::error::{missing, McpError};
use crate::mcp::handler;
use crate::mcp::handler::{
    fail, no_tool, reply, status_json, CancelToken, Pending, Step, ToolHandler,
};
use crate::mcp::tools;
use crate::mcp::tools::{scratchpad_tool_definitions, ToolDefinition, ToolView};
use crate::text;
use crate::text::{chars_equal, to_chars};
use crate::time::Moment;
use vstd::prelude::*;
use vstd::string::*;

verus! {

/// A note under its key.
#[derive(Debug)]
pub struct Note {
    pub key: String,
    pub content: String,
}

/// Notes by their keys. A later note under the same key covers an earlier one.
pub open spec fn notes_map(notes: Seq<Note>) -> Map<Seq<char>, Seq<char>>
    decreases notes.len(),
{
    if notes.len() == 0 {
        Map::empty()
    } else {
        notes_map(notes.drop_last()).insert(notes.last().key@, notes.last().content@)
    }
}

/// No two notes have the same key.
pub open spec fn keys_differ(notes: Seq<Note>) -> bool {
    forall|i: int, j: int|
        0 <= i < j < notes.len() ==> (#[trigger] notes[i]).key@ != (#[trigger] notes[j]).key@
}

proof fn lemma_note_at(notes: Seq<Note>, i: int)
    requires
        keys_differ(notes),
        0 <= i < notes.len(),
    ensures
        notes_map(notes).dom().contains(notes[i].key@),
        notes_map(notes)[notes[i].key@] == notes[i].content@,
    decreases notes.len(),
{
    if i < notes.len() - 1 {
        assert(notes.drop_last()[i] == notes[i]);
        lemma_note_at(notes.drop_last(), i);
    }
}

proof fn lemma_no_note(notes: Seq<Note>, key: Seq<char>)
    requires
        forall|i: int| 0 <= i < notes.len() ==> (#[trigger] notes[i]).key@ != key,
    ensures
        !notes_map(notes).dom().contains(key),
    decreases notes.len(),
{
    if notes.len() > 0 {
        let front = notes.drop_last();
        assert forall|i: int| 0 <= i < front.len() implies (#[trigger] front[i]).key@ != key by {
            assert(front[i] == notes[i]);
        }
        lemma_no_note(front, key);
    }
}

proof fn lemma_note_changed(notes: Seq<Note>, i: int, note: Note)
    requires
        keys_differ(notes),
        0 <= i < notes.len(),
        note.key@ == notes[i].key@,
    ensures
        notes_map(notes.update(i, note)) == notes_map(notes).insert(note.key@, note.content@),
        keys_differ(notes.update(i, note)),
    decreases notes.len(),
{
    let after = notes.update(i, note);
    assert forall|a: int, b: int| 0 <= a < b < after.len() implies (#[trigger] after[a]).key@ != (
    #[trigger] after[b]).key@ by {
        assert(after[a].key@ == notes[a].key@);
        assert(after[b].key@ == notes[b].key@);
    }
    if i == notes.len() - 1 {
        assert(after.drop_last() =~= notes.drop_last());
        assert(notes_map(after) =~= notes_map(notes).insert(note.key@, note.content@));
    } else {
        assert(after.drop_last() =~= notes.drop_last().update(i, note));
        lemma_note_changed(notes.drop_last(), i, note);
        assert(notes_map(after) =~= notes_map(notes).insert(note.key@, note.content@));
    }
}

/// Handles the calls of the tools for notes.
pub struct ScratchpadToolHandler {
    store: Vec<Note>,
}

impl View for ScratchpadToolHandler {
    type V = Map<Seq<char>, Seq<char>>;

    closed spec fn view(&self) -> Map<Seq<char>, Seq<char>> {
        notes_map(self.store@)
    }
}

/// How the call that writes a note is answered: the text is put at the end of the note where the
/// call says so and there is one, else in its place.
pub open spec fn write_answer(
    before: Map<Seq<char>, Seq<char>>,
    args: Arguments,
    after: Map<Seq<char>, Seq<char>>,
    step: Step,
) -> bool {
    match (args.key, args.content) {
        (None, _) => after == before && handler::lacks(step, "key"@),
        (Some(_), None) => after == before && handler::lacks(step, "content"@),
        (Some(key), Some(content)) => {
            &&& handler::replied(step, handler::status_text("ok"@))
            &&& after == before.insert(
                key@,
                if args.append == Some(true) && before.dom().contains(key@) {
                    before[key@] + content@
                } else {
                    content@
                },
            )
        },
    }
}

/// How the call that reads a note is answered.
pub open spec fn read_answer(
    before: Map<Seq<char>, Seq<char>>,
    args: Arguments,
    after: Map<Seq<char>, Seq<char>>,
    step: Step,
) -> bool {
    &&& after == before
    &&& match args.key {
        None => handler::lacks(step, "key"@),
        Some(key) => if before.dom().contains(key@) {
            handler::replied(
                step,
                json::object_text(seq![("content"@, json::string_text(before[key@]))]),
            )
        } else {
            handler::refused(step, "scratchpad key not found: "@ + key@)
        },
    }
}

/// How a call of a tool is answered.
pub open spec fn scratchpad_answer(
    before: Map<Seq<char>, Seq<char>>,
    name: Seq<char>,
    args: Arguments,
    moment: Moment,
    after: Map<Seq<char>, Seq<char>>,
    step: Step,
) -> bool {
    if name == "tttt_scratchpad_write"@ {
        write_answer(before, args, after, step)
    } else if name == "tttt_scratchpad_read"@ {
        read_answer(before, args, after, step)
    } else {
        after == before && handler::lacks_tool(step, name)
    }
}

impl ScratchpadToolHandler {
    /// No two notes have the same key.
    pub closed spec fn valid(&self) -> bool {
        keys_differ(self.store@)
    }

    /// A handler without notes.
    pub fn new() -> (h: Self)
        ensures
            h.valid(),
            h@ == Map::<Seq<char>, Seq<char>>::empty(),
    {
        ScratchpadToolHandler { store: Vec::new() }
    }

    /// A handler with notes, of which no two have the same key.
    pub fn new_shared(store: Vec<Note>) -> (h: Self)
        requires
            keys_differ(store@),
        ensures
            h.valid(),
            h@ == notes_map(store@),
    {
        ScratchpadToolHandler { store }
    }

    /// The notes.
    pub fn store(&self) -> (notes: &Vec<Note>)
        requires
            self.valid(),
        ensures
            notes_map(notes@) == self@,
            keys_differ(notes@),
    {
        &self.store
    }

    fn find(&self, key: &str) -> (at: Option<usize>)
        requires
            self.valid(),
        ensures
            match at {
                Some(i) => {
                    &&& i < self.store@.len()
                    &&& self.store@[i as int].key@ == key@
                    &&& self@.dom().contains(key@)
                    &&& self@[key@] == self.store@[i as int].content@
                },
                None => {
                    &&& !self@.dom().contains(key@)
                    &&& forall|i: int|
                        0 <= i < self.store@.len() ==> (#[trigger] self.store@[i]).key@ != key@
                },
            },
    {
        let wanted = to_chars(key);
        let mut i: usize = 0;
        while i < self.store.len()
            invariant
                self.valid(),
                wanted@ == key@,
                i <= self.store.len(),
                forall|k: int| 0 <= k < i ==> (#[trigger] self.store@[k]).key@ != key@,
            decreases self.store.len() - i,
        {
            if chars_equal(&wanted, self.store[i].key.as_str()) {
                proof {
                    lemma_note_at(self.store@, i as int);
                }
                return Some(i);
            }
            i += 1;
        }
        proof {
            lemma_no_note(self.store@, key@);
        }
        None
    }

    /// Writes a note.
    pub fn handle_scratchpad_write(&mut self, args: &Arguments) -> (step: Step)
        requires
            old(self).valid(),
        ensures
            final(self).valid(),
            write_answer(old(self)@, *args, final(self)@, step),
    {
        let key = match &args.key {
            None => {
                return fail(missing("key"));
            },
            Some(k) => k.clone(),
        };
        let content = match &args.content {
            None => {
                return fail(missing("content"));
            },
            Some(c) => c.clone(),
        };
        let append = match args.append {
            Some(b) => b,
            None => false,
        };
        let ghost before = self.store@;
        match self.find(key.as_str()) {
            Some(i) => {
                let text = if append {
                    joined(self.store[i].content.as_str(), content.as_str())
                } else {
                    content
                };
                let note = Note { key, content: text };
                self.store.set(i, note);
                proof {
                    assert(self.store@ =~= before.update(i as int, note));
                    lemma_note_changed(before, i as int, note);
                }
            },
            None => {
                let note = Note { key, content };
                self.store.push(note);
                proof {
                    assert(self.store@.drop_last() =~= before);
                    assert forall|a: int, b: int| 0 <= a < b < self.store@.len() implies (
                    #[trigger] self.store@[a]).key@ != (#[trigger] self.store@[b]).key@ by {
                        assert(self.store@[a] == before[a]);
                        if b < before.len() {
                            assert(self.store@[b] == before[b]);
                        }
                    }
                }
            },
        }
        reply(status_json("ok"))
    }

    /// Reads a note.
    pub fn handle_scratchpad_read(&self, args: &Arguments) -> (step: Step)
        requires
            self.valid(),
        ensures
            read_answer(self@, *args, self@, step),
    {
        match &args.key {
            None => fail(missing("key")),
            Some(key) => match self.find(key.as_str()) {
                Some(i) => {
                    let members: Vec<Member> = vec![
                        entry("content", json::string(self.store[i].content.as_str())),
                    ];
                    assert(json::member_views(members@) =~= seq![
                        ("content"@, json::string_text(self.store@[i as int].content@)),
                    ]);
                    reply(object(&members))
                },
                None => fail(
                    McpError::InvalidParams(joined("scratchpad key not found: ", key.as_str())),
                ),
            },
        }
    }
}

impl Default for ScratchpadToolHandler {
    fn default() -> (h: Self)
        ensures
            h.valid(),
            h@ == Map::<Seq<char>, Seq<char>>::empty(),
    {
        ScratchpadToolHandler::new()
    }
}

impl ToolHandler for ScratchpadToolHandler {
    open spec fn wf(&self) -> bool {
        self.valid()
    }

    open spec fn answers(
        before: Self,
        name: Seq<char>,
        args: Arguments,
        moment: Moment,
        after: Self,
        step: Step,
    ) -> bool {
        scratchpad_answer(before@, name, args, moment, after@, step)
    }

    open spec fn resumes(
        before: Self,
        task: Pending,
        moment: Moment,
        after: Self,
        step: Step,
    ) -> bool {
        after == before && step is Unsupported
    }

    open spec fn told(before: Self, token: CancelToken, after: Self) -> bool {
        after == before
    }

    open spec fn offers(&self) -> Seq<ToolView> {
        tools::scratchpad_tools()
    }

    fn handle_tool_call(&mut self, name: &str, args: &Arguments, moment: Moment) -> (step: Step) {
        let called = to_chars(name);
        if chars_equal(&called, "tttt_scratchpad_write") {
            self.handle_scratchpad_write(args)
        } else if chars_equal(&called, "tttt_scratchpad_read") {
            self.handle_scratchpad_read(args)
        } else {
            no_tool(name)
        }
    }

    fn resume(&mut self, task: Pending, moment: Moment) -> (step: Step) {
        Step::Unsupported
    }

    fn set_cancel_token(&mut self, token: CancelToken) {
    }

    fn tool_definitions(&self) -> (tools: Vec<ToolDefinition>) {
        scratchpad_tool_definitions()
    }
}

/// A handler knows exactly the tools that it offers; a call of any other changes nothing.
pub proof fn law_scratchpad_tools_are_those_offered(
    before: Map<Seq<char>, Seq<char>>,
    name: Seq<char>,
    args: Arguments,
    moment: Moment,
    after: Map<Seq<char>, Seq<char>>,
    step: Step,
)
    requires
        scratchpad_answer(before, name, args, moment, after, step),
    ensures
        handler::lacks_tool(step, name) == !tools::has_tool(tools::scratchpad_tools(), name),
        handler::lacks_tool(step, name) ==> after == before,
{
    let all = tools::scratchpad_tools();
    assert(all[0].name == "tttt_scratchpad_write"@);
    assert(all[1].name == "tttt_scratchpad_read"@);
}

/// What was written is read back, whatever was there before.
pub proof fn law_notes_are_read_back(
    before: Map<Seq<char>, Seq<char>>,
    written: Arguments,
    mid: Map<Seq<char>, Seq<char>>,
    write: Step,
    asked: Arguments,
    after: Map<Seq<char>, Seq<char>>,
    read: Step,
)
    requires
        written.key is Some,
        written.content is Some,
        written.append != Some(true),
        asked.key is Some,
        asked.key->0@ == written.key->0@,
        write_answer(before, written, mid, write),
        read_answer(mid, asked, after, read),
    ensures
        handler::replied(
            read,
            json::object_text(seq![("content"@, json::string_text(written.content->0@))]),
        ),
{
}

/// Writing a note leaves all other notes alone.
pub proof fn law_other_notes_stay(
    before: Map<Seq<char>, Seq<char>>,
    args: Arguments,
    after: Map<Seq<char>, Seq<char>>,
    step: Step,
    key: Seq<char>,
)
    requires
        write_answer(before, args, after, step),
        args.key is None || args.key->0@ != key,
    ensures
        after.dom().contains(key) == before.dom().contains(key),
        before.dom().contains(key) ==> after[key] == before[key],
{
}

} // verus!
