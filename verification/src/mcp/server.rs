//! Answering requests: what the methods do, and what the responses say.
use crate::error::PtyError;
use crate::json;
use crate::json::{entry, list, object, Member};
use crate::mcp::arguments::Arguments;
use crate::mcp::error::McpError;
use crate::mcp::handler::{Pending, Step, ToolHandler};
use crate::mcp::protocol;
use crate::mcp::protocol::{
    JsonRpcError, JsonRpcRequest, JsonRpcResponse, ResponseView, RpcErrorView,
};
use crate::mcp::tools;
use crate::mcp::tools::{definitions_json, ToolDefinition, ToolView};
use crate::text;
use crate::text::{chars_equal, cut_both, from_chars, to_chars};
use crate::time::Moment;
use vstd::prelude::*;
use vstd::string::*;

verus! {

/// What a request comes to.
#[derive(Debug)]
pub enum Answer {
    /// It is responded to.
    Respond(JsonRpcResponse),
    /// It is a notification: there is nothing to say.
    Silent,
    /// The call that it makes is not done yet.
    Continue { id: String, step: Step },
}

/// The version of the protocol.
pub open spec fn protocol_version() -> Seq<char> {
    "2024-11-05"@
}

/// What a server says about itself, as it is written.
pub open spec fn initialize_text(name: Seq<char>, version: Seq<char>) -> Seq<char> {
    json::object_text(
        seq![
            (
                "capabilities"@,
                json::object_text(seq![("tools"@, json::object_text(Seq::empty()))]),
            ),
            ("protocolVersion"@, json::string_text(protocol_version())),
            (
                "serverInfo"@,
                json::object_text(
                    seq![
                        ("name"@, json::string_text(name)),
                        ("version"@, json::string_text(version)),
                    ],
                ),
            ),
        ],
    )
}

/// The tools, as they are written.
pub open spec fn tools_text(offered: Seq<ToolView>) -> Seq<char> {
    json::object_text(seq![("tools"@, json::list_text(tools::definition_texts(offered)))])
}

/// The result of a call, as it is written: the JSON of the result is a text in it.
pub open spec fn call_text(result: Seq<char>) -> Seq<char> {
    json::object_text(
        seq![
            (
                "content"@,
                json::list_text(
                    seq![
                        json::object_text(
                            seq![
                                ("text"@, json::string_text(result)),
                                ("type"@, json::string_text("text"@)),
                            ],
                        ),
                    ],
                ),
            ),
        ],
    )
}

/// The response to a call once it is known whether the files of the captures could be created: where
/// one could not, the error takes the place of the answer.
pub fn settled(response: JsonRpcResponse, failure: Option<PtyError>) -> (r: JsonRpcResponse)
    requires
        response.wf(),
    ensures
        r.wf(),
        r.content() == (match failure {
            None => response.content(),
            Some(e) => ResponseView {
                id: response.content().id,
                answer: Err(protocol::rpc_error_view(McpError::Pty(e))),
            },
        }),
{
    match failure {
        None => response,
        Some(e) => {
            let error = JsonRpcError::of_call(&McpError::Pty(e));
            JsonRpcResponse::error(response.id, error)
        },
    }
}

/// What a server says about itself, as it is written.
pub fn initialize_json(name: &str, version: &str) -> (s: String)
    ensures
        s@ == initialize_text(name@, version@),
{
    let nothing: Vec<Member> = Vec::new();
    assert(json::member_views(nothing@) =~= Seq::empty());
    let capabilities: Vec<Member> = vec![entry("tools", object(&nothing))];
    assert(json::member_views(capabilities@) =~= seq![
        ("tools"@, json::object_text(Seq::empty())),
    ]);
    let info: Vec<Member> = vec![
        entry("name", json::string(name)),
        entry("version", json::string(version)),
    ];
    assert(json::member_views(info@) =~= seq![
        ("name"@, json::string_text(name@)),
        ("version"@, json::string_text(version@)),
    ]);
    let members: Vec<Member> = vec![
        entry("capabilities", object(&capabilities)),
        entry("protocolVersion", json::string("2024-11-05")),
        entry("serverInfo", object(&info)),
    ];
    assert(json::member_views(members@) =~= seq![
        (
            "capabilities"@,
            json::object_text(seq![("tools"@, json::object_text(Seq::empty()))]),
        ),
        ("protocolVersion"@, json::string_text(protocol_version())),
        (
            "serverInfo"@,
            json::object_text(
                seq![
                    ("name"@, json::string_text(name@)),
                    ("version"@, json::string_text(version@)),
                ],
            ),
        ),
    ]);
    object(&members)
}

/// The tools, as they are written.
pub fn tools_json(offered: &[ToolDefinition]) -> (s: String)
    ensures
        s@ == tools_text(tools::tool_views(offered@)),
{
    let members: Vec<Member> = vec![entry("tools", definitions_json(offered))];
    assert(json::member_views(members@) =~= seq![
        ("tools"@, json::list_text(tools::definition_texts(tools::tool_views(offered@)))),
    ]);
    object(&members)
}

/// The result of a call, as it is written.
pub fn call_json(result: &str) -> (s: String)
    ensures
        s@ == call_text(result@),
{
    let item: Vec<Member> = vec![
        entry("text", json::string(result)),
        entry("type", json::string("text")),
    ];
    assert(json::member_views(item@) =~= seq![
        ("text"@, json::string_text(result@)),
        ("type"@, json::string_text("text"@)),
    ]);
    let items: Vec<String> = vec![object(&item)];
    assert(json::views(items@) =~= seq![
        json::object_text(
            seq![
                ("text"@, json::string_text(result@)),
                ("type"@, json::string_text("text"@)),
            ],
        ),
    ]);
    let members: Vec<Member> = vec![entry("content", list(&items))];
    assert(json::member_views(members@) =~= seq![
        ("content"@, json::list_text(json::views(items@))),
    ]);
    object(&members)
}

/// What is left of a line without white space around it; none where that is nothing.
pub fn request_line(line: &str) -> (request: Option<String>)
    ensures
        match request {
            Some(s) => s@ == text::trim(line@) && s@.len() > 0,
            None => text::trim(line@).len() == 0,
        },
{
    let chars = to_chars(line);
    let trimmed = cut_both(&chars);
    if trimmed.len() == 0 {
        None
    } else {
        Some(from_chars(trimmed))
    }
}

/// The arguments of a call: what is given for them, or none at all.
pub open spec fn are_arguments(args: Arguments, given: Option<Seq<u8>>) -> bool {
    match given {
        Some(data) => args.are_of(data),
        None => args.are_none(),
    }
}

/// The arguments of a call.
pub fn read_arguments(params: &[u8]) -> (args: Arguments)
    ensures
        are_arguments(args, json::member_of(params@, "arguments"@)),
{
    match json::member(params, "arguments") {
        Some(data) => Arguments::read(&data),
        None => Arguments::none(),
    }
}

/// A request is responded to.
pub open spec fn responds(answer: Answer, response: ResponseView) -> bool {
    answer matches Answer::Respond(r) && r.wf() && r.content() == response
}

/// How the error of a request is answered. What cannot be answered counts as a method that there
/// is not.
pub open spec fn server_error_view(e: McpError) -> RpcErrorView {
    match e {
        McpError::Protocol(method) => protocol::method_not_found_view(method@),
        _ => protocol::rpc_error_view(e),
    }
}

/// What a call comes to, as the answer of a request.
pub open spec fn server_outcome(step: Step, id: Seq<char>, answer: Answer) -> bool {
    match step {
        Step::Done(Ok(result)) => responds(
            answer,
            ResponseView { id, answer: Ok(call_text(result@)) },
        ),
        Step::Done(Err(e)) => responds(answer, ResponseView { id, answer: Err(server_error_view(e)) }),
        _ => answer matches Answer::Continue { id: i, step: s } && i@ == id && s == step,
    }
}

/// The identifier of a request; `null` where it has none.
pub open spec fn id_of(request: JsonRpcRequest) -> Seq<char> {
    match request.id {
        Some(id) => id@,
        None => "null"@,
    }
}

/// A handler has answered the call that a request makes.
pub open spec fn call_made<H: ToolHandler>(
    before: H,
    name: Seq<char>,
    request: JsonRpcRequest,
    args: Arguments,
    moment: Moment,
    after: H,
    step: Step,
) -> bool {
    &&& are_arguments(args, json::member_of(request.params@, "arguments"@))
    &&& H::answers(before, name, args, moment, after, step)
}

/// A server: it answers requests with the tools of a handler. Requests come in, and responses go
/// out, through the caller.
pub struct McpServer<H: ToolHandler> {
    handler: H,
    server_name: String,
    server_version: String,
    initialized: bool,
}

impl<H: ToolHandler> McpServer<H> {
    /// The handler.
    pub closed spec fn tools(&self) -> H {
        self.handler
    }

    /// The name that the server goes by.
    pub closed spec fn name(&self) -> Seq<char> {
        self.server_name@
    }

    /// The version of the server.
    pub closed spec fn version(&self) -> Seq<char> {
        self.server_version@
    }

    /// Whether a client has said hello.
    pub closed spec fn is_initialized(&self) -> bool {
        self.initialized
    }

    /// A server with the tools of a handler.
    pub fn new(handler: H) -> (s: Self)
        ensures
            s.tools() == handler,
            s.name() == "tttt"@,
            s.version() == "0.1.0"@,
            !s.is_initialized(),
    {
        McpServer {
            handler,
            server_name: "tttt".to_string(),
            server_version: "0.1.0".to_string(),
            initialized: false,
        }
    }

    fn outcome(step: Step, id: String) -> (answer: Answer)
        ensures
            server_outcome(step, id@, answer),
    {
        match step {
            Step::Done(Ok(result)) => Answer::Respond(
                JsonRpcResponse::success(id, call_json(result.as_str())),
            ),
            Step::Done(Err(e)) => {
                let error = match &e {
                    McpError::Protocol(method) => JsonRpcError::method_not_found(method.as_str()),
                    _ => JsonRpcError::of_call(&e),
                };
                Answer::Respond(JsonRpcResponse::error(id, error))
            },
            step => Answer::Continue { id, step },
        }
    }

    fn call_tool(&mut self, request: &JsonRpcRequest, id: String, moment: Moment) -> (answer: Answer)
        requires
            old(self).tools().wf(),
            moment.wf(),
            id@ == id_of(*request),
        ensures
            final(self).tools().wf(),
            final(self).name() == old(self).name(),
            final(self).version() == old(self).version(),
            final(self).is_initialized() == old(self).is_initialized(),
            called(*old(self), *request, moment, *final(self), answer),
    {
        let name = match json::text_member(&request.params, "name") {
            None => {
                return Answer::Respond(
                    JsonRpcResponse::error(id, JsonRpcError::invalid_params("tool name required")),
                );
            },
            Some(name) => name,
        };
        let args = read_arguments(&request.params);
        let step = self.handler.handle_tool_call(name.as_str(), &args, moment);
        let ghost done = step;
        let answer = McpServer::<H>::outcome(step, id);
        proof {
            let before = old(self).tools();
            assert(call_made(before, name@, *request, args, moment, self.tools(), done));
            lemma_called(*old(self), *request, moment, *self, answer, name@, args, done);
        }
        answer
    }

    /// Processes a line that was read as a request; none stands for one that is no request at all.
    pub fn process_line(&mut self, request: Option<&JsonRpcRequest>, moment: Moment) -> (answer:
        Answer)
        requires
            old(self).tools().wf(),
            moment.wf(),
        ensures
            final(self).tools().wf(),
            match request {
                None => *final(self) == *old(self) && responds(
                    answer,
                    ResponseView { id: "null"@, answer: Err(protocol::parse_error_view()) },
                ),
                Some(r) => processed(*old(self), *r, moment, *final(self), answer),
            },
    {
        let request = match request {
            None => {
                return Answer::Respond(
                    JsonRpcResponse::error("null".to_string(), JsonRpcError::parse_error()),
                );
            },
            Some(r) => r,
        };
        let id = match &request.id {
            Some(id) => id.clone(),
            None => "null".to_string(),
        };
        let method = to_chars(request.method.as_str());
        proof {
            lemma_methods_differ();
        }
        if chars_equal(&method, "initialize") {
            self.initialized = true;
            let result = initialize_json(self.server_name.as_str(), self.server_version.as_str());
            Answer::Respond(JsonRpcResponse::success(id, result))
        } else if chars_equal(&method, "initialized") || chars_equal(
            &method,
            "notifications/cancelled",
        ) {
            Answer::Silent
        } else if chars_equal(&method, "ping") {
            let nothing: Vec<Member> = Vec::new();
            assert(json::member_views(nothing@) =~= Seq::empty());
            Answer::Respond(JsonRpcResponse::success(id, object(&nothing)))
        } else if chars_equal(&method, "tools/list") {
            let offered = self.handler.tool_definitions();
            Answer::Respond(JsonRpcResponse::success(id, tools_json(&offered)))
        } else if chars_equal(&method, "tools/call") {
            self.call_tool(request, id, moment)
        } else {
            Answer::Respond(
                JsonRpcResponse::error(
                    id,
                    JsonRpcError::method_not_found(request.method.as_str()),
                ),
            )
        }
    }

    /// Goes on with a call that had to wait.
    pub fn resume(&mut self, id: String, task: Pending, moment: Moment) -> (answer: Answer)
        requires
            old(self).tools().wf(),
            moment.wf(),
        ensures
            final(self).tools().wf(),
            final(self).name() == old(self).name(),
            final(self).version() == old(self).version(),
            final(self).is_initialized() == old(self).is_initialized(),
            exists|step: Step|
                #[trigger] H::resumes(
                    old(self).tools(),
                    task,
                    moment,
                    final(self).tools(),
                    step,
                ) && server_outcome(step, id@, answer),
    {
        let step = self.handler.resume(task, moment);
        let ghost done = step;
        let answer = McpServer::<H>::outcome(step, id);
        assert(H::resumes(old(self).tools(), task, moment, self.tools(), done));
        answer
    }

    /// The answer of a call that is done.
    pub fn finish(&self, id: String, step: Step) -> (answer: Answer)
        ensures
            server_outcome(step, id@, answer),
    {
        McpServer::<H>::outcome(step, id)
    }

    /// The handler.
    pub fn handler(&self) -> (h: &H)
        ensures
            *h == self.tools(),
    {
        &self.handler
    }

    /// The handler, to be changed.
    pub fn handler_mut(&mut self) -> (h: &mut H)
        ensures
            *h == old(self).tools(),
            final(self).tools() == *final(h),
            final(self).name() == old(self).name(),
            final(self).version() == old(self).version(),
            final(self).is_initialized() == old(self).is_initialized(),
    {
        &mut self.handler
    }
}

proof fn lemma_called<H: ToolHandler>(
    before: McpServer<H>,
    request: JsonRpcRequest,
    moment: Moment,
    after: McpServer<H>,
    answer: Answer,
    name: Seq<char>,
    args: Arguments,
    step: Step,
)
    requires
        json::text_member_of(request.params@, "name"@) == Some(name),
        call_made(before.tools(), name, request, args, moment, after.tools(), step),
        server_outcome(step, id_of(request), answer),
    ensures
        called(before, request, moment, after, answer),
{
    let n = json::text_member_of(request.params@, "name"@)->0;
    assert(call_made(before.tools(), n, request, args, moment, after.tools(), step));
}

/// The methods are different ones.
proof fn lemma_methods_differ()
    ensures
        "initialize"@ != "initialized"@,
        "initialize"@ != "notifications/cancelled"@,
        "initialize"@ != "ping"@,
        "initialize"@ != "tools/list"@,
        "initialize"@ != "tools/call"@,
        "initialized"@ != "tools/call"@,
        "initialized"@ != "tools/list"@,
        "initialized"@ != "ping"@,
        "notifications/cancelled"@ != "tools/call"@,
        "notifications/cancelled"@ != "tools/list"@,
        "notifications/cancelled"@ != "ping"@,
        "ping"@ != "tools/call"@,
        "tools/list"@ != "tools/call"@,
{
    reveal_strlit("initialize");
    reveal_strlit("initialized");
    reveal_strlit("notifications/cancelled");
    reveal_strlit("tools/call");
    reveal_strlit("tools/list");
    reveal_strlit("ping");
    assert("initialize"@[0] == 'i' && "tools/call"@[0] == 't' && "tools/list"@[0] == 't');
    assert("tools/call"@[6] == 'c' && "tools/list"@[6] == 'l');
    assert("initialize"@.len() == 10 && "initialized"@.len() == 11);
    assert("notifications/cancelled"@.len() == 23 && "ping"@.len() == 4);
    assert("tools/call"@.len() == 10 && "tools/list"@.len() == 10);
}

/// How the call of a tool changes the server, and what it comes to.
pub open spec fn called<H: ToolHandler>(
    before: McpServer<H>,
    request: JsonRpcRequest,
    moment: Moment,
    after: McpServer<H>,
    answer: Answer,
) -> bool {
    let id = id_of(request);
    match json::text_member_of(request.params@, "name"@) {
        None => after.tools() == before.tools() && responds(
            answer,
            ResponseView {
                id,
                answer: Err(protocol::invalid_params_view("tool name required"@)),
            },
        ),
        Some(name) => exists|args: Arguments, step: Step|
            #[trigger] call_made(before.tools(), name, request, args, moment, after.tools(), step)
                && server_outcome(step, id, answer),
    }
}

/// How a request changes the server, and what it comes to.
pub open spec fn processed<H: ToolHandler>(
    before: McpServer<H>,
    request: JsonRpcRequest,
    moment: Moment,
    after: McpServer<H>,
    answer: Answer,
) -> bool {
    let id = id_of(request);
    let method = request.method@;
    &&& after.name() == before.name()
    &&& after.version() == before.version()
    &&& after.is_initialized() == (before.is_initialized() || method == "initialize"@)
    &&& if method == "tools/call"@ {
        called(before, request, moment, after, answer)
    } else {
        &&& after.tools() == before.tools()
        &&& if method == "initialize"@ {
            responds(
                answer,
                ResponseView {
                    id,
                    answer: Ok(initialize_text(before.name(), before.version())),
                },
            )
        } else if method == "initialized"@ || method == "notifications/cancelled"@ {
            answer is Silent
        } else if method == "ping"@ {
            responds(
                answer,
                ResponseView { id, answer: Ok(json::object_text(Seq::empty())) },
            )
        } else if method == "tools/list"@ {
            responds(
                answer,
                ResponseView { id, answer: Ok(tools_text(before.tools().offers())) },
            )
        } else {
            responds(
                answer,
                ResponseView { id, answer: Err(protocol::method_not_found_view(method)) },
            )
        }
    }
}

/// A request other than a notification is always answered, at once or after its call is done, and
/// under its own identifier.
pub proof fn law_requests_are_answered<H: ToolHandler>(
    before: McpServer<H>,
    request: JsonRpcRequest,
    moment: Moment,
    after: McpServer<H>,
    answer: Answer,
)
    requires
        processed(before, request, moment, after, answer),
    ensures
        answer is Silent == (request.method@ == "initialized"@ || request.method@
            == "notifications/cancelled"@),
        answer matches Answer::Respond(r) ==> r.wf() && r.content().id == id_of(request),
        answer matches Answer::Continue { id, step } ==> id@ == id_of(request) && !(step is Done),
{
    lemma_methods_differ();
}

/// A call that is done is answered with its result, as a text, or with its error; one that is not
/// done goes on.
pub proof fn law_calls_are_answered_with_their_result(step: Step, id: Seq<char>, answer: Answer)
    requires
        server_outcome(step, id, answer),
    ensures
        step matches Step::Done(Ok(result)) ==> (answer matches Answer::Respond(r) && r.content()
            == (ResponseView { id, answer: Ok(call_text(result@)) })),
        step matches Step::Done(Err(_)) ==> (answer matches Answer::Respond(r) && r.content().id == id
            && r.content().answer is Err),
        step matches Step::Done(Err(McpError::InvalidParams(m))) ==> (answer matches Answer::Respond(
            r,
        ) && (r.content().answer matches Err(e) && e.code == -32602)),
        step matches Step::Done(Err(McpError::Pty(p))) ==> (answer matches Answer::Respond(r) && (
        r.content().answer matches Err(e) && e.code == -32603)),
        !(step is Done) ==> (answer matches Answer::Continue { id: i, step: s } && i@ == id && s
            == step),
{
}

/// The method of a request says what is done: one is answered with what the server says of itself,
/// one with its tools, one with nothing in it, and one calls a tool. A method that there is not is
/// refused with an error that names it.
pub proof fn law_what_the_methods_do<H: ToolHandler>(
    before: McpServer<H>,
    request: JsonRpcRequest,
    moment: Moment,
    after: McpServer<H>,
    answer: Answer,
)
    requires
        processed(before, request, moment, after, answer),
    ensures
        request.method@ != "tools/call"@ ==> after.tools() == before.tools(),
        request.method@ == "initialize"@ ==> after.is_initialized() && responds(
            answer,
            ResponseView {
                id: id_of(request),
                answer: Ok(initialize_text(before.name(), before.version())),
            },
        ),
        request.method@ == "tools/list"@ ==> responds(
            answer,
            ResponseView {
                id: id_of(request),
                answer: Ok(tools_text(before.tools().offers())),
            },
        ),
        request.method@ == "ping"@ ==> responds(
            answer,
            ResponseView { id: id_of(request), answer: Ok(seq!['{', '}']) },
        ),
        request.method@ != "tools/call"@ && request.method@ != "initialize"@ && request.method@
            != "tools/list"@ && request.method@ != "ping"@ && request.method@ != "initialized"@
            && request.method@ != "notifications/cancelled"@ ==> (answer matches Answer::Respond(r)
            && (r.content().answer matches Err(e) && e.code == -32601 && e.message
            == "Method not found: "@ + request.method@)),
{
    lemma_methods_differ();
    reveal_strlit("tools/list");
    reveal_strlit("tools/call");
    reveal_strlit("initialize");
    reveal_strlit("initialized");
    reveal_strlit("notifications/cancelled");
    reveal_strlit("ping");
    assert("tools/list"@[6] != "tools/call"@[6]);
    assert("tools/list"@[0] != "initialize"@[0]);
    assert("tools/list"@.len() != "initialized"@.len());
    assert("tools/list"@.len() != "notifications/cancelled"@.len());
    assert("tools/list"@.len() != "ping"@.len());
    reveal_strlit("{");
    reveal_strlit("}");
    let none = Seq::<json::MemberView>::empty();
    assert(none.map_values(|m: json::MemberView| json::member_text(m)) =~= Seq::empty());
    assert(json::object_text(none) =~= seq!['{', '}']);
}

} // verus!
