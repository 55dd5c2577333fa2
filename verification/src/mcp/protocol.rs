//! JSON-RPC 2.0: requests, responses and errors.
use crate::error::joined;
use crate::json;
use crate::json::{entry, object, Member};
use crate::mcp::error::McpError;
use crate::text;
use crate::text::push_decimal;
use vstd::prelude::*;
use vstd::string::*;

verus! {

/// A request. Its identifier and its parameters are kept as JSON.
#[derive(Debug, PartialEq, Eq)]
pub struct JsonRpcRequest {
    pub jsonrpc: String,
    /// Missing or `null` in a notification.
    pub id: Option<String>,
    pub method: String,
    /// An empty object where there are none.
    pub params: Vec<u8>,
}

/// A response, with either a result or an error. Its identifier and its result are JSON.
#[derive(Debug, PartialEq, Eq)]
pub struct JsonRpcResponse {
    pub jsonrpc: String,
    pub id: String,
    pub result: Option<String>,
    pub error: Option<JsonRpcError>,
}

/// An error, with a code and a message.
#[derive(Debug, PartialEq, Eq)]
pub struct JsonRpcError {
    pub code: i64,
    pub message: String,
}

/// An error as a mathematical value.
pub struct RpcErrorView {
    pub code: int,
    pub message: Seq<char>,
}

impl View for JsonRpcError {
    type V = RpcErrorView;

    open spec fn view(&self) -> RpcErrorView {
        RpcErrorView { code: self.code as int, message: self.message@ }
    }
}

/// A response as a mathematical value: the identifier, and the result or the error.
pub struct ResponseView {
    pub id: Seq<char>,
    pub answer: Result<Seq<char>, RpcErrorView>,
}

/// A whole number as it is written.
pub open spec fn signed_text(n: int) -> Seq<char> {
    if n < 0 {
        "-"@ + text::decimal((-n) as nat)
    } else {
        text::decimal(n as nat)
    }
}

impl RpcErrorView {
    /// The error as it is written.
    pub open spec fn json(self) -> Seq<char> {
        json::object_text(
            seq![
                ("code"@, signed_text(self.code)),
                ("message"@, json::string_text(self.message)),
            ],
        )
    }
}

impl ResponseView {
    /// The member that holds the result or the error.
    pub open spec fn answer_member(self) -> json::MemberView {
        match self.answer {
            Ok(result) => ("result"@, result),
            Err(e) => ("error"@, e.json()),
        }
    }

    /// The members of the response.
    pub open spec fn members(self) -> Seq<json::MemberView> {
        seq![("jsonrpc"@, json::string_text("2.0"@)), ("id"@, self.id), self.answer_member()]
    }

    /// The response as it is written.
    pub open spec fn json(self) -> Seq<char> {
        json::object_text(self.members())
    }
}

/// The error for what is not a request.
pub open spec fn parse_error_view() -> RpcErrorView {
    RpcErrorView { code: -32700, message: "Parse error"@ }
}

/// The error for a method that there is not.
pub open spec fn method_not_found_view(method: Seq<char>) -> RpcErrorView {
    RpcErrorView { code: -32601, message: "Method not found: "@ + method }
}

/// The error for wrong parameters.
pub open spec fn invalid_params_view(message: Seq<char>) -> RpcErrorView {
    RpcErrorView { code: -32602, message: "Invalid params: "@ + message }
}

/// The error for everything else that goes wrong.
pub open spec fn internal_error_view(message: Seq<char>) -> RpcErrorView {
    RpcErrorView { code: -32603, message: "Internal error: "@ + message }
}

/// How the error of a tool call is answered.
pub open spec fn rpc_error_view(e: McpError) -> RpcErrorView {
    match e {
        McpError::ToolNotFound(name) => method_not_found_view(name@),
        McpError::InvalidParams(message) => invalid_params_view(message@),
        _ => internal_error_view(e.message()),
    }
}

/// A whole number as it is written.
pub fn signed(n: i64) -> (s: String)
    ensures
        s@ == signed_text(n as int),
{
    let mut s = String::new();
    if n < 0 {
        s.append("-");
        let m: u64 = (-(n + 1)) as u64 + 1;
        push_decimal(&mut s, m);
    } else {
        push_decimal(&mut s, n as u64);
    }
    assert(s@ =~= signed_text(n as int));
    s
}

impl JsonRpcError {
    /// The error for what is not a request.
    pub fn parse_error() -> (e: Self)
        ensures
            e@ == parse_error_view(),
    {
        JsonRpcError { code: -32700, message: "Parse error".to_string() }
    }

    /// The error for a request that makes no sense.
    pub fn invalid_request() -> (e: Self)
        ensures
            e@ == (RpcErrorView { code: -32600, message: "Invalid Request"@ }),
    {
        JsonRpcError { code: -32600, message: "Invalid Request".to_string() }
    }

    /// The error for a method that there is not.
    pub fn method_not_found(method: &str) -> (e: Self)
        ensures
            e@ == method_not_found_view(method@),
    {
        JsonRpcError { code: -32601, message: joined("Method not found: ", method) }
    }

    /// The error for wrong parameters.
    pub fn invalid_params(msg: &str) -> (e: Self)
        ensures
            e@ == invalid_params_view(msg@),
    {
        JsonRpcError { code: -32602, message: joined("Invalid params: ", msg) }
    }

    /// The error for everything else that goes wrong.
    pub fn internal_error(msg: &str) -> (e: Self)
        ensures
            e@ == internal_error_view(msg@),
    {
        JsonRpcError { code: -32603, message: joined("Internal error: ", msg) }
    }

    /// How the error of a tool call is answered.
    pub fn of_call(e: &McpError) -> (r: Self)
        ensures
            r@ == rpc_error_view(*e),
    {
        match e {
            McpError::ToolNotFound(name) => JsonRpcError::method_not_found(name.as_str()),
            McpError::InvalidParams(message) => JsonRpcError::invalid_params(message.as_str()),
            _ => JsonRpcError::internal_error(e.to_string().as_str()),
        }
    }

    /// The error as it is written.
    pub fn to_json(&self) -> (s: String)
        ensures
            s@ == self@.json(),
    {
        let members: Vec<Member> = vec![
            entry("code", signed(self.code)),
            entry("message", json::string(self.message.as_str())),
        ];
        assert(json::member_views(members@) =~= seq![
            ("code"@, signed_text(self@.code)),
            ("message"@, json::string_text(self@.message)),
        ]);
        object(&members)
    }
}

impl JsonRpcResponse {
    /// The response has the right version, and either a result or an error.
    pub open spec fn wf(&self) -> bool {
        self.jsonrpc@ == "2.0"@ && (self.result is Some) != (self.error is Some)
    }

    /// What the response says.
    pub open spec fn content(&self) -> ResponseView {
        ResponseView {
            id: self.id@,
            answer: match self.result {
                Some(result) => Ok(result@),
                None => Err(self.error->0@),
            },
        }
    }

    /// A response with a result.
    pub fn success(id: String, result: String) -> (r: Self)
        ensures
            r.wf(),
            r.content() == (ResponseView { id: id@, answer: Ok(result@) }),
    {
        JsonRpcResponse { jsonrpc: "2.0".to_string(), id, result: Some(result), error: None }
    }

    /// A response with an error.
    pub fn error(id: String, error: JsonRpcError) -> (r: Self)
        ensures
            r.wf(),
            r.content() == (ResponseView { id: id@, answer: Err(error@) }),
    {
        JsonRpcResponse { jsonrpc: "2.0".to_string(), id, result: None, error: Some(error) }
    }

    /// The response as it is written.
    pub fn to_json(&self) -> (s: String)
        requires
            self.wf(),
        ensures
            s@ == self.content().json(),
    {
        let mut members: Vec<Member> = vec![
            entry("jsonrpc", json::string(self.jsonrpc.as_str())),
            entry("id", self.id.clone()),
        ];
        match &self.result {
            Some(result) => {
                members.push(entry("result", result.clone()));
            },
            None => {},
        }
        match &self.error {
            Some(e) => {
                members.push(entry("error", e.to_json()));
            },
            None => {},
        }
        assert(json::member_views(members@) =~= self.content().members());
        object(&members)
    }
}

/// Errors have the codes that the protocol gives them, and say what went wrong.
pub proof fn law_error_codes(e: McpError)
    ensures
        e is ToolNotFound <==> rpc_error_view(e).code == -32601,
        e is InvalidParams <==> rpc_error_view(e).code == -32602,
        !(e is ToolNotFound) && !(e is InvalidParams) <==> rpc_error_view(e).code == -32603,
        e matches McpError::ToolNotFound(name) ==> rpc_error_view(e).message
            == "Method not found: "@ + name@,
        e matches McpError::InvalidParams(m) ==> rpc_error_view(e).message == "Invalid params: "@
            + m@,
        e matches McpError::Pty(p) ==> rpc_error_view(e).message == "Internal error: "@ + (
        "PTY error: "@ + p.message()),
        parse_error_view().code == -32700,
{
}

/// A number below zero has a minus sign in front, and no other has.
pub proof fn law_signs(n: int)
    ensures
        n >= 0 ==> signed_text(n) == text::decimal(n as nat),
        n < 0 ==> signed_text(n) == seq!['-'] + text::decimal((-n) as nat),
{
    reveal_strlit("-");
    assert("-"@ =~= seq!['-']);
}

} // verus!
