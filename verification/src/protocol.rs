//! JSON-RPC 2.0 messages exchanged between the agent (server) and the remote
//! backend (client). Framing is one JSON object per line.

use vstd::prelude::*;

use crate::json::JsonValue;
use crate::text::concat2;

verus! {

/// The protocol version, which is always "2.0". Frames with another version
/// are rejected when they are read.
#[derive(Debug, Clone, Copy)]
pub struct JsonRpcVersion;

impl JsonRpcVersion {
    /// The version text written into every frame.
    pub fn text() -> (s: &'static str)
        ensures
            s@ == "2.0"@,
    {
        "2.0"
    }

    /// Accepts the version field of a frame: only "2.0".
    pub fn parse(s: &str) -> (r: Result<JsonRpcVersion, String>)
        ensures
            r is Ok <==> s@ == "2.0"@,
            r matches Err(m) ==> m@ == "unsupported jsonrpc version: "@ + s@,
    {
        if crate::order::string_eq(s, "2.0") {
            Ok(JsonRpcVersion)
        } else {
            Err(concat2("unsupported jsonrpc version: ", s))
        }
    }
}

/// A call from client to server.
#[derive(Debug)]
pub struct Request {
    pub jsonrpc: JsonRpcVersion,
    pub id: u64,
    pub method: String,
    pub params: JsonValue,
}

/// The answer to the request with the same id.
#[derive(Debug)]
pub struct Response {
    pub jsonrpc: JsonRpcVersion,
    pub id: u64,
    pub outcome: ResponseOutcome,
}

/// A result or an error.
#[derive(Debug)]
pub enum ResponseOutcome {
    Result(JsonValue),
    Error(ErrorObj),
}

/// A message without id, for which no response is expected.
#[derive(Debug)]
pub struct Notification {
    pub jsonrpc: JsonRpcVersion,
    pub method: String,
    pub params: JsonValue,
}

/// The error member of a response.
#[derive(Debug)]
pub struct ErrorObj {
    pub code: i32,
    pub message: String,
    pub data: Option<JsonValue>,
}

/// Any frame.
#[derive(Debug)]
pub enum Message {
    Request(Request),
    Response(Response),
    Notification(Notification),
}

/// Invalid JSON was received.
pub const PARSE_ERROR: i32 = -32700;

/// The JSON is not a valid request.
pub const INVALID_REQUEST: i32 = -32600;

/// The method does not exist.
pub const METHOD_NOT_FOUND: i32 = -32601;

/// Invalid method parameters.
pub const INVALID_PARAMS: i32 = -32602;

/// Internal error of the server.
pub const INTERNAL_ERROR: i32 = -32603;

/// An error of the application (the git backend).
pub const APPLICATION_ERROR: i32 = -32000;

/// A response carrying a successful result.
pub fn ok_response(id: u64, result: JsonValue) -> (r: Response)
    ensures
        r.id == id,
        r.outcome == ResponseOutcome::Result(result),
{
    Response { jsonrpc: JsonRpcVersion, id, outcome: ResponseOutcome::Result(result) }
}

/// A response carrying an error, without data.
pub fn err_response(id: u64, code: i32, message: String) -> (r: Response)
    ensures
        r.id == id,
        r.outcome == ResponseOutcome::Error(ErrorObj { code, message, data: None }),
{
    Response {
        jsonrpc: JsonRpcVersion,
        id,
        outcome: ResponseOutcome::Error(ErrorObj { code, message, data: None }),
    }
}

/// A notification (no id, no response expected).
pub fn notification(method: &str, params: JsonValue) -> (n: Notification)
    ensures
        n.method@ == method@,
        n.params == params,
{
    Notification { jsonrpc: JsonRpcVersion, method: String::from_str(method), params }
}

} // verus!
