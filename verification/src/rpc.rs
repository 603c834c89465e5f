//! JSON-RPC 2.0 envelope model: requests, notifications, responses,
//! and the protocol error codes. Parameter and result payloads are
//! carried as raw JSON text; decoding them is the transport layer's
//! business.

use vstd::prelude::*;
use vstd::string::*;

verus! {

/// A protocol error: a well-known code and its fixed message.
pub struct RpcError {
    pub code: i64,
    pub message: String,
}

/// The JSON-RPC and LSP error codes this server speaks.
pub struct RpcErrors {}

impl RpcErrors {
    pub fn parse_error() -> (e: RpcError)
        ensures
            e.code == -32700,
            e.message@ == "Parse error"@,
    {
        RpcError { code: -32700, message: String::from_str("Parse error") }
    }

    pub fn invalid_request() -> (e: RpcError)
        ensures
            e.code == -32600,
            e.message@ == "Invalid request"@,
    {
        RpcError { code: -32600, message: String::from_str("Invalid request") }
    }

    pub fn method_not_found() -> (e: RpcError)
        ensures
            e.code == -32601,
            e.message@ == "Method not found"@,
    {
        RpcError { code: -32601, message: String::from_str("Method not found") }
    }

    pub fn invalid_params() -> (e: RpcError)
        ensures
            e.code == -32602,
            e.message@ == "Invalid params"@,
    {
        RpcError { code: -32602, message: String::from_str("Invalid params") }
    }

    pub fn internal_error() -> (e: RpcError)
        ensures
            e.code == -32603,
            e.message@ == "Internal error"@,
    {
        RpcError { code: -32603, message: String::from_str("Internal error") }
    }

    pub fn server_not_initialized() -> (e: RpcError)
        ensures
            e.code == -32002,
            e.message@ == "Server not initialized"@,
    {
        RpcError { code: -32002, message: String::from_str("Server not initialized") }
    }

    pub fn unknown_error_code() -> (e: RpcError)
        ensures
            e.code == -32001,
            e.message@ == "Unknown error code"@,
    {
        RpcError { code: -32001, message: String::from_str("Unknown error code") }
    }

    pub fn request_failed() -> (e: RpcError)
        ensures
            e.code == -32803,
            e.message@ == "Request failed"@,
    {
        RpcError { code: -32803, message: String::from_str("Request failed") }
    }

    pub fn server_cancelled() -> (e: RpcError)
        ensures
            e.code == -32802,
            e.message@ == "Server cancelled"@,
    {
        RpcError { code: -32802, message: String::from_str("Server cancelled") }
    }

    pub fn content_modified() -> (e: RpcError)
        ensures
            e.code == -32801,
            e.message@ == "Content modified"@,
    {
        RpcError { code: -32801, message: String::from_str("Content modified") }
    }

    pub fn request_cancelled() -> (e: RpcError)
        ensures
            e.code == -32800,
            e.message@ == "Request cancelled"@,
    {
        RpcError { code: -32800, message: String::from_str("Request cancelled") }
    }
}

/// A request id: an integer or a string.
pub enum RpcId {
    Num(i64),
    Str(String),
}

/// A client request, awaiting a response under its id.
pub struct RpcRequest {
    pub jsonrpc: String,
    pub id: RpcId,
    pub method: String,
    pub params: Option<String>,
}

/// A notification: fire-and-forget, no id.
pub struct RpcNotification {
    pub jsonrpc: String,
    pub method: String,
    pub params: Option<String>,
}

impl RpcNotification {
    pub fn new(method: String, params: Option<String>) -> (n: RpcNotification)
        ensures
            n.jsonrpc@ == "2.0"@,
            n.method == method,
            n.params == params,
    {
        RpcNotification { jsonrpc: String::from_str("2.0"), method, params }
    }
}

/// A successful response: `result` is the serialised payload.
pub struct RpcResponseMessageResult {
    pub jsonrpc: String,
    pub id: Option<RpcId>,
    pub result: Option<String>,
}

/// A failed response.
pub struct RpcResponseMessageError {
    pub jsonrpc: String,
    pub id: Option<RpcId>,
    pub error: RpcResponseError,
}

/// The error member of a failed response.
pub struct RpcResponseError {
    pub code: i64,
    pub message: String,
    pub data: Option<String>,
}

impl RpcResponseError {
    pub fn from_rpc_error(err: RpcError) -> (r: RpcResponseError)
        ensures
            r.code == err.code,
            r.message == err.message,
            r.data is None,
    {
        RpcResponseError { code: err.code, message: err.message, data: None }
    }
}

/// A response carries exactly one of a result or an error.
pub enum RpcResponseMessage {
    Result(RpcResponseMessageResult),
    Error(RpcResponseMessageError),
}

impl RpcResponseMessage {
    /// The error response for `err`, addressed to `id` (or to the
    /// null id for frame-level failures).
    pub fn from_error(id: Option<RpcId>, err: RpcError) -> (r: RpcResponseMessage)
        ensures
            r matches RpcResponseMessage::Error(e) && e.jsonrpc@ == "2.0"@ && e.id == id
                && e.error.code == err.code && e.error.message == err.message && e.error.data
                is None,
    {
        RpcResponseMessage::Error(
            RpcResponseMessageError {
                jsonrpc: String::from_str("2.0"),
                error: RpcResponseError::from_rpc_error(err),
                id,
            },
        )
    }

    /// The success response carrying an already-serialised result.
    pub fn from_result(id: RpcId, res: String) -> (r: RpcResponseMessage)
        ensures
            r matches RpcResponseMessage::Result(m) && m.jsonrpc@ == "2.0"@ && m.id == Some(id)
                && m.result == Some(res),
    {
        RpcResponseMessage::Result(
            RpcResponseMessageResult {
                jsonrpc: String::from_str("2.0"),
                result: Some(res),
                id: Some(id),
            },
        )
    }

    spec fn version(self) -> Seq<char> {
        match self {
            RpcResponseMessage::Result(x) => x.jsonrpc@,
            RpcResponseMessage::Error(x) => x.jsonrpc@,
        }
    }
}

/// Any message on the wire.
pub enum RpcMessage {
    Request(RpcRequest),
    Notification(RpcNotification),
    Response(RpcResponseMessage),
}

impl RpcMessage {
    /// The message's `jsonrpc` member.
    pub open spec fn version(self) -> Seq<char> {
        match self {
            RpcMessage::Request(x) => x.jsonrpc@,
            RpcMessage::Notification(x) => x.jsonrpc@,
            RpcMessage::Response(RpcResponseMessage::Result(x)) => x.jsonrpc@,
            RpcMessage::Response(RpcResponseMessage::Error(x)) => x.jsonrpc@,
        }
    }

    /// A message is valid exactly when it declares protocol version
    /// 2.0.
    pub fn validate(&self) -> (r: bool)
        ensures
            r == (self.version() == "2.0"@),
    {
        let expected = String::from_str("2.0");
        let jsonrpc: &String = match self {
            RpcMessage::Request(x) => &x.jsonrpc,
            RpcMessage::Notification(x) => &x.jsonrpc,
            RpcMessage::Response(RpcResponseMessage::Result(x)) => &x.jsonrpc,
            RpcMessage::Response(RpcResponseMessage::Error(x)) => &x.jsonrpc,
        };
        jsonrpc.eq(&expected)
    }
}

} // verus!
