use vstd::prelude::*;

verus! {

/// The version of JSON-RPC that every answer names.
pub open spec fn json_rpc_version() -> Seq<char> {
    "2.0"@
}

/// The answer to a request.
pub struct Response<'a> {
    pub id: Option<u32>,
    pub jsonrpc: &'a str,
    pub result: Option<Result>,
    pub error: Option<ResponseError<'a>>,
}

/// Why a request failed.
pub struct ResponseError<'a> {
    pub code: ResponseErrorCode,
    pub message: &'a str,
    pub data: Option<ResponseErrorData<'a>>,
}

/// The error codes of JSON-RPC and of the language server protocol.
#[derive(Clone, Copy, Debug, PartialEq, Eq, Structural)]
pub enum ResponseErrorCode {
    ParseError,
    InvalidRequest,
    MethodNotFound,
    InvalidParams,
    InternalError,
    ServerNotInitialized,
    UnknownErrorCode,
    RequestFailed,
    ServerCancelled,
    ContentModified,
    RequestCancelled,
}

/// The number that stands for an error code in the protocol.
pub open spec fn error_code_value(c: ResponseErrorCode) -> int {
    match c {
        ResponseErrorCode::ParseError => -32700,
        ResponseErrorCode::InvalidRequest => -32600,
        ResponseErrorCode::MethodNotFound => -32601,
        ResponseErrorCode::InvalidParams => -32602,
        ResponseErrorCode::InternalError => -32603,
        ResponseErrorCode::ServerNotInitialized => -32002,
        ResponseErrorCode::UnknownErrorCode => -32001,
        ResponseErrorCode::RequestFailed => -32803,
        ResponseErrorCode::ServerCancelled => -32802,
        ResponseErrorCode::ContentModified => -32801,
        ResponseErrorCode::RequestCancelled => -32800,
    }
}

impl ResponseErrorCode {
    /// The number that stands for this code in the protocol.
    pub fn code(&self) -> (r: i32)
        ensures
            r == error_code_value(*self),
    {
        match self {
            ResponseErrorCode::ParseError => -32700,
            ResponseErrorCode::InvalidRequest => -32600,
            ResponseErrorCode::MethodNotFound => -32601,
            ResponseErrorCode::InvalidParams => -32602,
            ResponseErrorCode::InternalError => -32603,
            ResponseErrorCode::ServerNotInitialized => -32002,
            ResponseErrorCode::UnknownErrorCode => -32001,
            ResponseErrorCode::RequestFailed => -32803,
            ResponseErrorCode::ServerCancelled => -32802,
            ResponseErrorCode::ContentModified => -32801,
            ResponseErrorCode::RequestCancelled => -32800,
        }
    }
}

/// Further information on an error.
pub enum ResponseErrorData<'a> {
    String(&'a str),
    Number(i32),
    Bool(bool),
}

/// The result of a request that succeeded.
pub enum Result {
    InitializeResult { capabilities: ServerCapabilities, server_info: ServerInfo },
}

/// The server's name and version.
pub struct ServerInfo {
    pub name: &'static str,
    pub version: &'static str,
}

/// What the server can do.
pub struct ServerCapabilities {
    pub document_formatting_provider: bool,
}

/// The server's name.
pub open spec fn server_name() -> Seq<char> {
    "pycom-wrapper"@
}

/// The server's version.
pub open spec fn server_version() -> Seq<char> {
    "0.0.0.0.0.0-beta1.final"@
}

/// A response that answers request `id` with nothing: neither a result nor an error.
pub open spec fn is_empty_response(r: Response, id: u32) -> bool {
    &&& r.id == Some(id)
    &&& r.jsonrpc@ == json_rpc_version()
    &&& r.result is None
    &&& r.error is None
}

/// A response that answers the initialization request `id`: the server's name and
/// version, and whether it formats documents.
pub open spec fn is_initialize_response(r: Response, id: u32, formatting: bool) -> bool {
    &&& r.id == Some(id)
    &&& r.jsonrpc@ == json_rpc_version()
    &&& r.error is None
    &&& r.result matches Some(Result::InitializeResult { capabilities, server_info })
    &&& capabilities.document_formatting_provider == formatting
    &&& server_info.name@ == server_name()
    &&& server_info.version@ == server_version()
}

/// A response that refuses request `id` with `code` and `message`, and no further data.
pub open spec fn is_error_response(
    r: Response,
    id: u32,
    code: ResponseErrorCode,
    message: Seq<char>,
) -> bool {
    &&& r.id == Some(id)
    &&& r.jsonrpc@ == json_rpc_version()
    &&& r.result is None
    &&& r.error matches Some(e)
    &&& e.code == code
    &&& e.message@ == message
    &&& e.data is None
}

/// The answer to the initialization request `id`.
pub fn initialize_response(id: u32, formatting: bool) -> (r: Response<'static>)
    ensures
        is_initialize_response(r, id, formatting),
{
    Response {
        jsonrpc: "2.0",
        id: Some(id),
        result: Some(
            Result::InitializeResult {
                capabilities: ServerCapabilities { document_formatting_provider: formatting },
                server_info: ServerInfo { name: "pycom-wrapper", version: "0.0.0.0.0.0-beta1.final" },
            },
        ),
        error: None,
    }
}

/// An answer to request `id` with neither a result nor an error.
pub fn empty_response(id: u32) -> (r: Response<'static>)
    ensures
        is_empty_response(r, id),
{
    Response { jsonrpc: "2.0", id: Some(id), result: None, error: None }
}

} // verus!
