use vstd::prelude::*;

verus! {

/// A JSON-RPC request as it stands on the wire.
pub struct Request {
    rpc: String,
    id: u32,
    method: String,
}

/// A message from the client: a request, which wants an answer, or a notification.
#[derive(Debug)]
pub enum IncommingMessage<'a> {
    Request { id: u32, method: String, params: Option<Params>, jsonrpc: &'a str },
    Notification { method: String, jsonrpc: &'a str },
}

/// The parameters of the requests this server understands.
#[derive(Debug)]
pub enum Params {
    DocumentFormattingParams { text_document: TextDocumentIdentifier, options: FormattingOptions },
    InitializeParams { client_info: ClientInfo },
}

/// The document a request is about.
#[derive(Debug)]
pub struct TextDocumentIdentifier {
    pub uri: String,
}

/// How the client wants a document formatted.
#[derive(Debug)]
pub struct FormattingOptions {}

/// The client's name and version.
#[derive(Debug)]
pub struct ClientInfo {
    pub name: String,
    pub version: String,
}

/// Whether the method of a message is `name`.
pub fn method_is(method: &String, name: &str) -> (r: bool)
    ensures
        r == (method@ == name@),
{
    let wanted = name.to_owned();
    *method == wanted
}

} // verus!
