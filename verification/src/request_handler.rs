use vstd::prelude::*;
use crate::request::{method_is, ClientInfo, IncommingMessage, Params};
use crate::response::{initialize_response, is_initialize_response, Response};

verus! {

/// The error for a message that the stateless handler does not know.
pub open spec fn unhandled_message() -> Seq<char> {
    "Unhandled message type"@
}

/// Answers the initialization request and accepts the `initialized` notification, without
/// keeping any state; every other message is an error.
pub fn handle_request<'a>(request: &'a IncommingMessage<'a>) -> (r: Result<Option<Response<'static>>, String>)
    ensures
        match *request {
            IncommingMessage::Request { id, method, params, .. } => if method@ == "initialize"@
                && params matches Some(Params::InitializeParams { .. }) {
                r matches Ok(Some(resp)) && is_initialize_response(resp, id, false)
            } else {
                r matches Err(e) && e@ == unhandled_message()
            },
            IncommingMessage::Notification { method, .. } => if method@ == "initialized"@ {
                r matches Ok(None)
            } else {
                r matches Err(e) && e@ == unhandled_message()
            },
        },
{
    match request {
        IncommingMessage::Request {
            method,
            params: Some(Params::InitializeParams { client_info }),
            id,
            ..
        } if method_is(method, "initialize") => Ok(Some(handle_initialize_request(*id, client_info))),
        IncommingMessage::Notification { method, .. } if method_is(method, "initialized") => Ok(None),
        _ => Err("Unhandled message type".to_owned()),
    }
}

/// The answer to the initialization request `id`, which offers no formatting.
pub fn handle_initialize_request(id: u32, client_info: &ClientInfo) -> (r: Response<'static>)
    ensures
        is_initialize_response(r, id, false),
{
    initialize_response(id, false)
}

} // verus!
