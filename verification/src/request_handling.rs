use vstd::prelude::*;
use vstd::string::StringExecFns;
use crate::request::{method_is, ClientInfo, FormattingOptions, IncommingMessage, Params, TextDocumentIdentifier};
use crate::response::{
    empty_response, initialize_response, is_empty_response, is_error_response,
    is_initialize_response, json_rpc_version, Response, ResponseError, ResponseErrorCode,
};

verus! {

/// The server's handler of client messages. It answers requests until a shutdown request
/// comes; after that it refuses every request.
pub struct RequestHandler {
    is_active: bool,
}

/// What the server does after a message: send a response, exit, or nothing.
pub enum RequestHandlerAction<'a> {
    ResponseAction(Response<'a>),
    ExitAction,
    NoopAction,
}

/// How the handler treats a message.
pub enum Handling {
    /// A request after shutdown, refused.
    Refused { id: u32 },
    /// The initialization request.
    Initialize { id: u32 },
    /// The shutdown request.
    Shutdown { id: u32 },
    /// A request to format a document.
    Formatting { id: u32 },
    /// The notification that the client is initialized.
    Initialized,
    /// The notification to exit.
    Exit,
    /// Any other notification.
    OtherNotification,
    /// Any other request.
    Unhandled,
}

/// How a handler that is active (or not) treats message `m`.
pub open spec fn handling(active: bool, m: IncommingMessage) -> Handling {
    match m {
        IncommingMessage::Request { id, method, params, .. } => if !active {
            Handling::Refused { id }
        } else if method@ == "initialize"@ && params matches Some(Params::InitializeParams { .. }) {
            Handling::Initialize { id }
        } else if method@ == "shutdown"@ {
            Handling::Shutdown { id }
        } else if method@ == "textDocument/formatting"@ && params matches Some(
            Params::DocumentFormattingParams { .. },
        ) {
            Handling::Formatting { id }
        } else {
            Handling::Unhandled
        },
        IncommingMessage::Notification { method, .. } => if method@ == "initialized"@ {
            Handling::Initialized
        } else if method@ == "exit"@ {
            Handling::Exit
        } else {
            Handling::OtherNotification
        },
    }
}

/// Whether the handler is still active after treating a message the way `h` says.
pub open spec fn active_after(active: bool, h: Handling) -> bool {
    active && !(h is Shutdown)
}

/// The message with which a refused request is answered.
pub open spec fn shut_down_message() -> Seq<char> {
    "Server has been shut down, so new requests are invalid."@
}

/// The error for a notification the handler does not know.
pub open spec fn unknown_notification_message() -> Seq<char> {
    "TODO: add error types to handler so that they can be gracefully handled outside"@
}

/// The start of the error for a request the handler does not know; the message's debug
/// text follows it.
pub open spec fn unhandled_prefix() -> Seq<char> {
    "Unhandled message type "@
}

/// The debug text of a message, as `{:#?}` writes it.
pub uninterp spec fn message_debug_text(m: IncommingMessage) -> Seq<char>;

/// The debug text of `m`, as the `{:#?}` format of its derived `Debug` writes it. What the
/// text holds is not stated here; it is named by `message_debug_text`.
#[verifier::external_body]
fn debug_text(m: &IncommingMessage) -> (r: String)
    ensures
        r@ == message_debug_text(*m),
{
    format!("{:#?}", m)
}

/// What the handler returns when it treats `m` the way `h` says.
pub open spec fn outcome_matches(
    r: Result<RequestHandlerAction, String>,
    h: Handling,
    m: IncommingMessage,
) -> bool {
    match h {
        Handling::Refused { id } => r matches Ok(RequestHandlerAction::ResponseAction(resp))
            && is_error_response(resp, id, ResponseErrorCode::InvalidRequest, shut_down_message()),
        Handling::Initialize { id } => r matches Ok(RequestHandlerAction::ResponseAction(resp))
            && is_initialize_response(resp, id, true),
        Handling::Shutdown { id } => r matches Ok(RequestHandlerAction::ResponseAction(resp))
            && is_empty_response(resp, id),
        Handling::Formatting { id } => r matches Ok(RequestHandlerAction::ResponseAction(resp))
            && is_empty_response(resp, id),
        Handling::Initialized => r matches Ok(RequestHandlerAction::NoopAction),
        Handling::Exit => r matches Ok(RequestHandlerAction::ExitAction),
        Handling::OtherNotification => r matches Err(e) && e@ == unknown_notification_message(),
        Handling::Unhandled => r matches Err(e) && e@ == unhandled_prefix() + message_debug_text(m),
    }
}

impl RequestHandler {
    /// Whether the handler still answers requests.
    pub closed spec fn active(&self) -> bool {
        self.is_active
    }

    /// A handler that answers requests.
    pub fn new() -> (r: RequestHandler)
        ensures
            r.active(),
    {
        RequestHandler { is_active: true }
    }

    /// Treats one message from the client: answers a request, or says what to do after a
    /// notification, or returns an error for a message it does not know.
    pub fn handle_request<'a>(&mut self, request: &'a IncommingMessage<'a>) -> (r: Result<
        RequestHandlerAction<'a>,
        String,
    >)
        ensures
            outcome_matches(r, handling(old(self).active(), *request), *request),
            final(self).active() == active_after(old(self).active(), handling(old(self).active(), *request)),
    {
        if let IncommingMessage::Request { id, .. } = request {
            if !self.is_active {
                let resp = Response {
                    id: Some(*id),
                    result: None,
                    jsonrpc: "2.0",
                    error: Some(
                        ResponseError {
                            code: ResponseErrorCode::InvalidRequest,
                            data: None,
                            message: "Server has been shut down, so new requests are invalid.",
                        },
                    ),
                };
                return Ok(RequestHandlerAction::ResponseAction(resp));
            }
        }
        match request {
            IncommingMessage::Request { id, method, params, .. } => {
                if method_is(method, "initialize") {
                    if let Some(Params::InitializeParams { client_info }) = params {
                        return Ok(
                            RequestHandlerAction::ResponseAction(
                                self.handle_initialize_request(*id, client_info),
                            ),
                        );
                    }
                }
                if method_is(method, "shutdown") {
                    return Ok(RequestHandlerAction::ResponseAction(self.handle_shutdown_request(*id)));
                }
                if method_is(method, "textDocument/formatting") {
                    if let Some(Params::DocumentFormattingParams { text_document, options }) = params {
                        return Ok(
                            RequestHandlerAction::ResponseAction(
                                self.handle_textdocument_formatting_request(*id, text_document, options),
                            ),
                        );
                    }
                }
                let mut text = "Unhandled message type ".to_owned();
                let details = debug_text(request);
                text.append(details.as_str());
                Err(text)
            },
            IncommingMessage::Notification { method, .. } => {
                if method_is(method, "initialized") {
                    Ok(RequestHandlerAction::NoopAction)
                } else if method_is(method, "exit") {
                    Ok(RequestHandlerAction::ExitAction)
                } else {
                    Err(
                        "TODO: add error types to handler so that they can be gracefully handled outside".to_owned(),
                    )
                }
            },
        }
    }

    /// The answer to the initialization request `id`: the server's name and version, and
    /// that it formats documents.
    pub fn handle_initialize_request(&self, id: u32, client_info: &ClientInfo) -> (r: Response<
        'static,
    >)
        ensures
            is_initialize_response(r, id, true),
    {
        initialize_response(id, true)
    }

    /// Shuts the handler down and answers the shutdown request `id` with an empty response.
    pub fn handle_shutdown_request(&mut self, id: u32) -> (r: Response<'static>)
        ensures
            is_empty_response(r, id),
            !final(self).active(),
    {
        self.is_active = false;
        empty_response(id)
    }

    /// Answers the formatting request `id` with an empty response.
    pub fn handle_textdocument_formatting_request(
        &self,
        id: u32,
        text_document: &TextDocumentIdentifier,
        optionts: &FormattingOptions,
    ) -> (r: Response<'static>)
        ensures
            is_empty_response(r, id),
    {
        empty_response(id)
    }
}

/// Once shut down, a handler stays shut down, whatever message comes.
pub proof fn lemma_shutdown_is_final(m: IncommingMessage)
    ensures
        !active_after(false, handling(false, m)),
{
}

/// A shut-down handler refuses every request, with the request's own id.
pub proof fn lemma_requests_refused_after_shutdown(m: IncommingMessage)
    requires
        m is Request,
    ensures
        handling(false, m) == (Handling::Refused { id: m->Request_id }),
{
}

/// Notifications are treated the same whether or not the handler was shut down.
pub proof fn lemma_notifications_ignore_shutdown(m: IncommingMessage)
    requires
        m is Notification,
    ensures
        handling(true, m) == handling(false, m),
        active_after(true, handling(true, m)),
{
}

/// A shutdown request deactivates an active handler; no other message does.
pub proof fn lemma_only_shutdown_deactivates(m: IncommingMessage)
    ensures
        !active_after(true, handling(true, m)) <==> (m is Request && m->Request_method@
            == "shutdown"@),
{
    reveal_strlit("shutdown");
    reveal_strlit("initialize");
    assert("shutdown"@.len() != "initialize"@.len());
    if m is Request {
        let method = m->Request_method@;
        if method == "shutdown"@ {
            assert(method != "initialize"@);
            assert(handling(true, m) is Shutdown);
        }
    }
}

} // verus!
