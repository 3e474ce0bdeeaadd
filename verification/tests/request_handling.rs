use pycom_wrap::request::{ClientInfo, FormattingOptions, IncommingMessage, Params, TextDocumentIdentifier};
use pycom_wrap::request_handler;
use pycom_wrap::request_handling::{RequestHandler, RequestHandlerAction};
use pycom_wrap::response::{Response, ResponseErrorCode, Result as ResponseResult};

fn request(id: u32, method: &str, params: Option<Params>) -> IncommingMessage<'static> {
    IncommingMessage::Request { id, method: method.to_owned(), params, jsonrpc: "2.0" }
}

fn notification(method: &str) -> IncommingMessage<'static> {
    IncommingMessage::Notification { method: method.to_owned(), jsonrpc: "2.0" }
}

fn initialize_params() -> Option<Params> {
    Some(Params::InitializeParams {
        client_info: ClientInfo { name: "editor".to_owned(), version: "1.0".to_owned() },
    })
}

fn formatting_params() -> Option<Params> {
    Some(Params::DocumentFormattingParams {
        text_document: TextDocumentIdentifier { uri: "file:///a.py".to_owned() },
        options: FormattingOptions {},
    })
}

fn response_of(action: RequestHandlerAction) -> Response {
    match action {
        RequestHandlerAction::ResponseAction(r) => r,
        _ => panic!("expected a response"),
    }
}

#[test]
fn initialize_answers_with_server_info() {
    let mut handler = RequestHandler::new();
    let message = request(1, "initialize", initialize_params());
    let response = response_of(handler.handle_request(&message).unwrap());
    assert_eq!(response.id, Some(1));
    assert_eq!(response.jsonrpc, "2.0");
    assert!(response.error.is_none());
    match response.result {
        Some(ResponseResult::InitializeResult { capabilities, server_info }) => {
            assert!(capabilities.document_formatting_provider);
            assert_eq!(server_info.name, "pycom-wrapper");
            assert_eq!(server_info.version, "0.0.0.0.0.0-beta1.final");
        }
        None => panic!("expected a result"),
    }
}

#[test]
fn shutdown_then_requests_are_refused() {
    let mut handler = RequestHandler::new();
    let shutdown = request(2, "shutdown", None);
    let response = response_of(handler.handle_request(&shutdown).unwrap());
    assert_eq!(response.id, Some(2));
    assert!(response.result.is_none() && response.error.is_none());

    let later = request(3, "initialize", initialize_params());
    let response = response_of(handler.handle_request(&later).unwrap());
    assert_eq!(response.id, Some(3));
    assert!(response.result.is_none());
    let error = response.error.unwrap();
    assert_eq!(error.code, ResponseErrorCode::InvalidRequest);
    assert_eq!(error.code.code(), -32600);
    assert_eq!(error.message, "Server has been shut down, so new requests are invalid.");
    assert!(error.data.is_none());

    let exit = notification("exit");
    assert!(matches!(handler.handle_request(&exit).unwrap(), RequestHandlerAction::ExitAction));
}

#[test]
fn formatting_answers_with_an_empty_response() {
    let mut handler = RequestHandler::new();
    let message = request(4, "textDocument/formatting", formatting_params());
    let response = response_of(handler.handle_request(&message).unwrap());
    assert_eq!(response.id, Some(4));
    assert!(response.result.is_none() && response.error.is_none());
}

#[test]
fn notifications() {
    let mut handler = RequestHandler::new();
    assert!(matches!(
        handler.handle_request(&notification("initialized")).unwrap(),
        RequestHandlerAction::NoopAction
    ));
    assert!(matches!(
        handler.handle_request(&notification("exit")).unwrap(),
        RequestHandlerAction::ExitAction
    ));
    assert_eq!(
        handler.handle_request(&notification("$/cancel")).err().unwrap(),
        "TODO: add error types to handler so that they can be gracefully handled outside"
    );
}

#[test]
fn unknown_request_is_an_error_with_its_debug_text() {
    let mut handler = RequestHandler::new();
    let message = request(5, "textDocument/hover", None);
    let error = handler.handle_request(&message).err().unwrap();
    assert_eq!(error, format!("Unhandled message type {:#?}", message));
}

#[test]
fn initialize_without_parameters_is_unhandled() {
    let mut handler = RequestHandler::new();
    let message = request(6, "initialize", None);
    let error = handler.handle_request(&message).err().unwrap();
    assert!(error.starts_with("Unhandled message type Request {"));
}

#[test]
fn error_code_numbers() {
    assert_eq!(ResponseErrorCode::ParseError.code(), -32700);
    assert_eq!(ResponseErrorCode::MethodNotFound.code(), -32601);
    assert_eq!(ResponseErrorCode::ServerNotInitialized.code(), -32002);
    assert_eq!(ResponseErrorCode::RequestCancelled.code(), -32800);
}

#[test]
fn stateless_handler() {
    let message = request(7, "initialize", initialize_params());
    let response = request_handler::handle_request(&message).unwrap().unwrap();
    assert_eq!(response.id, Some(7));
    match response.result {
        Some(ResponseResult::InitializeResult { capabilities, .. }) => {
            assert!(!capabilities.document_formatting_provider)
        }
        None => panic!("expected a result"),
    }
    assert!(request_handler::handle_request(&notification("initialized")).unwrap().is_none());
    assert_eq!(
        request_handler::handle_request(&request(8, "shutdown", None)).err().unwrap(),
        "Unhandled message type"
    );
}
