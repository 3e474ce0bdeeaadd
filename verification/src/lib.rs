//! A language-server backend for Python sources: a lexer that turns source text
//! into tokens with byte ranges, the JSON-RPC framing used on the wire, and the
//! request-handling state machine of the server.

pub mod text_size;
pub mod text_range;
pub mod int_parse;
pub mod rpc;
pub mod scanner;
pub mod token;
pub mod unicode;
pub mod lex;
pub mod lex_spec;
pub mod string_parsing;
pub mod request;
pub mod notification;
pub mod response;
pub mod request_handling;
pub mod request_handler;
pub mod comment_wrapper;
pub mod lex_laws;
