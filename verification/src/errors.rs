//! Replies that tell a client what went wrong.

use vstd::prelude::*;

use crate::text::{contains, has_substring};
use crate::types::optional_text;

verus! {

/// The description of an error in the terms of the OpenAI interface.
#[derive(Clone, Debug, PartialEq, Eq)]
pub struct OpenAIError {
    pub message: String,
    pub kind: String,
    pub code: String,
    pub param: Option<String>,
}

/// The body of a reply that holds such a description.
#[derive(Clone, Debug, PartialEq, Eq)]
pub struct OpenAIErrorResponse {
    pub error: OpenAIError,
}

/// The contents of an `OpenAIErrorResponse`.
#[verifier::ext_equal]
pub struct OpenAIErrorView {
    pub message: Seq<char>,
    pub kind: Seq<char>,
    pub code: Seq<char>,
    pub param: Option<Seq<char>>,
}

impl View for OpenAIErrorResponse {
    type V = OpenAIErrorView;

    open spec fn view(&self) -> OpenAIErrorView {
        OpenAIErrorView {
            message: self.error.message@,
            kind: self.error.kind@,
            code: self.error.code@,
            param: optional_text(self.error.param),
        }
    }
}

/// The body of a reply that reports an error.
#[derive(Clone, Debug, PartialEq, Eq)]
pub enum ErrorBody {
    /// An object with this text under `error`.
    Message(String),
    /// A description in the terms of the OpenAI interface.
    OpenAI(OpenAIErrorResponse),
}

/// The contents of an `ErrorBody`.
#[verifier::ext_equal]
pub enum ErrorBodyView {
    Message(Seq<char>),
    OpenAI(OpenAIErrorView),
}

impl View for ErrorBody {
    type V = ErrorBodyView;

    open spec fn view(&self) -> ErrorBodyView {
        match self {
            ErrorBody::Message(text) => ErrorBodyView::Message(text@),
            ErrorBody::OpenAI(response) => ErrorBodyView::OpenAI(response@),
        }
    }
}

/// A reply that reports an error, with its HTTP status code.
#[derive(Clone, Debug, PartialEq, Eq)]
pub struct ErrorReply {
    pub status: u16,
    pub body: ErrorBody,
}

/// The contents of an `ErrorReply`.
#[verifier::ext_equal]
pub struct ErrorReplyView {
    pub status: u16,
    pub body: ErrorBodyView,
}

impl View for ErrorReply {
    type V = ErrorReplyView;

    open spec fn view(&self) -> ErrorReplyView {
        ErrorReplyView { status: self.status, body: self.body@ }
    }
}

/// The reply with a plain message.
pub open spec fn message_reply_view(status: u16, message: Seq<char>) -> ErrorReplyView {
    ErrorReplyView { status, body: ErrorBodyView::Message(message) }
}

/// The reply with a plain message.
pub fn message_reply(status: u16, message: &str) -> (r: ErrorReply)
    ensures
        r@ == message_reply_view(status, message@),
{
    ErrorReply { status, body: ErrorBody::Message(message.to_string()) }
}

/// The description of an error that concerns no single parameter.
pub open spec fn error_view(message: Seq<char>, kind: Seq<char>, code: Seq<char>) -> OpenAIErrorView {
    OpenAIErrorView { message, kind, code, param: None }
}

/// The description of an error that concerns no single parameter.
pub fn openai_error(message: &str, kind: &str, code: &str) -> (r: OpenAIErrorResponse)
    ensures
        r@ == error_view(message@, kind@, code@),
{
    OpenAIErrorResponse {
        error: OpenAIError {
            message: message.to_string(),
            kind: kind.to_string(),
            code: code.to_string(),
            param: None,
        },
    }
}

/// The status code, type and code for an error of the service, by what its text
/// holds; the first that fits counts.
pub open spec fn error_class(text: Seq<char>) -> (u16, Seq<char>, Seq<char>) {
    if contains(text, "Internal server error"@) {
        (500, "internal_error"@, "internal_error"@)
    } else if contains(text, "rate limit"@) {
        (429, "rate_limit_exceeded"@, "rate_limit_exceeded"@)
    } else if contains(text, "Invalid token"@) || contains(text, "Unauthorized"@) {
        (401, "invalid_auth"@, "invalid_api_key"@)
    } else if contains(text, "Bot does not exist"@) {
        (404, "model_not_found"@, "model_not_found"@)
    } else {
        (400, "invalid_request"@, "bad_request"@)
    }
}

/// The reply to an error of the service.
pub open spec fn service_error_view(text: Seq<char>) -> ErrorReplyView {
    let class = error_class(text);
    ErrorReplyView {
        status: class.0,
        body: ErrorBodyView::OpenAI(error_view(text, class.1, class.2)),
    }
}

/// The status code and the description for an error of the service.
pub fn convert_poe_error_to_openai(text: &str) -> (r: (u16, OpenAIErrorResponse))
    ensures
        r.0 == error_class(text@).0,
        r.1@ == error_view(text@, error_class(text@).1, error_class(text@).2),
{
    if has_substring(text, "Internal server error") {
        (500, openai_error(text, "internal_error", "internal_error"))
    } else if has_substring(text, "rate limit") {
        (429, openai_error(text, "rate_limit_exceeded", "rate_limit_exceeded"))
    } else if has_substring(text, "Invalid token") || has_substring(text, "Unauthorized") {
        (401, openai_error(text, "invalid_auth", "invalid_api_key"))
    } else if has_substring(text, "Bot does not exist") {
        (404, openai_error(text, "model_not_found", "model_not_found"))
    } else {
        (400, openai_error(text, "invalid_request", "bad_request"))
    }
}

/// The reply to an error of the service.
pub fn service_error_reply(text: &str) -> (r: ErrorReply)
    ensures
        r@ == service_error_view(text@),
{
    let (status, response) = convert_poe_error_to_openai(text);
    ErrorReply { status, body: ErrorBody::OpenAI(response) }
}

} // verus!
