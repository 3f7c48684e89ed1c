//! Chat Completions response types and the mapping of provider errors.
//!
//! The wire path is streaming only, so the synthesis of events from chunks, with
//! its per-call state, is in [`crate::sse::chat`].

use crate::error::{ApiError, ApiErrorView, BAD_REQUEST, INTERNAL_SERVER_ERROR, UNAUTHORIZED};
use crate::text::str_eq;
use vstd::prelude::*;

verus! {

/// A response that is not streamed.
#[derive(Debug)]
pub struct ChatCompletionResponse {
    pub id: String,
    pub object: String,
    pub created: u64,
    pub model: String,
    pub choices: Vec<ChatChoice>,
    pub usage: Option<ChatUsage>,
}

#[derive(Debug)]
pub struct ChatChoice {
    pub index: usize,
    pub message: ChatMessage,
    pub finish_reason: Option<String>,
}

#[derive(Debug)]
pub struct ChatMessage {
    pub role: String,
    pub content: Option<String>,
    pub tool_calls: Option<Vec<ChatToolCall>>,
}

#[derive(Debug)]
pub struct ChatToolCall {
    pub id: String,
    pub type_: Option<String>,
    pub function: ChatFunctionCall,
}

#[derive(Debug)]
pub struct ChatFunctionCall {
    pub name: String,
    pub arguments: String,
}

#[derive(Debug, Clone, Copy, PartialEq, Eq)]
pub struct ChatUsage {
    pub prompt_tokens: u64,
    pub completion_tokens: u64,
    pub total_tokens: u64,
}

impl DeepView for ChatUsage {
    type V = ChatUsage;

    open spec fn deep_view(&self) -> ChatUsage {
        *self
    }
}

/// A streaming chunk.
///
/// Where usage was requested, the last chunk, after the one with the
/// `finish_reason`, has no choices and carries the [`ChatUsage`].
#[derive(Debug)]
pub struct ChatCompletionChunk {
    pub id: String,
    pub object: String,
    pub created: u64,
    pub model: String,
    pub choices: Vec<ChatChoiceDelta>,
    pub usage: Option<ChatUsage>,
}

pub struct ChatCompletionChunkView {
    pub id: Seq<char>,
    pub object: Seq<char>,
    pub created: u64,
    pub model: Seq<char>,
    pub choices: Seq<ChatChoiceDeltaView>,
    pub usage: Option<ChatUsage>,
}

impl DeepView for ChatCompletionChunk {
    type V = ChatCompletionChunkView;

    open spec fn deep_view(&self) -> ChatCompletionChunkView {
        ChatCompletionChunkView {
            id: self.id@,
            object: self.object@,
            created: self.created,
            model: self.model@,
            choices: self.choices.deep_view(),
            usage: self.usage,
        }
    }
}

#[derive(Debug)]
pub struct ChatChoiceDelta {
    pub index: usize,
    pub delta: ChatDelta,
    pub finish_reason: Option<String>,
}

pub struct ChatChoiceDeltaView {
    pub index: usize,
    pub delta: ChatDeltaView,
    pub finish_reason: Option<Seq<char>>,
}

impl DeepView for ChatChoiceDelta {
    type V = ChatChoiceDeltaView;

    open spec fn deep_view(&self) -> ChatChoiceDeltaView {
        ChatChoiceDeltaView {
            index: self.index,
            delta: self.delta.deep_view(),
            finish_reason: self.finish_reason.deep_view(),
        }
    }
}

#[derive(Debug)]
pub struct ChatDelta {
    pub role: Option<String>,
    pub content: Option<String>,
    pub tool_calls: Option<Vec<ChatToolCallDelta>>,
}

pub struct ChatDeltaView {
    pub role: Option<Seq<char>>,
    pub content: Option<Seq<char>>,
    pub tool_calls: Option<Seq<ChatToolCallDeltaView>>,
}

impl DeepView for ChatDelta {
    type V = ChatDeltaView;

    open spec fn deep_view(&self) -> ChatDeltaView {
        ChatDeltaView {
            role: self.role.deep_view(),
            content: self.content.deep_view(),
            tool_calls: self.tool_calls.deep_view(),
        }
    }
}

impl Default for ChatDelta {
    fn default() -> (r: Self)
        ensures
            r == (ChatDelta { role: None, content: None, tool_calls: None }),
    {
        ChatDelta { role: None, content: None, tool_calls: None }
    }
}

#[derive(Debug)]
pub struct ChatToolCallDelta {
    pub index: usize,
    pub id: Option<String>,
    pub type_: Option<String>,
    pub function: Option<ChatFunctionCallDelta>,
}

pub struct ChatToolCallDeltaView {
    pub index: usize,
    pub id: Option<Seq<char>>,
    pub type_: Option<Seq<char>>,
    pub function: Option<ChatFunctionCallDeltaView>,
}

impl DeepView for ChatToolCallDelta {
    type V = ChatToolCallDeltaView;

    open spec fn deep_view(&self) -> ChatToolCallDeltaView {
        ChatToolCallDeltaView {
            index: self.index,
            id: self.id.deep_view(),
            type_: self.type_.deep_view(),
            function: self.function.deep_view(),
        }
    }
}

#[derive(Debug)]
pub struct ChatFunctionCallDelta {
    pub name: Option<String>,
    pub arguments: Option<String>,
}

pub struct ChatFunctionCallDeltaView {
    pub name: Option<Seq<char>>,
    pub arguments: Option<Seq<char>>,
}

impl DeepView for ChatFunctionCallDelta {
    type V = ChatFunctionCallDeltaView;

    open spec fn deep_view(&self) -> ChatFunctionCallDeltaView {
        ChatFunctionCallDeltaView {
            name: self.name.deep_view(),
            arguments: self.arguments.deep_view(),
        }
    }
}

impl Default for ChatFunctionCallDelta {
    fn default() -> (r: Self)
        ensures
            r == (ChatFunctionCallDelta { name: None, arguments: None }),
    {
        ChatFunctionCallDelta { name: None, arguments: None }
    }
}

/// An error object of the provider.
#[derive(Debug)]
pub struct ChatError {
    pub error: ChatErrorDetail,
}

pub struct ChatErrorView {
    pub error: ChatErrorDetailView,
}

impl DeepView for ChatError {
    type V = ChatErrorView;

    open spec fn deep_view(&self) -> ChatErrorView {
        ChatErrorView { error: self.error.deep_view() }
    }
}

#[derive(Debug)]
pub struct ChatErrorDetail {
    pub message: String,
    pub type_: String,
    pub code: Option<String>,
}

pub struct ChatErrorDetailView {
    pub message: Seq<char>,
    pub type_: Seq<char>,
    pub code: Option<Seq<char>>,
}

impl DeepView for ChatErrorDetail {
    type V = ChatErrorDetailView;

    open spec fn deep_view(&self) -> ChatErrorDetailView {
        ChatErrorDetailView {
            message: self.message@,
            type_: self.type_@,
            code: self.code.deep_view(),
        }
    }
}

/// The error that stands for a provider's error object: it goes by the
/// object's type, and types that are not known count as server errors.
pub open spec fn api_error_of(error: ChatErrorView) -> ApiErrorView {
    let type_ = error.error.type_;
    let message = error.error.message;
    if type_ == "rate_limit_error"@ {
        ApiErrorView::RateLimit(message)
    } else if type_ == "context_length_exceeded"@ {
        ApiErrorView::ContextWindowExceeded
    } else if type_ == "invalid_request_error"@ {
        ApiErrorView::Api { status: BAD_REQUEST, message }
    } else if type_ == "authentication_error"@ {
        ApiErrorView::Api { status: UNAUTHORIZED, message }
    } else {
        ApiErrorView::Api { status: INTERNAL_SERVER_ERROR, message }
    }
}

/// Maps a provider's error object to an [`ApiError`].
pub fn map_chat_error_to_api_error(error: ChatError) -> (r: ApiError)
    ensures
        r.deep_view() == api_error_of(error.deep_view()),
{
    proof {
        lemma_error_types_differ();
    }
    let type_ = error.error.type_.as_str();
    if str_eq(type_, "invalid_request_error") {
        ApiError::Api { status: BAD_REQUEST, message: error.error.message }
    } else if str_eq(type_, "authentication_error") {
        ApiError::Api { status: UNAUTHORIZED, message: error.error.message }
    } else if str_eq(type_, "rate_limit_error") {
        ApiError::RateLimit(error.error.message)
    } else if str_eq(type_, "context_length_exceeded") {
        ApiError::ContextWindowExceeded
    } else {
        ApiError::Api { status: INTERNAL_SERVER_ERROR, message: error.error.message }
    }
}

/// The known error types are told apart by their lengths.
proof fn lemma_error_types_differ()
    ensures
        "invalid_request_error"@.len() == 21,
        "authentication_error"@.len() == 20,
        "rate_limit_error"@.len() == 16,
        "context_length_exceeded"@.len() == 23,
{
    reveal_strlit("invalid_request_error");
    reveal_strlit("authentication_error");
    reveal_strlit("rate_limit_error");
    reveal_strlit("context_length_exceeded");
}

/// Invalid requests count as status 400, failed authentication as 401, and server
/// errors, like every type that is not known, as 500, each with the provider's
/// message. A rate limit keeps the message; a context that is too long has none.
pub proof fn law_error_types(error: ChatErrorView)
    ensures
        error.error.type_ == "invalid_request_error"@ ==> api_error_of(error)
            == (ApiErrorView::Api { status: 400, message: error.error.message }),
        error.error.type_ == "authentication_error"@ ==> api_error_of(error)
            == (ApiErrorView::Api { status: 401, message: error.error.message }),
        error.error.type_ == "rate_limit_error"@ ==> api_error_of(error) == ApiErrorView::RateLimit(
            error.error.message,
        ),
        error.error.type_ == "context_length_exceeded"@ ==> api_error_of(error)
            == ApiErrorView::ContextWindowExceeded,
        error.error.type_ != "invalid_request_error"@ && error.error.type_
            != "authentication_error"@ && error.error.type_ != "rate_limit_error"@
            && error.error.type_ != "context_length_exceeded"@ ==> api_error_of(error)
            == (ApiErrorView::Api { status: 500, message: error.error.message }),
{
    lemma_error_types_differ();
}

} // verus!
