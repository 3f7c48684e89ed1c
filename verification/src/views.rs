//! What the views of the library's types show: every field, unchanged.
//!
//! Contracts and laws speak of views, so a view that left something out would leave
//! it out of them all.

use crate::chat_request::{
    ChatCompletionRequest, ChatMessage, ChatMessageToolCall, ChatTool, FunctionCall,
    FunctionDefinition,
};
use crate::chat_response::{
    ChatChoiceDelta, ChatCompletionChunk, ChatDelta, ChatError, ChatErrorDetail,
    ChatFunctionCallDelta, ChatToolCallDelta,
};
use crate::error::{ApiError, ApiErrorView};
use crate::json::{Json, JsonView};
use crate::models::{
    ContentItem, ContentItemView, FunctionCallOutputPayload, FunctionCallOutputPayloadView,
    ModelInfo, ResponseEvent, ResponseEventView, ResponseItem, ResponseItemView,
};
use crate::models_dev::{CacheRecord, CachedModelMetadata, ModelsDevEntry};
use crate::sse::chat;
use crate::sse::chat::{StreamInput, StreamInputView, StreamItem, ToolCallAccum};
use crate::string_map::StringMap;
use vstd::prelude::*;

verus! {

/// A call in a message shows its name and its arguments.
pub proof fn law_function_call_shown(shown: FunctionCall)
    ensures
        shown.deep_view().name == shown.name@,
        shown.deep_view().arguments == shown.arguments@,
{
}

/// A tool call of a message shows its id, its type and its function.
pub proof fn law_chat_message_tool_call_shown(shown: ChatMessageToolCall)
    ensures
        shown.deep_view().id == shown.id@,
        shown.deep_view().type_ == shown.type_@,
        shown.deep_view().function == shown.function.deep_view(),
{
}

/// A message of a request shows its role, its content and its tool parts.
pub proof fn law_chat_message_shown(shown: ChatMessage)
    ensures
        shown.deep_view().role == shown.role@,
        shown.deep_view().content == shown.content.deep_view(),
        shown.deep_view().tool_call_id == shown.tool_call_id.deep_view(),
        shown.deep_view().tool_calls == shown.tool_calls.deep_view(),
{
}

/// A function definition shows its name, its description and its parameters.
pub proof fn law_function_definition_shown(shown: FunctionDefinition)
    ensures
        shown.deep_view().name == shown.name@,
        shown.deep_view().description == shown.description@,
        shown.deep_view().parameters == shown.parameters.tree(),
{
}

/// An offered tool shows its type and its function.
pub proof fn law_chat_tool_shown(shown: ChatTool)
    ensures
        shown.deep_view().type_ == shown.type_@,
        shown.deep_view().function == shown.function.deep_view(),
{
}

/// A request shows each of its settings.
pub proof fn law_chat_completion_request_shown(shown: ChatCompletionRequest)
    ensures
        shown.deep_view().model == shown.model@,
        shown.deep_view().messages == shown.messages.deep_view(),
        shown.deep_view().tools == shown.tools.deep_view(),
        shown.deep_view().tool_choice == shown.tool_choice.deep_view(),
        shown.deep_view().parallel_tool_calls == shown.parallel_tool_calls,
        shown.deep_view().max_tokens == shown.max_tokens,
        shown.deep_view().max_completion_tokens == shown.max_completion_tokens,
        shown.deep_view().temperature == shown.temperature,
        shown.deep_view().top_p == shown.top_p,
        shown.deep_view().n == shown.n,
        shown.deep_view().stream == shown.stream,
        shown.deep_view().stream_options == shown.stream_options,
        shown.deep_view().stop == shown.stop.deep_view(),
        shown.deep_view().reasoning_effort == shown.reasoning_effort,
        shown.deep_view().service_tier == shown.service_tier.deep_view(),
{
}

/// The function part of a fragment shows its name and its arguments.
pub proof fn law_chat_function_call_delta_shown(shown: ChatFunctionCallDelta)
    ensures
        shown.deep_view().name == shown.name.deep_view(),
        shown.deep_view().arguments == shown.arguments.deep_view(),
{
}

/// A fragment shows its index, its id, its type and its function part.
pub proof fn law_chat_tool_call_delta_shown(shown: ChatToolCallDelta)
    ensures
        shown.deep_view().index == shown.index,
        shown.deep_view().id == shown.id.deep_view(),
        shown.deep_view().type_ == shown.type_.deep_view(),
        shown.deep_view().function == shown.function.deep_view(),
{
}

/// A delta shows its role, its text and its fragments.
pub proof fn law_chat_delta_shown(shown: ChatDelta)
    ensures
        shown.deep_view().role == shown.role.deep_view(),
        shown.deep_view().content == shown.content.deep_view(),
        shown.deep_view().tool_calls == shown.tool_calls.deep_view(),
{
}

/// A choice shows its index, its delta and its `finish_reason`.
pub proof fn law_chat_choice_delta_shown(shown: ChatChoiceDelta)
    ensures
        shown.deep_view().index == shown.index,
        shown.deep_view().delta == shown.delta.deep_view(),
        shown.deep_view().finish_reason == shown.finish_reason.deep_view(),
{
}

/// A chunk shows its id, its choices, its usage and the rest of its fields.
pub proof fn law_chat_completion_chunk_shown(shown: ChatCompletionChunk)
    ensures
        shown.deep_view().id == shown.id@,
        shown.deep_view().object == shown.object@,
        shown.deep_view().created == shown.created,
        shown.deep_view().model == shown.model@,
        shown.deep_view().choices == shown.choices.deep_view(),
        shown.deep_view().usage == shown.usage,
{
}

/// The detail of an error object shows its message, its type and its code.
pub proof fn law_chat_error_detail_shown(shown: ChatErrorDetail)
    ensures
        shown.deep_view().message == shown.message@,
        shown.deep_view().type_ == shown.type_@,
        shown.deep_view().code == shown.code.deep_view(),
{
}

/// An error object shows its detail.
pub proof fn law_chat_error_shown(shown: ChatError)
    ensures
        shown.deep_view().error == shown.error.deep_view(),
{
}

/// A descriptor shows each of its fields.
pub proof fn law_model_info_shown(shown: ModelInfo)
    ensures
        shown.deep_view().slug == shown.slug@,
        shown.deep_view().display_name == shown.display_name@,
        shown.deep_view().context_window == shown.context_window,
        shown.deep_view().max_context_window == shown.max_context_window,
        shown.deep_view().auto_compact_token_limit == shown.auto_compact_token_limit,
        shown.deep_view().used_fallback_model_metadata == shown.used_fallback_model_metadata,
{
}

/// Metadata shows its name and its window.
pub proof fn law_cached_model_metadata_shown(shown: CachedModelMetadata)
    ensures
        shown.deep_view().display_name == shown.display_name.deep_view(),
        shown.deep_view().context_window == shown.context_window,
{
}

/// A record shows what was found and when nothing was.
pub proof fn law_cache_record_shown(shown: CacheRecord)
    ensures
        shown.deep_view().found == shown.found.deep_view(),
        shown.deep_view().not_found_at == shown.not_found_at.deep_view(),
{
}

/// A catalog entry shows its name and its limit.
pub proof fn law_models_dev_entry_shown(shown: ModelsDevEntry)
    ensures
        shown.deep_view().name == shown.name.deep_view(),
        shown.deep_view().limit == shown.limit,
{
}

/// What is known of a tool call shows each of its fields.
pub proof fn law_tool_call_accum_shown(shown: ToolCallAccum)
    ensures
        shown.deep_view().id == shown.id.deep_view(),
        shown.deep_view().name == shown.name.deep_view(),
        shown.deep_view().arguments == shown.arguments@,
        shown.deep_view().announced == shown.announced,
        shown.deep_view().finalized == shown.finalized,
{
}

/// A piece of a message shows its kind and its text.
pub proof fn law_content_item_shown(text: String)
    ensures
        (ContentItem::InputText { text }).deep_view() == (ContentItemView::InputText {
            text: text@,
        }),
        (ContentItem::OutputText { text }).deep_view() == (ContentItemView::OutputText {
            text: text@,
        }),
        ContentItem::Other.deep_view() == ContentItemView::Other,
{
}

/// What a tool returned shows its kind and its whole text.
pub proof fn law_tool_output_shown(text: String)
    ensures
        FunctionCallOutputPayload::Text(text).deep_view() == FunctionCallOutputPayloadView::Text(
            text@,
        ),
        FunctionCallOutputPayload::Serialized(text).deep_view()
            == FunctionCallOutputPayloadView::Serialized(text@),
{
}

/// An item of a conversation shows its kind and each of its fields.
pub proof fn law_response_item_shown(item: ResponseItem)
    ensures
        match (item, item.deep_view()) {
            (
                ResponseItem::Message {
                    id,
                    role,
                    content,
                    phase,
                    internal_chat_message_metadata_passthrough: more,
                },
                ResponseItemView::Message {
                    id: shown_id,
                    role: shown_role,
                    content: shown_content,
                    phase: shown_phase,
                    internal_chat_message_metadata_passthrough: shown_more,
                },
            ) => shown_id == id.deep_view() && shown_role == role@ && shown_content
                == content.deep_view() && shown_phase == phase.deep_view() && shown_more
                == more.deep_view(),
            (
                ResponseItem::FunctionCall {
                    id,
                    name,
                    namespace,
                    arguments,
                    call_id,
                    internal_chat_message_metadata_passthrough: more,
                },
                ResponseItemView::FunctionCall {
                    id: shown_id,
                    name: shown_name,
                    namespace: shown_namespace,
                    arguments: shown_arguments,
                    call_id: shown_call_id,
                    internal_chat_message_metadata_passthrough: shown_more,
                },
            ) => shown_id == id.deep_view() && shown_name == name@ && shown_namespace
                == namespace.deep_view() && shown_arguments == arguments@ && shown_call_id
                == call_id@ && shown_more == more.deep_view(),
            (
                ResponseItem::CustomToolCall {
                    id,
                    status,
                    call_id,
                    name,
                    namespace,
                    input,
                    internal_chat_message_metadata_passthrough: more,
                },
                ResponseItemView::CustomToolCall {
                    id: shown_id,
                    status: shown_status,
                    call_id: shown_call_id,
                    name: shown_name,
                    namespace: shown_namespace,
                    input: shown_input,
                    internal_chat_message_metadata_passthrough: shown_more,
                },
            ) => shown_id == id.deep_view() && shown_status == status.deep_view() && shown_call_id
                == call_id@ && shown_name == name@ && shown_namespace == namespace.deep_view()
                && shown_input == input@ && shown_more == more.deep_view(),
            (
                ResponseItem::FunctionCallOutput {
                    id,
                    call_id,
                    output,
                    internal_chat_message_metadata_passthrough: more,
                },
                ResponseItemView::FunctionCallOutput {
                    id: shown_id,
                    call_id: shown_call_id,
                    output: shown_output,
                    internal_chat_message_metadata_passthrough: shown_more,
                },
            ) => shown_id == id.deep_view() && shown_call_id == call_id@ && shown_output
                == output.deep_view() && shown_more == more.deep_view(),
            (
                ResponseItem::CustomToolCallOutput {
                    id,
                    call_id,
                    name,
                    output,
                    internal_chat_message_metadata_passthrough: more,
                },
                ResponseItemView::CustomToolCallOutput {
                    id: shown_id,
                    call_id: shown_call_id,
                    name: shown_name,
                    output: shown_output,
                    internal_chat_message_metadata_passthrough: shown_more,
                },
            ) => shown_id == id.deep_view() && shown_call_id == call_id@ && shown_name
                == name.deep_view() && shown_output == output.deep_view() && shown_more
                == more.deep_view(),
            (ResponseItem::Other, ResponseItemView::Other) => true,
            _ => false,
        },
{
}

/// An event shows its kind and each of its fields.
pub proof fn law_response_event_shown(event: ResponseEvent)
    ensures
        match (event, event.deep_view()) {
            (
                ResponseEvent::OutputItemAdded(item),
                ResponseEventView::OutputItemAdded(shown),
            ) => shown == item.deep_view(),
            (
                ResponseEvent::OutputItemDone(item),
                ResponseEventView::OutputItemDone(shown),
            ) => shown == item.deep_view(),
            (
                ResponseEvent::OutputTextDelta(text),
                ResponseEventView::OutputTextDelta(shown),
            ) => shown == text@,
            (
                ResponseEvent::ToolCallInputDelta { item_id, call_id, delta },
                ResponseEventView::ToolCallInputDelta {
                    item_id: shown_item_id,
                    call_id: shown_call_id,
                    delta: shown_delta,
                },
            ) => shown_item_id == item_id@ && shown_call_id == call_id.deep_view() && shown_delta
                == delta@,
            (
                ResponseEvent::Completed { response_id, token_usage, end_turn },
                ResponseEventView::Completed {
                    response_id: shown_id,
                    token_usage: shown_usage,
                    end_turn: shown_end,
                },
            ) => shown_id == response_id@ && shown_usage == token_usage && shown_end == end_turn,
            _ => false,
        },
{
}

/// An error shows its kind, its status and its message.
pub proof fn law_api_error_shown(error: ApiError)
    ensures
        match (error, error.deep_view()) {
            (
                ApiError::Api { status, message },
                ApiErrorView::Api { status: shown_status, message: shown_message },
            ) => shown_status == status && shown_message == message@,
            (ApiError::RateLimit(message), ApiErrorView::RateLimit(shown)) => shown == message@,
            (ApiError::ContextWindowExceeded, ApiErrorView::ContextWindowExceeded) => true,
            (ApiError::Stream(message), ApiErrorView::Stream(shown)) => shown == message@,
            _ => false,
        },
{
}

/// An input of a stream shows its kind and what it holds.
pub proof fn law_stream_input_shown(input: StreamInput)
    ensures
        match (input, input.deep_view()) {
            (
                StreamInput::Frame { data, chunk, error },
                StreamInputView::Frame { data: shown_data, chunk: shown_chunk, error: shown_error },
            ) => shown_data == data@ && shown_chunk == chunk.deep_view() && shown_error
                == error.deep_view(),
            (StreamInput::Failed(message), StreamInputView::Failed(shown)) => shown == message@,
            (StreamInput::Closed, StreamInputView::Closed) => true,
            (StreamInput::IdleTimeout, StreamInputView::IdleTimeout) => true,
            _ => false,
        },
{
}

/// The items of a stream show their events and errors, one for one.
pub proof fn law_stream_items_shown(items: Seq<StreamItem>, i: int)
    requires
        0 <= i < items.len(),
    ensures
        chat::items_view(items).len() == items.len(),
        items[i] matches Ok(event) ==> chat::items_view(items)[i] == Ok::<
            ResponseEventView,
            ApiErrorView,
        >(event.deep_view()),
        items[i] matches Err(error) ==> chat::items_view(items)[i] == Err::<
            ResponseEventView,
            ApiErrorView,
        >(error.deep_view()),
{
}

/// A turn shows its text and each of its tool calls.
pub proof fn law_turn_shown(
    tools: Map<usize, ToolCallAccum>,
    text: Seq<char>,
    message_announced: bool,
    index: usize,
)
    ensures
        ({
            let turn = chat::turn_state(tools, text, message_announced);
            &&& turn.text == text
            &&& turn.message_announced == message_announced
            &&& turn.tools.contains_key(index) == tools.contains_key(index)
            &&& tools.contains_key(index) ==> turn.tools[index] == tools[index].deep_view()
        }),
{
}

/// A JSON value shows its kind and its leaf, its elements or its members.
pub proof fn law_json_shown(value: Json, i: int)
    ensures
        match (value, value.deep_view()) {
            (Json::Null, JsonView::Null) => true,
            (Json::Bool(b), JsonView::Bool(shown)) => shown == b,
            (Json::Number(n), JsonView::Number(shown)) => shown == n,
            (Json::Str(s), JsonView::Str(shown)) => shown == s@,
            (Json::Array(elements), JsonView::Array(shown)) => shown.len() == elements@.len() && (0
                <= i < shown.len() ==> shown[i] == elements@[i].deep_view()),
            (Json::Object(members), JsonView::Object(shown)) => shown.len() == members@.len() && (0
                <= i < shown.len() ==> shown[i].0 == members@[i].0@ && shown[i].1
                == members@[i].1.deep_view()),
            _ => false,
        },
{
}

/// A map shows its entries in order, and by key.
pub proof fn law_string_map_shown<V: DeepView>(map: StringMap<V>, i: int, key: Seq<char>)
    ensures
        map.entry_views().len() == map.entries().len(),
        0 <= i < map.entries().len() ==> map.entry_views()[i].0 == map.entries()[i].0
            && map.entry_views()[i].1 == map.entries()[i].1.deep_view(),
        map.deep_view().contains_key(key) == map@.contains_key(key),
        map@.contains_key(key) ==> map.deep_view()[key] == map@[key].deep_view(),
{
}

} // verus!
