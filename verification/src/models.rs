//! Conversation items, stream events and model descriptors, as far as the
//! Chat Completions path and the metadata enrichment read or build them.

use vstd::prelude::*;

verus! {

/// A piece of a message.
#[derive(Debug, Clone, PartialEq, Eq)]
pub enum ContentItem {
    InputText { text: String },
    OutputText { text: String },
    /// Content without text, such as an image.
    Other,
}

pub enum ContentItemView {
    InputText { text: Seq<char> },
    OutputText { text: Seq<char> },
    Other,
}

impl DeepView for ContentItem {
    type V = ContentItemView;

    open spec fn deep_view(&self) -> ContentItemView {
        match self {
            ContentItem::InputText { text } => ContentItemView::InputText { text: text@ },
            ContentItem::OutputText { text } => ContentItemView::OutputText { text: text@ },
            ContentItem::Other => ContentItemView::Other,
        }
    }
}

/// What a tool call returned.
#[derive(Debug, Clone, PartialEq, Eq)]
pub enum FunctionCallOutputPayload {
    /// Plain text.
    Text(String),
    /// Structured content, in its serialized JSON form; empty where it could
    /// not be serialized.
    Serialized(String),
}

pub enum FunctionCallOutputPayloadView {
    Text(Seq<char>),
    Serialized(Seq<char>),
}

impl DeepView for FunctionCallOutputPayload {
    type V = FunctionCallOutputPayloadView;

    open spec fn deep_view(&self) -> FunctionCallOutputPayloadView {
        match self {
            FunctionCallOutputPayload::Text(text) => FunctionCallOutputPayloadView::Text(text@),
            FunctionCallOutputPayload::Serialized(json) =>
                FunctionCallOutputPayloadView::Serialized(json@),
        }
    }
}

impl FunctionCallOutputPayload {
    /// A payload of plain text.
    pub fn from_text(text: String) -> (r: Self)
        ensures
            r == FunctionCallOutputPayload::Text(text),
    {
        FunctionCallOutputPayload::Text(text)
    }
}

/// An item of a conversation.
#[allow(inconsistent_fields)]
#[derive(Debug, Clone, PartialEq, Eq)]
pub enum ResponseItem {
    Message {
        id: Option<String>,
        role: String,
        content: Vec<ContentItem>,
        phase: Option<String>,
        internal_chat_message_metadata_passthrough: Option<String>,
    },
    FunctionCall {
        id: Option<String>,
        name: String,
        namespace: Option<String>,
        arguments: String,
        call_id: String,
        internal_chat_message_metadata_passthrough: Option<String>,
    },
    CustomToolCall {
        id: Option<String>,
        status: Option<String>,
        call_id: String,
        name: String,
        namespace: Option<String>,
        input: String,
        internal_chat_message_metadata_passthrough: Option<String>,
    },
    FunctionCallOutput {
        id: Option<String>,
        call_id: String,
        output: FunctionCallOutputPayload,
        internal_chat_message_metadata_passthrough: Option<String>,
    },
    CustomToolCallOutput {
        id: Option<String>,
        call_id: String,
        name: Option<String>,
        output: FunctionCallOutputPayload,
        internal_chat_message_metadata_passthrough: Option<String>,
    },
    /// An item without a Chat Completions form: reasoning, local shell calls,
    /// web, image and tool searches.
    Other,
}

#[allow(inconsistent_fields)]
pub enum ResponseItemView {
    Message {
        id: Option<Seq<char>>,
        role: Seq<char>,
        content: Seq<ContentItemView>,
        phase: Option<Seq<char>>,
        internal_chat_message_metadata_passthrough: Option<Seq<char>>,
    },
    FunctionCall {
        id: Option<Seq<char>>,
        name: Seq<char>,
        namespace: Option<Seq<char>>,
        arguments: Seq<char>,
        call_id: Seq<char>,
        internal_chat_message_metadata_passthrough: Option<Seq<char>>,
    },
    CustomToolCall {
        id: Option<Seq<char>>,
        status: Option<Seq<char>>,
        call_id: Seq<char>,
        name: Seq<char>,
        namespace: Option<Seq<char>>,
        input: Seq<char>,
        internal_chat_message_metadata_passthrough: Option<Seq<char>>,
    },
    FunctionCallOutput {
        id: Option<Seq<char>>,
        call_id: Seq<char>,
        output: FunctionCallOutputPayloadView,
        internal_chat_message_metadata_passthrough: Option<Seq<char>>,
    },
    CustomToolCallOutput {
        id: Option<Seq<char>>,
        call_id: Seq<char>,
        name: Option<Seq<char>>,
        output: FunctionCallOutputPayloadView,
        internal_chat_message_metadata_passthrough: Option<Seq<char>>,
    },
    Other,
}

impl DeepView for ResponseItem {
    type V = ResponseItemView;

    open spec fn deep_view(&self) -> ResponseItemView {
        match self {
            ResponseItem::Message {
                id,
                role,
                content,
                phase,
                internal_chat_message_metadata_passthrough,
            } => ResponseItemView::Message {
                id: id.deep_view(),
                role: role@,
                content: content.deep_view(),
                phase: phase.deep_view(),
                internal_chat_message_metadata_passthrough:
                    internal_chat_message_metadata_passthrough.deep_view(),
            },
            ResponseItem::FunctionCall {
                id,
                name,
                namespace,
                arguments,
                call_id,
                internal_chat_message_metadata_passthrough,
            } => ResponseItemView::FunctionCall {
                id: id.deep_view(),
                name: name@,
                namespace: namespace.deep_view(),
                arguments: arguments@,
                call_id: call_id@,
                internal_chat_message_metadata_passthrough:
                    internal_chat_message_metadata_passthrough.deep_view(),
            },
            ResponseItem::CustomToolCall {
                id,
                status,
                call_id,
                name,
                namespace,
                input,
                internal_chat_message_metadata_passthrough,
            } => ResponseItemView::CustomToolCall {
                id: id.deep_view(),
                status: status.deep_view(),
                call_id: call_id@,
                name: name@,
                namespace: namespace.deep_view(),
                input: input@,
                internal_chat_message_metadata_passthrough:
                    internal_chat_message_metadata_passthrough.deep_view(),
            },
            ResponseItem::FunctionCallOutput {
                id,
                call_id,
                output,
                internal_chat_message_metadata_passthrough,
            } => ResponseItemView::FunctionCallOutput {
                id: id.deep_view(),
                call_id: call_id@,
                output: output.deep_view(),
                internal_chat_message_metadata_passthrough:
                    internal_chat_message_metadata_passthrough.deep_view(),
            },
            ResponseItem::CustomToolCallOutput {
                id,
                call_id,
                name,
                output,
                internal_chat_message_metadata_passthrough,
            } => ResponseItemView::CustomToolCallOutput {
                id: id.deep_view(),
                call_id: call_id@,
                name: name.deep_view(),
                output: output.deep_view(),
                internal_chat_message_metadata_passthrough:
                    internal_chat_message_metadata_passthrough.deep_view(),
            },
            ResponseItem::Other => ResponseItemView::Other,
        }
    }
}

/// How much a model is to reason.
#[derive(Debug, Clone, Copy, PartialEq, Eq, Structural)]
pub enum ReasoningEffort {
    NoReasoning,
    Minimal,
    Low,
    Medium,
    High,
    XHigh,
    Max,
    Ultra,
}

impl ReasoningEffort {
    /// The effort that is requested for this one: providers know no `Ultra`, so
    /// it is requested as `Max`.
    pub open spec fn normalized_spec(self) -> ReasoningEffort {
        if self == ReasoningEffort::Ultra {
            ReasoningEffort::Max
        } else {
            self
        }
    }

    /// The effort that is requested for this one: `Ultra` is requested as `Max`.
    pub fn normalized(self) -> (r: ReasoningEffort)
        ensures
            r == self.normalized_spec(),
    {
        match self {
            ReasoningEffort::Ultra => ReasoningEffort::Max,
            other => other,
        }
    }

    /// The name of an effort on the wire.
    pub open spec fn wire_name_spec(self) -> Seq<char> {
        match self {
            ReasoningEffort::NoReasoning => "none"@,
            ReasoningEffort::Minimal => "minimal"@,
            ReasoningEffort::Low => "low"@,
            ReasoningEffort::Medium => "medium"@,
            ReasoningEffort::High => "high"@,
            ReasoningEffort::XHigh => "xhigh"@,
            ReasoningEffort::Max => "max"@,
            ReasoningEffort::Ultra => "max"@,
        }
    }

    /// The name of an effort on the wire, once it has been normalized.
    pub fn wire_name(self) -> (r: &'static str)
        ensures
            r@ == self.wire_name_spec(),
    {
        match self.normalized() {
            ReasoningEffort::NoReasoning => "none",
            ReasoningEffort::Minimal => "minimal",
            ReasoningEffort::Low => "low",
            ReasoningEffort::Medium => "medium",
            ReasoningEffort::High => "high",
            ReasoningEffort::XHigh => "xhigh",
            ReasoningEffort::Max => "max",
            ReasoningEffort::Ultra => "max",
        }
    }
}

/// Normalizing gives an effort that providers know, leaves those that they know as
/// they are, and does not change the name on the wire.
pub proof fn law_effort_normalized(effort: ReasoningEffort)
    ensures
        effort.normalized_spec() != ReasoningEffort::Ultra,
        effort == ReasoningEffort::Ultra ==> effort.normalized_spec() == ReasoningEffort::Max,
        effort != ReasoningEffort::Ultra ==> effort.normalized_spec() == effort,
        effort.wire_name_spec() == effort.normalized_spec().wire_name_spec(),
{
}

/// Every effort but `Ultra` goes by its own name on the wire, `Ultra` by that of
/// `Max`.
pub proof fn law_effort_names()
    ensures
        ReasoningEffort::NoReasoning.wire_name_spec() == "none"@,
        ReasoningEffort::Minimal.wire_name_spec() == "minimal"@,
        ReasoningEffort::Low.wire_name_spec() == "low"@,
        ReasoningEffort::Medium.wire_name_spec() == "medium"@,
        ReasoningEffort::High.wire_name_spec() == "high"@,
        ReasoningEffort::XHigh.wire_name_spec() == "xhigh"@,
        ReasoningEffort::Max.wire_name_spec() == "max"@,
        ReasoningEffort::Ultra.wire_name_spec() == "max"@,
{
}

/// What a request says about reasoning.
#[derive(Debug, Clone, PartialEq, Eq)]
pub struct Reasoning {
    pub effort: Option<ReasoningEffort>,
    /// Not part of Chat Completions, and not sent.
    pub summary: Option<String>,
    /// Not part of Chat Completions, and not sent.
    pub context: Option<String>,
}

/// Token counts of a finished turn.
#[derive(Debug, Clone, Copy, PartialEq, Eq)]
pub struct TokenUsage {
    pub input_tokens: i64,
    pub cached_input_tokens: i64,
    pub output_tokens: i64,
    pub reasoning_output_tokens: i64,
    pub total_tokens: i64,
}

impl DeepView for TokenUsage {
    type V = TokenUsage;

    open spec fn deep_view(&self) -> TokenUsage {
        *self
    }
}

/// What the consumer of a response stream receives.
#[derive(Debug, Clone, PartialEq, Eq)]
pub enum ResponseEvent {
    OutputItemAdded(ResponseItem),
    OutputItemDone(ResponseItem),
    OutputTextDelta(String),
    ToolCallInputDelta { item_id: String, call_id: Option<String>, delta: String },
    Completed { response_id: String, token_usage: Option<TokenUsage>, end_turn: Option<bool> },
}

pub enum ResponseEventView {
    OutputItemAdded(ResponseItemView),
    OutputItemDone(ResponseItemView),
    OutputTextDelta(Seq<char>),
    ToolCallInputDelta { item_id: Seq<char>, call_id: Option<Seq<char>>, delta: Seq<char> },
    Completed { response_id: Seq<char>, token_usage: Option<TokenUsage>, end_turn: Option<bool> },
}

impl DeepView for ResponseEvent {
    type V = ResponseEventView;

    open spec fn deep_view(&self) -> ResponseEventView {
        match self {
            ResponseEvent::OutputItemAdded(item) => ResponseEventView::OutputItemAdded(
                item.deep_view(),
            ),
            ResponseEvent::OutputItemDone(item) => ResponseEventView::OutputItemDone(
                item.deep_view(),
            ),
            ResponseEvent::OutputTextDelta(text) => ResponseEventView::OutputTextDelta(text@),
            ResponseEvent::ToolCallInputDelta { item_id, call_id, delta } =>
                ResponseEventView::ToolCallInputDelta {
                item_id: item_id@,
                call_id: call_id.deep_view(),
                delta: delta@,
            },
            ResponseEvent::Completed { response_id, token_usage, end_turn } =>
                ResponseEventView::Completed {
                response_id: response_id@,
                token_usage: *token_usage,
                end_turn: *end_turn,
            },
        }
    }
}

/// What is known of a model.
#[derive(Debug, Clone, PartialEq, Eq)]
pub struct ModelInfo {
    pub slug: String,
    pub display_name: String,
    pub context_window: Option<i64>,
    pub max_context_window: Option<i64>,
    /// Where unset, the threshold is derived from the context window.
    pub auto_compact_token_limit: Option<i64>,
    /// Whether the fields hold conservative defaults.
    pub used_fallback_model_metadata: bool,
}

#[verifier::ext_equal]
pub struct ModelInfoView {
    pub slug: Seq<char>,
    pub display_name: Seq<char>,
    pub context_window: Option<i64>,
    pub max_context_window: Option<i64>,
    pub auto_compact_token_limit: Option<i64>,
    pub used_fallback_model_metadata: bool,
}

impl DeepView for ModelInfo {
    type V = ModelInfoView;

    open spec fn deep_view(&self) -> ModelInfoView {
        ModelInfoView {
            slug: self.slug@,
            display_name: self.display_name@,
            context_window: self.context_window,
            max_context_window: self.max_context_window,
            auto_compact_token_limit: self.auto_compact_token_limit,
            used_fallback_model_metadata: self.used_fallback_model_metadata,
        }
    }
}

} // verus!
