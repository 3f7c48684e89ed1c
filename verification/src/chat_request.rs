//! Chat Completions request types, and the conversion of a conversation and its
//! tools into a request.

use crate::json::{Json, JsonView};
use crate::models::{
    ContentItem, ContentItemView, FunctionCallOutputPayload, FunctionCallOutputPayloadView,
    Reasoning, ReasoningEffort, ResponseItem, ResponseItemView,
};
use crate::text;
use crate::text::str_eq;
use vstd::prelude::*;
use vstd::string::*;

pub mod laws;

verus! {

/// A single-precision number, by its IEEE 754 bits.
#[derive(Debug, Clone, Copy, PartialEq, Eq, Structural)]
pub struct F32Bits(pub u32);

/// A Chat Completions request.
#[derive(Debug, Clone)]
pub struct ChatCompletionRequest {
    pub model: String,
    pub messages: Vec<ChatMessage>,
    pub tools: Vec<ChatTool>,
    pub tool_choice: Option<String>,
    pub parallel_tool_calls: Option<bool>,
    pub max_tokens: Option<u32>,
    /// The output budget of reasoning models.
    pub max_completion_tokens: Option<u32>,
    pub temperature: Option<F32Bits>,
    pub top_p: Option<F32Bits>,
    pub n: Option<u32>,
    /// The transport is streaming only.
    pub stream: Option<bool>,
    /// Asks for usage in the last chunk, which the `Completed` event carries on.
    pub stream_options: Option<StreamOptions>,
    pub stop: Option<Stop>,
    pub reasoning_effort: Option<ReasoningEffort>,
    pub service_tier: Option<String>,
}

pub struct ChatCompletionRequestView {
    pub model: Seq<char>,
    pub messages: Seq<ChatMessageView>,
    pub tools: Seq<ChatToolView>,
    pub tool_choice: Option<Seq<char>>,
    pub parallel_tool_calls: Option<bool>,
    pub max_tokens: Option<u32>,
    pub max_completion_tokens: Option<u32>,
    pub temperature: Option<F32Bits>,
    pub top_p: Option<F32Bits>,
    pub n: Option<u32>,
    pub stream: Option<bool>,
    pub stream_options: Option<StreamOptions>,
    pub stop: Option<StopView>,
    pub reasoning_effort: Option<ReasoningEffort>,
    pub service_tier: Option<Seq<char>>,
}

impl DeepView for ChatCompletionRequest {
    type V = ChatCompletionRequestView;

    open spec fn deep_view(&self) -> ChatCompletionRequestView {
        ChatCompletionRequestView {
            model: self.model@,
            messages: self.messages.deep_view(),
            tools: self.tools.deep_view(),
            tool_choice: self.tool_choice.deep_view(),
            parallel_tool_calls: self.parallel_tool_calls,
            max_tokens: self.max_tokens,
            max_completion_tokens: self.max_completion_tokens,
            temperature: self.temperature,
            top_p: self.top_p,
            n: self.n,
            stream: self.stream,
            stream_options: self.stream_options,
            stop: self.stop.deep_view(),
            reasoning_effort: self.reasoning_effort,
            service_tier: self.service_tier.deep_view(),
        }
    }
}

#[derive(Debug, Clone, Copy, PartialEq, Eq, Structural)]
pub struct StreamOptions {
    pub include_usage: bool,
}

#[derive(Debug, Clone)]
pub struct ChatMessage {
    pub role: String,
    pub content: Option<String>,
    pub tool_call_id: Option<String>,
    pub tool_calls: Option<Vec<ChatMessageToolCall>>,
}

pub struct ChatMessageView {
    pub role: Seq<char>,
    pub content: Option<Seq<char>>,
    pub tool_call_id: Option<Seq<char>>,
    pub tool_calls: Option<Seq<ChatMessageToolCallView>>,
}

impl DeepView for ChatMessage {
    type V = ChatMessageView;

    open spec fn deep_view(&self) -> ChatMessageView {
        ChatMessageView {
            role: self.role@,
            content: self.content.deep_view(),
            tool_call_id: self.tool_call_id.deep_view(),
            tool_calls: self.tool_calls.deep_view(),
        }
    }
}

#[derive(Debug, Clone)]
pub struct ChatTool {
    pub type_: String,
    pub function: FunctionDefinition,
}

pub struct ChatToolView {
    pub type_: Seq<char>,
    pub function: FunctionDefinitionView,
}

impl DeepView for ChatTool {
    type V = ChatToolView;

    open spec fn deep_view(&self) -> ChatToolView {
        ChatToolView { type_: self.type_@, function: self.function.deep_view() }
    }
}

#[derive(Debug, Clone)]
pub struct FunctionDefinition {
    pub name: String,
    pub description: String,
    pub parameters: Json,
}

pub struct FunctionDefinitionView {
    pub name: Seq<char>,
    pub description: Seq<char>,
    pub parameters: JsonView,
}

impl DeepView for FunctionDefinition {
    type V = FunctionDefinitionView;

    open spec fn deep_view(&self) -> FunctionDefinitionView {
        FunctionDefinitionView {
            name: self.name@,
            description: self.description@,
            parameters: self.parameters.tree(),
        }
    }
}

#[derive(Debug, Clone)]
pub struct ChatMessageToolCall {
    pub id: String,
    pub type_: String,
    pub function: FunctionCall,
}

pub struct ChatMessageToolCallView {
    pub id: Seq<char>,
    pub type_: Seq<char>,
    pub function: FunctionCallView,
}

impl DeepView for ChatMessageToolCall {
    type V = ChatMessageToolCallView;

    open spec fn deep_view(&self) -> ChatMessageToolCallView {
        ChatMessageToolCallView {
            id: self.id@,
            type_: self.type_@,
            function: self.function.deep_view(),
        }
    }
}

#[derive(Debug, Clone)]
pub struct FunctionCall {
    pub name: String,
    pub arguments: String,
}

pub struct FunctionCallView {
    pub name: Seq<char>,
    pub arguments: Seq<char>,
}

impl DeepView for FunctionCall {
    type V = FunctionCallView;

    open spec fn deep_view(&self) -> FunctionCallView {
        FunctionCallView { name: self.name@, arguments: self.arguments@ }
    }
}

#[derive(Debug, Clone)]
pub enum Stop {
    Single(String),
    Multiple(Vec<String>),
}

pub enum StopView {
    Single(Seq<char>),
    Multiple(Seq<Seq<char>>),
}

impl DeepView for Stop {
    type V = StopView;

    open spec fn deep_view(&self) -> StopView {
        match self {
            Stop::Single(text) => StopView::Single(text@),
            Stop::Multiple(texts) => StopView::Multiple(texts.deep_view()),
        }
    }
}

/// A string, or the empty one.
pub open spec fn or_empty(s: Option<Seq<char>>) -> Seq<char> {
    match s {
        Some(s) => s,
        None => Seq::empty(),
    }
}

/// A text, where it is not empty.
pub open spec fn non_empty(s: Seq<char>) -> Option<Seq<char>> {
    if s.len() == 0 {
        None
    } else {
        Some(s)
    }
}

/// The flat definition of a function inside a namespace: its name is prefixed
/// by the namespace. Other entries have none, nor have functions without name.
pub open spec fn flat_function(nested: JsonView, namespace: Seq<char>) -> Option<JsonView> {
    if nested.get_str("type"@) == Some("function"@) && nested.get_str("name"@) is Some {
        Some(
            JsonView::Object(
                seq![
                    ("type"@, JsonView::Str("function"@)),
                    ("name"@, JsonView::Str(namespace + nested.get_str("name"@)->0)),
                    ("description"@, JsonView::Str(or_empty(nested.get_str("description"@)))),
                    ("parameters"@, parameters_of(nested)),
                ],
            ),
        )
    } else {
        None
    }
}

/// The parameters of a tool; an empty object where it has none.
pub open spec fn parameters_of(tool: JsonView) -> JsonView {
    match tool.get("parameters"@) {
        Some(parameters) => parameters,
        None => JsonView::Object(Seq::empty()),
    }
}

/// The flat definitions of the functions inside a namespace, in order.
pub open spec fn flat_functions(nested: Seq<JsonView>, namespace: Seq<char>) -> Seq<JsonView>
    decreases nested.len(),
{
    if nested.len() == 0 {
        Seq::empty()
    } else {
        let before = flat_functions(nested.drop_last(), namespace);
        match flat_function(nested.last(), namespace) {
            Some(flat) => before.push(flat),
            None => before,
        }
    }
}

/// What a tool flattens to: a namespace with a list of tools to the functions
/// in that list, anything else to itself.
pub open spec fn flat_tool(tool: JsonView) -> Seq<JsonView> {
    if tool.get_str("type"@) == Some("namespace"@) && tool.get_array("tools"@) is Some {
        flat_functions(tool.get_array("tools"@)->0, or_empty(tool.get_str("name"@)))
    } else {
        seq![tool]
    }
}

/// What several tools flatten to, in order.
pub open spec fn flat_tools(tools: Seq<JsonView>) -> Seq<JsonView>
    decreases tools.len(),
{
    if tools.len() == 0 {
        Seq::empty()
    } else {
        flat_tools(tools.drop_last()) + flat_tool(tools.last())
    }
}

/// A string member of a value, or the empty string.
fn str_or_empty(value: &Json, name: &str) -> (r: String)
    ensures
        r@ == or_empty(value.tree().get_str(name@)),
{
    match value.get_str(name) {
        Some(s) => s.to_string(),
        None => String::new(),
    }
}

/// The parameters of a tool; an empty object where it has none.
fn clone_parameters(tool: &Json) -> (r: Json)
    ensures
        r.tree() == parameters_of(tool.tree()),
{
    match tool.get("parameters") {
        Some(parameters) => parameters.clone(),
        None => {
            let empty = Json::Object(Vec::new());
            assert(empty.tree()->Object_0 =~= Seq::empty());
            empty
        },
    }
}

/// Whether a member of a value is the given string.
fn has_str(value: &Json, name: &str, expected: &str) -> (r: bool)
    ensures
        r == (value.tree().get_str(name@) == Some(expected@)),
{
    match value.get_str(name) {
        Some(s) => str_eq(s, expected),
        None => false,
    }
}

/// Builds a flat function definition from a tool inside a namespace; none for
/// entries that are not functions.
pub fn flatten_namespaced_function(nested: &Json, namespace: &str) -> (r: Option<Json>)
    ensures
        r.deep_view() == flat_function(nested.tree(), namespace@),
{
    if !has_str(nested, "type", "function") {
        return None;
    }
    match nested.get_str("name") {
        None => None,
        Some(name) => {
            let mut flat_name = namespace.to_string();
            flat_name.append(name);
            let mut members: Vec<(String, Json)> = Vec::new();
            members.push(("type".to_string(), Json::Str("function".to_string())));
            members.push(("name".to_string(), Json::Str(flat_name)));
            members.push(("description".to_string(), Json::Str(str_or_empty(nested, "description"))));
            members.push(("parameters".to_string(), clone_parameters(nested)));
            let flat = Json::Object(members);
            reveal_with_fuel(Json::tree, 2);
            assert(flat.tree()->Object_0 =~= flat_function(nested.tree(), namespace@)->0->Object_0);
            Some(flat)
        },
    }
}

/// Flattens tool definitions into the flat functions that Chat Completions
/// knows. A namespace, such as the tools of a server, becomes one function per
/// tool, named by namespace and tool; other tools stay as they are.
pub fn flatten_tools_for_chat(tools: &[Json]) -> (out: Vec<Json>)
    ensures
        out.deep_view() == flat_tools(tools.deep_view()),
{
    let mut out: Vec<Json> = Vec::new();
    let ghost all = tools.deep_view();
    assert(out.deep_view() =~= flat_tools(all.take(0)));
    let mut i: usize = 0;
    while i < tools.len()
        invariant
            i <= tools@.len(),
            all == tools.deep_view(),
            out.deep_view() == flat_tools(all.take(i as int)),
        decreases tools.len() - i,
    {
        let tool = &tools[i];
        flatten_tool(tool, &mut out);
        assert(all.take(i + 1).drop_last() =~= all.take(i as int));
        assert(all.take(i + 1).last() == tool.tree());
        i = i + 1;
    }
    assert(all.take(i as int) =~= all);
    out
}

/// Appends what a tool flattens to.
fn flatten_tool(tool: &Json, out: &mut Vec<Json>)
    ensures
        final(out).deep_view() == old(out).deep_view() + flat_tool(tool.tree()),
{
    let ghost before = out.deep_view();
    if has_str(tool, "type", "namespace") {
        let namespace = str_or_empty(tool, "name");
        if let Some(nested) = tool.get_array("tools") {
            let ghost all = nested.deep_view();
            assert(out.deep_view() =~= before + flat_functions(all.take(0), namespace@));
            let mut i: usize = 0;
            while i < nested.len()
                invariant
                    i <= nested@.len(),
                    all == nested.deep_view(),
                    out.deep_view() == before + flat_functions(all.take(i as int), namespace@),
                decreases nested.len() - i,
            {
                let ghost kept = out.deep_view();
                if let Some(flat) = flatten_namespaced_function(&nested[i], namespace.as_str()) {
                    out.push(flat);
                    assert(out.deep_view() =~= kept.push(flat.tree()));
                }
                assert(all.take(i + 1).drop_last() =~= all.take(i as int));
                assert(all.take(i + 1).last() == nested@[i as int].tree());
                assert(out.deep_view() =~= before + flat_functions(all.take(i + 1), namespace@));
                i = i + 1;
            }
            assert(all.take(i as int) =~= all);
            return;
        }
    }
    out.push(tool.clone());
    assert(out.deep_view() =~= before + seq![tool.tree()]);
}

/// The value that holds the definition of a tool: in a nested structure,
/// `{ type: "function", function: { ... } }`, the inner one, else the tool.
pub open spec fn definition_of(tool: JsonView) -> JsonView {
    if tool.get_str("type"@) == Some("function"@) && tool.get("function"@) is Some {
        tool.get("function"@)->0
    } else {
        tool
    }
}

/// The description of a definition. A namespace is put in front, in brackets,
/// unless there is no description.
pub open spec fn description_of(definition: JsonView) -> Seq<char> {
    let description = or_empty(definition.get_str("description"@));
    match definition.get_str("namespace"@) {
        Some(namespace) if description.len() > 0 => "["@ + namespace + "] "@ + description,
        _ => description,
    }
}

/// The function definition of a tool.
pub open spec fn function_tool(tool: JsonView) -> ChatToolView {
    let definition = definition_of(tool);
    ChatToolView {
        type_: "function"@,
        function: FunctionDefinitionView {
            name: or_empty(definition.get_str("name"@)),
            description: description_of(definition),
            parameters: parameters_of(definition),
        },
    }
}

/// Converts a tool definition to a function definition of Chat Completions.
pub fn tool_to_function_definition(tool: &Json) -> (r: ChatTool)
    ensures
        r.deep_view() == function_tool(tool.tree()),
{
    let nested: Option<&Json> = if has_str(tool, "type", "function") {
        tool.get("function")
    } else {
        None
    };
    let definition: &Json = match nested {
        Some(function) => function,
        None => tool,
    };
    let mut description = str_or_empty(definition, "description");
    if let Some(namespace) = definition.get_str("namespace") {
        if !description.as_str().is_empty() {
            let mut prefixed = "[".to_string();
            prefixed.append(namespace);
            prefixed.append("] ");
            prefixed.append(description.as_str());
            description = prefixed;
        }
    }
    ChatTool {
        type_: "function".to_string(),
        function: FunctionDefinition {
            name: str_or_empty(definition, "name"),
            description,
            parameters: clone_parameters(definition),
        },
    }
}

/// The assistant message that makes one tool call. The id of the call is in the
/// call; the message has none, since only tool results carry one.
pub open spec fn tool_call_message(
    call_id: Seq<char>,
    name: Seq<char>,
    arguments: Seq<char>,
) -> ChatMessageView {
    ChatMessageView {
        role: "assistant"@,
        content: None,
        tool_call_id: None,
        tool_calls: Some(
            seq![
                ChatMessageToolCallView {
                    id: call_id,
                    type_: "function"@,
                    function: FunctionCallView { name, arguments },
                },
            ],
        ),
    }
}

/// Builds the assistant message that makes one tool call.
pub fn assistant_tool_call_message(call_id: &str, name: &str, arguments: &str) -> (r: ChatMessage)
    ensures
        r.deep_view() == tool_call_message(call_id@, name@, arguments@),
{
    let mut tool_calls: Vec<ChatMessageToolCall> = Vec::new();
    tool_calls.push(
        ChatMessageToolCall {
            id: call_id.to_string(),
            type_: "function".to_string(),
            function: FunctionCall { name: name.to_string(), arguments: arguments.to_string() },
        },
    );
    assert(tool_calls.deep_view() =~= tool_call_message(
        call_id@,
        name@,
        arguments@,
    ).tool_calls->0);
    ChatMessage {
        role: "assistant".to_string(),
        content: None,
        tool_call_id: None,
        tool_calls: Some(tool_calls),
    }
}

/// A message of plain text.
pub open spec fn plain_message(role: Seq<char>, content: Option<Seq<char>>) -> ChatMessageView {
    ChatMessageView { role, content, tool_call_id: None, tool_calls: None }
}

/// The texts among the pieces of a message, in order.
pub open spec fn texts_of(content: Seq<ContentItemView>) -> Seq<Seq<char>>
    decreases content.len(),
{
    if content.len() == 0 {
        Seq::empty()
    } else {
        match content.last() {
            ContentItemView::InputText { text } => texts_of(content.drop_last()).push(text),
            ContentItemView::OutputText { text } => texts_of(content.drop_last()).push(text),
            ContentItemView::Other => texts_of(content.drop_last()),
        }
    }
}

/// What a tool returned, as text.
pub open spec fn output_text(output: FunctionCallOutputPayloadView) -> Seq<char> {
    match output {
        FunctionCallOutputPayloadView::Text(text) => text,
        FunctionCallOutputPayloadView::Serialized(json) => json,
    }
}

/// The message that reports the result of a tool call.
pub open spec fn tool_result_message(
    call_id: Seq<char>,
    output: FunctionCallOutputPayloadView,
) -> ChatMessageView {
    ChatMessageView {
        role: "tool"@,
        content: non_empty(output_text(output)),
        tool_call_id: Some(call_id),
        tool_calls: None,
    }
}

/// The message that an item becomes; none for items without a Chat Completions
/// form.
pub open spec fn message_of(item: ResponseItemView) -> Option<ChatMessageView> {
    match item {
        ResponseItemView::Message { role, content, .. } => Some(
            plain_message(role, non_empty(text::join_lines(texts_of(content)))),
        ),
        ResponseItemView::FunctionCall { name, arguments, call_id, .. } => Some(
            tool_call_message(call_id, name, arguments),
        ),
        ResponseItemView::CustomToolCall { name, input, call_id, .. } => Some(
            tool_call_message(call_id, name, input),
        ),
        ResponseItemView::FunctionCallOutput { call_id, output, .. } => Some(
            tool_result_message(call_id, output),
        ),
        ResponseItemView::CustomToolCallOutput { call_id, output, .. } => Some(
            tool_result_message(call_id, output),
        ),
        ResponseItemView::Other => None,
    }
}

/// The messages that items become, in order.
pub open spec fn messages_of(items: Seq<ResponseItemView>) -> Seq<ChatMessageView>
    decreases items.len(),
{
    if items.len() == 0 {
        Seq::empty()
    } else {
        let before = messages_of(items.drop_last());
        match message_of(items.last()) {
            Some(message) => before.push(message),
            None => before,
        }
    }
}

/// The message of the instructions; none where there are none.
pub open spec fn system_messages(instructions: Seq<char>) -> Seq<ChatMessageView> {
    if instructions.len() == 0 {
        Seq::empty()
    } else {
        seq![plain_message("system"@, Some(instructions))]
    }
}

/// Whether a tool choice is one that Chat Completions knows.
pub open spec fn is_known_tool_choice(tool_choice: Seq<char>) -> bool {
    tool_choice == "none"@ || tool_choice == "auto"@ || tool_choice == "required"@
}

/// The texts of a message, one per line; none where nothing is left.
fn message_text(content: &Vec<ContentItem>) -> (r: Option<String>)
    ensures
        r.deep_view() == non_empty(text::join_lines(texts_of(content.deep_view()))),
{
    let ghost all = content.deep_view();
    let mut joined = String::new();
    let mut is_first: bool = true;
    proof {
        reveal_strlit("\n");
        assert("\n"@ =~= seq!['\n']);
    }
    assert(joined@ =~= text::join_lines(texts_of(all.take(0))));
    let mut i: usize = 0;
    while i < content.len()
        invariant
            i <= content@.len(),
            all == content.deep_view(),
            "\n"@ == seq!['\n'],
            is_first == (texts_of(all.take(i as int)).len() == 0),
            joined@ == text::join_lines(texts_of(all.take(i as int))),
        decreases content.len() - i,
    {
        let ghost before = texts_of(all.take(i as int));
        assert(all.take(i + 1).drop_last() =~= all.take(i as int));
        assert(all.take(i + 1).last() == content@[i as int].deep_view());
        match &content[i] {
            ContentItem::InputText { text } | ContentItem::OutputText { text } => {
                assert(texts_of(all.take(i + 1)) == before.push(text@));
                assert(before.push(text@).drop_last() =~= before);
                if !is_first {
                    joined.append("\n");
                }
                joined.append(text.as_str());
                is_first = false;
                assert(joined@ =~= text::join_lines(before.push(text@)));
            },
            ContentItem::Other => {},
        }
        i = i + 1;
    }
    assert(all.take(i as int) =~= all);
    if joined.as_str().is_empty() {
        None
    } else {
        Some(joined)
    }
}

/// The message that reports the result of a tool call. Without one the model
/// never learns what the tool it called returned.
fn tool_message(call_id: &str, output: &FunctionCallOutputPayload) -> (r: ChatMessage)
    ensures
        r.deep_view() == tool_result_message(call_id@, output.deep_view()),
{
    let content: String = match output {
        FunctionCallOutputPayload::Text(text) => text.clone(),
        FunctionCallOutputPayload::Serialized(json) => json.clone(),
    };
    ChatMessage {
        role: "tool".to_string(),
        content: if content.as_str().is_empty() {
            None
        } else {
            Some(content)
        },
        tool_call_id: Some(call_id.to_string()),
        tool_calls: None,
    }
}

/// The message that an item becomes.
fn convert_item(item: &ResponseItem) -> (r: Option<ChatMessage>)
    ensures
        r.deep_view() == message_of(item.deep_view()),
{
    match item {
        ResponseItem::Message { role, content, .. } => Some(
            ChatMessage {
                role: role.clone(),
                content: message_text(content),
                tool_call_id: None,
                tool_calls: None,
            },
        ),
        ResponseItem::FunctionCall { name, arguments, call_id, .. } => Some(
            assistant_tool_call_message(call_id.as_str(), name.as_str(), arguments.as_str()),
        ),
        ResponseItem::CustomToolCall { name, input, call_id, .. } => Some(
            assistant_tool_call_message(call_id.as_str(), name.as_str(), input.as_str()),
        ),
        ResponseItem::FunctionCallOutput { call_id, output, .. } => Some(
            tool_message(call_id.as_str(), output),
        ),
        ResponseItem::CustomToolCallOutput { call_id, output, .. } => Some(
            tool_message(call_id.as_str(), output),
        ),
        ResponseItem::Other => None,
    }
}

/// The messages of a request: the instructions, then the items.
fn convert_messages(instructions: &str, input: &[ResponseItem]) -> (r: Vec<ChatMessage>)
    ensures
        r.deep_view() == system_messages(instructions@) + messages_of(input.deep_view()),
{
    let mut messages: Vec<ChatMessage> = Vec::new();
    if !instructions.is_empty() {
        messages.push(
            ChatMessage {
                role: "system".to_string(),
                content: Some(instructions.to_string()),
                tool_call_id: None,
                tool_calls: None,
            },
        );
    }
    let ghost system = system_messages(instructions@);
    let ghost all = input.deep_view();
    assert(messages.deep_view() =~= system + messages_of(all.take(0)));
    let mut i: usize = 0;
    while i < input.len()
        invariant
            i <= input@.len(),
            all == input.deep_view(),
            messages.deep_view() == system + messages_of(all.take(i as int)),
        decreases input.len() - i,
    {
        let ghost before = messages.deep_view();
        if let Some(message) = convert_item(&input[i]) {
            messages.push(message);
            assert(messages.deep_view() =~= before.push(message.deep_view()));
        }
        assert(all.take(i + 1).drop_last() =~= all.take(i as int));
        assert(all.take(i + 1).last() == input@[i as int].deep_view());
        assert(messages.deep_view() =~= system + messages_of(all.take(i + 1)));
        i = i + 1;
    }
    assert(all.take(i as int) =~= all);
    messages
}

/// The function definitions of tools, in order.
pub open spec fn function_tools(tools: Seq<JsonView>) -> Seq<ChatToolView> {
    tools.map_values(|tool: JsonView| function_tool(tool))
}

/// The tools of a request: flattened, then converted.
fn convert_tools(tools: &[Json]) -> (r: Vec<ChatTool>)
    ensures
        r.deep_view() == function_tools(flat_tools(tools.deep_view())),
{
    let flat = flatten_tools_for_chat(tools);
    let mut out: Vec<ChatTool> = Vec::new();
    let mut i: usize = 0;
    while i < flat.len()
        invariant
            i <= flat@.len(),
            out@.len() == i,
            forall|j: int|
                0 <= j < i ==> (#[trigger] out@[j]).deep_view() == function_tool(flat@[j].tree()),
        decreases flat.len() - i,
    {
        out.push(tool_to_function_definition(&flat[i]));
        i = i + 1;
    }
    assert(out.deep_view() =~= function_tools(flat.deep_view()));
    out
}

/// The request for a conversation and its tools.
pub open spec fn chat_request(
    model: Seq<char>,
    input: Seq<ResponseItemView>,
    instructions: Seq<char>,
    tools: Seq<JsonView>,
    tool_choice: Seq<char>,
    parallel_tool_calls: bool,
    effort: Option<ReasoningEffort>,
    service_tier: Option<Seq<char>>,
    max_completion_tokens: Option<u32>,
) -> ChatCompletionRequestView {
    ChatCompletionRequestView {
        model,
        messages: system_messages(instructions) + messages_of(input),
        tools: function_tools(flat_tools(tools)),
        tool_choice: if is_known_tool_choice(tool_choice) {
            Some(tool_choice)
        } else {
            None
        },
        parallel_tool_calls: Some(parallel_tool_calls),
        max_tokens: None,
        max_completion_tokens,
        temperature: None,
        top_p: None,
        n: None,
        stream: Some(true),
        stream_options: Some(StreamOptions { include_usage: true }),
        stop: None,
        reasoning_effort: effort,
        service_tier,
    }
}

/// The effort that a request asks for: the one of the reasoning, normalized.
pub open spec fn effort_of(reasoning: Option<Reasoning>) -> Option<ReasoningEffort> {
    match reasoning {
        Some(reasoning) => match reasoning.effort {
            Some(effort) => Some(effort.normalized_spec()),
            None => None,
        },
        None => None,
    }
}

/// Converts a conversation and its tools to a Chat Completions request.
///
/// Of the reasoning only the effort is sent, normalized to one that providers
/// know; a summary has no counterpart.
pub fn to_chat_completions_request(
    model: &str,
    input: &[ResponseItem],
    instructions: &str,
    tools: &[Json],
    tool_choice: &str,
    parallel_tool_calls: bool,
    reasoning: Option<Reasoning>,
    service_tier: Option<&str>,
    max_completion_tokens: Option<u32>,
) -> (r: ChatCompletionRequest)
    ensures
        r.deep_view() == chat_request(
            model@,
            input.deep_view(),
            instructions@,
            tools.deep_view(),
            tool_choice@,
            parallel_tool_calls,
            effort_of(reasoning),
            service_tier.deep_view(),
            max_completion_tokens,
        ),
{
    ChatCompletionRequest {
        model: model.to_string(),
        messages: convert_messages(instructions, input),
        tools: convert_tools(tools),
        tool_choice: if str_eq(tool_choice, "none") || str_eq(tool_choice, "auto") || str_eq(
            tool_choice,
            "required",
        ) {
            Some(tool_choice.to_string())
        } else {
            None
        },
        parallel_tool_calls: Some(parallel_tool_calls),
        max_tokens: None,
        max_completion_tokens,
        temperature: None,
        top_p: None,
        n: None,
        stream: Some(true),
        stream_options: Some(StreamOptions { include_usage: true }),
        stop: None,
        reasoning_effort: match reasoning {
            Some(reasoning) => match reasoning.effort {
                Some(effort) => Some(effort.normalized()),
                None => None,
            },
            None => None,
        },
        service_tier: match service_tier {
            Some(tier) => Some(tier.to_string()),
            None => None,
        },
    }
}

/// No request asks for an effort that providers do not know: `Ultra` is asked for
/// as `Max`. The efforts that they know are asked for as they are.
pub proof fn law_known_effort_requested(reasoning: Option<Reasoning>)
    ensures
        effort_of(reasoning) != Some(ReasoningEffort::Ultra),
        reasoning is Some ==> (reasoning->0.effort matches Some(effort) ==> effort_of(reasoning)
            == Some(
            if effort == ReasoningEffort::Ultra {
                ReasoningEffort::Max
            } else {
                effort
            },
        )),
        reasoning is None || reasoning->0.effort is None ==> effort_of(reasoning) is None,
{
}

/// The member names of a flat function are told apart, from each other and from
/// the names that a conversion looks up beside them.
proof fn lemma_member_names_differ()
    ensures
        "type"@ != "name"@,
        "type"@ != "description"@,
        "type"@ != "parameters"@,
        "name"@ != "description"@,
        "name"@ != "parameters"@,
        "description"@ != "parameters"@,
        "function"@ != "type"@ && "function"@ != "name"@ && "function"@ != "description"@
            && "function"@ != "parameters"@,
        "namespace"@ != "type"@ && "namespace"@ != "name"@ && "namespace"@ != "description"@
            && "namespace"@ != "parameters"@,
        "namespace"@ != "function"@,
{
    reveal_strlit("type");
    reveal_strlit("name");
    reveal_strlit("description");
    reveal_strlit("parameters");
    reveal_strlit("function");
    reveal_strlit("namespace");
    assert("type"@[0] != "name"@[0]);
    assert("type"@.len() == 4 && "name"@.len() == 4 && "description"@.len() == 11);
    assert("parameters"@.len() == 10 && "function"@.len() == 8 && "namespace"@.len() == 9);
}

/// A function inside a namespace is offered under the namespace followed by its
/// own name, with its own description and parameters.
pub proof fn law_namespaced_function_offered(nested: JsonView, namespace: Seq<char>)
    requires
        nested.get_str("type"@) == Some("function"@),
        nested.get_str("name"@) is Some,
    ensures
        flat_function(nested, namespace) is Some,
        function_tool(flat_function(nested, namespace)->0) == (ChatToolView {
            type_: "function"@,
            function: FunctionDefinitionView {
                name: namespace + nested.get_str("name"@)->0,
                description: or_empty(nested.get_str("description"@)),
                parameters: parameters_of(nested),
            },
        }),
{
    lemma_member_names_differ();
    let flat = flat_function(nested, namespace)->0;
    let members = flat->Object_0;
    reveal_with_fuel(JsonView::lookup, 5);
    assert(members.skip(1)[0] == members[1]);
    assert(members.skip(1).skip(1)[0] == members[2]);
    assert(members.skip(1).skip(1).skip(1)[0] == members[3]);
    assert(members.skip(1).skip(1).skip(1).skip(1).len() == 0);
}

/// Tools that are no namespaces are offered as they are, and flattening treats
/// each tool by itself.
pub proof fn law_flattening_itemwise(before: Seq<JsonView>, tool: JsonView, after: Seq<JsonView>)
    ensures
        flat_tools(before + seq![tool] + after) == flat_tools(before) + flat_tool(tool)
            + flat_tools(after),
        tool.get_str("type"@) != Some("namespace"@) ==> flat_tool(tool) == seq![tool],
{
    lemma_flat_tools_concat(before, seq![tool]);
    lemma_flat_tools_concat(before + seq![tool], after);
    reveal_with_fuel(flat_tools, 2);
    assert(seq![tool].drop_last() =~= Seq::empty());
    assert(flat_tools(seq![tool]) =~= flat_tool(tool));
}

proof fn lemma_flat_tools_concat(a: Seq<JsonView>, b: Seq<JsonView>)
    ensures
        flat_tools(a + b) == flat_tools(a) + flat_tools(b),
    decreases b.len(),
{
    if b.len() == 0 {
        assert(a + b =~= a);
        assert(flat_tools(a) + flat_tools(b) =~= flat_tools(a));
    } else {
        assert((a + b).drop_last() =~= a + b.drop_last());
        lemma_flat_tools_concat(a, b.drop_last());
        assert(flat_tools(a + b) =~= flat_tools(a) + flat_tools(b));
    }
}

/// Flattening keeps the names of members distinct.
pub proof fn law_flattening_keeps_names_distinct(tools: Seq<JsonView>)
    requires
        forall|i: int| 0 <= i < tools.len() ==> (#[trigger] tools[i]).has_distinct_names(),
    ensures
        forall|i: int|
            0 <= i < flat_tools(tools).len() ==> (
            #[trigger] flat_tools(tools)[i]).has_distinct_names(),
    decreases tools.len(),
{
    if tools.len() > 0 {
        let front = tools.drop_last();
        assert forall|i: int| 0 <= i < front.len() implies (
        #[trigger] front[i]).has_distinct_names() by {
            assert(front[i] == tools[i]);
        }
        law_flattening_keeps_names_distinct(front);
        let tool = tools.last();
        if tool.get_str("type"@) == Some("namespace"@) && tool.get_array("tools"@) is Some {
            crate::json::lemma_member_has_distinct_names(tool, "tools"@);
            lemma_flat_functions_distinct(
                tool.get_array("tools"@)->0,
                or_empty(tool.get_str("name"@)),
            );
        }
        let before = flat_tools(front);
        let all = flat_tools(tools);
        assert forall|i: int| 0 <= i < all.len() implies (#[trigger] all[i]).has_distinct_names() by {
            if i < before.len() {
                assert(all[i] == before[i]);
            } else {
                assert(all[i] == flat_tool(tool)[i - before.len()]);
            }
        }
    }
}

proof fn lemma_flat_functions_distinct(nested: Seq<JsonView>, namespace: Seq<char>)
    requires
        forall|i: int| 0 <= i < nested.len() ==> (#[trigger] nested[i]).has_distinct_names(),
    ensures
        forall|i: int|
            0 <= i < flat_functions(nested, namespace).len() ==> (
            #[trigger] flat_functions(nested, namespace)[i]).has_distinct_names(),
    decreases nested.len(),
{
    if nested.len() > 0 {
        let front = nested.drop_last();
        assert forall|i: int| 0 <= i < front.len() implies (
        #[trigger] front[i]).has_distinct_names() by {
            assert(front[i] == nested[i]);
        }
        lemma_flat_functions_distinct(front, namespace);
        let tool = nested.last();
        if let Some(flat) = flat_function(tool, namespace) {
            lemma_member_names_differ();
            if tool.get("parameters"@) is Some {
                crate::json::lemma_member_has_distinct_names(tool, "parameters"@);
            }
            let members = flat->Object_0;
            assert(parameters_of(tool).has_distinct_names());
            assert forall|i: int| 0 <= i < members.len() implies (
            #[trigger] members[i]).1.has_distinct_names() by {
                if i == 3 {
                    assert(members[i].1 == parameters_of(tool));
                }
            }
            assert(flat.has_distinct_names());
        }
        let before = flat_functions(front, namespace);
        let all = flat_functions(nested, namespace);
        assert forall|i: int| 0 <= i < all.len() implies (#[trigger] all[i]).has_distinct_names() by {
            if i < before.len() {
                assert(all[i] == before[i]);
            }
        }
    }
}

/// Each item is converted by itself, and the order of the items is kept.
pub proof fn law_conversion_itemwise(
    before: Seq<ResponseItemView>,
    item: ResponseItemView,
    after: Seq<ResponseItemView>,
)
    ensures
        messages_of(before + seq![item] + after) == messages_of(before) + (match message_of(item) {
            Some(message) => seq![message],
            None => Seq::empty(),
        }) + messages_of(after),
{
    lemma_messages_concat(before, seq![item]);
    lemma_messages_concat(before + seq![item], after);
    reveal_with_fuel(messages_of, 2);
    assert(seq![item].drop_last() =~= Seq::empty());
    if let Some(message) = message_of(item) {
        assert(messages_of(seq![item]) =~= seq![message]);
    }
}

proof fn lemma_messages_concat(a: Seq<ResponseItemView>, b: Seq<ResponseItemView>)
    ensures
        messages_of(a + b) == messages_of(a) + messages_of(b),
    decreases b.len(),
{
    if b.len() == 0 {
        assert(a + b =~= a);
        assert(messages_of(a) + messages_of(b) =~= messages_of(a));
    } else {
        assert((a + b).drop_last() =~= a + b.drop_last());
        lemma_messages_concat(a, b.drop_last());
        assert(messages_of(a + b) =~= messages_of(a) + messages_of(b));
    }
}

/// Whether the parts of a message that belong to tool calls stand where Chat
/// Completions allows them: the id of a call only on a tool result, calls only
/// on assistant messages, and there without content.
pub open spec fn is_valid_message(message: ChatMessageView) -> bool {
    &&& message.tool_call_id is Some ==> message.role == "tool"@ && message.tool_calls is None
    &&& message.tool_calls is Some ==> message.role == "assistant"@ && message.content is None
}

/// Every message of a request has its tool parts where they are allowed.
pub proof fn law_messages_valid(instructions: Seq<char>, input: Seq<ResponseItemView>)
    ensures
        ({
            let messages = system_messages(instructions) + messages_of(input);
            forall|i: int| 0 <= i < messages.len() ==> is_valid_message(#[trigger] messages[i])
        }),
    decreases input.len(),
{
    if input.len() > 0 {
        law_messages_valid(instructions, input.drop_last());
        let before = system_messages(instructions) + messages_of(input.drop_last());
        let messages = system_messages(instructions) + messages_of(input);
        assert forall|i: int| 0 <= i < messages.len() implies is_valid_message(
            #[trigger] messages[i],
        ) by {
            if i < before.len() {
                assert(messages[i] == before[i]);
            }
        }
    }
}

/// The model learns the result of every tool call: each result in the
/// conversation is reported by a `tool` message with the id of its call.
pub proof fn law_results_reported(input: Seq<ResponseItemView>, i: int)
    requires
        0 <= i < input.len(),
        input[i] is FunctionCallOutput || input[i] is CustomToolCallOutput,
    ensures
        ({
            let (call_id, output) = match input[i] {
                ResponseItemView::FunctionCallOutput { call_id, output, .. } => (call_id, output),
                ResponseItemView::CustomToolCallOutput { call_id, output, .. } => (call_id, output),
                _ => arbitrary(),
            };
            messages_of(input).contains(tool_result_message(call_id, output))
        }),
{
    let message = message_of(input[i])->0;
    let before = messages_of(input.take(i));
    law_conversion_itemwise(input.take(i), input[i], input.skip(i + 1));
    assert(input =~= input.take(i) + seq![input[i]] + input.skip(i + 1));
    assert(messages_of(input)[before.len() as int] == message);
}

} // verus!
