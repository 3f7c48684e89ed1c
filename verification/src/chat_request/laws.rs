//! What holds of every request: how messages, tools and settings come out of a
//! conversation.

use vstd::prelude::*;

use super::{ChatMessageToolCallView, ChatMessageView, FunctionCallView};
use crate::chat_request;
use crate::chat_request::StreamOptions;
use crate::json::JsonView;
use crate::models::{
    ContentItemView, FunctionCallOutputPayloadView, ReasoningEffort, ResponseItemView,
};
use crate::text;

verus! {

/// A tool whose definition is nested, `{ type: "function", function: { ... } }`, is
/// offered with the name, the description and the parameters inside; a tool without
/// a nested definition with its own. Where one is missing, the name and the
/// description are empty and the parameters an empty object.
pub proof fn law_tool_offered_as_defined(tool: JsonView, definition: JsonView)
    requires
        if tool.get_str("type"@) == Some("function"@) && tool.get("function"@) is Some {
            tool.get("function"@) == Some(definition)
        } else {
            definition == tool
        },
    ensures
        ({
            let offered = chat_request::function_tool(tool);
            let name = definition.get_str("name"@);
            let description = definition.get_str("description"@);
            let namespace = definition.get_str("namespace"@);
            let parameters = definition.get("parameters"@);
            &&& offered.type_ == "function"@
            &&& name is Some ==> offered.function.name == name->0
            &&& name is None ==> offered.function.name.len() == 0
            &&& parameters is Some ==> offered.function.parameters == parameters->0
            &&& parameters is None ==> offered.function.parameters == JsonView::Object(Seq::empty())
            &&& description is None ==> offered.function.description.len() == 0
            &&& description is Some && (namespace is None || description->0.len() == 0)
                ==> offered.function.description == description->0
            &&& description is Some && namespace is Some && description->0.len() > 0
                ==> offered.function.description == "["@ + namespace->0 + "] "@ + description->0
        }),
{
}

/// A namespace with a list of tools is offered as the functions in that list that
/// have a name, in order, each under the namespace followed by its name. Every other
/// tool is offered as it is.
pub proof fn law_namespace_flattened(
    tool: JsonView,
    namespace: Seq<char>,
    first: Seq<JsonView>,
    nested: JsonView,
)
    requires
        tool.get_str("name"@) == Some(namespace) || tool.get_str("name"@) is None
            && namespace.len() == 0,
    ensures
        tool.get_str("type"@) == Some("namespace"@) && tool.get_array("tools"@) == Some(
            first.push(nested),
        ) ==> chat_request::flat_tool(tool) == chat_request::flat_functions(first, namespace) + (if
        nested.get_str("type"@) == Some("function"@) && nested.get_str("name"@) is Some {
            seq![
                JsonView::Object(
                    seq![
                        ("type"@, JsonView::Str("function"@)),
                        ("name"@, JsonView::Str(namespace + nested.get_str("name"@)->0)),
                        (
                            "description"@,
                            JsonView::Str(
                                if nested.get_str("description"@) is Some {
                                    nested.get_str("description"@)->0
                                } else {
                                    Seq::empty()
                                },
                            ),
                        ),
                        (
                            "parameters"@,
                            if nested.get("parameters"@) is Some {
                                nested.get("parameters"@)->0
                            } else {
                                JsonView::Object(Seq::empty())
                            },
                        ),
                    ],
                ),
            ]
        } else {
            Seq::empty()
        }),
        tool.get_str("type"@) == Some("namespace"@) && tool.get_array("tools"@) == Some(
            Seq::<JsonView>::empty(),
        ) ==> chat_request::flat_tool(tool).len() == 0,
        tool.get_str("type"@) != Some("namespace"@) || tool.get_array("tools"@) is None
            ==> chat_request::flat_tool(tool) == seq![tool],
        chat_request::flat_functions(Seq::empty(), namespace).len() == 0,
{
    let all = first.push(nested);
    assert(all.drop_last() =~= first);
    assert(namespace =~= chat_request::or_empty(tool.get_str("name"@)));
    if tool.get_str("type"@) == Some("namespace"@) && tool.get_array("tools"@) == Some(all) {
        let before = chat_request::flat_functions(first, namespace);
        match chat_request::flat_function(nested, namespace) {
            Some(flat) => {
                assert(before.push(flat) =~= before + seq![flat]);
            },
            None => {
                assert(before + Seq::<JsonView>::empty() =~= before);
            },
        }
    }
}

/// The functions of a namespace come out list by list.
pub proof fn law_nested_functions_in_order(
    first: Seq<JsonView>,
    second: Seq<JsonView>,
    namespace: Seq<char>,
)
    ensures
        chat_request::flat_functions(first + second, namespace) == chat_request::flat_functions(
            first,
            namespace,
        ) + chat_request::flat_functions(second, namespace),
    decreases second.len(),
{
    if second.len() == 0 {
        assert(first + second =~= first);
        assert(chat_request::flat_functions(first, namespace) + chat_request::flat_functions(
            second,
            namespace,
        ) =~= chat_request::flat_functions(first, namespace));
    } else {
        assert((first + second).drop_last() =~= first + second.drop_last());
        law_nested_functions_in_order(first, second.drop_last(), namespace);
        assert(chat_request::flat_functions(first + second, namespace)
            =~= chat_request::flat_functions(first, namespace) + chat_request::flat_functions(
            second,
            namespace,
        ));
    }
}

/// The texts of a message are those of its text pieces, in order; other pieces have
/// none.
pub proof fn law_texts_in_order(first: Seq<ContentItemView>, second: Seq<ContentItemView>)
    ensures
        chat_request::texts_of(first + second) == chat_request::texts_of(first)
            + chat_request::texts_of(second),
        chat_request::texts_of(Seq::empty()).len() == 0,
        forall|text: Seq<char>| #[trigger]
            chat_request::texts_of(seq![ContentItemView::InputText { text }]) == seq![text],
        forall|text: Seq<char>| #[trigger]
            chat_request::texts_of(seq![ContentItemView::OutputText { text }]) == seq![text],
        chat_request::texts_of(seq![ContentItemView::Other]).len() == 0,
    decreases second.len(),
{
    reveal_with_fuel(chat_request::texts_of, 2);
    if second.len() == 0 {
        assert(first + second =~= first);
        assert(chat_request::texts_of(first) + chat_request::texts_of(second)
            =~= chat_request::texts_of(first));
    } else {
        assert((first + second).drop_last() =~= first + second.drop_last());
        law_texts_in_order(first, second.drop_last());
        assert(chat_request::texts_of(first + second) =~= chat_request::texts_of(first)
            + chat_request::texts_of(second));
    }
    assert forall|text: Seq<char>| #[trigger]
        chat_request::texts_of(seq![ContentItemView::InputText { text }]) == seq![text] by {
        let one = seq![ContentItemView::InputText { text }];
        assert(one.drop_last() =~= Seq::empty());
        assert(chat_request::texts_of(one) =~= seq![text]);
    }
    assert forall|text: Seq<char>| #[trigger]
        chat_request::texts_of(seq![ContentItemView::OutputText { text }]) == seq![text] by {
        let one = seq![ContentItemView::OutputText { text }];
        assert(one.drop_last() =~= Seq::empty());
        assert(chat_request::texts_of(one) =~= seq![text]);
    }
    let other = seq![ContentItemView::Other];
    assert(other.drop_last() =~= Seq::empty());
}

/// A message keeps its role, and its content is its texts, one per line; it has none
/// where nothing is left. It carries no part of a tool call.
pub proof fn law_message_converted(
    id: Option<Seq<char>>,
    role: Seq<char>,
    content: Seq<ContentItemView>,
    phase: Option<Seq<char>>,
    passthrough: Option<Seq<char>>,
)
    ensures
        ({
            let joined = text::join_lines(chat_request::texts_of(content));
            chat_request::message_of(
                ResponseItemView::Message {
                    id,
                    role,
                    content,
                    phase,
                    internal_chat_message_metadata_passthrough: passthrough,
                },
            ) == Some(
                ChatMessageView {
                    role,
                    content: if joined.len() > 0 {
                        Some(joined)
                    } else {
                        None
                    },
                    tool_call_id: None,
                    tool_calls: None,
                },
            )
        }),
{
}

/// A message of one text has that text as its content.
pub proof fn law_single_text_kept(
    id: Option<Seq<char>>,
    role: Seq<char>,
    text: Seq<char>,
    phase: Option<Seq<char>>,
    passthrough: Option<Seq<char>>,
)
    requires
        text.len() > 0,
    ensures
        forall|piece: ContentItemView|
            piece == (ContentItemView::InputText { text }) || piece
                == (ContentItemView::OutputText { text }) ==> (#[trigger] chat_request::message_of(
                ResponseItemView::Message {
                    id,
                    role,
                    content: seq![piece],
                    phase,
                    internal_chat_message_metadata_passthrough: passthrough,
                },
            )) == Some(
                ChatMessageView { role, content: Some(text), tool_call_id: None, tool_calls: None },
            ),
{
    law_texts_in_order(Seq::empty(), Seq::empty());
    text::law_lines_joined(Seq::empty(), Seq::empty());
    let input = seq![ContentItemView::InputText { text }];
    let output = seq![ContentItemView::OutputText { text }];
    assert(chat_request::texts_of(input) == seq![text]);
    assert(chat_request::texts_of(output) == seq![text]);
    assert(text::join_lines(seq![text]) == text);
}

/// A tool call becomes an assistant message without content that makes exactly this
/// call, under its call id, with its name and its whole arguments or input.
pub proof fn law_call_converted(item: ResponseItemView)
    requires
        item is FunctionCall || item is CustomToolCall,
    ensures
        ({
            let (call_id, name, arguments) = match item {
                ResponseItemView::FunctionCall { call_id, name, arguments, .. } => (
                    call_id,
                    name,
                    arguments,
                ),
                ResponseItemView::CustomToolCall { call_id, name, input, .. } => (
                    call_id,
                    name,
                    input,
                ),
                _ => arbitrary(),
            };
            chat_request::message_of(item) == Some(
                ChatMessageView {
                    role: "assistant"@,
                    content: None,
                    tool_call_id: None,
                    tool_calls: Some(
                        seq![
                            ChatMessageToolCallView {
                                id: call_id,
                                type_: "function"@,
                                function: FunctionCallView { name, arguments },
                            },
                        ],
                    ),
                },
            )
        }),
{
}

/// A tool result becomes a `tool` message with the id of its call and the whole
/// output as its content; it has none where the output is empty.
pub proof fn law_result_converted(item: ResponseItemView)
    requires
        item is FunctionCallOutput || item is CustomToolCallOutput,
    ensures
        ({
            let (call_id, output) = match item {
                ResponseItemView::FunctionCallOutput { call_id, output, .. } => (call_id, output),
                ResponseItemView::CustomToolCallOutput { call_id, output, .. } => (
                    call_id,
                    output,
                ),
                _ => arbitrary(),
            };
            let whole = match output {
                FunctionCallOutputPayloadView::Text(text) => text,
                FunctionCallOutputPayloadView::Serialized(json) => json,
            };
            chat_request::message_of(item) == Some(
                ChatMessageView {
                    role: "tool"@,
                    content: if whole.len() > 0 {
                        Some(whole)
                    } else {
                        None
                    },
                    tool_call_id: Some(call_id),
                    tool_calls: None,
                },
            )
        }),
{
}

/// Items without a Chat Completions form become no message, and nothing becomes
/// nothing.
pub proof fn law_other_items_left_out()
    ensures
        chat_request::message_of(ResponseItemView::Other) is None,
        chat_request::messages_of(Seq::empty()).len() == 0,
{
}

/// Every tool result with plain text in a conversation reaches the model: the
/// request holds a message with the role `tool`, the id of the call, and that text
/// as it is.
pub proof fn law_result_text_reaches_model(
    before: Seq<ResponseItemView>,
    call_id: Seq<char>,
    text: Seq<char>,
    after: Seq<ResponseItemView>,
    result: ResponseItemView,
    instructions: Seq<char>,
)
    requires
        text.len() > 0,
        match result {
            ResponseItemView::FunctionCallOutput { call_id: id, output, .. } => id == call_id
                && output == FunctionCallOutputPayloadView::Text(text),
            ResponseItemView::CustomToolCallOutput { call_id: id, output, .. } => id == call_id
                && output == FunctionCallOutputPayloadView::Text(text),
            _ => false,
        },
    ensures
        ({
            let messages = chat_request::system_messages(instructions) + chat_request::messages_of(
                before + seq![result] + after,
            );
            messages.contains(
                ChatMessageView {
                    role: "tool"@,
                    content: Some(text),
                    tool_call_id: Some(call_id),
                    tool_calls: None,
                },
            )
        }),
{
    let message = ChatMessageView {
        role: "tool"@,
        content: Some(text),
        tool_call_id: Some(call_id),
        tool_calls: None,
    };
    law_result_converted(result);
    chat_request::law_conversion_itemwise(before, result, after);
    let first = chat_request::messages_of(before);
    let system = chat_request::system_messages(instructions);
    let messages = system + chat_request::messages_of(before + seq![result] + after);
    assert(messages[(system.len() + first.len()) as int] == message);
}

/// A request carries the model, the settings and the service tier that it is made
/// for. The instructions come first, as a `system` message, where there are any.
/// The tool choice is sent where Chat Completions knows it. The response is streamed
/// with its usage, and nothing else is set.
pub proof fn law_request_settings(
    model: Seq<char>,
    input: Seq<ResponseItemView>,
    instructions: Seq<char>,
    tools: Seq<JsonView>,
    tool_choice: Seq<char>,
    parallel_tool_calls: bool,
    effort: Option<ReasoningEffort>,
    service_tier: Option<Seq<char>>,
    max_completion_tokens: Option<u32>,
)
    ensures
        ({
            let request = chat_request::chat_request(
                model,
                input,
                instructions,
                tools,
                tool_choice,
                parallel_tool_calls,
                effort,
                service_tier,
                max_completion_tokens,
            );
            let messages = chat_request::messages_of(input);
            let flat = chat_request::flat_tools(tools);
            &&& request.model == model
            &&& instructions.len() == 0 ==> request.messages == messages
            &&& instructions.len() > 0 ==> request.messages == seq![
                ChatMessageView {
                    role: "system"@,
                    content: Some(instructions),
                    tool_call_id: None,
                    tool_calls: None,
                },
            ] + messages
            &&& request.tools.len() == flat.len()
            &&& forall|i: int|
                0 <= i < flat.len() ==> #[trigger] request.tools[i] == chat_request::function_tool(
                    flat[i],
                )
            &&& tool_choice == "none"@ || tool_choice == "auto"@ || tool_choice == "required"@
                ==> request.tool_choice == Some(tool_choice)
            &&& tool_choice != "none"@ && tool_choice != "auto"@ && tool_choice != "required"@
                ==> request.tool_choice is None
            &&& request.parallel_tool_calls == Some(parallel_tool_calls)
            &&& request.max_completion_tokens == max_completion_tokens
            &&& request.reasoning_effort == effort
            &&& request.service_tier == service_tier
            &&& request.stream == Some(true)
            &&& request.stream_options == Some(StreamOptions { include_usage: true })
            &&& request.max_tokens is None
            &&& request.temperature is None
            &&& request.top_p is None
            &&& request.n is None
            &&& request.stop is None
        }),
{
    let messages = chat_request::messages_of(input);
    assert(Seq::<ChatMessageView>::empty() + messages =~= messages);
}

/// No tools flatten to none.
pub proof fn law_no_tools_offered()
    ensures
        chat_request::flat_tools(Seq::empty()).len() == 0,
{
}

} // verus!
