//! What one piece of a chunk does to a turn, whatever the turn has come to.

use crate::chat_response::{ChatChoiceDeltaView, ChatToolCallDeltaView, ChatUsage};
use crate::models::{ContentItemView, ResponseEventView, ResponseItemView};
use crate::sse::chat;
use crate::sse::chat::{ToolCallAccumView, TurnState};
use crate::text;
use vstd::prelude::*;

verus! {

/// Text that is not empty is appended and sent unchanged; where no message was
/// announced yet, one is announced first. Nothing else changes, and without text
/// nothing does.
pub proof fn law_text_taken_in(state: TurnState, content: Seq<char>, message_id: Seq<char>)
    ensures
        ({
            let after = chat::text_state(state, Some(content));
            let events = chat::text_events(state.message_announced, Some(content), message_id);
            &&& after.text == state.text + content
            &&& after.tools == state.tools
            &&& after.message_announced == (state.message_announced || content.len() > 0)
            &&& content.len() == 0 ==> events.len() == 0
            &&& content.len() > 0 ==> events.last() == ResponseEventView::OutputTextDelta(content)
            &&& content.len() > 0 && state.message_announced ==> events.len() == 1
            &&& content.len() > 0 && !state.message_announced ==> events.len() == 2 && events[0]
                == ResponseEventView::OutputItemAdded(
                ResponseItemView::Message {
                    id: Some(message_id),
                    role: "assistant"@,
                    content: Seq::empty(),
                    phase: None,
                    internal_chat_message_metadata_passthrough: None,
                },
            )
        }),
        chat::text_state(state, None) == state,
        chat::text_events(state.message_announced, None, message_id).len() == 0,
{
    if content.len() == 0 {
        assert(state.text + content =~= state.text);
    }
}

/// The call at an index before anything is taken in; one of which nothing has
/// arrived, where there is none.
pub open spec fn call_before(
    tools: Map<usize, ToolCallAccumView>,
    index: usize,
) -> ToolCallAccumView {
    if tools.contains_key(index) {
        tools[index]
    } else {
        ToolCallAccumView {
            id: None,
            name: None,
            arguments: Seq::empty(),
            announced: false,
            finalized: false,
        }
    }
}

/// A fragment touches the call of its index and no other. It replaces the id and the
/// name where it carries them, and leaves them where it does not; its arguments are
/// appended. It never reopens or closes a call.
pub proof fn law_fragment_taken_in(
    tools: Map<usize, ToolCallAccumView>,
    fragment: ChatToolCallDeltaView,
)
    ensures
        ({
            let index = fragment.index;
            let before = call_before(tools, index);
            let all = chat::tool_delta_tools(tools, fragment);
            let after = all[index];
            &&& all.dom() == tools.dom().insert(index)
            &&& forall|other: usize|
                other != index && #[trigger] tools.contains_key(other) ==> all[other]
                    == tools[other]
            &&& fragment.id is Some ==> after.id == fragment.id
            &&& fragment.id is None ==> after.id == before.id
            &&& fragment.function is Some && fragment.function->0.name is Some ==> after.name
                == fragment.function->0.name
            &&& fragment.function is None || fragment.function->0.name is None ==> after.name
                == before.name
            &&& fragment.function is Some && fragment.function->0.arguments is Some
                ==> after.arguments == before.arguments + fragment.function->0.arguments->0
            &&& fragment.function is None || fragment.function->0.arguments is None
                ==> after.arguments == before.arguments
            &&& after.announced == (before.announced || after.id is Some || after.name is Some)
            &&& after.finalized == before.finalized
        }),
{
    let index = fragment.index;
    let all = chat::tool_delta_tools(tools, fragment);
    assert(all.dom() =~= tools.dom().insert(index));
    let before = call_before(tools, index);
    assert(before.arguments + Seq::<char>::empty() =~= before.arguments);
}

/// The id that the events of a call carry.
pub open spec fn id_of(call: ToolCallAccumView, index: usize) -> Seq<char> {
    match call.id {
        Some(id) => id,
        None => "tool_"@ + text::decimal(index as nat),
    }
}

/// A call as an item, with the given arguments.
pub open spec fn item_of(
    call: ToolCallAccumView,
    index: usize,
    arguments: Seq<char>,
) -> ResponseItemView {
    ResponseItemView::FunctionCall {
        id: None,
        name: if call.name is Some {
            call.name->0
        } else {
            Seq::empty()
        },
        namespace: None,
        arguments,
        call_id: id_of(call, index),
        internal_chat_message_metadata_passthrough: None,
    }
}

/// A fragment is sent as the announcement of its call, if it names the call first,
/// and as its arguments, if it has any; both under what is known of the call with
/// the fragment.
pub proof fn law_fragment_sent(
    tools: Map<usize, ToolCallAccumView>,
    fragment: ChatToolCallDeltaView,
)
    ensures
        ({
            let index = fragment.index;
            let before = call_before(tools, index);
            let after = chat::tool_delta_tools(tools, fragment)[index];
            let arguments = if fragment.function is Some && fragment.function->0.arguments is Some {
                fragment.function->0.arguments->0
            } else {
                Seq::empty()
            };
            chat::tool_delta_events(tools, fragment) == (if after.announced && !before.announced {
                seq![ResponseEventView::OutputItemAdded(item_of(after, index, Seq::empty()))]
            } else {
                Seq::empty()
            }) + (if arguments.len() > 0 {
                seq![
                    ResponseEventView::ToolCallInputDelta {
                        item_id: id_of(after, index),
                        call_id: Some(id_of(after, index)),
                        delta: arguments,
                    },
                ]
            } else {
                Seq::empty()
            })
        }),
{
    law_fragment_taken_in(tools, fragment);
}

/// Fragments are taken in one after the other.
pub proof fn law_fragments_in_order(
    tools: Map<usize, ToolCallAccumView>,
    first: Seq<ChatToolCallDeltaView>,
    fragment: ChatToolCallDeltaView,
)
    ensures
        ({
            let before = chat::tool_deltas_tools(tools, first);
            &&& chat::tool_deltas_tools(tools, first.push(fragment)) == chat::tool_delta_tools(
                before,
                fragment,
            )
            &&& chat::tool_deltas_events(tools, first.push(fragment)) == chat::tool_deltas_events(
                tools,
                first,
            ) + chat::tool_delta_events(before, fragment)
        }),
        chat::tool_deltas_tools(tools, Seq::empty()) == tools,
        chat::tool_deltas_events(tools, Seq::empty()).len() == 0,
{
    assert(first.push(fragment).drop_last() =~= first);
}

/// The indices under `bound` of the calls that are announced and not closed, in
/// ascending order.
pub open spec fn open_below(tools: Map<usize, ToolCallAccumView>, bound: nat) -> Seq<usize>
    decreases bound,
{
    if bound == 0 {
        Seq::empty()
    } else {
        let index = (bound - 1) as usize;
        let below = open_below(tools, (bound - 1) as nat);
        if tools.contains_key(index) && tools[index].announced && !tools[index].finalized {
            below.push(index)
        } else {
            below
        }
    }
}

proof fn lemma_closings(tools: Map<usize, ToolCallAccumView>, bound: nat)
    requires
        bound <= usize::MAX + 1,
    ensures
        ({
            let open = open_below(tools, bound);
            let events = chat::done_events_below(tools, bound);
            &&& events.len() == open.len()
            &&& forall|k: int|
                0 <= k < open.len() ==> (#[trigger] open[k]) < bound && tools.contains_key(open[k])
                    && events[k] == ResponseEventView::OutputItemDone(
                    item_of(tools[open[k]], open[k], tools[open[k]].arguments),
                )
            &&& forall|j: int, k: int|
                0 <= j < k < open.len() ==> (#[trigger] open[j]) < (#[trigger] open[k])
            &&& forall|index: usize|
                index < bound ==> (#[trigger] open.contains(index) <==> tools.contains_key(index)
                    && tools[index].announced && !tools[index].finalized)
        }),
    decreases bound,
{
    if bound > 0 {
        lemma_closings(tools, (bound - 1) as nat);
        let last = (bound - 1) as usize;
        let below = open_below(tools, (bound - 1) as nat);
        let open = open_below(tools, bound);
        assert forall|index: usize| index < bound implies (#[trigger] open.contains(index)
            <==> tools.contains_key(index) && tools[index].announced && !tools[index].finalized) by {
            if below.contains(index) {
                let k = choose|k: int| 0 <= k < below.len() && below[k] == index;
                assert(open[k] == index);
            }
            if open.contains(index) {
                let k = choose|k: int| 0 <= k < open.len() && open[k] == index;
                if k < below.len() {
                    assert(below[k] == index);
                    assert(below.contains(index));
                }
            }
            if index == last && open.len() > below.len() {
                assert(open[below.len() as int] == last);
            }
        }
    }
}

/// A `finish_reason` closes exactly the calls that are announced and not closed, in
/// the order of their indices, each with its name, id and all its arguments. After
/// that every announced call counts as closed, and nothing else has changed.
pub proof fn law_finish_closes_open_calls(tools: Map<usize, ToolCallAccumView>)
    ensures
        ({
            let open = open_below(tools, (usize::MAX + 1) as nat);
            let events = chat::done_events(tools);
            &&& events.len() == open.len()
            &&& forall|k: int|
                0 <= k < open.len() ==> events[k] == ResponseEventView::OutputItemDone(
                    item_of(tools[#[trigger] open[k]], open[k], tools[open[k]].arguments),
                )
            &&& forall|j: int, k: int|
                0 <= j < k < open.len() ==> (#[trigger] open[j]) < (#[trigger] open[k])
            &&& forall|index: usize| #[trigger]
                open.contains(index) <==> tools.contains_key(index) && tools[index].announced
                    && !tools[index].finalized
        }),
        chat::settled_tools(tools).dom() == tools.dom(),
        forall|index: usize| #[trigger]
            tools.contains_key(index) ==> chat::settled_tools(tools)[index] == (ToolCallAccumView {
                finalized: tools[index].finalized || tools[index].announced,
                ..tools[index]
            }),
{
    lemma_closings(tools, (usize::MAX + 1) as nat);
    assert(chat::settled_tools(tools).dom() =~= tools.dom());
}

/// A choice is taken in as its text, then its fragments in order, then, where it has
/// a `finish_reason`, the closing of the calls.
pub proof fn law_choice_in_order(
    state: TurnState,
    choice: ChatChoiceDeltaView,
    message_id: Seq<char>,
)
    ensures
        ({
            let step = chat::choice_step(state, choice, message_id);
            let fragments = if choice.delta.tool_calls is Some {
                choice.delta.tool_calls->0
            } else {
                Seq::empty()
            };
            let tools = chat::tool_deltas_tools(state.tools, fragments);
            let text = chat::text_state(state, choice.delta.content);
            let events = chat::text_events(
                state.message_announced,
                choice.delta.content,
                message_id,
            ) + chat::tool_deltas_events(state.tools, fragments);
            &&& step.state.text == text.text
            &&& step.state.message_announced == text.message_announced
            &&& step.finish_reason == choice.finish_reason
            &&& choice.finish_reason is Some ==> step.state.tools == chat::settled_tools(tools)
                && step.events == events + chat::done_events(tools)
            &&& choice.finish_reason is None ==> step.state.tools == tools && step.events == events
        }),
{
}

/// Choices are taken in one after the other, and the last `finish_reason` counts.
pub proof fn law_choices_in_order(
    state: TurnState,
    first: Seq<ChatChoiceDeltaView>,
    choice: ChatChoiceDeltaView,
    message_id: Seq<char>,
)
    ensures
        ({
            let before = chat::choices_step(state, first, message_id);
            let step = chat::choice_step(before.state, choice, message_id);
            let all = chat::choices_step(state, first.push(choice), message_id);
            &&& all.state == step.state
            &&& all.events == before.events + step.events
            &&& choice.finish_reason is Some ==> all.finish_reason == choice.finish_reason
            &&& choice.finish_reason is None ==> all.finish_reason == before.finish_reason
        }),
        chat::choices_step(state, Seq::empty(), message_id).state == state,
        chat::choices_step(state, Seq::empty(), message_id).events.len() == 0,
        chat::choices_step(state, Seq::empty(), message_id).finish_reason is None,
{
    assert(first.push(choice).drop_last() =~= first);
}

/// A turn ends with its message, if one was announced, under the given id and with
/// the whole text; with the closing of the open calls; and with `Completed`, which
/// carries the response id, the usage, and that the turn is over unless tools are to
/// run.
pub proof fn law_turn_ended(
    state: TurnState,
    response_id: Seq<char>,
    usage: Option<ChatUsage>,
    finish_reason: Option<Seq<char>>,
    message_id: Seq<char>,
)
    ensures
        ({
            let events = chat::terminal_events(
                state,
                response_id,
                usage,
                finish_reason,
                message_id,
            );
            let after = chat::terminal_state(state);
            &&& events.last() == (ResponseEventView::Completed {
                response_id,
                token_usage: chat::token_usage_of(usage),
                end_turn: Some(finish_reason != Some("tool_calls"@)),
            })
            &&& state.message_announced ==> events == seq![
                ResponseEventView::OutputItemDone(
                    ResponseItemView::Message {
                        id: Some(message_id),
                        role: "assistant"@,
                        content: seq![ContentItemView::OutputText { text: state.text }],
                        phase: None,
                        internal_chat_message_metadata_passthrough: None,
                    },
                ),
            ] + chat::done_events(state.tools) + seq![events.last()]
            &&& !state.message_announced ==> events == chat::done_events(state.tools) + seq![
                events.last(),
            ]
            &&& after.tools == chat::settled_tools(state.tools)
            &&& after.message_announced == state.message_announced
            &&& state.message_announced ==> after.text.len() == 0
            &&& !state.message_announced ==> after.text == state.text
        }),
{
    let events = chat::terminal_events(state, response_id, usage, finish_reason, message_id);
    let done = chat::done_events(state.tools);
    if state.message_announced {
        assert(events =~= seq![events[0]] + done + seq![events.last()]);
    } else {
        assert(events =~= done + seq![events.last()]);
    }
}

/// The usage of a turn has the provider's counts, none of them cached or spent on
/// reasoning. A count of more than 63 bits is read as a negative number.
pub proof fn law_usage_reported(usage: ChatUsage)
    ensures
        chat::token_usage_of(None) is None,
        ({
            let reported = chat::token_usage_of(Some(usage))->0;
            let agrees = |reported: i64, count: u64|
                reported == count || count > i64::MAX && reported == count
                    - 0x1_0000_0000_0000_0000;
            &&& chat::token_usage_of(Some(usage)) is Some
            &&& agrees(reported.input_tokens, usage.prompt_tokens)
            &&& agrees(reported.output_tokens, usage.completion_tokens)
            &&& agrees(reported.total_tokens, usage.total_tokens)
            &&& reported.cached_input_tokens == 0
            &&& reported.reasoning_output_tokens == 0
        }),
{
}

} // verus!
