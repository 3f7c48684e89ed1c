//! What a stream sends, told by what has arrived so far.
//!
//! Nothing here keeps state: whether a call is named, what it is called, whether it
//! is closed and what the text is are read off the whole history each time.

use crate::chat_response::{ChatChoiceDeltaView, ChatToolCallDeltaView};
use crate::error::ApiErrorView;
use crate::models::{ContentItemView, ResponseEventView, ResponseItemView, TokenUsage};
use crate::sse::chat;
use crate::sse::chat::{
    ChatStreamView, StreamInputView, StreamItemView, ToolCallAccumView, TurnState,
};
use crate::sse::lifecycle;
use crate::sse::tool_calls;
use crate::text;
use vstd::prelude::*;

verus! {

/// One thing that arrives within a chunk.
pub enum Arrival {
    /// Assistant text, with the response id of that time.
    Text { content: Seq<char>, response_id: Seq<char> },
    /// A fragment of a tool call.
    Fragment(ChatToolCallDeltaView),
    /// A `finish_reason`.
    Finish,
}

/// What a choice brings: its text, its fragments, its `finish_reason`.
pub open spec fn choice_arrivals(
    choice: ChatChoiceDeltaView,
    response_id: Seq<char>,
) -> Seq<Arrival> {
    (match choice.delta.content {
        Some(content) => seq![Arrival::Text { content, response_id }],
        None => Seq::empty(),
    }) + (match choice.delta.tool_calls {
        Some(fragments) => fragments.map_values(
            |fragment: ChatToolCallDeltaView| Arrival::Fragment(fragment),
        ),
        None => Seq::empty(),
    }) + (match choice.finish_reason {
        Some(_) => seq![Arrival::Finish],
        None => Seq::empty(),
    })
}

/// What several choices bring, in order.
pub open spec fn choices_arrivals(
    choices: Seq<ChatChoiceDeltaView>,
    response_id: Seq<char>,
) -> Seq<Arrival>
    decreases choices.len(),
{
    if choices.len() == 0 {
        Seq::empty()
    } else {
        choices_arrivals(choices.drop_last(), response_id) + choice_arrivals(
            choices.last(),
            response_id,
        )
    }
}

/// What the chunks of a stream bring, in order.
pub open spec fn arrivals(inputs: Seq<StreamInputView>) -> Seq<Arrival>
    decreases inputs.len(),
{
    if inputs.len() == 0 {
        Seq::empty()
    } else {
        match inputs.last() {
            StreamInputView::Frame { chunk: Some(chunk), .. } => arrivals(inputs.drop_last())
                + choices_arrivals(chunk.choices, lifecycle::last_id(inputs)),
            _ => arrivals(inputs.drop_last()),
        }
    }
}

/// The last function name that arrived for a call.
pub open spec fn last_name(history: Seq<Arrival>, index: usize) -> Option<Seq<char>>
    decreases history.len(),
{
    if history.len() == 0 {
        None
    } else {
        match history.last() {
            Arrival::Fragment(fragment) if fragment.index == index && fragment.function is Some
                && fragment.function->0.name is Some => fragment.function->0.name,
            _ => last_name(history.drop_last(), index),
        }
    }
}

/// The last id that arrived for a call.
pub open spec fn last_call_id(history: Seq<Arrival>, index: usize) -> Option<Seq<char>>
    decreases history.len(),
{
    if history.len() == 0 {
        None
    } else {
        match history.last() {
            Arrival::Fragment(fragment) if fragment.index == index && fragment.id is Some =>
                fragment.id,
            _ => last_call_id(history.drop_last(), index),
        }
    }
}

/// The argument text of a fragment.
pub open spec fn argument_text(fragment: ChatToolCallDeltaView) -> Seq<char> {
    if fragment.function is Some && fragment.function->0.arguments is Some {
        fragment.function->0.arguments->0
    } else {
        Seq::empty()
    }
}

/// The concatenation of the arguments that arrived for a call.
pub open spec fn arguments(history: Seq<Arrival>, index: usize) -> Seq<char>
    decreases history.len(),
{
    if history.len() == 0 {
        Seq::empty()
    } else {
        match history.last() {
            Arrival::Fragment(fragment) if fragment.index == index => arguments(
                history.drop_last(),
                index,
            ) + argument_text(fragment),
            _ => arguments(history.drop_last(), index),
        }
    }
}

/// Whether a name or an id has arrived for a call.
pub open spec fn is_named(history: Seq<Arrival>, index: usize) -> bool {
    last_name(history, index) is Some || last_call_id(history, index) is Some
}

/// Whether a `finish_reason` has arrived after a call was named.
pub open spec fn is_closed(history: Seq<Arrival>, index: usize) -> bool
    decreases history.len(),
{
    history.len() > 0 && (is_closed(history.drop_last(), index) || history.last() is Finish
        && is_named(history.drop_last(), index))
}

/// The concatenation of the text that arrived.
pub open spec fn text_arrived(history: Seq<Arrival>) -> Seq<char>
    decreases history.len(),
{
    if history.len() == 0 {
        Seq::empty()
    } else {
        match history.last() {
            Arrival::Text { content, .. } => text_arrived(history.drop_last()) + content,
            _ => text_arrived(history.drop_last()),
        }
    }
}

/// The assistant message with the given id and content.
pub open spec fn message(id: Seq<char>, content: Seq<ContentItemView>) -> ResponseItemView {
    ResponseItemView::Message {
        id: Some(id),
        role: "assistant"@,
        content,
        phase: None,
        internal_chat_message_metadata_passthrough: None,
    }
}

/// The call id of a call: the last id that arrived for it, or `tool_` and its
/// index.
pub open spec fn call_id(history: Seq<Arrival>, index: usize) -> Seq<char> {
    match last_call_id(history, index) {
        Some(id) => id,
        None => "tool_"@ + text::decimal(index as nat),
    }
}

/// A call under the last name and id that arrived for it.
pub open spec fn call(
    history: Seq<Arrival>,
    index: usize,
    arguments: Seq<char>,
) -> ResponseItemView {
    ResponseItemView::FunctionCall {
        id: None,
        name: match last_name(history, index) {
            Some(name) => name,
            None => Seq::empty(),
        },
        namespace: None,
        arguments,
        call_id: call_id(history, index),
        internal_chat_message_metadata_passthrough: None,
    }
}

/// The closing of every call under `bound` that is named and not closed, in the
/// order of their indices, each with all the arguments that arrived for it.
pub open spec fn closings_below(history: Seq<Arrival>, bound: nat) -> Seq<ResponseEventView>
    decreases bound,
{
    if bound == 0 {
        Seq::empty()
    } else {
        let index = (bound - 1) as usize;
        let below = closings_below(history, (bound - 1) as nat);
        if is_named(history, index) && !is_closed(history, index) {
            below.push(
                ResponseEventView::OutputItemDone(
                    call(history, index, arguments(history, index)),
                ),
            )
        } else {
            below
        }
    }
}

/// The closing of every call that is named and not closed.
pub open spec fn closings(history: Seq<Arrival>) -> Seq<ResponseEventView> {
    closings_below(history, (usize::MAX + 1) as nat)
}

/// What is sent when something arrives after a history.
///
/// Text is sent as it is, and the first of it announces the message. A fragment
/// announces its call where it names it first, and sends its arguments. A
/// `finish_reason` closes the calls.
pub open spec fn sent_on(history: Seq<Arrival>, arrival: Arrival) -> Seq<ResponseEventView> {
    match arrival {
        Arrival::Text { content, response_id } => {
            if content.len() == 0 {
                Seq::empty()
            } else if text_arrived(history).len() > 0 {
                seq![ResponseEventView::OutputTextDelta(content)]
            } else {
                seq![
                    ResponseEventView::OutputItemAdded(message(response_id, Seq::empty())),
                    ResponseEventView::OutputTextDelta(content),
                ]
            }
        },
        Arrival::Fragment(fragment) => {
            let index = fragment.index;
            let now = history.push(arrival);
            let announcement = if is_named(now, index) && !is_named(history, index) {
                seq![ResponseEventView::OutputItemAdded(call(now, index, Seq::empty()))]
            } else {
                Seq::empty()
            };
            let input = if argument_text(fragment).len() > 0 {
                seq![
                    ResponseEventView::ToolCallInputDelta {
                        item_id: call_id(now, index),
                        call_id: Some(call_id(now, index)),
                        delta: argument_text(fragment),
                    },
                ]
            } else {
                Seq::empty()
            };
            announcement + input
        },
        Arrival::Finish => closings(history),
    }
}

/// What is sent over a whole history.
pub open spec fn sent(history: Seq<Arrival>) -> Seq<ResponseEventView>
    decreases history.len(),
{
    if history.len() == 0 {
        Seq::empty()
    } else {
        sent(history.drop_last()) + sent_on(history.drop_last(), history.last())
    }
}

/// A count of tokens as a signed number of 64 bits.
pub open spec fn signed_count(n: u64) -> i64 {
    if n < 0x8000_0000_0000_0000 {
        n as i64
    } else {
        (n - 0x1_0000_0000_0000_0000) as i64
    }
}

/// What is sent at the regular end of a stream: the message with all the text that
/// arrived, if there was any; the open calls; and `Completed` with the last id and
/// usage that arrived. The turn goes on only where the last `finish_reason` says
/// that tools are to run.
pub open spec fn sent_at_end(inputs: Seq<StreamInputView>) -> Seq<ResponseEventView> {
    let history = arrivals(inputs);
    let id = lifecycle::last_id(inputs);
    let text = text_arrived(history);
    (if text.len() > 0 {
        seq![
            ResponseEventView::OutputItemDone(
                message(id, seq![ContentItemView::OutputText { text }]),
            ),
        ]
    } else {
        Seq::empty()
    }) + closings(history) + seq![
        ResponseEventView::Completed {
            response_id: id,
            token_usage: match lifecycle::last_usage(inputs) {
                Some(usage) => Some(
                    TokenUsage {
                        input_tokens: signed_count(usage.prompt_tokens),
                        cached_input_tokens: 0,
                        output_tokens: signed_count(usage.completion_tokens),
                        reasoning_output_tokens: 0,
                        total_tokens: signed_count(usage.total_tokens),
                    },
                ),
                None => None,
            },
            end_turn: Some(lifecycle::last_reason(inputs) != Some("tool_calls"@)),
        },
    ]
}

/// Events as items of a stream.
pub open spec fn items(events: Seq<ResponseEventView>) -> Seq<StreamItemView> {
    events.map_values(|event: ResponseEventView| Ok::<ResponseEventView, ApiErrorView>(event))
}

/// The call with an index; one of which nothing has arrived, where there is none.
spec fn call_at(tools: Map<usize, ToolCallAccumView>, index: usize) -> ToolCallAccumView {
    if tools.contains_key(index) {
        tools[index]
    } else {
        ToolCallAccumView::fresh()
    }
}

/// Whether the state of a call is what its history says.
spec fn call_remembers(
    call: ToolCallAccumView,
    history: Seq<Arrival>,
    index: usize,
) -> bool {
    &&& call.id == last_call_id(history, index)
    &&& call.name == last_name(history, index)
    &&& call.arguments == arguments(history, index)
    &&& call.announced == is_named(history, index)
    &&& call.finalized == is_closed(history, index)
}

/// Whether the calls of a turn are what the history says.
spec fn calls_remember(tools: Map<usize, ToolCallAccumView>, history: Seq<Arrival>) -> bool {
    forall|index: usize| #[trigger] call_remembers(call_at(tools, index), history, index)
}

/// Whether the state of a turn is what the history says.
spec fn turn_remembers(state: TurnState, history: Seq<Arrival>) -> bool {
    &&& calls_remember(state.tools, history)
    &&& state.text == text_arrived(history)
    &&& state.message_announced == (text_arrived(history).len() > 0)
}

proof fn lemma_text(
    state: TurnState,
    content: Seq<char>,
    response_id: Seq<char>,
    history: Seq<Arrival>,
)
    requires
        turn_remembers(state, history),
    ensures
        ({
            let arrival = Arrival::Text { content, response_id };
            &&& turn_remembers(
                chat::text_state(state, Some(content)),
                history.push(arrival),
            )
            &&& sent(history.push(arrival)) == sent(history) + chat::text_events(
                state.message_announced,
                Some(content),
                response_id,
            )
        }),
{
    let arrival = Arrival::Text { content, response_id };
    let now = history.push(arrival);
    assert(now.drop_last() =~= history);
    let after = chat::text_state(state, Some(content));
    assert forall|index: usize| #[trigger] call_remembers(
        call_at(after.tools, index),
        now,
        index,
    ) by {
        assert(call_remembers(call_at(state.tools, index), history, index));
    }
    if content.len() == 0 {
        assert(state.text + content =~= state.text);
    }
}

proof fn lemma_fragment(
    tools: Map<usize, ToolCallAccumView>,
    fragment: ChatToolCallDeltaView,
    history: Seq<Arrival>,
)
    requires
        calls_remember(tools, history),
    ensures
        ({
            let now = history.push(Arrival::Fragment(fragment));
            &&& calls_remember(chat::tool_delta_tools(tools, fragment), now)
            &&& text_arrived(now) == text_arrived(history)
            &&& sent(now) == sent(history) + chat::tool_delta_events(tools, fragment)
        }),
{
    let now = history.push(Arrival::Fragment(fragment));
    assert(now.drop_last() =~= history);
    let after = chat::tool_delta_tools(tools, fragment);
    assert(chat::argument_fragment(fragment) == argument_text(fragment));
    assert forall|index: usize| #[trigger] call_remembers(call_at(after, index), now, index) by {
        assert(call_remembers(call_at(tools, index), history, index));
    }
    let index = fragment.index;
    assert(call_remembers(call_at(tools, index), history, index));
    assert(call_remembers(call_at(after, index), now, index));
    let merged = chat::merged_call(tools, fragment);
    assert(merged.call_id(index) == call_id(now, index));
    assert(merged.item(index, Seq::empty()) == call(now, index, Seq::empty()));
    assert(sent_on(history, Arrival::Fragment(fragment)) =~= chat::tool_delta_events(
        tools,
        fragment,
    ));
}

proof fn lemma_fragments(
    tools: Map<usize, ToolCallAccumView>,
    fragments: Seq<ChatToolCallDeltaView>,
    history: Seq<Arrival>,
)
    requires
        calls_remember(tools, history),
    ensures
        ({
            let now = history + fragments.map_values(
                |fragment: ChatToolCallDeltaView| Arrival::Fragment(fragment),
            );
            &&& calls_remember(chat::tool_deltas_tools(tools, fragments), now)
            &&& text_arrived(now) == text_arrived(history)
            &&& sent(now) == sent(history) + chat::tool_deltas_events(tools, fragments)
        }),
    decreases fragments.len(),
{
    let as_arrivals = |f: Seq<ChatToolCallDeltaView>|
        f.map_values(|fragment: ChatToolCallDeltaView| Arrival::Fragment(fragment));
    let now = history + as_arrivals(fragments);
    if fragments.len() == 0 {
        assert(now =~= history);
        assert(sent(history) + chat::tool_deltas_events(tools, fragments) =~= sent(history));
    } else {
        let front = fragments.drop_last();
        let last = fragments.last();
        lemma_fragments(tools, front, history);
        let before = history + as_arrivals(front);
        lemma_fragment(chat::tool_deltas_tools(tools, front), last, before);
        assert(now =~= before.push(Arrival::Fragment(last)));
        assert(sent(now) =~= sent(history) + chat::tool_deltas_events(tools, fragments));
    }
}

proof fn lemma_closings(
    tools: Map<usize, ToolCallAccumView>,
    history: Seq<Arrival>,
    bound: nat,
)
    requires
        calls_remember(tools, history),
        bound <= usize::MAX + 1,
    ensures
        chat::done_events_below(tools, bound) == closings_below(history, bound),
    decreases bound,
{
    if bound > 0 {
        let index = (bound - 1) as usize;
        lemma_closings(tools, history, (bound - 1) as nat);
        assert(call_remembers(call_at(tools, index), history, index));
        if tools.contains_key(index) {
            assert(tools[index].item(index, tools[index].arguments) == call(
                history,
                index,
                arguments(history, index),
            ));
        }
    }
}

proof fn lemma_finish(tools: Map<usize, ToolCallAccumView>, history: Seq<Arrival>)
    requires
        calls_remember(tools, history),
    ensures
        ({
            let now = history.push(Arrival::Finish);
            &&& calls_remember(chat::settled_tools(tools), now)
            &&& text_arrived(now) == text_arrived(history)
            &&& sent(now) == sent(history) + chat::done_events(tools)
        }),
{
    let now = history.push(Arrival::Finish);
    assert(now.drop_last() =~= history);
    lemma_closings(tools, history, (usize::MAX + 1) as nat);
    let after = chat::settled_tools(tools);
    assert forall|index: usize| #[trigger] call_remembers(call_at(after, index), now, index) by {
        assert(call_remembers(call_at(tools, index), history, index));
        assert(after.contains_key(index) == tools.contains_key(index));
    }
}

proof fn lemma_choice(
    state: TurnState,
    choice: ChatChoiceDeltaView,
    response_id: Seq<char>,
    history: Seq<Arrival>,
)
    requires
        turn_remembers(state, history),
    ensures
        ({
            let step = chat::choice_step(state, choice, response_id);
            let now = history + choice_arrivals(choice, response_id);
            &&& turn_remembers(step.state, now)
            &&& sent(now) == sent(history) + step.events
        }),
{
    let step = chat::choice_step(state, choice, response_id);
    let text = match choice.delta.content {
        Some(content) => seq![Arrival::Text { content, response_id }],
        None => Seq::empty(),
    };
    let fragments = match choice.delta.tool_calls {
        Some(fragments) => fragments,
        None => Seq::empty(),
    };
    let fragment_arrivals = fragments.map_values(
        |fragment: ChatToolCallDeltaView| Arrival::Fragment(fragment),
    );
    let after_text = chat::text_state(state, choice.delta.content);
    let first = history + text;
    match choice.delta.content {
        Some(content) => {
            lemma_text(state, content, response_id, history);
            assert(first =~= history.push(Arrival::Text { content, response_id }));
        },
        None => {
            assert(first =~= history);
        },
    }
    let text_events = chat::text_events(
        state.message_announced,
        choice.delta.content,
        response_id,
    );
    assert(sent(first) =~= sent(history) + text_events);
    lemma_fragments(state.tools, fragments, first);
    let second = first + fragment_arrivals;
    let tools = chat::tool_deltas_tools(state.tools, fragments);
    let now = history + choice_arrivals(choice, response_id);
    if choice.finish_reason is Some {
        lemma_finish(tools, second);
        assert(now =~= second.push(Arrival::Finish));
    } else {
        assert(now =~= second);
    }
    assert(sent(now) =~= sent(history) + step.events);
}

proof fn lemma_choices(
    state: TurnState,
    choices: Seq<ChatChoiceDeltaView>,
    response_id: Seq<char>,
    history: Seq<Arrival>,
)
    requires
        turn_remembers(state, history),
    ensures
        ({
            let step = chat::choices_step(state, choices, response_id);
            let now = history + choices_arrivals(choices, response_id);
            &&& turn_remembers(step.state, now)
            &&& sent(now) == sent(history) + step.events
        }),
    decreases choices.len(),
{
    let now = history + choices_arrivals(choices, response_id);
    if choices.len() == 0 {
        assert(now =~= history);
        assert(sent(history) + Seq::<ResponseEventView>::empty() =~= sent(history));
    } else {
        let front = choices.drop_last();
        lemma_choices(state, front, response_id, history);
        let before = chat::choices_step(state, front, response_id);
        let mid = history + choices_arrivals(front, response_id);
        lemma_choice(before.state, choices.last(), response_id, mid);
        assert(now =~= mid + choice_arrivals(choices.last(), response_id));
        assert(sent(now) =~= sent(history) + chat::choices_step(
            state,
            choices,
            response_id,
        ).events);
    }
}

proof fn lemma_run(inputs: Seq<StreamInputView>)
    requires
        !ChatStreamView::fresh().run(inputs).done,
    ensures
        ({
            let run = ChatStreamView::fresh().run(inputs);
            &&& turn_remembers(run.stream.turn, arrivals(inputs))
            &&& run.items == items(sent(arrivals(inputs)))
        }),
    decreases inputs.len(),
{
    let start = ChatStreamView::fresh();
    if inputs.len() == 0 {
        assert forall|index: usize| #[trigger] call_remembers(
            call_at(start.turn.tools, index),
            arrivals(inputs),
            index,
        ) by {}
        assert(items(sent(arrivals(inputs))) =~= Seq::empty());
    } else {
        let front = inputs.drop_last();
        lemma_run(front);
        let before = start.run(front);
        lifecycle::lemma_run_remembers(front);
        lifecycle::lemma_run_remembers(inputs);
        match inputs.last() {
            StreamInputView::Frame { chunk: Some(chunk), .. } => {
                let id = before.stream.response_id_after(chunk);
                assert(id == lifecycle::last_id(inputs));
                lemma_choices(before.stream.turn, chunk.choices, id, arrivals(front));
                assert(start.run(inputs).items =~= items(sent(arrivals(inputs))));
            },
            _ => {
                assert(start.run(inputs).items =~= before.items);
            },
        }
    }
}

/// As long as a stream runs, it has sent what its history tells.
pub proof fn law_running_stream_told(inputs: Seq<StreamInputView>)
    requires
        !ChatStreamView::fresh().run(inputs).done,
    ensures
        ChatStreamView::fresh().run(inputs).items == items(sent(arrivals(inputs))),
{
    lemma_run(inputs);
}

/// What the next input of a running stream does: a chunk is told by its arrivals;
/// the sentinel, or the close after a `finish_reason`, ends the stream regularly; an
/// error object, a failure, silence and an early close end it in an error; anything
/// else changes nothing.
pub proof fn law_next_input_told(inputs: Seq<StreamInputView>, input: StreamInputView)
    requires
        !ChatStreamView::fresh().run(inputs).done,
    ensures
        ({
            let before = items(sent(arrivals(inputs)));
            let after = ChatStreamView::fresh().run(inputs.push(input));
            let ended = |error: ApiErrorView|
                after.done && after.items == before.push(
                    Err::<ResponseEventView, ApiErrorView>(error),
                );
            match input {
                StreamInputView::Frame { data, chunk, error } => {
                    if text::trim_chars(data) == "[DONE]"@ {
                        after.done && after.items == before + items(sent_at_end(inputs))
                    } else if chunk is Some {
                        !after.done && after.items == items(sent(arrivals(inputs.push(input))))
                    } else if error is Some {
                        ended(chat_error(error->0.error.type_, error->0.error.message))
                    } else {
                        !after.done && after.items == before
                    }
                },
                StreamInputView::Failed(message) => ended(ApiErrorView::Stream(message)),
                StreamInputView::Closed => {
                    if lifecycle::last_reason(inputs) is Some {
                        after.done && after.items == before + items(sent_at_end(inputs))
                    } else {
                        ended(ApiErrorView::Stream("stream closed before completion"@))
                    }
                },
                StreamInputView::IdleTimeout => ended(
                    ApiErrorView::Stream("idle timeout waiting for SSE"@),
                ),
            }
        }),
{
    let start = ChatStreamView::fresh();
    let history = arrivals(inputs);
    let stream = start.run(inputs).stream;
    assert(inputs.push(input).drop_last() =~= inputs);
    lemma_run(inputs);
    lifecycle::lemma_run_remembers(inputs);
    lemma_closings(stream.turn.tools, history, (usize::MAX + 1) as nat);
    let end = sent_at_end(inputs);
    assert(chat::terminal_events(
        stream.turn,
        stream.response_id,
        stream.usage,
        stream.finish_reason,
        stream.response_id,
    ) =~= end);
    assert(chat::ok_items(end) =~= items(end));
    let before = items(sent(history));
    let after = start.run(inputs.push(input));
    match input {
        StreamInputView::Frame { data, chunk: Some(chunk), .. } => {
            if text::trim_chars(data) != "[DONE]"@ {
                lemma_run(inputs.push(input));
            }
        },
        StreamInputView::Frame { data, chunk: None, error } => {
            if error is Some {
                crate::chat_response::law_error_types(error->0);
            }
            if error is None && text::trim_chars(data) != "[DONE]"@ {
                assert(after.items =~= before);
            }
        },
        _ => {},
    }
    if after.items.len() == before.len() + 1 {
        assert(after.items =~= before.push(after.items.last()));
    }
}

/// The concatenation of the text of choices.
pub open spec fn choices_text(choices: Seq<ChatChoiceDeltaView>) -> Seq<char>
    decreases choices.len(),
{
    if choices.len() == 0 {
        Seq::empty()
    } else {
        choices_text(choices.drop_last()) + match choices.last().delta.content {
            Some(content) => content,
            None => Seq::empty(),
        }
    }
}

/// The concatenation of the text of all choices of all chunks.
pub open spec fn inputs_text(inputs: Seq<StreamInputView>) -> Seq<char>
    decreases inputs.len(),
{
    if inputs.len() == 0 {
        Seq::empty()
    } else {
        inputs_text(inputs.drop_last()) + match inputs.last() {
            StreamInputView::Frame { chunk: Some(chunk), .. } => choices_text(chunk.choices),
            _ => Seq::empty(),
        }
    }
}

proof fn lemma_text_arrived_concat(a: Seq<Arrival>, b: Seq<Arrival>)
    ensures
        text_arrived(a + b) == text_arrived(a) + text_arrived(b),
    decreases b.len(),
{
    if b.len() == 0 {
        assert(a + b =~= a);
        assert(text_arrived(a) + text_arrived(b) =~= text_arrived(a));
    } else {
        assert((a + b).drop_last() =~= a + b.drop_last());
        lemma_text_arrived_concat(a, b.drop_last());
        assert(text_arrived(a + b) =~= text_arrived(a) + text_arrived(b));
    }
}

proof fn lemma_no_text_arrived(history: Seq<Arrival>)
    requires
        forall|k: int| 0 <= k < history.len() ==> !((#[trigger] history[k]) is Text),
    ensures
        text_arrived(history) == Seq::<char>::empty(),
    decreases history.len(),
{
    if history.len() > 0 {
        assert forall|k: int| 0 <= k < history.drop_last().len() implies !((
        #[trigger] history.drop_last()[k]) is Text) by {
            assert(history.drop_last()[k] == history[k]);
        }
        lemma_no_text_arrived(history.drop_last());
    }
}

proof fn lemma_choices_text(choices: Seq<ChatChoiceDeltaView>, response_id: Seq<char>)
    ensures
        text_arrived(choices_arrivals(choices, response_id)) == choices_text(choices),
    decreases choices.len(),
{
    if choices.len() > 0 {
        let front = choices.drop_last();
        let choice = choices.last();
        lemma_choices_text(front, response_id);
        lemma_text_arrived_concat(
            choices_arrivals(front, response_id),
            choice_arrivals(choice, response_id),
        );
        let all = choice_arrivals(choice, response_id);
        let n: int = if choice.delta.content is Some {
            1
        } else {
            0
        };
        assert(all =~= all.take(n) + all.skip(n));
        lemma_text_arrived_concat(all.take(n), all.skip(n));
        lemma_no_text_arrived(all.skip(n));
        assert(text_arrived(all.take(n)) =~= match choice.delta.content {
            Some(content) => content,
            None => Seq::empty(),
        }) by {
            reveal_with_fuel(text_arrived, 2);
            if choice.delta.content is Some {
                assert(all.take(1).drop_last() =~= Seq::empty());
                assert(all.take(1).last() == Arrival::Text {
                    content: choice.delta.content->0,
                    response_id,
                });
            }
        }
        assert(text_arrived(all) =~= text_arrived(all.take(n)));
    }
}

proof fn lemma_inputs_text(inputs: Seq<StreamInputView>)
    ensures
        text_arrived(arrivals(inputs)) == inputs_text(inputs),
    decreases inputs.len(),
{
    if inputs.len() > 0 {
        let front = inputs.drop_last();
        lemma_inputs_text(front);
        match inputs.last() {
            StreamInputView::Frame { chunk: Some(chunk), .. } => {
                let id = lifecycle::last_id(inputs);
                lemma_choices_text(chunk.choices, id);
                lemma_text_arrived_concat(arrivals(front), choices_arrivals(chunk.choices, id));
            },
            _ => {
                assert(inputs_text(inputs) =~= inputs_text(front));
            },
        }
    }
}

/// No text is lost, added or changed: as long as a stream runs, the text that was
/// sent is the text of all choices of all chunks that arrived.
pub proof fn law_text_forwarded(inputs: Seq<StreamInputView>)
    requires
        !ChatStreamView::fresh().run(inputs).done,
    ensures
        lifecycle::text_of(lifecycle::sent_events(ChatStreamView::fresh().run(inputs).items))
            == inputs_text(inputs),
{
    lemma_run(inputs);
    lemma_inputs_text(inputs);
    lifecycle::law_text_arrives_whole(inputs);
}

/// The regular end of a stream closes the message with the text of all choices of
/// all chunks, if there was any.
pub proof fn law_message_closed_with_all_text(inputs: Seq<StreamInputView>, input: StreamInputView)
    requires
        !ChatStreamView::fresh().run(inputs).done,
        ChatStreamView::fresh().run(inputs.push(input)).done,
        ChatStreamView::fresh().run(inputs.push(input)).items.last() is Ok,
        inputs_text(inputs).len() > 0,
    ensures
        ChatStreamView::fresh().run(inputs.push(input)).items.contains(
            Ok(
                ResponseEventView::OutputItemDone(
                    ResponseItemView::Message {
                        id: Some(lifecycle::last_id(inputs)),
                        role: "assistant"@,
                        content: seq![ContentItemView::OutputText { text: inputs_text(inputs) }],
                        phase: None,
                        internal_chat_message_metadata_passthrough: None,
                    },
                ),
            ),
        ),
{
    law_next_input_told(inputs, input);
    lemma_inputs_text(inputs);
    let before = items(sent(arrivals(inputs)));
    let after = ChatStreamView::fresh().run(inputs.push(input)).items;
    assert(after == before + items(sent_at_end(inputs)));
    assert(after[before.len() as int] == items(sent_at_end(inputs))[0]);
}

/// The last function name among the fragments of a call.
pub open spec fn last_function_name(
    fragments: Seq<ChatToolCallDeltaView>,
    index: usize,
) -> Option<Seq<char>>
    decreases fragments.len(),
{
    if fragments.len() == 0 {
        None
    } else if fragments.last().index == index && fragments.last().function is Some
        && fragments.last().function->0.name is Some {
        fragments.last().function->0.name
    } else {
        last_function_name(fragments.drop_last(), index)
    }
}

/// The last id among the fragments of a call.
pub open spec fn last_fragment_id(
    fragments: Seq<ChatToolCallDeltaView>,
    index: usize,
) -> Option<Seq<char>>
    decreases fragments.len(),
{
    if fragments.len() == 0 {
        None
    } else if fragments.last().index == index && fragments.last().id is Some {
        fragments.last().id
    } else {
        last_fragment_id(fragments.drop_last(), index)
    }
}

/// The fragments in a history, in order.
pub open spec fn fragments_in(history: Seq<Arrival>) -> Seq<ChatToolCallDeltaView>
    decreases history.len(),
{
    if history.len() == 0 {
        Seq::empty()
    } else {
        match history.last() {
            Arrival::Fragment(fragment) => fragments_in(history.drop_last()).push(fragment),
            _ => fragments_in(history.drop_last()),
        }
    }
}

proof fn lemma_fragments_in_concat(a: Seq<Arrival>, b: Seq<Arrival>)
    ensures
        fragments_in(a + b) == fragments_in(a) + fragments_in(b),
    decreases b.len(),
{
    if b.len() == 0 {
        assert(a + b =~= a);
        assert(fragments_in(a) + fragments_in(b) =~= fragments_in(a));
    } else {
        assert((a + b).drop_last() =~= a + b.drop_last());
        lemma_fragments_in_concat(a, b.drop_last());
        assert(fragments_in(a + b) =~= fragments_in(a) + fragments_in(b));
    }
}

proof fn lemma_fragments_in_all(fragments: Seq<ChatToolCallDeltaView>)
    ensures
        fragments_in(
            fragments.map_values(|fragment: ChatToolCallDeltaView| Arrival::Fragment(fragment)),
        ) == fragments,
    decreases fragments.len(),
{
    let all = fragments.map_values(
        |fragment: ChatToolCallDeltaView| Arrival::Fragment(fragment),
    );
    if fragments.len() == 0 {
        assert(fragments_in(all) =~= fragments);
    } else {
        let front = fragments.drop_last();
        lemma_fragments_in_all(front);
        assert(all.drop_last() =~= front.map_values(
            |fragment: ChatToolCallDeltaView| Arrival::Fragment(fragment),
        ));
        assert(front.push(fragments.last()) =~= fragments);
    }
}

proof fn lemma_choices_fragments(choices: Seq<ChatChoiceDeltaView>, response_id: Seq<char>)
    ensures
        fragments_in(choices_arrivals(choices, response_id)) == tool_calls::choices_deltas(choices),
    decreases choices.len(),
{
    if choices.len() > 0 {
        let front = choices.drop_last();
        let choice = choices.last();
        lemma_choices_fragments(front, response_id);
        let text = match choice.delta.content {
            Some(content) => seq![Arrival::Text { content, response_id }],
            None => Seq::empty(),
        };
        let fragments = match choice.delta.tool_calls {
            Some(fragments) => fragments,
            None => Seq::empty(),
        };
        let middle = fragments.map_values(
            |fragment: ChatToolCallDeltaView| Arrival::Fragment(fragment),
        );
        let finish = match choice.finish_reason {
            Some(_) => seq![Arrival::Finish],
            None => Seq::empty(),
        };
        assert(choice_arrivals(choice, response_id) =~= text + middle + finish);
        lemma_fragments_in_all(fragments);
        lemma_fragments_in_concat(text, middle);
        lemma_fragments_in_concat(text + middle, finish);
        reveal_with_fuel(fragments_in, 2);
        if text.len() > 0 {
            assert(text.drop_last() =~= Seq::empty());
        }
        if finish.len() > 0 {
            assert(finish.drop_last() =~= Seq::empty());
        }
        assert(fragments_in(choice_arrivals(choice, response_id)) =~= fragments);
        lemma_fragments_in_concat(
            choices_arrivals(front, response_id),
            choice_arrivals(choice, response_id),
        );
    }
}

/// The fragments in the history of a stream are those of its chunks.
pub proof fn law_fragments_arrive(inputs: Seq<StreamInputView>)
    ensures
        fragments_in(arrivals(inputs)) == tool_calls::inputs_deltas(inputs),
    decreases inputs.len(),
{
    if inputs.len() > 0 {
        let front = inputs.drop_last();
        law_fragments_arrive(front);
        match inputs.last() {
            StreamInputView::Frame { chunk: Some(chunk), .. } => {
                let id = lifecycle::last_id(inputs);
                lemma_choices_fragments(chunk.choices, id);
                lemma_fragments_in_concat(arrivals(front), choices_arrivals(chunk.choices, id));
            },
            _ => {
                assert(tool_calls::inputs_deltas(inputs) =~= tool_calls::inputs_deltas(front));
            },
        }
    }
}

/// The name, id and arguments of a call in a history are those of its fragments.
pub proof fn law_call_by_its_fragments(history: Seq<Arrival>, index: usize)
    ensures
        last_name(history, index) == last_function_name(fragments_in(history), index),
        last_call_id(history, index) == last_fragment_id(fragments_in(history), index),
        arguments(history, index) == tool_calls::arguments_for(fragments_in(history), index),
    decreases history.len(),
{
    if history.len() > 0 {
        law_call_by_its_fragments(history.drop_last(), index);
        if let Arrival::Fragment(fragment) = history.last() {
            let before = fragments_in(history.drop_last());
            assert(before.push(fragment).drop_last() =~= before);
            assert(arguments(history, index) =~= tool_calls::arguments_for(
                fragments_in(history),
                index,
            ));
        }
    }
}

/// Every item that announces or closes a call carries the last name and the last id
/// that had arrived for it by then: that of the fragment that announces it included,
/// and none that came after a closing. It is empty of arguments where it announces,
/// and has all that had arrived where it closes. The `k`-th arrival sends these
/// events.
pub proof fn law_call_items_carry_last_name(
    inputs: Seq<StreamInputView>,
    k: int,
    event: ResponseEventView,
)
    requires
        0 <= k < arrivals(inputs).len(),
        sent_on(arrivals(inputs).take(k), arrivals(inputs)[k]).contains(event),
    ensures
        ({
            let earlier = fragments_in(arrivals(inputs).take(k));
            let by_then = fragments_in(arrivals(inputs).take(k + 1));
            &&& event matches ResponseEventView::OutputItemAdded(item) ==> (item matches
                ResponseItemView::FunctionCall { name, arguments, call_id, .. } ==> exists|
                index: usize,
            |
                ({
                    &&& name == or_empty(#[trigger] last_function_name(by_then, index))
                    &&& call_id == id_or_index(last_fragment_id(by_then, index), index)
                    &&& arguments == Seq::<char>::empty()
                }))
            &&& event matches ResponseEventView::OutputItemDone(item) ==> (item matches
                ResponseItemView::FunctionCall { name, arguments, call_id, .. } ==> exists|
                index: usize,
            |
                ({
                    &&& name == or_empty(#[trigger] last_function_name(earlier, index))
                    &&& call_id == id_or_index(last_fragment_id(earlier, index), index)
                    &&& arguments == tool_calls::arguments_for(earlier, index)
                }))
        }),
{
    let history = arrivals(inputs).take(k);
    let arrival = arrivals(inputs)[k];
    let now = history.push(arrival);
    assert(now =~= arrivals(inputs).take(k + 1));
    match arrival {
        Arrival::Fragment(fragment) => {
            let index = fragment.index;
            law_call_by_its_fragments(now, index);
            assert(event == ResponseEventView::OutputItemAdded(call(now, index, Seq::empty()))
                || event is ToolCallInputDelta);
        },
        Arrival::Finish => {
            let index = lemma_closing(history, (usize::MAX + 1) as nat, event);
            law_call_by_its_fragments(history, index);
        },
        Arrival::Text { .. } => {},
    }
}

/// A string, or the empty one.
pub open spec fn or_empty(s: Option<Seq<char>>) -> Seq<char> {
    match s {
        Some(s) => s,
        None => Seq::empty(),
    }
}

/// An id, or `tool_` and the index.
pub open spec fn id_or_index(id: Option<Seq<char>>, index: usize) -> Seq<char> {
    match id {
        Some(id) => id,
        None => "tool_"@ + text::decimal(index as nat),
    }
}

proof fn lemma_closing(history: Seq<Arrival>, bound: nat, event: ResponseEventView) -> (index:
    usize)
    requires
        bound <= usize::MAX + 1,
        closings_below(history, bound).contains(event),
    ensures
        event == ResponseEventView::OutputItemDone(
            call(history, index, arguments(history, index)),
        ),
        is_named(history, index) && !is_closed(history, index),
    decreases bound,
{
    let all = closings_below(history, bound);
    let k = choose|k: int| 0 <= k < all.len() && all[k] == event;
    let last = (bound - 1) as usize;
    let below = closings_below(history, (bound - 1) as nat);
    if k < below.len() {
        assert(below[k] == event);
        lemma_closing(history, (bound - 1) as nat, event)
    } else {
        last
    }
}

proof fn lemma_closed(history: Seq<Arrival>, bound: nat, index: usize)
    requires
        index < bound <= usize::MAX + 1,
        is_named(history, index) && !is_closed(history, index),
    ensures
        closings_below(history, bound).contains(
            ResponseEventView::OutputItemDone(call(history, index, arguments(history, index))),
        ),
    decreases bound,
{
    let event = ResponseEventView::OutputItemDone(
        call(history, index, arguments(history, index)),
    );
    let all = closings_below(history, bound);
    if index == bound - 1 {
        assert(all.last() == event);
    } else {
        lemma_closed(history, (bound - 1) as nat, index);
        let below = closings_below(history, (bound - 1) as nat);
        let k = below.index_of(event);
        assert(all[k] == event);
    }
}

/// At the regular end of a stream, each call that has a name or an id and was not
/// closed before is closed under the last name and id among all its fragments, with
/// the arguments of all of them.
pub proof fn law_open_call_closed_under_last_name(
    inputs: Seq<StreamInputView>,
    input: StreamInputView,
    index: usize,
)
    requires
        !ChatStreamView::fresh().run(inputs).done,
        ChatStreamView::fresh().run(inputs.push(input)).done,
        ChatStreamView::fresh().run(inputs.push(input)).items.last() is Ok,
        is_named(arrivals(inputs), index),
        !is_closed(arrivals(inputs), index),
    ensures
        ({
            let fragments = tool_calls::inputs_deltas(inputs);
            ChatStreamView::fresh().run(inputs.push(input)).items.contains(
                Ok(
                    ResponseEventView::OutputItemDone(
                        ResponseItemView::FunctionCall {
                            id: None,
                            name: or_empty(last_function_name(fragments, index)),
                            namespace: None,
                            arguments: tool_calls::arguments_for(fragments, index),
                            call_id: id_or_index(last_fragment_id(fragments, index), index),
                            internal_chat_message_metadata_passthrough: None,
                        },
                    ),
                ),
            )
        }),
{
    let history = arrivals(inputs);
    law_next_input_told(inputs, input);
    law_fragments_arrive(inputs);
    law_call_by_its_fragments(history, index);
    lemma_closed(history, (usize::MAX + 1) as nat, index);
    let event = ResponseEventView::OutputItemDone(
        call(history, index, arguments(history, index)),
    );
    let before = items(sent(history));
    let after = ChatStreamView::fresh().run(inputs.push(input)).items;
    let end = sent_at_end(inputs);
    assert(after == before + items(end));
    let k = closings(history).index_of(event);
    let n: int = if text_arrived(history).len() > 0 {
        1
    } else {
        0
    };
    assert(end[n + k] == event);
    assert(after[before.len() + n + k] == Ok::<ResponseEventView, ApiErrorView>(event));
}

/// The API error for the type and the message of a provider's error object.
pub open spec fn chat_error(kind: Seq<char>, message: Seq<char>) -> ApiErrorView {
    if kind == "invalid_request_error"@ {
        ApiErrorView::Api { status: 400, message }
    } else if kind == "authentication_error"@ {
        ApiErrorView::Api { status: 401, message }
    } else if kind == "rate_limit_error"@ {
        ApiErrorView::RateLimit(message)
    } else if kind == "context_length_exceeded"@ {
        ApiErrorView::ContextWindowExceeded
    } else {
        ApiErrorView::Api { status: 500, message }
    }
}

} // verus!
