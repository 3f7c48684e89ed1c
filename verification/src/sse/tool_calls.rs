//! What holds of the tool calls of a stream: their fragments add up, and their
//! announcements come first.

use crate::chat_response::{
    ChatChoiceDeltaView, ChatCompletionChunkView, ChatToolCallDeltaView,
};
use crate::error::ApiErrorView;
use crate::models::{ResponseEventView, ResponseItemView};
use crate::sse::chat;
use crate::sse::chat::{ChatStreamView, StreamInputView, ToolCallAccumView, TurnState};
use crate::sse::lifecycle;
use vstd::prelude::*;

verus! {

/// The tool-call fragments of several choices, in order.
pub open spec fn choices_deltas(choices: Seq<ChatChoiceDeltaView>) -> Seq<ChatToolCallDeltaView>
    decreases choices.len(),
{
    if choices.len() == 0 {
        Seq::empty()
    } else {
        choices_deltas(choices.drop_last()) + chat::choice_deltas(choices.last())
    }
}

/// The tool-call fragments of an input of a stream.
pub open spec fn input_deltas(input: StreamInputView) -> Seq<ChatToolCallDeltaView> {
    match input {
        StreamInputView::Frame { chunk: Some(chunk), .. } => choices_deltas(chunk.choices),
        _ => Seq::empty(),
    }
}

/// The tool-call fragments of several inputs, in order.
pub open spec fn inputs_deltas(inputs: Seq<StreamInputView>) -> Seq<ChatToolCallDeltaView>
    decreases inputs.len(),
{
    if inputs.len() == 0 {
        Seq::empty()
    } else {
        inputs_deltas(inputs.drop_last()) + input_deltas(inputs.last())
    }
}

/// The concatenation of the argument fragments for the call with an index.
pub open spec fn arguments_for(deltas: Seq<ChatToolCallDeltaView>, index: usize) -> Seq<char>
    decreases deltas.len(),
{
    if deltas.len() == 0 {
        Seq::empty()
    } else if deltas.last().index == index {
        arguments_for(deltas.drop_last(), index) + chat::argument_fragment(deltas.last())
    } else {
        arguments_for(deltas.drop_last(), index)
    }
}

proof fn lemma_arguments_concat(
    a: Seq<ChatToolCallDeltaView>,
    b: Seq<ChatToolCallDeltaView>,
    index: usize,
)
    ensures
        arguments_for(a + b, index) == arguments_for(a, index) + arguments_for(b, index),
    decreases b.len(),
{
    if b.len() == 0 {
        assert(a + b =~= a);
        assert(arguments_for(a, index) + arguments_for(b, index) =~= arguments_for(a, index));
    } else {
        assert((a + b).drop_last() =~= a + b.drop_last());
        lemma_arguments_concat(a, b.drop_last(), index);
        assert(arguments_for(a + b, index) =~= arguments_for(a, index) + arguments_for(b, index));
    }
}

/// The arguments that a table of calls holds for an index.
pub open spec fn arguments_held(
    tools: Map<usize, ToolCallAccumView>,
    index: usize,
) -> Seq<char> {
    if tools.contains_key(index) {
        tools[index].arguments
    } else {
        Seq::empty()
    }
}

proof fn lemma_deltas_arguments(
    tools: Map<usize, ToolCallAccumView>,
    deltas: Seq<ChatToolCallDeltaView>,
    index: usize,
)
    ensures
        arguments_held(chat::tool_deltas_tools(tools, deltas), index) == arguments_held(
            tools,
            index,
        ) + arguments_for(deltas, index),
    decreases deltas.len(),
{
    if deltas.len() == 0 {
        assert(arguments_held(tools, index) + arguments_for(deltas, index) =~= arguments_held(
            tools,
            index,
        ));
    } else {
        lemma_deltas_arguments(tools, deltas.drop_last(), index);
        assert(arguments_held(chat::tool_deltas_tools(tools, deltas), index) =~= arguments_held(
            tools,
            index,
        ) + arguments_for(deltas, index));
    }
}

proof fn lemma_choices_arguments(
    state: TurnState,
    choices: Seq<ChatChoiceDeltaView>,
    message_id: Seq<char>,
    index: usize,
)
    ensures
        arguments_held(chat::choices_step(state, choices, message_id).state.tools, index)
            == arguments_held(state.tools, index) + arguments_for(choices_deltas(choices), index),
    decreases choices.len(),
{
    let held = arguments_held(state.tools, index);
    if choices.len() == 0 {
        assert(held + arguments_for(choices_deltas(choices), index) =~= held);
    } else {
        lemma_choices_arguments(state, choices.drop_last(), message_id, index);
        let before = chat::choices_step(state, choices.drop_last(), message_id);
        let deltas = chat::choice_deltas(choices.last());
        lemma_deltas_arguments(before.state.tools, deltas, index);
        lemma_arguments_concat(choices_deltas(choices.drop_last()), deltas, index);
        let tools = chat::tool_deltas_tools(before.state.tools, deltas);
        assert(arguments_held(chat::settled_tools(tools), index) == arguments_held(tools, index));
        assert(held + arguments_for(choices_deltas(choices), index) =~= (held + arguments_for(
            choices_deltas(choices.drop_last()),
            index,
        )) + arguments_for(deltas, index));
    }
}

/// The arguments of a call are the concatenation of the fragments with its
/// index, in the order in which they arrived.
pub proof fn law_arguments_add_up(inputs: Seq<StreamInputView>, index: usize)
    requires
        !ChatStreamView::fresh().run(inputs).done,
    ensures
        arguments_held(ChatStreamView::fresh().run(inputs).stream.turn.tools, index)
            == arguments_for(inputs_deltas(inputs), index),
    decreases inputs.len(),
{
    let start = ChatStreamView::fresh();
    if inputs.len() > 0 {
        law_arguments_add_up(inputs.drop_last(), index);
        let before = start.run(inputs.drop_last());
        let input = inputs.last();
        lemma_arguments_concat(inputs_deltas(inputs.drop_last()), input_deltas(input), index);
        match input {
            StreamInputView::Frame { chunk: Some(chunk), .. } => {
                let response_id = before.stream.response_id_after(chunk);
                lemma_choices_arguments(before.stream.turn, chunk.choices, response_id, index);
            },
            _ => {
                assert(inputs_deltas(inputs) =~= inputs_deltas(inputs.drop_last()));
            },
        }
    }
}

proof fn lemma_pending_closed(
    tools: Map<usize, ToolCallAccumView>,
    index: usize,
    bound: nat,
)
    requires
        index < bound <= usize::MAX + 1,
        tools.contains_key(index),
        tools[index].is_pending(),
    ensures
        chat::done_events_below(tools, bound).contains(tools[index].done_event(index)),
    decreases bound,
{
    let event = tools[index].done_event(index);
    let all = chat::done_events_below(tools, bound);
    if index == bound - 1 {
        assert(all.last() == event);
    } else {
        lemma_pending_closed(tools, index, (bound - 1) as nat);
        let below = chat::done_events_below(tools, (bound - 1) as nat);
        let i = below.index_of(event);
        assert(all[i] == event);
    }
}

/// A `finish_reason` in the last choice of a chunk leaves no call pending: each one
/// is closed with all the arguments that arrived for it.
pub proof fn law_finish_closes_calls(
    inputs: Seq<StreamInputView>,
    chunk: ChatCompletionChunkView,
    index: usize,
)
    requires
        !ChatStreamView::fresh().run(inputs).done,
        chunk.choices.len() > 0,
        chunk.choices.last().finish_reason is Some,
    ensures
        ({
            let stream = ChatStreamView::fresh().run(inputs).stream;
            let step = stream.chunk_step(chunk);
            let before = chat::choices_step(
                stream.turn,
                chunk.choices.drop_last(),
                step.stream.response_id,
            );
            let open = chat::tool_deltas_tools(
                before.state.tools,
                chat::choice_deltas(chunk.choices.last()),
            );
            let arrived = inputs_deltas(inputs) + choices_deltas(chunk.choices);
            &&& step.stream.turn.tools.contains_key(index)
                ==> !step.stream.turn.tools[index].is_pending()
            &&& open.contains_key(index) && open[index].is_pending() ==> step.items.contains(
                Ok(
                    ResponseEventView::OutputItemDone(
                        open[index].item(index, arguments_for(arrived, index)),
                    ),
                ),
            )
        }),
{
    let stream = ChatStreamView::fresh().run(inputs).stream;
    let step = stream.chunk_step(chunk);
    let id = step.stream.response_id;
    let front = chunk.choices.drop_last();
    let last = chat::choice_deltas(chunk.choices.last());
    let before = chat::choices_step(stream.turn, front, id);
    let open = chat::tool_deltas_tools(before.state.tools, last);
    let events = chat::choices_step(stream.turn, chunk.choices, id).events;
    assert(step.stream.turn.tools == chat::settled_tools(open));
    if open.contains_key(index) && open[index].is_pending() {
        law_arguments_add_up(inputs, index);
        lemma_choices_arguments(stream.turn, front, id, index);
        lemma_deltas_arguments(before.state.tools, last, index);
        lemma_arguments_concat(choices_deltas(front), last, index);
        lemma_arguments_concat(inputs_deltas(inputs), choices_deltas(chunk.choices), index);
        assert(open[index].arguments =~= arguments_for(
            inputs_deltas(inputs) + choices_deltas(chunk.choices),
            index,
        ));
        lemma_pending_closed(open, index, (usize::MAX + 1) as nat);
        let event = open[index].done_event(index);
        let done = chat::done_events(open);
        let i = done.index_of(event);
        assert(events[events.len() - done.len() + i] == event);
        assert(step.items[events.len() - done.len() + i] == Ok::<ResponseEventView, ApiErrorView>(
            event,
        ));
    }
}

/// When a stream completes, each call that is still pending is closed with all
/// the arguments that arrived for it.
pub proof fn law_closed_with_all_arguments(inputs: Seq<StreamInputView>, index: usize)
    requires
        !ChatStreamView::fresh().run(inputs).done,
        ChatStreamView::fresh().run(inputs).stream.turn.tools.contains_key(index),
        ChatStreamView::fresh().run(inputs).stream.turn.tools[index].is_pending(),
    ensures
        ({
            let stream = ChatStreamView::fresh().run(inputs).stream;
            let call = stream.turn.tools[index];
            stream.completion_step().items.contains(
                Ok(
                    ResponseEventView::OutputItemDone(
                        call.item(index, arguments_for(inputs_deltas(inputs), index)),
                    ),
                ),
            )
        }),
{
    let stream = ChatStreamView::fresh().run(inputs).stream;
    let tools = stream.turn.tools;
    let event = tools[index].done_event(index);
    law_arguments_add_up(inputs, index);
    lemma_pending_closed(tools, index, (usize::MAX + 1) as nat);
    let i = chat::done_events(tools).index_of(event);
    let before: int = if stream.turn.message_announced {
        1
    } else {
        0
    };
    let items = stream.completion_step().items;
    assert(items[before + i] == Ok::<ResponseEventView, ApiErrorView>(event));
}

/// The concatenation of the input fragments among the events.
pub open spec fn input_of(events: Seq<ResponseEventView>) -> Seq<char>
    decreases events.len(),
{
    if events.len() == 0 {
        Seq::empty()
    } else {
        match events.last() {
            ResponseEventView::ToolCallInputDelta { delta, .. } => input_of(events.drop_last())
                + delta,
            _ => input_of(events.drop_last()),
        }
    }
}

/// The concatenation of all argument fragments.
pub open spec fn all_arguments(deltas: Seq<ChatToolCallDeltaView>) -> Seq<char>
    decreases deltas.len(),
{
    if deltas.len() == 0 {
        Seq::empty()
    } else {
        all_arguments(deltas.drop_last()) + chat::argument_fragment(deltas.last())
    }
}

proof fn lemma_input_concat(a: Seq<ResponseEventView>, b: Seq<ResponseEventView>)
    ensures
        input_of(a + b) == input_of(a) + input_of(b),
    decreases b.len(),
{
    if b.len() == 0 {
        assert(a + b =~= a);
        assert(input_of(a) + input_of(b) =~= input_of(a));
    } else {
        assert((a + b).drop_last() =~= a + b.drop_last());
        lemma_input_concat(a, b.drop_last());
        assert(input_of(a + b) =~= input_of(a) + input_of(b));
    }
}

proof fn lemma_all_arguments_concat(
    a: Seq<ChatToolCallDeltaView>,
    b: Seq<ChatToolCallDeltaView>,
)
    ensures
        all_arguments(a + b) == all_arguments(a) + all_arguments(b),
    decreases b.len(),
{
    if b.len() == 0 {
        assert(a + b =~= a);
        assert(all_arguments(a) + all_arguments(b) =~= all_arguments(a));
    } else {
        assert((a + b).drop_last() =~= a + b.drop_last());
        lemma_all_arguments_concat(a, b.drop_last());
        assert(all_arguments(a + b) =~= all_arguments(a) + all_arguments(b));
    }
}

proof fn lemma_deltas_forwarded(
    tools: Map<usize, ToolCallAccumView>,
    deltas: Seq<ChatToolCallDeltaView>,
)
    ensures
        input_of(chat::tool_deltas_events(tools, deltas)) == all_arguments(deltas),
    decreases deltas.len(),
{
    if deltas.len() > 0 {
        lemma_deltas_forwarded(tools, deltas.drop_last());
        let before = chat::tool_deltas_tools(tools, deltas.drop_last());
        let delta = deltas.last();
        let events = chat::tool_delta_events(before, delta);
        lemma_input_concat(chat::tool_deltas_events(tools, deltas.drop_last()), events);
        reveal_with_fuel(input_of, 3);
        assert(input_of(events) =~= chat::argument_fragment(delta)) by {
            if events.len() == 2 {
                assert(events.drop_last() =~= seq![events[0]]);
                assert(events.drop_last().drop_last() =~= Seq::empty());
            } else if events.len() == 1 {
                assert(events.drop_last() =~= Seq::empty());
            }
        }
    }
}

proof fn lemma_no_input(events: Seq<ResponseEventView>)
    requires
        forall|i: int| 0 <= i < events.len() ==> !lifecycle::is_call_input(#[trigger] events[i]),
    ensures
        input_of(events) == Seq::<char>::empty(),
    decreases events.len(),
{
    if events.len() > 0 {
        assert forall|i: int| 0 <= i < events.drop_last().len() implies !lifecycle::is_call_input(
            #[trigger] events.drop_last()[i],
        ) by {
            assert(events.drop_last()[i] == events[i]);
        }
        lemma_no_input(events.drop_last());
    }
}

proof fn lemma_choices_forwarded(
    state: TurnState,
    choices: Seq<ChatChoiceDeltaView>,
    message_id: Seq<char>,
)
    ensures
        input_of(chat::choices_step(state, choices, message_id).events) == all_arguments(
            choices_deltas(choices),
        ),
    decreases choices.len(),
{
    if choices.len() > 0 {
        lemma_choices_forwarded(state, choices.drop_last(), message_id);
        let before = chat::choices_step(state, choices.drop_last(), message_id);
        let choice = choices.last();
        let step = chat::choice_step(before.state, choice, message_id);
        let deltas = chat::choice_deltas(choice);
        let text = chat::text_events(
            before.state.message_announced,
            choice.delta.content,
            message_id,
        );
        let calls = chat::tool_deltas_events(before.state.tools, deltas);
        let tools = chat::tool_deltas_tools(before.state.tools, deltas);
        let done = if choice.finish_reason is Some {
            chat::done_events(tools)
        } else {
            Seq::empty()
        };
        assert(step.events =~= text + calls + done);
        lemma_deltas_forwarded(before.state.tools, deltas);
        lemma_no_input(text);
        lifecycle::lemma_done_events_kind(tools, (usize::MAX + 1) as nat);
        lemma_no_input(done);
        lemma_input_concat(text, calls);
        lemma_input_concat(text + calls, done);
        lemma_input_concat(before.events, step.events);
        lemma_all_arguments_concat(choices_deltas(choices.drop_last()), deltas);
        assert(input_of(step.events) =~= all_arguments(deltas));
    }
}

/// No argument fragment is lost on its way to the consumer: as long as a stream
/// runs, the input fragments that were sent are those that arrived.
pub proof fn law_input_forwarded(inputs: Seq<StreamInputView>)
    requires
        !ChatStreamView::fresh().run(inputs).done,
    ensures
        input_of(lifecycle::sent_events(ChatStreamView::fresh().run(inputs).items))
            == all_arguments(inputs_deltas(inputs)),
    decreases inputs.len(),
{
    let start = ChatStreamView::fresh();
    if inputs.len() > 0 {
        law_input_forwarded(inputs.drop_last());
        let before = start.run(inputs.drop_last());
        let input = inputs.last();
        let step = before.stream.step(input);
        lifecycle::lemma_sent_events_concat(before.items, step.items);
        lemma_input_concat(
            lifecycle::sent_events(before.items),
            lifecycle::sent_events(step.items),
        );
        lemma_all_arguments_concat(inputs_deltas(inputs.drop_last()), input_deltas(input));
        match input {
            StreamInputView::Frame { chunk: Some(chunk), .. } => {
                let response_id = before.stream.response_id_after(chunk);
                lemma_choices_forwarded(before.stream.turn, chunk.choices, response_id);
                lifecycle::lemma_sent_events_ok(
                    chat::choices_step(before.stream.turn, chunk.choices, response_id).events,
                );
            },
            _ => {},
        }
    }
}

/// The calls that are known after several fragments, by index, each with the id
/// that its first fragment carried.
pub open spec fn known_calls(
    known: Map<usize, Option<Seq<char>>>,
    deltas: Seq<ChatToolCallDeltaView>,
) -> Map<usize, Option<Seq<char>>>
    decreases deltas.len(),
{
    if deltas.len() == 0 {
        known
    } else {
        let before = known_calls(known, deltas.drop_last());
        let delta = deltas.last();
        if before.contains_key(delta.index) {
            before
        } else {
            before.insert(delta.index, delta.id)
        }
    }
}

/// Whether a fragment carries an id or a name.
pub open spec fn identifies(delta: ChatToolCallDeltaView) -> bool {
    delta.id is Some || (delta.function matches Some(function) && function.name is Some)
}

/// Whether each call is identified by its first fragment: that one has an id or a
/// name, and a later one has no id or the same.
pub open spec fn identified_at_first(
    known: Map<usize, Option<Seq<char>>>,
    deltas: Seq<ChatToolCallDeltaView>,
) -> bool
    decreases deltas.len(),
{
    deltas.len() == 0 || {
        let delta = deltas.last();
        let before = known_calls(known, deltas.drop_last());
        &&& identified_at_first(known, deltas.drop_last())
        &&& if before.contains_key(delta.index) {
            delta.id is None || delta.id == before[delta.index]
        } else {
            identifies(delta)
        }
    }
}

proof fn lemma_known_concat(
    known: Map<usize, Option<Seq<char>>>,
    a: Seq<ChatToolCallDeltaView>,
    b: Seq<ChatToolCallDeltaView>,
)
    ensures
        known_calls(known, a + b) == known_calls(known_calls(known, a), b),
        identified_at_first(known, a + b) == (identified_at_first(known, a)
            && identified_at_first(known_calls(known, a), b)),
    decreases b.len(),
{
    if b.len() == 0 {
        assert(a + b =~= a);
    } else {
        assert((a + b).drop_last() =~= a + b.drop_last());
        lemma_known_concat(known, a, b.drop_last());
    }
}

/// The call id that an event announces.
pub open spec fn announced_id(event: ResponseEventView) -> Option<Seq<char>> {
    match event {
        ResponseEventView::OutputItemAdded(
            ResponseItemView::FunctionCall { call_id, .. },
        ) => Some(call_id),
        _ => None,
    }
}

/// The call id that an event takes to have been announced.
pub open spec fn presumed_id(event: ResponseEventView) -> Option<Seq<char>> {
    match event {
        ResponseEventView::OutputItemDone(ResponseItemView::FunctionCall { call_id, .. }) => Some(
            call_id,
        ),
        ResponseEventView::ToolCallInputDelta { item_id, .. } => Some(item_id),
        _ => None,
    }
}

/// The call ids that are announced after several events.
pub open spec fn announced_ids(
    ids: Set<Seq<char>>,
    events: Seq<ResponseEventView>,
) -> Set<Seq<char>>
    decreases events.len(),
{
    if events.len() == 0 {
        ids
    } else {
        match announced_id(events.last()) {
            Some(id) => announced_ids(ids, events.drop_last()).insert(id),
            None => announced_ids(ids, events.drop_last()),
        }
    }
}

/// Whether each fragment and each closing of a call comes after an announcement
/// with the same call id.
pub open spec fn announced_first(ids: Set<Seq<char>>, events: Seq<ResponseEventView>) -> bool
    decreases events.len(),
{
    events.len() == 0 || {
        &&& announced_first(ids, events.drop_last())
        &&& presumed_id(events.last()) matches Some(id) ==> announced_ids(
            ids,
            events.drop_last(),
        ).contains(id)
    }
}

proof fn lemma_announced_concat(
    ids: Set<Seq<char>>,
    a: Seq<ResponseEventView>,
    b: Seq<ResponseEventView>,
)
    ensures
        announced_ids(ids, a + b) == announced_ids(announced_ids(ids, a), b),
        announced_first(ids, a + b) == (announced_first(ids, a) && announced_first(
            announced_ids(ids, a),
            b,
        )),
    decreases b.len(),
{
    if b.len() == 0 {
        assert(a + b =~= a);
    } else {
        assert((a + b).drop_last() =~= a + b.drop_last());
        lemma_announced_concat(ids, a, b.drop_last());
    }
}

/// Whether the calls of a table are those with a known index, each announced
/// under its call id.
spec fn calls_announced(
    tools: Map<usize, ToolCallAccumView>,
    known: Map<usize, Option<Seq<char>>>,
    ids: Set<Seq<char>>,
) -> bool {
    &&& tools.dom() == known.dom()
    &&& forall|index: usize|
        #[trigger] tools.contains_key(index) ==> tools[index].announced && tools[index].id
            == known[index] && ids.contains(tools[index].call_id(index))
}

proof fn lemma_deltas_announced(
    tools: Map<usize, ToolCallAccumView>,
    deltas: Seq<ChatToolCallDeltaView>,
    known: Map<usize, Option<Seq<char>>>,
    ids: Set<Seq<char>>,
)
    requires
        calls_announced(tools, known, ids),
        identified_at_first(known, deltas),
    ensures
        calls_announced(
            chat::tool_deltas_tools(tools, deltas),
            known_calls(known, deltas),
            announced_ids(ids, chat::tool_deltas_events(tools, deltas)),
        ),
        announced_first(ids, chat::tool_deltas_events(tools, deltas)),
    decreases deltas.len(),
{
    if deltas.len() > 0 {
        let front = deltas.drop_last();
        lemma_deltas_announced(tools, front, known, ids);
        let before = chat::tool_deltas_tools(tools, front);
        let sent = chat::tool_deltas_events(tools, front);
        let sent_ids = announced_ids(ids, sent);
        let delta = deltas.last();
        let events = chat::tool_delta_events(before, delta);
        let after = chat::tool_delta_tools(before, delta);
        lemma_announced_concat(ids, sent, events);
        reveal_with_fuel(announced_ids, 3);
        reveal_with_fuel(announced_first, 3);
        if events.len() == 2 {
            assert(events.drop_last() =~= seq![events[0]]);
            assert(events.drop_last().drop_last() =~= Seq::empty());
        } else if events.len() == 1 {
            assert(events.drop_last() =~= Seq::empty());
        }
        assert(after.dom() =~= known_calls(known, deltas).dom());
    }
}

proof fn lemma_done_announced(
    tools: Map<usize, ToolCallAccumView>,
    bound: nat,
    ids: Set<Seq<char>>,
)
    requires
        bound <= usize::MAX + 1,
        forall|index: usize|
            #[trigger] tools.contains_key(index) ==> ids.contains(tools[index].call_id(index)),
    ensures
        announced_first(ids, chat::done_events_below(tools, bound)),
        announced_ids(ids, chat::done_events_below(tools, bound)) == ids,
    decreases bound,
{
    if bound > 0 {
        lemma_done_announced(tools, (bound - 1) as nat, ids);
        let index = (bound - 1) as usize;
        let below = chat::done_events_below(tools, (bound - 1) as nat);
        if tools.contains_key(index) && tools[index].is_pending() {
            assert(below.push(tools[index].done_event(index)).drop_last() =~= below);
        }
    }
}

/// Events that announce no call and presume none.
proof fn lemma_no_calls_announced(ids: Set<Seq<char>>, events: Seq<ResponseEventView>)
    requires
        forall|i: int|
            0 <= i < events.len() ==> announced_id(#[trigger] events[i]) is None && presumed_id(
                events[i],
            ) is None,
    ensures
        announced_first(ids, events),
        announced_ids(ids, events) == ids,
    decreases events.len(),
{
    if events.len() > 0 {
        let front = events.drop_last();
        assert forall|i: int| 0 <= i < front.len() implies announced_id(#[trigger] front[i]) is None
            && presumed_id(front[i]) is None by {
            assert(front[i] == events[i]);
        }
        lemma_no_calls_announced(ids, front);
    }
}

proof fn lemma_choices_announced(
    state: TurnState,
    choices: Seq<ChatChoiceDeltaView>,
    message_id: Seq<char>,
    known: Map<usize, Option<Seq<char>>>,
    ids: Set<Seq<char>>,
)
    requires
        calls_announced(state.tools, known, ids),
        identified_at_first(known, choices_deltas(choices)),
    ensures
        ({
            let step = chat::choices_step(state, choices, message_id);
            &&& calls_announced(
                step.state.tools,
                known_calls(known, choices_deltas(choices)),
                announced_ids(ids, step.events),
            )
            &&& announced_first(ids, step.events)
        }),
    decreases choices.len(),
{
    if choices.len() > 0 {
        let front = choices.drop_last();
        let choice = choices.last();
        let deltas = chat::choice_deltas(choice);
        lemma_known_concat(known, choices_deltas(front), deltas);
        lemma_choices_announced(state, front, message_id, known, ids);
        let before = chat::choices_step(state, front, message_id);
        let step = chat::choice_step(before.state, choice, message_id);
        let mid_known = known_calls(known, choices_deltas(front));
        let mid_ids = announced_ids(ids, before.events);
        let text = chat::text_events(
            before.state.message_announced,
            choice.delta.content,
            message_id,
        );
        let calls = chat::tool_deltas_events(before.state.tools, deltas);
        let tools = chat::tool_deltas_tools(before.state.tools, deltas);
        let done = if choice.finish_reason is Some {
            chat::done_events(tools)
        } else {
            Seq::empty()
        };
        assert(step.events =~= text + calls + done);
        lemma_no_calls_announced(mid_ids, text);
        lemma_deltas_announced(before.state.tools, deltas, mid_known, mid_ids);
        let after_ids = announced_ids(mid_ids, calls);
        lemma_done_announced(tools, (usize::MAX + 1) as nat, after_ids);
        lemma_announced_concat(mid_ids, text, calls);
        lemma_announced_concat(mid_ids, text + calls, done);
        lemma_announced_concat(ids, before.events, step.events);
        assert(chat::settled_tools(tools).dom() =~= tools.dom());
        assert forall|index: usize| #[trigger]
            chat::settled_tools(tools).contains_key(index) implies chat::settled_tools(
            tools,
        )[index].call_id(index) == tools[index].call_id(index) by {
            assert(tools.contains_key(index));
        }
        assert forall|index: usize| #[trigger]
            step.state.tools.contains_key(index) implies step.state.tools[index].announced
            && step.state.tools[index].id == known_calls(known, choices_deltas(choices))[index]
            && after_ids.contains(step.state.tools[index].call_id(index)) by {
            assert(tools.contains_key(index));
        }
    }
}

/// Where the provider identifies each call by its first fragment and sends no other
/// id for it later, the consumer sees each call announced, under the call id of all its later
/// events, before any fragment of its input and before it is closed.
pub proof fn law_calls_announced_first(inputs: Seq<StreamInputView>)
    requires
        identified_at_first(Map::empty(), inputs_deltas(inputs)),
    ensures
        announced_first(
            Set::empty(),
            lifecycle::sent_events(ChatStreamView::fresh().run(inputs).items),
        ),
{
    lemma_run_announced(inputs);
}

proof fn lemma_run_announced(inputs: Seq<StreamInputView>)
    requires
        identified_at_first(Map::empty(), inputs_deltas(inputs)),
    ensures
        ({
            let run = ChatStreamView::fresh().run(inputs);
            let events = lifecycle::sent_events(run.items);
            &&& announced_first(Set::empty(), events)
            &&& !run.done ==> calls_announced(
                run.stream.turn.tools,
                known_calls(Map::empty(), inputs_deltas(inputs)),
                announced_ids(Set::empty(), events),
            )
        }),
    decreases inputs.len(),
{
    let start = ChatStreamView::fresh();
    let none: Set<Seq<char>> = Set::empty();
    if inputs.len() == 0 {
        assert(start.turn.tools.dom() =~= Set::empty());
    } else {
        let front = inputs.drop_last();
        let input = inputs.last();
        lemma_known_concat(Map::empty(), inputs_deltas(front), input_deltas(input));
        lemma_run_announced(front);
        let before = start.run(front);
        if !before.done {
            let step = before.stream.step(input);
            let sent = lifecycle::sent_events(before.items);
            let events = lifecycle::sent_events(step.items);
            let known = known_calls(Map::empty(), inputs_deltas(front));
            let ids = announced_ids(none, sent);
            lifecycle::lemma_sent_events_concat(before.items, step.items);
            lemma_announced_concat(none, sent, events);
            reveal_with_fuel(lifecycle::sent_events, 2);
            if let StreamInputView::Frame { chunk: Some(chunk), .. } = input {
                let response_id = before.stream.response_id_after(chunk);
                lemma_choices_announced(
                    before.stream.turn,
                    chunk.choices,
                    response_id,
                    known,
                    ids,
                );
                lifecycle::lemma_sent_events_ok(
                    chat::choices_step(before.stream.turn, chunk.choices, response_id).events,
                );
            }
            lemma_completion_announced(before.stream, ids);
        }
    }
}

proof fn lemma_completion_announced(stream: ChatStreamView, ids: Set<Seq<char>>)
    requires
        forall|index: usize|
            #[trigger] stream.turn.tools.contains_key(index) ==> ids.contains(
                stream.turn.tools[index].call_id(index),
            ),
    ensures
        announced_first(ids, lifecycle::sent_events(stream.completion_step().items)),
{
    let events = chat::terminal_events(
        stream.turn,
        stream.response_id,
        stream.usage,
        stream.finish_reason,
        stream.response_id,
    );
    lifecycle::lemma_sent_events_ok(events);
    let done = chat::done_events(stream.turn.tools);
    let message = if stream.turn.message_announced {
        seq![events[0]]
    } else {
        Seq::empty()
    };
    let completed = seq![events.last()];
    assert(events =~= message + done + completed);
    lemma_no_calls_announced(ids, message);
    lemma_done_announced(stream.turn.tools, (usize::MAX + 1) as nat, ids);
    lemma_no_calls_announced(ids, completed);
    lemma_announced_concat(ids, message, done);
    lemma_announced_concat(ids, message + done, completed);
}

} // verus!
