//! What the consumer of a stream sees of one tool call.
//!
//! An event names a call by its call id. Which call it belongs to is known from
//! the fragment or the closing that it comes from; the events of a stream are
//! tagged here with the index of that call.

use crate::chat_response::{ChatChoiceDeltaView, ChatToolCallDeltaView};
use crate::models::{ResponseEventView, ResponseItemView};
use crate::sse::chat;
use crate::sse::chat::{ChatStreamView, StreamInputView, ToolCallAccumView, TurnState};
use crate::sse::lifecycle;
use crate::sse::tool_calls;
use crate::text;
use vstd::prelude::*;

verus! {

/// An event with the index of the tool call that it belongs to, if it belongs to
/// one.
pub type TaggedEvent = (Option<usize>, ResponseEventView);

/// Events that all belong to one call, or to none.
pub open spec fn tagged(events: Seq<ResponseEventView>, tag: Option<usize>) -> Seq<TaggedEvent> {
    events.map_values(|event: ResponseEventView| (tag, event))
}

/// Events without their tags.
pub open spec fn untagged(events: Seq<TaggedEvent>) -> Seq<ResponseEventView> {
    events.map_values(|event: TaggedEvent| event.1)
}

/// The events of several fragments.
pub open spec fn tagged_deltas(
    tools: Map<usize, ToolCallAccumView>,
    deltas: Seq<ChatToolCallDeltaView>,
) -> Seq<TaggedEvent>
    decreases deltas.len(),
{
    if deltas.len() == 0 {
        Seq::empty()
    } else {
        let before = chat::tool_deltas_tools(tools, deltas.drop_last());
        tagged_deltas(tools, deltas.drop_last()) + tagged(
            chat::tool_delta_events(before, deltas.last()),
            Some(deltas.last().index),
        )
    }
}

/// The events that close the pending calls with an index under `bound`.
pub open spec fn tagged_done_below(
    tools: Map<usize, ToolCallAccumView>,
    bound: nat,
) -> Seq<TaggedEvent>
    decreases bound,
{
    if bound == 0 {
        Seq::empty()
    } else {
        let index = (bound - 1) as usize;
        let below = tagged_done_below(tools, (bound - 1) as nat);
        if tools.contains_key(index) && tools[index].is_pending() {
            below.push((Some(index), tools[index].done_event(index)))
        } else {
            below
        }
    }
}

/// The events that close every pending call.
pub open spec fn tagged_done(tools: Map<usize, ToolCallAccumView>) -> Seq<TaggedEvent> {
    tagged_done_below(tools, (usize::MAX + 1) as nat)
}

/// The events of a choice.
pub open spec fn tagged_choice(
    state: TurnState,
    choice: ChatChoiceDeltaView,
    message_id: Seq<char>,
) -> Seq<TaggedEvent> {
    let deltas = chat::choice_deltas(choice);
    let tools = chat::tool_deltas_tools(state.tools, deltas);
    let text = chat::text_events(state.message_announced, choice.delta.content, message_id);
    tagged(text, None) + tagged_deltas(state.tools, deltas) + if choice.finish_reason is Some {
        tagged_done(tools)
    } else {
        Seq::empty()
    }
}

/// The events of several choices.
pub open spec fn tagged_choices(
    state: TurnState,
    choices: Seq<ChatChoiceDeltaView>,
    message_id: Seq<char>,
) -> Seq<TaggedEvent>
    decreases choices.len(),
{
    if choices.len() == 0 {
        Seq::empty()
    } else {
        let before = chat::choices_step(state, choices.drop_last(), message_id);
        tagged_choices(state, choices.drop_last(), message_id) + tagged_choice(
            before.state,
            choices.last(),
            message_id,
        )
    }
}

/// The events of the regular end of a stream: the message, the pending calls, and
/// `Completed`.
pub open spec fn tagged_completion(stream: ChatStreamView) -> Seq<TaggedEvent> {
    let events = chat::terminal_events(
        stream.turn,
        stream.response_id,
        stream.usage,
        stream.finish_reason,
        stream.response_id,
    );
    let message = if stream.turn.message_announced {
        seq![events[0]]
    } else {
        Seq::empty()
    };
    tagged(message, None) + tagged_done(stream.turn.tools) + tagged(seq![events.last()], None)
}

/// The events of an input.
pub open spec fn tagged_step(stream: ChatStreamView, input: StreamInputView) -> Seq<TaggedEvent> {
    match input {
        StreamInputView::Frame { data, chunk, .. } => {
            if text::trim_chars(data) == "[DONE]"@ {
                tagged_completion(stream)
            } else {
                match chunk {
                    Some(chunk) => tagged_choices(
                        stream.turn,
                        chunk.choices,
                        stream.response_id_after(chunk),
                    ),
                    None => Seq::empty(),
                }
            }
        },
        StreamInputView::Closed => {
            if stream.finish_reason is Some {
                tagged_completion(stream)
            } else {
                Seq::empty()
            }
        },
        _ => Seq::empty(),
    }
}

/// The events of several inputs, up to the one that ends the stream.
pub open spec fn tagged_run(inputs: Seq<StreamInputView>) -> Seq<TaggedEvent>
    decreases inputs.len(),
{
    if inputs.len() == 0 {
        Seq::empty()
    } else {
        let before = ChatStreamView::fresh().run(inputs.drop_last());
        if before.done {
            tagged_run(inputs.drop_last())
        } else {
            tagged_run(inputs.drop_last()) + tagged_step(before.stream, inputs.last())
        }
    }
}

/// The events that belong to the call with an index, in order.
pub open spec fn for_call(events: Seq<TaggedEvent>, index: usize) -> Seq<ResponseEventView>
    decreases events.len(),
{
    if events.len() == 0 {
        Seq::empty()
    } else if events.last().0 == Some(index) {
        for_call(events.drop_last(), index).push(events.last().1)
    } else {
        for_call(events.drop_last(), index)
    }
}

/// The fragments that belong to the call with an index, in order.
pub open spec fn deltas_for(
    deltas: Seq<ChatToolCallDeltaView>,
    index: usize,
) -> Seq<ChatToolCallDeltaView>
    decreases deltas.len(),
{
    if deltas.len() == 0 {
        Seq::empty()
    } else if deltas.last().index == index {
        deltas_for(deltas.drop_last(), index).push(deltas.last())
    } else {
        deltas_for(deltas.drop_last(), index)
    }
}

/// The arguments of the item that an event adds or closes.
pub open spec fn arguments_in(event: ResponseEventView) -> Seq<char> {
    match event {
        ResponseEventView::OutputItemAdded(
            ResponseItemView::FunctionCall { arguments, .. },
        ) => arguments,
        ResponseEventView::OutputItemDone(
            ResponseItemView::FunctionCall { arguments, .. },
        ) => arguments,
        _ => Seq::empty(),
    }
}

/// Whether an event speaks of the tool call with the given call id.
pub open spec fn has_call_id(event: ResponseEventView, id: Seq<char>) -> bool {
    match event {
        ResponseEventView::OutputItemAdded(
            ResponseItemView::FunctionCall { call_id, .. },
        ) => call_id == id,
        ResponseEventView::OutputItemDone(
            ResponseItemView::FunctionCall { call_id, .. },
        ) => call_id == id,
        ResponseEventView::ToolCallInputDelta { item_id, call_id, .. } => item_id == id && call_id
            == Some(id),
        _ => false,
    }
}

/// Whether an event belongs to a tool call.
pub open spec fn is_call_event(event: ResponseEventView) -> bool {
    lifecycle::is_call_added(event) || lifecycle::is_call_input(event) || lifecycle::is_call_done(
        event,
    )
}

/// Whether events are those of one call: it is announced at most once, without
/// arguments; it is closed at most once, after its announcement, with the input
/// that was sent before.
pub open spec fn is_call_trace(events: Seq<ResponseEventView>) -> bool
    decreases events.len(),
{
    events.len() == 0 || {
        let before = events.drop_last();
        let event = events.last();
        &&& is_call_trace(before)
        &&& is_call_event(event)
        &&& lifecycle::is_call_added(event) ==> lifecycle::calls_added(before) == 0 && arguments_in(
            event,
        ) == Seq::<char>::empty()
        &&& lifecycle::is_call_done(event) ==> lifecycle::calls_added(before) == 1
            && lifecycle::calls_done(before) == 0 && arguments_in(event) == tool_calls::input_of(
            before,
        )
    }
}

/// Whether a call is identified by its first fragment: that one has an id or a
/// name, and a later one has no id or the same.
pub open spec fn is_identified_call(own: Seq<ChatToolCallDeltaView>) -> bool {
    own.len() > 0 ==> tool_calls::identifies(own[0]) && forall|k: int|
        0 <= k < own.len() ==> (#[trigger] own[k]).id is None || own[k].id == own[0].id
}

/// The call id of a call that is identified by its first fragment: the id of that
/// fragment, or one made from the index.
pub open spec fn first_call_id(own: Seq<ChatToolCallDeltaView>, index: usize) -> Seq<char> {
    match own[0].id {
        Some(id) => id,
        None => "tool_"@ + text::decimal(index as nat),
    }
}

/// The call with an index; one of which nothing has arrived, where there is none.
spec fn call_at(tools: Map<usize, ToolCallAccumView>, index: usize) -> ToolCallAccumView {
    if tools.contains_key(index) {
        tools[index]
    } else {
        ToolCallAccumView::fresh()
    }
}

/// How the state of a call relates to its events.
spec fn trace_holds(call: ToolCallAccumView, trace: Seq<ResponseEventView>) -> bool {
    &&& is_call_trace(trace)
    &&& lifecycle::calls_added(trace) == if call.announced {
        1nat
    } else {
        0nat
    }
    &&& lifecycle::calls_done(trace) == if call.finalized {
        1nat
    } else {
        0nat
    }
    &&& tool_calls::input_of(trace) == call.arguments
    &&& call.finalized ==> call.announced
}

/// How the state and the events of a call relate to its fragments, where the first
/// one identifies it.
spec fn ids_hold(
    call: ToolCallAccumView,
    trace: Seq<ResponseEventView>,
    own: Seq<ChatToolCallDeltaView>,
    index: usize,
) -> bool {
    if own.len() == 0 {
        trace.len() == 0 && call == ToolCallAccumView::fresh()
    } else {
        &&& call.id == own[0].id
        &&& call.announced
        &&& trace.len() > 0
        &&& lifecycle::is_call_added(trace[0])
        &&& forall|j: int|
            0 <= j < trace.len() ==> has_call_id(#[trigger] trace[j], first_call_id(own, index))
    }
}

/// Both relations.
spec fn call_holds(
    call: ToolCallAccumView,
    trace: Seq<ResponseEventView>,
    own: Seq<ChatToolCallDeltaView>,
    index: usize,
) -> bool {
    &&& trace_holds(call, trace)
    &&& is_identified_call(own) ==> ids_hold(call, trace, own, index)
}

proof fn lemma_for_call_concat(a: Seq<TaggedEvent>, b: Seq<TaggedEvent>, index: usize)
    ensures
        for_call(a + b, index) == for_call(a, index) + for_call(b, index),
    decreases b.len(),
{
    if b.len() == 0 {
        assert(a + b =~= a);
        assert(for_call(a, index) + for_call(b, index) =~= for_call(a, index));
    } else {
        assert((a + b).drop_last() =~= a + b.drop_last());
        lemma_for_call_concat(a, b.drop_last(), index);
        assert(for_call(a + b, index) =~= for_call(a, index) + for_call(b, index));
    }
}

proof fn lemma_for_call_tagged(events: Seq<ResponseEventView>, tag: Option<usize>, index: usize)
    ensures
        tag == Some(index) ==> for_call(tagged(events, tag), index) == events,
        tag != Some(index) ==> for_call(tagged(events, tag), index) == Seq::<
            ResponseEventView,
        >::empty(),
    decreases events.len(),
{
    if events.len() > 0 {
        assert(tagged(events, tag).drop_last() =~= tagged(events.drop_last(), tag));
        lemma_for_call_tagged(events.drop_last(), tag, index);
        assert(events.drop_last().push(events.last()) =~= events);
    } else {
        assert(for_call(tagged(events, tag), index) =~= events);
    }
}

proof fn lemma_deltas_for_concat(
    a: Seq<ChatToolCallDeltaView>,
    b: Seq<ChatToolCallDeltaView>,
    index: usize,
)
    ensures
        deltas_for(a + b, index) == deltas_for(a, index) + deltas_for(b, index),
    decreases b.len(),
{
    if b.len() == 0 {
        assert(a + b =~= a);
        assert(deltas_for(a, index) + deltas_for(b, index) =~= deltas_for(a, index));
    } else {
        assert((a + b).drop_last() =~= a + b.drop_last());
        lemma_deltas_for_concat(a, b.drop_last(), index);
        assert(deltas_for(a + b, index) =~= deltas_for(a, index) + deltas_for(b, index));
    }
}

/// One more event of a call.
proof fn lemma_trace_push(trace: Seq<ResponseEventView>, event: ResponseEventView)
    requires
        is_call_trace(trace),
        is_call_event(event),
        lifecycle::is_call_added(event) ==> lifecycle::calls_added(trace) == 0 && arguments_in(
            event,
        ) == Seq::<char>::empty(),
        lifecycle::is_call_done(event) ==> lifecycle::calls_added(trace) == 1
            && lifecycle::calls_done(trace) == 0 && arguments_in(event) == tool_calls::input_of(
            trace,
        ),
    ensures
        is_call_trace(trace.push(event)),
        lifecycle::calls_added(trace.push(event)) == lifecycle::calls_added(trace) + if
            lifecycle::is_call_added(event) {
            1nat
        } else {
            0nat
        },
        lifecycle::calls_done(trace.push(event)) == lifecycle::calls_done(trace) + if
            lifecycle::is_call_done(event) {
            1nat
        } else {
            0nat
        },
        tool_calls::input_of(trace.push(event)) == (match event {
            ResponseEventView::ToolCallInputDelta { delta, .. } => tool_calls::input_of(trace)
                + delta,
            _ => tool_calls::input_of(trace),
        }),
{
    assert(trace.push(event).drop_last() =~= trace);
}

/// A fragment of the call.
proof fn lemma_own_delta(
    tools: Map<usize, ToolCallAccumView>,
    delta: ChatToolCallDeltaView,
    trace: Seq<ResponseEventView>,
    own: Seq<ChatToolCallDeltaView>,
)
    requires
        call_holds(call_at(tools, delta.index), trace, own, delta.index),
    ensures
        call_holds(
            call_at(chat::tool_delta_tools(tools, delta), delta.index),
            trace + chat::tool_delta_events(tools, delta),
            own.push(delta),
            delta.index,
        ),
{
    let index = delta.index;
    let before = call_at(tools, index);
    let merged = chat::merged_call(tools, delta);
    let after = call_at(chat::tool_delta_tools(tools, delta), index);
    let events = chat::tool_delta_events(tools, delta);
    let fragment = chat::argument_fragment(delta);
    let call_id = merged.call_id(index);
    let is_added = !merged.announced && merged.is_identified();
    let mid = if is_added {
        trace.push(merged.added_event(index))
    } else {
        trace
    };
    if is_added {
        lemma_trace_push(trace, merged.added_event(index));
    }
    let input = ResponseEventView::ToolCallInputDelta {
        item_id: call_id,
        call_id: Some(call_id),
        delta: fragment,
    };
    if fragment.len() > 0 {
        lemma_trace_push(mid, input);
        assert(trace + events =~= mid.push(input));
    } else {
        assert(trace + events =~= mid);
        assert(before.arguments + fragment =~= before.arguments);
    }
    let all = own.push(delta);
    if is_identified_call(all) {
        assert(is_identified_call(own)) by {
            assert forall|k: int| 0 <= k < own.len() implies (#[trigger] own[k]).id is None
                || own[k].id == own[0].id by {
                assert(all[k] == own[k]);
            }
            if own.len() > 0 {
                assert(all[0] == own[0]);
            }
        }
        assert(all[own.len() as int] == delta);
        let trace_after = trace + events;
        assert forall|j: int| 0 <= j < trace_after.len() implies has_call_id(
            #[trigger] trace_after[j],
            first_call_id(all, index),
        ) by {
            if j < trace.len() {
                assert(trace_after[j] == trace[j]);
            }
        }
    }
}

proof fn lemma_deltas(
    tools: Map<usize, ToolCallAccumView>,
    deltas: Seq<ChatToolCallDeltaView>,
    trace: Seq<ResponseEventView>,
    own: Seq<ChatToolCallDeltaView>,
    index: usize,
)
    requires
        call_holds(call_at(tools, index), trace, own, index),
    ensures
        call_holds(
            call_at(chat::tool_deltas_tools(tools, deltas), index),
            trace + for_call(tagged_deltas(tools, deltas), index),
            own + deltas_for(deltas, index),
            index,
        ),
    decreases deltas.len(),
{
    if deltas.len() == 0 {
        assert(trace + for_call(tagged_deltas(tools, deltas), index) =~= trace);
        assert(own + deltas_for(deltas, index) =~= own);
    } else {
        let front = deltas.drop_last();
        let delta = deltas.last();
        lemma_deltas(tools, front, trace, own, index);
        let before = chat::tool_deltas_tools(tools, front);
        let events = chat::tool_delta_events(before, delta);
        let sent = trace + for_call(tagged_deltas(tools, front), index);
        let seen = own + deltas_for(front, index);
        lemma_for_call_concat(
            tagged_deltas(tools, front),
            tagged(events, Some(delta.index)),
            index,
        );
        lemma_for_call_tagged(events, Some(delta.index), index);
        let all = trace + for_call(tagged_deltas(tools, deltas), index);
        if delta.index == index {
            lemma_own_delta(before, delta, sent, seen);
            assert(all =~= sent + events);
            assert(own + deltas_for(deltas, index) =~= seen.push(delta));
        } else {
            assert(all =~= sent);
        }
    }
}

proof fn lemma_for_call_done(tools: Map<usize, ToolCallAccumView>, bound: nat, index: usize)
    requires
        bound <= usize::MAX + 1,
    ensures
        for_call(tagged_done_below(tools, bound), index) == if index < bound && tools.contains_key(
            index,
        ) && tools[index].is_pending() {
            seq![tools[index].done_event(index)]
        } else {
            Seq::<ResponseEventView>::empty()
        },
    decreases bound,
{
    if bound > 0 {
        let last = (bound - 1) as usize;
        let below = tagged_done_below(tools, (bound - 1) as nat);
        lemma_for_call_done(tools, (bound - 1) as nat, index);
        if tools.contains_key(last) && tools[last].is_pending() {
            let event: TaggedEvent = (Some(last), tools[last].done_event(last));
            assert(below.push(event).drop_last() =~= below);
            if last == index {
                assert(for_call(below, index).push(event.1) =~= seq![event.1]);
            }
        }
    }
}

/// The closing of every pending call.
proof fn lemma_done(
    tools: Map<usize, ToolCallAccumView>,
    trace: Seq<ResponseEventView>,
    own: Seq<ChatToolCallDeltaView>,
    index: usize,
)
    requires
        call_holds(call_at(tools, index), trace, own, index),
    ensures
        call_holds(
            call_at(chat::settled_tools(tools), index),
            trace + for_call(tagged_done(tools), index),
            own,
            index,
        ),
        !call_at(chat::settled_tools(tools), index).is_pending(),
{
    lemma_for_call_done(tools, (usize::MAX + 1) as nat, index);
    let call = call_at(tools, index);
    let all = trace + for_call(tagged_done(tools), index);
    if tools.contains_key(index) && call.is_pending() {
        let event = call.done_event(index);
        lemma_trace_push(trace, event);
        assert(all =~= trace.push(event));
        if is_identified_call(own) {
            assert forall|j: int| 0 <= j < all.len() implies has_call_id(
                #[trigger] all[j],
                first_call_id(own, index),
            ) by {
                if j < trace.len() {
                    assert(all[j] == trace[j]);
                }
            }
        }
    } else {
        assert(all =~= trace);
        assert(chat::settled_tools(tools).contains_key(index) == tools.contains_key(index));
    }
}

proof fn lemma_choice(
    state: TurnState,
    choice: ChatChoiceDeltaView,
    message_id: Seq<char>,
    trace: Seq<ResponseEventView>,
    own: Seq<ChatToolCallDeltaView>,
    index: usize,
)
    requires
        call_holds(call_at(state.tools, index), trace, own, index),
    ensures
        call_holds(
            call_at(chat::choice_step(state, choice, message_id).state.tools, index),
            trace + for_call(tagged_choice(state, choice, message_id), index),
            own + deltas_for(chat::choice_deltas(choice), index),
            index,
        ),
{
    let deltas = chat::choice_deltas(choice);
    let tools = chat::tool_deltas_tools(state.tools, deltas);
    let text = tagged(
        chat::text_events(state.message_announced, choice.delta.content, message_id),
        None,
    );
    let calls = tagged_deltas(state.tools, deltas);
    let done = if choice.finish_reason is Some {
        tagged_done(tools)
    } else {
        Seq::empty()
    };
    lemma_for_call_tagged(
        chat::text_events(state.message_announced, choice.delta.content, message_id),
        None,
        index,
    );
    lemma_for_call_concat(text, calls, index);
    lemma_for_call_concat(text + calls, done, index);
    lemma_deltas(state.tools, deltas, trace, own, index);
    let mid = trace + for_call(calls, index);
    lemma_done(tools, mid, own + deltas_for(deltas, index), index);
    assert(trace + for_call(tagged_choice(state, choice, message_id), index) =~= mid + for_call(
        done,
        index,
    ));
    if choice.finish_reason is None {
        assert(mid + for_call(done, index) =~= mid);
    }
}

proof fn lemma_choices(
    state: TurnState,
    choices: Seq<ChatChoiceDeltaView>,
    message_id: Seq<char>,
    trace: Seq<ResponseEventView>,
    own: Seq<ChatToolCallDeltaView>,
    index: usize,
)
    requires
        call_holds(call_at(state.tools, index), trace, own, index),
    ensures
        call_holds(
            call_at(chat::choices_step(state, choices, message_id).state.tools, index),
            trace + for_call(tagged_choices(state, choices, message_id), index),
            own + deltas_for(tool_calls::choices_deltas(choices), index),
            index,
        ),
    decreases choices.len(),
{
    if choices.len() == 0 {
        assert(trace + for_call(tagged_choices(state, choices, message_id), index) =~= trace);
        assert(own + deltas_for(tool_calls::choices_deltas(choices), index) =~= own);
    } else {
        let front = choices.drop_last();
        let choice = choices.last();
        lemma_choices(state, front, message_id, trace, own, index);
        let before = chat::choices_step(state, front, message_id);
        let sent = trace + for_call(tagged_choices(state, front, message_id), index);
        let seen = own + deltas_for(tool_calls::choices_deltas(front), index);
        lemma_choice(before.state, choice, message_id, sent, seen, index);
        lemma_for_call_concat(
            tagged_choices(state, front, message_id),
            tagged_choice(before.state, choice, message_id),
            index,
        );
        lemma_deltas_for_concat(
            tool_calls::choices_deltas(front),
            chat::choice_deltas(choice),
            index,
        );
        assert(trace + for_call(tagged_choices(state, choices, message_id), index) =~= sent
            + for_call(tagged_choice(before.state, choice, message_id), index));
        assert(own + deltas_for(tool_calls::choices_deltas(choices), index) =~= seen + deltas_for(
            chat::choice_deltas(choice),
            index,
        ));
    }
}

proof fn lemma_for_call_completion(stream: ChatStreamView, index: usize)
    ensures
        for_call(tagged_completion(stream), index) == for_call(
            tagged_done(stream.turn.tools),
            index,
        ),
{
    let events = chat::terminal_events(
        stream.turn,
        stream.response_id,
        stream.usage,
        stream.finish_reason,
        stream.response_id,
    );
    let message = if stream.turn.message_announced {
        seq![events[0]]
    } else {
        Seq::empty()
    };
    let done = tagged_done(stream.turn.tools);
    let completed = seq![events.last()];
    lemma_for_call_tagged(message, None, index);
    lemma_for_call_tagged(completed, None, index);
    lemma_for_call_concat(tagged(message, None), done, index);
    lemma_for_call_concat(tagged(message, None) + done, tagged(completed, None), index);
    assert(for_call(tagged_completion(stream), index) =~= for_call(done, index));
}

/// Whether the events of a call start with its announcement and all have the call
/// id of its first fragment.
pub open spec fn keeps_call_id(
    trace: Seq<ResponseEventView>,
    own: Seq<ChatToolCallDeltaView>,
    index: usize,
) -> bool {
    trace.len() > 0 ==> {
        &&& own.len() > 0
        &&& lifecycle::is_call_added(trace[0])
        &&& forall|j: int|
            0 <= j < trace.len() ==> has_call_id(#[trigger] trace[j], first_call_id(own, index))
    }
}

/// More fragments do not change what the first one says.
proof fn lemma_prefix_identified(
    own: Seq<ChatToolCallDeltaView>,
    more: Seq<ChatToolCallDeltaView>,
)
    requires
        is_identified_call(own + more),
    ensures
        is_identified_call(own),
{
    let all = own + more;
    if own.len() > 0 {
        assert(all[0] == own[0]);
        assert forall|k: int| 0 <= k < own.len() implies (#[trigger] own[k]).id is None
            || own[k].id == own[0].id by {
            assert(all[k] == own[k]);
        }
    }
}

/// The relations hold along a stream; at its end, the events are still those of
/// one call.
proof fn lemma_run(inputs: Seq<StreamInputView>, index: usize)
    ensures
        ({
            let run = ChatStreamView::fresh().run(inputs);
            let call = call_at(run.stream.turn.tools, index);
            let trace = for_call(tagged_run(inputs), index);
            let own = deltas_for(tool_calls::inputs_deltas(inputs), index);
            &&& trace_holds(call, trace)
            &&& !run.done ==> call_holds(call, trace, own, index)
            &&& is_identified_call(own) ==> keeps_call_id(trace, own, index)
            &&& run.done && run.items.last() is Ok ==> !call.is_pending()
        }),
    decreases inputs.len(),
{
    let start = ChatStreamView::fresh();
    if inputs.len() > 0 {
        let front = inputs.drop_last();
        let input = inputs.last();
        lemma_run(front, index);
        let before = start.run(front);
        let sent = for_call(tagged_run(front), index);
        let seen = deltas_for(tool_calls::inputs_deltas(front), index);
        let more = deltas_for(tool_calls::input_deltas(input), index);
        let own = deltas_for(tool_calls::inputs_deltas(inputs), index);
        lemma_deltas_for_concat(
            tool_calls::inputs_deltas(front),
            tool_calls::input_deltas(input),
            index,
        );
        if is_identified_call(own) {
            lemma_prefix_identified(seen, more);
            if seen.len() > 0 {
                assert(own[0] == seen[0]);
            }
        }
        if !before.done {
            let stream = before.stream;
            let step = stream.step(input);
            let events = tagged_step(stream, input);
            lemma_for_call_concat(tagged_run(front), events, index);
            lemma_done(stream.turn.tools, sent, seen, index);
            lemma_for_call_completion(stream, index);
            lifecycle::lemma_step_ends_once(stream, input);
            if step.items.len() > 0 {
                assert((before.items + step.items).last() == step.items.last());
            }
            if events.len() == 0 {
                assert(sent + for_call(events, index) =~= sent);
            }
            if let StreamInputView::Frame { chunk: Some(chunk), .. } = input {
                lemma_choices(
                    stream.turn,
                    chunk.choices,
                    stream.response_id_after(chunk),
                    sent,
                    seen,
                    index,
                );
            } else {
                assert(own =~= seen);
            }
        }
    }
}

/// Whether the events without a tag belong to no call.
spec fn calls_tagged(events: Seq<TaggedEvent>) -> bool {
    forall|i: int|
        0 <= i < events.len() && (#[trigger] events[i]).0 is None ==> !is_call_event(events[i].1)
}

proof fn lemma_tagged(events: Seq<ResponseEventView>, tag: Option<usize>)
    requires
        tag is None ==> forall|i: int|
            0 <= i < events.len() ==> !is_call_event(#[trigger] events[i]),
    ensures
        untagged(tagged(events, tag)) == events,
        calls_tagged(tagged(events, tag)),
{
    assert(untagged(tagged(events, tag)) =~= events);
}

proof fn lemma_untagged_concat(a: Seq<TaggedEvent>, b: Seq<TaggedEvent>)
    ensures
        untagged(a + b) == untagged(a) + untagged(b),
        calls_tagged(a) && calls_tagged(b) ==> calls_tagged(a + b),
{
    assert(untagged(a + b) =~= untagged(a) + untagged(b));
}

proof fn lemma_deltas_tagged(
    tools: Map<usize, ToolCallAccumView>,
    deltas: Seq<ChatToolCallDeltaView>,
)
    ensures
        untagged(tagged_deltas(tools, deltas)) == chat::tool_deltas_events(tools, deltas),
        calls_tagged(tagged_deltas(tools, deltas)),
    decreases deltas.len(),
{
    if deltas.len() == 0 {
        assert(untagged(tagged_deltas(tools, deltas)) =~= Seq::empty());
    } else {
        let front = deltas.drop_last();
        lemma_deltas_tagged(tools, front);
        let events = chat::tool_delta_events(chat::tool_deltas_tools(tools, front), deltas.last());
        lemma_tagged(events, Some(deltas.last().index));
        lemma_untagged_concat(
            tagged_deltas(tools, front),
            tagged(events, Some(deltas.last().index)),
        );
    }
}

proof fn lemma_done_tagged(tools: Map<usize, ToolCallAccumView>, bound: nat)
    requires
        bound <= usize::MAX + 1,
    ensures
        untagged(tagged_done_below(tools, bound)) == chat::done_events_below(tools, bound),
        calls_tagged(tagged_done_below(tools, bound)),
    decreases bound,
{
    if bound == 0 {
        assert(untagged(tagged_done_below(tools, bound)) =~= Seq::empty());
    } else {
        lemma_done_tagged(tools, (bound - 1) as nat);
        assert(untagged(tagged_done_below(tools, bound)) =~= chat::done_events_below(tools, bound));
    }
}

proof fn lemma_choices_tagged(
    state: TurnState,
    choices: Seq<ChatChoiceDeltaView>,
    message_id: Seq<char>,
)
    ensures
        untagged(tagged_choices(state, choices, message_id)) == chat::choices_step(
            state,
            choices,
            message_id,
        ).events,
        calls_tagged(tagged_choices(state, choices, message_id)),
    decreases choices.len(),
{
    if choices.len() == 0 {
        assert(untagged(tagged_choices(state, choices, message_id)) =~= Seq::empty());
    } else {
        let front = choices.drop_last();
        let choice = choices.last();
        lemma_choices_tagged(state, front, message_id);
        let before = chat::choices_step(state, front, message_id);
        let step = chat::choice_step(before.state, choice, message_id);
        let deltas = chat::choice_deltas(choice);
        let tools = chat::tool_deltas_tools(before.state.tools, deltas);
        let text = chat::text_events(
            before.state.message_announced,
            choice.delta.content,
            message_id,
        );
        let calls = tagged_deltas(before.state.tools, deltas);
        let done = if choice.finish_reason is Some {
            tagged_done(tools)
        } else {
            Seq::empty()
        };
        lemma_tagged(text, None);
        lemma_deltas_tagged(before.state.tools, deltas);
        lemma_done_tagged(tools, (usize::MAX + 1) as nat);
        lemma_untagged_concat(tagged(text, None), calls);
        lemma_untagged_concat(tagged(text, None) + calls, done);
        lemma_untagged_concat(
            tagged_choices(state, front, message_id),
            tagged_choice(before.state, choice, message_id),
        );
        assert(untagged(tagged_choice(before.state, choice, message_id)) =~= step.events);
    }
}

proof fn lemma_completion_tagged(stream: ChatStreamView)
    ensures
        untagged(tagged_completion(stream)) == lifecycle::sent_events(
            stream.completion_step().items,
        ),
        calls_tagged(tagged_completion(stream)),
{
    let events = chat::terminal_events(
        stream.turn,
        stream.response_id,
        stream.usage,
        stream.finish_reason,
        stream.response_id,
    );
    let message = if stream.turn.message_announced {
        seq![events[0]]
    } else {
        Seq::empty()
    };
    let done = tagged_done(stream.turn.tools);
    let completed = seq![events.last()];
    lifecycle::lemma_sent_events_ok(events);
    lemma_tagged(message, None);
    lemma_done_tagged(stream.turn.tools, (usize::MAX + 1) as nat);
    lemma_tagged(completed, None);
    lemma_untagged_concat(tagged(message, None), done);
    lemma_untagged_concat(tagged(message, None) + done, tagged(completed, None));
    assert(untagged(tagged_completion(stream)) =~= events);
}

/// The tagged events of a stream are the events that it sends, and those that
/// belong to a tool call have a tag.
pub proof fn law_tagged_events_are_sent(inputs: Seq<StreamInputView>)
    ensures
        untagged(tagged_run(inputs)) == lifecycle::sent_events(
            ChatStreamView::fresh().run(inputs).items,
        ),
        forall|i: int|
            0 <= i < tagged_run(inputs).len() && (#[trigger] tagged_run(inputs)[i]).0 is None
                ==> !is_call_event(tagged_run(inputs)[i].1),
    decreases inputs.len(),
{
    let start = ChatStreamView::fresh();
    if inputs.len() == 0 {
        assert(untagged(tagged_run(inputs)) =~= Seq::empty());
    } else {
        let front = inputs.drop_last();
        let input = inputs.last();
        law_tagged_events_are_sent(front);
        let before = start.run(front);
        if !before.done {
            let step = before.stream.step(input);
            let events = tagged_step(before.stream, input);
            lifecycle::lemma_sent_events_concat(before.items, step.items);
            lemma_untagged_concat(tagged_run(front), events);
            lemma_completion_tagged(before.stream);
            reveal_with_fuel(lifecycle::sent_events, 2);
            if let StreamInputView::Frame { chunk: Some(chunk), .. } = input {
                let response_id = before.stream.response_id_after(chunk);
                lemma_choices_tagged(before.stream.turn, chunk.choices, response_id);
                lifecycle::lemma_sent_events_ok(
                    chat::choices_step(before.stream.turn, chunk.choices, response_id).events,
                );
            }
            if events.len() == 0 {
                assert(untagged(events) =~= Seq::empty());
            }
            assert(untagged(events) =~= lifecycle::sent_events(step.items));
            assert(calls_tagged(tagged_run(front)));
            assert(calls_tagged(events));
        }
    }
}

/// Each tool call of a stream is announced at most once, without arguments, and
/// closed at most once, after its announcement and with the input that was sent for
/// it before. The input that is sent for it is what arrived for it; once the stream
/// has completed, a call that was announced has been closed.
pub proof fn law_call_lifecycle(inputs: Seq<StreamInputView>, index: usize)
    ensures
        ({
            let run = ChatStreamView::fresh().run(inputs);
            let trace = for_call(tagged_run(inputs), index);
            &&& is_call_trace(trace)
            &&& lifecycle::calls_added(trace) <= 1
            &&& lifecycle::calls_done(trace) <= 1
            &&& !run.done ==> tool_calls::input_of(trace) == tool_calls::arguments_for(
                tool_calls::inputs_deltas(inputs),
                index,
            )
            &&& run.done && run.items.last() is Ok ==> lifecycle::calls_done(trace)
                == lifecycle::calls_added(trace)
        }),
{
    lemma_run(inputs, index);
    if !ChatStreamView::fresh().run(inputs).done {
        tool_calls::law_arguments_add_up(inputs, index);
    }
}

/// Where the first fragment of a call has an id or a name, and no later one another
/// id, the announcement of the call is the first that is sent of it, and all that is
/// sent of it has one call id. Of other calls nothing is asked.
pub proof fn law_call_keeps_its_id(inputs: Seq<StreamInputView>, index: usize)
    requires
        is_identified_call(deltas_for(tool_calls::inputs_deltas(inputs), index)),
    ensures
        keeps_call_id(
            for_call(tagged_run(inputs), index),
            deltas_for(tool_calls::inputs_deltas(inputs), index),
            index,
        ),
{
    lemma_run(inputs, index);
}

} // verus!
