//! What holds of every Chat Completions stream: how it ends, and how the items
//! it announces relate to those it closes.

use crate::chat_response::{ChatChoiceDeltaView, ChatToolCallDeltaView, ChatUsage};
use crate::error::ApiErrorView;
use crate::models::{ContentItemView, ResponseEventView, ResponseItemView};
use crate::sse::chat;
use crate::sse::chat::{
    ChatStreamView, StreamInputView, StreamItemView, ToolCallAccumView, TurnState,
};
use crate::text;
use vstd::prelude::*;

verus! {

/// The number of elements for which `kind` holds.
pub open spec fn tally<A>(s: Seq<A>, kind: spec_fn(A) -> bool) -> nat
    decreases s.len(),
{
    if s.len() == 0 {
        0
    } else {
        tally(s.drop_last(), kind) + if kind(s.last()) {
            1nat
        } else {
            0nat
        }
    }
}

proof fn lemma_tally_concat<A>(a: Seq<A>, b: Seq<A>, kind: spec_fn(A) -> bool)
    ensures
        tally(a + b, kind) == tally(a, kind) + tally(b, kind),
    decreases b.len(),
{
    if b.len() == 0 {
        assert(a + b =~= a);
    } else {
        assert((a + b).drop_last() =~= a + b.drop_last());
        lemma_tally_concat(a, b.drop_last(), kind);
    }
}

proof fn lemma_tally_none<A>(s: Seq<A>, kind: spec_fn(A) -> bool)
    requires
        forall|i: int| 0 <= i < s.len() ==> !kind(#[trigger] s[i]),
    ensures
        tally(s, kind) == 0,
    decreases s.len(),
{
    if s.len() > 0 {
        assert forall|i: int| 0 <= i < s.drop_last().len() implies !kind(
            #[trigger] s.drop_last()[i],
        ) by {
            assert(s.drop_last()[i] == s[i]);
        }
        lemma_tally_none(s.drop_last(), kind);
    }
}

/// Whether an item ends its stream.
pub open spec fn is_terminal(item: StreamItemView) -> bool {
    match item {
        Ok(event) => is_completed(event),
        Err(_) => true,
    }
}

pub open spec fn is_completed(event: ResponseEventView) -> bool {
    event is Completed
}

pub(crate) proof fn lemma_done_events_kind(tools: Map<usize, ToolCallAccumView>, bound: nat)
    requires
        bound <= usize::MAX + 1,
    ensures
        forall|i: int|
            0 <= i < chat::done_events_below(tools, bound).len() ==> is_call_done(
                #[trigger] chat::done_events_below(tools, bound)[i],
            ),
    decreases bound,
{
    if bound > 0 {
        lemma_done_events_kind(tools, (bound - 1) as nat);
        let below = chat::done_events_below(tools, (bound - 1) as nat);
        let all = chat::done_events_below(tools, bound);
        assert forall|i: int| 0 <= i < all.len() implies is_call_done(#[trigger] all[i]) by {
            if i < below.len() {
                assert(all[i] == below[i]);
            }
        }
    }
}

/// Whether an event closes a tool call.
pub open spec fn is_call_done(event: ResponseEventView) -> bool {
    event matches ResponseEventView::OutputItemDone(item) && item is FunctionCall
}

/// Whether an event announces a tool call.
pub open spec fn is_call_added(event: ResponseEventView) -> bool {
    event matches ResponseEventView::OutputItemAdded(item) && item is FunctionCall
}

/// Whether an event is a fragment of a tool call's input.
pub open spec fn is_call_input(event: ResponseEventView) -> bool {
    event is ToolCallInputDelta
}

proof fn lemma_tool_deltas_events_kind(
    tools: Map<usize, ToolCallAccumView>,
    deltas: Seq<ChatToolCallDeltaView>,
)
    ensures
        forall|i: int|
            0 <= i < chat::tool_deltas_events(tools, deltas).len() ==> {
                let event = #[trigger] chat::tool_deltas_events(tools, deltas)[i];
                is_call_added(event) || is_call_input(event)
            },
    decreases deltas.len(),
{
    if deltas.len() > 0 {
        lemma_tool_deltas_events_kind(tools, deltas.drop_last());
    }
}

proof fn lemma_choices_never_complete(
    state: TurnState,
    choices: Seq<ChatChoiceDeltaView>,
    message_id: Seq<char>,
)
    ensures
        forall|i: int|
            0 <= i < chat::choices_step(state, choices, message_id).events.len()
                ==> !is_completed(
                #[trigger] chat::choices_step(state, choices, message_id).events[i],
            ),
    decreases choices.len(),
{
    if choices.len() > 0 {
        lemma_choices_never_complete(state, choices.drop_last(), message_id);
        let before = chat::choices_step(state, choices.drop_last(), message_id);
        let choice = choices.last();
        let deltas = chat::choice_deltas(choice);
        lemma_tool_deltas_events_kind(before.state.tools, deltas);
        lemma_done_events_kind(
            chat::tool_deltas_tools(before.state.tools, deltas),
            (usize::MAX + 1) as nat,
        );
    }
}

/// A stream ends once: until it ends no item is terminal, and when it ends the
/// last item is, a `Completed` or an error, and no other.
pub proof fn law_stream_ends_once(start: ChatStreamView, inputs: Seq<StreamInputView>)
    ensures
        ({
            let run = start.run(inputs);
            &&& run.done <==> run.items.len() > 0 && is_terminal(run.items.last())
            &&& forall|i: int|
                0 <= i < run.items.len() - 1 ==> !is_terminal(#[trigger] run.items[i])
        }),
    decreases inputs.len(),
{
    if inputs.len() > 0 {
        law_stream_ends_once(start, inputs.drop_last());
        let before = start.run(inputs.drop_last());
        if !before.done {
            lemma_step_ends_once(before.stream, inputs.last());
        }
    }
}

pub(crate) proof fn lemma_step_ends_once(stream: ChatStreamView, input: StreamInputView)
    ensures
        ({
            let step = stream.step(input);
            &&& step.done <==> step.items.len() > 0 && is_terminal(step.items.last())
            &&& forall|i: int|
                0 <= i < step.items.len() - 1 ==> !is_terminal(#[trigger] step.items[i])
        }),
{
    if let StreamInputView::Frame { chunk: Some(chunk), .. } = input {
        let response_id = stream.response_id_after(chunk);
        lemma_choices_never_complete(stream.turn, chunk.choices, response_id);
    }
    lemma_done_events_kind(stream.turn.tools, (usize::MAX + 1) as nat);
}

/// Nothing is sent after the end of a stream.
pub proof fn law_nothing_after_end(
    start: ChatStreamView,
    inputs: Seq<StreamInputView>,
    more: Seq<StreamInputView>,
)
    requires
        start.run(inputs).done,
    ensures
        start.run(inputs + more) == start.run(inputs),
    decreases more.len(),
{
    if more.len() == 0 {
        assert(inputs + more =~= inputs);
    } else {
        assert((inputs + more).drop_last() =~= inputs + more.drop_last());
        law_nothing_after_end(start, inputs, more.drop_last());
    }
}

/// The events among the items, in order.
pub open spec fn sent_events(items: Seq<StreamItemView>) -> Seq<ResponseEventView>
    decreases items.len(),
{
    if items.len() == 0 {
        Seq::empty()
    } else {
        match items.last() {
            Ok(event) => sent_events(items.drop_last()).push(event),
            Err(_) => sent_events(items.drop_last()),
        }
    }
}

pub(crate) proof fn lemma_sent_events_concat(a: Seq<StreamItemView>, b: Seq<StreamItemView>)
    ensures
        sent_events(a + b) == sent_events(a) + sent_events(b),
    decreases b.len(),
{
    if b.len() == 0 {
        assert(a + b =~= a);
        assert(sent_events(a) + sent_events(b) =~= sent_events(a));
    } else {
        assert((a + b).drop_last() =~= a + b.drop_last());
        lemma_sent_events_concat(a, b.drop_last());
        assert(sent_events(a + b) =~= sent_events(a) + sent_events(b));
    }
}

pub(crate) proof fn lemma_sent_events_ok(events: Seq<ResponseEventView>)
    ensures
        sent_events(chat::ok_items(events)) == events,
    decreases events.len(),
{
    if events.len() > 0 {
        lemma_sent_events_ok(events.drop_last());
        assert(chat::ok_items(events).drop_last() =~= chat::ok_items(events.drop_last()));
        assert(events.drop_last().push(events.last()) =~= events);
    } else {
        assert(sent_events(chat::ok_items(events)) =~= events);
    }
}

/// The number of announcements of tool calls.
pub open spec fn calls_added(events: Seq<ResponseEventView>) -> nat {
    tally(events, |event: ResponseEventView| is_call_added(event))
}

/// The number of closings of tool calls.
pub open spec fn calls_done(events: Seq<ResponseEventView>) -> nat {
    tally(events, |event: ResponseEventView| is_call_done(event))
}

/// The indices of the calls that have been announced.
pub open spec fn announced_calls(tools: Map<usize, ToolCallAccumView>) -> Set<usize> {
    tools.dom().filter(|index: usize| tools[index].announced)
}

/// The indices of the calls that have been closed.
pub open spec fn closed_calls(tools: Map<usize, ToolCallAccumView>) -> Set<usize> {
    tools.dom().filter(|index: usize| tools[index].finalized)
}

/// What every reachable table of tool calls satisfies: a call has been
/// announced exactly if it has an id or a name, and only announced calls have
/// been closed.
pub open spec fn calls_consistent(tools: Map<usize, ToolCallAccumView>) -> bool {
    &&& tools.dom().finite()
    &&& forall|index: usize|
        #[trigger] tools.contains_key(index) ==> {
            &&& tools[index].announced <==> tools[index].is_identified()
            &&& tools[index].finalized ==> tools[index].announced
        }
}

proof fn lemma_calls_concat(a: Seq<ResponseEventView>, b: Seq<ResponseEventView>)
    ensures
        calls_added(a + b) == calls_added(a) + calls_added(b),
        calls_done(a + b) == calls_done(a) + calls_done(b),
{
    lemma_tally_concat(a, b, |event: ResponseEventView| is_call_added(event));
    lemma_tally_concat(a, b, |event: ResponseEventView| is_call_done(event));
}

/// How a step from one table of calls to another accounts for its events.
pub open spec fn calls_accounted(
    before: Map<usize, ToolCallAccumView>,
    after: Map<usize, ToolCallAccumView>,
    events: Seq<ResponseEventView>,
) -> bool {
    &&& calls_consistent(after)
    &&& announced_calls(after).len() == announced_calls(before).len() + calls_added(events)
    &&& closed_calls(after).len() == closed_calls(before).len() + calls_done(events)
}

proof fn lemma_tool_delta_accounted(
    tools: Map<usize, ToolCallAccumView>,
    delta: ChatToolCallDeltaView,
)
    requires
        calls_consistent(tools),
    ensures
        calls_accounted(
            tools,
            chat::tool_delta_tools(tools, delta),
            chat::tool_delta_events(tools, delta),
        ),
{
    let after = chat::tool_delta_tools(tools, delta);
    let events = chat::tool_delta_events(tools, delta);
    let call = chat::merged_call(tools, delta);
    let index = delta.index;
    assert(closed_calls(after) =~= closed_calls(tools));
    reveal_with_fuel(tally, 3);
    lemma_tally_none(events, |event: ResponseEventView| is_call_done(event));
    if !call.announced && call.is_identified() {
        assert(announced_calls(after) =~= announced_calls(tools).insert(index));
        assert(!announced_calls(tools).contains(index));
        let added = call.added_event(index);
        assert(events[0] == added);
        if events.len() == 2 {
            assert(events.drop_last().drop_last() =~= Seq::empty());
        } else {
            assert(events.drop_last() =~= Seq::empty());
        }
    } else {
        assert(announced_calls(after) =~= announced_calls(tools));
        lemma_tally_none(events, |event: ResponseEventView| is_call_added(event));
    }
}

proof fn lemma_tool_deltas_accounted(
    tools: Map<usize, ToolCallAccumView>,
    deltas: Seq<ChatToolCallDeltaView>,
)
    requires
        calls_consistent(tools),
    ensures
        calls_accounted(
            tools,
            chat::tool_deltas_tools(tools, deltas),
            chat::tool_deltas_events(tools, deltas),
        ),
    decreases deltas.len(),
{
    if deltas.len() > 0 {
        lemma_tool_deltas_accounted(tools, deltas.drop_last());
        let before = chat::tool_deltas_tools(tools, deltas.drop_last());
        lemma_tool_delta_accounted(before, deltas.last());
        lemma_calls_concat(
            chat::tool_deltas_events(tools, deltas.drop_last()),
            chat::tool_delta_events(before, deltas.last()),
        );
    }
}

/// The indices under `bound` of the calls that are pending.
spec fn pending_below(tools: Map<usize, ToolCallAccumView>, bound: nat) -> Set<usize> {
    tools.dom().filter(|index: usize| index < bound && tools[index].is_pending())
}

proof fn lemma_done_events_count(tools: Map<usize, ToolCallAccumView>, bound: nat)
    requires
        tools.dom().finite(),
        bound <= usize::MAX + 1,
    ensures
        calls_done(chat::done_events_below(tools, bound)) == pending_below(tools, bound).len(),
    decreases bound,
{
    if bound == 0 {
        assert(pending_below(tools, bound) =~= Set::empty());
    } else {
        let index = (bound - 1) as usize;
        lemma_done_events_count(tools, (bound - 1) as nat);
        let below = chat::done_events_below(tools, (bound - 1) as nat);
        if tools.contains_key(index) && tools[index].is_pending() {
            assert(pending_below(tools, bound) =~= pending_below(tools, (bound - 1) as nat).insert(
                index,
            ));
            assert(below.push(tools[index].done_event(index)).drop_last() =~= below);
        } else {
            assert(pending_below(tools, bound) =~= pending_below(tools, (bound - 1) as nat));
        }
    }
}

proof fn lemma_settled_accounted(tools: Map<usize, ToolCallAccumView>)
    requires
        calls_consistent(tools),
    ensures
        calls_accounted(tools, chat::settled_tools(tools), chat::done_events(tools)),
        closed_calls(chat::settled_tools(tools)) == announced_calls(chat::settled_tools(tools)),
{
    let after = chat::settled_tools(tools);
    let events = chat::done_events(tools);
    let bound = (usize::MAX + 1) as nat;
    lemma_done_events_count(tools, bound);
    lemma_done_events_kind(tools, bound);
    lemma_tally_none(events, |event: ResponseEventView| is_call_added(event));
    assert(after.dom() =~= tools.dom());
    assert(announced_calls(after) =~= announced_calls(tools));
    let pending = pending_below(tools, bound);
    assert(closed_calls(after) =~= closed_calls(tools) + pending);
    assert(closed_calls(tools).disjoint(pending));
    vstd::set_lib::lemma_set_disjoint_lens(closed_calls(tools), pending);
    assert(closed_calls(after) =~= announced_calls(after));
}

proof fn lemma_text_events_no_calls(
    announced: bool,
    content: Option<Seq<char>>,
    message_id: Seq<char>,
)
    ensures
        calls_added(chat::text_events(announced, content, message_id)) == 0,
        calls_done(chat::text_events(announced, content, message_id)) == 0,
{
    let events = chat::text_events(announced, content, message_id);
    lemma_tally_none(events, |event: ResponseEventView| is_call_added(event));
    lemma_tally_none(events, |event: ResponseEventView| is_call_done(event));
}

proof fn lemma_choices_accounted(
    state: TurnState,
    choices: Seq<ChatChoiceDeltaView>,
    message_id: Seq<char>,
)
    requires
        calls_consistent(state.tools),
    ensures
        ({
            let step = chat::choices_step(state, choices, message_id);
            calls_accounted(state.tools, step.state.tools, step.events)
        }),
    decreases choices.len(),
{
    if choices.len() > 0 {
        lemma_choices_accounted(state, choices.drop_last(), message_id);
        let before = chat::choices_step(state, choices.drop_last(), message_id);
        let choice = choices.last();
        let step = chat::choice_step(before.state, choice, message_id);
        let deltas = chat::choice_deltas(choice);
        let text = chat::text_events(
            before.state.message_announced,
            choice.delta.content,
            message_id,
        );
        let calls = chat::tool_deltas_events(before.state.tools, deltas);
        let tools = chat::tool_deltas_tools(before.state.tools, deltas);
        lemma_text_events_no_calls(
            before.state.message_announced,
            choice.delta.content,
            message_id,
        );
        lemma_tool_deltas_accounted(before.state.tools, deltas);
        lemma_calls_concat(text, calls);
        lemma_settled_accounted(tools);
        lemma_calls_concat(text + calls, chat::done_events(tools));
        lemma_calls_concat(before.events, step.events);
    }
}

/// The calls of a stream are accounted for: as long as it runs, as many were
/// announced as its state knows announced, and as many closed as it knows
/// closed; once it has completed, every announced call has been closed, none
/// twice.
pub proof fn law_calls_closed_once(inputs: Seq<StreamInputView>)
    ensures
        ({
            let run = ChatStreamView::fresh().run(inputs);
            let events = sent_events(run.items);
            let tools = run.stream.turn.tools;
            &&& calls_consistent(tools)
            &&& calls_added(events) == announced_calls(tools).len()
            &&& calls_done(events) == closed_calls(tools).len()
            &&& run.done && run.items.last() is Ok ==> calls_done(events) == calls_added(events)
        }),
    decreases inputs.len(),
{
    let start = ChatStreamView::fresh();
    if inputs.len() == 0 {
        assert(announced_calls(start.turn.tools) =~= Set::empty());
        assert(closed_calls(start.turn.tools) =~= Set::empty());
    } else {
        law_calls_closed_once(inputs.drop_last());
        let before = start.run(inputs.drop_last());
        if !before.done {
            let input = inputs.last();
            let step = before.stream.step(input);
            lemma_step_accounted(before.stream, input);
            lemma_sent_events_concat(before.items, step.items);
            lemma_calls_concat(sent_events(before.items), sent_events(step.items));
            if step.items.len() > 0 {
                assert((before.items + step.items).last() == step.items.last());
            }
        }
    }
}

proof fn lemma_step_accounted(stream: ChatStreamView, input: StreamInputView)
    requires
        calls_consistent(stream.turn.tools),
    ensures
        ({
            let step = stream.step(input);
            let tools = step.stream.turn.tools;
            &&& calls_accounted(stream.turn.tools, tools, sent_events(step.items))
            &&& step.done ==> step.items.len() > 0
            &&& step.done && step.items.last() is Ok ==> closed_calls(tools) == announced_calls(
                tools,
            )
        }),
{
    reveal_with_fuel(sent_events, 2);
    reveal_with_fuel(tally, 2);
    let tools = stream.turn.tools;
    if let StreamInputView::Frame { chunk: Some(chunk), .. } = input {
        let response_id = stream.response_id_after(chunk);
        lemma_choices_accounted(stream.turn, chunk.choices, response_id);
        lemma_sent_events_ok(chat::choices_step(stream.turn, chunk.choices, response_id).events);
    }
    let events = chat::terminal_events(
        stream.turn,
        stream.response_id,
        stream.usage,
        stream.finish_reason,
        stream.response_id,
    );
    lemma_sent_events_ok(events);
    lemma_settled_accounted(tools);
    let done = chat::done_events(tools);
    let message = if stream.turn.message_announced {
        seq![events[0]]
    } else {
        Seq::empty()
    };
    let completed = seq![events.last()];
    assert(events =~= message + done + completed);
    lemma_tally_none(message, |event: ResponseEventView| is_call_added(event));
    lemma_tally_none(message, |event: ResponseEventView| is_call_done(event));
    lemma_tally_none(completed, |event: ResponseEventView| is_call_added(event));
    lemma_tally_none(completed, |event: ResponseEventView| is_call_done(event));
    lemma_calls_concat(message, done);
    lemma_calls_concat(message + done, completed);
}

/// The concatenation of the text fragments among the events.
pub open spec fn text_of(events: Seq<ResponseEventView>) -> Seq<char>
    decreases events.len(),
{
    if events.len() == 0 {
        Seq::empty()
    } else {
        match events.last() {
            ResponseEventView::OutputTextDelta(text) => text_of(events.drop_last()) + text,
            _ => text_of(events.drop_last()),
        }
    }
}

/// Whether an event announces a message.
pub open spec fn is_message_added(event: ResponseEventView) -> bool {
    event matches ResponseEventView::OutputItemAdded(item) && item is Message
}

/// Whether an event closes a message.
pub open spec fn is_message_done(event: ResponseEventView) -> bool {
    event matches ResponseEventView::OutputItemDone(item) && item is Message
}

/// The number of announcements of messages.
pub open spec fn messages_added(events: Seq<ResponseEventView>) -> nat {
    tally(events, |event: ResponseEventView| is_message_added(event))
}

/// The number of closings of messages.
pub open spec fn messages_done(events: Seq<ResponseEventView>) -> nat {
    tally(events, |event: ResponseEventView| is_message_done(event))
}

/// Whether every text fragment comes after a message was announced, be it
/// among the events or before them.
pub open spec fn text_follows_message(
    announced: bool,
    events: Seq<ResponseEventView>,
) -> bool {
    forall|i: int|
        0 <= i < events.len() && (#[trigger] events[i]) is OutputTextDelta ==> announced || exists|
            j: int,
        |
            0 <= j < i && is_message_added(#[trigger] events[j])
}

proof fn lemma_text_concat(a: Seq<ResponseEventView>, b: Seq<ResponseEventView>)
    ensures
        text_of(a + b) == text_of(a) + text_of(b),
    decreases b.len(),
{
    if b.len() == 0 {
        assert(a + b =~= a);
        assert(text_of(a) + text_of(b) =~= text_of(a));
    } else {
        assert((a + b).drop_last() =~= a + b.drop_last());
        lemma_text_concat(a, b.drop_last());
        assert(text_of(a + b) =~= text_of(a) + text_of(b));
    }
}

proof fn lemma_no_text(events: Seq<ResponseEventView>)
    requires
        forall|i: int| 0 <= i < events.len() ==> !((#[trigger] events[i]) is OutputTextDelta),
    ensures
        text_of(events) == Seq::<char>::empty(),
    decreases events.len(),
{
    if events.len() > 0 {
        assert forall|i: int| 0 <= i < events.drop_last().len() implies !((
        #[trigger] events.drop_last()[i]) is OutputTextDelta) by {
            assert(events.drop_last()[i] == events[i]);
        }
        lemma_no_text(events.drop_last());
    }
}

proof fn lemma_tally_witness<A>(s: Seq<A>, kind: spec_fn(A) -> bool)
    requires
        tally(s, kind) > 0,
    ensures
        exists|i: int| 0 <= i < s.len() && kind(#[trigger] s[i]),
    decreases s.len(),
{
    if kind(s.last()) {
        assert(kind(s[s.len() - 1]));
    } else {
        lemma_tally_witness(s.drop_last(), kind);
        let i = choose|i: int| 0 <= i < s.drop_last().len() && kind(#[trigger] s.drop_last()[i]);
        assert(kind(s[i]));
    }
}

/// How a step from one state of a turn to another accounts for its text.
pub open spec fn text_accounted(
    before: TurnState,
    after: TurnState,
    events: Seq<ResponseEventView>,
) -> bool {
    &&& after.text == before.text + text_of(events)
    &&& after.message_announced == (before.message_announced || text_of(events).len() > 0)
    &&& messages_added(events) == if after.message_announced && !before.message_announced {
        1nat
    } else {
        0nat
    }
    &&& messages_done(events) == 0
    &&& text_follows_message(before.message_announced, events)
}

proof fn lemma_text_accounted_concat(
    first: TurnState,
    second: TurnState,
    third: TurnState,
    a: Seq<ResponseEventView>,
    b: Seq<ResponseEventView>,
)
    requires
        text_accounted(first, second, a),
        text_accounted(second, third, b),
    ensures
        text_accounted(first, third, a + b),
{
    lemma_text_concat(a, b);
    lemma_tally_concat(a, b, |event: ResponseEventView| is_message_added(event));
    lemma_tally_concat(a, b, |event: ResponseEventView| is_message_done(event));
    assert(third.text =~= first.text + text_of(a + b));
    let announced = first.message_announced;
    let all = a + b;
    assert forall|i: int|
        0 <= i < all.len() && (#[trigger] all[i]) is OutputTextDelta implies announced || exists|
        j: int,
    |
        0 <= j < i && is_message_added(#[trigger] all[j]) by {
        if !announced {
            if i < a.len() {
                assert(a[i] is OutputTextDelta);
                let j = choose|j: int| 0 <= j < i && is_message_added(#[trigger] a[j]);
                assert(all[j] == a[j]);
            } else {
                assert(b[i - a.len()] is OutputTextDelta);
                if second.message_announced {
                    lemma_tally_witness(a, |event: ResponseEventView| is_message_added(event));
                    let j = choose|j: int| 0 <= j < a.len() && is_message_added(#[trigger] a[j]);
                    assert(all[j] == a[j]);
                } else {
                    let j = choose|j: int|
                        0 <= j < i - a.len() && is_message_added(#[trigger] b[j]);
                    assert(all[a.len() + j] == b[j]);
                }
            }
        }
    }
}

/// Events without text or messages keep the text of the turn.
proof fn lemma_quiet_accounted(
    before: TurnState,
    after: TurnState,
    events: Seq<ResponseEventView>,
)
    requires
        after.text == before.text,
        after.message_announced == before.message_announced,
        forall|i: int|
            0 <= i < events.len() ==> {
                let event = #[trigger] events[i];
                is_call_added(event) || is_call_input(event) || is_call_done(event)
            },
    ensures
        text_accounted(before, after, events),
{
    lemma_no_text(events);
    lemma_tally_none(events, |event: ResponseEventView| is_message_added(event));
    lemma_tally_none(events, |event: ResponseEventView| is_message_done(event));
    assert(after.text =~= before.text + text_of(events));
}

proof fn lemma_text_step_accounted(
    state: TurnState,
    content: Option<Seq<char>>,
    message_id: Seq<char>,
)
    ensures
        text_accounted(
            state,
            chat::text_state(state, content),
            chat::text_events(state.message_announced, content, message_id),
        ),
{
    let events = chat::text_events(state.message_announced, content, message_id);
    reveal_with_fuel(text_of, 3);
    reveal_with_fuel(tally, 3);
    if events.len() == 0 {
        lemma_quiet_accounted(state, state, events);
    } else {
        let text = content->0;
        let front = events.drop_last();
        assert(events.last() == ResponseEventView::OutputTextDelta(text));
        if state.message_announced {
            assert(front =~= Seq::empty());
        } else {
            assert(front =~= seq![events[0]]);
            assert(front.drop_last() =~= Seq::empty());
            assert(is_message_added(events[0]));
        }
        assert(text_of(events) =~= text);
        lemma_tally_none(events, |event: ResponseEventView| is_message_done(event));
    }
}

proof fn lemma_choice_text_accounted(
    state: TurnState,
    choice: ChatChoiceDeltaView,
    message_id: Seq<char>,
)
    ensures
        ({
            let step = chat::choice_step(state, choice, message_id);
            text_accounted(state, step.state, step.events)
        }),
{
    let step = chat::choice_step(state, choice, message_id);
    let deltas = chat::choice_deltas(choice);
    let text = chat::text_events(state.message_announced, choice.delta.content, message_id);
    let after_text = chat::text_state(state, choice.delta.content);
    let calls = chat::tool_deltas_events(state.tools, deltas);
    let tools = chat::tool_deltas_tools(state.tools, deltas);
    let done = if choice.finish_reason is Some {
        chat::done_events(tools)
    } else {
        Seq::empty()
    };
    lemma_text_step_accounted(state, choice.delta.content, message_id);
    lemma_tool_deltas_events_kind(state.tools, deltas);
    lemma_done_events_kind(tools, (usize::MAX + 1) as nat);
    lemma_quiet_accounted(after_text, step.state, calls + done);
    lemma_text_accounted_concat(state, after_text, step.state, text, calls + done);
    assert(step.events =~= text + (calls + done));
}

proof fn lemma_choices_text_accounted(
    state: TurnState,
    choices: Seq<ChatChoiceDeltaView>,
    message_id: Seq<char>,
)
    ensures
        ({
            let step = chat::choices_step(state, choices, message_id);
            text_accounted(state, step.state, step.events)
        }),
    decreases choices.len(),
{
    if choices.len() == 0 {
        lemma_quiet_accounted(state, state, Seq::empty());
    } else {
        lemma_choices_text_accounted(state, choices.drop_last(), message_id);
        let before = chat::choices_step(state, choices.drop_last(), message_id);
        lemma_choice_text_accounted(before.state, choices.last(), message_id);
        let step = chat::choice_step(before.state, choices.last(), message_id);
        lemma_text_accounted_concat(state, before.state, step.state, before.events, step.events);
    }
}

/// Whether the message that an event closes, if it closes one, is the assistant
/// message with the given text.
pub open spec fn closes_message_with(event: ResponseEventView, text: Seq<char>) -> bool {
    event matches ResponseEventView::OutputItemDone(item) ==> (item matches
        ResponseItemView::Message { role, content, .. } ==> role == "assistant"@ && content == seq![
        ContentItemView::OutputText { text },
    ])
}

/// The text of a stream arrives whole. It is announced by one message, which
/// precedes it, and there is no message without text; a completed stream closes
/// the message with the concatenation of all fragments.
pub proof fn law_text_arrives_whole(inputs: Seq<StreamInputView>)
    ensures
        ({
            let run = ChatStreamView::fresh().run(inputs);
            let events = sent_events(run.items);
            let text = text_of(events);
            &&& text_follows_message(false, events)
            &&& messages_added(events) == if text.len() > 0 {
                1nat
            } else {
                0nat
            }
            &&& !run.done ==> run.stream.turn.text == text && messages_done(events) == 0
            &&& run.done && run.items.last() is Ok ==> messages_done(events) == messages_added(
                events,
            )
            &&& forall|i: int|
                0 <= i < events.len() ==> closes_message_with(#[trigger] events[i], text)
        }),
{
    let start = ChatStreamView::fresh();
    lemma_run_text(inputs);
    let run = start.run(inputs);
    if !run.done {
        let events = sent_events(run.items);
        lemma_open_messages(events);
        assert(run.stream.turn.text =~= text_of(events));
    } else {
        let n = lemma_run_end(start, inputs);
        let inputs = inputs.take(n);
        let before = start.run(inputs.drop_last());
        let input = inputs.last();
        let step = before.stream.step(input);
        lemma_run_text(inputs.drop_last());
        lemma_sent_events_concat(before.items, step.items);
        let sent = sent_events(before.items);
        lemma_open_messages(sent);
        assert(before.stream.turn.text =~= text_of(sent));
        lemma_step_ends_once(before.stream, input);
        reveal_with_fuel(sent_events, 2);
        if step.items.last() is Err {
            assert(sent_events(step.items) =~= Seq::empty());
            assert(sent + sent_events(step.items) =~= sent);
        } else {
            lemma_completion_text(before.stream, sent);
            assert(step == before.stream.completion_step());
            assert((before.items + step.items).last() == step.items.last());
        }
    }
}

/// The number of inputs of a stream up to and with the one that ended it.
proof fn lemma_run_end(start: ChatStreamView, inputs: Seq<StreamInputView>) -> (n: int)
    requires
        start.run(inputs).done,
    ensures
        0 < n <= inputs.len(),
        start.run(inputs.take(n)) == start.run(inputs),
        !start.run(inputs.take(n).drop_last()).done,
    decreases inputs.len(),
{
    let before = start.run(inputs.drop_last());
    if before.done {
        let n = lemma_run_end(start, inputs.drop_last());
        assert(inputs.drop_last().take(n) =~= inputs.take(n));
        n
    } else {
        assert(inputs.take(inputs.len() as int) =~= inputs);
        inputs.len() as int
    }
}

/// As long as a stream runs, its text is accounted for from its start.
proof fn lemma_run_text(inputs: Seq<StreamInputView>)
    ensures
        ({
            let start = ChatStreamView::fresh();
            let run = start.run(inputs);
            !run.done ==> text_accounted(start.turn, run.stream.turn, sent_events(run.items))
        }),
    decreases inputs.len(),
{
    let start = ChatStreamView::fresh();
    if inputs.len() == 0 {
        lemma_quiet_accounted(start.turn, start.turn, Seq::empty());
    } else {
        lemma_run_text(inputs.drop_last());
        let before = start.run(inputs.drop_last());
        let step = before.stream.step(inputs.last());
        if !before.done && !step.done {
            lemma_sent_events_concat(before.items, step.items);
            lemma_step_text(before.stream, inputs.last());
            lemma_text_accounted_concat(
                start.turn,
                before.stream.turn,
                step.stream.turn,
                sent_events(before.items),
                sent_events(step.items),
            );
        }
    }
}

proof fn lemma_step_text(stream: ChatStreamView, input: StreamInputView)
    requires
        !stream.step(input).done,
    ensures
        text_accounted(
            stream.turn,
            stream.step(input).stream.turn,
            sent_events(stream.step(input).items),
        ),
{
    if let StreamInputView::Frame { chunk: Some(chunk), .. } = input {
        let response_id = stream.response_id_after(chunk);
        lemma_choices_text_accounted(stream.turn, chunk.choices, response_id);
        lemma_sent_events_ok(chat::choices_step(stream.turn, chunk.choices, response_id).events);
    } else {
        assert(sent_events(stream.step(input).items) =~= Seq::empty());
        lemma_quiet_accounted(stream.turn, stream.turn, Seq::empty());
    }
}

/// Where no message has been closed, no event closes one.
proof fn lemma_open_messages(events: Seq<ResponseEventView>)
    requires
        messages_done(events) == 0,
    ensures
        forall|i: int| 0 <= i < events.len() ==> !is_message_done(#[trigger] events[i]),
    decreases events.len(),
{
    if events.len() > 0 {
        lemma_open_messages(events.drop_last());
        assert forall|i: int| 0 <= i < events.len() implies !is_message_done(
            #[trigger] events[i],
        ) by {
            if i < events.len() - 1 {
                assert(events.drop_last()[i] == events[i]);
            }
        }
    }
}

/// What completing a stream adds to its text and messages.
proof fn lemma_completion_text(stream: ChatStreamView, sent: Seq<ResponseEventView>)
    requires
        text_accounted(ChatStreamView::fresh().turn, stream.turn, sent),
        stream.turn.text == text_of(sent),
    ensures
        ({
            let events = sent + sent_events(stream.completion_step().items);
            let text = text_of(sent);
            &&& text_of(events) == text
            &&& text_follows_message(false, events)
            &&& messages_added(events) == messages_added(sent)
            &&& messages_done(events) == messages_added(sent)
            &&& forall|i: int|
                0 <= i < events.len() ==> closes_message_with(#[trigger] events[i], text)
        }),
{
    let terminal = chat::terminal_events(
        stream.turn,
        stream.response_id,
        stream.usage,
        stream.finish_reason,
        stream.response_id,
    );
    lemma_sent_events_ok(terminal);
    let done = chat::done_events(stream.turn.tools);
    lemma_done_events_kind(stream.turn.tools, (usize::MAX + 1) as nat);
    let message = if stream.turn.message_announced {
        seq![terminal[0]]
    } else {
        Seq::empty()
    };
    let rest = done.push(terminal.last());
    assert(terminal =~= message + rest);
    let events = sent + terminal;
    lemma_no_text(terminal);
    lemma_text_concat(sent, terminal);
    assert(text_of(events) =~= text_of(sent));
    lemma_tally_concat(sent, terminal, |event: ResponseEventView| is_message_added(event));
    lemma_tally_none(terminal, |event: ResponseEventView| is_message_added(event));
    lemma_tally_concat(sent, terminal, |event: ResponseEventView| is_message_done(event));
    lemma_tally_concat(message, rest, |event: ResponseEventView| is_message_done(event));
    lemma_tally_none(rest, |event: ResponseEventView| is_message_done(event));
    reveal_with_fuel(tally, 2);
    if stream.turn.message_announced {
        assert(message.drop_last() =~= Seq::empty());
    }
    lemma_open_messages(sent);
    assert forall|i: int| 0 <= i < events.len() implies closes_message_with(
        #[trigger] events[i],
        text_of(sent),
    ) by {
        if i < sent.len() {
            assert(events[i] == sent[i]);
        } else {
            let event = terminal[i - sent.len()];
            if i - sent.len() >= message.len() {
                assert(event == rest[i - sent.len() - message.len()]);
            }
        }
    }
    assert forall|i: int| 0 <= i < events.len() && (#[trigger] events[i]) is OutputTextDelta implies
        exists|j: int| 0 <= j < i && is_message_added(#[trigger] events[j]) by {
        assert(i < sent.len());
        assert(sent[i] is OutputTextDelta);
        let j = choose|j: int| 0 <= j < i && is_message_added(#[trigger] sent[j]);
        assert(events[j] == sent[j]);
    }
}

/// The last id that is not empty among the chunks of a stream; empty where there
/// is none.
pub open spec fn last_id(inputs: Seq<StreamInputView>) -> Seq<char>
    decreases inputs.len(),
{
    if inputs.len() == 0 {
        Seq::empty()
    } else {
        match inputs.last() {
            StreamInputView::Frame { chunk: Some(chunk), .. } if chunk.id.len() > 0 => chunk.id,
            _ => last_id(inputs.drop_last()),
        }
    }
}

/// The last usage among the chunks of a stream.
pub open spec fn last_usage(inputs: Seq<StreamInputView>) -> Option<ChatUsage>
    decreases inputs.len(),
{
    if inputs.len() == 0 {
        None
    } else {
        match inputs.last() {
            StreamInputView::Frame { chunk: Some(chunk), .. } if chunk.usage is Some => chunk.usage,
            _ => last_usage(inputs.drop_last()),
        }
    }
}

/// The last `finish_reason` among choices.
pub open spec fn choices_reason(choices: Seq<ChatChoiceDeltaView>) -> Option<Seq<char>>
    decreases choices.len(),
{
    if choices.len() == 0 {
        None
    } else if choices.last().finish_reason is Some {
        choices.last().finish_reason
    } else {
        choices_reason(choices.drop_last())
    }
}

/// The last `finish_reason` among the chunks of a stream.
pub open spec fn last_reason(inputs: Seq<StreamInputView>) -> Option<Seq<char>>
    decreases inputs.len(),
{
    if inputs.len() == 0 {
        None
    } else {
        match inputs.last() {
            StreamInputView::Frame { chunk: Some(chunk), .. } if choices_reason(chunk.choices)
                is Some => choices_reason(chunk.choices),
            _ => last_reason(inputs.drop_last()),
        }
    }
}

proof fn lemma_choices_reason(
    state: TurnState,
    choices: Seq<ChatChoiceDeltaView>,
    message_id: Seq<char>,
)
    ensures
        chat::choices_step(state, choices, message_id).finish_reason == choices_reason(choices),
    decreases choices.len(),
{
    if choices.len() > 0 {
        lemma_choices_reason(state, choices.drop_last(), message_id);
    }
}

pub(crate) proof fn lemma_run_remembers(inputs: Seq<StreamInputView>)
    requires
        !ChatStreamView::fresh().run(inputs).done,
    ensures
        ({
            let stream = ChatStreamView::fresh().run(inputs).stream;
            &&& stream.response_id == last_id(inputs)
            &&& stream.usage == last_usage(inputs)
            &&& stream.finish_reason == last_reason(inputs)
        }),
    decreases inputs.len(),
{
    if inputs.len() > 0 {
        let start = ChatStreamView::fresh();
        lemma_run_remembers(inputs.drop_last());
        let before = start.run(inputs.drop_last());
        if let StreamInputView::Frame { chunk: Some(chunk), .. } = inputs.last() {
            let response_id = before.stream.response_id_after(chunk);
            lemma_choices_reason(before.stream.turn, chunk.choices, response_id);
        }
    }
}

/// The completion of a stream reports what the chunks said last: the id of the
/// response, the usage, and by the `finish_reason` whether the turn is over. It is
/// over unless the model waits for tool calls.
pub proof fn law_completion_reports(inputs: Seq<StreamInputView>, input: StreamInputView)
    requires
        !ChatStreamView::fresh().run(inputs).done,
        ChatStreamView::fresh().run(inputs.push(input)).done,
        ChatStreamView::fresh().run(inputs.push(input)).items.last() is Ok,
    ensures
        ChatStreamView::fresh().run(inputs.push(input)).items.last() == Ok::<
            ResponseEventView,
            ApiErrorView,
        >(
            ResponseEventView::Completed {
                response_id: last_id(inputs),
                token_usage: chat::token_usage_of(last_usage(inputs)),
                end_turn: Some(last_reason(inputs) != Some("tool_calls"@)),
            },
        ),
{
    let start = ChatStreamView::fresh();
    assert(inputs.push(input).drop_last() =~= inputs);
    lemma_run_remembers(inputs);
    let before = start.run(inputs);
    let step = before.stream.step(input);
    lemma_step_ends_once(before.stream, input);
    assert((before.items + step.items).last() == step.items.last());
    assert(step == before.stream.completion_step());
}

/// A stream completes at the sentinel, and where it is closed after a
/// `finish_reason`; closed without one, it has broken off.
pub proof fn law_completes_only_after_a_signal(inputs: Seq<StreamInputView>, input: StreamInputView)
    requires
        !ChatStreamView::fresh().run(inputs).done,
    ensures
        ({
            let run = ChatStreamView::fresh().run(inputs.push(input));
            run.done && run.items.last() is Ok <==> match input {
                StreamInputView::Frame { data, .. } => text::trim_chars(data) == "[DONE]"@,
                StreamInputView::Closed => last_reason(inputs) is Some,
                _ => false,
            }
        }),
{
    assert(inputs.push(input).drop_last() =~= inputs);
    lemma_run_remembers(inputs);
    let before = ChatStreamView::fresh().run(inputs);
    let step = before.stream.step(input);
    lemma_step_ends_once(before.stream, input);
    if step.items.len() > 0 {
        assert((before.items + step.items).last() == step.items.last());
    }
}

} // verus!
