//! Chat Completions stream processing.
//!
//! A stream is a sequence of `data:` frames. Each holds a chunk, or a provider
//! error, or the sentinel `[DONE]`.
//!
//! Tool calls arrive as argument fragments that belong together by their
//! `index`; the function's name and the call's id come with the first fragment
//! only. The state that is kept per index across chunks is what the full item
//! lifecycle is built from: an item is added, its input grows by deltas, and it
//! is done when the turn ends. Assistant text goes through the same lifecycle,
//! as one message.

use crate::chat_response;
use crate::chat_response::{
    map_chat_error_to_api_error, ChatChoiceDelta, ChatChoiceDeltaView, ChatCompletionChunk,
    ChatCompletionChunkView, ChatError, ChatErrorView, ChatToolCallDelta, ChatToolCallDeltaView,
    ChatUsage,
};
use crate::error::{ApiError, ApiErrorView};
use crate::models::{
    ContentItem, ContentItemView, ResponseEvent, ResponseEventView, ResponseItem, ResponseItemView,
    TokenUsage,
};
use crate::text;
use crate::text::{push_decimal, str_eq, trim};
use std::collections::BTreeMap;
use vstd::prelude::*;
use vstd::string::*;

verus! {

broadcast use vstd::std_specs::btree::group_btree_axioms;

/// What is known so far of one tool call.
#[derive(Debug)]
pub struct ToolCallAccum {
    pub id: Option<String>,
    pub name: Option<String>,
    pub arguments: String,
    /// Whether the item has been announced as added.
    pub announced: bool,
    /// Whether the item has been announced as done.
    pub finalized: bool,
}

pub struct ToolCallAccumView {
    pub id: Option<Seq<char>>,
    pub name: Option<Seq<char>>,
    pub arguments: Seq<char>,
    pub announced: bool,
    pub finalized: bool,
}

impl DeepView for ToolCallAccum {
    type V = ToolCallAccumView;

    open spec fn deep_view(&self) -> ToolCallAccumView {
        ToolCallAccumView {
            id: self.id.deep_view(),
            name: self.name.deep_view(),
            arguments: self.arguments@,
            announced: self.announced,
            finalized: self.finalized,
        }
    }
}

impl ToolCallAccumView {
    /// A call of which nothing has arrived.
    pub open spec fn fresh() -> Self {
        ToolCallAccumView {
            id: None,
            name: None,
            arguments: Seq::empty(),
            announced: false,
            finalized: false,
        }
    }

    /// The call after a fragment: an id or a name replaces what was known, an
    /// argument fragment is appended.
    pub open spec fn merge(self, delta: ChatToolCallDeltaView) -> Self {
        ToolCallAccumView {
            id: if delta.id is Some {
                delta.id
            } else {
                self.id
            },
            name: match delta.function {
                Some(function) if function.name is Some => function.name,
                _ => self.name,
            },
            arguments: self.arguments + argument_fragment(delta),
            ..self
        }
    }

    /// Whether the call has an id or a name.
    pub open spec fn is_identified(self) -> bool {
        self.id is Some || self.name is Some
    }

    /// Whether the call has been added and not yet done.
    pub open spec fn is_pending(self) -> bool {
        self.announced && !self.finalized
    }

    /// The call's id, or one made from its index.
    pub open spec fn call_id(self, index: usize) -> Seq<char> {
        match self.id {
            Some(id) => id,
            None => "tool_"@ + text::decimal(index as nat),
        }
    }

    /// The call as an item with the given arguments.
    pub open spec fn item(self, index: usize, arguments: Seq<char>) -> ResponseItemView {
        ResponseItemView::FunctionCall {
            id: None,
            name: match self.name {
                Some(name) => name,
                None => Seq::empty(),
            },
            namespace: None,
            arguments,
            call_id: self.call_id(index),
            internal_chat_message_metadata_passthrough: None,
        }
    }

    /// The event that announces the call.
    pub open spec fn added_event(self, index: usize) -> ResponseEventView {
        ResponseEventView::OutputItemAdded(self.item(index, Seq::empty()))
    }

    /// The event that closes the call, with all its arguments.
    pub open spec fn done_event(self, index: usize) -> ResponseEventView {
        ResponseEventView::OutputItemDone(self.item(index, self.arguments))
    }

    /// The call once it has been closed, if it was open.
    pub open spec fn settled(self) -> Self {
        ToolCallAccumView { finalized: self.finalized || self.announced, ..self }
    }
}

/// The argument fragment of a delta; empty where it has none.
pub open spec fn argument_fragment(delta: ChatToolCallDeltaView) -> Seq<char> {
    match delta.function {
        Some(function) => match function.arguments {
            Some(arguments) => arguments,
            None => Seq::empty(),
        },
        None => Seq::empty(),
    }
}

impl Default for ToolCallAccum {
    fn default() -> (r: Self)
        ensures
            r.deep_view() == ToolCallAccumView::fresh(),
    {
        ToolCallAccum {
            id: None,
            name: None,
            arguments: String::new(),
            announced: false,
            finalized: false,
        }
    }
}

/// The tool calls of a turn, by index.
pub open spec fn tools_view(tools: Map<usize, ToolCallAccum>) -> Map<usize, ToolCallAccumView> {
    tools.map_values(|accum: ToolCallAccum| accum.deep_view())
}

/// What a turn carries from one chunk to the next.
pub struct TurnState {
    pub tools: Map<usize, ToolCallAccumView>,
    /// The assistant text so far.
    pub text: Seq<char>,
    /// Whether the message has been announced as added.
    pub message_announced: bool,
}

/// A step of a turn: the state after it, the events it emits and the
/// `finish_reason` it saw.
pub struct TurnStep {
    pub state: TurnState,
    pub events: Seq<ResponseEventView>,
    pub finish_reason: Option<Seq<char>>,
}

/// The assistant message with the given id and content.
pub open spec fn message_item(id: Seq<char>, content: Seq<ContentItemView>) -> ResponseItemView {
    ResponseItemView::Message {
        id: Some(id),
        role: "assistant"@,
        content,
        phase: None,
        internal_chat_message_metadata_passthrough: None,
    }
}

/// The events of a text fragment: the message is announced before its first
/// text, empty fragments emit nothing.
pub open spec fn text_events(announced: bool, content: Option<Seq<char>>, message_id: Seq<char>) -> Seq<
    ResponseEventView,
> {
    match content {
        Some(content) if content.len() > 0 => {
            let delta = ResponseEventView::OutputTextDelta(content);
            if announced {
                seq![delta]
            } else {
                seq![
                    ResponseEventView::OutputItemAdded(message_item(message_id, Seq::empty())),
                    delta,
                ]
            }
        },
        _ => Seq::empty(),
    }
}

/// The state after a text fragment.
pub open spec fn text_state(state: TurnState, content: Option<Seq<char>>) -> TurnState {
    match content {
        Some(content) if content.len() > 0 => TurnState {
            text: state.text + content,
            message_announced: true,
            ..state
        },
        _ => state,
    }
}

/// The call that a fragment belongs to, the fragment merged into it.
pub open spec fn merged_call(
    tools: Map<usize, ToolCallAccumView>,
    delta: ChatToolCallDeltaView,
) -> ToolCallAccumView {
    let known = if tools.contains_key(delta.index) {
        tools[delta.index]
    } else {
        ToolCallAccumView::fresh()
    };
    known.merge(delta)
}

/// The tool calls after a fragment. A call is announced as soon as it has an
/// id or a name.
pub open spec fn tool_delta_tools(
    tools: Map<usize, ToolCallAccumView>,
    delta: ChatToolCallDeltaView,
) -> Map<usize, ToolCallAccumView> {
    let call = merged_call(tools, delta);
    tools.insert(
        delta.index,
        ToolCallAccumView { announced: call.announced || call.is_identified(), ..call },
    )
}

/// The events of a fragment: the announcement, where it is due, and the
/// argument fragment, where it is not empty.
pub open spec fn tool_delta_events(
    tools: Map<usize, ToolCallAccumView>,
    delta: ChatToolCallDeltaView,
) -> Seq<ResponseEventView> {
    let call = merged_call(tools, delta);
    let call_id = call.call_id(delta.index);
    let added = if !call.announced && call.is_identified() {
        seq![call.added_event(delta.index)]
    } else {
        Seq::empty()
    };
    let fragment = argument_fragment(delta);
    let input = if fragment.len() > 0 {
        seq![
            ResponseEventView::ToolCallInputDelta {
                item_id: call_id,
                call_id: Some(call_id),
                delta: fragment,
            },
        ]
    } else {
        Seq::empty()
    };
    added + input
}

/// The tool calls after several fragments.
pub open spec fn tool_deltas_tools(
    tools: Map<usize, ToolCallAccumView>,
    deltas: Seq<ChatToolCallDeltaView>,
) -> Map<usize, ToolCallAccumView>
    decreases deltas.len(),
{
    if deltas.len() == 0 {
        tools
    } else {
        tool_delta_tools(tool_deltas_tools(tools, deltas.drop_last()), deltas.last())
    }
}

/// The events of several fragments, in order.
pub open spec fn tool_deltas_events(
    tools: Map<usize, ToolCallAccumView>,
    deltas: Seq<ChatToolCallDeltaView>,
) -> Seq<ResponseEventView>
    decreases deltas.len(),
{
    if deltas.len() == 0 {
        Seq::empty()
    } else {
        tool_deltas_events(tools, deltas.drop_last()) + tool_delta_events(
            tool_deltas_tools(tools, deltas.drop_last()),
            deltas.last(),
        )
    }
}

/// The events that close the pending calls with an index under `bound`, in the
/// order of their indices.
pub open spec fn done_events_below(
    tools: Map<usize, ToolCallAccumView>,
    bound: nat,
) -> Seq<ResponseEventView>
    decreases bound,
{
    if bound == 0 {
        Seq::empty()
    } else {
        let index = (bound - 1) as usize;
        let below = done_events_below(tools, (bound - 1) as nat);
        if tools.contains_key(index) && tools[index].is_pending() {
            below.push(tools[index].done_event(index))
        } else {
            below
        }
    }
}

/// The events that close every pending call, in the order of their indices.
pub open spec fn done_events(tools: Map<usize, ToolCallAccumView>) -> Seq<ResponseEventView> {
    done_events_below(tools, (usize::MAX + 1) as nat)
}

/// The tool calls once every pending one has been closed.
pub open spec fn settled_tools(tools: Map<usize, ToolCallAccumView>) -> Map<
    usize,
    ToolCallAccumView,
> {
    tools.map_values(|call: ToolCallAccumView| call.settled())
}

/// The tool-call fragments of a choice.
pub open spec fn choice_deltas(choice: ChatChoiceDeltaView) -> Seq<ChatToolCallDeltaView> {
    match choice.delta.tool_calls {
        Some(deltas) => deltas,
        None => Seq::empty(),
    }
}

/// One choice of a chunk: its text, its tool calls, and, where it carries a
/// `finish_reason`, the closing of all pending calls.
pub open spec fn choice_step(
    state: TurnState,
    choice: ChatChoiceDeltaView,
    message_id: Seq<char>,
) -> TurnStep {
    let after_text = text_state(state, choice.delta.content);
    let deltas = choice_deltas(choice);
    let tools = tool_deltas_tools(state.tools, deltas);
    let events = text_events(state.message_announced, choice.delta.content, message_id)
        + tool_deltas_events(state.tools, deltas);
    if choice.finish_reason is Some {
        TurnStep {
            state: TurnState { tools: settled_tools(tools), ..after_text },
            events: events + done_events(tools),
            finish_reason: choice.finish_reason,
        }
    } else {
        TurnStep { state: TurnState { tools, ..after_text }, events, finish_reason: None }
    }
}

/// All choices of a chunk, in order; the last `finish_reason` counts.
pub open spec fn choices_step(
    state: TurnState,
    choices: Seq<ChatChoiceDeltaView>,
    message_id: Seq<char>,
) -> TurnStep
    decreases choices.len(),
{
    if choices.len() == 0 {
        TurnStep { state, events: Seq::empty(), finish_reason: None }
    } else {
        let before = choices_step(state, choices.drop_last(), message_id);
        let step = choice_step(before.state, choices.last(), message_id);
        TurnStep {
            state: step.state,
            events: before.events + step.events,
            finish_reason: if step.finish_reason is Some {
                step.finish_reason
            } else {
                before.finish_reason
            },
        }
    }
}

/// Appends an event.
fn push_event(events: &mut Vec<ResponseEvent>, event: ResponseEvent)
    ensures
        final(events).deep_view() == old(events).deep_view().push(event.deep_view()),
{
    events.push(event);
    assert(events.deep_view() =~= old(events).deep_view().push(event.deep_view()));
}

/// The id of a call, or one made from its index.
fn call_id_of(accum: &ToolCallAccum, index: usize) -> (r: String)
    ensures
        r@ == accum.deep_view().call_id(index),
{
    match &accum.id {
        Some(id) => id.clone(),
        None => {
            let mut call_id = "tool_".to_string();
            push_decimal(&mut call_id, index);
            call_id
        },
    }
}

/// A call as an item with the given arguments. Every tool of Chat Completions
/// is a function, so every call is a function call.
fn call_item(accum: &ToolCallAccum, index: usize, arguments: String) -> (r: ResponseItem)
    ensures
        r.deep_view() == accum.deep_view().item(index, arguments@),
{
    let name = match &accum.name {
        Some(name) => name.clone(),
        None => String::new(),
    };
    ResponseItem::FunctionCall {
        id: None,
        name,
        namespace: None,
        arguments,
        call_id: call_id_of(accum, index),
        internal_chat_message_metadata_passthrough: None,
    }
}

/// Takes in one tool-call fragment.
fn apply_tool_delta(
    tool_state: &mut BTreeMap<usize, ToolCallAccum>,
    delta: &ChatToolCallDelta,
    events: &mut Vec<ResponseEvent>,
)
    ensures
        tools_view(final(tool_state)@) == tool_delta_tools(
            tools_view(old(tool_state)@),
            delta.deep_view(),
        ),
        final(events).deep_view() == old(events).deep_view() + tool_delta_events(
            tools_view(old(tool_state)@),
            delta.deep_view(),
        ),
{
    let ghost tools = tools_view(tool_state@);
    let ghost emitted = events.deep_view();
    let mut accum = match tool_state.remove(&delta.index) {
        Some(accum) => accum,
        None => ToolCallAccum::default(),
    };
    if let Some(id) = &delta.id {
        accum.id = Some(id.clone());
    }
    if let Some(function) = &delta.function {
        if let Some(name) = &function.name {
            accum.name = Some(name.clone());
        }
        if let Some(arguments) = &function.arguments {
            accum.arguments.append(arguments.as_str());
        }
    }
    let ghost call = merged_call(tools, delta.deep_view());
    assert(accum.deep_view() == call) by {
        assert(accum.arguments@ =~= call.arguments);
    }
    let call_id = call_id_of(&accum, delta.index);
    if !accum.announced && (accum.id.is_some() || accum.name.is_some()) {
        let item = call_item(&accum, delta.index, String::new());
        push_event(events, ResponseEvent::OutputItemAdded(item));
        accum.announced = true;
    }
    if let Some(function) = &delta.function {
        if let Some(arguments) = &function.arguments {
            if !arguments.as_str().is_empty() {
                push_event(
                    events,
                    ResponseEvent::ToolCallInputDelta {
                        item_id: call_id.clone(),
                        call_id: Some(call_id),
                        delta: arguments.clone(),
                    },
                );
            }
        }
    }
    assert(events.deep_view() =~= emitted + tool_delta_events(tools, delta.deep_view()));
    tool_state.insert(delta.index, accum);
    assert(tools_view(tool_state@) =~= tool_delta_tools(tools, delta.deep_view()));
}

/// Keys that a map yields in increasing order are numbers in ascending order.
proof fn lemma_increasing_ascends(keys: Seq<usize>)
    requires
        vstd::laws_cmp::obeys_cmp::<usize>() ==> vstd::std_specs::btree::increasing_seq(keys),
    ensures
        forall|i: int, j: int| 0 <= i < j < keys.len() ==> keys[i] < keys[j],
{
    broadcast use vstd::laws_cmp::group_laws_cmp;

    vstd::std_specs::btree::axiom_increasing_seq_meaning(keys);
    assert forall|i: int, j: int| 0 <= i < j < keys.len() implies keys[i] < keys[j] by {
        assert(vstd::std_specs::cmp::OrdSpec::cmp_spec(&keys[i], &keys[j]) is Less);
    }
}

/// The indices of the tool calls, in ascending order.
fn ascending_indices(tool_state: &BTreeMap<usize, ToolCallAccum>) -> (r: Vec<usize>)
    ensures
        forall|i: int, j: int| 0 <= i < j < r@.len() ==> r@[i] < r@[j],
        forall|k: usize| tool_state@.contains_key(k) <==> r@.contains(k),
{
    let mut indices: Vec<usize> = Vec::new();
    let iter = tool_state.iter();
    let ghost pairs = vstd::std_specs::iter::IteratorSpec::remaining(&iter);
    let ghost keys = pairs.map_values(|kv: (&usize, &ToolCallAccum)| *kv.0);
    for (index, accum) in it: iter
        invariant
            it.seq() == pairs,
            keys == pairs.map_values(|kv: (&usize, &ToolCallAccum)| *kv.0),
            indices@ == keys.take(it.index() as int),
    {
        indices.push(*index);
        assert(indices@ =~= keys.take(it.index() + 1));
    }
    assert(indices@ =~= keys);
    proof {
        lemma_increasing_ascends(keys);
        assert forall|k: usize| tool_state@.contains_key(k) implies keys.contains(k) by {
            let i = pairs.index_of((&k, &tool_state@[k]));
            assert(keys[i] == k);
        }
        assert forall|k: usize| keys.contains(k) implies tool_state@.contains_key(k) by {
            let i = keys.index_of(k);
            assert(tool_state@.contains_key(*pairs[i].0));
        }
    }
    indices
}

/// Where no call between two bounds is pending, the bounds close the same calls.
proof fn lemma_done_events_skip(tools: Map<usize, ToolCallAccumView>, low: nat, high: nat)
    requires
        low <= high <= usize::MAX + 1,
        forall|k: usize| low <= k < high && #[trigger] tools.contains_key(k) ==> !tools[k].is_pending(),
    ensures
        done_events_below(tools, high) == done_events_below(tools, low),
    decreases high,
{
    if low < high {
        lemma_done_events_skip(tools, low, (high - 1) as nat);
    }
}

/// Closes every pending call, so that the consumer queues it for execution.
fn close_pending(tool_state: &mut BTreeMap<usize, ToolCallAccum>, events: &mut Vec<ResponseEvent>)
    ensures
        tools_view(final(tool_state)@) == settled_tools(tools_view(old(tool_state)@)),
        final(events).deep_view() == old(events).deep_view() + done_events(
            tools_view(old(tool_state)@),
        ),
{
    let ghost tools = tools_view(tool_state@);
    let ghost emitted = events.deep_view();
    let indices = ascending_indices(tool_state);
    assert forall|a: int| 0 <= a < indices@.len() implies #[trigger] tool_state@.contains_key(
        indices@[a],
    ) by {
        assert(indices@.contains(indices@[a]));
    }
    let ghost mut bound: nat = 0;
    let mut i: usize = 0;
    while i < indices.len()
        invariant
            i <= indices@.len(),
            forall|a: int, b: int| 0 <= a < b < indices@.len() ==> indices@[a] < indices@[b],
            forall|k: usize| tools.contains_key(k) <==> indices@.contains(k),
            tool_state@.dom() == tools.dom(),
            forall|a: int|
                0 <= a < i ==> tool_state@[#[trigger] indices@[a]].deep_view()
                    == tools[indices@[a]].settled(),
            forall|a: int|
                i <= a < indices@.len() ==> tool_state@[#[trigger] indices@[a]].deep_view()
                    == tools[indices@[a]],
            bound == if i == 0 { 0 } else { (indices@[i - 1] + 1) as nat },
            events.deep_view() == emitted + done_events_below(tools, bound),
        decreases indices.len() - i,
    {
        let index: usize = indices[i];
        assert(indices@.contains(index));
        proof {
            assert forall|k: usize| bound <= k < index && #[trigger] tools.contains_key(k) implies
                !tools[k].is_pending() by {
                let a = indices@.index_of(k);
                assert(indices@[a] == k);
            }
            lemma_done_events_skip(tools, bound, index as nat);
        }
        if let Some(mut accum) = tool_state.remove(&index) {
            if accum.announced && !accum.finalized {
                let item = call_item(&accum, index, accum.arguments.clone());
                push_event(events, ResponseEvent::OutputItemDone(item));
                accum.finalized = true;
            }
            tool_state.insert(index, accum);
        }
        proof {
            bound = (index + 1) as nat;
            assert(events.deep_view() =~= emitted + done_events_below(tools, bound));
            assert(tool_state@.dom() =~= tools.dom());
        }
        i = i + 1;
    }
    proof {
        assert forall|k: usize|
            bound <= k < usize::MAX + 1 && #[trigger] tools.contains_key(k) implies
            !tools[k].is_pending() by {
            let a = indices@.index_of(k);
            assert(indices@[a] == k);
        }
        lemma_done_events_skip(tools, bound, (usize::MAX + 1) as nat);
        assert forall|k: usize| tools.contains_key(k) implies tools_view(tool_state@)[k]
            == tools[k].settled() by {
            let a = indices@.index_of(k);
            assert(indices@[a] == k);
        }
        assert(tools_view(tool_state@) =~= settled_tools(tools));
    }
}

/// Takes in the tool-call fragments of one choice.
fn apply_tool_deltas(
    tool_state: &mut BTreeMap<usize, ToolCallAccum>,
    deltas: &Vec<ChatToolCallDelta>,
    events: &mut Vec<ResponseEvent>,
)
    ensures
        tools_view(final(tool_state)@) == tool_deltas_tools(
            tools_view(old(tool_state)@),
            deltas.deep_view(),
        ),
        final(events).deep_view() == old(events).deep_view() + tool_deltas_events(
            tools_view(old(tool_state)@),
            deltas.deep_view(),
        ),
{
    let ghost tools = tools_view(tool_state@);
    let ghost emitted = events.deep_view();
    let ghost all = deltas.deep_view();
    assert(events.deep_view() =~= emitted + tool_deltas_events(tools, all.take(0)));
    let mut i: usize = 0;
    while i < deltas.len()
        invariant
            i <= deltas@.len(),
            all == deltas.deep_view(),
            tools_view(tool_state@) == tool_deltas_tools(tools, all.take(i as int)),
            events.deep_view() == emitted + tool_deltas_events(tools, all.take(i as int)),
        decreases deltas.len() - i,
    {
        apply_tool_delta(tool_state, &deltas[i], events);
        proof {
            assert(all.take(i + 1).drop_last() =~= all.take(i as int));
            assert(all.take(i + 1).last() == deltas@[i as int].deep_view());
            assert(events.deep_view() =~= emitted + tool_deltas_events(tools, all.take(i + 1)));
        }
        i = i + 1;
    }
    assert(all.take(i as int) =~= all);
}

/// The state of a turn as its parts hold it.
pub open spec fn turn_state(
    tools: Map<usize, ToolCallAccum>,
    text: Seq<char>,
    message_announced: bool,
) -> TurnState {
    TurnState { tools: tools_view(tools), text, message_announced }
}

/// Takes in one choice of a chunk.
fn apply_choice(
    choice: &ChatChoiceDelta,
    tool_state: &mut BTreeMap<usize, ToolCallAccum>,
    text_accum: &mut String,
    message_announced: &mut bool,
    message_id: &str,
    events: &mut Vec<ResponseEvent>,
) -> (finish_reason: Option<String>)
    ensures
        ({
            let step = choice_step(
                turn_state(old(tool_state)@, old(text_accum)@, *old(message_announced)),
                choice.deep_view(),
                message_id@,
            );
            &&& turn_state(final(tool_state)@, final(text_accum)@, *final(message_announced))
                == step.state
            &&& final(events).deep_view() == old(events).deep_view() + step.events
            &&& finish_reason.deep_view() == step.finish_reason
        }),
{
    let ghost emitted = events.deep_view();
    let ghost tools = tools_view(tool_state@);
    // The consumer accepts text only once the message it belongs to has been
    // added, so the first text is preceded by the message.
    if let Some(content) = &choice.delta.content {
        if !content.as_str().is_empty() {
            if !*message_announced {
                let item = ResponseItem::Message {
                    id: Some(message_id.to_string()),
                    role: "assistant".to_string(),
                    content: Vec::new(),
                    phase: None,
                    internal_chat_message_metadata_passthrough: None,
                };
                assert(item.deep_view() == message_item(message_id@, Seq::empty())) by {
                    assert(item->content.deep_view() =~= Seq::empty());
                }
                push_event(events, ResponseEvent::OutputItemAdded(item));
                *message_announced = true;
            }
            text_accum.append(content.as_str());
            push_event(events, ResponseEvent::OutputTextDelta(content.clone()));
        }
    }
    assert(events.deep_view() =~= emitted + text_events(
        *old(message_announced),
        choice.delta.content.deep_view(),
        message_id@,
    ));
    let ghost after_text = events.deep_view();
    if let Some(deltas) = &choice.delta.tool_calls {
        apply_tool_deltas(tool_state, deltas, events);
    }
    let ghost deltas = choice_deltas(choice.deep_view());
    assert(tools_view(tool_state@) == tool_deltas_tools(tools, deltas));
    assert(events.deep_view() =~= after_text + tool_deltas_events(tools, deltas));
    match &choice.finish_reason {
        Some(reason) => {
            close_pending(tool_state, events);
            Some(reason.clone())
        },
        None => None,
    }
}

/// Converts one chunk into events and carries the state of the turn on.
///
/// Returns the events and the `finish_reason` of the chunk. The `Completed`
/// event comes separately (see [`build_terminal_events`]), so that it can carry
/// usage that arrives later and is emitted once.
pub fn chunk_to_events(
    chunk: &ChatCompletionChunk,
    tool_state: &mut BTreeMap<usize, ToolCallAccum>,
    text_accum: &mut String,
    message_announced: &mut bool,
    message_id: &str,
) -> (r: (Vec<ResponseEvent>, Option<String>))
    ensures
        ({
            let step = choices_step(
                turn_state(old(tool_state)@, old(text_accum)@, *old(message_announced)),
                chunk.deep_view().choices,
                message_id@,
            );
            &&& turn_state(final(tool_state)@, final(text_accum)@, *final(message_announced))
                == step.state
            &&& r.0.deep_view() == step.events
            &&& r.1.deep_view() == step.finish_reason
        }),
{
    let mut events: Vec<ResponseEvent> = Vec::new();
    let mut finish_reason: Option<String> = None;
    let ghost start = turn_state(tool_state@, text_accum@, *message_announced);
    let ghost all = chunk.choices.deep_view();
    assert(events.deep_view() =~= choices_step(start, all.take(0), message_id@).events);
    let mut i: usize = 0;
    while i < chunk.choices.len()
        invariant
            i <= chunk.choices@.len(),
            all == chunk.choices.deep_view(),
            ({
                let step = choices_step(start, all.take(i as int), message_id@);
                &&& turn_state(tool_state@, text_accum@, *message_announced) == step.state
                &&& events.deep_view() == step.events
                &&& finish_reason.deep_view() == step.finish_reason
            }),
        decreases chunk.choices.len() - i,
    {
        let reason = apply_choice(
            &chunk.choices[i],
            tool_state,
            text_accum,
            message_announced,
            message_id,
            &mut events,
        );
        if reason.is_some() {
            finish_reason = reason;
        }
        proof {
            assert(all.take(i + 1).drop_last() =~= all.take(i as int));
            assert(all.take(i + 1).last() == chunk.choices@[i as int].deep_view());
        }
        i = i + 1;
    }
    assert(all.take(i as int) =~= all);
    (events, finish_reason)
}

/// Whether a turn that ended for the given reason is over. A turn that ended in
/// tool calls is not: the tools have to run first.
pub open spec fn ends_turn(finish_reason: Option<Seq<char>>) -> bool {
    finish_reason != Some("tool_calls"@)
}

/// Maps the `finish_reason` of a turn to the `end_turn` flag of its `Completed`
/// event.
pub fn finish_reason_to_end_turn(finish_reason: Option<&str>) -> (r: Option<bool>)
    ensures
        r == Some(ends_turn(finish_reason.deep_view())),
{
    match finish_reason {
        Some(reason) => {
            if str_eq(reason, "tool_calls") {
                Some(false)
            } else {
                Some(true)
            }
        },
        None => Some(true),
    }
}

/// The 64-bit signed number with the bits of `n`.
pub open spec fn signed(n: u64) -> int {
    if n <= i64::MAX {
        n as int
    } else {
        n - 0x1_0000_0000_0000_0000
    }
}

/// Reads the bits of `n` as a signed number.
fn to_signed(n: u64) -> (r: i64)
    ensures
        r == signed(n),
{
    assert(n <= 0x7fff_ffff_ffff_ffff ==> n as i64 == n) by (bit_vector);
    assert(n > 0x7fff_ffff_ffff_ffff ==> n as i64 == n - 0x1_0000_0000_0000_0000) by (bit_vector);
    #[verifier::truncate]
    let r: i64 = n as i64;
    r
}

/// The token counts that the provider's usage stands for.
pub open spec fn token_usage_of(usage: Option<ChatUsage>) -> Option<TokenUsage> {
    match usage {
        Some(usage) => Some(
            TokenUsage {
                input_tokens: signed(usage.prompt_tokens) as i64,
                cached_input_tokens: 0,
                output_tokens: signed(usage.completion_tokens) as i64,
                reasoning_output_tokens: 0,
                total_tokens: signed(usage.total_tokens) as i64,
            },
        ),
        None => None,
    }
}

/// The events that end a turn: the message, where it was announced, with its
/// whole text, then the pending calls, then `Completed`.
pub open spec fn terminal_events(
    state: TurnState,
    response_id: Seq<char>,
    usage: Option<ChatUsage>,
    finish_reason: Option<Seq<char>>,
    message_id: Seq<char>,
) -> Seq<ResponseEventView> {
    let message = if state.message_announced {
        seq![
            ResponseEventView::OutputItemDone(
                message_item(message_id, seq![ContentItemView::OutputText { text: state.text }]),
            ),
        ]
    } else {
        Seq::empty()
    };
    (message + done_events(state.tools)).push(
        ResponseEventView::Completed {
            response_id,
            token_usage: token_usage_of(usage),
            end_turn: Some(ends_turn(finish_reason)),
        },
    )
}

/// The state of a turn after its end: all calls are closed, and the text of an
/// announced message has gone into its event.
pub open spec fn terminal_state(state: TurnState) -> TurnState {
    TurnState {
        tools: settled_tools(state.tools),
        text: if state.message_announced {
            Seq::empty()
        } else {
            state.text
        },
        ..state
    }
}

/// Builds the events that end a turn. A provider that sends no `finish_reason`
/// leaves calls pending; these are closed here. `Completed` comes last and once.
pub fn build_terminal_events(
    response_id: &str,
    usage: Option<ChatUsage>,
    finish_reason: &Option<String>,
    tool_state: &mut BTreeMap<usize, ToolCallAccum>,
    text_accum: &mut String,
    message_announced: bool,
    message_id: &str,
) -> (events: Vec<ResponseEvent>)
    ensures
        ({
            let state = turn_state(old(tool_state)@, old(text_accum)@, message_announced);
            &&& events.deep_view() == terminal_events(
                state,
                response_id@,
                usage,
                finish_reason.deep_view(),
                message_id@,
            )
            &&& turn_state(final(tool_state)@, final(text_accum)@, message_announced)
                == terminal_state(state)
        }),
{
    let mut events: Vec<ResponseEvent> = Vec::new();
    assert(events.deep_view() =~= Seq::empty());
    if message_announced {
        let mut text = String::new();
        std::mem::swap(&mut text, text_accum);
        let mut content: Vec<ContentItem> = Vec::new();
        content.push(ContentItem::OutputText { text });
        assert(content.deep_view() =~= seq![ContentItemView::OutputText { text: text@ }]);
        push_event(
            &mut events,
            ResponseEvent::OutputItemDone(
                ResponseItem::Message {
                    id: Some(message_id.to_string()),
                    role: "assistant".to_string(),
                    content,
                    phase: None,
                    internal_chat_message_metadata_passthrough: None,
                },
            ),
        );
    }
    close_pending(tool_state, &mut events);
    let token_usage = match usage {
        Some(usage) => Some(
            TokenUsage {
                input_tokens: to_signed(usage.prompt_tokens),
                cached_input_tokens: 0,
                output_tokens: to_signed(usage.completion_tokens),
                reasoning_output_tokens: 0,
                total_tokens: to_signed(usage.total_tokens),
            },
        ),
        None => None,
    };
    let reason: Option<&str> = match finish_reason {
        Some(reason) => Some(reason.as_str()),
        None => None,
    };
    push_event(
        &mut events,
        ResponseEvent::Completed {
            response_id: response_id.to_string(),
            token_usage,
            end_turn: finish_reason_to_end_turn(reason),
        },
    );
    assert(events.deep_view() =~= terminal_events(
        turn_state(old(tool_state)@, old(text_accum)@, message_announced),
        response_id@,
        usage,
        finish_reason.deep_view(),
        message_id@,
    ));
    events
}

/// What the transport delivers next.
pub enum StreamInput {
    /// A data frame, with what it parses to: a chunk, or else an error object,
    /// or neither.
    Frame { data: String, chunk: Option<ChatCompletionChunk>, error: Option<ChatError> },
    /// The transport failed, with its message.
    Failed(String),
    /// The stream was closed.
    Closed,
    /// Nothing arrived in time.
    IdleTimeout,
}

pub enum StreamInputView {
    Frame {
        data: Seq<char>,
        chunk: Option<ChatCompletionChunkView>,
        error: Option<ChatErrorView>,
    },
    Failed(Seq<char>),
    Closed,
    IdleTimeout,
}

impl DeepView for StreamInput {
    type V = StreamInputView;

    open spec fn deep_view(&self) -> StreamInputView {
        match self {
            StreamInput::Frame { data, chunk, error } => StreamInputView::Frame {
                data: data@,
                chunk: chunk.deep_view(),
                error: error.deep_view(),
            },
            StreamInput::Failed(message) => StreamInputView::Failed(message@),
            StreamInput::Closed => StreamInputView::Closed,
            StreamInput::IdleTimeout => StreamInputView::IdleTimeout,
        }
    }
}

/// What the consumer of a stream receives at a time.
pub type StreamItem = Result<ResponseEvent, ApiError>;

pub type StreamItemView = Result<ResponseEventView, ApiErrorView>;

/// An item as its parts describe it.
pub open spec fn item_view(item: StreamItem) -> StreamItemView {
    match item {
        Ok(event) => Ok(event.deep_view()),
        Err(error) => Err(error.deep_view()),
    }
}

/// Items as their parts describe them.
pub open spec fn items_view(items: Seq<StreamItem>) -> Seq<StreamItemView> {
    items.map_values(|item: StreamItem| item_view(item))
}

/// Events as items.
pub open spec fn ok_items(events: Seq<ResponseEventView>) -> Seq<StreamItemView> {
    events.map_values(|event: ResponseEventView| Ok::<ResponseEventView, ApiErrorView>(event))
}

/// What to do after an input: send the items in order, and stop once `done`.
pub struct StreamOutput {
    pub items: Vec<StreamItem>,
    pub done: bool,
}

/// A stream in progress.
pub struct ChatStream {
    pub tool_state: BTreeMap<usize, ToolCallAccum>,
    /// The last chunk id that was not empty.
    pub response_id: String,
    /// The last usage that arrived.
    pub usage: Option<ChatUsage>,
    /// The last `finish_reason` that arrived.
    pub finish_reason: Option<String>,
    pub text_accum: String,
    pub message_announced: bool,
}

pub struct ChatStreamView {
    pub turn: TurnState,
    pub response_id: Seq<char>,
    pub usage: Option<ChatUsage>,
    pub finish_reason: Option<Seq<char>>,
}

impl DeepView for ChatStream {
    type V = ChatStreamView;

    open spec fn deep_view(&self) -> ChatStreamView {
        ChatStreamView {
            turn: turn_state(self.tool_state@, self.text_accum@, self.message_announced),
            response_id: self.response_id@,
            usage: self.usage,
            finish_reason: self.finish_reason.deep_view(),
        }
    }
}

/// An input taken in: the stream after it, the items to send, and whether the
/// stream has ended.
pub struct StreamStep {
    pub stream: ChatStreamView,
    pub items: Seq<StreamItemView>,
    pub done: bool,
}

impl ChatStreamView {
    /// A stream before its first input.
    pub open spec fn fresh() -> Self {
        ChatStreamView {
            turn: TurnState {
                tools: Map::empty(),
                text: Seq::empty(),
                message_announced: false,
            },
            response_id: Seq::empty(),
            usage: None,
            finish_reason: None,
        }
    }

    /// The response id after a chunk: the chunk's id, unless it is empty.
    pub open spec fn response_id_after(self, chunk: ChatCompletionChunkView) -> Seq<char> {
        if chunk.id.len() > 0 {
            chunk.id
        } else {
            self.response_id
        }
    }

    /// A chunk: its id, usage and `finish_reason` are remembered where it has
    /// them, and its choices carry the turn on.
    pub open spec fn chunk_step(self, chunk: ChatCompletionChunkView) -> StreamStep {
        let response_id = self.response_id_after(chunk);
        let step = choices_step(self.turn, chunk.choices, response_id);
        StreamStep {
            stream: ChatStreamView {
                turn: step.state,
                response_id,
                usage: if chunk.usage is Some {
                    chunk.usage
                } else {
                    self.usage
                },
                finish_reason: if step.finish_reason is Some {
                    step.finish_reason
                } else {
                    self.finish_reason
                },
            },
            items: ok_items(step.events),
            done: false,
        }
    }

    /// The regular end of the stream.
    pub open spec fn completion_step(self) -> StreamStep {
        StreamStep {
            stream: ChatStreamView { turn: terminal_state(self.turn), usage: None, ..self },
            items: ok_items(
                terminal_events(
                    self.turn,
                    self.response_id,
                    self.usage,
                    self.finish_reason,
                    self.response_id,
                ),
            ),
            done: true,
        }
    }

    /// The end of the stream in an error.
    pub open spec fn error_step(self, error: ApiErrorView) -> StreamStep {
        StreamStep {
            stream: self,
            items: seq![Err::<ResponseEventView, ApiErrorView>(error)],
            done: true,
        }
    }

    /// One input. A frame that is the sentinel `[DONE]`, up to white space, ends
    /// the stream; a frame that parses to nothing is skipped. A stream that is
    /// closed is complete if a `finish_reason` was seen, and else broken off.
    pub open spec fn step(self, input: StreamInputView) -> StreamStep {
        match input {
            StreamInputView::Frame { data, chunk, error } => {
                if text::trim_chars(data) == "[DONE]"@ {
                    self.completion_step()
                } else {
                    match (chunk, error) {
                        (Some(chunk), _) => self.chunk_step(chunk),
                        (None, Some(error)) => self.error_step(chat_response::api_error_of(error)),
                        (None, None) => StreamStep {
                            stream: self,
                            items: Seq::empty(),
                            done: false,
                        },
                    }
                }
            },
            StreamInputView::Failed(message) => self.error_step(ApiErrorView::Stream(message)),
            StreamInputView::Closed => {
                if self.finish_reason is Some {
                    self.completion_step()
                } else {
                    self.error_step(ApiErrorView::Stream("stream closed before completion"@))
                }
            },
            StreamInputView::IdleTimeout => self.error_step(
                ApiErrorView::Stream("idle timeout waiting for SSE"@),
            ),
        }
    }

    /// Several inputs, up to the one that ends the stream.
    pub open spec fn run(self, inputs: Seq<StreamInputView>) -> StreamStep
        decreases inputs.len(),
    {
        if inputs.len() == 0 {
            StreamStep { stream: self, items: Seq::empty(), done: false }
        } else {
            let before = self.run(inputs.drop_last());
            if before.done {
                before
            } else {
                let step = before.stream.step(inputs.last());
                StreamStep { items: before.items + step.items, ..step }
            }
        }
    }
}

/// Events as items.
fn into_items(events: Vec<ResponseEvent>) -> (r: Vec<StreamItem>)
    ensures
        items_view(r@) == ok_items(events.deep_view()),
{
    let mut items: Vec<StreamItem> = Vec::new();
    for event in it: events
        invariant
            it.seq() == events@,
            items@.len() == it.index(),
            forall|j: int| 0 <= j < items@.len() ==> items@[j] == Ok::<ResponseEvent, ApiError>(
                events@[j],
            ),
    {
        items.push(Ok(event));
    }
    assert(items_view(items@) =~= ok_items(events.deep_view()));
    items
}

impl ChatStream {
    /// A stream before its first input.
    pub fn new() -> (r: Self)
        ensures
            r.deep_view() == ChatStreamView::fresh(),
    {
        let stream = ChatStream {
            tool_state: BTreeMap::new(),
            response_id: String::new(),
            usage: None,
            finish_reason: None,
            text_accum: String::new(),
            message_announced: false,
        };
        assert(stream.deep_view().turn.tools =~= Map::empty());
        stream
    }

    /// Takes in one chunk.
    fn apply_chunk(&mut self, chunk: &ChatCompletionChunk) -> (r: StreamOutput)
        ensures
            ({
                let step = old(self).deep_view().chunk_step(chunk.deep_view());
                &&& final(self).deep_view() == step.stream
                &&& items_view(r.items@) == step.items
                &&& r.done == step.done
            }),
    {
        if !chunk.id.as_str().is_empty() {
            self.response_id = chunk.id.clone();
        }
        if chunk.usage.is_some() {
            self.usage = chunk.usage;
        }
        let message_id = self.response_id.clone();
        let (events, reason) = chunk_to_events(
            chunk,
            &mut self.tool_state,
            &mut self.text_accum,
            &mut self.message_announced,
            message_id.as_str(),
        );
        if reason.is_some() {
            self.finish_reason = reason;
        }
        StreamOutput { items: into_items(events), done: false }
    }

    /// Ends the stream regularly.
    fn complete(&mut self) -> (r: StreamOutput)
        ensures
            ({
                let step = old(self).deep_view().completion_step();
                &&& final(self).deep_view() == step.stream
                &&& items_view(r.items@) == step.items
                &&& r.done == step.done
            }),
    {
        let usage = self.usage;
        self.usage = None;
        let events = build_terminal_events(
            self.response_id.as_str(),
            usage,
            &self.finish_reason,
            &mut self.tool_state,
            &mut self.text_accum,
            self.message_announced,
            self.response_id.as_str(),
        );
        StreamOutput { items: into_items(events), done: true }
    }

    /// Takes in what the transport delivered next and says what to do.
    pub fn process(&mut self, input: StreamInput) -> (r: StreamOutput)
        ensures
            ({
                let step = old(self).deep_view().step(input.deep_view());
                &&& final(self).deep_view() == step.stream
                &&& items_view(r.items@) == step.items
                &&& r.done == step.done
            }),
    {
        match input {
            StreamInput::Frame { data, chunk, error } => {
                if str_eq(trim(data.as_str()), "[DONE]") {
                    return self.complete();
                }
                match chunk {
                    Some(chunk) => self.apply_chunk(&chunk),
                    None => match error {
                        Some(error) => fail(map_chat_error_to_api_error(error)),
                        None => {
                            let items: Vec<StreamItem> = Vec::new();
                            assert(items_view(items@) =~= Seq::empty());
                            StreamOutput { items, done: false }
                        },
                    },
                }
            },
            StreamInput::Failed(message) => fail(ApiError::Stream(message)),
            StreamInput::Closed => {
                if self.finish_reason.is_some() {
                    self.complete()
                } else {
                    fail(ApiError::Stream("stream closed before completion".to_string()))
                }
            },
            StreamInput::IdleTimeout => fail(
                ApiError::Stream("idle timeout waiting for SSE".to_string()),
            ),
        }
    }
}

/// The end of a stream in an error.
fn fail(error: ApiError) -> (r: StreamOutput)
    ensures
        items_view(r.items@) == seq![Err::<ResponseEventView, ApiErrorView>(error.deep_view())],
        r.done,
{
    let mut items: Vec<StreamItem> = Vec::new();
    items.push(Err(error));
    assert(items_view(items@) =~= seq![
        Err::<ResponseEventView, ApiErrorView>(error.deep_view()),
    ]);
    StreamOutput { items, done: true }
}

} // verus!
