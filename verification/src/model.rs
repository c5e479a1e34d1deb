//! What a model is asked, and what it answers.
use crate::event::{AssistantMessagePhase, Event, ModelRequestKind, OpaqueState};
use crate::json::{json_option, json_views, Json, JsonView};
use crate::surface::{OpaqueView, ToolOutputForgetting};
use crate::text::view_option;
use vstd::prelude::*;

verus! {

/// A finished part of an answer.
#[derive(Debug, PartialEq)]
pub enum ModelResponse {
    AssistantMessage { content: String, phase: AssistantMessagePhase },
    WebSearch { item: Json },
    ToolCall { name: String, arguments: Json, call_id: String },
    CustomToolCall { item_id: Option<String>, name: String, input: String, call_id: String },
    Reasoning { summary: String, opaque: OpaqueState },
}

/// What a [`ModelResponse`] stands for.
pub enum ResponseView {
    AssistantMessage { content: Seq<char>, phase: AssistantMessagePhase },
    WebSearch { item: JsonView },
    ToolCall { name: Seq<char>, arguments: JsonView, call_id: Seq<char> },
    CustomToolCall {
        item_id: Option<Seq<char>>,
        name: Seq<char>,
        input: Seq<char>,
        call_id: Seq<char>,
    },
    Reasoning { summary: Seq<char>, opaque: OpaqueView },
}

impl View for ModelResponse {
    type V = ResponseView;

    open spec fn view(&self) -> ResponseView {
        match self {
            ModelResponse::AssistantMessage { content, phase } => ResponseView::AssistantMessage {
                content: content@,
                phase: *phase,
            },
            ModelResponse::WebSearch { item } => ResponseView::WebSearch { item: item@ },
            ModelResponse::ToolCall { name, arguments, call_id } => ResponseView::ToolCall {
                name: name@,
                arguments: arguments@,
                call_id: call_id@,
            },
            ModelResponse::CustomToolCall { item_id, name, input, call_id } => {
                ResponseView::CustomToolCall {
                    item_id: view_option(*item_id),
                    name: name@,
                    input: input@,
                    call_id: call_id@,
                }
            },
            ModelResponse::Reasoning { summary, opaque } => ResponseView::Reasoning {
                summary: summary@,
                opaque: opaque@,
            },
        }
    }
}

/// What an optional response stands for.
pub open spec fn response_option(response: Option<ModelResponse>) -> Option<ResponseView> {
    match response {
        Some(response) => Some(response@),
        None => None,
    }
}

/// A part of an answer that is still coming in, or news of a running tool.
#[allow(inconsistent_fields)]
#[derive(Debug, PartialEq)]
pub enum ModelStreamEvent {
    Retry { summary: String, current: u64, max: u64 },
    AssistantDelta { content: String, phase: AssistantMessagePhase },
    ReasoningSummaryDelta(String),
    ReasoningSummaryPartAdded,
    WebSearchUpdate { item_id: String, action: Option<Json> },
    ToolCallStarted { item_id: String, call_id: Option<String>, name: String },
    ToolCallDelta { item_id: String, delta: String },
    RunnerOperationUpdate {
        call_id: String,
        operation_index: usize,
        runner: String,
        update: Json,
    },
    RunnerOperationOutput {
        call_id: String,
        operation_index: usize,
        content: String,
        omitted_bytes: usize,
        timer: Json,
    },
}

/// What a [`ModelStreamEvent`] stands for.
#[allow(inconsistent_fields)]
pub enum UpdateView {
    Retry { summary: Seq<char>, current: u64, max: u64 },
    AssistantDelta { content: Seq<char>, phase: AssistantMessagePhase },
    ReasoningSummaryDelta(Seq<char>),
    ReasoningSummaryPartAdded,
    WebSearchUpdate { item_id: Seq<char>, action: Option<JsonView> },
    ToolCallStarted { item_id: Seq<char>, call_id: Option<Seq<char>>, name: Seq<char> },
    ToolCallDelta { item_id: Seq<char>, delta: Seq<char> },
    RunnerOperationUpdate {
        call_id: Seq<char>,
        operation_index: usize,
        runner: Seq<char>,
        update: JsonView,
    },
    RunnerOperationOutput {
        call_id: Seq<char>,
        operation_index: usize,
        content: Seq<char>,
        omitted_bytes: usize,
        timer: JsonView,
    },
}

impl View for ModelStreamEvent {
    type V = UpdateView;

    open spec fn view(&self) -> UpdateView {
        match self {
            ModelStreamEvent::Retry { summary, current, max } => UpdateView::Retry {
                summary: summary@,
                current: *current,
                max: *max,
            },
            ModelStreamEvent::AssistantDelta { content, phase } => UpdateView::AssistantDelta {
                content: content@,
                phase: *phase,
            },
            ModelStreamEvent::ReasoningSummaryDelta(text) => UpdateView::ReasoningSummaryDelta(
                text@,
            ),
            ModelStreamEvent::ReasoningSummaryPartAdded => UpdateView::ReasoningSummaryPartAdded,
            ModelStreamEvent::WebSearchUpdate { item_id, action } => UpdateView::WebSearchUpdate {
                item_id: item_id@,
                action: json_option(*action),
            },
            ModelStreamEvent::ToolCallStarted { item_id, call_id, name } => {
                UpdateView::ToolCallStarted {
                    item_id: item_id@,
                    call_id: view_option(*call_id),
                    name: name@,
                }
            },
            ModelStreamEvent::ToolCallDelta { item_id, delta } => UpdateView::ToolCallDelta {
                item_id: item_id@,
                delta: delta@,
            },
            ModelStreamEvent::RunnerOperationUpdate { call_id, operation_index, runner, update } => {
                UpdateView::RunnerOperationUpdate {
                    call_id: call_id@,
                    operation_index: *operation_index,
                    runner: runner@,
                    update: update@,
                }
            },
            ModelStreamEvent::RunnerOperationOutput {
                call_id,
                operation_index,
                content,
                omitted_bytes,
                timer,
            } => UpdateView::RunnerOperationOutput {
                call_id: call_id@,
                operation_index: *operation_index,
                content: content@,
                omitted_bytes: *omitted_bytes,
                timer: timer@,
            },
        }
    }
}

/// What comes out of the stream of an answer.
#[derive(Debug, PartialEq)]
pub enum ModelEvent {
    Update(ModelStreamEvent),
    OutputItemDone { response: Option<ModelResponse> },
    Completed { token_usage: Option<Json>, rate_limits: Vec<Json> },
}

/// What a [`ModelEvent`] stands for.
pub enum EventView {
    Update(UpdateView),
    OutputItemDone { response: Option<ResponseView> },
    Completed { token_usage: Option<JsonView>, rate_limits: Seq<JsonView> },
}

impl View for ModelEvent {
    type V = EventView;

    open spec fn view(&self) -> EventView {
        match self {
            ModelEvent::Update(update) => EventView::Update(update@),
            ModelEvent::OutputItemDone { response } => EventView::OutputItemDone {
                response: response_option(*response),
            },
            ModelEvent::Completed { token_usage, rate_limits } => EventView::Completed {
                token_usage: json_option(*token_usage),
                rate_limits: json_views(rate_limits@),
            },
        }
    }
}

/// What a sequence of stream events stands for.
pub open spec fn event_views(events: Seq<ModelEvent>) -> Seq<EventView> {
    Seq::new(events.len(), |i: int| events[i]@)
}

/// Appends an event.
pub fn emit(events: &mut Vec<ModelEvent>, event: ModelEvent)
    ensures
        event_views(final(events)@) == event_views(old(events)@).push(event@),
{
    events.push(event);
    assert(event_views(events@) =~= event_views(old(events)@).push(event@));
}

/// Appends a finished part of the answer.
pub fn emit_done(events: &mut Vec<ModelEvent>, response: ModelResponse)
    ensures
        event_views(final(events)@) == event_views(old(events)@).push(done(response@)),
{
    emit(events, ModelEvent::OutputItemDone { response: Some(response) });
}

/// Appends the end of the answer.
pub fn emit_completed(events: &mut Vec<ModelEvent>, token_usage: Option<Json>)
    ensures
        event_views(final(events)@) == event_views(old(events)@).push(
            completed(json_option(token_usage)),
        ),
{
    let none: Vec<Json> = Vec::new();
    assert(json_views(none@) =~= Seq::empty());
    emit(events, ModelEvent::Completed { token_usage, rate_limits: none });
}

/// The event of a finished part of the answer.
pub open spec fn done(response: ResponseView) -> EventView {
    EventView::OutputItemDone { response: Some(response) }
}

/// The event of the end of the answer, without rate limits.
pub open spec fn completed(token_usage: Option<JsonView>) -> EventView {
    EventView::Completed { token_usage, rate_limits: Seq::empty() }
}

/// A tool that a model may call. A web search brings the parameters of the
/// functions that stand for it where the API has no search of its own.
#[derive(Debug, PartialEq)]
pub enum ModelTool {
    WebSearch { search_parameters: Json, fetch_parameters: Json },
    Tool {
        name: String,
        json: ModelJsonToolInterface,
        custom: Option<ModelCustomToolInterface>,
    },
}

/// A tool as a function.
#[derive(Debug, PartialEq)]
pub struct ModelJsonToolInterface {
    pub description: String,
    pub parameters: Json,
}

/// A tool with a grammar of its own.
#[derive(Debug, PartialEq)]
pub struct ModelCustomToolInterface {
    pub description: String,
    pub format: ModelToolFormat,
}

/// A grammar.
#[derive(Debug, PartialEq)]
pub struct ModelToolFormat {
    pub syntax: String,
    pub definition: String,
}

/// What a model is asked.
#[derive(Debug, PartialEq)]
pub struct ModelRequest {
    pub model: String,
    pub reasoning_effort: String,
    pub instructions: String,
    pub tools: Vec<ModelTool>,
    pub events: Vec<Event>,
    pub forgetting: ToolOutputForgetting,
    pub prompt_cache_key: String,
    pub kind: ModelRequestKind,
}

/// The pieces of the answer that were passed on, one after the other.
pub open spec fn said(events: Seq<EventView>) -> Seq<char>
    decreases events.len(),
{
    if events.len() == 0 {
        Seq::empty()
    } else {
        said(events.drop_last()) + match events.last() {
            EventView::Update(UpdateView::AssistantDelta { content, .. }) => content,
            _ => Seq::empty(),
        }
    }
}

/// The pieces of the summary of the reasoning that were passed on, one after the
/// other.
pub open spec fn thought(events: Seq<EventView>) -> Seq<char>
    decreases events.len(),
{
    if events.len() == 0 {
        Seq::empty()
    } else {
        thought(events.drop_last()) + match events.last() {
            EventView::Update(UpdateView::ReasoningSummaryDelta(content)) => content,
            _ => Seq::empty(),
        }
    }
}

/// What is passed on in two steps is what is passed on in the first and then in the
/// second.
pub proof fn lemma_said_in_order(before: Seq<EventView>, after: Seq<EventView>)
    ensures
        said(before + after) == said(before) + said(after),
        thought(before + after) == thought(before) + thought(after),
    decreases after.len(),
{
    let all = before + after;
    if after.len() == 0 {
        assert(all =~= before);
        assert(said(before) + said(after) =~= said(before));
        assert(thought(before) + thought(after) =~= thought(before));
    } else {
        assert(all.drop_last() =~= before + after.drop_last());
        lemma_said_in_order(before, after.drop_last());
        assert(said(all) =~= said(before) + said(after));
        assert(thought(all) =~= thought(before) + thought(after));
    }
}

/// Events that are no updates pass nothing on.
pub proof fn lemma_nothing_said(events: Seq<EventView>)
    requires
        forall|i: int| 0 <= i < events.len() ==> !((#[trigger] events[i]) is Update),
    ensures
        said(events).len() == 0,
        thought(events).len() == 0,
    decreases events.len(),
{
    if events.len() > 0 {
        assert(!(events[events.len() - 1] is Update));
        assert forall|i: int| 0 <= i < events.len() - 1 implies !((
        #[trigger] events.drop_last()[i]) is Update) by {
            assert(!(events[i] is Update));
        }
        lemma_nothing_said(events.drop_last());
    }
}

} // verus!
