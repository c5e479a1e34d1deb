//! The Responses API: what comes back.
use crate::api::chat_completions::events_outcome;
use crate::api::common::{
    incomplete_stream, invalid, needed_nonempty, needed_str, needed_u64, required_nonempty_str,
    required_str, required_u64, ApiError, ErrorView,
};
use crate::api::messages::{named, named_error, news, no_events, single_update, Outcome};
use crate::api::responses::{reasoning_key, reasoning_replay_key};
use crate::event::{AssistantMessagePhase, OpaqueState};
use crate::json::{
    copy_values, json_option, json_views, parsed, printed, Json, JsonView,
};
use crate::model::{
    emit, event_views, response_option, EventView, ModelEvent, ModelResponse, ModelStreamEvent,
    ResponseView, UpdateView,
};
use crate::surface::OpaqueView;
use crate::table::{
    entry, erased, law_erase_then_entry, law_put_then_entry, lemma_rank, lemma_rank_is,
    lemma_same_keys, ordered, position, put, rank,
};
use crate::text::{
    concat2, concat3, contains_text, decimal, decimal_text, join, joined, same_text, views,
};
use vstd::prelude::*;

verus! {

/// The phase that a value names.
pub open spec fn named_phase(value: JsonView) -> Outcome<AssistantMessagePhase> {
    match value.as_str() {
        Some(word) => if word == "commentary"@ {
            Ok(AssistantMessagePhase::Commentary)
        } else if word == "final_answer"@ {
            Ok(AssistantMessagePhase::FinalAnswer)
        } else {
            Err(named("Responses message item returned unknown phase "@, word))
        },
        None => Err(ErrorView::Invalid("Responses message item phase is not a string"@)),
    }
}

/// The phase of a message item, or `default` where it names none.
pub open spec fn item_phase(item: JsonView, default: AssistantMessagePhase) -> Outcome<
    AssistantMessagePhase,
> {
    let value = item.field("phase"@);
    if value is Null {
        Ok(default)
    } else {
        named_phase(value)
    }
}

/// The text of the first `count` parts of a message.
pub open spec fn parts_text(parts: Seq<JsonView>, count: nat) -> Outcome<Seq<char>>
    decreases count,
{
    if count == 0 {
        Ok(Seq::empty())
    } else {
        match parts_text(parts, (count - 1) as nat) {
            Err(error) => Err(error),
            Ok(text) => {
                let part = parts[count - 1];
                match needed_str(part, "type"@, "Responses message content"@) {
                    Err(error) => Err(error),
                    Ok(kind) => if kind == "output_text"@ {
                        match needed_str(part, "text"@, "Responses output_text content"@) {
                            Err(error) => Err(error),
                            Ok(more) => Ok(text + more),
                        }
                    } else if kind == "refusal"@ {
                        match needed_str(part, "refusal"@, "Responses refusal content"@) {
                            Err(error) => Err(error),
                            Ok(more) => Ok(text + more),
                        }
                    } else {
                        Err(named("Responses message contained unknown content "@, kind))
                    },
                }
            },
        }
    }
}

/// The text of a message item.
pub open spec fn item_text(item: JsonView) -> Outcome<Seq<char>> {
    match item.field("content"@).as_array() {
        None => Err(ErrorView::Invalid("Responses message item content is not an array"@)),
        Some(parts) => parts_text(parts, parts.len()),
    }
}

/// The texts of the first `count` parts of a summary.
pub open spec fn summary_parts(parts: Seq<JsonView>, count: nat) -> Outcome<Seq<Seq<char>>>
    decreases count,
{
    if count == 0 {
        Ok(Seq::empty())
    } else {
        match summary_parts(parts, (count - 1) as nat) {
            Err(error) => Err(error),
            Ok(texts) => {
                let part = parts[count - 1];
                match needed_str(part, "type"@, "Responses reasoning summary part"@) {
                    Err(error) => Err(error),
                    Ok(kind) => if kind == "summary_text"@ {
                        match needed_str(part, "text"@, "Responses reasoning summary part"@) {
                            Err(error) => Err(error),
                            Ok(text) => Ok(texts.push(text)),
                        }
                    } else {
                        Err(
                            named(
                                "Responses reasoning item contained unknown summary part "@,
                                printed(part.field("type"@)),
                            ),
                        )
                    },
                }
            },
        }
    }
}

/// The summary of a reasoning item.
pub open spec fn item_summary(item: JsonView) -> Outcome<Seq<char>> {
    match item.field("summary"@).as_array() {
        None => Err(ErrorView::Invalid("Responses reasoning item summary is not an array"@)),
        Some(parts) => match summary_parts(parts, parts.len()) {
            Err(error) => Err(error),
            Ok(texts) => Ok(joined(texts, "\n"@)),
        },
    }
}

/// The finished part of the answer that an item is; none where it is of no use.
pub open spec fn item_response(
    item: JsonView,
    model: Seq<char>,
    replay_namespace: Seq<char>,
    default: AssistantMessagePhase,
) -> Outcome<Option<ResponseView>> {
    match needed_str(item, "type"@, "Responses completed output item"@) {
        Err(error) => Err(error),
        Ok(kind) => if kind == "reasoning"@ {
            match item_summary(item) {
                Err(error) => Err(error),
                Ok(summary) => Ok(
                    Some(
                        ResponseView::Reasoning {
                            summary,
                            opaque: OpaqueView {
                                replay_key: reasoning_key(replay_namespace, model),
                                payload: item,
                            },
                        },
                    ),
                ),
            }
        } else if kind == "message"@ {
            match item_phase(item, default) {
                Err(error) => Err(error),
                Ok(phase) => match item_text(item) {
                    Err(error) => Err(error),
                    Ok(content) => if content.len() == 0 {
                        Ok(None)
                    } else {
                        Ok(Some(ResponseView::AssistantMessage { content, phase }))
                    },
                },
            }
        } else if kind == "function_call"@ {
            let context = "Responses completed function_call item"@;
            match needed_nonempty(item, "name"@, context) {
                Err(error) => Err(error),
                Ok(name) => match needed_str(item, "arguments"@, context) {
                    Err(error) => Err(error),
                    Ok(text) => match parsed(text) {
                        None => Err(
                            ErrorView::Invalid("Responses returned invalid tool arguments"@),
                        ),
                        Some(arguments) => match needed_nonempty(item, "call_id"@, context) {
                            Err(error) => Err(error),
                            Ok(call_id) => Ok(
                                Some(ResponseView::ToolCall { name, arguments, call_id }),
                            ),
                        },
                    },
                },
            }
        } else if kind == "custom_tool_call"@ {
            let context = "Responses completed custom_tool_call item"@;
            let item_id = match item.str_field("id"@) {
                Some(id) => if id.len() == 0 {
                    None
                } else {
                    Some(id)
                },
                None => None,
            };
            match needed_nonempty(item, "name"@, context) {
                Err(error) => Err(error),
                Ok(name) => match needed_str(item, "input"@, context) {
                    Err(error) => Err(error),
                    Ok(input) => match needed_nonempty(item, "call_id"@, context) {
                        Err(error) => Err(error),
                        Ok(call_id) => Ok(
                            Some(ResponseView::CustomToolCall { item_id, name, input, call_id }),
                        ),
                    },
                },
            }
        } else if kind == "web_search_call"@ {
            Ok(Some(ResponseView::WebSearch { item }))
        } else {
            Ok(None)
        },
    }
}

fn message_phase(value: &Json) -> (result: Result<AssistantMessagePhase, ApiError>)
    ensures
        match result {
            Ok(phase) => named_phase(value@) == Ok::<AssistantMessagePhase, ErrorView>(phase),
            Err(error) => named_phase(value@) == Err::<AssistantMessagePhase, ErrorView>(error@),
        },
{
    match value.as_str() {
        Some(word) => if same_text(word, "commentary") {
            Ok(AssistantMessagePhase::Commentary)
        } else if same_text(word, "final_answer") {
            Ok(AssistantMessagePhase::FinalAnswer)
        } else {
            Err(named_error("Responses message item returned unknown phase ", word))
        },
        None => Err(invalid("Responses message item phase is not a string")),
    }
}

fn phase_of(item: &Json, default: AssistantMessagePhase) -> (result: Result<
    AssistantMessagePhase,
    ApiError,
>)
    ensures
        match result {
            Ok(phase) => item_phase(item@, default) == Ok::<AssistantMessagePhase, ErrorView>(
                phase,
            ),
            Err(error) => item_phase(item@, default) == Err::<AssistantMessagePhase, ErrorView>(
                error@,
            ),
        },
{
    let value = item.field("phase");
    if value.is_null() {
        Ok(default)
    } else {
        message_phase(&value)
    }
}

/// What an owned text or an error stands for.
pub open spec fn string_outcome(result: Result<String, ApiError>) -> Outcome<Seq<char>> {
    match result {
        Ok(text) => Ok(text@),
        Err(error) => Err(error@),
    }
}

proof fn lemma_parts_stop(parts: Seq<JsonView>, count: nat, total: nat)
    requires
        count <= total,
        parts_text(parts, count) is Err,
    ensures
        parts_text(parts, total) == parts_text(parts, count),
    decreases total,
{
    if count < total {
        lemma_parts_stop(parts, count, (total - 1) as nat);
    }
}

proof fn lemma_summary_stop(parts: Seq<JsonView>, count: nat, total: nat)
    requires
        count <= total,
        summary_parts(parts, count) is Err,
    ensures
        summary_parts(parts, total) == summary_parts(parts, count),
    decreases total,
{
    if count < total {
        lemma_summary_stop(parts, count, (total - 1) as nat);
    }
}

fn message_text(item: &Json) -> (result: Result<String, ApiError>)
    ensures
        string_outcome(result) == item_text(item@),
{
    let content = item.field("content");
    let parts = match content.as_array() {
        Some(parts) => parts,
        None => {
            return Err(invalid("Responses message item content is not an array"));
        },
    };
    let ghost all = json_views(parts@);
    assert(item_text(item@) == parts_text(all, all.len()));
    let mut text = String::new();
    let mut i: usize = 0;
    while i < parts.len()
        invariant
            i <= parts.len(),
            all == json_views(parts@),
            item_text(item@) == parts_text(all, all.len()),
            parts_text(all, i as nat) == Ok::<Seq<char>, ErrorView>(text@),
        decreases parts.len() - i,
    {
        assert(all[i as int] == parts[i as int]@);
        let part = &parts[i];
        let more = match required_str(part, "type", "Responses message content") {
            Err(error) => Err(error),
            Ok(kind) => if same_text(kind, "output_text") {
                required_str(part, "text", "Responses output_text content")
            } else if same_text(kind, "refusal") {
                required_str(part, "refusal", "Responses refusal content")
            } else {
                Err(named_error("Responses message contained unknown content ", kind))
            },
        };
        match more {
            Err(error) => {
                proof {
                    lemma_parts_stop(all, (i + 1) as nat, all.len());
                }
                return Err(error);
            },
            Ok(more) => {
                text.push_str(more);
            },
        }
        i += 1;
    }
    Ok(text)
}

fn reasoning_summary(item: &Json) -> (result: Result<String, ApiError>)
    ensures
        string_outcome(result) == item_summary(item@),
{
    let summary = item.field("summary");
    let parts = match summary.as_array() {
        Some(parts) => parts,
        None => {
            return Err(invalid("Responses reasoning item summary is not an array"));
        },
    };
    let ghost all = json_views(parts@);
    assert(item@.field("summary"@).as_array() == Some(all));
    let mut texts: Vec<String> = Vec::new();
    assert(views(texts@) =~= Seq::empty());
    let mut i: usize = 0;
    while i < parts.len()
        invariant
            i <= parts.len(),
            all == json_views(parts@),
            item@.field("summary"@).as_array() == Some(all),
            summary_parts(all, i as nat) == Ok::<Seq<Seq<char>>, ErrorView>(views(texts@)),
        decreases parts.len() - i,
    {
        assert(all[i as int] == parts[i as int]@);
        let part = &parts[i];
        let text = match required_str(part, "type", "Responses reasoning summary part") {
            Err(error) => Err(error),
            Ok(kind) => if same_text(kind, "summary_text") {
                required_str(part, "text", "Responses reasoning summary part")
            } else {
                let shown = part.field("type").to_text();
                Err(
                    named_error(
                        "Responses reasoning item contained unknown summary part ",
                        shown.as_str(),
                    ),
                )
            },
        };
        match text {
            Err(error) => {
                proof {
                    lemma_summary_stop(all, (i + 1) as nat, all.len());
                }
                return Err(error);
            },
            Ok(text) => {
                let ghost before = views(texts@);
                texts.push(text.to_owned());
                assert(views(texts@) =~= before.push(text@));
            },
        }
        i += 1;
    }
    Ok(join(&texts, "\n"))
}

/// What an optional response or an error stands for.
pub open spec fn response_outcome(result: Result<Option<ModelResponse>, ApiError>) -> Outcome<
    Option<ResponseView>,
> {
    match result {
        Ok(response) => Ok(response_option(response)),
        Err(error) => Err(error@),
    }
}

/// The finished part of the answer that an item is.
pub fn response_from_item(
    item: &Json,
    model: &str,
    replay_namespace: &str,
    default_phase: AssistantMessagePhase,
) -> (result: Result<Option<ModelResponse>, ApiError>)
    ensures
        response_outcome(result) == item_response(
            item@,
            model@,
            replay_namespace@,
            default_phase,
        ),
{
    let kind = match required_str(item, "type", "Responses completed output item") {
        Ok(kind) => kind,
        Err(error) => {
            return Err(error);
        },
    };
    if same_text(kind, "reasoning") {
        match reasoning_summary(item) {
            Err(error) => Err(error),
            Ok(summary) => Ok(
                Some(
                    ModelResponse::Reasoning {
                        summary,
                        opaque: OpaqueState {
                            replay_key: reasoning_replay_key(replay_namespace, model),
                            payload: item.clone(),
                        },
                    },
                ),
            ),
        }
    } else if same_text(kind, "message") {
        let phase = match phase_of(item, default_phase) {
            Ok(phase) => phase,
            Err(error) => {
                return Err(error);
            },
        };
        match message_text(item) {
            Err(error) => Err(error),
            Ok(content) => if content.as_str().is_empty() {
                Ok(None)
            } else {
                Ok(Some(ModelResponse::AssistantMessage { content, phase }))
            },
        }
    } else if same_text(kind, "function_call") {
        let context = "Responses completed function_call item";
        let name = match required_nonempty_str(item, "name", context) {
            Ok(name) => name.to_owned(),
            Err(error) => {
                return Err(error);
            },
        };
        let arguments = match required_str(item, "arguments", context) {
            Ok(text) => match Json::parse(text) {
                Some(arguments) => arguments,
                None => {
                    return Err(invalid("Responses returned invalid tool arguments"));
                },
            },
            Err(error) => {
                return Err(error);
            },
        };
        match required_nonempty_str(item, "call_id", context) {
            Err(error) => Err(error),
            Ok(call_id) => Ok(
                Some(ModelResponse::ToolCall { name, arguments, call_id: call_id.to_owned() }),
            ),
        }
    } else if same_text(kind, "custom_tool_call") {
        let context = "Responses completed custom_tool_call item";
        let item_id = match item.str_field("id") {
            Some(id) => if id.is_empty() {
                None
            } else {
                Some(id.to_owned())
            },
            None => None,
        };
        let name = match required_nonempty_str(item, "name", context) {
            Ok(name) => name.to_owned(),
            Err(error) => {
                return Err(error);
            },
        };
        let input = match required_str(item, "input", context) {
            Ok(input) => input.to_owned(),
            Err(error) => {
                return Err(error);
            },
        };
        match required_nonempty_str(item, "call_id", context) {
            Err(error) => Err(error),
            Ok(call_id) => Ok(
                Some(
                    ModelResponse::CustomToolCall {
                        item_id,
                        name,
                        input,
                        call_id: call_id.to_owned(),
                    },
                ),
            ),
        }
    } else if same_text(kind, "web_search_call") {
        Ok(Some(ModelResponse::WebSearch { item: item.clone() }))
    } else {
        Ok(None)
    }
}

// ---------------------------------------------------------------------------
// The answer as it comes in
// ---------------------------------------------------------------------------

/// What has come in of an answer: the phases of its messages, its tool calls,
/// the finished items that wait for an earlier one, and where the next item
/// stands.
#[derive(Debug)]
pub struct Live {
    model: String,
    replay_namespace: String,
    messages: Vec<(String, AssistantMessagePhase)>,
    calls: Vec<String>,
    completed_items: Vec<(u64, Json)>,
    next_output_index: u128,
    has_tool_call: bool,
}

/// What a [`Live`] stands for.
pub struct LiveView {
    pub model: Seq<char>,
    pub replay_namespace: Seq<char>,
    pub messages: Map<Seq<char>, AssistantMessagePhase>,
    pub calls: Set<Seq<char>>,
    pub completed_items: Seq<(u64, JsonView)>,
    pub next_output_index: int,
    pub has_tool_call: bool,
}

/// The phases by the name of the message; the last one given counts.
spec fn phases(messages: Seq<(String, AssistantMessagePhase)>) -> Map<
    Seq<char>,
    AssistantMessagePhase,
>
    decreases messages.len(),
{
    if messages.len() == 0 {
        Map::empty()
    } else {
        phases(messages.drop_last()).insert(messages.last().0@, messages.last().1)
    }
}

/// What items by their index stand for.
spec fn waiting(items: Seq<(u64, Json)>) -> Seq<(u64, JsonView)> {
    Seq::new(items.len(), |i: int| (items[i].0, items[i].1@))
}

impl View for Live {
    type V = LiveView;

    closed spec fn view(&self) -> LiveView {
        LiveView {
            model: self.model@,
            replay_namespace: self.replay_namespace@,
            messages: phases(self.messages@),
            calls: views(self.calls@).to_set(),
            completed_items: waiting(self.completed_items@),
            next_output_index: self.next_output_index as int,
            has_tool_call: self.has_tool_call,
        }
    }
}

impl LiveView {
    /// Whether the next item can be counted.
    pub open spec fn well_formed(self) -> bool {
        0 <= self.next_output_index <= u64::MAX + 1
    }

    /// The finished item that stands next.
    pub open spec fn next_item(self) -> Option<JsonView> {
        if self.next_output_index > u64::MAX {
            None
        } else {
            entry(self.completed_items, self.next_output_index as u64)
        }
    }

    /// The state without the item that stands next.
    pub open spec fn past_next(self) -> LiveView {
        LiveView {
            completed_items: erased(self.completed_items, self.next_output_index as u64),
            next_output_index: self.next_output_index + 1,
            ..self
        }
    }

    /// Nothing has come in of the answer.
    pub open spec fn cleared(self) -> LiveView {
        LiveView {
            messages: Map::empty(),
            calls: Set::empty(),
            completed_items: Seq::empty(),
            next_output_index: 0,
            has_tool_call: false,
            ..self
        }
    }
}

/// The state and the news.
pub type LiveStep = (LiveView, Seq<EventView>);

/// Whether an item waits: a message without a phase is final only if no tool
/// call comes after it.
pub open spec fn awaits(state: LiveView, item: JsonView, response_completed: bool) -> bool {
    &&& !response_completed
    &&& !state.has_tool_call
    &&& item.field("type"@) == JsonView::Text("message"@)
    &&& item.field("phase"@) is Null
}

/// Passes on the finished items from the next one on, as far as none is missing
/// and none waits. `events` is what was passed on before.
pub open spec fn passed_on(
    state: LiveView,
    response_completed: bool,
    phase: AssistantMessagePhase,
    events: Seq<EventView>,
) -> Outcome<LiveStep>
    decreases state.completed_items.len(),
    via passed_on_decreases
{
    match state.next_item() {
        None => Ok((state, events)),
        Some(item) => if awaits(state, item, response_completed) {
            Ok((state, events))
        } else {
            match item_response(item, state.model, state.replay_namespace, phase) {
                Err(error) => Err(error),
                Ok(response) => passed_on(
                    state.past_next(),
                    response_completed,
                    phase,
                    events.push(EventView::OutputItemDone { response }),
                ),
            }
        },
    }
}

#[via_fn]
proof fn passed_on_decreases(
    state: LiveView,
    response_completed: bool,
    phase: AssistantMessagePhase,
    events: Seq<EventView>,
) {
    lemma_rank(state.completed_items, state.next_output_index as u64);
}

/// The phase of messages that name none.
pub open spec fn default_phase(state: LiveView) -> AssistantMessagePhase {
    if state.has_tool_call {
        AssistantMessagePhase::Commentary
    } else {
        AssistantMessagePhase::FinalAnswer
    }
}

/// Passes on what is finished; at the end of the answer nothing may be left.
pub open spec fn emitted(state: LiveView, response_completed: bool) -> Outcome<LiveStep> {
    match passed_on(state, response_completed, default_phase(state), Seq::empty()) {
        Err(error) => Err(error),
        Ok((after, events)) => if response_completed && after.completed_items.len() > 0 {
            Err(
                ErrorView::Invalid(
                    "Responses completed with a missing output item before index "@ + decimal(
                        after.next_output_index,
                    ),
                ),
            )
        } else {
            Ok((after, events))
        },
    }
}

/// Whether an item calls a tool.
pub open spec fn calls_tool(item: JsonView) -> bool {
    item.str_field("type"@) == Some("function_call"@) || item.str_field("type"@) == Some(
        "custom_tool_call"@,
    )
}

/// What the end of an item brings.
pub open spec fn item_done_step(state: LiveView, frame: JsonView) -> Outcome<LiveStep> {
    match needed_u64(frame, "output_index"@, "Responses output_item.done event"@) {
        Err(error) => Err(error),
        Ok(index) => if index < state.next_output_index || entry(
            state.completed_items,
            index,
        ) is Some {
            Err(
                ErrorView::Invalid(
                    "Responses completed output item "@ + decimal(index as int)
                        + " more than once"@,
                ),
            )
        } else {
            emitted(
                LiveView {
                    completed_items: put(state.completed_items, index, frame.field("item"@)),
                    has_tool_call: state.has_tool_call || calls_tool(frame.field("item"@)),
                    ..state
                },
                false,
            )
        },
    }
}

/// What the start of an item brings.
pub open spec fn item_added_step(state: LiveView, item: JsonView) -> Outcome<LiveStep> {
    match needed_str(item, "type"@, "Responses output item"@) {
        Err(error) => Err(error),
        Ok(kind) => if kind == "message"@ {
            match needed_nonempty(item, "id"@, "Responses message item"@) {
                Err(error) => Err(error),
                Ok(id) => match item_phase(item, AssistantMessagePhase::Commentary) {
                    Err(error) => Err(error),
                    Ok(phase) => Ok(
                        (
                            LiveView { messages: state.messages.insert(id, phase), ..state },
                            Seq::empty(),
                        ),
                    ),
                },
            }
        } else if kind == "function_call"@ || kind == "custom_tool_call"@ {
            let context = "Responses tool call item"@;
            match needed_nonempty(item, "id"@, context) {
                Err(error) => Err(error),
                Ok(item_id) => match needed_nonempty(item, "call_id"@, context) {
                    Err(error) => Err(error),
                    Ok(call_id) => match needed_nonempty(item, "name"@, context) {
                        Err(error) => Err(error),
                        Ok(name) => Ok(
                            (
                                LiveView {
                                    calls: state.calls.insert(item_id),
                                    has_tool_call: true,
                                    ..state
                                },
                                news(
                                    UpdateView::ToolCallStarted {
                                        item_id,
                                        call_id: Some(call_id),
                                        name,
                                    },
                                ),
                            ),
                        ),
                    },
                },
            }
        } else if kind == "web_search_call"@ {
            match needed_nonempty(item, "id"@, "Responses web_search_call item"@) {
                Err(error) => Err(error),
                Ok(item_id) => Ok(
                    (
                        state,
                        news(
                            UpdateView::WebSearchUpdate {
                                item_id,
                                action: if item.field("action"@) is Null {
                                    None
                                } else {
                                    Some(item.field("action"@))
                                },
                            },
                        ),
                    ),
                ),
            }
        } else {
            Ok((state, Seq::empty()))
        },
    }
}

/// What a piece of a message brings.
pub open spec fn text_step(state: LiveView, frame: JsonView) -> Outcome<LiveStep> {
    let context = "Responses message delta event"@;
    match needed_nonempty(frame, "item_id"@, context) {
        Err(error) => Err(error),
        Ok(item_id) => if !state.messages.contains_key(item_id) {
            Err(named("Responses message delta referenced unknown message "@, item_id))
        } else {
            match needed_str(frame, "delta"@, context) {
                Err(error) => Err(error),
                Ok(content) => Ok(
                    (
                        state,
                        news(
                            UpdateView::AssistantDelta { content, phase: state.messages[item_id] },
                        ),
                    ),
                ),
            }
        },
    }
}

/// What a piece of a tool call brings.
pub open spec fn call_step(state: LiveView, frame: JsonView) -> Outcome<LiveStep> {
    let context = "Responses tool call delta event"@;
    match needed_nonempty(frame, "item_id"@, context) {
        Err(error) => Err(error),
        Ok(item_id) => if !state.calls.contains(item_id) {
            Err(named("Responses tool call delta referenced unknown item "@, item_id))
        } else {
            match needed_str(frame, "delta"@, context) {
                Err(error) => Err(error),
                Ok(delta) => Ok((state, news(UpdateView::ToolCallDelta { item_id, delta }))),
            }
        },
    }
}

/// The error that a frame reports.
pub open spec fn frame_error(frame: JsonView) -> ErrorView {
    ErrorView::Invalid("Responses error: "@ + printed(frame))
}

/// The state and the news after a frame.
pub open spec fn live_step(state: LiveView, frame: JsonView) -> Outcome<LiveStep> {
    match needed_str(frame, "type"@, "Responses stream event"@) {
        Err(error) => Err(error),
        Ok(kind) => if kind == "response.created"@ {
            Ok((state.cleared(), Seq::empty()))
        } else if kind == "response.completed"@ {
            emitted(state, true)
        } else if kind == "response.output_item.added"@ {
            item_added_step(state, frame.field("item"@))
        } else if kind == "response.output_item.done"@ {
            item_done_step(state, frame)
        } else if kind == "response.output_text.delta"@ || kind == "response.refusal.delta"@ {
            text_step(state, frame)
        } else if kind == "response.reasoning_summary_text.delta"@ {
            match needed_str(frame, "delta"@, "Responses reasoning delta event"@) {
                Err(error) => Err(error),
                Ok(text) => Ok((state, news(UpdateView::ReasoningSummaryDelta(text)))),
            }
        } else if kind == "response.reasoning_summary_part.added"@ {
            Ok((state, news(UpdateView::ReasoningSummaryPartAdded)))
        } else if kind == "response.function_call_arguments.delta"@ || kind
            == "response.custom_tool_call_input.delta"@ {
            call_step(state, frame)
        } else if kind == "error"@ || kind == "response.failed"@ {
            Err(frame_error(frame))
        } else {
            Ok((state, Seq::empty()))
        },
    }
}

/// Whether the news of a frame, or an error, are what they should be.
pub open spec fn step_matches(
    outcome: Outcome<LiveStep>,
    result: Result<Vec<ModelEvent>, ApiError>,
    after: LiveView,
) -> bool {
    match result {
        Ok(events) => outcome == Ok::<LiveStep, ErrorView>((after, event_views(events@))),
        Err(error) => outcome == Err::<LiveStep, ErrorView>(error@),
    }
}

impl Live {
    /// Nothing has come in of an answer of `model`.
    pub fn new(model: String, replay_namespace: String) -> (live: Self)
        ensures
            live@.well_formed(),
            live@.model == model@,
            live@.replay_namespace == replay_namespace@,
            live@ == live@.cleared(),
    {
        let live = Live {
            model,
            replay_namespace,
            messages: Vec::new(),
            calls: Vec::new(),
            completed_items: Vec::new(),
            next_output_index: 0,
            has_tool_call: false,
        };
        proof {
            assert(views(live.calls@).to_set() =~= Set::empty());
            assert(waiting(live.completed_items@) =~= Seq::empty());
        }
        live
    }

    fn phase(&self, id: &str) -> (phase: Option<AssistantMessagePhase>)
        ensures
            match phase {
                Some(phase) => self@.messages.contains_key(id@) && self@.messages[id@] == phase,
                None => !self@.messages.contains_key(id@),
            },
    {
        let mut i: usize = self.messages.len();
        let ghost all = self.messages@;
        assert(all.take(i as int) =~= all);
        while i > 0
            invariant
                i <= self.messages.len(),
                all == self.messages@,
                phases(all).contains_key(id@) == phases(all.take(i as int)).contains_key(id@),
                phases(all).contains_key(id@) ==> phases(all)[id@] == phases(
                    all.take(i as int),
                )[id@],
            decreases i,
        {
            assert(all.take(i as int).drop_last() =~= all.take(i - 1));
            assert(all.take(i as int).last() == all[i - 1]);
            if same_text(self.messages[i - 1].0.as_str(), id) {
                return Some(self.messages[i - 1].1);
            }
            i -= 1;
        }
        None
    }

    fn find_next(&self) -> (found: Option<usize>)
        requires
            self@.well_formed(),
        ensures
            match found {
                Some(at) => at < self.completed_items.len() && at == rank(
                    self@.completed_items,
                    self.next_output_index as u64,
                ) && self@.next_item() == Some(self.completed_items[at as int].1@)
                    && self.next_output_index <= u64::MAX,
                None => self@.next_item() is None,
            },
    {
        if self.next_output_index > 0xffff_ffff_ffff_ffff {
            return None;
        }
        let index = self.next_output_index as u64;
        let at = position(&self.completed_items, index);
        proof {
            lemma_same_keys(self.completed_items@, waiting(self.completed_items@), index);
        }
        if at < self.completed_items.len() && self.completed_items[at].0 == index {
            Some(at)
        } else {
            None
        }
    }

    fn pass_on(&mut self, response_completed: bool, phase: AssistantMessagePhase) -> (result:
        Result<Vec<ModelEvent>, ApiError>)
        requires
            old(self)@.well_formed(),
        ensures
            final(self)@.well_formed(),
            step_matches(
                passed_on(old(self)@, response_completed, phase, Seq::empty()),
                result,
                final(self)@,
            ),
    {
        let ghost wanted = passed_on(self@, response_completed, phase, Seq::empty());
        let mut events = no_events();
        loop
            invariant
                self@.well_formed(),
                wanted == passed_on(old(self)@, response_completed, phase, Seq::empty()),
                wanted == passed_on(self@, response_completed, phase, event_views(events@)),
            ensures
                self@.well_formed(),
                wanted == Ok::<LiveStep, ErrorView>((self@, event_views(events@))),
            decreases self.completed_items.len(),
        {
            let at = match self.find_next() {
                Some(at) => at,
                None => {
                    break ;
                },
            };
            let item = &self.completed_items[at].1;
            let is_message = match item.str_field("type") {
                Some(kind) => same_text(kind, "message"),
                None => false,
            };
            if !response_completed && !self.has_tool_call && is_message && item.field(
                "phase",
            ).is_null() {
                break ;
            }
            let response = match response_from_item(
                item,
                self.model.as_str(),
                self.replay_namespace.as_str(),
                phase,
            ) {
                Ok(response) => response,
                Err(error) => {
                    return Err(error);
                },
            };
            let ghost before = self@;
            let ghost old_items = self.completed_items@;
            let _ = self.completed_items.remove(at);
            self.next_output_index = self.next_output_index + 1;
            proof {
                assert(waiting(self.completed_items@) =~= erased(
                    waiting(old_items),
                    before.next_output_index as u64,
                ));
                assert(self@ == before.past_next());
            }
            emit(&mut events, ModelEvent::OutputItemDone { response });
        }
        Ok(events)
    }

    fn emit_completed_items(&mut self, response_completed: bool) -> (result: Result<
        Vec<ModelEvent>,
        ApiError,
    >)
        requires
            old(self)@.well_formed(),
        ensures
            final(self)@.well_formed(),
            step_matches(emitted(old(self)@, response_completed), result, final(self)@),
    {
        let phase = if self.has_tool_call {
            AssistantMessagePhase::Commentary
        } else {
            AssistantMessagePhase::FinalAnswer
        };
        let events = match self.pass_on(response_completed, phase) {
            Ok(events) => events,
            Err(error) => {
                return Err(error);
            },
        };
        if response_completed && self.completed_items.len() > 0 {
            let number = decimal_text(self.next_output_index as i128);
            return Err(
                ApiError::Invalid(
                    concat2(
                        "Responses completed with a missing output item before index ",
                        number.as_str(),
                    ),
                ),
            );
        }
        Ok(events)
    }

    fn item_done(&mut self, frame: &Json) -> (result: Result<Vec<ModelEvent>, ApiError>)
        requires
            old(self)@.well_formed(),
        ensures
            final(self)@.well_formed(),
            step_matches(item_done_step(old(self)@, frame@), result, final(self)@),
    {
        let index = match required_u64(frame, "output_index", "Responses output_item.done event") {
            Ok(index) => index,
            Err(error) => {
                return Err(error);
            },
        };
        let at = position(&self.completed_items, index);
        let ghost old_items = self.completed_items@;
        proof {
            lemma_same_keys(old_items, waiting(old_items), index);
        }
        let again = at < self.completed_items.len() && self.completed_items[at].0 == index;
        if (index as u128) < self.next_output_index || again {
            let number = decimal_text(index as i128);
            return Err(
                ApiError::Invalid(
                    concat3(
                        "Responses completed output item ",
                        number.as_str(),
                        " more than once",
                    ),
                ),
            );
        }
        let item = frame.field("item");
        let tool = match item.str_field("type") {
            Some(kind) => same_text(kind, "function_call") || same_text(kind, "custom_tool_call"),
            None => false,
        };
        self.completed_items.insert(at, (index, item));
        if tool {
            self.has_tool_call = true;
        }
        assert(waiting(self.completed_items@) =~= put(
            waiting(old_items),
            index,
            frame@.field("item"@),
        ));
        self.emit_completed_items(false)
    }

    fn item_added(&mut self, item: &Json) -> (result: Result<Vec<ModelEvent>, ApiError>)
        requires
            old(self)@.well_formed(),
        ensures
            final(self)@.well_formed(),
            step_matches(item_added_step(old(self)@, item@), result, final(self)@),
    {
        let kind = match required_str(item, "type", "Responses output item") {
            Ok(kind) => kind,
            Err(error) => {
                return Err(error);
            },
        };
        if same_text(kind, "message") {
            let id = match required_nonempty_str(item, "id", "Responses message item") {
                Ok(id) => id.to_owned(),
                Err(error) => {
                    return Err(error);
                },
            };
            match phase_of(item, AssistantMessagePhase::Commentary) {
                Err(error) => Err(error),
                Ok(phase) => {
                    let ghost before = self.messages@;
                    self.messages.push((id, phase));
                    assert(self.messages@.drop_last() =~= before);
                    Ok(no_events())
                },
            }
        } else if same_text(kind, "function_call") || same_text(kind, "custom_tool_call") {
            let context = "Responses tool call item";
            let item_id = match required_nonempty_str(item, "id", context) {
                Ok(id) => id.to_owned(),
                Err(error) => {
                    return Err(error);
                },
            };
            let call_id = match required_nonempty_str(item, "call_id", context) {
                Ok(id) => id.to_owned(),
                Err(error) => {
                    return Err(error);
                },
            };
            let name = match required_nonempty_str(item, "name", context) {
                Ok(name) => name.to_owned(),
                Err(error) => {
                    return Err(error);
                },
            };
            self.has_tool_call = true;
            let ghost before = views(self.calls@);
            self.calls.push(item_id.clone());
            proof {
                assert(views(self.calls@) =~= before.push(item_id@));
                lemma_push_set(before, item_id@);
            }
            Ok(
                single_update(
                    ModelStreamEvent::ToolCallStarted { item_id, call_id: Some(call_id), name },
                ),
            )
        } else if same_text(kind, "web_search_call") {
            match required_nonempty_str(item, "id", "Responses web_search_call item") {
                Err(error) => Err(error),
                Ok(item_id) => {
                    let action = item.field("action");
                    let action = if action.is_null() {
                        None
                    } else {
                        Some(action)
                    };
                    Ok(
                        single_update(
                            ModelStreamEvent::WebSearchUpdate {
                                item_id: item_id.to_owned(),
                                action,
                            },
                        ),
                    )
                },
            }
        } else {
            Ok(no_events())
        }
    }

    fn text_delta(&self, frame: &Json) -> (result: Result<Vec<ModelEvent>, ApiError>)
        ensures
            step_matches(text_step(self@, frame@), result, self@),
    {
        let item_id = match required_nonempty_str(
            frame,
            "item_id",
            "Responses message delta event",
        ) {
            Ok(item_id) => item_id,
            Err(error) => {
                return Err(error);
            },
        };
        let phase = match self.phase(item_id) {
            Some(phase) => phase,
            None => {
                return Err(
                    named_error("Responses message delta referenced unknown message ", item_id),
                );
            },
        };
        match required_str(frame, "delta", "Responses message delta event") {
            Err(error) => Err(error),
            Ok(content) => Ok(
                single_update(
                    ModelStreamEvent::AssistantDelta { content: content.to_owned(), phase },
                ),
            ),
        }
    }

    fn call_delta(&self, frame: &Json) -> (result: Result<Vec<ModelEvent>, ApiError>)
        ensures
            step_matches(call_step(self@, frame@), result, self@),
    {
        let item_id = match required_nonempty_str(
            frame,
            "item_id",
            "Responses tool call delta event",
        ) {
            Ok(item_id) => item_id,
            Err(error) => {
                return Err(error);
            },
        };
        if !contains_text(&self.calls, item_id) {
            return Err(
                named_error("Responses tool call delta referenced unknown item ", item_id),
            );
        }
        match required_str(frame, "delta", "Responses tool call delta event") {
            Err(error) => Err(error),
            Ok(delta) => Ok(
                single_update(
                    ModelStreamEvent::ToolCallDelta {
                        item_id: item_id.to_owned(),
                        delta: delta.to_owned(),
                    },
                ),
            ),
        }
    }

    /// Takes a frame, and gives the news of it.
    pub fn decode(&mut self, frame: &Json) -> (result: Result<Vec<ModelEvent>, ApiError>)
        requires
            old(self)@.well_formed(),
        ensures
            final(self)@.well_formed(),
            step_matches(live_step(old(self)@, frame@), result, final(self)@),
    {
        let kind = match required_str(frame, "type", "Responses stream event") {
            Ok(kind) => kind,
            Err(error) => {
                return Err(error);
            },
        };
        if same_text(kind, "response.created") {
            self.messages = Vec::new();
            self.calls = Vec::new();
            self.completed_items = Vec::new();
            self.next_output_index = 0;
            self.has_tool_call = false;
            proof {
                assert(views(self.calls@).to_set() =~= Set::empty());
                assert(waiting(self.completed_items@) =~= Seq::empty());
            }
            Ok(no_events())
        } else if same_text(kind, "response.completed") {
            self.emit_completed_items(true)
        } else if same_text(kind, "response.output_item.added") {
            self.item_added(&frame.field("item"))
        } else if same_text(kind, "response.output_item.done") {
            self.item_done(frame)
        } else if same_text(kind, "response.output_text.delta") || same_text(
            kind,
            "response.refusal.delta",
        ) {
            self.text_delta(frame)
        } else if same_text(kind, "response.reasoning_summary_text.delta") {
            match required_str(frame, "delta", "Responses reasoning delta event") {
                Err(error) => Err(error),
                Ok(text) => Ok(
                    single_update(ModelStreamEvent::ReasoningSummaryDelta(text.to_owned())),
                ),
            }
        } else if same_text(kind, "response.reasoning_summary_part.added") {
            Ok(single_update(ModelStreamEvent::ReasoningSummaryPartAdded))
        } else if same_text(kind, "response.function_call_arguments.delta") || same_text(
            kind,
            "response.custom_tool_call_input.delta",
        ) {
            self.call_delta(frame)
        } else if same_text(kind, "error") || same_text(kind, "response.failed") {
            let shown = frame.to_text();
            Err(ApiError::Invalid(concat2("Responses error: ", shown.as_str())))
        } else {
            Ok(no_events())
        }
    }
}

proof fn lemma_push_set<T>(items: Seq<T>, item: T)
    ensures
        items.push(item).to_set() == items.to_set().insert(item),
{
    let after = items.push(item);
    assert forall|text: T|
        #[trigger] after.to_set().contains(text) == items.to_set().insert(item).contains(text) by {
        if after.contains(text) {
            let i = choose|i: int| 0 <= i < after.len() && after[i] == text;
            if i < items.len() {
                assert(items[i] == text);
            }
        }
        if items.contains(text) {
            let i = choose|i: int| 0 <= i < items.len() && items[i] == text;
            assert(after[i] == text);
        }
        if text == item {
            assert(after[items.len() as int] == item);
        }
    }
    assert(after.to_set() =~= items.to_set().insert(item));
}

// ---------------------------------------------------------------------------
// The end of the answer
// ---------------------------------------------------------------------------

/// The token usage in the library's terms.
pub open spec fn usage_json(value: JsonView) -> JsonView {
    JsonView::object().with("input_tokens"@, value.field("input_tokens"@)).with(
        "cached_input_tokens"@,
        value.field("input_tokens_details"@).field("cached_tokens"@),
    ).with(
        "cache_write_input_tokens"@,
        value.field("input_tokens_details"@).field("cache_write_tokens"@),
    ).with("output_tokens"@, value.field("output_tokens"@)).with(
        "reasoning_output_tokens"@,
        value.field("output_tokens_details"@).field("reasoning_tokens"@),
    ).with("total_tokens"@, value.field("total_tokens"@))
}

fn normalize_usage(value: &Json) -> (usage: Json)
    ensures
        usage@ == usage_json(value@),
{
    Json::object().with("input_tokens", value.field("input_tokens")).with(
        "cached_input_tokens",
        value.nested("input_tokens_details", "cached_tokens"),
    ).with(
        "cache_write_input_tokens",
        value.nested("input_tokens_details", "cache_write_tokens"),
    ).with("output_tokens", value.field("output_tokens")).with(
        "reasoning_output_tokens",
        value.nested("output_tokens_details", "reasoning_tokens"),
    ).with("total_tokens", value.field("total_tokens"))
}

/// Whether the first `count` frames complete the answer, and its usage.
pub open spec fn ending(frames: Seq<JsonView>, count: nat) -> Outcome<(bool, Option<JsonView>)>
    decreases count,
{
    if count == 0 {
        Ok((false, None))
    } else {
        match ending(frames, (count - 1) as nat) {
            Err(error) => Err(error),
            Ok(state) => {
                let frame = frames[count - 1];
                match needed_str(frame, "type"@, "Responses stream event"@) {
                    Err(error) => Err(error),
                    Ok(kind) => if kind == "response.completed"@ {
                        Ok(
                            (
                                true,
                                match frame.field("response"@).get("usage"@) {
                                    Some(usage) => Some(usage_json(usage)),
                                    None => None,
                                },
                            ),
                        )
                    } else if kind == "error"@ || kind == "response.failed"@ || kind
                        == "response.incomplete"@ {
                        Err(frame_error(frame))
                    } else {
                        Ok(state)
                    },
                }
            },
        }
    }
}

/// The event that ends an answer.
pub open spec fn answer(frames: Seq<JsonView>, rate_limits: Seq<JsonView>) -> Outcome<
    Seq<EventView>,
> {
    match ending(frames, frames.len()) {
        Err(error) => Err(error),
        Ok((done, token_usage)) => if done {
            Ok(Seq::empty().push(EventView::Completed { token_usage, rate_limits }))
        } else {
            Err(ErrorView::Incomplete("Responses"@))
        },
    }
}

proof fn lemma_ending_stop(frames: Seq<JsonView>, count: nat, total: nat)
    requires
        count <= total,
        ending(frames, count) is Err,
    ensures
        ending(frames, total) == ending(frames, count),
    decreases total,
{
    if count < total {
        lemma_ending_stop(frames, count, (total - 1) as nat);
    }
}

/// The event that ends an answer.
pub fn parse(frames: &Vec<Json>, rate_limits: Vec<Json>) -> (result: Result<
    Vec<ModelEvent>,
    ApiError,
>)
    ensures
        events_outcome(result) == answer(json_views(frames@), json_views(rate_limits@)),
{
    let mut usage: Option<Json> = None;
    let mut completed = false;
    let ghost all = json_views(frames@);
    let mut i: usize = 0;
    while i < frames.len()
        invariant
            i <= frames.len(),
            all == json_views(frames@),
            ending(all, i as nat) == Ok::<(bool, Option<JsonView>), ErrorView>(
                (completed, json_option(usage)),
            ),
        decreases frames.len() - i,
    {
        assert(all[i as int] == frames[i as int]@);
        let frame = &frames[i];
        let problem = match required_str(frame, "type", "Responses stream event") {
            Err(error) => Some(error),
            Ok(kind) => if same_text(kind, "response.completed") {
                completed = true;
                usage = match frame.field("response").get("usage") {
                    Some(value) => Some(normalize_usage(value)),
                    None => None,
                };
                None
            } else if same_text(kind, "error") || same_text(kind, "response.failed") || same_text(
                kind,
                "response.incomplete",
            ) {
                let shown = frame.to_text();
                Some(ApiError::Invalid(concat2("Responses error: ", shown.as_str())))
            } else {
                None
            },
        };
        match problem {
            Some(error) => {
                proof {
                    lemma_ending_stop(all, (i + 1) as nat, all.len());
                }
                return Err(error);
            },
            None => {},
        }
        i += 1;
    }
    if !completed {
        return Err(incomplete_stream("Responses"));
    }
    let mut events = no_events();
    emit(&mut events, ModelEvent::Completed { token_usage: usage, rate_limits });
    Ok(events)
}

// ---------------------------------------------------------------------------
// Compaction on the server
// ---------------------------------------------------------------------------

/// The answer to a request to compact, as far as it has come in.
pub struct ServerCompaction {
    compaction: Option<Json>,
    completed: bool,
}

impl View for ServerCompaction {
    type V = (Option<JsonView>, bool);

    closed spec fn view(&self) -> (Option<JsonView>, bool) {
        (json_option(self.compaction), self.completed)
    }
}

/// The answer after a frame.
pub open spec fn compaction_step(state: (Option<JsonView>, bool), frame: JsonView) -> Outcome<
    (Option<JsonView>, bool),
> {
    match needed_str(frame, "type"@, "Codex compaction event"@) {
        Err(error) => Err(error),
        Ok(kind) => if kind == "response.output_item.done"@ && frame.field("item"@).field("type"@)
            == JsonView::Text("compaction"@) {
            if state.0 is Some {
                Err(ErrorView::Invalid("Codex returned multiple compaction items"@))
            } else {
                Ok((Some(frame.field("item"@)), state.1))
            }
        } else if kind == "response.completed"@ {
            Ok((state.0, true))
        } else if kind == "response.created"@ || kind == "response.in_progress"@ || kind
            == "response.output_item.added"@ || kind == "ping"@ {
            Ok(state)
        } else if kind == "error"@ || kind == "response.failed"@ {
            Err(ErrorView::Invalid("Codex compaction failed: "@ + printed(frame)))
        } else {
            Err(named("unknown Codex compaction event "@, kind))
        },
    }
}

/// The compaction that came, or why there is none.
pub open spec fn compaction_result(state: (Option<JsonView>, bool)) -> Outcome<JsonView> {
    if !state.1 {
        Err(ErrorView::Invalid("Codex compaction stream ended before response.completed"@))
    } else {
        match state.0 {
            Some(value) => Ok(value),
            None => Err(
                ErrorView::Invalid("Codex compaction response contained no compaction item"@),
            ),
        }
    }
}

impl ServerCompaction {
    /// Nothing has come in.
    pub fn new() -> (state: Self)
        ensures
            state@ == (None::<JsonView>, false),
    {
        ServerCompaction { compaction: None, completed: false }
    }

    /// Takes a frame.
    pub fn accept(&mut self, frame: &Json) -> (problem: Option<ApiError>)
        ensures
            match problem {
                Some(error) => compaction_step(old(self)@, frame@) == Err::<
                    (Option<JsonView>, bool),
                    ErrorView,
                >(error@),
                None => compaction_step(old(self)@, frame@) == Ok::<
                    (Option<JsonView>, bool),
                    ErrorView,
                >(final(self)@),
            },
    {
        let kind = match required_str(frame, "type", "Codex compaction event") {
            Ok(kind) => kind,
            Err(error) => {
                return Some(error);
            },
        };
        let item = frame.field("item");
        let is_compaction = match item.str_field("type") {
            Some(word) => same_text(word, "compaction"),
            None => false,
        };
        if same_text(kind, "response.output_item.done") && is_compaction {
            if self.compaction.is_some() {
                Some(invalid("Codex returned multiple compaction items"))
            } else {
                self.compaction = Some(item);
                None
            }
        } else if same_text(kind, "response.completed") {
            self.completed = true;
            None
        } else if same_text(kind, "response.created") || same_text(kind, "response.in_progress")
            || same_text(kind, "response.output_item.added") || same_text(kind, "ping") {
            None
        } else if same_text(kind, "error") || same_text(kind, "response.failed") {
            let shown = frame.to_text();
            Some(ApiError::Invalid(concat2("Codex compaction failed: ", shown.as_str())))
        } else {
            Some(named_error("unknown Codex compaction event ", kind))
        }
    }

    /// The compaction that came.
    pub fn finish(self) -> (result: Result<Json, ApiError>)
        ensures
            match result {
                Ok(value) => compaction_result(self@) == Ok::<JsonView, ErrorView>(value@),
                Err(error) => compaction_result(self@) == Err::<JsonView, ErrorView>(error@),
            },
    {
        if !self.completed {
            return Err(invalid("Codex compaction stream ended before response.completed"));
        }
        match self.compaction {
            Some(value) => Ok(value),
            None => Err(invalid("Codex compaction response contained no compaction item")),
        }
    }
}

/// A response that starts anew does away with what came in of another.
pub proof fn law_new_response_starts_empty(state: LiveView, frame: JsonView)
    requires
        frame.str_field("type"@) == Some("response.created"@),
    ensures
        live_step(state, frame) == Ok::<LiveStep, ErrorView>((state.cleared(), Seq::empty())),
{
}

proof fn lemma_passed_on(
    state: LiveView,
    response_completed: bool,
    phase: AssistantMessagePhase,
    events: Seq<EventView>,
)
    ensures
        passed_on(state, response_completed, phase, events) matches Ok((after, out)) ==> {
            &&& out.len() >= events.len()
            &&& after.next_output_index - state.next_output_index == out.len() - events.len()
            &&& state.completed_items.len() - after.completed_items.len() == out.len()
                - events.len()
        },
    decreases state.completed_items.len(),
{
    match state.next_item() {
        None => {},
        Some(item) => {
            if !awaits(state, item, response_completed) {
                match item_response(item, state.model, state.replay_namespace, phase) {
                    Err(error) => {},
                    Ok(response) => {
                        lemma_rank(state.completed_items, state.next_output_index as u64);
                        lemma_passed_on(
                            state.past_next(),
                            response_completed,
                            phase,
                            events.push(EventView::OutputItemDone { response }),
                        );
                    },
                }
            }
        },
    }
}

/// What finished is passed on once and without a gap: as many items as the count
/// goes up, and at the end of a response every one that was left.
pub proof fn law_items_are_passed_on_without_a_gap(state: LiveView, response_completed: bool)
    ensures
        emitted(state, response_completed) matches Ok((after, events)) ==> {
            &&& after.next_output_index == state.next_output_index + events.len()
            &&& after.completed_items.len() + events.len() == state.completed_items.len()
            &&& response_completed ==> events.len() == state.completed_items.len()
        },
{
    lemma_passed_on(state, response_completed, default_phase(state), Seq::empty());
}

/// What came of the first `count` of frames: what is known, and all that was passed
/// on.
pub open spec fn followed(state: LiveView, frames: Seq<JsonView>, count: nat) -> Outcome<LiveStep>
    decreases count,
{
    if count == 0 {
        Ok((state, Seq::empty()))
    } else {
        match followed(state, frames, (count - 1) as nat) {
            Err(error) => Err(error),
            Ok((before, events)) => match live_step(before, frames[count - 1]) {
                Err(error) => Err(error),
                Ok((after, more)) => Ok((after, events + more)),
            },
        }
    }
}

/// Whether an item is one that can be passed on as soon as it stands next: it is
/// well formed, and a message says what phase it belongs to.
pub open spec fn settled_item(
    item: JsonView,
    model: Seq<char>,
    replay_namespace: Seq<char>,
) -> bool {
    &&& item_response(item, model, replay_namespace, AssistantMessagePhase::Commentary) is Ok
    &&& item.field("type"@) == JsonView::Text("message"@) ==> !(item.field("phase"@) is Null)
}

/// The events of the first `count` of items, in their order.
pub open spec fn items_done(
    items: Seq<JsonView>,
    model: Seq<char>,
    replay_namespace: Seq<char>,
    count: int,
) -> Seq<EventView> {
    Seq::new(
        count as nat,
        |i: int|
            EventView::OutputItemDone {
                response: item_response(
                    items[i],
                    model,
                    replay_namespace,
                    AssistantMessagePhase::Commentary,
                )->Ok_0,
            },
    )
}

/// Whether frames bring items, each at its place, in an order; and then the end.
pub open spec fn brings(frames: Seq<JsonView>, items: Seq<JsonView>, order: Seq<int>) -> bool {
    &&& frames.len() == order.len() + 1
    &&& forall|k: int|
        0 <= k < order.len() ==> {
            &&& (#[trigger] frames[k]).str_field("type"@) == Some("response.output_item.done"@)
            &&& frames[k].field("output_index"@).as_u64() == Some(order[k] as u64)
            &&& frames[k].field("item"@) == items[order[k]]
        }
    &&& frames.last().str_field("type"@) == Some("response.completed"@)
}

/// Whether an order names each of the first `count` numbers once.
pub open spec fn permutes(order: Seq<int>, count: nat) -> bool {
    &&& order.no_duplicates()
    &&& forall|k: int| 0 <= k < order.len() ==> 0 <= #[trigger] order[k] < count
    &&& forall|i: int| 0 <= i < count ==> #[trigger] order.contains(i)
}

/// Whether exactly the items that were `seen` wait or were passed on.
spec fn keeps(state: LiveView, items: Seq<JsonView>, seen: Set<int>) -> bool {
    &&& 0 <= state.next_output_index <= items.len() <= u64::MAX
    &&& ordered(state.completed_items)
    &&& forall|i: int| 0 <= i < state.next_output_index ==> #[trigger] seen.contains(i)
    &&& forall|i: int| #[trigger] seen.contains(i) ==> 0 <= i < items.len()
    &&& forall|index: u64| #[trigger]
        entry(state.completed_items, index) == (if index >= state.next_output_index
            && seen.contains(index as int) {
            Some(items[index as int])
        } else {
            None
        })
}

proof fn lemma_keeps(
    state: LiveView,
    items: Seq<JsonView>,
    seen: Set<int>,
    response_completed: bool,
    phase: AssistantMessagePhase,
    events: Seq<EventView>,
)
    requires
        keeps(state, items, seen),
        forall|i: int|
            0 <= i < items.len() ==> settled_item(
                #[trigger] items[i],
                state.model,
                state.replay_namespace,
            ),
    ensures
        passed_on(state, response_completed, phase, events) matches Ok((after, out)) && {
            &&& keeps(after, items, seen)
            &&& !seen.contains(after.next_output_index)
            &&& after.model == state.model
            &&& after.replay_namespace == state.replay_namespace
            &&& out == events + items_done(
                items,
                state.model,
                state.replay_namespace,
                after.next_output_index,
            ).skip(state.next_output_index)
        },
    decreases state.completed_items.len(),
{
    let model = state.model;
    let namespace = state.replay_namespace;
    let next = state.next_output_index;
    let done = items_done(items, model, namespace, next);
    assert(entry(state.completed_items, next as u64) == state.next_item());
    match state.next_item() {
        None => {
            if seen.contains(next) {
                assert(entry(state.completed_items, next as u64) is Some);
            }
            assert(events + done.skip(next) =~= events);
        },
        Some(item) => {
            assert(seen.contains(next));
            assert(item == items[next]);
            assert(settled_item(items[next], model, namespace));
            assert(item_response(item, model, namespace, phase) == item_response(
                item,
                model,
                namespace,
                AssistantMessagePhase::Commentary,
            ));
            let response = item_response(item, model, namespace, phase)->Ok_0;
            let event = EventView::OutputItemDone { response };
            let past = state.past_next();
            lemma_rank(state.completed_items, next as u64);
            assert forall|index: u64| #[trigger]
                entry(past.completed_items, index) == (if index >= past.next_output_index
                    && seen.contains(index as int) {
                    Some(items[index as int])
                } else {
                    None
                }) by {
                law_erase_then_entry(state.completed_items, next as u64, index);
            }
            law_erase_then_entry(state.completed_items, next as u64, 0);
            lemma_keeps(past, items, seen, response_completed, phase, events.push(event));
            let (after, out) = passed_on(
                past,
                response_completed,
                phase,
                events.push(event),
            )->Ok_0;
            let all = items_done(items, model, namespace, after.next_output_index);
            lemma_reaches(past, response_completed, phase, events.push(event));
            assert(all[next] == event);
            assert(events.push(event) + all.skip(next + 1) =~= events + all.skip(next));
        },
    }
}

proof fn lemma_reaches(
    state: LiveView,
    response_completed: bool,
    phase: AssistantMessagePhase,
    events: Seq<EventView>,
)
    ensures
        passed_on(state, response_completed, phase, events) matches Ok((after, _)) ==>
            after.next_output_index >= state.next_output_index,
{
    lemma_passed_on(state, response_completed, phase, events);
}

proof fn lemma_done_frame(state: LiveView, frame: JsonView)
    requires
        frame.str_field("type"@) == Some("response.output_item.done"@),
    ensures
        live_step(state, frame) == item_done_step(state, frame),
{
    reveal_strlit("response.created");
    reveal_strlit("response.completed");
    reveal_strlit("response.output_item.added");
    reveal_strlit("response.output_item.done");
    assert("response.output_item.done"@.len() == 25);
    assert("response.created"@.len() == 16);
    assert("response.completed"@.len() == 18);
    assert("response.output_item.added"@.len() == 26);
}

proof fn lemma_last_frame(state: LiveView, frame: JsonView)
    requires
        frame.str_field("type"@) == Some("response.completed"@),
    ensures
        live_step(state, frame) == emitted(state, true),
{
    reveal_strlit("response.created");
    reveal_strlit("response.completed");
    assert("response.created"@.len() == 16);
    assert("response.completed"@.len() == 18);
}

proof fn lemma_brought(
    state: LiveView,
    frames: Seq<JsonView>,
    items: Seq<JsonView>,
    order: Seq<int>,
    count: nat,
)
    requires
        state == state.cleared(),
        items.len() <= u64::MAX,
        permutes(order, items.len()),
        brings(frames, items, order),
        count <= order.len(),
        forall|i: int|
            0 <= i < items.len() ==> settled_item(
                #[trigger] items[i],
                state.model,
                state.replay_namespace,
            ),
    ensures
        followed(state, frames, count) matches Ok((after, events)) && {
            &&& keeps(after, items, order.take(count as int).to_set())
            &&& after.model == state.model
            &&& after.replay_namespace == state.replay_namespace
            &&& events == items_done(
                items,
                state.model,
                state.replay_namespace,
                after.next_output_index,
            )
        },
    decreases count,
{
    let seen = order.take(count as int).to_set();
    if count == 0 {
        assert forall|index: u64| (#[trigger] entry(state.completed_items, index)) is None by {
            lemma_rank(state.completed_items, index);
        }
        assert(forall|i: int| !seen.contains(i));
        assert(items_done(items, state.model, state.replay_namespace, 0) =~= Seq::empty());
    } else {
        let last = (count - 1) as nat;
        lemma_brought(state, frames, items, order, last);
        let (before, events) = followed(state, frames, last)->Ok_0;
        let frame = frames[last as int];
        let at = order[last as int];
        let earlier = order.take(last as int).to_set();
        assert(seen =~= earlier.insert(at)) by {
            lemma_push_set(order.take(last as int), at);
            assert(order.take(count as int) =~= order.take(last as int).push(at));
        }
        assert(!earlier.contains(at)) by {
            if earlier.contains(at) {
                let k = choose|k: int|
                    0 <= k < last && order.take(last as int)[k] == at;
                assert(order[k] == order[last as int]);
            }
        }
        assert(at >= before.next_output_index);
        assert(entry(before.completed_items, at as u64) is None);
        let item = frame.field("item"@);
        let added = LiveView {
            completed_items: put(before.completed_items, at as u64, item),
            has_tool_call: before.has_tool_call || calls_tool(item),
            ..before
        };
        assert forall|index: u64| #[trigger]
            entry(added.completed_items, index) == (if index >= added.next_output_index
                && seen.contains(index as int) {
                Some(items[index as int])
            } else {
                None
            }) by {
            law_put_then_entry(before.completed_items, at as u64, item, index);
        }
        law_put_then_entry(before.completed_items, at as u64, item, 0);
        assert(keeps(added, items, seen));
        lemma_done_frame(before, frame);
        assert(live_step(before, frame) == emitted(added, false));
        lemma_keeps(added, items, seen, false, default_phase(added), Seq::empty());
        let (after, more) = emitted(added, false)->Ok_0;
        lemma_reaches(added, false, default_phase(added), Seq::empty());
        let all = items_done(
            items,
            state.model,
            state.replay_namespace,
            after.next_output_index,
        );
        assert(events + more =~= all);
    }
}

/// Finished items come out in the order of their places, each once, in whatever
/// order they come in.
pub proof fn law_items_come_out_in_their_order(
    state: LiveView,
    frames: Seq<JsonView>,
    items: Seq<JsonView>,
    order: Seq<int>,
)
    requires
        state == state.cleared(),
        items.len() <= u64::MAX,
        permutes(order, items.len()),
        brings(frames, items, order),
        forall|i: int|
            0 <= i < items.len() ==> settled_item(
                #[trigger] items[i],
                state.model,
                state.replay_namespace,
            ),
    ensures
        followed(state, frames, frames.len()) matches Ok((_, events)) && events == items_done(
            items,
            state.model,
            state.replay_namespace,
            items.len() as int,
        ),
        forall|k: nat| k <= frames.len() ==> #[trigger] followed(state, frames, k) is Ok,
{
    lemma_brought(state, frames, items, order, order.len());
    let seen = order.take(order.len() as int).to_set();
    assert(order.take(order.len() as int) =~= order);
    let (before, events) = followed(state, frames, order.len())->Ok_0;
    let phase = default_phase(before);
    lemma_keeps(before, items, seen, true, phase, Seq::empty());
    lemma_reaches(before, true, phase, Seq::empty());
    let (after, more) = passed_on(before, true, phase, Seq::empty())->Ok_0;
    assert(after.next_output_index == items.len()) by {
        if after.next_output_index < items.len() {
            assert(order.contains(after.next_output_index));
            assert(seen.contains(after.next_output_index));
        }
    }
    if after.completed_items.len() > 0 {
        let index = after.completed_items[0].0;
        lemma_rank_is(after.completed_items, index, 0);
        assert(entry(after.completed_items, index) is Some);
    }
    lemma_last_frame(before, frames.last());
    assert(live_step(before, frames.last()) == emitted(before, true));
    assert(events + more =~= items_done(
        items,
        state.model,
        state.replay_namespace,
        items.len() as int,
    ));
    assert forall|k: nat| k <= frames.len() implies #[trigger] followed(state, frames, k) is Ok by {
        if k <= order.len() {
            lemma_brought(state, frames, items, order, k);
        }
    }
}

proof fn lemma_item_kinds()
    ensures
        "reasoning"@ != "message"@,
        "reasoning"@ != "function_call"@,
        "reasoning"@ != "custom_tool_call"@,
        "reasoning"@ != "web_search_call"@,
        "message"@ != "function_call"@,
        "message"@ != "custom_tool_call"@,
        "message"@ != "web_search_call"@,
        "function_call"@ != "custom_tool_call"@,
        "function_call"@ != "web_search_call"@,
        "custom_tool_call"@ != "web_search_call"@,
{
    reveal_strlit("reasoning");
    reveal_strlit("message");
    reveal_strlit("function_call");
    reveal_strlit("custom_tool_call");
    reveal_strlit("web_search_call");
    assert("reasoning"@.len() == 9 && "message"@.len() == 7 && "function_call"@.len() == 13 && "custom_tool_call"@.len() == 16 && "web_search_call"@.len() == 15);
}

/// A part of an answer is read as what it says it is, with all that it holds:
/// reasoning with its summary and as it came, to be handed back; a message with its
/// text and its phase, unless it is empty; a call with its name, its identity and what
/// it is called with; a search as it came. A part of another kind is passed over.
pub proof fn law_items_are_read_as_what_they_are(
    item: JsonView,
    model: Seq<char>,
    replay_namespace: Seq<char>,
    default: AssistantMessagePhase,
)
    ensures
        ({
            let kind = item.str_field("type"@);
            let read = item_response(item, model, replay_namespace, default);
            &&& kind is None ==> read is Err
            &&& read matches Ok(Some(response)) ==> match response {
                ResponseView::Reasoning { summary, opaque } => {
                    &&& kind == Some("reasoning"@)
                    &&& item_summary(item) == Ok::<Seq<char>, ErrorView>(summary)
                    &&& opaque.payload == item
                    &&& opaque.replay_key == reasoning_key(replay_namespace, model)
                },
                ResponseView::AssistantMessage { content, phase } => {
                    &&& kind == Some("message"@)
                    &&& item_text(item) == Ok::<Seq<char>, ErrorView>(content)
                    &&& content.len() > 0
                    &&& item.field("phase"@) is Null ==> phase == default
                    &&& item.str_field("phase"@) == Some("final_answer"@) ==> phase is FinalAnswer
                    &&& item.str_field("phase"@) == Some("commentary"@) ==> phase is Commentary
                },
                ResponseView::ToolCall { name, arguments, call_id } => {
                    &&& kind == Some("function_call"@)
                    &&& item.str_field("name"@) == Some(name)
                    &&& item.str_field("call_id"@) == Some(call_id)
                    &&& item.str_field("arguments"@) is Some && parsed(
                        item.str_field("arguments"@)->0,
                    ) == Some(arguments)
                    &&& name.len() > 0 && call_id.len() > 0
                },
                ResponseView::CustomToolCall { item_id, name, input, call_id } => {
                    &&& kind == Some("custom_tool_call"@)
                    &&& item.str_field("name"@) == Some(name)
                    &&& item.str_field("call_id"@) == Some(call_id)
                    &&& item.str_field("input"@) == Some(input)
                    &&& item_id is Some ==> item.str_field("id"@) == item_id
                    &&& name.len() > 0 && call_id.len() > 0
                },
                ResponseView::WebSearch { item: search } => kind == Some("web_search_call"@)
                    && search == item,
            }
            &&& read matches Ok(None) ==> {
                ||| kind == Some("message"@) && item_text(item) == Ok::<Seq<char>, ErrorView>(
                    Seq::empty(),
                )
                ||| kind != Some("message"@) && kind != Some("reasoning"@) && kind != Some(
                    "function_call"@,
                ) && kind != Some("custom_tool_call"@) && kind != Some("web_search_call"@)
            }
        }),
{
    lemma_item_kinds();
    reveal_strlit("commentary");
    reveal_strlit("final_answer");
    assert("commentary"@.len() == 10 && "final_answer"@.len() == 12);
    if item.str_field("type"@) == Some("message"@) {
        if let Ok(content) = item_text(item) {
            if content.len() == 0 {
                assert(content =~= Seq::empty());
            }
        }
    }
}

/// The text of a message is what its parts say, one after the other; a part is a text
/// or a refusal.
pub proof fn law_message_text_is_its_parts(parts: Seq<JsonView>, count: nat)
    requires
        0 < count <= parts.len(),
    ensures
        ({
            let part = parts[count - 1];
            let kind = part.str_field("type"@);
            &&& parts_text(parts, 0) == Ok::<Seq<char>, ErrorView>(Seq::empty())
            &&& parts_text(parts, count) matches Ok(text) ==> {
                &&& parts_text(parts, (count - 1) as nat) is Ok
                &&& kind == Some("output_text"@) || kind == Some("refusal"@)
                &&& kind == Some("output_text"@) ==> part.str_field("text"@) is Some && text
                    == parts_text(parts, (count - 1) as nat)->Ok_0 + part.str_field("text"@)->0
                &&& kind == Some("refusal"@) ==> part.str_field("refusal"@) is Some && text
                    == parts_text(parts, (count - 1) as nat)->Ok_0 + part.str_field("refusal"@)->0
            }
            &&& parts_text(parts, (count - 1) as nat) is Ok && kind == Some("output_text"@)
                && part.str_field("text"@) is Some ==> parts_text(parts, count) is Ok
            &&& parts_text(parts, (count - 1) as nat) is Ok && kind == Some("refusal"@)
                && part.str_field("refusal"@) is Some ==> parts_text(parts, count) is Ok
        }),
{
    reveal_strlit("output_text");
    reveal_strlit("refusal");
    assert("output_text"@.len() == 11 && "refusal"@.len() == 7);
}

/// The summary of reasoning is its parts, each on lines of its own.
pub proof fn law_summary_is_its_parts(item: JsonView, i: int)
    requires
        item.field("summary"@) is Array,
        0 <= i < item.field("summary"@)->Array_0.len(),
        item_summary(item) is Ok,
    ensures
        ({
            let part = item.field("summary"@)->Array_0[i];
            &&& part.str_field("type"@) == Some("summary_text"@)
            &&& part.str_field("text"@) is Some
            &&& crate::text::holds_part(item_summary(item)->Ok_0, part.str_field("text"@)->0)
        }),
{
    let parts = item.field("summary"@)->Array_0;
    lemma_summary_parts(parts, parts.len());
    let texts = summary_parts(parts, parts.len())->Ok_0;
    assert(texts[i] == parts[i].str_field("text"@)->0);
    crate::text::law_joined_holds_its_parts(texts, "\n"@, i);
}

proof fn lemma_summary_parts(parts: Seq<JsonView>, count: nat)
    requires
        count <= parts.len(),
        summary_parts(parts, count) is Ok,
    ensures
        summary_parts(parts, count)->Ok_0.len() == count,
        forall|i: int|
            0 <= i < count ==> (#[trigger] parts[i]).str_field("type"@) == Some("summary_text"@)
                && parts[i].str_field("text"@) == Some(summary_parts(parts, count)->Ok_0[i]),
    decreases count,
{
    if count > 0 {
        lemma_summary_parts(parts, (count - 1) as nat);
    }
}

proof fn lemma_frame_kinds()
    ensures
        "response.created"@ != "response.completed"@,
        "response.created"@ != "response.output_item.added"@,
        "response.created"@ != "response.output_item.done"@,
        "response.created"@ != "response.output_text.delta"@,
        "response.created"@ != "response.refusal.delta"@,
        "response.created"@ != "response.reasoning_summary_text.delta"@,
        "response.created"@ != "response.reasoning_summary_part.added"@,
        "response.created"@ != "response.function_call_arguments.delta"@,
        "response.created"@ != "response.custom_tool_call_input.delta"@,
        "response.created"@ != "error"@,
        "response.created"@ != "response.failed"@,
        "response.completed"@ != "response.output_item.added"@,
        "response.completed"@ != "response.output_item.done"@,
        "response.completed"@ != "response.output_text.delta"@,
        "response.completed"@ != "response.refusal.delta"@,
        "response.completed"@ != "response.reasoning_summary_text.delta"@,
        "response.completed"@ != "response.reasoning_summary_part.added"@,
        "response.completed"@ != "response.function_call_arguments.delta"@,
        "response.completed"@ != "response.custom_tool_call_input.delta"@,
        "response.completed"@ != "error"@,
        "response.completed"@ != "response.failed"@,
        "response.output_item.added"@ != "response.output_item.done"@,
        "response.output_item.added"@ != "response.output_text.delta"@,
        "response.output_item.added"@ != "response.refusal.delta"@,
        "response.output_item.added"@ != "response.reasoning_summary_text.delta"@,
        "response.output_item.added"@ != "response.reasoning_summary_part.added"@,
        "response.output_item.added"@ != "response.function_call_arguments.delta"@,
        "response.output_item.added"@ != "response.custom_tool_call_input.delta"@,
        "response.output_item.added"@ != "error"@,
        "response.output_item.added"@ != "response.failed"@,
        "response.output_item.done"@ != "response.output_text.delta"@,
        "response.output_item.done"@ != "response.refusal.delta"@,
        "response.output_item.done"@ != "response.reasoning_summary_text.delta"@,
        "response.output_item.done"@ != "response.reasoning_summary_part.added"@,
        "response.output_item.done"@ != "response.function_call_arguments.delta"@,
        "response.output_item.done"@ != "response.custom_tool_call_input.delta"@,
        "response.output_item.done"@ != "error"@,
        "response.output_item.done"@ != "response.failed"@,
        "response.output_text.delta"@ != "response.reasoning_summary_text.delta"@,
        "response.output_text.delta"@ != "response.reasoning_summary_part.added"@,
        "response.output_text.delta"@ != "response.function_call_arguments.delta"@,
        "response.output_text.delta"@ != "response.custom_tool_call_input.delta"@,
        "response.output_text.delta"@ != "error"@,
        "response.output_text.delta"@ != "response.failed"@,
        "response.refusal.delta"@ != "response.reasoning_summary_text.delta"@,
        "response.refusal.delta"@ != "response.reasoning_summary_part.added"@,
        "response.refusal.delta"@ != "response.function_call_arguments.delta"@,
        "response.refusal.delta"@ != "response.custom_tool_call_input.delta"@,
        "response.refusal.delta"@ != "error"@,
        "response.refusal.delta"@ != "response.failed"@,
        "response.reasoning_summary_text.delta"@ != "response.reasoning_summary_part.added"@,
        "response.reasoning_summary_text.delta"@ != "response.function_call_arguments.delta"@,
        "response.reasoning_summary_text.delta"@ != "response.custom_tool_call_input.delta"@,
        "response.reasoning_summary_text.delta"@ != "error"@,
        "response.reasoning_summary_text.delta"@ != "response.failed"@,
        "response.reasoning_summary_part.added"@ != "response.function_call_arguments.delta"@,
        "response.reasoning_summary_part.added"@ != "response.custom_tool_call_input.delta"@,
        "response.reasoning_summary_part.added"@ != "error"@,
        "response.reasoning_summary_part.added"@ != "response.failed"@,
        "response.function_call_arguments.delta"@ != "error"@,
        "response.function_call_arguments.delta"@ != "response.failed"@,
        "response.custom_tool_call_input.delta"@ != "error"@,
        "response.custom_tool_call_input.delta"@ != "response.failed"@,
{
    reveal_strlit("response.created");
    reveal_strlit("response.completed");
    reveal_strlit("response.output_item.added");
    reveal_strlit("response.output_item.done");
    reveal_strlit("response.output_text.delta");
    reveal_strlit("response.refusal.delta");
    reveal_strlit("response.reasoning_summary_text.delta");
    reveal_strlit("response.reasoning_summary_part.added");
    reveal_strlit("response.function_call_arguments.delta");
    reveal_strlit("response.custom_tool_call_input.delta");
    reveal_strlit("error");
    reveal_strlit("response.failed");
    assert("response.created"@.len() == 16 && "response.completed"@.len() == 18 && "response.output_item.added"@.len() == 26 && "response.output_item.done"@.len() == 25 && "response.output_text.delta"@.len() == 26 && "response.refusal.delta"@.len() == 22 && "response.reasoning_summary_text.delta"@.len() == 37 && "response.reasoning_summary_part.added"@.len() == 37 && "response.function_call_arguments.delta"@.len() == 38 && "response.custom_tool_call_input.delta"@.len() == 37 && "error"@.len() == 5 && "response.failed"@.len() == 15);
    assert("response.output_item.added"@[16] != "response.output_text.delta"@[16]);
    assert("response.reasoning_summary_text.delta"@[27] != "response.reasoning_summary_part.added"@[27]);
    assert("response.reasoning_summary_text.delta"@[9] != "response.custom_tool_call_input.delta"@[9]);
    assert("response.reasoning_summary_part.added"@[9] != "response.custom_tool_call_input.delta"@[9]);
}

/// While an answer comes in, each piece is passed on as it comes: of a text or a
/// refusal with the phase of its message, of the summary of reasoning, and of what a
/// tool is called with under the identity of its item. None of them changes what is
/// known, and a piece of a message or of a call that was not announced is refused. An
/// event that reports a failure is an error.
pub proof fn law_live_frames_are_passed_on(state: LiveView, frame: JsonView)
    ensures
        ({
            let kind = frame.str_field("type"@);
            let step = live_step(state, frame);
            let item = frame.str_field("item_id"@);
            let piece = frame.str_field("delta"@);
            let named = item is Some && item->0.len() > 0;
            &&& kind is None || kind == Some("error"@) || kind == Some("response.failed"@) ==> step
                is Err
            &&& kind == Some("response.output_text.delta"@) || kind == Some(
                "response.refusal.delta"@,
            ) ==> {
                &&& step is Ok <==> named && piece is Some && state.messages.contains_key(item->0)
                &&& step matches Ok((after, events)) ==> after == state && events.len() == 1 && (
                events[0] matches EventView::Update(UpdateView::AssistantDelta { content, phase })
                    && Some(content) == piece && phase == state.messages[item->0])
            }
            &&& kind == Some("response.reasoning_summary_text.delta"@) ==> {
                &&& step is Ok <==> piece is Some
                &&& step matches Ok((after, events)) ==> after == state && events.len() == 1 && (
                events[0] matches EventView::Update(UpdateView::ReasoningSummaryDelta(text))
                    && Some(text) == piece)
            }
            &&& kind == Some("response.function_call_arguments.delta"@) || kind == Some(
                "response.custom_tool_call_input.delta"@,
            ) ==> {
                &&& step is Ok <==> named && piece is Some && state.calls.contains(item->0)
                &&& step matches Ok((after, events)) ==> after == state && events.len() == 1 && (
                events[0] matches EventView::Update(UpdateView::ToolCallDelta { item_id, delta })
                    && Some(delta) == piece && Some(item_id) == item)
            }
            &&& kind == Some("response.reasoning_summary_part.added"@) ==> (step matches Ok(
                (after, events),
            ) && after == state && events.len() == 1 && events[0] == EventView::Update(
                UpdateView::ReasoningSummaryPartAdded,
            ))
        }),
{
    lemma_frame_kinds();
}

/// An item that is announced is known from then on: a message with its phase, which is
/// commentary where it has none, and a call under its identity; a call and a search
/// are announced to the user.
pub proof fn law_announced_items_are_known(state: LiveView, item: JsonView)
    requires
        item_added_step(state, item) is Ok,
    ensures
        ({
            let kind = item.str_field("type"@);
            let (after, events) = item_added_step(state, item)->Ok_0;
            let id = item.str_field("id"@);
            let calls = kind == Some("function_call"@) || kind == Some("custom_tool_call"@);
            &&& kind == Some("message"@) ==> {
                &&& id is Some && after.messages == state.messages.insert(
                    id->0,
                    after.messages[id->0],
                )
                &&& item.field("phase"@) is Null ==> after.messages[id->0] is Commentary
                &&& item.str_field("phase"@) == Some("final_answer"@) ==> after.messages[id->0]
                    is FinalAnswer
                &&& item.str_field("phase"@) == Some("commentary"@) ==> after.messages[id->0]
                    is Commentary
                &&& events.len() == 0
            }
            &&& kind != Some("message"@) ==> after.messages == state.messages
            &&& calls ==> {
                &&& id is Some && after.calls == state.calls.insert(id->0)
                &&& after.has_tool_call
                &&& events.len() == 1 && (events[0] matches EventView::Update(
                    UpdateView::ToolCallStarted { item_id, call_id, name },
                ) && Some(item_id) == id && call_id == item.str_field("call_id"@) && Some(name)
                    == item.str_field("name"@))
            }
            &&& !calls ==> after.calls == state.calls && after.has_tool_call == state.has_tool_call
            &&& kind == Some("web_search_call"@) ==> events.len() == 1 && (events[0]
                matches EventView::Update(UpdateView::WebSearchUpdate { item_id, action }) && Some(
                item_id,
            ) == id && (action is None <==> item.field("action"@) is Null) && (action matches Some(
                action,
            ) ==> action == item.field("action"@)))
            &&& after.completed_items == state.completed_items && after.next_output_index
                == state.next_output_index
        }),
{
    lemma_item_kinds();
    reveal_strlit("commentary");
    reveal_strlit("final_answer");
    assert("commentary"@.len() == 10 && "final_answer"@.len() == 12);
}

/// An item that is done is kept under its number, which no other item had, and calls
/// of tools are remembered.
pub proof fn law_done_items_are_kept(state: LiveView, frame: JsonView)
    ensures
        ({
            let index = frame.field("output_index"@).as_u64();
            let item = frame.field("item"@);
            let kind = item.str_field("type"@);
            let kept = LiveView {
                completed_items: put(state.completed_items, index->0, item),
                has_tool_call: state.has_tool_call || kind == Some("function_call"@) || kind
                    == Some("custom_tool_call"@),
                ..state
            };
            &&& index is None ==> item_done_step(state, frame) is Err
            &&& index is Some && (index->0 < state.next_output_index || entry(
                state.completed_items,
                index->0,
            ) is Some) ==> item_done_step(state, frame) is Err
            &&& index is Some && index->0 >= state.next_output_index && entry(
                state.completed_items,
                index->0,
            ) is None ==> item_done_step(state, frame) == emitted(kept, false)
        }),
{
}

/// A message without a phase is held back until it is known whether a tool is called;
/// it is the final answer if and only if none is.
pub proof fn law_unphased_message_waits(state: LiveView, item: JsonView, response_completed: bool)
    requires
        item.str_field("type"@) == Some("message"@),
        item.field("phase"@) is Null,
    ensures
        awaits(state, item, response_completed) <==> !response_completed && !state.has_tool_call,
        default_phase(state) is FinalAnswer <==> !state.has_tool_call,
        item_response(item, state.model, state.replay_namespace, default_phase(state)) matches Ok(
            Some(ResponseView::AssistantMessage { phase, .. }),
        ) ==> (phase is FinalAnswer <==> !state.has_tool_call),
{
    lemma_item_kinds();
}

proof fn lemma_ending(frames: Seq<JsonView>, count: nat)
    requires
        count <= frames.len(),
    ensures
        ending(frames, count) matches Ok((done, _)) ==> {
            &&& done <==> exists|i: int|
                0 <= i < count && (#[trigger] frames[i]).str_field("type"@) == Some(
                    "response.completed"@,
                )
            &&& forall|i: int|
                0 <= i < count ==> (#[trigger] frames[i]).str_field("type"@) is Some
                    && frames[i].str_field("type"@) != Some("error"@) && frames[i].str_field(
                    "type"@,
                ) != Some("response.failed"@) && frames[i].str_field("type"@) != Some(
                    "response.incomplete"@,
                )
        },
    decreases count,
{
    reveal_strlit("response.completed");
    reveal_strlit("error");
    reveal_strlit("response.failed");
    reveal_strlit("response.incomplete");
    assert("response.completed"@.len() == 18 && "error"@.len() == 5 && "response.failed"@.len() == 15 && "response.incomplete"@.len() == 19);
    if count > 0 {
        lemma_ending(frames, (count - 1) as nat);
        if ending(frames, count) is Ok {
            let done = ending(frames, count)->Ok_0.0;
            if exists|i: int|
                0 <= i < count && (#[trigger] frames[i]).str_field("type"@) == Some(
                    "response.completed"@,
                ) {
                let i = choose|i: int|
                    0 <= i < count && (#[trigger] frames[i]).str_field("type"@) == Some(
                        "response.completed"@,
                    );
                if i < count - 1 {
                    assert(frames[i].str_field("type"@) == Some("response.completed"@));
                }
                assert(done);
            } else if done {
                assert(frames[count - 1].str_field("type"@) == Some("response.completed"@));
            }
        }
    }
}

/// The end of an answer is passed on, with the limits that came with it, if and only
/// if an event says that it is complete and none that it failed.
pub proof fn law_answer_is_complete(frames: Seq<JsonView>, rate_limits: Seq<JsonView>)
    ensures
        answer(frames, rate_limits) matches Ok(events) ==> {
            &&& events.len() == 1
            &&& events[0] matches EventView::Completed { rate_limits: limits, .. } && limits
                == rate_limits
            &&& exists|i: int|
                0 <= i < frames.len() && (#[trigger] frames[i]).str_field("type"@) == Some(
                    "response.completed"@,
                )
            &&& forall|i: int|
                0 <= i < frames.len() ==> (#[trigger] frames[i]).str_field("type"@) != Some(
                    "error"@,
                ) && frames[i].str_field("type"@) != Some("response.failed"@) && frames[i].str_field(
                    "type"@,
                ) != Some("response.incomplete"@)
        },
        answer(frames, rate_limits) == Err::<Seq<EventView>, ErrorView>(
            ErrorView::Incomplete("Responses"@),
        ) ==> forall|i: int|
            0 <= i < frames.len() ==> (#[trigger] frames[i]).str_field("type"@) != Some(
                "response.completed"@,
            ),
{
    lemma_ending(frames, frames.len());
    lemma_ending_is_no_gap(frames, frames.len());
}

proof fn lemma_ending_is_no_gap(frames: Seq<JsonView>, count: nat)
    requires
        count <= frames.len(),
    ensures
        ending(frames, count) matches Err(error) ==> !(error is Incomplete),
    decreases count,
{
    if count > 0 {
        lemma_ending_is_no_gap(frames, (count - 1) as nat);
    }
}

/// What is counted is that of the last event that says that the answer is complete.
pub proof fn law_usage_is_that_of_the_end(frames: Seq<JsonView>, count: nat)
    requires
        0 < count <= frames.len(),
        ending(frames, count) is Ok,
    ensures
        frames[count - 1].str_field("type"@) == Some("response.completed"@) ==> {
            let usage = frames[count - 1].field("response"@).get("usage"@);
            let counted = ending(frames, count)->Ok_0.1;
            &&& counted is Some <==> usage is Some
            &&& usage matches Some(usage) ==> {
                let told = counted->0;
                &&& told.field("input_tokens"@) == usage.field("input_tokens"@)
                &&& told.field("output_tokens"@) == usage.field("output_tokens"@)
                &&& told.field("total_tokens"@) == usage.field("total_tokens"@)
                &&& told.field("cached_input_tokens"@) == usage.field(
                    "input_tokens_details"@,
                ).field("cached_tokens"@)
                &&& told.field("cache_write_input_tokens"@) == usage.field(
                    "input_tokens_details"@,
                ).field("cache_write_tokens"@)
                &&& told.field("reasoning_output_tokens"@) == usage.field(
                    "output_tokens_details"@,
                ).field("reasoning_tokens"@)
            }
        },
        frames[count - 1].str_field("type"@) != Some("response.completed"@) ==> ending(
            frames,
            count,
        ) == ending(frames, (count - 1) as nat),
{
    broadcast use crate::json::lemma_with, crate::json::lemma_no_fields;

    reveal_strlit("input_tokens");
    reveal_strlit("cached_input_tokens");
    reveal_strlit("cache_write_input_tokens");
    reveal_strlit("output_tokens");
    reveal_strlit("reasoning_output_tokens");
    reveal_strlit("total_tokens");
    assert("input_tokens"@.len() == 12 && "cached_input_tokens"@.len() == 19 && "cache_write_input_tokens"@.len() == 24 && "output_tokens"@.len() == 13 && "reasoning_output_tokens"@.len() == 23 && "total_tokens"@.len() == 12);
    assert("input_tokens"@[0] != "total_tokens"@[0]);
}

/// What the server makes of the history is the one item of its answer that is a
/// compaction: a second one is refused, and so is an answer that does not end or has
/// none.
pub proof fn law_compaction_is_the_one_item(state: (Option<JsonView>, bool), frame: JsonView)
    ensures
        ({
            let kind = frame.str_field("type"@);
            let item = frame.field("item"@);
            let brings = kind == Some("response.output_item.done"@) && item.str_field("type"@)
                == Some("compaction"@);
            let step = compaction_step(state, frame);
            &&& brings && state.0 is None ==> step == Ok::<(Option<JsonView>, bool), ErrorView>(
                (Some(item), state.1),
            )
            &&& brings && state.0 is Some ==> step is Err
            &&& kind == Some("response.completed"@) ==> step == Ok::<
                (Option<JsonView>, bool),
                ErrorView,
            >((state.0, true))
            &&& kind == Some("error"@) || kind == Some("response.failed"@) ==> step is Err
            &&& step matches Ok(after) ==> (after.0 == state.0 || brings) && (after.1 == state.1
                || kind == Some("response.completed"@))
            &&& compaction_result(state) is Ok <==> state.1 && state.0 is Some
            &&& compaction_result(state) matches Ok(value) ==> state.0 == Some(value)
        }),
{
    reveal_strlit("response.output_item.done");
    reveal_strlit("response.completed");
    reveal_strlit("response.created");
    reveal_strlit("response.in_progress");
    reveal_strlit("response.output_item.added");
    reveal_strlit("ping");
    reveal_strlit("error");
    reveal_strlit("response.failed");
    assert("response.output_item.done"@.len() == 25 && "response.completed"@.len() == 18 && "response.created"@.len() == 16 && "response.in_progress"@.len() == 20 && "response.output_item.added"@.len() == 26 && "ping"@.len() == 4 && "error"@.len() == 5 && "response.failed"@.len() == 15);
    let item = frame.field("item"@);
    assert(item.str_field("type"@) == Some("compaction"@) <==> item.field("type"@)
        == JsonView::Text("compaction"@));
}

/// A custom call that came in an answer is sent back as it came.
pub proof fn law_custom_call_is_sent_back(
    item_id: Seq<char>,
    call_id: Seq<char>,
    name: Seq<char>,
    input: Seq<char>,
    model: Seq<char>,
    replay_namespace: Seq<char>,
    default: AssistantMessagePhase,
)
    requires
        item_id.len() > 0,
        call_id.len() > 0,
        name.len() > 0,
    ensures
        item_response(
            crate::api::responses::call_json(
                crate::surface::ToolKind::Custom,
                Some(item_id),
                call_id,
                name,
                crate::surface::ToolInputView::Text(input),
                crate::api::responses::Profile::Codex,
            ),
            model,
            replay_namespace,
            default,
        ) == Ok::<Option<ResponseView>, ErrorView>(
            Some(ResponseView::CustomToolCall { item_id: Some(item_id), name, input, call_id }),
        ),
{
    broadcast use crate::json::lemma_with, crate::json::lemma_no_fields;

    lemma_item_kinds();
    reveal_strlit("type");
    reveal_strlit("call_id");
    reveal_strlit("name");
    reveal_strlit("input");
    reveal_strlit("id");
    assert("type"@.len() == 4 && "call_id"@.len() == 7 && "name"@.len() == 4 && "input"@.len() == 5 && "id"@.len() == 2);
    assert("type"@[0] != "name"@[0]);
}

} // verus!
