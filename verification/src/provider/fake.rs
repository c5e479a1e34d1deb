//! The scripted provider: it answers with the responses of a script, in turn.
use crate::event::{
    is_masked, masked_by_latest, AssistantMessagePhase, Event, ThreadEventData, ToolResultEvent,
};
use crate::json::{Json, JsonView};
use crate::model::{
    completed, done, emit_completed, emit_done, event_views, EventView, ModelEvent, ModelResponse,
    ResponseView,
};
use crate::passage::{replace_parts, replaced};
use crate::provider::{
    add_model, model_views, no_bindings, Model, ModelView, DEFAULT_MODEL, FAKE_PROVIDER,
};
use crate::surface::shown_output;
use crate::text::views;
use vstd::prelude::*;

verus! {

/// Why the script does not answer.
#[derive(Clone, Copy, Debug, PartialEq, Eq, Structural)]
pub enum ScriptError {
    Exhausted,
    InvalidItem,
}

impl ScriptError {
    /// The words of the error.
    pub open spec fn words(self) -> Seq<char> {
        match self {
            ScriptError::Exhausted => "fake model script has no response remaining"@,
            ScriptError::InvalidItem => "fake model script contains invalid output item"@,
        }
    }

    /// The words of the error.
    pub fn message(self) -> (text: &'static str)
        ensures
            text@ == self.words(),
    {
        match self {
            ScriptError::Exhausted => "fake model script has no response remaining",
            ScriptError::InvalidItem => "fake model script contains invalid output item",
        }
    }
}

/// The text of a tool result, or that of its output.
pub open spec fn output_text(value: JsonView) -> Option<Seq<char>> {
    match value.as_str() {
        Some(text) => Some(text),
        None => value.str_field("output"@),
    }
}

/// What an event tells of a tool's output.
pub open spec fn told_output(event: Event, masked: bool) -> Option<Seq<char>> {
    match event.data {
        ThreadEventData::ToolResult(
            ToolResultEvent::Custom { result, masked_result, .. },
        ) => output_text(shown_output(result, masked_result, false, masked)),
        ThreadEventData::ToolResult(
            ToolResultEvent::Function { result, masked_result, .. },
        ) => output_text(shown_output(result, masked_result, false, masked)),
        _ => None,
    }
}

fn text_of_output(value: &Json) -> (text: Option<String>)
    ensures
        match text {
            Some(text) => output_text(value@) == Some(text@),
            None => output_text(value@) is None,
        },
{
    match value.as_str() {
        Some(text) => Some(text.to_owned()),
        None => match value.str_field("output") {
            Some(text) => Some(text.to_owned()),
            None => None,
        },
    }
}

fn told_text(event: &Event, masked: bool) -> (text: Option<String>)
    ensures
        match text {
            Some(text) => told_output(*event, masked) == Some(text@),
            None => told_output(*event, masked) is None,
        },
{
    match &event.data {
        ThreadEventData::ToolResult(value) => {
            let (result, masked_result) = match value {
                ToolResultEvent::Custom { result, masked_result, .. } => (result, masked_result),
                ToolResultEvent::Function { result, masked_result, .. } => (result, masked_result),
            };
            match masked_result {
                Some(other) => text_of_output(
                    if masked {
                        other
                    } else {
                        result
                    },
                ),
                None => text_of_output(result),
            }
        },
        _ => None,
    }
}

/// The latest output among the first `count` events.
pub open spec fn latest_output(events: Seq<Event>, count: nat) -> Option<Seq<char>>
    decreases count,
{
    if count == 0 {
        None
    } else {
        match told_output(
            events[count - 1],
            masked_by_latest(events).contains(events[count - 1].sequence),
        ) {
            Some(text) => Some(text),
            None => latest_output(events, (count - 1) as nat),
        }
    }
}

fn find_output(events: &Vec<Event>) -> (text: Option<String>)
    ensures
        match text {
            Some(text) => latest_output(events@, events@.len()) == Some(text@),
            None => latest_output(events@, events@.len()) is None,
        },
{
    let mut i: usize = events.len();
    while i > 0
        invariant
            i <= events.len(),
            latest_output(events@, events@.len()) == latest_output(events@, i as nat),
        decreases i,
    {
        let event = &events[i - 1];
        let masked = is_masked(events, event.sequence);
        match told_text(event, masked) {
            Some(text) => {
                return Some(text);
            },
            None => {},
        }
        i -= 1;
    }
    None
}

/// A response with the latest output in it, where it asks for one.
pub open spec fn filled(response: ResponseView, output: Option<Seq<char>>) -> ResponseView {
    match (response, output) {
        (ResponseView::AssistantMessage { content, phase }, Some(output)) => {
            ResponseView::AssistantMessage {
                content: replaced(content, "{{tool_output}}"@, output, 0),
                phase,
            }
        },
        _ => response,
    }
}

fn fill(response: ModelResponse, events: &Vec<Event>) -> (result: ModelResponse)
    ensures
        result@ == filled(response@, latest_output(events@, events@.len())),
{
    match response {
        ModelResponse::AssistantMessage { content, phase } => match find_output(events) {
            Some(output) => {
                proof {
                    reveal_strlit("{{tool_output}}");
                }
                ModelResponse::AssistantMessage {
                    content: replace_parts(content.as_str(), "{{tool_output}}", output.as_str()),
                    phase,
                }
            },
            None => ModelResponse::AssistantMessage { content, phase },
        },
        other => other,
    }
}

/// The words of a phase.
pub open spec fn phase_words(phase: AssistantMessagePhase) -> Seq<char> {
    match phase {
        AssistantMessagePhase::Commentary => "commentary"@,
        AssistantMessagePhase::FinalAnswer => "final_answer"@,
    }
}

/// A response as an output item; none where it is no item.
pub open spec fn item_of(response: ResponseView) -> Option<JsonView> {
    match response {
        ResponseView::AssistantMessage { content, phase } => Some(
            JsonView::object().with_text("type"@, "message"@).with_text(
                "role"@,
                "assistant"@,
            ).with(
                "content"@,
                JsonView::single(
                    JsonView::object().with_text("type"@, "output_text"@).with_text(
                        "text"@,
                        content,
                    ),
                ),
            ).with_text("phase"@, phase_words(phase)),
        ),
        ResponseView::WebSearch { item } => if item is Object {
            Some(item)
        } else {
            None
        },
        ResponseView::Reasoning { summary, opaque } => Some(
            JsonView::object().with_text("type"@, "reasoning"@).with_text(
                "summary"@,
                summary,
            ).with(
                "opaque"@,
                JsonView::object().with_text("replay_key"@, opaque.replay_key).with(
                    "payload"@,
                    opaque.payload,
                ),
            ),
        ),
        ResponseView::ToolCall { name, arguments, call_id } => Some(
            JsonView::object().with_text("type"@, "function_call"@).with_text(
                "name"@,
                name,
            ).with_text("arguments"@, crate::json::printed(arguments)).with_text(
                "call_id"@,
                call_id,
            ),
        ),
        ResponseView::CustomToolCall { item_id, name, input, call_id } => Some(
            JsonView::object().with_text("type"@, "custom_tool_call"@).with(
                "id"@,
                match item_id {
                    Some(id) => JsonView::Text(id),
                    None => JsonView::Null,
                },
            ).with_text("status"@, "completed"@).with_text("call_id"@, call_id).with_text(
                "name"@,
                name,
            ).with_text("input"@, input),
        ),
    }
}

/// A response as an output item.
pub fn response_item(response: &ModelResponse) -> (item: Option<Json>)
    ensures
        match item {
            Some(item) => item_of(response@) == Some(item@),
            None => item_of(response@) is None,
        },
{
    match response {
        ModelResponse::AssistantMessage { content, phase } => {
            let phase = match phase {
                AssistantMessagePhase::Commentary => "commentary",
                AssistantMessagePhase::FinalAnswer => "final_answer",
            };
            Some(
                Json::object().with_text("type", "message").with_text("role", "assistant").with(
                    "content",
                    Json::single(
                        Json::object().with_text("type", "output_text").with_text(
                            "text",
                            content.as_str(),
                        ),
                    ),
                ).with_text("phase", phase),
            )
        },
        ModelResponse::WebSearch { item } => if item.is_object() {
            Some(item.clone())
        } else {
            None
        },
        ModelResponse::Reasoning { summary, opaque } => Some(
            Json::object().with_text("type", "reasoning").with_text(
                "summary",
                summary.as_str(),
            ).with(
                "opaque",
                Json::object().with_text("replay_key", opaque.replay_key.as_str()).with(
                    "payload",
                    opaque.payload.clone(),
                ),
            ),
        ),
        ModelResponse::ToolCall { name, arguments, call_id } => Some(
            Json::object().with_text("type", "function_call").with_text(
                "name",
                name.as_str(),
            ).with_text("arguments", arguments.to_text().as_str()).with_text(
                "call_id",
                call_id.as_str(),
            ),
        ),
        ModelResponse::CustomToolCall { item_id, name, input, call_id } => {
            let id = match item_id {
                Some(id) => Json::text(id.as_str()),
                None => Json::Null,
            };
            Some(
                Json::object().with_text("type", "custom_tool_call").with("id", id).with_text(
                    "status",
                    "completed",
                ).with_text("call_id", call_id.as_str()).with_text(
                    "name",
                    name.as_str(),
                ).with_text("input", input.as_str()),
            )
        },
    }
}

/// What responses stand for.
pub open spec fn response_views(responses: Seq<ModelResponse>) -> Seq<ResponseView> {
    Seq::new(responses.len(), |i: int| responses[i]@)
}

/// What the script answers to a history, and what is left of it.
pub open spec fn scripted(responses: Seq<ResponseView>, events: Seq<Event>) -> (
    Result<Seq<EventView>, ScriptError>,
    Seq<ResponseView>,
) {
    if responses.len() == 0 {
        (Err(ScriptError::Exhausted), responses)
    } else {
        let response = filled(responses[0], latest_output(events, events.len()));
        (
            if item_of(response) is None {
                Err(ScriptError::InvalidItem)
            } else {
                Ok(Seq::empty().push(done(response)).push(completed(None)))
            },
            responses.skip(1),
        )
    }
}

/// The next answer of the script.
pub fn stream(responses: &mut Vec<ModelResponse>, events: &Vec<Event>) -> (result: Result<
    Vec<ModelEvent>,
    ScriptError,
>)
    ensures
        match result {
            Ok(answer) => scripted(response_views(old(responses)@), events@).0 == Ok::<
                Seq<EventView>,
                ScriptError,
            >(event_views(answer@)),
            Err(error) => scripted(response_views(old(responses)@), events@).0 == Err::<
                Seq<EventView>,
                ScriptError,
            >(error),
        },
        response_views(final(responses)@) == scripted(
            response_views(old(responses)@),
            events@,
        ).1,
{
    if responses.len() == 0 {
        return Err(ScriptError::Exhausted);
    }
    let response = fill(responses.remove(0), events);
    assert(response_views(responses@) =~= response_views(old(responses)@).skip(1));
    if response_item(&response).is_none() {
        return Err(ScriptError::InvalidItem);
    }
    let mut answer: Vec<ModelEvent> = Vec::new();
    assert(event_views(answer@) =~= Seq::empty());
    emit_done(&mut answer, response);
    emit_completed(&mut answer, None);
    Ok(answer)
}

/// The model of the script.
pub open spec fn script_model() -> ModelView {
    ModelView {
        provider: FAKE_PROVIDER@,
        id: DEFAULT_MODEL@,
        display_name: DEFAULT_MODEL@,
        description: None,
        default_reasoning_effort: "medium"@,
        supported_reasoning_efforts: seq!["low"@, "medium"@, "high"@, "xhigh"@],
        context_window: None,
        auto_compact_token_limit: None,
        tool_bindings: Seq::empty(),
    }
}

/// The models of the script.
pub fn models() -> (models: Vec<Model>)
    ensures
        model_views(models@) == Seq::empty().push(script_model()),
{
    let efforts = vec![
        "low".to_owned(),
        "medium".to_owned(),
        "high".to_owned(),
        "xhigh".to_owned(),
    ];
    assert(views(efforts@) =~= script_model().supported_reasoning_efforts);
    let mut models: Vec<Model> = Vec::new();
    assert(model_views(models@) =~= Seq::empty());
    add_model(
        &mut models,
        Model {
            provider: FAKE_PROVIDER.to_owned(),
            id: DEFAULT_MODEL.to_owned(),
            display_name: DEFAULT_MODEL.to_owned(),
            description: None,
            default_reasoning_effort: "medium".to_owned(),
            supported_reasoning_efforts: efforts,
            context_window: None,
            auto_compact_token_limit: None,
            tool_bindings: no_bindings(),
        },
    );
    models
}

/// The answers of a script are given one after the other, each once, in their order;
/// after the last there is none.
pub proof fn law_answers_are_given_in_order(responses: Seq<ResponseView>, events: Seq<Event>)
    ensures
        ({
            let (answer, left) = scripted(responses, events);
            let output = latest_output(events, events.len());
            &&& responses.len() == 0 ==> answer == Err::<Seq<EventView>, ScriptError>(
                ScriptError::Exhausted,
            ) && left == responses
            &&& responses.len() > 0 ==> left.len() == responses.len() - 1 && forall|i: int|
                0 <= i < left.len() ==> #[trigger] left[i] == responses[i + 1]
            &&& responses.len() > 0 && answer is Err ==> answer->Err_0 is InvalidItem
            &&& answer matches Ok(given) ==> given.len() == 2 && given[1] == completed(None) && (
            output is None || !(responses[0] is AssistantMessage) ==> given[0] == done(
                responses[0],
            ))
        }),
        scripted(responses, events).0 is Err && responses.len() > 0 ==> responses[0] is WebSearch,
{
}

/// Only what the assistant says is filled in, with the last output of a tool.
pub proof fn law_only_messages_are_filled(response: ResponseView, output: Option<Seq<char>>)
    ensures
        !(response is AssistantMessage) ==> filled(response, output) == response,
        output is None ==> filled(response, output) == response,
        response matches ResponseView::AssistantMessage { phase, .. } ==> (filled(
            response,
            output,
        ) matches ResponseView::AssistantMessage { phase: kept, .. } && kept == phase),
{
}

/// The latest output is that of the last event that has one.
pub proof fn law_latest_output_is_the_last(events: Seq<Event>, count: nat, i: int)
    requires
        0 <= i < count <= events.len(),
        told_output(events[i], masked_by_latest(events).contains(events[i].sequence)) is Some,
        forall|j: int|
            i < j < count ==> told_output(
                #[trigger] events[j],
                masked_by_latest(events).contains(events[j].sequence),
            ) is None,
    ensures
        latest_output(events, count) == told_output(
            events[i],
            masked_by_latest(events).contains(events[i].sequence),
        ),
    decreases count,
{
    if i < count - 1 {
        assert(told_output(
            events[count - 1],
            masked_by_latest(events).contains(events[count - 1].sequence),
        ) is None);
        law_latest_output_is_the_last(events, (count - 1) as nat, i);
    }
}

/// What an item says: who speaks and what, which tool is called with what, and a search
/// as it is.
pub proof fn law_item_says_what_was_answered(response: ResponseView)
    ensures
        item_of(response) is None <==> (response matches ResponseView::WebSearch { item } && !(
        item is Object)),
        item_of(response) matches Some(item) ==> match response {
            ResponseView::AssistantMessage { content, phase } => {
                &&& item.str_field("type"@) == Some("message"@)
                &&& item.str_field("role"@) == Some("assistant"@)
                &&& item.field("content"@) matches JsonView::Array(parts) && parts.len() == 1
                    && parts[0].str_field("text"@) == Some(content)
                &&& phase is Commentary ==> item.str_field("phase"@) == Some("commentary"@)
                &&& phase is FinalAnswer ==> item.str_field("phase"@) == Some("final_answer"@)
            },
            ResponseView::WebSearch { item: search } => item == search,
            ResponseView::Reasoning { summary, opaque } => {
                &&& item.str_field("type"@) == Some("reasoning"@)
                &&& item.str_field("summary"@) == Some(summary)
                &&& item.field("opaque"@).str_field("replay_key"@) == Some(opaque.replay_key)
                &&& item.field("opaque"@).field("payload"@) == opaque.payload
            },
            ResponseView::ToolCall { name, arguments, call_id } => {
                &&& item.str_field("type"@) == Some("function_call"@)
                &&& item.str_field("name"@) == Some(name)
                &&& item.str_field("call_id"@) == Some(call_id)
                &&& item.str_field("arguments"@) == Some(crate::json::printed(arguments))
            },
            ResponseView::CustomToolCall { item_id, name, input, call_id } => {
                &&& item.str_field("type"@) == Some("custom_tool_call"@)
                &&& item.str_field("id"@) == item_id
                &&& item.str_field("name"@) == Some(name)
                &&& item.str_field("input"@) == Some(input)
                &&& item.str_field("call_id"@) == Some(call_id)
            },
        },
{
    broadcast use crate::json::lemma_with, crate::json::lemma_no_fields;

    reveal_strlit("type");
    reveal_strlit("role");
    reveal_strlit("content");
    reveal_strlit("phase");
    reveal_strlit("text");
    reveal_strlit("summary");
    reveal_strlit("opaque");
    reveal_strlit("replay_key");
    reveal_strlit("payload");
    reveal_strlit("name");
    reveal_strlit("arguments");
    reveal_strlit("call_id");
    reveal_strlit("id");
    reveal_strlit("status");
    reveal_strlit("input");
    assert("type"@.len() == 4 && "role"@.len() == 4 && "content"@.len() == 7 && "phase"@.len() == 5 && "text"@.len() == 4 && "summary"@.len() == 7 && "opaque"@.len() == 6 && "replay_key"@.len() == 10 && "payload"@.len() == 7 && "name"@.len() == 4 && "arguments"@.len() == 9 && "call_id"@.len() == 7 && "id"@.len() == 2 && "status"@.len() == 6 && "input"@.len() == 5);
    assert("type"@[0] != "role"@[0]);
    assert("type"@[1] != "text"@[1]);
    assert("type"@[0] != "name"@[0]);
    assert("role"@[0] != "text"@[0]);
    assert("role"@[0] != "name"@[0]);
    assert("text"@[0] != "name"@[0]);
    assert("content"@[0] != "summary"@[0]);
    assert("content"@[0] != "payload"@[0]);
    assert("content"@[1] != "call_id"@[1]);
    assert("summary"@[0] != "payload"@[0]);
    assert("summary"@[0] != "call_id"@[0]);
    assert("payload"@[0] != "call_id"@[0]);
    assert("phase"@[0] != "input"@[0]);
    assert("opaque"@[0] != "status"@[0]);
}

} // verus!
