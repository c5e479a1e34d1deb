//! The Chat Completions API.
use crate::api::common::{
    chat_messages, chat_request, chat_tools, function_tools, incomplete_stream, invalid, needed_u64,
    request_counted, required_u64, uncounted, ApiError, ErrorView,
};
use crate::event::{AssistantMessagePhase, OpaqueState};
use crate::json::{json_option, json_views, parsed, printed, Json, JsonView};
use crate::model::{
    completed, done, emit, emit_completed, emit_done, event_views, said, thought, EventView,
    ModelEvent, ModelRequest, ModelResponse, ModelStreamEvent, ResponseView, UpdateView,
};
use crate::surface::OpaqueView;
use crate::table::{entry, lemma_same_keys, ordered, position, put};
use crate::text::{concat2, concat3, same_text};
use vstd::prelude::*;

verus! {

/// The body of a request.
pub open spec fn body_json(request: ModelRequest) -> JsonView {
    let tools = chat_tools(request.tools@, request.tools@.len());
    let plain = JsonView::object().with_text("model"@, request.model@).with(
        "messages"@,
        JsonView::Array(chat_request(request)),
    ).with("stream"@, JsonView::Bool(true)).with(
        "stream_options"@,
        JsonView::object().with("include_usage"@, JsonView::Bool(true)),
    );
    let offering = if tools.len() == 0 {
        plain
    } else {
        plain.with("tools"@, JsonView::Array(tools)).with_text("tool_choice"@, "auto"@).with(
            "parallel_tool_calls"@,
            JsonView::Bool(true),
        )
    };
    if request.reasoning_effort@ == "default"@ {
        offering
    } else {
        offering.with_text("reasoning_effort"@, request.reasoning_effort@)
    }
}

/// The body of a request.
pub fn request_body(request: &ModelRequest) -> (result: Result<Json, ApiError>)
    ensures
        match result {
            Ok(body) => request_counted(*request) && body@ == body_json(*request),
            Err(error) => !request_counted(*request) && error@ == uncounted(),
        },
{
    let messages = match chat_messages(request) {
        Ok(messages) => messages,
        Err(error) => {
            return Err(error);
        },
    };
    let tools = function_tools(&request.tools);
    let mut body = Json::object().with_text("model", request.model.as_str()).with(
        "messages",
        Json::array(messages),
    ).with("stream", Json::Bool(true)).with(
        "stream_options",
        Json::object().with("include_usage", Json::Bool(true)),
    );
    assert(tools.len() == json_views(tools@).len());
    if tools.len() > 0 {
        body = body.with("tools", Json::array(tools)).with_text("tool_choice", "auto").with(
            "parallel_tool_calls",
            Json::Bool(true),
        );
    }
    if !same_text(request.reasoning_effort.as_str(), "default") {
        body = body.with_text("reasoning_effort", request.reasoning_effort.as_str());
    }
    Ok(body)
}

/// The error that a frame reports.
pub open spec fn frame_error(frame: JsonView) -> ErrorView {
    ErrorView::Invalid("Chat Completions error: "@ + printed(frame.field("error"@)))
}

/// What a frame adds to the first choice.
pub open spec fn delta_of(frame: JsonView) -> Option<JsonView> {
    match frame.get("choices"@) {
        Some(choices) => match choices.element("0"@, 0) {
            Some(choice) => choice.get("delta"@),
            None => None,
        },
        None => None,
    }
}

/// The reasoning that a delta brings.
pub open spec fn reasoning_of(delta: JsonView) -> Option<Seq<char>> {
    match delta.str_field("reasoning_content"@) {
        Some(text) => Some(text),
        None => delta.str_field("reasoning"@),
    }
}

/// The events of the text and the reasoning of a delta.
pub open spec fn delta_events(delta: JsonView) -> Seq<EventView> {
    let text = match delta.str_field("content"@) {
        Some(content) => Seq::empty().push(
            EventView::Update(
                UpdateView::AssistantDelta { content, phase: AssistantMessagePhase::Commentary },
            ),
        ),
        None => Seq::empty(),
    };
    match reasoning_of(delta) {
        Some(reasoning) => text.push(
            EventView::Update(UpdateView::ReasoningSummaryDelta(reasoning)),
        ),
        None => text,
    }
}

/// What events or an error stand for.
pub open spec fn events_outcome(result: Result<Vec<ModelEvent>, ApiError>) -> Result<
    Seq<EventView>,
    ErrorView,
> {
    match result {
        Ok(events) => Ok(event_views(events@)),
        Err(error) => Err(error@),
    }
}

/// The events of a frame while the answer comes in.
pub open spec fn live_events(frame: JsonView) -> Result<Seq<EventView>, ErrorView> {
    if frame.get("error"@) is Some {
        Err(frame_error(frame))
    } else {
        match delta_of(frame) {
            Some(delta) => Ok(delta_events(delta)),
            None => Ok(Seq::empty()),
        }
    }
}

fn find_delta(frame: &Json) -> (delta: Option<&Json>)
    ensures
        match delta {
            Some(delta) => delta_of(frame@) == Some(delta@),
            None => delta_of(frame@) is None,
        },
{
    match frame.get("choices") {
        Some(choices) => match choices.element("0", 0) {
            Some(choice) => choice.get("delta"),
            None => None,
        },
        None => None,
    }
}

fn find_reasoning(delta: &Json) -> (text: Option<&str>)
    ensures
        match text {
            Some(text) => reasoning_of(delta@) == Some(text@),
            None => reasoning_of(delta@) is None,
        },
{
    match delta.str_field("reasoning_content") {
        Some(text) => Some(text),
        None => delta.str_field("reasoning"),
    }
}

fn reported(frame: &Json) -> (error: ApiError)
    ensures
        error@ == frame_error(frame@),
{
    let value = frame.field("error").to_text();
    ApiError::Invalid(concat2("Chat Completions error: ", value.as_str()))
}

fn emit_delta(output: &mut Vec<ModelEvent>, delta: &Json)
    ensures
        event_views(final(output)@) == event_views(old(output)@) + delta_events(delta@),
{
    let ghost before = event_views(output@);
    match delta.str_field("content") {
        Some(content) => {
            emit(
                output,
                ModelEvent::Update(
                    ModelStreamEvent::AssistantDelta {
                        content: content.to_owned(),
                        phase: AssistantMessagePhase::Commentary,
                    },
                ),
            );
        },
        None => {},
    }
    match find_reasoning(delta) {
        Some(reasoning) => {
            emit(
                output,
                ModelEvent::Update(ModelStreamEvent::ReasoningSummaryDelta(reasoning.to_owned())),
            );
        },
        None => {},
    }
    assert(event_views(output@) =~= before + delta_events(delta@));
}

/// The events of a frame while the answer comes in.
pub fn live(frame: &Json) -> (result: Result<Vec<ModelEvent>, ApiError>)
    ensures
        events_outcome(result) == live_events(frame@),
{
    if frame.get("error").is_some() {
        return Err(reported(frame));
    }
    let mut output: Vec<ModelEvent> = Vec::new();
    assert(event_views(output@) =~= Seq::empty());
    match find_delta(frame) {
        Some(delta) => {
            emit_delta(&mut output, delta);
            assert(event_views(output@) =~= delta_events(delta@));
        },
        None => {},
    }
    Ok(output)
}

/// A tool call as far as it has come in.
struct PartialCall {
    id: String,
    name: String,
    arguments: String,
}

/// What a partial tool call stands for.
pub struct CallView {
    pub id: Seq<char>,
    pub name: Seq<char>,
    pub arguments: Seq<char>,
}

impl View for PartialCall {
    type V = CallView;

    closed spec fn view(&self) -> CallView {
        CallView { id: self.id@, name: self.name@, arguments: self.arguments@ }
    }
}

spec fn call_views(calls: Seq<(u64, PartialCall)>) -> Seq<(u64, CallView)> {
    Seq::new(calls.len(), |i: int| (calls[i].0, calls[i].1@))
}

/// An answer as far as it has come in.
struct Partial {
    output: Vec<ModelEvent>,
    text: String,
    reasoning: String,
    calls: Vec<(u64, PartialCall)>,
    usage: Option<Json>,
    completed: bool,
}

/// What a partial answer stands for. The calls are in the order of their index.
pub struct PartialView {
    pub output: Seq<EventView>,
    pub text: Seq<char>,
    pub reasoning: Seq<char>,
    pub calls: Seq<(u64, CallView)>,
    pub usage: Option<JsonView>,
    pub completed: bool,
}

impl View for Partial {
    type V = PartialView;

    closed spec fn view(&self) -> PartialView {
        PartialView {
            output: event_views(self.output@),
            text: self.text@,
            reasoning: self.reasoning@,
            calls: call_views(self.calls@),
            usage: json_option(self.usage),
            completed: self.completed,
        }
    }
}

/// An answer of which nothing has come in.
pub open spec fn nothing() -> PartialView {
    PartialView {
        output: Seq::empty(),
        text: Seq::empty(),
        reasoning: Seq::empty(),
        calls: Seq::empty(),
        usage: None,
        completed: false,
    }
}

/// The token usage in the library's terms.
pub open spec fn usage_json(value: JsonView) -> JsonView {
    JsonView::object().with("input_tokens"@, value.field("prompt_tokens"@)).with(
        "cached_input_tokens"@,
        value.field("prompt_tokens_details"@).field("cached_tokens"@),
    ).with("output_tokens"@, value.field("completion_tokens"@)).with(
        "reasoning_output_tokens"@,
        value.field("completion_tokens_details"@).field("reasoning_tokens"@),
    ).with("total_tokens"@, value.field("total_tokens"@))
}

fn normalize_usage(value: &Json) -> (usage: Json)
    ensures
        usage@ == usage_json(value@),
{
    Json::object().with("input_tokens", value.field("prompt_tokens")).with(
        "cached_input_tokens",
        value.nested("prompt_tokens_details", "cached_tokens"),
    ).with("output_tokens", value.field("completion_tokens")).with(
        "reasoning_output_tokens",
        value.nested("completion_tokens_details", "reasoning_tokens"),
    ).with("total_tokens", value.field("total_tokens"))
}

/// Whether a choice of a frame has a reason to be finished.
pub open spec fn has_finish(frame: JsonView) -> bool {
    match frame.field("choices"@).as_array() {
        Some(choices) => exists|i: int|
            0 <= i < choices.len() && !((#[trigger] choices[i]).field("finish_reason"@) is Null),
        None => false,
    }
}

fn finishes(frame: &Json) -> (result: bool)
    ensures
        result == has_finish(frame@),
{
    let choices = match frame.get("choices") {
        Some(choices) => match choices.as_array() {
            Some(choices) => choices,
            None => {
                return false;
            },
        },
        None => {
            return false;
        },
    };
    let ghost all = json_views(choices@);
    let mut i: usize = 0;
    while i < choices.len()
        invariant
            i <= choices.len(),
            all == json_views(choices@),
            frame@.field("choices"@).as_array() == Some(all),
            forall|j: int| 0 <= j < i ==> (#[trigger] all[j]).field("finish_reason"@) is Null,
        decreases choices.len() - i,
    {
        assert(all[i as int] == choices[i as int]@);
        if !choices[i].field("finish_reason").is_null() {
            return true;
        }
        i += 1;
    }
    false
}

/// The answer with what a tool call delta brings.
pub open spec fn with_call(state: PartialView, call: JsonView) -> Result<PartialView, ErrorView> {
    match needed_u64(call, "index"@, "Chat Completions tool call delta"@) {
        Ok(index) => {
            let known = match entry(state.calls, index) {
                Some(known) => known,
                None => CallView { id: Seq::empty(), name: Seq::empty(), arguments: Seq::empty() },
            };
            let id = match call.str_field("id"@) {
                Some(id) => id,
                None => known.id,
            };
            let started = match call.field("function"@).str_field("name"@) {
                Some(name) => state.output.push(
                    EventView::Update(
                        UpdateView::ToolCallStarted { item_id: id, call_id: Some(id), name },
                    ),
                ),
                None => state.output,
            };
            let name = match call.field("function"@).str_field("name"@) {
                Some(name) => name,
                None => known.name,
            };
            match call.field("function"@).str_field("arguments"@) {
                Some(delta) => Ok(
                    PartialView {
                        output: started.push(
                            EventView::Update(UpdateView::ToolCallDelta { item_id: id, delta }),
                        ),
                        calls: put(
                            state.calls,
                            index,
                            CallView { id, name, arguments: known.arguments + delta },
                        ),
                        ..state
                    },
                ),
                None => Ok(
                    PartialView {
                        output: started,
                        calls: put(
                            state.calls,
                            index,
                            CallView { id, name, arguments: known.arguments },
                        ),
                        ..state
                    },
                ),
            }
        },
        Err(error) => Err(error),
    }
}

/// The answer with what the first `count` tool call deltas bring.
pub open spec fn with_calls(state: PartialView, calls: Seq<JsonView>, count: nat) -> Result<
    PartialView,
    ErrorView,
>
    decreases count,
{
    if count == 0 {
        Ok(state)
    } else {
        match with_calls(state, calls, (count - 1) as nat) {
            Ok(state) => with_call(state, calls[count - 1]),
            Err(error) => Err(error),
        }
    }
}

/// The answer with what a frame brings.
pub open spec fn with_frame(state: PartialView, frame: JsonView) -> Result<PartialView, ErrorView> {
    if frame.get("error"@) is Some {
        Err(frame_error(frame))
    } else {
        let usage = match frame.get("usage"@) {
            Some(value) => if value is Null {
                state.usage
            } else {
                Some(usage_json(value))
            },
            None => state.usage,
        };
        let counted = PartialView {
            usage,
            completed: state.completed || has_finish(frame),
            ..state
        };
        match delta_of(frame) {
            Some(delta) => {
                let worded = PartialView {
                    text: match delta.str_field("content"@) {
                        Some(text) => state.text + text,
                        None => state.text,
                    },
                    reasoning: match reasoning_of(delta) {
                        Some(text) => state.reasoning + text,
                        None => state.reasoning,
                    },
                    output: state.output + delta_events(delta),
                    ..counted
                };
                match delta.field("tool_calls"@).as_array() {
                    Some(calls) => with_calls(worded, calls, calls.len()),
                    None => Ok(worded),
                }
            },
            None => Ok(counted),
        }
    }
}

/// The answer of the first `count` frames.
pub open spec fn gathered(frames: Seq<JsonView>, count: nat) -> Result<PartialView, ErrorView>
    decreases count,
{
    if count == 0 {
        Ok(nothing())
    } else {
        match gathered(frames, (count - 1) as nat) {
            Ok(state) => with_frame(state, frames[count - 1]),
            Err(error) => Err(error),
        }
    }
}

/// The replay key of reasoning.
pub open spec fn reasoning_key(model: Seq<char>) -> Seq<char> {
    "chat-completions/"@ + model + "/reasoning-v1"@
}

/// The parts of the answer before its tool calls.
pub open spec fn spoken(state: PartialView, model: Seq<char>) -> Seq<EventView> {
    let reasoned = if state.reasoning.len() == 0 {
        state.output
    } else {
        state.output.push(
            done(
                ResponseView::Reasoning {
                    summary: state.reasoning,
                    opaque: OpaqueView {
                        replay_key: reasoning_key(model),
                        payload: JsonView::Null,
                    },
                },
            ),
        )
    };
    if state.text.len() == 0 {
        reasoned
    } else {
        reasoned.push(
            done(
                ResponseView::AssistantMessage {
                    content: state.text,
                    phase: if state.calls.len() == 0 {
                        AssistantMessagePhase::FinalAnswer
                    } else {
                        AssistantMessagePhase::Commentary
                    },
                },
            ),
        )
    }
}

/// The finished tool call.
pub open spec fn finished_call(call: CallView) -> Result<EventView, ErrorView> {
    if call.id.len() == 0 {
        Err(ErrorView::Invalid("Chat Completions tool call omitted id"@))
    } else if call.name.len() == 0 {
        Err(ErrorView::Invalid("Chat Completions tool call omitted function name"@))
    } else {
        match parsed(call.arguments) {
            Some(arguments) => Ok(
                done(ResponseView::ToolCall { name: call.name, arguments, call_id: call.id }),
            ),
            None => Err(
                ErrorView::Invalid("Chat Completions returned invalid tool arguments"@),
            ),
        }
    }
}

/// `output` with the first `count` tool calls.
pub open spec fn finished_calls(
    output: Seq<EventView>,
    calls: Seq<(u64, CallView)>,
    count: nat,
) -> Result<Seq<EventView>, ErrorView>
    decreases count,
{
    if count == 0 {
        Ok(output)
    } else {
        match finished_calls(output, calls, (count - 1) as nat) {
            Ok(before) => match finished_call(calls[count - 1].1) {
                Ok(event) => Ok(before.push(event)),
                Err(error) => Err(error),
            },
            Err(error) => Err(error),
        }
    }
}

/// The events of a whole answer.
pub open spec fn answer(frames: Seq<JsonView>, model: Seq<char>) -> Result<
    Seq<EventView>,
    ErrorView,
> {
    match gathered(frames, frames.len()) {
        Ok(state) => if !state.completed {
            Err(ErrorView::Incomplete("Chat Completions"@))
        } else {
            match finished_calls(spoken(state, model), state.calls, state.calls.len()) {
                Ok(events) => Ok(events.push(completed(state.usage))),
                Err(error) => Err(error),
            }
        },
        Err(error) => Err(error),
    }
}

impl Partial {
    /// Takes a tool call delta.
    fn take_call(&mut self, call: &Json) -> (result: Result<(), ApiError>)
        ensures
            match result {
                Ok(_) => with_call(old(self)@, call@) == Ok::<PartialView, ErrorView>(final(self)@),
                Err(error) => with_call(old(self)@, call@) == Err::<PartialView, ErrorView>(error@),
            },
    {
        let index = match required_u64(call, "index", "Chat Completions tool call delta") {
            Ok(index) => index,
            Err(error) => {
                return Err(error);
            },
        };
        let ghost before = self@;
        let ghost old_calls = self.calls@;
        let at = position(&self.calls, index);
        proof {
            lemma_same_keys(old_calls, call_views(old_calls), index);
        }
        let known = if at < self.calls.len() && self.calls[at].0 == index {
            let (_, known) = self.calls.remove(at);
            known
        } else {
            PartialCall { id: String::new(), name: String::new(), arguments: String::new() }
        };
        let ghost was = known@;
        assert(was == match entry(before.calls, index) {
            Some(known) => known,
            None => CallView { id: Seq::empty(), name: Seq::empty(), arguments: Seq::empty() },
        });
        let PartialCall { id, name, arguments } = known;
        let mut id = id;
        let mut name = name;
        let mut arguments = arguments;
        match call.str_field("id") {
            Some(given) => {
                id = given.to_owned();
            },
            None => {},
        }
        let function = call.field("function");
        match function.str_field("name") {
            Some(given) => {
                name = given.to_owned();
                emit(
                    &mut self.output,
                    ModelEvent::Update(
                        ModelStreamEvent::ToolCallStarted {
                            item_id: id.clone(),
                            call_id: Some(id.clone()),
                            name: given.to_owned(),
                        },
                    ),
                );
            },
            None => {},
        }
        match function.str_field("arguments") {
            Some(given) => {
                arguments.push_str(given);
                emit(
                    &mut self.output,
                    ModelEvent::Update(
                        ModelStreamEvent::ToolCallDelta {
                            item_id: id.clone(),
                            delta: given.to_owned(),
                        },
                    ),
                );
            },
            None => {},
        }
        let updated = PartialCall { id, name, arguments };
        self.calls.insert(at, (index, updated));
        assert(call_views(self.calls@) =~= put(call_views(old_calls), index, updated@));
        Ok(())
    }

    /// Takes a frame.
    fn take_frame(&mut self, frame: &Json) -> (result: Result<(), ApiError>)
        ensures
            match result {
                Ok(_) => with_frame(old(self)@, frame@) == Ok::<PartialView, ErrorView>(
                    final(self)@,
                ),
                Err(error) => with_frame(old(self)@, frame@) == Err::<PartialView, ErrorView>(
                    error@,
                ),
            },
    {
        if frame.get("error").is_some() {
            return Err(reported(frame));
        }
        match frame.get("usage") {
            Some(value) => if !value.is_null() {
                self.usage = Some(normalize_usage(value));
            },
            None => {},
        }
        if finishes(frame) {
            self.completed = true;
        }
        let delta = match find_delta(frame) {
            Some(delta) => delta,
            None => {
                return Ok(());
            },
        };
        match delta.str_field("content") {
            Some(text) => {
                self.text.push_str(text);
            },
            None => {},
        }
        match find_reasoning(delta) {
            Some(text) => {
                self.reasoning.push_str(text);
            },
            None => {},
        }
        emit_delta(&mut self.output, delta);
        let ghost worded = self@;
        let calls = match delta.get("tool_calls") {
            Some(calls) => match calls.as_array() {
                Some(calls) => calls,
                None => {
                    return Ok(());
                },
            },
            None => {
                return Ok(());
            },
        };
        let ghost all = json_views(calls@);
        assert(delta@.field("tool_calls"@).as_array() == Some(all));
        let ghost wanted = with_frame(old(self)@, frame@);
        assert(wanted == with_calls(worded, all, all.len()));
        let mut i: usize = 0;
        while i < calls.len()
            invariant
                i <= calls.len(),
                all == json_views(calls@),
                wanted == with_calls(worded, all, all.len()),
                wanted == with_frame(old(self)@, frame@),
                with_calls(worded, all, i as nat) == Ok::<PartialView, ErrorView>(self@),
            decreases calls.len() - i,
        {
            assert(all[i as int] == calls[i as int]@);
            match self.take_call(&calls[i]) {
                Ok(_) => {},
                Err(error) => {
                    proof {
                        lemma_calls_stop(worded, all, (i + 1) as nat, all.len());
                    }
                    return Err(error);
                },
            }
            i += 1;
        }
        Ok(())
    }
}

proof fn lemma_calls_stop(state: PartialView, calls: Seq<JsonView>, count: nat, total: nat)
    requires
        count <= total,
        with_calls(state, calls, count) is Err,
    ensures
        with_calls(state, calls, total) == with_calls(state, calls, count),
    decreases total,
{
    if count < total {
        lemma_calls_stop(state, calls, count, (total - 1) as nat);
    }
}

proof fn lemma_frames_stop(frames: Seq<JsonView>, count: nat, total: nat)
    requires
        count <= total,
        gathered(frames, count) is Err,
    ensures
        gathered(frames, total) == gathered(frames, count),
    decreases total,
{
    if count < total {
        lemma_frames_stop(frames, count, (total - 1) as nat);
    }
}

proof fn lemma_finish_stop(
    output: Seq<EventView>,
    calls: Seq<(u64, CallView)>,
    count: nat,
    total: nat,
)
    requires
        count <= total,
        finished_calls(output, calls, count) is Err,
    ensures
        finished_calls(output, calls, total) == finished_calls(output, calls, count),
    decreases total,
{
    if count < total {
        lemma_finish_stop(output, calls, count, (total - 1) as nat);
    }
}

fn finish(state: Partial, model: &str) -> (result: Result<Vec<ModelEvent>, ApiError>)
    requires
        state@.completed,
    ensures
        events_outcome(result) == match finished_calls(
            spoken(state@, model@),
            state@.calls,
            state@.calls.len(),
        ) {
            Ok(events) => Ok(events.push(completed(state@.usage))),
            Err(error) => Err(error),
        },
{
    let Partial { output, text, reasoning, calls, usage, .. } = state;
    let mut output = output;
    if !reasoning.as_str().is_empty() {
        emit_done(
            &mut output,
            ModelResponse::Reasoning {
                summary: reasoning,
                opaque: OpaqueState {
                    replay_key: concat3("chat-completions/", model, "/reasoning-v1"),
                    payload: Json::Null,
                },
            },
        );
    }
    if !text.as_str().is_empty() {
        emit_done(
            &mut output,
            ModelResponse::AssistantMessage {
                content: text,
                phase: if calls.len() == 0 {
                    AssistantMessagePhase::FinalAnswer
                } else {
                    AssistantMessagePhase::Commentary
                },
            },
        );
    }
    let ghost said = spoken(state@, model@);
    let ghost all = call_views(calls@);
    assert(event_views(output@) == said);
    let mut i: usize = 0;
    while i < calls.len()
        invariant
            i <= calls.len(),
            all == call_views(calls@),
            finished_calls(said, all, i as nat) == Ok::<Seq<EventView>, ErrorView>(
                event_views(output@),
            ),
            all == state@.calls,
            said == spoken(state@, model@),
        decreases calls.len() - i,
    {
        assert(all[i as int].1 == calls[i as int].1@);
        let call = &calls[i].1;
        let problem = if call.id.as_str().is_empty() {
            Some(invalid("Chat Completions tool call omitted id"))
        } else if call.name.as_str().is_empty() {
            Some(invalid("Chat Completions tool call omitted function name"))
        } else {
            match Json::parse(call.arguments.as_str()) {
                Some(arguments) => {
                    emit_done(
                        &mut output,
                        ModelResponse::ToolCall {
                            name: call.name.clone(),
                            arguments,
                            call_id: call.id.clone(),
                        },
                    );
                    None
                },
                None => Some(invalid("Chat Completions returned invalid tool arguments")),
            }
        };
        match problem {
            Some(error) => {
                proof {
                    lemma_finish_stop(said, all, (i + 1) as nat, all.len());
                }
                return Err(error);
            },
            None => {},
        }
        i += 1;
    }
    emit_completed(&mut output, usage);
    Ok(output)
}

/// The events of a whole answer.
pub fn parse(frames: &Vec<Json>, model: &str) -> (result: Result<Vec<ModelEvent>, ApiError>)
    ensures
        events_outcome(result) == answer(json_views(frames@), model@),
{
    let mut state = Partial {
        output: Vec::new(),
        text: String::new(),
        reasoning: String::new(),
        calls: Vec::new(),
        usage: None,
        completed: false,
    };
    proof {
        assert(event_views(state.output@) =~= Seq::empty());
        assert(call_views(state.calls@) =~= Seq::empty());
    }
    let ghost all = json_views(frames@);
    let mut i: usize = 0;
    while i < frames.len()
        invariant
            i <= frames.len(),
            all == json_views(frames@),
            gathered(all, i as nat) == Ok::<PartialView, ErrorView>(state@),
        decreases frames.len() - i,
    {
        assert(all[i as int] == frames[i as int]@);
        match state.take_frame(&frames[i]) {
            Ok(_) => {},
            Err(error) => {
                proof {
                    lemma_frames_stop(all, (i + 1) as nat, all.len());
                }
                return Err(error);
            },
        }
        i += 1;
    }
    if !state.completed {
        return Err(incomplete_stream("Chat Completions"));
    }
    finish(state, model)
}

/// What a request asks of the API: the model that was chosen, the whole chat, an
/// answer that comes piece by piece with the count of its tokens, the tools where
/// there are any, of which the model may call several at once if it wants, and the
/// effort that was chosen, unless that is left to the API.
pub proof fn law_chat_request_says_what_is_wanted(request: ModelRequest)
    ensures
        ({
            let body = body_json(request);
            let tools = chat_tools(request.tools@, request.tools@.len());
            let effort = request.reasoning_effort@;
            &&& body.str_field("model"@) == Some(request.model@)
            &&& body.field("messages"@) == JsonView::Array(chat_request(request))
            &&& body.field("stream"@) == JsonView::Bool(true)
            &&& body.field("stream_options"@).field("include_usage"@) == JsonView::Bool(true)
            &&& tools.len() == 0 ==> body.get("tools"@) is None && body.get("tool_choice"@) is None
                && body.get("parallel_tool_calls"@) is None
            &&& tools.len() > 0 ==> body.field("tools"@) == JsonView::Array(tools)
                && body.str_field("tool_choice"@) == Some("auto"@) && body.field(
                "parallel_tool_calls"@,
            ) == JsonView::Bool(true)
            &&& body.str_field("reasoning_effort"@) == (if effort == "default"@ {
                None
            } else {
                Some(effort)
            })
        }),
{
    broadcast use crate::json::lemma_with, crate::json::lemma_no_fields;

    reveal_strlit("model");
    reveal_strlit("messages");
    reveal_strlit("stream");
    reveal_strlit("stream_options");
    reveal_strlit("include_usage");
    reveal_strlit("tools");
    reveal_strlit("tool_choice");
    reveal_strlit("parallel_tool_calls");
    reveal_strlit("reasoning_effort");
    assert("model"@.len() == 5 && "messages"@.len() == 8 && "stream"@.len() == 6 && "stream_options"@.len() == 14 && "include_usage"@.len() == 13 && "tools"@.len() == 5 && "tool_choice"@.len() == 11 && "parallel_tool_calls"@.len() == 19 && "reasoning_effort"@.len() == 16);
    assert("model"@[0] != "tools"@[0]);
}

/// A piece of a call goes to the call with its number: a name or an identity that it
/// brings replaces what was known, arguments that it brings are added at the end, and
/// each other call stays as it is.
pub proof fn law_pieces_go_to_their_call(state: PartialView, call: JsonView, other: u64)
    requires
        ordered(state.calls),
        with_call(state, call) is Ok,
    ensures
        ({
            let after = with_call(state, call)->Ok_0;
            let index = call.field("index"@).as_u64();
            let known = entry(state.calls, index->0);
            let now = entry(after.calls, index->0);
            let function = call.field("function"@);
            &&& index is Some
            &&& ordered(after.calls)
            &&& Some(other) != index ==> entry(after.calls, other) == entry(state.calls, other)
            &&& now is Some
            &&& function.str_field("arguments"@) matches Some(more) ==> now->0.arguments == (
            match known {
                Some(known) => known.arguments,
                None => Seq::empty(),
            }) + more
            &&& function.str_field("arguments"@) is None ==> now->0.arguments == (match known {
                Some(known) => known.arguments,
                None => Seq::empty(),
            })
            &&& call.str_field("id"@) matches Some(id) ==> now->0.id == id
            &&& function.str_field("name"@) matches Some(name) ==> now->0.name == name
            &&& known is Some && call.str_field("id"@) is None ==> now->0.id == known->0.id
            &&& known is Some && function.str_field("name"@) is None ==> now->0.name
                == known->0.name
            &&& after.text == state.text && after.reasoning == state.reasoning && after.usage
                == state.usage && after.completed == state.completed
        }),
{
    let after = with_call(state, call)->Ok_0;
    let index = call.field("index"@).as_u64()->0;
    let known = match entry(state.calls, index) {
        Some(known) => known,
        None => CallView { id: Seq::empty(), name: Seq::empty(), arguments: Seq::empty() },
    };
    let id = match call.str_field("id"@) {
        Some(id) => id,
        None => known.id,
    };
    let name = match call.field("function"@).str_field("name"@) {
        Some(name) => name,
        None => known.name,
    };
    let arguments = match call.field("function"@).str_field("arguments"@) {
        Some(more) => known.arguments + more,
        None => known.arguments,
    };
    let now = CallView { id, name, arguments };
    crate::table::law_put_then_entry(state.calls, index, now, other);
    crate::table::law_put_then_entry(state.calls, index, now, index);
}

proof fn lemma_calls_said(state: PartialView, calls: Seq<JsonView>, count: nat)
    requires
        count <= calls.len(),
        with_calls(state, calls, count) is Ok,
        ordered(state.calls),
        forall|i: int| 0 <= i < state.output.len() ==> (#[trigger] state.output[i]) is Update,
    ensures
        ({
            let after = with_calls(state, calls, count)->Ok_0;
            &&& said(after.output) == said(state.output)
            &&& thought(after.output) == thought(state.output)
            &&& after.text == state.text
            &&& after.reasoning == state.reasoning
            &&& after.completed == state.completed
            &&& after.usage == state.usage
            &&& ordered(after.calls)
            &&& forall|i: int|
                0 <= i < after.output.len() ==> (#[trigger] after.output[i]) is Update
        }),
    decreases count,
{
    if count > 0 {
        lemma_calls_said(state, calls, (count - 1) as nat);
        let before = with_calls(state, calls, (count - 1) as nat)->Ok_0;
        let call = calls[count - 1];
        law_pieces_go_to_their_call(before, call, 0);
        let after = with_call(before, call)->Ok_0;
        let more = after.output.skip(before.output.len() as int);
        assert(after.output =~= before.output + more);
        crate::model::lemma_said_in_order(before.output, more);
        reveal_with_fuel(said, 3);
        reveal_with_fuel(thought, 3);
        assert(said(more) =~= Seq::empty());
        assert(thought(more) =~= Seq::empty());
        assert(said(before.output) + Seq::<char>::empty() =~= said(before.output));
        assert(thought(before.output) + Seq::<char>::empty() =~= thought(before.output));
    }
}

proof fn lemma_gathered_said(frames: Seq<JsonView>, count: nat)
    requires
        count <= frames.len(),
        gathered(frames, count) is Ok,
    ensures
        ({
            let state = gathered(frames, count)->Ok_0;
            &&& state.text == said(state.output)
            &&& state.reasoning == thought(state.output)
            &&& ordered(state.calls)
            &&& forall|i: int|
                0 <= i < state.output.len() ==> (#[trigger] state.output[i]) is Update
            &&& state.completed <==> exists|i: int|
                0 <= i < count && has_finish(#[trigger] frames[i])
        }),
    decreases count,
{
    if count == 0 {
        assert(said(Seq::empty()) =~= Seq::empty());
        assert(thought(Seq::empty()) =~= Seq::empty());
    } else {
        lemma_gathered_said(frames, (count - 1) as nat);
        let before = gathered(frames, (count - 1) as nat)->Ok_0;
        let frame = frames[count - 1];
        assert((before.completed || has_finish(frame)) <==> exists|i: int|
            0 <= i < count && has_finish(#[trigger] frames[i])) by {
            if exists|i: int| 0 <= i < count && has_finish(#[trigger] frames[i]) {
                let i = choose|i: int| 0 <= i < count && has_finish(#[trigger] frames[i]);
                assert(i == count - 1 || 0 <= i < count - 1);
            }
        }
        if let Some(delta) = delta_of(frame) {
            let news = delta_events(delta);
            crate::model::lemma_said_in_order(before.output, news);
            reveal_with_fuel(said, 3);
            reveal_with_fuel(thought, 3);
            assert(said(news) =~= match delta.str_field("content"@) {
                Some(text) => text,
                None => Seq::empty(),
            });
            assert(thought(news) =~= match reasoning_of(delta) {
                Some(text) => text,
                None => Seq::empty(),
            });
            assert(before.text + Seq::<char>::empty() =~= before.text);
            assert(before.reasoning + Seq::<char>::empty() =~= before.reasoning);
            let usage = match frame.get("usage"@) {
                Some(value) => if value is Null {
                    before.usage
                } else {
                    Some(usage_json(value))
                },
                None => before.usage,
            };
            let worded = PartialView {
                text: said(before.output + news),
                reasoning: thought(before.output + news),
                output: before.output + news,
                usage,
                completed: before.completed || has_finish(frame),
                ..before
            };
            assert forall|i: int| 0 <= i < worded.output.len() implies (
            #[trigger] worded.output[i]) is Update by {
                if i < before.output.len() {
                    assert(worded.output[i] == before.output[i]);
                } else {
                    assert(worded.output[i] == news[i - before.output.len()]);
                }
            }
            if let Some(calls) = delta.field("tool_calls"@).as_array() {
                lemma_calls_said(worded, calls, calls.len());
            }
        }
    }
}

proof fn lemma_finished_calls(output: Seq<EventView>, calls: Seq<(u64, CallView)>, count: nat)
    requires
        count <= calls.len(),
        finished_calls(output, calls, count) is Ok,
    ensures
        ({
            let all = finished_calls(output, calls, count)->Ok_0;
            &&& all.len() == output.len() + count
            &&& forall|i: int| 0 <= i < output.len() ==> #[trigger] all[i] == output[i]
            &&& forall|i: int|
                0 <= i < count ==> {
                    let call = (#[trigger] calls[i]).1;
                    &&& call.id.len() > 0 && call.name.len() > 0
                    &&& parsed(call.arguments) is Some
                    &&& all[output.len() + i] == (EventView::OutputItemDone {
                        response: Some(
                            ResponseView::ToolCall {
                                name: call.name,
                                arguments: parsed(call.arguments)->0,
                                call_id: call.id,
                            },
                        ),
                    })
                }
        }),
    decreases count,
{
    if count > 0 {
        lemma_finished_calls(output, calls, (count - 1) as nat);
        let before = finished_calls(output, calls, (count - 1) as nat)->Ok_0;
        let all = finished_calls(output, calls, count)->Ok_0;
        assert forall|i: int| 0 <= i < count implies {
            let call = (#[trigger] calls[i]).1;
            &&& call.id.len() > 0 && call.name.len() > 0
            &&& parsed(call.arguments) is Some
            &&& all[output.len() + i] == (EventView::OutputItemDone {
                response: Some(
                    ResponseView::ToolCall {
                        name: call.name,
                        arguments: parsed(call.arguments)->0,
                        call_id: call.id,
                    },
                ),
            })
        } by {
            if i < count - 1 {
                assert(all[output.len() + i] == before[output.len() + i]);
            }
        }
    }
}

/// There is an answer only once a frame gave a reason to end. Its parts come in this
/// order: what was passed on while it came in, the reasoning, the text, the calls in
/// the order of their numbers, and the end. The reasoning and the text are what was
/// passed on of them, piece by piece, in the order in which the pieces came; the text
/// is the final answer if and only if nothing is called.
pub proof fn law_chat_answer_is_what_was_passed_on(frames: Seq<JsonView>, model: Seq<char>)
    requires
        answer(frames, model) is Ok,
    ensures
        ({
            let events = answer(frames, model)->Ok_0;
            let state = gathered(frames, frames.len())->Ok_0;
            let n = state.output.len() as int;
            let t = if thought(state.output).len() > 0 {
                1int
            } else {
                0
            };
            let s = if said(state.output).len() > 0 {
                1int
            } else {
                0
            };
            &&& exists|i: int| 0 <= i < frames.len() && has_finish(#[trigger] frames[i])
            &&& events.len() == n + t + s + state.calls.len() + 1
            &&& forall|i: int|
                0 <= i < n ==> #[trigger] events[i] == state.output[i] && events[i] is Update
            &&& t == 1 ==> (events[n] matches EventView::OutputItemDone {
                response: Some(ResponseView::Reasoning { summary, opaque }),
            } && summary == thought(state.output) && opaque.replay_key == reasoning_key(model))
            &&& s == 1 ==> (events[n + t] matches EventView::OutputItemDone {
                response: Some(ResponseView::AssistantMessage { content, phase }),
            } && content == said(state.output) && (phase is FinalAnswer <==> state.calls.len()
                == 0))
            &&& forall|i: int|
                0 <= i < state.calls.len() ==> {
                    let call = (#[trigger] state.calls[i]).1;
                    &&& events[n + t + s + i] matches EventView::OutputItemDone {
                        response: Some(ResponseView::ToolCall { name, arguments, call_id }),
                    } && name == call.name && call_id == call.id && Some(arguments) == parsed(
                        call.arguments,
                    ) && name.len() > 0 && call_id.len() > 0
                }
            &&& ordered(state.calls)
            &&& events.last() matches EventView::Completed { token_usage, rate_limits }
                && token_usage == state.usage && rate_limits.len() == 0
        }),
{
    let state = gathered(frames, frames.len())->Ok_0;
    lemma_gathered_said(frames, frames.len());
    let before = spoken(state, model);
    lemma_finished_calls(before, state.calls, state.calls.len());
    let all = finished_calls(before, state.calls, state.calls.len())->Ok_0;
    let events = answer(frames, model)->Ok_0;
    let n = state.output.len() as int;
    assert forall|i: int| 0 <= i < before.len() implies #[trigger] events[i] == before[i] by {
        assert(all[i] == before[i]);
    }
    assert forall|i: int| 0 <= i < state.calls.len() implies events[before.len() + i] == (
    EventView::OutputItemDone {
        response: Some(
            ResponseView::ToolCall {
                name: (#[trigger] state.calls[i]).1.name,
                arguments: parsed(state.calls[i].1.arguments)->0,
                call_id: state.calls[i].1.id,
            },
        ),
    }) by {
        assert(events[before.len() + i] == all[before.len() + i]);
    }
    let i = choose|i: int| 0 <= i < frames.len() && has_finish(#[trigger] frames[i]);
    assert(has_finish(frames[i]));
}

/// While an answer comes in, a frame that reports an error is one; any other passes
/// on the text and the reasoning of its first choice, as the reader of the whole
/// answer takes them.
pub proof fn law_live_frames_are_passed_on(frame: JsonView)
    ensures
        frame.get("error"@) is Some <==> live_events(frame) is Err,
        live_events(frame) matches Ok(events) ==> {
            &&& forall|i: int| 0 <= i < events.len() ==> (#[trigger] events[i]) is Update
            &&& delta_of(frame) matches Some(delta) ==> said(events) == (match delta.str_field(
                "content"@,
            ) {
                Some(text) => text,
                None => Seq::empty(),
            }) && thought(events) == (if delta.str_field("reasoning_content"@) is Some {
                delta.str_field("reasoning_content"@)->0
            } else if delta.str_field("reasoning"@) is Some {
                delta.str_field("reasoning"@)->0
            } else {
                Seq::empty()
            })
            &&& delta_of(frame) is None ==> events.len() == 0
        },
{
    reveal_with_fuel(said, 3);
    reveal_with_fuel(thought, 3);
    if let Ok(events) = live_events(frame) {
        if let Some(delta) = delta_of(frame) {
            assert(said(events) =~= match delta.str_field("content"@) {
                Some(text) => text,
                None => Seq::empty(),
            });
            assert(thought(events) =~= match reasoning_of(delta) {
                Some(text) => text,
                None => Seq::empty(),
            });
        }
    }
}

/// What is counted keeps its numbers under the names of the program.
pub proof fn law_chat_usage_keeps_its_counts(value: JsonView)
    ensures
        usage_json(value).field("input_tokens"@) == value.field("prompt_tokens"@),
        usage_json(value).field("output_tokens"@) == value.field("completion_tokens"@),
        usage_json(value).field("total_tokens"@) == value.field("total_tokens"@),
        usage_json(value).field("cached_input_tokens"@) == value.field(
            "prompt_tokens_details"@,
        ).field("cached_tokens"@),
        usage_json(value).field("reasoning_output_tokens"@) == value.field(
            "completion_tokens_details"@,
        ).field("reasoning_tokens"@),
{
    broadcast use crate::json::lemma_with, crate::json::lemma_no_fields;

    reveal_strlit("input_tokens");
    reveal_strlit("cached_input_tokens");
    reveal_strlit("output_tokens");
    reveal_strlit("reasoning_output_tokens");
    reveal_strlit("total_tokens");
    assert("input_tokens"@.len() == 12 && "cached_input_tokens"@.len() == 19 && "output_tokens"@.len() == 13 && "reasoning_output_tokens"@.len() == 23 && "total_tokens"@.len() == 12);
    assert("input_tokens"@[0] != "total_tokens"@[0]);
}

} // verus!
