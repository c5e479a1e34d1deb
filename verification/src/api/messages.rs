//! The Messages API.
use crate::api::chat_completions::events_outcome;
use crate::api::common::{
    arguments_json, arguments_value, functions_of, function_views, invalid, needed_nonempty,
    needed_str, needed_u64, request_counted, request_surface, required_nonempty_str, required_str,
    required_u64, tool_functions, uncounted, uncounted_error, value_text, value_words, ApiError,
    ErrorView, FunctionTool, FunctionView,
};
use crate::event::AssistantMessagePhase;
use crate::json::{add_value, copy_values, field_views, json_views, printed, Json, JsonView};
use crate::model::{
    completed, done, emit, emit_completed, emit_done, event_views, EventView, ModelEvent,
    ModelRequest, ModelStreamEvent, ModelTool, UpdateView,
};
use crate::surface::{item_views, Item, ItemView, OpaqueView, Role};
use crate::table::{entry, erased, lemma_same_keys, ordered, position, put, rank};
use crate::text::{
    concat2, concat3, decimal, decimal_text, has_prefix, has_suffix, same_text,
};
use vstd::prelude::*;

verus! {

/// How many tokens an answer may have.
pub const MAX_OUTPUT_TOKENS: i128 = 65_536;

/// A result or the error in its place.
pub type Outcome<T> = Result<T, ErrorView>;

/// The error with a message that ends in a number.
pub open spec fn numbered(message: Seq<char>, index: u64) -> ErrorView {
    ErrorView::Invalid(message + decimal(index as int))
}

pub(crate) fn numbered_error(message: &str, index: u64) -> (error: ApiError)
    ensures
        error@ == numbered(message@, index),
{
    let number = decimal_text(index as i128);
    ApiError::Invalid(concat2(message, number.as_str()))
}

/// The error with a message that ends in a name.
pub open spec fn named(message: Seq<char>, name: Seq<char>) -> ErrorView {
    ErrorView::Invalid(message + name)
}

pub(crate) fn named_error(message: &str, name: &str) -> (error: ApiError)
    ensures
        error@ == named(message@, name@),
{
    ApiError::Invalid(concat2(message, name))
}

// ---------------------------------------------------------------------------
// The request
// ---------------------------------------------------------------------------

/// A message with the blocks of its content.
pub struct RoleMessage {
    pub role: Role,
    pub content: Vec<Json>,
}

/// What a [`RoleMessage`] stands for.
pub struct RoleMessageView {
    pub role: Role,
    pub content: Seq<JsonView>,
}

impl View for RoleMessage {
    type V = RoleMessageView;

    open spec fn view(&self) -> RoleMessageView {
        RoleMessageView { role: self.role, content: json_views(self.content@) }
    }
}

/// What a sequence of messages stands for.
pub open spec fn message_views(messages: Seq<RoleMessage>) -> Seq<RoleMessageView> {
    Seq::new(messages.len(), |i: int| messages[i]@)
}

/// The messages with one more block: it joins the last message where that is
/// from the same role.
pub open spec fn with_block(messages: Seq<RoleMessageView>, role: Role, block: JsonView) -> Seq<
    RoleMessageView,
> {
    if messages.len() > 0 && messages.last().role == role {
        messages.update(
            messages.len() - 1,
            RoleMessageView { role, content: messages.last().content.push(block) },
        )
    } else {
        messages.push(RoleMessageView { role, content: Seq::empty().push(block) })
    }
}

/// The replay key of thinking.
pub open spec fn thinking_key(model: Seq<char>) -> Seq<char> {
    "messages/"@ + model + "/thinking-v2"@
}

/// Whether a thinking block can be sent back, and the error where it cannot.
pub open spec fn replay_problem(block: JsonView) -> Option<ErrorView> {
    match needed_str(block, "type"@, "Messages opaque thinking block"@) {
        Err(error) => Some(error),
        Ok(kind) => if kind == "thinking"@ {
            match needed_str(block, "thinking"@, "Messages opaque thinking block"@) {
                Err(error) => Some(error),
                Ok(_) => match needed_nonempty(
                    block,
                    "signature"@,
                    "Messages opaque thinking block"@,
                ) {
                    Err(error) => Some(error),
                    Ok(_) => None,
                },
            }
        } else if kind == "redacted_thinking"@ {
            match needed_nonempty(block, "data"@, "Messages opaque redacted_thinking block"@) {
                Err(error) => Some(error),
                Ok(_) => None,
            }
        } else {
            Some(named("unknown Messages opaque thinking block "@, kind))
        },
    }
}

/// A text block.
pub open spec fn text_block(text: Seq<char>) -> JsonView {
    JsonView::object().with_text("type"@, "text"@).with_text("text"@, text)
}

/// The system text and the messages of a request.
pub struct HistoryView {
    pub system: Seq<char>,
    pub messages: Seq<RoleMessageView>,
}

/// The history with what one item adds.
pub open spec fn with_item(history: HistoryView, item: ItemView, key: Seq<char>) -> Outcome<
    HistoryView,
> {
    match item {
        ItemView::Message { role, text, .. } => Ok(
            match role {
                Role::Developer => HistoryView {
                    system: history.system + "\n\n"@ + text,
                    ..history
                },
                _ => if text.len() == 0 {
                    history
                } else {
                    HistoryView {
                        messages: with_block(history.messages, role, text_block(text)),
                        ..history
                    }
                },
            },
        ),
        ItemView::ToolCall { call_id, name, input, .. } => Ok(
            HistoryView {
                messages: with_block(
                    history.messages,
                    Role::Assistant,
                    JsonView::object().with_text("type"@, "tool_use"@).with_text(
                        "id"@,
                        call_id,
                    ).with_text("name"@, name).with("input"@, arguments_json(input)),
                ),
                ..history
            },
        ),
        ItemView::ToolResult { call_id, output, .. } => Ok(
            HistoryView {
                messages: with_block(
                    history.messages,
                    Role::User,
                    JsonView::object().with_text("type"@, "tool_result"@).with_text(
                        "tool_use_id"@,
                        call_id,
                    ).with_text("content"@, value_words(output)),
                ),
                ..history
            },
        ),
        ItemView::Reasoning { opaque, .. } => match opaque {
            Some(state) => if state.replay_key == key {
                match replay_problem(state.payload) {
                    Some(error) => Err(error),
                    None => Ok(
                        HistoryView {
                            messages: with_block(
                                history.messages,
                                Role::Assistant,
                                state.payload,
                            ),
                            ..history
                        },
                    ),
                }
            } else {
                Ok(history)
            },
            None => Ok(history),
        },
        _ => Ok(history),
    }
}

/// The history of the first `count` items.
pub open spec fn history_of(
    instructions: Seq<char>,
    items: Seq<ItemView>,
    key: Seq<char>,
    count: nat,
) -> Outcome<HistoryView>
    decreases count,
{
    if count == 0 {
        Ok(HistoryView { system: instructions, messages: Seq::empty() })
    } else {
        match history_of(instructions, items, key, (count - 1) as nat) {
            Ok(history) => with_item(history, items[count - 1], key),
            Err(error) => Err(error),
        }
    }
}

/// A message in the format of the API.
pub open spec fn message_json(message: RoleMessageView) -> JsonView {
    JsonView::object().with_text(
        "role"@,
        match message.role {
            Role::User => "user"@,
            _ => "assistant"@,
        },
    ).with("content"@, JsonView::Array(message.content))
}

/// A function in the format of the API.
pub open spec fn tool_json(function: FunctionView) -> JsonView {
    JsonView::object().with_text("name"@, function.name).with_text(
        "description"@,
        function.description,
    ).with("input_schema"@, function.parameters)
}

/// The first `count` tools in the format of the API.
pub open spec fn tools_json(tools: Seq<ModelTool>, count: nat) -> Seq<JsonView>
    decreases count,
{
    if count == 0 {
        Seq::empty()
    } else {
        let functions = tool_functions(tools[count - 1]);
        tools_json(tools, (count - 1) as nat) + Seq::new(
            functions.len(),
            |i: int| tool_json(functions[i]),
        )
    }
}

/// Whether the API knows a reasoning effort.
pub open spec fn known_effort(effort: Seq<char>) -> bool {
    effort == "low"@ || effort == "medium"@ || effort == "high"@ || effort == "xhigh"@ || effort
        == "max"@
}

/// The system text and the messages of a request.
pub open spec fn request_history(request: ModelRequest) -> Outcome<HistoryView> {
    let items = request_surface(request);
    if !request_counted(request) {
        Err(uncounted())
    } else {
        history_of(request.instructions@, items, thinking_key(request.model@), items.len())
    }
}

/// The body of a request.
pub open spec fn body_json(request: ModelRequest) -> Outcome<JsonView> {
    match request_history(request) {
        Err(error) => Err(error),
        Ok(history) => {
            let tools = tools_json(request.tools@, request.tools@.len());
            let plain = JsonView::object().with_text("model"@, request.model@).with_text(
                "system"@,
                history.system,
            ).with(
                "messages"@,
                JsonView::Array(
                    Seq::new(history.messages.len(), |i: int| message_json(history.messages[i])),
                ),
            ).with("max_tokens"@, JsonView::Integer(MAX_OUTPUT_TOKENS as int)).with(
                "stream"@,
                JsonView::Bool(true),
            );
            let offering = if tools.len() == 0 {
                plain
            } else {
                plain.with("tools"@, JsonView::Array(tools))
            };
            let effort = request.reasoning_effort@;
            if effort == "default"@ {
                Ok(offering)
            } else if known_effort(effort) {
                Ok(
                    offering.with(
                        "thinking"@,
                        JsonView::object().with_text("type"@, "adaptive"@),
                    ).with("output_config"@, JsonView::object().with_text("effort"@, effort)),
                )
            } else {
                Err(named("unsupported Messages reasoning effort "@, effort))
            }
        },
    }
}

fn push_content(messages: &mut Vec<RoleMessage>, role: Role, block: Json)
    ensures
        message_views(final(messages)@) == with_block(message_views(old(messages)@), role, block@),
{
    let ghost before = message_views(messages@);
    let mut content: Vec<Json> = Vec::new();
    assert(json_views(content@) =~= Seq::empty());
    proof {
        if before.len() > 0 {
            assert(before.last() == messages@.last()@);
        }
    }
    let ghost joins = before.len() > 0 && before.last().role == role;
    match messages.pop() {
        Some(last) => if last.role == role {
            content = last.content;
        } else {
            messages.push(last);
        },
        None => {},
    }
    proof {
        if joins {
            assert(message_views(messages@) =~= before.drop_last());
        } else {
            assert(message_views(messages@) =~= before);
        }
    }
    let ghost kept = message_views(messages@);
    add_value(&mut content, block);
    let message = RoleMessage { role, content };
    messages.push(message);
    assert(message_views(messages@) =~= kept.push(message@));
    assert(message_views(messages@) =~= with_block(before, role, block@));
}

/// What is wrong with a block that is to be handed back, if anything is.
pub fn validate_replay_block(block: &Json) -> (problem: Option<ApiError>)
    ensures
        match problem {
            Some(error) => replay_problem(block@) == Some(error@),
            None => replay_problem(block@) is None,
        },
{
    let kind = match required_str(block, "type", "Messages opaque thinking block") {
        Ok(kind) => kind,
        Err(error) => {
            return Some(error);
        },
    };
    if same_text(kind, "thinking") {
        match required_str(block, "thinking", "Messages opaque thinking block") {
            Err(error) => {
                return Some(error);
            },
            Ok(_) => {},
        }
        match required_nonempty_str(block, "signature", "Messages opaque thinking block") {
            Err(error) => Some(error),
            Ok(_) => None,
        }
    } else if same_text(kind, "redacted_thinking") {
        match required_nonempty_str(block, "data", "Messages opaque redacted_thinking block") {
            Err(error) => Some(error),
            Ok(_) => None,
        }
    } else {
        Some(named_error("unknown Messages opaque thinking block ", kind))
    }
}

/// The system text and the messages of a request.
pub struct History {
    pub system: String,
    pub messages: Vec<RoleMessage>,
}

impl View for History {
    type V = HistoryView;

    open spec fn view(&self) -> HistoryView {
        HistoryView { system: self.system@, messages: message_views(self.messages@) }
    }
}

impl History {
    fn add_item(&mut self, item: &Item, key: &str) -> (problem: Option<ApiError>)
        ensures
            match problem {
                Some(error) => with_item(old(self)@, item@, key@) == Err::<HistoryView, ErrorView>(
                    error@,
                ),
                None => with_item(old(self)@, item@, key@) == Ok::<HistoryView, ErrorView>(
                    final(self)@,
                ),
            },
    {
        match item {
            Item::Message { role, text, .. } => match role {
                Role::Developer => {
                    self.system.push_str("\n\n");
                    self.system.push_str(text.as_str());
                },
                _ => {
                    if !text.as_str().is_empty() {
                        push_content(
                            &mut self.messages,
                            *role,
                            Json::object().with_text("type", "text").with_text(
                                "text",
                                text.as_str(),
                            ),
                        );
                    }
                },
            },
            Item::ToolCall { call_id, name, input, .. } => {
                push_content(
                    &mut self.messages,
                    Role::Assistant,
                    Json::object().with_text("type", "tool_use").with_text(
                        "id",
                        call_id.as_str(),
                    ).with_text("name", name.as_str()).with("input", arguments_value(input)),
                );
            },
            Item::ToolResult { call_id, output, .. } => {
                let content = value_text(output);
                push_content(
                    &mut self.messages,
                    Role::User,
                    Json::object().with_text("type", "tool_result").with_text(
                        "tool_use_id",
                        call_id.as_str(),
                    ).with_text("content", content.as_str()),
                );
            },
            Item::Reasoning { opaque, .. } => match opaque {
                Some(state) => if same_text(state.replay_key.as_str(), key) {
                    match validate_replay_block(&state.payload) {
                        Some(error) => {
                            return Some(error);
                        },
                        None => {
                            push_content(
                                &mut self.messages,
                                Role::Assistant,
                                state.payload.clone(),
                            );
                        },
                    }
                },
                None => {},
            },
            _ => {},
        }
        None
    }
}

proof fn lemma_history_stop(
    instructions: Seq<char>,
    items: Seq<ItemView>,
    key: Seq<char>,
    count: nat,
    total: nat,
)
    requires
        count <= total,
        history_of(instructions, items, key, count) is Err,
    ensures
        history_of(instructions, items, key, total) == history_of(instructions, items, key, count),
    decreases total,
{
    if count < total {
        lemma_history_stop(instructions, items, key, count, (total - 1) as nat);
    }
}

/// The system text and the messages of a request.
pub fn request_messages(request: &ModelRequest) -> (result: Result<History, ApiError>)
    ensures
        match result {
            Ok(history) => request_history(*request) == Ok::<HistoryView, ErrorView>(history@),
            Err(error) => request_history(*request) == Err::<HistoryView, ErrorView>(error@),
        },
{
    let items = match crate::surface::derive(
        &request.events,
        &request.forgetting,
        None,
        request.kind,
    ) {
        Some(items) => items,
        None => {
            return Err(uncounted_error());
        },
    };
    let key = concat3("messages/", request.model.as_str(), "/thinking-v2");
    let ghost all = item_views(items@);
    assert(all == request_surface(*request));
    let mut history = History { system: request.instructions.clone(), messages: Vec::new() };
    assert(message_views(history.messages@) =~= Seq::empty());
    let mut i: usize = 0;
    while i < items.len()
        invariant
            i <= items.len(),
            all == item_views(items@),
            key@ == thinking_key(request.model@),
            all == request_surface(*request),
            request_counted(*request),
            history_of(request.instructions@, all, key@, i as nat) == Ok::<HistoryView, ErrorView>(
                history@,
            ),
        decreases items.len() - i,
    {
        assert(all[i as int] == items[i as int]@);
        match history.add_item(&items[i], key.as_str()) {
            Some(error) => {
                proof {
                    lemma_history_stop(
                        request.instructions@,
                        all,
                        key@,
                        (i + 1) as nat,
                        all.len(),
                    );
                }
                return Err(error);
            },
            None => {},
        }
        i += 1;
    }
    Ok(history)
}

fn message_value(message: &RoleMessage) -> (value: Json)
    ensures
        value@ == message_json(message@),
{
    let role = match message.role {
        Role::User => "user",
        _ => "assistant",
    };
    Json::object().with_text("role", role).with(
        "content",
        Json::array(copy_values(&message.content)),
    )
}

fn tool_value(function: &FunctionTool) -> (value: Json)
    ensures
        value@ == tool_json(function@),
{
    Json::object().with_text("name", function.name.as_str()).with_text(
        "description",
        function.description.as_str(),
    ).with("input_schema", function.parameters.clone())
}

fn tool_values(tools: &Vec<ModelTool>) -> (values: Vec<Json>)
    ensures
        json_views(values@) == tools_json(tools@, tools@.len()),
{
    let mut values: Vec<Json> = Vec::new();
    let mut i: usize = 0;
    assert(json_views(values@) =~= Seq::empty());
    while i < tools.len()
        invariant
            i <= tools.len(),
            json_views(values@) == tools_json(tools@, i as nat),
        decreases tools.len() - i,
    {
        let functions = functions_of(&tools[i]);
        let ghost wanted = tool_functions(tools[i as int]);
        let ghost before = json_views(values@);
        let mut j: usize = 0;
        assert(before =~= before + Seq::new(0, |k: int| tool_json(wanted[k])));
        while j < functions.len()
            invariant
                j <= functions.len(),
                function_views(functions@) == wanted,
                json_views(values@) == before + Seq::new(j as nat, |k: int| tool_json(wanted[k])),
            decreases functions.len() - j,
        {
            assert(wanted[j as int] == functions[j as int]@);
            add_value(&mut values, tool_value(&functions[j]));
            j += 1;
            assert(json_views(values@) =~= before + Seq::new(
                j as nat,
                |k: int| tool_json(wanted[k]),
            ));
        }
        assert(wanted.len() == functions.len());
        i += 1;
    }
    values
}

/// What a value or an error stands for.
pub open spec fn json_outcome(result: Result<Json, ApiError>) -> Outcome<JsonView> {
    match result {
        Ok(value) => Ok(value@),
        Err(error) => Err(error@),
    }
}

/// The body of a request.
pub fn request_body(request: &ModelRequest) -> (result: Result<Json, ApiError>)
    ensures
        json_outcome(result) == body_json(*request),
{
    let history = match request_messages(request) {
        Ok(history) => history,
        Err(error) => {
            return Err(error);
        },
    };
    let mut messages: Vec<Json> = Vec::new();
    let mut i: usize = 0;
    let ghost wanted = history@.messages;
    assert(json_views(messages@) =~= Seq::new(0, |k: int| message_json(wanted[k])));
    while i < history.messages.len()
        invariant
            i <= history.messages.len(),
            wanted == message_views(history.messages@),
            json_views(messages@) == Seq::new(i as nat, |k: int| message_json(wanted[k])),
        decreases history.messages.len() - i,
    {
        assert(wanted[i as int] == history.messages[i as int]@);
        add_value(&mut messages, message_value(&history.messages[i]));
        i += 1;
        assert(json_views(messages@) =~= Seq::new(i as nat, |k: int| message_json(wanted[k])));
    }
    let tools = tool_values(&request.tools);
    let mut body = Json::object().with_text("model", request.model.as_str()).with_text(
        "system",
        history.system.as_str(),
    ).with("messages", Json::array(messages)).with(
        "max_tokens",
        Json::Integer(MAX_OUTPUT_TOKENS),
    ).with("stream", Json::Bool(true));
    assert(tools.len() == json_views(tools@).len());
    if tools.len() > 0 {
        body = body.with("tools", Json::array(tools));
    }
    let effort = request.reasoning_effort.as_str();
    if same_text(effort, "default") {
        Ok(body)
    } else if same_text(effort, "low") || same_text(effort, "medium") || same_text(effort, "high")
        || same_text(effort, "xhigh") || same_text(effort, "max") {
        Ok(
            body.with("thinking", Json::object().with_text("type", "adaptive")).with(
                "output_config",
                Json::object().with_text("effort", effort),
            ),
        )
    } else {
        Err(named_error("unsupported Messages reasoning effort ", effort))
    }
}

// ---------------------------------------------------------------------------
// The answer as it comes in
// ---------------------------------------------------------------------------

/// An open block of the answer, as far as the news of it need it.
#[derive(Debug)]
pub enum LiveBlock {
    Text,
    Thinking,
    RedactedThinking,
    ToolUse { call_id: String },
}

/// What a [`LiveBlock`] stands for.
pub enum LiveBlockView {
    Text,
    Thinking,
    RedactedThinking,
    ToolUse { call_id: Seq<char> },
}

impl View for LiveBlock {
    type V = LiveBlockView;

    open spec fn view(&self) -> LiveBlockView {
        match self {
            LiveBlock::Text => LiveBlockView::Text,
            LiveBlock::Thinking => LiveBlockView::Thinking,
            LiveBlock::RedactedThinking => LiveBlockView::RedactedThinking,
            LiveBlock::ToolUse { call_id } => LiveBlockView::ToolUse { call_id: call_id@ },
        }
    }
}

/// The open blocks by their index.
#[derive(Debug)]
pub struct Live {
    pub blocks: Vec<(u64, LiveBlock)>,
}

/// What open blocks stand for.
pub open spec fn live_views(blocks: Seq<(u64, LiveBlock)>) -> Seq<(u64, LiveBlockView)> {
    Seq::new(blocks.len(), |i: int| (blocks[i].0, blocks[i].1@))
}

impl View for Live {
    type V = Seq<(u64, LiveBlockView)>;

    open spec fn view(&self) -> Seq<(u64, LiveBlockView)> {
        live_views(self.blocks@)
    }
}

/// The open blocks and the news.
pub type LiveStep = (Seq<(u64, LiveBlockView)>, Seq<EventView>);

/// An update as the only news.
pub open spec fn news(update: UpdateView) -> Seq<EventView> {
    Seq::empty().push(EventView::Update(update))
}

/// What the start of a block brings.
pub open spec fn live_start(blocks: Seq<(u64, LiveBlockView)>, frame: JsonView) -> Outcome<
    LiveStep,
> {
    let context = "Messages content_block_start event"@;
    match needed_u64(frame, "index"@, context) {
        Err(error) => Err(error),
        Ok(index) => if entry(blocks, index) is Some {
            Err(numbered("Messages started duplicate content block "@, index))
        } else {
            let block = frame.field("content_block"@);
            match needed_str(block, "type"@, context) {
                Err(error) => Err(error),
                Ok(kind) => if kind == "text"@ {
                    Ok((put(blocks, index, LiveBlockView::Text), Seq::empty()))
                } else if kind == "thinking"@ {
                    Ok((put(blocks, index, LiveBlockView::Thinking), Seq::empty()))
                } else if kind == "redacted_thinking"@ {
                    Ok((put(blocks, index, LiveBlockView::RedactedThinking), Seq::empty()))
                } else if kind == "tool_use"@ {
                    match needed_nonempty(block, "id"@, "Messages tool_use content block"@) {
                        Err(error) => Err(error),
                        Ok(call_id) => match needed_nonempty(
                            block,
                            "name"@,
                            "Messages tool_use content block"@,
                        ) {
                            Err(error) => Err(error),
                            Ok(name) => Ok(
                                (
                                    put(blocks, index, LiveBlockView::ToolUse { call_id }),
                                    news(
                                        UpdateView::ToolCallStarted {
                                            item_id: call_id,
                                            call_id: Some(call_id),
                                            name,
                                        },
                                    ),
                                ),
                            ),
                        },
                    }
                } else {
                    Err(named("unknown Messages content block "@, kind))
                },
            }
        },
    }
}

/// What a delta for a block brings.
pub open spec fn live_delta(block: LiveBlockView, index: u64, delta: JsonView) -> Outcome<
    Seq<EventView>,
> {
    match needed_str(delta, "type"@, "Messages content_block_delta event"@) {
        Err(error) => Err(error),
        Ok(kind) => if kind == "text_delta"@ {
            if block is Text {
                match needed_str(delta, "text"@, "Messages text_delta event"@) {
                    Err(error) => Err(error),
                    Ok(content) => Ok(
                        news(
                            UpdateView::AssistantDelta {
                                content,
                                phase: AssistantMessagePhase::Commentary,
                            },
                        ),
                    ),
                }
            } else {
                Err(numbered("Messages text_delta referenced non-text content block "@, index))
            }
        } else if kind == "thinking_delta"@ {
            if block is Thinking {
                match needed_str(delta, "thinking"@, "Messages thinking_delta event"@) {
                    Err(error) => Err(error),
                    Ok(text) => Ok(news(UpdateView::ReasoningSummaryDelta(text))),
                }
            } else {
                Err(
                    numbered(
                        "Messages thinking_delta referenced non-thinking content block "@,
                        index,
                    ),
                )
            }
        } else if kind == "signature_delta"@ {
            if block is Thinking {
                match needed_str(delta, "signature"@, "Messages signature_delta event"@) {
                    Err(error) => Err(error),
                    Ok(_) => Ok(Seq::empty()),
                }
            } else {
                Err(
                    numbered(
                        "Messages signature_delta referenced non-thinking content block "@,
                        index,
                    ),
                )
            }
        } else if kind == "input_json_delta"@ {
            match block {
                LiveBlockView::ToolUse { call_id } => match needed_str(
                    delta,
                    "partial_json"@,
                    "Messages input_json_delta event"@,
                ) {
                    Err(error) => Err(error),
                    Ok(text) => Ok(
                        news(UpdateView::ToolCallDelta { item_id: call_id, delta: text }),
                    ),
                },
                _ => Err(
                    numbered(
                        "Messages input_json_delta referenced non-tool content block "@,
                        index,
                    ),
                ),
            }
        } else if kind == "citations_delta"@ {
            if block is Text {
                if delta.field("citation"@) is Object {
                    Ok(Seq::empty())
                } else {
                    Err(
                        ErrorView::Invalid(
                            "Messages citations_delta event omitted object field citation"@,
                        ),
                    )
                }
            } else {
                Err(
                    numbered("Messages citations_delta referenced non-text content block "@, index),
                )
            }
        } else {
            Err(named("unknown Messages delta "@, kind))
        },
    }
}

/// The error that a frame reports.
pub open spec fn frame_error(frame: JsonView) -> ErrorView {
    ErrorView::Invalid("Messages error: "@ + printed(frame.field("error"@)))
}

/// The open blocks and the news after a frame.
pub open spec fn live_step(blocks: Seq<(u64, LiveBlockView)>, frame: JsonView) -> Outcome<
    LiveStep,
> {
    match needed_str(frame, "type"@, "Messages stream event"@) {
        Err(error) => Err(error),
        Ok(kind) => if kind == "error"@ {
            Err(frame_error(frame))
        } else if kind == "message_start"@ {
            Ok((Seq::empty(), Seq::empty()))
        } else if kind == "content_block_start"@ {
            live_start(blocks, frame)
        } else if kind == "content_block_delta"@ {
            match needed_u64(frame, "index"@, "Messages content_block_delta event"@) {
                Err(error) => Err(error),
                Ok(index) => match entry(blocks, index) {
                    None => Err(
                        numbered("Messages delta referenced unknown content block "@, index),
                    ),
                    Some(block) => match live_delta(block, index, frame.field("delta"@)) {
                        Err(error) => Err(error),
                        Ok(events) => Ok((blocks, events)),
                    },
                },
            }
        } else if kind == "content_block_stop"@ {
            match needed_u64(frame, "index"@, "Messages content_block_stop event"@) {
                Err(error) => Err(error),
                Ok(index) => if entry(blocks, index) is Some {
                    Ok((erased(blocks, index), Seq::empty()))
                } else {
                    Err(numbered("Messages stopped unknown content block "@, index))
                },
            }
        } else if kind == "message_delta"@ || kind == "message_stop"@ || kind == "ping"@ {
            Ok((blocks, Seq::empty()))
        } else {
            Err(named("unknown Messages event "@, kind))
        },
    }
}

fn reported(frame: &Json) -> (error: ApiError)
    ensures
        error@ == frame_error(frame@),
{
    let value = frame.field("error").to_text();
    ApiError::Invalid(concat2("Messages error: ", value.as_str()))
}

pub(crate) fn single_update(update: ModelStreamEvent) -> (events: Vec<ModelEvent>)
    ensures
        event_views(events@) == news(update@),
{
    let mut events: Vec<ModelEvent> = Vec::new();
    assert(event_views(events@) =~= Seq::empty());
    emit(&mut events, ModelEvent::Update(update));
    events
}

pub(crate) fn no_events() -> (events: Vec<ModelEvent>)
    ensures
        event_views(events@) == Seq::<EventView>::empty(),
{
    let events: Vec<ModelEvent> = Vec::new();
    assert(event_views(events@) =~= Seq::empty());
    events
}

fn delta_news(block: &LiveBlock, index: u64, delta: &Json) -> (result: Result<
    Vec<ModelEvent>,
    ApiError,
>)
    ensures
        events_outcome(result) == live_delta(block@, index, delta@),
{
    let kind = match required_str(delta, "type", "Messages content_block_delta event") {
        Ok(kind) => kind,
        Err(error) => {
            return Err(error);
        },
    };
    if same_text(kind, "text_delta") {
        if !matches!(block, LiveBlock::Text) {
            return Err(
                numbered_error("Messages text_delta referenced non-text content block ", index),
            );
        }
        match required_str(delta, "text", "Messages text_delta event") {
            Err(error) => Err(error),
            Ok(text) => Ok(
                single_update(
                    ModelStreamEvent::AssistantDelta {
                        content: text.to_owned(),
                        phase: AssistantMessagePhase::Commentary,
                    },
                ),
            ),
        }
    } else if same_text(kind, "thinking_delta") {
        if !matches!(block, LiveBlock::Thinking) {
            return Err(
                numbered_error(
                    "Messages thinking_delta referenced non-thinking content block ",
                    index,
                ),
            );
        }
        match required_str(delta, "thinking", "Messages thinking_delta event") {
            Err(error) => Err(error),
            Ok(text) => Ok(
                single_update(ModelStreamEvent::ReasoningSummaryDelta(text.to_owned())),
            ),
        }
    } else if same_text(kind, "signature_delta") {
        if !matches!(block, LiveBlock::Thinking) {
            return Err(
                numbered_error(
                    "Messages signature_delta referenced non-thinking content block ",
                    index,
                ),
            );
        }
        match required_str(delta, "signature", "Messages signature_delta event") {
            Err(error) => Err(error),
            Ok(_) => Ok(no_events()),
        }
    } else if same_text(kind, "input_json_delta") {
        match block {
            LiveBlock::ToolUse { call_id } => match required_str(
                delta,
                "partial_json",
                "Messages input_json_delta event",
            ) {
                Err(error) => Err(error),
                Ok(text) => Ok(
                    single_update(
                        ModelStreamEvent::ToolCallDelta {
                            item_id: call_id.clone(),
                            delta: text.to_owned(),
                        },
                    ),
                ),
            },
            _ => Err(
                numbered_error(
                    "Messages input_json_delta referenced non-tool content block ",
                    index,
                ),
            ),
        }
    } else if same_text(kind, "citations_delta") {
        if !matches!(block, LiveBlock::Text) {
            return Err(
                numbered_error("Messages citations_delta referenced non-text content block ", index),
            );
        }
        if delta.field("citation").is_object() {
            Ok(no_events())
        } else {
            Err(invalid("Messages citations_delta event omitted object field citation"))
        }
    } else {
        Err(named_error("unknown Messages delta ", kind))
    }
}

/// What the news of a frame, or an error, stand for beside the blocks.
pub open spec fn step_matches(
    outcome: Outcome<LiveStep>,
    result: Result<Vec<ModelEvent>, ApiError>,
    before: Seq<(u64, LiveBlockView)>,
    after: Seq<(u64, LiveBlockView)>,
) -> bool {
    match result {
        Ok(events) => outcome == Ok::<LiveStep, ErrorView>((after, event_views(events@))),
        Err(error) => outcome == Err::<LiveStep, ErrorView>(error@) && after == before,
    }
}

impl Live {
    /// Nothing has come in.
    pub fn new() -> (live: Self)
        ensures
            live@ == Seq::<(u64, LiveBlockView)>::empty(),
    {
        let live = Live { blocks: Vec::new() };
        assert(live@ =~= Seq::empty());
        live
    }

    fn open(&mut self, index: u64, block: LiveBlock)
        ensures
            final(self)@ == put(old(self)@, index, block@),
    {
        let ghost before = self.blocks@;
        let at = position(&self.blocks, index);
        proof {
            lemma_same_keys(before, live_views(before), index);
        }
        if at < self.blocks.len() && self.blocks[at].0 == index {
            let _ = self.blocks.remove(at);
        }
        self.blocks.insert(at, (index, block));
        assert(live_views(self.blocks@) =~= put(live_views(before), index, block@));
    }

    fn find(&self, index: u64) -> (found: Option<usize>)
        ensures
            match found {
                Some(at) => at < self.blocks.len() && at == rank(self.blocks@, index)
                    && self.blocks[at as int].0 == index && entry(self@, index) == Some(
                    self.blocks[at as int].1@,
                ),
                None => entry(self@, index) is None,
            },
    {
        let at = position(&self.blocks, index);
        proof {
            lemma_same_keys(self.blocks@, live_views(self.blocks@), index);
        }
        if at < self.blocks.len() && self.blocks[at].0 == index {
            Some(at)
        } else {
            None
        }
    }

    fn start_block(&mut self, frame: &Json) -> (result: Result<Vec<ModelEvent>, ApiError>)
        ensures
            step_matches(live_start(old(self)@, frame@), result, old(self)@, final(self)@),
    {
        let index = match required_u64(frame, "index", "Messages content_block_start event") {
            Ok(index) => index,
            Err(error) => {
                return Err(error);
            },
        };
        if self.find(index).is_some() {
            return Err(numbered_error("Messages started duplicate content block ", index));
        }
        let block = frame.field("content_block");
        let kind = match required_str(&block, "type", "Messages content_block_start event") {
            Ok(kind) => kind,
            Err(error) => {
                return Err(error);
            },
        };
        if same_text(kind, "text") {
            self.open(index, LiveBlock::Text);
            Ok(no_events())
        } else if same_text(kind, "thinking") {
            self.open(index, LiveBlock::Thinking);
            Ok(no_events())
        } else if same_text(kind, "redacted_thinking") {
            self.open(index, LiveBlock::RedactedThinking);
            Ok(no_events())
        } else if same_text(kind, "tool_use") {
            let call_id = match required_nonempty_str(
                &block,
                "id",
                "Messages tool_use content block",
            ) {
                Ok(call_id) => call_id.to_owned(),
                Err(error) => {
                    return Err(error);
                },
            };
            let name = match required_nonempty_str(
                &block,
                "name",
                "Messages tool_use content block",
            ) {
                Ok(name) => name.to_owned(),
                Err(error) => {
                    return Err(error);
                },
            };
            self.open(index, LiveBlock::ToolUse { call_id: call_id.clone() });
            Ok(
                single_update(
                    ModelStreamEvent::ToolCallStarted {
                        item_id: call_id.clone(),
                        call_id: Some(call_id),
                        name,
                    },
                ),
            )
        } else {
            Err(named_error("unknown Messages content block ", kind))
        }
    }

    /// Takes a frame, and gives the news of it.
    pub fn decode(&mut self, frame: &Json) -> (result: Result<Vec<ModelEvent>, ApiError>)
        ensures
            step_matches(live_step(old(self)@, frame@), result, old(self)@, final(self)@),
    {
        let kind = match required_str(frame, "type", "Messages stream event") {
            Ok(kind) => kind,
            Err(error) => {
                return Err(error);
            },
        };
        if same_text(kind, "error") {
            Err(reported(frame))
        } else if same_text(kind, "message_start") {
            self.blocks = Vec::new();
            assert(self@ =~= Seq::empty());
            Ok(no_events())
        } else if same_text(kind, "content_block_start") {
            self.start_block(frame)
        } else if same_text(kind, "content_block_delta") {
            let index = match required_u64(frame, "index", "Messages content_block_delta event") {
                Ok(index) => index,
                Err(error) => {
                    return Err(error);
                },
            };
            match self.find(index) {
                None => Err(
                    numbered_error("Messages delta referenced unknown content block ", index),
                ),
                Some(at) => delta_news(&self.blocks[at].1, index, &frame.field("delta")),
            }
        } else if same_text(kind, "content_block_stop") {
            let index = match required_u64(frame, "index", "Messages content_block_stop event") {
                Ok(index) => index,
                Err(error) => {
                    return Err(error);
                },
            };
            match self.find(index) {
                None => Err(numbered_error("Messages stopped unknown content block ", index)),
                Some(at) => {
                    let ghost before = self.blocks@;
                    proof {
                        lemma_same_keys(before, live_views(before), index);
                    }
                    let _ = self.blocks.remove(at);
                    assert(self@ =~= erased(live_views(before), index));
                    Ok(no_events())
                },
            }
        } else if same_text(kind, "message_delta") || same_text(kind, "message_stop")
            || same_text(kind, "ping") {
            Ok(no_events())
        } else {
            Err(named_error("unknown Messages event ", kind))
        }
    }
}

/// A message that starts anew does away with what came in of another.
pub proof fn law_new_message_starts_empty(blocks: Seq<(u64, LiveBlockView)>, frame: JsonView)
    requires
        frame.str_field("type"@) == Some("message_start"@),
    ensures
        live_step(blocks, frame) == Ok::<LiveStep, ErrorView>((Seq::empty(), Seq::empty())),
{
    reveal_strlit("error");
    reveal_strlit("message_start");
    assert("error"@.len() != "message_start"@.len());
}

/// Whether a block may be said by `role`: the results of tools are said by the user,
/// and the calls of tools and the thinking by the assistant.
pub open spec fn may_say(role: Role, block: JsonView) -> bool {
    let kind = block.str_field("type"@);
    &&& kind is Some
    &&& kind == Some("tool_result"@) ==> role is User
    &&& kind == Some("tool_use"@) ==> role is Assistant
    &&& kind == Some("thinking"@) ==> role is Assistant
    &&& kind == Some("redacted_thinking"@) ==> role is Assistant
}

/// Whether messages are such as the API takes: user and assistant take turns, each
/// says something, and nobody says what the other one says.
pub open spec fn takes_turns(messages: Seq<RoleMessageView>) -> bool {
    &&& forall|m: int|
        0 <= m < messages.len() ==> {
            &&& (#[trigger] messages[m]).role is User || messages[m].role is Assistant
            &&& messages[m].content.len() > 0
        }
    &&& forall|m: int, n: int|
        0 <= m < messages.len() && n == m + 1 && n < messages.len() ==> (#[trigger] messages[m]).role
            != (#[trigger] messages[n]).role
    &&& forall|m: int, b: int|
        0 <= m < messages.len() && 0 <= b < messages[m].content.len() ==> may_say(
            messages[m].role,
            #[trigger] messages[m].content[b],
        )
}

proof fn lemma_block_kinds()
    ensures
        "tool_result"@ != "tool_use"@,
        "tool_result"@ != "text"@,
        "tool_result"@ != "thinking"@,
        "tool_result"@ != "redacted_thinking"@,
        "tool_use"@ != "text"@,
        "tool_use"@ != "thinking"@,
        "tool_use"@ != "redacted_thinking"@,
        "text"@ != "thinking"@,
        "text"@ != "redacted_thinking"@,
{
    reveal_strlit("tool_result");
    reveal_strlit("tool_use");
    reveal_strlit("text");
    reveal_strlit("thinking");
    reveal_strlit("redacted_thinking");
    assert("tool_result"@.len() == 11 && "tool_use"@.len() == 8 && "text"@.len() == 4 && "thinking"@.len() == 8 && "redacted_thinking"@.len() == 17);
    assert("tool_use"@[1] != "thinking"@[1]);
}

proof fn lemma_block_keys()
    ensures
        "type"@ != "id"@,
        "type"@ != "name"@,
        "type"@ != "input"@,
        "type"@ != "tool_use_id"@,
        "type"@ != "content"@,
        "type"@ != "text"@,
        "id"@ != "name"@,
        "id"@ != "input"@,
        "name"@ != "input"@,
        "tool_use_id"@ != "content"@,
{
    reveal_strlit("type");
    reveal_strlit("id");
    reveal_strlit("name");
    reveal_strlit("input");
    reveal_strlit("tool_use_id");
    reveal_strlit("content");
    reveal_strlit("text");
    assert("type"@.len() == 4 && "id"@.len() == 2 && "name"@.len() == 4 && "input"@.len() == 5 && "tool_use_id"@.len() == 11 && "content"@.len() == 7 && "text"@.len() == 4);
    assert("type"@[0] != "name"@[0]);
    assert("type"@[1] != "text"@[1]);
    assert("name"@[0] != "text"@[0]);
}

/// What one item adds to a history that can be sent. A text of the developer goes to
/// the end of the system text. A text that is not empty, a call, a result, and
/// thinking that the model may be handed back, are one more block at the end of the
/// last message, whose role is that of the one who said it. Nothing that was there
/// changes.
pub proof fn law_item_adds_its_block(history: HistoryView, item: ItemView, key: Seq<char>)
    requires
        takes_turns(history.messages),
    ensures
        (with_item(history, item, key) is Err) <==> (item matches ItemView::Reasoning {
            opaque: Some(state),
            ..
        } && state.replay_key == key && replay_problem(state.payload) is Some),
        with_item(history, item, key) matches Ok(after) ==> {
            let said = match item {
                ItemView::Message { role, text, .. } => !(role is Developer) && text.len() > 0,
                ItemView::Reasoning { opaque, .. } => opaque matches Some(state)
                    && state.replay_key == key,
                _ => item is ToolCall || item is ToolResult,
            };
            let last = after.messages.last();
            let block = last.content.last();
            let joins = history.messages.len() > 0 && history.messages.last().role == last.role;
            &&& takes_turns(after.messages)
            &&& item matches ItemView::Message { role: Role::Developer, text, .. } ==> after.system
                == history.system + "\n\n"@ + text
            &&& !(item matches ItemView::Message { role, .. } && role is Developer)
                ==> after.system == history.system
            &&& !said ==> after.messages == history.messages
            &&& said ==> {
                &&& joins ==> after.messages.drop_last() == history.messages.drop_last()
                    && last.content.drop_last() == history.messages.last().content
                    && after.messages.len() > 0
                &&& !joins ==> after.messages.drop_last() == history.messages
                    && last.content.len() == 1 && after.messages.len() > 0
            }
            &&& said && item is Message ==> {
                &&& last.role == item->Message_role
                &&& block.str_field("type"@) == Some("text"@)
                &&& block.str_field("text"@) == Some(item->Message_text)
            }
            &&& item is ToolCall ==> {
                &&& last.role is Assistant
                &&& block.str_field("type"@) == Some("tool_use"@)
                &&& block.str_field("id"@) == Some(item->ToolCall_call_id)
                &&& block.str_field("name"@) == Some(item->ToolCall_name)
                &&& block.field("input"@) == arguments_json(item->ToolCall_input)
            }
            &&& item is ToolResult ==> {
                &&& last.role is User
                &&& block.str_field("type"@) == Some("tool_result"@)
                &&& block.str_field("tool_use_id"@) == Some(item->ToolResult_call_id)
                &&& block.str_field("content"@) == Some(value_words(item->ToolResult_output))
            }
            &&& said && item is Reasoning ==> {
                &&& last.role is Assistant
                &&& block == item->Reasoning_opaque->0.payload
            }
        },
{
    broadcast use crate::json::lemma_with, crate::json::lemma_no_fields;

    lemma_block_kinds();
    lemma_block_keys();
    match item {
        ItemView::Message { role, text, .. } => {
            if !(role is Developer) && text.len() > 0 {
                lemma_block_is_added(history.messages, role, text_block(text));
            }
        },
        ItemView::ToolCall { call_id, name, input, .. } => {
            let after = with_item(history, item, key)->Ok_0;
            let block = after.messages.last().content.last();
            assert(block.get("type"@) == Some(JsonView::Text("tool_use"@)));
            lemma_block_is_added(history.messages, Role::Assistant, block);
        },
        ItemView::ToolResult { call_id, output, .. } => {
            let after = with_item(history, item, key)->Ok_0;
            let block = after.messages.last().content.last();
            assert(block.get("type"@) == Some(JsonView::Text("tool_result"@)));
            lemma_block_is_added(history.messages, Role::User, block);
        },
        ItemView::Reasoning { opaque: Some(state), .. } => {
            if state.replay_key == key && replay_problem(state.payload) is None {
                lemma_block_is_added(history.messages, Role::Assistant, state.payload);
            }
        },
        _ => {},
    }
}

proof fn lemma_block_is_added(messages: Seq<RoleMessageView>, role: Role, block: JsonView)
    requires
        takes_turns(messages),
        role is User || role is Assistant,
        may_say(role, block),
    ensures
        takes_turns(with_block(messages, role, block)),
        ({
            let after = with_block(messages, role, block);
            let joins = messages.len() > 0 && messages.last().role == role;
            &&& after.len() > 0
            &&& after.last().role == role
            &&& after.last().content.len() > 0
            &&& after.last().content.last() == block
            &&& joins ==> after.drop_last() == messages.drop_last()
                && after.last().content.drop_last() == messages.last().content
            &&& !joins ==> after.drop_last() == messages && after.last().content.len() == 1
        }),
{
    let after = with_block(messages, role, block);
    let last = after.last();
    let joins = messages.len() > 0 && messages.last().role == role;
    if joins {
        assert(after.drop_last() =~= messages.drop_last());
        assert(last.content.drop_last() =~= messages.last().content);
    } else {
        assert(after.drop_last() =~= messages);
    }
    assert forall|m: int| 0 <= m < after.len() - 1 implies #[trigger] after[m] == messages[m] by {
        assert(after.drop_last()[m] == after[m]);
    }
    assert forall|m: int, n: int|
        0 <= m < after.len() && n == m + 1 && n < after.len() implies (#[trigger] after[m]).role != (
    #[trigger] after[n]).role by {
        if n < after.len() - 1 {
            assert(messages[m].role != messages[n].role);
        } else if joins {
            assert(messages[m].role != messages[n].role);
        } else {
            assert(after[m] == messages[m]);
        }
    }
    assert forall|m: int, b: int|
        0 <= m < after.len() && 0 <= b < after[m].content.len() implies may_say(
        after[m].role,
        #[trigger] after[m].content[b],
    ) by {
        if m < after.len() - 1 {
            assert(after[m].content[b] == messages[m].content[b]);
        } else if b < last.content.len() - 1 {
            assert(messages[messages.len() - 1].content[b] == last.content[b]);
        }
    }
}

proof fn lemma_history_takes_turns(
    instructions: Seq<char>,
    items: Seq<ItemView>,
    key: Seq<char>,
    count: nat,
)
    requires
        history_of(instructions, items, key, count) is Ok,
    ensures
        takes_turns(history_of(instructions, items, key, count)->Ok_0.messages),
    decreases count,
{
    if count > 0 {
        lemma_history_takes_turns(instructions, items, key, (count - 1) as nat);
        let before = history_of(instructions, items, key, (count - 1) as nat)->Ok_0;
        law_item_adds_its_block(before, items[count - 1], key);
    }
}

/// In the messages of a request every result of a tool stands in a message of the
/// user and every call of one in a message of the assistant, so that a result comes
/// after its call in a message of its own.
pub proof fn law_results_are_said_by_the_user(request: ModelRequest, m: int, b: int)
    requires
        request_history(request) is Ok,
        0 <= m < request_history(request)->Ok_0.messages.len(),
        0 <= b < request_history(request)->Ok_0.messages[m].content.len(),
    ensures
        takes_turns(request_history(request)->Ok_0.messages),
        ({
            let messages = request_history(request)->Ok_0.messages;
            let sent = message_json(messages[m]);
            let block = sent.field("content"@)->Array_0[b];
            &&& sent.field("content"@) is Array
            &&& block.str_field("type"@) == Some("tool_result"@) ==> sent.str_field("role"@)
                == Some("user"@)
            &&& block.str_field("type"@) == Some("tool_use"@) ==> sent.str_field("role"@) == Some(
                "assistant"@,
            )
            &&& m > 0 ==> sent.str_field("role"@) != message_json(messages[m - 1]).str_field(
                "role"@,
            )
        }),
{
    broadcast use crate::json::lemma_with, crate::json::lemma_no_fields;

    reveal_strlit("role");
    reveal_strlit("content");
    reveal_strlit("user");
    reveal_strlit("assistant");
    assert("role"@.len() == 4 && "content"@.len() == 7 && "user"@.len() == 4 && "assistant"@.len() == 9);
    assert("role"@[0] != "user"@[0]);
    let items = request_surface(request);
    lemma_history_takes_turns(
        request.instructions@,
        items,
        thinking_key(request.model@),
        items.len(),
    );
    let messages = request_history(request)->Ok_0.messages;
    assert(messages[m].content[b].str_field("type"@) is Some);
    if m > 0 {
        assert(messages[m].role != messages[m - 1].role);
        assert(messages[m - 1].role is User || messages[m - 1].role is Assistant);
    }
}

proof fn lemma_body_keys()
    ensures
        "model"@ != "system"@,
        "model"@ != "messages"@,
        "model"@ != "max_tokens"@,
        "model"@ != "stream"@,
        "model"@ != "tools"@,
        "model"@ != "thinking"@,
        "model"@ != "output_config"@,
        "system"@ != "messages"@,
        "system"@ != "max_tokens"@,
        "system"@ != "stream"@,
        "system"@ != "tools"@,
        "system"@ != "thinking"@,
        "system"@ != "output_config"@,
        "messages"@ != "max_tokens"@,
        "messages"@ != "stream"@,
        "messages"@ != "tools"@,
        "messages"@ != "thinking"@,
        "messages"@ != "output_config"@,
        "max_tokens"@ != "stream"@,
        "max_tokens"@ != "tools"@,
        "max_tokens"@ != "thinking"@,
        "max_tokens"@ != "output_config"@,
        "stream"@ != "tools"@,
        "stream"@ != "thinking"@,
        "stream"@ != "output_config"@,
        "tools"@ != "thinking"@,
        "tools"@ != "output_config"@,
        "thinking"@ != "output_config"@,
{
    reveal_strlit("model");
    reveal_strlit("system");
    reveal_strlit("messages");
    reveal_strlit("max_tokens");
    reveal_strlit("stream");
    reveal_strlit("tools");
    reveal_strlit("thinking");
    reveal_strlit("output_config");
    assert("model"@.len() == 5 && "system"@.len() == 6 && "messages"@.len() == 8 && "max_tokens"@.len() == 10 && "stream"@.len() == 6 && "tools"@.len() == 5 && "thinking"@.len() == 8 && "output_config"@.len() == 13);
    assert("model"@[0] != "tools"@[0]);
    assert("system"@[1] != "stream"@[1]);
    assert("messages"@[0] != "thinking"@[0]);
}

/// What a request asks of the API: the model that was chosen, the whole history, an
/// answer of so many tokens at most that comes piece by piece, the tools where there
/// are any, and thinking with the effort that was chosen, unless that is left to the
/// API. An effort that the API does not know is refused.
pub proof fn law_request_says_what_is_wanted(request: ModelRequest)
    ensures
        ({
            let effort = request.reasoning_effort@;
            let known = effort == "low"@ || effort == "medium"@ || effort == "high"@ || effort
                == "xhigh"@ || effort == "max"@;
            &&& body_json(request) is Ok <==> request_history(request) is Ok && (known || effort
                == "default"@)
            &&& body_json(request) matches Ok(body) ==> {
                let history = request_history(request)->Ok_0;
                let sent = body.field("messages"@)->Array_0;
                let tools = tools_json(request.tools@, request.tools@.len());
                &&& body.str_field("model"@) == Some(request.model@)
                &&& body.str_field("system"@) == Some(history.system)
                &&& body.field("messages"@) is Array
                &&& sent.len() == history.messages.len()
                &&& forall|m: int|
                    0 <= m < sent.len() ==> {
                        &&& (#[trigger] sent[m]).field("content"@) == JsonView::Array(
                            history.messages[m].content,
                        )
                        &&& sent[m].str_field("role"@) == (if history.messages[m].role is User {
                            Some("user"@)
                        } else {
                            Some("assistant"@)
                        })
                    }
                &&& body.field("max_tokens"@) == JsonView::Integer(65536)
                &&& body.field("stream"@) == JsonView::Bool(true)
                &&& body.get("tools"@) == (if tools.len() == 0 {
                    None
                } else {
                    Some(JsonView::Array(tools))
                })
                &&& body.get("thinking"@) is Some <==> effort != "default"@
                &&& effort != "default"@ ==> {
                    &&& body.field("thinking"@).str_field("type"@) == Some("adaptive"@)
                    &&& body.field("output_config"@).str_field("effort"@) == Some(effort)
                }
            }
        }),
{
    broadcast use crate::json::lemma_with, crate::json::lemma_no_fields;

    lemma_body_keys();
    reveal_strlit("role");
    reveal_strlit("content");
    reveal_strlit("default");
    reveal_strlit("low");
    reveal_strlit("medium");
    reveal_strlit("high");
    reveal_strlit("xhigh");
    reveal_strlit("max");
    assert("role"@.len() == 4 && "content"@.len() == 7 && "default"@.len() == 7 && "low"@.len() == 3 && "medium"@.len() == 6 && "high"@.len() == 4 && "xhigh"@.len() == 5 && "max"@.len() == 3);
    assert("low"@[0] != "max"@[0]);
    if let Ok(body) = body_json(request) {
        let history = request_history(request)->Ok_0;
        let sent = Seq::new(history.messages.len(), |i: int| message_json(history.messages[i]));
        assert(body.field("messages"@) == JsonView::Array(sent));
        assert forall|m: int| 0 <= m < sent.len() implies {
            &&& (#[trigger] sent[m]).field("content"@) == JsonView::Array(
                history.messages[m].content,
            )
            &&& sent[m].str_field("role"@) == (if history.messages[m].role is User {
                Some("user"@)
            } else {
                Some("assistant"@)
            })
        } by {
            assert(sent[m] == message_json(history.messages[m]));
        }
    }
}

/// Every function of every tool is offered, in the order of the tools, with its
/// name, its description and what it takes.
pub proof fn law_tools_are_offered(tools: Seq<ModelTool>, t: int, f: int)
    requires
        0 <= t < tools.len(),
        0 <= f < tool_functions(tools[t]).len(),
    ensures
        ({
            let function = tool_functions(tools[t])[f];
            let at = tools_json(tools, t as nat).len() + f;
            let offers = tools_json(tools, tools.len());
            &&& at < offers.len()
            &&& offers[at].str_field("name"@) == Some(function.name)
            &&& offers[at].str_field("description"@) == Some(function.description)
            &&& offers[at].field("input_schema"@) == function.parameters
        }),
{
    broadcast use crate::json::lemma_with, crate::json::lemma_no_fields;

    reveal_strlit("name");
    reveal_strlit("description");
    reveal_strlit("input_schema");
    assert("name"@.len() == 4 && "description"@.len() == 11 && "input_schema"@.len() == 12);
    lemma_tools_grow(tools, (t + 1) as nat, tools.len());
    let function = tool_functions(tools[t])[f];
    let at = tools_json(tools, t as nat).len() + f;
    assert(tools_json(tools, (t + 1) as nat)[at] == tool_json(function));
}

proof fn lemma_tools_grow(tools: Seq<ModelTool>, count: nat, total: nat)
    requires
        count <= total <= tools.len(),
    ensures
        tools_json(tools, count).len() <= tools_json(tools, total).len(),
        forall|i: int|
            0 <= i < tools_json(tools, count).len() ==> #[trigger] tools_json(tools, total)[i]
                == tools_json(tools, count)[i],
    decreases total,
{
    if count < total {
        lemma_tools_grow(tools, count, (total - 1) as nat);
    }
}

/// While an answer comes in, the pieces of a text and of thinking are passed on as
/// they come, and so are the pieces of what a tool is called with, under the identity
/// of the call. A piece for another kind of block is refused, as it is where the whole
/// answer is read.
pub proof fn law_live_pieces_are_passed_on(block: LiveBlockView, index: u64, delta: JsonView)
    ensures
        ({
            let kind = delta.str_field("type"@);
            let events = live_delta(block, index, delta);
            &&& events is Ok ==> events->Ok_0.len() <= 1
            &&& kind == Some("text_delta"@) ==> (events is Ok <==> block is Text
                && delta.str_field("text"@) is Some) && (events matches Ok(events) ==> events.len()
                == 1 && (events[0] matches EventView::Update(UpdateView::AssistantDelta {
                content,
                phase,
            }) && Some(content) == delta.str_field("text"@) && phase is Commentary))
            &&& kind == Some("thinking_delta"@) ==> (events is Ok <==> block is Thinking
                && delta.str_field("thinking"@) is Some) && (events matches Ok(events)
                ==> events.len() == 1 && (events[0] matches EventView::Update(
                UpdateView::ReasoningSummaryDelta(text),
            ) && Some(text) == delta.str_field("thinking"@)))
            &&& kind == Some("input_json_delta"@) ==> (events is Ok <==> block is ToolUse
                && delta.str_field("partial_json"@) is Some) && (events matches Ok(events)
                ==> events.len() == 1 && (events[0] matches EventView::Update(
                UpdateView::ToolCallDelta { item_id, delta: text },
            ) && Some(text) == delta.str_field("partial_json"@) && block
                == (LiveBlockView::ToolUse { call_id: item_id })))
            &&& kind == Some("signature_delta"@) ==> (events is Ok ==> block is Thinking
                && events->Ok_0.len() == 0)
            &&& kind == Some("citations_delta"@) ==> (events is Ok ==> block is Text
                && events->Ok_0.len() == 0)
            &&& kind is None ==> events is Err
        }),
{
    reveal_strlit("text_delta");
    reveal_strlit("thinking_delta");
    reveal_strlit("signature_delta");
    reveal_strlit("input_json_delta");
    reveal_strlit("citations_delta");
    assert("text_delta"@.len() == 10 && "thinking_delta"@.len() == 14 && "signature_delta"@.len() == 15 && "input_json_delta"@.len() == 16 && "citations_delta"@.len() == 15);
    assert("signature_delta"@[0] != "citations_delta"@[0]);
}

/// While an answer comes in, the blocks that are open are known by their numbers: one
/// is opened by its first event and closed by its last, a call is announced where it
/// opens, and no other block is touched.
pub proof fn law_live_blocks_open_and_close(
    blocks: Seq<(u64, LiveBlockView)>,
    frame: JsonView,
    other: u64,
)
    requires
        ordered(blocks),
    ensures
        ({
            let kind = frame.str_field("type"@);
            let step = live_step(blocks, frame);
            let named = frame.field("index"@).as_u64();
            let begun = frame.field("content_block"@);
            &&& kind is None || kind == Some("error"@) ==> step is Err
            &&& kind == Some("ping"@) || kind == Some("message_delta"@) || kind == Some(
                "message_stop"@,
            ) ==> step == Ok::<LiveStep, ErrorView>((blocks, Seq::empty()))
            &&& kind == Some("content_block_start"@) || kind == Some("content_block_delta"@) || kind
                == Some("content_block_stop"@) ==> {
                &&& step is Ok ==> named is Some
                &&& step is Ok && kind == Some("content_block_start"@) ==> entry(blocks, named->0)
                    is None
                &&& step is Ok && kind != Some("content_block_start"@) ==> entry(blocks, named->0)
                    is Some
                &&& step matches Ok((after, _)) ==> ordered(after) && (Some(other) != named
                    ==> entry(after, other) == entry(blocks, other))
            }
            &&& kind == Some("content_block_stop"@) && named is Some && entry(blocks, named->0)
                is Some ==> (step matches Ok((after, events)) && entry(after, named->0) is None
                && events.len() == 0)
            &&& kind == Some("content_block_delta"@) ==> (step matches Ok((after, events)) ==> after
                == blocks && live_delta(
                entry(blocks, named->0)->0,
                named->0,
                frame.field("delta"@),
            ) == Ok::<Seq<EventView>, ErrorView>(events))
            &&& kind == Some("content_block_start"@) && step is Ok ==> {
                let (after, events) = step->Ok_0;
                let now = entry(after, named->0);
                &&& now == Some(LiveBlockView::Text) <==> begun.str_field("type"@) == Some("text"@)
                &&& now == Some(LiveBlockView::Thinking) <==> begun.str_field("type"@) == Some(
                    "thinking"@,
                )
                &&& now == Some(LiveBlockView::RedactedThinking) <==> begun.str_field("type"@)
                    == Some("redacted_thinking"@)
                &&& begun.str_field("type"@) != Some("tool_use"@) ==> events.len() == 0
                &&& begun.str_field("type"@) == Some("tool_use"@) ==> {
                    &&& now == Some(LiveBlockView::ToolUse { call_id: begun.str_field("id"@)->0 })
                    &&& events.len() == 1
                    &&& events[0] matches EventView::Update(UpdateView::ToolCallStarted {
                        item_id,
                        call_id,
                        name,
                    }) && Some(item_id) == begun.str_field("id"@) && call_id == Some(item_id)
                        && Some(name) == begun.str_field("name"@)
                }
            }
        }),
{
    reveal_strlit("error");
    reveal_strlit("message_start");
    reveal_strlit("content_block_start");
    reveal_strlit("content_block_delta");
    reveal_strlit("content_block_stop");
    reveal_strlit("message_delta");
    reveal_strlit("message_stop");
    reveal_strlit("ping");
    assert("error"@.len() == 5 && "message_start"@.len() == 13 && "content_block_start"@.len() == 19 && "content_block_delta"@.len() == 19 && "content_block_stop"@.len() == 18 && "message_delta"@.len() == 13 && "message_stop"@.len() == 12 && "ping"@.len() == 4);
    assert("message_start"@[8] != "message_delta"@[8]);
    assert("content_block_start"@[14] != "content_block_delta"@[14]);
    reveal_strlit("text");
    reveal_strlit("thinking");
    reveal_strlit("redacted_thinking");
    reveal_strlit("tool_use");
    assert("text"@.len() == 4 && "thinking"@.len() == 8 && "redacted_thinking"@.len() == 17 && "tool_use"@.len() == 8);
    assert("thinking"@[1] != "tool_use"@[1]);
    if let Some(index) = frame.field("index"@).as_u64() {
        let begun = frame.field("content_block"@);
        let now = if begun.str_field("type"@) == Some("text"@) {
            LiveBlockView::Text
        } else if begun.str_field("type"@) == Some("thinking"@) {
            LiveBlockView::Thinking
        } else if begun.str_field("type"@) == Some("redacted_thinking"@) {
            LiveBlockView::RedactedThinking
        } else {
            LiveBlockView::ToolUse { call_id: begun.str_field("id"@)->0 }
        };
        crate::table::law_put_then_entry(blocks, index, now, other);
        crate::table::law_put_then_entry(blocks, index, now, index);
        crate::table::law_erase_then_entry(blocks, index, other);
        crate::table::law_erase_then_entry(blocks, index, index);
    }
}

/// The system text is the instructions, followed by what the developer says, in
/// order.
pub proof fn law_system_begins_with_the_instructions(
    instructions: Seq<char>,
    items: Seq<ItemView>,
    key: Seq<char>,
    count: nat,
)
    requires
        count <= items.len(),
        history_of(instructions, items, key, count) is Ok,
    ensures
        has_prefix(history_of(instructions, items, key, count)->Ok_0.system, instructions),
        count > 0 && (items[count - 1] matches ItemView::Message { role, .. } && role is Developer)
            ==> has_suffix(
            history_of(instructions, items, key, count)->Ok_0.system,
            items[count - 1]->Message_text,
        ),
    decreases count,
{
    let after = history_of(instructions, items, key, count)->Ok_0;
    if count == 0 {
        assert(instructions.take(instructions.len() as int) =~= instructions);
    } else {
        law_system_begins_with_the_instructions(instructions, items, key, (count - 1) as nat);
        let before = history_of(instructions, items, key, (count - 1) as nat)->Ok_0;
        assert(after.system.take(instructions.len() as int) =~= before.system.take(
            instructions.len() as int,
        ));
        if let ItemView::Message { role: Role::Developer, text, .. } = items[count - 1] {
            assert(after.system.skip(after.system.len() - text.len()) =~= text);
        }
    }
}

} // verus!
