//! The Ollama API: what is sent.
use crate::api::common::{
    arguments_json, arguments_value, chat_tools, function_tools, uncounted, uncounted_error, value_text,
    value_words, ApiError, ErrorView,
};
use crate::api::messages::{json_outcome, named, named_error, Outcome};
use crate::event::{Event, ModelRequestKind};
use crate::json::{add_value, json_views, printed, Json, JsonView};
use crate::model::ModelRequest;
use crate::surface::{
    item_views, key_view, surface, surface_counted, Item, ItemView, Role, ToolOutputForgetting,
};
use crate::text::{
    ascii_lowercase, concat3, concat4, has_prefix, join, joined, lowered, same_text, starts_with,
    view_option, views,
};
use crate::tokens::{text_tokens, token_count};
use vstd::prelude::*;

verus! {

/// A call of a tool.
#[derive(Debug, PartialEq)]
pub struct ToolCall {
    pub id: Option<String>,
    pub name: String,
    pub arguments: Json,
}

/// What a [`ToolCall`] stands for.
pub struct ToolCallView {
    pub id: Option<Seq<char>>,
    pub name: Seq<char>,
    pub arguments: JsonView,
}

impl View for ToolCall {
    type V = ToolCallView;

    open spec fn view(&self) -> ToolCallView {
        ToolCallView { id: view_option(self.id), name: self.name@, arguments: self.arguments@ }
    }
}

/// What a sequence of calls stands for.
pub open spec fn call_views(calls: Seq<ToolCall>) -> Seq<ToolCallView> {
    Seq::new(calls.len(), |i: int| calls[i]@)
}

/// A message.
#[derive(Debug, PartialEq)]
pub struct Message {
    pub role: String,
    pub content: String,
    pub thinking: String,
    pub tool_calls: Vec<ToolCall>,
    pub tool_name: Option<String>,
}

/// What a [`Message`] stands for.
pub struct MessageView {
    pub role: Seq<char>,
    pub content: Seq<char>,
    pub thinking: Seq<char>,
    pub tool_calls: Seq<ToolCallView>,
    pub tool_name: Option<Seq<char>>,
}

impl View for Message {
    type V = MessageView;

    open spec fn view(&self) -> MessageView {
        MessageView {
            role: self.role@,
            content: self.content@,
            thinking: self.thinking@,
            tool_calls: call_views(self.tool_calls@),
            tool_name: view_option(self.tool_name),
        }
    }
}

/// What a sequence of messages stands for.
pub open spec fn message_views(messages: Seq<Message>) -> Seq<MessageView> {
    Seq::new(messages.len(), |i: int| messages[i]@)
}

/// A message with nothing but a role and a text.
pub open spec fn plain(role: Seq<char>, content: Seq<char>) -> MessageView {
    MessageView {
        role,
        content,
        thinking: Seq::empty(),
        tool_calls: Seq::empty(),
        tool_name: None,
    }
}

fn plain_message(role: &str, content: &str) -> (message: Message)
    ensures
        message@ == plain(role@, content@),
{
    let message = Message {
        role: role.to_owned(),
        content: content.to_owned(),
        thinking: String::new(),
        tool_calls: Vec::new(),
        tool_name: None,
    };
    assert(call_views(message.tool_calls@) =~= Seq::empty());
    message
}

/// The replay key of thinking.
pub open spec fn thinking_key(model: Seq<char>) -> Seq<char> {
    "ollama/"@ + model + "/thinking-v1"@
}

/// The replay key of thinking.
pub fn thinking_replay_key(model: &str) -> (key: String)
    ensures
        key@ == thinking_key(model@),
{
    concat3("ollama/", model, "/thinking-v1")
}

/// The messages, ending in one from the assistant.
pub open spec fn with_assistant(messages: Seq<MessageView>) -> Seq<MessageView> {
    if messages.len() > 0 && messages.last().role == "assistant"@ {
        messages
    } else {
        messages.push(plain("assistant"@, Seq::empty()))
    }
}

/// The messages with the last one changed.
pub open spec fn with_last(messages: Seq<MessageView>, last: MessageView) -> Seq<MessageView> {
    messages.drop_last().push(last)
}

/// The thinking of an item: with a replay key, what the same model left, and
/// otherwise the summary.
pub open spec fn item_thinking(item: ItemView, replay_key: Option<Seq<char>>) -> Outcome<
    Option<Seq<char>>,
> {
    match item {
        ItemView::Reasoning { summary, opaque } => match replay_key {
            Some(key) => match opaque {
                Some(state) => if state.replay_key == key {
                    match state.payload.str_field("thinking"@) {
                        Some(thinking) => Ok(Some(thinking)),
                        None => Err(
                            ErrorView::Invalid(
                                "Ollama opaque reasoning omitted string field thinking"@,
                            ),
                        ),
                    }
                } else {
                    Ok(None)
                },
                None => Ok(None),
            },
            None => if summary.len() == 0 {
                Ok(None)
            } else {
                Ok(Some(summary))
            },
        },
        _ => Ok(None),
    }
}

/// The messages with what one item adds.
pub open spec fn with_item(
    messages: Seq<MessageView>,
    item: ItemView,
    replay_key: Option<Seq<char>>,
) -> Outcome<Seq<MessageView>> {
    match item {
        ItemView::Message { role, text, .. } => Ok(
            match role {
                Role::Developer => messages.push(plain("system"@, text)),
                Role::User => messages.push(plain("user"@, text)),
                Role::Assistant => {
                    let open = with_assistant(messages);
                    with_last(
                        open,
                        MessageView { content: open.last().content + text, ..open.last() },
                    )
                },
            },
        ),
        ItemView::Reasoning { .. } => match item_thinking(item, replay_key) {
            Err(error) => Err(error),
            Ok(None) => Ok(messages),
            Ok(Some(thinking)) => {
                let open = with_assistant(messages);
                Ok(
                    with_last(
                        open,
                        MessageView { thinking: open.last().thinking + thinking, ..open.last() },
                    ),
                )
            },
        },
        ItemView::ToolCall { call_id, name, input, .. } => {
            let open = with_assistant(messages);
            Ok(
                with_last(
                    open,
                    MessageView {
                        tool_calls: open.last().tool_calls.push(
                            ToolCallView {
                                id: Some(call_id),
                                name,
                                arguments: arguments_json(input),
                            },
                        ),
                        ..open.last()
                    },
                ),
            )
        },
        ItemView::ToolResult { name, output, .. } => Ok(
            messages.push(
                MessageView { tool_name: Some(name), ..plain("tool"@, value_words(output)) },
            ),
        ),
        _ => Ok(messages),
    }
}

/// The messages of the first `count` items.
pub open spec fn history(
    items: Seq<ItemView>,
    replay_key: Option<Seq<char>>,
    count: nat,
) -> Outcome<Seq<MessageView>>
    decreases count,
{
    if count == 0 {
        Ok(Seq::empty())
    } else {
        match history(items, replay_key, (count - 1) as nat) {
            Err(error) => Err(error),
            Ok(messages) => with_item(messages, items[count - 1], replay_key),
        }
    }
}

fn take_assistant(messages: &mut Vec<Message>) -> (last: Message)
    ensures
        message_views(final(messages)@).push(last@) == with_assistant(
            message_views(old(messages)@),
        ),
        final(messages)@.len() <= old(messages)@.len(),
{
    let ghost before = message_views(messages@);
    proof {
        lemma_empty_text();
        if before.len() > 0 {
            assert(before.last() == messages@.last()@);
        }
    }
    match messages.pop() {
        Some(last) => if same_text(last.role.as_str(), "assistant") {
            assert(message_views(messages@).push(last@) =~= before);
            last
        } else {
            messages.push(last);
            assert(message_views(messages@) =~= before);
            plain_message("assistant", "")
        },
        None => {
            assert(message_views(messages@) =~= before);
            plain_message("assistant", "")
        },
    }
}

proof fn lemma_empty_text()
    ensures
        ""@ == Seq::<char>::empty(),
{
    reveal_strlit("");
    assert(""@ =~= Seq::<char>::empty());
}

fn push_message(messages: &mut Vec<Message>, message: Message)
    ensures
        message_views(final(messages)@) == message_views(old(messages)@).push(message@),
{
    messages.push(message);
    assert(message_views(messages@) =~= message_views(old(messages)@).push(message@));
}

fn add_item(messages: &mut Vec<Message>, item: &Item, replay_key: Option<&str>) -> (problem: Option<
    ApiError,
>)
    ensures
        match problem {
            Some(error) => with_item(
                message_views(old(messages)@),
                item@,
                key_view(replay_key),
            ) == Err::<Seq<MessageView>, ErrorView>(error@),
            None => with_item(message_views(old(messages)@), item@, key_view(replay_key)) == Ok::<
                Seq<MessageView>,
                ErrorView,
            >(message_views(final(messages)@)),
        },
{
    proof {
        lemma_empty_text();
    }
    let ghost before = message_views(messages@);
    match item {
        Item::Message { role, text, .. } => match role {
            Role::Developer => {
                push_message(messages, plain_message("system", text.as_str()));
            },
            Role::User => {
                push_message(messages, plain_message("user", text.as_str()));
            },
            Role::Assistant => {
                let mut last = take_assistant(messages);
                let ghost open = with_assistant(before);
                let ghost was = last@;
                assert(open.drop_last() =~= message_views(messages@));
                assert(open.last() == was);
                last.content.push_str(text.as_str());
                push_message(messages, last);
            },
        },
        Item::Reasoning { summary, opaque } => {
            let thinking = match replay_key {
                Some(key) => match opaque {
                    Some(state) => if same_text(state.replay_key.as_str(), key) {
                        match state.payload.str_field("thinking") {
                            Some(thinking) => Some(thinking.to_owned()),
                            None => {
                                return Some(
                                    ApiError::Invalid(
                                        "Ollama opaque reasoning omitted string field thinking".to_owned(),
                                    ),
                                );
                            },
                        }
                    } else {
                        None
                    },
                    None => None,
                },
                None => if summary.as_str().is_empty() {
                    None
                } else {
                    Some(summary.clone())
                },
            };
            match thinking {
                Some(thinking) => {
                    let mut last = take_assistant(messages);
                    let ghost open = with_assistant(before);
                    assert(open.drop_last() =~= message_views(messages@));
                    assert(open.last() == last@);
                    last.thinking.push_str(thinking.as_str());
                    push_message(messages, last);
                },
                None => {},
            }
        },
        Item::ToolCall { call_id, name, input, .. } => {
            let mut last = take_assistant(messages);
            let ghost open = with_assistant(before);
            assert(open.drop_last() =~= message_views(messages@));
            assert(open.last() == last@);
            let ghost calls = last.tool_calls@;
            let call = ToolCall {
                id: Some(call_id.clone()),
                name: name.clone(),
                arguments: arguments_value(input),
            };
            last.tool_calls.push(call);
            assert(call_views(last.tool_calls@) =~= call_views(calls).push(call@));
            push_message(messages, last);
        },
        Item::ToolResult { name, output, .. } => {
            let content = value_text(output);
            let mut message = plain_message("tool", content.as_str());
            message.tool_name = Some(name.clone());
            push_message(messages, message);
        },
        _ => {},
    }
    None
}

proof fn lemma_history_stop(
    items: Seq<ItemView>,
    replay_key: Option<Seq<char>>,
    count: nat,
    total: nat,
)
    requires
        count <= total,
        history(items, replay_key, count) is Err,
    ensures
        history(items, replay_key, total) == history(items, replay_key, count),
    decreases total,
{
    if count < total {
        lemma_history_stop(items, replay_key, count, (total - 1) as nat);
    }
}

/// What messages or an error stand for.
pub open spec fn messages_outcome(result: Result<Vec<Message>, ApiError>) -> Outcome<
    Seq<MessageView>,
> {
    match result {
        Ok(messages) => Ok(message_views(messages@)),
        Err(error) => Err(error@),
    }
}

/// The messages of a thread.
pub open spec fn thread_messages(
    events: Seq<Event>,
    forgetting: ToolOutputForgetting,
    kind: ModelRequestKind,
    replay_key: Option<Seq<char>>,
) -> Outcome<Seq<MessageView>> {
    let items = surface(events, forgetting, None, kind);
    if !surface_counted(events, forgetting, None, kind) {
        Err(uncounted())
    } else {
        history(items, replay_key, items.len())
    }
}

/// The messages of a thread.
pub fn event_messages(
    events: &Vec<Event>,
    forgetting: &ToolOutputForgetting,
    kind: ModelRequestKind,
    replay_key: Option<&str>,
) -> (result: Result<Vec<Message>, ApiError>)
    ensures
        messages_outcome(result) == thread_messages(
            events@,
            *forgetting,
            kind,
            key_view(replay_key),
        ),
{
    let items = match crate::surface::derive(events, forgetting, None, kind) {
        Some(items) => items,
        None => {
            return Err(uncounted_error());
        },
    };
    let ghost all = item_views(items@);
    let mut messages: Vec<Message> = Vec::new();
    assert(message_views(messages@) =~= Seq::empty());
    let mut i: usize = 0;
    while i < items.len()
        invariant
            i <= items.len(),
            all == item_views(items@),
            all == surface(events@, *forgetting, None, kind),
            surface_counted(events@, *forgetting, None, kind),
            history(all, key_view(replay_key), i as nat) == Ok::<Seq<MessageView>, ErrorView>(
                message_views(messages@),
            ),
        decreases items.len() - i,
    {
        assert(all[i as int] == items[i as int]@);
        match add_item(&mut messages, &items[i], replay_key) {
            Some(error) => {
                proof {
                    lemma_history_stop(all, key_view(replay_key), (i + 1) as nat, all.len());
                }
                return Err(error);
            },
            None => {},
        }
        i += 1;
    }
    Ok(messages)
}

/// The call in the format of the API.
pub open spec fn call_json(call: ToolCallView) -> JsonView {
    let function = JsonView::object().with_text("name"@, call.name).with(
        "arguments"@,
        call.arguments,
    );
    match call.id {
        Some(id) => JsonView::object().with_text("id"@, id).with("function"@, function),
        None => JsonView::object().with("function"@, function),
    }
}

/// The calls in the format of the API.
pub open spec fn calls_json(calls: Seq<ToolCallView>) -> Seq<JsonView> {
    Seq::new(calls.len(), |i: int| call_json(calls[i]))
}

/// The message in the format of the API. Its content is there even where it is
/// empty; what else is empty is left out.
pub open spec fn message_json(message: MessageView) -> JsonView {
    let plain = JsonView::object().with_text("role"@, message.role).with_text(
        "content"@,
        message.content,
    );
    let thinking = if message.thinking.len() == 0 {
        plain
    } else {
        plain.with_text("thinking"@, message.thinking)
    };
    let calling = if message.tool_calls.len() == 0 {
        thinking
    } else {
        thinking.with("tool_calls"@, JsonView::Array(calls_json(message.tool_calls)))
    };
    match message.tool_name {
        Some(name) => calling.with_text("tool_name"@, name),
        None => calling,
    }
}

fn call_value(call: &ToolCall) -> (value: Json)
    ensures
        value@ == call_json(call@),
{
    let function = Json::object().with_text("name", call.name.as_str()).with(
        "arguments",
        call.arguments.clone(),
    );
    match &call.id {
        Some(id) => Json::object().with_text("id", id.as_str()).with("function", function),
        None => Json::object().with("function", function),
    }
}

/// The message in the format of the API.
pub fn message_value(message: &Message) -> (value: Json)
    ensures
        value@ == message_json(message@),
{
    let mut value = Json::object().with_text("role", message.role.as_str()).with_text(
        "content",
        message.content.as_str(),
    );
    if !message.thinking.as_str().is_empty() {
        value = value.with_text("thinking", message.thinking.as_str());
    }
    if message.tool_calls.len() > 0 {
        let mut calls: Vec<Json> = Vec::new();
        let ghost all = call_views(message.tool_calls@);
        let mut i: usize = 0;
        assert(json_views(calls@) =~= calls_json(all).take(0));
        while i < message.tool_calls.len()
            invariant
                i <= message.tool_calls.len(),
                all == call_views(message.tool_calls@),
                json_views(calls@) == calls_json(all).take(i as int),
            decreases message.tool_calls.len() - i,
        {
            assert(all[i as int] == message.tool_calls[i as int]@);
            add_value(&mut calls, call_value(&message.tool_calls[i]));
            i += 1;
            assert(json_views(calls@) =~= calls_json(all).take(i as int));
        }
        assert(calls_json(all).take(i as int) =~= calls_json(all));
        value = value.with("tool_calls", Json::array(calls));
    }
    match &message.tool_name {
        Some(name) => value.with_text("tool_name", name.as_str()),
        None => value,
    }
}

/// How hard a model is told to think.
pub open spec fn think_json(effort: Seq<char>) -> Outcome<JsonView> {
    if effort == "low"@ || effort == "medium"@ || effort == "high"@ || effort == "max"@ {
        Ok(JsonView::Text(effort))
    } else if effort == "enabled"@ {
        Ok(JsonView::Bool(true))
    } else if effort == "disabled"@ || effort == "none"@ {
        Ok(JsonView::Bool(false))
    } else {
        Err(named("unsupported Ollama reasoning option "@, effort))
    }
}

/// How hard a model is told to think.
pub fn think_value(effort: &str) -> (result: Result<Json, ApiError>)
    ensures
        json_outcome(result) == think_json(effort@),
{
    if same_text(effort, "low") || same_text(effort, "medium") || same_text(effort, "high")
        || same_text(effort, "max") {
        Ok(Json::text(effort))
    } else if same_text(effort, "enabled") {
        Ok(Json::Bool(true))
    } else if same_text(effort, "disabled") || same_text(effort, "none") {
        Ok(Json::Bool(false))
    } else {
        Err(named_error("unsupported Ollama reasoning option ", effort))
    }
}

/// The messages of a request: the instructions and the history.
pub open spec fn request_history(request: ModelRequest) -> Outcome<Seq<JsonView>> {
    match thread_messages(
        request.events@,
        request.forgetting,
        request.kind,
        Some(thinking_key(request.model@)),
    ) {
        Err(error) => Err(error),
        Ok(messages) => Ok(
            Seq::new(
                messages.len() + 1,
                |i: int|
                    if i == 0 {
                        message_json(plain("system"@, request.instructions@))
                    } else {
                        message_json(messages[i - 1])
                    },
            ),
        ),
    }
}

/// The body of a request.
pub open spec fn body_json(request: ModelRequest) -> Outcome<JsonView> {
    match request_history(request) {
        Err(error) => Err(error),
        Ok(messages) => match think_json(request.reasoning_effort@) {
            Err(error) => Err(error),
            Ok(think) => {
                let tools = chat_tools(request.tools@, request.tools@.len());
                let body = JsonView::object().with_text("model"@, request.model@).with(
                    "messages"@,
                    JsonView::Array(messages),
                ).with("stream"@, JsonView::Bool(true)).with("think"@, think);
                if tools.len() == 0 {
                    Ok(body)
                } else {
                    Ok(body.with("tools"@, JsonView::Array(tools)))
                }
            },
        },
    }
}

/// The messages of a request: the instructions and the history.
pub fn request_messages(request: &ModelRequest) -> (result: Result<Vec<Json>, ApiError>)
    ensures
        match result {
            Ok(values) => request_history(*request) == Ok::<Seq<JsonView>, ErrorView>(
                json_views(values@),
            ),
            Err(error) => request_history(*request) == Err::<Seq<JsonView>, ErrorView>(error@),
        },
{
    let key = thinking_replay_key(request.model.as_str());
    let messages = match event_messages(
        &request.events,
        &request.forgetting,
        request.kind,
        Some(key.as_str()),
    ) {
        Ok(messages) => messages,
        Err(error) => {
            return Err(error);
        },
    };
    let mut values: Vec<Json> = Vec::new();
    values.push(message_value(&plain_message("system", request.instructions.as_str())));
    let mut i: usize = 0;
    while i < messages.len()
        invariant
            i <= messages.len(),
            values.len() == i + 1,
            values[0]@ == message_json(plain("system"@, request.instructions@)),
            forall|k: int| 0 < k <= i ==> (#[trigger] values[k])@ == message_json(messages[k - 1]@),
        decreases messages.len() - i,
    {
        values.push(message_value(&messages[i]));
        i += 1;
    }
    assert(json_views(values@) =~= request_history(*request)->Ok_0);
    Ok(values)
}

/// The body of a request.
pub fn request_body(request: &ModelRequest) -> (result: Result<Json, ApiError>)
    ensures
        json_outcome(result) == body_json(*request),
{
    let messages = match request_messages(request) {
        Ok(messages) => messages,
        Err(error) => {
            return Err(error);
        },
    };
    let think = match think_value(request.reasoning_effort.as_str()) {
        Ok(think) => think,
        Err(error) => {
            return Err(error);
        },
    };
    let body = Json::object().with_text("model", request.model.as_str()).with(
        "messages",
        Json::array(messages),
    ).with("stream", Json::Bool(true)).with("think", think);
    let tools = function_tools(&request.tools);
    assert(tools.len() == json_views(tools@).len());
    if tools.len() > 0 {
        Ok(body.with("tools", Json::array(tools)))
    } else {
        Ok(body)
    }
}

/// A text in JSON notation.
pub open spec fn quoted(text: Seq<char>) -> Seq<char> {
    printed(JsonView::Text(text))
}

/// The call written out, its fields in the order of the API.
pub open spec fn call_words(call: ToolCallView) -> Seq<char> {
    let start = match call.id {
        Some(id) => "{\"id\":"@ + quoted(id) + ","@,
        None => "{"@,
    };
    start + "\"function\":{\"name\":"@ + quoted(call.name) + ",\"arguments\":"@ + printed(
        call.arguments,
    ) + "}}"@
}

/// The calls written out.
pub open spec fn calls_words(calls: Seq<ToolCallView>) -> Seq<Seq<char>> {
    Seq::new(calls.len(), |i: int| call_words(calls[i]))
}

/// The message written out, its fields in the order of the API.
pub open spec fn message_words(message: MessageView) -> Seq<char> {
    let plain = "{\"role\":"@ + quoted(message.role) + ",\"content\":"@ + quoted(message.content);
    let thinking = if message.thinking.len() == 0 {
        plain
    } else {
        plain + ",\"thinking\":"@ + quoted(message.thinking)
    };
    let calling = if message.tool_calls.len() == 0 {
        thinking
    } else {
        thinking + ",\"tool_calls\":["@ + joined(calls_words(message.tool_calls), ","@) + "]"@
    };
    let named = match message.tool_name {
        Some(name) => calling + ",\"tool_name\":"@ + quoted(name),
        None => calling,
    };
    named + "}"@
}

/// The messages written out.
pub open spec fn messages_words(messages: Seq<MessageView>) -> Seq<char> {
    "["@ + joined(Seq::new(messages.len(), |i: int| message_words(messages[i])), ","@) + "]"@
}

fn quoted_text(text: &str) -> (result: String)
    ensures
        result@ == quoted(text@),
{
    Json::text(text).to_text()
}

fn call_text(call: &ToolCall) -> (text: String)
    ensures
        text@ == call_words(call@),
{
    let mut text = match &call.id {
        Some(id) => {
            let id = quoted_text(id.as_str());
            concat3("{\"id\":", id.as_str(), ",")
        },
        None => "{".to_owned(),
    };
    text.push_str("\"function\":{\"name\":");
    text.push_str(quoted_text(call.name.as_str()).as_str());
    text.push_str(",\"arguments\":");
    text.push_str(call.arguments.to_text().as_str());
    text.push_str("}}");
    text
}

fn message_text(message: &Message) -> (text: String)
    ensures
        text@ == message_words(message@),
{
    let role = quoted_text(message.role.as_str());
    let content = quoted_text(message.content.as_str());
    let mut text = concat4("{\"role\":", role.as_str(), ",\"content\":", content.as_str());
    if !message.thinking.as_str().is_empty() {
        text.push_str(",\"thinking\":");
        text.push_str(quoted_text(message.thinking.as_str()).as_str());
    }
    if message.tool_calls.len() > 0 {
        let mut calls: Vec<String> = Vec::new();
        let ghost all = call_views(message.tool_calls@);
        let mut i: usize = 0;
        while i < message.tool_calls.len()
            invariant
                i <= message.tool_calls.len(),
                calls.len() == i,
                all == call_views(message.tool_calls@),
                forall|k: int| 0 <= k < i ==> (#[trigger] calls[k])@ == call_words(all[k]),
            decreases message.tool_calls.len() - i,
        {
            assert(all[i as int] == message.tool_calls[i as int]@);
            calls.push(call_text(&message.tool_calls[i]));
            i += 1;
        }
        assert(views(calls@) =~= calls_words(all));
        text.push_str(",\"tool_calls\":[");
        text.push_str(join(&calls, ",").as_str());
        text.push_str("]");
    }
    match &message.tool_name {
        Some(name) => {
            text.push_str(",\"tool_name\":");
            text.push_str(quoted_text(name.as_str()).as_str());
        },
        None => {},
    }
    text.push_str("}");
    text
}

/// The messages written out.
pub fn messages_text(messages: &Vec<Message>) -> (text: String)
    ensures
        text@ == messages_words(message_views(messages@)),
{
    let mut parts: Vec<String> = Vec::new();
    let ghost all = message_views(messages@);
    let mut i: usize = 0;
    while i < messages.len()
        invariant
            i <= messages.len(),
            parts.len() == i,
            all == message_views(messages@),
            forall|k: int| 0 <= k < i ==> (#[trigger] parts[k])@ == message_words(all[k]),
        decreases messages.len() - i,
    {
        assert(all[i as int] == messages[i as int]@);
        parts.push(message_text(&messages[i]));
        i += 1;
    }
    assert(views(parts@) =~= Seq::new(all.len(), |k: int| message_words(all[k])));
    let list = join(&parts, ",");
    concat3("[", list.as_str(), "]")
}

/// How many tokens the events of a thread take.
pub open spec fn thread_tokens(
    events: Seq<Event>,
    forgetting: ToolOutputForgetting,
    kind: ModelRequestKind,
) -> Outcome<nat> {
    match thread_messages(events, forgetting, kind, None) {
        Err(error) => Err(error),
        Ok(messages) => match token_count(messages_words(messages)) {
            Some(count) => Ok(count),
            None => Err(uncounted()),
        },
    }
}

/// How many tokens the events of a thread take.
pub fn context_tokens(
    events: &Vec<Event>,
    forgetting: &ToolOutputForgetting,
    kind: ModelRequestKind,
) -> (result: Result<usize, ApiError>)
    ensures
        match result {
            Ok(count) => thread_tokens(events@, *forgetting, kind) == Ok::<nat, ErrorView>(
                count as nat,
            ),
            Err(error) => thread_tokens(events@, *forgetting, kind) == Err::<nat, ErrorView>(
                error@,
            ),
        },
{
    match event_messages(events, forgetting, kind, None) {
        Ok(messages) => {
            let text = messages_text(&messages);
            match text_tokens(text.as_str()) {
                Some(count) => Ok(count),
                None => Err(uncounted_error()),
            }
        },
        Err(error) => Err(error),
    }
}

/// The reasoning efforts of a model that thinks: the default, and all of them.
pub open spec fn thinking_efforts(model: Seq<char>) -> (Seq<char>, Seq<Seq<char>>) {
    if has_prefix(model, "gpt-oss:"@) {
        ("medium"@, seq!["low"@, "medium"@, "high"@])
    } else if has_prefix(model, "qwen3-vl"@) || has_prefix(model, "kimi-k2-thinking"@)
        || has_prefix(model, "minimax"@) {
        ("medium"@, seq!["low"@, "medium"@, "high"@, "max"@])
    } else if has_prefix(model, "qwen3"@) {
        ("enabled"@, seq!["disabled"@, "enabled"@])
    } else if has_prefix(model, "glm-5.2"@) {
        ("high"@, seq!["disabled"@, "high"@, "max"@])
    } else {
        ("medium"@, seq!["disabled"@, "low"@, "medium"@, "high"@, "max"@])
    }
}

/// The reasoning efforts of a model, whatever the case of its name.
pub open spec fn efforts_of(model: Seq<char>, thinking: bool) -> (Seq<char>, Seq<Seq<char>>) {
    if thinking {
        thinking_efforts(lowered(model))
    } else {
        ("none"@, seq!["none"@])
    }
}

/// The reasoning efforts of a model: the default, and all of them.
pub fn reasoning_efforts(model: &str, thinking: bool) -> (efforts: (String, Vec<String>))
    ensures
        efforts.0@ == efforts_of(model@, thinking).0,
        views(efforts.1@) == efforts_of(model@, thinking).1,
{
    let mut supported: Vec<String> = Vec::new();
    let default = if !thinking {
        supported.push("none".to_owned());
        "none"
    } else {
        let model = ascii_lowercase(model);
        let model = model.as_str();
        if starts_with(model, "gpt-oss:") {
            supported.push("low".to_owned());
            supported.push("medium".to_owned());
            supported.push("high".to_owned());
            "medium"
        } else if starts_with(model, "qwen3-vl") || starts_with(model, "kimi-k2-thinking")
            || starts_with(model, "minimax") {
            supported.push("low".to_owned());
            supported.push("medium".to_owned());
            supported.push("high".to_owned());
            supported.push("max".to_owned());
            "medium"
        } else if starts_with(model, "qwen3") {
            supported.push("disabled".to_owned());
            supported.push("enabled".to_owned());
            "enabled"
        } else if starts_with(model, "glm-5.2") {
            supported.push("disabled".to_owned());
            supported.push("high".to_owned());
            supported.push("max".to_owned());
            "high"
        } else {
            supported.push("disabled".to_owned());
            supported.push("low".to_owned());
            supported.push("medium".to_owned());
            supported.push("high".to_owned());
            supported.push("max".to_owned());
            "medium"
        }
    };
    assert(views(supported@) =~= efforts_of(model@, thinking).1);
    (default.to_owned(), supported)
}

/// What one item adds to the messages: what the developer and the user say, and the
/// result of a tool, a message of its own; what the assistant says, thinks and calls
/// goes to the end of the last message, where that is the assistant's, else to a new
/// one. No message before that changes.
pub proof fn law_item_adds_to_the_messages(
    messages: Seq<MessageView>,
    item: ItemView,
    replay_key: Option<Seq<char>>,
)
    requires
        with_item(messages, item, replay_key) is Ok,
    ensures
        ({
            let after = with_item(messages, item, replay_key)->Ok_0;
            let last = after.last();
            let thinks = item is Reasoning && item_thinking(item, replay_key) matches Ok(Some(_));
            let speaks = item is ToolCall || thinks || (item matches ItemView::Message { role, .. }
                && role is Assistant);
            let tells = item is ToolResult || (item matches ItemView::Message { role, .. } && !(role
                is Assistant));
            let joins = messages.len() > 0 && messages.last().role == "assistant"@;
            let open = if joins {
                messages.last()
            } else {
                MessageView {
                    role: "assistant"@,
                    content: Seq::empty(),
                    thinking: Seq::empty(),
                    tool_calls: Seq::empty(),
                    tool_name: None,
                }
            };
            &&& !speaks && !tells ==> after == messages
            &&& tells ==> after.len() > 0 && after.drop_last() == messages && last.thinking.len()
                == 0 && last.tool_calls.len() == 0
            &&& item matches ItemView::Message { role: Role::Developer, text, .. } ==> last.role
                == "system"@ && last.content == text && last.tool_name is None
            &&& item matches ItemView::Message { role: Role::User, text, .. } ==> last.role
                == "user"@ && last.content == text && last.tool_name is None
            &&& item matches ItemView::ToolResult { name, output, .. } ==> last.role == "tool"@
                && last.tool_name == Some(name) && last.content == value_words(output)
            &&& speaks ==> {
                &&& after.len() > 0
                &&& joins ==> after.drop_last() == messages.drop_last()
                &&& !joins ==> after.drop_last() == messages
                &&& last.role == "assistant"@
                &&& last.content == open.content + (match item {
                    ItemView::Message { text, .. } => text,
                    _ => Seq::empty(),
                })
                &&& last.thinking == open.thinking + (if thinks {
                    item_thinking(item, replay_key)->Ok_0->0
                } else {
                    Seq::empty()
                })
                &&& !(item is ToolCall) ==> last.tool_calls == open.tool_calls
                &&& item matches ItemView::ToolCall { call_id, name, input, .. } ==> last.tool_calls
                    == open.tool_calls.push(
                    ToolCallView { id: Some(call_id), name, arguments: arguments_json(input) },
                )
            }
        }),
{
    let after = with_item(messages, item, replay_key)->Ok_0;
    let opened = with_assistant(messages);
    assert(opened.drop_last() =~= if messages.len() > 0 && messages.last().role == "assistant"@ {
        messages.drop_last()
    } else {
        messages
    });
    assert(opened.last().content + Seq::<char>::empty() =~= opened.last().content);
    assert(opened.last().thinking + Seq::<char>::empty() =~= opened.last().thinking);
    if after.len() > 0 {
        assert(after.drop_last().push(after.last()) =~= after);
        if item is ToolResult || item is Message {
            assert(messages.push(after.last()).drop_last() =~= messages);
        }
    }
}

/// Which thinking is handed back: with a key, what was thought under that key, word
/// for word; without one, the summary.
pub proof fn law_thinking_is_handed_back(item: ItemView, replay_key: Option<Seq<char>>)
    ensures
        item_thinking(item, replay_key) matches Ok(Some(thinking)) ==> (item
            matches ItemView::Reasoning { summary, opaque } && match replay_key {
            None => thinking == summary && summary.len() > 0,
            Some(key) => opaque matches Some(state) && state.replay_key == key
                && state.payload.str_field("thinking"@) == Some(thinking),
        }),
        item_thinking(item, replay_key) matches Ok(None) ==> match item {
            ItemView::Reasoning { summary, opaque } => match replay_key {
                None => summary.len() == 0,
                Some(key) => opaque matches Some(state) ==> state.replay_key != key,
            },
            _ => true,
        },
{
}

/// What a request asks of the API: the model that was chosen, the instructions as the
/// first message and the history after them, an answer that comes piece by piece, how
/// much to think, and the tools where there are any. An effort that the API does not
/// know is refused.
pub proof fn law_ollama_request_says_what_is_wanted(request: ModelRequest)
    ensures
        ({
            let effort = request.reasoning_effort@;
            let tools = chat_tools(request.tools@, request.tools@.len());
            let history = thread_messages(
                request.events@,
                request.forgetting,
                request.kind,
                Some(thinking_key(request.model@)),
            );
            &&& body_json(request) is Ok <==> history is Ok && think_json(effort) is Ok
            &&& body_json(request) matches Ok(body) ==> {
                let sent = body.field("messages"@)->Array_0;
                &&& body.str_field("model"@) == Some(request.model@)
                &&& body.field("stream"@) == JsonView::Bool(true)
                &&& body.field("think"@) == think_json(effort)->Ok_0
                &&& body.get("tools"@) == (if tools.len() == 0 {
                    None
                } else {
                    Some(JsonView::Array(tools))
                })
                &&& body.field("messages"@) is Array
                &&& sent.len() == history->Ok_0.len() + 1
                &&& sent[0].str_field("role"@) == Some("system"@)
                &&& sent[0].str_field("content"@) == Some(request.instructions@)
                &&& forall|i: int|
                    0 <= i < history->Ok_0.len() ==> #[trigger] message_json(history->Ok_0[i])
                        == sent[i + 1]
            }
        }),
{
    broadcast use crate::json::lemma_with, crate::json::lemma_no_fields;

    reveal_strlit("model");
    reveal_strlit("messages");
    reveal_strlit("stream");
    reveal_strlit("think");
    reveal_strlit("tools");
    assert("model"@.len() == 5 && "messages"@.len() == 8 && "stream"@.len() == 6 && "think"@.len() == 5 && "tools"@.len() == 5);
    assert("model"@[0] != "think"@[0]);
    assert("model"@[0] != "tools"@[0]);
    assert("think"@[1] != "tools"@[1]);
    reveal_strlit("role");
    reveal_strlit("content");
    assert("role"@.len() == 4 && "content"@.len() == 7);
    if let Ok(body) = body_json(request) {
        let messages = request_history(request)->Ok_0;
        assert(body.field("messages"@) == JsonView::Array(messages));
    }
}

/// How much to think is said by the word that was chosen, or by whether to think at
/// all.
pub proof fn law_effort_is_kept(effort: Seq<char>)
    ensures
        think_json(effort) == Ok::<JsonView, ErrorView>(JsonView::Bool(true)) <==> effort
            == "enabled"@,
        think_json(effort) == Ok::<JsonView, ErrorView>(JsonView::Bool(false)) <==> effort
            == "disabled"@ || effort == "none"@,
        think_json(effort) == Ok::<JsonView, ErrorView>(JsonView::Text(effort)) <==> effort
            == "low"@ || effort == "medium"@ || effort == "high"@ || effort == "max"@,
        think_json(effort) is Err <==> effort != "enabled"@ && effort != "disabled"@ && effort
            != "none"@ && effort != "low"@ && effort != "medium"@ && effort != "high"@ && effort
            != "max"@,
{
    reveal_strlit("enabled");
    reveal_strlit("disabled");
    reveal_strlit("none");
    reveal_strlit("low");
    reveal_strlit("medium");
    reveal_strlit("high");
    reveal_strlit("max");
    assert("enabled"@.len() == 7 && "disabled"@.len() == 8 && "none"@.len() == 4 && "low"@.len() == 3 && "medium"@.len() == 6 && "high"@.len() == 4 && "max"@.len() == 3);
    assert("none"@[0] != "high"@[0]);
    assert("low"@[0] != "max"@[0]);
}

/// How much a model can think: one that does not think has no choice; of those that do,
/// each is offered its default, and only those that cannot stop thinking are not offered
/// to leave it.
pub proof fn law_efforts_fit_the_model(model: Seq<char>)
    ensures
        ({
            let (default, offered) = efforts_of(model, true);
            let always = has_prefix(lowered(model), "gpt-oss:"@) || has_prefix(
                lowered(model),
                "qwen3-vl"@,
            ) || has_prefix(lowered(model), "kimi-k2-thinking"@) || has_prefix(
                lowered(model),
                "minimax"@,
            );
            &&& efforts_of(model, false).0 == "none"@
            &&& efforts_of(model, false).1 == seq!["none"@]
            &&& offered.contains(default)
            &&& always ==> !offered.contains("disabled"@) && offered[0] == "low"@ && default
                == "medium"@
            &&& !always ==> offered[0] == "disabled"@
            &&& offered.contains("max"@) <==> !has_prefix(lowered(model), "gpt-oss:"@) && (always
                || !has_prefix(lowered(model), "qwen3"@))
            &&& !always && has_prefix(lowered(model), "qwen3"@) ==> default == "enabled"@
            &&& !always && !has_prefix(lowered(model), "qwen3"@) && has_prefix(
                lowered(model),
                "glm-5.2"@,
            ) ==> default == "high"@
        }),
{
    reveal_strlit("low");
    reveal_strlit("medium");
    reveal_strlit("high");
    reveal_strlit("max");
    reveal_strlit("disabled");
    reveal_strlit("enabled");
    assert("low"@.len() == 3 && "medium"@.len() == 6 && "high"@.len() == 4 && "max"@.len() == 3 && "disabled"@.len() == 8 && "enabled"@.len() == 7);
    assert("low"@[0] != "max"@[0]);
    let (default, offered) = efforts_of(model, true);
    assert(offered[0] == default || offered[1] == default || offered[2] == default);
    if offered.len() == 5 {
        assert(offered[4] == "max"@);
    } else if offered.len() == 4 {
        assert(offered[3] == "max"@);
    } else if offered.len() == 3 && offered[0] == "disabled"@ {
        assert(offered[2] == "max"@);
    }
}

/// What is counted is the whole of what is sent: every message is in it.
pub proof fn law_every_message_is_counted(messages: Seq<MessageView>, i: int)
    requires
        0 <= i < messages.len(),
    ensures
        crate::text::holds_part(messages_words(messages), message_words(messages[i])),
{
    let all = Seq::new(messages.len(), |k: int| message_words(messages[k]));
    crate::text::law_joined_holds_its_parts(all, ","@, i);
    let list = joined(all, ","@);
    let part = all[i];
    assert(part == message_words(messages[i]));
    crate::text::lemma_holds_within("["@, list, "]"@, part);
    assert("["@ + list + "]"@ == messages_words(messages));
}

/// A message is counted with who says it and what it says, and with what was thought
/// before, where something was.
pub proof fn law_message_is_counted_whole(message: MessageView)
    ensures
        crate::text::holds_part(
            message_words(message),
            "\"role\":"@ + quoted(message.role) + ",\"content\":"@ + quoted(message.content),
        ),
        message.thinking.len() > 0 ==> crate::text::holds_part(
            message_words(message),
            ",\"thinking\":"@ + quoted(message.thinking),
        ),
{
    reveal_strlit("{\"role\":");
    reveal_strlit("\"role\":");
    reveal_strlit("{");
    assert("{\"role\":"@ =~= "{"@ + "\"role\":"@);
    let said = "\"role\":"@ + quoted(message.role) + ",\"content\":"@ + quoted(message.content);
    let plain = "{\"role\":"@ + quoted(message.role) + ",\"content\":"@ + quoted(message.content);
    assert(plain =~= "{"@ + said);
    let thought = ",\"thinking\":"@ + quoted(message.thinking);
    let thinking = if message.thinking.len() == 0 {
        plain
    } else {
        plain + ",\"thinking\":"@ + quoted(message.thinking)
    };
    let called = if message.tool_calls.len() == 0 {
        Seq::empty()
    } else {
        ",\"tool_calls\":["@ + joined(calls_words(message.tool_calls), ","@) + "]"@
    };
    let named = match message.tool_name {
        Some(name) => ",\"tool_name\":"@ + quoted(name),
        None => Seq::empty(),
    };
    let rest = called + named + "}"@;
    assert(message_words(message) =~= thinking + rest);
    if message.thinking.len() > 0 {
        assert(message_words(message) =~= plain + thought + rest);
        crate::text::lemma_holds_middle(plain, thought, rest);
        assert(message_words(message) =~= "{"@ + said + (thought + rest));
        crate::text::lemma_holds_middle("{"@, said, thought + rest);
    } else {
        assert(message_words(message) =~= "{"@ + said + rest);
        crate::text::lemma_holds_middle("{"@, said, rest);
    }
}

} // verus!
