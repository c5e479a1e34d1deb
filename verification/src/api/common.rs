//! What the model APIs have in common: the fields they require, the tools they
//! are offered, and the messages of a chat.
use crate::json::{add_value, copy_values, json_views, printed, Json, JsonView};
use crate::model::{ModelRequest, ModelTool};
use crate::surface::{
    item_views, surface, surface_counted, Item, ItemView, Role, ToolInput, ToolInputView,
};
use crate::text::{concat2, concat3};
use vstd::prelude::*;

verus! {

/// Why an answer is no good: it ended too early, the connection broke, or it
/// does not follow the format.
#[derive(Debug, PartialEq)]
pub enum ApiError {
    Incomplete(String),
    Transport(String),
    Invalid(String),
}

/// What an [`ApiError`] stands for.
pub enum ErrorView {
    Incomplete(Seq<char>),
    Transport(Seq<char>),
    Invalid(Seq<char>),
}

impl View for ApiError {
    type V = ErrorView;

    open spec fn view(&self) -> ErrorView {
        match self {
            ApiError::Incomplete(label) => ErrorView::Incomplete(label@),
            ApiError::Transport(message) => ErrorView::Transport(message@),
            ApiError::Invalid(message) => ErrorView::Invalid(message@),
        }
    }
}

impl ErrorView {
    /// What the user is told.
    pub open spec fn words(self) -> Seq<char> {
        match self {
            ErrorView::Incomplete(label) => label + " stream ended before completion"@,
            ErrorView::Transport(message) => message,
            ErrorView::Invalid(message) => message,
        }
    }
}

impl ApiError {
    /// What the user is told.
    pub fn message(&self) -> (text: String)
        ensures
            text@ == self@.words(),
    {
        match self {
            ApiError::Incomplete(label) => concat2(
                label.as_str(),
                " stream ended before completion",
            ),
            ApiError::Transport(message) => message.clone(),
            ApiError::Invalid(message) => message.clone(),
        }
    }
}

/// The error that an answer with the given label ended too early.
pub fn incomplete_stream(label: &str) -> (error: ApiError)
    ensures
        error@ == ErrorView::Incomplete(label@),
{
    ApiError::Incomplete(label.to_owned())
}

/// The error with the given message.
pub fn invalid(message: &str) -> (error: ApiError)
    ensures
        error@ == ErrorView::Invalid(message@),
{
    ApiError::Invalid(message.to_owned())
}

/// What a text or an error stands for.
pub open spec fn text_outcome(result: Result<&str, ApiError>) -> Result<Seq<char>, ErrorView> {
    match result {
        Ok(text) => Ok(text@),
        Err(error) => Err(error@),
    }
}

/// What a number or an error stands for.
pub open spec fn number_outcome(result: Result<u64, ApiError>) -> Result<u64, ErrorView> {
    match result {
        Ok(number) => Ok(number),
        Err(error) => Err(error@),
    }
}

/// The text field that `context` must have.
pub open spec fn needed_str(value: JsonView, field: Seq<char>, context: Seq<char>) -> Result<
    Seq<char>,
    ErrorView,
> {
    match value.str_field(field) {
        Some(text) => Ok(text),
        None => Err(ErrorView::Invalid(context + " omitted string field "@ + field)),
    }
}

/// The text field that `context` must have, and that must not be empty.
pub open spec fn needed_nonempty(value: JsonView, field: Seq<char>, context: Seq<char>) -> Result<
    Seq<char>,
    ErrorView,
> {
    match needed_str(value, field, context) {
        Ok(text) => if text.len() == 0 {
            Err(ErrorView::Invalid(context + " returned an empty "@ + field))
        } else {
            Ok(text)
        },
        Err(error) => Err(error),
    }
}

/// The number field that `context` must have.
pub open spec fn needed_u64(value: JsonView, field: Seq<char>, context: Seq<char>) -> Result<
    u64,
    ErrorView,
> {
    match value.field(field).as_u64() {
        Some(number) => Ok(number),
        None => Err(ErrorView::Invalid(context + " omitted integer field "@ + field)),
    }
}

/// The text field that `context` must have.
pub fn required_str<'a>(value: &'a Json, field: &str, context: &str) -> (result: Result<
    &'a str,
    ApiError,
>)
    ensures
        text_outcome(result) == needed_str(value@, field@, context@),
{
    match value.str_field(field) {
        Some(text) => Ok(text),
        None => Err(ApiError::Invalid(concat3(context, " omitted string field ", field))),
    }
}

/// The text field that `context` must have, and that must not be empty.
pub fn required_nonempty_str<'a>(value: &'a Json, field: &str, context: &str) -> (result: Result<
    &'a str,
    ApiError,
>)
    ensures
        text_outcome(result) == needed_nonempty(value@, field@, context@),
{
    match required_str(value, field, context) {
        Ok(text) => if text.is_empty() {
            Err(ApiError::Invalid(concat3(context, " returned an empty ", field)))
        } else {
            Ok(text)
        },
        Err(error) => Err(error),
    }
}

/// The number field that `context` must have.
pub fn required_u64(value: &Json, field: &str, context: &str) -> (result: Result<u64, ApiError>)
    ensures
        number_outcome(result) == needed_u64(value@, field@, context@),
{
    let number = match value.get(field) {
        Some(number) => number.as_u64(),
        None => None,
    };
    match number {
        Some(number) => Ok(number),
        None => Err(ApiError::Invalid(concat3(context, " omitted integer field ", field))),
    }
}

/// A text as it is, any other value as JSON.
pub open spec fn value_words(value: JsonView) -> Seq<char> {
    match value.as_str() {
        Some(text) => text,
        None => printed(value),
    }
}

/// A text as it is, any other value as JSON.
pub fn value_text(value: &Json) -> (text: String)
    ensures
        text@ == value_words(value@),
{
    match value.as_str() {
        Some(text) => text.to_owned(),
        None => value.to_text(),
    }
}

/// A function that a model may call.
pub struct FunctionTool {
    pub name: String,
    pub description: String,
    pub parameters: Json,
}

/// What a [`FunctionTool`] stands for.
pub struct FunctionView {
    pub name: Seq<char>,
    pub description: Seq<char>,
    pub parameters: JsonView,
}

impl View for FunctionTool {
    type V = FunctionView;

    open spec fn view(&self) -> FunctionView {
        FunctionView {
            name: self.name@,
            description: self.description@,
            parameters: self.parameters@,
        }
    }
}

/// The functions that stand for a tool.
pub open spec fn tool_functions(tool: ModelTool) -> Seq<FunctionView> {
    match tool {
        ModelTool::WebSearch { search_parameters, fetch_parameters } => seq![
            FunctionView {
                name: "web_search"@,
                description: "Search the web for current information."@,
                parameters: search_parameters@,
            },
            FunctionView {
                name: "web_fetch"@,
                description: "Fetch a public web page and return readable Markdown."@,
                parameters: fetch_parameters@,
            },
        ],
        ModelTool::Tool { name, json, .. } => seq![
            FunctionView {
                name: name@,
                description: json.description@,
                parameters: json.parameters@,
            },
        ],
    }
}

/// What a sequence of functions stands for.
pub open spec fn function_views(functions: Seq<FunctionTool>) -> Seq<FunctionView> {
    Seq::new(functions.len(), |i: int| functions[i]@)
}

/// The functions that stand for a tool.
pub fn functions_of(tool: &ModelTool) -> (functions: Vec<FunctionTool>)
    ensures
        function_views(functions@) == tool_functions(*tool),
{
    let mut functions: Vec<FunctionTool> = Vec::new();
    match tool {
        ModelTool::WebSearch { search_parameters, fetch_parameters } => {
            functions.push(
                FunctionTool {
                    name: "web_search".to_owned(),
                    description: "Search the web for current information.".to_owned(),
                    parameters: search_parameters.clone(),
                },
            );
            functions.push(
                FunctionTool {
                    name: "web_fetch".to_owned(),
                    description: "Fetch a public web page and return readable Markdown.".to_owned(),
                    parameters: fetch_parameters.clone(),
                },
            );
        },
        ModelTool::Tool { name, json, .. } => {
            functions.push(
                FunctionTool {
                    name: name.clone(),
                    description: json.description.clone(),
                    parameters: json.parameters.clone(),
                },
            );
        },
    }
    assert(function_views(functions@) =~= tool_functions(*tool));
    functions
}

/// A function in the format of the chat APIs.
pub open spec fn function_json(function: FunctionView) -> JsonView {
    JsonView::object().with_text("type"@, "function"@).with(
        "function"@,
        JsonView::object().with_text("name"@, function.name).with_text(
            "description"@,
            function.description,
        ).with("parameters"@, function.parameters),
    )
}

fn function_tool(function: &FunctionTool) -> (value: Json)
    ensures
        value@ == function_json(function@),
{
    Json::object().with_text("type", "function").with(
        "function",
        Json::object().with_text("name", function.name.as_str()).with_text(
            "description",
            function.description.as_str(),
        ).with("parameters", function.parameters.clone()),
    )
}

/// The first `count` tools in the format of the chat APIs.
pub open spec fn chat_tools(tools: Seq<ModelTool>, count: nat) -> Seq<JsonView>
    decreases count,
{
    if count == 0 {
        Seq::empty()
    } else {
        let functions = tool_functions(tools[count - 1]);
        chat_tools(tools, (count - 1) as nat) + Seq::new(
            functions.len(),
            |i: int| function_json(functions[i]),
        )
    }
}

/// The tools in the format of the chat APIs.
pub fn function_tools(tools: &Vec<ModelTool>) -> (values: Vec<Json>)
    ensures
        json_views(values@) == chat_tools(tools@, tools@.len()),
{
    let mut values: Vec<Json> = Vec::new();
    let mut i: usize = 0;
    assert(json_views(values@) =~= Seq::empty());
    while i < tools.len()
        invariant
            i <= tools.len(),
            json_views(values@) == chat_tools(tools@, i as nat),
        decreases tools.len() - i,
    {
        let functions = functions_of(&tools[i]);
        let ghost wanted = tool_functions(tools[i as int]);
        let ghost before = json_views(values@);
        let mut j: usize = 0;
        assert(before =~= before + Seq::new(0, |k: int| function_json(wanted[k])));
        while j < functions.len()
            invariant
                j <= functions.len(),
                function_views(functions@) == wanted,
                json_views(values@) == before + Seq::new(
                    j as nat,
                    |k: int| function_json(wanted[k]),
                ),
            decreases functions.len() - j,
        {
            assert(wanted[j as int] == functions[j as int]@);
            add_value(&mut values, function_tool(&functions[j]));
            j += 1;
            assert(json_views(values@) =~= before + Seq::new(
                j as nat,
                |k: int| function_json(wanted[k]),
            ));
        }
        assert(wanted.len() == functions.len());
        i += 1;
    }
    values
}

/// The arguments of a tool call as a JSON value.
pub open spec fn arguments_json(input: ToolInputView) -> JsonView {
    match input {
        ToolInputView::Json(value) => value,
        ToolInputView::Text(text) => JsonView::object().with_text("input"@, text),
    }
}

/// The arguments of a tool call as a JSON value.
pub fn arguments_value(input: &ToolInput) -> (value: Json)
    ensures
        value@ == arguments_json(input@),
{
    match input {
        ToolInput::Json(value) => value.clone(),
        ToolInput::Text(text) => Json::object().with_text("input", text.as_str()),
    }
}

/// A message of a chat: a text from someone, calls of tools, or the result of one.
pub enum ChatMessage {
    Text { role: Role, content: String },
    Calls(Vec<Json>),
    ToolResult { call_id: String, content: String },
}

/// What a [`ChatMessage`] stands for.
pub enum ChatView {
    Text { role: Role, content: Seq<char> },
    Calls(Seq<JsonView>),
    ToolResult { call_id: Seq<char>, content: Seq<char> },
}

impl View for ChatMessage {
    type V = ChatView;

    open spec fn view(&self) -> ChatView {
        match self {
            ChatMessage::Text { role, content } => ChatView::Text { role: *role, content: content@ },
            ChatMessage::Calls(calls) => ChatView::Calls(json_views(calls@)),
            ChatMessage::ToolResult { call_id, content } => ChatView::ToolResult {
                call_id: call_id@,
                content: content@,
            },
        }
    }
}

/// What a sequence of messages stands for.
pub open spec fn chat_views(messages: Seq<ChatMessage>) -> Seq<ChatView> {
    Seq::new(messages.len(), |i: int| messages[i]@)
}

/// A call of a function in the format of the chat APIs.
pub open spec fn call_json(call_id: Seq<char>, name: Seq<char>, arguments: Seq<char>) -> JsonView {
    JsonView::object().with_text("id"@, call_id).with_text("type"@, "function"@).with(
        "function"@,
        JsonView::object().with_text("name"@, name).with_text("arguments"@, arguments),
    )
}

/// The messages with what one item adds: neighbouring calls share a message.
pub open spec fn chat_step(messages: Seq<ChatView>, item: ItemView) -> Seq<ChatView> {
    match item {
        ItemView::Message { role, text, .. } => messages.push(
            ChatView::Text { role, content: text },
        ),
        ItemView::ToolCall { call_id, name, input, .. } => {
            let call = call_json(call_id, name, printed(arguments_json(input)));
            if messages.len() > 0 && messages.last() is Calls {
                messages.update(
                    messages.len() - 1,
                    ChatView::Calls(messages.last()->Calls_0.push(call)),
                )
            } else {
                messages.push(ChatView::Calls(Seq::empty().push(call)))
            }
        },
        ItemView::ToolResult { call_id, output, .. } => messages.push(
            ChatView::ToolResult { call_id, content: value_words(output) },
        ),
        _ => messages,
    }
}

/// The messages of the first `count` items.
pub open spec fn chat_history(items: Seq<ItemView>, count: nat) -> Seq<ChatView>
    decreases count,
{
    if count == 0 {
        Seq::empty()
    } else {
        chat_step(chat_history(items, (count - 1) as nat), items[count - 1])
    }
}

/// The name that the chat APIs have for a role.
pub open spec fn role_word(role: Role) -> Seq<char> {
    match role {
        Role::Developer => "system"@,
        Role::User => "user"@,
        Role::Assistant => "assistant"@,
    }
}

/// A message in the format of the chat APIs.
pub open spec fn chat_json(message: ChatView) -> JsonView {
    match message {
        ChatView::Text { role, content } => JsonView::object().with_text(
            "role"@,
            role_word(role),
        ).with_text("content"@, content),
        ChatView::Calls(calls) => JsonView::object().with_text("role"@, "assistant"@).with(
            "content"@,
            JsonView::Null,
        ).with("tool_calls"@, JsonView::Array(calls)),
        ChatView::ToolResult { call_id, content } => JsonView::object().with_text(
            "role"@,
            "tool"@,
        ).with_text("tool_call_id"@, call_id).with_text("content"@, content),
    }
}

/// The surface that a request shows without a replay key.
pub open spec fn request_surface(request: ModelRequest) -> Seq<ItemView> {
    surface(request.events@, request.forgetting, None, request.kind)
}

/// Whether the surface of a request can be made.
pub open spec fn request_counted(request: ModelRequest) -> bool {
    surface_counted(request.events@, request.forgetting, None, request.kind)
}

/// The error that a text cannot be encoded, so that its tokens cannot be counted.
pub open spec fn uncounted() -> ErrorView {
    ErrorView::Invalid("text could not be encoded into tokens"@)
}

/// The error that a text cannot be encoded, so that its tokens cannot be counted.
pub fn uncounted_error() -> (error: ApiError)
    ensures
        error@ == uncounted(),
{
    invalid("text could not be encoded into tokens")
}

/// The instructions of a request as a message.
pub open spec fn instructions_json(request: ModelRequest) -> JsonView {
    chat_json(ChatView::Text { role: Role::Developer, content: request.instructions@ })
}

/// The messages of a chat request: the instructions and the history.
pub open spec fn chat_request(request: ModelRequest) -> Seq<JsonView> {
    let items = request_surface(request);
    let history = chat_history(items, items.len());
    Seq::new(
        history.len() + 1,
        |i: int|
            if i == 0 {
                instructions_json(request)
            } else {
                chat_json(history[i - 1])
            },
    )
}

fn add_item(messages: &mut Vec<ChatMessage>, item: &Item)
    ensures
        chat_views(final(messages)@) == chat_step(chat_views(old(messages)@), item@),
{
    let ghost before = chat_views(messages@);
    match item {
        Item::Message { role, text, .. } => {
            messages.push(ChatMessage::Text { role: *role, content: text.clone() });
        },
        Item::ToolCall { call_id, name, input, .. } => {
            let arguments = arguments_value(input).to_text();
            let call = Json::object().with_text("id", call_id.as_str()).with_text(
                "type",
                "function",
            ).with(
                "function",
                Json::object().with_text("name", name.as_str()).with_text(
                    "arguments",
                    arguments.as_str(),
                ),
            );
            let ghost open = before.len() > 0 && before.last() is Calls;
            proof {
                if before.len() > 0 {
                    assert(before.last() == messages@.last()@);
                }
                assert(json_views(Seq::<Json>::empty()) =~= Seq::empty());
            }
            let mut calls: Vec<Json> = Vec::new();
            match messages.pop() {
                Some(ChatMessage::Calls(open_calls)) => {
                    calls = open_calls;
                },
                Some(other) => {
                    messages.push(other);
                },
                None => {},
            }
            proof {
                if open {
                    assert(chat_views(messages@) =~= before.drop_last());
                    assert(json_views(calls@) == before.last()->Calls_0);
                } else {
                    assert(chat_views(messages@) =~= before);
                }
            }
            let ghost kept = chat_views(messages@);
            add_value(&mut calls, call);
            messages.push(ChatMessage::Calls(calls));
            assert(chat_views(messages@) =~= kept.push(ChatView::Calls(json_views(calls@))));
        },
        Item::ToolResult { call_id, output, .. } => {
            messages.push(
                ChatMessage::ToolResult { call_id: call_id.clone(), content: value_text(output) },
            );
        },
        _ => {},
    }
    assert(chat_views(messages@) =~= chat_step(before, item@));
}

fn chat_message(message: &ChatMessage) -> (value: Json)
    ensures
        value@ == chat_json(message@),
{
    match message {
        ChatMessage::Text { role, content } => {
            let word = match role {
                Role::Developer => "system",
                Role::User => "user",
                Role::Assistant => "assistant",
            };
            Json::object().with_text("role", word).with_text("content", content.as_str())
        },
        ChatMessage::Calls(calls) => Json::object().with_text("role", "assistant").with(
            "content",
            Json::Null,
        ).with("tool_calls", Json::array(copy_values(calls))),
        ChatMessage::ToolResult { call_id, content } => Json::object().with_text(
            "role",
            "tool",
        ).with_text("tool_call_id", call_id.as_str()).with_text("content", content.as_str()),
    }
}

/// The messages of a chat request: the instructions and the history.
pub fn chat_messages(request: &ModelRequest) -> (result: Result<Vec<Json>, ApiError>)
    ensures
        match result {
            Ok(values) => request_counted(*request) && json_views(values@) == chat_request(
                *request,
            ),
            Err(error) => !request_counted(*request) && error@ == uncounted(),
        },
{
    let items = match crate::surface::derive(
        &request.events,
        &request.forgetting,
        None,
        request.kind,
    ) {
        Some(items) => items,
        None => {
            return Err(uncounted_error());
        },
    };
    let ghost all = item_views(items@);
    assert(all == request_surface(*request));
    let mut history: Vec<ChatMessage> = Vec::new();
    let mut i: usize = 0;
    assert(chat_views(history@) =~= Seq::empty());
    while i < items.len()
        invariant
            i <= items.len(),
            all == item_views(items@),
            chat_views(history@) == chat_history(all, i as nat),
        decreases items.len() - i,
    {
        assert(all[i as int] == items[i as int]@);
        add_item(&mut history, &items[i]);
        i += 1;
    }
    let mut values: Vec<Json> = Vec::new();
    values.push(
        chat_message(
            &ChatMessage::Text { role: Role::Developer, content: request.instructions.clone() },
        ),
    );
    let mut j: usize = 0;
    while j < history.len()
        invariant
            j <= history.len(),
            values.len() == j + 1,
            values[0]@ == instructions_json(*request),
            forall|k: int| 0 < k <= j ==> (#[trigger] values[k])@ == chat_json(history[k - 1]@),
        decreases history.len() - j,
    {
        values.push(chat_message(&history[j]));
        j += 1;
    }
    assert(json_views(values@) =~= chat_request(*request));
    Ok(values)
}

/// What one item adds to a chat: a text its own message, with the role that it has; a
/// result its own message, with the call that it answers; a call one more call, in
/// the last message where that is of calls, else in a message of its own. Nothing
/// that was there changes, and nothing else adds anything.
pub proof fn law_chat_grows_at_its_end(messages: Seq<ChatView>, item: ItemView)
    ensures
        ({
            let after = chat_step(messages, item);
            let joins = item is ToolCall && messages.len() > 0 && messages.last() is Calls;
            &&& item matches ItemView::Message { role, text, .. } ==> after == messages.push(
                ChatView::Text { role, content: text },
            )
            &&& item matches ItemView::ToolResult { call_id, output, .. } ==> after
                == messages.push(ChatView::ToolResult { call_id, content: value_words(output) })
            &&& item is ToolCall ==> {
                let call = after.last()->Calls_0.last();
                &&& after.last() is Calls
                &&& call.str_field("id"@) == Some(item->ToolCall_call_id)
                &&& call.str_field("type"@) == Some("function"@)
                &&& call.field("function"@).str_field("name"@) == Some(item->ToolCall_name)
                &&& call.field("function"@).str_field("arguments"@) == Some(
                    printed(arguments_json(item->ToolCall_input)),
                )
                &&& joins ==> after.drop_last() == messages.drop_last()
                    && after.last()->Calls_0.drop_last() == messages.last()->Calls_0 && after.len()
                    == messages.len()
                &&& !joins ==> after.drop_last() == messages && after.last()->Calls_0.len() == 1
                    && after.len() == messages.len() + 1
            }
            &&& !(item is Message || item is ToolCall || item is ToolResult) ==> after == messages
        }),
{
    broadcast use crate::json::lemma_with, crate::json::lemma_no_fields;

    reveal_strlit("id");
    reveal_strlit("type");
    reveal_strlit("function");
    reveal_strlit("name");
    reveal_strlit("arguments");
    assert("id"@.len() == 2 && "type"@.len() == 4 && "function"@.len() == 8 && "name"@.len() == 4 && "arguments"@.len() == 9);
    assert("type"@[0] != "name"@[0]);
    let after = chat_step(messages, item);
    if item is ToolCall {
        if messages.len() > 0 && messages.last() is Calls {
            assert(after.drop_last() =~= messages.drop_last());
            assert(after.last()->Calls_0.drop_last() =~= messages.last()->Calls_0);
        } else {
            assert(after.drop_last() =~= messages);
        }
    }
}

/// The roles of a chat: the developer speaks as the system, user and assistant as
/// themselves, calls are the assistant's, and a result is a tool's and names the call
/// that it answers.
pub proof fn law_chat_messages_have_their_roles(message: ChatView)
    ensures
        ({
            let sent = chat_json(message);
            let role = sent.str_field("role"@);
            &&& role == Some("system"@) <==> (message matches ChatView::Text { role, .. } && role
                is Developer)
            &&& role == Some("user"@) <==> (message matches ChatView::Text { role, .. } && role
                is User)
            &&& role == Some("assistant"@) <==> message is Calls || (message matches ChatView::Text {
                role,
                ..
            } && role is Assistant)
            &&& role == Some("tool"@) <==> message is ToolResult
            &&& message matches ChatView::Text { content, .. } ==> sent.str_field("content"@)
                == Some(content) && sent.get("tool_calls"@) is None && sent.get("tool_call_id"@)
                is None
            &&& message matches ChatView::Calls(calls) ==> sent.field("tool_calls"@)
                == JsonView::Array(calls) && sent.get("content"@) == Some(JsonView::Null)
            &&& message matches ChatView::ToolResult { call_id, content } ==> sent.str_field(
                "tool_call_id"@,
            ) == Some(call_id) && sent.str_field("content"@) == Some(content)
        }),
{
    broadcast use crate::json::lemma_with, crate::json::lemma_no_fields;

    reveal_strlit("role");
    reveal_strlit("content");
    reveal_strlit("tool_calls");
    reveal_strlit("tool_call_id");
    assert("role"@.len() == 4 && "content"@.len() == 7 && "tool_calls"@.len() == 10 && "tool_call_id"@.len() == 12);
    reveal_strlit("system");
    reveal_strlit("user");
    reveal_strlit("assistant");
    reveal_strlit("tool");
    assert("system"@.len() == 6 && "user"@.len() == 4 && "assistant"@.len() == 9 && "tool"@.len() == 4);
    assert("user"@[0] != "tool"@[0]);
}

/// A chat begins with the instructions, said by the system; the history follows in
/// its order.
pub proof fn law_chat_begins_with_the_instructions(request: ModelRequest)
    ensures
        ({
            let sent = chat_request(request);
            let items = request_surface(request);
            let history = chat_history(items, items.len());
            &&& sent.len() == history.len() + 1
            &&& sent[0].str_field("role"@) == Some("system"@)
            &&& sent[0].str_field("content"@) == Some(request.instructions@)
            &&& forall|i: int|
                0 <= i < history.len() ==> #[trigger] chat_json(history[i]) == sent[i + 1]
        }),
{
    law_chat_messages_have_their_roles(
        ChatView::Text { role: Role::Developer, content: request.instructions@ },
    );
}

/// Every function of every tool is offered to a chat, in the order of the tools, with
/// its name, its description and what it takes.
pub proof fn law_chat_offers_the_tools(tools: Seq<ModelTool>, t: int, f: int)
    requires
        0 <= t < tools.len(),
        0 <= f < tool_functions(tools[t]).len(),
    ensures
        ({
            let function = tool_functions(tools[t])[f];
            let at = chat_tools(tools, t as nat).len() + f;
            let offers = chat_tools(tools, tools.len());
            let offer = offers[at].field("function"@);
            &&& at < offers.len()
            &&& offers[at].str_field("type"@) == Some("function"@)
            &&& offer.str_field("name"@) == Some(function.name)
            &&& offer.str_field("description"@) == Some(function.description)
            &&& offer.field("parameters"@) == function.parameters
        }),
{
    broadcast use crate::json::lemma_with, crate::json::lemma_no_fields;

    reveal_strlit("type");
    reveal_strlit("function");
    reveal_strlit("name");
    reveal_strlit("description");
    reveal_strlit("parameters");
    assert("type"@.len() == 4 && "function"@.len() == 8 && "name"@.len() == 4 && "description"@.len() == 11 && "parameters"@.len() == 10);
    assert("type"@[0] != "name"@[0]);
    lemma_chat_tools_grow(tools, (t + 1) as nat, tools.len());
    let at = chat_tools(tools, t as nat).len() + f;
    assert(chat_tools(tools, (t + 1) as nat)[at] == function_json(tool_functions(tools[t])[f]));
}

proof fn lemma_chat_tools_grow(tools: Seq<ModelTool>, count: nat, total: nat)
    requires
        count <= total <= tools.len(),
    ensures
        chat_tools(tools, count).len() <= chat_tools(tools, total).len(),
        forall|i: int|
            0 <= i < chat_tools(tools, count).len() ==> #[trigger] chat_tools(tools, total)[i]
                == chat_tools(tools, count)[i],
    decreases total,
{
    if count < total {
        lemma_chat_tools_grow(tools, count, (total - 1) as nat);
    }
}

/// A tool is one function with its own name. A web search is two: one that searches
/// and one that fetches, each with what it takes.
pub proof fn law_web_search_is_two_functions(tool: ModelTool)
    ensures
        tool matches ModelTool::Tool { name, json, .. } ==> tool_functions(tool).len() == 1
            && tool_functions(tool)[0].name == name@ && tool_functions(tool)[0].description
            == json.description@ && tool_functions(tool)[0].parameters == json.parameters@,
        tool matches ModelTool::WebSearch { search_parameters, fetch_parameters }
            ==> tool_functions(tool).len() == 2 && tool_functions(tool)[0].name == "web_search"@
            && tool_functions(tool)[0].parameters == search_parameters@ && tool_functions(
            tool,
        )[1].name == "web_fetch"@ && tool_functions(tool)[1].parameters == fetch_parameters@,
{
}

/// A field that an answer must have is found where it is, and where it is not the
/// error names it.
pub proof fn law_needed_fields_are_found(value: JsonView, field: Seq<char>, context: Seq<char>)
    ensures
        value.str_field(field) matches Some(text) ==> needed_str(value, field, context) == Ok::<
            Seq<char>,
            ErrorView,
        >(text),
        needed_str(value, field, context) is Err <==> value.str_field(field) is None,
        needed_nonempty(value, field, context) is Ok <==> (value.str_field(field) matches Some(text)
            && text.len() > 0),
        needed_nonempty(value, field, context) matches Ok(text) ==> value.str_field(field) == Some(
            text,
        ),
        needed_u64(value, field, context) is Ok <==> value.field(field).as_u64() is Some,
        needed_u64(value, field, context) matches Ok(number) ==> value.field(field).as_u64()
            == Some(number),
        needed_str(value, field, context) matches Err(error) ==> (error matches ErrorView::Invalid(
            words,
        ) && crate::text::has_prefix(words, context) && crate::text::has_suffix(words, field)),
{
    let words = context + " omitted string field "@ + field;
    assert(words.take(context.len() as int) =~= context);
    assert(words.skip(words.len() - field.len()) =~= field);
}

} // verus!
