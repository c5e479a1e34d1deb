//! The Responses API: what is sent.
use crate::api::common::{
    arguments_json, arguments_value, functions_of, function_views, tool_functions, uncounted,
    uncounted_error, value_text, value_words, ApiError, FunctionView,
};
use crate::event::AssistantMessagePhase;
use crate::json::{add_value, json_views, printed, Json, JsonView};
use crate::model::{ModelCustomToolInterface, ModelRequest, ModelTool};
use crate::surface::{
    item_views, surface, surface_counted, Item, ItemView, OpaqueView, Role, ToolInput,
    ToolInputView, ToolKind,
};
use crate::text::{concat3, same_text};
use vstd::prelude::*;

verus! {

/// Which service speaks the API.
#[derive(Clone, Copy, Debug, PartialEq, Eq, Structural)]
pub enum Profile {
    Standard,
    Codex,
}

/// The name under which a service replays its own state.
pub open spec fn namespace(profile: Profile) -> Seq<char> {
    match profile {
        Profile::Standard => "responses"@,
        Profile::Codex => "codex"@,
    }
}

fn namespace_text(profile: Profile) -> (name: &'static str)
    ensures
        name@ == namespace(profile),
{
    match profile {
        Profile::Standard => "responses",
        Profile::Codex => "codex",
    }
}

/// The replay key of a compaction.
pub open spec fn compaction_key(provider: Seq<char>, model: Seq<char>) -> Seq<char> {
    provider + "/"@ + model + "/compaction-v1"@
}

/// The replay key of reasoning.
pub open spec fn reasoning_key(provider: Seq<char>, model: Seq<char>) -> Seq<char> {
    provider + "/"@ + model + "/reasoning-v1"@
}

/// The replay key of a compaction.
pub fn compaction_replay_key(provider: &str, model: &str) -> (key: String)
    ensures
        key@ == compaction_key(provider@, model@),
{
    crate::text::concat4(provider, "/", model, "/compaction-v1")
}

/// The replay key of reasoning.
pub fn reasoning_replay_key(provider: &str, model: &str) -> (key: String)
    ensures
        key@ == reasoning_key(provider@, model@),
{
    crate::text::concat4(provider, "/", model, "/reasoning-v1")
}

/// A function in the format of the API.
pub open spec fn tool_json(function: FunctionView) -> JsonView {
    JsonView::object().with_text("type"@, "function"@).with_text("name"@, function.name).with_text(
        "description"@,
        function.description,
    ).with("parameters"@, function.parameters).with("strict"@, JsonView::Bool(false))
}

/// A tool with a grammar in the format of the API.
pub open spec fn custom_json(name: Seq<char>, custom: ModelCustomToolInterface) -> JsonView {
    JsonView::object().with_text("type"@, "custom"@).with_text("name"@, name).with_text(
        "description"@,
        custom.description@,
    ).with(
        "format"@,
        JsonView::object().with_text("type"@, "grammar"@).with_text(
            "syntax"@,
            custom.format.syntax@,
        ).with_text("definition"@, custom.format.definition@),
    )
}

/// A tool as functions in the format of the API.
pub open spec fn as_functions(tool: ModelTool) -> Seq<JsonView> {
    let functions = tool_functions(tool);
    Seq::new(functions.len(), |i: int| tool_json(functions[i]))
}

/// A tool in the format of the API. Codex has a web search of its own and takes
/// grammars.
pub open spec fn one_tool(tool: ModelTool, profile: Profile) -> Seq<JsonView> {
    match tool {
        ModelTool::WebSearch { .. } => if profile == Profile::Codex {
            Seq::empty().push(JsonView::object().with_text("type"@, "web_search"@))
        } else {
            as_functions(tool)
        },
        ModelTool::Tool { name, custom, .. } => match custom {
            Some(custom) => if profile == Profile::Codex {
                Seq::empty().push(custom_json(name@, custom))
            } else {
                as_functions(tool)
            },
            None => as_functions(tool),
        },
    }
}

/// The first `count` tools in the format of the API.
pub open spec fn tools_json(tools: Seq<ModelTool>, profile: Profile, count: nat) -> Seq<JsonView>
    decreases count,
{
    if count == 0 {
        Seq::empty()
    } else {
        tools_json(tools, profile, (count - 1) as nat) + one_tool(tools[count - 1], profile)
    }
}

fn add_functions(values: &mut Vec<Json>, tool: &ModelTool)
    ensures
        json_views(final(values)@) == json_views(old(values)@) + as_functions(*tool),
{
    let functions = functions_of(tool);
    let ghost wanted = tool_functions(*tool);
    let ghost before = json_views(values@);
    let mut j: usize = 0;
    assert(before =~= before + Seq::new(0, |k: int| tool_json(wanted[k])));
    while j < functions.len()
        invariant
            j <= functions.len(),
            function_views(functions@) == wanted,
            json_views(values@) == before + Seq::new(j as nat, |k: int| tool_json(wanted[k])),
        decreases functions.len() - j,
    {
        assert(wanted[j as int] == functions[j as int]@);
        let function = &functions[j];
        let value = Json::object().with_text("type", "function").with_text(
            "name",
            function.name.as_str(),
        ).with_text("description", function.description.as_str()).with(
            "parameters",
            function.parameters.clone(),
        ).with("strict", Json::Bool(false));
        add_value(values, value);
        j += 1;
        assert(json_views(values@) =~= before + Seq::new(j as nat, |k: int| tool_json(wanted[k])));
    }
    assert(wanted.len() == functions.len());
}

fn add_tool(values: &mut Vec<Json>, tool: &ModelTool, profile: Profile)
    ensures
        json_views(final(values)@) == json_views(old(values)@) + one_tool(*tool, profile),
{
    let ghost before = json_views(values@);
    match tool {
        ModelTool::WebSearch { .. } => match profile {
            Profile::Codex => {
                add_value(values, Json::object().with_text("type", "web_search"));
                assert(json_views(values@) =~= before + one_tool(*tool, profile));
            },
            Profile::Standard => {
                add_functions(values, tool);
            },
        },
        ModelTool::Tool { name, custom, .. } => match custom {
            Some(custom) => match profile {
                Profile::Codex => {
                    let value = Json::object().with_text("type", "custom").with_text(
                        "name",
                        name.as_str(),
                    ).with_text("description", custom.description.as_str()).with(
                        "format",
                        Json::object().with_text("type", "grammar").with_text(
                            "syntax",
                            custom.format.syntax.as_str(),
                        ).with_text("definition", custom.format.definition.as_str()),
                    );
                    add_value(values, value);
                    assert(json_views(values@) =~= before + one_tool(*tool, profile));
                },
                Profile::Standard => {
                    add_functions(values, tool);
                },
            },
            None => {
                add_functions(values, tool);
            },
        },
    }
}

/// The tools in the format of the API.
pub fn response_tools(tools: &Vec<ModelTool>, profile: Profile) -> (values: Vec<Json>)
    ensures
        json_views(values@) == tools_json(tools@, profile, tools@.len()),
{
    let mut values: Vec<Json> = Vec::new();
    let mut i: usize = 0;
    assert(json_views(values@) =~= Seq::empty());
    while i < tools.len()
        invariant
            i <= tools.len(),
            json_views(values@) == tools_json(tools@, profile, i as nat),
        decreases tools.len() - i,
    {
        add_tool(&mut values, &tools[i], profile);
        i += 1;
    }
    values
}

/// The name that the API has for a phase.
pub open spec fn phase_word(phase: AssistantMessagePhase) -> Seq<char> {
    match phase {
        AssistantMessagePhase::Commentary => "commentary"@,
        AssistantMessagePhase::FinalAnswer => "final_answer"@,
    }
}

/// A message of a given role.
pub open spec fn message_json(role: Seq<char>, content: JsonView) -> JsonView {
    JsonView::object().with_text("type"@, "message"@).with_text("role"@, role).with(
        "content"@,
        content,
    )
}

/// A text that is put in.
pub open spec fn input_text(text: Seq<char>) -> JsonView {
    JsonView::single(JsonView::object().with_text("type"@, "input_text"@).with_text("text"@, text))
}

/// A tool call in the format of the API.
pub open spec fn call_json(
    kind: ToolKind,
    item_id: Option<Seq<char>>,
    call_id: Seq<char>,
    name: Seq<char>,
    input: ToolInputView,
    profile: Profile,
) -> JsonView {
    if profile == Profile::Codex && kind == ToolKind::Custom && input is Text {
        let plain = JsonView::object().with_text("type"@, "custom_tool_call"@).with_text(
            "call_id"@,
            call_id,
        ).with_text("name"@, name).with_text("input"@, input->Text_0);
        match item_id {
            Some(id) => plain.with_text("id"@, id),
            None => plain,
        }
    } else {
        JsonView::object().with_text("type"@, "function_call"@).with_text(
            "call_id"@,
            call_id,
        ).with_text("name"@, name).with_text("arguments"@, printed(arguments_json(input)))
    }
}

/// A tool result in the format of the API.
pub open spec fn result_json(
    kind: ToolKind,
    call_id: Seq<char>,
    name: Seq<char>,
    output: JsonView,
    profile: Profile,
) -> JsonView {
    if profile == Profile::Codex && kind == ToolKind::Custom {
        JsonView::object().with_text("type"@, "custom_tool_call_output"@).with_text(
            "call_id"@,
            call_id,
        ).with_text("name"@, name).with_text("output"@, value_words(output))
    } else {
        JsonView::object().with_text("type"@, "function_call_output"@).with_text(
            "call_id"@,
            call_id,
        ).with_text("output"@, value_words(output))
    }
}

/// An item in the format of the API; null where it is not sent.
pub open spec fn item_json(item: ItemView, model: Seq<char>, profile: Profile) -> JsonView {
    match item {
        ItemView::Message { role, text, phase } => match role {
            Role::Developer => message_json("developer"@, input_text(text)),
            Role::User => message_json("user"@, input_text(text)),
            Role::Assistant => match phase {
                Some(phase) => message_json("assistant"@, JsonView::Text(text)).with_text(
                    "phase"@,
                    phase_word(phase),
                ),
                None => message_json("assistant"@, JsonView::Text(text)),
            },
        },
        ItemView::Reasoning { opaque, .. } => match opaque {
            Some(state) => if state.replay_key == reasoning_key(namespace(profile), model) {
                state.payload
            } else {
                JsonView::Null
            },
            None => JsonView::Null,
        },
        ItemView::ToolCall { kind, item_id, call_id, name, input } => call_json(
            kind,
            item_id,
            call_id,
            name,
            input,
            profile,
        ),
        ItemView::ToolResult { kind, call_id, name, output } => result_json(
            kind,
            call_id,
            name,
            output,
            profile,
        ),
        ItemView::WebSearch(value) => if profile == Profile::Codex {
            value
        } else {
            JsonView::Null
        },
        ItemView::Opaque(state) => state.payload,
    }
}

/// The first `count` items in the format of the API, without those that are not
/// sent.
pub open spec fn items_json(
    items: Seq<ItemView>,
    model: Seq<char>,
    profile: Profile,
    count: nat,
) -> Seq<JsonView>
    decreases count,
{
    if count == 0 {
        Seq::empty()
    } else {
        let before = items_json(items, model, profile, (count - 1) as nat);
        let value = item_json(items[count - 1], model, profile);
        if value is Null {
            before
        } else {
            before.push(value)
        }
    }
}

/// What a request shows of its thread.
pub open spec fn shown(request: ModelRequest, profile: Profile) -> Seq<ItemView> {
    surface(
        request.events@,
        request.forgetting,
        Some(compaction_key(namespace(profile), request.model@)),
        request.kind,
    )
}

/// Whether what a request shows of its thread can be made.
pub open spec fn shown_counted(request: ModelRequest, profile: Profile) -> bool {
    surface_counted(
        request.events@,
        request.forgetting,
        Some(compaction_key(namespace(profile), request.model@)),
        request.kind,
    )
}

/// The input of a request.
pub open spec fn input_json(request: ModelRequest, profile: Profile) -> Seq<JsonView> {
    items_json(shown(request, profile), request.model@, profile, shown(request, profile).len())
}

/// Reasoning that came from the same service and model is sent back as it came;
/// any other reasoning is not sent.
pub proof fn law_reasoning_is_replayed_unchanged(
    summary: Seq<char>,
    state: OpaqueView,
    model: Seq<char>,
    profile: Profile,
)
    ensures
        item_json(ItemView::Reasoning { summary, opaque: Some(state) }, model, profile) == (
        if state.replay_key == reasoning_key(namespace(profile), model) {
            state.payload
        } else {
            JsonView::Null
        }),
        item_json(ItemView::Reasoning { summary, opaque: None }, model, profile) is Null,
{
}

fn item_value(item: &Item, model: &str, profile: Profile) -> (value: Json)
    ensures
        value@ == item_json(item@, model@, profile),
{
    match item {
        Item::Message { role, text, phase } => {
            let word = match role {
                Role::Developer => "developer",
                Role::User => "user",
                Role::Assistant => "assistant",
            };
            let content = match role {
                Role::Assistant => Json::text(text.as_str()),
                _ => Json::single(
                    Json::object().with_text("type", "input_text").with_text(
                        "text",
                        text.as_str(),
                    ),
                ),
            };
            let value = Json::object().with_text("type", "message").with_text("role", word).with(
                "content",
                content,
            );
            match (role, phase) {
                (Role::Assistant, Some(phase)) => value.with_text(
                    "phase",
                    match phase {
                        AssistantMessagePhase::Commentary => "commentary",
                        AssistantMessagePhase::FinalAnswer => "final_answer",
                    },
                ),
                _ => value,
            }
        },
        Item::Reasoning { opaque, .. } => match opaque {
            Some(state) => {
                let key = reasoning_replay_key(namespace_text(profile), model);
                if same_text(state.replay_key.as_str(), key.as_str()) {
                    state.payload.clone()
                } else {
                    Json::Null
                }
            },
            None => Json::Null,
        },
        Item::ToolCall { kind, item_id, call_id, name, input } => call_value(
            *kind,
            item_id,
            call_id.as_str(),
            name.as_str(),
            input,
            profile,
        ),
        Item::ToolResult { kind, call_id, name, output } => {
            let text = value_text(output);
            if matches!(profile, Profile::Codex) && matches!(kind, ToolKind::Custom) {
                Json::object().with_text("type", "custom_tool_call_output").with_text(
                    "call_id",
                    call_id.as_str(),
                ).with_text("name", name.as_str()).with_text("output", text.as_str())
            } else {
                Json::object().with_text("type", "function_call_output").with_text(
                    "call_id",
                    call_id.as_str(),
                ).with_text("output", text.as_str())
            }
        },
        Item::WebSearch(value) => match profile {
            Profile::Codex => value.clone(),
            Profile::Standard => Json::Null,
        },
        Item::Opaque(state) => state.payload.clone(),
    }
}

fn call_value(
    kind: ToolKind,
    item_id: &Option<String>,
    call_id: &str,
    name: &str,
    input: &ToolInput,
    profile: Profile,
) -> (value: Json)
    ensures
        value@ == call_json(
            kind,
            crate::text::view_option(*item_id),
            call_id@,
            name@,
            input@,
            profile,
        ),
{
    match (input, kind, profile) {
        (ToolInput::Text(text), ToolKind::Custom, Profile::Codex) => {
            let value = Json::object().with_text("type", "custom_tool_call").with_text(
                "call_id",
                call_id,
            ).with_text("name", name).with_text("input", text.as_str());
            match item_id {
                Some(id) => value.with_text("id", id.as_str()),
                None => value,
            }
        },
        _ => {
            let arguments = arguments_value(input).to_text();
            Json::object().with_text("type", "function_call").with_text(
                "call_id",
                call_id,
            ).with_text("name", name).with_text("arguments", arguments.as_str())
        },
    }
}

/// The input of a request.
pub fn input(request: &ModelRequest, profile: Profile) -> (result: Result<Vec<Json>, ApiError>)
    ensures
        match result {
            Ok(values) => shown_counted(*request, profile) && json_views(values@) == input_json(
                *request,
                profile,
            ),
            Err(error) => !shown_counted(*request, profile) && error@ == uncounted(),
        },
{
    let key = compaction_replay_key(namespace_text(profile), request.model.as_str());
    let items = match crate::surface::derive(
        &request.events,
        &request.forgetting,
        Some(key.as_str()),
        request.kind,
    ) {
        Some(items) => items,
        None => {
            return Err(uncounted_error());
        },
    };
    let ghost all = item_views(items@);
    assert(all == shown(*request, profile));
    let mut values: Vec<Json> = Vec::new();
    assert(json_views(values@) =~= Seq::empty());
    let mut i: usize = 0;
    while i < items.len()
        invariant
            i <= items.len(),
            all == item_views(items@),
            json_views(values@) == items_json(all, request.model@, profile, i as nat),
        decreases items.len() - i,
    {
        assert(all[i as int] == items[i as int]@);
        let value = item_value(&items[i], request.model.as_str(), profile);
        if !value.is_null() {
            add_value(&mut values, value);
        }
        i += 1;
    }
    Ok(values)
}

/// The body of a request with a given input.
pub open spec fn body_with(request: ModelRequest, profile: Profile, input: Seq<JsonView>) -> JsonView {
    let tools = tools_json(request.tools@, profile, request.tools@.len());
    let plain = JsonView::object().with_text("model"@, request.model@).with_text(
        "instructions"@,
        request.instructions@,
    ).with("input"@, JsonView::Array(input)).with("store"@, JsonView::Bool(false)).with(
        "stream"@,
        JsonView::Bool(true),
    ).with("include"@, JsonView::single(JsonView::Text("reasoning.encrypted_content"@))).with_text(
        "prompt_cache_key"@,
        request.prompt_cache_key@,
    );
    let offering = if tools.len() == 0 {
        plain
    } else {
        plain.with("tools"@, JsonView::Array(tools)).with_text("tool_choice"@, "auto"@).with(
            "parallel_tool_calls"@,
            JsonView::Bool(true),
        )
    };
    let reasoning = if request.reasoning_effort@ == "default"@ {
        offering
    } else {
        offering.with(
            "reasoning"@,
            JsonView::object().with_text("effort"@, request.reasoning_effort@).with_text(
                "summary"@,
                "detailed"@,
            ),
        )
    };
    if profile == Profile::Codex {
        reasoning.with("text"@, JsonView::object().with_text("verbosity"@, "low"@)).with(
            "client_metadata"@,
            JsonView::object().with_text("session_id"@, request.prompt_cache_key@).with_text(
                "thread_id"@,
                request.prompt_cache_key@,
            ),
        )
    } else {
        reasoning
    }
}

fn body_value(request: &ModelRequest, profile: Profile, input: Vec<Json>) -> (body: Json)
    ensures
        body@ == body_with(*request, profile, json_views(input@)),
{
    let tools = response_tools(&request.tools, profile);
    let mut body = Json::object().with_text("model", request.model.as_str()).with_text(
        "instructions",
        request.instructions.as_str(),
    ).with("input", Json::array(input)).with("store", Json::Bool(false)).with(
        "stream",
        Json::Bool(true),
    ).with("include", Json::single(Json::text("reasoning.encrypted_content"))).with_text(
        "prompt_cache_key",
        request.prompt_cache_key.as_str(),
    );
    assert(tools.len() == json_views(tools@).len());
    if tools.len() > 0 {
        body = body.with("tools", Json::array(tools)).with_text("tool_choice", "auto").with(
            "parallel_tool_calls",
            Json::Bool(true),
        );
    }
    if !same_text(request.reasoning_effort.as_str(), "default") {
        body = body.with(
            "reasoning",
            Json::object().with_text("effort", request.reasoning_effort.as_str()).with_text(
                "summary",
                "detailed",
            ),
        );
    }
    match profile {
        Profile::Codex => body.with("text", Json::object().with_text("verbosity", "low")).with(
            "client_metadata",
            Json::object().with_text(
                "session_id",
                request.prompt_cache_key.as_str(),
            ).with_text("thread_id", request.prompt_cache_key.as_str()),
        ),
        Profile::Standard => body,
    }
}

/// The body of a request.
pub fn request_body(request: &ModelRequest, profile: Profile) -> (result: Result<Json, ApiError>)
    ensures
        match result {
            Ok(body) => shown_counted(*request, profile) && body@ == body_with(
                *request,
                profile,
                input_json(*request, profile),
            ),
            Err(error) => !shown_counted(*request, profile) && error@ == uncounted(),
        },
{
    match input(request, profile) {
        Ok(values) => Ok(body_value(request, profile, values)),
        Err(error) => Err(error),
    }
}

/// The body of a request to compact the thread on the server.
pub fn server_compaction_body(request: &ModelRequest) -> (result: Result<Json, ApiError>)
    ensures
        match result {
            Ok(body) => shown_counted(*request, Profile::Codex) && body@ == body_with(
                *request,
                Profile::Codex,
                input_json(*request, Profile::Codex).push(
                    JsonView::object().with_text("type"@, "compaction_trigger"@),
                ),
            ),
            Err(error) => !shown_counted(*request, Profile::Codex) && error@ == uncounted(),
        },
{
    let mut values = match input(request, Profile::Codex) {
        Ok(values) => values,
        Err(error) => {
            return Err(error);
        },
    };
    add_value(&mut values, Json::object().with_text("type", "compaction_trigger"));
    Ok(body_value(request, Profile::Codex, values))
}

/// What a request asks of the API: the model that was chosen, the instructions, what
/// the thread shows, and an answer that comes piece by piece and is not kept there;
/// the tools where there are any; and the effort that was chosen, unless that is left
/// to the API. Codex is also told which session it is.
pub proof fn law_responses_request_says_what_is_wanted(
    request: ModelRequest,
    profile: Profile,
    input: Seq<JsonView>,
)
    ensures
        ({
            let body = body_with(request, profile, input);
            let tools = tools_json(request.tools@, profile, request.tools@.len());
            let effort = request.reasoning_effort@;
            &&& body.str_field("model"@) == Some(request.model@)
            &&& body.str_field("instructions"@) == Some(request.instructions@)
            &&& body.field("input"@) == JsonView::Array(input)
            &&& body.field("store"@) == JsonView::Bool(false)
            &&& body.field("stream"@) == JsonView::Bool(true)
            &&& body.field("include"@) matches JsonView::Array(parts) && parts.len() == 1 && parts[0]
                == JsonView::Text("reasoning.encrypted_content"@)
            &&& body.str_field("prompt_cache_key"@) == Some(request.prompt_cache_key@)
            &&& tools.len() == 0 ==> body.get("tools"@) is None && body.get("tool_choice"@) is None
                && body.get("parallel_tool_calls"@) is None
            &&& tools.len() > 0 ==> body.field("tools"@) == JsonView::Array(tools)
                && body.str_field("tool_choice"@) == Some("auto"@) && body.field(
                "parallel_tool_calls"@,
            ) == JsonView::Bool(true)
            &&& body.get("reasoning"@) is Some <==> effort != "default"@
            &&& effort != "default"@ ==> body.field("reasoning"@).str_field("effort"@) == Some(
                effort,
            ) && body.field("reasoning"@).str_field("summary"@) == Some("detailed"@)
            &&& body.get("client_metadata"@) is Some <==> profile is Codex
            &&& body.get("text"@) is Some <==> profile is Codex
            &&& profile is Codex ==> body.field("text"@).str_field("verbosity"@) == Some("low"@)
                && body.field("client_metadata"@).str_field("session_id"@) == Some(
                request.prompt_cache_key@,
            ) && body.field("client_metadata"@).str_field("thread_id"@) == Some(
                request.prompt_cache_key@,
            )
        }),
{
    broadcast use crate::json::lemma_with, crate::json::lemma_no_fields;

    reveal_strlit("model");
    reveal_strlit("instructions");
    reveal_strlit("input");
    reveal_strlit("store");
    reveal_strlit("stream");
    reveal_strlit("include");
    reveal_strlit("prompt_cache_key");
    reveal_strlit("tools");
    reveal_strlit("tool_choice");
    reveal_strlit("parallel_tool_calls");
    reveal_strlit("reasoning");
    reveal_strlit("text");
    reveal_strlit("client_metadata");
    assert("model"@.len() == 5 && "instructions"@.len() == 12 && "input"@.len() == 5 && "store"@.len() == 5 && "stream"@.len() == 6 && "include"@.len() == 7 && "prompt_cache_key"@.len() == 16 && "tools"@.len() == 5 && "tool_choice"@.len() == 11 && "parallel_tool_calls"@.len() == 19 && "reasoning"@.len() == 9 && "text"@.len() == 4 && "client_metadata"@.len() == 15);
    assert("model"@[0] != "input"@[0]);
    assert("model"@[0] != "store"@[0]);
    assert("model"@[0] != "tools"@[0]);
    assert("input"@[0] != "store"@[0]);
    assert("input"@[0] != "tools"@[0]);
    assert("store"@[0] != "tools"@[0]);
    reveal_strlit("effort");
    reveal_strlit("summary");
    assert("effort"@.len() == 6 && "summary"@.len() == 7);
    reveal_strlit("session_id");
    reveal_strlit("thread_id");
    assert("session_id"@.len() == 10 && "thread_id"@.len() == 9);
}

/// A message is sent with the role of the one who said it. What the model said is
/// sent as a text with its phase, what it was told as input.
pub proof fn law_messages_are_sent_with_their_role(
    role: Role,
    text: Seq<char>,
    phase: Option<AssistantMessagePhase>,
    model: Seq<char>,
    profile: Profile,
)
    ensures
        ({
            let sent = item_json(ItemView::Message { role, text, phase }, model, profile);
            let parts = sent.field("content"@)->Array_0;
            &&& sent.str_field("type"@) == Some("message"@)
            &&& sent.str_field("role"@) == Some("developer"@) <==> role is Developer
            &&& sent.str_field("role"@) == Some("user"@) <==> role is User
            &&& sent.str_field("role"@) == Some("assistant"@) <==> role is Assistant
            &&& role is Assistant ==> sent.str_field("content"@) == Some(text)
            &&& !(role is Assistant) ==> sent.field("content"@) is Array && parts.len() == 1
                && parts[0].str_field("type"@) == Some("input_text"@) && parts[0].str_field("text"@)
                == Some(text)
            &&& sent.str_field("phase"@) == Some("final_answer"@) <==> role is Assistant && phase
                == Some(AssistantMessagePhase::FinalAnswer)
            &&& sent.str_field("phase"@) == Some("commentary"@) <==> role is Assistant && phase
                == Some(AssistantMessagePhase::Commentary)
        }),
{
    broadcast use crate::json::lemma_with, crate::json::lemma_no_fields;

    reveal_strlit("type");
    reveal_strlit("role");
    reveal_strlit("content");
    reveal_strlit("phase");
    reveal_strlit("text");
    assert("type"@.len() == 4 && "role"@.len() == 4 && "content"@.len() == 7 && "phase"@.len() == 5 && "text"@.len() == 4);
    assert("type"@[0] != "role"@[0]);
    assert("type"@[1] != "text"@[1]);
    assert("role"@[0] != "text"@[0]);
    reveal_strlit("developer");
    reveal_strlit("user");
    reveal_strlit("assistant");
    assert("developer"@.len() == 9 && "user"@.len() == 4 && "assistant"@.len() == 9);
    assert("developer"@[0] != "assistant"@[0]);
    reveal_strlit("commentary");
    reveal_strlit("final_answer");
    assert("commentary"@.len() == 10 && "final_answer"@.len() == 12);
}

/// A call and its result are sent with the identity that ties them together. A tool
/// that takes a text is a custom tool to Codex, and a function to any other.
pub proof fn law_calls_and_results_are_sent_alike(
    kind: ToolKind,
    item_id: Option<Seq<char>>,
    call_id: Seq<char>,
    name: Seq<char>,
    text: Seq<char>,
    arguments: JsonView,
    output: JsonView,
    profile: Profile,
)
    ensures
        ({
            let custom = profile is Codex && kind is Custom;
            let call = call_json(kind, item_id, call_id, name, ToolInputView::Text(text), profile);
            let other = call_json(
                kind,
                item_id,
                call_id,
                name,
                ToolInputView::Json(arguments),
                profile,
            );
            let result = result_json(kind, call_id, name, output, profile);
            &&& call.str_field("call_id"@) == Some(call_id)
            &&& other.str_field("call_id"@) == Some(call_id)
            &&& result.str_field("call_id"@) == Some(call_id)
            &&& call.str_field("name"@) == Some(name)
            &&& other.str_field("name"@) == Some(name)
            &&& result.str_field("output"@) == Some(value_words(output))
            &&& custom ==> call.str_field("type"@) == Some("custom_tool_call"@) && call.str_field(
                "input"@,
            ) == Some(text) && call.str_field("id"@) == item_id && result.str_field("type"@)
                == Some("custom_tool_call_output"@) && result.str_field("name"@) == Some(name)
            &&& !custom ==> call.str_field("type"@) == Some("function_call"@) && call.str_field(
                "arguments"@,
            ) == Some(printed(arguments_json(ToolInputView::Text(text)))) && result.str_field(
                "type"@,
            ) == Some("function_call_output"@)
            &&& other.str_field("type"@) == Some("function_call"@)
            &&& other.str_field("arguments"@) == Some(printed(arguments))
        }),
{
    broadcast use crate::json::lemma_with, crate::json::lemma_no_fields;

    reveal_strlit("type");
    reveal_strlit("call_id");
    reveal_strlit("name");
    reveal_strlit("input");
    reveal_strlit("id");
    reveal_strlit("arguments");
    reveal_strlit("output");
    assert("type"@.len() == 4 && "call_id"@.len() == 7 && "name"@.len() == 4 && "input"@.len() == 5 && "id"@.len() == 2 && "arguments"@.len() == 9 && "output"@.len() == 6);
    assert("type"@[0] != "name"@[0]);
    reveal_strlit("custom_tool_call");
    reveal_strlit("function_call");
    reveal_strlit("custom_tool_call_output");
    reveal_strlit("function_call_output");
    assert("custom_tool_call"@.len() == 16 && "function_call"@.len() == 13 && "custom_tool_call_output"@.len() == 23 && "function_call_output"@.len() == 20);
}

/// What the thread shows is sent in its order. Nothing is left out but reasoning that
/// the model cannot take back and, unless Codex is asked, its searches.
pub proof fn law_items_are_sent_in_order(
    items: Seq<ItemView>,
    model: Seq<char>,
    profile: Profile,
    i: int,
)
    requires
        0 <= i < items.len(),
    ensures
        ({
            let sent = items_json(items, model, profile, items.len());
            let at = items_json(items, model, profile, i as nat).len();
            let next = items_json(items, model, profile, (i + 1) as nat).len();
            let value = item_json(items[i], model, profile);
            &&& at <= next <= sent.len()
            &&& !(value is Null) ==> next == at + 1 && sent[at as int] == value
            &&& value is Null ==> next == at
            &&& items[i] is Message || items[i] is ToolCall || items[i] is ToolResult ==> !(value
                is Null)
            &&& items[i] matches ItemView::WebSearch(search) ==> value == (if profile is Codex {
                search
            } else {
                JsonView::Null
            })
            &&& items[i] matches ItemView::Opaque(state) ==> value == state.payload
        }),
{
    lemma_items_grow(items, model, profile, (i + 1) as nat, items.len());
}

proof fn lemma_items_grow(
    items: Seq<ItemView>,
    model: Seq<char>,
    profile: Profile,
    count: nat,
    total: nat,
)
    requires
        count <= total <= items.len(),
    ensures
        items_json(items, model, profile, count).len() <= items_json(
            items,
            model,
            profile,
            total,
        ).len(),
        forall|k: int|
            0 <= k < items_json(items, model, profile, count).len() ==> #[trigger] items_json(
                items,
                model,
                profile,
                total,
            )[k] == items_json(items, model, profile, count)[k],
    decreases total,
{
    if count < total {
        lemma_items_grow(items, model, profile, count, (total - 1) as nat);
    }
}

/// A tool is offered under its name. To Codex a search is its own and a tool with a
/// grammar is custom; any other API is offered functions.
pub proof fn law_responses_tools_are_offered(tool: ModelTool, profile: Profile)
    ensures
        ({
            let offers = one_tool(tool, profile);
            let functions = tool_functions(tool);
            let custom = tool matches ModelTool::Tool { custom, .. } && custom is Some;
            &&& profile is Codex && tool is WebSearch ==> offers.len() == 1 && offers[0].str_field(
                "type"@,
            ) == Some("web_search"@)
            &&& profile is Codex && custom ==> offers.len() == 1 && offers[0].str_field("type"@)
                == Some("custom"@) && offers[0].str_field("name"@) == Some(tool->Tool_name@)
                && offers[0].field("format"@).str_field("type"@) == Some("grammar"@)
                && offers[0].field("format"@).str_field("syntax"@) == Some(
                tool->Tool_custom->0.format.syntax@,
            ) && offers[0].field("format"@).str_field("definition"@) == Some(
                tool->Tool_custom->0.format.definition@,
            ) && offers[0].str_field("description"@) == Some(tool->Tool_custom->0.description@)
            &&& !(profile is Codex && (tool is WebSearch || custom)) ==> {
                &&& offers.len() == functions.len()
                &&& forall|f: int|
                    0 <= f < functions.len() ==> {
                        &&& (#[trigger] offers[f]).str_field("type"@) == Some("function"@)
                        &&& offers[f].str_field("name"@) == Some(functions[f].name)
                        &&& offers[f].str_field("description"@) == Some(functions[f].description)
                        &&& offers[f].field("parameters"@) == functions[f].parameters
                        &&& offers[f].field("strict"@) == JsonView::Bool(false)
                    }
            }
        }),
{
    broadcast use crate::json::lemma_with, crate::json::lemma_no_fields;

    reveal_strlit("type");
    reveal_strlit("name");
    reveal_strlit("description");
    reveal_strlit("parameters");
    reveal_strlit("strict");
    reveal_strlit("format");
    reveal_strlit("syntax");
    reveal_strlit("definition");
    assert("type"@.len() == 4 && "name"@.len() == 4 && "description"@.len() == 11 && "parameters"@.len() == 10 && "strict"@.len() == 6 && "format"@.len() == 6 && "syntax"@.len() == 6 && "definition"@.len() == 10);
    assert("type"@[0] != "name"@[0]);
    assert("parameters"@[0] != "definition"@[0]);
    assert("strict"@[0] != "format"@[0]);
    assert("strict"@[1] != "syntax"@[1]);
    assert("format"@[0] != "syntax"@[0]);
    let functions = tool_functions(tool);
    assert forall|f: int| 0 <= f < functions.len() implies {
        &&& (#[trigger] as_functions(tool)[f]).str_field("type"@) == Some("function"@)
        &&& as_functions(tool)[f].str_field("name"@) == Some(functions[f].name)
        &&& as_functions(tool)[f].str_field("description"@) == Some(functions[f].description)
        &&& as_functions(tool)[f].field("parameters"@) == functions[f].parameters
        &&& as_functions(tool)[f].field("strict"@) == JsonView::Bool(false)
    } by {
        assert(as_functions(tool)[f] == tool_json(functions[f]));
    }
}

/// All tools are offered, in their order.
pub proof fn law_all_tools_are_offered(tools: Seq<ModelTool>, profile: Profile, t: int, f: int)
    requires
        0 <= t < tools.len(),
        0 <= f < one_tool(tools[t], profile).len(),
    ensures
        ({
            let offers = tools_json(tools, profile, tools.len());
            let at = tools_json(tools, profile, t as nat).len() + f;
            at < offers.len() && offers[at] == one_tool(tools[t], profile)[f]
        }),
{
    lemma_offers_grow(tools, profile, (t + 1) as nat, tools.len());
    let at = tools_json(tools, profile, t as nat).len() + f;
    assert(tools_json(tools, profile, (t + 1) as nat)[at] == one_tool(tools[t], profile)[f]);
}

proof fn lemma_offers_grow(tools: Seq<ModelTool>, profile: Profile, count: nat, total: nat)
    requires
        count <= total <= tools.len(),
    ensures
        tools_json(tools, profile, count).len() <= tools_json(tools, profile, total).len(),
        forall|i: int|
            0 <= i < tools_json(tools, profile, count).len() ==> #[trigger] tools_json(
                tools,
                profile,
                total,
            )[i] == tools_json(tools, profile, count)[i],
    decreases total,
{
    if count < total {
        lemma_offers_grow(tools, profile, count, (total - 1) as nat);
    }
}

/// The keys under which reasoning and compactions are handed back differ from each
/// other and tell the two APIs apart.
pub proof fn law_replay_keys_differ(model: Seq<char>)
    ensures
        reasoning_key(namespace(Profile::Codex), model) != compaction_key(
            namespace(Profile::Codex),
            model,
        ),
        reasoning_key(namespace(Profile::Standard), model) != reasoning_key(
            namespace(Profile::Codex),
            model,
        ),
        compaction_key(namespace(Profile::Standard), model) != compaction_key(
            namespace(Profile::Codex),
            model,
        ),
{
    reveal_strlit("responses");
    reveal_strlit("codex");
    reveal_strlit("/compaction-v1");
    reveal_strlit("/reasoning-v1");
    reveal_strlit("/");
    assert(reasoning_key("responses"@, model)[0] != reasoning_key("codex"@, model)[0]);
    assert(compaction_key("responses"@, model)[0] != compaction_key("codex"@, model)[0]);
    assert(reasoning_key("codex"@, model).len() != compaction_key("codex"@, model).len());
}

} // verus!
