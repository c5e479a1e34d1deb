use atra::event::{AssistantMessagePhase, Event, OpaqueState, ThreadEventData, ToolResultEvent};
use atra::json::Json;
use atra::model::{ModelEvent, ModelResponse};
use atra::provider::api_key_auth::{source, stored_key, ApiKeyAuth, CredentialSource};
use atra::provider::fake;
use atra::provider::ollama;
use atra::provider::opencode_go;
use atra::provider::registry::ProviderRegistry;
use atra::provider::tool_binding::{Binding, Executor};

fn json(text: &str) -> Json {
    Json::parse(text).unwrap()
}

fn texts(list: &[&str]) -> Vec<String> {
    list.iter().map(|text| (*text).to_owned()).collect()
}

#[test]
fn rejects_invalid_provider_inventories() {
    let provider = "fake";
    assert!(ProviderRegistry::new(provider, &texts(&[provider, provider])).is_err());
    assert!(ProviderRegistry::new("missing", &texts(&[provider])).is_err());
}

#[test]
fn registry_errors_say_what_is_wrong() {
    let error = |default: &str, ids: &[&str]| {
        ProviderRegistry::new(default, &texts(ids)).unwrap_err().message()
    };
    assert_eq!(error("fake", &["fake", "fake"]), "duplicate model provider fake");
    assert_eq!(error("fake", &[]), "provider registry cannot be empty");
    assert_eq!(error("missing", &["fake"]), "default model provider missing is not registered");
}

#[test]
fn registered_providers_are_found_in_the_order_of_their_names() {
    let registry =
        ProviderRegistry::new("codex", &texts(&["ollama", "codex", "opencode-go"])).unwrap();
    assert_eq!(registry.default_provider(), "codex");
    assert_eq!(registry.len(), 3);
    assert_eq!(registry.get("ollama").unwrap(), 0);
    assert_eq!(registry.get("codex").unwrap(), 1);
    assert_eq!(registry.get("fake").unwrap_err(), "unknown model provider fake");
    assert_eq!(registry.places(), &vec![1, 0, 2]);
}

#[test]
fn a_stored_key_is_read_back() {
    let provider = Some("provider".to_owned());
    let stored = stored_key(" secret\n").unwrap();
    assert_eq!(stored, "secret");
    let auth = ApiKeyAuth::new(provider.clone(), &None, &Some(stored));
    assert_eq!(auth.key().unwrap(), "secret");
    assert!(auth.configured());

    let mut auth = ApiKeyAuth::new(provider, &None, &None);
    assert_eq!(auth.key().unwrap_err(), "login required; run `atra provider login provider`");
    auth.reload(&None, &Some("secret\n".to_owned()));
    assert_eq!(auth.key().unwrap(), "secret");
    auth.reload(&None, &None);
    assert!(!auth.configured());
}

#[test]
fn the_environment_comes_before_the_file() {
    let environment = Some(" from-environment ".to_owned());
    let file = Some("from-file".to_owned());
    let auth = ApiKeyAuth::new(Some("ollama".to_owned()), &environment, &file);
    assert_eq!(auth.key().unwrap(), " from-environment ");
    assert_eq!(source(&environment, true), Some(CredentialSource::Environment));
    assert_eq!(source(&Some("  ".to_owned()), true), Some(CredentialSource::File));
    assert_eq!(source(&None, false), None);
    assert_eq!(stored_key(" \t").unwrap_err(), "API key must not be empty");
}

#[test]
fn an_unnamed_provider_has_a_name_to_show() {
    let auth = ApiKeyAuth::new(None, &None, &None);
    assert_eq!(auth.provider(), "provider");
}

#[test]
fn only_live_models_are_offered() {
    let listing = json(r#"{"data":[{"id":"glm-5.1"},{"id":"unknown"},{"id":"grok-4.5"}]}"#);
    let live = opencode_go::live_ids(&listing).unwrap();
    assert_eq!(live, texts(&["glm-5.1", "unknown", "grok-4.5"]));
    let models = opencode_go::models(&live);
    let ids: Vec<&str> = models.iter().map(|model| model.id.as_str()).collect();
    assert_eq!(ids, ["grok-4.5", "glm-5.1"]);
    assert!(opencode_go::live_ids(&json(r#"{"data":[{}]}"#)).is_none());
}

#[test]
fn an_opencode_model_is_described() {
    let model = opencode_go::spec("glm-5.1").unwrap().model();
    assert_eq!(model.provider, "opencode-go");
    assert_eq!(model.display_name, "GLM-5.1");
    assert_eq!(model.description.as_deref(), Some("OpenCode Go · Chat Completions"));
    assert_eq!(model.default_reasoning_effort, "default");
    assert_eq!(model.context_window, Some(202_752));
    assert_eq!(model.auto_compact_token_limit, Some(182_476));
    assert!(opencode_go::spec("glm-4").is_none());
}

#[test]
fn an_opencode_model_is_routed() {
    assert_eq!(opencode_go::route("grok-4.5").unwrap(), opencode_go::Api::Responses);
    assert_eq!(opencode_go::route("kimi-k3").unwrap(), opencode_go::Api::ChatCompletions);
    assert_eq!(opencode_go::route("minimax-m3").unwrap(), opencode_go::Api::Messages);
    assert_eq!(
        opencode_go::route("glm-4").unwrap_err(),
        "unsupported OpenCode Go model glm-4",
    );
    assert_eq!(
        opencode_go::tool_of("grok-4.5", "web_search"),
        Some(Binding::Function(Executor::Exa)),
    );
    assert_eq!(
        opencode_go::tool_of("grok-4.5", "web_fetch"),
        Some(Binding::Function(Executor::DirectFetch)),
    );
    assert_eq!(opencode_go::tool_of("glm-4", "web_search"), None);
    assert_eq!(
        opencode_go::account(Some(CredentialSource::File)),
        "OpenCode Go API key (file)",
    );
    assert_eq!(opencode_go::account(None), "OpenCode Go API key (unknown)");
}

#[test]
fn opencode_endpoints() {
    assert_eq!(
        opencode_go::endpoint(opencode_go::Api::Responses),
        "https://opencode.ai/zen/go/v1/responses",
    );
    assert_eq!(
        opencode_go::endpoint(opencode_go::Api::ChatCompletions),
        "https://opencode.ai/zen/go/v1/chat/completions",
    );
    assert_eq!(
        opencode_go::endpoint(opencode_go::Api::Messages),
        "https://opencode.ai/zen/go/v1/messages",
    );
}

#[test]
fn an_ollama_model_is_described() {
    let listing = json(
        r#"{"models":[{"model":"gpt-oss:120b","details":{"parameter_size":"120B"}},{"model":"plain"}]}"#,
    );
    let tags = ollama::read_tags(&listing).unwrap();
    assert_eq!(tags.len(), 2);
    assert_eq!(tags[1].parameter_size, "");
    let show = ollama::read_show(&json(
        r#"{"capabilities":["tools","thinking"],"model_info":{"general.name":"x","gptoss.context_length":131072}}"#,
    ))
    .unwrap();
    assert!(show.thinking);
    assert_eq!(show.context_window, Some(131_072));
    let model = ollama::model(&tags[0], &show);
    assert_eq!(model.provider, "ollama");
    assert_eq!(model.id, "gpt-oss:120b");
    assert_eq!(model.description.as_deref(), Some("120B parameters"));
    assert_eq!(model.auto_compact_token_limit, Some(104_857));
    let plain = ollama::model(&tags[1], &ollama::read_show(&json("{}")).unwrap());
    assert_eq!(plain.description, None);
    assert_eq!(plain.auto_compact_token_limit, None);
}

#[test]
fn an_ollama_listing_that_is_not_one() {
    assert!(ollama::read_tags(&json("{}")).is_none());
    assert!(ollama::read_tag(&json(r#"{"name":"x"}"#)).is_none());
    assert!(ollama::read_tag(&json(r#"{"model":"x","details":7}"#)).is_none());
    assert!(ollama::read_show(&json("7")).is_none());
    assert!(ollama::read_show(&json(r#"{"model_info":7}"#)).is_none());
}

#[test]
fn an_ollama_refusal_is_explained() {
    assert_eq!(
        ollama::refusal(401, "401 Unauthorized", "no"),
        "Ollama API key was rejected; run `atra provider login ollama`",
    );
    assert_eq!(
        ollama::refusal(500, "500 Internal Server Error", "broken"),
        "Ollama Cloud returned 500 Internal Server Error: broken",
    );
}

fn said(content: &str) -> ModelResponse {
    ModelResponse::AssistantMessage {
        content: content.to_owned(),
        phase: AssistantMessagePhase::FinalAnswer,
    }
}

#[test]
fn scripted_responses_come_in_order() {
    let mut script = vec![said("first"), said("second")];
    let answer = fake::stream(&mut script, &Vec::new()).unwrap();
    assert_eq!(answer.len(), 2);
    assert!(matches!(
        &answer[0],
        ModelEvent::OutputItemDone {
            response: Some(ModelResponse::AssistantMessage { content, .. })
        } if content == "first"
    ));
    assert!(matches!(&answer[1], ModelEvent::Completed { token_usage: None, .. }));
    assert_eq!(script.len(), 1);
    assert!(fake::stream(&mut script, &Vec::new()).is_ok());
    let error = fake::stream(&mut script, &Vec::new()).unwrap_err();
    assert_eq!(error.message(), "fake model script has no response remaining");
}

#[test]
fn a_script_can_hold_an_invalid_item() {
    let mut script = vec![ModelResponse::WebSearch { item: json("7") }];
    let error = fake::stream(&mut script, &Vec::new()).unwrap_err();
    assert_eq!(error.message(), "fake model script contains invalid output item");
}

#[test]
fn scripted_items() {
    assert_eq!(
        fake::response_item(&said("hello")).unwrap().str_field("phase"),
        Some("final_answer"),
    );
    let call = fake::response_item(&ModelResponse::ToolCall {
        name: "exec_command".to_owned(),
        arguments: json(r#"{"command":"ls"}"#),
        call_id: "call-1".to_owned(),
    })
    .unwrap();
    assert_eq!(call.str_field("type"), Some("function_call"));
    assert_eq!(call.str_field("arguments"), Some(r#"{"command":"ls"}"#));
    let custom = fake::response_item(&ModelResponse::CustomToolCall {
        item_id: None,
        name: "apply".to_owned(),
        input: "text".to_owned(),
        call_id: "call-2".to_owned(),
    })
    .unwrap();
    assert!(custom.field("id").is_null());
    let thought = fake::response_item(&ModelResponse::Reasoning {
        summary: "because".to_owned(),
        opaque: OpaqueState { replay_key: "key".to_owned(), payload: json("[1]") },
    })
    .unwrap();
    assert_eq!(thought.nested("opaque", "payload"), json("[1]"));
}

#[test]
fn the_scripted_model() {
    let models = fake::models();
    assert_eq!(models.len(), 1);
    assert_eq!(models[0].provider, "fake");
    assert_eq!(models[0].id, "gpt-5.6-sol");
    assert_eq!(models[0].supported_reasoning_efforts, texts(&["low", "medium", "high", "xhigh"]));
}

fn told(sequence: i64, result: &str) -> Event {
    Event {
        sequence,
        data: ThreadEventData::ToolResult(ToolResultEvent::Function {
            call_id: "call-1".to_owned(),
            name: "exec_command".to_owned(),
            result: json(result),
            artifacts: Vec::new(),
            masked_result: None,
        }),
    }
}

fn first_message(script: &str, events: &Vec<Event>) -> String {
    let answer = fake::stream(&mut vec![said(script)], events).unwrap();
    match answer.into_iter().next() {
        Some(ModelEvent::OutputItemDone {
            response: Some(ModelResponse::AssistantMessage { content, .. }),
        }) => content,
        other => panic!("{other:?}"),
    }
}

#[test]
fn a_scripted_message_can_show_the_latest_tool_output() {
    let events = vec![told(1, r#""old""#), told(2, r#"{"output":"new"}"#), told(3, "7")];
    assert_eq!(first_message("saw {{tool_output}}, {{tool_output}}", &events), "saw new, new");
    assert_eq!(first_message("saw {{tool_output}}", &Vec::new()), "saw {{tool_output}}");
}

#[test]
fn a_login_by_key_needs_one() {
    assert_eq!(ollama::login_key(Some("key".to_owned())), Ok("key".to_owned()));
    assert_eq!(ollama::login_key(None), Err("Ollama login requires an API key"));
    assert_eq!(opencode_go::login_key(Some("key".to_owned())), Ok("key".to_owned()));
    assert_eq!(opencode_go::login_key(None), Err("OpenCode Go login requires an API key"));
}

#[test]
fn requests_to_opencode_carry_what_their_form_needs() {
    let headers = opencode_go::request_headers(opencode_go::Api::Messages, "key");
    let pairs: Vec<(&str, &str)> =
        headers.iter().map(|header| (header.name, header.value.as_str())).collect();
    assert_eq!(
        pairs,
        [
            ("x-api-key", "key"),
            ("anthropic-version", "2023-06-01"),
            ("anthropic-beta", "fine-grained-tool-streaming-2025-05-14"),
        ],
    );
    assert!(opencode_go::request_headers(opencode_go::Api::Responses, "key").is_empty());
}

#[test]
fn listings_can_be_lists_of_their_fields() {
    let tags = ollama::read_tags(&json(r#"[[["m",["8B"]],["n"],{"model":"o","details":[]}]]"#));
    let tags: Vec<(String, String)> =
        tags.unwrap().into_iter().map(|tag| (tag.model, tag.parameter_size)).collect();
    let tag = |model: &str, size: &str| (model.to_owned(), size.to_owned());
    assert_eq!(tags, vec![tag("m", "8B"), tag("n", ""), tag("o", "")]);
    assert!(ollama::read_tags(&json("[]")).is_none());
    assert!(ollama::read_tags(&json(r#"[[["m",["8B"],1]]]"#)).is_none());
    let show = ollama::read_show(&json(r#"[["thinking"],{"x.context_length":9}]"#)).unwrap();
    assert!(show.thinking);
    assert_eq!(show.context_window, Some(9));
    assert!(!ollama::read_show(&json("[]")).unwrap().thinking);
    assert!(ollama::read_show(&json("[[],{},1]")).is_none());
    let ids = opencode_go::live_ids(&json(r#"[[["a"],{"id":"b"}]]"#)).unwrap();
    assert_eq!(ids, texts(&["a", "b"]));
    assert!(opencode_go::live_ids(&json(r#"[[["a","b"]]]"#)).is_none());
}
