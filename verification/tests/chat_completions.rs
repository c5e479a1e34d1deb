use atra::api::chat_completions::{live, parse, request_body};
use atra::event::{AssistantMessagePhase, Event, ModelRequestKind, ThreadEventData};
use atra::json::Json;
use atra::model::{ModelEvent, ModelRequest, ModelResponse, ModelStreamEvent};
use atra::surface::ToolOutputForgetting;

fn json(text: &str) -> Json {
    Json::parse(text).unwrap()
}

fn frames(texts: &[&str]) -> Vec<Json> {
    texts.iter().map(|text| json(text)).collect()
}

#[test]
fn chat_completions_parses_reasoning_and_text() {
    let frames = frames(&[
        r#"{"choices":[{"delta":{"reasoning_content":"think"}}]}"#,
        r#"{"choices":[{"delta":{"content":"done"}}]}"#,
        r#"{"choices":[{"delta":{},"finish_reason":"stop"}],"usage":{"prompt_tokens":10,"completion_tokens":4,"total_tokens":14}}"#,
    ]);
    let events = parse(&frames, "fixture-model").unwrap();

    assert!(events.iter().any(|event| matches!(
        event,
        ModelEvent::OutputItemDone {
            response: Some(ModelResponse::Reasoning { summary, .. })
        } if summary == "think"
    )));
    assert!(events.iter().any(|event| matches!(
        event,
        ModelEvent::OutputItemDone {
            response: Some(ModelResponse::AssistantMessage { content, phase })
        } if content == "done" && *phase == AssistantMessagePhase::FinalAnswer
    )));
    assert!(matches!(
        events.last(),
        Some(ModelEvent::Completed { token_usage: Some(usage), .. })
            if usage.field("total_tokens") == Json::Integer(14)
    ));
}

#[test]
fn parses_a_tool_call_from_pieces() {
    let frames = frames(&[
        r#"{"choices":[{"delta":{"tool_calls":[{"index":0,"id":"call-1","function":{"name":"command","arguments":"{\"command\":"}}]}}]}"#,
        r#"{"choices":[{"delta":{"tool_calls":[{"index":0,"function":{"arguments":"\"true\"}"}}]}}]}"#,
        r#"{"choices":[{"delta":{},"finish_reason":"tool_calls"}]}"#,
    ]);
    let events = parse(&frames, "fixture-model").unwrap();
    assert!(events.iter().any(|event| matches!(
        event,
        ModelEvent::OutputItemDone {
            response: Some(ModelResponse::ToolCall { call_id, arguments, .. })
        } if call_id == "call-1" && arguments.str_field("command") == Some("true")
    )));
}

#[test]
fn rejects_invalid_tool_json() {
    let frames = frames(&[
        r#"{"choices":[{"delta":{"tool_calls":[{"index":0,"id":"call-1","function":{"name":"command","arguments":"{"}}]}}]}"#,
    ]);
    assert!(parse(&frames, "fixture-model").is_err());
}

#[test]
fn rejects_tool_calls_without_an_id() {
    let frames = frames(&[
        r#"{"choices":[{"delta":{"tool_calls":[{"index":0,"function":{"name":"command","arguments":"{}"}}]}}]}"#,
    ]);
    assert!(parse(&frames, "fixture-model").is_err());
}

#[test]
fn pieces_are_shown_as_they_come() {
    let events = live(&json(r#"{"choices":[{"delta":{"content":"do"}}]}"#)).unwrap();
    assert_eq!(
        events,
        vec![ModelEvent::Update(ModelStreamEvent::AssistantDelta {
            content: "do".to_owned(),
            phase: AssistantMessagePhase::Commentary,
        })]
    );
}

#[test]
fn requests_carry_the_instructions_and_the_history() {
    let request = ModelRequest {
        model: "m".to_owned(),
        reasoning_effort: "high".to_owned(),
        instructions: "be brief".to_owned(),
        tools: vec![],
        events: vec![Event {
            sequence: 0,
            data: ThreadEventData::UserMessage { content: "ask".to_owned() },
        }],
        forgetting: ToolOutputForgetting {
            forgotten: vec![],
            request_batches: vec![],
            current_batch: vec![],
        },
        prompt_cache_key: "cache".to_owned(),
        kind: ModelRequestKind::Response,
    };
    let body = request_body(&request).unwrap();
    assert_eq!(body.str_field("model"), Some("m"));
    let messages = body.field("messages");
    let messages = messages.as_array().unwrap();
    assert_eq!(messages[0].str_field("role"), Some("system"));
    assert_eq!(messages[0].str_field("content"), Some("be brief"));
    assert_eq!(messages[1].str_field("content"), Some("ask"));
    assert_eq!(body.field("stream"), Json::Bool(true));
}
