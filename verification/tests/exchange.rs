use atra::api::common::ApiError;
use atra::api::messages;
use atra::api::responses_answer;
use atra::api::retry::RequestAction;
use atra::api::stream::{answer_refused, Dialect, Exchange, Next};
use atra::model::{ModelEvent, ModelResponse, ModelStreamEvent};

fn frame(text: &str) -> Vec<u8> {
    format!("data: {text}\n\n").into_bytes()
}

fn started(dialect: Dialect) -> Exchange {
    let mut exchange = Exchange::new(dialect, "fixture-model");
    let (action, update) = exchange.responded(200, Vec::new());
    assert_eq!(action, RequestAction::Read { announce: None });
    assert!(update.is_none());
    exchange
}

#[test]
fn an_answer_is_passed_on_while_it_comes_in() {
    let mut exchange = started(Dialect::ChatCompletions);
    let mut bytes = frame(r#"{"choices":[{"delta":{"content":"do"}}]}"#);
    bytes.extend(b"data: {\"choices\":[{\"delta\":{\"con");
    let (events, problem) = exchange.chunk(&bytes);
    assert!(problem.is_none());
    assert!(matches!(
        events.as_slice(),
        [ModelEvent::Update(ModelStreamEvent::AssistantDelta { content, .. })] if content == "do"
    ));
    let (events, problem) = exchange.chunk(&b"tent\":\"ne\"}}]}\n\n".to_vec());
    assert!(problem.is_none());
    assert_eq!(events.len(), 1);
    let end = br#"data: {"choices":[{"delta":{},"finish_reason":"stop"}]}"#;
    let (events, _) = exchange.chunk(&end.to_vec());
    assert!(events.is_empty());
    let (events, next) = exchange.ended();
    assert!(matches!(next, Next::Complete));
    assert!(matches!(
        &events[0],
        ModelEvent::OutputItemDone {
            response: Some(ModelResponse::AssistantMessage { content, .. })
        } if content == "done"
    ));
    assert!(!events.iter().any(|event| matches!(event, ModelEvent::Update(_))));
}

#[test]
fn an_answer_that_ends_early_is_asked_for_again() {
    let mut exchange = started(Dialect::Messages(messages::Live::new()));
    let (events, problem) = exchange.chunk(&frame(r#"{"type":"ping"}"#));
    assert!(events.is_empty());
    assert!(problem.is_none());
    let (_, next) = exchange.ended();
    assert!(matches!(next, Next::Retry { delay_ms: 500 }));
    let (action, update) = exchange.responded(200, Vec::new());
    assert_eq!(action, RequestAction::Read { announce: Some(1) });
    assert!(matches!(
        update,
        Some(ModelEvent::Update(ModelStreamEvent::Retry { summary, current: 1, max: 5 }))
            if summary == "request retried before output"
    ));
}

#[test]
fn nothing_is_passed_on_twice() {
    let mut exchange = started(Dialect::ChatCompletions);
    let (events, _) = exchange.chunk(&frame(r#"{"choices":[{"delta":{"content":"do"}}]}"#));
    assert_eq!(events.len(), 1);
    assert!(matches!(
        exchange.broke("reset"),
        Next::Fail(ApiError::Transport(text)) if text == "Chat Completions stream failed: reset"
    ));
    let (_, next) = exchange.ended();
    assert!(matches!(next, Next::Fail(ApiError::Incomplete(_))));
}

#[test]
fn a_request_is_sent_again_a_few_times() {
    let live = responses_answer::Live::new("m".to_owned(), "codex".to_owned());
    let mut exchange = Exchange::new(Dialect::Responses(live), "m");
    assert_eq!(exchange.failed(true), RequestAction::Retry { delay_ms: 500 });
    assert_eq!(exchange.responded(503, Vec::new()).0, RequestAction::Retry { delay_ms: 1000 });
    assert_eq!(exchange.responded(429, Vec::new()).0, RequestAction::Retry { delay_ms: 2000 });
    assert!(matches!(exchange.broke("reset"), Next::Retry { delay_ms: 4000 }));
    assert_eq!(exchange.failed(true), RequestAction::Retry { delay_ms: 8000 });
    assert_eq!(exchange.failed(true), RequestAction::Fail);
    assert_eq!(
        exchange.responded(503, Vec::new()).0,
        RequestAction::Read { announce: Some(5) },
    );
    assert_eq!(
        exchange.refused(503, "503 Service Unavailable", "busy").unwrap().message(),
        "Responses request failed with 503 Service Unavailable: busy",
    );
    assert!(exchange.refused(204, "204 No Content", "").is_none());
    for status in [199, 300, 404] {
        assert!(answer_refused(status));
    }
    assert!(!answer_refused(200));
    assert!(!answer_refused(299));
}

#[test]
fn a_frame_that_is_no_good_ends_an_answer() {
    let mut exchange = started(Dialect::ChatCompletions);
    let mut bytes = frame(r#"{"choices":[{"delta":{"content":"do"}}]}"#);
    bytes.extend(frame("{not json"));
    let (events, problem) = exchange.chunk(&bytes);
    assert_eq!(events.len(), 1);
    assert_eq!(
        problem.unwrap().message(),
        "invalid Chat Completions SSE event: {not json",
    );
    let mut exchange = started(Dialect::ChatCompletions);
    let (_, problem) = exchange.chunk(&frame(r#"{"error":{"message":"overloaded"}}"#));
    assert!(problem.is_some());
}
