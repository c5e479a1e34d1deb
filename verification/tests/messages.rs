use atra::api::common::ApiError;
use atra::api::messages::{
    request_body, request_messages, validate_replay_block, Live, MAX_OUTPUT_TOKENS,
};
use atra::api::messages_answer::{normalize_usage, Message, StopReason};
use atra::event::{AssistantMessagePhase, Event, ModelRequestKind, OpaqueState, ThreadEventData};
use atra::json::Json;
use atra::model::{ModelEvent, ModelRequest, ModelResponse};
use atra::surface::{Role, ToolOutputForgetting};

fn json(text: &str) -> Json {
    Json::parse(text).unwrap()
}

fn sorted(value: Json) -> Json {
    match value {
        Json::Array(items) => Json::Array(items.into_iter().map(sorted).collect()),
        Json::Object(fields) => {
            let mut fields: Vec<(String, Json)> =
                fields.into_iter().map(|(key, value)| (key, sorted(value))).collect();
            fields.sort_by(|left, right| left.0.cmp(&right.0));
            Json::Object(fields)
        }
        other => other,
    }
}

fn block_start(index: u64, block: &str) -> Json {
    json(&format!(
        r#"{{"type":"content_block_start","index":{index},"content_block":{block}}}"#
    ))
}

fn block_delta(index: u64, delta: &str) -> Json {
    json(&format!(r#"{{"type":"content_block_delta","index":{index},"delta":{delta}}}"#))
}

fn block_stop(index: u64) -> Json {
    json(&format!(r#"{{"type":"content_block_stop","index":{index}}}"#))
}

fn complete(mut frames: Vec<Json>, stop_reason: &str) -> Vec<Json> {
    frames.insert(
        0,
        json(r#"{"type":"message_start","message":{"usage":{"input_tokens":8}}}"#),
    );
    frames.push(json(&format!(
        r#"{{"type":"message_delta","delta":{{"stop_reason":"{stop_reason}"}},"usage":{{"output_tokens":4}}}}"#
    )));
    frames.push(json(r#"{"type":"message_stop"}"#));
    frames
}

fn events(frames: &Vec<Json>) -> Result<Vec<ModelEvent>, ApiError> {
    Message::decode(frames, "fixture-model")?.into_stream()
}

fn request(effort: &str, events: Vec<Event>) -> ModelRequest {
    ModelRequest {
        model: "fixture-model".to_owned(),
        reasoning_effort: effort.to_owned(),
        instructions: "instructions".to_owned(),
        tools: vec![],
        events,
        forgetting: ToolOutputForgetting {
            forgotten: vec![],
            request_batches: vec![],
            current_batch: vec![],
        },
        prompt_cache_key: "cache".to_owned(),
        kind: ModelRequestKind::Response,
    }
}

#[test]
fn sends_effort_with_adaptive_thinking() {
    let body = request_body(&request("xhigh", vec![])).unwrap();

    assert_eq!(body.field("max_tokens"), Json::Integer(MAX_OUTPUT_TOKENS));
    assert_eq!(body.field("thinking"), json(r#"{"type":"adaptive"}"#));
    assert_eq!(body.field("output_config"), json(r#"{"effort":"xhigh"}"#));
    assert!(body.get("reasoning_effort").is_none());
}

#[test]
fn rejects_unknown_effort() {
    assert!(request_body(&request("on", vec![])).is_err());
}

#[test]
fn live_state_resets_when_a_retried_response_starts() {
    let mut live = Live::new();
    let start = block_start(0, r#"{"type":"text","text":""}"#);

    live.decode(&json(r#"{"type":"message_start"}"#)).unwrap();
    live.decode(&start).unwrap();
    assert!(live.decode(&start).is_err());
    live.decode(&json(r#"{"type":"message_start"}"#)).unwrap();

    live.decode(&start).unwrap();
}

#[test]
fn replays_matching_thinking_blocks_without_changing_them() {
    let thinking = r#"{"type":"thinking","thinking":"first","signature":"signature"}"#;
    let redacted = r#"{"type":"redacted_thinking","data":"encrypted"}"#;
    let replay_key = "messages/fixture-model/thinking-v2";
    let opaque = |text: &str| {
        Some(OpaqueState { replay_key: replay_key.to_owned(), payload: json(text) })
    };
    let events = vec![
        Event {
            sequence: 0,
            data: ThreadEventData::Reasoning {
                summary: "first".to_owned(),
                opaque: opaque(thinking),
            },
        },
        Event {
            sequence: 1,
            data: ThreadEventData::AssistantMessage {
                content: "commentary".to_owned(),
                phase: AssistantMessagePhase::Commentary,
            },
        },
        Event {
            sequence: 2,
            data: ThreadEventData::Reasoning { summary: String::new(), opaque: opaque(redacted) },
        },
    ];

    let history = request_messages(&request("high", events)).unwrap();

    assert_eq!(history.messages.len(), 1);
    assert_eq!(history.messages[0].role, Role::Assistant);
    let content: Vec<Json> =
        history.messages.into_iter().flat_map(|message| message.content).map(sorted).collect();
    assert_eq!(
        content,
        vec![
            sorted(json(thinking)),
            sorted(json(r#"{"type":"text","text":"commentary"}"#)),
            sorted(json(redacted)),
        ]
    );
}

#[test]
fn omits_empty_text_blocks_from_requests() {
    let user = |sequence: i64, content: &str| Event {
        sequence,
        data: ThreadEventData::UserMessage { content: content.to_owned() },
    };
    let events = vec![
        Event {
            sequence: 0,
            data: ThreadEventData::AssistantMessage {
                content: String::new(),
                phase: AssistantMessagePhase::FinalAnswer,
            },
        },
        user(1, ""),
        user(2, "next"),
    ];

    let history = request_messages(&request("default", events)).unwrap();

    assert_eq!(history.messages.len(), 1);
    assert_eq!(history.messages[0].role, Role::User);
    assert_eq!(history.messages[0].content.len(), 1);
    assert_eq!(history.messages[0].content[0].str_field("type"), Some("text"));
    assert_eq!(history.messages[0].content[0].str_field("text"), Some("next"));
}

#[test]
fn messages_parses_reasoning_and_text() {
    let frames = complete(
        vec![
            block_start(0, r#"{"type":"thinking","thinking":"","signature":""}"#),
            block_delta(0, r#"{"type":"thinking_delta","thinking":"think"}"#),
            block_delta(0, r#"{"type":"signature_delta","signature":"signed"}"#),
            block_stop(0),
            block_start(1, r#"{"type":"text","text":""}"#),
            block_delta(1, r#"{"type":"text_delta","text":"done"}"#),
            block_stop(1),
        ],
        "end_turn",
    );
    let events = events(&frames).unwrap();

    assert!(events.iter().any(|event| matches!(
        event,
        ModelEvent::OutputItemDone {
            response: Some(ModelResponse::Reasoning { summary, opaque })
        } if summary == "think"
            && sorted(opaque.payload.clone())
                == sorted(json(r#"{"type":"thinking","thinking":"think","signature":"signed"}"#))
    )));
    assert!(events.iter().any(|event| matches!(
        event,
        ModelEvent::OutputItemDone {
            response: Some(ModelResponse::AssistantMessage { content, phase })
        } if content == "done" && *phase == AssistantMessagePhase::FinalAnswer
    )));
}

#[test]
fn preserves_each_thinking_block_and_redacted_thinking() {
    let first = r#"{"type":"thinking","thinking":"first","signature":"sig-1"}"#;
    let redacted = r#"{"type":"redacted_thinking","data":"encrypted"}"#;
    let second = r#"{"type":"thinking","thinking":"","signature":"sig-2"}"#;
    let frames = complete(
        vec![
            block_start(0, first),
            block_stop(0),
            block_start(1, redacted),
            block_stop(1),
            block_start(2, second),
            block_stop(2),
            block_start(3, r#"{"type":"text","text":"done"}"#),
            block_stop(3),
        ],
        "end_turn",
    );
    let payloads: Vec<Json> = events(&frames)
        .unwrap()
        .into_iter()
        .filter_map(|event| match event {
            ModelEvent::OutputItemDone {
                response: Some(ModelResponse::Reasoning { opaque, .. }),
            } => Some(opaque.payload),
            _ => None,
        })
        .collect();
    for payload in &payloads {
        assert!(validate_replay_block(payload).is_none());
    }
    let payloads: Vec<Json> = payloads.into_iter().map(sorted).collect();
    assert_eq!(
        payloads,
        vec![sorted(json(first)), sorted(json(redacted)), sorted(json(second))]
    );
}

#[test]
fn rejects_truncated_responses_instead_of_finalizing_text() {
    let frames = complete(
        vec![block_start(0, r#"{"type":"text","text":"partial"}"#), block_stop(0)],
        "max_tokens",
    );

    assert!(Message::decode(&frames, "fixture-model").unwrap().into_stream().is_err());
}

#[test]
fn pause_turn_keeps_text_as_commentary() {
    let frames = complete(
        vec![block_start(0, r#"{"type":"text","text":"continuing"}"#), block_stop(0)],
        "pause_turn",
    );
    let events = events(&frames).unwrap();

    assert!(events.iter().any(|event| matches!(
        event,
        ModelEvent::OutputItemDone {
            response: Some(ModelResponse::AssistantMessage { phase, .. })
        } if *phase == AssistantMessagePhase::Commentary
    )));
}

#[test]
fn uses_tool_input_from_block_start_when_there_are_no_deltas() {
    for arguments in ["{}", r#"{"query":"Tokyo"}"#] {
        let frames = complete(
            vec![
                block_start(
                    0,
                    &format!(
                        r#"{{"type":"tool_use","id":"call-1","name":"lookup","input":{arguments}}}"#
                    ),
                ),
                block_stop(0),
            ],
            "tool_use",
        );

        let output = events(&frames).unwrap();

        assert!(output.iter().any(|event| matches!(
            event,
            ModelEvent::OutputItemDone {
                response: Some(ModelResponse::ToolCall { arguments: actual, .. })
            } if *actual == json(arguments)
        )));
    }
}

#[test]
fn messages_rejects_non_object_tool_arguments() {
    let frames = complete(
        vec![
            block_start(0, r#"{"type":"tool_use","id":"call-1","name":"lookup","input":{}}"#),
            block_delta(0, r#"{"type":"input_json_delta","partial_json":"[]"}"#),
            block_stop(0),
        ],
        "tool_use",
    );

    assert!(Message::decode(&frames, "fixture-model").is_err());
}

#[test]
fn accepts_citation_deltas_without_exposing_them() {
    let frames = complete(
        vec![
            block_start(0, r#"{"type":"text","text":""}"#),
            block_delta(
                0,
                r#"{"type":"citations_delta","citation":{"type":"char_location"}}"#,
            ),
            block_delta(0, r#"{"type":"text_delta","text":"cited"}"#),
            block_stop(0),
        ],
        "end_turn",
    );
    let mut live = Live::new();
    for frame in &frames {
        live.decode(frame).unwrap();
    }

    let events = events(&frames).unwrap();

    assert!(events.iter().any(|event| matches!(
        event,
        ModelEvent::OutputItemDone {
            response: Some(ModelResponse::AssistantMessage { content, .. })
        } if content == "cited"
    )));
}

#[test]
fn accepts_null_stop_reason_before_the_final_message_delta() {
    let mut frames = complete(
        vec![block_start(0, r#"{"type":"text","text":"done"}"#), block_stop(0)],
        "end_turn",
    );
    frames.insert(
        frames.len() - 2,
        json(
            r#"{"type":"message_delta","delta":{"container":null,"stop_details":null,"stop_reason":null,"stop_sequence":null},"usage":{"output_tokens":2}}"#,
        ),
    );

    let events = events(&frames).unwrap();

    assert!(events.iter().any(|event| matches!(
        event,
        ModelEvent::OutputItemDone {
            response: Some(ModelResponse::AssistantMessage { content, .. })
        } if content == "done"
    )));
}

#[test]
fn includes_cached_tokens_in_total_usage() {
    let usage = normalize_usage(&json(
        r#"{"input_tokens":10,"cache_read_input_tokens":20,"cache_creation_input_tokens":30,"output_tokens":4}"#,
    ));
    assert_eq!(
        sorted(usage),
        sorted(json(
            r#"{"input_tokens":10,"cached_input_tokens":20,"cache_write_input_tokens":30,"output_tokens":4,"total_tokens":64}"#
        ))
    );
}

#[test]
fn rejects_mismatched_delta_and_block_types() {
    let frames = complete(
        vec![
            block_start(0, r#"{"type":"text","text":""}"#),
            block_delta(0, r#"{"type":"input_json_delta","partial_json":"{}"}"#),
            block_stop(0),
        ],
        "end_turn",
    );

    assert!(Message::decode(&frames, "fixture-model").is_err());
}

#[test]
fn rejects_unknown_stream_event() {
    let frames = vec![json(r#"{"type":"new_event"}"#)];
    assert!(Message::decode(&frames, "fixture-model").is_err());
}

#[test]
fn an_answer_that_stops_short_is_incomplete() {
    let frames = vec![json(r#"{"type":"message_start","message":{}}"#)];
    let error = match Message::decode(&frames, "fixture-model") {
        Ok(_) => panic!("the answer was taken"),
        Err(error) => error,
    };
    assert!(matches!(error, ApiError::Incomplete(_)));
    assert!(error.message().ends_with("stream ended before completion"));
}

#[test]
fn the_end_of_an_answer_counts_its_tokens() {
    let frames = complete(
        vec![block_start(0, r#"{"type":"text","text":"x"}"#), block_stop(0)],
        "end_turn",
    );
    let events = events(&frames).unwrap();
    assert!(matches!(
        events.last(),
        Some(ModelEvent::Completed { token_usage: Some(usage), .. })
            if usage.field("total_tokens") == Json::Integer(12)
    ));
    assert!(StopReason::parse("end_turn").is_ok());
    assert!(StopReason::parse("other").is_err());
}
