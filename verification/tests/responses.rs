use atra::api::common::ApiError;
use atra::api::responses::{
    compaction_replay_key, input, reasoning_replay_key, request_body, server_compaction_body,
    Profile,
};
use atra::api::responses_answer::{parse, Live, ServerCompaction};
use atra::event::{
    AssistantMessagePhase, Event, ModelRequestKind, OpaqueState, ThreadEventData, ToolCallEvent,
};
use atra::json::Json;
use atra::model::{
    ModelCustomToolInterface, ModelEvent, ModelJsonToolInterface, ModelRequest, ModelResponse,
    ModelStreamEvent, ModelTool, ModelToolFormat,
};
use atra::surface::ToolOutputForgetting;

fn json(text: &str) -> Json {
    Json::parse(text).unwrap()
}

fn sorted(value: Json) -> Json {
    match value {
        Json::Array(items) => Json::Array(items.into_iter().map(sorted).collect()),
        Json::Object(fields) => {
            let mut fields: Vec<(String, Json)> =
                fields.into_iter().map(|(key, value)| (key, sorted(value))).collect();
            fields.sort_by(|left, right| left.0.cmp(&right.0));
            Json::Object(fields)
        }
        other => other,
    }
}

fn live(namespace: &str) -> Live {
    Live::new("fixture-model".to_owned(), namespace.to_owned())
}

fn request(model: &str, tools: Vec<ModelTool>, events: Vec<Event>) -> ModelRequest {
    ModelRequest {
        model: model.to_owned(),
        reasoning_effort: "high".to_owned(),
        instructions: "instructions".to_owned(),
        tools,
        events,
        forgetting: ToolOutputForgetting {
            forgotten: vec![],
            request_batches: vec![],
            current_batch: vec![],
        },
        prompt_cache_key: "cache".to_owned(),
        kind: ModelRequestKind::Response,
    }
}

fn decode_frames(frames: &Vec<Json>, model: &str, namespace: &str) -> Result<Vec<ModelEvent>, ApiError> {
    let mut live = Live::new(model.to_owned(), namespace.to_owned());
    let mut events = Vec::new();
    for frame in frames {
        events.extend(live.decode(frame)?);
    }
    events.extend(parse(frames, Vec::new())?);
    Ok(events)
}

#[test]
fn preserves_completed_item_order_and_each_reasoning_item() {
    let frames: Vec<Json> = [
        r#"{"type":"response.output_item.done","output_index":1,"item":{"id":"call-item","type":"function_call","call_id":"call-1","name":"command","arguments":"{\"command\":\"true\",\"runner\":\"sandbox\"}"}}"#,
        r#"{"type":"response.output_item.done","output_index":0,"item":{"id":"rs-1","type":"reasoning","summary":[{"type":"summary_text","text":"first"},{"type":"summary_text","text":"second"}],"encrypted_content":"opaque-1"}}"#,
        r#"{"type":"response.output_item.done","output_index":3,"item":{"id":"msg-1","type":"message","phase":"final_answer","content":[{"type":"output_text","text":"done"}]}}"#,
        r#"{"type":"response.output_item.done","output_index":2,"item":{"id":"rs-2","type":"reasoning","summary":[],"encrypted_content":"opaque-2"}}"#,
        r#"{"type":"response.completed","response":{"usage":{"input_tokens":8,"output_tokens":4,"total_tokens":12}}}"#,
    ]
    .iter()
    .map(|text| json(text))
    .collect();
    let events = decode_frames(&frames, "fixture-model", "responses").unwrap();

    assert!(matches!(
        &events[0],
        ModelEvent::OutputItemDone {
            response: Some(ModelResponse::Reasoning { summary, opaque })
        } if summary == "first\nsecond"
            && opaque.payload.str_field("encrypted_content") == Some("opaque-1")
    ));
    assert!(matches!(
        &events[1],
        ModelEvent::OutputItemDone {
            response: Some(ModelResponse::ToolCall { call_id, .. })
        } if call_id == "call-1"
    ));
    assert!(matches!(
        &events[2],
        ModelEvent::OutputItemDone {
            response: Some(ModelResponse::Reasoning { summary, opaque })
        } if summary.is_empty()
            && opaque.payload.str_field("encrypted_content") == Some("opaque-2")
    ));
    assert!(matches!(
        &events[3],
        ModelEvent::OutputItemDone {
            response: Some(ModelResponse::AssistantMessage { content, phase })
        } if content == "done" && *phase == AssistantMessagePhase::FinalAnswer
    ));
    assert!(matches!(events.last(), Some(ModelEvent::Completed { .. })));
}

#[test]
fn rejects_function_items_without_a_call_id() {
    let mut live = live("fixture");
    assert!(live
        .decode(&json(
            r#"{"type":"response.output_item.done","output_index":0,"item":{"type":"function_call","id":"item-1","name":"command","arguments":"{}"}}"#
        ))
        .is_err());
}

#[test]
fn completed_item_is_emitted_immediately() {
    let mut live = live("responses");
    let events = live
        .decode(&json(
            r#"{"type":"response.output_item.done","output_index":0,"item":{"id":"msg-1","type":"message","phase":"final_answer","content":[{"type":"output_text","text":"done"}]}}"#,
        ))
        .unwrap();

    assert!(matches!(
        &events[0],
        ModelEvent::OutputItemDone {
            response: Some(ModelResponse::AssistantMessage { content, .. })
        } if content == "done"
    ));
}

#[test]
fn a_retried_response_discards_pending_items_from_the_previous_attempt() {
    let mut live = live("responses");
    assert!(live
        .decode(&json(
            r#"{"type":"response.output_item.done","output_index":1,"item":{"type":"reasoning","summary":[]}}"#
        ))
        .unwrap()
        .is_empty());

    live.decode(&json(r#"{"type":"response.created"}"#)).unwrap();
    let events = live
        .decode(&json(
            r#"{"type":"response.output_item.done","output_index":0,"item":{"type":"message","phase":"final_answer","content":[{"type":"output_text","text":"retried"}]}}"#,
        ))
        .unwrap();

    assert_eq!(events.len(), 1);
    assert!(matches!(
        &events[0],
        ModelEvent::OutputItemDone {
            response: Some(ModelResponse::AssistantMessage { content, .. })
        } if content == "retried"
    ));
}

#[test]
fn live_output_uses_the_message_item_phase() {
    let mut live = live("codex");
    assert!(live
        .decode(&json(
            r#"{"type":"response.output_item.added","item":{"id":"msg-1","type":"message","phase":"final_answer"}}"#
        ))
        .unwrap()
        .is_empty());
    let updates = live
        .decode(&json(
            r#"{"type":"response.output_text.delta","item_id":"msg-1","delta":"done"}"#,
        ))
        .unwrap();
    assert!(matches!(
        &updates[0],
        ModelEvent::Update(ModelStreamEvent::AssistantDelta { content, phase })
            if content == "done" && *phase == AssistantMessagePhase::FinalAnswer
    ));
}

#[test]
fn codex_messages_fall_back_when_phase_is_absent() {
    let mut live = live("codex");
    assert!(live
        .decode(&json(
            r#"{"type":"response.output_item.added","item":{"id":"msg-1","type":"message"}}"#
        ))
        .is_ok());

    let updates = live
        .decode(&json(
            r#"{"type":"response.output_text.delta","item_id":"msg-1","delta":"done"}"#,
        ))
        .unwrap();
    assert!(matches!(
        &updates[0],
        ModelEvent::Update(ModelStreamEvent::AssistantDelta { phase, .. })
            if *phase == AssistantMessagePhase::Commentary
    ));

    assert!(live
        .decode(&json(
            r#"{"type":"response.output_item.done","output_index":0,"item":{"id":"msg-1","type":"message","content":[{"type":"output_text","text":"done"}]}}"#
        ))
        .unwrap()
        .is_empty());
    let events = live
        .decode(&json(
            r#"{"type":"response.completed","response":{"usage":{"input_tokens":1,"output_tokens":1,"total_tokens":2}}}"#,
        ))
        .unwrap();
    assert!(matches!(
        &events[0],
        ModelEvent::OutputItemDone {
            response: Some(ModelResponse::AssistantMessage { phase, .. })
        } if *phase == AssistantMessagePhase::FinalAnswer
    ));
}

#[test]
fn standard_messages_fall_back_when_phase_is_absent() {
    let mut live = live("responses");
    assert!(live
        .decode(&json(
            r#"{"type":"response.output_item.added","item":{"id":"msg-1","type":"message"}}"#
        ))
        .is_ok());

    let events = live
        .decode(&json(
            r#"{"type":"response.output_item.done","output_index":0,"item":{"id":"msg-1","type":"message","content":[{"type":"output_text","text":"done"}]}}"#,
        ))
        .unwrap();
    assert!(events.is_empty());

    let events = live
        .decode(&json(
            r#"{"type":"response.completed","response":{"usage":{"input_tokens":1,"output_tokens":1,"total_tokens":2}}}"#,
        ))
        .unwrap();
    assert!(matches!(
        &events[0],
        ModelEvent::OutputItemDone {
            response: Some(ModelResponse::AssistantMessage { phase, .. })
        } if *phase == AssistantMessagePhase::FinalAnswer
    ));
}

#[test]
fn phase_less_message_before_a_tool_call_is_commentary() {
    let mut live = live("responses");
    assert!(live
        .decode(&json(
            r#"{"type":"response.output_item.done","output_index":0,"item":{"id":"msg-1","type":"message","content":[{"type":"output_text","text":"working"}]}}"#
        ))
        .unwrap()
        .is_empty());
    live.decode(&json(
        r#"{"type":"response.output_item.added","output_index":1,"item":{"id":"call-item","type":"function_call","call_id":"call-1","name":"command","arguments":""}}"#,
    ))
    .unwrap();
    let events = live
        .decode(&json(
            r#"{"type":"response.output_item.done","output_index":1,"item":{"id":"call-item","type":"function_call","call_id":"call-1","name":"command","arguments":"{}"}}"#,
        ))
        .unwrap();

    assert!(matches!(
        &events[0],
        ModelEvent::OutputItemDone {
            response: Some(ModelResponse::AssistantMessage { content, phase })
        } if content == "working" && *phase == AssistantMessagePhase::Commentary
    ));
    assert!(matches!(
        &events[1],
        ModelEvent::OutputItemDone {
            response: Some(ModelResponse::ToolCall { call_id, .. })
        } if call_id == "call-1"
    ));
}

#[test]
fn rejects_missing_required_protocol_fields() {
    let mut live = live("responses");
    assert!(live.decode(&json("{}")).is_err());
    assert!(live
        .decode(&json(
            r#"{"type":"response.output_item.done","output_index":0,"item":{"id":"rs-1","type":"reasoning"}}"#
        ))
        .is_err());
}

#[test]
fn web_search_status_events_do_not_clear_the_item_action() {
    let mut live = live("codex");
    let events = live
        .decode(&json(
            r#"{"type":"response.output_item.added","item":{"id":"ws-1","type":"web_search_call","action":{"type":"search","query":"atra"}}}"#,
        ))
        .unwrap();
    assert!(matches!(
        &events[0],
        ModelEvent::Update(ModelStreamEvent::WebSearchUpdate { item_id, action: Some(action) })
            if item_id == "ws-1" && action.str_field("query") == Some("atra")
    ));

    for event_type in [
        "response.web_search_call.in_progress",
        "response.web_search_call.searching",
        "response.web_search_call.completed",
    ] {
        assert!(live
            .decode(&json(&format!(r#"{{"type":"{event_type}","item_id":"ws-1"}}"#)))
            .unwrap()
            .is_empty());
    }
}

#[test]
fn completed_custom_tool_call_may_omit_item_id() {
    let mut live = live("codex");
    let events = live
        .decode(&json(
            r#"{"type":"response.output_item.done","output_index":0,"item":{"type":"custom_tool_call","call_id":"call-1","name":"command","input":"*** Runner sandbox\ntrue"}}"#,
        ))
        .unwrap();
    assert!(matches!(
        &events[0],
        ModelEvent::OutputItemDone {
            response: Some(ModelResponse::CustomToolCall { item_id: None, .. })
        }
    ));
}

#[test]
fn completed_response_rejects_a_gap_in_output_indexes() {
    let mut live = live("responses");
    assert!(live
        .decode(&json(
            r#"{"type":"response.output_item.done","output_index":1,"item":{"id":"rs-1","type":"reasoning","summary":[]}}"#
        ))
        .unwrap()
        .is_empty());
    assert!(live
        .decode(&json(
            r#"{"type":"response.completed","response":{"usage":{"input_tokens":1,"output_tokens":1,"total_tokens":2}}}"#
        ))
        .is_err());
}

#[test]
fn replays_matching_reasoning_items_without_changing_them() {
    let first = r#"{"id":"rs-1","type":"reasoning","summary":[{"type":"summary_text","text":"first"}],"encrypted_content":"opaque-1"}"#;
    let second =
        r#"{"id":"rs-2","type":"reasoning","summary":[],"encrypted_content":"opaque-2"}"#;
    let opaque = |text: &str| {
        Some(OpaqueState {
            replay_key: "responses/fixture-model/reasoning-v1".to_owned(),
            payload: json(text),
        })
    };
    let events = vec![
        Event {
            sequence: 0,
            data: ThreadEventData::Reasoning { summary: "first".to_owned(), opaque: opaque(first) },
        },
        Event {
            sequence: 1,
            data: ThreadEventData::AssistantMessage {
                content: "commentary".to_owned(),
                phase: AssistantMessagePhase::Commentary,
            },
        },
        Event {
            sequence: 2,
            data: ThreadEventData::Reasoning { summary: String::new(), opaque: opaque(second) },
        },
    ];

    let values: Vec<Json> = input(&request("fixture-model", vec![], events), Profile::Standard)
        .unwrap()
        .into_iter()
        .map(sorted)
        .collect();
    assert_eq!(
        values,
        vec![
            sorted(json(first)),
            sorted(json(
                r#"{"type":"message","role":"assistant","phase":"commentary","content":"commentary"}"#
            )),
            sorted(json(second)),
        ]
    );
}

#[test]
fn custom_tool_call_without_an_item_id_omits_the_id() {
    let events = vec![Event {
        sequence: 0,
        data: ThreadEventData::ToolCall(ToolCallEvent::Custom {
            item_id: None,
            call_id: "call-1".to_owned(),
            name: "command".to_owned(),
            input: "true".to_owned(),
        }),
    }];

    let values: Vec<Json> = input(&request("fixture-model", vec![], events), Profile::Codex)
        .unwrap()
        .into_iter()
        .map(sorted)
        .collect();

    assert_eq!(
        values,
        vec![sorted(json(
            r#"{"type":"custom_tool_call","call_id":"call-1","name":"command","input":"true"}"#
        ))]
    );
}

#[test]
fn server_compaction_appends_only_the_trigger() {
    let tools = || {
        vec![
            ModelTool::WebSearch {
                search_parameters: json(r#"{"type":"object"}"#),
                fetch_parameters: json(r#"{"type":"object"}"#),
            },
            ModelTool::Tool {
                name: "command".to_owned(),
                json: ModelJsonToolInterface {
                    description: "runs".to_owned(),
                    parameters: json(r#"{"type":"object"}"#),
                },
                custom: Some(ModelCustomToolInterface {
                    description: "runs".to_owned(),
                    format: ModelToolFormat {
                        syntax: "lark".to_owned(),
                        definition: "start: /.+/".to_owned(),
                    },
                }),
            },
        ]
    };
    let request = request("gpt-5.2", tools(), vec![]);
    let normal = request_body(&request, Profile::Codex).unwrap();
    let compaction = server_compaction_body(&request).unwrap();
    let normal_input = normal.field("input");
    let compact_input = compaction.field("input");
    let normal_input = normal_input.as_array().unwrap();
    let compact_input = compact_input.as_array().unwrap();

    assert_eq!(&compact_input[..normal_input.len()], &normal_input[..]);
    assert_eq!(compact_input.len(), normal_input.len() + 1);
    assert_eq!(
        compact_input.last().unwrap().str_field("type"),
        Some("compaction_trigger")
    );
    for field in [
        "model",
        "instructions",
        "tools",
        "tool_choice",
        "parallel_tool_calls",
        "reasoning",
        "prompt_cache_key",
    ] {
        assert_eq!(normal.field(field), compaction.field(field), "{field}");
        assert!(!normal.field(field).is_null(), "{field}");
    }
}

#[test]
fn items_are_not_completed_twice() {
    let mut live = live("responses");
    let frame = json(
        r#"{"type":"response.output_item.done","output_index":0,"item":{"type":"reasoning","summary":[]}}"#,
    );
    assert_eq!(live.decode(&frame).unwrap().len(), 1);
    assert_eq!(
        live.decode(&frame).unwrap_err().message(),
        "Responses completed output item 0 more than once"
    );
}

#[test]
fn a_compaction_on_the_server_gives_its_item() {
    let mut state = ServerCompaction::new();
    assert!(state.accept(&json(r#"{"type":"response.created"}"#)).is_none());
    assert!(state
        .accept(&json(
            r#"{"type":"response.output_item.done","item":{"type":"compaction","encrypted_content":"x"}}"#
        ))
        .is_none());
    assert!(state
        .accept(&json(r#"{"type":"response.completed","response":{}}"#))
        .is_none());
    let item = state.finish().unwrap();
    assert_eq!(item.str_field("encrypted_content"), Some("x"));
    assert!(ServerCompaction::new().finish().is_err());
    assert_eq!(compaction_replay_key("codex", "m"), "codex/m/compaction-v1");
    assert_eq!(reasoning_replay_key("responses", "m"), "responses/m/reasoning-v1");
}
