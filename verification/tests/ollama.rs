use atra::api::common::ApiError;
use atra::api::ollama::{
    context_tokens, event_messages, message_value, reasoning_efforts, request_body, think_value,
    thinking_replay_key,
};
use atra::api::ollama_answer::{
    call_name, decode_line, fallback_call_id, NdjsonDecoder, OllamaStream, Pull,
};
use atra::event::{
    AssistantMessagePhase, Event, FrozenBoundaryEvent, ModelRequestKind, OpaqueState,
    ThreadEventData, ToolCallEvent, ToolResultEvent,
};
use atra::json::Json;
use atra::model::{ModelEvent, ModelRequest, ModelResponse, ModelStreamEvent};
use atra::surface::ToolOutputForgetting;

fn json(text: &str) -> Json {
    Json::parse(text).unwrap()
}

fn event(sequence: i64, data: ThreadEventData) -> Event {
    Event { sequence, data }
}

fn nothing_forgotten() -> ToolOutputForgetting {
    ToolOutputForgetting { forgotten: vec![], request_batches: vec![], current_batch: vec![] }
}

fn efforts(default: &str, supported: &[&str]) -> (String, Vec<String>) {
    (
        default.to_owned(),
        supported.iter().map(|effort| (*effort).to_owned()).collect(),
    )
}

fn call(call_id: &str, arguments: &str) -> ThreadEventData {
    ThreadEventData::ToolCall(ToolCallEvent::Function {
        name: "lookup".to_owned(),
        arguments: json(arguments),
        call_id: call_id.to_owned(),
    })
}

fn result(call_id: &str, result: &str) -> ThreadEventData {
    ThreadEventData::ToolResult(ToolResultEvent::Function {
        name: "lookup".to_owned(),
        call_id: call_id.to_owned(),
        result: json(result),
        artifacts: vec![],
        masked_result: None,
    })
}

fn reasoning(summary: &str, replay_key: String, payload: &str) -> ThreadEventData {
    ThreadEventData::Reasoning {
        summary: summary.to_owned(),
        opaque: Some(OpaqueState { replay_key, payload: json(payload) }),
    }
}

fn response_stream(chunks: Vec<Vec<u8>>, model: &str) -> Vec<Result<ModelEvent, ApiError>> {
    let mut decoder = NdjsonDecoder::new();
    let mut stream = OllamaStream::new("session".to_owned(), model.to_owned());
    let mut events: Vec<Result<ModelEvent, ApiError>> = Vec::new();
    let mut chunks = chunks.into_iter();
    let mut ended = false;
    loop {
        match decoder.next(ended) {
            Pull::Chunk(chunk) => match stream.accept(chunk) {
                Ok(more) => events.extend(more.into_iter().map(Ok)),
                Err(error) => {
                    events.push(Err(error));
                    return events;
                }
            },
            Pull::NeedMore => match chunks.next() {
                Some(chunk) => decoder.push(&chunk),
                None => ended = true,
            },
            Pull::End => {
                if !stream.is_finished() {
                    events.push(Err(OllamaStream::ended_early()));
                }
                return events;
            }
            Pull::Failed(error) => {
                events.push(Err(error));
                return events;
            }
        }
    }
}

fn answer(body: &str) -> Vec<Result<ModelEvent, ApiError>> {
    response_stream(vec![body.as_bytes().to_vec()], "model")
}

#[test]
fn reasoning_efforts_are_selected_for_model_families() {
    assert_eq!(
        reasoning_efforts("gpt-oss:120b-cloud", true),
        efforts("medium", &["low", "medium", "high"])
    );
    assert_eq!(
        reasoning_efforts("qwen3:235b-cloud", true),
        efforts("enabled", &["disabled", "enabled"])
    );
    assert_eq!(
        reasoning_efforts("qwen3-vl:235b-cloud", true),
        efforts("medium", &["low", "medium", "high", "max"])
    );
    assert_eq!(
        reasoning_efforts("glm-5.2:cloud", true),
        efforts("high", &["disabled", "high", "max"])
    );
    assert_eq!(
        reasoning_efforts("kimi-k2-thinking:cloud", true),
        efforts("medium", &["low", "medium", "high", "max"])
    );
    assert_eq!(
        reasoning_efforts("minimax-m2.1:cloud", true),
        efforts("medium", &["low", "medium", "high", "max"])
    );
    assert_eq!(
        reasoning_efforts("future-thinking-model:cloud", true),
        efforts("medium", &["disabled", "low", "medium", "high", "max"])
    );
    assert_eq!(
        reasoning_efforts("qwen3:235b-cloud", false),
        efforts("none", &["none"])
    );
}

#[test]
fn request_history_preserves_an_ollama_assistant_turn() {
    let model = "qwen3:cloud";
    let events = vec![
        event(0, ThreadEventData::UserMessage { content: "question".to_owned() }),
        event(1, reasoning("think", thinking_replay_key(model), r#"{"thinking":"think"}"#)),
        event(
            2,
            ThreadEventData::AssistantMessage {
                content: "checking".to_owned(),
                phase: AssistantMessagePhase::Commentary,
            },
        ),
        event(3, call("call-1", r#"{"city":"Tokyo"}"#)),
        event(4, call("call-2", r#"{"city":"Osaka"}"#)),
        event(5, result("call-1", r#"{"temperature":20}"#)),
        event(6, result("call-2", r#"{"temperature":21}"#)),
    ];

    let messages = event_messages(
        &events,
        &nothing_forgotten(),
        ModelRequestKind::Response,
        Some(&thinking_replay_key(model)),
    )
    .unwrap();

    assert_eq!(messages.len(), 4);
    assert_eq!(messages[1].role, "assistant");
    assert_eq!(messages[1].thinking, "think");
    assert_eq!(messages[1].content, "checking");
    assert_eq!(messages[1].tool_calls.len(), 2);
    assert_eq!(messages[2].tool_name.as_deref(), Some("lookup"));
    assert_eq!(messages[3].tool_name.as_deref(), Some("lookup"));
    assert!(message_value(&messages[2]).get("tool_call_id").is_none());
}

#[test]
fn request_history_does_not_replay_reasoning_for_another_model() {
    let events = vec![event(
        0,
        reasoning(
            "visible summary",
            thinking_replay_key("other-model"),
            r#"{"thinking":"private thinking"}"#,
        ),
    )];

    assert!(event_messages(
        &events,
        &nothing_forgotten(),
        ModelRequestKind::Response,
        Some(&thinking_replay_key("current-model")),
    )
    .unwrap()
    .is_empty());
}

#[test]
fn request_tool_call_message_serializes_required_empty_content() {
    let messages = event_messages(
        &vec![event(0, call("call-1", "{}"))],
        &nothing_forgotten(),
        ModelRequestKind::Response,
        None,
    )
    .unwrap();

    let value = message_value(&messages[0]);
    assert_eq!(value.str_field("role"), Some("assistant"));
    assert_eq!(value.str_field("content"), Some(""));
    assert!(value.field("tool_calls").as_array().is_some());
}

#[test]
fn context_tokens_use_reasoning_summaries_and_masked_tool_results() {
    let history = || {
        vec![
            event(
                0,
                ThreadEventData::Reasoning { summary: "reasoning summary".to_owned(), opaque: None },
            ),
            event(
                1,
                ThreadEventData::ToolResult(ToolResultEvent::Function {
                    name: "command".to_owned(),
                    call_id: "call".to_owned(),
                    result: Json::Text("large output ".repeat(10_000)),
                    artifacts: vec![],
                    masked_result: Some(Json::Text("output masked".to_owned())),
                }),
            ),
        ]
    };
    let full = history();
    let mut masked = history();
    masked.push(event(
        2,
        ThreadEventData::FrozenBoundary(FrozenBoundaryEvent {
            through_sequence: 1,
            masked_sequences: vec![1],
        }),
    ));
    let kind = ModelRequestKind::Response;

    let full_tokens = context_tokens(&full, &nothing_forgotten(), kind).unwrap();
    let masked_tokens = context_tokens(&masked, &nothing_forgotten(), kind).unwrap();

    assert!(masked_tokens < full_tokens);
    let messages = event_messages(&masked, &nothing_forgotten(), kind, None).unwrap();
    assert!(messages[0].thinking.contains("reasoning summary"));
}

#[test]
fn decodes_fragmented_stream_with_thinking_text_and_parallel_tools() {
    let body = br#"{"message":{"role":"assistant","thinking":"th"},"done":false}
{"message":{"role":"assistant","thinking":"ink","content":"checking"},"done":false}
{"message":{"role":"assistant","tool_calls":[{"id":"call-1","function":{"name":"lookup","arguments":{"city":"Tokyo"}}},{"id":"call-2","function":{"name":"lookup","arguments":{"city":"Osaka"}}}]},"done":false}
{"message":{"role":"assistant"},"done":true,"prompt_eval_count":10,"eval_count":4}"#;
    let chunks = body.chunks(17).map(|chunk| chunk.to_vec()).collect();

    let events = response_stream(chunks, "qwen3:cloud");

    assert!(events.iter().any(|event| matches!(
        event,
        Ok(ModelEvent::OutputItemDone {
            response: Some(ModelResponse::Reasoning { summary, .. })
        }) if summary == "think"
    )));
    assert!(events.iter().any(|event| matches!(
        event,
        Ok(ModelEvent::OutputItemDone {
            response: Some(ModelResponse::AssistantMessage { content, phase })
        }) if content == "checking" && *phase == AssistantMessagePhase::Commentary
    )));
    let calls = events
        .iter()
        .filter(|event| {
            matches!(
                event,
                Ok(ModelEvent::OutputItemDone {
                    response: Some(ModelResponse::ToolCall { .. })
                })
            )
        })
        .count();
    assert_eq!(calls, 2);
    assert!(matches!(
        events.last(),
        Some(Ok(ModelEvent::Completed { token_usage: Some(usage), .. }))
            if usage.field("total_tokens") == Json::Integer(14)
    ));
}

#[test]
fn rejects_a_stream_without_a_completion_marker() {
    let events =
        answer("{\"message\":{\"role\":\"assistant\",\"content\":\"partial\"},\"done\":false}\n");

    assert!(events.last().is_some_and(Result::is_err));
}

#[test]
fn ollama_rejects_non_object_tool_arguments() {
    let events = answer(
        "{\"message\":{\"role\":\"assistant\",\"tool_calls\":[{\"function\":{\"name\":\"lookup\",\"arguments\":\"bad\"}}]},\"done\":true,\"prompt_eval_count\":1,\"eval_count\":1}\n",
    );

    assert_eq!(events.len(), 1);
    assert!(events[0].is_err());
}

#[test]
fn accepts_an_argumentless_tool_call() {
    let events = answer(
        "{\"message\":{\"role\":\"assistant\",\"tool_calls\":[{\"function\":{\"name\":\"lookup\"}}]},\"done\":true}\n",
    );

    assert!(events.iter().any(|event| matches!(
        event,
        Ok(ModelEvent::OutputItemDone {
            response: Some(ModelResponse::ToolCall { arguments, .. })
        }) if *arguments == json("{}")
    )));
    assert!(matches!(
        events.last(),
        Some(Ok(ModelEvent::Completed { token_usage: None, .. }))
    ));
}

#[test]
fn accepts_completion_without_role_or_token_counts() {
    let events = answer("{\"message\":{\"content\":\"done\"},\"done\":true}\n");

    assert!(events.iter().any(|event| matches!(
        event,
        Ok(ModelEvent::OutputItemDone {
            response: Some(ModelResponse::AssistantMessage { content, .. })
        }) if content == "done"
    )));
    assert!(matches!(
        events.last(),
        Some(Ok(ModelEvent::Completed { token_usage: None, .. }))
    ));
}

#[test]
fn rejects_completion_without_assistant_content_or_tool_calls() {
    let events =
        answer("{\"message\":{},\"done\":true,\"prompt_eval_count\":1,\"eval_count\":0}\n");

    assert_eq!(events.len(), 1);
    let Err(error) = &events[0] else {
        panic!("expected empty Ollama completion error");
    };
    assert!(error.message().contains("without assistant content or tool calls"));
}

#[test]
fn rejects_thinking_only_completion() {
    let events = answer(
        "{\"message\":{\"thinking\":\"unfinished\"},\"done\":true,\"prompt_eval_count\":1,\"eval_count\":1}\n",
    );

    assert!(events.last().is_some_and(Result::is_err));
    assert!(!events.iter().any(|event| matches!(
        event,
        Ok(ModelEvent::OutputItemDone { .. } | ModelEvent::Completed { .. })
    )));
}

#[test]
fn generates_a_call_id_when_ollama_omits_it() {
    let events = answer(
        "{\"message\":{\"role\":\"assistant\",\"tool_calls\":[{\"function\":{\"name\":\"lookup\",\"arguments\":{}}}]},\"done\":true,\"prompt_eval_count\":1,\"eval_count\":1}\n",
    );

    assert!(events.iter().any(|event| matches!(
        event,
        Ok(ModelEvent::OutputItemDone {
            response: Some(ModelResponse::ToolCall { call_id, .. })
        }) if call_id.starts_with("ollama-")
    )));
    assert!(matches!(events.last(), Some(Ok(ModelEvent::Completed { .. }))));
}

#[test]
fn generated_call_ids_differ() {
    let body = "{\"message\":{\"tool_calls\":[{\"function\":{\"name\":\"a\"}},{\"function\":{\"name\":\"b\"}}]},\"done\":true}\n";
    let ids: Vec<String> = answer(body)
        .into_iter()
        .chain(answer(body))
        .filter_map(|event| match event {
            Ok(ModelEvent::OutputItemDone {
                response: Some(ModelResponse::ToolCall { call_id, .. }),
            }) => Some(call_id),
            _ => None,
        })
        .collect();
    assert_eq!(ids.len(), 4);
    for i in 0..ids.len() {
        for j in 0..i {
            assert_ne!(ids[i], ids[j]);
        }
    }
    assert_ne!(fallback_call_id("s", 0, 1), fallback_call_id("s", 0, 2));
    assert!(fallback_call_id("session", 3, 5).unwrap().starts_with("ollama-"));
    assert_eq!(call_name(3, 2, 4), "ollama-7-2");
    let endless = " ".repeat(1_100_000);
    assert_eq!(
        fallback_call_id(&endless, 0, 1).unwrap_err().message(),
        "text could not be encoded into tokens",
    );
}

#[test]
fn reports_ollama_stream_errors() {
    let events = answer("{\"error\":\"model failed\"}\n");

    assert_eq!(events.len(), 1);
    let Err(error) = &events[0] else {
        panic!("expected Ollama stream error");
    };
    assert!(error.message().contains("model failed"));
}

#[test]
fn rejects_unknown_reasoning_options() {
    assert!(think_value("almost-high").is_err());
    assert_eq!(think_value("high").unwrap(), Json::Text("high".to_owned()));
    assert_eq!(think_value("disabled").unwrap(), Json::Bool(false));
}

#[test]
fn lines_do_not_depend_on_chunks() {
    let body = "\n{\"message\":{\"content\":\"a\"},\"done\":false}\n \n{\"message\":{\"content\":\"b\"},\"done\":true}\n";
    let expected = answer(body);
    for size in 1..body.len() {
        let chunks = body.as_bytes().chunks(size).map(|chunk| chunk.to_vec()).collect();
        assert_eq!(response_stream(chunks, "model"), expected, "chunks of {size}");
    }
    let broken = answer("{\"message\n");
    assert!(broken[0].is_err());
    let late = answer("{\"message\":{\"content\":\"a\"},\"done\":true}\n{\"done\":false}\n");
    assert!(late.last().is_some_and(Result::is_err));
}

#[test]
fn requests_tell_how_to_think() {
    let mut request = ModelRequest {
        model: "gpt-oss:20b".to_owned(),
        reasoning_effort: "high".to_owned(),
        instructions: "be brief".to_owned(),
        tools: vec![],
        events: vec![event(0, ThreadEventData::UserMessage { content: "ask".to_owned() })],
        forgetting: nothing_forgotten(),
        prompt_cache_key: "cache".to_owned(),
        kind: ModelRequestKind::Response,
    };
    let body = request_body(&request).unwrap();
    assert_eq!(body.str_field("model"), Some("gpt-oss:20b"));
    assert_eq!(body.str_field("think"), Some("high"));
    let messages = body.field("messages");
    assert_eq!(messages.as_array().unwrap().len(), 2);
    request.reasoning_effort = "almost-high".to_owned();
    assert!(request_body(&request).is_err());
}

#[test]
fn pieces_of_an_answer_are_passed_on() {
    let events = answer("{\"message\":{\"thinking\":\"t\",\"content\":\"c\"},\"done\":false}\n");
    assert_eq!(
        events[0],
        Ok(ModelEvent::Update(ModelStreamEvent::ReasoningSummaryDelta("t".to_owned())))
    );
    assert_eq!(
        events[1],
        Ok(ModelEvent::Update(ModelStreamEvent::AssistantDelta {
            content: "c".to_owned(),
            phase: AssistantMessagePhase::Commentary,
        }))
    );
    assert_eq!(events.len(), 3);
}

#[test]
fn given_numbers_name_the_calls() {
    let mut stream = OllamaStream::new("session".to_owned(), "model".to_owned());
    assert_eq!(stream.pending_calls(), 0);

    let call = b"{\"message\":{\"role\":\"assistant\",\"content\":\"\",\"tool_calls\":[{\"function\":{\"name\":\"read\",\"arguments\":{}}}]},\"done\":false}".to_vec();
    let chunk = decode_line(&call).unwrap().unwrap();
    assert!(stream.accept_with(chunk, &vec![41]).unwrap().is_empty());
    assert_eq!(stream.pending_calls(), 1);
    assert!(!stream.is_finished());

    let end = b"{\"message\":{\"role\":\"assistant\",\"content\":\"\"},\"done\":true}".to_vec();
    let chunk = decode_line(&end).unwrap().unwrap();
    let events = stream.accept_with(chunk, &vec![41]).unwrap();
    assert!(stream.is_finished());

    let wanted = fallback_call_id("session", 0, 41).unwrap();
    // The session is one token long: 41 xor 1 is 40.
    assert_eq!(wanted, "ollama-40-0");
    assert!(events.iter().any(|event| format!("{event:?}").contains(&wanted)));
}
