use atra::api::common::{incomplete_stream, ApiError};
use atra::api::retry::{retry_delay, RequestAction, RequestEvent, RequestState, MAX_RETRIES};
use atra::api::messages::Live;
use atra::api::sse::{decode_sse_frame, frame_end, SseDecoder};
use atra::api::stream::{Dialect, Exchange, Next};
use atra::json::Json;
use atra::model::{ModelEvent, ModelResponse, ModelStreamEvent};

/// An answer to a try: what comes in, and whether the connection breaks then.
type Try = (&'static str, bool);

/// Sends a request as often as it takes, and tells how often, and what came of it.
fn exchanged(dialect: Dialect, tries: &[Try]) -> (usize, Vec<Result<ModelEvent, ApiError>>) {
    let mut exchange = Exchange::new(dialect, "fixture-model");
    let mut output: Vec<Result<ModelEvent, ApiError>> = Vec::new();
    for (count, (body, breaks)) in tries.iter().enumerate() {
        let (action, update) = exchange.responded(200, Vec::new());
        assert!(matches!(action, RequestAction::Read { .. }));
        output.extend(update.map(Ok));
        let (events, problem) = exchange.chunk(&body.as_bytes().to_vec());
        output.extend(events.into_iter().map(Ok));
        if let Some(error) = problem {
            output.push(Err(error));
            return (count + 1, output);
        }
        let (events, next) = if *breaks {
            (Vec::new(), exchange.broke("disconnected"))
        } else {
            exchange.ended()
        };
        output.extend(events.into_iter().map(Ok));
        match next {
            Next::Retry { .. } => {}
            Next::Fail(error) => {
                output.push(Err(error));
                return (count + 1, output);
            }
            _ => return (count + 1, output),
        }
    }
    panic!("another try was not expected");
}

const ANSWER: &str = "data: {\"choices\":[{\"delta\":{\"content\":\"ok\"}}]}\n\n\
    data: {\"choices\":[{\"delta\":{},\"finish_reason\":\"stop\"}]}\n\n";

fn is_delta(event: &Result<ModelEvent, ApiError>, text: &str) -> bool {
    matches!(
        event,
        Ok(ModelEvent::Update(ModelStreamEvent::AssistantDelta { content, .. })) if content == text
    )
}

fn is_first_retry(event: &Result<ModelEvent, ApiError>) -> bool {
    matches!(
        event,
        Ok(ModelEvent::Update(ModelStreamEvent::Retry { current: 1, max: 5, summary }))
            if summary == "request retried before output"
    )
}

#[test]
fn retries_a_stream_disconnect_before_canonical_output() {
    let (attempts, stream) = exchanged(Dialect::ChatCompletions, &[("", true), (ANSWER, false)]);
    assert_eq!(attempts, 2);
    assert_eq!(stream.len(), 4);
    assert!(is_first_retry(&stream[0]));
    assert!(is_delta(&stream[1], "ok"));
    assert!(matches!(
        &stream[2],
        Ok(ModelEvent::OutputItemDone {
            response: Some(ModelResponse::AssistantMessage { content, .. })
        }) if content == "ok"
    ));
    assert!(matches!(stream.last(), Some(Ok(ModelEvent::Completed { .. }))));
}

#[test]
fn retries_a_cleanly_ended_incomplete_stream_before_output() {
    let ping = "data: {\"type\":\"ping\"}\n\n";
    let whole = "data: {\"type\":\"message_start\",\"message\":{\"id\":\"m\",\"usage\":{\"input_tokens\":1,\"output_tokens\":1}}}\n\n\
        data: {\"type\":\"message_delta\",\"delta\":{\"stop_reason\":\"end_turn\"},\"usage\":{\"output_tokens\":1}}\n\n\
        data: {\"type\":\"message_stop\"}\n\n";
    let dialect = Dialect::Messages(Live::new());
    let (attempts, stream) = exchanged(dialect, &[(ping, false), (whole, false)]);
    assert_eq!(attempts, 2);
    assert!(is_first_retry(&stream[0]));
    assert!(stream.iter().all(Result::is_ok));
    assert!(matches!(stream.last(), Some(Ok(ModelEvent::Completed { .. }))));
}

#[test]
fn does_not_retry_after_canonical_output() {
    let partial = "data: {\"choices\":[{\"delta\":{\"content\":\"partial\"}}]}\n\n";
    let (attempts, stream) =
        exchanged(Dialect::ChatCompletions, &[(partial, true), (ANSWER, false)]);
    assert_eq!(attempts, 1);
    assert_eq!(stream.len(), 2);
    assert!(is_delta(&stream[0], "partial"));
    assert!(matches!(
        &stream[1],
        Err(ApiError::Transport(text)) if text == "Chat Completions stream failed: disconnected"
    ));
}

#[test]
fn gives_up_after_the_last_retry() {
    let mut state = RequestState::new();
    let delays: Vec<RequestAction> = (0..=MAX_RETRIES)
        .map(|_| state.step(RequestEvent::Failed { retryable: true }))
        .collect();
    assert_eq!(delays[0], RequestAction::Retry { delay_ms: 500 });
    assert_eq!(delays[4], RequestAction::Retry { delay_ms: 8000 });
    assert_eq!(delays[5], RequestAction::Fail);
    assert_eq!(retry_delay(0), 250);
    assert_eq!(retry_delay(9), 8000);
    let mut refused = RequestState::new();
    assert_eq!(refused.step(RequestEvent::Failed { retryable: false }), RequestAction::Fail);
    assert_eq!(refused.step(RequestEvent::Rejected), RequestAction::Fail);
}

#[test]
fn busy_servers_are_asked_again() {
    for status in [429, 500, 503, 599] {
        let mut state = RequestState::new();
        assert!(matches!(
            state.step(RequestEvent::Responded { status }),
            RequestAction::Retry { .. }
        ));
    }
    for status in [200, 400, 404, 600] {
        let mut state = RequestState::new();
        assert!(matches!(
            state.step(RequestEvent::Responded { status }),
            RequestAction::Read { announce: None }
        ));
    }
}

#[test]
fn frames_do_not_depend_on_chunks() {
    let body = b"event: x\ndata: {\"a\":1}\n\n: note\n\ndata: {\"b\":\ndata: 2}\n\n".to_vec();
    let mut whole = SseDecoder::new();
    let expected = whole.accept(&body, "fixture");
    assert_eq!(expected.values.len(), 2);
    assert_eq!(expected.error, None);
    for size in 1..body.len() {
        let mut decoder = SseDecoder::new();
        let mut values: Vec<Json> = Vec::new();
        for chunk in body.chunks(size) {
            let decoded = decoder.accept(&chunk.to_vec(), "fixture");
            assert_eq!(decoded.error, None);
            values.extend(decoded.values);
        }
        assert_eq!(values, expected.values, "chunks of {size}");
        assert_eq!(decoder.finish("fixture"), Ok(None));
    }
}

#[test]
fn frames_end_at_an_empty_line() {
    assert_eq!(frame_end(&b"data: 1\n\ndata".to_vec()), Some(7));
    assert_eq!(frame_end(&b"data: 1\r\n\r\n".to_vec()), Some(7));
    assert_eq!(frame_end(&b"data: 1\n".to_vec()), None);
}

#[test]
fn frames_that_are_no_json_are_refused() {
    assert!(decode_sse_frame(&b"data: {".to_vec(), "fixture").is_err());
    assert!(decode_sse_frame(&b"data: \xff".to_vec(), "fixture").is_err());
    assert_eq!(decode_sse_frame(&b"data: [DONE]".to_vec(), "fixture"), Ok(None));
    assert_eq!(decode_sse_frame(&b": note".to_vec(), "fixture"), Ok(None));
    assert_eq!(
        decode_sse_frame(&b"data: 12".to_vec(), "fixture"),
        Ok(Some(Json::Integer(12)))
    );
    let error = incomplete_stream("fixture");
    assert_eq!(error, ApiError::Incomplete("fixture".to_owned()));
    assert_eq!(error.message(), "fixture stream ended before completion");
}
