use atra::event::{
    AssistantMessagePhase, CompactionEvent, CompactionReplacement, Event, InstructionEvent,
    ModelRequestEvent, ModelRequestKind, OpaqueState, ThreadEventData, ToolResultEvent,
};
use atra::json::Json;
use atra::surface::{
    applicable_compaction, ordinal, recency_label, workspace_instructions_item, Item, Role,
    ToolOutputForgetting,
};

fn json(text: &str) -> Json {
    Json::parse(text).unwrap()
}

fn event(sequence: i64, data: ThreadEventData) -> Event {
    Event { sequence, data }
}

fn user(sequence: i64, content: &str) -> Event {
    event(sequence, ThreadEventData::UserMessage { content: content.to_owned() })
}

fn summary(sequence: i64, content: &str, through: i64) -> Event {
    event(
        sequence,
        ThreadEventData::Compaction(CompactionEvent {
            replacement: CompactionReplacement::Summary { content: content.to_owned() },
            through,
        }),
    )
}

fn message(role: Role, text: &str) -> Item {
    Item::Message { role, text: text.to_owned(), phase: None }
}

fn nothing_forgotten() -> ToolOutputForgetting {
    ToolOutputForgetting { forgotten: vec![], request_batches: vec![], current_batch: vec![] }
}

fn surface(events: &Vec<Event>, replay_key: Option<&str>) -> Vec<Item> {
    atra::surface::derive(events, &nothing_forgotten(), replay_key, ModelRequestKind::Response)
        .unwrap()
}

#[test]
fn compaction_shadows_only_the_history_prefix() {
    let events = vec![
        event(0, ThreadEventData::ThreadContext { content: "context".to_owned() }),
        user(1, "old"),
        user(2, "recent"),
        summary(3, "summary", 1),
        user(4, "new"),
    ];

    assert_eq!(
        surface(&events, None),
        vec![
            message(Role::Developer, "context"),
            message(Role::Developer, "Summary of the earlier conversation:\n\nsummary"),
            message(Role::User, "recent"),
            message(Role::User, "new"),
        ]
    );
}

#[test]
fn opaque_compaction_only_shadows_for_a_matching_replay_key() {
    let state = || OpaqueState {
        replay_key: "codex/model/compaction-v1".to_owned(),
        payload: json(r#"{"type":"compaction"}"#),
    };
    let events = vec![
        user(0, "old"),
        event(
            1,
            ThreadEventData::Compaction(CompactionEvent {
                replacement: CompactionReplacement::Opaque { state: state() },
                through: 0,
            }),
        ),
        user(2, "new"),
    ];

    assert_eq!(
        surface(&events, Some("codex/model/compaction-v1")),
        vec![Item::Opaque(state()), message(Role::User, "new")]
    );
    assert_eq!(
        surface(&events, Some("other/model/compaction-v1")),
        vec![message(Role::User, "old"), message(Role::User, "new")]
    );
}

#[test]
fn latest_compaction_replaces_an_earlier_summary_and_keeps_its_suffix() {
    let events = vec![
        user(0, "old"),
        user(1, "first retained"),
        user(2, "second retained"),
        summary(3, "first summary", 0),
        user(4, "new"),
        summary(5, "second summary", 1),
    ];

    assert_eq!(
        surface(&events, None),
        vec![
            message(Role::Developer, "Summary of the earlier conversation:\n\nsecond summary"),
            message(Role::User, "second retained"),
            message(Role::User, "new"),
        ]
    );
    assert_eq!(applicable_compaction(&events, None).unwrap().through, 1);
}

#[test]
fn compaction_restores_shadowed_workspace_state() {
    let events = vec![
        event(
            0,
            ThreadEventData::WorkspaceInstructions(InstructionEvent::Initial(
                "instructions".to_owned(),
            )),
        ),
        user(1, "old"),
        summary(2, "summary", 1),
    ];

    assert_eq!(
        surface(&events, None),
        vec![
            message(Role::Developer, "Summary of the earlier conversation:\n\nsummary"),
            workspace_instructions_item(&InstructionEvent::Initial("instructions".to_owned())),
        ]
    );
}

fn tool_result(sequence: i64, call_id: &str, result: String) -> Event {
    event(
        sequence,
        ThreadEventData::ToolResult(ToolResultEvent::Function {
            name: "tool".to_owned(),
            call_id: call_id.to_owned(),
            result: Json::Text(result),
            artifacts: vec![],
            masked_result: None,
        }),
    )
}

fn response_request(sequence: i64) -> Event {
    event(
        sequence,
        ThreadEventData::ModelRequest(ModelRequestEvent {
            kind: ModelRequestKind::Response,
            context_window: None,
        }),
    )
}

#[test]
fn forgetting_replaces_the_result_and_reconstructs_the_historical_hint() {
    let events = vec![
        tool_result(1, "small", "small".to_owned()),
        tool_result(2, "large", "token ".repeat(700)),
        response_request(3),
        event(
            4,
            ThreadEventData::AssistantMessage {
                content: "<forget_output call_id=\"large\">preserve this fact</forget_output>"
                    .to_owned(),
                phase: AssistantMessagePhase::Commentary,
            },
        ),
    ];
    let forgetting = ToolOutputForgetting {
        forgotten: vec![2],
        request_batches: vec![(3, vec![1, 2])],
        current_batch: vec![],
    };

    let items = atra::surface::derive(&events, &forgetting, None, ModelRequestKind::Response).unwrap();

    assert!(matches!(
        &items[1],
        Item::ToolResult { output, .. }
            if *output == Json::Text("[tool output forgotten]".to_owned())
    ));
    assert_eq!(
        items[2],
        message(Role::Developer, "Forgettable tool outputs:\n- Most recent: large")
    );
    assert!(matches!(
        &items[3],
        Item::Message { role: Role::Assistant, text, .. } if text.contains("preserve this fact")
    ));
}

#[test]
fn current_hint_counts_small_outputs_but_is_suppressed_for_compaction() {
    let events = vec![
        response_request(1),
        tool_result(2, "large", "token ".repeat(700)),
        tool_result(3, "small", "small".to_owned()),
    ];
    let forgetting = ToolOutputForgetting {
        forgotten: vec![],
        request_batches: vec![(1, vec![])],
        current_batch: vec![2, 3],
    };

    let response = atra::surface::derive(&events, &forgetting, None, ModelRequestKind::Response).unwrap();
    assert_eq!(
        response.last(),
        Some(&message(
            Role::Developer,
            "Forgettable tool outputs:\n- 2nd most recent: large"
        ))
    );

    let compaction = atra::surface::derive(&events, &forgetting, None, ModelRequestKind::Compaction).unwrap();
    assert!(!compaction.iter().any(|item| matches!(
        item,
        Item::Message { role: Role::Developer, text, .. }
            if text.starts_with("Forgettable tool outputs:")
    )));
    assert_eq!(&response[..compaction.len()], &compaction[..]);
}

#[test]
fn a_result_that_cannot_be_counted_is_not_weighed() {
    let events = vec![tool_result(1, "endless", " ".repeat(1_100_000))];
    let forgetting = ToolOutputForgetting {
        forgotten: vec![],
        request_batches: vec![],
        current_batch: vec![1],
    };
    let derived = |kind| atra::surface::derive(&events, &forgetting, None, kind);
    assert_eq!(derived(ModelRequestKind::Response), None);
    assert_eq!(derived(ModelRequestKind::Compaction).map(|items| items.len()), Some(1));
}

#[test]
fn numbers_in_words() {
    for (value, expected) in [
        (1, "1st"),
        (2, "2nd"),
        (3, "3rd"),
        (4, "4th"),
        (11, "11th"),
        (12, "12th"),
        (13, "13th"),
        (21, "21st"),
        (112, "112th"),
        (122, "122nd"),
    ] {
        assert_eq!(ordinal(value), expected);
    }
    assert_eq!(recency_label(1), "Most recent");
    assert_eq!(recency_label(2), "2nd most recent");
}
