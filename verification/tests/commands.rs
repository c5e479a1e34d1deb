use atra::agent::report::TurnPhase;
use atra::commands::{
    after_step, choose_model, complete_registered_turn, handle_command, new_thread_settings, panic_message, select_model,
    sequence_before, turn_outcome, Answer, Command, ModelChoice, PlanStep, Publication, Refusal,
    Step, TaskEvent, TaskStep, TurnEnd, TurnKind,
};
use atra::event::{AssistantMessagePhase, Event, ThreadEventData, ToolCallEvent, ToolResultEvent, TurnOutcome};
use atra::json::Json;
use atra::lifecycle::TurnLifecycle;
use atra::model::ModelStreamEvent;
use atra::projection::{
    Finalization, ItemData, ProjectionError, ThreadOperation, TurnProjection,
};
use atra::provider::Model;

#[test]
fn turn_panic_becomes_failed_terminal_outcome() {
    let outcome =
        turn_outcome(TurnEnd::Panicked { payload: Some("injected provider panic".to_owned()) });
    assert!(matches!(
        outcome,
        TurnOutcome::Failed { message } if message.contains("injected provider panic")
    ));
}

#[test]
fn panicking_agent_turn_publishes_failure_and_releases_concurrency_slot() {
    let mut lifecycle = TurnLifecycle::new();
    lifecycle.start_agent(2, 1).unwrap();
    let approval = lifecycle.register_approval(2).unwrap();
    for id in 3..10 {
        lifecycle.start_agent(id, 1).unwrap();
    }
    assert!(lifecycle.start_agent(10, 1).is_err());
    let step = complete_registered_turn(TaskEvent::Ended(TurnEnd::Panicked {
        payload: Some("injected session panic".to_owned()),
    }));
    let TaskStep::Publish(outcome) = step else {
        panic!("the outcome was not published");
    };
    assert!(matches!(
        outcome,
        TurnOutcome::Failed { message } if message.contains("injected session panic")
    ));
    for publication in [
        Publication::Done,
        Publication::Failed { message: "no store".to_owned() },
        Publication::Panicked { payload: None },
    ] {
        let step = complete_registered_turn(TaskEvent::Published(publication));
        assert!(matches!(step, TaskStep::Finish));
    }
    lifecycle.finish(2);
    assert!(lifecycle.start_agent(10, 1).is_ok());
    assert!(lifecycle.claim_approval(approval).is_err());
}

#[test]
fn function_call_finalization_uses_the_explicit_call_id() {
    let mut projection = TurnProjection::new();
    let first = projection.id();
    projection.tool_calls.push(("item-1".to_owned(), first));
    projection.tool_calls.push(("call-1".to_owned(), first));
    let second = projection.id();
    projection.tool_calls.push(("item-2".to_owned(), second));
    projection.tool_calls.push(("call-2".to_owned(), second));

    assert_eq!(projection.finish_tool_call(Some("call-2")), Some(second));
    assert_eq!(projection.finish_tool_call(Some("missing")), None);
    assert_eq!(projection.finish_tool_call(Some("item-1")), Some(first));
    assert!(projection.tool_calls.is_empty());
}

#[test]
fn reasoning_part_boundary_separates_streamed_summaries() {
    let mut projection = TurnProjection::new();
    assert!(projection.reasoning_part_added().is_none());

    let reasoning = projection.id();
    projection.reasoning = Some(reasoning);
    let operation = projection.reasoning_part_added().unwrap();

    assert!(matches!(
        operation,
        ThreadOperation::ActiveTextAppended { id, content }
            if id == reasoning && content == "\n"
    ));
}

#[test]
fn outcomes_of_turns() {
    assert_eq!(turn_outcome(TurnEnd::Completed), TurnOutcome::Completed);
    assert_eq!(turn_outcome(TurnEnd::Compacted), TurnOutcome::Completed);
    assert_eq!(turn_outcome(TurnEnd::Cancelled), TurnOutcome::Cancelled);
    assert_eq!(
        turn_outcome(TurnEnd::Failed { message: "x".to_owned() }),
        TurnOutcome::Failed { message: "x".to_owned() }
    );
    assert_eq!(
        turn_outcome(TurnEnd::Panicked { payload: None }),
        TurnOutcome::Failed { message: "turn task panicked: unknown panic payload".to_owned() }
    );
    assert_eq!(panic_message(Some("p".to_owned())), "p");
}

#[test]
fn updates_become_operations_on_items() {
    let mut projection = TurnProjection::new();
    let phase = AssistantMessagePhase::Commentary;
    let delta = |text: &str| ModelStreamEvent::AssistantDelta { content: text.to_owned(), phase };
    let first = projection.apply_update(delta("a")).unwrap();
    assert_eq!(
        first,
        vec![ThreadOperation::ActiveItemAdded {
            id: 1,
            data: ItemData::Assistant { content: "a".to_owned(), phase },
        }]
    );
    let second = projection.apply_update(delta("b")).unwrap();
    assert_eq!(
        second,
        vec![ThreadOperation::ActiveAssistantAppended { id: 1, content: "b".to_owned(), phase }]
    );
    let message = ThreadEventData::AssistantMessage { content: "ab".to_owned(), phase };
    assert_eq!(projection.project_final_event(&message), Finalization::Item { active_id: 1 });
    assert_eq!(projection.project_final_event(&message), Finalization::Append);
}

#[test]
fn a_retry_is_shown_until_something_comes() {
    let mut projection = TurnProjection::new();
    let retry = ModelStreamEvent::Retry { summary: "again".to_owned(), current: 1, max: 5 };
    assert_eq!(
        projection.apply_update(retry).unwrap(),
        vec![
            ThreadOperation::RetryPersisted { summary: "again".to_owned(), current: 1, max: 5 },
            ThreadOperation::RetryScheduled { summary: "again".to_owned(), current: 1, max: 5 },
        ]
    );
    assert!(projection.retrying);
    let operations = projection
        .apply_update(ModelStreamEvent::ReasoningSummaryDelta("why".to_owned()))
        .unwrap();
    assert_eq!(operations[0], ThreadOperation::PhaseChanged { phase: TurnPhase::Running });
    assert_eq!(operations.len(), 2);
    assert!(!projection.retrying);
}

#[test]
fn tool_calls_are_followed_by_item_and_by_call() {
    let mut projection = TurnProjection::new();
    let early = ModelStreamEvent::ToolCallDelta {
        item_id: "item".to_owned(),
        delta: "{".to_owned(),
    };
    assert_eq!(projection.apply_update(early), Err(ProjectionError::DeltaBeforeStart));
    let start = ModelStreamEvent::ToolCallStarted {
        item_id: "item".to_owned(),
        call_id: Some("call".to_owned()),
        name: "lookup".to_owned(),
    };
    assert_eq!(projection.apply_update(start).unwrap().len(), 1);
    let delta = ModelStreamEvent::ToolCallDelta {
        item_id: "item".to_owned(),
        delta: "{".to_owned(),
    };
    assert_eq!(
        projection.apply_update(delta).unwrap(),
        vec![ThreadOperation::ActiveTextAppended { id: 1, content: "{".to_owned() }]
    );
    let call = ThreadEventData::ToolCall(ToolCallEvent::Function {
        name: "lookup".to_owned(),
        arguments: Json::Null,
        call_id: "call".to_owned(),
    });
    assert_eq!(projection.project_final_event(&call), Finalization::Item { active_id: 1 });
    assert!(projection.tool_calls.is_empty());
}

#[test]
fn runner_operations_end_with_the_result_of_their_call() {
    let mut projection = TurnProjection::new();
    let early = ModelStreamEvent::RunnerOperationOutput {
        call_id: "call".to_owned(),
        operation_index: 0,
        content: "x".to_owned(),
        omitted_bytes: 0,
        timer: Json::Null,
    };
    let error = projection.apply_update(early).unwrap_err();
    assert_eq!(error.message(), "Runner output arrived before the operation started");
    for operation_index in [0, 1] {
        let update = ModelStreamEvent::RunnerOperationUpdate {
            call_id: "call".to_owned(),
            operation_index,
            runner: "host".to_owned(),
            update: Json::Null,
        };
        assert_eq!(projection.apply_update(update).unwrap().len(), 1);
    }
    let result = ThreadEventData::ToolResult(ToolResultEvent::Function {
        call_id: "call".to_owned(),
        name: "command".to_owned(),
        result: Json::Null,
        artifacts: vec![],
        masked_result: None,
    });
    assert_eq!(
        projection.project_final_event(&result),
        Finalization::ToolResult { runner_ids: vec![1, 2] }
    );
}

#[test]
fn commands_that_are_refused() {
    let refusal = |command: Command| {
        let (steps, _) = handle_command(&command);
        match steps.last() {
            Some(Step::Refuse(refusal)) => refusal.message(),
            other => panic!("{other:?}"),
        }
    };
    assert_eq!(
        refusal(Command::Shutdown),
        "shutdown must be handled by the connection owner"
    );
    assert_eq!(
        refusal(Command::ThreadRename { thread_id: 1, display_name: " ".to_owned() }),
        "thread display name must not be empty"
    );
    let set = |model: &str, effort: &str| Command::ThreadSetModel {
        thread_id: 1,
        provider: "codex".to_owned(),
        model: model.to_owned(),
        reasoning_effort: effort.to_owned(),
    };
    assert_eq!(refusal(set("\t", "high")), "thread model must not be empty");
    assert_eq!(refusal(set("m", "")), "reasoning effort must not be empty");
    assert_eq!(Refusal::EmptyEffort.message(), "reasoning effort must not be empty");
}

#[test]
fn a_message_starts_a_turn() {
    let command =
        Command::ThreadSend { thread_id: 1, message: "go".to_owned(), allow_questions: true };
    let message = "go".to_owned();
    let (steps, answer) = handle_command(&command);
    assert_eq!(
        steps,
        vec![
            Step::EnsureRunning,
            Step::Lock,
            Step::MaterializeLocked { thread_id: 1 },
            Step::RegisterTurn { thread_id: 1 },
            Step::Unlock,
            Step::ShowTurn { thread_id: 1, phase: TurnPhase::Running },
            Step::LaunchTurn {
                thread_id: 1,
                kind: TurnKind::Send { message: &message, allow_questions: true },
            },
        ]
    );
    assert_eq!(answer, Answer::Accepted);
    assert_eq!(after_step(&steps, 0, false), PlanStep::Take { number: 1 });
    assert_eq!(after_step(&steps, 3, true), PlanStep::Fail);
    assert_eq!(after_step(&steps, 6, false), PlanStep::Answer);
    let command = Command::ThreadCreate { display_name: None };
    let (steps, answer) = handle_command(&command);
    assert_eq!(answer, Answer::ThreadCreated);
    assert_eq!(
        steps[2],
        Step::CreateThread { display_name: &None, model: "gpt-5.6-sol", effort: "medium" },
    );
}

#[test]
fn models_are_selected_with_their_efforts() {
    let model = Model {
        provider: "codex".to_owned(),
        id: "m".to_owned(),
        display_name: "M".to_owned(),
        description: None,
        default_reasoning_effort: "low".to_owned(),
        supported_reasoning_efforts: vec!["low".to_owned()],
        context_window: None,
        auto_compact_token_limit: None,
        tool_bindings: vec![],
    };
    let models = vec![model];
    assert!(select_model(&models, "codex", "m", "low", true).is_ok());
    let effort = select_model(&models, "codex", "m", "high", true).unwrap_err();
    assert_eq!(
        effort.message(),
        "reasoning effort high is not supported by model codex/m"
    );
    let unknown = select_model(&models, "codex", "n", "low", true).unwrap_err();
    assert_eq!(unknown.message(), "unknown model codex/n");
    let set = |provider: &str, model: &str, effort: &str| Command::ThreadSetModel {
        thread_id: 7,
        provider: provider.to_owned(),
        model: model.to_owned(),
        reasoning_effort: effort.to_owned(),
    };
    let refused = |provider: &str, model: &str, effort: &str| {
        choose_model(&set(provider, model, effort), &models).unwrap().unwrap_err().message()
    };
    let command = set("codex", "m", "low");
    let choice = choose_model(&command, &models).unwrap().unwrap();
    assert_eq!(choice.thread_id, 7);
    assert_eq!(
        (choice.provider.as_str(), choice.model.as_str(), choice.effort.as_str()),
        ("codex", "m", "low"),
    );
    let (steps, _) = handle_command(&command);
    let ModelChoice { thread_id, provider, model, effort } = choice;
    assert_eq!(steps[3], Step::SelectModel { provider, model, effort });
    assert_eq!(steps[6], Step::SetModel { thread_id, provider, model, effort });
    assert_eq!(refused("ollama", "m", "low"), "unknown model ollama/m");
    assert_eq!(
        refused("codex", "m", "high"),
        "reasoning effort high is not supported by model codex/m",
    );
    assert_eq!(refused("codex", " ", "low"), "thread model must not be empty");
    assert_eq!(refused("codex", "m", ""), "reasoning effort must not be empty");
    assert!(choose_model(&Command::SkillList, &models).is_none());
    assert_eq!(new_thread_settings(), ("gpt-5.6-sol", "medium"));
}

#[test]
fn the_sequence_before_a_turn() {
    assert_eq!(sequence_before(&vec![]), -1);
    let event = Event { sequence: 7, data: ThreadEventData::UserMessage { content: "x".to_owned() } };
    assert_eq!(sequence_before(&vec![event]), 7);
}
