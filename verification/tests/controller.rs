use atra::commands::{Command, ProcessLocator};
use atra::connection::{
    handle_state_request, message_line, serve_subscription, unexpected_message, ConnectionStep,
    ServeAction, ServeEvent, StateRequest, Subscribe,
};
use atra::controller::{
    checkpoint_time_ms, current_runners, current_skills, inspection_or_unavailable,
    keeps_watching, materialize_process, needs_models, operation_ended, protocol_events, provider_lifecycle,
    register_managed_process, runner_event, skill_event, start_managed_process, unix_time_ms,
    workspace_instructions,
    LoginStatus, ProcessCheck, ProcessInspection, ProcessLoad, ProcessStatus, ProviderLifecycle,
    RegisterCheck, RegisterStep, StartCheck, StartStep, WorkspaceInstructions,
};
use atra::event::{
    ApprovalPolicy, Event, FrozenBoundaryEvent, InstructionEvent, Runner, RunnersEvent,
    ThreadEventData, ToolResultEvent,
};
use atra::json::Json;
use atra::provider::fake;
use atra::request::{ControllerRequest, Request, TurnRequest, UnaryRequest};

fn event(sequence: i64, data: ThreadEventData) -> Event {
    Event { sequence, data }
}

#[test]
fn the_latest_instructions_count() {
    let mut events = vec![event(
        1,
        ThreadEventData::WorkspaceInstructions(InstructionEvent::Initial("one".to_owned())),
    )];
    assert_eq!(workspace_instructions(&Vec::new()), WorkspaceInstructions::Untracked);
    assert_eq!(
        workspace_instructions(&events),
        WorkspaceInstructions::Present("one".to_owned()),
    );
    events.push(event(
        2,
        ThreadEventData::WorkspaceInstructions(InstructionEvent::Replacement("two".to_owned())),
    ));
    events.push(event(3, ThreadEventData::UserMessage { content: "hi".to_owned() }));
    assert_eq!(
        workspace_instructions(&events),
        WorkspaceInstructions::Present("two".to_owned()),
    );
    events.push(event(
        4,
        ThreadEventData::WorkspaceInstructions(InstructionEvent::Removal),
    ));
    assert_eq!(workspace_instructions(&events), WorkspaceInstructions::Removed);
    assert_eq!(current_skills(&events), WorkspaceInstructions::Untracked);
}

#[test]
fn a_new_history_starts_with_what_is_known() {
    let runner = |name: &str| Runner {
        name: name.to_owned(),
        description: "local".to_owned(),
        approval: ApprovalPolicy::Allow,
    };
    let events = vec![
        event(1, ThreadEventData::Skills(InstructionEvent::Initial("old".to_owned()))),
        event(2, ThreadEventData::Skills(InstructionEvent::Replacement("new".to_owned()))),
        event(3, ThreadEventData::Runners(RunnersEvent::Initial(vec![runner("one")]))),
        event(4, ThreadEventData::Runners(RunnersEvent::Replacement(vec![runner("two")]))),
    ];
    assert!(matches!(
        skill_event(&events),
        Some(InstructionEvent::Initial(text)) if text == "new"
    ));
    assert_eq!(current_runners(&events).unwrap()[0].name, "two");
    assert!(matches!(
        runner_event(&events),
        Some(RunnersEvent::Initial(runners)) if runners.len() == 1 && runners[0].name == "two"
    ));
    assert!(runner_event(&Vec::new()).is_none());
    assert!(skill_event(&Vec::new()).is_none());
}

fn result(sequence: i64) -> Event {
    event(
        sequence,
        ThreadEventData::ToolResult(ToolResultEvent::Function {
            call_id: "call".to_owned(),
            name: "exec_command".to_owned(),
            result: Json::text("long"),
            artifacts: Vec::new(),
            masked_result: Some(Json::text("short")),
        }),
    )
}

#[test]
fn only_masked_results_show_what_stands_in() {
    let shown = protocol_events(vec![
        result(1),
        result(2),
        event(
            3,
            ThreadEventData::FrozenBoundary(FrozenBoundaryEvent {
                through_sequence: 2,
                masked_sequences: vec![1],
            }),
        ),
    ]);
    assert_eq!(shown.len(), 3);
    let masked = |event: &Event| match &event.data {
        ThreadEventData::ToolResult(ToolResultEvent::Function { masked_result, .. }) => {
            masked_result.is_some()
        }
        _ => panic!("{event:?}"),
    };
    assert!(masked(&shown[0]));
    assert!(!masked(&shown[1]));
    assert_eq!(shown[2].sequence, 3);
}

#[test]
fn times() {
    assert_eq!(unix_time_ms(1_700_000_000_000), 1_700_000_000_000);
    assert_eq!(checkpoint_time_ms(1_700_000_000_000), 1_700_000_000_000);
}

#[test]
fn a_provider_is_usable_with_a_login_and_models() {
    let logged_in = || LoginStatus::LoggedIn { account: Some("a".to_owned()) };
    assert!(needs_models(&logged_in()));
    assert!(!needs_models(&LoginStatus::LoginRequired));
    let (state, models, limits) =
        provider_lifecycle(logged_in(), Ok(fake::models()), Some(Json::Null));
    assert_eq!(state, ProviderLifecycle::LoggedIn { account: Some("a".to_owned()) });
    assert_eq!(models.len(), 1);
    assert!(limits.is_some());
    let (state, models, limits) =
        provider_lifecycle(logged_in(), Err("offline".to_owned()), Some(Json::Null));
    assert_eq!(state, ProviderLifecycle::Failed { message: "offline".to_owned() });
    assert!(models.is_empty());
    assert!(limits.is_none());
    let (state, _, _) =
        provider_lifecycle(LoginStatus::LoginRequired, Ok(fake::models()), None);
    assert_eq!(state, ProviderLifecycle::LoginRequired);
    let (state, _, _) = provider_lifecycle(
        LoginStatus::Failed { message: "broken".to_owned() },
        Ok(fake::models()),
        None,
    );
    assert_eq!(state, ProviderLifecycle::Failed { message: "broken".to_owned() });
    let (state, models, _) = operation_ended(Err("refused".to_owned()));
    assert_eq!(state, ProviderLifecycle::Failed { message: "refused".to_owned() });
    assert!(models.is_empty());
}

#[test]
fn a_process_that_cannot_be_inspected() {
    let (shown, gone) = inspection_or_unavailable(Err("lost".to_owned()));
    assert_eq!(shown.status, ProcessStatus::Unavailable { message: "lost".to_owned() });
    assert_eq!(shown.output_tail, "");
    assert!(gone);
    let known = ProcessInspection {
        status: ProcessStatus::Running,
        output_tail: "x".to_owned(),
        omitted_bytes: 1,
    };
    let (shown, gone) = inspection_or_unavailable(Ok(known));
    assert_eq!(shown.output_tail, "x");
    assert!(!gone);
}

#[test]
fn a_process_is_looked_up_twice() {
    assert_eq!(materialize_process(ProcessCheck::Known { known: true }), ProcessLoad::Done);
    assert_eq!(
        materialize_process(ProcessCheck::Known { known: false }),
        ProcessLoad::FindRecord,
    );
    assert_eq!(
        materialize_process(ProcessCheck::Record { found: true }),
        ProcessLoad::InspectThenLock,
    );
    assert_eq!(
        materialize_process(ProcessCheck::KnownNow { known: false }),
        ProcessLoad::FindThread,
    );
    assert_eq!(
        materialize_process(ProcessCheck::Thread { found: true }),
        ProcessLoad::FindRecordAgain,
    );
    assert_eq!(
        materialize_process(ProcessCheck::RecordNow { found: true }),
        ProcessLoad::Insert,
    );
    for (check, load) in [
        (ProcessCheck::Record { found: false }, ProcessLoad::Missing),
        (ProcessCheck::Thread { found: false }, ProcessLoad::ThreadGone),
        (ProcessCheck::RecordNow { found: false }, ProcessLoad::Gone),
    ] {
        assert_eq!(materialize_process(check), load);
        assert!(load.error().is_some());
    }
    assert!(ProcessLoad::Insert.error().is_none());
}

#[test]
fn a_process_is_registered_for_a_thread_that_is_there() {
    assert_eq!(
        register_managed_process(RegisterCheck::Thread { found: false }),
        RegisterStep::ThreadGone,
    );
    assert_eq!(
        register_managed_process(RegisterCheck::Thread { found: true }),
        RegisterStep::InsertRecord,
    );
    assert_eq!(
        register_managed_process(RegisterCheck::Shown { shown: false }),
        RegisterStep::RemoveRecordAndFail,
    );
    assert_eq!(
        register_managed_process(RegisterCheck::Shown { shown: true }),
        RegisterStep::Watch,
    );
}

#[test]
fn a_process_that_cannot_be_registered_is_stopped() {
    let step = start_managed_process;
    assert_eq!(step(StartCheck::Started { started: false }), StartStep::Fail);
    assert_eq!(step(StartCheck::Started { started: true }), StartStep::Follow);
    assert_eq!(step(StartCheck::Followed { followed: true }), StartStep::Register);
    assert_eq!(step(StartCheck::Followed { followed: false }), StartStep::StopAndFail);
    assert_eq!(step(StartCheck::Registered { registered: false }), StartStep::StopAndFail);
    assert_eq!(step(StartCheck::Registered { registered: true }), StartStep::Done);
}

#[test]
fn a_shutdown_is_answered_before_it_happens() {
    let request = StateRequest::Command(Command::Shutdown);
    let (steps, failure) = handle_state_request(&request);
    assert_eq!(
        steps,
        vec![
            ConnectionStep::ShutDown,
            ConnectionStep::Respond,
            ConnectionStep::Close,
            ConnectionStep::SignalShutdown,
        ],
    );
    assert_eq!(failure, vec![ConnectionStep::RespondError, ConnectionStep::Close]);
    let request = StateRequest::Command(Command::SkillList);
    let (steps, failure) = handle_state_request(&request);
    assert_eq!(
        steps,
        vec![ConnectionStep::HandleCommand { command: &Command::SkillList }, ConnectionStep::Respond],
    );
    assert_eq!(failure, vec![ConnectionStep::RespondError]);
}

#[test]
fn one_who_follows_holds_nothing() {
    let process = || ProcessLocator {
        thread_id: 1,
        runner: "one".to_owned(),
        process_id: "p".to_owned(),
    };
    let followed = process();
    for (subscribe, first) in [
        (Subscribe::Thread { thread_id: 1 }, ConnectionStep::MaterializeThread { thread_id: 1 }),
        (
            Subscribe::Checkpoint { checkpoint_id: 2 },
            ConnectionStep::MaterializeCheckpoint { checkpoint_id: 2 },
        ),
        (
            Subscribe::Process { process: process() },
            ConnectionStep::MaterializeProcess { process: &followed },
        ),
    ] {
        let request = StateRequest::Subscribe(subscribe);
        let StateRequest::Subscribe(subscribe) = &request else {
            unreachable!();
        };
        let (steps, failure) = handle_state_request(&request);
        assert_eq!(
            steps,
            vec![
                first,
                ConnectionStep::Subscribe { subscribe },
                ConnectionStep::ReleaseState,
                ConnectionStep::Serve,
            ],
        );
        assert_eq!(failure, vec![ConnectionStep::EndWithError]);
    }
}

#[test]
fn one_who_follows_only_listens() {
    assert_eq!(serve_subscription(ServeEvent::Message), ServeAction::Send);
    assert_eq!(serve_subscription(ServeEvent::Ended), ServeAction::Stop);
    assert_eq!(serve_subscription(ServeEvent::PeerClosed), ServeAction::Stop);
    assert_eq!(serve_subscription(ServeEvent::PeerSent), ServeAction::RefuseAndStop);
    assert_eq!(serve_subscription(ServeEvent::NothingToRead), ServeAction::Wait);
    assert_eq!(serve_subscription(ServeEvent::ReadFailed), ServeAction::Fail);
    assert_eq!(unexpected_message(), "client sent a message after starting a subscription");
    assert_eq!(message_line("{}"), "{}\n");
}

#[test]
fn requests_are_told_apart_by_their_answer() {
    assert_eq!(Request::from(ControllerRequest::Shutdown), Request::Shutdown);
    assert_eq!(
        Request::from(ControllerRequest::ThreadSend { thread_id: 1, message: "hi".to_owned() }),
        Request::Turn(TurnRequest::Send { thread_id: 1, message: "hi".to_owned() }),
    );
    assert_eq!(
        Request::from(ControllerRequest::ThreadContinue { thread_id: 1 }),
        Request::Turn(TurnRequest::Continue { thread_id: 1 }),
    );
    assert_eq!(Request::from(ControllerRequest::Status), Request::Unary(UnaryRequest::Status));
    assert_eq!(
        Request::from(ControllerRequest::ThreadFork {
            thread_id: 1,
            checkpoint_id: Some(2),
            sequence: 3,
            display_name: None,
        }),
        Request::Unary(UnaryRequest::ThreadFork {
            thread_id: 1,
            checkpoint_id: Some(2),
            sequence: 3,
            display_name: None,
        }),
    );
    assert_eq!(
        Request::from(ControllerRequest::WaitProcess {
            runner: "one".to_owned(),
            process_handle: "h".to_owned(),
            timeout_ms: 5,
        }),
        Request::Unary(UnaryRequest::WaitProcess {
            runner: "one".to_owned(),
            process_handle: "h".to_owned(),
            timeout_ms: 5,
        }),
    );
}

#[test]
fn a_process_is_watched_until_it_ends() {
    assert!(keeps_watching(false, Ok(false)));
    assert!(!keeps_watching(false, Ok(true)));
    assert!(!keeps_watching(true, Ok(false)));
    assert!(!keeps_watching(false, Err(())));
}
