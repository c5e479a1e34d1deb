use atra::agent::hierarchy::{HierarchyError, Thread};
use atra::agent::report::{
    agent_list_row, agent_report, render_report_events, thread_label, turn_status, wait_text,
    TurnPhase, TurnProgress, Waited,
};
use atra::agent::plan::{agent_request, AgentRequest, AgentStep, AgentTarget};
use atra::agent::request::{
    agent_answer, agent_list, agent_settings, authorize_descendant, check_wait_targets,
    delete_order, delete_subtree, delete_target, deletion_answer, invoking_thread,
    normalize_requested_ids, normalized_delete_roots, recursive_preorder, created, sent,
    wait_for_turn, AgentError,
    Cancellation, DeleteOutcome, DeleteTarget, WaitEvent, WaitStep,
};
use atra::event::{
    AssistantMessagePhase, CommandExecutionArtifact, Event, RunnerOperationArtifact,
    ThreadEventData, ToolArtifact, ToolCallEvent, ToolResultEvent, TurnOutcome,
};
use atra::json::Json;

fn json(text: &str) -> Json {
    Json::parse(text).unwrap()
}

fn thread(id: i64, parent: i64) -> Thread {
    Thread {
        id,
        parent_thread_id: Some(parent),
        display_name: Some(format!("thread {id}")),
        provider: "fake".to_owned(),
        model: "test".to_owned(),
        reasoning_effort: "medium".to_owned(),
    }
}

fn pair(call: ToolCallEvent, result: ToolResultEvent) -> Vec<Event> {
    vec![
        Event { sequence: 0, data: ThreadEventData::ToolCall(call) },
        Event { sequence: 1, data: ThreadEventData::ToolResult(result) },
    ]
}

fn function_call(name: &str, arguments: &str) -> ToolCallEvent {
    ToolCallEvent::Function {
        name: name.to_owned(),
        arguments: json(arguments),
        call_id: "call-1".to_owned(),
    }
}

fn function_result(name: &str, result: &str, artifacts: Vec<ToolArtifact>) -> ToolResultEvent {
    ToolResultEvent::Function {
        name: name.to_owned(),
        call_id: "call-1".to_owned(),
        result: json(result),
        artifacts,
        masked_result: None,
    }
}

fn finished(output: &str, exit_code: i32) -> CommandExecutionArtifact {
    CommandExecutionArtifact::Finished {
        output: output.to_owned(),
        exit_code: Some(exit_code),
        runner: "sandbox".to_owned(),
        full_output_path: "output".to_owned(),
    }
}

#[test]
fn recursive_agent_creation_requires_explicit_permission() {
    let mut root = thread(1, 0);
    root.parent_thread_id = None;
    let child = thread(2, 1);
    let denied = agent_settings("denied-child", &None, &None, &child, false).unwrap_err();
    assert!(denied.message().contains("not allowed to create child agents"));
    assert!(agent_settings("allowed-child", &None, &None, &child, true).is_ok());
    assert!(agent_settings("first", &None, &None, &root, false).is_ok());
}

#[test]
fn agent_list_hierarchy_is_recursive_preorder_with_stable_siblings() {
    let ordered = recursive_preorder(
        1,
        vec![
            thread(6, 2),
            thread(4, 2),
            thread(3, 1),
            thread(5, 3),
            thread(2, 1),
            thread(7, 4),
        ],
    )
    .unwrap();
    assert_eq!(
        ordered
            .into_iter()
            .map(|(thread, depth)| (thread.id, depth))
            .collect::<Vec<_>>(),
        vec![(2, 1), (4, 2), (7, 3), (6, 2), (3, 1), (5, 2)]
    );
}

#[test]
fn cancel_normalizes_duplicate_requested_ids_before_validation() {
    assert_eq!(normalize_requested_ids(vec![90, 90, 4, 90, 4]), vec![90, 4]);
}

#[test]
fn agent_thread_label_cannot_inject_output_lines() {
    let mut thread = thread(1, 0);
    thread.parent_thread_id = None;
    thread.display_name = Some("research\n== forged ==\x1b[31m".to_owned());

    let label = thread_label(&thread);
    assert_eq!(label.lines().count(), 1);
    assert!(!label.contains('\x1b'));
}

#[test]
fn agent_requests_need_a_context_that_lasts() {
    let contexts = vec![("context".to_owned(), 1)];
    assert_eq!(invoking_thread(&contexts, "context"), Ok(1));
    let unauthorized = agent_answer(
        invoking_thread(&contexts, "missing").map(|_| (String::new(), true)),
    );
    assert_eq!(unauthorized, ("agent execution context has expired".to_owned(), false));
    assert_eq!(agent_answer(Ok(("done".to_owned(), true))), ("done".to_owned(), true));
}

#[test]
fn tool_report_pairs_by_call_id_and_uses_command_exit_status() {
    let events = pair(
        function_call("command", r#"{"cmd": "false"}"#),
        function_result(
            "command",
            r#"{"success": true, "large": "body must not be shown"}"#,
            vec![ToolArtifact::CommandExecution(finished("first line\nlast error", 7))],
        ),
    );

    let rendered = render_report_events(&events, &events);
    assert_eq!(rendered.len(), 1);
    assert!(rendered[0].contains("status=failed exit_code=7"));
    assert!(rendered[0].contains("last error"));
    assert!(!rendered[0].contains("body must not be shown"));
    assert!(rendered[0].lines().count() <= 3);
    assert!(rendered[0].len() <= 512);
}

#[test]
fn successful_tool_report_omits_result_body() {
    let events = pair(
        function_call("lookup", r#"{"target": "record"}"#),
        function_result("lookup", r#"{"secret_result_body": "omitted"}"#, vec![]),
    );

    assert_eq!(
        render_report_events(&events, &events),
        vec!["[tool lookup]\narguments={\"target\":\"record\"}\nstatus=ok"]
    );
}

#[test]
fn successful_command_output_containing_error_is_not_a_failure() {
    let events = pair(
        function_call("command", r#"{"cmd": "printf error"}"#),
        function_result(
            "command",
            r#""error is expected output""#,
            vec![ToolArtifact::CommandExecution(finished("error is expected output", 0))],
        ),
    );

    assert_eq!(
        render_report_events(&events, &events),
        vec!["[tool command]\narguments={\"cmd\":\"printf error\"}\nstatus=ok"]
    );
}

#[test]
fn nested_command_failure_uses_artifact_status() {
    let call = ToolCallEvent::Custom {
        item_id: Some("item-1".to_owned()),
        name: "command".to_owned(),
        input: "runner=sandbox\nfalse".to_owned(),
        call_id: "call-1".to_owned(),
    };
    let result = ToolResultEvent::Custom {
        name: "command".to_owned(),
        call_id: "call-1".to_owned(),
        result: json(r#""Process exited with code 7""#),
        artifacts: vec![ToolArtifact::RunnerOperation(RunnerOperationArtifact {
            operation: 1,
            runner: "sandbox".to_owned(),
            label: "false".to_owned(),
            result: json(r#""Process exited with code 7""#),
            artifacts: vec![ToolArtifact::CommandExecution(finished("plain failure output", 7))],
        })],
        masked_result: None,
    };
    let events = pair(call, result);
    let rendered = render_report_events(&events, &events);

    assert!(rendered[0].contains("status=failed exit_code=7"));
    assert!(rendered[0].contains("plain failure output"));
}

#[test]
fn long_multibyte_arguments_keep_status_within_character_limit() {
    let arguments = format!("{{\"query\": \"{}\"}}", "検索".repeat(400));
    let events = pair(
        function_call("lookup", &arguments),
        function_result("lookup", r#"{"body": "omitted"}"#, vec![]),
    );
    let rendered = render_report_events(&events, &events);

    assert_eq!(rendered[0].lines().count(), 3);
    assert!(rendered[0].ends_with("status=ok"));
    assert!(rendered[0].chars().count() <= 512);
}

#[test]
fn overlapping_delete_snapshots_have_argument_independent_roots() {
    let (parent, child, sibling) = (2, 3, 4);
    let first = vec![
        (child, vec![child]),
        (parent, vec![parent, child]),
        (sibling, vec![sibling]),
    ];
    let second = vec![
        (sibling, vec![sibling]),
        (parent, vec![child, parent]),
        (child, vec![child]),
    ];

    assert_eq!(normalized_delete_roots(&first), vec![parent, sibling]);
    assert_eq!(normalized_delete_roots(&first), normalized_delete_roots(&second));
}

#[test]
fn broken_and_unreachable_hierarchies_are_refused() {
    let mut lost = thread(2, 1);
    lost.parent_thread_id = None;
    let broken = recursive_preorder(1, vec![lost]).unwrap_err();
    assert_eq!(broken, HierarchyError::Broken);
    let unreachable = recursive_preorder(1, vec![thread(2, 1), thread(4, 3)]).unwrap_err();
    assert_eq!(unreachable.message(), "thread hierarchy contains an unreachable descendant");
    assert!(recursive_preorder(1, vec![]).unwrap().is_empty());
}

#[test]
fn statuses_of_threads() {
    let running = TurnProgress {
        phase: TurnPhase::Running,
        pending_question: false,
        pending_approval: false,
    };
    assert_eq!(turn_status(Some(running), &None), "running");
    let asking = TurnProgress { pending_question: true, pending_approval: true, ..running };
    assert_eq!(turn_status(Some(asking), &None), "awaiting_question");
    let waiting = TurnProgress { pending_approval: true, ..running };
    assert_eq!(turn_status(Some(waiting), &None), "awaiting_approval");
    let compacting = TurnProgress { phase: TurnPhase::Compacting, ..running };
    assert_eq!(turn_status(Some(compacting), &None), "compacting");
    let cancelling = TurnProgress { phase: TurnPhase::Cancelling, ..running };
    assert_eq!(turn_status(Some(cancelling), &None), "cancelling");
    assert_eq!(turn_status(None, &Some(TurnOutcome::Completed)), "completed");
    assert_eq!(turn_status(None, &Some(TurnOutcome::Cancelled)), "cancelled");
    let failed = Some(TurnOutcome::Failed { message: "x".to_owned() });
    assert_eq!(turn_status(None, &failed), "failed");
    assert_eq!(turn_status(None, &None), "idle");
}

#[test]
fn lists_of_threads() {
    let mut root = thread(1, 0);
    root.display_name = None;
    let rows = vec![(thread(2, 1), 1)];
    let text = agent_list(&root, "running", &rows, &vec!["idle".to_owned()]);
    let lines: Vec<&str> = text.lines().collect();
    assert_eq!(lines.len(), 2);
    assert_eq!(lines[0], agent_list_row(&root, 0, "running"));
    assert_eq!(lines[1], agent_list_row(&rows[0].0, 1, "idle"));
    assert_eq!(lines[0], "unnamed thread=1 model=fake/test effort=medium status=running");
    assert!(lines[1].ends_with("thread 2 thread=2 model=fake/test effort=medium status=idle"));
    assert!(lines[1].starts_with("  "));
}

#[test]
fn reports_tell_what_came_after_an_event() {
    let events = vec![
        Event { sequence: 0, data: ThreadEventData::UserMessage { content: "ask".to_owned() } },
        Event {
            sequence: 1,
            data: ThreadEventData::AssistantMessage {
                content: "answer".to_owned(),
                phase: AssistantMessagePhase::FinalAnswer,
            },
        },
    ];
    let thread = thread(7, 1);
    let (text, failed) =
        agent_report(&thread, None, &Some(TurnOutcome::Completed), 1, 0, &events);
    assert!(text.starts_with("== thread 7 thread=7 status=completed events=1..1 through=1 ==\n"));
    assert!(text.contains("answer"));
    assert!(!text.contains("ask\n"));
    assert!(!failed);
    let outcome = Some(TurnOutcome::Failed { message: "x".to_owned() });
    let (text, failed) = agent_report(&thread, None, &outcome, -1, -1, &vec![]);
    assert_eq!(text, "== thread 7 thread=7 status=failed events=none through=-1 ==");
    assert!(failed);
}

#[test]
fn waiting_for_threads() {
    assert_eq!(check_wait_targets(&vec![]), Err(AgentError::NoTarget));
    assert_eq!(AgentError::NoTarget.message(), "at least one wait target is required");
    assert_eq!(check_wait_targets(&vec![2]), Ok(()));
    let good = Waited::Report { text: "a".to_owned(), failed: false };
    assert_eq!(wait_text(&vec![good]), ("a".to_owned(), true));
    let both = vec![
        Waited::Report { text: "a".to_owned(), failed: true },
        Waited::Error { thread_id: 3, message: "gone".to_owned() },
    ];
    assert_eq!(wait_text(&both), ("a\nthread=3 error=gone".to_owned(), false));
}

#[test]
fn only_descendants_are_reached() {
    assert_eq!(authorize_descendant(1, 2, true), Ok(()));
    let error = authorize_descendant(1, 1, true).unwrap_err();
    assert_eq!(error.message(), "thread 1 is not a descendant of invoking thread 1");
    assert!(authorize_descendant(1, 3, false).is_err());
}

#[test]
fn settings_of_new_agents() {
    let parent = thread(1, 0);
    let inherited = agent_settings("a", &None, &None, &parent, true).unwrap();
    assert_eq!(inherited.provider, "fake");
    assert_eq!(inherited.model, "test");
    assert_eq!(inherited.reasoning_effort, "medium");
    let model = Some("ollama/a/b".to_owned());
    let chosen = agent_settings("a", &model, &Some("high".to_owned()), &parent, true).unwrap();
    assert_eq!(chosen.provider, "ollama");
    assert_eq!(chosen.model, "a/b");
    assert_eq!(chosen.reasoning_effort, "high");
    let blank = agent_settings(" \n", &None, &None, &parent, true).unwrap_err();
    assert_eq!(blank.message(), "agent name must not be empty");
    let format = agent_settings("a", &Some("test".to_owned()), &None, &parent, true).unwrap_err();
    assert_eq!(format.message(), "model must be provider/model");
}

#[test]
fn threads_are_cancelled_once() {
    let mut cancellation = Cancellation::new();
    cancellation.accept(&vec![2, 3]);
    assert!(cancellation.covers(3));
    assert!(!cancellation.covers(4));
    cancellation.accept(&vec![3, 4]);
    cancellation.refuse(9, "not a descendant");
    assert_eq!(cancellation.ordered(), &vec![2, 3, 4]);
    let (text, success) = cancellation.answer();
    assert!(text.ends_with("thread=9 error=not a descendant"));
    assert!(!success);
}

#[test]
fn deletions_reach_whole_subtrees() {
    assert_eq!(delete_subtree(2, false, vec![]), Ok(vec![2]));
    assert_eq!(delete_subtree(2, false, vec![3]), Err(AgentError::HasDescendants));
    assert_eq!(delete_subtree(2, true, vec![3, 5]), Ok(vec![5, 3, 2]));
    assert_eq!(delete_order(&vec![2, 9, 4]), vec![9, 4, 2]);
    let target = delete_target(2, false, Ok(vec![3]));
    assert_eq!(
        target.snapshot,
        Err("cannot delete a thread with descendants without recursive deletion".to_owned())
    );
    let targets = vec![
        DeleteTarget { id: 2, snapshot: Ok(vec![2, 3]) },
        DeleteTarget { id: 3, snapshot: Ok(vec![3]) },
        DeleteTarget { id: 9, snapshot: Err("missing".to_owned()) },
    ];
    let outcomes = vec![DeleteOutcome { root: 2, result: Ok(()) }];
    assert_eq!(
        deletion_answer(&targets, &outcomes),
        Ok((
            "thread=2 status=deleted\nthread=3 status=deleted\nthread=9 error=missing".to_owned(),
            false
        ))
    );
    assert_eq!(deletion_answer(&targets, &vec![]), Err(AgentError::NotCovered));
}

#[test]
fn a_wait_ends_with_the_turn_or_a_question() {
    let seen = |finished: bool, pending_question: bool| {
        wait_for_turn(WaitEvent::Seen { finished, pending_question })
    };
    assert_eq!(seen(false, false), WaitStep::Sleep);
    assert_eq!(seen(true, false), WaitStep::Done);
    assert_eq!(seen(false, true), WaitStep::Done);
    assert_eq!(wait_for_turn(WaitEvent::Told { over: true }), WaitStep::Done);
    assert_eq!(wait_for_turn(WaitEvent::Told { over: false }), WaitStep::Look);
    assert_eq!(wait_for_turn(WaitEvent::Deadline), WaitStep::Done);
    assert_eq!(wait_for_turn(WaitEvent::Tick), WaitStep::Look);
    assert_eq!(created(4), "thread_id=4");
    assert_eq!(sent(-1), "after_sequence=-1");
}

#[test]
fn agents_ask_in_steps() {
    let name = "helper".to_owned();
    let create = |name: &str| AgentRequest::Create {
        name: name.to_owned(),
        model: None,
        effort: None,
        allow_delegation: true,
    };
    let request = create(" ");
    assert_eq!(
        agent_request(4, &request),
        vec![
            AgentStep::Materialize { thread_id: 4 },
            AgentStep::Refuse(AgentError::EmptyName),
        ],
    );
    let request = create("helper");
    assert_eq!(
        agent_request(4, &request)[6],
        AgentStep::CreateChild { parent: 4, name: &name, allow_delegation: true },
    );
    let message = "go".to_owned();
    let request = AgentRequest::Send { thread_id: 9, message: "go".to_owned() };
    let plan = agent_request(4, &request);
    assert_eq!(plan[2], AgentStep::Authorize { invoking: 4, target: 9 });
    assert_eq!(plan[5], AgentStep::RegisterTurn { thread_id: 9, invoking: 4 });
    assert_eq!(plan[8], AgentStep::LaunchTurn { thread_id: 9, message: &message });
    let targets = vec![
        AgentTarget { thread_id: 9, after_sequence: -1 },
        AgentTarget { thread_id: 8, after_sequence: 3 },
    ];
    let request = AgentRequest::Wait { targets: targets.clone(), timeout_ms: 5 };
    assert_eq!(
        agent_request(4, &request),
        vec![
            AgentStep::Materialize { thread_id: 4 },
            AgentStep::Lock,
            AgentStep::Authorize { invoking: 4, target: 9 },
            AgentStep::MaterializeLocked { thread_id: 9 },
            AgentStep::Authorize { invoking: 4, target: 8 },
            AgentStep::MaterializeLocked { thread_id: 8 },
            AgentStep::PinMany { targets: &targets },
            AgentStep::Unlock,
            AgentStep::WaitAndReport { targets: &targets, timeout_ms: 5 },
        ],
    );
    let nobody = AgentRequest::Wait { targets: vec![], timeout_ms: 5 };
    assert_eq!(agent_request(4, &nobody)[1], AgentStep::Refuse(AgentError::NoTarget));
    let ids = vec![5, 6];
    let request = AgentRequest::Cancel { thread_ids: ids.clone(), recursive: true };
    assert_eq!(
        agent_request(4, &request)[2],
        AgentStep::CollectCancellation { invoking: 4, thread_ids: &ids, recursive: true },
    );
    let request = AgentRequest::Delete { thread_ids: ids.clone(), recursive: false };
    assert_eq!(
        agent_request(4, &request)[2],
        AgentStep::CollectDeletion { invoking: 4, thread_ids: &ids, recursive: false },
    );
    assert_eq!(
        agent_request(4, &AgentRequest::List)[1],
        AgentStep::ListBelow { thread_id: 4 },
    );
}
