use std::path::PathBuf;

use atra::cli::display::{
    approval_lines, approval_to_show, checkpoint_row, display_turn_outcome, expect_accepted,
    is_settled, launch_progress, login_ended, logout_ended, model_row, process_result,
    provider_row, provider_status, runner_row, still_running, thread_row, RunnerLifecycle,
};
use atra::cli::plan::{needs_workspace, run, Invocation, Plan, ThreadInvocation};
use atra::client::{
    client, command_result, first_message, next_message, not_running, Client, CommandResponse,
    ConnectFailure, SubscriptionError, SubscriptionMessage, SubscriptionTerminal,
};
use atra::commands::{Answer, Command, HistoryTarget, ProcessLocator};
use atra::controller::{ProcessStatus, ProviderLifecycle};
use atra::event::{AssistantMessagePhase, Event, ThreadEventData, TurnOutcome};
use atra::json::Json;
use atra::provider::api_key_auth::CredentialSource;
use atra::provider::codex::fallback_model;
use atra::provider::fake;

#[test]
fn rows_of_lists() {
    assert_eq!(thread_row(3, &Some("name".to_owned())), "3\tname");
    assert_eq!(thread_row(3, &None), "3\t");
    assert_eq!(checkpoint_row(4, 1700, "Manual"), "4\t1700\tManual");
    assert_eq!(runner_row("one", "local", "Running"), "one\tlocal\tRunning");
    assert_eq!(
        provider_row("codex", "Browser", "LoginRequired", "none", 0),
        "codex\tauth=Browser\tstatus=LoginRequired\tsource=none\tmodels=0",
    );
}

#[test]
fn models_are_listed_with_what_they_can() {
    assert_eq!(
        model_row(&fallback_model()),
        "  gpt-5.6-sol\tgpt-5.6-sol\treasoning=[low,medium,high,xhigh]\ttools=[web_search=hosted]\tcontext=400000",
    );
    assert_eq!(
        model_row(&fake::models()[0]),
        "  gpt-5.6-sol\tgpt-5.6-sol\treasoning=[low,medium,high,xhigh]\ttools=[]\tcontext=unknown",
    );
}

#[test]
fn an_approval_is_shown_once() {
    assert_eq!(approval_to_show(Some(2), None), Some(2));
    assert_eq!(approval_to_show(Some(2), Some(2)), None);
    assert_eq!(approval_to_show(Some(3), Some(2)), Some(3));
    assert_eq!(approval_to_show(None, Some(2)), None);
    let arguments = Json::parse(r#"{"runner":"two"}"#).unwrap();
    assert_eq!(
        approval_lines(7, "exec_command", &arguments),
        vec![
            "7".to_owned(),
            "tool: exec_command".to_owned(),
            r#"arguments: {"runner":"two"}"#.to_owned(),
        ],
    );
}

fn said(sequence: i64, content: &str, phase: AssistantMessagePhase) -> Event {
    Event {
        sequence,
        data: ThreadEventData::AssistantMessage { content: content.to_owned(), phase },
    }
}

#[test]
fn a_turn_ends_with_its_final_answer() {
    let events = vec![
        said(1, "old", AssistantMessagePhase::FinalAnswer),
        said(2, "answer", AssistantMessagePhase::FinalAnswer),
        said(3, "aside", AssistantMessagePhase::Commentary),
    ];
    let shown = |outcome: &TurnOutcome, compacting: bool| {
        display_turn_outcome(&events, outcome, compacting)
    };
    assert_eq!(shown(&TurnOutcome::Completed, false), Ok(Some("answer".to_owned())));
    assert_eq!(shown(&TurnOutcome::Completed, true), Ok(Some("compacted".to_owned())));
    assert_eq!(shown(&TurnOutcome::Cancelled, false), Ok(Some("cancelled".to_owned())));
    assert_eq!(
        shown(&TurnOutcome::Failed { message: "broken".to_owned() }, false),
        Err("broken".to_owned()),
    );
    assert_eq!(display_turn_outcome(&Vec::new(), &TurnOutcome::Completed, false), Ok(None));
}

#[test]
fn how_a_process_ended() {
    assert!(process_result(&ProcessStatus::Running).is_ok());
    assert!(process_result(&ProcessStatus::Exited { exit_code: Some(0) }).is_ok());
    assert_eq!(
        process_result(&ProcessStatus::Exited { exit_code: Some(7) }).unwrap_err(),
        "command exited with status 7",
    );
    assert_eq!(
        process_result(&ProcessStatus::Exited { exit_code: None }).unwrap_err(),
        "command exited with a signal",
    );
    assert_eq!(
        process_result(&ProcessStatus::Unavailable { message: "gone".to_owned() }).unwrap_err(),
        "gone",
    );
    assert_eq!(still_running("p-1"), "process \"p-1\" is still running");
}

#[test]
fn a_command_is_expected_to_be_accepted() {
    assert!(expect_accepted(Answer::Accepted, "Accepted").is_ok());
    assert_eq!(
        expect_accepted(Answer::SkillsListed, "Skills([])").unwrap_err(),
        "unexpected command result: Skills([])",
    );
}

#[test]
fn the_state_of_a_provider() {
    let logged_in = |account: Option<&str>| ProviderLifecycle::LoggedIn {
        account: account.map(|text| text.to_owned()),
    };
    assert_eq!(
        provider_status("codex", &logged_in(Some("a@b")), Some(CredentialSource::File), ""),
        "codex: logged in as a@b (File)",
    );
    assert_eq!(
        provider_status("codex", &logged_in(None), Some(CredentialSource::Environment), ""),
        "codex: logged in (Environment)",
    );
    assert_eq!(
        provider_status("codex", &ProviderLifecycle::LoginRequired, None, ""),
        "codex: logged out",
    );
    assert_eq!(
        provider_status("codex", &ProviderLifecycle::Refreshing, None, "Refreshing"),
        "codex: Refreshing",
    );
    assert!(is_settled(&logged_in(None)));
    assert!(!is_settled(&ProviderLifecycle::LoggingIn));
    assert!(!is_settled(&ProviderLifecycle::LoggingOut));
    assert!(!is_settled(&ProviderLifecycle::Refreshing));
}

#[test]
fn ends_of_logins_and_logouts() {
    let logged_in = ProviderLifecycle::LoggedIn { account: None };
    assert_eq!(login_ended("codex", &logged_in, "").unwrap(), "logged in to codex");
    assert_eq!(
        login_ended("codex", &ProviderLifecycle::LoginRequired, "LoginRequired").unwrap_err(),
        "codex login ended in state LoginRequired",
    );
    assert_eq!(
        logout_ended("codex", &ProviderLifecycle::LoggedOut, "").unwrap(),
        "logged out of codex",
    );
    assert_eq!(
        logout_ended("codex", &logged_in, "").unwrap(),
        "codex: file credential removed; environment credential remains active",
    );
    assert_eq!(
        logout_ended("codex", &ProviderLifecycle::Failed { message: "x".to_owned() }, "Failed")
            .unwrap_err(),
        "codex logout ended in state Failed",
    );
}

#[test]
fn a_launch_is_waited_for() {
    assert!(launch_progress("one", &Some(RunnerLifecycle::Launching)).is_none());
    assert_eq!(launch_progress("one", &Some(RunnerLifecycle::Running)), Some(Ok(())));
    assert_eq!(
        launch_progress("one", &Some(RunnerLifecycle::Failed { message: "bad".to_owned() })),
        Some(Err("bad".to_owned())),
    );
    assert_eq!(
        launch_progress("one", &None),
        Some(Err("Runner one is not available".to_owned())),
    );
}

#[test]
fn a_turn_is_followed() {
    let plan = run(Invocation::Thread(ThreadInvocation::Send {
        thread: 3,
        message: "hi".to_owned(),
    }));
    assert_eq!(
        plan,
        Plan::Turn {
            thread_id: 3,
            command: Command::ThreadSend {
                thread_id: 3,
                message: "hi".to_owned(),
                allow_questions: false,
            },
            compacting: false,
        },
    );
    assert!(matches!(
        run(Invocation::Thread(ThreadInvocation::Compact { thread: 3 })),
        Plan::Turn { thread_id: 3, compacting: true, .. }
    ));
}

#[test]
fn invocations_that_are_refused() {
    assert_eq!(
        run(Invocation::RunnerRun { stdio: false }),
        Plan::Refuse { message: "--stdio is required" },
    );
    assert_eq!(run(Invocation::RunnerRun { stdio: true }), Plan::ServeRunner);
    let execute = |background: bool, timeout_ms: Option<u64>| {
        run(Invocation::RunnerExec {
            thread: 1,
            name: "one".to_owned(),
            command: "ls".to_owned(),
            background,
            timeout_ms,
        })
    };
    assert_eq!(
        execute(true, Some(5)),
        Plan::Refuse { message: "background commands cannot have timeout options" },
    );
    assert!(matches!(execute(true, None), Plan::Execute { background: true, .. }));
    assert!(matches!(execute(false, Some(5)), Plan::Execute { timeout_ms: Some(5), .. }));
}

#[test]
fn invocations_that_are_commands() {
    assert_eq!(
        run(Invocation::Thread(ThreadInvocation::Rewind {
            thread: 1,
            checkpoint: None,
            sequence: 9,
        })),
        Plan::Ask {
            command: Command::ThreadReplaceHistory {
                thread_id: 1,
                target: HistoryTarget::Message { checkpoint_id: None, sequence: 9 },
            },
            words: Some("rewound"),
        },
    );
    assert_eq!(
        run(Invocation::ApprovalDeny { approval: 4, reason: None }),
        Plan::Ask {
            command: Command::ApprovalDeny { approval_id: 4, reason: None },
            words: None,
        },
    );
    assert_eq!(
        run(Invocation::RunnerStop {
            thread: 1,
            name: "one".to_owned(),
            process_id: "p".to_owned(),
        }),
        Plan::StopProcess {
            process: ProcessLocator {
                thread_id: 1,
                runner: "one".to_owned(),
                process_id: "p".to_owned(),
            },
        },
    );
}

#[test]
fn invocations_without_a_workspace() {
    assert!(!needs_workspace(&Invocation::RunnerSandbox));
    assert!(!needs_workspace(&Invocation::PlatformInstall));
    assert!(needs_workspace(&Invocation::Tui));
    assert!(needs_workspace(&Invocation::ControllerRun));
}

#[test]
fn a_subscription_starts_with_its_state() {
    let state: Result<u32, _> =
        first_message(SubscriptionMessage::<u32, u8>::Snapshot { state: 7 });
    assert_eq!(state.ok(), Some(7));
    let error = first_message(SubscriptionMessage::<u32, u8>::Operation { operation: 1 });
    assert_eq!(
        error.err().unwrap().message(),
        "controller sent an operation before the subscription snapshot",
    );
    let error = first_message(SubscriptionMessage::<u32, u8>::Terminal {
        terminal: SubscriptionTerminal::Deleted,
    });
    assert_eq!(error.err().unwrap().message(), "subscribed resource was deleted");
}

#[test]
fn a_subscription_goes_on_with_operations() {
    let operation = next_message(SubscriptionMessage::<u32, u8>::Operation { operation: 9 });
    assert_eq!(operation.ok(), Some(9));
    let error = next_message(SubscriptionMessage::<u32, u8>::Snapshot { state: 7 });
    assert_eq!(
        error.err().unwrap().message(),
        "controller sent a second subscription snapshot",
    );
    let error = next_message(SubscriptionMessage::<u32, u8>::Terminal {
        terminal: SubscriptionTerminal::ControllerShutdown,
    });
    assert_eq!(error.err().unwrap().message(), "controller is shutting down");
}

#[test]
fn the_end_of_a_subscription() {
    let terminal = SubscriptionTerminal::Error { message: "lost".to_owned() };
    let error = SubscriptionError::new(terminal);
    assert_eq!(error.message(), "lost");
    assert!(matches!(error.terminal(), SubscriptionTerminal::Error { message } if message == "lost"));
}

#[test]
fn answers_to_commands() {
    assert_eq!(command_result(CommandResponse::Success { result: 3 }), Ok(3));
    assert_eq!(
        command_result(CommandResponse::<u8>::Error { message: "no".to_owned() }),
        Err("no".to_owned()),
    );
}

#[test]
fn a_controller_that_is_not_there() {
    assert!(not_running(ConnectFailure::NotFound));
    assert!(not_running(ConnectFailure::ConnectionRefused));
    assert!(not_running(ConnectFailure::ConnectionReset));
    assert!(!not_running(ConnectFailure::Other));
    let endpoint = PathBuf::from("/run/controller.sock");
    assert_eq!(Client::new(endpoint.clone()).endpoint(), &endpoint);
    assert_eq!(client(endpoint.clone()).endpoint(), &endpoint);
}
