use atra::controller::{ProcessInspection, ProcessStatus};
use atra::event::{ApprovalPolicy, Runner};
use atra::idset::IdSet;
use atra::json::Json;
use atra::runner::deploy::{
    deploy_step, skills_action, skills_path, tools_path, SkillsAction, TreeStep,
};
use atra::runner::pool::{
    check_launch, launch_action, list_processes, list_runners, process_detail, process_id,
    process_prefix, runner_failure, same_process, usable, LaunchAction, PoolError, ProcessKey,
    ProcessRecord, ProcessTable,
};
use atra::runner::replies::{
    initialize, inspect, prepare_tree, receive, start, status, stop, subscription_update,
    upload_object, wait, PrepareTreeResult, ProcessSubscriptionUpdate, RunnerResponse,
    SpawnedProcess, WaitOutcome,
};
use atra::runner::routes::{
    abandoned_process, callback_response, disconnected, CallbackEnd, Handling, Incoming, Route,
    Routes,
};

fn json(text: &str) -> Json {
    Json::parse(text).unwrap()
}

fn inspection(status: ProcessStatus, output_tail: &str, omitted_bytes: usize) -> ProcessInspection {
    ProcessInspection { status, output_tail: output_tail.to_owned(), omitted_bytes }
}

#[test]
fn a_subscription_ends_with_the_process() {
    let (update, terminal) = subscription_update(RunnerResponse::ProcessInspected {
        process_status: ProcessStatus::Running,
        output_tail: "latest".to_owned(),
        omitted_bytes: 1,
    });
    assert!(!terminal);
    let latest = receive(Some(update)).unwrap();
    assert_eq!(latest, inspection(ProcessStatus::Running, "latest", 1));

    let (update, terminal) = subscription_update(RunnerResponse::ProcessInspected {
        process_status: ProcessStatus::Exited { exit_code: Some(0) },
        output_tail: "final".to_owned(),
        omitted_bytes: 2,
    });
    assert!(terminal);
    let last = receive(Some(update)).unwrap();
    assert_eq!(last, inspection(ProcessStatus::Exited { exit_code: Some(0) }, "final", 2));
    assert_eq!(receive(None).unwrap_err(), "runner disconnected during process subscription");
}

#[test]
fn a_subscription_that_fails() {
    let (update, terminal) =
        subscription_update(RunnerResponse::Error { message: "gone".to_owned() });
    assert!(terminal);
    assert_eq!(receive(Some(update)).unwrap_err(), "Runner request failed: gone");
    let (update, terminal) = subscription_update(RunnerResponse::Ready);
    assert!(terminal);
    assert_eq!(
        receive(Some(update)).unwrap_err(),
        "runner returned an invalid process subscription response",
    );
    assert!(receive(Some(ProcessSubscriptionUpdate::Pending)).is_err());
}

#[test]
fn panicking_callback_becomes_failure() {
    let (output, success) = callback_response(CallbackEnd::Panicked {
        payload: Some("injected callback panic".to_owned()),
    });
    assert!(!success);
    assert!(output.contains("injected callback panic"));
}

#[test]
fn other_ends_of_a_callback() {
    assert_eq!(
        callback_response(CallbackEnd::Answered { output: "done".to_owned(), success: true }),
        ("done".to_owned(), true),
    );
    assert_eq!(
        callback_response(CallbackEnd::Stopping),
        ("controller is stopping".to_owned(), false),
    );
    assert!(!callback_response(CallbackEnd::Panicked { payload: None }).1);
}

#[test]
fn every_answer_is_for_one_question() {
    let mut routes = Routes::new();
    let first = routes.ask();
    let followed = routes.follow();
    let second = routes.ask();
    assert!(first < followed && followed < second);
    assert_eq!(routes.route(second, false), Route::Request);
    assert_eq!(routes.route(second, false), Route::Unknown);
    assert_eq!(routes.route(followed, false), Route::Subscription);
    assert_eq!(routes.route(followed, true), Route::Subscription);
    assert_eq!(routes.route(followed, false), Route::Unknown);
    assert_eq!(routes.disconnect(), vec![first]);
    assert_eq!(routes.route(first, false), Route::Unknown);
    assert!(routes.next_id() > second);
}

#[test]
fn questions_can_be_withdrawn() {
    let mut routes = Routes::new();
    let asked = routes.ask();
    let followed = routes.follow();
    routes.withdraw(asked);
    routes.unfollow(followed);
    assert_eq!(routes.route(asked, false), Route::Unknown);
    assert_eq!(routes.route(followed, false), Route::Unknown);
    assert!(routes.disconnect().is_empty());
}

#[test]
fn callbacks_are_answered_once() {
    let mut routes = Routes::new();
    assert!(!routes.callback(5));
    assert!(routes.callback(5));
    assert!(routes.end_callback(5));
    assert!(!routes.end_callback(5));
    assert!(!routes.callback(6));
    routes.disconnect();
    assert!(!routes.end_callback(6));
    assert_eq!(disconnected("one"), "runner one disconnected");
}

#[test]
fn a_process_that_nobody_waits_for_is_found() {
    let started = RunnerResponse::ProcessStarted {
        process_handle: "handle".to_owned(),
        timing: json("{}"),
    };
    assert_eq!(abandoned_process(started), Some("handle".to_owned()));
    assert_eq!(abandoned_process(RunnerResponse::Ready), None);
}

fn failed() -> RunnerResponse {
    RunnerResponse::Error { message: "no such process".to_owned() }
}

#[test]
fn answers_of_a_runner() {
    assert!(initialize(RunnerResponse::Ready).is_ok());
    let started = start(RunnerResponse::ProcessStarted {
        process_handle: "handle".to_owned(),
        timing: json("7"),
    })
    .unwrap();
    assert_eq!(started.handle, "handle");
    assert_eq!(started.timing, json("7"));
    assert_eq!(stop(RunnerResponse::ProcessStopped { output: json("\"bye\"") }).unwrap(), json("\"bye\""));
    assert_eq!(
        status(RunnerResponse::ProcessStatus { process_status: ProcessStatus::Running }).unwrap(),
        ProcessStatus::Running,
    );
    let seen = inspect(RunnerResponse::ProcessInspected {
        process_status: ProcessStatus::Running,
        output_tail: "tail".to_owned(),
        omitted_bytes: 3,
    })
    .unwrap();
    assert_eq!(seen, inspection(ProcessStatus::Running, "tail", 3));
    assert!(upload_object(RunnerResponse::ObjectStored).is_ok());
}

#[test]
fn answers_to_a_wait() {
    let spawned = SpawnedProcess {
        process_id: "p".to_owned(),
        process_handle: "h".to_owned(),
        command: "sleep".to_owned(),
    };
    let running = wait(RunnerResponse::ProcessRunning {
        process_handle: "handle".to_owned(),
        output: json("\"out\""),
        patch_results: vec![json("1")],
        spawned_processes: vec![spawned],
        timing: json("2"),
    })
    .unwrap();
    assert!(matches!(
        running,
        WaitOutcome::Running { process_handle, patch_results, spawned_processes, .. }
            if process_handle == "handle" && patch_results.len() == 1 && spawned_processes.len() == 1
    ));
    let finished = wait(RunnerResponse::ProcessFinished {
        output: json("\"out\""),
        exit_code: Some(3),
        patch_results: Vec::new(),
        spawned_processes: Vec::new(),
    })
    .unwrap();
    assert!(matches!(finished, WaitOutcome::Finished { exit_code: Some(3), .. }));
}

#[test]
fn a_runner_can_refuse() {
    assert_eq!(
        initialize(failed()).unwrap_err().message("Shown"),
        "runner returned an invalid readiness response: Shown",
    );
    assert_eq!(stop(failed()).unwrap_err().message("Shown"), "no such process");
    assert_eq!(wait(failed()).unwrap_err().message("Shown"), "no such process");
    assert_eq!(
        prepare_tree(failed()).unwrap_err().message("Shown"),
        "runner returned an invalid tree response: Shown",
    );
}

#[test]
fn a_runner_can_answer_something_else() {
    let words = [
        initialize(RunnerResponse::ObjectStored).err().unwrap().message("Shown"),
        start(RunnerResponse::Ready).err().unwrap().message("Shown"),
        wait(RunnerResponse::Ready).err().unwrap().message("Shown"),
        stop(RunnerResponse::Ready).err().unwrap().message("Shown"),
        inspect(RunnerResponse::Ready).err().unwrap().message("Shown"),
        status(RunnerResponse::Ready).err().unwrap().message("Shown"),
        prepare_tree(RunnerResponse::Ready).err().unwrap().message("Shown"),
        upload_object(RunnerResponse::Ready).err().unwrap().message("Shown"),
    ];
    assert_eq!(
        words,
        [
            "runner returned an invalid readiness response: Shown",
            "runner returned an invalid start_command response",
            "runner returned an invalid wait_process response",
            "runner returned an invalid stop_process response",
            "runner returned an invalid inspect_process response",
            "runner returned an invalid process_status response",
            "runner returned an invalid tree response: Shown",
            "runner returned an invalid object response: Shown",
        ],
    );
}

#[test]
fn a_tree_is_uploaded_until_it_is_there() {
    let missing =
        prepare_tree(RunnerResponse::MissingObjects { digests: vec!["a".to_owned()] }).unwrap();
    assert_eq!(
        deploy_step(missing, "tree").unwrap(),
        TreeStep::Upload { digests: vec!["a".to_owned()] },
    );
    let ready = |digest: &str| PrepareTreeResult::Ready {
        digest: digest.to_owned(),
        path: "/trees/tree".to_owned(),
    };
    assert_eq!(
        deploy_step(ready("tree"), "tree").unwrap(),
        TreeStep::Ready { path: "/trees/tree".to_owned() },
    );
    assert_eq!(
        deploy_step(ready("other"), "tree").unwrap_err(),
        "runner returned tree digest other, expected tree",
    );
    assert_eq!(tools_path("/trees/tree"), "/trees/tree/bin");
    assert_eq!(skills_path("/trees/tree"), "/trees/tree/skills");
}

#[test]
fn skills_are_brought_where_they_changed() {
    let current = Some("digest".to_owned());
    assert_eq!(skills_action(&current, "digest", false), SkillsAction::Keep);
    assert_eq!(skills_action(&current, "newer", false), SkillsAction::Deploy);
    assert_eq!(skills_action(&None, "empty", true), SkillsAction::Remove);
    assert_eq!(skills_action(&None, "digest", false), SkillsAction::Deploy);
}

#[test]
fn launches_are_checked() {
    let command = vec!["sh".to_owned()];
    assert!(check_launch("one", &command).is_ok());
    assert_eq!(
        check_launch("", &command).unwrap_err().message(),
        "runner name must not be empty",
    );
    assert_eq!(
        check_launch("one", &Vec::new()).unwrap_err().message(),
        "runner command must not be empty",
    );
    assert_eq!(launch_action(Some(true)), LaunchAction::Reconfigure);
    assert_eq!(launch_action(Some(false)), LaunchAction::Start);
    assert_eq!(launch_action(None), LaunchAction::Start);
}

#[test]
fn only_a_running_runner_is_usable() {
    assert!(usable("one", Some(true)).is_ok());
    assert_eq!(usable("one", Some(false)).unwrap_err().message(), "runner one is not running");
    assert_eq!(usable("one", None).unwrap_err().message(), "runner one is not running");
    assert_eq!(PoolError::ProcessGone.message(), "background process is no longer available");
    assert_eq!(runner_failure(Ok(())), "Runner exited");
    assert_eq!(
        runner_failure(Err("denied".to_owned())),
        "failed to inspect Runner: denied",
    );
}

fn runner(name: &str) -> Runner {
    Runner {
        name: name.to_owned(),
        description: format!("{name} runner"),
        approval: ApprovalPolicy::Ask,
    }
}

#[test]
fn running_runners_are_listed_by_name() {
    let listed = list_runners(&vec![
        (runner("two"), true),
        (runner("gone"), false),
        (runner("one"), true),
    ]);
    let names: Vec<&str> = listed.iter().map(|runner| runner.name.as_str()).collect();
    assert_eq!(names, ["one", "two"]);
    assert_eq!(listed[0].description, "one runner");
}

fn key(thread_id: i64, process_id: &str) -> ProcessKey {
    ProcessKey { thread_id, runner: "one".to_owned(), process_id: process_id.to_owned() }
}

fn record(handle: &str, started_at_ms: i64) -> ProcessRecord {
    ProcessRecord { handle: handle.to_owned(), command: "sleep".to_owned(), started_at_ms }
}

#[test]
fn no_process_outlives_its_thread() {
    let mut table = ProcessTable::new();
    assert!(table.insert_process(key(1, "a"), record("h1", 10)));
    assert!(table.insert_process(key(2, "a"), record("h2", 20)));
    assert!(table.insert_process(key(1, "b"), record("h3", 5)));
    assert!(!table.insert_process(key(1, "a"), record("other", 1)));
    assert_eq!(table.process(&key(1, "a")).unwrap().handle, "h1");
    assert_eq!(table.thread_processes(1).len(), 2);
    let taken = table.take_thread_processes(&vec![1, 3]);
    let handles: Vec<&str> = taken.iter().map(|entry| entry.1.handle.as_str()).collect();
    assert_eq!(handles, ["h1", "h3"]);
    assert!(table.thread_processes(1).is_empty());
    assert!(table.process(&key(1, "a")).is_none());
    assert_eq!(table.thread_processes(2).len(), 1);
    table.remove_process(&key(2, "a"));
    assert!(table.process(&key(2, "a")).is_none());
}

#[test]
fn processes_are_listed_by_their_start() {
    let entries = vec![
        (key(1, "b"), record("h1", 10)),
        (key(1, "a"), record("h2", 10)),
        (key(1, "c"), record("h3", 5)),
        (key(1, "gone"), record("h4", 1)),
    ];
    let statuses = vec![
        ProcessStatus::Running,
        ProcessStatus::Exited { exit_code: Some(0) },
        ProcessStatus::Running,
        ProcessStatus::Unavailable { message: "gone".to_owned() },
    ];
    let (listed, gone) = list_processes(&entries, &statuses);
    let ids: Vec<&str> = listed.iter().map(|process| process.process_id.as_str()).collect();
    assert_eq!(ids, ["c", "a", "b"]);
    assert_eq!(gone, vec![3]);
    assert_eq!(listed[1].status, ProcessStatus::Exited { exit_code: Some(0) });
}

#[test]
fn a_process_in_detail() {
    let (process, tail, omitted) = process_detail(
        &key(1, "a"),
        &record("h1", 10),
        inspection(ProcessStatus::Running, "tail", 4),
    );
    assert_eq!(process.runner, "one");
    assert_eq!(process.process_id, "a");
    assert_eq!(process.command, "sleep");
    assert_eq!(process.started_at_ms, 10);
    assert_eq!((tail.as_str(), omitted), ("tail", 4));
}

#[test]
fn names_of_processes() {
    assert_eq!(process_id("brave old fox"), "brave-old-fox");
    assert_eq!(process_prefix(-7), "thread--7-");
    assert!(same_process(&key(1, "a"), &key(1, "a")));
    assert!(!same_process(&key(1, "a"), &key(2, "a")));
    let mut table = ProcessTable::new();
    assert!(table.accepts_id(1, "one", "a", true));
    assert!(!table.accepts_id(1, "one", "a", false));
    table.insert_process(key(1, "a"), record("h1", 10));
    assert!(!table.accepts_id(1, "one", "a", true));
    assert!(table.accepts_id(2, "one", "a", true));
}

#[test]
fn a_set_of_numbers() {
    let mut set = IdSet::new();
    assert!(set.insert(3));
    assert!(!set.insert(3));
    assert!(set.insert(4));
    assert!(set.contains(3));
    assert!(set.remove(3));
    assert!(!set.remove(3));
    assert_eq!(set.drain(), vec![4]);
    assert!(!set.contains(4));
}

#[test]
fn messages_of_a_runner_are_handled() {
    let mut routes = Routes::new();
    let asked = routes.ask();
    let followed = routes.follow();
    let respond = |request_id, response| Incoming::Response { request_id, response };
    let inspected = |status| RunnerResponse::ProcessInspected {
        process_status: status,
        output_tail: "tail".to_owned(),
        omitted_bytes: 0,
    };
    let running = routes.take(respond(followed, inspected(ProcessStatus::Running)));
    assert!(matches!(
        running,
        Handling::Update {
            request_id,
            update: ProcessSubscriptionUpdate::Inspection(_),
            last: false,
        }
            if request_id == followed
    ));
    let last =
        routes.take(respond(followed, inspected(ProcessStatus::Exited { exit_code: Some(0) })));
    assert!(matches!(last, Handling::Update { last: true, .. }));
    let late = routes.take(respond(followed, inspected(ProcessStatus::Running)));
    assert!(matches!(late, Handling::Ignore));

    let started = RunnerResponse::ProcessStarted {
        process_handle: "handle".to_owned(),
        timing: Json::Null,
    };
    let Handling::Deliver { request_id, response } = routes.take(respond(asked, started)) else {
        panic!("the answer was not delivered");
    };
    assert_eq!(request_id, asked);
    assert_eq!(routes.undelivered(response), Some((2, "handle".to_owned())));
    assert_eq!(routes.undelivered(RunnerResponse::Ready), None);
    assert!(matches!(routes.take(respond(asked, RunnerResponse::Ready)), Handling::Ignore));
    assert!(matches!(routes.take(respond(2, RunnerResponse::Ready)), Handling::Ignore));

    let ask = |callback_id, answered| Incoming::CallbackRequest { callback_id, answered };
    let gives_up = |handling| matches!(handling, Handling::Answer { give_up_earlier: true, .. });
    assert!(!gives_up(routes.take(ask(7, vec![]))));
    assert!(gives_up(routes.take(ask(7, vec![]))));
    assert!(!gives_up(routes.take(ask(7, vec![7]))));
    assert!(matches!(
        routes.take(Incoming::CallbackCancel { callback_id: 7 }),
        Handling::GiveUp { callback_id: 7 }
    ));
    assert!(matches!(
        routes.take(Incoming::CallbackCancel { callback_id: 7 }),
        Handling::Ignore
    ));

    let waits = routes.ask();
    let Handling::Stop { waiting } = routes.take(Incoming::Unreadable) else {
        panic!("an unreadable line was passed over");
    };
    assert_eq!(waiting, vec![waits]);
    assert!(matches!(
        routes.take(Incoming::Ended),
        Handling::Stop { waiting } if waiting.is_empty()
    ));
}
