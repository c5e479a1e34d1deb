use atra::cli::platform::{
    bundle_url, host_platform, upload_script, uploaded_path, validate_tool_name,
};
use atra::cli::workspace::{
    clean, confirmed, default_builtin_runners, fallback_runtime_directory, host_launch, id,
    is_private_directory, load_config, not_private, prepare_tui, provider_auth_home,
    runner_command, sandbox_directories, sandbox_home_path, sandbox_launch, start,
    start_controller, stop_controller, CleanEvent, CleanStep, Config, ControllerEvent,
    ControllerStart, ControllerStep, StartStep, StopStep, TuiEvent, TuiStep,
};
use atra::event::ApprovalPolicy;

fn config(text: &str) -> Option<Config> {
    load_config(&Some(text.to_owned()))
}

#[test]
fn load_config_without_file_uses_defaults() {
    let config = load_config(&None).unwrap();
    assert!(config.builtin_runners);
    assert_eq!(config.setup, None);
    assert!(default_builtin_runners());
    assert_eq!(Config::default(), config);
}

#[test]
fn config_combinations() {
    let cases = [
        ("", true, None),
        ("builtin_runners = true", true, None),
        ("builtin_runners = false", false, None),
        ("setup = \"bash setup.bash\"", true, Some("bash setup.bash")),
        ("builtin_runners = true\nsetup = \"x\"", true, Some("x")),
        ("builtin_runners = false\nsetup = \"x\"", false, Some("x")),
    ];
    for (input, builtin, setup) in cases {
        let config = config(input).unwrap();
        assert_eq!(config.builtin_runners, builtin, "input: {input:?}");
        assert_eq!(config.setup.as_deref(), setup, "input: {input:?}");
    }
}

#[test]
fn config_rejects_unknown_field() {
    assert!(config("unknown = 1").is_none());
}

#[test]
fn config_rejects_malformed_toml() {
    assert!(config("builtin_runners = ").is_none());
}

#[test]
fn load_config_rejects_unreadable_file() {
    assert!(load_config(&Some("builtin_runners = ".to_owned())).is_none());
}

#[test]
fn config_rejects_other_types() {
    assert!(config("builtin_runners = 1").is_none());
    assert!(config("setup = true").is_none());
    assert!(config("setup = 1979-05-27T07:32:00Z").is_none());
}

#[test]
fn workspace_names_are_the_start_of_a_digest() {
    assert_eq!(id(&b"abc".to_vec()), "ba7816bf8f01cfea");
    assert_eq!(id(&Vec::new()), "e3b0c44298fc1c14");
}

#[test]
fn launches_of_the_runners() {
    assert_eq!(runner_command(&vec!["x".to_owned()], "/bin/atra"), vec!["x"]);
    assert_eq!(
        runner_command(&Vec::new(), "/bin/atra"),
        vec!["/bin/atra", "runner", "run", "--stdio"]
    );
    let host = host_launch("/bin/atra");
    assert_eq!(host.name, "host");
    assert_eq!(host.approval, ApprovalPolicy::Ask);
    assert_eq!(host.command, vec!["/bin/atra", "runner", "run", "--stdio"]);
    let sandbox = sandbox_launch("/bin/atra", "/ws");
    assert_eq!(sandbox.name, "sandbox");
    assert_eq!(sandbox.approval, ApprovalPolicy::Allow);
    assert_eq!(
        sandbox.command,
        vec!["/bin/atra", "runner", "sandbox", "--preset", "standard", "--workspace", "/ws"]
    );
    assert!(sandbox.description.ends_with("is visible read-only and the network is shared."));
}

#[test]
fn a_workspace_starts_in_order() {
    assert_eq!(
        start(&Config { builtin_runners: true, setup: Some("x".to_owned()) }),
        vec![
            StartStep::StartController,
            StartStep::LaunchHost,
            StartStep::LaunchSandbox,
            StartStep::RunSetup,
        ]
    );
    assert_eq!(
        start(&Config { builtin_runners: false, setup: None }),
        vec![StartStep::StartController]
    );
}

#[test]
fn answers_that_say_yes() {
    for answer in ["y", "Y\n", " yes ", "YES"] {
        assert!(confirmed(answer), "{answer:?}");
    }
    for answer in ["", "n", "yess", "y e s"] {
        assert!(!confirmed(answer), "{answer:?}");
    }
}

#[test]
fn cleaning_removes_only_with_force_or_a_yes() {
    let running = CleanEvent::Controller { running: true };
    assert_eq!(clean(&running, true, true), CleanStep::RefuseRunning);
    assert_eq!(
        CleanStep::RefuseRunning.refusal(),
        Some("controller is running; stop it before cleaning the workspace")
    );
    let stopped = CleanEvent::Controller { running: false };
    assert_eq!(clean(&stopped, false, false), CleanStep::LookForHome);
    assert_eq!(clean(&CleanEvent::Home { exists: false }, true, true), CleanStep::Done);
    assert_eq!(clean(&CleanEvent::Home { exists: true }, true, true), CleanStep::CheckDirectories);
    assert_eq!(clean(&CleanEvent::Private, true, false), CleanStep::Remove);
    assert_eq!(clean(&CleanEvent::Private, false, true), CleanStep::Ask);
    assert_eq!(clean(&CleanEvent::Private, false, false), CleanStep::RefuseWithoutForce);
    assert_eq!(
        CleanStep::RefuseWithoutForce.refusal(),
        Some("workspace clean requires --force when not running interactively")
    );
    assert_eq!(CleanStep::Ask.refusal(), None);
    let yes = CleanEvent::Answer { text: "Yes\n".to_owned() };
    assert_eq!(clean(&yes, false, true), CleanStep::Remove);
    let no = CleanEvent::Answer { text: "\n".to_owned() };
    assert_eq!(clean(&no, false, true), CleanStep::Done);
}

#[test]
fn the_interface_is_shown_with_a_controller() {
    let running = TuiEvent::Controller { running: true };
    assert_eq!(prepare_tui(&running, false), TuiStep::Show);
    let stopped = TuiEvent::Controller { running: false };
    assert_eq!(prepare_tui(&stopped, false), TuiStep::Refuse);
    assert_eq!(prepare_tui(&stopped, true), TuiStep::Ask);
    let yes = TuiEvent::Answer { text: "y".to_owned() };
    assert_eq!(prepare_tui(&yes, true), TuiStep::StartThenShow);
    let no = TuiEvent::Answer { text: "no".to_owned() };
    assert_eq!(prepare_tui(&no, true), TuiStep::Leave);
}

#[test]
fn directories_of_a_workspace() {
    assert_eq!(fallback_runtime_directory(1000), "/tmp/atra-1000");
    assert_eq!(provider_auth_home(), "atra/providers");
    assert_eq!(
        sandbox_directories("abc"),
        vec![
            "atra",
            "atra/workspaces",
            "atra/workspaces/abc",
            "atra/workspaces/abc/sandbox",
            "atra/workspaces/abc/sandbox/home",
        ]
    );
    assert_eq!(sandbox_home_path("abc"), "atra/workspaces/abc/sandbox/home");
}

#[test]
fn private_directories() {
    assert!(is_private_directory(true, false, 7, 7, 0o040700));
    assert!(!is_private_directory(true, false, 7, 7, 0o040755));
    assert!(!is_private_directory(true, false, 7, 8, 0o040700));
    assert!(!is_private_directory(true, true, 7, 7, 0o040700));
    assert!(!is_private_directory(false, false, 7, 7, 0o100700));
    assert_eq!(
        not_private("/x"),
        "/x must be a directory owned by the current user with mode 0700"
    );
}

#[test]
fn the_controller_starts_and_stops() {
    let log = "/log";
    assert_eq!(
        start_controller(&ControllerEvent::First { running: true }, log),
        ControllerStep::Publish(ControllerStart::AlreadyRunning)
    );
    assert_eq!(
        start_controller(&ControllerEvent::First { running: false }, log),
        ControllerStep::Spawn
    );
    assert_eq!(
        start_controller(&ControllerEvent::Running, log),
        ControllerStep::Publish(ControllerStart::Started)
    );
    assert_eq!(
        start_controller(&ControllerEvent::Exited { status: "exit status: 1".to_owned() }, log),
        ControllerStep::Fail {
            message: "controller exited with exit status: 1; see /log".to_owned()
        }
    );
    assert_eq!(
        start_controller(&ControllerEvent::Silent { late: false }, log),
        ControllerStep::Sleep
    );
    assert_eq!(
        start_controller(&ControllerEvent::Silent { late: true }, log),
        ControllerStep::Kill {
            message: "controller did not become ready within 10 seconds; see /log".to_owned()
        }
    );
    assert_eq!(ControllerStart::Started.message(), "started");
    assert_eq!(ControllerStart::AlreadyRunning.message(), "already running");
    assert_eq!(stop_controller(false, true), StopStep::Done);
    assert_eq!(stop_controller(true, false), StopStep::Sleep);
    assert_eq!(stop_controller(true, true), StopStep::Fail);
}

#[test]
fn platforms_of_hosts() {
    assert_eq!(host_platform("x86_64"), Ok("x86_64-linux-static"));
    assert_eq!(host_platform("aarch64"), Ok("aarch64-linux-static"));
    assert_eq!(
        host_platform("riscv64"),
        Err("unsupported host architecture riscv64".to_owned())
    );
    assert_eq!(
        bundle_url("abc", "aarch64-linux-static"),
        "https://github.com/Pylgos/atra-agent/releases/download/build-abc/atra-platform-aarch64-linux-static.zip"
    );
}

#[test]
fn names_of_tools() {
    assert!(validate_tool_name("bwrap"));
    assert!(validate_tool_name("..."));
    for name in ["", ".", "..", "a/b", "/", "a\\b"] {
        assert!(!validate_tool_name(name), "{name:?}");
    }
}

#[test]
fn uploads_are_stored_under_their_digest() {
    let script = upload_script("abc");
    assert!(script.starts_with("root=\"${TMPDIR:-/tmp}/atra-$(id -u)\"; path=\"$root/objects/abc\"; if"));
    assert!(script.ends_with("rm -f \"$temporary\"; fi; printf '%s\\n' \"$path\""));
    assert_eq!(
        uploaded_path("/tmp/atra-0/objects/abc\n", "abc"),
        Ok("/tmp/atra-0/objects/abc".to_owned())
    );
    assert_eq!(
        uploaded_path("tmp/objects/abc", "abc"),
        Err("tmp/objects/abc".to_owned())
    );
    assert_eq!(
        uploaded_path("/tmp/objects/abd", "abc"),
        Err("/tmp/objects/abd".to_owned())
    );
    assert_eq!(uploaded_path("", "abc"), Err(String::new()));
}
