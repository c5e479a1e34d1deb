use atra::cli::sandbox::{
    build_plan, host_home, is_executable, preserved_path_directories, Argument, ReadOnlyMount,
    SandboxContext, SandboxPreset, RUNNER_PATH, SANDBOX_HOME,
};
use atra::path::{is_strict_descendant, path_parts, same_path, split_paths, Part};

fn bytes(text: &str) -> Vec<u8> {
    text.as_bytes().to_vec()
}

fn context() -> SandboxContext {
    SandboxContext {
        workspace: bytes("/ws"),
        sandbox_home: bytes("/state/ws/sandbox/home"),
        runner_binary: bytes("/platform/runner"),
        hidden_host_home: Some(bytes("/home/user")),
        preserved_path_directories: Vec::new(),
        uid: 1000,
        gid: 1000,
        mount_ro: Vec::new(),
        mount_rw: Vec::new(),
        bwrap_args: Vec::new(),
    }
}

fn args(context: &SandboxContext) -> Vec<String> {
    build_plan(context)
        .into_iter()
        .map(|argument| match argument {
            Argument::Word(text) => text,
            Argument::Raw(bytes) => String::from_utf8_lossy(&bytes).into_owned(),
        })
        .collect()
}

fn position(arguments: &[String], needle: &str) -> usize {
    arguments
        .iter()
        .position(|argument| argument == needle)
        .unwrap_or_else(|| panic!("{needle:?} not found in {arguments:?}"))
}

#[test]
fn standard_hides_host_home() {
    let arguments = args(&context());
    assert!(arguments.contains(&"--tmpfs".to_owned()));
    assert!(arguments.contains(&"/home/user".to_owned()));
}

#[test]
fn host_home_must_be_set() {
    let error = host_home(SandboxPreset::Standard, None).unwrap_err();
    assert!(error.contains("HOME is not set"));
    assert_eq!(host_home(SandboxPreset::Relaxed, None), Ok(None));
    assert_eq!(
        host_home(SandboxPreset::Standard, Some(bytes("/home/user"))),
        Ok(Some(bytes("/home/user")))
    );
}

#[test]
fn relaxed_keeps_host_home_visible() {
    let mut context = context();
    context.hidden_host_home = None;
    let arguments = args(&context);
    assert!(!arguments.contains(&"/home/user".to_owned()));
}

#[test]
fn workspace_mount_comes_after_home_hiding() {
    let arguments = args(&context());
    assert!(position(&arguments, "/home/user") < position(&arguments, "/ws"));
}

#[test]
fn path_directories_hidden_by_the_sandbox_are_preserved() {
    let path = bytes("/hidden/.nix-profile/bin:/hidden/.nix-profile/bin:/usr");
    let directories =
        preserved_path_directories(&Some(path), &bytes("/workspace"), &Some(bytes("/hidden")));
    assert_eq!(directories, vec![bytes("/hidden/.nix-profile/bin")]);
}

#[test]
fn workspace_path_directories_are_not_remounted_read_only() {
    let directories = preserved_path_directories(
        &Some(bytes("/tmp/x/workspace/bin")),
        &bytes("/tmp/x/workspace"),
        &Some(bytes("/tmp/x")),
    );
    assert!(directories.is_empty());
}

#[test]
fn preserved_path_mounts_follow_masking_and_precede_explicit_mounts() {
    let mut context = context();
    context.preserved_path_directories = vec![ReadOnlyMount {
        source: bytes("/t/source"),
        destination: bytes("/t/home/.nix-profile/bin"),
    }];
    context.mount_ro = vec![bytes("/t/explicit")];
    let arguments = args(&context);
    let hidden_home = position(&arguments, "/home/user");
    let destination = position(&arguments, "/t/home/.nix-profile/bin");
    let source = position(&arguments, "/t/source");
    let explicit = position(&arguments, "/t/explicit");

    assert!(hidden_home < destination);
    assert_eq!(arguments[destination - 1], "--dir");
    assert_eq!(arguments[source - 1], "--ro-bind");
    assert!(source < explicit);
}

#[test]
fn sandbox_home_mount_point_is_created_under_run_before_bind() {
    let arguments = args(&context());
    let mount_point = position(&arguments, SANDBOX_HOME);
    let persistent_home = position(&arguments, "/state/ws/sandbox/home");
    assert!(is_strict_descendant(&bytes(SANDBOX_HOME), &bytes("/run")));
    assert_eq!(arguments[mount_point - 1], "--dir");
    assert_eq!(arguments[persistent_home - 1], "--bind");
    assert_eq!(arguments[persistent_home + 1], SANDBOX_HOME);
    assert!(mount_point < persistent_home);
}

#[test]
fn network_namespace_is_not_created() {
    let arguments = args(&context());
    assert!(!arguments.contains(&"--unshare-net".to_owned()));
}

#[test]
fn runner_binary_is_bound_and_launched() {
    let arguments = args(&context());
    let runner = position(&arguments, "/platform/runner");
    assert_eq!(arguments[runner - 1], "--ro-bind");
    assert_eq!(arguments[runner + 1], RUNNER_PATH);
    let separator = position(&arguments, "--");
    assert_eq!(arguments[separator + 1], RUNNER_PATH);
    assert_eq!(arguments[separator + 2], "--stdio");
}

#[test]
fn raw_arguments_precede_the_runner_command() {
    let mut context = context();
    context.bwrap_args = vec![bytes("--foo"), bytes("bar")];
    let arguments = args(&context);
    let separator = position(&arguments, "--");
    assert_eq!(arguments[separator - 2], "--foo");
    assert_eq!(arguments[separator - 1], "bar");
}

#[test]
fn explicit_mounts_follow_preset_mounts() {
    let mut context = context();
    context.mount_ro = vec![bytes("/t/ro")];
    context.mount_rw = vec![bytes("/t/rw")];
    let arguments = args(&context);
    let read_only = position(&arguments, "/t/ro");
    let read_write = position(&arguments, "/t/rw");
    assert!(position(&arguments, "/platform/runner") < read_only);
    assert!(read_only < read_write);
    assert_eq!(arguments[read_only - 1], "--ro-bind");
    assert_eq!(arguments[read_write - 1], "--bind");
}

#[test]
fn validate_executable_rejects_non_executable_files() {
    assert!(!is_executable(true, 0o100644));
    assert!(!is_executable(false, 0o040755));
}

#[test]
fn validate_executable_accepts_executable_files() {
    assert!(is_executable(true, 0o100755));
    assert!(is_executable(true, 0o100001));
    assert!(is_executable(true, 0o100010));
}

#[test]
fn the_whole_plan_of_a_plain_sandbox() {
    let expected = "--unshare-user --unshare-pid --unshare-ipc --unshare-uts --unshare-cgroup \
        --uid 1000 --gid 1000 --die-with-parent --ro-bind / / --proc /proc --dev /dev \
        --tmpfs /tmp --tmpfs /run --tmpfs /var/tmp --ro-bind /sys /sys --tmpfs /home/user \
        --dir /run/atra-home --bind /state/ws/sandbox/home /run/atra-home --bind /ws /ws \
        --ro-bind /platform/runner /run/atra-runner --setenv HOME /run/atra-home \
        --setenv TMPDIR /tmp --setenv TMP /tmp --setenv TEMP /tmp --chdir /ws \
        -- /run/atra-runner --stdio";
    let words: Vec<&str> = expected.split_whitespace().collect();
    assert_eq!(args(&context()), words);
}

#[test]
fn search_paths_that_are_relative_visible_or_roots_are_not_preserved() {
    let directories = preserved_path_directories(
        &Some(bytes("bin:/usr/bin:/tmp:/tmp/tool/bin:/run/./x:/tmp//tool/bin:/tmp/../etc:")),
        &bytes("/ws"),
        &None,
    );
    assert_eq!(directories, vec![bytes("/tmp/tool/bin"), bytes("/run/./x")]);
    assert!(preserved_path_directories(&None, &bytes("/ws"), &None).is_empty());
}

#[test]
fn parts_of_paths() {
    assert_eq!(
        path_parts(&bytes("/a//b/./../c/")),
        vec![
            Part::Root,
            Part::Normal(bytes("a")),
            Part::Normal(bytes("b")),
            Part::Parent,
            Part::Normal(bytes("c")),
        ]
    );
    assert_eq!(path_parts(&bytes("./a")), vec![Part::Current, Part::Normal(bytes("a"))]);
    assert_eq!(path_parts(&bytes(".a")), vec![Part::Normal(bytes(".a"))]);
    assert!(path_parts(&bytes("")).is_empty());
    assert!(same_path(&bytes("/a/b/"), &bytes("/a/./b")));
    assert!(!same_path(&bytes("/a/b"), &bytes("a/b")));
    assert!(is_strict_descendant(&bytes("/a/b/c"), &bytes("/a")));
    assert!(!is_strict_descendant(&bytes("/a"), &bytes("/a/")));
    assert!(!is_strict_descendant(&bytes("/a/../b"), &bytes("/a")));
    assert!(!is_strict_descendant(&bytes("/ab"), &bytes("/a")));
    assert_eq!(split_paths(&bytes("a::b")), vec![bytes("a"), bytes(""), bytes("b")]);
    assert_eq!(split_paths(&bytes("")), vec![bytes("")]);
}
