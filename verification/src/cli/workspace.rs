//! The workspace: its name, its settings, its directories, and the controller
//! that runs for it.
use crate::codec::{digest_text, hex, sha256};
use crate::event::ApprovalPolicy;
use crate::json::{field_views, lemma_json_parts, toml_parsed, Json, JsonView};
use crate::passage::{leading, leading_chars};
use crate::text::{
    ascii_lowercase, concat2, concat3, concat4, copy_texts, decimal, decimal_text, lowered,
    same_text, trim, trimmed, view_option, views,
};
use vstd::prelude::*;

verus! {

/// Where the settings of a workspace are.
pub const CONFIG: &'static str = ".config/atra.toml";

/// The name of a workspace, which stands for its path.
pub open spec fn workspace_name(path: Seq<u8>) -> Seq<char> {
    leading(hex(sha256(path)), 16)
}

/// The name of a workspace, which stands for its path.
pub fn id(path: &Vec<u8>) -> (name: String)
    ensures
        name@ == workspace_name(path@),
        name@.len() == 16,
{
    let digest = digest_text(path.as_slice());
    leading_chars(digest.as_str(), 16)
}

/// The settings of a workspace.
#[derive(Debug, PartialEq)]
pub struct Config {
    pub builtin_runners: bool,
    pub setup: Option<String>,
}

/// What a [`Config`] stands for.
pub struct ConfigView {
    pub builtin_runners: bool,
    pub setup: Option<Seq<char>>,
}

impl View for Config {
    type V = ConfigView;

    open spec fn view(&self) -> ConfigView {
        ConfigView { builtin_runners: self.builtin_runners, setup: view_option(self.setup) }
    }
}

/// Whether the runners of the program are launched where the settings do not say.
pub fn default_builtin_runners() -> (launched: bool)
    ensures
        launched,
{
    true
}

impl Default for Config {
    fn default() -> (config: Self)
        ensures
            config@ == (ConfigView { builtin_runners: true, setup: None }),
    {
        Config { builtin_runners: true, setup: None }
    }
}

/// Whether the settings have no others than those that are known.
pub open spec fn known_settings(fields: Seq<(Seq<char>, JsonView)>) -> bool {
    forall|i: int|
        0 <= i < fields.len() ==> (#[trigger] fields[i]).0 == "builtin_runners"@ || fields[i].0
            == "setup"@
}

/// The settings that a document holds; none where it has others, or others'
/// types.
pub open spec fn config_of(document: JsonView) -> Option<ConfigView> {
    match (document, document.get("builtin_runners"@), document.get("setup"@)) {
        (JsonView::Object(fields), runners, setup) => if !known_settings(fields) {
            None
        } else {
            match (runners, setup) {
                (None, None) => Some(ConfigView { builtin_runners: true, setup: None }),
                (None, Some(JsonView::Text(text))) => Some(
                    ConfigView { builtin_runners: true, setup: Some(text) },
                ),
                (Some(JsonView::Bool(flag)), None) => Some(
                    ConfigView { builtin_runners: flag, setup: None },
                ),
                (Some(JsonView::Bool(flag)), Some(JsonView::Text(text))) => Some(
                    ConfigView { builtin_runners: flag, setup: Some(text) },
                ),
                _ => None,
            }
        },
        _ => None,
    }
}

/// The settings that a document holds.
pub fn read_config(document: &Json) -> (config: Option<Config>)
    ensures
        match config_of(document@) {
            Some(view) => config matches Some(config) && config@ == view,
            None => config is None,
        },
{
    proof {
        lemma_json_parts(*document);
    }
    let fields = match document {
        Json::Object(fields) => fields,
        _ => {
            return None;
        },
    };
    let ghost all = field_views(fields@);
    let mut i: usize = 0;
    while i < fields.len()
        invariant
            i <= fields.len(),
            all == field_views(fields@),
            document@ == JsonView::Object(all),
            forall|k: int|
                0 <= k < i ==> (#[trigger] all[k]).0 == "builtin_runners"@ || all[k].0
                    == "setup"@,
        decreases fields.len() - i,
    {
        let name = fields[i].0.as_str();
        assert(all[i as int].0 == name@);
        if !same_text(name, "builtin_runners") && !same_text(name, "setup") {
            return None;
        }
        i += 1;
    }
    let builtin_runners = match document.get("builtin_runners") {
        Some(Json::Bool(flag)) => *flag,
        Some(_) => {
            return None;
        },
        None => default_builtin_runners(),
    };
    let setup = match document.get("setup") {
        Some(value) => match value.as_str() {
            Some(text) => Some(text.to_owned()),
            None => {
                return None;
            },
        },
        None => None,
    };
    Some(Config { builtin_runners, setup })
}

/// The settings of a workspace from the text of their file; none where it cannot
/// be read. Without a file the settings are the default.
pub fn load_config(text: &Option<String>) -> (config: Option<Config>)
    ensures
        match *text {
            Some(text) => match toml_parsed(text@) {
                Some(document) => match config_of(document) {
                    Some(view) => config matches Some(config) && config@ == view,
                    None => config is None,
                },
                None => config is None,
            },
            None => config matches Some(config) && config@ == (ConfigView {
                builtin_runners: true,
                setup: None,
            }),
        },
{
    match text {
        Some(text) => match Json::parse_toml(text.as_str()) {
            Some(document) => read_config(&document),
            None => None,
        },
        None => Some(Config::default()),
    }
}

/// A runner that is to be launched.
#[derive(Debug, PartialEq)]
pub struct RunnerLaunch {
    pub name: String,
    pub description: String,
    pub approval: ApprovalPolicy,
    pub command: Vec<String>,
}

/// What a [`RunnerLaunch`] stands for.
pub struct LaunchView {
    pub name: Seq<char>,
    pub description: Seq<char>,
    pub approval: ApprovalPolicy,
    pub command: Seq<Seq<char>>,
}

impl View for RunnerLaunch {
    type V = LaunchView;

    open spec fn view(&self) -> LaunchView {
        LaunchView {
            name: self.name@,
            description: self.description@,
            approval: self.approval,
            command: views(self.command@),
        }
    }
}

/// The command of a runner: the one that is given, or this program.
pub open spec fn command_of(command: Seq<Seq<char>>, executable: Seq<char>) -> Seq<Seq<char>> {
    if command.len() > 0 {
        command
    } else {
        seq![executable, "runner"@, "run"@, "--stdio"@]
    }
}

/// The command of a runner: the one that is given, or this program.
pub fn runner_command(command: &Vec<String>, executable: &str) -> (result: Vec<String>)
    ensures
        views(result@) == command_of(views(command@), executable@),
{
    if command.len() > 0 {
        return copy_texts(command);
    }
    let result = vec![
        executable.to_owned(),
        "runner".to_owned(),
        "run".to_owned(),
        "--stdio".to_owned(),
    ];
    assert(views(result@) =~= command_of(views(command@), executable@));
    result
}

/// The runner on the host.
pub open spec fn host_runner(executable: Seq<char>) -> LaunchView {
    LaunchView {
        name: "host"@,
        description: "Run commands directly in the workspace host environment."@,
        approval: ApprovalPolicy::Ask,
        command: command_of(Seq::empty(), executable),
    }
}

/// The runner in the sandbox.
pub open spec fn sandbox_runner(executable: Seq<char>, workspace: Seq<char>) -> LaunchView {
    LaunchView {
        name: "sandbox"@,
        description: "Sandboxed workspace environment. Only the workspace and the sandbox HOME are writable by default; the host filesystem is visible read-only and the network is shared."@,
        approval: ApprovalPolicy::Allow,
        command: seq![
            executable,
            "runner"@,
            "sandbox"@,
            "--preset"@,
            "standard"@,
            "--workspace"@,
            workspace,
        ],
    }
}

/// The runner on the host.
pub fn host_launch(executable: &str) -> (launch: RunnerLaunch)
    ensures
        launch@ == host_runner(executable@),
{
    let none: Vec<String> = Vec::new();
    assert(views(none@) =~= Seq::empty());
    RunnerLaunch {
        name: "host".to_owned(),
        description: "Run commands directly in the workspace host environment.".to_owned(),
        approval: ApprovalPolicy::Ask,
        command: runner_command(&none, executable),
    }
}

/// The runner in the sandbox.
pub fn sandbox_launch(executable: &str, workspace: &str) -> (launch: RunnerLaunch)
    ensures
        launch@ == sandbox_runner(executable@, workspace@),
{
    let command = vec![
        executable.to_owned(),
        "runner".to_owned(),
        "sandbox".to_owned(),
        "--preset".to_owned(),
        "standard".to_owned(),
        "--workspace".to_owned(),
        workspace.to_owned(),
    ];
    assert(views(command@) =~= sandbox_runner(executable@, workspace@).command);
    RunnerLaunch {
        name: "sandbox".to_owned(),
        description: "Sandboxed workspace environment. Only the workspace and the sandbox HOME are writable by default; the host filesystem is visible read-only and the network is shared.".to_owned(),
        approval: ApprovalPolicy::Allow,
        command,
    }
}

/// What starting a workspace takes, in order. The first step that fails ends the
/// start.
#[derive(Clone, Copy, Debug, PartialEq, Eq, Structural)]
pub enum StartStep {
    StartController,
    LaunchHost,
    LaunchSandbox,
    RunSetup,
}

/// The steps that start a workspace.
pub open spec fn start_steps(config: ConfigView) -> Seq<StartStep> {
    let runners = if config.builtin_runners {
        seq![StartStep::StartController, StartStep::LaunchHost, StartStep::LaunchSandbox]
    } else {
        seq![StartStep::StartController]
    };
    if config.setup is Some {
        runners.push(StartStep::RunSetup)
    } else {
        runners
    }
}

/// The steps that start a workspace.
pub fn start(config: &Config) -> (steps: Vec<StartStep>)
    ensures
        steps@ == start_steps(config@),
{
    let mut steps: Vec<StartStep> = vec![StartStep::StartController];
    if config.builtin_runners {
        steps.push(StartStep::LaunchHost);
        steps.push(StartStep::LaunchSandbox);
    }
    if config.setup.is_some() {
        steps.push(StartStep::RunSetup);
    }
    assert(steps@ =~= start_steps(config@));
    steps
}

/// Whether an answer says yes.
pub open spec fn says_yes(answer: Seq<char>) -> bool {
    lowered(trimmed(answer)) == "y"@ || lowered(trimmed(answer)) == "yes"@
}

/// Whether an answer says yes.
pub fn confirmed(answer: &str) -> (yes: bool)
    ensures
        yes == says_yes(answer@),
{
    let word = ascii_lowercase(trim(answer).as_str());
    same_text(word.as_str(), "y") || same_text(word.as_str(), "yes")
}

/// What is learned while a workspace is cleaned.
#[derive(Debug, PartialEq)]
pub enum CleanEvent {
    /// Whether the controller runs.
    Controller { running: bool },
    /// Whether there is a home directory of the sandbox.
    Home { exists: bool },
    /// Every directory of the sandbox is private.
    Private,
    /// What the user answered.
    Answer { text: String },
}

/// What is done next while a workspace is cleaned.
#[derive(Clone, Copy, Debug, PartialEq, Eq, Structural)]
pub enum CleanStep {
    RefuseRunning,
    LookForHome,
    CheckDirectories,
    RefuseWithoutForce,
    Ask,
    Remove,
    Done,
}

/// What is done next while a workspace is cleaned.
pub open spec fn clean_next(event: CleanEvent, force: bool, interactive: bool) -> CleanStep {
    match event {
        CleanEvent::Controller { running } => if running {
            CleanStep::RefuseRunning
        } else {
            CleanStep::LookForHome
        },
        CleanEvent::Home { exists } => if exists {
            CleanStep::CheckDirectories
        } else {
            CleanStep::Done
        },
        CleanEvent::Private => if force {
            CleanStep::Remove
        } else if interactive {
            CleanStep::Ask
        } else {
            CleanStep::RefuseWithoutForce
        },
        CleanEvent::Answer { text } => if says_yes(text@) {
            CleanStep::Remove
        } else {
            CleanStep::Done
        },
    }
}

/// What is done next while a workspace is cleaned.
pub fn clean(event: &CleanEvent, force: bool, interactive: bool) -> (step: CleanStep)
    ensures
        step == clean_next(*event, force, interactive),
{
    match event {
        CleanEvent::Controller { running } => if *running {
            CleanStep::RefuseRunning
        } else {
            CleanStep::LookForHome
        },
        CleanEvent::Home { exists } => if *exists {
            CleanStep::CheckDirectories
        } else {
            CleanStep::Done
        },
        CleanEvent::Private => if force {
            CleanStep::Remove
        } else if interactive {
            CleanStep::Ask
        } else {
            CleanStep::RefuseWithoutForce
        },
        CleanEvent::Answer { text } => if confirmed(text.as_str()) {
            CleanStep::Remove
        } else {
            CleanStep::Done
        },
    }
}

impl CleanStep {
    /// What the user is told where the step refuses.
    pub open spec fn words(self) -> Option<Seq<char>> {
        match self {
            CleanStep::RefuseRunning => Some(
                "controller is running; stop it before cleaning the workspace"@,
            ),
            CleanStep::RefuseWithoutForce => Some(
                "workspace clean requires --force when not running interactively"@,
            ),
            _ => None,
        }
    }

    /// What the user is told where the step refuses.
    pub fn refusal(self) -> (text: Option<&'static str>)
        ensures
            match text {
                Some(text) => self.words() == Some(text@),
                None => self.words() is None,
            },
    {
        match self {
            CleanStep::RefuseRunning => Some(
                "controller is running; stop it before cleaning the workspace",
            ),
            CleanStep::RefuseWithoutForce => Some(
                "workspace clean requires --force when not running interactively",
            ),
            _ => None,
        }
    }
}

/// Nothing is removed without force or a yes, and never before the directories
/// were found private.
pub proof fn law_nothing_is_removed_unasked(event: CleanEvent, force: bool, interactive: bool)
    requires
        clean_next(event, force, interactive) == CleanStep::Remove,
    ensures
        (event is Private && force) || (event matches CleanEvent::Answer { text } && says_yes(
            text@,
        )),
{
}

/// What is learned before the interface is shown.
#[derive(Debug, PartialEq)]
pub enum TuiEvent {
    Controller { running: bool },
    Answer { text: String },
}

/// What is done before the interface is shown.
#[derive(Clone, Copy, Debug, PartialEq, Eq, Structural)]
pub enum TuiStep {
    Show,
    Refuse,
    Ask,
    StartThenShow,
    Leave,
}

/// What is done before the interface is shown.
pub fn prepare_tui(event: &TuiEvent, interactive: bool) -> (step: TuiStep)
    ensures
        step == (match *event {
            TuiEvent::Controller { running } => if running {
                TuiStep::Show
            } else if interactive {
                TuiStep::Ask
            } else {
                TuiStep::Refuse
            },
            TuiEvent::Answer { text } => if says_yes(text@) {
                TuiStep::StartThenShow
            } else {
                TuiStep::Leave
            },
        }),
{
    match event {
        TuiEvent::Controller { running } => if *running {
            TuiStep::Show
        } else if interactive {
            TuiStep::Ask
        } else {
            TuiStep::Refuse
        },
        TuiEvent::Answer { text } => if confirmed(text.as_str()) {
            TuiStep::StartThenShow
        } else {
            TuiStep::Leave
        },
    }
}

/// Where the runtime directories are where the system names no place for them.
pub fn fallback_runtime_directory(uid: u32) -> (path: String)
    ensures
        path@ == "/tmp/atra-"@ + decimal(uid as int),
{
    concat2("/tmp/atra-", decimal_text(uid as i128).as_str())
}

/// Where the logins of the providers are, below the directory for data.
pub fn provider_auth_home() -> (path: &'static str)
    ensures
        path@ == "atra/providers"@,
{
    "atra/providers"
}

/// The directories of the sandbox of a workspace, each in the one before it,
/// below the directory for state.
pub open spec fn directories_of(name: Seq<char>) -> Seq<Seq<char>> {
    seq![
        "atra"@,
        "atra/workspaces"@,
        "atra/workspaces/"@ + name,
        "atra/workspaces/"@ + name + "/sandbox"@,
        "atra/workspaces/"@ + name + "/sandbox/home"@,
    ]
}

/// The directories of the sandbox of a workspace.
pub fn sandbox_directories(name: &str) -> (paths: Vec<String>)
    ensures
        views(paths@) == directories_of(name@),
        paths.len() == 5,
{
    let paths = vec![
        "atra".to_owned(),
        "atra/workspaces".to_owned(),
        concat2("atra/workspaces/", name),
        concat3("atra/workspaces/", name, "/sandbox"),
        concat3("atra/workspaces/", name, "/sandbox/home"),
    ];
    assert(views(paths@) =~= directories_of(name@));
    paths
}

/// The home directory of the sandbox of a workspace.
pub fn sandbox_home_path(name: &str) -> (path: String)
    ensures
        path@ == directories_of(name@).last(),
{
    let paths = sandbox_directories(name);
    assert(views(paths@)[4] == paths[4]@);
    paths[4].clone()
}

/// Whether a directory belongs to the user alone.
pub open spec fn private(is_dir: bool, is_link: bool, owner: u32, user: u32, mode: u32) -> bool {
    is_dir && !is_link && owner == user && mode % 512 == 448
}

/// Whether a directory belongs to the user alone: it is a directory and no link,
/// the user owns it, and its permissions are `0700`.
pub fn is_private_directory(is_dir: bool, is_link: bool, owner: u32, user: u32, mode: u32) -> (result:
    bool)
    ensures
        result == private(is_dir, is_link, owner, user, mode),
{
    is_dir && !is_link && owner == user && mode % 512 == 448
}

/// What the user is told of a directory that is not private.
pub fn not_private(path: &str) -> (text: String)
    ensures
        text@ == path@ + " must be a directory owned by the current user with mode 0700"@,
{
    concat2(path, " must be a directory owned by the current user with mode 0700")
}

/// Whether the controller was started or ran already.
#[derive(Clone, Copy, Debug, PartialEq, Eq, Structural)]
pub enum ControllerStart {
    Started,
    AlreadyRunning,
}

impl ControllerStart {
    /// What the user is told.
    pub fn message(self) -> (text: &'static str)
        ensures
            text@ == (match self {
                ControllerStart::Started => "started"@,
                ControllerStart::AlreadyRunning => "already running"@,
            }),
    {
        match self {
            ControllerStart::Started => "started",
            ControllerStart::AlreadyRunning => "already running",
        }
    }
}

/// What is learned while the controller starts: at first whether it runs, later
/// also how its process does.
#[derive(Debug, PartialEq)]
pub enum ControllerEvent {
    First { running: bool },
    Running,
    Exited { status: String },
    Silent { late: bool },
}

/// What is done next while the controller starts.
#[derive(Debug, PartialEq)]
pub enum ControllerStep {
    /// The workspace is made known, and the start is done.
    Publish(ControllerStart),
    /// The process of the controller is started.
    Spawn,
    /// A moment later the controller is asked again.
    Sleep,
    /// The start fails.
    Fail { message: String },
    /// The process is ended, and the start fails.
    Kill { message: String },
}

/// What is done next while the controller starts.
pub fn start_controller(event: &ControllerEvent, log: &str) -> (step: ControllerStep)
    ensures
        match *event {
            ControllerEvent::First { running } => step == (if running {
                ControllerStep::Publish(ControllerStart::AlreadyRunning)
            } else {
                ControllerStep::Spawn
            }),
            ControllerEvent::Running => step == ControllerStep::Publish(ControllerStart::Started),
            ControllerEvent::Exited { status } => step matches ControllerStep::Fail { message }
                && message@ == "controller exited with "@ + status@ + "; see "@ + log@,
            ControllerEvent::Silent { late } => if late {
                step matches ControllerStep::Kill { message } && message@
                    == "controller did not become ready within 10 seconds; see "@ + log@
            } else {
                step == ControllerStep::Sleep
            },
        },
{
    match event {
        ControllerEvent::First { running } => if *running {
            ControllerStep::Publish(ControllerStart::AlreadyRunning)
        } else {
            ControllerStep::Spawn
        },
        ControllerEvent::Running => ControllerStep::Publish(ControllerStart::Started),
        ControllerEvent::Exited { status } => ControllerStep::Fail {
            message: concat4("controller exited with ", status.as_str(), "; see ", log),
        },
        ControllerEvent::Silent { late } => if *late {
            ControllerStep::Kill {
                message: concat2(
                    "controller did not become ready within 10 seconds; see ",
                    log,
                ),
            }
        } else {
            ControllerStep::Sleep
        },
    }
}

/// What is done next while the controller stops.
#[derive(Clone, Copy, Debug, PartialEq, Eq, Structural)]
pub enum StopStep {
    Done,
    Sleep,
    Fail,
}

/// What is done next while the controller stops. After the last moment it must
/// have stopped.
pub fn stop_controller(running: bool, late: bool) -> (step: StopStep)
    ensures
        step == (if !running {
            StopStep::Done
        } else if late {
            StopStep::Fail
        } else {
            StopStep::Sleep
        }),
{
    if !running {
        StopStep::Done
    } else if late {
        StopStep::Fail
    } else {
        StopStep::Sleep
    }
}

/// Settings are read as they are written, and each that is not written has its
/// default: the runners that come with the program are launched, and nothing is set
/// up. A setting that is not known is refused.
pub proof fn law_settings_are_read(runners: bool, setup: Seq<char>, key: Seq<char>, value: JsonView)
    ensures
        config_of(JsonView::object()) == Some(ConfigView { builtin_runners: true, setup: None }),
        config_of(
            JsonView::object().with("builtin_runners"@, JsonView::Bool(runners)).with_text(
                "setup"@,
                setup,
            ),
        ) == Some(ConfigView { builtin_runners: runners, setup: Some(setup) }),
        config_of(JsonView::object().with("builtin_runners"@, JsonView::Bool(runners))) == Some(
            ConfigView { builtin_runners: runners, setup: None },
        ),
        config_of(JsonView::object().with_text("setup"@, setup)) == Some(
            ConfigView { builtin_runners: true, setup: Some(setup) },
        ),
        key != "builtin_runners"@ && key != "setup"@ ==> config_of(
            JsonView::object().with(key, value),
        ) is None,
        !(value is Bool) ==> config_of(JsonView::object().with("builtin_runners"@, value)) is None,
        !(value is Text) ==> config_of(JsonView::object().with("setup"@, value)) is None,
{
    broadcast use crate::json::lemma_with, crate::json::lemma_no_fields;

    reveal_strlit("builtin_runners");
    reveal_strlit("setup");
    assert("builtin_runners"@.len() == 15 && "setup"@.len() == 5);
    let odd = JsonView::object().with(key, value);
    assert(odd->Object_0[0].0 == key);
}

/// The host asks before each command, the sandbox does not. Both are started by the
/// program itself, and the sandbox is that of the workspace.
pub proof fn law_only_the_sandbox_needs_no_approval(executable: Seq<char>, workspace: Seq<char>)
    ensures
        host_runner(executable).approval is Ask,
        sandbox_runner(executable, workspace).approval is Allow,
        host_runner(executable).name == "host"@,
        sandbox_runner(executable, workspace).name == "sandbox"@,
        host_runner(executable).command == seq![executable, "runner"@, "run"@, "--stdio"@],
        sandbox_runner(executable, workspace).command[0] == executable,
        sandbox_runner(executable, workspace).command[1] == "runner"@,
        sandbox_runner(executable, workspace).command[2] == "sandbox"@,
        sandbox_runner(executable, workspace).command.contains(workspace),
        sandbox_runner(executable, workspace).command.last() == workspace,
{
    assert(sandbox_runner(executable, workspace).command[6] == workspace);
}

/// The command of a runner is the one that was given, and that of the program where
/// none was.
pub proof fn law_given_command_is_run(command: Seq<Seq<char>>, executable: Seq<char>)
    ensures
        command.len() > 0 ==> command_of(command, executable) == command,
        command.len() == 0 ==> command_of(command, executable)[0] == executable && command_of(
            command,
            executable,
        ).len() == 4,
{
}

/// A workspace starts with its controller. Its runners are launched where they are
/// wanted, both of them, and what is to be set up is set up last.
pub proof fn law_workspace_starts_with_the_controller(config: ConfigView)
    ensures
        ({
            let steps = start_steps(config);
            &&& steps[0] is StartController
            &&& steps.contains(StartStep::LaunchHost) <==> config.builtin_runners
            &&& steps.contains(StartStep::LaunchSandbox) <==> config.builtin_runners
            &&& steps.contains(StartStep::RunSetup) <==> config.setup is Some
            &&& config.setup is Some ==> steps.last() is RunSetup
            &&& steps.no_duplicates()
        }),
{
    let steps = start_steps(config);
    if config.builtin_runners {
        assert(steps[1] is LaunchHost && steps[2] is LaunchSandbox);
        if config.setup is Some {
            assert(steps[3] is RunSetup);
        }
    } else {
        if config.setup is Some {
            assert(steps[1] is RunSetup);
        }
    }
}

/// What is removed, and when: nothing while the controller runs, nothing where there
/// is no home, and only what is private, by force or where the user says yes.
pub proof fn law_clean_goes_step_by_step(event: CleanEvent, force: bool, interactive: bool)
    ensures
        ({
            let step = clean_next(event, force, interactive);
            &&& step is RefuseRunning <==> event == (CleanEvent::Controller { running: true })
            &&& step is LookForHome <==> event == (CleanEvent::Controller { running: false })
            &&& step is CheckDirectories <==> event == (CleanEvent::Home { exists: true })
            &&& step is Ask <==> event is Private && !force && interactive
            &&& step is RefuseWithoutForce <==> event is Private && !force && !interactive
            &&& step is Remove <==> (event is Private && force) || (event
                matches CleanEvent::Answer { text } && says_yes(text@))
            &&& step.words() is Some <==> step is RefuseRunning || step is RefuseWithoutForce
        }),
{
}

/// The interface is shown where the controller runs. Where it does not, it is started
/// only if the user, who must be there to be asked, says yes.
pub proof fn law_interface_is_shown_with_a_controller(
    event: TuiEvent,
    interactive: bool,
    step: TuiStep,
)
    requires
        call_ensures(prepare_tui, (&event, interactive), step),
    ensures
        step is Show <==> event == (TuiEvent::Controller { running: true }),
        step is Ask <==> event == (TuiEvent::Controller { running: false }) && interactive,
        step is Refuse <==> event == (TuiEvent::Controller { running: false }) && !interactive,
        step is StartThenShow <==> (event matches TuiEvent::Answer { text } && says_yes(text@)),
        step is Leave <==> (event matches TuiEvent::Answer { text } && !says_yes(text@)),
{
}

/// A controller that runs is not started again; one that is started is waited for
/// until it runs, exits, or takes too long, and is then ended. One that is stopped is
/// waited for as well.
pub proof fn law_controller_is_started_once(
    event: ControllerEvent,
    log: &str,
    step: ControllerStep,
    running: bool,
    late: bool,
    stopped: StopStep,
)
    requires
        call_ensures(start_controller, (&event, log), step),
        call_ensures(stop_controller, (running, late), stopped),
    ensures
        step is Spawn <==> event == (ControllerEvent::First { running: false }),
        step == ControllerStep::Publish(ControllerStart::AlreadyRunning) <==> event == (
        ControllerEvent::First { running: true }),
        step == ControllerStep::Publish(ControllerStart::Started) <==> event is Running,
        step is Fail <==> event is Exited,
        step is Kill <==> event == (ControllerEvent::Silent { late: true }),
        step is Sleep <==> event == (ControllerEvent::Silent { late: false }),
        stopped is Done <==> !running,
        stopped is Fail <==> running && late,
        stopped is Sleep <==> running && !late,
{
}

/// A directory is private where it is the user's own, is no link, and nobody else may
/// read, write or enter it.
pub proof fn law_private_directory(is_dir: bool, is_link: bool, owner: u32, user: u32, mode: u32)
    ensures
        private(is_dir, is_link, owner, user, mode) <==> is_dir && !is_link && owner == user && mode
            & 0o777 == 0o700,
{
    assert((mode % 512 == 448) == (mode & 0o777 == 0o700)) by (bit_vector);
}

/// The directories of the sandbox are listed from the outside in: each stands in the
/// one before it, and the last is its home.
pub proof fn law_directories_are_nested(name: Seq<char>, i: int)
    requires
        0 <= i < 4,
    ensures
        directories_of(name).len() == 5,
        directories_of(name)[i].is_prefix_of(directories_of(name)[i + 1]),
        directories_of(name)[i].len() < directories_of(name)[i + 1].len(),
        crate::text::has_suffix(directories_of(name)[4], name + "/sandbox/home"@),
{
    reveal_strlit("atra");
    reveal_strlit("atra/workspaces");
    reveal_strlit("atra/workspaces/");
    reveal_strlit("/sandbox");
    reveal_strlit("/sandbox/home");
    let paths = directories_of(name);
    assert(paths[0] =~= paths[1].take(4));
    assert(paths[1] =~= paths[2].take(15));
    assert("atra/workspaces/"@ + name =~= paths[3].take(16 + name.len() as int));
    assert(paths[3] =~= paths[4].take(24 + name.len() as int));
    let ending = name + "/sandbox/home"@;
    assert(paths[4].skip(paths[4].len() - ending.len()) =~= ending);
}

} // verus!
