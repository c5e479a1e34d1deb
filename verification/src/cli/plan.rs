//! What is done for a command of the user.
use crate::commands::{Command, HistoryTarget, ProcessLocator};
use crate::event::ApprovalPolicy;
use vstd::prelude::*;

verus! {

/// A command of the user. What only names files stays with the one who read it.
#[allow(inconsistent_fields)]
#[derive(Debug, PartialEq)]
pub enum Invocation {
    ControllerStart,
    ControllerStop,
    ControllerRun,
    ControllerStatus,
    WorkspaceStart,
    WorkspaceClean { force: bool },
    RunnerRun { stdio: bool },
    RunnerSandbox,
    RunnerList,
    RunnerUpload,
    RunnerLaunch {
        name: String,
        description: String,
        approval: ApprovalPolicy,
        command: Vec<String>,
    },
    RunnerExec {
        thread: i64,
        name: String,
        command: String,
        background: bool,
        timeout_ms: Option<u64>,
    },
    RunnerWait { thread: i64, name: String, process_id: String, timeout_ms: u64 },
    RunnerStop { thread: i64, name: String, process_id: String },
    Thread(ThreadInvocation),
    ApprovalAllow { approval: u64 },
    ApprovalDeny { approval: u64, reason: Option<String> },
    PlatformDownload,
    PlatformInstall,
    PlatformExec,
    ProviderList,
    ProviderLogin { provider: String },
    ProviderLogout { provider: String },
    ProviderStatus { provider: String },
    Tui,
}

/// A command of the user for threads.
#[allow(inconsistent_fields)]
#[derive(Debug, PartialEq)]
pub enum ThreadInvocation {
    Create { name: Option<String> },
    List,
    Rename { thread: i64, name: String },
    Model { thread: i64, provider: String, model: String, reasoning_effort: String },
    Send { thread: i64, message: String },
    Events { thread: i64 },
    CheckpointCreate { thread: i64 },
    CheckpointList { thread: i64 },
    CheckpointEvents { checkpoint: i64 },
    CheckpointRestore { thread: i64, checkpoint: i64 },
    Fork { thread: i64, checkpoint: Option<i64>, sequence: i64, name: Option<String> },
    Rewind { thread: i64, checkpoint: Option<i64>, sequence: i64 },
    Continue { thread: i64 },
    Compact { thread: i64 },
}

/// What is done for a command of the user.
#[allow(inconsistent_fields)]
#[derive(Debug, PartialEq)]
pub enum Plan {
    /// The command is refused with these words.
    Refuse { message: &'static str },
    /// This process becomes a runner.
    ServeRunner,
    /// This process becomes a runner in a sandbox.
    ServeSandbox,
    DownloadPlatform,
    InstallPlatform,
    RunTool,
    StartController,
    StopController,
    RunController,
    ShowController,
    StartWorkspace,
    CleanWorkspace { force: bool },
    ShowInterface,
    UploadRunner,
    /// A runner is launched, and it is waited for.
    Launch {
        name: String,
        description: String,
        approval: ApprovalPolicy,
        command: Vec<String>,
    },
    /// The controller must accept the command. Then these words are shown, if any.
    Ask { command: Command, words: Option<&'static str> },
    /// The number of the thread that the command makes is shown.
    AskForThread { command: Command },
    /// The command starts a process, which is followed unless it is left alone.
    Execute { command: Command, background: bool, timeout_ms: Option<u64> },
    /// A process is followed to its end.
    Follow { process: ProcessLocator, timeout_ms: u64 },
    /// A process is stopped, and what it wrote is shown.
    StopProcess { process: ProcessLocator },
    /// The thread is followed while the command runs a turn.
    Turn { thread_id: i64, command: Command, compacting: bool },
    /// The number of the checkpoint that the command makes is shown.
    AskForCheckpoint { thread_id: i64, command: Command },
    ShowThreads,
    ShowRunners,
    ShowProviders,
    ShowEvents { thread_id: i64 },
    ShowCheckpoints { thread_id: i64 },
    ShowCheckpointEvents { checkpoint_id: i64 },
    Login { provider: String },
    Logout { provider: String },
    ShowProvider { provider: String },
}

/// What is done for a command for threads.
pub open spec fn thread_planned(invocation: ThreadInvocation) -> Plan {
    match invocation {
        ThreadInvocation::Create { name } => Plan::AskForThread {
            command: Command::ThreadCreate { display_name: name },
        },
        ThreadInvocation::List => Plan::ShowThreads,
        ThreadInvocation::Rename { thread, name } => Plan::Ask {
            command: Command::ThreadRename { thread_id: thread, display_name: name },
            words: Some("renamed"),
        },
        ThreadInvocation::Model { thread, provider, model, reasoning_effort } => Plan::Ask {
            command: Command::ThreadSetModel {
                thread_id: thread,
                provider,
                model,
                reasoning_effort,
            },
            words: Some("model changed"),
        },
        ThreadInvocation::Send { thread, message } => Plan::Turn {
            thread_id: thread,
            command: Command::ThreadSend { thread_id: thread, message, allow_questions: false },
            compacting: false,
        },
        ThreadInvocation::Events { thread } => Plan::ShowEvents { thread_id: thread },
        ThreadInvocation::CheckpointCreate { thread } => Plan::AskForCheckpoint {
            thread_id: thread,
            command: Command::ThreadCheckpointCreate { thread_id: thread },
        },
        ThreadInvocation::CheckpointList { thread } => Plan::ShowCheckpoints { thread_id: thread },
        ThreadInvocation::CheckpointEvents { checkpoint } => Plan::ShowCheckpointEvents {
            checkpoint_id: checkpoint,
        },
        ThreadInvocation::CheckpointRestore { thread, checkpoint } => Plan::Ask {
            command: Command::ThreadReplaceHistory {
                thread_id: thread,
                target: HistoryTarget::Checkpoint { checkpoint_id: checkpoint },
            },
            words: Some("restored"),
        },
        ThreadInvocation::Fork { thread, checkpoint, sequence, name } => Plan::AskForThread {
            command: Command::ThreadFork {
                thread_id: thread,
                checkpoint_id: checkpoint,
                sequence,
                display_name: name,
            },
        },
        ThreadInvocation::Rewind { thread, checkpoint, sequence } => Plan::Ask {
            command: Command::ThreadReplaceHistory {
                thread_id: thread,
                target: HistoryTarget::Message { checkpoint_id: checkpoint, sequence },
            },
            words: Some("rewound"),
        },
        ThreadInvocation::Continue { thread } => Plan::Turn {
            thread_id: thread,
            command: Command::ThreadContinue { thread_id: thread, allow_questions: false },
            compacting: false,
        },
        ThreadInvocation::Compact { thread } => Plan::Turn {
            thread_id: thread,
            command: Command::ThreadCompact { thread_id: thread, allow_questions: false },
            compacting: true,
        },
    }
}

/// What is done for a command of the user.
pub open spec fn planned(invocation: Invocation) -> Plan {
    match invocation {
        Invocation::ControllerStart => Plan::StartController,
        Invocation::ControllerStop => Plan::StopController,
        Invocation::ControllerRun => Plan::RunController,
        Invocation::ControllerStatus => Plan::ShowController,
        Invocation::WorkspaceStart => Plan::StartWorkspace,
        Invocation::WorkspaceClean { force } => Plan::CleanWorkspace { force },
        Invocation::RunnerRun { stdio } => if stdio {
            Plan::ServeRunner
        } else {
            Plan::Refuse { message: "--stdio is required" }
        },
        Invocation::RunnerSandbox => Plan::ServeSandbox,
        Invocation::RunnerList => Plan::ShowRunners,
        Invocation::RunnerUpload => Plan::UploadRunner,
        Invocation::RunnerLaunch { name, description, approval, command } => Plan::Launch {
            name,
            description,
            approval,
            command,
        },
        Invocation::RunnerExec { thread, name, command, background, timeout_ms } => {
            if background && timeout_ms is Some {
                Plan::Refuse { message: "background commands cannot have timeout options" }
            } else {
                Plan::Execute {
                    command: Command::ExecCommand { thread_id: thread, runner: name, command },
                    background,
                    timeout_ms,
                }
            }
        },
        Invocation::RunnerWait { thread, name, process_id, timeout_ms } => Plan::Follow {
            process: ProcessLocator { thread_id: thread, runner: name, process_id },
            timeout_ms,
        },
        Invocation::RunnerStop { thread, name, process_id } => Plan::StopProcess {
            process: ProcessLocator { thread_id: thread, runner: name, process_id },
        },
        Invocation::Thread(invocation) => thread_planned(invocation),
        Invocation::ApprovalAllow { approval } => Plan::Ask {
            command: Command::ApprovalAllow { approval_id: approval },
            words: None,
        },
        Invocation::ApprovalDeny { approval, reason } => Plan::Ask {
            command: Command::ApprovalDeny { approval_id: approval, reason },
            words: None,
        },
        Invocation::PlatformDownload => Plan::DownloadPlatform,
        Invocation::PlatformInstall => Plan::InstallPlatform,
        Invocation::PlatformExec => Plan::RunTool,
        Invocation::ProviderList => Plan::ShowProviders,
        Invocation::ProviderLogin { provider } => Plan::Login { provider },
        Invocation::ProviderLogout { provider } => Plan::Logout { provider },
        Invocation::ProviderStatus { provider } => Plan::ShowProvider { provider },
        Invocation::Tui => Plan::ShowInterface,
    }
}

/// What is done for a command for threads.
pub fn run_thread(invocation: ThreadInvocation) -> (plan: Plan)
    ensures
        plan == thread_planned(invocation),
{
    match invocation {
        ThreadInvocation::Create { name } => Plan::AskForThread {
            command: Command::ThreadCreate { display_name: name },
        },
        ThreadInvocation::List => Plan::ShowThreads,
        ThreadInvocation::Rename { thread, name } => Plan::Ask {
            command: Command::ThreadRename { thread_id: thread, display_name: name },
            words: Some("renamed"),
        },
        ThreadInvocation::Model { thread, provider, model, reasoning_effort } => Plan::Ask {
            command: Command::ThreadSetModel {
                thread_id: thread,
                provider,
                model,
                reasoning_effort,
            },
            words: Some("model changed"),
        },
        ThreadInvocation::Send { thread, message } => Plan::Turn {
            thread_id: thread,
            command: Command::ThreadSend { thread_id: thread, message, allow_questions: false },
            compacting: false,
        },
        ThreadInvocation::Events { thread } => Plan::ShowEvents { thread_id: thread },
        ThreadInvocation::CheckpointCreate { thread } => Plan::AskForCheckpoint {
            thread_id: thread,
            command: Command::ThreadCheckpointCreate { thread_id: thread },
        },
        ThreadInvocation::CheckpointList { thread } => Plan::ShowCheckpoints { thread_id: thread },
        ThreadInvocation::CheckpointEvents { checkpoint } => Plan::ShowCheckpointEvents {
            checkpoint_id: checkpoint,
        },
        ThreadInvocation::CheckpointRestore { thread, checkpoint } => Plan::Ask {
            command: Command::ThreadReplaceHistory {
                thread_id: thread,
                target: HistoryTarget::Checkpoint { checkpoint_id: checkpoint },
            },
            words: Some("restored"),
        },
        ThreadInvocation::Fork { thread, checkpoint, sequence, name } => Plan::AskForThread {
            command: Command::ThreadFork {
                thread_id: thread,
                checkpoint_id: checkpoint,
                sequence,
                display_name: name,
            },
        },
        ThreadInvocation::Rewind { thread, checkpoint, sequence } => Plan::Ask {
            command: Command::ThreadReplaceHistory {
                thread_id: thread,
                target: HistoryTarget::Message { checkpoint_id: checkpoint, sequence },
            },
            words: Some("rewound"),
        },
        ThreadInvocation::Continue { thread } => Plan::Turn {
            thread_id: thread,
            command: Command::ThreadContinue { thread_id: thread, allow_questions: false },
            compacting: false,
        },
        ThreadInvocation::Compact { thread } => Plan::Turn {
            thread_id: thread,
            command: Command::ThreadCompact { thread_id: thread, allow_questions: false },
            compacting: true,
        },
    }
}

/// What is done for a command of the user.
pub fn run(invocation: Invocation) -> (plan: Plan)
    ensures
        plan == planned(invocation),
{
    match invocation {
        Invocation::ControllerStart => Plan::StartController,
        Invocation::ControllerStop => Plan::StopController,
        Invocation::ControllerRun => Plan::RunController,
        Invocation::ControllerStatus => Plan::ShowController,
        Invocation::WorkspaceStart => Plan::StartWorkspace,
        Invocation::WorkspaceClean { force } => Plan::CleanWorkspace { force },
        Invocation::RunnerRun { stdio } => if stdio {
            Plan::ServeRunner
        } else {
            Plan::Refuse { message: "--stdio is required" }
        },
        Invocation::RunnerSandbox => Plan::ServeSandbox,
        Invocation::RunnerList => Plan::ShowRunners,
        Invocation::RunnerUpload => Plan::UploadRunner,
        Invocation::RunnerLaunch { name, description, approval, command } => Plan::Launch {
            name,
            description,
            approval,
            command,
        },
        Invocation::RunnerExec { thread, name, command, background, timeout_ms } => {
            if background && timeout_ms.is_some() {
                Plan::Refuse { message: "background commands cannot have timeout options" }
            } else {
                Plan::Execute {
                    command: Command::ExecCommand { thread_id: thread, runner: name, command },
                    background,
                    timeout_ms,
                }
            }
        },
        Invocation::RunnerWait { thread, name, process_id, timeout_ms } => Plan::Follow {
            process: ProcessLocator { thread_id: thread, runner: name, process_id },
            timeout_ms,
        },
        Invocation::RunnerStop { thread, name, process_id } => Plan::StopProcess {
            process: ProcessLocator { thread_id: thread, runner: name, process_id },
        },
        Invocation::Thread(invocation) => run_thread(invocation),
        Invocation::ApprovalAllow { approval } => Plan::Ask {
            command: Command::ApprovalAllow { approval_id: approval },
            words: None,
        },
        Invocation::ApprovalDeny { approval, reason } => Plan::Ask {
            command: Command::ApprovalDeny { approval_id: approval, reason },
            words: None,
        },
        Invocation::PlatformDownload => Plan::DownloadPlatform,
        Invocation::PlatformInstall => Plan::InstallPlatform,
        Invocation::PlatformExec => Plan::RunTool,
        Invocation::ProviderList => Plan::ShowProviders,
        Invocation::ProviderLogin { provider } => Plan::Login { provider },
        Invocation::ProviderLogout { provider } => Plan::Logout { provider },
        Invocation::ProviderStatus { provider } => Plan::ShowProvider { provider },
        Invocation::Tui => Plan::ShowInterface,
    }
}

/// Whether a command has to do with a workspace. One that has not is done before
/// the workspace is looked for.
pub fn needs_workspace(invocation: &Invocation) -> (needed: bool)
    ensures
        needed == !(invocation is RunnerRun || invocation is RunnerSandbox || invocation
            is PlatformDownload || invocation is PlatformInstall || invocation is PlatformExec),
{
    match invocation {
        Invocation::RunnerRun { .. } => false,
        Invocation::RunnerSandbox => false,
        Invocation::PlatformDownload => false,
        Invocation::PlatformInstall => false,
        Invocation::PlatformExec => false,
        _ => true,
    }
}

/// The thread that a turn is about is the one that is followed, and the turn asks
/// the user nothing.
pub proof fn law_turn_is_followed(invocation: Invocation)
    ensures
        planned(invocation) matches Plan::Turn { thread_id, command, compacting } ==> (match command {
            Command::ThreadSend { thread_id: other, allow_questions, .. } => thread_id == other
                && !allow_questions && !compacting,
            Command::ThreadContinue { thread_id: other, allow_questions } => thread_id == other
                && !allow_questions && !compacting,
            Command::ThreadCompact { thread_id: other, allow_questions } => thread_id == other
                && !allow_questions && compacting,
            _ => false,
        }),
{
}

/// The command that the controller is asked for, where a plan asks it for one.
pub open spec fn asked(plan: Plan) -> Option<Command> {
    match plan {
        Plan::Ask { command, .. } => Some(command),
        Plan::AskForThread { command } => Some(command),
        Plan::Execute { command, .. } => Some(command),
        Plan::Turn { command, .. } => Some(command),
        Plan::AskForCheckpoint { command, .. } => Some(command),
        _ => None,
    }
}

/// The controller is asked to allow an approval if and only if the user allows that
/// one, and to deny it if and only if the user denies that one, for the reason that
/// the user gives.
pub proof fn law_approvals_are_answered_as_the_user_says(
    invocation: Invocation,
    id: u64,
    why: Option<String>,
)
    ensures
        asked(planned(invocation)) == Some(Command::ApprovalAllow { approval_id: id })
            <==> invocation == (Invocation::ApprovalAllow { approval: id }),
        asked(planned(invocation)) == Some(Command::ApprovalDeny { approval_id: id, reason: why })
            <==> invocation == (Invocation::ApprovalDeny { approval: id, reason: why }),
        (invocation is ApprovalAllow || invocation is ApprovalDeny) ==> (planned(
            invocation,
        ) matches Plan::Ask { words, .. } && words is None),
{
}

/// Commands of the user that differ are planned differently, unless both are
/// refused: no part of what the user says is lost.
pub proof fn law_different_commands_are_planned_differently(one: Invocation, other: Invocation)
    requires
        one != other,
        !(planned(one) is Refuse && planned(other) is Refuse),
    ensures
        planned(one) != planned(other),
{
}

/// Two commands of the user that ask the controller for the same thing differ at
/// most in how long the process that is started is followed.
pub proof fn law_different_commands_ask_for_different_things(one: Invocation, other: Invocation)
    requires
        one != other,
        asked(planned(one)) is Some,
        asked(planned(one)) == asked(planned(other)),
    ensures
        one matches Invocation::RunnerExec { thread, name, command, .. } && other
            == (Invocation::RunnerExec {
            thread,
            name,
            command,
            background: other->RunnerExec_background,
            timeout_ms: other->RunnerExec_timeout_ms,
        }),
{
}

/// The controller is asked to start a turn, to rename, fork, rewind or restore a
/// thread, to choose its model, to make a checkpoint or to start a process exactly
/// where the user wants that, with what the user gave.
pub proof fn law_threads_are_treated_as_the_user_says(
    invocation: Invocation,
    thread: i64,
    checkpoint: Option<i64>,
    saved: i64,
    sequence: i64,
    name: Option<String>,
    text: String,
    provider: String,
    model: String,
)
    ensures
        asked(planned(invocation)) == Some(Command::ThreadCreate { display_name: name })
            <==> invocation == Invocation::Thread(ThreadInvocation::Create { name }),
        asked(planned(invocation)) == Some(
            Command::ThreadRename { thread_id: thread, display_name: text },
        ) <==> invocation == Invocation::Thread(ThreadInvocation::Rename { thread, name: text }),
        asked(planned(invocation)) == Some(
            Command::ThreadSetModel { thread_id: thread, provider, model, reasoning_effort: text },
        ) <==> invocation == Invocation::Thread(
            ThreadInvocation::Model { thread, provider, model, reasoning_effort: text },
        ),
        asked(planned(invocation)) == Some(
            Command::ThreadSend { thread_id: thread, message: text, allow_questions: false },
        ) <==> invocation == Invocation::Thread(ThreadInvocation::Send { thread, message: text }),
        asked(planned(invocation)) == Some(
            Command::ThreadContinue { thread_id: thread, allow_questions: false },
        ) <==> invocation == Invocation::Thread(ThreadInvocation::Continue { thread }),
        asked(planned(invocation)) == Some(
            Command::ThreadCompact { thread_id: thread, allow_questions: false },
        ) <==> invocation == Invocation::Thread(ThreadInvocation::Compact { thread }),
        asked(planned(invocation)) == Some(Command::ThreadCheckpointCreate { thread_id: thread })
            <==> invocation == Invocation::Thread(ThreadInvocation::CheckpointCreate { thread }),
        asked(planned(invocation)) == Some(
            Command::ThreadFork {
                thread_id: thread,
                checkpoint_id: checkpoint,
                sequence,
                display_name: name,
            },
        ) <==> invocation == Invocation::Thread(
            ThreadInvocation::Fork { thread, checkpoint, sequence, name },
        ),
        asked(planned(invocation)) == Some(
            Command::ThreadReplaceHistory {
                thread_id: thread,
                target: HistoryTarget::Message { checkpoint_id: checkpoint, sequence },
            },
        ) <==> invocation == Invocation::Thread(
            ThreadInvocation::Rewind { thread, checkpoint, sequence },
        ),
        asked(planned(invocation)) == Some(
            Command::ThreadReplaceHistory {
                thread_id: thread,
                target: HistoryTarget::Checkpoint { checkpoint_id: saved },
            },
        ) <==> invocation == Invocation::Thread(
            ThreadInvocation::CheckpointRestore { thread, checkpoint: saved },
        ),
        planned(invocation) is Turn ==> (asked(planned(invocation)) matches Some(command) && (
        command is ThreadSend || command is ThreadContinue || command is ThreadCompact)),
        planned(invocation) matches Plan::AskForCheckpoint { thread_id, command } ==> command == (
        Command::ThreadCheckpointCreate { thread_id }),
        (asked(planned(invocation)) matches Some(command) && (command is ThreadCreate || command
            is ThreadFork)) <==> planned(invocation) is AskForThread,
        (planned(invocation) matches Plan::ShowEvents { thread_id } && thread_id == thread)
            <==> invocation == Invocation::Thread(ThreadInvocation::Events { thread }),
        (planned(invocation) matches Plan::ShowCheckpoints { thread_id } && thread_id == thread)
            <==> invocation == Invocation::Thread(ThreadInvocation::CheckpointList { thread }),
        (planned(invocation) matches Plan::ShowCheckpointEvents { checkpoint_id } && checkpoint_id
            == saved) <==> invocation == Invocation::Thread(
            ThreadInvocation::CheckpointEvents { checkpoint: saved },
        ),
        planned(invocation) is ShowThreads <==> invocation == Invocation::Thread(
            ThreadInvocation::List,
        ),
{
}

/// What the user is told when the controller has accepted a command says which
/// command it was.
pub proof fn law_words_name_what_was_done(invocation: Invocation)
    ensures
        planned(invocation) matches Plan::Ask { command, words } ==> (match words {
            None => command is ApprovalAllow || command is ApprovalDeny,
            Some(words) => {
                &&& words@ == "renamed"@ <==> command is ThreadRename
                &&& words@ == "model changed"@ <==> command is ThreadSetModel
                &&& words@ == "restored"@ <==> (command matches Command::ThreadReplaceHistory {
                    target,
                    ..
                } && target is Checkpoint)
                &&& words@ == "rewound"@ <==> (command matches Command::ThreadReplaceHistory {
                    target,
                    ..
                } && target is Message)
            },
        }),
{
    reveal_strlit("renamed");
    reveal_strlit("model changed");
    reveal_strlit("restored");
    reveal_strlit("rewound");
    assert("renamed"@[2] != "rewound"@[2]);
    assert("renamed"@ != "rewound"@);
    assert("renamed"@.len() == 7 && "restored"@.len() == 8 && "model changed"@.len() == 13);
}

/// A runner is started, followed, stopped and launched as the user says; a command
/// that is left alone has no time limit.
pub proof fn law_runners_are_treated_as_the_user_says(invocation: Invocation)
    ensures
        planned(invocation) is Refuse <==> (invocation matches Invocation::RunnerRun { stdio }
            && !stdio) || (invocation matches Invocation::RunnerExec { background, timeout_ms, .. }
            && background && timeout_ms is Some),
        planned(invocation) is ServeRunner <==> invocation == (Invocation::RunnerRun { stdio: true }),
        planned(invocation) matches Plan::Execute { command, background, timeout_ms } ==> (command
            matches Command::ExecCommand { thread_id, runner, command } && invocation == (
        Invocation::RunnerExec { thread: thread_id, name: runner, command, background, timeout_ms })
            && !(background && timeout_ms is Some)),
        (invocation is RunnerExec && !(planned(invocation) is Refuse)) ==> planned(
            invocation,
        ) is Execute,
        planned(invocation) matches Plan::Follow { process, timeout_ms } ==> invocation == (
        Invocation::RunnerWait {
            thread: process.thread_id,
            name: process.runner,
            process_id: process.process_id,
            timeout_ms,
        }),
        invocation is RunnerWait ==> planned(invocation) is Follow,
        planned(invocation) matches Plan::StopProcess { process } ==> invocation == (
        Invocation::RunnerStop {
            thread: process.thread_id,
            name: process.runner,
            process_id: process.process_id,
        }),
        invocation is RunnerStop ==> planned(invocation) is StopProcess,
        planned(invocation) matches Plan::Launch { name, description, approval, command }
            ==> invocation == (Invocation::RunnerLaunch { name, description, approval, command }),
        invocation is RunnerLaunch ==> planned(invocation) is Launch,
        planned(invocation) is ShowRunners <==> invocation is RunnerList,
        planned(invocation) is UploadRunner <==> invocation is RunnerUpload,
        planned(invocation) is ServeSandbox <==> invocation is RunnerSandbox,
{
}

/// The controller, the workspace, the providers and the tools of the platform are
/// treated as the user says.
pub proof fn law_the_rest_is_done_as_the_user_says(invocation: Invocation)
    ensures
        planned(invocation) is StartController <==> invocation is ControllerStart,
        planned(invocation) is StopController <==> invocation is ControllerStop,
        planned(invocation) is RunController <==> invocation is ControllerRun,
        planned(invocation) is ShowController <==> invocation is ControllerStatus,
        planned(invocation) is StartWorkspace <==> invocation is WorkspaceStart,
        planned(invocation) matches Plan::CleanWorkspace { force } ==> invocation == (
        Invocation::WorkspaceClean { force }),
        invocation is WorkspaceClean ==> planned(invocation) is CleanWorkspace,
        planned(invocation) is ShowInterface <==> invocation is Tui,
        planned(invocation) is DownloadPlatform <==> invocation is PlatformDownload,
        planned(invocation) is InstallPlatform <==> invocation is PlatformInstall,
        planned(invocation) is RunTool <==> invocation is PlatformExec,
        planned(invocation) is ShowProviders <==> invocation is ProviderList,
        planned(invocation) matches Plan::Login { provider } ==> invocation == (
        Invocation::ProviderLogin { provider }),
        invocation is ProviderLogin ==> planned(invocation) is Login,
        planned(invocation) matches Plan::Logout { provider } ==> invocation == (
        Invocation::ProviderLogout { provider }),
        invocation is ProviderLogout ==> planned(invocation) is Logout,
        planned(invocation) matches Plan::ShowProvider { provider } ==> invocation == (
        Invocation::ProviderStatus { provider }),
        invocation is ProviderStatus ==> planned(invocation) is ShowProvider,
{
}

/// Only what is done without a controller needs no workspace.
pub proof fn law_controller_needs_a_workspace(invocation: Invocation, needed: bool)
    requires
        call_ensures(needs_workspace, (&invocation,), needed),
    ensures
        invocation is RunnerRun || invocation is RunnerSandbox ==> !needed,
        invocation is PlatformDownload || invocation is PlatformInstall || invocation
            is PlatformExec ==> !needed,
        !needed ==> invocation is RunnerRun || invocation is RunnerSandbox || invocation
            is PlatformDownload || invocation is PlatformInstall || invocation is PlatformExec,
{
}

} // verus!
