//! What the controller does for a command.
use crate::agent::report::TurnPhase;
use crate::event::{ApprovalPolicy, Event, TurnOutcome};
use crate::provider::{Model, ModelView, model_views, DEFAULT_MODEL};
use crate::text::{
    blank, concat2, concat3, concat4, contains_text, is_blank, same_text,
};
use vstd::prelude::*;

verus! {

/// The reasoning effort of a new thread.
pub const DEFAULT_EFFORT: &'static str = "medium";

/// A process of a thread on a runner.
#[derive(Debug, PartialEq)]
pub struct ProcessLocator {
    pub thread_id: i64,
    pub runner: String,
    pub process_id: String,
}

/// The history that takes the place of that of a thread.
#[allow(inconsistent_fields)]
#[derive(Clone, Copy, Debug, PartialEq, Eq, Structural)]
pub enum HistoryTarget {
    Checkpoint { checkpoint_id: i64 },
    Message { checkpoint_id: Option<i64>, sequence: i64 },
}

/// The answer to a question.
#[derive(Debug, PartialEq)]
pub struct QuestionAnswer {
    pub selected_option: Option<String>,
    pub note: String,
}

/// What the controller is asked to do.
#[allow(inconsistent_fields)]
#[derive(Debug, PartialEq)]
pub enum Command {
    Shutdown,
    SkillList,
    ThreadCreate { display_name: Option<String> },
    ThreadRename { thread_id: i64, display_name: String },
    ThreadDelete { thread_id: i64 },
    ThreadDeleteRecursive { thread_id: i64 },
    ThreadSetModel { thread_id: i64, provider: String, model: String, reasoning_effort: String },
    ThreadCheckpointCreate { thread_id: i64 },
    ThreadFork {
        thread_id: i64,
        checkpoint_id: Option<i64>,
        sequence: i64,
        display_name: Option<String>,
    },
    ThreadReplaceHistory { thread_id: i64, target: HistoryTarget },
    ThreadCancel { thread_id: i64 },
    ApprovalAllow { approval_id: u64 },
    ApprovalDeny { approval_id: u64, reason: Option<String> },
    QuestionAnswer { request_id: u64, answers: Vec<QuestionAnswer> },
    ThreadSend { thread_id: i64, message: String, allow_questions: bool },
    ThreadContinue { thread_id: i64, allow_questions: bool },
    ThreadCompact { thread_id: i64, allow_questions: bool },
    ProviderLogin { provider: String, credential: Option<String> },
    ProviderReloadAuth { provider: String },
    ProviderLogout { provider: String },
    RunnerLaunch {
        name: String,
        description: String,
        approval: ApprovalPolicy,
        command: Vec<String>,
    },
    ExecCommand { thread_id: i64, runner: String, command: String },
    StopProcess { process: ProcessLocator },
}

/// Why a command is refused.
#[derive(Clone, Copy, Debug, PartialEq, Eq, Structural)]
pub enum Refusal {
    ShutdownElsewhere,
    EmptyDisplayName,
    EmptyModel,
    EmptyEffort,
}

impl Refusal {
    /// What the user is told.
    pub open spec fn words(self) -> Seq<char> {
        match self {
            Refusal::ShutdownElsewhere => "shutdown must be handled by the connection owner"@,
            Refusal::EmptyDisplayName => "thread display name must not be empty"@,
            Refusal::EmptyModel => "thread model must not be empty"@,
            Refusal::EmptyEffort => "reasoning effort must not be empty"@,
        }
    }

    /// What the user is told.
    pub fn message(&self) -> (text: String)
        ensures
            text@ == self.words(),
    {
        match self {
            Refusal::ShutdownElsewhere => {
                "shutdown must be handled by the connection owner".to_owned()
            },
            Refusal::EmptyDisplayName => "thread display name must not be empty".to_owned(),
            Refusal::EmptyModel => "thread model must not be empty".to_owned(),
            Refusal::EmptyEffort => "reasoning effort must not be empty".to_owned(),
        }
    }
}

/// What a provider is doing.
#[derive(Clone, Copy, Debug, PartialEq)]
pub enum ProviderTask<'a> {
    Login { credential: &'a Option<String> },
    Reload,
    Logout,
}

/// What a turn is for.
#[allow(inconsistent_fields)]
#[derive(Clone, Copy, Debug, PartialEq)]
pub enum TurnKind<'a> {
    Send { message: &'a String, allow_questions: bool },
    Continue { allow_questions: bool },
    Compact { allow_questions: bool },
}

/// A step of a command. The steps are taken in order; the first that fails ends
/// the command with its error.
#[allow(inconsistent_fields)]
#[derive(Clone, Copy, Debug, PartialEq)]
pub enum Step<'a> {
    /// The controller must not be shutting down.
    EnsureRunning,
    /// The command is refused.
    Refuse(Refusal),
    /// The lock on changes is taken, and held to the end or to `Unlock`.
    Lock,
    /// The lock on changes is given back.
    Unlock,
    /// The state of the thread is loaded, under the lock and without it after.
    Materialize { thread_id: i64 },
    /// The state of the thread is loaded under the lock that is held.
    MaterializeLocked { thread_id: i64 },
    /// The thread must have no turn and no observer.
    EnsureMutable { thread_id: i64 },
    /// The skills are collected.
    CollectSkills,
    /// A thread is created in the store, with the default provider.
    CreateThread { display_name: &'a Option<String>, model: &'static str, effort: &'static str },
    /// The new thread is shown.
    ShowThread,
    /// The thread is renamed in the store.
    RenameThread { thread_id: i64, display_name: &'a String },
    /// The model of the thread is set in the store.
    SetModel { thread_id: i64, provider: &'a String, model: &'a String, effort: &'a String },
    /// The changed thread is shown.
    ShowMetadata { thread_id: i64 },
    /// The thread is deleted, with all below it or only where nothing is.
    DeleteSubtree { thread_id: i64, recursive: bool },
    /// The models of the provider must hold the model with the effort.
    SelectModel { provider: &'a String, model: &'a String, effort: &'a String },
    /// A checkpoint is created in the store.
    CreateCheckpoint { thread_id: i64 },
    /// The new checkpoint is shown.
    ShowCheckpoint { thread_id: i64 },
    /// The thread is forked in the store.
    ForkThread {
        thread_id: i64,
        checkpoint_id: Option<i64>,
        sequence: i64,
        display_name: &'a Option<String>,
    },
    /// The history of the thread is replaced in the store.
    ReplaceHistory { thread_id: i64, target: HistoryTarget },
    /// The replaced history is shown.
    ShowHistory { thread_id: i64 },
    /// The turn of the thread is asked to stop.
    Cancel { thread_id: i64 },
    /// An approval is taken, to be answered.
    ClaimApproval { approval_id: u64 },
    /// The decision is stored, in the thread that asked for it.
    PersistDecision { approval_id: u64, allowed: bool, reason: Option<&'a String> },
    /// The answers must fit the questions.
    ValidateAnswers { request_id: u64, answers: &'a Vec<QuestionAnswer> },
    /// Questions are taken, to be answered.
    ClaimQuestions { request_id: u64 },
    /// The interaction is shown no longer.
    ResolveInteraction { interaction_id: u64 },
    /// The turn is told the decision.
    AnswerApproval { approval_id: u64, allowed: bool, reason: Option<&'a String> },
    /// The turn is told the answers.
    AnswerQuestions { request_id: u64, answers: &'a Vec<QuestionAnswer> },
    /// The turn is registered.
    RegisterTurn { thread_id: i64 },
    /// The turn is shown; where that fails, it is finished.
    ShowTurn { thread_id: i64, phase: TurnPhase },
    /// The turn runs.
    LaunchTurn { thread_id: i64, kind: TurnKind<'a> },
    /// The provider must exist.
    FindProvider { provider: &'a String },
    /// The provider starts a task, and is shown to.
    StartProvider { provider: &'a String, task: ProviderTask<'a> },
    /// A runner is launched.
    LaunchRunner {
        name: &'a String,
        description: &'a String,
        approval: ApprovalPolicy,
        command: &'a Vec<String>,
    },
    /// The thread must exist still.
    CheckThread { thread_id: i64 },
    /// The runner must exist.
    FindRunner { runner: &'a String },
    /// A process is started and registered.
    StartProcess { thread_id: i64, runner: &'a String, command: &'a String },
    /// The state of the process is loaded.
    MaterializeProcess { process: &'a ProcessLocator },
    /// The process is stopped.
    StopProcess { process: &'a ProcessLocator },
}

/// What a command is answered.
#[derive(Clone, Copy, Debug, PartialEq, Eq, Structural)]
pub enum Answer {
    Accepted,
    SkillsListed,
    ThreadCreated,
    ThreadForked,
    ProcessStarted,
}

/// The steps that start a turn.
pub open spec fn turn_steps<'a>(thread_id: i64, phase: TurnPhase, kind: TurnKind<'a>) -> Seq<
    Step<'a>,
> {
    seq![
        Step::EnsureRunning,
        Step::Lock,
        Step::MaterializeLocked { thread_id },
        Step::RegisterTurn { thread_id },
        Step::Unlock,
        Step::ShowTurn { thread_id, phase },
        Step::LaunchTurn { thread_id, kind },
    ]
}

/// The steps that answer a request for approval.
pub open spec fn decision_steps<'a>(
    approval_id: u64,
    allowed: bool,
    reason: Option<&'a String>,
) -> Seq<Step<'a>> {
    seq![
        Step::EnsureRunning,
        Step::ClaimApproval { approval_id },
        Step::PersistDecision { approval_id, allowed, reason },
        Step::ResolveInteraction { interaction_id: approval_id },
        Step::AnswerApproval { approval_id, allowed, reason },
    ]
}

/// The steps that give a provider a task.
pub open spec fn provider_steps<'a>(provider: &'a String, task: ProviderTask<'a>) -> Seq<Step<'a>> {
    seq![
        Step::EnsureRunning,
        Step::FindProvider { provider },
        Step::StartProvider { provider, task },
    ]
}

/// The steps of a command.
pub open spec fn steps<'a>(command: &'a Command) -> Seq<Step<'a>> {
    match command {
        Command::Shutdown => seq![Step::EnsureRunning, Step::Refuse(Refusal::ShutdownElsewhere)],
        Command::SkillList => seq![Step::EnsureRunning, Step::CollectSkills],
        Command::ThreadCreate { display_name } => seq![
            Step::EnsureRunning,
            Step::Lock,
            Step::CreateThread { display_name, model: DEFAULT_MODEL, effort: DEFAULT_EFFORT },
            Step::ShowThread,
        ],
        Command::ThreadRename { thread_id, display_name } => if blank(display_name@) {
            seq![
                Step::EnsureRunning,
                Step::Materialize { thread_id: *thread_id },
                Step::Lock,
                Step::EnsureMutable { thread_id: *thread_id },
                Step::Refuse(Refusal::EmptyDisplayName),
            ]
        } else {
            seq![
                Step::EnsureRunning,
                Step::Materialize { thread_id: *thread_id },
                Step::Lock,
                Step::EnsureMutable { thread_id: *thread_id },
                Step::RenameThread { thread_id: *thread_id, display_name },
                Step::ShowMetadata { thread_id: *thread_id },
            ]
        },
        Command::ThreadDelete { thread_id } => seq![
            Step::EnsureRunning,
            Step::Materialize { thread_id: *thread_id },
            Step::DeleteSubtree { thread_id: *thread_id, recursive: false },
        ],
        Command::ThreadDeleteRecursive { thread_id } => seq![
            Step::EnsureRunning,
            Step::Materialize { thread_id: *thread_id },
            Step::DeleteSubtree { thread_id: *thread_id, recursive: true },
        ],
        Command::ThreadSetModel { thread_id, provider, model, reasoning_effort } => if blank(
            model@,
        ) {
            seq![
                Step::EnsureRunning,
                Step::Materialize { thread_id: *thread_id },
                Step::Refuse(Refusal::EmptyModel),
            ]
        } else if blank(reasoning_effort@) {
            seq![
                Step::EnsureRunning,
                Step::Materialize { thread_id: *thread_id },
                Step::Refuse(Refusal::EmptyEffort),
            ]
        } else {
            seq![
                Step::EnsureRunning,
                Step::Materialize { thread_id: *thread_id },
                Step::FindProvider { provider },
                Step::SelectModel { provider, model, effort: reasoning_effort },
                Step::Lock,
                Step::EnsureMutable { thread_id: *thread_id },
                Step::SetModel {
                    thread_id: *thread_id,
                    provider,
                    model,
                    effort: reasoning_effort,
                },
                Step::ShowMetadata { thread_id: *thread_id },
            ]
        },
        Command::ThreadCheckpointCreate { thread_id } => seq![
            Step::EnsureRunning,
            Step::Materialize { thread_id: *thread_id },
            Step::Lock,
            Step::EnsureMutable { thread_id: *thread_id },
            Step::CreateCheckpoint { thread_id: *thread_id },
            Step::ShowCheckpoint { thread_id: *thread_id },
        ],
        Command::ThreadFork { thread_id, checkpoint_id, sequence, display_name } => seq![
            Step::EnsureRunning,
            Step::Materialize { thread_id: *thread_id },
            Step::Lock,
            Step::EnsureMutable { thread_id: *thread_id },
            Step::ForkThread {
                thread_id: *thread_id,
                checkpoint_id: *checkpoint_id,
                sequence: *sequence,
                display_name,
            },
            Step::ShowThread,
        ],
        Command::ThreadReplaceHistory { thread_id, target } => seq![
            Step::EnsureRunning,
            Step::Materialize { thread_id: *thread_id },
            Step::Lock,
            Step::EnsureMutable { thread_id: *thread_id },
            Step::ReplaceHistory { thread_id: *thread_id, target: *target },
            Step::ShowHistory { thread_id: *thread_id },
        ],
        Command::ThreadCancel { thread_id } => seq![
            Step::EnsureRunning,
            Step::Materialize { thread_id: *thread_id },
            Step::Cancel { thread_id: *thread_id },
        ],
        Command::ApprovalAllow { approval_id } => decision_steps(*approval_id, true, None),
        Command::ApprovalDeny { approval_id, reason } => decision_steps(
            *approval_id,
            false,
            match reason {
                Some(reason) => Some(reason),
                None => None,
            },
        ),
        Command::QuestionAnswer { request_id, answers } => seq![
            Step::EnsureRunning,
            Step::ValidateAnswers { request_id: *request_id, answers },
            Step::ClaimQuestions { request_id: *request_id },
            Step::ResolveInteraction { interaction_id: *request_id },
            Step::AnswerQuestions { request_id: *request_id, answers },
        ],
        Command::ThreadSend { thread_id, message, allow_questions } => turn_steps(
            *thread_id,
            TurnPhase::Running,
            TurnKind::Send { message, allow_questions: *allow_questions },
        ),
        Command::ThreadContinue { thread_id, allow_questions } => turn_steps(
            *thread_id,
            TurnPhase::Running,
            TurnKind::Continue { allow_questions: *allow_questions },
        ),
        Command::ThreadCompact { thread_id, allow_questions } => turn_steps(
            *thread_id,
            TurnPhase::Compacting,
            TurnKind::Compact { allow_questions: *allow_questions },
        ),
        Command::ProviderLogin { provider, credential } => provider_steps(
            provider,
            ProviderTask::Login { credential },
        ),
        Command::ProviderReloadAuth { provider } => provider_steps(provider, ProviderTask::Reload),
        Command::ProviderLogout { provider } => provider_steps(provider, ProviderTask::Logout),
        Command::RunnerLaunch { name, description, approval, command } => seq![
            Step::EnsureRunning,
            Step::LaunchRunner { name, description, approval: *approval, command },
        ],
        Command::ExecCommand { thread_id, runner, command } => seq![
            Step::EnsureRunning,
            Step::Materialize { thread_id: *thread_id },
            Step::Lock,
            Step::CheckThread { thread_id: *thread_id },
            Step::Unlock,
            Step::FindRunner { runner },
            Step::StartProcess { thread_id: *thread_id, runner, command },
        ],
        Command::StopProcess { process } => seq![
            Step::EnsureRunning,
            Step::Materialize { thread_id: process.thread_id },
            Step::MaterializeProcess { process },
            Step::StopProcess { process },
        ],
    }
}

/// What a command is answered once all its steps are taken.
pub open spec fn answer(command: &Command) -> Answer {
    match command {
        Command::SkillList => Answer::SkillsListed,
        Command::ThreadCreate { .. } => Answer::ThreadCreated,
        Command::ThreadFork { .. } => Answer::ThreadForked,
        Command::ExecCommand { .. } => Answer::ProcessStarted,
        _ => Answer::Accepted,
    }
}

fn turn_plan<'a>(thread_id: i64, phase: TurnPhase, kind: TurnKind<'a>) -> (plan: Vec<Step<'a>>)
    ensures
        plan@ == turn_steps(thread_id, phase, kind),
{
    vec![
        Step::EnsureRunning,
        Step::Lock,
        Step::MaterializeLocked { thread_id },
        Step::RegisterTurn { thread_id },
        Step::Unlock,
        Step::ShowTurn { thread_id, phase },
        Step::LaunchTurn { thread_id, kind },
    ]
}

fn decision_plan<'a>(approval_id: u64, allowed: bool, reason: Option<&'a String>) -> (plan: Vec<
    Step<'a>,
>)
    ensures
        plan@ == decision_steps(approval_id, allowed, reason),
{
    vec![
        Step::EnsureRunning,
        Step::ClaimApproval { approval_id },
        Step::PersistDecision { approval_id, allowed, reason },
        Step::ResolveInteraction { interaction_id: approval_id },
        Step::AnswerApproval { approval_id, allowed, reason },
    ]
}

fn provider_plan<'a>(provider: &'a String, task: ProviderTask<'a>) -> (plan: Vec<Step<'a>>)
    ensures
        plan@ == provider_steps(provider, task),
{
    vec![
        Step::EnsureRunning,
        Step::FindProvider { provider },
        Step::StartProvider { provider, task },
    ]
}

fn plan_of<'a>(command: &'a Command) -> (plan: Vec<Step<'a>>)
    ensures
        plan@ == steps(command),
{
    match command {
        Command::Shutdown => vec![Step::EnsureRunning, Step::Refuse(Refusal::ShutdownElsewhere)],
        Command::SkillList => vec![Step::EnsureRunning, Step::CollectSkills],
        Command::ThreadCreate { display_name } => vec![
            Step::EnsureRunning,
            Step::Lock,
            Step::CreateThread { display_name, model: DEFAULT_MODEL, effort: DEFAULT_EFFORT },
            Step::ShowThread,
        ],
        Command::ThreadRename { thread_id, display_name } => if is_blank(display_name.as_str()) {
            vec![
                Step::EnsureRunning,
                Step::Materialize { thread_id: *thread_id },
                Step::Lock,
                Step::EnsureMutable { thread_id: *thread_id },
                Step::Refuse(Refusal::EmptyDisplayName),
            ]
        } else {
            vec![
                Step::EnsureRunning,
                Step::Materialize { thread_id: *thread_id },
                Step::Lock,
                Step::EnsureMutable { thread_id: *thread_id },
                Step::RenameThread { thread_id: *thread_id, display_name },
                Step::ShowMetadata { thread_id: *thread_id },
            ]
        },
        Command::ThreadDelete { thread_id } => vec![
            Step::EnsureRunning,
            Step::Materialize { thread_id: *thread_id },
            Step::DeleteSubtree { thread_id: *thread_id, recursive: false },
        ],
        Command::ThreadDeleteRecursive { thread_id } => vec![
            Step::EnsureRunning,
            Step::Materialize { thread_id: *thread_id },
            Step::DeleteSubtree { thread_id: *thread_id, recursive: true },
        ],
        Command::ThreadSetModel { thread_id, provider, model, reasoning_effort } => if is_blank(
            model.as_str(),
        ) {
            vec![
                Step::EnsureRunning,
                Step::Materialize { thread_id: *thread_id },
                Step::Refuse(Refusal::EmptyModel),
            ]
        } else if is_blank(reasoning_effort.as_str()) {
            vec![
                Step::EnsureRunning,
                Step::Materialize { thread_id: *thread_id },
                Step::Refuse(Refusal::EmptyEffort),
            ]
        } else {
            vec![
                Step::EnsureRunning,
                Step::Materialize { thread_id: *thread_id },
                Step::FindProvider { provider },
                Step::SelectModel { provider, model, effort: reasoning_effort },
                Step::Lock,
                Step::EnsureMutable { thread_id: *thread_id },
                Step::SetModel {
                    thread_id: *thread_id,
                    provider,
                    model,
                    effort: reasoning_effort,
                },
                Step::ShowMetadata { thread_id: *thread_id },
            ]
        },
        Command::ThreadCheckpointCreate { thread_id } => vec![
            Step::EnsureRunning,
            Step::Materialize { thread_id: *thread_id },
            Step::Lock,
            Step::EnsureMutable { thread_id: *thread_id },
            Step::CreateCheckpoint { thread_id: *thread_id },
            Step::ShowCheckpoint { thread_id: *thread_id },
        ],
        Command::ThreadFork { thread_id, checkpoint_id, sequence, display_name } => vec![
            Step::EnsureRunning,
            Step::Materialize { thread_id: *thread_id },
            Step::Lock,
            Step::EnsureMutable { thread_id: *thread_id },
            Step::ForkThread {
                thread_id: *thread_id,
                checkpoint_id: *checkpoint_id,
                sequence: *sequence,
                display_name,
            },
            Step::ShowThread,
        ],
        Command::ThreadReplaceHistory { thread_id, target } => vec![
            Step::EnsureRunning,
            Step::Materialize { thread_id: *thread_id },
            Step::Lock,
            Step::EnsureMutable { thread_id: *thread_id },
            Step::ReplaceHistory { thread_id: *thread_id, target: *target },
            Step::ShowHistory { thread_id: *thread_id },
        ],
        Command::ThreadCancel { thread_id } => vec![
            Step::EnsureRunning,
            Step::Materialize { thread_id: *thread_id },
            Step::Cancel { thread_id: *thread_id },
        ],
        Command::ApprovalAllow { approval_id } => decision_plan(*approval_id, true, None),
        Command::ApprovalDeny { approval_id, reason } => decision_plan(
            *approval_id,
            false,
            match reason {
                Some(reason) => Some(reason),
                None => None,
            },
        ),
        Command::QuestionAnswer { request_id, answers } => vec![
            Step::EnsureRunning,
            Step::ValidateAnswers { request_id: *request_id, answers },
            Step::ClaimQuestions { request_id: *request_id },
            Step::ResolveInteraction { interaction_id: *request_id },
            Step::AnswerQuestions { request_id: *request_id, answers },
        ],
        Command::ThreadSend { thread_id, message, allow_questions } => turn_plan(
            *thread_id,
            TurnPhase::Running,
            TurnKind::Send { message, allow_questions: *allow_questions },
        ),
        Command::ThreadContinue { thread_id, allow_questions } => turn_plan(
            *thread_id,
            TurnPhase::Running,
            TurnKind::Continue { allow_questions: *allow_questions },
        ),
        Command::ThreadCompact { thread_id, allow_questions } => turn_plan(
            *thread_id,
            TurnPhase::Compacting,
            TurnKind::Compact { allow_questions: *allow_questions },
        ),
        Command::ProviderLogin { provider, credential } => provider_plan(
            provider,
            ProviderTask::Login { credential },
        ),
        Command::ProviderReloadAuth { provider } => provider_plan(provider, ProviderTask::Reload),
        Command::ProviderLogout { provider } => provider_plan(provider, ProviderTask::Logout),
        Command::RunnerLaunch { name, description, approval, command } => vec![
            Step::EnsureRunning,
            Step::LaunchRunner { name, description, approval: *approval, command },
        ],
        Command::ExecCommand { thread_id, runner, command } => vec![
            Step::EnsureRunning,
            Step::Materialize { thread_id: *thread_id },
            Step::Lock,
            Step::CheckThread { thread_id: *thread_id },
            Step::Unlock,
            Step::FindRunner { runner },
            Step::StartProcess { thread_id: *thread_id, runner, command },
        ],
        Command::StopProcess { process } => vec![
            Step::EnsureRunning,
            Step::Materialize { thread_id: process.thread_id },
            Step::MaterializeProcess { process },
            Step::StopProcess { process },
        ],
    }
}

/// The steps of a command, and what it is answered once they are taken.
pub fn handle_command<'a>(command: &'a Command) -> (plan: (Vec<Step<'a>>, Answer))
    ensures
        plan.0@ == steps(command),
        plan.1 == answer(command),
{
    let answer = match command {
        Command::SkillList => Answer::SkillsListed,
        Command::ThreadCreate { .. } => Answer::ThreadCreated,
        Command::ThreadFork { .. } => Answer::ThreadForked,
        Command::ExecCommand { .. } => Answer::ProcessStarted,
        _ => Answer::Accepted,
    };
    (plan_of(command), answer)
}

/// What is done after a step of a command.
#[derive(Clone, Copy, Debug, PartialEq, Eq, Structural)]
pub enum PlanStep {
    /// The step with this number is taken.
    Take { number: usize },
    /// The command is answered.
    Answer,
    /// The command ends with the error of the step.
    Fail,
}

/// What is done after the step with a number, which failed or not: the first that
/// fails ends the command, and the command is answered after the last.
pub fn after_step(plan: &Vec<Step>, number: usize, failed: bool) -> (next: PlanStep)
    requires
        number < plan@.len(),
    ensures
        next == (if failed {
            PlanStep::Fail
        } else if number + 1 < plan@.len() {
            PlanStep::Take { number: (number + 1) as usize }
        } else {
            PlanStep::Answer
        }),
{
    if failed {
        PlanStep::Fail
    } else if number < plan.len() - 1 {
        PlanStep::Take { number: number + 1 }
    } else {
        PlanStep::Answer
    }
}

/// Whether a step changes the store itself, or registers a turn.
pub open spec fn changes(step: Step) -> bool {
    step is CreateThread || step is RegisterTurn || changes_thread(step)
}

/// Whether a step changes a thread that exists, or copies it.
pub open spec fn changes_thread(step: Step) -> bool {
    step is RenameThread || step is SetModel || step is CreateCheckpoint || step is ForkThread
        || step is ReplaceHistory
}

/// The thread that a step changes or copies.
pub open spec fn changed_thread(step: Step) -> i64 {
    match step {
        Step::RenameThread { thread_id, .. } => thread_id,
        Step::SetModel { thread_id, .. } => thread_id,
        Step::CreateCheckpoint { thread_id } => thread_id,
        Step::ForkThread { thread_id, .. } => thread_id,
        Step::ReplaceHistory { thread_id, .. } => thread_id,
        _ => arbitrary(),
    }
}

/// Whether the lock is held before the step at `i`.
pub open spec fn locked(plan: Seq<Step>, i: int) -> bool {
    exists|j: int|
        0 <= j < i && #[trigger] plan[j] == Step::Lock && forall|k: int|
            j < k < i ==> #[trigger] plan[k] != Step::Unlock
}

/// Whether a step stands before the step at `i`.
pub open spec fn precedes(plan: Seq<Step>, step: Step, i: int) -> bool {
    exists|j: int| 0 <= j < i && #[trigger] plan[j] == step
}

/// Every change happens under the lock, and a thread is changed only after that
/// thread was found to have no turn and no observer, under the same lock.
pub proof fn law_changes_are_guarded(command: &Command, i: int)
    requires
        0 <= i < steps(command).len(),
    ensures
        changes(steps(command)[i]) ==> locked(steps(command), i),
        changes_thread(steps(command)[i]) ==> precedes(
            steps(command),
            Step::EnsureMutable { thread_id: changed_thread(steps(command)[i]) },
            i,
        ) && locked(steps(command), i - 1),
{
    let plan = steps(command);
    if changes(plan[i]) {
        let at = lock_place(command);
        assert(plan[at] == Step::Lock);
        assert(locked(plan, i));
        if changes_thread(plan[i]) {
            assert(plan[i - 1] == (Step::EnsureMutable { thread_id: changed_thread(plan[i]) }));
            assert(plan[at] == Step::Lock);
            assert(locked(plan, i - 1));
        }
    }
}

/// Where a command takes the lock.
spec fn lock_place(command: &Command) -> int {
    match command {
        Command::ThreadCreate { .. } => 1,
        Command::ThreadSend { .. } => 1,
        Command::ThreadContinue { .. } => 1,
        Command::ThreadCompact { .. } => 1,
        Command::ThreadSetModel { .. } => 4,
        _ => 2,
    }
}

/// A command first finds the controller running, and nothing follows a refusal.
pub proof fn law_plan_shape(command: &Command, i: int)
    requires
        0 <= i < steps(command).len(),
    ensures
        steps(command)[0] == Step::EnsureRunning,
        steps(command)[i] is Refuse ==> i == steps(command).len() - 1,
{
}

/// A turn learns a decision only after the same decision was stored, and the
/// decision is stored only by the one who took the request: it can be decided once.
pub proof fn law_decisions_are_stored_first(
    command: &Command,
    i: int,
    approval_id: u64,
    allowed: bool,
    reason: Option<&String>,
)
    requires
        0 <= i < steps(command).len(),
        steps(command)[i] == (Step::AnswerApproval { approval_id, allowed, reason }),
    ensures
        precedes(steps(command), Step::PersistDecision { approval_id, allowed, reason }, i),
        precedes(steps(command), Step::ClaimApproval { approval_id }, 2),
        steps(command)[2] == (Step::PersistDecision { approval_id, allowed, reason }),
{
    let plan = steps(command);
    assert(plan[2] == (Step::PersistDecision { approval_id, allowed, reason }));
    assert(plan[1] == (Step::ClaimApproval { approval_id }));
}

/// The settings of a new thread beside its name and its provider.
pub fn new_thread_settings() -> (settings: (&'static str, &'static str))
    ensures
        settings.0@ == DEFAULT_MODEL@,
        settings.1@ == DEFAULT_EFFORT@,
{
    (DEFAULT_MODEL, DEFAULT_EFFORT)
}

/// Why a model is not taken.
#[derive(Debug)]
pub enum ModelRefusal {
    UnknownModel { provider: String, model: String },
    UnsupportedEffort { effort: String, provider: String, model: String },
}

impl ModelRefusal {
    /// What the user is told.
    pub open spec fn words(self) -> Seq<char> {
        match self {
            ModelRefusal::UnknownModel { provider, model } => "unknown model "@ + provider@ + "/"@
                + model@,
            ModelRefusal::UnsupportedEffort { effort, provider, model } => "reasoning effort "@
                + effort@ + " is not supported by model "@ + provider@ + "/"@ + model@,
        }
    }

    /// What the user is told.
    pub fn message(&self) -> (text: String)
        ensures
            text@ == self.words(),
    {
        match self {
            ModelRefusal::UnknownModel { provider, model } => {
                concat4("unknown model ", provider.as_str(), "/", model.as_str())
            },
            ModelRefusal::UnsupportedEffort { effort, provider, model } => {
                let mut text = concat3(
                    "reasoning effort ",
                    effort.as_str(),
                    " is not supported by model ",
                );
                text.push_str(provider.as_str());
                text.push_str("/");
                text.push_str(model.as_str());
                text
            },
        }
    }
}

/// The first model with a number, of a provider where `checked`.
pub open spec fn find_model(
    models: Seq<ModelView>,
    provider: Option<Seq<char>>,
    id: Seq<char>,
    from: nat,
) -> Option<ModelView>
    decreases models.len() - from,
{
    if from >= models.len() {
        None
    } else if models[from as int].id == id && (provider matches Some(provider)
        ==> models[from as int].provider == provider) {
        Some(models[from as int])
    } else {
        find_model(models, provider, id, from + 1)
    }
}

/// Whether a model can be taken with an effort. Where `own` the model must name
/// the provider as its own.
pub fn select_model(
    models: &Vec<Model>,
    provider: &str,
    model: &str,
    effort: &str,
    own: bool,
) -> (result: Result<(), ModelRefusal>)
    ensures
        match find_model(
            model_views(models@),
            if own {
                Some(provider@)
            } else {
                None
            },
            model@,
            0,
        ) {
            None => result matches Err(ModelRefusal::UnknownModel { provider: p, model: m })
                && p@ == provider@ && m@ == model@,
            Some(found) => if found.supported_reasoning_efforts.contains(effort@) {
                result is Ok
            } else {
                result matches Err(
                    ModelRefusal::UnsupportedEffort { effort: e, provider: p, model: m },
                ) && e@ == effort@ && p@ == provider@ && m@ == model@
            },
        },
{
    let ghost wanted = if own {
        Some(provider@)
    } else {
        None
    };
    let mut i: usize = 0;
    while i < models.len()
        invariant
            i <= models.len(),
            wanted == (if own {
                Some(provider@)
            } else {
                None
            }),
            find_model(model_views(models@), wanted, model@, 0) == find_model(
                model_views(models@),
                wanted,
                model@,
                i as nat,
            ),
        decreases models.len() - i,
    {
        let candidate = &models[i];
        assert(model_views(models@)[i as int] == candidate@);
        if same_text(candidate.id.as_str(), model) && (!own || same_text(
            candidate.provider.as_str(),
            provider,
        )) {
            if contains_text(&candidate.supported_reasoning_efforts, effort) {
                return Ok(());
            }
            return Err(
                ModelRefusal::UnsupportedEffort {
                    effort: effort.to_owned(),
                    provider: provider.to_owned(),
                    model: model.to_owned(),
                },
            );
        }
        i += 1;
    }
    Err(ModelRefusal::UnknownModel { provider: provider.to_owned(), model: model.to_owned() })
}

/// Whether a catalog holds a model of a provider with an effort.
pub open spec fn offered(
    catalog: Seq<ModelView>,
    provider: Seq<char>,
    model: Seq<char>,
    effort: Seq<char>,
) -> bool {
    exists|i: int|
        0 <= i < catalog.len() && (#[trigger] catalog[i]).provider == provider && catalog[i].id
            == model && catalog[i].supported_reasoning_efforts.contains(effort)
}

/// The model that a thread is to have.
#[derive(Clone, Copy, Debug, PartialEq)]
pub struct ModelChoice<'a> {
    pub thread_id: i64,
    pub provider: &'a String,
    pub model: &'a String,
    pub effort: &'a String,
}

/// Why a command to set a model is refused.
#[derive(Debug)]
pub enum ChoiceRefusal {
    Command(Refusal),
    Model(ModelRefusal),
}

impl ChoiceRefusal {
    /// What the user is told.
    pub open spec fn words(self) -> Seq<char> {
        match self {
            ChoiceRefusal::Command(refusal) => refusal.words(),
            ChoiceRefusal::Model(refusal) => refusal.words(),
        }
    }

    /// What the user is told.
    pub fn message(&self) -> (text: String)
        ensures
            text@ == self.words(),
    {
        match self {
            ChoiceRefusal::Command(refusal) => refusal.message(),
            ChoiceRefusal::Model(refusal) => refusal.message(),
        }
    }
}

/// Whether a result of choosing is the right one for the parts of a command to set
/// a model and the catalog of the provider that it names.
pub open spec fn chosen(
    choice: ModelChoice,
    catalog: Seq<ModelView>,
    result: Result<ModelChoice, ChoiceRefusal>,
) -> bool {
    if blank(choice.model@) {
        result matches Err(ChoiceRefusal::Command(Refusal::EmptyModel))
    } else if blank(choice.effort@) {
        result matches Err(ChoiceRefusal::Command(Refusal::EmptyEffort))
    } else {
        match find_model(catalog, Some(choice.provider@), choice.model@, 0) {
            None => result matches Err(
                ChoiceRefusal::Model(ModelRefusal::UnknownModel { provider, model }),
            ) && provider@ == choice.provider@ && model@ == choice.model@,
            Some(found) => if found.supported_reasoning_efforts.contains(choice.effort@) {
                result == Ok::<ModelChoice, ChoiceRefusal>(choice)
            } else {
                result matches Err(
                    ChoiceRefusal::Model(
                        ModelRefusal::UnsupportedEffort { effort, provider, model },
                    ),
                ) && effort@ == choice.effort@ && provider@ == choice.provider@ && model@
                    == choice.model@
            },
        }
    }
}

/// What a command to set a model comes to with the catalog of the provider that it
/// names: the thread, the provider, the model and the effort that are stored, or
/// the refusal. No other command sets a model.
pub fn choose_model<'a>(command: &'a Command, catalog: &Vec<Model>) -> (outcome: Option<
    Result<ModelChoice<'a>, ChoiceRefusal>,
>)
    ensures
        match command {
            Command::ThreadSetModel { thread_id, provider, model, reasoning_effort } => {
                outcome matches Some(result) && chosen(
                    ModelChoice {
                        thread_id: *thread_id,
                        provider,
                        model,
                        effort: reasoning_effort,
                    },
                    model_views(catalog@),
                    result,
                ) && (result is Ok ==> offered(
                    model_views(catalog@),
                    provider@,
                    model@,
                    reasoning_effort@,
                ))
            },
            _ => outcome is None,
        },
{
    match command {
        Command::ThreadSetModel { thread_id, provider, model, reasoning_effort } => {
            if is_blank(model.as_str()) {
                return Some(Err(ChoiceRefusal::Command(Refusal::EmptyModel)));
            }
            if is_blank(reasoning_effort.as_str()) {
                return Some(Err(ChoiceRefusal::Command(Refusal::EmptyEffort)));
            }
            match select_model(
                catalog,
                provider.as_str(),
                model.as_str(),
                reasoning_effort.as_str(),
                true,
            ) {
                Ok(()) => {
                    proof {
                        law_taken_model_is_offered(
                            model_views(catalog@),
                            provider@,
                            model@,
                            reasoning_effort@,
                            0,
                        );
                    }
                    Some(
                        Ok(
                            ModelChoice {
                                thread_id: *thread_id,
                                provider,
                                model,
                                effort: reasoning_effort,
                            },
                        ),
                    )
                },
                Err(refusal) => Some(Err(ChoiceRefusal::Model(refusal))),
            }
        },
        _ => None,
    }
}

/// A model that is taken from a catalog with an effort stands in it, as one of the
/// provider and with that effort.
pub proof fn law_taken_model_is_offered(
    catalog: Seq<ModelView>,
    provider: Seq<char>,
    model: Seq<char>,
    effort: Seq<char>,
    from: nat,
)
    requires
        find_model(catalog, Some(provider), model, from) matches Some(found)
            && found.supported_reasoning_efforts.contains(effort),
    ensures
        offered(catalog, provider, model, effort),
    decreases catalog.len() - from,
{
    if from < catalog.len() {
        if catalog[from as int].id == model && catalog[from as int].provider == provider {
            assert(catalog[from as int].supported_reasoning_efforts.contains(effort));
        } else {
            law_taken_model_is_offered(catalog, provider, model, effort, from + 1);
        }
    }
}

/// Whether a command gets as far as the step at `i`: no step before it fails.
pub open spec fn reached<'a>(
    plan: Seq<Step<'a>>,
    fails: spec_fn(Step<'a>) -> bool,
    i: int,
) -> bool {
    0 <= i < plan.len() && forall|k: int| 0 <= k < i ==> !fails(#[trigger] plan[k])
}

/// Whether a command is answered: no step of it fails.
pub open spec fn completed<'a>(plan: Seq<Step<'a>>, fails: spec_fn(Step<'a>) -> bool) -> bool {
    forall|k: int| 0 <= k < plan.len() ==> !fails(#[trigger] plan[k])
}

/// A model is set only as the command names it, only after that model was found in
/// the catalog of the provider with that effort, and nothing is changed before.
/// Where the catalog does not hold the model of the provider with the effort, the
/// command fails, and gets to no step that changes anything.
pub proof fn law_model_is_set_as_it_was_checked<'a>(
    command: &'a Command,
    catalog: Seq<ModelView>,
    fails: spec_fn(Step<'a>) -> bool,
    thread_id: i64,
    provider: &'a String,
    model: &'a String,
    effort: &'a String,
    i: int,
)
    requires
        *command == (Command::ThreadSetModel {
            thread_id,
            provider: *provider,
            model: *model,
            reasoning_effort: *effort,
        }),
        forall|step: Step<'a>| step is Refuse ==> #[trigger] fails(step),
        fails(Step::SelectModel { provider, model, effort }) == !(find_model(
            catalog,
            Some(provider@),
            model@,
            0,
        ) matches Some(found) && found.supported_reasoning_efforts.contains(effort@)),
        0 <= i < steps(command).len(),
    ensures
        !offered(catalog, provider@, model@, effort@) ==> !completed(steps(command), fails),
        reached(steps(command), fails, i) && changes(steps(command)[i]) ==> steps(command)[i] == (
        Step::SetModel { thread_id, provider, model, effort }) && offered(
            catalog,
            provider@,
            model@,
            effort@,
        ),
        completed(steps(command), fails) ==> offered(catalog, provider@, model@, effort@)
            && steps(command).contains(Step::SetModel { thread_id, provider, model, effort }),
{
    let plan = steps(command);
    if find_model(catalog, Some(provider@), model@, 0) matches Some(found)
        && found.supported_reasoning_efforts.contains(effort@) {
        law_taken_model_is_offered(catalog, provider@, model@, effort@, 0);
    }
    if blank(model@) || blank(effort@) {
        assert(plan[2] is Refuse);
    } else {
        assert(plan[3] == (Step::SelectModel { provider, model, effort }));
        assert(plan[6] == (Step::SetModel { thread_id, provider, model, effort }));
    }
}

/// The number of the last event; -1 where there is none.
pub open spec fn last_sequence(events: Seq<Event>) -> i64 {
    if events.len() == 0 {
        -1i64
    } else {
        events.last().sequence
    }
}

/// The number of the last event before a message is sent to an agent.
pub fn sequence_before(events: &Vec<Event>) -> (sequence: i64)
    ensures
        sequence == last_sequence(events@),
{
    if events.len() == 0 {
        -1
    } else {
        events[events.len() - 1].sequence
    }
}

/// How the task of a turn ended.
#[derive(Debug)]
pub enum TurnEnd {
    Completed,
    Compacted,
    Cancelled,
    Failed { message: String },
    Panicked { payload: Option<String> },
}

/// What a panic said.
pub open spec fn panic_words(payload: Option<String>) -> Seq<char> {
    match payload {
        Some(text) => text@,
        None => "unknown panic payload"@,
    }
}

/// What a panic said, where it said it in words.
pub fn panic_message(payload: Option<String>) -> (text: String)
    ensures
        text@ == panic_words(payload),
{
    match payload {
        Some(text) => text,
        None => "unknown panic payload".to_owned(),
    }
}

/// Whether a turn that ended so has the outcome. A turn that panics has failed.
pub open spec fn has_outcome(end: TurnEnd, outcome: TurnOutcome) -> bool {
    match end {
        TurnEnd::Completed | TurnEnd::Compacted => outcome == TurnOutcome::Completed,
        TurnEnd::Cancelled => outcome == TurnOutcome::Cancelled,
        TurnEnd::Failed { message } => outcome matches TurnOutcome::Failed { message: m } && m@
            == message@,
        TurnEnd::Panicked { payload } => outcome matches TurnOutcome::Failed { message: m } && m@
            == "turn task panicked: "@ + panic_words(payload),
    }
}

/// The outcome of a turn. A turn that panics has failed.
pub fn turn_outcome(end: TurnEnd) -> (outcome: TurnOutcome)
    ensures
        has_outcome(end, outcome),
{
    match end {
        TurnEnd::Completed | TurnEnd::Compacted => TurnOutcome::Completed,
        TurnEnd::Cancelled => TurnOutcome::Cancelled,
        TurnEnd::Failed { message } => TurnOutcome::Failed { message },
        TurnEnd::Panicked { payload } => {
            let text = panic_message(payload);
            TurnOutcome::Failed { message: concat2("turn task panicked: ", text.as_str()) }
        },
    }
}

/// How the publication of an outcome ended.
#[derive(Debug)]
pub enum Publication {
    Done,
    Failed { message: String },
    Panicked { payload: Option<String> },
}

/// What happens in the task of a registered turn.
#[derive(Debug)]
pub enum TaskEvent {
    Ended(TurnEnd),
    Published(Publication),
}

/// What the task of a registered turn does next.
#[derive(Debug)]
pub enum TaskStep {
    /// The outcome is stored and shown.
    Publish(TurnOutcome),
    /// The turn is taken from the register.
    Finish,
}

/// What the task of a registered turn does next: the outcome is published,
/// whatever the end, and the turn is finished, whatever became of the
/// publication.
pub fn complete_registered_turn(event: TaskEvent) -> (step: TaskStep)
    ensures
        match event {
            TaskEvent::Ended(end) => step matches TaskStep::Publish(outcome) && has_outcome(
                end,
                outcome,
            ),
            TaskEvent::Published(_) => step is Finish,
        },
{
    match event {
        TaskEvent::Ended(end) => TaskStep::Publish(turn_outcome(end)),
        TaskEvent::Published(_) => TaskStep::Finish,
    }
}

/// No step is taken that the command does not ask for: each thing that is changed,
/// started, stopped, decided or told is the one that the command names, with what the
/// command gives.
pub proof fn law_only_what_is_asked_is_done(command: &Command, i: int)
    requires
        0 <= i < steps(command).len(),
    ensures
        match steps(command)[i] {
            Step::Refuse(Refusal::ShutdownElsewhere) => *command is Shutdown,
            Step::Refuse(Refusal::EmptyDisplayName) => *command matches Command::ThreadRename {
                display_name,
                ..
            } && blank(display_name@),
            Step::Refuse(Refusal::EmptyModel) => *command matches Command::ThreadSetModel {
                model,
                ..
            } && blank(model@),
            Step::Refuse(Refusal::EmptyEffort) => *command matches Command::ThreadSetModel {
                model,
                reasoning_effort,
                ..
            } && !blank(model@) && blank(reasoning_effort@),
            Step::CollectSkills => *command is SkillList,
            Step::CreateThread { display_name, model, effort } => *command == (
            Command::ThreadCreate { display_name: *display_name }) && model@ == DEFAULT_MODEL@
                && effort@ == "medium"@,
            Step::RenameThread { thread_id, display_name } => *command == (Command::ThreadRename {
                thread_id,
                display_name: *display_name,
            }) && !blank(display_name@),
            Step::SetModel { thread_id, provider, model, effort } => *command == (
            Command::ThreadSetModel {
                thread_id,
                provider: *provider,
                model: *model,
                reasoning_effort: *effort,
            }) && !blank(model@) && !blank(effort@),
            Step::SelectModel { provider, model, effort } => *command
                matches Command::ThreadSetModel {
                provider: p,
                model: m,
                reasoning_effort: e,
                ..
            } && p == *provider && m == *model && e == *effort,
            Step::DeleteSubtree { thread_id, recursive } => *command == (if recursive {
                Command::ThreadDeleteRecursive { thread_id }
            } else {
                Command::ThreadDelete { thread_id }
            }),
            Step::CreateCheckpoint { thread_id } => *command == (Command::ThreadCheckpointCreate {
                thread_id,
            }),
            Step::ForkThread { thread_id, checkpoint_id, sequence, display_name } => *command == (
            Command::ThreadFork {
                thread_id,
                checkpoint_id,
                sequence,
                display_name: *display_name,
            }),
            Step::ReplaceHistory { thread_id, target } => *command == (
            Command::ThreadReplaceHistory { thread_id, target }),
            Step::Cancel { thread_id } => *command == (Command::ThreadCancel { thread_id }),
            Step::PersistDecision { approval_id, allowed, reason } => decides(
                *command,
                approval_id,
                allowed,
                reason,
            ),
            Step::AnswerApproval { approval_id, allowed, reason } => decides(
                *command,
                approval_id,
                allowed,
                reason,
            ),
            Step::ClaimApproval { approval_id } => *command == (Command::ApprovalAllow {
                approval_id,
            }) || (*command matches Command::ApprovalDeny { approval_id: id, .. } && id
                == approval_id),
            Step::AnswerQuestions { request_id, answers } => *command == (Command::QuestionAnswer {
                request_id,
                answers: *answers,
            }),
            Step::ValidateAnswers { request_id, answers } => *command == (Command::QuestionAnswer {
                request_id,
                answers: *answers,
            }),
            Step::ClaimQuestions { request_id } => *command matches Command::QuestionAnswer {
                request_id: id,
                ..
            } && id == request_id,
            Step::ResolveInteraction { interaction_id } => match *command {
                Command::ApprovalAllow { approval_id } => approval_id == interaction_id,
                Command::ApprovalDeny { approval_id, .. } => approval_id == interaction_id,
                Command::QuestionAnswer { request_id, .. } => request_id == interaction_id,
                _ => false,
            },
            Step::RegisterTurn { thread_id } => turn_of(*command) == Some(thread_id),
            Step::ShowTurn { thread_id, phase } => turn_of(*command) == Some(thread_id) && (phase
                is Compacting <==> *command is ThreadCompact) && (phase is Running <==> *command
                is ThreadSend || *command is ThreadContinue),
            Step::LaunchTurn { thread_id, kind } => match kind {
                TurnKind::Send { message, allow_questions } => *command == (Command::ThreadSend {
                    thread_id,
                    message: *message,
                    allow_questions,
                }),
                TurnKind::Continue { allow_questions } => *command == (Command::ThreadContinue {
                    thread_id,
                    allow_questions,
                }),
                TurnKind::Compact { allow_questions } => *command == (Command::ThreadCompact {
                    thread_id,
                    allow_questions,
                }),
            },
            Step::StartProvider { provider, task } => match task {
                ProviderTask::Login { credential } => *command == (Command::ProviderLogin {
                    provider: *provider,
                    credential: *credential,
                }),
                ProviderTask::Reload => *command == (Command::ProviderReloadAuth {
                    provider: *provider,
                }),
                ProviderTask::Logout => *command == (Command::ProviderLogout {
                    provider: *provider,
                }),
            },
            Step::LaunchRunner { name, description, approval, command: words } => *command == (
            Command::RunnerLaunch {
                name: *name,
                description: *description,
                approval,
                command: *words,
            }),
            Step::StartProcess { thread_id, runner, command: words } => *command == (
            Command::ExecCommand { thread_id, runner: *runner, command: *words }),
            Step::FindRunner { runner } => *command matches Command::ExecCommand {
                runner: name,
                ..
            } && name == *runner,
            Step::StopProcess { process } => *command == (Command::StopProcess {
                process: *process,
            }),
            Step::ShowMetadata { thread_id } => match *command {
                Command::ThreadRename { thread_id: thread, .. } => thread == thread_id,
                Command::ThreadSetModel { thread_id: thread, .. } => thread == thread_id,
                _ => false,
            },
            Step::ShowHistory { thread_id } => *command matches Command::ThreadReplaceHistory {
                thread_id: thread,
                ..
            } && thread == thread_id,
            Step::ShowCheckpoint { thread_id } => *command == (Command::ThreadCheckpointCreate {
                thread_id,
            }),
            _ => true,
        },
{
    assert(DEFAULT_EFFORT@ == "medium"@);
}

/// Whether a command decides on an approval in this way.
pub open spec fn decides(
    command: Command,
    id: u64,
    allowed: bool,
    why: Option<&String>,
) -> bool {
    if allowed {
        command == (Command::ApprovalAllow { approval_id: id }) && why is None
    } else {
        command matches Command::ApprovalDeny { approval_id, reason } && approval_id == id && match why {
            Some(why) => reason == Some(*why),
            None => reason is None,
        }
    }
}

/// The thread whose turn a command starts.
pub open spec fn turn_of(command: Command) -> Option<i64> {
    match command {
        Command::ThreadSend { thread_id, .. } => Some(thread_id),
        Command::ThreadContinue { thread_id, .. } => Some(thread_id),
        Command::ThreadCompact { thread_id, .. } => Some(thread_id),
        _ => None,
    }
}

/// What a command asks for is done in its last steps, unless it is refused: what was
/// changed is shown after it was changed, and who asked is told last.
pub proof fn law_what_is_asked_is_done(command: &Command)
    ensures
        ({
            let plan = steps(command);
            let last = plan.last();
            let before = plan[plan.len() - 2];
            &&& plan.len() >= 2
            &&& plan[0] is EnsureRunning
            &&& match *command {
                Command::Shutdown => last is Refuse,
                Command::SkillList => last is CollectSkills,
                Command::ThreadCreate { .. } => before is CreateThread && last is ShowThread,
                Command::ThreadRename { display_name, .. } => if blank(display_name@) {
                    last is Refuse
                } else {
                    before is RenameThread && last is ShowMetadata
                },
                Command::ThreadDelete { .. } => last is DeleteSubtree,
                Command::ThreadDeleteRecursive { .. } => last is DeleteSubtree,
                Command::ThreadSetModel { model, reasoning_effort, .. } => if blank(model@)
                    || blank(reasoning_effort@) {
                    last is Refuse
                } else {
                    before is SetModel && last is ShowMetadata
                },
                Command::ThreadCheckpointCreate { .. } => before is CreateCheckpoint && last
                    is ShowCheckpoint,
                Command::ThreadFork { .. } => before is ForkThread && last is ShowThread,
                Command::ThreadReplaceHistory { .. } => before is ReplaceHistory && last
                    is ShowHistory,
                Command::ThreadCancel { .. } => last is Cancel,
                Command::ApprovalAllow { .. } => last is AnswerApproval,
                Command::ApprovalDeny { .. } => last is AnswerApproval,
                Command::QuestionAnswer { .. } => last is AnswerQuestions,
                Command::ThreadSend { .. } => before is ShowTurn && last is LaunchTurn,
                Command::ThreadContinue { .. } => before is ShowTurn && last is LaunchTurn,
                Command::ThreadCompact { .. } => before is ShowTurn && last is LaunchTurn,
                Command::ProviderLogin { .. } => last is StartProvider,
                Command::ProviderReloadAuth { .. } => last is StartProvider,
                Command::ProviderLogout { .. } => last is StartProvider,
                Command::RunnerLaunch { .. } => last is LaunchRunner,
                Command::ExecCommand { .. } => before is FindRunner && last is StartProcess,
                Command::StopProcess { .. } => last is StopProcess,
            }
        }),
{
}

/// Before a thread is touched its state is loaded, and it is the thread that the
/// command names.
pub proof fn law_state_is_loaded_first(command: &Command)
    ensures
        match *command {
            Command::ThreadRename { thread_id, .. } => steps(command)[1] == (Step::Materialize {
                thread_id,
            }),
            Command::ThreadDelete { thread_id } => steps(command)[1] == (Step::Materialize {
                thread_id,
            }),
            Command::ThreadDeleteRecursive { thread_id } => steps(command)[1] == (
            Step::Materialize { thread_id }),
            Command::ThreadSetModel { thread_id, .. } => steps(command)[1] == (Step::Materialize {
                thread_id,
            }),
            Command::ThreadCheckpointCreate { thread_id } => steps(command)[1] == (
            Step::Materialize { thread_id }),
            Command::ThreadFork { thread_id, .. } => steps(command)[1] == (Step::Materialize {
                thread_id,
            }),
            Command::ThreadReplaceHistory { thread_id, .. } => steps(command)[1] == (
            Step::Materialize { thread_id }),
            Command::ThreadCancel { thread_id } => steps(command)[1] == (Step::Materialize {
                thread_id,
            }),
            Command::ExecCommand { thread_id, .. } => steps(command)[1] == (Step::Materialize {
                thread_id,
            }),
            Command::StopProcess { process } => steps(command)[1] == (Step::Materialize {
                thread_id: process.thread_id,
            }) && steps(command)[2] == (Step::MaterializeProcess { process: &process }),
            Command::ThreadSend { thread_id, .. } => steps(command)[2] == (
            Step::MaterializeLocked { thread_id }),
            Command::ThreadContinue { thread_id, .. } => steps(command)[2] == (
            Step::MaterializeLocked { thread_id }),
            Command::ThreadCompact { thread_id, .. } => steps(command)[2] == (
            Step::MaterializeLocked { thread_id }),
            _ => true,
        },
{
}

/// The answer says what was made, where something was made that has a number or a
/// list; else only that the command was accepted.
pub proof fn law_answer_says_what_was_made(command: &Command)
    ensures
        answer(command) is SkillsListed <==> *command is SkillList,
        answer(command) is ThreadCreated <==> *command is ThreadCreate,
        answer(command) is ThreadForked <==> *command is ThreadFork,
        answer(command) is ProcessStarted <==> *command is ExecCommand,
{
}

/// The model that is found is the first that has the name, and is the provider's,
/// where one is asked for; none is found only where there is none.
pub proof fn law_model_is_found(
    models: Seq<ModelView>,
    provider: Option<Seq<char>>,
    id: Seq<char>,
    from: nat,
)
    ensures
        find_model(models, provider, id, from) matches Some(found) ==> found.id == id && (provider
            matches Some(provider) ==> found.provider == provider) && exists|i: int|
            from <= i < models.len() && #[trigger] models[i] == found && forall|k: int|
                from <= k < i ==> !((#[trigger] models[k]).id == id && (provider matches Some(
                    provider,
                ) ==> models[k].provider == provider)),
        find_model(models, provider, id, from) is None ==> forall|k: int|
            from <= k < models.len() ==> !((#[trigger] models[k]).id == id && (provider
                matches Some(provider) ==> models[k].provider == provider)),
    decreases models.len() - from,
{
    if from < models.len() && !(models[from as int].id == id && (provider matches Some(provider)
        ==> models[from as int].provider == provider)) {
        law_model_is_found(models, provider, id, from + 1);
        if let Some(found) = find_model(models, provider, id, from + 1) {
            let i = choose|i: int|
                from + 1 <= i < models.len() && #[trigger] models[i] == found && forall|k: int|
                    from + 1 <= k < i ==> !((#[trigger] models[k]).id == id && (provider
                        matches Some(provider) ==> models[k].provider == provider));
            assert(models[i] == found);
        }
    } else if from < models.len() {
        assert(models[from as int].id == id);
    }
}

/// A turn that ended well or was cancelled is shown as that, and one that did not as
/// failed, with the words that say why; no two ways to end look the same.
pub proof fn law_outcome_says_how_the_turn_ended(end: TurnEnd, outcome: TurnOutcome)
    requires
        has_outcome(end, outcome),
    ensures
        outcome is Completed <==> end is Completed || end is Compacted,
        outcome is Cancelled <==> end is Cancelled,
        outcome is Failed <==> end is Failed || end is Panicked,
        end matches TurnEnd::Failed { message: why } ==> outcome->Failed_message@ == why@,
        end matches TurnEnd::Panicked { payload: Some(text) } ==> crate::text::has_prefix(
            outcome->Failed_message@,
            "turn task panicked: "@,
        ) && crate::text::has_suffix(outcome->Failed_message@, text@),
{
    if let TurnEnd::Panicked { payload } = end {
        let opening = "turn task panicked: "@;
        let words = opening + panic_words(payload);
        assert(words.take(opening.len() as int) =~= opening);
        assert(words.skip(words.len() - panic_words(payload).len()) =~= panic_words(payload));
    }
}

/// The words of a refusal name what was refused.
pub proof fn law_model_refusal_names_the_model(refusal: ModelRefusal)
    ensures
        match refusal {
            ModelRefusal::UnknownModel { provider, model } => crate::text::has_prefix(
                refusal.words(),
                "unknown model "@,
            ) && crate::text::has_suffix(refusal.words(), provider@ + "/"@ + model@),
            ModelRefusal::UnsupportedEffort { effort, provider, model } => crate::text::has_prefix(
                refusal.words(),
                "reasoning effort "@ + effort@,
            ) && crate::text::has_suffix(refusal.words(), provider@ + "/"@ + model@),
        },
{
    let words = refusal.words();
    match refusal {
        ModelRefusal::UnknownModel { provider, model } => {
            let ending = provider@ + "/"@ + model@;
            assert(words.take("unknown model "@.len() as int) =~= "unknown model "@);
            assert(words.skip(words.len() - ending.len()) =~= ending);
        },
        ModelRefusal::UnsupportedEffort { effort, provider, model } => {
            let start = "reasoning effort "@ + effort@;
            let ending = provider@ + "/"@ + model@;
            assert(words.take(start.len() as int) =~= start);
            assert(words.skip(words.len() - ending.len()) =~= ending);
        },
    }
}

/// The steps of a plan are taken one after the other, each once, until one fails or the
/// last is taken; only then it is answered.
pub proof fn law_steps_are_taken_in_order(
    plan: Vec<Step>,
    number: usize,
    failed: bool,
    next: PlanStep,
)
    requires
        number < plan@.len(),
        call_ensures(after_step, (&plan, number, failed), next),
    ensures
        next is Fail <==> failed,
        next is Answer <==> !failed && number == plan@.len() - 1,
        next matches PlanStep::Take { number: following } ==> following == number + 1 && following
            < plan@.len(),
        next is Take <==> !failed && number < plan@.len() - 1,
{
    assert(plan@.len() == plan.len());
}

/// A turn that ended is published with its outcome, and then finished, whatever became of
/// that. A panic is told in its words.
pub proof fn law_ended_turn_is_published_and_finished(
    event: TaskEvent,
    step: TaskStep,
    payload: Option<String>,
    text: String,
)
    requires
        call_ensures(complete_registered_turn, (event,), step),
        call_ensures(panic_message, (payload,), text),
    ensures
        step is Publish <==> event is Ended,
        step is Finish <==> event is Published,
        event matches TaskEvent::Ended(TurnEnd::Completed) ==> (
        step matches TaskStep::Publish(outcome) && outcome is Completed),
        event matches TaskEvent::Ended(TurnEnd::Cancelled) ==> (
        step matches TaskStep::Publish(outcome) && outcome is Cancelled),
        event matches TaskEvent::Ended(TurnEnd::Failed { message }) ==> (
        step matches TaskStep::Publish(TurnOutcome::Failed { message: told }) && told@
            == message@),
        event matches TaskEvent::Ended(TurnEnd::Panicked { payload: Some(said) }) ==> (
        step matches TaskStep::Publish(TurnOutcome::Failed { message: told })
            && crate::text::has_suffix(told@, said@)),
        payload matches Some(said) ==> text@ == said@,
        payload is None ==> text@ == "unknown panic payload"@,
{
    if let TaskEvent::Ended(TurnEnd::Panicked { payload: Some(said) }) = event {
        if let TaskStep::Publish(TurnOutcome::Failed { message: told }) = step {
            assert(told@.skip(told@.len() - said@.len()) =~= said@);
        }
    }
}

/// What comes next comes after the last event, and after nothing where there is none; a
/// new thread has the model and the effort that are the default.
pub proof fn law_next_comes_after_the_last(
    events: Vec<Event>,
    sequence: i64,
    settings: (&'static str, &'static str),
)
    requires
        call_ensures(sequence_before, (&events,), sequence),
        call_ensures(new_thread_settings, (), settings),
    ensures
        events@.len() == 0 ==> sequence == -1,
        events@.len() > 0 ==> sequence == events@[events@.len() - 1].sequence,
        settings.0@ == "gpt-5.6-sol"@,
        settings.1@ == "medium"@,
{
    assert(DEFAULT_MODEL@ == "gpt-5.6-sol"@);
    assert(DEFAULT_EFFORT@ == "medium"@);
}

} // verus!
