//! What the controller shows of threads and providers.
use crate::event::{
    is_masked, masked_by_latest, Event, InstructionEvent, Runner, RunnersEvent, ThreadEventData,
    ToolResultEvent,
};
use crate::json::Json;
use crate::provider::Model;
use crate::surface::{latest_runners, latest_skills, latest_workspace, runners_of};
use crate::text::view_option;
use vstd::prelude::*;

verus! {

/// Instructions as a thread knows them.
#[derive(Debug, PartialEq)]
pub enum WorkspaceInstructions {
    Untracked,
    Present(String),
    Removed,
}

/// What a [`WorkspaceInstructions`] stands for.
pub enum InstructionsView {
    Untracked,
    Present(Seq<char>),
    Removed,
}

impl View for WorkspaceInstructions {
    type V = InstructionsView;

    open spec fn view(&self) -> InstructionsView {
        match self {
            WorkspaceInstructions::Untracked => InstructionsView::Untracked,
            WorkspaceInstructions::Present(text) => InstructionsView::Present(text@),
            WorkspaceInstructions::Removed => InstructionsView::Removed,
        }
    }
}

/// The instructions after an event.
pub open spec fn known(event: Option<InstructionEvent>) -> InstructionsView {
    match event {
        None => InstructionsView::Untracked,
        Some(InstructionEvent::Initial(text)) => InstructionsView::Present(text@),
        Some(InstructionEvent::Replacement(text)) => InstructionsView::Present(text@),
        Some(InstructionEvent::Removal) => InstructionsView::Removed,
    }
}

fn known_from(event: &InstructionEvent) -> (instructions: WorkspaceInstructions)
    ensures
        instructions@ == known(Some(*event)),
{
    match event {
        InstructionEvent::Initial(text) => WorkspaceInstructions::Present(text.clone()),
        InstructionEvent::Replacement(text) => WorkspaceInstructions::Present(text.clone()),
        InstructionEvent::Removal => WorkspaceInstructions::Removed,
    }
}

/// The instructions of the workspace that a thread was told last.
pub fn workspace_instructions(events: &Vec<Event>) -> (instructions: WorkspaceInstructions)
    ensures
        instructions@ == known(latest_workspace(events@)),
{
    let mut i: usize = events.len();
    assert(events@.take(i as int) =~= events@);
    while i > 0
        invariant
            i <= events.len(),
            latest_workspace(events@) == latest_workspace(events@.take(i as int)),
        decreases i,
    {
        assert(events@.take(i as int).last() == events[i - 1]);
        assert(events@.take(i as int).drop_last() =~= events@.take(i - 1));
        match &events[i - 1].data {
            ThreadEventData::WorkspaceInstructions(event) => {
                return known_from(event);
            },
            _ => {},
        }
        i -= 1;
    }
    WorkspaceInstructions::Untracked
}

/// The skills that a thread was told last.
pub fn current_skills(events: &Vec<Event>) -> (skills: WorkspaceInstructions)
    ensures
        skills@ == known(latest_skills(events@)),
{
    let mut i: usize = events.len();
    assert(events@.take(i as int) =~= events@);
    while i > 0
        invariant
            i <= events.len(),
            latest_skills(events@) == latest_skills(events@.take(i as int)),
        decreases i,
    {
        assert(events@.take(i as int).last() == events[i - 1]);
        assert(events@.take(i as int).drop_last() =~= events@.take(i - 1));
        match &events[i - 1].data {
            ThreadEventData::Skills(event) => {
                return known_from(event);
            },
            _ => {},
        }
        i -= 1;
    }
    WorkspaceInstructions::Untracked
}

/// What a runner stands for.
pub open spec fn runner_view(runner: Runner) -> (Seq<char>, Seq<char>, crate::event::ApprovalPolicy) {
    (runner.name@, runner.description@, runner.approval)
}

/// What runners stand for.
pub open spec fn runner_views(runners: Seq<Runner>) -> Seq<
    (Seq<char>, Seq<char>, crate::event::ApprovalPolicy),
> {
    Seq::new(runners.len(), |i: int| runner_view(runners[i]))
}

fn copy_runners(runners: &Vec<Runner>) -> (copy: Vec<Runner>)
    ensures
        runner_views(copy@) == runner_views(runners@),
{
    let mut copy: Vec<Runner> = Vec::new();
    let mut i: usize = 0;
    while i < runners.len()
        invariant
            i <= runners.len(),
            copy.len() == i,
            forall|k: int| 0 <= k < i ==> runner_view(#[trigger] copy[k]) == runner_view(runners[k]),
        decreases runners.len() - i,
    {
        let runner = &runners[i];
        copy.push(
            Runner {
                name: runner.name.clone(),
                description: runner.description.clone(),
                approval: runner.approval,
            },
        );
        i += 1;
    }
    assert(runner_views(copy@) =~= runner_views(runners@));
    copy
}

/// The runners that a thread was told last.
pub fn current_runners(events: &Vec<Event>) -> (runners: Option<Vec<Runner>>)
    ensures
        match (runners, latest_runners(events@)) {
            (Some(runners), Some(event)) => runner_views(runners@) == runner_views(
                runners_of(event),
            ),
            (None, None) => true,
            _ => false,
        },
{
    let mut i: usize = events.len();
    assert(events@.take(i as int) =~= events@);
    while i > 0
        invariant
            i <= events.len(),
            latest_runners(events@) == latest_runners(events@.take(i as int)),
        decreases i,
    {
        assert(events@.take(i as int).last() == events[i - 1]);
        assert(events@.take(i as int).drop_last() =~= events@.take(i - 1));
        match &events[i - 1].data {
            ThreadEventData::Runners(RunnersEvent::Initial(runners)) => {
                return Some(copy_runners(runners));
            },
            ThreadEventData::Runners(RunnersEvent::Replacement(runners)) => {
                return Some(copy_runners(runners));
            },
            _ => {},
        }
        i -= 1;
    }
    None
}

/// What an instruction event says.
pub open spec fn instruction_event_view(event: Option<InstructionEvent>) -> Option<
    Option<Seq<char>>,
> {
    match event {
        None => None,
        Some(InstructionEvent::Initial(text)) => Some(Some(text@)),
        Some(InstructionEvent::Replacement(text)) => Some(Some(text@)),
        Some(InstructionEvent::Removal) => Some(None),
    }
}

/// What a history that starts anew says of skills: what the last event says, as
/// the first word on it.
pub fn skill_event(events: &Vec<Event>) -> (event: Option<InstructionEvent>)
    ensures
        instruction_event_view(event) == instruction_event_view(latest_skills(events@)),
        !(event matches Some(InstructionEvent::Replacement(_))),
{
    match current_skills(events) {
        WorkspaceInstructions::Untracked => None,
        WorkspaceInstructions::Present(text) => Some(InstructionEvent::Initial(text)),
        WorkspaceInstructions::Removed => Some(InstructionEvent::Removal),
    }
}

/// What a history that starts anew says of runners: what the last event says, as
/// the first word on it.
pub fn runner_event(events: &Vec<Event>) -> (event: Option<RunnersEvent>)
    ensures
        match (event, latest_runners(events@)) {
            (Some(RunnersEvent::Initial(runners)), Some(latest)) => runner_views(runners@)
                == runner_views(runners_of(latest)),
            (None, None) => true,
            _ => false,
        },
{
    match current_runners(events) {
        Some(runners) => Some(RunnersEvent::Initial(runners)),
        None => None,
    }
}

/// A result without what stands in for it once it is masked.
pub open spec fn unmasked(result: ToolResultEvent) -> ToolResultEvent {
    match result {
        ToolResultEvent::Custom { call_id, name, result, artifacts, masked_result: _ } => {
            ToolResultEvent::Custom { call_id, name, result, artifacts, masked_result: None }
        },
        ToolResultEvent::Function { call_id, name, result, artifacts, masked_result: _ } => {
            ToolResultEvent::Function { call_id, name, result, artifacts, masked_result: None }
        },
    }
}

/// An event as it is shown: what stands in for a result is shown only of a
/// result that is masked.
pub open spec fn shown(event: Event, masked: Seq<i64>) -> Event {
    match event.data {
        ThreadEventData::ToolResult(result) => if masked.contains(event.sequence) {
            event
        } else {
            Event { sequence: event.sequence, data: ThreadEventData::ToolResult(unmasked(result)) }
        },
        _ => event,
    }
}

fn shown_event(event: Event, masked: bool) -> (result: Event)
    ensures
        result == (match event.data {
            ThreadEventData::ToolResult(tool_result) => if masked {
                event
            } else {
                Event {
                    sequence: event.sequence,
                    data: ThreadEventData::ToolResult(unmasked(tool_result)),
                }
            },
            _ => event,
        }),
{
    if masked {
        return event;
    }
    let sequence = event.sequence;
    match event.data {
        ThreadEventData::ToolResult(
            ToolResultEvent::Custom { call_id, name, result, artifacts, masked_result: _ },
        ) => Event {
            sequence,
            data: ThreadEventData::ToolResult(
                ToolResultEvent::Custom { call_id, name, result, artifacts, masked_result: None },
            ),
        },
        ThreadEventData::ToolResult(
            ToolResultEvent::Function { call_id, name, result, artifacts, masked_result: _ },
        ) => Event {
            sequence,
            data: ThreadEventData::ToolResult(
                ToolResultEvent::Function { call_id, name, result, artifacts, masked_result: None },
            ),
        },
        data => Event { sequence, data },
    }
}

/// The events of a thread as they are shown.
pub fn protocol_events(events: Vec<Event>) -> (result: Vec<Event>)
    ensures
        result@ == Seq::new(
            events@.len(),
            |i: int| shown(events@[i], masked_by_latest(events@)),
        ),
{
    let ghost all = events@;
    let mut masks: Vec<bool> = Vec::new();
    let mut i: usize = 0;
    while i < events.len()
        invariant
            i <= events.len(),
            masks.len() == i,
            forall|k: int|
                0 <= k < i ==> #[trigger] masks[k] == masked_by_latest(events@).contains(
                    events[k].sequence,
                ),
        decreases events.len() - i,
    {
        masks.push(is_masked(&events, events[i].sequence));
        i += 1;
    }
    let mut rest = events;
    let mut reversed: Vec<Event> = Vec::new();
    while rest.len() > 0
        invariant
            rest@ == all.take(rest@.len() as int),
            rest@.len() + reversed@.len() == all.len(),
            masks@.len() == all.len(),
            forall|k: int|
                0 <= k < all.len() ==> #[trigger] masks[k] == masked_by_latest(all).contains(
                    all[k].sequence,
                ),
            forall|k: int|
                0 <= k < reversed.len() ==> #[trigger] reversed[k] == shown(
                    all[all.len() - 1 - k],
                    masked_by_latest(all),
                ),
        decreases rest.len(),
    {
        let masked = masks[rest.len() - 1];
        let ghost last = rest@.len() - 1;
        match rest.pop() {
            Some(event) => {
                assert(event == all[last]);
                reversed.push(shown_event(event, masked));
            },
            None => {},
        }
        assert(rest@ =~= all.take(rest@.len() as int));
    }
    let mut result: Vec<Event> = Vec::new();
    while reversed.len() > 0
        invariant
            reversed@.len() + result@.len() == all.len(),
            forall|k: int|
                0 <= k < reversed.len() ==> #[trigger] reversed[k] == shown(
                    all[all.len() - 1 - k],
                    masked_by_latest(all),
                ),
            forall|k: int|
                0 <= k < result.len() ==> #[trigger] result[k] == shown(
                    all[k],
                    masked_by_latest(all),
                ),
        decreases reversed.len(),
    {
        match reversed.pop() {
            Some(event) => {
                result.push(event);
            },
            None => {},
        }
    }
    assert(result@ =~= Seq::new(all.len(), |k: int| shown(all[k], masked_by_latest(all))));
    result
}

/// Showing events changes no number and no order, and shows a masked result with
/// what stands in for it.
pub proof fn law_shown_events_keep_their_place(events: Seq<Event>, i: int)
    requires
        0 <= i < events.len(),
    ensures
        shown(events[i], masked_by_latest(events)).sequence == events[i].sequence,
        masked_by_latest(events).contains(events[i].sequence) ==> shown(
            events[i],
            masked_by_latest(events),
        ) == events[i],
        !(events[i].data is ToolResult) ==> shown(events[i], masked_by_latest(events)) == events[i],
{
}

/// The time in milliseconds since 1970, as it was measured.
pub fn unix_time_ms(measured: u128) -> (milliseconds: u64)
    requires
        measured <= u64::MAX,
    ensures
        milliseconds == measured,
{
    measured as u64
}

/// The time of a checkpoint.
pub fn checkpoint_time_ms(milliseconds: u64) -> (time: i64)
    requires
        milliseconds <= i64::MAX,
    ensures
        time == milliseconds,
{
    milliseconds as i64
}

/// Whether a provider can be used.
#[derive(Debug, PartialEq)]
pub enum ProviderLifecycle {
    LoggedOut,
    LoginRequired,
    LoggedIn { account: Option<String> },
    LoggingIn,
    Refreshing,
    LoggingOut,
    Failed { message: String },
}

/// What a provider says of its login.
#[derive(Debug)]
pub enum LoginStatus {
    LoggedIn { account: Option<String> },
    LoginRequired,
    Failed { message: String },
}

/// Whether the models of a provider are asked for: only with a login.
pub fn needs_models(status: &LoginStatus) -> (needed: bool)
    ensures
        needed == (status is LoggedIn),
{
    matches!(status, LoginStatus::LoggedIn { account: _ })
}

/// The state of a provider from what it says of its login, and, with a login, of
/// its models. The limits are known only where the models are.
pub fn provider_lifecycle(
    status: LoginStatus,
    models: Result<Vec<Model>, String>,
    rate_limits: Option<Json>,
) -> (state: (ProviderLifecycle, Vec<Model>, Option<Json>))
    ensures
        match (status, models) {
            (LoginStatus::LoginRequired, _) => state.0 is LoginRequired && state.1@.len() == 0
                && state.2 is None,
            (LoginStatus::Failed { message }, _) => state.0 == (ProviderLifecycle::Failed {
                message,
            }) && state.1@.len() == 0 && state.2 is None,
            (LoginStatus::LoggedIn { account }, Ok(models)) => state.0 == (
            ProviderLifecycle::LoggedIn { account }) && state.1 == models && state.2 == rate_limits,
            (LoginStatus::LoggedIn { account: _ }, Err(message)) => state.0 == (
            ProviderLifecycle::Failed { message }) && state.1@.len() == 0 && state.2 is None,
        },
{
    match status {
        LoginStatus::LoginRequired => (ProviderLifecycle::LoginRequired, Vec::new(), None),
        LoginStatus::Failed { message } => {
            (ProviderLifecycle::Failed { message }, Vec::new(), None)
        },
        LoginStatus::LoggedIn { account } => match models {
            Ok(models) => (ProviderLifecycle::LoggedIn { account }, models, rate_limits),
            Err(message) => (ProviderLifecycle::Failed { message }, Vec::new(), None),
        },
    }
}

/// The state of a process.
#[derive(Clone, Debug, PartialEq)]
pub enum ProcessStatus {
    Running,
    Exited { exit_code: Option<i32> },
    Unavailable { message: String },
}

/// What is known of a process.
#[derive(Clone, Debug, PartialEq)]
pub struct ProcessInspection {
    pub status: ProcessStatus,
    pub output_tail: String,
    pub omitted_bytes: usize,
}

/// What is shown of a process from what its runner says: where that fails, that
/// it is unavailable. The second part tells whether nothing more will come.
pub fn inspection_or_unavailable(result: Result<ProcessInspection, String>) -> (shown: (
    ProcessInspection,
    bool,
))
    ensures
        match result {
            Ok(inspection) => shown == (inspection, false),
            Err(message) => shown.0.status == (ProcessStatus::Unavailable { message })
                && shown.0.output_tail@.len() == 0 && shown.0.omitted_bytes == 0 && shown.1,
        },
{
    match result {
        Ok(inspection) => (inspection, false),
        Err(message) => {
            let output_tail = String::new();
            (
                ProcessInspection {
                    status: ProcessStatus::Unavailable { message },
                    output_tail,
                    omitted_bytes: 0,
                },
                true,
            )
        },
    }
}

/// Whether a process is watched on, after what came of it was shown: not where it
/// cannot be followed any more, nor where it ended or could not be shown.
pub fn keeps_watching(gone: bool, ended: Result<bool, ()>) -> (watched: bool)
    ensures
        watched == (!gone && ended == Ok::<bool, ()>(false)),
{
    match ended {
        Ok(ended) => !gone && !ended,
        Err(()) => false,
    }
}

/// What is learned while a process is made known to those who ask for it.
#[derive(Clone, Copy, Debug, PartialEq, Eq, Structural)]
pub enum ProcessCheck {
    /// Whether the process is known, at first.
    Known { known: bool },
    /// Whether there is a record of the process.
    Record { found: bool },
    /// Whether the process is known, now that nothing else can change.
    KnownNow { known: bool },
    /// Whether the thread of the process is there.
    Thread { found: bool },
    /// Whether the record of the process is still there.
    RecordNow { found: bool },
}

/// What is done next to make a process known.
#[derive(Clone, Copy, Debug, PartialEq, Eq, Structural)]
pub enum ProcessLoad {
    Done,
    FindRecord,
    InspectThenLock,
    FindThread,
    FindRecordAgain,
    Insert,
    Missing,
    ThreadGone,
    Gone,
}

/// What is done next to make a process known.
pub open spec fn load_next(check: ProcessCheck) -> ProcessLoad {
    match check {
        ProcessCheck::Known { known } => if known {
            ProcessLoad::Done
        } else {
            ProcessLoad::FindRecord
        },
        ProcessCheck::Record { found } => if found {
            ProcessLoad::InspectThenLock
        } else {
            ProcessLoad::Missing
        },
        ProcessCheck::KnownNow { known } => if known {
            ProcessLoad::Done
        } else {
            ProcessLoad::FindThread
        },
        ProcessCheck::Thread { found } => if found {
            ProcessLoad::FindRecordAgain
        } else {
            ProcessLoad::ThreadGone
        },
        ProcessCheck::RecordNow { found } => if found {
            ProcessLoad::Insert
        } else {
            ProcessLoad::Gone
        },
    }
}

/// What is done next to make a process known.
pub fn materialize_process(check: ProcessCheck) -> (load: ProcessLoad)
    ensures
        load == load_next(check),
{
    match check {
        ProcessCheck::Known { known } => if known {
            ProcessLoad::Done
        } else {
            ProcessLoad::FindRecord
        },
        ProcessCheck::Record { found } => if found {
            ProcessLoad::InspectThenLock
        } else {
            ProcessLoad::Missing
        },
        ProcessCheck::KnownNow { known } => if known {
            ProcessLoad::Done
        } else {
            ProcessLoad::FindThread
        },
        ProcessCheck::Thread { found } => if found {
            ProcessLoad::FindRecordAgain
        } else {
            ProcessLoad::ThreadGone
        },
        ProcessCheck::RecordNow { found } => if found {
            ProcessLoad::Insert
        } else {
            ProcessLoad::Gone
        },
    }
}

impl ProcessLoad {
    /// What is told where the process cannot be made known.
    pub open spec fn words(self) -> Option<Seq<char>> {
        match self {
            ProcessLoad::Missing => Some("managed process does not exist"@),
            ProcessLoad::ThreadGone => Some("managed process thread no longer exists"@),
            ProcessLoad::Gone => Some("managed process is no longer available"@),
            _ => None,
        }
    }

    /// What is told where the process cannot be made known.
    pub fn error(self) -> (text: Option<&'static str>)
        ensures
            match text {
                Some(text) => self.words() == Some(text@),
                None => self.words() is None,
            },
    {
        match self {
            ProcessLoad::Missing => Some("managed process does not exist"),
            ProcessLoad::ThreadGone => Some("managed process thread no longer exists"),
            ProcessLoad::Gone => Some("managed process is no longer available"),
            _ => None,
        }
    }
}

/// What is learned while a process that was started is registered.
#[derive(Clone, Copy, Debug, PartialEq, Eq, Structural)]
pub enum RegisterCheck {
    /// Whether the thread of the process is there.
    Thread { found: bool },
    /// Whether the record is new.
    Record { inserted: bool },
    /// Whether the process could be shown.
    Shown { shown: bool },
}

/// What is done next to register a process.
#[derive(Clone, Copy, Debug, PartialEq, Eq, Structural)]
pub enum RegisterStep {
    InsertRecord,
    Show,
    Watch,
    Done,
    ThreadGone,
    RemoveRecordAndFail,
}

/// What is done next to register a process.
pub fn register_managed_process(check: RegisterCheck) -> (step: RegisterStep)
    ensures
        step == (match check {
            RegisterCheck::Thread { found } => if found {
                RegisterStep::InsertRecord
            } else {
                RegisterStep::ThreadGone
            },
            RegisterCheck::Record { inserted } => if inserted {
                RegisterStep::Show
            } else {
                RegisterStep::Done
            },
            RegisterCheck::Shown { shown } => if shown {
                RegisterStep::Watch
            } else {
                RegisterStep::RemoveRecordAndFail
            },
        }),
{
    match check {
        RegisterCheck::Thread { found } => if found {
            RegisterStep::InsertRecord
        } else {
            RegisterStep::ThreadGone
        },
        RegisterCheck::Record { inserted } => if inserted {
            RegisterStep::Show
        } else {
            RegisterStep::Done
        },
        RegisterCheck::Shown { shown } => if shown {
            RegisterStep::Watch
        } else {
            RegisterStep::RemoveRecordAndFail
        },
    }
}

/// What is learned while a process is started.
#[derive(Clone, Copy, Debug, PartialEq, Eq, Structural)]
pub enum StartCheck {
    /// Whether the runner started it.
    Started { started: bool },
    /// Whether it could be followed.
    Followed { followed: bool },
    /// Whether it could be registered.
    Registered { registered: bool },
}

/// What is done next to start a process.
#[derive(Clone, Copy, Debug, PartialEq, Eq, Structural)]
pub enum StartStep {
    Follow,
    Register,
    Done,
    Fail,
    /// The process is stopped, whether that succeeds or not, and the error told that
    /// came before.
    StopAndFail,
}

/// What is done next to start a process: one that was started and cannot be
/// followed or registered is stopped.
pub fn start_managed_process(check: StartCheck) -> (step: StartStep)
    ensures
        step == (match check {
            StartCheck::Started { started } => if started {
                StartStep::Follow
            } else {
                StartStep::Fail
            },
            StartCheck::Followed { followed } => if followed {
                StartStep::Register
            } else {
                StartStep::StopAndFail
            },
            StartCheck::Registered { registered } => if registered {
                StartStep::Done
            } else {
                StartStep::StopAndFail
            },
        }),
{
    match check {
        StartCheck::Started { started } => if started {
            StartStep::Follow
        } else {
            StartStep::Fail
        },
        StartCheck::Followed { followed } => if followed {
            StartStep::Register
        } else {
            StartStep::StopAndFail
        },
        StartCheck::Registered { registered } => if registered {
            StartStep::Done
        } else {
            StartStep::StopAndFail
        },
    }
}

/// The state of a provider after it was asked to log in, to look for its login
/// again, or to log out: its own state, or what failed.
pub fn operation_ended(
    result: Result<(ProviderLifecycle, Vec<Model>, Option<Json>), String>,
) -> (state: (ProviderLifecycle, Vec<Model>, Option<Json>))
    ensures
        match result {
            Ok(own) => state == own,
            Err(message) => state.0 == (ProviderLifecycle::Failed { message }) && state.1@.len()
                == 0 && state.2 is None,
        },
{
    match result {
        Ok(own) => own,
        Err(message) => (ProviderLifecycle::Failed { message }, Vec::new(), None),
    }
}

/// Instructions are known by the last event that brought them: as the text that it
/// brought, or as gone where it took them away; and they are not known where no event
/// did either.
pub proof fn law_instructions_are_those_of_the_last_event(event: Option<InstructionEvent>)
    ensures
        known(event) is Untracked <==> event is None,
        known(event) is Removed <==> event == Some(InstructionEvent::Removal),
        event matches Some(InstructionEvent::Initial(text)) ==> known(event)
            == InstructionsView::Present(text@),
        event matches Some(InstructionEvent::Replacement(text)) ==> known(event)
            == InstructionsView::Present(text@),
{
}

/// An event is shown as it is, but that the mask of a result is shown only where the
/// result is masked; the result itself is never changed.
pub proof fn law_masks_are_shown_where_they_count(event: Event, masked: Seq<i64>)
    ensures
        ({
            let told = shown(event, masked);
            &&& told.sequence == event.sequence
            &&& !(event.data is ToolResult) ==> told == event
            &&& masked.contains(event.sequence) ==> told == event
            &&& (event.data is ToolResult && !masked.contains(event.sequence)) ==> (told.data
                matches ThreadEventData::ToolResult(result) && match (
                result,
                event.data->ToolResult_0,
            ) {
                (
                    ToolResultEvent::Custom { call_id, name, result, artifacts, masked_result },
                    ToolResultEvent::Custom {
                        call_id: id,
                        name: called,
                        result: came,
                        artifacts: made,
                        ..
                    },
                ) => call_id == id && name == called && result == came && artifacts == made
                    && masked_result is None,
                (
                    ToolResultEvent::Function { call_id, name, result, artifacts, masked_result },
                    ToolResultEvent::Function {
                        call_id: id,
                        name: called,
                        result: came,
                        artifacts: made,
                        ..
                    },
                ) => call_id == id && name == called && result == came && artifacts == made
                    && masked_result is None,
                _ => false,
            })
        }),
{
}

/// A provider is ready only where its login holds and its models are known; then its
/// models and its limits are shown. Where anything failed, the words say why, and
/// nothing else is shown.
pub proof fn law_provider_is_ready_with_its_models(
    status: LoginStatus,
    models: Result<Vec<Model>, String>,
    rate_limits: Option<Json>,
    state: (ProviderLifecycle, Vec<Model>, Option<Json>),
    needed: bool,
)
    requires
        call_ensures(provider_lifecycle, (status, models, rate_limits), state),
        call_ensures(needs_models, (&status,), needed),
    ensures
        needed <==> status is LoggedIn,
        state.0 is LoggedIn <==> status is LoggedIn && models is Ok,
        state.0 is LoginRequired <==> status is LoginRequired,
        state.0 is Failed <==> status is Failed || (status is LoggedIn && models is Err),
        status matches LoginStatus::Failed { message } ==> state.0 == (ProviderLifecycle::Failed {
            message,
        }),
        !(state.0 is LoggedIn) ==> state.1@.len() == 0 && state.2 is None,
        state.0 matches ProviderLifecycle::LoggedIn { account } ==> models == Ok::<
            Vec<Model>,
            String,
        >(state.1) && state.2 == rate_limits && status == (LoginStatus::LoggedIn { account }),
{
}

/// An operation of a provider that failed shows why, and nothing else.
pub proof fn law_failed_operation_shows_why(
    result: Result<(ProviderLifecycle, Vec<Model>, Option<Json>), String>,
    state: (ProviderLifecycle, Vec<Model>, Option<Json>),
)
    requires
        call_ensures(operation_ended, (result,), state),
    ensures
        result matches Ok(own) ==> state == own,
        result matches Err(why) ==> state.0 == (ProviderLifecycle::Failed { message: why })
            && state.1@.len() == 0 && state.2 is None,
{
}

/// A process that cannot be looked at is shown as unavailable, with the reason, and is
/// watched no longer; one that can is shown as it is, and watched until it ends.
pub proof fn law_process_is_watched_until_it_ends(
    result: Result<ProcessInspection, String>,
    told: (ProcessInspection, bool),
    ended: Result<bool, ()>,
    watched: bool,
)
    requires
        call_ensures(inspection_or_unavailable, (result,), told),
        call_ensures(keeps_watching, (told.1, ended), watched),
    ensures
        result matches Ok(inspection) ==> told.0 == inspection && !told.1,
        result matches Err(why) ==> told.0.status == (ProcessStatus::Unavailable { message: why })
            && told.1 && !watched,
        watched <==> result is Ok && ended is Ok && !ended->Ok_0,
{
}

/// A process is loaded only where it is recorded, its thread is there, and it still is
/// recorded when nothing can change any more; one that is known already is not loaded
/// again.
pub proof fn law_process_is_loaded_where_it_is_recorded(check: ProcessCheck)
    ensures
        load_next(check) is Insert <==> check == (ProcessCheck::RecordNow { found: true }),
        load_next(check) is Done <==> (check matches ProcessCheck::Known { known } && known) || (
        check matches ProcessCheck::KnownNow { known } && known),
        load_next(check) is FindRecord <==> check == (ProcessCheck::Known { known: false }),
        load_next(check) is InspectThenLock <==> check == (ProcessCheck::Record { found: true }),
        load_next(check) is FindThread <==> check == (ProcessCheck::KnownNow { known: false }),
        load_next(check) is FindRecordAgain <==> check == (ProcessCheck::Thread { found: true }),
        load_next(check) is Missing <==> check == (ProcessCheck::Record { found: false }),
        load_next(check) is ThreadGone <==> check == (ProcessCheck::Thread { found: false }),
        load_next(check) is Gone <==> check == (ProcessCheck::RecordNow { found: false }),
        load_next(check).words() is Some <==> load_next(check) is Missing || load_next(check)
            is ThreadGone || load_next(check) is Gone,
{
}

/// A process is recorded only where its thread is there, shown only where its record
/// is new, and watched only once it is shown; where it cannot be shown its record is
/// taken back.
pub proof fn law_process_is_registered_in_order(check: RegisterCheck, step: RegisterStep)
    requires
        call_ensures(register_managed_process, (check,), step),
    ensures
        step is InsertRecord <==> check == (RegisterCheck::Thread { found: true }),
        step is ThreadGone <==> check == (RegisterCheck::Thread { found: false }),
        step is Show <==> check == (RegisterCheck::Record { inserted: true }),
        step is Done <==> check == (RegisterCheck::Record { inserted: false }),
        step is Watch <==> check == (RegisterCheck::Shown { shown: true }),
        step is RemoveRecordAndFail <==> check == (RegisterCheck::Shown { shown: false }),
{
}

/// A process that was started is followed and then registered; where one of these
/// fails it is stopped, so that none is left that nobody knows of.
pub proof fn law_started_process_is_not_lost(check: StartCheck, step: StartStep)
    requires
        call_ensures(start_managed_process, (check,), step),
    ensures
        step is Follow <==> check == (StartCheck::Started { started: true }),
        step is Fail <==> check == (StartCheck::Started { started: false }),
        step is Register <==> check == (StartCheck::Followed { followed: true }),
        step is Done <==> check == (StartCheck::Registered { registered: true }),
        step is StopAndFail <==> check == (StartCheck::Followed { followed: false }) || check == (
        StartCheck::Registered { registered: false }),
{
}

/// The skills and runners of a thread are those of the last event about them, told as if
/// for the first time; a thread that was never told any has none.
pub proof fn law_runners_are_those_of_the_last_event(
    events: Vec<Event>,
    i: int,
    runners: Option<Vec<Runner>>,
    event: Option<RunnersEvent>,
    skills: Option<InstructionEvent>,
)
    requires
        0 <= i < events@.len(),
        call_ensures(current_runners, (&events,), runners),
        call_ensures(runner_event, (&events,), event),
        call_ensures(skill_event, (&events,), skills),
        forall|j: int| i < j < events@.len() ==> !((#[trigger] events@[j]).data is Runners),
        forall|j: int| i < j < events@.len() ==> !((#[trigger] events@[j]).data is Skills),
    ensures
        events@[i].data matches ThreadEventData::Runners(RunnersEvent::Initial(told)) ==> (
        runners matches Some(found) && runner_views(found@) == runner_views(told@)) && (
        event matches Some(RunnersEvent::Initial(shown)) && runner_views(shown@) == runner_views(
            told@,
        )),
        events@[i].data is Skills ==> skills is Some,
        skills matches Some(shown) ==> !(shown is Replacement),
{
    lemma_last_runners(events@, i);
    lemma_last_skills(events@, i);
}

proof fn lemma_last_runners(events: Seq<Event>, i: int)
    requires
        0 <= i < events.len(),
        forall|j: int| i < j < events.len() ==> !((#[trigger] events[j]).data is Runners),
    ensures
        events[i].data matches ThreadEventData::Runners(value) ==> latest_runners(events) == Some(
            value,
        ),
    decreases events.len(),
{
    if i < events.len() - 1 {
        assert(!(events[events.len() - 1].data is Runners));
        lemma_last_runners(events.drop_last(), i);
    }
}

proof fn lemma_last_skills(events: Seq<Event>, i: int)
    requires
        0 <= i < events.len(),
        forall|j: int| i < j < events.len() ==> !((#[trigger] events[j]).data is Skills),
    ensures
        events[i].data matches ThreadEventData::Skills(value) ==> latest_skills(events) == Some(
            value,
        ),
    decreases events.len(),
{
    if i < events.len() - 1 {
        assert(!(events[events.len() - 1].data is Skills));
        lemma_last_skills(events.drop_last(), i);
    }
}

} // verus!
