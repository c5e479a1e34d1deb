//! The events of a thread: what was said, called and answered, in order.
use crate::json::Json;
use vstd::prelude::*;

verus! {

/// What part of a turn an assistant message belongs to.
#[derive(Clone, Copy, Debug, PartialEq, Eq, Structural)]
pub enum AssistantMessagePhase {
    Commentary,
    FinalAnswer,
}

/// Whether commands for a runner need approval.
#[derive(Clone, Copy, Debug, PartialEq, Eq, Structural)]
pub enum ApprovalPolicy {
    Ask,
    Allow,
}

/// What a request to a model is for.
#[derive(Clone, Copy, Debug, PartialEq, Eq, Structural)]
pub enum ModelRequestKind {
    Response,
    Compaction,
}

/// State that only the API that wrote it understands. It is handed back where
/// the replay key is the same.
#[derive(Debug, PartialEq)]
pub struct OpaqueState {
    pub replay_key: String,
    pub payload: Json,
}

/// A runner as the model sees it.
#[derive(Debug, PartialEq)]
pub struct Runner {
    pub name: String,
    pub description: String,
    pub approval: ApprovalPolicy,
}

/// The runners that are available from here on.
#[derive(Debug, PartialEq)]
pub enum RunnersEvent {
    Initial(Vec<Runner>),
    Replacement(Vec<Runner>),
}

/// Instructions that hold from here on.
#[derive(Debug, PartialEq)]
pub enum InstructionEvent {
    Initial(String),
    Replacement(String),
    Removal,
}

/// A skill that the user invoked by name.
#[derive(Debug, PartialEq)]
pub struct SkillInvocationEvent {
    pub name: String,
    pub path: String,
    pub instructions: String,
}

/// A call of a tool.
#[derive(Debug, PartialEq)]
pub enum ToolCallEvent {
    Custom { item_id: Option<String>, name: String, input: String, call_id: String },
    Function { name: String, arguments: Json, call_id: String },
}

/// A command that a tool ran.
#[derive(Debug, PartialEq)]
pub enum CommandExecutionArtifact {
    Running { runner: String },
    Finished { output: String, exit_code: Option<i32>, runner: String, full_output_path: String },
}

/// What a tool did on a runner.
#[derive(Debug, PartialEq)]
pub struct RunnerOperationArtifact {
    pub operation: usize,
    pub runner: String,
    pub label: String,
    pub result: Json,
    pub artifacts: Vec<ToolArtifact>,
}

/// What a tool left behind beside its result.
#[derive(Debug, PartialEq)]
pub enum ToolArtifact {
    CommandExecution(CommandExecutionArtifact),
    RunnerOperation(RunnerOperationArtifact),
    PatchOperations(Json),
}

/// The result of a call of a tool. The masked result stands in for the result
/// once a boundary masks the event.
#[derive(Debug, PartialEq)]
pub enum ToolResultEvent {
    Custom {
        call_id: String,
        name: String,
        result: Json,
        artifacts: Vec<ToolArtifact>,
        masked_result: Option<Json>,
    },
    Function {
        call_id: String,
        name: String,
        result: Json,
        artifacts: Vec<ToolArtifact>,
        masked_result: Option<Json>,
    },
}

/// What stands for the history up to an event.
#[derive(Debug, PartialEq)]
pub enum CompactionReplacement {
    Summary { content: String },
    Opaque { state: OpaqueState },
}

/// The history up to and with the event `through` is replaced.
#[derive(Debug, PartialEq)]
pub struct CompactionEvent {
    pub replacement: CompactionReplacement,
    pub through: i64,
}

/// The results of the listed events are masked.
#[derive(Debug, PartialEq)]
pub struct FrozenBoundaryEvent {
    pub through_sequence: i64,
    pub masked_sequences: Vec<i64>,
}

/// A request that was sent to a model.
#[derive(Debug, PartialEq)]
pub struct ModelRequestEvent {
    pub kind: ModelRequestKind,
    pub context_window: Option<i64>,
}

/// How a turn ended.
#[derive(Debug, PartialEq)]
pub enum TurnOutcome {
    Completed,
    Cancelled,
    Failed { message: String },
}

/// What an event says.
#[derive(Debug, PartialEq)]
pub enum ThreadEventData {
    ThreadContext { content: String },
    WorkspaceInstructions(InstructionEvent),
    Skills(InstructionEvent),
    SkillInvocation(SkillInvocationEvent),
    Runners(RunnersEvent),
    UserMessage { content: String },
    AssistantMessage { content: String, phase: AssistantMessagePhase },
    Reasoning { summary: String, opaque: Option<OpaqueState> },
    ToolCall(ToolCallEvent),
    ToolResult(ToolResultEvent),
    WebSearch { item: Json },
    Compaction(CompactionEvent),
    FrozenBoundary(FrozenBoundaryEvent),
    ModelRequest(ModelRequestEvent),
    TokenUsage(Json),
    RateLimits(Json),
    ApprovalDecision { allowed: bool, reason: Option<String> },
    Retry { summary: String },
    TurnOutcome(TurnOutcome),
}

/// An event of a thread.
#[derive(Debug, PartialEq)]
pub struct Event {
    pub sequence: i64,
    pub data: ThreadEventData,
}

/// The sequence numbers that the latest boundary in `events` masks.
pub open spec fn masked_by_latest(events: Seq<Event>) -> Seq<i64>
    decreases events.len(),
{
    if events.len() == 0 {
        Seq::empty()
    } else {
        match events.last().data {
            ThreadEventData::FrozenBoundary(boundary) => boundary.masked_sequences@,
            _ => masked_by_latest(events.drop_last()),
        }
    }
}

/// Whether `sequence` is one of `sequences`.
pub fn contains_sequence(sequences: &Vec<i64>, sequence: i64) -> (found: bool)
    ensures
        found == sequences@.contains(sequence),
{
    let mut i: usize = 0;
    while i < sequences.len()
        invariant
            i <= sequences.len(),
            forall|j: int| 0 <= j < i ==> sequences[j] != sequence,
        decreases sequences.len() - i,
    {
        if sequences[i] == sequence {
            assert(sequences@[i as int] == sequence);
            return true;
        }
        i += 1;
    }
    false
}

/// Whether the latest boundary in `events` masks the event `sequence`.
pub fn is_masked(events: &Vec<Event>, sequence: i64) -> (masked: bool)
    ensures
        masked == masked_by_latest(events@).contains(sequence),
{
    let mut i: usize = events.len();
    assert(events@.take(i as int) =~= events@);
    while i > 0
        invariant
            i <= events.len(),
            masked_by_latest(events@) == masked_by_latest(events@.take(i as int)),
        decreases i,
    {
        assert(events@.take(i as int).last() == events[i - 1]);
        assert(events@.take(i as int).drop_last() =~= events@.take(i - 1));
        match &events[i - 1].data {
            ThreadEventData::FrozenBoundary(boundary) => {
                return contains_sequence(&boundary.masked_sequences, sequence);
            },
            _ => {},
        }
        i -= 1;
    }
    false
}

/// Which results are masked is said by the last boundary; nothing is masked where
/// there is none.
pub proof fn law_last_boundary_masks(events: Seq<Event>, i: int)
    requires
        0 <= i < events.len(),
        events[i].data is FrozenBoundary,
        forall|j: int| i < j < events.len() ==> !((#[trigger] events[j]).data is FrozenBoundary),
    ensures
        masked_by_latest(events) == events[i].data->FrozenBoundary_0.masked_sequences@,
    decreases events.len(),
{
    if i < events.len() - 1 {
        assert(!(events[events.len() - 1].data is FrozenBoundary));
        assert forall|j: int| i < j < events.len() - 1 implies !((
        #[trigger] events.drop_last()[j]).data is FrozenBoundary) by {
            assert(!(events[j].data is FrozenBoundary));
        }
        law_last_boundary_masks(events.drop_last(), i);
    }
}

/// Nothing is masked where there is no boundary.
pub proof fn law_nothing_is_masked_without_a_boundary(events: Seq<Event>)
    requires
        forall|j: int| 0 <= j < events.len() ==> !((#[trigger] events[j]).data is FrozenBoundary),
    ensures
        masked_by_latest(events).len() == 0,
    decreases events.len(),
{
    if events.len() > 0 {
        assert(!(events[events.len() - 1].data is FrozenBoundary));
        assert forall|j: int| 0 <= j < events.len() - 1 implies !((
        #[trigger] events.drop_last()[j]).data is FrozenBoundary) by {
            assert(!(events[j].data is FrozenBoundary));
        }
        law_nothing_is_masked_without_a_boundary(events.drop_last());
    }
}

} // verus!
