//! What an agent is told of the threads below it.
use crate::agent::hierarchy::{Thread, ThreadView};
use crate::assoc::{assoc, find_signed, lemma_assoc_push, lemma_assoc_update, unique_keys};
use crate::event::{
    contains_sequence, AssistantMessagePhase, CommandExecutionArtifact, Event, ThreadEventData,
    ToolArtifact, ToolCallEvent, ToolResultEvent, TurnOutcome,
};
use crate::json::printed;
use crate::text::{
    characters, concat2, concat3, concat4, concat5, decimal, decimal_text, has_prefix, has_suffix,
    holds_part, join, joined, one_line, same_text, spaced, tail, tail_chars, truncate_chars,
    truncated, views,
};
use vstd::prelude::*;

verus! {

/// How long the summary of a tool call is at most.
pub const SUMMARY_LENGTH: usize = 512;

/// What a turn is doing.
#[derive(Clone, Copy, Debug, PartialEq, Eq, Structural)]
pub enum TurnPhase {
    Running,
    Compacting,
    Cancelling,
}

/// What is known of a turn that runs.
#[derive(Clone, Copy, Debug, PartialEq, Eq, Structural)]
pub struct TurnProgress {
    pub phase: TurnPhase,
    pub pending_question: bool,
    pub pending_approval: bool,
}

/// The state of a thread in a word: of the turn that runs, else of the last one.
pub open spec fn status_word(active: Option<TurnProgress>, last: Option<TurnOutcome>) -> Seq<char> {
    match active {
        Some(turn) => if turn.pending_question {
            "awaiting_question"@
        } else if turn.pending_approval {
            "awaiting_approval"@
        } else {
            match turn.phase {
                TurnPhase::Compacting => "compacting"@,
                TurnPhase::Cancelling => "cancelling"@,
                TurnPhase::Running => "running"@,
            }
        },
        None => match last {
            Some(TurnOutcome::Completed) => "completed"@,
            Some(TurnOutcome::Cancelled) => "cancelled"@,
            Some(TurnOutcome::Failed { message: _ }) => "failed"@,
            None => "idle"@,
        },
    }
}

/// The state of a thread in a word.
pub fn turn_status(active: Option<TurnProgress>, last: &Option<TurnOutcome>) -> (word: &'static str)
    ensures
        word@ == status_word(active, *last),
{
    match active {
        Some(turn) => {
            if turn.pending_question {
                return "awaiting_question";
            }
            if turn.pending_approval {
                return "awaiting_approval";
            }
            match turn.phase {
                TurnPhase::Compacting => "compacting",
                TurnPhase::Cancelling => "cancelling",
                TurnPhase::Running => "running",
            }
        },
        None => match last {
            Some(TurnOutcome::Completed) => "completed",
            Some(TurnOutcome::Cancelled) => "cancelled",
            Some(TurnOutcome::Failed { message: _ }) => "failed",
            None => "idle",
        },
    }
}

/// The name of a thread on one line.
pub open spec fn label(thread: ThreadView) -> Seq<char> {
    match thread.display_name {
        Some(name) => if spaced(name, true).len() == 0 {
            "unnamed"@
        } else {
            spaced(name, true)
        },
        None => "unnamed"@,
    }
}

/// The name of a thread on one line.
pub fn thread_label(thread: &Thread) -> (text: String)
    ensures
        text@ == label(thread@),
{
    match &thread.display_name {
        Some(name) => {
            let text = one_line(name.as_str());
            if text.as_str().is_empty() {
                "unnamed".to_owned()
            } else {
                text
            }
        },
        None => "unnamed".to_owned(),
    }
}

/// The name of a thread brings no line break and no control character into a
/// list or a report.
pub proof fn law_label_is_one_line(thread: ThreadView, k: int)
    requires
        0 <= k < label(thread).len(),
    ensures
        !crate::text::is_control(label(thread)[k]),
        crate::text::is_space(label(thread)[k]) ==> label(thread)[k] == ' ',
{
    reveal_strlit("unnamed");
    match thread.display_name {
        Some(name) => {
            if spaced(name, true).len() > 0 {
                crate::text::law_one_line_has_no_line_break(name, k);
            }
        },
        None => {},
    }
}

/// `count` times two spaces.
pub open spec fn indent(count: nat) -> Seq<char>
    decreases count,
{
    if count == 0 {
        Seq::empty()
    } else {
        indent((count - 1) as nat) + "  "@
    }
}

fn indentation(count: usize) -> (text: String)
    ensures
        text@ == indent(count as nat),
{
    let mut text = String::new();
    let mut i: usize = 0;
    while i < count
        invariant
            i <= count,
            text@ == indent(i as nat),
        decreases count - i,
    {
        text.push_str("  ");
        i += 1;
    }
    text
}

/// The line of a thread in the list of threads.
pub open spec fn list_row(thread: ThreadView, depth: nat, status: Seq<char>) -> Seq<char> {
    indent(depth) + label(thread) + " thread="@ + decimal(thread.id as int) + " model="@ + (
    thread.provider + "/"@ + thread.model) + " effort="@ + thread.reasoning_effort + " status="@
        + status
}

/// The line of a thread in the list of threads.
pub fn agent_list_row(thread: &Thread, depth: usize, status: &str) -> (row: String)
    ensures
        row@ == list_row(thread@, depth as nat, status@),
{
    let name = thread_label(thread);
    let id = decimal_text(thread.id as i128);
    let model = concat3(thread.provider.as_str(), "/", thread.model.as_str());
    let mut row = indentation(depth);
    row.push_str(name.as_str());
    row.push_str(" thread=");
    row.push_str(id.as_str());
    row.push_str(" model=");
    row.push_str(model.as_str());
    row.push_str(" effort=");
    row.push_str(thread.reasoning_effort.as_str());
    row.push_str(" status=");
    row.push_str(status);
    row
}

/// Whether a result answers a call.
pub open spec fn answers(result: ToolResultEvent, call: ToolCallEvent) -> bool {
    match (result, call) {
        (
            ToolResultEvent::Custom { call_id: answered, name: _, result: _, artifacts: _, masked_result: _ },
            ToolCallEvent::Custom { item_id: _, name: _, input: _, call_id },
        ) => answered@ == call_id@,
        (
            ToolResultEvent::Function { call_id: answered, name: _, result: _, artifacts: _, masked_result: _ },
            ToolCallEvent::Function { name: _, arguments: _, call_id },
        ) => answered@ == call_id@,
        _ => false,
    }
}

/// Whether a result answers a call.
pub fn tool_result_matches_call(result: &ToolResultEvent, call: &ToolCallEvent) -> (matches: bool)
    ensures
        matches == answers(*result, *call),
{
    match (result, call) {
        (
            ToolResultEvent::Custom { call_id: answered, .. },
            ToolCallEvent::Custom { call_id, .. },
        ) => same_text(answered.as_str(), call_id.as_str()),
        (
            ToolResultEvent::Function { call_id: answered, .. },
            ToolCallEvent::Function { call_id, .. },
        ) => same_text(answered.as_str(), call_id.as_str()),
        _ => false,
    }
}

/// A command that failed: its output and its exit code.
pub open spec fn failed_command(artifact: ToolArtifact) -> Option<(Seq<char>, Option<i32>)>
    decreases artifact, 0nat,
{
    match artifact {
        ToolArtifact::CommandExecution(
            CommandExecutionArtifact::Finished { output, exit_code, runner: _, full_output_path: _ },
        ) => if exit_code != Some(0i32) {
            Some((output@, exit_code))
        } else {
            None
        },
        ToolArtifact::CommandExecution(CommandExecutionArtifact::Running { runner: _ }) => None,
        ToolArtifact::RunnerOperation(operation) => first_failure(operation.artifacts@, 0),
        ToolArtifact::PatchOperations(_) => None,
    }
}

/// The first command that failed among artifacts from `from` on.
pub open spec fn first_failure(artifacts: Seq<ToolArtifact>, from: nat) -> Option<
    (Seq<char>, Option<i32>),
>
    decreases artifacts, artifacts.len() - from,
{
    if from >= artifacts.len() {
        None
    } else {
        match failed_command(artifacts[from as int]) {
            Some(failure) => Some(failure),
            None => first_failure(artifacts, from + 1),
        }
    }
}

/// What is known of a failure.
pub open spec fn failure_view(failure: Option<(&String, Option<i32>)>) -> Option<
    (Seq<char>, Option<i32>),
> {
    match failure {
        Some((output, exit_code)) => Some((output@, exit_code)),
        None => None,
    }
}

fn failed_command_in_artifact(artifact: &ToolArtifact) -> (failure: Option<
    (&String, Option<i32>),
>)
    ensures
        failure_view(failure) == failed_command(*artifact),
    decreases artifact,
{
    match artifact {
        ToolArtifact::CommandExecution(CommandExecutionArtifact::Finished {
            output,
            exit_code,
            ..
        }) => {
            let succeeded = match exit_code {
                Some(code) => *code == 0,
                None => false,
            };
            if succeeded {
                None
            } else {
                Some((output, *exit_code))
            }
        },
        ToolArtifact::CommandExecution(CommandExecutionArtifact::Running { .. }) => None,
        ToolArtifact::RunnerOperation(operation) => {
            let mut i: usize = 0;
            while i < operation.artifacts.len()
                invariant
                    i <= operation.artifacts.len(),
                    first_failure(operation.artifacts@, 0) == first_failure(
                        operation.artifacts@,
                        i as nat,
                    ),
                    *artifact == ToolArtifact::RunnerOperation(*operation),
                decreases operation.artifacts.len() - i,
            {
                let failure = failed_command_in_artifact(&operation.artifacts[i]);
                if failure.is_some() {
                    return failure;
                }
                i += 1;
            }
            None
        },
        ToolArtifact::PatchOperations(_) => None,
    }
}

/// The artifacts of a result.
pub open spec fn artifacts_of(result: ToolResultEvent) -> Seq<ToolArtifact> {
    match result {
        ToolResultEvent::Custom { call_id: _, name: _, result: _, artifacts, masked_result: _ } => artifacts@,
        ToolResultEvent::Function { call_id: _, name: _, result: _, artifacts, masked_result: _ } => artifacts@,
    }
}

fn failed_command_artifact(result: &ToolResultEvent) -> (failure: Option<(&String, Option<i32>)>)
    ensures
        failure_view(failure) == first_failure(artifacts_of(*result), 0),
{
    let artifacts = match result {
        ToolResultEvent::Custom { artifacts, .. } => artifacts,
        ToolResultEvent::Function { artifacts, .. } => artifacts,
    };
    let mut i: usize = 0;
    while i < artifacts.len()
        invariant
            i <= artifacts.len(),
            first_failure(artifacts@, 0) == first_failure(artifacts@, i as nat),
            artifacts@ == artifacts_of(*result),
        decreases artifacts.len() - i,
    {
        let failure = failed_command_in_artifact(&artifacts[i]);
        if failure.is_some() {
            return failure;
        }
        i += 1;
    }
    None
}

/// The name of the tool that is called.
pub open spec fn called_tool(call: ToolCallEvent) -> Seq<char> {
    match call {
        ToolCallEvent::Custom { item_id: _, name, input: _, call_id: _ } => name@,
        ToolCallEvent::Function { name, arguments: _, call_id: _ } => name@,
    }
}

/// What a tool is called with.
pub open spec fn called_with(call: ToolCallEvent) -> Seq<char> {
    match call {
        ToolCallEvent::Custom { item_id: _, name: _, input, call_id: _ } => input@,
        ToolCallEvent::Function { name: _, arguments, call_id: _ } => printed(arguments@),
    }
}

/// What became of a call.
pub open spec fn call_status(result: Option<ToolResultEvent>) -> Seq<char> {
    match result {
        None => "status=pending"@,
        Some(result) => match first_failure(artifacts_of(result), 0) {
            Some((output, exit_code)) => "status=failed exit_code="@ + (match exit_code {
                Some(code) => decimal(code as int),
                None => "unknown"@,
            }) + " error_tail="@ + tail(spaced(output, true), 240),
            None => "status=ok"@,
        },
    }
}

/// The characters of a summary beside the arguments.
pub open spec fn summary_frame(call: ToolCallEvent, result: Option<ToolResultEvent>) -> nat {
    summary_header(call).len() + "\narguments=\n"@.len() + call_status(result).len()
}

/// The first line of a summary.
pub open spec fn summary_header(call: ToolCallEvent) -> Seq<char> {
    "[tool "@ + truncated(spaced(called_tool(call), true), 80) + "]"@
}

/// The summary of a tool call: its name, its arguments, and what became of it.
pub open spec fn summary(call: ToolCallEvent, result: Option<ToolResultEvent>) -> Seq<char> {
    let frame = summary_frame(call, result);
    let room = if frame <= SUMMARY_LENGTH {
        (SUMMARY_LENGTH - frame) as nat
    } else {
        0nat
    };
    summary_header(call) + "\narguments="@ + truncated(spaced(called_with(call), true), room)
        + "\n"@ + call_status(result)
}

/// A summary is short, however long the name, the arguments and the output are.
pub proof fn law_summary_is_bounded(call: ToolCallEvent, result: Option<ToolResultEvent>)
    ensures
        summary(call, result).len() <= SUMMARY_LENGTH,
{
    reveal_strlit("[tool ");
    reveal_strlit("]");
    reveal_strlit("\narguments=\n");
    reveal_strlit("\narguments=");
    reveal_strlit("\n");
    reveal_strlit("status=pending");
    reveal_strlit("status=ok");
    reveal_strlit("status=failed exit_code=");
    reveal_strlit("unknown");
    reveal_strlit(" error_tail=");
    crate::text::law_cut_text_is_bounded(spaced(called_tool(call), true), 80);
    assert(call_status(result).len() <= 400) by {
        if result is Some {
            match first_failure(artifacts_of(result->0), 0) {
                Some((output, exit_code)) => {
                    crate::text::law_cut_text_is_bounded(spaced(output, true), 240);
                    match exit_code {
                        Some(code) => {
                            assert(vstd::arithmetic::power::pow(10, 10) == 10000000000) by {
                                reveal_with_fuel(vstd::arithmetic::power::pow, 11);
                            }
                            lemma_decimal_length(code as int, 10);
                        },
                        None => {},
                    }
                },
                None => {},
            }
        }
    }
    let frame = summary_frame(call, result);
    crate::text::law_cut_text_is_bounded(
        spaced(called_with(call), true),
        (SUMMARY_LENGTH - frame) as nat,
    );
}

/// A number below the tenth power has as many digits at most.
proof fn lemma_decimal_length(value: int, places: nat)
    requires
        -vstd::arithmetic::power::pow(10, places) < value < vstd::arithmetic::power::pow(10, places),
        places > 0,
    ensures
        decimal(value).len() <= places + 1,
{
    if value < 0 {
        lemma_digits_length((-value) as nat, places);
    } else {
        lemma_digits_length(value as nat, places);
    }
}

proof fn lemma_digits_length(value: nat, places: nat)
    requires
        value < vstd::arithmetic::power::pow(10, places),
        places > 0,
    ensures
        crate::text::digits(value).len() <= places,
    decreases places,
{
    reveal(vstd::arithmetic::power::pow);
    if value >= 10 {
        assert(places > 1) by {
            if places == 1 {
                assert(vstd::arithmetic::power::pow(10, 0) == 1);
            }
        }
        lemma_digits_length(value / 10, (places - 1) as nat);
    }
}

fn tool_summary(call: &ToolCallEvent, result: Option<&ToolResultEvent>) -> (text: String)
    ensures
        text@ == summary(
            *call,
            match result {
                Some(result) => Some(*result),
                None => None,
            },
        ),
{
    let (name, arguments) = match call {
        ToolCallEvent::Custom { name, input, .. } => (name, input.clone()),
        ToolCallEvent::Function { name, arguments, .. } => (name, arguments.to_text()),
    };
    let arguments = one_line(arguments.as_str());
    let name = one_line(name.as_str());
    let name = truncate_chars(name.as_str(), 80);
    let header = concat3("[tool ", name.as_str(), "]");
    let status = match result {
        None => "status=pending".to_owned(),
        Some(result) => match failed_command_artifact(result) {
            Some((output, exit_code)) => {
                let code = match exit_code {
                    Some(code) => decimal_text(code as i128),
                    None => "unknown".to_owned(),
                };
                let output = one_line(output.as_str());
                let output = tail_chars(output.as_str(), 240);
                concat4("status=failed exit_code=", code.as_str(), " error_tail=", output.as_str())
            },
            None => "status=ok".to_owned(),
        },
    };
    let ghost frame = summary_frame(
        *call,
        match result {
            Some(result) => Some(*result),
            None => None,
        },
    );
    let mut room: usize = SUMMARY_LENGTH;
    room = room_left(room, header.as_str());
    room = room_left(room, "\narguments=\n");
    room = room_left(room, status.as_str());
    assert(room == (if frame <= SUMMARY_LENGTH {
        SUMMARY_LENGTH - frame
    } else {
        0
    }));
    let arguments = truncate_chars(arguments.as_str(), room);
    concat5(header.as_str(), "\narguments=", arguments.as_str(), "\n", status.as_str())
}

fn room_left(room: usize, text: &str) -> (left: usize)
    ensures
        left == (if text@.len() <= room {
            room - text@.len()
        } else {
            0
        }),
{
    let length = characters(text).len();
    if length <= room {
        room - length
    } else {
        0
    }
}

/// Which calls were answered by which results.
pub struct Pairs {
    /// The places of the calls that wait for a result.
    pub pending: Seq<usize>,
    /// The events of calls that were answered.
    pub completed: Seq<i64>,
    /// The places of the calls that the events of results answer.
    pub matched: Map<i64, usize>,
}

/// The first of the calls that a result answers.
pub open spec fn first_answered(
    events: Seq<Event>,
    pending: Seq<usize>,
    result: ToolResultEvent,
    from: nat,
) -> Option<int>
    decreases pending.len() - from,
{
    if from >= pending.len() {
        None
    } else if events[pending[from as int] as int].data matches ThreadEventData::ToolCall(call)
        && answers(result, call) {
        Some(from as int)
    } else {
        first_answered(events, pending, result, from + 1)
    }
}

/// The first `count` events' calls and results, each result with the first call
/// that waits for it.
pub open spec fn paired(events: Seq<Event>, count: nat) -> Pairs
    decreases count,
{
    if count == 0 {
        Pairs { pending: Seq::empty(), completed: Seq::empty(), matched: Map::empty() }
    } else {
        let before = paired(events, (count - 1) as nat);
        match events[count - 1].data {
            ThreadEventData::ToolCall(_) => Pairs {
                pending: before.pending.push((count - 1) as usize),
                ..before
            },
            ThreadEventData::ToolResult(result) => match first_answered(
                events,
                before.pending,
                result,
                0,
            ) {
                Some(at) => Pairs {
                    pending: before.pending.remove(at),
                    completed: before.completed.push(
                        events[before.pending[at] as int].sequence,
                    ),
                    matched: before.matched.insert(events[count - 1].sequence, before.pending[at]),
                },
                None => before,
            },
            _ => before,
        }
    }
}

/// What a report says of an event.
pub open spec fn report_row(event: Event, all: Seq<Event>, pairs: Pairs) -> Option<Seq<char>> {
    match event.data {
        ThreadEventData::UserMessage { content } => Some("[user]\n"@ + content@),
        ThreadEventData::AssistantMessage { content, phase } => Some(
            "[assistant/"@ + (match phase {
                AssistantMessagePhase::Commentary => "commentary"@,
                AssistantMessagePhase::FinalAnswer => "final"@,
            }) + "]\n"@ + content@,
        ),
        ThreadEventData::ToolCall(call) => if pairs.completed.contains(event.sequence) {
            None
        } else {
            Some(summary(call, None))
        },
        ThreadEventData::ToolResult(result) => if pairs.matched.contains_key(event.sequence) {
            match all[pairs.matched[event.sequence] as int].data {
                ThreadEventData::ToolCall(call) => Some(summary(call, Some(result))),
                _ => None,
            }
        } else {
            None
        },
        _ => None,
    }
}

/// What a report says of the first `count` of the selected events: those after
/// `after`, or all.
pub open spec fn report_rows(
    selected: Seq<Event>,
    count: nat,
    after: Option<i64>,
    all: Seq<Event>,
) -> Seq<Seq<char>>
    decreases count,
{
    if count == 0 {
        Seq::empty()
    } else {
        let before = report_rows(selected, (count - 1) as nat, after, all);
        let event = selected[count - 1];
        if !is_after(event, after) {
            before
        } else {
            match report_row(event, all, paired(all, all.len())) {
                Some(row) => before.push(row),
                None => before,
            }
        }
    }
}

/// Whether an event comes after the event `after`.
pub open spec fn is_after(event: Event, after: Option<i64>) -> bool {
    match after {
        Some(after) => event.sequence > after,
        None => true,
    }
}

struct Paired {
    pending: Vec<usize>,
    completed: Vec<i64>,
    matched: Vec<(i64, usize)>,
}

impl Paired {
    spec fn model(self) -> Pairs {
        Pairs {
            pending: self.pending@,
            completed: self.completed@,
            matched: assoc(self.matched@),
        }
    }
}

fn find_answered(events: &Vec<Event>, pending: &Vec<usize>, result: &ToolResultEvent) -> (at: Option<
    usize,
>)
    requires
        forall|k: int| 0 <= k < pending.len() ==> (#[trigger] pending[k]) < events.len(),
    ensures
        match at {
            Some(at) => first_answered(events@, pending@, *result, 0) == Some(at as int) && at
                < pending.len(),
            None => first_answered(events@, pending@, *result, 0) is None,
        },
{
    let mut i: usize = 0;
    while i < pending.len()
        invariant
            i <= pending.len(),
            forall|k: int| 0 <= k < pending.len() ==> (#[trigger] pending[k]) < events.len(),
            first_answered(events@, pending@, *result, 0) == first_answered(
                events@,
                pending@,
                *result,
                i as nat,
            ),
        decreases pending.len() - i,
    {
        let place = pending[i];
        let found = match &events[place].data {
            ThreadEventData::ToolCall(call) => tool_result_matches_call(result, call),
            _ => false,
        };
        if found {
            return Some(i);
        }
        i += 1;
    }
    None
}

fn pair_events(events: &Vec<Event>) -> (pairs: Paired)
    ensures
        pairs.model() == paired(events@, events@.len()),
        unique_keys(pairs.matched@),
        forall|k: int|
            0 <= k < pairs.matched.len() ==> (#[trigger] pairs.matched[k]).1 < events.len(),
{
    let mut pairs = Paired { pending: Vec::new(), completed: Vec::new(), matched: Vec::new() };
    let mut i: usize = 0;
    assert(pairs.model() == paired(events@, 0)) by {
        assert(pairs.pending@ =~= Seq::empty());
        assert(pairs.completed@ =~= Seq::empty());
    }
    while i < events.len()
        invariant
            i <= events.len(),
            pairs.model() == paired(events@, i as nat),
            unique_keys(pairs.matched@),
            forall|k: int|
                0 <= k < pairs.pending.len() ==> (#[trigger] pairs.pending[k]) < events.len(),
            forall|k: int|
                0 <= k < pairs.matched.len() ==> (#[trigger] pairs.matched[k]).1 < events.len(),
        decreases events.len() - i,
    {
        match &events[i].data {
            ThreadEventData::ToolCall(_) => {
                pairs.pending.push(i);
            },
            ThreadEventData::ToolResult(result) => {
                match find_answered(events, &pairs.pending, result) {
                    Some(at) => {
                        let call = pairs.pending.remove(at);
                        pairs.completed.push(events[call].sequence);
                        let sequence = events[i].sequence;
                        match find_signed(&pairs.matched, sequence) {
                            Some(place) => {
                                proof {
                                    lemma_assoc_update(pairs.matched@, place as int, call);
                                }
                                pairs.matched.set(place, (sequence, call));
                            },
                            None => {
                                proof {
                                    lemma_assoc_push(pairs.matched@, sequence, call);
                                }
                                pairs.matched.push((sequence, call));
                            },
                        }
                    },
                    None => {},
                }
            },
            _ => {},
        }
        i += 1;
    }
    pairs
}

fn event_row(event: &Event, all: &Vec<Event>, pairs: &Paired) -> (row: Option<String>)
    requires
        unique_keys(pairs.matched@),
        forall|k: int|
            0 <= k < pairs.matched.len() ==> (#[trigger] pairs.matched[k]).1 < all.len(),
    ensures
        match row {
            Some(row) => report_row(*event, all@, pairs.model()) == Some(row@),
            None => report_row(*event, all@, pairs.model()) is None,
        },
{
    match &event.data {
        ThreadEventData::UserMessage { content } => Some(concat2("[user]\n", content.as_str())),
        ThreadEventData::AssistantMessage { content, phase } => {
            let phase = match phase {
                AssistantMessagePhase::Commentary => "commentary",
                AssistantMessagePhase::FinalAnswer => "final",
            };
            Some(concat4("[assistant/", phase, "]\n", content.as_str()))
        },
        ThreadEventData::ToolCall(call) => {
            if contains_sequence(&pairs.completed, event.sequence) {
                None
            } else {
                Some(tool_summary(call, None))
            }
        },
        ThreadEventData::ToolResult(result) => match find_signed(&pairs.matched, event.sequence) {
            Some(place) => {
                let at = pairs.matched[place].1;
                match &all[at].data {
                    ThreadEventData::ToolCall(call) => Some(tool_summary(call, Some(result))),
                    _ => None,
                }
            },
            None => None,
        },
        _ => None,
    }
}

fn rows_after(selected: &Vec<Event>, after: Option<i64>, all: &Vec<Event>) -> (rows: Vec<String>)
    ensures
        views(rows@) == report_rows(selected@, selected@.len(), after, all@),
{
    let pairs = pair_events(all);
    let mut rows: Vec<String> = Vec::new();
    let mut i: usize = 0;
    assert(views(rows@) =~= Seq::empty());
    while i < selected.len()
        invariant
            i <= selected.len(),
            pairs.model() == paired(all@, all@.len()),
            unique_keys(pairs.matched@),
            forall|k: int|
                0 <= k < pairs.matched.len() ==> (#[trigger] pairs.matched[k]).1 < all.len(),
            views(rows@) == report_rows(selected@, i as nat, after, all@),
        decreases selected.len() - i,
    {
        let event = &selected[i];
        let wanted = match after {
            Some(after) => event.sequence > after,
            None => true,
        };
        if wanted {
            match event_row(event, all, &pairs) {
                Some(row) => {
                    let ghost before = views(rows@);
                    let ghost text = row@;
                    rows.push(row);
                    assert(views(rows@) =~= before.push(text));
                },
                None => {},
            }
        }
        i += 1;
    }
    rows
}

/// What a report says of the selected events. A call is told with the result
/// that `all` holds for it, or as pending.
pub fn render_report_events(selected: &Vec<Event>, all: &Vec<Event>) -> (rows: Vec<String>)
    ensures
        views(rows@) == report_rows(selected@, selected@.len(), None, all@),
{
    rows_after(selected, None, all)
}

/// The first event after `after` from `from` on.
pub open spec fn first_after(events: Seq<Event>, after: i64, from: nat) -> Option<i64>
    decreases events.len() - from,
{
    if from >= events.len() {
        None
    } else if events[from as int].sequence > after {
        Some(events[from as int].sequence)
    } else {
        first_after(events, after, from + 1)
    }
}

/// The last of the first `count` events that comes after `after`.
pub open spec fn last_after(events: Seq<Event>, after: i64, count: nat) -> Option<i64>
    decreases count,
{
    if count == 0 {
        None
    } else if events[count - 1].sequence > after {
        Some(events[count - 1].sequence)
    } else {
        last_after(events, after, (count - 1) as nat)
    }
}

/// The events after `after` as a range.
pub open spec fn event_range(events: Seq<Event>, after: i64) -> Seq<char> {
    match (first_after(events, after, 0), last_after(events, after, events.len())) {
        (Some(first), Some(last)) => decimal(first as int) + ".."@ + decimal(last as int),
        _ => "none"@,
    }
}

fn range_text(events: &Vec<Event>, after: i64) -> (text: String)
    ensures
        text@ == event_range(events@, after),
{
    let mut first: Option<i64> = None;
    let mut i: usize = 0;
    while i < events.len() && first.is_none()
        invariant
            i <= events.len(),
            match first {
                Some(first) => first_after(events@, after, 0) == Some(first),
                None => first_after(events@, after, 0) == first_after(events@, after, i as nat),
            },
        decreases events.len() - i,
    {
        if events[i].sequence > after {
            first = Some(events[i].sequence);
        }
        i += 1;
    }
    let mut last: Option<i64> = None;
    let mut count: usize = events.len();
    while count > 0 && last.is_none()
        invariant
            count <= events.len(),
            match last {
                Some(last) => last_after(events@, after, events@.len()) == Some(last),
                None => last_after(events@, after, events@.len()) == last_after(
                    events@,
                    after,
                    count as nat,
                ),
            },
        decreases count,
    {
        if events[count - 1].sequence > after {
            last = Some(events[count - 1].sequence);
        }
        count -= 1;
    }
    match (first, last) {
        (Some(first), Some(last)) => {
            let first = decimal_text(first as i128);
            let last = decimal_text(last as i128);
            concat3(first.as_str(), "..", last.as_str())
        },
        _ => "none".to_owned(),
    }
}

/// The first line of a report.
pub open spec fn report_head(
    thread: ThreadView,
    status: Seq<char>,
    range: Seq<char>,
    through: i64,
) -> Seq<char> {
    "== "@ + label(thread) + " thread="@ + decimal(thread.id as int) + " status="@ + status
        + " events="@ + range + " through="@ + decimal(through as int) + " =="@
}

/// The report on a thread whose last event is `through`: what happened after the
/// event `after`.
pub open spec fn report(
    thread: ThreadView,
    status: Seq<char>,
    through: i64,
    after: i64,
    events: Seq<Event>,
) -> Seq<char> {
    if through < 0 {
        report_head(thread, status, "none"@, -1i64)
    } else {
        joined(
            Seq::empty().push(
                report_head(thread, status, event_range(events, after), through),
            ) + report_rows(events, events.len(), Some(after), events),
            "\n"@,
        )
    }
}

fn report_head_text(thread: &Thread, status: &str, range: &str, through: i64) -> (text: String)
    ensures
        text@ == report_head(thread@, status@, range@, through),
{
    let name = thread_label(thread);
    let id = decimal_text(thread.id as i128);
    let through = decimal_text(through as i128);
    let mut text = concat4("== ", name.as_str(), " thread=", id.as_str());
    text.push_str(" status=");
    text.push_str(status);
    text.push_str(" events=");
    text.push_str(range);
    text.push_str(" through=");
    text.push_str(through.as_str());
    text.push_str(" ==");
    text
}

/// The report on a thread, and whether its last turn failed.
pub fn agent_report(
    thread: &Thread,
    active: Option<TurnProgress>,
    last: &Option<TurnOutcome>,
    through: i64,
    after: i64,
    events: &Vec<Event>,
) -> (result: (String, bool))
    ensures
        result.0@ == report(thread@, status_word(active, *last), through, after, events@),
        result.1 == (last matches Some(TurnOutcome::Failed { message: _ })),
{
    let status = turn_status(active, last);
    let failed = matches!(last, Some(TurnOutcome::Failed { message: _ }));
    if through < 0 {
        return (report_head_text(thread, status, "none", -1), failed);
    }
    let range = range_text(events, after);
    let head = report_head_text(thread, status, range.as_str(), through);
    let rest = rows_after(events, Some(after), events);
    let ghost expected = Seq::empty().push(head@) + views(rest@);
    let mut lines: Vec<String> = Vec::new();
    lines.push(head);
    let mut i: usize = 0;
    assert(views(lines@) =~= Seq::empty().push(lines@[0]@) + views(rest@).take(0));
    while i < rest.len()
        invariant
            i <= rest.len(),
            lines@.len() == i + 1,
            views(lines@) == Seq::empty().push(lines@[0]@) + views(rest@).take(i as int),
            expected == Seq::empty().push(lines@[0]@) + views(rest@),
        decreases rest.len() - i,
    {
        let ghost before = lines@;
        lines.push(rest[i].clone());
        assert(lines@[0] == before[0]);
        assert(views(lines@) =~= Seq::empty().push(lines@[0]@) + views(rest@).take(i + 1)) by {
            assert forall|k: int| 0 <= k < lines@.len() implies views(lines@)[k] == (
            Seq::empty().push(lines@[0]@) + views(rest@).take(i + 1))[k] by {
                if k <= i {
                    assert(lines@[k] == before[k]);
                    assert(views(before)[k] == before[k]@);
                }
            }
        }
        i += 1;
    }
    assert(views(rest@).take(i as int) =~= views(rest@));
    (join(&lines, "\n"), failed)
}

/// What came of waiting for a thread.
pub enum Waited {
    Report { text: String, failed: bool },
    Error { thread_id: i64, message: String },
}

/// The lines for what came of waiting.
pub open spec fn wait_rows(waited: Seq<Waited>) -> Seq<Seq<char>> {
    Seq::new(
        waited.len(),
        |i: int|
            match waited[i] {
                Waited::Report { text, failed: _ } => text@,
                Waited::Error { thread_id, message } => "thread="@ + decimal(thread_id as int)
                    + " error="@ + message@,
            },
    )
}

/// Whether waiting went well.
pub open spec fn went_well(waited: Waited) -> bool {
    match waited {
        Waited::Report { text: _, failed } => !failed,
        Waited::Error { thread_id: _, message: _ } => false,
    }
}

/// What an agent is told after waiting for threads, and whether all of it went
/// well.
pub fn wait_text(waited: &Vec<Waited>) -> (result: (String, bool))
    ensures
        result.0@ == joined(wait_rows(waited@), "\n"@),
        result.1 == (forall|i: int| 0 <= i < waited@.len() ==> went_well(#[trigger] waited@[i])),
{
    let mut rows: Vec<String> = Vec::new();
    let mut success = true;
    let mut i: usize = 0;
    while i < waited.len()
        invariant
            i <= waited.len(),
            rows.len() == i,
            forall|k: int| 0 <= k < i ==> #[trigger] rows[k]@ == wait_rows(waited@)[k],
            success == (forall|k: int| 0 <= k < i ==> went_well(#[trigger] waited@[k])),
        decreases waited.len() - i,
    {
        match &waited[i] {
            Waited::Report { text, failed } => {
                rows.push(text.clone());
                success = success && !*failed;
            },
            Waited::Error { thread_id, message } => {
                let id = decimal_text(*thread_id as i128);
                rows.push(concat4("thread=", id.as_str(), " error=", message.as_str()));
                success = false;
            },
        }
        assert(went_well(waited@[i as int]) == match waited@[i as int] {
            Waited::Report { text: _, failed } => !failed,
            Waited::Error { thread_id: _, message: _ } => false,
        });
        i += 1;
    }
    assert(views(rows@) =~= wait_rows(waited@));
    (join(&rows, "\n"), success)
}

/// Whether `line` is the last line of `text`, with a line before it.
pub open spec fn ends_in_line(text: Seq<char>, line: Seq<char>) -> bool {
    &&& has_suffix(text, seq!['\n'] + line)
    &&& !line.contains('\n')
}

proof fn lemma_one_last_line(text: Seq<char>, one: Seq<char>, other: Seq<char>)
    requires
        ends_in_line(text, one),
        ends_in_line(text, other),
    ensures
        one == other,
{
    let longer = if one.len() < other.len() {
        other
    } else {
        one
    };
    let shorter = if one.len() < other.len() {
        one
    } else {
        other
    };
    let marked = seq!['\n'] + longer;
    let cut = seq!['\n'] + shorter;
    assert(text.skip(text.len() - marked.len()) == marked);
    assert(text.skip(text.len() - cut.len()) == cut);
    assert forall|k: int| 0 <= k < cut.len() implies cut[k] == marked[marked.len() - cut.len() + k] by {
        assert(text.skip(text.len() - cut.len())[k] == text[text.len() - cut.len() + k]);
        assert(text.skip(text.len() - marked.len())[marked.len() - cut.len() + k]
            == text[text.len() - cut.len() + k]);
    }
    if shorter.len() < longer.len() {
        let at = longer.len() - shorter.len() - 1;
        assert(cut[0] == '\n');
        assert(longer[at] == marked[marked.len() - cut.len()]);
        assert(longer.contains('\n'));
    } else {
        assert forall|k: int| 0 <= k < shorter.len() implies shorter[k] == longer[k] by {
            assert(cut[k + 1] == marked[k + 1]);
        }
        assert(shorter =~= longer);
    }
}

/// Whether a command failed in an artifact: one that ended without the exit code
/// zero.
pub open spec fn holds_failure(artifact: ToolArtifact) -> bool
    decreases artifact,
{
    match artifact {
        ToolArtifact::CommandExecution(execution) => execution
            matches CommandExecutionArtifact::Finished { exit_code, .. } && !(exit_code matches Some(
            code,
        ) && code == 0),
        ToolArtifact::RunnerOperation(operation) => exists|i: int|
            0 <= i < operation.artifacts@.len() && holds_failure(
                #[trigger] operation.artifacts@[i],
            ),
        ToolArtifact::PatchOperations(_) => false,
    }
}

/// Whether a command failed in any of the artifacts of a result.
pub open spec fn command_failed(result: ToolResultEvent) -> bool {
    exists|i: int|
        0 <= i < artifacts_of(result).len() && holds_failure(#[trigger] artifacts_of(result)[i])
}

proof fn lemma_failed_command(artifact: ToolArtifact)
    ensures
        failed_command(artifact) is Some <==> holds_failure(artifact),
        failed_command(artifact) matches Some((_, exit_code)) ==> exit_code != Some(0i32),
    decreases artifact, 0nat,
{
    match artifact {
        ToolArtifact::RunnerOperation(operation) => {
            lemma_first_failure(operation.artifacts@, 0);
            if holds_failure(artifact) {
                let i = choose|i: int|
                    0 <= i < operation.artifacts@.len() && holds_failure(
                        #[trigger] operation.artifacts@[i],
                    );
                assert(0 <= i);
            }
        },
        _ => {},
    }
}

proof fn lemma_first_failure(artifacts: Seq<ToolArtifact>, from: nat)
    ensures
        first_failure(artifacts, from) is Some <==> exists|i: int|
            from <= i < artifacts.len() && holds_failure(#[trigger] artifacts[i]),
        first_failure(artifacts, from) matches Some((_, exit_code)) ==> exit_code != Some(0i32),
    decreases artifacts, artifacts.len() - from,
{
    if from < artifacts.len() {
        lemma_failed_command(artifacts[from as int]);
        lemma_first_failure(artifacts, from + 1);
    }
}

proof fn lemma_digits_are_no_breaks(value: nat)
    ensures
        forall|k: int|
            0 <= k < crate::text::digits(value).len() ==> (#[trigger] crate::text::digits(value)[k])
                != '\n',
    decreases value,
{
    let last = crate::text::digit((value % 10) as int);
    assert(last as int == 48 + value % 10);
    assert(last != '\n');
    let text = crate::text::digits(value);
    if value >= 10 {
        lemma_digits_are_no_breaks(value / 10);
        assert(text.drop_last() =~= crate::text::digits(value / 10));
        assert forall|k: int| 0 <= k < text.len() implies (#[trigger] text[k]) != '\n' by {
            if k < text.len() - 1 {
                assert(text[k] == crate::text::digits(value / 10)[k]);
            }
        }
    } else {
        assert(value % 10 == value);
        assert(text =~= seq![last]);
    }
}

proof fn lemma_status_is_one_line(result: Option<ToolResultEvent>)
    ensures
        !call_status(result).contains('\n'),
{
    reveal_strlit("status=pending");
    reveal_strlit("status=ok");
    reveal_strlit("status=failed exit_code=");
    reveal_strlit("unknown");
    reveal_strlit(" error_tail=");
    let status = call_status(result);
    if let Some(result) = result {
        if let Some((output, exit_code)) = first_failure(artifacts_of(result), 0) {
            let cut = tail(spaced(output, true), 240);
            assert forall|k: int| 0 <= k < cut.len() implies cut[k] != '\n' by {
                let line = spaced(output, true);
                if line.len() <= 240 {
                    crate::text::law_one_line_has_no_line_break(output, k);
                } else if k >= 3 {
                    crate::text::law_one_line_has_no_line_break(output, line.len() - 237 + k - 3);
                }
            }
            let code = match exit_code {
                Some(code) => decimal(code as int),
                None => "unknown"@,
            };
            assert forall|k: int| 0 <= k < code.len() implies code[k] != '\n' by {
                if let Some(number) = exit_code {
                    if number < 0 {
                        lemma_digits_are_no_breaks((-number) as nat);
                    } else {
                        lemma_digits_are_no_breaks(number as nat);
                    }
                }
            }
            let opening = "status=failed exit_code="@;
            let between = " error_tail="@;
            assert(status =~= opening + code + between + cut);
            assert forall|k: int| 0 <= k < status.len() implies status[k] != '\n' by {
                if k < opening.len() {
                    assert(status[k] == opening[k]);
                } else if k < opening.len() + code.len() {
                    assert(status[k] == code[k - opening.len()]);
                } else if k < opening.len() + code.len() + between.len() {
                    assert(status[k] == between[k - opening.len() - code.len()]);
                } else {
                    assert(status[k] == cut[k - opening.len() - code.len() - between.len()]);
                }
            }
        }
    }
}

/// The last line of a summary says what became of the call. It is `status=ok` if and
/// only if there is a result and no command failed in it, `status=pending` if and
/// only if there is no result, and it begins with `status=failed` if and only if a
/// command failed.
pub proof fn law_summary_ends_in_what_became_of_the_call(
    call: ToolCallEvent,
    result: Option<ToolResultEvent>,
)
    ensures
        ends_in_line(summary(call, result), "status=pending"@) <==> result is None,
        ends_in_line(summary(call, result), "status=ok"@) <==> (result matches Some(result)
            && !command_failed(result)),
        (exists|line: Seq<char>| #[trigger]
            ends_in_line(summary(call, result), "status=failed exit_code="@ + line)) <==> (result
            matches Some(result) && command_failed(result)),
{
    let status = call_status(result);
    let text = summary(call, result);
    lemma_status_is_one_line(result);
    reveal_strlit("status=pending");
    reveal_strlit("status=ok");
    reveal_strlit("status=failed exit_code=");
    reveal_strlit("\n");
    assert("\n"@ =~= seq!['\n']);
    let marked = seq!['\n'] + status;
    assert(text.skip(text.len() - marked.len()) =~= marked);
    assert(ends_in_line(text, status));
    assert("status=pending"@[7] != "status=ok"@[7]);
    assert("status=pending"@[7] != "status=failed exit_code="@[7]);
    assert("status=ok"@[7] != "status=failed exit_code="@[7]);
    let opening = "status=failed exit_code="@;
    if let Some(result) = result {
        lemma_first_failure(artifacts_of(result), 0);
        if command_failed(result) {
            let i = choose|i: int|
                0 <= i < artifacts_of(result).len() && holds_failure(
                    #[trigger] artifacts_of(result)[i],
                );
            assert(0 <= i);
            let (output, exit_code) = first_failure(artifacts_of(result), 0)->0;
            let rest = (match exit_code {
                Some(code) => decimal(code as int),
                None => "unknown"@,
            }) + " error_tail="@ + tail(spaced(output, true), 240);
            assert(status =~= opening + rest);
            assert(ends_in_line(text, opening + rest));
        }
    }
    if ends_in_line(text, "status=pending"@) {
        lemma_one_last_line(text, status, "status=pending"@);
        assert(status[7] == 'p');
    }
    if ends_in_line(text, "status=ok"@) {
        lemma_one_last_line(text, status, "status=ok"@);
        assert(status[7] == 'o');
    }
    if exists|line: Seq<char>| #[trigger] ends_in_line(text, opening + line) {
        let line = choose|line: Seq<char>| #[trigger] ends_in_line(text, opening + line);
        lemma_one_last_line(text, status, opening + line);
        assert((opening + line)[7] == opening[7]);
        assert(status[7] == 'f');
    }
}

/// The summaries of a call without a result, with a good one and with one in which
/// a command failed are pairwise different.
pub proof fn law_summaries_tell_results_apart(
    call: ToolCallEvent,
    good: ToolResultEvent,
    bad: ToolResultEvent,
)
    requires
        !command_failed(good),
        command_failed(bad),
    ensures
        summary(call, None) != summary(call, Some(good)),
        summary(call, None) != summary(call, Some(bad)),
        summary(call, Some(good)) != summary(call, Some(bad)),
{
    law_summary_ends_in_what_became_of_the_call(call, None);
    law_summary_ends_in_what_became_of_the_call(call, Some(good));
    law_summary_ends_in_what_became_of_the_call(call, Some(bad));
}

/// The summary of a call whose command failed gives the exit code, or says that it is
/// not known, and the end of what the command wrote. A command that failed alone is
/// the one that is meant.
pub proof fn law_summary_shows_the_failure(
    call: ToolCallEvent,
    result: ToolResultEvent,
    output: String,
    exit_code: Option<i32>,
    runner: String,
    full_output_path: String,
)
    requires
        artifacts_of(result).len() > 0,
        artifacts_of(result)[0] == ToolArtifact::CommandExecution(
            CommandExecutionArtifact::Finished { runner, output, exit_code, full_output_path },
        ),
        exit_code != Some(0i32),
    ensures
        has_suffix(
            summary(call, Some(result)),
            "\nstatus=failed exit_code="@ + (match exit_code {
                Some(code) => decimal(code as int),
                None => "unknown"@,
            }) + " error_tail="@ + tail(spaced(output@, true), 240),
        ),
{
    let text = summary(call, Some(result));
    reveal_strlit("\nstatus=failed exit_code=");
    reveal_strlit("status=failed exit_code=");
    reveal_strlit("\n");
    assert("\nstatus=failed exit_code="@ =~= "\n"@ + "status=failed exit_code="@);
    let ending = "\nstatus=failed exit_code="@ + (match exit_code {
        Some(code) => decimal(code as int),
        None => "unknown"@,
    }) + " error_tail="@ + tail(spaced(output@, true), 240);
    assert(failed_command(artifacts_of(result)[0]) == Some((output@, exit_code)));
    assert(first_failure(artifacts_of(result), 0) == Some((output@, exit_code)));
    assert(ending =~= "\n"@ + call_status(Some(result)));
    assert(text.skip(text.len() - ending.len()) =~= ending);
}

/// A summary begins with the name of the tool and shows what it was called with,
/// both on one line and cut to size.
pub proof fn law_summary_names_the_call(call: ToolCallEvent, result: Option<ToolResultEvent>)
    ensures
        ({
            let (name, given) = match call {
                ToolCallEvent::Custom { name, input, .. } => (name@, input@),
                ToolCallEvent::Function { name, arguments, .. } => (name@, printed(arguments@)),
            };
            &&& has_prefix(
                summary(call, result),
                "[tool "@ + truncated(spaced(name, true), 80) + "]\narguments="@,
            )
            &&& spaced(given, true).len() + summary_frame(call, result) <= 512 ==> holds_part(
                summary(call, result),
                "\narguments="@ + spaced(given, true) + "\n"@,
            )
        }),
{
    let (name, given) = match call {
        ToolCallEvent::Custom { name, input, .. } => (name@, input@),
        ToolCallEvent::Function { name, arguments, .. } => (name@, printed(arguments@)),
    };
    reveal_strlit("]");
    reveal_strlit("\narguments=");
    reveal_strlit("]\narguments=");
    assert("]\narguments="@ =~= "]"@ + "\narguments="@);
    let text = summary(call, result);
    let start = "[tool "@ + truncated(spaced(name, true), 80) + "]\narguments="@;
    assert(start =~= summary_header(call) + "\narguments="@);
    assert(text.take(start.len() as int) =~= start);
    if spaced(given, true).len() + summary_frame(call, result) <= 512 {
        let shown = "\narguments="@ + spaced(given, true) + "\n"@;
        assert(text =~= summary_header(call) + shown + call_status(result));
        crate::text::lemma_holds_middle(summary_header(call), shown, call_status(result));
    }
}

/// A result answers a call if and only if both are of the same kind and name the same
/// call.
pub proof fn law_result_answers_the_call_it_names(result: ToolResultEvent, call: ToolCallEvent)
    ensures
        answers(result, call) <==> {
            &&& result is Custom <==> call is Custom
            &&& (match result {
                ToolResultEvent::Custom { call_id, .. } => call_id@,
                ToolResultEvent::Function { call_id, .. } => call_id@,
            }) == (match call {
                ToolCallEvent::Custom { call_id, .. } => call_id@,
                ToolCallEvent::Function { call_id, .. } => call_id@,
            })
        },
{
}

/// The word for the state of a thread tells whom it waits for, what its turn does, or
/// how the last turn ended; no two states share a word.
pub proof fn law_states_have_their_words(active: Option<TurnProgress>, last: Option<TurnOutcome>)
    ensures
        ({
            let word = status_word(active, last);
            &&& word == "awaiting_question"@ <==> (active matches Some(turn)
                && turn.pending_question)
            &&& word == "awaiting_approval"@ <==> (active matches Some(turn)
                && turn.pending_approval && !turn.pending_question)
            &&& word == "compacting"@ <==> (active matches Some(turn) && !turn.pending_question
                && !turn.pending_approval && turn.phase is Compacting)
            &&& word == "cancelling"@ <==> (active matches Some(turn) && !turn.pending_question
                && !turn.pending_approval && turn.phase is Cancelling)
            &&& word == "running"@ <==> (active matches Some(turn) && !turn.pending_question
                && !turn.pending_approval && turn.phase is Running)
            &&& word == "completed"@ <==> active is None && last == Some(TurnOutcome::Completed)
            &&& word == "cancelled"@ <==> active is None && last == Some(TurnOutcome::Cancelled)
            &&& word == "failed"@ <==> active is None && (last matches Some(outcome) && outcome
                is Failed)
            &&& word == "idle"@ <==> active is None && last is None
        }),
{
    reveal_strlit("awaiting_question");
    reveal_strlit("awaiting_approval");
    reveal_strlit("compacting");
    reveal_strlit("cancelling");
    reveal_strlit("running");
    reveal_strlit("completed");
    reveal_strlit("cancelled");
    reveal_strlit("failed");
    reveal_strlit("idle");
    assert("awaiting_question"@.len() == 17 && "awaiting_approval"@.len() == 17 && "compacting"@.len() == 10 && "cancelling"@.len() == 10 && "running"@.len() == 7 && "completed"@.len() == 9 && "cancelled"@.len() == 9 && "failed"@.len() == 6 && "idle"@.len() == 4);
    assert("awaiting_question"@[9] != "awaiting_approval"@[9]);
    assert("compacting"@[1] != "cancelling"@[1]);
    assert("completed"@[1] != "cancelled"@[1]);
}

/// A line of the list of threads is moved in by two spaces for each level, and shows
/// the name, the number, the model, the effort and the state of the thread.
pub proof fn law_list_row_shows_the_thread(thread: ThreadView, depth: nat, status: Seq<char>)
    ensures
        ({
            let row = list_row(thread, depth, status);
            &&& forall|k: int| 0 <= k < 2 * depth ==> #[trigger] row[k] == ' '
            &&& has_suffix(row, " status="@ + status)
            &&& holds_part(row, label(thread) + " thread="@ + decimal(thread.id as int))
            &&& holds_part(row, " model="@ + thread.provider + "/"@ + thread.model)
            &&& holds_part(row, " effort="@ + thread.reasoning_effort)
            &&& row.len() >= 2 * depth
        }),
{
    let row = list_row(thread, depth, status);
    lemma_indent(depth);
    let room = indent(depth);
    let named = label(thread) + " thread="@ + decimal(thread.id as int);
    let model = " model="@ + thread.provider + "/"@ + thread.model;
    let effort = " effort="@ + thread.reasoning_effort;
    let ending = " status="@ + status;
    assert(row =~= room + named + (model + effort + ending));
    crate::text::lemma_holds_middle(room, named, model + effort + ending);
    assert(row =~= (room + named) + model + (effort + ending));
    crate::text::lemma_holds_middle(room + named, model, effort + ending);
    assert(row =~= (room + named + model) + effort + ending);
    crate::text::lemma_holds_middle(room + named + model, effort, ending);
    assert(row.skip(row.len() - ending.len()) =~= ending);
    assert forall|k: int| 0 <= k < 2 * depth implies #[trigger] row[k] == ' ' by {
        assert(row[k] == room[k]);
    }
}

proof fn lemma_indent(count: nat)
    ensures
        indent(count).len() == 2 * count,
        forall|k: int| 0 <= k < 2 * count ==> #[trigger] indent(count)[k] == ' ',
    decreases count,
{
    reveal_strlit("  ");
    if count > 0 {
        lemma_indent((count - 1) as nat);
    }
}

/// What was said is shown in full, under who said it.
pub proof fn law_messages_are_reported(event: Event, all: Seq<Event>, pairs: Pairs)
    ensures
        event.data matches ThreadEventData::UserMessage { content } ==> (report_row(event, all, pairs)
            matches Some(row) && has_prefix(row, "[user]\n"@) && has_suffix(row, content@)),
        event.data matches ThreadEventData::AssistantMessage { content, phase } ==> (report_row(
            event,
            all,
            pairs,
        ) matches Some(row) && has_suffix(row, content@) && has_prefix(
            row,
            if phase is FinalAnswer {
                "[assistant/final]\n"@
            } else {
                "[assistant/commentary]\n"@
            },
        )),
        !(event.data is UserMessage || event.data is AssistantMessage || event.data is ToolCall
            || event.data is ToolResult) ==> report_row(event, all, pairs) is None,
{
    reveal_strlit("[assistant/");
    reveal_strlit("commentary");
    reveal_strlit("final");
    reveal_strlit("]\n");
    reveal_strlit("[assistant/final]\n");
    reveal_strlit("[assistant/commentary]\n");
    assert("[assistant/"@ + "final"@ + "]\n"@ =~= "[assistant/final]\n"@);
    assert("[assistant/"@ + "commentary"@ + "]\n"@ =~= "[assistant/commentary]\n"@);
    match event.data {
        ThreadEventData::UserMessage { content } => {
            let row = "[user]\n"@ + content@;
            assert(row.take("[user]\n"@.len() as int) =~= "[user]\n"@);
            assert(row.skip(row.len() - content@.len()) =~= content@);
        },
        ThreadEventData::AssistantMessage { content, phase } => {
            let row = report_row(event, all, pairs)->0;
            let opening = if phase is FinalAnswer {
                "[assistant/final]\n"@
            } else {
                "[assistant/commentary]\n"@
            };
            assert(row =~= opening + content@);
            assert(row.take(opening.len() as int) =~= opening);
            assert(row.skip(row.len() - content@.len()) =~= content@);
        },
        _ => {},
    }
}

/// A call is reported once: by the result that answers it, or by itself as long as
/// it waits for one. Of the calls that a result may answer it answers the first that
/// still waits.
pub proof fn law_calls_are_paired(events: Seq<Event>, count: nat)
    requires
        count <= events.len() <= usize::MAX,
        forall|i: int, j: int|
            0 <= i < j < events.len() ==> (#[trigger] events[i]).sequence < (
            #[trigger] events[j]).sequence,
    ensures
        ({
            let pairs = paired(events, count);
            &&& forall|p: int|
                0 <= p < pairs.pending.len() ==> {
                    let at = #[trigger] pairs.pending[p] as int;
                    &&& 0 <= at < count
                    &&& events[at].data is ToolCall
                    &&& !pairs.completed.contains(events[at].sequence)
                }
            &&& forall|p: int, q: int|
                0 <= p < q < pairs.pending.len() ==> #[trigger] pairs.pending[p]
                    < #[trigger] pairs.pending[q]
            &&& forall|r: int|
                0 <= r < count && #[trigger] pairs.matched.contains_key(events[r].sequence) ==> {
                    let at = pairs.matched[events[r].sequence] as int;
                    &&& 0 <= at < r
                    &&& events[at].data matches ThreadEventData::ToolCall(call) && events[r].data
                        matches ThreadEventData::ToolResult(result) && answers(result, call)
                    &&& pairs.completed.contains(events[at].sequence)
                }
            &&& forall|sequence: i64|
                #[trigger] pairs.completed.contains(sequence) ==> exists|at: int|
                    0 <= at < count && (#[trigger] events[at]).sequence == sequence
            &&& forall|sequence: i64|
                #[trigger] pairs.matched.contains_key(sequence) ==> exists|at: int|
                    0 <= at < count && (#[trigger] events[at]).sequence == sequence
        }),
    decreases count,
{
    if count > 0 {
        law_calls_are_paired(events, (count - 1) as nat);
        let before = paired(events, (count - 1) as nat);
        let pairs = paired(events, count);
        let event = events[count - 1];
        match event.data {
            ThreadEventData::ToolCall(_) => {
                assert(((count - 1) as usize) as int == count - 1);
                assert(!before.completed.contains(event.sequence)) by {
                    if before.completed.contains(event.sequence) {
                        let at = choose|at: int|
                            0 <= at < count - 1 && (#[trigger] events[at]).sequence
                                == event.sequence;
                        assert(events[at].sequence < events[count - 1].sequence);
                    }
                }
            },
            ThreadEventData::ToolResult(result) => {
                lemma_first_answered(events, before.pending, result, 0);
                if let Some(at) = first_answered(events, before.pending, result, 0) {
                    let call = before.pending[at] as int;
                    assert(0 <= call < count - 1);
                    assert(pairs.completed.last() == events[call].sequence);
                    assert(pairs.completed.contains(events[call].sequence));
                    assert forall|sequence: i64|
                        #[trigger] before.completed.contains(
                            sequence,
                        ) implies pairs.completed.contains(sequence) by {
                        let k = choose|k: int|
                            0 <= k < before.completed.len() && before.completed[k] == sequence;
                        assert(pairs.completed[k] == sequence);
                    }
                    assert forall|sequence: i64| #[trigger]
                        pairs.completed.contains(sequence) implies sequence == events[call].sequence
                        || before.completed.contains(sequence) by {
                        let k = choose|k: int|
                            0 <= k < pairs.completed.len() && pairs.completed[k] == sequence;
                        if k < before.completed.len() {
                            assert(before.completed[k] == sequence);
                        }
                    }
                    assert forall|p: int| 0 <= p < pairs.pending.len() implies {
                        let at = #[trigger] pairs.pending[p] as int;
                        &&& 0 <= at < count
                        &&& events[at].data is ToolCall
                        &&& !pairs.completed.contains(events[at].sequence)
                    } by {
                        let from = if p < at {
                            p
                        } else {
                            p + 1
                        };
                        assert(pairs.pending[p] == before.pending[from]);
                        let there = before.pending[from] as int;
                        if from < at {
                            assert(before.pending[from] < before.pending[at]);
                        } else {
                            assert(before.pending[at] < before.pending[from]);
                        }
                        if there < call {
                            assert(events[there].sequence < events[call].sequence);
                        } else {
                            assert(events[call].sequence < events[there].sequence);
                        }
                    }
                    assert forall|p: int, q: int| 0 <= p < q < pairs.pending.len() implies #[trigger] pairs.pending[p]
                        < #[trigger] pairs.pending[q] by {
                        let one = if p < at {
                            p
                        } else {
                            p + 1
                        };
                        let other = if q < at {
                            q
                        } else {
                            q + 1
                        };
                        assert(before.pending[one] < before.pending[other]);
                    }
                    assert forall|r: int|
                        0 <= r < count && #[trigger] pairs.matched.contains_key(
                            events[r].sequence,
                        ) implies {
                        let at = pairs.matched[events[r].sequence] as int;
                        &&& 0 <= at < r
                        &&& events[at].data matches ThreadEventData::ToolCall(call)
                            && events[r].data matches ThreadEventData::ToolResult(result)
                            && answers(result, call)
                        &&& pairs.completed.contains(events[at].sequence)
                    } by {
                        if r < count - 1 {
                            assert(events[r].sequence < events[count - 1].sequence);
                            assert(before.matched.contains_key(events[r].sequence));
                        }
                    }
                }
            },
            _ => {},
        }
        assert forall|r: int|
            0 <= r < count && #[trigger] pairs.matched.contains_key(events[r].sequence) implies {
            let at = pairs.matched[events[r].sequence] as int;
            &&& 0 <= at < r
            &&& events[at].data matches ThreadEventData::ToolCall(call) && events[r].data
                matches ThreadEventData::ToolResult(result) && answers(result, call)
            &&& pairs.completed.contains(events[at].sequence)
        } by {
            if pairs.matched == before.matched && r == count - 1 {
                let at = choose|at: int|
                    0 <= at < count - 1 && (#[trigger] events[at]).sequence == event.sequence;
                assert(events[at].sequence < events[count - 1].sequence);
            } else if pairs.matched == before.matched {
                assert(before.matched.contains_key(events[r].sequence));
            }
        }
    }
}

proof fn lemma_first_answered(
    events: Seq<Event>,
    pending: Seq<usize>,
    result: ToolResultEvent,
    from: nat,
)
    ensures
        first_answered(events, pending, result, from) matches Some(at) ==> from <= at
            < pending.len() && (events[pending[at] as int].data matches ThreadEventData::ToolCall(
            call,
        ) && answers(result, call)) && forall|k: int|
            from <= k < at ==> !(events[#[trigger] pending[k] as int].data
                matches ThreadEventData::ToolCall(call) && answers(result, call)),
        first_answered(events, pending, result, from) is None ==> forall|k: int|
            from <= k < pending.len() ==> !(events[#[trigger] pending[k] as int].data
                matches ThreadEventData::ToolCall(call) && answers(result, call)),
    decreases pending.len() - from,
{
    if from < pending.len() && !(events[pending[from as int] as int].data
        matches ThreadEventData::ToolCall(call) && answers(result, call)) {
        lemma_first_answered(events, pending, result, from + 1);
    }
}

/// A result that comes when a call waits for it is reported with the first such call;
/// one that no call waits for is not reported.
pub proof fn law_result_goes_to_the_first_call_that_waits(
    events: Seq<Event>,
    count: nat,
    result: ToolResultEvent,
    p: int,
)
    requires
        0 < count <= events.len(),
        events[count - 1].data == ThreadEventData::ToolResult(result),
        0 <= p < paired(events, (count - 1) as nat).pending.len(),
        events[paired(events, (count - 1) as nat).pending[p] as int].data
            matches ThreadEventData::ToolCall(call) && answers(result, call),
        forall|k: int|
            0 <= k < p ==> !(events[#[trigger] paired(events, (count - 1) as nat).pending[k] as int].data
                matches ThreadEventData::ToolCall(call) && answers(result, call)),
    ensures
        ({
            let before = paired(events, (count - 1) as nat);
            let after = paired(events, count);
            let at = before.pending[p];
            &&& after.matched.contains_key(events[count - 1].sequence)
            &&& after.matched[events[count - 1].sequence] == at
            &&& after.completed.contains(events[at as int].sequence)
            &&& after.pending == before.pending.remove(p)
        }),
{
    let before = paired(events, (count - 1) as nat);
    lemma_first_answered(events, before.pending, result, 0);
    let after = paired(events, count);
    match first_answered(events, before.pending, result, 0) {
        Some(at) => {
            assert(at == p) by {
                if at < p {
                    assert(!(events[before.pending[at] as int].data
                        matches ThreadEventData::ToolCall(call) && answers(result, call)));
                } else if p < at {
                    assert(!(events[before.pending[p] as int].data
                        matches ThreadEventData::ToolCall(call) && answers(result, call)));
                }
            }
            assert(after.completed.last() == events[before.pending[p] as int].sequence);
        },
        None => {
            assert(!(events[before.pending[p] as int].data matches ThreadEventData::ToolCall(call)
                && answers(result, call)));
        },
    }
}

/// The report on a thread that has no events is one line, which says so.
pub proof fn law_empty_report_says_so(
    thread: ThreadView,
    status: Seq<char>,
    through: i64,
    after: i64,
    events: Seq<Event>,
)
    requires
        through < 0,
    ensures
        report(thread, status, through, after, events) == "== "@ + label(thread) + " thread="@
            + decimal(thread.id as int) + " status="@ + status + " events=none through=-1 =="@,
{
    reveal_strlit("none");
    reveal_strlit(" through=");
    reveal_strlit(" ==");
    reveal_strlit(" events=");
    reveal_strlit(" events=none through=-1 ==");
    assert(crate::text::digits(1) =~= seq!['1']);
    assert(decimal(-1) =~= seq!['-', '1']);
    let ending = " events=none through=-1 =="@;
    assert(ending =~= " events="@ + "none"@ + " through="@ + decimal(-1) + " =="@);
    let start = "== "@ + label(thread) + " thread="@ + decimal(thread.id as int) + " status="@
        + status;
    assert(report_head(thread, status, "none"@, -1i64) =~= start + (" events="@ + "none"@
        + " through="@ + decimal(-1) + " =="@));
}

/// Any other report begins with a line on the thread, its state, the new events and
/// the last event, and shows the rows of the events after the one that was seen last.
pub proof fn law_report_begins_with_its_head(
    thread: ThreadView,
    status: Seq<char>,
    through: i64,
    after: i64,
    events: Seq<Event>,
    i: int,
)
    requires
        through >= 0,
        0 <= i < report_rows(events, events.len(), Some(after), events).len(),
    ensures
        has_prefix(
            report(thread, status, through, after, events),
            "== "@ + label(thread) + " thread="@ + decimal(thread.id as int) + " status="@ + status
                + " events="@ + event_range(events, after) + " through="@ + decimal(through as int)
                + " =="@,
        ),
        holds_part(
            report(thread, status, through, after, events),
            report_rows(events, events.len(), Some(after), events)[i],
        ),
{
    let head = report_head(thread, status, event_range(events, after), through);
    let rows = report_rows(events, events.len(), Some(after), events);
    let parts = Seq::empty().push(head) + rows;
    assert(parts[0] == head);
    assert(parts[i + 1] == rows[i]);
    crate::text::law_joined_holds_its_parts(parts, "\n"@, i + 1);
}

/// The range of a report goes from the first event after the one that was seen last
/// to the last event; there is none where nothing came after it.
pub proof fn law_range_covers_what_is_new(events: Seq<Event>, after: i64, a: int, b: int)
    requires
        0 <= a <= b < events.len(),
        events[a].sequence > after,
        events[b].sequence > after,
        forall|k: int| 0 <= k < a ==> (#[trigger] events[k]).sequence <= after,
        forall|k: int| b < k < events.len() ==> (#[trigger] events[k]).sequence <= after,
    ensures
        event_range(events, after) == decimal(events[a].sequence as int) + ".."@ + decimal(
            events[b].sequence as int,
        ),
{
    lemma_first_after(events, after, 0, a);
    lemma_last_after(events, after, events.len(), b);
}

proof fn lemma_first_after(events: Seq<Event>, after: i64, from: nat, a: int)
    requires
        from <= a < events.len(),
        events[a].sequence > after,
        forall|k: int| from <= k < a ==> (#[trigger] events[k]).sequence <= after,
    ensures
        first_after(events, after, from) == Some(events[a].sequence),
    decreases a - from,
{
    if from < a {
        assert(events[from as int].sequence <= after);
        lemma_first_after(events, after, from + 1, a);
    }
}

proof fn lemma_last_after(events: Seq<Event>, after: i64, count: nat, b: int)
    requires
        0 <= b < count <= events.len(),
        events[b].sequence > after,
        forall|k: int| b < k < count ==> (#[trigger] events[k]).sequence <= after,
    ensures
        last_after(events, after, count) == Some(events[b].sequence),
    decreases count,
{
    if b < count - 1 {
        assert(events[count - 1].sequence <= after);
        lemma_last_after(events, after, (count - 1) as nat, b);
    }
}

/// A report shows the rows of the events that it is asked for, in their order, and no
/// others.
pub proof fn law_report_shows_what_is_new(
    selected: Seq<Event>,
    after: Option<i64>,
    all: Seq<Event>,
    i: int,
)
    requires
        0 <= i < selected.len(),
    ensures
        ({
            let rows = report_rows(selected, selected.len(), after, all);
            let at = report_rows(selected, i as nat, after, all).len();
            let next = report_rows(selected, (i + 1) as nat, after, all).len();
            let row = report_row(selected[i], all, paired(all, all.len()));
            let wanted = after matches Some(after) ==> selected[i].sequence > after;
            &&& at <= next <= rows.len()
            &&& wanted && row is Some ==> next == at + 1 && rows[at as int] == row->0
            &&& !(wanted && row is Some) ==> next == at
        }),
{
    lemma_report_grows(selected, after, all, (i + 1) as nat, selected.len());
}

proof fn lemma_report_grows(
    selected: Seq<Event>,
    after: Option<i64>,
    all: Seq<Event>,
    count: nat,
    total: nat,
)
    requires
        count <= total <= selected.len(),
    ensures
        report_rows(selected, count, after, all).len() <= report_rows(
            selected,
            total,
            after,
            all,
        ).len(),
        forall|k: int|
            0 <= k < report_rows(selected, count, after, all).len() ==> #[trigger] report_rows(
                selected,
                total,
                after,
                all,
            )[k] == report_rows(selected, count, after, all)[k],
    decreases total,
{
    if count < total {
        lemma_report_grows(selected, after, all, count, (total - 1) as nat);
    }
}

/// Each thread that was waited for has its row: its report, or its number and what
/// went wrong.
pub proof fn law_each_wait_has_its_row(waited: Seq<Waited>, i: int)
    requires
        0 <= i < waited.len(),
    ensures
        wait_rows(waited).len() == waited.len(),
        match waited[i] {
            Waited::Report { text, .. } => wait_rows(waited)[i] == text@,
            Waited::Error { thread_id, message } => has_prefix(
                wait_rows(waited)[i],
                "thread="@ + decimal(thread_id as int),
            ) && has_suffix(wait_rows(waited)[i], " error="@ + message@),
        },
{
    if let Waited::Error { thread_id, message } = waited[i] {
        let row = wait_rows(waited)[i];
        let start = "thread="@ + decimal(thread_id as int);
        let ending = " error="@ + message@;
        assert(row.take(start.len() as int) =~= start);
        assert(row.skip(row.len() - ending.len()) =~= ending);
    }
}

/// Waiting went well where it did for every thread: none failed and none was in error.
/// Each thread is told in a row of its own.
pub proof fn law_waiting_went_well_for_all(waited: Vec<Waited>, result: (String, bool), i: int)
    requires
        0 <= i < waited@.len(),
        call_ensures(wait_text, (&waited,), result),
    ensures
        waited@[i] is Error ==> !result.1,
        waited@[i] matches Waited::Report { failed, .. } ==> (failed ==> !result.1),
        (forall|k: int|
            0 <= k < waited@.len() ==> ((#[trigger] waited@[k]) matches Waited::Report {
                failed,
                ..
            } && !failed)) ==> result.1,
        waited@.len() == 1 ==> result.0@ == wait_rows(waited@)[0],
        waited@.len() == 2 ==> result.0@ == wait_rows(waited@)[0] + "\n"@ + wait_rows(
            waited@,
        )[1],
{
    if waited@[i] is Error {
        assert(!went_well(waited@[i]));
    }
    if let Waited::Report { failed, .. } = waited@[i] {
        assert(went_well(waited@[i]) == !failed);
    }
    if forall|k: int|
        0 <= k < waited@.len() ==> ((#[trigger] waited@[k]) matches Waited::Report { failed, .. }
            && !failed) {
        assert forall|k: int| 0 <= k < waited@.len() implies went_well(#[trigger] waited@[k]) by {}
    }
    let rows = wait_rows(waited@);
    reveal_with_fuel(joined, 2);
    if rows.len() == 2 {
        assert(rows.drop_last() =~= seq![rows[0]]);
    }
}

} // verus!
