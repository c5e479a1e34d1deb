//! The surface of a thread: what a model is shown of its events.
use crate::event::{
    is_masked, masked_by_latest, ApprovalPolicy, AssistantMessagePhase, CompactionEvent,
    CompactionReplacement, Event, InstructionEvent, ModelRequestKind, OpaqueState, Runner,
    RunnersEvent, SkillInvocationEvent, ThreadEventData, ToolCallEvent, ToolResultEvent,
};
use crate::json::{printed, Json, JsonView};
use crate::text::{
    concat2, concat3, concat4, concat5, copy_option, decimal, decimal_text, has_prefix, has_suffix,
    holds_part, join, joined, lemma_holds_middle, same_text, single_spaced, spaced, view_option,
    views,
};
use crate::tokens::{text_tokens, token_count};
use vstd::prelude::*;

verus! {

/// A tool output of at least this many tokens is offered for forgetting.
pub const FORGET_OUTPUT_HINT_TOKENS: usize = 500;

/// Who a message is from.
#[derive(Clone, Copy, Debug, PartialEq, Eq, Structural)]
pub enum Role {
    Developer,
    User,
    Assistant,
}

/// How a tool is called.
#[derive(Clone, Copy, Debug, PartialEq, Eq, Structural)]
pub enum ToolKind {
    Function,
    Custom,
}

/// What a tool is called with.
#[derive(Debug, PartialEq)]
pub enum ToolInput {
    Json(Json),
    Text(String),
}

/// One thing that a model is shown.
#[derive(Debug, PartialEq)]
pub enum Item {
    Message { role: Role, text: String, phase: Option<AssistantMessagePhase> },
    Reasoning { summary: String, opaque: Option<OpaqueState> },
    ToolCall {
        kind: ToolKind,
        item_id: Option<String>,
        call_id: String,
        name: String,
        input: ToolInput,
    },
    ToolResult { kind: ToolKind, call_id: String, name: String, output: Json },
    WebSearch(Json),
    Opaque(OpaqueState),
}

/// What a [`ToolInput`] stands for.
pub enum ToolInputView {
    Json(JsonView),
    Text(Seq<char>),
}

/// What an [`OpaqueState`] stands for.
pub struct OpaqueView {
    pub replay_key: Seq<char>,
    pub payload: JsonView,
}

/// What an [`Item`] stands for.
pub enum ItemView {
    Message { role: Role, text: Seq<char>, phase: Option<AssistantMessagePhase> },
    Reasoning { summary: Seq<char>, opaque: Option<OpaqueView> },
    ToolCall {
        kind: ToolKind,
        item_id: Option<Seq<char>>,
        call_id: Seq<char>,
        name: Seq<char>,
        input: ToolInputView,
    },
    ToolResult { kind: ToolKind, call_id: Seq<char>, name: Seq<char>, output: JsonView },
    WebSearch(JsonView),
    Opaque(OpaqueView),
}

impl View for OpaqueState {
    type V = OpaqueView;

    open spec fn view(&self) -> OpaqueView {
        OpaqueView { replay_key: self.replay_key@, payload: self.payload@ }
    }
}

/// What an optional state stands for.
pub open spec fn opaque_option(state: Option<OpaqueState>) -> Option<OpaqueView> {
    match state {
        Some(state) => Some(state@),
        None => None,
    }
}

impl View for ToolInput {
    type V = ToolInputView;

    open spec fn view(&self) -> ToolInputView {
        match self {
            ToolInput::Json(value) => ToolInputView::Json(value@),
            ToolInput::Text(text) => ToolInputView::Text(text@),
        }
    }
}

impl View for Item {
    type V = ItemView;

    open spec fn view(&self) -> ItemView {
        match self {
            Item::Message { role, text, phase } => ItemView::Message {
                role: *role,
                text: text@,
                phase: *phase,
            },
            Item::Reasoning { summary, opaque } => ItemView::Reasoning {
                summary: summary@,
                opaque: opaque_option(*opaque),
            },
            Item::ToolCall { kind, item_id, call_id, name, input } => ItemView::ToolCall {
                kind: *kind,
                item_id: view_option(*item_id),
                call_id: call_id@,
                name: name@,
                input: input@,
            },
            Item::ToolResult { kind, call_id, name, output } => ItemView::ToolResult {
                kind: *kind,
                call_id: call_id@,
                name: name@,
                output: output@,
            },
            Item::WebSearch(value) => ItemView::WebSearch(value@),
            Item::Opaque(state) => ItemView::Opaque(state@),
        }
    }
}

/// What a sequence of items stands for.
pub open spec fn item_views(items: Seq<Item>) -> Seq<ItemView> {
    Seq::new(items.len(), |i: int| items[i]@)
}

proof fn lemma_item_push(items: Seq<Item>, item: Item)
    ensures
        item_views(items.push(item)) == item_views(items).push(item@),
{
    assert(item_views(items.push(item)) =~= item_views(items).push(item@));
}

/// A copy of a state.
pub fn copy_opaque(state: &OpaqueState) -> (copy: OpaqueState)
    ensures
        copy@ == state@,
{
    OpaqueState { replay_key: state.replay_key.clone(), payload: state.payload.clone() }
}

/// Which tool outputs the assistant gave up, and which it may give up: the
/// forgotten results, the results before each request, and the results since
/// the last request, all by sequence number and oldest first.
#[derive(Debug, PartialEq)]
pub struct ToolOutputForgetting {
    pub forgotten: Vec<i64>,
    pub request_batches: Vec<(i64, Vec<i64>)>,
    pub current_batch: Vec<i64>,
}

/// The batch that stands before the request `sequence`.
pub open spec fn batch_before(batches: Seq<(i64, Vec<i64>)>, sequence: i64) -> Seq<i64>
    decreases batches.len(),
{
    if batches.len() == 0 {
        Seq::empty()
    } else if batches[0].0 == sequence {
        batches[0].1@
    } else {
        batch_before(batches.skip(1), sequence)
    }
}

/// A message that is no assistant's.
pub open spec fn plain(role: Role, text: Seq<char>) -> ItemView {
    ItemView::Message { role, text, phase: None }
}

/// The text of instructions; `removal` names what is gone.
pub open spec fn instruction_words(value: InstructionEvent, removal: Seq<char>) -> Seq<char> {
    match value {
        InstructionEvent::Initial(text) => text@,
        InstructionEvent::Replacement(text) => text@,
        InstructionEvent::Removal => "The "@ + removal + " were removed."@,
    }
}

/// How workspace instructions are shown.
pub open spec fn workspace_item(value: InstructionEvent) -> ItemView {
    plain(
        Role::Developer,
        "# AGENTS.md instructions\n\n<INSTRUCTIONS>\n"@ + instruction_words(
            value,
            "AGENTS.md instructions"@,
        ) + "\n</INSTRUCTIONS>"@,
    )
}

/// How the list of skills is shown.
pub open spec fn skills_item(value: InstructionEvent) -> ItemView {
    plain(Role::Developer, instruction_words(value, "skills list"@))
}

/// The name of an approval policy.
pub open spec fn approval_word(approval: ApprovalPolicy) -> Seq<char> {
    match approval {
        ApprovalPolicy::Ask => "ask"@,
        ApprovalPolicy::Allow => "allow"@,
    }
}

/// The line that describes a runner.
pub open spec fn runner_line(runner: Runner) -> Seq<char> {
    runner.name@ + ": "@ + spaced(runner.description@, false) + " (approval: "@ + approval_word(
        runner.approval,
    ) + ")"@
}

/// The lines that describe the runners.
pub open spec fn runner_lines(runners: Seq<Runner>) -> Seq<Seq<char>> {
    seq!["Available Atra Runners:"@] + Seq::new(
        runners.len(),
        |i: int| runner_line(runners[i]),
    ) + seq![Seq::empty(), approval_note()]
}

/// What is said of the approval policies.
pub open spec fn approval_note() -> Seq<char> {
    "Each Runner has an approval policy. Commands routed to a Runner with `ask` approval require approval before execution; commands routed to a Runner with `allow` approval execute without per-command approval. Approval is requested automatically when a command is executed. If an approval request is denied, the tool call fails."@
}

/// How a list of runners is shown.
pub open spec fn runners_words(runners: Seq<Runner>) -> Seq<char> {
    if runners.len() == 0 {
        "No Atra Runners are currently available."@
    } else {
        joined(runner_lines(runners), "\n"@)
    }
}

/// The runners that an event brings.
pub open spec fn runners_of(value: RunnersEvent) -> Seq<Runner> {
    match value {
        RunnersEvent::Initial(runners) => runners@,
        RunnersEvent::Replacement(runners) => runners@,
    }
}

/// How an event about runners is shown.
pub open spec fn runners_item(value: RunnersEvent) -> ItemView {
    plain(
        Role::Developer,
        match value {
            RunnersEvent::Initial(runners) => runners_words(runners@),
            RunnersEvent::Replacement(runners) => {
                "The available Atra Runner list has changed. This list replaces the previously provided list.\n\n"@
                    + runners_words(runners@)
            },
        },
    )
}

/// How the invocation of a skill is shown.
pub open spec fn skill_words(invocation: SkillInvocationEvent) -> Seq<char> {
    "The user explicitly invoked the following skill for this request. Follow its instructions and resolve relative references against the directory containing "@
        + invocation.path@ + ".\n\n<skill name=\""@ + invocation.name@ + "\" path=\""@
        + invocation.path@ + "\">\n<instructions>\n"@ + invocation.instructions@
        + "\n</instructions>\n</skill>"@
}

/// How a tool result is shown: forgotten, masked, or as it came.
pub open spec fn shown_output(
    result: Json,
    masked_result: Option<Json>,
    forgotten: bool,
    masked: bool,
) -> JsonView {
    if forgotten {
        JsonView::Text("[tool output forgotten]"@)
    } else {
        match masked_result {
            Some(value) => if masked {
                value@
            } else {
                result@
            },
            None => result@,
        }
    }
}

/// What the model is shown of one event.
pub open spec fn event_view(event: Event, forgotten: bool, masked: bool) -> Option<ItemView> {
    match event.data {
        ThreadEventData::WorkspaceInstructions(value) => Some(workspace_item(value)),
        ThreadEventData::Skills(value) => Some(skills_item(value)),
        ThreadEventData::SkillInvocation(value) => Some(plain(Role::User, skill_words(value))),
        ThreadEventData::Runners(value) => Some(runners_item(value)),
        ThreadEventData::UserMessage { content } => Some(plain(Role::User, content@)),
        ThreadEventData::AssistantMessage { content, phase } => Some(
            ItemView::Message { role: Role::Assistant, text: content@, phase: Some(phase) },
        ),
        ThreadEventData::Reasoning { summary, opaque } => Some(
            ItemView::Reasoning { summary: summary@, opaque: opaque_option(opaque) },
        ),
        ThreadEventData::ToolCall(call) => Some(
            match call {
                ToolCallEvent::Custom { item_id, name, input, call_id } => ItemView::ToolCall {
                    kind: ToolKind::Custom,
                    item_id: view_option(item_id),
                    call_id: call_id@,
                    name: name@,
                    input: ToolInputView::Text(input@),
                },
                ToolCallEvent::Function { name, arguments, call_id } => ItemView::ToolCall {
                    kind: ToolKind::Function,
                    item_id: None,
                    call_id: call_id@,
                    name: name@,
                    input: ToolInputView::Json(arguments@),
                },
            },
        ),
        ThreadEventData::ToolResult(value) => Some(
            match value {
                ToolResultEvent::Custom { call_id, name, result, masked_result, .. } => {
                    ItemView::ToolResult {
                        kind: ToolKind::Custom,
                        call_id: call_id@,
                        name: name@,
                        output: shown_output(result, masked_result, forgotten, masked),
                    }
                },
                ToolResultEvent::Function { call_id, name, result, masked_result, .. } => {
                    ItemView::ToolResult {
                        kind: ToolKind::Function,
                        call_id: call_id@,
                        name: name@,
                        output: shown_output(result, masked_result, forgotten, masked),
                    }
                },
            },
        ),
        ThreadEventData::WebSearch { item } => Some(ItemView::WebSearch(item@)),
        _ => None,
    }
}

/// The text of the first thread context in `events`.
pub open spec fn first_context(events: Seq<Event>) -> Option<Seq<char>>
    decreases events.len(),
{
    if events.len() == 0 {
        None
    } else {
        match events[0].data {
            ThreadEventData::ThreadContext { content } => Some(content@),
            _ => first_context(events.skip(1)),
        }
    }
}

/// Whether a compaction applies to a request with this replay key.
pub open spec fn applies(compaction: CompactionEvent, replay_key: Option<Seq<char>>) -> bool {
    match compaction.replacement {
        CompactionReplacement::Summary { .. } => true,
        CompactionReplacement::Opaque { state } => replay_key == Some(state.replay_key@),
    }
}

/// The latest compaction in `events` that applies.
pub open spec fn latest_compaction(events: Seq<Event>, replay_key: Option<Seq<char>>) -> Option<
    CompactionEvent,
>
    decreases events.len(),
{
    if events.len() == 0 {
        None
    } else {
        match events.last().data {
            ThreadEventData::Compaction(compaction) => if applies(compaction, replay_key) {
                Some(compaction)
            } else {
                latest_compaction(events.drop_last(), replay_key)
            },
            _ => latest_compaction(events.drop_last(), replay_key),
        }
    }
}

/// The latest workspace instructions in `events`.
pub open spec fn latest_workspace(events: Seq<Event>) -> Option<InstructionEvent>
    decreases events.len(),
{
    if events.len() == 0 {
        None
    } else {
        match events.last().data {
            ThreadEventData::WorkspaceInstructions(value) => Some(value),
            _ => latest_workspace(events.drop_last()),
        }
    }
}

/// The latest list of skills in `events`.
pub open spec fn latest_skills(events: Seq<Event>) -> Option<InstructionEvent>
    decreases events.len(),
{
    if events.len() == 0 {
        None
    } else {
        match events.last().data {
            ThreadEventData::Skills(value) => Some(value),
            _ => latest_skills(events.drop_last()),
        }
    }
}

/// The latest list of runners in `events`.
pub open spec fn latest_runners(events: Seq<Event>) -> Option<RunnersEvent>
    decreases events.len(),
{
    if events.len() == 0 {
        None
    } else {
        match events.last().data {
            ThreadEventData::Runners(value) => Some(value),
            _ => latest_runners(events.drop_last()),
        }
    }
}

/// Whether an event after `through` brings workspace instructions.
pub open spec fn workspace_after(events: Seq<Event>, through: i64) -> bool {
    exists|i: int|
        0 <= i < events.len() && (#[trigger] events[i]).sequence > through
            && events[i].data is WorkspaceInstructions
}

/// Whether an event after `through` brings a list of skills.
pub open spec fn skills_after(events: Seq<Event>, through: i64) -> bool {
    exists|i: int|
        0 <= i < events.len() && (#[trigger] events[i]).sequence > through
            && events[i].data is Skills
}

/// Whether an event after `through` brings a list of runners.
pub open spec fn runners_after(events: Seq<Event>, through: i64) -> bool {
    exists|i: int|
        0 <= i < events.len() && (#[trigger] events[i]).sequence > through
            && events[i].data is Runners
}

/// What still holds of the history up to `through`, and is not said again after it.
pub open spec fn shadowed_state(events: Seq<Event>, through: i64) -> Seq<ItemView> {
    let workspace = match latest_workspace(events) {
        Some(value) => if workspace_after(events, through) {
            Seq::empty()
        } else {
            seq![workspace_item(value)]
        },
        None => Seq::empty(),
    };
    let skills = match latest_skills(events) {
        Some(value) => if skills_after(events, through) {
            Seq::empty()
        } else {
            seq![skills_item(value)]
        },
        None => Seq::empty(),
    };
    let runners = match latest_runners(events) {
        Some(value) => if runners_after(events, through) {
            Seq::empty()
        } else {
            seq![plain(Role::Developer, runners_words(runners_of(value)))]
        },
        None => Seq::empty(),
    };
    workspace + skills + runners
}

/// What stands for the history that a compaction replaces.
pub open spec fn compaction_item(compaction: CompactionEvent) -> ItemView {
    match compaction.replacement {
        CompactionReplacement::Summary { content } => plain(
            Role::Developer,
            "Summary of the earlier conversation:\n\n"@ + content@,
        ),
        CompactionReplacement::Opaque { state } => ItemView::Opaque(state@),
    }
}

/// The first tool result in `events` with the given sequence number: its call
/// and its output.
pub open spec fn result_at(events: Seq<Event>, sequence: i64) -> Option<(Seq<char>, JsonView)>
    decreases events.len(),
{
    if events.len() == 0 {
        None
    } else {
        match events[0].data {
            ThreadEventData::ToolResult(value) => if events[0].sequence == sequence {
                Some(result_of(value))
            } else {
                result_at(events.skip(1), sequence)
            },
            _ => result_at(events.skip(1), sequence),
        }
    }
}

/// The call and the output of a tool result.
pub open spec fn result_of(value: ToolResultEvent) -> (Seq<char>, JsonView) {
    match value {
        ToolResultEvent::Custom { call_id, result, .. } => (call_id@, result@),
        ToolResultEvent::Function { call_id, result, .. } => (call_id@, result@),
    }
}

/// Whether `through` covers a sequence number.
pub open spec fn covered(sequence: i64, through: Option<i64>) -> bool {
    match through {
        Some(through) => sequence <= through,
        None => false,
    }
}

/// The ending of an ordinal number.
pub open spec fn ordinal_suffix(value: int) -> Seq<char> {
    if 11 <= value % 100 <= 13 {
        "th"@
    } else if value % 10 == 1 {
        "st"@
    } else if value % 10 == 2 {
        "nd"@
    } else if value % 10 == 3 {
        "rd"@
    } else {
        "th"@
    }
}

/// An ordinal number.
pub open spec fn ordinal_words(value: int) -> Seq<char> {
    decimal(value) + ordinal_suffix(value)
}

/// How far back something is, counted from one.
pub open spec fn recency_words(position: int) -> Seq<char> {
    if position == 1 {
        "Most recent"@
    } else {
        ordinal_words(position) + " most recent"@
    }
}

/// The rows of the hint for the `count` newest results of a batch: one for each
/// that is large and that no compaction covers, newest first.
pub open spec fn hint_rows(
    batch: Seq<i64>,
    events: Seq<Event>,
    through: Option<i64>,
    count: nat,
) -> Seq<Seq<char>>
    decreases count,
{
    if count == 0 {
        Seq::empty()
    } else {
        let rows = hint_rows(batch, events, through, (count - 1) as nat);
        let sequence = batch[batch.len() - count];
        if covered(sequence, through) {
            rows
        } else {
            match result_at(events, sequence) {
                Some((call_id, output)) => if token_count(printed(output)) matches Some(tokens)
                    && tokens < FORGET_OUTPUT_HINT_TOKENS {
                    rows
                } else {
                    rows.push("- "@ + recency_words(count as int) + ": "@ + call_id)
                },
                None => rows,
            }
        }
    }
}

/// Whether the tokens of each of the `count` newest results of a batch that no
/// compaction covers can be counted.
pub open spec fn batch_counted(
    batch: Seq<i64>,
    events: Seq<Event>,
    through: Option<i64>,
    count: nat,
) -> bool
    decreases count,
{
    if count == 0 {
        true
    } else {
        &&& batch_counted(batch, events, through, (count - 1) as nat)
        &&& covered(batch[batch.len() - count], through) || (result_at(
            events,
            batch[batch.len() - count],
        ) matches Some((_, output)) ==> token_count(printed(output)) is Some)
    }
}

/// Whether the results that the first `count` of `events` ask to weigh can be
/// counted.
pub open spec fn events_counted(
    events: Seq<Event>,
    forgetting: ToolOutputForgetting,
    through: Option<i64>,
    count: nat,
) -> bool
    decreases count,
{
    if count == 0 {
        true
    } else {
        &&& events_counted(events, forgetting, through, (count - 1) as nat)
        &&& event_counted(events[count - 1], events, forgetting, through)
    }
}

/// Whether the results that an event asks to weigh can be counted.
pub open spec fn event_counted(
    event: Event,
    events: Seq<Event>,
    forgetting: ToolOutputForgetting,
    through: Option<i64>,
) -> bool {
    let batch = batch_before(forgetting.request_batches@, event.sequence);
    !covered(event.sequence, through) && asks_response(event) ==> batch_counted(
        batch,
        events,
        through,
        batch.len(),
    )
}

/// Whether the surface of a thread can be made: all results that it weighs can be
/// counted.
pub open spec fn surface_counted(
    events: Seq<Event>,
    forgetting: ToolOutputForgetting,
    replay_key: Option<Seq<char>>,
    kind: ModelRequestKind,
) -> bool {
    let through = compacted_through(events, replay_key);
    let batch = forgetting.current_batch@;
    &&& events_counted(events, forgetting, through, events.len())
    &&& kind == ModelRequestKind::Response ==> batch_counted(batch, events, through, batch.len())
}

proof fn lemma_batch_stop(
    batch: Seq<i64>,
    events: Seq<Event>,
    through: Option<i64>,
    count: nat,
    total: nat,
)
    requires
        count <= total,
        !batch_counted(batch, events, through, count),
    ensures
        !batch_counted(batch, events, through, total),
    decreases total,
{
    if count < total {
        lemma_batch_stop(batch, events, through, count, (total - 1) as nat);
    }
}

proof fn lemma_events_stop(
    events: Seq<Event>,
    forgetting: ToolOutputForgetting,
    through: Option<i64>,
    count: nat,
    total: nat,
)
    requires
        count <= total,
        !events_counted(events, forgetting, through, count),
    ensures
        !events_counted(events, forgetting, through, total),
    decreases total,
{
    if count < total {
        lemma_events_stop(events, forgetting, through, count, (total - 1) as nat);
    }
}

/// What is said of the results that may be forgotten; nothing where there are none.
pub open spec fn hint_items(batch: Seq<i64>, events: Seq<Event>, through: Option<i64>) -> Seq<
    ItemView,
> {
    let rows = hint_rows(batch, events, through, batch.len());
    if rows.len() == 0 {
        Seq::empty()
    } else {
        seq![
            plain(Role::Developer, "Forgettable tool outputs:\n"@ + joined(rows, "\n"@)),
        ]
    }
}

/// Whether an event is a request for a response.
pub open spec fn asks_response(event: Event) -> bool {
    match event.data {
        ThreadEventData::ModelRequest(request) => request.kind == ModelRequestKind::Response,
        _ => false,
    }
}

/// What one event of `events` adds to the surface.
pub open spec fn event_items(
    event: Event,
    events: Seq<Event>,
    forgetting: ToolOutputForgetting,
    through: Option<i64>,
) -> Seq<ItemView> {
    if covered(event.sequence, through) {
        Seq::empty()
    } else {
        let hints = if asks_response(event) {
            hint_items(
                batch_before(forgetting.request_batches@, event.sequence),
                events,
                through,
            )
        } else {
            Seq::empty()
        };
        match event_view(
            event,
            forgetting.forgotten@.contains(event.sequence),
            masked_by_latest(events).contains(event.sequence),
        ) {
            Some(item) => hints.push(item),
            None => hints,
        }
    }
}

/// What the first `count` of `events` add to the surface.
pub open spec fn visible_items(
    events: Seq<Event>,
    forgetting: ToolOutputForgetting,
    through: Option<i64>,
    count: nat,
) -> Seq<ItemView>
    decreases count,
{
    if count == 0 {
        Seq::empty()
    } else {
        visible_items(events, forgetting, through, (count - 1) as nat) + event_items(
            events[count - 1],
            events,
            forgetting,
            through,
        )
    }
}

/// What stands at the head of the surface: the thread's context, what replaces
/// the compacted history, and what still holds of it.
pub open spec fn surface_head(events: Seq<Event>, replay_key: Option<Seq<char>>) -> Seq<ItemView> {
    let context = match first_context(events) {
        Some(content) => seq![plain(Role::Developer, content)],
        None => Seq::empty(),
    };
    match latest_compaction(events, replay_key) {
        Some(compaction) => context.push(compaction_item(compaction)) + shadowed_state(
            events,
            compaction.through,
        ),
        None => context,
    }
}

/// How far the latest compaction that applies reaches.
pub open spec fn compacted_through(events: Seq<Event>, replay_key: Option<Seq<char>>) -> Option<
    i64,
> {
    match latest_compaction(events, replay_key) {
        Some(compaction) => Some(compaction.through),
        None => None,
    }
}

/// The surface of a thread.
pub open spec fn surface(
    events: Seq<Event>,
    forgetting: ToolOutputForgetting,
    replay_key: Option<Seq<char>>,
    kind: ModelRequestKind,
) -> Seq<ItemView> {
    let through = compacted_through(events, replay_key);
    let body = surface_head(events, replay_key) + visible_items(
        events,
        forgetting,
        through,
        events.len(),
    );
    if kind == ModelRequestKind::Response {
        body + hint_items(forgetting.current_batch@, events, through)
    } else {
        body
    }
}

fn plain_message(role: Role, text: String) -> (item: Item)
    ensures
        item@ == plain(role, text@),
{
    Item::Message { role, text, phase: None }
}

fn instruction_text(value: &InstructionEvent, removal: &str) -> (text: String)
    ensures
        text@ == instruction_words(*value, removal@),
{
    match value {
        InstructionEvent::Initial(text) => text.clone(),
        InstructionEvent::Replacement(text) => text.clone(),
        InstructionEvent::Removal => concat3("The ", removal, " were removed."),
    }
}

/// How workspace instructions are shown.
pub fn workspace_instructions_item(value: &InstructionEvent) -> (item: Item)
    ensures
        item@ == workspace_item(*value),
{
    let text = instruction_text(value, "AGENTS.md instructions");
    plain_message(
        Role::Developer,
        concat3(
            "# AGENTS.md instructions\n\n<INSTRUCTIONS>\n",
            text.as_str(),
            "\n</INSTRUCTIONS>",
        ),
    )
}

fn approval_name(approval: ApprovalPolicy) -> (name: &'static str)
    ensures
        name@ == approval_word(approval),
{
    match approval {
        ApprovalPolicy::Ask => "ask",
        ApprovalPolicy::Allow => "allow",
    }
}

/// Describes the runners, one line for each.
pub fn format_runners(runners: &Vec<Runner>) -> (text: String)
    ensures
        text@ == runners_words(runners@),
{
    if runners.len() == 0 {
        return "No Atra Runners are currently available.".to_owned();
    }
    let mut lines: Vec<String> = Vec::new();
    lines.push("Available Atra Runners:".to_owned());
    let mut i: usize = 0;
    while i < runners.len()
        invariant
            i <= runners.len(),
            lines.len() == i + 1,
            lines[0]@ == "Available Atra Runners:"@,
            forall|j: int| 0 <= j < i ==> (#[trigger] lines[j + 1])@ == runner_line(runners[j]),
        decreases runners.len() - i,
    {
        let runner = &runners[i];
        let description = single_spaced(runner.description.as_str());
        let mut line = concat5(
            runner.name.as_str(),
            ": ",
            description.as_str(),
            " (approval: ",
            approval_name(runner.approval),
        );
        line.push_str(")");
        lines.push(line);
        i += 1;
    }
    lines.push(String::new());
    lines.push(
        "Each Runner has an approval policy. Commands routed to a Runner with `ask` approval require approval before execution; commands routed to a Runner with `allow` approval execute without per-command approval. Approval is requested automatically when a command is executed. If an approval request is denied, the tool call fails.".to_owned(),
    );
    proof {
        let wanted = runner_lines(runners@);
        assert forall|j: int| 0 <= j < wanted.len() implies views(lines@)[j] == wanted[j] by {
            if 1 <= j <= runners.len() {
                assert(lines[(j - 1) + 1]@ == runner_line(runners[j - 1]));
            }
        }
        assert(views(lines@) =~= wanted);
    }
    join(&lines, "\n")
}

/// Tells the model that the user invoked a skill.
pub fn format_skill_invocation(invocation: &SkillInvocationEvent) -> (text: String)
    ensures
        text@ == skill_words(*invocation),
{
    let mut text = concat5(
        "The user explicitly invoked the following skill for this request. Follow its instructions and resolve relative references against the directory containing ",
        invocation.path.as_str(),
        ".\n\n<skill name=\"",
        invocation.name.as_str(),
        "\" path=\"",
    );
    text.push_str(invocation.path.as_str());
    text.push_str("\">\n<instructions>\n");
    text.push_str(invocation.instructions.as_str());
    text.push_str("\n</instructions>\n</skill>");
    text
}

fn output_item(result: &Json, masked_result: &Option<Json>, forgotten: bool, masked: bool) -> (
    output: Json)
    ensures
        output@ == shown_output(*result, *masked_result, forgotten, masked),
{
    if forgotten {
        Json::text("[tool output forgotten]")
    } else {
        match masked_result {
            Some(value) => if masked {
                value.clone()
            } else {
                result.clone()
            },
            None => result.clone(),
        }
    }
}

/// What the model is shown of one event.
pub fn event_item(event: &Event, forgotten: bool, masked: bool) -> (item: Option<Item>)
    ensures
        match item {
            Some(item) => event_view(*event, forgotten, masked) == Some(item@),
            None => event_view(*event, forgotten, masked) is None,
        },
{
    match &event.data {
        ThreadEventData::WorkspaceInstructions(value) => Some(workspace_instructions_item(value)),
        ThreadEventData::Skills(value) => Some(
            plain_message(Role::Developer, instruction_text(value, "skills list")),
        ),
        ThreadEventData::SkillInvocation(value) => Some(
            plain_message(Role::User, format_skill_invocation(value)),
        ),
        ThreadEventData::Runners(value) => Some(
            plain_message(
                Role::Developer,
                match value {
                    RunnersEvent::Initial(runners) => format_runners(runners),
                    RunnersEvent::Replacement(runners) => {
                        let list = format_runners(runners);
                        concat2(
                            "The available Atra Runner list has changed. This list replaces the previously provided list.\n\n",
                            list.as_str(),
                        )
                    },
                },
            ),
        ),
        ThreadEventData::UserMessage { content } => Some(
            plain_message(Role::User, content.clone()),
        ),
        ThreadEventData::AssistantMessage { content, phase } => Some(
            Item::Message { role: Role::Assistant, text: content.clone(), phase: Some(*phase) },
        ),
        ThreadEventData::Reasoning { summary, opaque } => Some(
            Item::Reasoning {
                summary: summary.clone(),
                opaque: match opaque {
                    Some(state) => Some(copy_opaque(state)),
                    None => None,
                },
            },
        ),
        ThreadEventData::ToolCall(call) => Some(
            match call {
                ToolCallEvent::Custom { item_id, name, input, call_id } => Item::ToolCall {
                    kind: ToolKind::Custom,
                    item_id: copy_option(item_id),
                    call_id: call_id.clone(),
                    name: name.clone(),
                    input: ToolInput::Text(input.clone()),
                },
                ToolCallEvent::Function { name, arguments, call_id } => Item::ToolCall {
                    kind: ToolKind::Function,
                    item_id: None,
                    call_id: call_id.clone(),
                    name: name.clone(),
                    input: ToolInput::Json(arguments.clone()),
                },
            },
        ),
        ThreadEventData::ToolResult(value) => Some(
            match value {
                ToolResultEvent::Custom { call_id, name, result, masked_result, .. } => {
                    Item::ToolResult {
                        kind: ToolKind::Custom,
                        call_id: call_id.clone(),
                        name: name.clone(),
                        output: output_item(result, masked_result, forgotten, masked),
                    }
                },
                ToolResultEvent::Function { call_id, name, result, masked_result, .. } => {
                    Item::ToolResult {
                        kind: ToolKind::Function,
                        call_id: call_id.clone(),
                        name: name.clone(),
                        output: output_item(result, masked_result, forgotten, masked),
                    }
                },
            },
        ),
        ThreadEventData::WebSearch { item } => Some(Item::WebSearch(item.clone())),
        _ => None,
    }
}

/// The latest compaction that applies to a request with this replay key.
pub fn applicable_compaction<'a>(events: &'a Vec<Event>, replay_key: Option<&str>) -> (compaction:
    Option<&'a CompactionEvent>)
    ensures
        match compaction {
            Some(compaction) => latest_compaction(events@, key_view(replay_key)) == Some(
                *compaction,
            ),
            None => latest_compaction(events@, key_view(replay_key)) is None,
        },
{
    let ghost key = key_view(replay_key);
    let mut i: usize = events.len();
    assert(events@.take(i as int) =~= events@);
    while i > 0
        invariant
            i <= events.len(),
            key == key_view(replay_key),
            latest_compaction(events@, key) == latest_compaction(events@.take(i as int), key),
        decreases i,
    {
        assert(events@.take(i as int).last() == events[i - 1]);
        assert(events@.take(i as int).drop_last() =~= events@.take(i - 1));
        match &events[i - 1].data {
            ThreadEventData::Compaction(compaction) => {
                let matching = match &compaction.replacement {
                    CompactionReplacement::Summary { .. } => true,
                    CompactionReplacement::Opaque { state } => match replay_key {
                        Some(key) => same_text(key, state.replay_key.as_str()),
                        None => false,
                    },
                };
                if matching {
                    return Some(compaction);
                }
            },
            _ => {},
        }
        i -= 1;
    }
    None
}

/// What an optional replay key stands for.
pub open spec fn key_view(key: Option<&str>) -> Option<Seq<char>> {
    match key {
        Some(key) => Some(key@),
        None => None,
    }
}

fn find_context(events: &Vec<Event>) -> (content: Option<&String>)
    ensures
        match content {
            Some(content) => first_context(events@) == Some(content@),
            None => first_context(events@) is None,
        },
{
    let mut i: usize = 0;
    assert(events@.skip(0) =~= events@);
    while i < events.len()
        invariant
            i <= events.len(),
            first_context(events@) == first_context(events@.skip(i as int)),
        decreases events.len() - i,
    {
        assert(events@.skip(i as int)[0] == events[i as int]);
        assert(events@.skip(i as int).skip(1) =~= events@.skip(i + 1));
        match &events[i].data {
            ThreadEventData::ThreadContext { content } => {
                return Some(content);
            },
            _ => {},
        }
        i += 1;
    }
    None
}

fn find_workspace(events: &Vec<Event>) -> (value: Option<&InstructionEvent>)
    ensures
        match value {
            Some(value) => latest_workspace(events@) == Some(*value),
            None => latest_workspace(events@) is None,
        },
{
    let mut i: usize = events.len();
    assert(events@.take(i as int) =~= events@);
    while i > 0
        invariant
            i <= events.len(),
            latest_workspace(events@) == latest_workspace(events@.take(i as int)),
        decreases i,
    {
        assert(events@.take(i as int).last() == events[i - 1]);
        assert(events@.take(i as int).drop_last() =~= events@.take(i - 1));
        match &events[i - 1].data {
            ThreadEventData::WorkspaceInstructions(value) => {
                return Some(value);
            },
            _ => {},
        }
        i -= 1;
    }
    None
}

fn find_skills(events: &Vec<Event>) -> (value: Option<&InstructionEvent>)
    ensures
        match value {
            Some(value) => latest_skills(events@) == Some(*value),
            None => latest_skills(events@) is None,
        },
{
    let mut i: usize = events.len();
    assert(events@.take(i as int) =~= events@);
    while i > 0
        invariant
            i <= events.len(),
            latest_skills(events@) == latest_skills(events@.take(i as int)),
        decreases i,
    {
        assert(events@.take(i as int).last() == events[i - 1]);
        assert(events@.take(i as int).drop_last() =~= events@.take(i - 1));
        match &events[i - 1].data {
            ThreadEventData::Skills(value) => {
                return Some(value);
            },
            _ => {},
        }
        i -= 1;
    }
    None
}

fn find_runners(events: &Vec<Event>) -> (value: Option<&RunnersEvent>)
    ensures
        match value {
            Some(value) => latest_runners(events@) == Some(*value),
            None => latest_runners(events@) is None,
        },
{
    let mut i: usize = events.len();
    assert(events@.take(i as int) =~= events@);
    while i > 0
        invariant
            i <= events.len(),
            latest_runners(events@) == latest_runners(events@.take(i as int)),
        decreases i,
    {
        assert(events@.take(i as int).last() == events[i - 1]);
        assert(events@.take(i as int).drop_last() =~= events@.take(i - 1));
        match &events[i - 1].data {
            ThreadEventData::Runners(value) => {
                return Some(value);
            },
            _ => {},
        }
        i -= 1;
    }
    None
}

/// Which kinds of state an event after `through` brings.
struct SaidAgain {
    workspace: bool,
    skills: bool,
    runners: bool,
}

fn said_again(events: &Vec<Event>, through: i64) -> (said: SaidAgain)
    ensures
        said.workspace == workspace_after(events@, through),
        said.skills == skills_after(events@, through),
        said.runners == runners_after(events@, through),
{
    let mut said = SaidAgain { workspace: false, skills: false, runners: false };
    let mut i: usize = 0;
    while i < events.len()
        invariant
            i <= events.len(),
            said.workspace == workspace_after(events@.take(i as int), through),
            said.skills == skills_after(events@.take(i as int), through),
            said.runners == runners_after(events@.take(i as int), through),
        decreases events.len() - i,
    {
        let ghost before = events@.take(i as int);
        let ghost after = events@.take(i + 1);
        let ghost old_said = said;
        if events[i].sequence > through {
            match &events[i].data {
                ThreadEventData::WorkspaceInstructions(_) => {
                    said.workspace = true;
                },
                ThreadEventData::Skills(_) => {
                    said.skills = true;
                },
                ThreadEventData::Runners(_) => {
                    said.runners = true;
                },
                _ => {},
            }
        }
        proof {
            assert(after[i as int] == events[i as int]);
            assert forall|j: int| 0 <= j < i implies before[j] == after[j] by {}
            if workspace_after(before, through) {
                let j = choose|j: int|
                    0 <= j < before.len() && (#[trigger] before[j]).sequence > through
                        && before[j].data is WorkspaceInstructions;
                assert(after[j] == before[j]);
            }
            if workspace_after(after, through) && !said.workspace {
                let j = choose|j: int|
                    0 <= j < after.len() && (#[trigger] after[j]).sequence > through
                        && after[j].data is WorkspaceInstructions;
                assert(j < i);
                assert(before[j] == after[j]);
            }
            if skills_after(before, through) {
                let j = choose|j: int|
                    0 <= j < before.len() && (#[trigger] before[j]).sequence > through
                        && before[j].data is Skills;
                assert(after[j] == before[j]);
            }
            if skills_after(after, through) && !said.skills {
                let j = choose|j: int|
                    0 <= j < after.len() && (#[trigger] after[j]).sequence > through
                        && after[j].data is Skills;
                assert(before[j] == after[j]);
            }
            if runners_after(before, through) {
                let j = choose|j: int|
                    0 <= j < before.len() && (#[trigger] before[j]).sequence > through
                        && before[j].data is Runners;
                assert(after[j] == before[j]);
            }
            if runners_after(after, through) && !said.runners {
                let j = choose|j: int|
                    0 <= j < after.len() && (#[trigger] after[j]).sequence > through
                        && after[j].data is Runners;
                assert(before[j] == after[j]);
            }
        }
        i += 1;
    }
    assert(events@.take(i as int) =~= events@);
    said
}

fn append_shadowed_state(items: &mut Vec<Item>, events: &Vec<Event>, through: i64)
    ensures
        item_views(final(items)@) == item_views(old(items)@) + shadowed_state(events@, through),
{
    let said = said_again(events, through);
    let ghost start = item_views(items@);
    if !said.workspace {
        match find_workspace(events) {
            Some(value) => {
                let item = workspace_instructions_item(value);
                proof {
                    lemma_item_push(items@, item);
                }
                items.push(item);
            },
            None => {},
        }
    }
    if !said.skills {
        match find_skills(events) {
            Some(value) => {
                let item = plain_message(Role::Developer, instruction_text(value, "skills list"));
                proof {
                    lemma_item_push(items@, item);
                }
                items.push(item);
            },
            None => {},
        }
    }
    if !said.runners {
        match find_runners(events) {
            Some(value) => {
                let text = match value {
                    RunnersEvent::Initial(runners) => format_runners(runners),
                    RunnersEvent::Replacement(runners) => format_runners(runners),
                };
                let item = plain_message(Role::Developer, text);
                proof {
                    lemma_item_push(items@, item);
                }
                items.push(item);
            },
            None => {},
        }
    }
    assert(item_views(items@) =~= start + shadowed_state(events@, through));
}

/// An ordinal number: 1st, 2nd, 3rd, 4th, with 11th to 13th as they are said.
pub fn ordinal(value: usize) -> (text: String)
    ensures
        text@ == ordinal_words(value as int),
{
    let last_two: usize = value % 100;
    let last: usize = value % 10;
    let suffix = if 11 <= last_two && last_two <= 13 {
        "th"
    } else if last == 1 {
        "st"
    } else if last == 2 {
        "nd"
    } else if last == 3 {
        "rd"
    } else {
        "th"
    };
    let number = decimal_text(value as i128);
    concat2(number.as_str(), suffix)
}

/// How far back something is, counted from one.
pub fn recency_label(position: usize) -> (text: String)
    ensures
        text@ == recency_words(position as int),
{
    if position == 1 {
        "Most recent".to_owned()
    } else {
        let number = ordinal(position);
        concat2(number.as_str(), " most recent")
    }
}

fn is_covered(sequence: i64, through: Option<i64>) -> (result: bool)
    ensures
        result == covered(sequence, through),
{
    match through {
        Some(through) => sequence <= through,
        None => false,
    }
}

fn find_result(events: &Vec<Event>, sequence: i64) -> (found: Option<(&String, &Json)>)
    ensures
        match found {
            Some((call_id, result)) => result_at(events@, sequence) == Some((call_id@, result@)),
            None => result_at(events@, sequence) is None,
        },
{
    let mut i: usize = 0;
    assert(events@.skip(0) =~= events@);
    while i < events.len()
        invariant
            i <= events.len(),
            result_at(events@, sequence) == result_at(events@.skip(i as int), sequence),
        decreases events.len() - i,
    {
        assert(events@.skip(i as int)[0] == events[i as int]);
        assert(events@.skip(i as int).skip(1) =~= events@.skip(i + 1));
        if events[i].sequence == sequence {
            match &events[i].data {
                ThreadEventData::ToolResult(value) => {
                    return match value {
                        ToolResultEvent::Custom { call_id, result, .. } => Some((call_id, result)),
                        ToolResultEvent::Function { call_id, result, .. } => Some(
                            (call_id, result),
                        ),
                    };
                },
                _ => {},
            }
        }
        i += 1;
    }
    None
}

/// Offers the large results of a batch for forgetting, newest first; nothing where
/// one cannot be counted.
pub fn forget_hint(batch: &Vec<i64>, events: &Vec<Event>, through: Option<i64>) -> (hint: Option<
    Option<Item>,
>)
    ensures
        hint is Some == batch_counted(batch@, events@, through, batch@.len()),
        match hint {
            Some(Some(item)) => hint_items(batch@, events@, through) == seq![item@],
            Some(None) => hint_items(batch@, events@, through) == Seq::<ItemView>::empty(),
            None => true,
        },
{
    let mut rows: Vec<String> = Vec::new();
    let mut count: usize = 0;
    assert(views(rows@) =~= Seq::empty());
    while count < batch.len()
        invariant
            count <= batch.len(),
            views(rows@) == hint_rows(batch@, events@, through, count as nat),
            batch_counted(batch@, events@, through, count as nat),
        decreases batch.len() - count,
    {
        let sequence = batch[batch.len() - 1 - count];
        count += 1;
        if is_covered(sequence, through) {
            continue;
        }
        match find_result(events, sequence) {
            Some((call_id, result)) => {
                let output = result.to_text();
                let tokens: usize = match text_tokens(output.as_str()) {
                    Some(tokens) => tokens,
                    None => {
                        proof {
                            lemma_batch_stop(
                                batch@,
                                events@,
                                through,
                                count as nat,
                                batch@.len(),
                            );
                        }
                        return None;
                    },
                };
                if tokens < FORGET_OUTPUT_HINT_TOKENS {
                    continue;
                }
                let label = recency_label(count);
                let row = concat4("- ", label.as_str(), ": ", call_id.as_str());
                let ghost before = rows@;
                rows.push(row);
                assert(views(rows@) =~= views(before).push(row@));
            },
            None => {},
        }
    }
    if rows.len() == 0 {
        Some(None)
    } else {
        let list = join(&rows, "\n");
        Some(
            Some(
                plain_message(
                    Role::Developer,
                    concat2("Forgettable tool outputs:\n", list.as_str()),
                ),
            ),
        )
    }
}

fn find_batch(batches: &Vec<(i64, Vec<i64>)>, sequence: i64) -> (batch: Option<&Vec<i64>>)
    ensures
        match batch {
            Some(batch) => batch_before(batches@, sequence) == batch@,
            None => batch_before(batches@, sequence) == Seq::<i64>::empty(),
        },
{
    let mut i: usize = 0;
    assert(batches@.skip(0) =~= batches@);
    while i < batches.len()
        invariant
            i <= batches.len(),
            batch_before(batches@, sequence) == batch_before(batches@.skip(i as int), sequence),
        decreases batches.len() - i,
    {
        assert(batches@.skip(i as int)[0] == batches[i as int]);
        assert(batches@.skip(i as int).skip(1) =~= batches@.skip(i + 1));
        if batches[i].0 == sequence {
            return Some(&batches[i].1);
        }
        i += 1;
    }
    None
}

fn append_event(
    items: &mut Vec<Item>,
    event: &Event,
    events: &Vec<Event>,
    forgetting: &ToolOutputForgetting,
    through: Option<i64>,
) -> (done: bool)
    ensures
        done == event_counted(*event, events@, *forgetting, through),
        done ==> item_views(final(items)@) == item_views(old(items)@) + event_items(
            *event,
            events@,
            *forgetting,
            through,
        ),
{
    let ghost start = item_views(items@);
    if is_covered(event.sequence, through) {
        assert(item_views(items@) =~= start + Seq::empty());
        return true;
    }
    let asks = match &event.data {
        ThreadEventData::ModelRequest(request) => request.kind == ModelRequestKind::Response,
        _ => false,
    };
    if asks {
        let hint = match find_batch(&forgetting.request_batches, event.sequence) {
            Some(batch) => forget_hint(batch, events, through),
            None => Some(None),
        };
        match hint {
            Some(Some(item)) => {
                proof {
                    lemma_item_push(items@, item);
                }
                items.push(item);
            },
            Some(None) => {},
            None => {
                return false;
            },
        }
    }
    let forgotten = crate::event::contains_sequence(&forgetting.forgotten, event.sequence);
    let masked = is_masked(events, event.sequence);
    match event_item(event, forgotten, masked) {
        Some(item) => {
            proof {
                lemma_item_push(items@, item);
            }
            items.push(item);
        },
        None => {},
    }
    assert(item_views(items@) =~= start + event_items(*event, events@, *forgetting, through));
    true
}

/// Derives the surface of a thread from its events; nothing where a result that is
/// weighed for it cannot be counted.
pub fn derive(
    events: &Vec<Event>,
    forgetting: &ToolOutputForgetting,
    replay_key: Option<&str>,
    request_kind: ModelRequestKind,
) -> (derived: Option<Vec<Item>>)
    ensures
        derived is Some == surface_counted(
            events@,
            *forgetting,
            key_view(replay_key),
            request_kind,
        ),
        derived matches Some(items) ==> item_views(items@) == surface(
            events@,
            *forgetting,
            key_view(replay_key),
            request_kind,
        ),
{
    let mut items: Vec<Item> = Vec::new();
    let ghost key = key_view(replay_key);
    assert(item_views(items@) =~= Seq::empty());
    match find_context(events) {
        Some(content) => {
            let item = plain_message(Role::Developer, content.clone());
            proof {
                lemma_item_push(items@, item);
            }
            items.push(item);
        },
        None => {},
    }
    let compaction = applicable_compaction(events, replay_key);
    let mut through: Option<i64> = None;
    match compaction {
        Some(compaction) => {
            let item = match &compaction.replacement {
                CompactionReplacement::Summary { content } => plain_message(
                    Role::Developer,
                    concat2("Summary of the earlier conversation:\n\n", content.as_str()),
                ),
                CompactionReplacement::Opaque { state } => Item::Opaque(copy_opaque(state)),
            };
            proof {
                lemma_item_push(items@, item);
            }
            items.push(item);
            append_shadowed_state(&mut items, events, compaction.through);
            through = Some(compaction.through);
        },
        None => {},
    }
    let ghost head = surface_head(events@, key);
    assert(item_views(items@) =~= head);
    assert(through == compacted_through(events@, key));
    let mut i: usize = 0;
    assert(head + Seq::<ItemView>::empty() =~= head);
    while i < events.len()
        invariant
            i <= events.len(),
            item_views(items@) == head + visible_items(events@, *forgetting, through, i as nat),
            events_counted(events@, *forgetting, through, i as nat),
            through == compacted_through(events@, key_view(replay_key)),
        decreases events.len() - i,
    {
        if !append_event(&mut items, &events[i], events, forgetting, through) {
            proof {
                lemma_events_stop(
                    events@,
                    *forgetting,
                    through,
                    (i + 1) as nat,
                    events@.len(),
                );
            }
            return None;
        }
        i += 1;
        assert(item_views(items@) =~= head + visible_items(
            events@,
            *forgetting,
            through,
            i as nat,
        ));
    }
    if request_kind == ModelRequestKind::Response {
        let ghost body = item_views(items@);
        match forget_hint(&forgetting.current_batch, events, through) {
            Some(Some(item)) => {
                proof {
                    lemma_item_push(items@, item);
                }
                items.push(item);
            },
            Some(None) => {},
            None => {
                return None;
            },
        }
        assert(item_views(items@) =~= body + hint_items(
            forgetting.current_batch@,
            events@,
            through,
        ));
    }
    Some(items)
}

/// A compaction takes the place of the events up to where it reaches and of no
/// other: those add nothing, and every other event that asks for nothing adds what
/// it would add without the compaction.
pub proof fn law_compaction_shadows_only_the_prefix(
    event: Event,
    events: Seq<Event>,
    forgetting: ToolOutputForgetting,
    through: i64,
)
    ensures
        event.sequence <= through ==> event_items(event, events, forgetting, Some(through))
            == Seq::<ItemView>::empty(),
        event.sequence > through && !asks_response(event) ==> event_items(
            event,
            events,
            forgetting,
            Some(through),
        ) == event_items(event, events, forgetting, None),
{
}

/// The latest compaction that applies is the one that counts.
pub proof fn law_latest_compaction_counts(
    events: Seq<Event>,
    event: Event,
    compaction: CompactionEvent,
    replay_key: Option<Seq<char>>,
)
    requires
        event.data == ThreadEventData::Compaction(compaction),
        applies(compaction, replay_key),
    ensures
        latest_compaction(events.push(event), replay_key) == Some(compaction),
{
    assert(events.push(event).last() == event);
}

/// A compaction that only another API understands changes nothing: the one before
/// it still counts, and the event adds nothing itself.
pub proof fn law_foreign_compaction_is_passed_over(
    events: Seq<Event>,
    event: Event,
    compaction: CompactionEvent,
    forgetting: ToolOutputForgetting,
    replay_key: Option<Seq<char>>,
)
    requires
        event.data == ThreadEventData::Compaction(compaction),
        !applies(compaction, replay_key),
    ensures
        latest_compaction(events.push(event), replay_key) == latest_compaction(
            events,
            replay_key,
        ),
        event_items(
            event,
            events.push(event),
            forgetting,
            compacted_through(events, replay_key),
        ) == Seq::<ItemView>::empty(),
{
    assert(events.push(event).last() == event);
    assert(events.push(event).drop_last() =~= events);
}

/// A request for a response is told what it may forget, after all else; a request
/// for a compaction is not.
pub proof fn law_hint_comes_last(
    events: Seq<Event>,
    forgetting: ToolOutputForgetting,
    replay_key: Option<Seq<char>>,
)
    ensures
        surface(events, forgetting, replay_key, ModelRequestKind::Response) == surface(
            events,
            forgetting,
            replay_key,
            ModelRequestKind::Compaction,
        ) + hint_items(
            forgetting.current_batch@,
            events,
            compacted_through(events, replay_key),
        ),
{
}

/// Whether the event `i` is the last one in `events` whose data are of a kind.
pub open spec fn last_of(events: Seq<Event>, kind: spec_fn(ThreadEventData) -> bool, i: int) -> bool {
    &&& 0 <= i < events.len()
    &&& kind(events[i].data)
    &&& forall|j: int| i < j < events.len() ==> !kind((#[trigger] events[j]).data)
}

/// How often what the events of a kind say is repeated after a compaction: once
/// where there is such an event and none comes after `through`.
pub open spec fn repeats(
    events: Seq<Event>,
    kind: spec_fn(ThreadEventData) -> bool,
    through: i64,
) -> int {
    if (exists|i: int| 0 <= i < events.len() && kind((#[trigger] events[i]).data)) && (forall|i: int|
        0 <= i < events.len() && kind((#[trigger] events[i]).data) ==> events[i].sequence
            <= through) {
        1
    } else {
        0
    }
}

/// Whether a request with this replay key can use a compaction: each can use a
/// summary, and what only one API understands can be used with its key.
pub open spec fn usable(compaction: CompactionEvent, replay_key: Option<Seq<char>>) -> bool {
    ||| compaction.replacement is Summary
    ||| compaction.replacement matches CompactionReplacement::Opaque { state } && replay_key
        matches Some(key) && state.replay_key@ == key
}

/// Whether the compaction `c` is the one that counts: the last that can be used.
pub open spec fn counts(events: Seq<Event>, replay_key: Option<Seq<char>>, c: int) -> bool {
    last_of(
        events,
        |data: ThreadEventData|
            data matches ThreadEventData::Compaction(compaction) && usable(compaction, replay_key),
        c,
    )
}

proof fn lemma_latest_compaction(events: Seq<Event>, replay_key: Option<Seq<char>>, c: int)
    requires
        counts(events, replay_key, c),
    ensures
        latest_compaction(events, replay_key) == Some(events[c].data->Compaction_0),
    decreases events.len(),
{
    if c < events.len() - 1 {
        let kind = |data: ThreadEventData|
            data matches ThreadEventData::Compaction(compaction) && usable(compaction, replay_key);
        assert(!kind(events[events.len() - 1].data));
        assert(counts(events.drop_last(), replay_key, c)) by {
            assert forall|j: int| c < j < events.len() - 1 implies !kind(
                (#[trigger] events.drop_last()[j]).data,
            ) by {
                assert(!kind(events[j].data));
            }
        }
        lemma_latest_compaction(events.drop_last(), replay_key, c);
    }
}

proof fn lemma_no_compaction(events: Seq<Event>, replay_key: Option<Seq<char>>)
    requires
        forall|i: int|
            0 <= i < events.len() ==> !((#[trigger] events[i]).data
                matches ThreadEventData::Compaction(compaction) && usable(compaction, replay_key)),
    ensures
        latest_compaction(events, replay_key) is None,
    decreases events.len(),
{
    if events.len() > 0 {
        assert(events.last() == events[events.len() - 1]);
        lemma_no_compaction(events.drop_last(), replay_key);
    }
}

proof fn lemma_latest_workspace(events: Seq<Event>, i: int)
    requires
        last_of(events, |data: ThreadEventData| data is WorkspaceInstructions, i),
    ensures
        latest_workspace(events) == Some(events[i].data->WorkspaceInstructions_0),
    decreases events.len(),
{
    if i < events.len() - 1 {
        assert(!(events[events.len() - 1].data is WorkspaceInstructions));
        assert forall|j: int| i < j < events.len() - 1 implies !((
        #[trigger] events.drop_last()[j]).data is WorkspaceInstructions) by {
            assert(!(events[j].data is WorkspaceInstructions));
        }
        lemma_latest_workspace(events.drop_last(), i);
    }
}

proof fn lemma_latest_skills(events: Seq<Event>, i: int)
    requires
        last_of(events, |data: ThreadEventData| data is Skills, i),
    ensures
        latest_skills(events) == Some(events[i].data->Skills_0),
    decreases events.len(),
{
    if i < events.len() - 1 {
        assert(!(events[events.len() - 1].data is Skills));
        assert forall|j: int| i < j < events.len() - 1 implies !((
        #[trigger] events.drop_last()[j]).data is Skills) by {
            assert(!(events[j].data is Skills));
        }
        lemma_latest_skills(events.drop_last(), i);
    }
}

proof fn lemma_latest_runners(events: Seq<Event>, i: int)
    requires
        last_of(events, |data: ThreadEventData| data is Runners, i),
    ensures
        latest_runners(events) == Some(events[i].data->Runners_0),
    decreases events.len(),
{
    if i < events.len() - 1 {
        assert(!(events[events.len() - 1].data is Runners));
        assert forall|j: int| i < j < events.len() - 1 implies !((
        #[trigger] events.drop_last()[j]).data is Runners) by {
            assert(!(events[j].data is Runners));
        }
        lemma_latest_runners(events.drop_last(), i);
    }
}

/// Where there is an event of a kind, there is a last one.
proof fn lemma_has_last(events: Seq<Event>, kind: spec_fn(ThreadEventData) -> bool)
    requires
        exists|i: int| 0 <= i < events.len() && kind((#[trigger] events[i]).data),
    ensures
        exists|i: int| #[trigger] last_of(events, kind, i),
    decreases events.len(),
{
    let last = events.len() - 1;
    if kind(events[last].data) {
        assert(last_of(events, kind, last));
    } else {
        let shorter = events.drop_last();
        let i = choose|i: int| 0 <= i < events.len() && kind((#[trigger] events[i]).data);
        assert(kind(shorter[i].data));
        lemma_has_last(shorter, kind);
        let at = choose|at: int| #[trigger] last_of(shorter, kind, at);
        assert forall|j: int| at < j < events.len() implies !kind((#[trigger] events[j]).data) by {
            if j < last {
                assert(!kind(shorter[j].data));
            }
        }
        assert(kind(shorter[at].data));
        assert(last_of(events, kind, at));
    }
}

proof fn lemma_no_latest(events: Seq<Event>)
    ensures
        latest_workspace(events) is Some ==> exists|i: int|
            0 <= i < events.len() && (#[trigger] events[i]).data is WorkspaceInstructions,
        latest_skills(events) is Some ==> exists|i: int|
            0 <= i < events.len() && (#[trigger] events[i]).data is Skills,
        latest_runners(events) is Some ==> exists|i: int|
            0 <= i < events.len() && (#[trigger] events[i]).data is Runners,
    decreases events.len(),
{
    if events.len() > 0 {
        let shorter = events.drop_last();
        lemma_no_latest(shorter);
        assert(events.last() == events[events.len() - 1]);
        assert forall|i: int| 0 <= i < shorter.len() implies #[trigger] shorter[i] == events[i] by {}
        if latest_workspace(events) is Some && !(events.last().data is WorkspaceInstructions) {
            let i = choose|i: int|
                0 <= i < shorter.len() && (#[trigger] shorter[i]).data is WorkspaceInstructions;
            assert(events[i].data is WorkspaceInstructions);
        }
        if latest_skills(events) is Some && !(events.last().data is Skills) {
            let i = choose|i: int|
                0 <= i < shorter.len() && (#[trigger] shorter[i]).data is Skills;
            assert(events[i].data is Skills);
        }
        if latest_runners(events) is Some && !(events.last().data is Runners) {
            let i = choose|i: int|
                0 <= i < shorter.len() && (#[trigger] shorter[i]).data is Runners;
            assert(events[i].data is Runners);
        }
    }
}

/// How many items there are for the context of a thread: one where it has a context.
pub open spec fn contexts(events: Seq<Event>) -> int {
    if exists|i: int| 0 <= i < events.len() && (#[trigger] events[i]).data is ThreadContext {
        1
    } else {
        0
    }
}

proof fn lemma_first_context(events: Seq<Event>)
    ensures
        first_context(events) is Some <==> contexts(events) == 1,
    decreases events.len(),
{
    if events.len() > 0 {
        let rest = events.skip(1);
        lemma_first_context(rest);
        assert forall|i: int| 0 <= i < rest.len() implies #[trigger] rest[i] == events[i + 1] by {}
        if events[0].data is ThreadContext {
        } else if contexts(rest) == 1 {
            let i = choose|i: int| 0 <= i < rest.len() && (#[trigger] rest[i]).data is ThreadContext;
            assert(events[i + 1].data is ThreadContext);
        } else if contexts(events) == 1 {
            let i = choose|i: int|
                0 <= i < events.len() && (#[trigger] events[i]).data is ThreadContext;
            assert(rest[i - 1].data is ThreadContext);
        }
    }
}

proof fn lemma_context_at(events: Seq<Event>, i: int)
    requires
        0 <= i < events.len(),
        events[i].data is ThreadContext,
        forall|j: int| 0 <= j < i ==> !((#[trigger] events[j]).data is ThreadContext),
    ensures
        first_context(events) == Some(events[i].data->ThreadContext_content@),
    decreases events.len(),
{
    if i > 0 {
        assert(!(events[0].data is ThreadContext));
        let rest = events.skip(1);
        assert forall|j: int| 0 <= j < i - 1 implies !((
        #[trigger] rest[j]).data is ThreadContext) by {
            assert(!(events[j + 1].data is ThreadContext));
        }
        lemma_context_at(rest, i - 1);
    }
}

/// Where a compaction counts, the surface begins with the context of the thread, if
/// it has one, and what replaces the history that was compacted. Then come, once
/// each, the latest workspace instructions, list of skills and list of runners that
/// the compaction covers, unless an event that is still visible brings new ones; no
/// other item stands before those of the visible events.
pub proof fn law_state_is_said_again_once(
    events: Seq<Event>,
    forgetting: ToolOutputForgetting,
    replay_key: Option<Seq<char>>,
    kind: ModelRequestKind,
    c: int,
    i: int,
)
    requires
        counts(events, replay_key, c),
    ensures
        ({
            let compaction = events[c].data->Compaction_0;
            let through = compaction.through;
            let shown = surface(events, forgetting, replay_key, kind);
            let n = contexts(events);
            let is_workspace = |data: ThreadEventData| data is WorkspaceInstructions;
            let is_skills = |data: ThreadEventData| data is Skills;
            let is_runners = |data: ThreadEventData| data is Runners;
            let w = repeats(events, is_workspace, through);
            let s = repeats(events, is_skills, through);
            let r = repeats(events, is_runners, through);
            &&& shown.len() >= n + 1 + w + s + r
            &&& match compaction.replacement {
                CompactionReplacement::Summary { content } => shown[n] matches ItemView::Message {
                    role: Role::Developer,
                    text,
                    ..
                } && text == "Summary of the earlier conversation:\n\n"@ + content@,
                CompactionReplacement::Opaque { state } => shown[n] == ItemView::Opaque(state@),
            }
            &&& w == 1 && last_of(events, is_workspace, i) ==> shown[n + 1] == workspace_item(
                events[i].data->WorkspaceInstructions_0,
            )
            &&& s == 1 && last_of(events, is_skills, i) ==> shown[n + 1 + w] == skills_item(
                events[i].data->Skills_0,
            )
            &&& r == 1 && last_of(events, is_runners, i) ==> (shown[n + 1 + w + s]
                matches ItemView::Message { role: Role::Developer, text, phase: None } && text
                == runners_words(runners_of(events[i].data->Runners_0)))
            &&& shown.skip(n + 1 + w + s + r) == visible_items(
                events,
                forgetting,
                Some(through),
                events.len(),
            ) + (if kind is Response {
                hint_items(forgetting.current_batch@, events, Some(through))
            } else {
                Seq::empty()
            })
        }),
{
    let compaction = events[c].data->Compaction_0;
    let through = compaction.through;
    let is_workspace = |data: ThreadEventData| data is WorkspaceInstructions;
    let is_skills = |data: ThreadEventData| data is Skills;
    let is_runners = |data: ThreadEventData| data is Runners;
    let w = repeats(events, is_workspace, through);
    let s = repeats(events, is_skills, through);
    let r = repeats(events, is_runners, through);
    let n = contexts(events);
    lemma_latest_compaction(events, replay_key, c);
    lemma_no_latest(events);
    lemma_first_context(events);
    lemma_repeats(events, through);
    if last_of(events, is_workspace, i) {
        lemma_latest_workspace(events, i);
    }
    if last_of(events, is_skills, i) {
        lemma_latest_skills(events, i);
    }
    if last_of(events, is_runners, i) {
        lemma_latest_runners(events, i);
    }
    let head = surface_head(events, replay_key);
    assert(head.len() == n + 1 + w + s + r);
    let shown = surface(events, forgetting, replay_key, kind);
    assert forall|k: int| 0 <= k < head.len() implies #[trigger] shown[k] == head[k] by {}
    assert(shown.skip(n + 1 + w + s + r) =~= visible_items(
        events,
        forgetting,
        Some(through),
        events.len(),
    ) + (if kind is Response {
        hint_items(forgetting.current_batch@, events, Some(through))
    } else {
        Seq::empty()
    }));
}

proof fn lemma_repeats(events: Seq<Event>, through: i64)
    ensures
        repeats(events, |data: ThreadEventData| data is WorkspaceInstructions, through) == (
        if latest_workspace(events) is Some && !workspace_after(events, through) {
            1int
        } else {
            0
        }),
        repeats(events, |data: ThreadEventData| data is Skills, through) == (if latest_skills(
            events,
        ) is Some && !skills_after(events, through) {
            1int
        } else {
            0
        }),
        repeats(events, |data: ThreadEventData| data is Runners, through) == (if latest_runners(
            events,
        ) is Some && !runners_after(events, through) {
            1int
        } else {
            0
        }),
{
    lemma_no_latest(events);
    let is_workspace = |data: ThreadEventData| data is WorkspaceInstructions;
    let is_skills = |data: ThreadEventData| data is Skills;
    let is_runners = |data: ThreadEventData| data is Runners;
    if exists|i: int| 0 <= i < events.len() && is_workspace((#[trigger] events[i]).data) {
        lemma_has_last(events, is_workspace);
        lemma_latest_workspace(events, choose|i: int| #[trigger] last_of(events, is_workspace, i));
    }
    if exists|i: int| 0 <= i < events.len() && is_skills((#[trigger] events[i]).data) {
        lemma_has_last(events, is_skills);
        lemma_latest_skills(events, choose|i: int| #[trigger] last_of(events, is_skills, i));
    }
    if exists|i: int| 0 <= i < events.len() && is_runners((#[trigger] events[i]).data) {
        lemma_has_last(events, is_runners);
        lemma_latest_runners(events, choose|i: int| #[trigger] last_of(events, is_runners, i));
    }
}

/// Without a compaction that can be used, all events are visible, and only the
/// context of the thread stands before what they say.
pub proof fn law_all_is_shown_without_compaction(
    events: Seq<Event>,
    forgetting: ToolOutputForgetting,
    replay_key: Option<Seq<char>>,
)
    requires
        forall|i: int|
            0 <= i < events.len() ==> !((#[trigger] events[i]).data
                matches ThreadEventData::Compaction(compaction) && usable(compaction, replay_key)),
    ensures
        ({
            let shown = surface(events, forgetting, replay_key, ModelRequestKind::Compaction);
            &&& shown.len() >= contexts(events)
            &&& shown.skip(contexts(events)) == visible_items(
                events,
                forgetting,
                None,
                events.len(),
            )
        }),
{
    lemma_no_compaction(events, replay_key);
    lemma_first_context(events);
    let shown = surface(events, forgetting, replay_key, ModelRequestKind::Compaction);
    assert(shown.skip(contexts(events)) =~= visible_items(events, forgetting, None, events.len()));
}

/// The first context of the thread comes before all else, as a message of the
/// developer.
pub proof fn law_context_comes_first(
    events: Seq<Event>,
    forgetting: ToolOutputForgetting,
    replay_key: Option<Seq<char>>,
    kind: ModelRequestKind,
    i: int,
)
    requires
        0 <= i < events.len(),
        events[i].data is ThreadContext,
        forall|j: int| 0 <= j < i ==> !((#[trigger] events[j]).data is ThreadContext),
    ensures
        surface(events, forgetting, replay_key, kind).len() > 0,
        surface(events, forgetting, replay_key, kind)[0] matches ItemView::Message {
            role: Role::Developer,
            text,
            ..
        } && text == events[i].data->ThreadContext_content@,
{
    lemma_context_at(events, i);
}

proof fn lemma_visible_grows(
    events: Seq<Event>,
    forgetting: ToolOutputForgetting,
    through: Option<i64>,
    count: nat,
    total: nat,
)
    requires
        count <= total <= events.len(),
    ensures
        visible_items(events, forgetting, through, count).len() <= visible_items(
            events,
            forgetting,
            through,
            total,
        ).len(),
        forall|k: int|
            0 <= k < visible_items(events, forgetting, through, count).len()
                ==> #[trigger] visible_items(events, forgetting, through, total)[k]
                == visible_items(events, forgetting, through, count)[k],
    decreases total,
{
    if count < total {
        lemma_visible_grows(events, forgetting, through, count, (total - 1) as nat);
    }
}

/// What the visible events say comes in the order of the events, and nothing comes
/// between: where what an event says ends, what the next one says begins.
pub proof fn law_events_are_shown_in_order(
    events: Seq<Event>,
    forgetting: ToolOutputForgetting,
    through: Option<i64>,
    i: int,
)
    requires
        0 <= i < events.len(),
    ensures
        ({
            let shown = visible_items(events, forgetting, through, events.len());
            let from = visible_items(events, forgetting, through, i as nat).len() as int;
            let to = visible_items(events, forgetting, through, (i + 1) as nat).len() as int;
            let said = event_items(events[i], events, forgetting, through);
            &&& visible_items(events, forgetting, through, 0).len() == 0
            &&& 0 <= from <= to <= shown.len()
            &&& to == from + said.len()
            &&& shown.subrange(from, to) == said
            &&& said.len() <= 2
            &&& (through matches Some(through) && events[i].sequence <= through) ==> said.len() == 0
        }),
{
    lemma_visible_grows(events, forgetting, through, (i + 1) as nat, events.len());
    let shown = visible_items(events, forgetting, through, events.len());
    let nearer = visible_items(events, forgetting, through, (i + 1) as nat);
    let from = visible_items(events, forgetting, through, i as nat).len() as int;
    let said = event_items(events[i], events, forgetting, through);
    assert forall|k: int| 0 <= k < said.len() implies shown[from + k] == said[k] by {
        assert(shown[from + k] == nearer[from + k]);
    }
    assert(shown.subrange(from, from + said.len()) =~= said);
}

/// Who says what: what the user wrote is said by the user, what the model wrote by
/// the assistant, and what the program tells the model by the developer.
pub proof fn law_messages_are_shown_as_they_came(event: Event, forgotten: bool, masked: bool)
    ensures
        event.data matches ThreadEventData::UserMessage { content } ==> (event_view(
            event,
            forgotten,
            masked,
        ) matches Some(ItemView::Message { role, text, phase }) && role is User && text == content@
            && phase is None),
        event.data matches ThreadEventData::AssistantMessage { content, phase: told } ==> (
        event_view(event, forgotten, masked) matches Some(ItemView::Message { role, text, phase })
            && role is Assistant && text == content@ && phase == Some(told)),
        event.data matches ThreadEventData::Reasoning { summary: told, opaque: state } ==> (
        event_view(event, forgotten, masked) matches Some(ItemView::Reasoning { summary, opaque })
            && summary == told@ && (opaque is Some <==> state is Some) && (state matches Some(state)
            ==> opaque->0.replay_key == state.replay_key@ && opaque->0.payload == state.payload@)),
        event.data matches ThreadEventData::SkillInvocation(invoked) ==> (event_view(
            event,
            forgotten,
            masked,
        ) matches Some(ItemView::Message { role, text, phase }) && role is User && phase is None
            && holds_part(text, invoked.name@) && holds_part(text, invoked.path@) && holds_part(
            text,
            invoked.instructions@,
        )),
        event.data matches ThreadEventData::WebSearch { item } ==> event_view(
            event,
            forgotten,
            masked,
        ) == Some(ItemView::WebSearch(item@)),
        (event.data is WorkspaceInstructions || event.data is Skills || event.data is Runners) ==> (
        event_view(event, forgotten, masked) matches Some(ItemView::Message { role, phase, .. })
            && role is Developer && phase is None),
        (event.data is ThreadContext || event.data is Compaction || event.data is ModelRequest)
            ==> event_view(event, forgotten, masked) is None,
{
    if let ThreadEventData::SkillInvocation(invoked) = event.data {
        let opening = "The user explicitly invoked the following skill for this request. Follow its instructions and resolve relative references against the directory containing "@;
        let text = skill_words(invoked);
        let named = opening + invoked.path@ + ".\n\n<skill name=\""@;
        let placed = named + invoked.name@ + "\" path=\""@;
        let told = placed + invoked.path@ + "\">\n<instructions>\n"@;
        let ending = "\n</instructions>\n</skill>"@;
        assert(text =~= named + invoked.name@ + ("\" path=\""@ + invoked.path@
            + "\">\n<instructions>\n"@ + invoked.instructions@ + ending));
        lemma_holds_middle(
            named,
            invoked.name@,
            "\" path=\""@ + invoked.path@ + "\">\n<instructions>\n"@ + invoked.instructions@
                + ending,
        );
        assert(text =~= placed + invoked.path@ + ("\">\n<instructions>\n"@ + invoked.instructions@
            + ending));
        lemma_holds_middle(
            placed,
            invoked.path@,
            "\">\n<instructions>\n"@ + invoked.instructions@ + ending,
        );
        assert(text =~= told + invoked.instructions@ + ending);
        lemma_holds_middle(told, invoked.instructions@, ending);
    }
}

/// A call and its result are shown with their name and the name that ties them
/// together, both of the kind that the tool is. The output of a result that was
/// forgotten is not shown, whatever it is; that of one that the latest compaction
/// masks is shown as its mask, where it has one; any other output is shown whole.
pub proof fn law_calls_are_shown_as_they_came(event: Event, forgotten: bool, masked: bool)
    ensures
        event.data matches ThreadEventData::ToolCall(call) ==> (event_view(event, forgotten, masked)
            matches Some(ItemView::ToolCall { kind, item_id, call_id: id, name: called, input: with })
            && match call {
            ToolCallEvent::Custom { item_id: told, name, input, call_id } => kind is Custom && id
                == call_id@ && called == name@ && with == ToolInputView::Text(input@) && item_id
                == view_option(told),
            ToolCallEvent::Function { name, arguments, call_id } => kind is Function && id
                == call_id@ && called == name@ && with == ToolInputView::Json(arguments@) && item_id
                is None,
        }),
        event.data matches ThreadEventData::ToolResult(value) ==> (event_view(
            event,
            forgotten,
            masked,
        ) matches Some(ItemView::ToolResult { kind, call_id: id, name: called, output }) && match value {
            ToolResultEvent::Custom { call_id, name, result, masked_result, .. } => {
                &&& kind is Custom
                &&& id == call_id@
                &&& called == name@
                &&& forgotten ==> output == JsonView::Text("[tool output forgotten]"@)
                &&& !forgotten && masked && masked_result is Some ==> output == masked_result->0@
                &&& !forgotten && !(masked && masked_result is Some) ==> output == result@
            },
            ToolResultEvent::Function { call_id, name, result, masked_result, .. } => {
                &&& kind is Function
                &&& id == call_id@
                &&& called == name@
                &&& forgotten ==> output == JsonView::Text("[tool output forgotten]"@)
                &&& !forgotten && masked && masked_result is Some ==> output == masked_result->0@
                &&& !forgotten && !(masked && masked_result is Some) ==> output == result@
            },
        }),
{
}

/// Instructions are shown in full, those of the workspace between marks; where they
/// are gone, that is said.
pub proof fn law_instructions_are_shown(value: InstructionEvent)
    ensures
        workspace_item(value) matches ItemView::Message { role: Role::Developer, text, phase: None }
            && has_prefix(text, "# AGENTS.md instructions\n\n<INSTRUCTIONS>\n"@) && has_suffix(
            text,
            "\n</INSTRUCTIONS>"@,
        ) && match value {
            InstructionEvent::Initial(told) => holds_part(text, told@),
            InstructionEvent::Replacement(told) => holds_part(text, told@),
            InstructionEvent::Removal => holds_part(
                text,
                "The AGENTS.md instructions were removed."@,
            ),
        },
        skills_item(value) matches ItemView::Message { role: Role::Developer, text, phase: None }
            && match value {
            InstructionEvent::Initial(told) => text == told@,
            InstructionEvent::Replacement(told) => text == told@,
            InstructionEvent::Removal => text == "The skills list were removed."@,
        },
{
    let opening = "# AGENTS.md instructions\n\n<INSTRUCTIONS>\n"@;
    let ending = "\n</INSTRUCTIONS>"@;
    let told = instruction_words(value, "AGENTS.md instructions"@);
    let text = opening + told + ending;
    lemma_holds_middle(opening, told, ending);
    assert(text.take(opening.len() as int) =~= opening);
    assert(text.skip(text.len() - ending.len()) =~= ending);
    if value is Removal {
        reveal_strlit("The ");
        reveal_strlit("AGENTS.md instructions");
        reveal_strlit(" were removed.");
        reveal_strlit("The AGENTS.md instructions were removed.");
        reveal_strlit("skills list");
        reveal_strlit("The skills list were removed.");
        assert(told =~= "The AGENTS.md instructions were removed."@);
        assert(instruction_words(value, "skills list"@) =~= "The skills list were removed."@);
    }
}

/// A list of runners has a line for each runner, in their order: its name, its
/// description on one line, and whether commands for it need approval. Where there
/// is none, that is said. A list that replaces another says so and is otherwise the
/// same.
pub proof fn law_runners_are_listed(runners: Seq<Runner>, i: int)
    requires
        0 <= i < runners.len(),
    ensures
        ({
            let line = runners[i].name@ + ": "@ + spaced(runners[i].description@, false) + (
            if runners[i].approval is Ask {
                " (approval: ask)"@
            } else {
                " (approval: allow)"@
            });
            let text = runners_words(runners);
            &&& has_prefix(text, "Available Atra Runners:"@)
            &&& holds_part(text, line)
            &&& i + 1 < runners.len() ==> holds_part(
                text,
                line + "\n"@ + runner_line(runners[i + 1]),
            )
        }),
        runners_words(Seq::empty()) == "No Atra Runners are currently available."@,
{
    reveal_strlit(" (approval: ");
    reveal_strlit("ask");
    reveal_strlit("allow");
    reveal_strlit(")");
    reveal_strlit(" (approval: ask)");
    reveal_strlit(" (approval: allow)");
    let line = runner_line(runners[i]);
    assert(" (approval: "@ + "ask"@ + ")"@ =~= " (approval: ask)"@);
    assert(" (approval: "@ + "allow"@ + ")"@ =~= " (approval: allow)"@);
    let opening = runners[i].name@ + ": "@ + spaced(runners[i].description@, false);
    assert(line =~= opening + (" (approval: "@ + approval_word(runners[i].approval) + ")"@));
    let lines = runner_lines(runners);
    assert(lines[i + 1] == line);
    crate::text::law_joined_holds_its_parts(lines, "\n"@, i + 1);
    if i + 1 < runners.len() {
        assert(lines[i + 2] == runner_line(runners[i + 1]));
    }
    assert(lines[0] == "Available Atra Runners:"@);
}

/// An event about runners shows the runners that it brings.
pub proof fn law_runners_event_shows_its_runners(value: RunnersEvent)
    ensures
        runners_item(value) matches ItemView::Message { role: Role::Developer, text, phase: None }
            && match value {
            RunnersEvent::Initial(runners) => text == runners_words(runners@),
            RunnersEvent::Replacement(runners) => has_prefix(
                text,
                "The available Atra Runner list has changed. "@,
            ) && has_suffix(text, runners_words(runners@)),
        },
{
    if let RunnersEvent::Replacement(runners) = value {
        let opening = "The available Atra Runner list has changed. This list replaces the previously provided list.\n\n"@;
        reveal_strlit("The available Atra Runner list has changed. This list replaces the previously provided list.\n\n");
        reveal_strlit("The available Atra Runner list has changed. ");
        let words = runners_words(runners@);
        let text = opening + words;
        let start = "The available Atra Runner list has changed. "@;
        assert(text.take(start.len() as int) =~= start);
        assert(text.skip(text.len() - words.len()) =~= words);
    }
}

/// Which results the model is told it may forget: of the batch, from the newest to
/// the oldest, each result that no compaction covers and that has five hundred tokens
/// or more, by the name of its call and how far back it is.
pub proof fn law_large_results_may_be_forgotten(
    batch: Seq<i64>,
    events: Seq<Event>,
    through: Option<i64>,
    back: nat,
)
    requires
        0 < back <= batch.len(),
        batch_counted(batch, events, through, batch.len()),
    ensures
        ({
            let sequence = batch[batch.len() - back];
            let rows = hint_rows(batch, events, through, batch.len());
            let at = hint_rows(batch, events, through, (back - 1) as nat).len();
            let next = hint_rows(batch, events, through, back).len();
            let listed = !(through matches Some(through) && sequence <= through) && (result_at(
                events,
                sequence,
            ) matches Some((_, output)) && token_count(printed(output)) matches Some(tokens)
                && tokens >= 500);
            &&& at <= next <= rows.len()
            &&& next == at + if listed {
                1int
            } else {
                0
            }
            &&& listed && back == 1 ==> rows[at as int] == "- Most recent: "@ + result_at(
                events,
                sequence,
            )->Some_0.0
            &&& listed && back > 1 ==> {
                &&& has_prefix(rows[at as int], "- "@ + decimal(back as int))
                &&& has_suffix(
                    rows[at as int],
                    " most recent: "@ + result_at(events, sequence)->Some_0.0,
                )
            }
        }),
{
    lemma_rows_grow(batch, events, through, back, batch.len());
    lemma_counted(batch, events, through, back, batch.len());
    let sequence = batch[batch.len() - back];
    let before = hint_rows(batch, events, through, (back - 1) as nat);
    let near = hint_rows(batch, events, through, back);
    let rows = hint_rows(batch, events, through, batch.len());
    if near.len() > before.len() {
        let call_id = result_at(events, sequence)->Some_0.0;
        let row = near[before.len() as int];
        assert(rows[before.len() as int] == row);
        assert(row == "- "@ + recency_words(back as int) + ": "@ + call_id);
        reveal_strlit("- ");
        reveal_strlit(": ");
        reveal_strlit("Most recent");
        reveal_strlit("- Most recent: ");
        reveal_strlit(" most recent");
        reveal_strlit(" most recent: ");
        if back == 1 {
            assert(row =~= "- Most recent: "@ + call_id);
        } else {
            let start = "- "@ + decimal(back as int);
            assert(row.take(start.len() as int) =~= start);
            let ending = " most recent: "@ + call_id;
            assert(row.skip(row.len() - ending.len()) =~= ending);
        }
    }
}

proof fn lemma_rows_grow(
    batch: Seq<i64>,
    events: Seq<Event>,
    through: Option<i64>,
    count: nat,
    total: nat,
)
    requires
        count <= total <= batch.len(),
    ensures
        hint_rows(batch, events, through, count).len() <= hint_rows(
            batch,
            events,
            through,
            total,
        ).len(),
        forall|k: int|
            0 <= k < hint_rows(batch, events, through, count).len() ==> #[trigger] hint_rows(
                batch,
                events,
                through,
                total,
            )[k] == hint_rows(batch, events, through, count)[k],
    decreases total,
{
    if count < total {
        lemma_rows_grow(batch, events, through, count, (total - 1) as nat);
    }
}

proof fn lemma_counted(
    batch: Seq<i64>,
    events: Seq<Event>,
    through: Option<i64>,
    count: nat,
    total: nat,
)
    requires
        count <= total,
        batch_counted(batch, events, through, total),
    ensures
        batch_counted(batch, events, through, count),
    decreases total,
{
    if count < total {
        lemma_counted(batch, events, through, count, (total - 1) as nat);
    }
}

/// The hint is one message of the developer that lists the rows, and there is none
/// where there are no rows. Each request for a response that is still visible was
/// preceded by the hint of its own batch.
pub proof fn law_hint_lists_the_rows(
    batch: Seq<i64>,
    events: Seq<Event>,
    through: Option<i64>,
    i: int,
)
    requires
        0 <= i < hint_rows(batch, events, through, batch.len()).len(),
    ensures
        ({
            let rows = hint_rows(batch, events, through, batch.len());
            let hint = hint_items(batch, events, through);
            &&& hint.len() == 1
            &&& hint[0] matches ItemView::Message { role: Role::Developer, text, phase: None }
                && has_prefix(text, "Forgettable tool outputs:\n"@) && holds_part(text, rows[i])
        }),
{
    let rows = hint_rows(batch, events, through, batch.len());
    let opening = "Forgettable tool outputs:\n"@;
    let list = joined(rows, "\n"@);
    crate::text::law_joined_holds_its_parts(rows, "\n"@, i);
    let text = opening + list;
    assert(text.take(opening.len() as int) =~= opening);
    let at = choose|at: int|
        0 <= at <= list.len() - rows[i].len() && #[trigger] list.subrange(at, at + rows[i].len())
            == rows[i];
    let there = opening.len() + at;
    assert(text.subrange(there, there + rows[i].len()) =~= list.subrange(at, at + rows[i].len()));
}

/// A request for a response adds the hint of the batch that stood before it, and no
/// other event adds a hint.
pub proof fn law_requests_are_preceded_by_their_hint(
    event: Event,
    events: Seq<Event>,
    forgetting: ToolOutputForgetting,
    through: Option<i64>,
)
    requires
        !(through matches Some(through) && event.sequence <= through),
    ensures
        ({
            let said = event_items(event, events, forgetting, through);
            let batch = batch_before(forgetting.request_batches@, event.sequence);
            let view = event_view(
                event,
                forgetting.forgotten@.contains(event.sequence),
                masked_by_latest(events).contains(event.sequence),
            );
            &&& (event.data matches ThreadEventData::ModelRequest(request) && request.kind
                is Response) ==> said == hint_items(batch, events, through)
            &&& !(event.data matches ThreadEventData::ModelRequest(request) && request.kind
                is Response) ==> (said.len() == 1 <==> view is Some) && (said.len() == 0 <==> view
                is None) && (view matches Some(item) ==> said[0] == item)
        }),
{
}

/// Places are counted in words: first, second and third have endings of their own, also
/// after a ten, but not between eleven and thirteen. The first is the most recent.
pub proof fn law_places_are_counted_in_words(tens: int, unit: int)
    requires
        0 <= tens,
        0 <= unit <= 9,
    ensures
        ({
            let value = 10 * tens + unit;
            let text = ordinal_words(value);
            &&& crate::text::has_prefix(text, decimal(value))
            &&& tens % 10 == 1 ==> text == decimal(value) + "th"@
            &&& tens % 10 != 1 && unit == 1 ==> text == decimal(value) + "st"@
            &&& tens % 10 != 1 && unit == 2 ==> text == decimal(value) + "nd"@
            &&& tens % 10 != 1 && unit == 3 ==> text == decimal(value) + "rd"@
            &&& unit == 0 || unit > 3 ==> text == decimal(value) + "th"@
            &&& value != 1 ==> recency_words(value) == text + " most recent"@
        }),
        recency_words(1) == "Most recent"@,
{
    let value = 10 * tens + unit;
    let text = ordinal_words(value);
    assert(text.take(decimal(value).len() as int) =~= decimal(value));
    let hundreds = tens / 10;
    let rest = tens % 10;
    assert(tens == 10 * hundreds + rest && 0 <= rest <= 9);
    lemma_last_digits(value, tens, unit, hundreds, rest);
}

proof fn lemma_last_digits(value: int, tens: int, unit: int, hundreds: int, rest: int)
    by (nonlinear_arith)
    requires
        value == 10 * tens + unit,
        tens == 10 * hundreds + rest,
        0 <= unit <= 9,
        0 <= rest <= 9,
    ensures
        value % 10 == unit,
        value % 100 == 10 * rest + unit,
{
}

/// A skill that the user invoked is given with its name, its path and what it says.
pub proof fn law_invoked_skill_is_given_whole(invocation: SkillInvocationEvent)
    ensures
        crate::text::holds_part(skill_words(invocation), invocation.instructions@),
        crate::text::holds_part(
            skill_words(invocation),
            "<skill name=\""@ + invocation.name@ + "\" path=\""@ + invocation.path@ + "\">"@,
        ),
{
    reveal_strlit(".\n\n<skill name=\"");
    reveal_strlit(".\n\n");
    reveal_strlit("<skill name=\"");
    reveal_strlit("\">\n<instructions>\n");
    reveal_strlit("\">");
    reveal_strlit("\n<instructions>\n");
    let start =
        "The user explicitly invoked the following skill for this request. Follow its instructions and resolve relative references against the directory containing "@
        + invocation.path@;
    let opening = ".\n\n<skill name=\""@;
    let end = "\n</instructions>\n</skill>"@;
    assert(opening =~= ".\n\n"@ + "<skill name=\""@);
    let head = start + opening + invocation.name@ + "\" path=\""@ + invocation.path@
        + "\">\n<instructions>\n"@;
    assert(skill_words(invocation) =~= head + invocation.instructions@ + end);
    crate::text::lemma_holds_middle(head, invocation.instructions@, end);
    let tag = "<skill name=\""@ + invocation.name@ + "\" path=\""@ + invocation.path@ + "\">"@;
    let before = start + ".\n\n"@;
    let after = "\n<instructions>\n"@ + invocation.instructions@ + end;
    assert("\">\n<instructions>\n"@ =~= "\">"@ + "\n<instructions>\n"@);
    assert(skill_words(invocation) =~= before + tag + after);
    crate::text::lemma_holds_middle(before, tag, after);
}

} // verus!
