//! What the public is shown of a turn while it runs.
use crate::agent::report::TurnPhase;
use crate::event::{AssistantMessagePhase, ThreadEventData, ToolCallEvent, ToolResultEvent};
use crate::json::{json_option, Json, JsonView};
use crate::model::{ModelStreamEvent, UpdateView};
use crate::text::{same_text, view_option};
use vstd::prelude::*;

verus! {

/// A part of a turn that is not finished yet.
#[allow(inconsistent_fields)]
#[derive(Debug, PartialEq)]
pub enum ItemData {
    Assistant { content: String, phase: AssistantMessagePhase },
    Reasoning { content: String },
    WebSearch { item_id: String, action: Option<Json> },
    ToolCall { item_id: String, call_id: Option<String>, name: String, input: String },
    RunnerTool { call_id: String, operation_index: usize, runner: String, update: Json },
}

/// What an [`ItemData`] stands for.
#[allow(inconsistent_fields)]
pub enum ItemDataView {
    Assistant { content: Seq<char>, phase: AssistantMessagePhase },
    Reasoning { content: Seq<char> },
    WebSearch { item_id: Seq<char>, action: Option<JsonView> },
    ToolCall { item_id: Seq<char>, call_id: Option<Seq<char>>, name: Seq<char>, input: Seq<char> },
    RunnerTool {
        call_id: Seq<char>,
        operation_index: usize,
        runner: Seq<char>,
        update: JsonView,
    },
}

impl View for ItemData {
    type V = ItemDataView;

    open spec fn view(&self) -> ItemDataView {
        match self {
            ItemData::Assistant { content, phase } => ItemDataView::Assistant {
                content: content@,
                phase: *phase,
            },
            ItemData::Reasoning { content } => ItemDataView::Reasoning { content: content@ },
            ItemData::WebSearch { item_id, action } => ItemDataView::WebSearch {
                item_id: item_id@,
                action: json_option(*action),
            },
            ItemData::ToolCall { item_id, call_id, name, input } => ItemDataView::ToolCall {
                item_id: item_id@,
                call_id: view_option(*call_id),
                name: name@,
                input: input@,
            },
            ItemData::RunnerTool { call_id, operation_index, runner, update } => {
                ItemDataView::RunnerTool {
                    call_id: call_id@,
                    operation_index: *operation_index,
                    runner: runner@,
                    update: update@,
                }
            },
        }
    }
}

/// A change of what is shown, or what must be done first. The changes are made in
/// order; the first that fails ends the update with its error.
#[allow(inconsistent_fields)]
#[derive(Debug, PartialEq)]
pub enum ThreadOperation {
    /// The retry is stored as an event of the thread.
    RetryPersisted { summary: String, current: u64, max: u64 },
    RetryScheduled { summary: String, current: u64, max: u64 },
    PhaseChanged { phase: TurnPhase },
    ActiveItemAdded { id: u64, data: ItemData },
    ActiveAssistantAppended { id: u64, content: String, phase: AssistantMessagePhase },
    ActiveTextAppended { id: u64, content: String },
    ActiveWebSearchUpdated { id: u64, action: Option<Json> },
    ActiveRunnerUpdated { id: u64, update: Json },
    ActiveRunnerOutputAppended { id: u64, content: String, omitted_bytes: usize, timer: Json },
}

/// What a [`ThreadOperation`] stands for.
#[allow(inconsistent_fields)]
pub enum OperationView {
    RetryPersisted { summary: Seq<char>, current: u64, max: u64 },
    RetryScheduled { summary: Seq<char>, current: u64, max: u64 },
    PhaseChanged { phase: TurnPhase },
    ActiveItemAdded { id: u64, data: ItemDataView },
    ActiveAssistantAppended { id: u64, content: Seq<char>, phase: AssistantMessagePhase },
    ActiveTextAppended { id: u64, content: Seq<char> },
    ActiveWebSearchUpdated { id: u64, action: Option<JsonView> },
    ActiveRunnerUpdated { id: u64, update: JsonView },
    ActiveRunnerOutputAppended {
        id: u64,
        content: Seq<char>,
        omitted_bytes: usize,
        timer: JsonView,
    },
}

impl View for ThreadOperation {
    type V = OperationView;

    open spec fn view(&self) -> OperationView {
        match self {
            ThreadOperation::RetryPersisted { summary, current, max } => {
                OperationView::RetryPersisted { summary: summary@, current: *current, max: *max }
            },
            ThreadOperation::RetryScheduled { summary, current, max } => {
                OperationView::RetryScheduled { summary: summary@, current: *current, max: *max }
            },
            ThreadOperation::PhaseChanged { phase } => OperationView::PhaseChanged {
                phase: *phase,
            },
            ThreadOperation::ActiveItemAdded { id, data } => OperationView::ActiveItemAdded {
                id: *id,
                data: data@,
            },
            ThreadOperation::ActiveAssistantAppended { id, content, phase } => {
                OperationView::ActiveAssistantAppended { id: *id, content: content@, phase: *phase }
            },
            ThreadOperation::ActiveTextAppended { id, content } => {
                OperationView::ActiveTextAppended { id: *id, content: content@ }
            },
            ThreadOperation::ActiveWebSearchUpdated { id, action } => {
                OperationView::ActiveWebSearchUpdated { id: *id, action: json_option(*action) }
            },
            ThreadOperation::ActiveRunnerUpdated { id, update } => {
                OperationView::ActiveRunnerUpdated { id: *id, update: update@ }
            },
            ThreadOperation::ActiveRunnerOutputAppended { id, content, omitted_bytes, timer } => {
                OperationView::ActiveRunnerOutputAppended {
                    id: *id,
                    content: content@,
                    omitted_bytes: *omitted_bytes,
                    timer: timer@,
                }
            },
        }
    }
}

/// What operations stand for.
pub open spec fn operation_views(operations: Seq<ThreadOperation>) -> Seq<OperationView> {
    Seq::new(operations.len(), |i: int| operations[i]@)
}

/// Why an update cannot be shown.
#[derive(Clone, Copy, Debug, PartialEq, Eq, Structural)]
pub enum ProjectionError {
    DeltaBeforeStart,
    OutputBeforeStart,
}

impl ProjectionError {
    /// What the user is told.
    pub open spec fn words(self) -> Seq<char> {
        match self {
            ProjectionError::DeltaBeforeStart => {
                "tool call delta arrived before tool call start"@
            },
            ProjectionError::OutputBeforeStart => {
                "Runner output arrived before the operation started"@
            },
        }
    }

    /// What the user is told.
    pub fn message(&self) -> (text: String)
        ensures
            text@ == self.words(),
    {
        match self {
            ProjectionError::DeltaBeforeStart => {
                "tool call delta arrived before tool call start".to_owned()
            },
            ProjectionError::OutputBeforeStart => {
                "Runner output arrived before the operation started".to_owned()
            },
        }
    }
}

/// What the names of items stand for.
pub open spec fn name_views(names: Seq<(String, u64)>) -> Seq<(Seq<char>, u64)> {
    Seq::new(names.len(), |i: int| (names[i].0@, names[i].1))
}

/// What the operations on runners stand for.
pub open spec fn tool_views(tools: Seq<(String, usize, u64)>) -> Seq<(Seq<char>, usize, u64)> {
    Seq::new(tools.len(), |i: int| (tools[i].0@, tools[i].1, tools[i].2))
}

/// Where a name stands.
pub open spec fn place(names: Seq<(Seq<char>, u64)>, name: Seq<char>, from: nat) -> Option<int>
    decreases names.len() - from,
{
    if from >= names.len() {
        None
    } else if names[from as int].0 == name {
        Some(from as int)
    } else {
        place(names, name, from + 1)
    }
}

/// The item that has a name.
pub open spec fn item_named(names: Seq<(Seq<char>, u64)>, name: Seq<char>) -> Option<u64> {
    match place(names, name, 0) {
        Some(at) => Some(names[at].1),
        None => None,
    }
}

/// The names with one given to an item.
pub open spec fn with_name(names: Seq<(Seq<char>, u64)>, name: Seq<char>, id: u64) -> Seq<
    (Seq<char>, u64),
> {
    match place(names, name, 0) {
        Some(at) => names.update(at, (name, id)),
        None => names.push((name, id)),
    }
}

/// The names without one.
pub open spec fn without_name(names: Seq<(Seq<char>, u64)>, name: Seq<char>) -> Seq<
    (Seq<char>, u64),
> {
    match place(names, name, 0) {
        Some(at) => names.remove(at),
        None => names,
    }
}

/// The first `count` names without those of an item.
pub open spec fn without_item(names: Seq<(Seq<char>, u64)>, id: u64, count: nat) -> Seq<
    (Seq<char>, u64),
>
    decreases count,
{
    if count == 0 {
        Seq::empty()
    } else {
        let before = without_item(names, id, (count - 1) as nat);
        if names[count - 1].1 == id {
            before
        } else {
            before.push(names[count - 1])
        }
    }
}

/// The item of an operation on a runner.
pub open spec fn item_of_tool(
    tools: Seq<(Seq<char>, usize, u64)>,
    call_id: Seq<char>,
    index: usize,
    from: nat,
) -> Option<u64>
    decreases tools.len() - from,
{
    if from >= tools.len() {
        None
    } else if tools[from as int].0 == call_id && tools[from as int].1 == index {
        Some(tools[from as int].2)
    } else {
        item_of_tool(tools, call_id, index, from + 1)
    }
}

/// The items among the first `count` operations that belong to a call.
pub open spec fn items_of_call(
    tools: Seq<(Seq<char>, usize, u64)>,
    call_id: Seq<char>,
    count: nat,
) -> Seq<u64>
    decreases count,
{
    if count == 0 {
        Seq::empty()
    } else {
        let before = items_of_call(tools, call_id, (count - 1) as nat);
        if tools[count - 1].0 == call_id {
            before.push(tools[count - 1].2)
        } else {
            before
        }
    }
}

/// The first `count` operations without those of a call.
pub open spec fn without_call(
    tools: Seq<(Seq<char>, usize, u64)>,
    call_id: Seq<char>,
    count: nat,
) -> Seq<(Seq<char>, usize, u64)>
    decreases count,
{
    if count == 0 {
        Seq::empty()
    } else {
        let before = without_call(tools, call_id, (count - 1) as nat);
        if tools[count - 1].0 == call_id {
            before
        } else {
            before.push(tools[count - 1])
        }
    }
}

/// The items of a turn that are shown, by what the model calls them.
#[derive(Debug)]
pub struct TurnProjection {
    pub next_id: u64,
    pub assistant: Option<u64>,
    pub reasoning: Option<u64>,
    pub web_searches: Vec<(String, u64)>,
    pub tool_calls: Vec<(String, u64)>,
    pub runner_tools: Vec<(String, usize, u64)>,
    pub retrying: bool,
}

/// What a [`TurnProjection`] stands for.
pub struct ProjectionView {
    pub next_id: u64,
    pub assistant: Option<u64>,
    pub reasoning: Option<u64>,
    pub web_searches: Seq<(Seq<char>, u64)>,
    pub tool_calls: Seq<(Seq<char>, u64)>,
    pub runner_tools: Seq<(Seq<char>, usize, u64)>,
    pub retrying: bool,
}

impl View for TurnProjection {
    type V = ProjectionView;

    open spec fn view(&self) -> ProjectionView {
        ProjectionView {
            next_id: self.next_id,
            assistant: self.assistant,
            reasoning: self.reasoning,
            web_searches: name_views(self.web_searches@),
            tool_calls: name_views(self.tool_calls@),
            runner_tools: tool_views(self.runner_tools@),
            retrying: self.retrying,
        }
    }
}

/// How an event that is stored changes what is shown.
#[derive(Debug, PartialEq)]
pub enum Finalization {
    /// The event takes the place of an item.
    Item { active_id: u64 },
    /// The event takes the place of operations on runners.
    ToolResult { runner_ids: Vec<u64> },
    /// The event is added.
    Append,
}

/// What a [`Finalization`] stands for.
pub enum FinalizationView {
    Item { active_id: u64 },
    ToolResult { runner_ids: Seq<u64> },
    Append,
}

impl View for Finalization {
    type V = FinalizationView;

    open spec fn view(&self) -> FinalizationView {
        match self {
            Finalization::Item { active_id } => FinalizationView::Item { active_id: *active_id },
            Finalization::ToolResult { runner_ids } => FinalizationView::ToolResult {
                runner_ids: runner_ids@,
            },
            Finalization::Append => FinalizationView::Append,
        }
    }
}

impl ProjectionView {
    /// The number of the next item.
    pub open spec fn fresh(self) -> u64 {
        (self.next_id + 1) as u64
    }

    /// One item more.
    pub open spec fn counted(self) -> ProjectionView {
        ProjectionView { next_id: self.fresh(), ..self }
    }

    /// The turn runs again after a retry.
    pub open spec fn running(self) -> ProjectionView {
        ProjectionView { retrying: false, ..self }
    }

    /// What is shown first: that the turn runs again after a retry.
    pub open spec fn restored(self) -> Seq<OperationView> {
        if self.retrying {
            Seq::empty().push(OperationView::PhaseChanged { phase: TurnPhase::Running })
        } else {
            Seq::empty()
        }
    }

    /// What an update changes, and how.
    pub open spec fn updated(self, update: UpdateView) -> Result<
        (ProjectionView, Seq<OperationView>),
        ProjectionError,
    > {
        let first = self.restored();
        let running = self.running();
        match update {
            UpdateView::Retry { summary, current, max } => Ok(
                (
                    ProjectionView { retrying: true, ..self },
                    Seq::empty().push(OperationView::RetryPersisted { summary, current, max }).push(
                        OperationView::RetryScheduled { summary, current, max },
                    ),
                ),
            ),
            UpdateView::AssistantDelta { content, phase } => match self.assistant {
                Some(id) => Ok(
                    (
                        running,
                        first.push(OperationView::ActiveAssistantAppended { id, content, phase }),
                    ),
                ),
                None => Ok(
                    (
                        ProjectionView { assistant: Some(self.fresh()), ..running.counted() },
                        first.push(
                            OperationView::ActiveItemAdded {
                                id: self.fresh(),
                                data: ItemDataView::Assistant { content, phase },
                            },
                        ),
                    ),
                ),
            },
            UpdateView::ReasoningSummaryDelta(content) => match self.reasoning {
                Some(id) => Ok(
                    (running, first.push(OperationView::ActiveTextAppended { id, content })),
                ),
                None => Ok(
                    (
                        ProjectionView { reasoning: Some(self.fresh()), ..running.counted() },
                        first.push(
                            OperationView::ActiveItemAdded {
                                id: self.fresh(),
                                data: ItemDataView::Reasoning { content },
                            },
                        ),
                    ),
                ),
            },
            UpdateView::ReasoningSummaryPartAdded => Ok(
                (
                    self,
                    match self.reasoning {
                        Some(id) => Seq::empty().push(
                            OperationView::ActiveTextAppended { id, content: "\n"@ },
                        ),
                        None => Seq::empty(),
                    },
                ),
            ),
            UpdateView::WebSearchUpdate { item_id, action } => match item_named(
                self.web_searches,
                item_id,
            ) {
                Some(id) => Ok(
                    (running, first.push(OperationView::ActiveWebSearchUpdated { id, action })),
                ),
                None => Ok(
                    (
                        ProjectionView {
                            web_searches: with_name(self.web_searches, item_id, self.fresh()),
                            ..running.counted()
                        },
                        first.push(
                            OperationView::ActiveItemAdded {
                                id: self.fresh(),
                                data: ItemDataView::WebSearch { item_id, action },
                            },
                        ),
                    ),
                ),
            },
            UpdateView::ToolCallStarted { item_id, call_id, name } => {
                let named = with_name(self.tool_calls, item_id, self.fresh());
                Ok(
                    (
                        ProjectionView {
                            tool_calls: match call_id {
                                Some(call_id) => with_name(named, call_id, self.fresh()),
                                None => named,
                            },
                            ..running.counted()
                        },
                        first.push(
                            OperationView::ActiveItemAdded {
                                id: self.fresh(),
                                data: ItemDataView::ToolCall {
                                    item_id,
                                    call_id,
                                    name,
                                    input: Seq::empty(),
                                },
                            },
                        ),
                    ),
                )
            },
            UpdateView::ToolCallDelta { item_id, delta } => match item_named(
                self.tool_calls,
                item_id,
            ) {
                Some(id) => Ok(
                    (
                        self,
                        Seq::empty().push(
                            OperationView::ActiveTextAppended { id, content: delta },
                        ),
                    ),
                ),
                None => Err(ProjectionError::DeltaBeforeStart),
            },
            UpdateView::RunnerOperationUpdate { call_id, operation_index, runner, update } => {
                match item_of_tool(self.runner_tools, call_id, operation_index, 0) {
                    Some(id) => Ok(
                        (
                            self,
                            Seq::empty().push(OperationView::ActiveRunnerUpdated { id, update }),
                        ),
                    ),
                    None => Ok(
                        (
                            ProjectionView {
                                runner_tools: self.runner_tools.push(
                                    (call_id, operation_index, self.fresh()),
                                ),
                                ..self.counted()
                            },
                            Seq::empty().push(
                                OperationView::ActiveItemAdded {
                                    id: self.fresh(),
                                    data: ItemDataView::RunnerTool {
                                        call_id,
                                        operation_index,
                                        runner,
                                        update,
                                    },
                                },
                            ),
                        ),
                    ),
                }
            },
            UpdateView::RunnerOperationOutput {
                call_id,
                operation_index,
                content,
                omitted_bytes,
                timer,
            } => match item_of_tool(self.runner_tools, call_id, operation_index, 0) {
                Some(id) => Ok(
                    (
                        self,
                        Seq::empty().push(
                            OperationView::ActiveRunnerOutputAppended {
                                id,
                                content,
                                omitted_bytes,
                                timer,
                            },
                        ),
                    ),
                ),
                None => Err(ProjectionError::OutputBeforeStart),
            },
        }
    }

    /// The projection without a tool call, and the item that it was.
    pub open spec fn call_finished(self, key: Option<Seq<char>>) -> (ProjectionView, Option<u64>) {
        match key {
            Some(key) => match item_named(self.tool_calls, key) {
                Some(id) => {
                    let left = without_name(self.tool_calls, key);
                    (
                        ProjectionView { tool_calls: without_item(left, id, left.len()), ..self },
                        Some(id),
                    )
                },
                None => (self, None),
            },
            None => (self, None),
        }
    }

    /// The projection without a web search, and the item that it was. Where the
    /// search has no known name, the oldest one is taken.
    pub open spec fn search_finished(self, item: JsonView) -> (ProjectionView, Option<u64>) {
        let named = match item.get("id"@) {
            Some(id) => match id.as_str() {
                Some(id) => item_named(self.web_searches, id),
                None => None,
            },
            None => None,
        };
        match named {
            Some(id) => (
                ProjectionView {
                    web_searches: without_name(
                        self.web_searches,
                        item.get("id"@)->0.as_str()->0,
                    ),
                    ..self
                },
                Some(id),
            ),
            None => if self.web_searches.len() > 0 {
                (
                    ProjectionView { web_searches: self.web_searches.remove(0), ..self },
                    Some(self.web_searches[0].1),
                )
            } else {
                (self, None)
            },
        }
    }

    /// What a stored event changes, and how.
    pub open spec fn finalized(self, data: ThreadEventData) -> (ProjectionView, FinalizationView) {
        match data {
            ThreadEventData::AssistantMessage { content: _, phase: _ } => (
                ProjectionView { assistant: None, ..self },
                item_finalized(self.assistant),
            ),
            ThreadEventData::Reasoning { summary: _, opaque: _ } => (
                ProjectionView { reasoning: None, ..self },
                item_finalized(self.reasoning),
            ),
            ThreadEventData::WebSearch { item } => {
                let (after, id) = self.search_finished(item@);
                (after, item_finalized(id))
            },
            ThreadEventData::ToolCall(call) => {
                let (after, id) = self.call_finished(call_key(call));
                (after, item_finalized(id))
            },
            ThreadEventData::ToolResult(result) => {
                let ids = items_of_call(
                    self.runner_tools,
                    answered_call(result),
                    self.runner_tools.len(),
                );
                (
                    ProjectionView {
                        runner_tools: without_call(
                            self.runner_tools,
                            answered_call(result),
                            self.runner_tools.len(),
                        ),
                        ..self
                    },
                    if ids.len() > 0 {
                        FinalizationView::ToolResult { runner_ids: ids }
                    } else {
                        FinalizationView::Append
                    },
                )
            },
            _ => (self, FinalizationView::Append),
        }
    }

    /// What holds of every projection: items have numbers that were given out.
    pub open spec fn well_formed(self) -> bool {
        &&& self.assistant matches Some(id) ==> 0 < id <= self.next_id
        &&& self.reasoning matches Some(id) ==> 0 < id <= self.next_id
        &&& forall|i: int|
            0 <= i < self.web_searches.len() ==> 0 < (#[trigger] self.web_searches[i]).1
                <= self.next_id
        &&& forall|i: int|
            0 <= i < self.tool_calls.len() ==> 0 < (#[trigger] self.tool_calls[i]).1
                <= self.next_id
        &&& forall|i: int|
            0 <= i < self.runner_tools.len() ==> 0 < (#[trigger] self.runner_tools[i]).2
                <= self.next_id
    }
}

/// An event in the place of an item, where there is one.
pub open spec fn item_finalized(id: Option<u64>) -> FinalizationView {
    match id {
        Some(active_id) => FinalizationView::Item { active_id },
        None => FinalizationView::Append,
    }
}

/// By what a call is found among the items.
pub open spec fn call_key(call: ToolCallEvent) -> Option<Seq<char>> {
    match call {
        ToolCallEvent::Custom { item_id, name: _, input: _, call_id: _ } => view_option(item_id),
        ToolCallEvent::Function { name: _, arguments: _, call_id } => Some(call_id@),
    }
}

/// The call that a result answers.
pub open spec fn answered_call(result: ToolResultEvent) -> Seq<char> {
    match result {
        ToolResultEvent::Custom { call_id, name: _, result: _, artifacts: _, masked_result: _ } => call_id@,
        ToolResultEvent::Function { call_id, name: _, result: _, artifacts: _, masked_result: _ } => call_id@,
    }
}

proof fn lemma_place(names: Seq<(Seq<char>, u64)>, name: Seq<char>, from: nat)
    ensures
        match place(names, name, from) {
            Some(at) => from <= at < names.len() && names[at].0 == name,
            None => forall|i: int| from <= i < names.len() ==> (#[trigger] names[i]).0 != name,
        },
    decreases names.len() - from,
{
    if from < names.len() && names[from as int].0 != name {
        lemma_place(names, name, from + 1);
    }
}

proof fn lemma_without_item(names: Seq<(Seq<char>, u64)>, id: u64, count: nat)
    requires
        count <= names.len(),
    ensures
        forall|i: int|
            0 <= i < without_item(names, id, count).len() ==> (#[trigger] without_item(
                names,
                id,
                count,
            )[i]).1 != id,
    decreases count,
{
    if count > 0 {
        lemma_without_item(names, id, (count - 1) as nat);
        let before = without_item(names, id, (count - 1) as nat);
        let after = without_item(names, id, count);
        assert forall|i: int| 0 <= i < after.len() implies (#[trigger] after[i]).1 != id by {
            if i < before.len() {
                assert(after[i] == before[i]);
            }
        }
    }
}

/// Once a tool call is finished, no name leads to its item any more.
pub proof fn law_finished_call_is_gone(state: ProjectionView, key: Option<Seq<char>>, name: Seq<char>)
    ensures
        match state.call_finished(key) {
            (after, Some(id)) => item_named(after.tool_calls, name) != Some(id),
            (after, None) => after == state,
        },
{
    match key {
        Some(key) => match item_named(state.tool_calls, key) {
            Some(id) => {
                let left = without_name(state.tool_calls, key);
                lemma_without_item(left, id, left.len());
                let after = without_item(left, id, left.len());
                lemma_place(after, name, 0);
            },
            None => {},
        },
        None => {},
    }
}

/// Items keep numbers that were given out, and a new item has one that no item
/// had before.
pub proof fn law_items_have_fresh_numbers(state: ProjectionView, update: UpdateView)
    requires
        state.well_formed(),
        state.next_id < u64::MAX,
    ensures
        match state.updated(update) {
            Ok((after, _)) => after.well_formed() && (after.next_id == state.next_id
                || after.next_id == state.next_id + 1),
            Err(_) => true,
        },
{
    match update {
        UpdateView::WebSearchUpdate { item_id, action } => {
            lemma_place(state.web_searches, item_id, 0);
        },
        UpdateView::ToolCallStarted { item_id, call_id, name } => {
            let named = with_name(state.tool_calls, item_id, state.fresh());
            lemma_place(state.tool_calls, item_id, 0);
            if call_id is Some {
                lemma_place(named, call_id->0, 0);
            }
        },
        _ => {},
    }
}

fn find_name(names: &Vec<(String, u64)>, name: &str) -> (found: Option<usize>)
    ensures
        match found {
            Some(at) => at < names.len() && place(name_views(names@), name@, 0) == Some(at as int),
            None => place(name_views(names@), name@, 0) is None,
        },
{
    let ghost all = name_views(names@);
    let mut i: usize = 0;
    while i < names.len()
        invariant
            i <= names.len(),
            all == name_views(names@),
            place(all, name@, 0) == place(all, name@, i as nat),
        decreases names.len() - i,
    {
        assert(all[i as int].0 == names[i as int].0@);
        if same_text(names[i].0.as_str(), name) {
            return Some(i);
        }
        i += 1;
    }
    None
}

fn named_item(names: &Vec<(String, u64)>, name: &str) -> (id: Option<u64>)
    ensures
        id == item_named(name_views(names@), name@),
{
    match find_name(names, name) {
        Some(at) => Some(names[at].1),
        None => None,
    }
}

fn give_name(names: &mut Vec<(String, u64)>, name: &str, id: u64)
    ensures
        name_views(final(names)@) == with_name(name_views(old(names)@), name@, id),
{
    let ghost before = name_views(names@);
    match find_name(names, name) {
        Some(at) => {
            names.set(at, (name.to_owned(), id));
            assert(name_views(names@) =~= before.update(at as int, (name@, id)));
        },
        None => {
            names.push((name.to_owned(), id));
            assert(name_views(names@) =~= before.push((name@, id)));
        },
    }
}

fn take_name(names: &mut Vec<(String, u64)>, at: usize) -> (id: u64)
    requires
        at < old(names).len(),
    ensures
        id == old(names)[at as int].1,
        name_views(final(names)@) == name_views(old(names)@).remove(at as int),
{
    let ghost before = name_views(names@);
    let (_, id) = names.remove(at);
    assert(name_views(names@) =~= before.remove(at as int));
    id
}

fn drop_item(names: &mut Vec<(String, u64)>, id: u64)
    ensures
        name_views(final(names)@) == without_item(
            name_views(old(names)@),
            id,
            name_views(old(names)@).len(),
        ),
{
    let ghost all = name_views(names@);
    let mut kept: Vec<(String, u64)> = Vec::new();
    let mut i: usize = 0;
    assert(name_views(kept@) =~= Seq::empty());
    while i < names.len()
        invariant
            i <= names.len(),
            all == name_views(names@),
            *names == *old(names),
            name_views(kept@) == without_item(all, id, i as nat),
        decreases names.len() - i,
    {
        if names[i].1 != id {
            let ghost before = name_views(kept@);
            kept.push((names[i].0.clone(), names[i].1));
            assert(name_views(kept@) =~= before.push(all[i as int]));
        }
        i += 1;
    }
    *names = kept;
}

impl TurnProjection {
    /// Nothing is shown yet.
    pub fn new() -> (projection: Self)
        ensures
            projection@ == (ProjectionView {
                next_id: 0,
                assistant: None,
                reasoning: None,
                web_searches: Seq::empty(),
                tool_calls: Seq::empty(),
                runner_tools: Seq::empty(),
                retrying: false,
            }),
            projection@.well_formed(),
    {
        let projection = TurnProjection {
            next_id: 0,
            assistant: None,
            reasoning: None,
            web_searches: Vec::new(),
            tool_calls: Vec::new(),
            runner_tools: Vec::new(),
            retrying: false,
        };
        assert(name_views(projection.web_searches@) =~= Seq::empty());
        assert(name_views(projection.tool_calls@) =~= Seq::empty());
        assert(tool_views(projection.runner_tools@) =~= Seq::empty());
        projection
    }

    /// The number of a new item.
    pub fn id(&mut self) -> (id: u64)
        requires
            old(self)@.next_id < u64::MAX,
        ensures
            id == old(self)@.fresh(),
            final(self)@ == old(self)@.counted(),
    {
        self.next_id = self.next_id + 1;
        self.next_id
    }

    /// What the start of another part of the reasoning changes.
    pub fn reasoning_part_added(&self) -> (operation: Option<ThreadOperation>)
        ensures
            match (operation, self@.reasoning) {
                (Some(operation), Some(id)) => operation@ == (OperationView::ActiveTextAppended {
                    id,
                    content: "\n"@,
                }),
                (None, None) => true,
                _ => false,
            },
    {
        match self.reasoning {
            Some(id) => Some(
                ThreadOperation::ActiveTextAppended { id, content: "\n".to_owned() },
            ),
            None => None,
        }
    }

    /// Takes a tool call away under all its names.
    pub fn finish_tool_call(&mut self, key: Option<&str>) -> (id: Option<u64>)
        ensures
            (final(self)@, id) == old(self)@.call_finished(
                match key {
                    Some(key) => Some(key@),
                    None => None,
                },
            ),
    {
        match key {
            None => None,
            Some(key) => match find_name(&self.tool_calls, key) {
                None => None,
                Some(at) => {
                    let id = take_name(&mut self.tool_calls, at);
                    drop_item(&mut self.tool_calls, id);
                    Some(id)
                },
            },
        }
    }

    fn restore(&mut self) -> (operations: Vec<ThreadOperation>)
        ensures
            final(self)@ == old(self)@.running(),
            operation_views(operations@) == old(self)@.restored(),
    {
        let mut operations: Vec<ThreadOperation> = Vec::new();
        if self.retrying {
            operations.push(ThreadOperation::PhaseChanged { phase: TurnPhase::Running });
            self.retrying = false;
        }
        assert(operation_views(operations@) =~= old(self)@.restored());
        operations
    }

    fn find_tool(&self, call_id: &str, index: usize) -> (id: Option<u64>)
        ensures
            id == item_of_tool(self@.runner_tools, call_id@, index, 0),
    {
        let mut i: usize = 0;
        while i < self.runner_tools.len()
            invariant
                i <= self.runner_tools.len(),
                item_of_tool(self@.runner_tools, call_id@, index, 0) == item_of_tool(
                    self@.runner_tools,
                    call_id@,
                    index,
                    i as nat,
                ),
            decreases self.runner_tools.len() - i,
        {
            assert(self@.runner_tools[i as int].0 == self.runner_tools[i as int].0@);
            if self.runner_tools[i].1 == index && same_text(
                self.runner_tools[i].0.as_str(),
                call_id,
            ) {
                return Some(self.runner_tools[i].2);
            }
            i += 1;
        }
        None
    }

    /// Takes in an update of the model or of a runner: the changes of what is
    /// shown, in order.
    pub fn apply_update(&mut self, update: ModelStreamEvent) -> (result: Result<
        Vec<ThreadOperation>,
        ProjectionError,
    >)
        requires
            old(self)@.next_id < u64::MAX,
        ensures
            match (result, old(self)@.updated(update@)) {
                (Ok(operations), Ok((after, expected))) => final(self)@ == after
                    && operation_views(operations@) == expected,
                (Err(error), Err(expected)) => error == expected && final(self)@ == old(self)@,
                _ => false,
            },
    {
        match update {
            ModelStreamEvent::Retry { summary, current, max } => {
                self.retrying = true;
                let mut operations = single(
                    ThreadOperation::RetryPersisted { summary: summary.clone(), current, max },
                );
                extend(
                    &mut operations,
                    ThreadOperation::RetryScheduled { summary, current, max },
                );
                Ok(operations)
            },
            ModelStreamEvent::AssistantDelta { content, phase } => {
                let mut operations = self.restore();
                match self.assistant {
                    Some(id) => {
                        extend(
                            &mut operations,
                            ThreadOperation::ActiveAssistantAppended { id, content, phase },
                        );
                    },
                    None => {
                        let id = self.id();
                        self.assistant = Some(id);
                        extend(
                            &mut operations,
                            ThreadOperation::ActiveItemAdded {
                                id,
                                data: ItemData::Assistant { content, phase },
                            },
                        );
                    },
                }
                Ok(operations)
            },
            ModelStreamEvent::ReasoningSummaryDelta(content) => {
                let mut operations = self.restore();
                match self.reasoning {
                    Some(id) => {
                        extend(
                            &mut operations,
                            ThreadOperation::ActiveTextAppended { id, content },
                        );
                    },
                    None => {
                        let id = self.id();
                        self.reasoning = Some(id);
                        extend(
                            &mut operations,
                            ThreadOperation::ActiveItemAdded {
                                id,
                                data: ItemData::Reasoning { content },
                            },
                        );
                    },
                }
                Ok(operations)
            },
            ModelStreamEvent::ReasoningSummaryPartAdded => match self.reasoning_part_added() {
                Some(operation) => Ok(single(operation)),
                None => {
                    let none: Vec<ThreadOperation> = Vec::new();
                    assert(operation_views(none@) =~= Seq::empty());
                    Ok(none)
                },
            },
            ModelStreamEvent::WebSearchUpdate { item_id, action } => {
                let mut operations = self.restore();
                match named_item(&self.web_searches, item_id.as_str()) {
                    Some(id) => {
                        extend(
                            &mut operations,
                            ThreadOperation::ActiveWebSearchUpdated { id, action },
                        );
                    },
                    None => {
                        let id = self.id();
                        give_name(&mut self.web_searches, item_id.as_str(), id);
                        extend(
                            &mut operations,
                            ThreadOperation::ActiveItemAdded {
                                id,
                                data: ItemData::WebSearch { item_id, action },
                            },
                        );
                    },
                }
                Ok(operations)
            },
            ModelStreamEvent::ToolCallStarted { item_id, call_id, name } => {
                let mut operations = self.restore();
                let id = self.id();
                give_name(&mut self.tool_calls, item_id.as_str(), id);
                match &call_id {
                    Some(call_id) => {
                        give_name(&mut self.tool_calls, call_id.as_str(), id);
                    },
                    None => {},
                }
                let input = String::new();
                assert(input@ =~= Seq::empty());
                extend(
                    &mut operations,
                    ThreadOperation::ActiveItemAdded {
                        id,
                        data: ItemData::ToolCall { item_id, call_id, name, input },
                    },
                );
                Ok(operations)
            },
            ModelStreamEvent::ToolCallDelta { item_id, delta } => match named_item(
                &self.tool_calls,
                item_id.as_str(),
            ) {
                Some(id) => Ok(single(ThreadOperation::ActiveTextAppended { id, content: delta })),
                None => Err(ProjectionError::DeltaBeforeStart),
            },
            ModelStreamEvent::RunnerOperationUpdate { call_id, operation_index, runner, update } => {
                match self.find_tool(call_id.as_str(), operation_index) {
                    Some(id) => Ok(single(ThreadOperation::ActiveRunnerUpdated { id, update })),
                    None => {
                        let id = self.id();
                        let ghost before = self@.runner_tools;
                        self.runner_tools.push((call_id.clone(), operation_index, id));
                        assert(self@.runner_tools =~= before.push(
                            (call_id@, operation_index, id),
                        ));
                        Ok(
                            single(
                                ThreadOperation::ActiveItemAdded {
                                    id,
                                    data: ItemData::RunnerTool {
                                        call_id,
                                        operation_index,
                                        runner,
                                        update,
                                    },
                                },
                            ),
                        )
                    },
                }
            },
            ModelStreamEvent::RunnerOperationOutput {
                call_id,
                operation_index,
                content,
                omitted_bytes,
                timer,
            } => match self.find_tool(call_id.as_str(), operation_index) {
                Some(id) => Ok(
                    single(
                        ThreadOperation::ActiveRunnerOutputAppended {
                            id,
                            content,
                            omitted_bytes,
                            timer,
                        },
                    ),
                ),
                None => Err(ProjectionError::OutputBeforeStart),
            },
        }
    }

    fn finish_search(&mut self, item: &Json) -> (id: Option<u64>)
        ensures
            (final(self)@, id) == old(self)@.search_finished(item@),
    {
        let named = match item.get("id") {
            Some(id) => match id.as_str() {
                Some(id) => find_name(&self.web_searches, id),
                None => None,
            },
            None => None,
        };
        match named {
            Some(at) => Some(take_name(&mut self.web_searches, at)),
            None => {
                if self.web_searches.len() > 0 {
                    Some(take_name(&mut self.web_searches, 0))
                } else {
                    None
                }
            },
        }
    }

    fn finish_runner_tools(&mut self, call_id: &str) -> (ids: Vec<u64>)
        ensures
            ids@ == items_of_call(
                old(self)@.runner_tools,
                call_id@,
                old(self)@.runner_tools.len(),
            ),
            final(self)@ == (ProjectionView {
                runner_tools: without_call(
                    old(self)@.runner_tools,
                    call_id@,
                    old(self)@.runner_tools.len(),
                ),
                ..old(self)@
            }),
    {
        let ghost all = self@.runner_tools;
        let mut ids: Vec<u64> = Vec::new();
        let mut kept: Vec<(String, usize, u64)> = Vec::new();
        let mut i: usize = 0;
        assert(tool_views(kept@) =~= Seq::empty());
        while i < self.runner_tools.len()
            invariant
                i <= self.runner_tools.len(),
                all == tool_views(self.runner_tools@),
                *self == *old(self),
                ids@ == items_of_call(all, call_id@, i as nat),
                tool_views(kept@) == without_call(all, call_id@, i as nat),
            decreases self.runner_tools.len() - i,
        {
            let entry = &self.runner_tools[i];
            assert(all[i as int].0 == entry.0@);
            if same_text(entry.0.as_str(), call_id) {
                ids.push(entry.2);
            } else {
                let ghost before = tool_views(kept@);
                kept.push((entry.0.clone(), entry.1, entry.2));
                assert(tool_views(kept@) =~= before.push(all[i as int]));
            }
            i += 1;
        }
        self.runner_tools = kept;
        ids
    }

    /// Takes in an event that is stored: what it takes the place of.
    pub fn project_final_event(&mut self, data: &ThreadEventData) -> (finalization: Finalization)
        ensures
            (final(self)@, finalization@) == old(self)@.finalized(*data),
    {
        let active = match data {
            ThreadEventData::AssistantMessage { .. } => {
                let id = self.assistant;
                self.assistant = None;
                id
            },
            ThreadEventData::Reasoning { .. } => {
                let id = self.reasoning;
                self.reasoning = None;
                id
            },
            ThreadEventData::WebSearch { item } => self.finish_search(item),
            ThreadEventData::ToolCall(call) => {
                let key = match call {
                    ToolCallEvent::Custom { item_id, .. } => match item_id {
                        Some(id) => Some(id.as_str()),
                        None => None,
                    },
                    ToolCallEvent::Function { call_id, .. } => Some(call_id.as_str()),
                };
                self.finish_tool_call(key)
            },
            ThreadEventData::ToolResult(result) => {
                let call_id = match result {
                    ToolResultEvent::Custom { call_id, .. } => call_id,
                    ToolResultEvent::Function { call_id, .. } => call_id,
                };
                let runner_ids = self.finish_runner_tools(call_id.as_str());
                if runner_ids.len() > 0 {
                    return Finalization::ToolResult { runner_ids };
                }
                None
            },
            _ => None,
        };
        match active {
            Some(active_id) => Finalization::Item { active_id },
            None => Finalization::Append,
        }
    }
}

fn single(operation: ThreadOperation) -> (operations: Vec<ThreadOperation>)
    ensures
        operation_views(operations@) == Seq::empty().push(operation@),
{
    let mut operations: Vec<ThreadOperation> = Vec::new();
    operations.push(operation);
    assert(operation_views(operations@) =~= Seq::empty().push(operation@));
    operations
}

fn extend(operations: &mut Vec<ThreadOperation>, operation: ThreadOperation)
    ensures
        operation_views(final(operations)@) == operation_views(old(operations)@).push(operation@),
{
    operations.push(operation);
    assert(operation_views(operations@) =~= operation_views(old(operations)@).push(operation@));
}

proof fn lemma_first_place(names: Seq<(Seq<char>, u64)>, name: Seq<char>, from: nat)
    ensures
        place(names, name, from) matches Some(at) ==> from <= at < names.len() && names[at].0
            == name && forall|k: int| from <= k < at ==> (#[trigger] names[k]).0 != name,
        place(names, name, from) is None ==> forall|k: int|
            from <= k < names.len() ==> (#[trigger] names[k]).0 != name,
    decreases names.len() - from,
{
    if from < names.len() && names[from as int].0 != name {
        lemma_first_place(names, name, from + 1);
    }
}

proof fn lemma_place_is(names: Seq<(Seq<char>, u64)>, name: Seq<char>, from: nat, at: int)
    requires
        from <= at < names.len(),
        names[at].0 == name,
        forall|k: int| from <= k < at ==> (#[trigger] names[k]).0 != name,
    ensures
        place(names, name, from) == Some(at),
    decreases at - from,
{
    if from < at {
        assert(names[from as int].0 != name);
        lemma_place_is(names, name, from + 1, at);
    }
}

/// An item that is given a name is found by it, and each other name finds what it
/// found before.
pub proof fn law_item_is_found_by_its_name(
    names: Seq<(Seq<char>, u64)>,
    name: Seq<char>,
    id: u64,
    other: Seq<char>,
)
    ensures
        item_named(with_name(names, name, id), name) == Some(id),
        other != name ==> item_named(with_name(names, name, id), other) == item_named(names, other),
{
    let after = with_name(names, name, id);
    lemma_first_place(names, name, 0);
    lemma_first_place(names, other, 0);
    lemma_first_place(after, other, 0);
    match place(names, name, 0) {
        Some(at) => {
            lemma_place_is(after, name, 0, at);
        },
        None => {
            lemma_place_is(after, name, 0, names.len() as int);
        },
    }
    if other != name {
        match place(names, other, 0) {
            Some(at) => {
                lemma_place_is(after, other, 0, at);
            },
            None => {
                if let Some(at) = place(after, other, 0) {
                    if at < names.len() {
                        assert(names[at].0 != other);
                    }
                }
            },
        }
    }
}

/// What the model says, thinks or searches is shown as it comes: the first piece as a
/// new item, each later piece at the end of that item. After a retry the thread is
/// first shown as running again.
pub proof fn law_pieces_are_shown(state: ProjectionView, update: UpdateView)
    requires
        state.next_id < u64::MAX,
    ensures
        ({
            let result = state.updated(update);
            let (after, shown) = result->Ok_0;
            let last = shown.last();
            let resumes = update is AssistantDelta || update is ReasoningSummaryDelta || update
                is WebSearchUpdate || update is ToolCallStarted;
            &&& resumes ==> {
                &&& result is Ok
                &&& !after.retrying
                &&& shown.len() == 1 + if state.retrying {
                    1int
                } else {
                    0
                }
                &&& state.retrying ==> shown[0] == (OperationView::PhaseChanged {
                    phase: TurnPhase::Running,
                })
            }
            &&& update matches UpdateView::AssistantDelta { content, phase } ==> {
                &&& state.assistant is None ==> (last matches OperationView::ActiveItemAdded {
                    id,
                    data: ItemDataView::Assistant { content: c, phase: p },
                } && c == content && p == phase && after.assistant == Some(id) && id
                    == state.next_id + 1)
                &&& state.assistant matches Some(id) ==> last
                    == (OperationView::ActiveAssistantAppended { id, content, phase })
                    && after.assistant == Some(id)
                &&& after.reasoning == state.reasoning && after.web_searches == state.web_searches
                    && after.tool_calls == state.tool_calls && after.runner_tools
                    == state.runner_tools
            }
            &&& update matches UpdateView::ReasoningSummaryDelta(content) ==> {
                &&& state.reasoning is None ==> (last matches OperationView::ActiveItemAdded {
                    id,
                    data: ItemDataView::Reasoning { content: c },
                } && c == content && after.reasoning == Some(id) && id == state.next_id + 1)
                &&& state.reasoning matches Some(id) ==> last
                    == (OperationView::ActiveTextAppended { id, content }) && after.reasoning
                    == Some(id)
                &&& after.assistant == state.assistant && after.web_searches == state.web_searches
                    && after.tool_calls == state.tool_calls && after.runner_tools
                    == state.runner_tools
            }
            &&& update matches UpdateView::WebSearchUpdate { item_id, action } ==> {
                let known = item_named(state.web_searches, item_id);
                &&& known is None ==> (last matches OperationView::ActiveItemAdded {
                    id,
                    data: ItemDataView::WebSearch { item_id: i, action: a },
                } && i == item_id && a == action && item_named(after.web_searches, item_id) == Some(
                    id,
                ))
                &&& known matches Some(id) ==> last == (OperationView::ActiveWebSearchUpdated {
                    id,
                    action,
                }) && after.web_searches == state.web_searches
                &&& after.assistant == state.assistant && after.reasoning == state.reasoning
                    && after.tool_calls == state.tool_calls && after.runner_tools
                    == state.runner_tools
            }
            &&& update is ReasoningSummaryPartAdded ==> result is Ok && after == state && match state.reasoning {
                Some(id) => shown == seq![
                    OperationView::ActiveTextAppended { id, content: "\n"@ },
                ],
                None => shown.len() == 0,
            }
            &&& update matches UpdateView::Retry { summary, current, max } ==> result is Ok
                && after == (ProjectionView { retrying: true, ..state }) && shown.len() == 2
                && shown[0] == (OperationView::RetryPersisted { summary, current, max }) && shown[1]
                == (OperationView::RetryScheduled { summary, current, max })
        }),
{
    if let UpdateView::WebSearchUpdate { item_id, action } = update {
        law_item_is_found_by_its_name(state.web_searches, item_id, state.fresh(), item_id);
    }
    if update is ReasoningSummaryPartAdded {
        if let Some(id) = state.reasoning {
            assert(state.updated(update)->Ok_0.1 =~= seq![
                OperationView::ActiveTextAppended { id, content: "\n"@ },
            ]);
        }
    }
}

/// A call that starts is a new item, without input, that is found by the name of the
/// item and by that of the call; what it is called with is added to that item, and is
/// refused before the call started.
pub proof fn law_calls_are_shown(state: ProjectionView, update: UpdateView)
    requires
        state.next_id < u64::MAX,
    ensures
        ({
            let result = state.updated(update);
            let (after, shown) = result->Ok_0;
            let last = shown.last();
            &&& update matches UpdateView::ToolCallStarted { item_id, call_id, name } ==> {
                &&& last matches OperationView::ActiveItemAdded {
                    id,
                    data: ItemDataView::ToolCall { item_id: i, call_id: c, name: n, input },
                } && i == item_id && c == call_id && n == name && input.len() == 0 && id
                    == state.next_id + 1 && item_named(after.tool_calls, item_id) == Some(id) && (
                call_id matches Some(call) ==> item_named(after.tool_calls, call) == Some(id))
                &&& after.assistant == state.assistant && after.reasoning == state.reasoning
                    && after.web_searches == state.web_searches && after.runner_tools
                    == state.runner_tools
            }
            &&& update matches UpdateView::ToolCallDelta { item_id, delta } ==> {
                let known = item_named(state.tool_calls, item_id);
                &&& known is None ==> result == Err::<
                    (ProjectionView, Seq<OperationView>),
                    ProjectionError,
                >(ProjectionError::DeltaBeforeStart)
                &&& known matches Some(id) ==> result is Ok && after == state && shown.len() == 1
                    && last == (OperationView::ActiveTextAppended { id, content: delta })
            }
            &&& update matches UpdateView::RunnerOperationUpdate {
                call_id,
                operation_index,
                runner,
                update: told,
            } ==> {
                let known = item_of_tool(state.runner_tools, call_id, operation_index, 0);
                &&& result is Ok && shown.len() == 1
                &&& known matches Some(id) ==> after == state && last
                    == (OperationView::ActiveRunnerUpdated { id, update: told })
                &&& known is None ==> (last matches OperationView::ActiveItemAdded {
                    id,
                    data: ItemDataView::RunnerTool { call_id: c, operation_index: i, runner: r, update: u },
                } && c == call_id && i == operation_index && r == runner && u == told
                    && after.runner_tools == state.runner_tools.push((call_id, operation_index, id))
                    && id == state.next_id + 1)
            }
            &&& update matches UpdateView::RunnerOperationOutput {
                call_id,
                operation_index,
                content,
                omitted_bytes,
                timer,
            } ==> {
                let known = item_of_tool(state.runner_tools, call_id, operation_index, 0);
                &&& known is None ==> result == Err::<
                    (ProjectionView, Seq<OperationView>),
                    ProjectionError,
                >(ProjectionError::OutputBeforeStart)
                &&& known matches Some(id) ==> result is Ok && after == state && shown.len() == 1
                    && last == (OperationView::ActiveRunnerOutputAppended {
                    id,
                    content,
                    omitted_bytes,
                    timer,
                })
            }
        }),
{
    if let UpdateView::ToolCallStarted { item_id, call_id, name } = update {
        let id = state.fresh();
        law_item_is_found_by_its_name(state.tool_calls, item_id, id, item_id);
        if let Some(call) = call_id {
            let named = with_name(state.tool_calls, item_id, id);
            law_item_is_found_by_its_name(named, call, id, item_id);
        }
    }
}

/// An operation on a runner is found by its call and its number in the call.
pub proof fn law_operation_is_found_by_its_call(
    tools: Seq<(Seq<char>, usize, u64)>,
    call_id: Seq<char>,
    index: usize,
    from: nat,
)
    ensures
        item_of_tool(tools, call_id, index, from) matches Some(id) ==> exists|k: int|
            from <= k < tools.len() && #[trigger] tools[k] == (call_id, index, id),
        item_of_tool(tools, call_id, index, from) is None ==> forall|k: int|
            from <= k < tools.len() ==> !((#[trigger] tools[k]).0 == call_id && tools[k].1
                == index),
    decreases tools.len() - from,
{
    if from < tools.len() {
        if tools[from as int].0 == call_id && tools[from as int].1 == index {
            assert(tools[from as int] == (call_id, index, tools[from as int].2));
        } else {
            law_operation_is_found_by_its_call(tools, call_id, index, from + 1);
            if let Some(id) = item_of_tool(tools, call_id, index, from + 1) {
                let k = choose|k: int|
                    from + 1 <= k < tools.len() && #[trigger] tools[k] == (call_id, index, id);
                assert(tools[k] == (call_id, index, id));
            }
        }
    }
}

/// What is stored takes the place of the item that was shown while it came in, which
/// is then no longer shown; where no item was shown it is added.
pub proof fn law_stored_event_replaces_its_item(state: ProjectionView, data: ThreadEventData)
    ensures
        ({
            let (after, how) = state.finalized(data);
            &&& data is AssistantMessage ==> after == (ProjectionView {
                assistant: None,
                ..state
            }) && (how matches FinalizationView::Item { active_id } ==> state.assistant == Some(
                active_id,
            )) && (how is Append <==> state.assistant is None)
            &&& data is Reasoning ==> after == (ProjectionView { reasoning: None, ..state }) && (how
                matches FinalizationView::Item { active_id } ==> state.reasoning == Some(active_id))
                && (how is Append <==> state.reasoning is None)
            &&& data matches ThreadEventData::ToolCall(call) ==> {
                let key = match call {
                    ToolCallEvent::Custom { item_id, .. } => view_option(item_id),
                    ToolCallEvent::Function { call_id, .. } => Some(call_id@),
                };
                let known = match key {
                    Some(key) => item_named(state.tool_calls, key),
                    None => None,
                };
                &&& known matches Some(id) ==> how == (FinalizationView::Item { active_id: id })
                &&& known is None ==> how is Append && after == state
            }
            &&& data matches ThreadEventData::ToolResult(result) ==> {
                let call = match result {
                    ToolResultEvent::Custom { call_id, .. } => call_id@,
                    ToolResultEvent::Function { call_id, .. } => call_id@,
                };
                let ids = items_of_call(state.runner_tools, call, state.runner_tools.len());
                &&& ids.len() > 0 ==> how == (FinalizationView::ToolResult { runner_ids: ids })
                &&& ids.len() == 0 ==> how is Append
                &&& after.assistant == state.assistant && after.reasoning == state.reasoning
                    && after.tool_calls == state.tool_calls && after.web_searches
                    == state.web_searches
            }
            &&& !(data is AssistantMessage || data is Reasoning || data is ToolCall || data
                is ToolResult || data is WebSearch) ==> after == state && how is Append
        }),
{
}

/// A search that is stored takes the place of the item with its name, and where none
/// has it of the oldest search that is shown.
pub proof fn law_stored_search_replaces_its_item(state: ProjectionView, item: JsonView)
    ensures
        ({
            let (after, id) = state.search_finished(item);
            let named = match item.str_field("id"@) {
                Some(name) => item_named(state.web_searches, name),
                None => None,
            };
            &&& named is Some ==> id == named && after.web_searches == without_name(
                state.web_searches,
                item.str_field("id"@)->0,
            )
            &&& named is None && state.web_searches.len() > 0 ==> id == Some(
                state.web_searches[0].1,
            ) && after.web_searches == state.web_searches.skip(1)
            &&& named is None && state.web_searches.len() == 0 ==> id is None && after == state
        }),
{
    if state.web_searches.len() > 0 {
        assert(state.web_searches.remove(0) =~= state.web_searches.skip(1));
    }
}

/// The operations that a result ends are those of its call, in the order in which they
/// began; all others stay.
pub proof fn law_result_ends_the_operations_of_its_call(
    tools: Seq<(Seq<char>, usize, u64)>,
    call_id: Seq<char>,
    count: nat,
)
    requires
        count <= tools.len(),
    ensures
        items_of_call(tools, call_id, count).len() + without_call(tools, call_id, count).len()
            == count,
        forall|k: int|
            0 <= k < without_call(tools, call_id, count).len() ==> (#[trigger] without_call(
                tools,
                call_id,
                count,
            )[k]).0 != call_id,
        forall|i: int|
            0 <= i < count && (#[trigger] tools[i]).0 == call_id ==> items_of_call(
                tools,
                call_id,
                count,
            ).contains(tools[i].2),
        forall|i: int|
            0 <= i < count && (#[trigger] tools[i]).0 != call_id ==> without_call(
                tools,
                call_id,
                count,
            ).contains(tools[i]),
        count > 0 && tools[count - 1].0 == call_id ==> items_of_call(tools, call_id, count).last()
            == tools[count - 1].2,
    decreases count,
{
    if count > 0 {
        law_result_ends_the_operations_of_its_call(tools, call_id, (count - 1) as nat);
        let ended = items_of_call(tools, call_id, (count - 1) as nat);
        let left = without_call(tools, call_id, (count - 1) as nat);
        let now_ended = items_of_call(tools, call_id, count);
        let now_left = without_call(tools, call_id, count);
        assert forall|i: int| 0 <= i < count && (#[trigger] tools[i]).0 == call_id implies now_ended.contains(
            tools[i].2,
        ) by {
            if i < count - 1 {
                let k = choose|k: int| 0 <= k < ended.len() && ended[k] == tools[i].2;
                assert(now_ended[k] == tools[i].2);
            } else {
                assert(now_ended.last() == tools[i].2);
            }
        }
        assert forall|i: int| 0 <= i < count && (#[trigger] tools[i]).0 != call_id implies now_left.contains(
            tools[i],
        ) by {
            if i < count - 1 {
                let k = choose|k: int| 0 <= k < left.len() && left[k] == tools[i];
                assert(now_left[k] == tools[i]);
            } else {
                assert(now_left.last() == tools[i]);
            }
        }
    }
}

} // verus!
