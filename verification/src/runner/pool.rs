//! The runners and their processes.
use crate::controller::{runner_view, ProcessInspection, ProcessStatus};
use crate::event::{contains_sequence, Runner};
use crate::order::{
    along, indices, order_pairs, order_texts, pairs_along, pairs_sorted, texts_sorted,
};
use crate::text::{concat2, concat3, decimal, decimal_text, same_text, views};
use vstd::prelude::*;

verus! {

/// Why a runner cannot be launched or used.
#[derive(Debug)]
pub enum PoolError {
    EmptyName,
    EmptyCommand,
    NotRunning { name: String },
    ProcessGone,
}

impl PoolError {
    /// What the user is told.
    pub open spec fn words(self) -> Seq<char> {
        match self {
            PoolError::EmptyName => "runner name must not be empty"@,
            PoolError::EmptyCommand => "runner command must not be empty"@,
            PoolError::NotRunning { name } => "runner "@ + name@ + " is not running"@,
            PoolError::ProcessGone => "background process is no longer available"@,
        }
    }

    /// What the user is told.
    pub fn message(&self) -> (text: String)
        ensures
            text@ == self.words(),
    {
        match self {
            PoolError::EmptyName => "runner name must not be empty".to_owned(),
            PoolError::EmptyCommand => "runner command must not be empty".to_owned(),
            PoolError::NotRunning { name } => concat3("runner ", name.as_str(), " is not running"),
            PoolError::ProcessGone => "background process is no longer available".to_owned(),
        }
    }
}

/// Whether a runner can be launched.
pub fn check_launch(name: &str, command: &Vec<String>) -> (result: Result<(), PoolError>)
    ensures
        if name@.len() == 0 {
            result matches Err(PoolError::EmptyName)
        } else if command@.len() == 0 {
            result matches Err(PoolError::EmptyCommand)
        } else {
            result is Ok
        },
{
    if name.is_empty() {
        return Err(PoolError::EmptyName);
    }
    if command.len() == 0 {
        return Err(PoolError::EmptyCommand);
    }
    Ok(())
}

/// What is done to launch a runner: one that runs keeps running under the new
/// description and approval.
#[derive(Clone, Copy, Debug, PartialEq, Eq, Structural)]
pub enum LaunchAction {
    Reconfigure,
    Start,
}

/// What is done to launch a runner. `running` tells, of a runner of that name,
/// whether it runs.
pub fn launch_action(running: Option<bool>) -> (action: LaunchAction)
    ensures
        action == (if running == Some(true) {
            LaunchAction::Reconfigure
        } else {
            LaunchAction::Start
        }),
{
    match running {
        Some(true) => LaunchAction::Reconfigure,
        _ => LaunchAction::Start,
    }
}

/// A runner that can be used: one that exists and runs.
pub fn usable(name: &str, running: Option<bool>) -> (result: Result<(), PoolError>)
    ensures
        if running == Some(true) {
            result is Ok
        } else {
            result matches Err(PoolError::NotRunning { name: n }) && n@ == name@
        },
{
    match running {
        Some(true) => Ok(()),
        _ => Err(PoolError::NotRunning { name: name.to_owned() }),
    }
}

/// What is told of a runner that ended: how looking at it went.
pub fn runner_failure(inspection: Result<(), String>) -> (message: String)
    ensures
        message@ == (match inspection {
            Ok(()) => "Runner exited"@,
            Err(error) => "failed to inspect Runner: "@ + error@,
        }),
{
    match inspection {
        Ok(()) => "Runner exited".to_owned(),
        Err(error) => concat2("failed to inspect Runner: ", error.as_str()),
    }
}

/// The places of the first `count` runners that run.
pub open spec fn running_places(runners: Seq<(Runner, bool)>, count: nat) -> Seq<usize>
    decreases count,
{
    if count == 0 {
        Seq::empty()
    } else {
        let before = running_places(runners, (count - 1) as nat);
        if runners[count - 1].1 {
            before.push((count - 1) as usize)
        } else {
            before
        }
    }
}

/// The names of runners.
pub open spec fn runner_names(runners: Seq<Runner>) -> Seq<Seq<char>> {
    Seq::new(runners.len(), |i: int| runners[i].name@)
}

/// Whether a list holds the runners that run, each once, and is sorted by name.
pub open spec fn lists_running(runners: Seq<(Runner, bool)>, listed: Seq<Runner>) -> bool {
    let places = running_places(runners, runners.len());
    &&& texts_sorted(runner_names(listed))
    &&& exists|order: Seq<usize>|
        {
            &&& #[trigger] indices(order, places.len())
            &&& listed.len() == places.len()
            &&& forall|i: int|
                0 <= i < listed.len() ==> runner_view(#[trigger] listed[i]) == runner_view(
                    runners[places[order[i] as int] as int].0,
                )
        }
}

/// The runners that run, by name. Of each is told whether it runs.
pub fn list_runners(runners: &Vec<(Runner, bool)>) -> (listed: Vec<Runner>)
    ensures
        lists_running(runners@, listed@),
{
    let mut places: Vec<usize> = Vec::new();
    let mut names: Vec<String> = Vec::new();
    let mut i: usize = 0;
    while i < runners.len()
        invariant
            i <= runners.len(),
            places@ == running_places(runners@, i as nat),
            names.len() == places.len(),
            forall|k: int|
                0 <= k < places.len() ==> (#[trigger] places[k]) < runners.len() && names[k]@
                    == runners[places[k] as int].0.name@,
        decreases runners.len() - i,
    {
        if runners[i].1 {
            places.push(i);
            names.push(runners[i].0.name.clone());
        }
        i += 1;
    }
    let order = order_texts(&names);
    let mut listed: Vec<Runner> = Vec::new();
    let mut k: usize = 0;
    while k < order.len()
        invariant
            k <= order.len(),
            listed.len() == k,
            indices(order@, places@.len()),
            forall|m: int|
                0 <= m < places.len() ==> (#[trigger] places[m]) < runners.len(),
            forall|m: int|
                0 <= m < k ==> runner_view(#[trigger] listed[m]) == runner_view(
                    runners[places[order[m] as int] as int].0,
                ),
        decreases order.len() - k,
    {
        let place = places[order[k]];
        let runner = &runners[place].0;
        listed.push(
            Runner {
                name: runner.name.clone(),
                description: runner.description.clone(),
                approval: runner.approval,
            },
        );
        k += 1;
    }
    proof {
        let keys = along(views(names@), order@);
        assert forall|a: int, b: int| 0 <= a < b < listed.len() implies
            !crate::order::text_before(
            #[trigger] runner_names(listed@)[b],
            #[trigger] runner_names(listed@)[a],
        ) by {
            assert(runner_view(listed[a]).0 == runner_names(listed@)[a]);
            assert(runner_view(listed[b]).0 == runner_names(listed@)[b]);
            assert(keys[a] == runner_names(listed@)[a]);
            assert(keys[b] == runner_names(listed@)[b]);
        }
        assert(indices(order@, running_places(runners@, runners@.len()).len()));
    }
    listed
}

/// What tells processes apart.
#[derive(Debug, PartialEq)]
pub struct ProcessKey {
    pub thread_id: i64,
    pub runner: String,
    pub process_id: String,
}

/// What is known of a process.
#[derive(Debug, PartialEq)]
pub struct ProcessRecord {
    pub handle: String,
    pub command: String,
    pub started_at_ms: i64,
}

/// What a [`ProcessKey`] stands for.
pub open spec fn key_of(key: ProcessKey) -> (i64, Seq<char>, Seq<char>) {
    (key.thread_id, key.runner@, key.process_id@)
}

/// What a [`ProcessRecord`] stands for.
pub open spec fn record_of(record: ProcessRecord) -> (Seq<char>, Seq<char>, i64) {
    (record.handle@, record.command@, record.started_at_ms)
}

/// A process with what is known of it.
pub type ProcessView = ((i64, Seq<char>, Seq<char>), (Seq<char>, Seq<char>, i64));

/// What processes stand for.
pub open spec fn process_views(entries: Seq<(ProcessKey, ProcessRecord)>) -> Seq<ProcessView> {
    Seq::new(entries.len(), |i: int| (key_of(entries[i].0), record_of(entries[i].1)))
}

/// Whether two keys are of the same process.
pub fn same_process(left: &ProcessKey, right: &ProcessKey) -> (same: bool)
    ensures
        same == (key_of(*left) == key_of(*right)),
{
    left.thread_id == right.thread_id && same_text(left.runner.as_str(), right.runner.as_str())
        && same_text(left.process_id.as_str(), right.process_id.as_str())
}

/// The processes that runners carry out.
#[derive(Debug)]
pub struct ProcessTable {
    entries: Vec<(ProcessKey, ProcessRecord)>,
}

impl View for ProcessTable {
    type V = Seq<ProcessView>;

    closed spec fn view(&self) -> Seq<ProcessView> {
        process_views(self.entries@)
    }
}

/// Where a process stands from `from` on.
pub open spec fn process_place(
    processes: Seq<ProcessView>,
    key: (i64, Seq<char>, Seq<char>),
    from: nat,
) -> Option<int>
    decreases processes.len() - from,
{
    if from >= processes.len() {
        None
    } else if processes[from as int].0 == key {
        Some(from as int)
    } else {
        process_place(processes, key, from + 1)
    }
}

/// Whether a process belongs to one of the threads.
pub open spec fn belongs(process: ProcessView, thread_ids: Seq<i64>) -> bool {
    thread_ids.contains(process.0.0)
}

/// Those of the first `count` processes that belong to the threads, or those
/// that do not.
pub open spec fn selected(
    processes: Seq<ProcessView>,
    thread_ids: Seq<i64>,
    belonging: bool,
    count: nat,
) -> Seq<ProcessView>
    decreases count,
{
    if count == 0 {
        Seq::empty()
    } else {
        let before = selected(processes, thread_ids, belonging, (count - 1) as nat);
        if belongs(processes[count - 1], thread_ids) == belonging {
            before.push(processes[count - 1])
        } else {
            before
        }
    }
}

/// Whether no process stands twice.
pub open spec fn processes_distinct(processes: Seq<ProcessView>) -> bool {
    forall|i: int, j: int|
        0 <= i < j < processes.len() ==> (#[trigger] processes[i]).0 != (
        #[trigger] processes[j]).0
}

proof fn lemma_process_place(
    processes: Seq<ProcessView>,
    key: (i64, Seq<char>, Seq<char>),
    from: nat,
)
    ensures
        match process_place(processes, key, from) {
            Some(at) => from <= at < processes.len() && processes[at].0 == key,
            None => forall|i: int| from <= i < processes.len() ==> (#[trigger] processes[i]).0 != key,
        },
    decreases processes.len() - from,
{
    if from < processes.len() && processes[from as int].0 != key {
        lemma_process_place(processes, key, from + 1);
    }
}

proof fn lemma_selected(
    processes: Seq<ProcessView>,
    thread_ids: Seq<i64>,
    belonging: bool,
    count: nat,
)
    requires
        processes_distinct(processes),
        count <= processes.len(),
    ensures
        processes_distinct(selected(processes, thread_ids, belonging, count)),
        forall|i: int|
            0 <= i < selected(processes, thread_ids, belonging, count).len() ==> belongs(
                #[trigger] selected(processes, thread_ids, belonging, count)[i],
                thread_ids,
            ) == belonging,
        forall|i: int|
            0 <= i < selected(processes, thread_ids, belonging, count).len() ==> exists|k: int|
                0 <= k < count && processes[k] == #[trigger] selected(
                    processes,
                    thread_ids,
                    belonging,
                    count,
                )[i],
    decreases count,
{
    if count > 0 {
        lemma_selected(processes, thread_ids, belonging, (count - 1) as nat);
        let before = selected(processes, thread_ids, belonging, (count - 1) as nat);
        let after = selected(processes, thread_ids, belonging, count);
        assert forall|i: int| 0 <= i < after.len() implies belongs(#[trigger] after[i], thread_ids)
            == belonging && exists|k: int| 0 <= k < count && processes[k] == after[i] by {
            if i < before.len() {
                assert(after[i] == before[i]);
                let k = choose|k: int| 0 <= k < count - 1 && processes[k] == before[i];
                assert(processes[k] == after[i]);
            } else {
                assert(processes[count - 1] == after[i]);
            }
        }
        assert forall|i: int, j: int| 0 <= i < j < after.len() implies (#[trigger] after[i]).0 != (
        #[trigger] after[j]).0 by {
            assert(after[i] == before[i]);
            if j < before.len() {
                assert(after[j] == before[j]);
            } else {
                let k = choose|k: int| 0 <= k < count - 1 && processes[k] == before[i];
                assert(processes[k].0 != processes[count - 1].0);
            }
        }
    }
}

impl ProcessTable {
    /// No process stands twice.
    pub closed spec fn well_formed(&self) -> bool {
        processes_distinct(self@)
    }

    /// No processes.
    pub fn new() -> (table: Self)
        ensures
            table.well_formed(),
            table@ == Seq::<ProcessView>::empty(),
    {
        let table = ProcessTable { entries: Vec::new() };
        assert(table@ =~= Seq::empty());
        table
    }

    fn find(&self, key: &ProcessKey) -> (found: Option<usize>)
        ensures
            match found {
                Some(at) => at < self.entries.len() && process_place(self@, key_of(*key), 0)
                    == Some(at as int),
                None => process_place(self@, key_of(*key), 0) is None,
            },
    {
        let mut i: usize = 0;
        while i < self.entries.len()
            invariant
                i <= self.entries.len(),
                process_place(self@, key_of(*key), 0) == process_place(
                    self@,
                    key_of(*key),
                    i as nat,
                ),
            decreases self.entries.len() - i,
        {
            assert(self@[i as int].0 == key_of(self.entries[i as int].0));
            if same_process(&self.entries[i].0, key) {
                return Some(i);
            }
            i += 1;
        }
        None
    }

    /// What is known of a process.
    pub fn process(&self, key: &ProcessKey) -> (record: Option<&ProcessRecord>)
        ensures
            match (record, process_place(self@, key_of(*key), 0)) {
                (Some(record), Some(at)) => record_of(*record) == self@[at].1,
                (None, None) => true,
                _ => false,
            },
    {
        match self.find(key) {
            Some(at) => Some(&self.entries[at].1),
            None => None,
        }
    }

    /// Adds a process, unless it is there already; tells whether it was added.
    pub fn insert_process(&mut self, key: ProcessKey, record: ProcessRecord) -> (inserted: bool)
        requires
            old(self).well_formed(),
        ensures
            final(self).well_formed(),
            inserted == (process_place(old(self)@, key_of(key), 0) is None),
            final(self)@ == (if inserted {
                old(self)@.push((key_of(key), record_of(record)))
            } else {
                old(self)@
            }),
    {
        if self.find(&key).is_some() {
            return false;
        }
        let ghost before = self@;
        let ghost added = (key_of(key), record_of(record));
        self.entries.push((key, record));
        proof {
            lemma_process_place(before, added.0, 0);
            assert(self@ =~= before.push(added));
        }
        true
    }

    /// Takes a process out.
    pub fn remove_process(&mut self, key: &ProcessKey)
        requires
            old(self).well_formed(),
        ensures
            final(self).well_formed(),
            final(self)@ == (match process_place(old(self)@, key_of(*key), 0) {
                Some(at) => old(self)@.remove(at),
                None => old(self)@,
            }),
            process_place(final(self)@, key_of(*key), 0) is None,
    {
        let ghost before = self@;
        proof {
            lemma_process_place(before, key_of(*key), 0);
        }
        match self.find(key) {
            Some(at) => {
                let _ = self.entries.remove(at);
                proof {
                    let after = before.remove(at as int);
                    assert(self@ =~= after);
                    assert forall|i: int, j: int| 0 <= i < j < after.len() implies (
                    #[trigger] after[i]).0 != (#[trigger] after[j]).0 by {
                        let x = if i < at {
                            i
                        } else {
                            i + 1
                        };
                        let y = if j < at {
                            j
                        } else {
                            j + 1
                        };
                        assert(after[i] == before[x] && after[j] == before[y]);
                    }
                    lemma_process_place(after, key_of(*key), 0);
                    match process_place(after, key_of(*key), 0) {
                        Some(k) => {
                            let x = if k < at {
                                k
                            } else {
                                k + 1
                            };
                            assert(after[k] == before[x]);
                            if x < at {
                                assert(before[x].0 != before[at as int].0);
                            } else {
                                assert(before[at as int].0 != before[x].0);
                            }
                        },
                        None => {},
                    }
                }
            },
            None => {},
        }
    }

    /// Takes out the processes of threads.
    pub fn take_thread_processes(&mut self, thread_ids: &Vec<i64>) -> (taken: Vec<
        (ProcessKey, ProcessRecord),
    >)
        requires
            old(self).well_formed(),
        ensures
            final(self).well_formed(),
            final(self)@ == selected(old(self)@, thread_ids@, false, old(self)@.len()),
            process_views(taken@) == selected(old(self)@, thread_ids@, true, old(self)@.len()),
    {
        let ghost all = self@;
        let mut taken: Vec<(ProcessKey, ProcessRecord)> = Vec::new();
        let mut kept: Vec<(ProcessKey, ProcessRecord)> = Vec::new();
        let mut i: usize = 0;
        assert(process_views(taken@) =~= Seq::empty());
        assert(process_views(kept@) =~= Seq::empty());
        while i < self.entries.len()
            invariant
                i <= self.entries.len(),
                *self == *old(self),
                all == process_views(self.entries@),
                process_views(taken@) == selected(all, thread_ids@, true, i as nat),
                process_views(kept@) == selected(all, thread_ids@, false, i as nat),
            decreases self.entries.len() - i,
        {
            let (key, record) = copy_entry(&self.entries[i]);
            assert((key_of(key), record_of(record)) == all[i as int]);
            if contains_sequence(thread_ids, key.thread_id) {
                let ghost before = process_views(taken@);
                taken.push((key, record));
                assert(process_views(taken@) =~= before.push(all[i as int]));
            } else {
                let ghost before = process_views(kept@);
                kept.push((key, record));
                assert(process_views(kept@) =~= before.push(all[i as int]));
            }
            i += 1;
        }
        proof {
            lemma_selected(all, thread_ids@, false, all.len());
        }
        self.entries = kept;
        taken
    }

    /// The processes of a thread.
    pub fn thread_processes(&self, thread_id: i64) -> (processes: Vec<
        (ProcessKey, ProcessRecord),
    >)
        ensures
            process_views(processes@) == selected(
                self@,
                Seq::empty().push(thread_id),
                true,
                self@.len(),
            ),
    {
        let ghost all = self@;
        let ghost only = Seq::empty().push(thread_id);
        let mut processes: Vec<(ProcessKey, ProcessRecord)> = Vec::new();
        let mut i: usize = 0;
        assert(process_views(processes@) =~= Seq::empty());
        proof {
            assert(only[0] == thread_id);
            assert forall|id: i64| only.contains(id) == (id == thread_id) by {}
        }
        while i < self.entries.len()
            invariant
                i <= self.entries.len(),
                all == process_views(self.entries@),
                only == Seq::empty().push(thread_id),
                forall|id: i64| #[trigger] only.contains(id) == (id == thread_id),
                process_views(processes@) == selected(all, only, true, i as nat),
            decreases self.entries.len() - i,
        {
            assert(belongs(all[i as int], only) == (self.entries[i as int].0.thread_id
                == thread_id));
            if self.entries[i].0.thread_id == thread_id {
                let ghost before = process_views(processes@);
                processes.push(copy_entry(&self.entries[i]));
                assert(process_views(processes@) =~= before.push(all[i as int]));
            }
            i += 1;
        }
        processes
    }
}

/// What was taken out of the table for threads belongs to them, and nothing of
/// them is left.
pub proof fn law_no_process_outlives_its_thread(
    processes: Seq<ProcessView>,
    thread_ids: Seq<i64>,
    i: int,
)
    requires
        processes_distinct(processes),
        0 <= i < selected(processes, thread_ids, false, processes.len()).len(),
    ensures
        !thread_ids.contains(
            selected(processes, thread_ids, false, processes.len())[i].0.0,
        ),
{
    lemma_selected(processes, thread_ids, false, processes.len());
    assert(belongs(selected(processes, thread_ids, false, processes.len())[i], thread_ids)
        == false);
}

fn copy_entry(entry: &(ProcessKey, ProcessRecord)) -> (copy: (ProcessKey, ProcessRecord))
    ensures
        key_of(copy.0) == key_of(entry.0),
        record_of(copy.1) == record_of(entry.1),
{
    (
        ProcessKey {
            thread_id: entry.0.thread_id,
            runner: entry.0.runner.clone(),
            process_id: entry.0.process_id.clone(),
        },
        ProcessRecord {
            handle: entry.1.handle.clone(),
            command: entry.1.command.clone(),
            started_at_ms: entry.1.started_at_ms,
        },
    )
}

/// A process as it is listed.
#[derive(Debug, PartialEq)]
pub struct ManagedProcess {
    pub runner: String,
    pub process_id: String,
    pub command: String,
    pub started_at_ms: i64,
    pub status: ProcessStatus,
}

/// What a status stands for: whether the process runs, how it ended, or why
/// nothing is known of it.
pub enum StatusView {
    Running,
    Exited { exit_code: Option<i32> },
    Unavailable { message: Seq<char> },
}

/// What a [`ProcessStatus`] stands for.
pub open spec fn status_view(status: ProcessStatus) -> StatusView {
    match status {
        ProcessStatus::Running => StatusView::Running,
        ProcessStatus::Exited { exit_code } => StatusView::Exited { exit_code },
        ProcessStatus::Unavailable { message } => StatusView::Unavailable { message: message@ },
    }
}

/// What a [`ManagedProcess`] stands for.
pub struct ManagedView {
    pub runner: Seq<char>,
    pub process_id: Seq<char>,
    pub command: Seq<char>,
    pub started_at_ms: i64,
    pub status: StatusView,
}

/// What a [`ManagedProcess`] stands for.
pub open spec fn managed_view(process: ManagedProcess) -> ManagedView {
    ManagedView {
        runner: process.runner@,
        process_id: process.process_id@,
        command: process.command@,
        started_at_ms: process.started_at_ms,
        status: status_view(process.status),
    }
}

/// The process of an entry with its status.
pub open spec fn managed(entry: (ProcessKey, ProcessRecord), status: ProcessStatus) -> ManagedView {
    ManagedView {
        runner: entry.0.runner@,
        process_id: entry.0.process_id@,
        command: entry.1.command@,
        started_at_ms: entry.1.started_at_ms,
        status: status_view(status),
    }
}

/// The places of the first `count` processes of which something is known, or of
/// which nothing is.
pub open spec fn available_places(statuses: Seq<ProcessStatus>, available: bool, count: nat) -> Seq<
    usize,
>
    decreases count,
{
    if count == 0 {
        Seq::empty()
    } else {
        let before = available_places(statuses, available, (count - 1) as nat);
        if (statuses[count - 1] is Unavailable) == !available {
            before.push((count - 1) as usize)
        } else {
            before
        }
    }
}

/// The times and names of processes.
pub open spec fn process_keys(processes: Seq<ManagedProcess>) -> Seq<(i64, Seq<char>)> {
    Seq::new(processes.len(), |i: int| (processes[i].started_at_ms, processes[i].process_id@))
}

/// Whether a list holds the processes of which something is known, each once,
/// sorted by when they were started and then by name.
pub open spec fn lists_processes(
    entries: Seq<(ProcessKey, ProcessRecord)>,
    statuses: Seq<ProcessStatus>,
    listed: Seq<ManagedProcess>,
) -> bool {
    let places = available_places(statuses, true, statuses.len());
    &&& pairs_sorted(process_keys(listed))
    &&& exists|order: Seq<usize>|
        {
            &&& #[trigger] indices(order, places.len())
            &&& listed.len() == places.len()
            &&& forall|i: int|
                0 <= i < listed.len() ==> managed_view(#[trigger] listed[i]) == managed(
                    entries[places[order[i] as int] as int],
                    statuses[places[order[i] as int] as int],
                )
        }
}

fn copy_status(status: &ProcessStatus) -> (copy: ProcessStatus)
    ensures
        status_view(copy) == status_view(*status),
{
    match status {
        ProcessStatus::Running => ProcessStatus::Running,
        ProcessStatus::Exited { exit_code } => ProcessStatus::Exited { exit_code: *exit_code },
        ProcessStatus::Unavailable { message } => ProcessStatus::Unavailable {
            message: message.clone(),
        },
    }
}

/// The processes of a thread as they are listed, and the places of those that
/// are forgotten because nothing is known of them.
pub fn list_processes(
    entries: &Vec<(ProcessKey, ProcessRecord)>,
    statuses: &Vec<ProcessStatus>,
) -> (result: (Vec<ManagedProcess>, Vec<usize>))
    requires
        entries.len() == statuses.len(),
    ensures
        lists_processes(entries@, statuses@, result.0@),
        result.1@ == available_places(statuses@, false, statuses@.len()),
{
    let mut places: Vec<usize> = Vec::new();
    let mut gone: Vec<usize> = Vec::new();
    let mut times: Vec<i64> = Vec::new();
    let mut names: Vec<String> = Vec::new();
    let mut i: usize = 0;
    while i < statuses.len()
        invariant
            i <= statuses.len(),
            entries.len() == statuses.len(),
            places@ == available_places(statuses@, true, i as nat),
            gone@ == available_places(statuses@, false, i as nat),
            times.len() == places.len(),
            names.len() == places.len(),
            forall|k: int|
                0 <= k < places.len() ==> (#[trigger] places[k]) < entries.len() && names[k]@
                    == entries[places[k] as int].0.process_id@ && times[k]
                    == entries[places[k] as int].1.started_at_ms,
        decreases statuses.len() - i,
    {
        if matches!(statuses[i], ProcessStatus::Unavailable { message: _ }) {
            gone.push(i);
        } else {
            places.push(i);
            times.push(entries[i].1.started_at_ms);
            names.push(entries[i].0.process_id.clone());
        }
        i += 1;
    }
    let order = order_pairs(&times, &names);
    let mut listed: Vec<ManagedProcess> = Vec::new();
    let mut k: usize = 0;
    while k < order.len()
        invariant
            k <= order.len(),
            entries.len() == statuses.len(),
            listed.len() == k,
            indices(order@, places@.len()),
            forall|m: int|
                0 <= m < places.len() ==> (#[trigger] places[m]) < entries.len(),
            forall|m: int|
                0 <= m < k ==> managed_view(#[trigger] listed[m]) == managed(
                    entries[places[order[m] as int] as int],
                    statuses[places[order[m] as int] as int],
                ),
        decreases order.len() - k,
    {
        let place = places[order[k]];
        let (key, record) = copy_entry(&entries[place]);
        listed.push(
            ManagedProcess {
                runner: key.runner,
                process_id: key.process_id,
                command: record.command,
                started_at_ms: record.started_at_ms,
                status: copy_status(&statuses[place]),
            },
        );
        k += 1;
    }
    proof {
        let keys = pairs_along(times@, views(names@), order@);
        assert forall|a: int| 0 <= a < listed.len() implies #[trigger] process_keys(listed@)[a]
            == keys[a] by {
            assert(managed_view(listed[a]).process_id == listed[a].process_id@);
            let m = order[a] as int;
            assert(places[m] < entries.len());
        }
        assert(process_keys(listed@) =~= keys);
        assert(indices(order@, available_places(statuses@, true, statuses@.len()).len()));
    }
    (listed, gone)
}

/// What is known of a process, in full.
pub fn process_detail(key: &ProcessKey, record: &ProcessRecord, inspection: ProcessInspection) -> (detail:
    (ManagedProcess, String, usize))
    ensures
        managed_view(detail.0) == managed((*key, *record), inspection.status),
        detail.1 == inspection.output_tail,
        detail.2 == inspection.omitted_bytes,
{
    (
        ManagedProcess {
            runner: key.runner.clone(),
            process_id: key.process_id.clone(),
            command: record.command.clone(),
            started_at_ms: record.started_at_ms,
            status: inspection.status,
        },
        inspection.output_tail,
        inspection.omitted_bytes,
    )
}

/// A text with dashes for spaces.
pub open spec fn dashed(text: Seq<char>) -> Seq<char> {
    text.map_values(
        |character: char|
            if character == ' ' {
                '-'
            } else {
                character
            },
    )
}

/// The name of a process from words that were drawn.
pub fn process_id(words: &str) -> (id: String)
    ensures
        id@ == dashed(words@),
{
    let list = crate::text::characters(words);
    let mut id = String::new();
    let mut i: usize = 0;
    assert(id@ =~= dashed(words@).take(0));
    while i < list.len()
        invariant
            i <= list.len(),
            list@ == words@,
            id@ == dashed(words@).take(i as int),
        decreases list.len() - i,
    {
        if list[i] == ' ' {
            id.push('-');
        } else {
            id.push(list[i]);
        }
        assert(dashed(words@).take(i + 1) =~= dashed(words@).take(i as int).push(
            dashed(words@)[i as int],
        ));
        i += 1;
    }
    assert(dashed(words@).take(i as int) =~= dashed(words@));
    id
}

impl ProcessTable {
    /// Whether a name can be given to a new process: it is well formed, and no
    /// process of the thread on the runner has it.
    pub fn accepts_id(&self, thread_id: i64, runner: &str, id: &str, valid: bool) -> (accepted:
        bool)
        ensures
            accepted == (valid && process_place(self@, (thread_id, runner@, id@), 0) is None),
    {
        let key = ProcessKey {
            thread_id,
            runner: runner.to_owned(),
            process_id: id.to_owned(),
        };
        valid && self.find(&key).is_none()
    }
}

/// The names of the processes that a command starts beside itself begin so.
pub fn process_prefix(thread_id: i64) -> (prefix: String)
    ensures
        prefix@ == "thread-"@ + decimal(thread_id as int) + "-"@,
{
    let id = decimal_text(thread_id as i128);
    concat3("thread-", id.as_str(), "-")
}

/// A runner is launched only with a name and a command; one that runs already is given
/// its new settings, any other is started, and only one that runs is used.
pub proof fn law_runner_is_launched_or_changed(
    name: &str,
    command: Vec<String>,
    checked: Result<(), PoolError>,
    running: Option<bool>,
    action: LaunchAction,
    used: Result<(), PoolError>,
)
    requires
        call_ensures(check_launch, (name, &command), checked),
        call_ensures(launch_action, (running,), action),
        call_ensures(usable, (name, running), used),
    ensures
        checked is Ok <==> name@.len() > 0 && command@.len() > 0,
        name@.len() == 0 ==> checked->Err_0 is EmptyName,
        name@.len() > 0 && command@.len() == 0 ==> checked->Err_0 is EmptyCommand,
        action is Reconfigure <==> running == Some(true),
        used is Ok <==> running == Some(true),
        used matches Err(error) ==> (error matches PoolError::NotRunning { name: told } && told@
            == name@),
{
}

/// The runners that are listed are those that run, each once.
pub proof fn law_running_runners_are_listed(runners: Seq<(Runner, bool)>, count: nat, i: int)
    requires
        count <= runners.len() <= usize::MAX,
        0 <= i < count,
    ensures
        running_places(runners, count).contains(i as usize) <==> runners[i].1,
        running_places(runners, count).no_duplicates(),
        forall|k: int|
            0 <= k < running_places(runners, count).len() ==> (#[trigger] running_places(
                runners,
                count,
            )[k]) < count,
    decreases count,
{
    let before = running_places(runners, (count - 1) as nat);
    let after = running_places(runners, count);
    if count > 1 {
        law_running_runners_are_listed(
            runners,
            (count - 1) as nat,
            if i < count - 1 {
                i
            } else {
                0
            },
        );
    }
    let last = (count - 1) as usize;
    if runners[count - 1].1 {
        assert(after.last() == last);
        assert(after.drop_last() =~= before);
        if i < count - 1 {
            if before.contains(i as usize) {
                let k = choose|k: int| 0 <= k < before.len() && before[k] == i as usize;
                assert(after[k] == i as usize);
            }
            if after.contains(i as usize) {
                let k = choose|k: int| 0 <= k < after.len() && after[k] == i as usize;
                assert(before[k] == i as usize);
            }
        }
    }
}

/// A process is found by its thread, its runner and its name.
pub proof fn law_process_is_found(
    processes: Seq<ProcessView>,
    key: (i64, Seq<char>, Seq<char>),
    from: nat,
)
    ensures
        process_place(processes, key, from) matches Some(at) ==> from <= at < processes.len()
            && processes[at].0 == key,
        process_place(processes, key, from) is None <==> forall|k: int|
            from <= k < processes.len() ==> (#[trigger] processes[k]).0 != key,
    decreases processes.len() - from,
{
    if from < processes.len() {
        if processes[from as int].0 != key {
            law_process_is_found(processes, key, from + 1);
        }
    }
}

/// What is taken with threads is what belongs to them, and what is left is all else:
/// each process is in one of the two, in the order in which they stood.
pub proof fn law_processes_are_parted_by_their_threads(
    processes: Seq<ProcessView>,
    thread_ids: Seq<i64>,
    count: nat,
    i: int,
)
    requires
        0 <= i < count <= processes.len(),
    ensures
        ({
            let taken = selected(processes, thread_ids, true, count);
            let left = selected(processes, thread_ids, false, count);
            &&& taken.len() + left.len() == count
            &&& thread_ids.contains(processes[i].0.0) ==> taken.contains(processes[i])
            &&& !thread_ids.contains(processes[i].0.0) ==> left.contains(processes[i])
            &&& forall|k: int|
                0 <= k < taken.len() ==> thread_ids.contains((#[trigger] taken[k]).0.0)
            &&& forall|k: int|
                0 <= k < left.len() ==> !thread_ids.contains((#[trigger] left[k]).0.0)
        }),
    decreases count,
{
    let process = processes[count - 1];
    let taken = selected(processes, thread_ids, true, count);
    let left = selected(processes, thread_ids, false, count);
    let taken_before = selected(processes, thread_ids, true, (count - 1) as nat);
    let left_before = selected(processes, thread_ids, false, (count - 1) as nat);
    if count > 1 {
        law_processes_are_parted_by_their_threads(
            processes,
            thread_ids,
            (count - 1) as nat,
            if i < count - 1 {
                i
            } else {
                0
            },
        );
    }
    if belongs(process, thread_ids) {
        assert(taken.last() == process);
    } else {
        assert(left.last() == process);
    }
    if i < count - 1 {
        if thread_ids.contains(processes[i].0.0) {
            let k = choose|k: int| 0 <= k < taken_before.len() && taken_before[k] == processes[i];
            assert(taken[k] == processes[i]);
        } else {
            let k = choose|k: int| 0 <= k < left_before.len() && left_before[k] == processes[i];
            assert(left[k] == processes[i]);
        }
    }
}

/// The processes that can be looked at and those that cannot are parted by their
/// status: each is in one of the two.
pub proof fn law_processes_are_parted_by_their_status(
    statuses: Seq<ProcessStatus>,
    count: nat,
    i: int,
)
    requires
        0 <= i < count <= statuses.len() <= usize::MAX,
    ensures
        available_places(statuses, true, count).contains(i as usize) <==> !(statuses[i]
            is Unavailable),
        available_places(statuses, false, count).contains(i as usize) <==> statuses[i]
            is Unavailable,
        forall|k: int|
            0 <= k < available_places(statuses, true, count).len() ==> (
            #[trigger] available_places(statuses, true, count)[k]) < count,
        forall|k: int|
            0 <= k < available_places(statuses, false, count).len() ==> (
            #[trigger] available_places(statuses, false, count)[k]) < count,
    decreases count,
{
    if count > 1 {
        law_processes_are_parted_by_their_status(
            statuses,
            (count - 1) as nat,
            if i < count - 1 {
                i
            } else {
                0
            },
        );
    }
    lemma_place_is_kept(statuses, true, count, i);
    lemma_place_is_kept(statuses, false, count, i);
}

proof fn lemma_place_is_kept(statuses: Seq<ProcessStatus>, available: bool, count: nat, i: int)
    requires
        0 <= i < count <= statuses.len() <= usize::MAX,
        forall|k: int|
            0 <= k < available_places(statuses, available, (count - 1) as nat).len() ==> (
            #[trigger] available_places(statuses, available, (count - 1) as nat)[k]) < count - 1,
    ensures
        i < count - 1 ==> (available_places(statuses, available, count).contains(i as usize)
            <==> available_places(statuses, available, (count - 1) as nat).contains(i as usize)),
        i == count - 1 ==> (available_places(statuses, available, count).contains(i as usize)
            <==> (statuses[i] is Unavailable) == !available),
        forall|k: int|
            0 <= k < available_places(statuses, available, count).len() ==> (
            #[trigger] available_places(statuses, available, count)[k]) < count,
{
    let before = available_places(statuses, available, (count - 1) as nat);
    let after = available_places(statuses, available, count);
    let last = (count - 1) as usize;
    assert forall|k: int| 0 <= k < after.len() implies (#[trigger] after[k]) < count by {
        if k < before.len() {
            assert(after[k] == before[k]);
        }
    }
    if (statuses[count - 1] is Unavailable) == !available {
        assert(after.last() == last);
        if i < count - 1 {
            if before.contains(i as usize) {
                let k = choose|k: int| 0 <= k < before.len() && before[k] == i as usize;
                assert(after[k] == i as usize);
            }
            if after.contains(i as usize) {
                let k = choose|k: int| 0 <= k < after.len() && after[k] == i as usize;
                assert(before[k] == i as usize);
            }
        }
    }
}

/// The name of a process has a dash for each space, and is otherwise as it was given.
pub proof fn law_process_name_has_dashes(text: Seq<char>, k: int)
    requires
        0 <= k < text.len(),
    ensures
        dashed(text).len() == text.len(),
        text[k] == ' ' ==> dashed(text)[k] == '-',
        text[k] != ' ' ==> dashed(text)[k] == text[k],
{
}

/// A process that is shown keeps who runs it, its name, its command, when it started
/// and its status.
pub proof fn law_process_is_shown_as_recorded(
    key: ProcessKey,
    record: ProcessRecord,
    inspection: ProcessInspection,
    detail: (ManagedProcess, String, usize),
)
    requires
        call_ensures(process_detail, (&key, &record, inspection), detail),
    ensures
        detail.0.runner@ == key.runner@,
        detail.0.process_id@ == key.process_id@,
        detail.0.command@ == record.command@,
        detail.0.started_at_ms == record.started_at_ms,
        status_view(detail.0.status) == status_view(inspection.status),
        detail.1 == inspection.output_tail,
        detail.2 == inspection.omitted_bytes,
{
    assert(managed_view(detail.0).runner == key.runner@);
    assert(managed_view(detail.0).process_id == key.process_id@);
    assert(managed_view(detail.0).command == record.command@);
}

/// A process is recorded once under its key: a second one is refused and changes
/// nothing. What was recorded can be taken away, and then it is as if it never was.
pub proof fn law_process_is_recorded_once(
    first: &mut ProcessTable,
    again: &mut ProcessTable,
    removed: &mut ProcessTable,
    key: ProcessKey,
    record: ProcessRecord,
    other: ProcessRecord,
    inserted: bool,
    repeated: bool,
)
    requires
        call_ensures(ProcessTable::insert_process, (first, key, record), inserted),
        inserted,
        old(again)@ == final(first)@,
        call_ensures(ProcessTable::insert_process, (again, key, other), repeated),
        old(removed)@ == final(first)@,
        call_ensures(ProcessTable::remove_process, (removed, &key), ()),
    ensures
        final(first)@.len() == old(first)@.len() + 1,
        final(first)@.last() == (key_of(key), record_of(record)),
        !repeated,
        final(again)@ == final(first)@,
        final(removed)@ == old(first)@,
{
    lemma_place_of_pushed(old(first)@, key_of(key), record_of(record), 0);
    let table = final(first)@;
    assert(table.remove(table.len() - 1) =~= old(first)@);
}

proof fn lemma_place_of_pushed(
    processes: Seq<ProcessView>,
    key: (i64, Seq<char>, Seq<char>),
    record: (Seq<char>, Seq<char>, i64),
    from: nat,
)
    requires
        from <= processes.len(),
        process_place(processes, key, from) is None,
    ensures
        process_place(processes.push((key, record)), key, from) == Some(processes.len() as int),
    decreases processes.len() - from,
{
    if from < processes.len() {
        lemma_place_of_pushed(processes, key, record, from + 1);
    }
}

/// The list of runners holds those that run, and no other, in the order of their names.
pub proof fn law_list_holds_the_running(
    runners: Vec<(Runner, bool)>,
    listed: Vec<Runner>,
    i: int,
    k: int,
)
    requires
        call_ensures(list_runners, (&runners,), listed),
        0 <= i < runners@.len(),
        0 <= k < listed@.len(),
    ensures
        runners@[i].1 ==> exists|j: int|
            0 <= j < listed@.len() && runner_view(#[trigger] listed@[j]) == runner_view(
                runners@[i].0,
            ),
        exists|j: int|
            0 <= j < runners@.len() && (#[trigger] runners@[j]).1 && runner_view(listed@[k])
                == runner_view(runners@[j].0),
        k + 1 < listed@.len() ==> !crate::order::text_before(
            listed@[k + 1].name@,
            listed@[k].name@,
        ),
{
    let all = runners@;
    let places = running_places(all, all.len());
    assert(all.len() == runners.len());
    assert(listed@.len() == listed.len());
    law_running_runners_are_listed(all, all.len(), i);
    let order = choose|order: Seq<usize>|
        {
            &&& #[trigger] indices(order, places.len())
            &&& listed@.len() == places.len()
            &&& forall|i: int|
                0 <= i < listed@.len() ==> runner_view(#[trigger] listed@[i]) == runner_view(
                    all[places[order[i] as int] as int].0,
                )
        };
    if all[i].1 {
        let p = choose|p: int| 0 <= p < places.len() && places[p] == i as usize;
        assert(order.contains(p as usize));
        let j = choose|j: int| 0 <= j < order.len() && order[j] == p as usize;
        assert(order[j] as int == p);
        assert(runner_view(listed@[j]) == runner_view(all[places[p] as int].0));
    }
    let at = places[order[k] as int] as int;
    assert(places.contains(places[order[k] as int]));
    law_running_runners_are_listed(all, all.len(), at);
    assert(all[at].1);
    if k + 1 < listed@.len() {
        let names = runner_names(listed@);
        assert(names[k] == listed@[k].name@);
        assert(names[k + 1] == listed@[k + 1].name@);
    }
}

} // verus!
