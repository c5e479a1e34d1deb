//! What an agent may ask of the threads below it.
use crate::agent::hierarchy::{
    broken, connected, distinct, in_preorder, preorder, HierarchyError, Link, Thread, ThreadView,
};
use crate::agent::report::{agent_list_row, list_row};
use crate::event::contains_sequence;
use crate::order::{sort_ids, sort_ids_descending, sorted};
use crate::text::{
    concat2, concat4, decimal, decimal_text, has_prefix, has_suffix, is_blank, join, joined,
    same_text, split_first, split_once, views,
};
use vstd::prelude::*;

verus! {

/// Threads with their creators.
pub open spec fn links_of(threads: Seq<ThreadView>) -> Seq<Link> {
    Seq::new(
        threads.len(),
        |i: int| Link { id: threads[i].id, parent: threads[i].parent_thread_id },
    )
}

/// What threads stand for.
pub open spec fn thread_views(threads: Seq<Thread>) -> Seq<ThreadView> {
    Seq::new(threads.len(), |i: int| threads[i]@)
}

/// Whether rows list the threads below `root` with their depths, each before
/// those that it created.
pub open spec fn listed(
    root: i64,
    threads: Seq<ThreadView>,
    rows: Seq<(ThreadView, usize)>,
) -> bool {
    exists|walk: Seq<(usize, usize)>|
        #![trigger in_preorder(links_of(threads), root, walk)]
        {
            &&& in_preorder(links_of(threads), root, walk)
            &&& walk.len() == threads.len()
            &&& rows == Seq::new(
                walk.len(),
                |i: int| (threads[walk[i].0 as int], walk[i].1),
            )
        }
}

/// What rows stand for.
pub open spec fn row_views(rows: Seq<(Thread, usize)>) -> Seq<(ThreadView, usize)> {
    Seq::new(rows.len(), |i: int| (rows[i].0@, rows[i].1))
}

/// The threads below `root` with their depths, each before those that it
/// created.
pub fn recursive_preorder(root: i64, threads: Vec<Thread>) -> (result: Result<
    Vec<(Thread, usize)>,
    HierarchyError,
>)
    ensures
        match result {
            Ok(rows) => {
                &&& !broken(links_of(thread_views(threads@)))
                &&& distinct(links_of(thread_views(threads@)))
                &&& connected(links_of(thread_views(threads@)), root)
                &&& listed(root, thread_views(threads@), row_views(rows@))
            },
            Err(HierarchyError::Broken) => broken(links_of(thread_views(threads@))),
            Err(HierarchyError::Unreachable) => !broken(links_of(thread_views(threads@))) && !(
            distinct(links_of(thread_views(threads@))) && connected(
                links_of(thread_views(threads@)),
                root,
            )),
        },
{
    let mut links: Vec<Link> = Vec::new();
    let mut i: usize = 0;
    while i < threads.len()
        invariant
            i <= threads.len(),
            links.len() == i,
            forall|k: int|
                0 <= k < i ==> #[trigger] links[k] == links_of(thread_views(threads@))[k],
        decreases threads.len() - i,
    {
        links.push(Link { id: threads[i].id, parent: threads[i].parent_thread_id });
        i += 1;
    }
    assert(links@ =~= links_of(thread_views(threads@)));
    let walk = match preorder(root, &links) {
        Ok(walk) => walk,
        Err(error) => {
            return Err(error);
        },
    };
    let mut rows: Vec<(Thread, usize)> = Vec::new();
    let mut k: usize = 0;
    let ghost expected = Seq::new(
        walk@.len(),
        |j: int| (thread_views(threads@)[walk@[j].0 as int], walk@[j].1),
    );
    while k < walk.len()
        invariant
            k <= walk.len(),
            rows.len() == k,
            in_preorder(links@, root, walk@),
            links@.len() == threads@.len(),
            expected == Seq::new(
                walk@.len(),
                |j: int| (thread_views(threads@)[walk@[j].0 as int], walk@[j].1),
            ),
            forall|j: int|
                0 <= j < k ==> (#[trigger] rows[j]).0@ == expected[j].0 && rows[j].1
                    == expected[j].1,
        decreases walk.len() - k,
    {
        let (at, depth) = walk[k];
        assert(walk@[k as int].0 < links@.len());
        rows.push((threads[at].clone(), depth));
        k += 1;
    }
    assert(row_views(rows@) =~= expected);
    Ok(rows)
}

/// The first `count` of the numbers without those that came before.
pub open spec fn unrepeated(ids: Seq<i64>, count: nat) -> Seq<i64>
    decreases count,
{
    if count == 0 {
        Seq::empty()
    } else {
        let before = unrepeated(ids, (count - 1) as nat);
        if before.contains(ids[count - 1]) {
            before
        } else {
            before.push(ids[count - 1])
        }
    }
}

/// The numbers, each where it comes first.
pub fn normalize_requested_ids(thread_ids: Vec<i64>) -> (ids: Vec<i64>)
    ensures
        ids@ == unrepeated(thread_ids@, thread_ids@.len()),
{
    let mut ids: Vec<i64> = Vec::new();
    let mut i: usize = 0;
    while i < thread_ids.len()
        invariant
            i <= thread_ids.len(),
            ids@ == unrepeated(thread_ids@, i as nat),
        decreases thread_ids.len() - i,
    {
        if !contains_sequence(&ids, thread_ids[i]) {
            ids.push(thread_ids[i]);
        }
        i += 1;
    }
    ids
}

/// Every requested number is left, once.
pub proof fn law_requested_ids_are_kept_once(ids: Seq<i64>, id: i64)
    ensures
        unrepeated(ids, ids.len()).contains(id) <==> ids.contains(id),
        unrepeated(ids, ids.len()).no_duplicates(),
{
    lemma_unrepeated(ids, ids.len(), id);
    assert(ids.take(ids.len() as int) =~= ids);
}

proof fn lemma_unrepeated(ids: Seq<i64>, count: nat, id: i64)
    requires
        count <= ids.len(),
    ensures
        unrepeated(ids, count).contains(id) <==> ids.take(count as int).contains(id),
        unrepeated(ids, count).no_duplicates(),
    decreases count,
{
    if count > 0 {
        lemma_unrepeated(ids, (count - 1) as nat, id);
        let before = unrepeated(ids, (count - 1) as nat);
        let last = ids[count - 1];
        let taken = ids.take(count - 1);
        assert(ids.take(count as int) =~= taken.push(last));
        assert(ids.take(count as int)[count - 1] == last);
        if taken.contains(id) {
            let k = choose|k: int| 0 <= k < taken.len() && taken[k] == id;
            assert(ids.take(count as int)[k] == id);
        }
        if ids.take(count as int).contains(id) && id != last {
            let k = choose|k: int|
                0 <= k < ids.take(count as int).len() && ids.take(count as int)[k] == id;
            assert(taken[k] == id);
        }
        if !before.contains(last) {
            let after = before.push(last);
            assert(after[before.len() as int] == last);
            if before.contains(id) {
                let k = choose|k: int| 0 <= k < before.len() && before[k] == id;
                assert(after[k] == id);
            }
            if after.contains(id) && id != last {
                let k = choose|k: int| 0 <= k < after.len() && after[k] == id;
                assert(before[k] == id);
            }
        }
    }
}

/// Whether the snapshot of another thread holds the thread at `at`.
pub open spec fn covered_by_other(snapshots: Seq<(i64, Vec<i64>)>, id: i64) -> bool {
    exists|k: int|
        0 <= k < snapshots.len() && (#[trigger] snapshots[k]).0 != id
            && snapshots[k].1@.contains(id)
}

/// Whether a number is the key of a snapshot.
pub open spec fn is_target(snapshots: Seq<(i64, Vec<i64>)>, id: i64) -> bool {
    exists|k: int| 0 <= k < snapshots.len() && (#[trigger] snapshots[k]).0 == id
}

fn is_covered_by_other(snapshots: &Vec<(i64, Vec<i64>)>, id: i64) -> (covered: bool)
    ensures
        covered == covered_by_other(snapshots@, id),
{
    let mut i: usize = 0;
    while i < snapshots.len()
        invariant
            i <= snapshots.len(),
            forall|k: int|
                0 <= k < i ==> (#[trigger] snapshots[k]).0 == id || !snapshots[k].1@.contains(id),
        decreases snapshots.len() - i,
    {
        if snapshots[i].0 != id && contains_sequence(&snapshots[i].1, id) {
            return true;
        }
        i += 1;
    }
    false
}

/// The threads whose subtrees hold all that is to be deleted: those that no
/// other subtree holds, by growing numbers.
pub fn normalized_delete_roots(snapshots: &Vec<(i64, Vec<i64>)>) -> (roots: Vec<i64>)
    requires
        forall|i: int, j: int|
            0 <= i < j < snapshots.len() ==> (#[trigger] snapshots[i]).0 != (
            #[trigger] snapshots[j]).0,
    ensures
        sorted(roots@),
        roots@.no_duplicates(),
        forall|id: i64|
            #[trigger] roots@.contains(id) <==> is_target(snapshots@, id) && !covered_by_other(
                snapshots@,
                id,
            ),
{
    let mut found: Vec<i64> = Vec::new();
    let mut i: usize = 0;
    while i < snapshots.len()
        invariant
            i <= snapshots.len(),
            forall|a: int, b: int|
                0 <= a < b < snapshots.len() ==> (#[trigger] snapshots[a]).0 != (
                #[trigger] snapshots[b]).0,
            found@.no_duplicates(),
            forall|k: int|
                0 <= k < found.len() ==> exists|m: int|
                    0 <= m < i && (#[trigger] snapshots[m]).0 == #[trigger] found[k],
            forall|k: int|
                0 <= k < found.len() ==> !covered_by_other(snapshots@, #[trigger] found[k]),
            forall|m: int|
                0 <= m < i && !covered_by_other(snapshots@, (#[trigger] snapshots[m]).0)
                    ==> found@.contains(snapshots[m].0),
        decreases snapshots.len() - i,
    {
        let id = snapshots[i].0;
        let ghost before = found@;
        if !is_covered_by_other(snapshots, id) {
            found.push(id);
            proof {
                assert(!before.contains(id)) by {
                    if before.contains(id) {
                        let k = choose|k: int| 0 <= k < before.len() && before[k] == id;
                        let m = choose|m: int|
                            0 <= m < i && (#[trigger] snapshots[m]).0 == before[k];
                        assert(snapshots[m].0 != snapshots[i as int].0);
                    }
                }
                assert(found@[before.len() as int] == id);
            }
        }
        proof {
            assert forall|k: int| 0 <= k < found.len() implies exists|m: int|
                0 <= m < i + 1 && (#[trigger] snapshots[m]).0 == #[trigger] found[k] by {
                if k < before.len() {
                    assert(found[k] == before[k]);
                    let m = choose|m: int| 0 <= m < i && (#[trigger] snapshots[m]).0 == before[k];
                    assert(snapshots[m].0 == found[k]);
                } else {
                    assert(snapshots[i as int].0 == found[k]);
                }
            }
            assert forall|m: int|
                0 <= m < i + 1 && !covered_by_other(
                    snapshots@,
                    (#[trigger] snapshots[m]).0,
                ) implies found@.contains(snapshots[m].0) by {
                if m < i {
                    assert(before.contains(snapshots[m].0));
                    let k = choose|k: int| 0 <= k < before.len() && before[k] == snapshots[m].0;
                    assert(found@[k] == snapshots[m].0);
                }
            }
        }
        i += 1;
    }
    let roots = sort_ids(&found);
    proof {
        found@.to_multiset_ensures();
        roots@.to_multiset_ensures();
        found@.lemma_multiset_has_no_duplicates();
        assert forall|id: i64| #[trigger] roots@.contains(id) <==> is_target(snapshots@, id)
            && !covered_by_other(snapshots@, id) by {
            assert(roots@.contains(id) <==> roots@.to_multiset().count(id) > 0);
            assert(found@.contains(id) <==> found@.to_multiset().count(id) > 0);
            if found@.contains(id) {
                let k = choose|k: int| 0 <= k < found@.len() && found@[k] == id;
                assert(found[k] == id);
            }
        }
        roots@.lemma_multiset_has_no_duplicates_conv();
    }
    roots
}

/// Why an agent is refused.
#[derive(Clone, Copy, Debug, PartialEq, Eq, Structural)]
pub enum AgentError {
    EmptyName,
    DelegationForbidden,
    ModelFormat,
    NotDescendant { target: i64, invoking: i64 },
    HasDescendants,
    NoTarget,
    NotCovered,
    ExpiredContext,
}

impl AgentError {
    /// What the agent is told.
    pub open spec fn words(self) -> Seq<char> {
        match self {
            AgentError::EmptyName => "agent name must not be empty"@,
            AgentError::DelegationForbidden => {
                "this subagent is not allowed to create child agents"@
            },
            AgentError::ModelFormat => "model must be provider/model"@,
            AgentError::NotDescendant { target, invoking } => "thread "@ + decimal(target as int)
                + " is not a descendant of invoking thread "@ + decimal(invoking as int),
            AgentError::HasDescendants => {
                "cannot delete a thread with descendants without recursive deletion"@
            },
            AgentError::NoTarget => "at least one wait target is required"@,
            AgentError::NotCovered => {
                "delete target was not covered by its normalized snapshot"@
            },
            AgentError::ExpiredContext => "agent execution context has expired"@,
        }
    }

    /// What the agent is told.
    pub fn message(&self) -> (text: String)
        ensures
            text@ == self.words(),
    {
        match self {
            AgentError::EmptyName => "agent name must not be empty".to_owned(),
            AgentError::DelegationForbidden => {
                "this subagent is not allowed to create child agents".to_owned()
            },
            AgentError::ModelFormat => "model must be provider/model".to_owned(),
            AgentError::NotDescendant { target, invoking } => {
                let target = decimal_text(*target as i128);
                let invoking = decimal_text(*invoking as i128);
                concat4(
                    "thread ",
                    target.as_str(),
                    " is not a descendant of invoking thread ",
                    invoking.as_str(),
                )
            },
            AgentError::HasDescendants => {
                "cannot delete a thread with descendants without recursive deletion".to_owned()
            },
            AgentError::NoTarget => "at least one wait target is required".to_owned(),
            AgentError::NotCovered => {
                "delete target was not covered by its normalized snapshot".to_owned()
            },
            AgentError::ExpiredContext => "agent execution context has expired".to_owned(),
        }
    }
}

/// The thread that an agent runs in, by the context that it was given.
pub open spec fn context_thread(contexts: Seq<(String, i64)>, key: Seq<char>, from: nat) -> Option<
    i64,
>
    decreases contexts.len() - from,
{
    if from >= contexts.len() {
        None
    } else if contexts[from as int].0@ == key {
        Some(contexts[from as int].1)
    } else {
        context_thread(contexts, key, from + 1)
    }
}

/// The thread that an agent runs in. Without a context nothing is allowed.
pub fn invoking_thread(contexts: &Vec<(String, i64)>, key: &str) -> (result: Result<
    i64,
    AgentError,
>)
    ensures
        result == match context_thread(contexts@, key@, 0) {
            Some(thread) => Ok::<i64, AgentError>(thread),
            None => Err(AgentError::ExpiredContext),
        },
{
    let mut i: usize = 0;
    while i < contexts.len()
        invariant
            i <= contexts.len(),
            context_thread(contexts@, key@, 0) == context_thread(contexts@, key@, i as nat),
        decreases contexts.len() - i,
    {
        if same_text(contexts[i].0.as_str(), key) {
            return Ok(contexts[i].1);
        }
        i += 1;
    }
    Err(AgentError::ExpiredContext)
}

/// Whether there is something to wait for.
pub fn check_wait_targets(targets: &Vec<i64>) -> (result: Result<(), AgentError>)
    ensures
        result == (if targets.len() == 0 {
            Err::<(), AgentError>(AgentError::NoTarget)
        } else {
            Ok(())
        }),
{
    if targets.len() == 0 {
        return Err(AgentError::NoTarget);
    }
    Ok(())
}

/// The lines of the list of threads: the agent's own, and those below it.
pub open spec fn list_rows(
    root: ThreadView,
    root_status: Seq<char>,
    rows: Seq<(ThreadView, usize)>,
    statuses: Seq<Seq<char>>,
) -> Seq<Seq<char>> {
    Seq::new(
        rows.len() + 1,
        |i: int|
            if i == 0 {
                list_row(root, 0, root_status)
            } else {
                list_row(rows[i - 1].0, rows[i - 1].1 as nat, statuses[i - 1])
            },
    )
}

/// The list of threads: the agent's own, and those below it.
pub fn agent_list(
    root: &Thread,
    root_status: &str,
    rows: &Vec<(Thread, usize)>,
    statuses: &Vec<String>,
) -> (text: String)
    requires
        statuses.len() == rows.len(),
    ensures
        text@ == joined(
            list_rows(root@, root_status@, row_views(rows@), views(statuses@)),
            "\n"@,
        ),
{
    let mut lines: Vec<String> = Vec::new();
    lines.push(agent_list_row(root, 0, root_status));
    let ghost expected = list_rows(root@, root_status@, row_views(rows@), views(statuses@));
    let mut i: usize = 0;
    while i < rows.len()
        invariant
            i <= rows.len(),
            statuses.len() == rows.len(),
            lines.len() == i + 1,
            expected == list_rows(root@, root_status@, row_views(rows@), views(statuses@)),
            forall|k: int| 0 <= k < lines.len() ==> #[trigger] lines[k]@ == expected[k],
        decreases rows.len() - i,
    {
        lines.push(agent_list_row(&rows[i].0, rows[i].1, statuses[i].as_str()));
        assert(row_views(rows@)[i as int] == (rows[i as int].0@, rows[i as int].1));
        i += 1;
    }
    assert(views(lines@) =~= expected);
    join(&lines, "\n")
}

/// Whether an agent may act on a thread: only on those below its own.
pub fn authorize_descendant(invoking: i64, target: i64, below: bool) -> (result: Result<
    (),
    AgentError,
>)
    ensures
        match result {
            Ok(()) => target != invoking && below,
            Err(error) => (target == invoking || !below) && error == (
            AgentError::NotDescendant { target, invoking }),
        },
{
    if target == invoking || !below {
        return Err(AgentError::NotDescendant { target, invoking });
    }
    Ok(())
}

/// What a new agent runs with.
#[derive(Debug)]
pub struct AgentSettings {
    pub provider: String,
    pub model: String,
    pub reasoning_effort: String,
}

/// What an [`AgentSettings`] stands for.
pub struct SettingsView {
    pub provider: Seq<char>,
    pub model: Seq<char>,
    pub reasoning_effort: Seq<char>,
}

impl View for AgentSettings {
    type V = SettingsView;

    open spec fn view(&self) -> SettingsView {
        SettingsView {
            provider: self.provider@,
            model: self.model@,
            reasoning_effort: self.reasoning_effort@,
        }
    }
}

/// What a new agent runs with: what is asked for, else what its creator runs
/// with.
pub open spec fn settings(
    name: Seq<char>,
    model: Option<Seq<char>>,
    effort: Option<Seq<char>>,
    parent: ThreadView,
    delegation_allowed: bool,
) -> Result<SettingsView, AgentError> {
    let reasoning_effort = match effort {
        Some(effort) => effort,
        None => parent.reasoning_effort,
    };
    if crate::text::blank(name) {
        Err(AgentError::EmptyName)
    } else if parent.parent_thread_id is Some && !delegation_allowed {
        Err(AgentError::DelegationForbidden)
    } else {
        match model {
            Some(profile) => match split_first(profile, '/') {
                Some((provider, model)) => Ok(
                    SettingsView { provider, model, reasoning_effort },
                ),
                None => Err(AgentError::ModelFormat),
            },
            None => Ok(
                SettingsView {
                    provider: parent.provider,
                    model: parent.model,
                    reasoning_effort,
                },
            ),
        }
    }
}

/// What a new agent runs with. A thread that an agent created needs leave to
/// create agents of its own.
pub fn agent_settings(
    name: &str,
    model: &Option<String>,
    effort: &Option<String>,
    parent: &Thread,
    delegation_allowed: bool,
) -> (result: Result<AgentSettings, AgentError>)
    ensures
        match result {
            Ok(found) => settings(
                name@,
                crate::text::view_option(*model),
                crate::text::view_option(*effort),
                parent@,
                delegation_allowed,
            ) == Ok::<SettingsView, AgentError>(found@),
            Err(error) => settings(
                name@,
                crate::text::view_option(*model),
                crate::text::view_option(*effort),
                parent@,
                delegation_allowed,
            ) == Err::<SettingsView, AgentError>(error),
        },
{
    if is_blank(name) {
        return Err(AgentError::EmptyName);
    }
    if parent.parent_thread_id.is_some() && !delegation_allowed {
        return Err(AgentError::DelegationForbidden);
    }
    let reasoning_effort = match effort {
        Some(effort) => effort.clone(),
        None => parent.reasoning_effort.clone(),
    };
    match model {
        Some(profile) => match split_once(profile.as_str(), '/') {
            Some((provider, model)) => Ok(AgentSettings { provider, model, reasoning_effort }),
            None => Err(AgentError::ModelFormat),
        },
        None => Ok(
            AgentSettings {
                provider: parent.provider.clone(),
                model: parent.model.clone(),
                reasoning_effort,
            },
        ),
    }
}

/// The requested cancellations.
pub struct Cancellation {
    ordered: Vec<i64>,
    rows: Vec<String>,
    success: bool,
}

/// What a [`Cancellation`] stands for: the threads to cancel in order, what is
/// told of them, and whether nothing was refused.
pub struct CancellationView {
    pub ordered: Seq<i64>,
    pub rows: Seq<Seq<char>>,
    pub success: bool,
}

impl View for Cancellation {
    type V = CancellationView;

    closed spec fn view(&self) -> CancellationView {
        CancellationView {
            ordered: self.ordered@,
            rows: views(self.rows@),
            success: self.success,
        }
    }
}

/// What is told of a thread.
pub open spec fn thread_row(id: i64, key: Seq<char>, value: Seq<char>) -> Seq<char> {
    "thread="@ + decimal(id as int) + key + value
}

fn thread_row_text(id: i64, key: &str, value: &str) -> (text: String)
    ensures
        text@ == thread_row(id, key@, value@),
{
    let id = decimal_text(id as i128);
    concat4("thread=", id.as_str(), key, value)
}

impl CancellationView {
    /// The first `count` of `ids` accepted, without those that were already.
    pub open spec fn with(self, ids: Seq<i64>, count: nat) -> CancellationView
        decreases count,
    {
        if count == 0 {
            self
        } else {
            let before = self.with(ids, (count - 1) as nat);
            let id = ids[count - 1];
            if before.ordered.contains(id) {
                before
            } else {
                CancellationView {
                    ordered: before.ordered.push(id),
                    rows: before.rows.push(thread_row(id, " status="@, "accepted"@)),
                    ..before
                }
            }
        }
    }

    /// A refused request.
    pub open spec fn refused(self, requested: i64, error: Seq<char>) -> CancellationView {
        CancellationView {
            rows: self.rows.push(thread_row(requested, " error="@, error)),
            success: false,
            ..self
        }
    }
}

impl Cancellation {
    /// Nothing requested yet.
    pub fn new() -> (cancellation: Self)
        ensures
            cancellation@ == (CancellationView {
                ordered: Seq::empty(),
                rows: Seq::empty(),
                success: true,
            }),
    {
        let cancellation = Cancellation { ordered: Vec::new(), rows: Vec::new(), success: true };
        assert(views(cancellation.rows@) =~= Seq::empty());
        assert(cancellation.ordered@ =~= Seq::empty());
        cancellation
    }

    /// Whether a thread is cancelled already by an earlier request.
    pub fn covers(&self, requested: i64) -> (covered: bool)
        ensures
            covered == self@.ordered.contains(requested),
    {
        contains_sequence(&self.ordered, requested)
    }

    /// Takes the threads that a request is for.
    pub fn accept(&mut self, ids: &Vec<i64>)
        ensures
            final(self)@ == old(self)@.with(ids@, ids@.len()),
    {
        let mut i: usize = 0;
        while i < ids.len()
            invariant
                i <= ids.len(),
                self@ == old(self)@.with(ids@, i as nat),
            decreases ids.len() - i,
        {
            let id = ids[i];
            if !contains_sequence(&self.ordered, id) {
                let ghost before = self@;
                self.ordered.push(id);
                self.rows.push(thread_row_text(id, " status=", "accepted"));
                assert(self@.rows =~= before.rows.push(
                    thread_row(id, " status="@, "accepted"@),
                ));
            }
            i += 1;
        }
    }

    /// Notes that a request was refused.
    pub fn refuse(&mut self, requested: i64, error: &str)
        ensures
            final(self)@ == old(self)@.refused(requested, error@),
    {
        let ghost before = self@;
        self.rows.push(thread_row_text(requested, " error=", error));
        self.success = false;
        assert(self@.rows =~= before.rows.push(thread_row(requested, " error="@, error@)));
    }

    /// The threads to cancel, in order.
    pub fn ordered(&self) -> (ids: &Vec<i64>)
        ensures
            ids@ == self@.ordered,
    {
        &self.ordered
    }

    /// What the agent is told, and whether nothing was refused.
    pub fn answer(&self) -> (result: (String, bool))
        ensures
            result.0@ == joined(self@.rows, "\n"@),
            result.1 == self@.success,
    {
        (join(&self.rows, "\n"), self.success)
    }
}

/// No thread is cancelled twice, whatever is requested.
pub proof fn law_cancelled_once(state: CancellationView, ids: Seq<i64>, count: nat)
    requires
        state.ordered.no_duplicates(),
        count <= ids.len(),
    ensures
        state.with(ids, count).ordered.no_duplicates(),
        forall|k: int| 0 <= k < count ==> state.with(ids, count).ordered.contains(#[trigger] ids[k]),
    decreases count,
{
    if count > 0 {
        law_cancelled_once(state, ids, (count - 1) as nat);
        let before = state.with(ids, (count - 1) as nat);
        let after = state.with(ids, count);
        let id = ids[count - 1];
        if !before.ordered.contains(id) {
            assert(after.ordered[before.ordered.len() as int] == id);
            assert forall|k: int| 0 <= k < count implies after.ordered.contains(#[trigger] ids[k]) by {
                if k < count - 1 {
                    let m = choose|m: int|
                        0 <= m < before.ordered.len() && before.ordered[m] == ids[k];
                    assert(after.ordered[m] == ids[k]);
                }
            }
        }
    }
}

/// A thread to delete: its subtree, or why it is refused.
#[derive(Debug)]
pub struct DeleteTarget {
    pub id: i64,
    pub snapshot: Result<Vec<i64>, String>,
}

/// The subtree of a thread from the threads below it.
pub open spec fn subtree(id: i64, recursive: bool, descendants: Seq<i64>) -> Option<Seq<i64>> {
    if !recursive && descendants.len() > 0 {
        None
    } else {
        Some(descendants.push(id))
    }
}

/// A thread to delete, from the threads below it or from why it is refused.
pub fn delete_target(id: i64, recursive: bool, descendants: Result<Vec<i64>, String>) -> (target:
    DeleteTarget)
    ensures
        target.id == id,
        match descendants {
            Ok(descendants) => match (target.snapshot, subtree(id, recursive, descendants@)) {
                (Ok(snapshot), Some(expected)) => snapshot@ == expected,
                (Err(error), None) => error@ == AgentError::HasDescendants.words(),
                _ => false,
            },
            Err(error) => target.snapshot matches Err(found) && found@ == error@,
        },
{
    match descendants {
        Ok(descendants) => {
            if !recursive && descendants.len() > 0 {
                DeleteTarget { id, snapshot: Err(AgentError::HasDescendants.message()) }
            } else {
                let mut snapshot = descendants;
                snapshot.push(id);
                DeleteTarget { id, snapshot: Ok(snapshot) }
            }
        },
        Err(error) => DeleteTarget { id, snapshot: Err(error) },
    }
}

/// The threads of a subtree in the order in which they are deleted: the largest
/// number first.
pub fn delete_order(snapshot: &Vec<i64>) -> (ids: Vec<i64>)
    ensures
        sorted(ids@.reverse()),
        ids@.to_multiset() == snapshot@.to_multiset(),
{
    sort_ids_descending(snapshot)
}

/// The threads to delete with a thread, in the order in which they are deleted.
pub fn delete_subtree(thread_id: i64, recursive: bool, descendants: Vec<i64>) -> (result: Result<
    Vec<i64>,
    AgentError,
>)
    ensures
        match (result, subtree(thread_id, recursive, descendants@)) {
            (Ok(ids), Some(expected)) => sorted(ids@.reverse()) && ids@.to_multiset()
                == expected.to_multiset(),
            (Err(error), None) => error == AgentError::HasDescendants,
            _ => false,
        },
{
    if !recursive && descendants.len() > 0 {
        return Err(AgentError::HasDescendants);
    }
    let mut ids = descendants;
    ids.push(thread_id);
    Ok(sort_ids_descending(&ids))
}

/// What came of deleting the subtree of a root.
#[derive(Debug)]
pub struct DeleteOutcome {
    pub root: i64,
    pub result: Result<(), String>,
}

/// The subtree of a target.
pub open spec fn snapshot_of(targets: Seq<DeleteTarget>, root: i64, from: nat) -> Option<Seq<i64>>
    decreases targets.len() - from,
{
    if from >= targets.len() {
        None
    } else if targets[from as int].id == root {
        match targets[from as int].snapshot {
            Ok(snapshot) => Some(snapshot@),
            Err(_) => None,
        }
    } else {
        snapshot_of(targets, root, from + 1)
    }
}

/// The first outcome of a root whose subtree holds a thread.
pub open spec fn outcome_for(
    targets: Seq<DeleteTarget>,
    outcomes: Seq<DeleteOutcome>,
    id: i64,
    from: nat,
) -> Option<Result<(), Seq<char>>>
    decreases outcomes.len() - from,
{
    if from >= outcomes.len() {
        None
    } else {
        let outcome = outcomes[from as int];
        if snapshot_of(targets, outcome.root, 0) matches Some(snapshot) && snapshot.contains(id) {
            Some(
                match outcome.result {
                    Ok(()) => Ok(()),
                    Err(error) => Err(error@),
                },
            )
        } else {
            outcome_for(targets, outcomes, id, from + 1)
        }
    }
}

/// What came of deleting a target.
pub open spec fn deleted(
    targets: Seq<DeleteTarget>,
    outcomes: Seq<DeleteOutcome>,
    at: int,
) -> Option<Result<(), Seq<char>>> {
    match targets[at].snapshot {
        Err(error) => Some(Err(error@)),
        Ok(_) => outcome_for(targets, outcomes, targets[at].id, 0),
    }
}

/// What is told of a target.
pub open spec fn deleted_row(id: i64, result: Result<(), Seq<char>>) -> Seq<char> {
    match result {
        Ok(()) => thread_row(id, " status="@, "deleted"@),
        Err(error) => thread_row(id, " error="@, error),
    }
}

/// What is told of the first `count` targets, and whether all were deleted.
pub open spec fn deletion(
    targets: Seq<DeleteTarget>,
    outcomes: Seq<DeleteOutcome>,
    count: nat,
) -> Option<(Seq<Seq<char>>, bool)>
    decreases count,
{
    if count == 0 {
        Some((Seq::empty(), true))
    } else {
        match (
            deletion(targets, outcomes, (count - 1) as nat),
            deleted(targets, outcomes, count - 1),
        ) {
            (Some((rows, success)), Some(result)) => Some(
                (rows.push(deleted_row(targets[count - 1].id, result)), success && result is Ok),
            ),
            _ => None,
        }
    }
}

fn find_snapshot(targets: &Vec<DeleteTarget>, root: i64) -> (snapshot: Option<&Vec<i64>>)
    ensures
        match snapshot {
            Some(snapshot) => snapshot_of(targets@, root, 0) == Some(snapshot@),
            None => snapshot_of(targets@, root, 0) is None,
        },
{
    let mut i: usize = 0;
    while i < targets.len()
        invariant
            i <= targets.len(),
            snapshot_of(targets@, root, 0) == snapshot_of(targets@, root, i as nat),
        decreases targets.len() - i,
    {
        if targets[i].id == root {
            return match &targets[i].snapshot {
                Ok(snapshot) => Some(snapshot),
                Err(_) => None,
            };
        }
        i += 1;
    }
    None
}

fn find_outcome(targets: &Vec<DeleteTarget>, outcomes: &Vec<DeleteOutcome>, id: i64) -> (found:
    Option<usize>)
    ensures
        match found {
            Some(at) => at < outcomes.len() && outcome_for(targets@, outcomes@, id, 0) == Some(
                match outcomes[at as int].result {
                    Ok(()) => Ok::<(), Seq<char>>(()),
                    Err(error) => Err(error@),
                },
            ),
            None => outcome_for(targets@, outcomes@, id, 0) is None,
        },
{
    let mut i: usize = 0;
    while i < outcomes.len()
        invariant
            i <= outcomes.len(),
            outcome_for(targets@, outcomes@, id, 0) == outcome_for(
                targets@,
                outcomes@,
                id,
                i as nat,
            ),
        decreases outcomes.len() - i,
    {
        let held = match find_snapshot(targets, outcomes[i].root) {
            Some(snapshot) => contains_sequence(snapshot, id),
            None => false,
        };
        if held {
            return Some(i);
        }
        i += 1;
    }
    None
}

proof fn lemma_deletion_stops(
    targets: Seq<DeleteTarget>,
    outcomes: Seq<DeleteOutcome>,
    count: nat,
    total: nat,
)
    requires
        deletion(targets, outcomes, count) is None,
        count <= total,
    ensures
        deletion(targets, outcomes, total) is None,
    decreases total - count,
{
    if count < total {
        lemma_deletion_stops(targets, outcomes, count + 1, total);
    }
}

/// What the agent is told after deletions, and whether all went well. A target
/// is told what came of the root whose subtree holds it.
pub fn deletion_answer(targets: &Vec<DeleteTarget>, outcomes: &Vec<DeleteOutcome>) -> (result:
    Result<(String, bool), AgentError>)
    ensures
        match (result, deletion(targets@, outcomes@, targets@.len())) {
            (Ok((text, success)), Some((rows, expected))) => text@ == joined(rows, "\n"@)
                && success == expected,
            (Err(error), None) => error == AgentError::NotCovered,
            _ => false,
        },
{
    let mut rows: Vec<String> = Vec::new();
    let mut success = true;
    let mut i: usize = 0;
    assert(views(rows@) =~= Seq::empty());
    while i < targets.len()
        invariant
            i <= targets.len(),
            deletion(targets@, outcomes@, i as nat) == Some((views(rows@), success)),
        decreases targets.len() - i,
    {
        let target = &targets[i];
        let ghost before = views(rows@);
        match &target.snapshot {
            Err(error) => {
                rows.push(thread_row_text(target.id, " error=", error.as_str()));
                success = false;
            },
            Ok(_) => match find_outcome(targets, outcomes, target.id) {
                None => {
                    proof {
                        lemma_deletion_stops(
                            targets@,
                            outcomes@,
                            (i + 1) as nat,
                            targets@.len(),
                        );
                    }
                    return Err(AgentError::NotCovered);
                },
                Some(at) => match &outcomes[at].result {
                    Ok(()) => {
                        rows.push(thread_row_text(target.id, " status=", "deleted"));
                    },
                    Err(error) => {
                        rows.push(thread_row_text(target.id, " error=", error.as_str()));
                        success = false;
                    },
                },
            },
        }
        assert(views(rows@) =~= before.push(rows@.last()@));
        i += 1;
    }
    Ok((join(&rows, "\n"), success))
}

/// The answer to a request: its output, or what went wrong.
pub fn agent_answer(result: Result<(String, bool), AgentError>) -> (answer: (String, bool))
    ensures
        match result {
            Ok((output, success)) => answer.0@ == output@ && answer.1 == success,
            Err(error) => answer.0@ == error.words() && !answer.1,
        },
{
    match result {
        Ok((output, success)) => (output, success),
        Err(error) => (error.message(), false),
    }
}

/// What happens while a turn is waited for.
#[derive(Clone, Copy, Debug, PartialEq, Eq, Structural)]
pub enum WaitEvent {
    /// The turn was looked at.
    Seen { finished: bool, pending_question: bool },
    /// Something was told of the turn: that it is over, or something else.
    Told { over: bool },
    /// The time that was given is up.
    Deadline,
    /// A short time went by.
    Tick,
}

/// What is done while a turn is waited for.
#[derive(Clone, Copy, Debug, PartialEq, Eq, Structural)]
pub enum WaitStep {
    Done,
    /// The next thing that happens is waited for.
    Sleep,
    /// The turn is looked at again.
    Look,
}

/// What is done while a turn is waited for: it ends with the turn, with a
/// question that somebody must answer first, or with the time that was given.
pub fn wait_for_turn(event: WaitEvent) -> (step: WaitStep)
    ensures
        step == (match event {
            WaitEvent::Seen { finished, pending_question } => if finished || pending_question {
                WaitStep::Done
            } else {
                WaitStep::Sleep
            },
            WaitEvent::Told { over } => if over {
                WaitStep::Done
            } else {
                WaitStep::Look
            },
            WaitEvent::Deadline => WaitStep::Done,
            WaitEvent::Tick => WaitStep::Look,
        }),
{
    match event {
        WaitEvent::Seen { finished, pending_question } => if finished || pending_question {
            WaitStep::Done
        } else {
            WaitStep::Sleep
        },
        WaitEvent::Told { over } => if over {
            WaitStep::Done
        } else {
            WaitStep::Look
        },
        WaitEvent::Deadline => WaitStep::Done,
        WaitEvent::Tick => WaitStep::Look,
    }
}

/// What an agent is told of a thread that it created.
pub fn created(thread_id: i64) -> (text: String)
    ensures
        text@ == "thread_id="@ + decimal(thread_id as int),
{
    concat2("thread_id=", decimal_text(thread_id as i128).as_str())
}

/// What an agent is told of a message that it sent: the events before it.
pub fn sent(after: i64) -> (text: String)
    ensures
        text@ == "after_sequence="@ + decimal(after as int),
{
    concat2("after_sequence=", decimal_text(after as i128).as_str())
}

/// Waiting for a turn ends where the turn is over, where it has a question for the
/// user, or where the time is up; until then the turn is looked at again when
/// something is told of it or a short time went by.
pub proof fn law_wait_ends_with_the_turn(event: WaitEvent, step: WaitStep)
    requires
        call_ensures(wait_for_turn, (event,), step),
    ensures
        step is Done <==> event is Deadline || (event matches WaitEvent::Told { over } && over) || (
        event matches WaitEvent::Seen { finished, pending_question } && (finished
            || pending_question)),
        step is Look <==> event is Tick || (event matches WaitEvent::Told { over } && !over),
        step is Sleep <==> (event matches WaitEvent::Seen { finished, pending_question }
            && !finished && !pending_question),
{
}

/// What a new agent runs with: the provider and the model that are asked for, which
/// the first slash parts, and the effort that is asked for; and what is not asked for
/// it has from the thread that asks. An agent without a name, one below a thread that
/// may not delegate, and a model without its provider are refused.
pub proof fn law_agent_runs_with_what_is_asked(
    name: Seq<char>,
    model: Option<Seq<char>>,
    effort: Option<Seq<char>>,
    parent: ThreadView,
    delegation_allowed: bool,
)
    ensures
        ({
            let result = settings(name, model, effort, parent, delegation_allowed);
            &&& result matches Ok(found) ==> {
                &&& model matches Some(profile) ==> profile == found.provider + seq!['/']
                    + found.model && !found.provider.contains('/')
                &&& model is None ==> found.provider == parent.provider && found.model
                    == parent.model
                &&& effort matches Some(effort) ==> found.reasoning_effort == effort
                &&& effort is None ==> found.reasoning_effort == parent.reasoning_effort
            }
            &&& crate::text::blank(name) <==> result == Err::<SettingsView, AgentError>(
                AgentError::EmptyName,
            )
            &&& result == Err::<SettingsView, AgentError>(AgentError::DelegationForbidden)
                <==> !crate::text::blank(name) && parent.parent_thread_id is Some
                && !delegation_allowed
            &&& result == Err::<SettingsView, AgentError>(AgentError::ModelFormat)
                <==> !crate::text::blank(name) && (parent.parent_thread_id is None
                || delegation_allowed) && (model matches Some(profile) && !profile.contains('/'))
        }),
{
    if let Some(profile) = model {
        crate::text::lemma_split_first(profile, '/');
    }
}

/// A request that was refused is told, and the answer is then no success, whatever is
/// accepted after it. A thread that is accepted for the first time is told once.
pub proof fn law_cancellation_is_told(
    state: CancellationView,
    requested: i64,
    error: Seq<char>,
    ids: Seq<i64>,
    count: nat,
)
    requires
        0 < count <= ids.len(),
    ensures
        ({
            let after = state.refused(requested, error);
            &&& !after.success
            &&& after.ordered == state.ordered
            &&& after.rows.drop_last() == state.rows && after.rows.len() == state.rows.len() + 1
            &&& has_prefix(after.rows.last(), "thread="@ + decimal(requested as int))
            &&& has_suffix(after.rows.last(), " error="@ + error)
        }),
        ({
            let before = state.with(ids, (count - 1) as nat);
            let after = state.with(ids, count);
            let id = ids[count - 1];
            &&& state.with(ids, 0) == state
            &&& after.success == before.success
            &&& before.ordered.contains(id) ==> after == before
            &&& !before.ordered.contains(id) ==> {
                &&& after.ordered == before.ordered.push(id)
                &&& after.rows.len() == before.rows.len() + 1
                &&& after.rows.drop_last() == before.rows
                &&& after.rows.last() == "thread="@ + decimal(id as int) + " status=accepted"@
            }
        }),
{
    let after = state.refused(requested, error);
    let row = after.rows.last();
    let start = "thread="@ + decimal(requested as int);
    let ending = " error="@ + error;
    assert(after.rows.drop_last() =~= state.rows);
    assert(row.take(start.len() as int) =~= start);
    assert(row.skip(row.len() - ending.len()) =~= ending);
    let before = state.with(ids, (count - 1) as nat);
    let now = state.with(ids, count);
    let id = ids[count - 1];
    reveal_strlit(" status=");
    reveal_strlit("accepted");
    reveal_strlit(" status=accepted");
    assert(" status="@ + "accepted"@ =~= " status=accepted"@);
    if !before.ordered.contains(id) {
        assert(now.rows.drop_last() =~= before.rows);
        assert(now.rows.last() =~= "thread="@ + decimal(id as int) + (" status="@ + "accepted"@));
    }
}

/// What is deleted with a thread is the thread and all below it; a thread with others
/// below it is deleted only together with them.
pub proof fn law_subtree_is_deleted_whole(id: i64, recursive: bool, descendants: Seq<i64>, other: i64)
    ensures
        subtree(id, recursive, descendants) is None <==> !recursive && descendants.len() > 0,
        subtree(id, recursive, descendants) matches Some(ids) ==> ids.len() == descendants.len() + 1
            && (ids.contains(other) <==> other == id || descendants.contains(other)),
{
    if let Some(ids) = subtree(id, recursive, descendants) {
        assert(ids.last() == id);
        if descendants.contains(other) {
            let k = choose|k: int| 0 <= k < descendants.len() && descendants[k] == other;
            assert(ids[k] == other);
        }
        if ids.contains(other) && other != id {
            let k = choose|k: int| 0 <= k < ids.len() && ids[k] == other;
            assert(descendants[k] == other);
        }
    }
}

/// Each thread that was to be deleted is told of, in their order: that it is deleted,
/// or why it is not. The answer is a success only where all were deleted.
pub proof fn law_deletion_is_told(
    targets: Seq<DeleteTarget>,
    outcomes: Seq<DeleteOutcome>,
    count: nat,
    i: int,
)
    requires
        0 <= i < count <= targets.len(),
        deletion(targets, outcomes, count) is Some,
    ensures
        ({
            let (rows, success) = deletion(targets, outcomes, count)->0;
            let result = deleted(targets, outcomes, i);
            &&& rows.len() == count
            &&& result is Some
            &&& success ==> result->0 is Ok
            &&& result->0 is Ok ==> rows[i] == "thread="@ + decimal(targets[i].id as int)
                + " status=deleted"@
            &&& result->0 matches Err(why) ==> rows[i] == "thread="@ + decimal(
                targets[i].id as int,
            ) + " error="@ + why
            &&& targets[i].snapshot matches Err(why) ==> result == Some(
                Err::<(), Seq<char>>(why@),
            )
            &&& !success ==> exists|k: int|
                0 <= k < count && (#[trigger] deleted(targets, outcomes, k)) is Some && deleted(
                    targets,
                    outcomes,
                    k,
                )->0 is Err
        }),
    decreases count,
{
    reveal_strlit(" status=");
    reveal_strlit("deleted");
    reveal_strlit(" status=deleted");
    assert(" status="@ + "deleted"@ =~= " status=deleted"@);
    let before = deletion(targets, outcomes, (count - 1) as nat);
    let (rows, success) = deletion(targets, outcomes, count)->0;
    let last = deleted(targets, outcomes, count - 1);
    if i < count - 1 {
        law_deletion_is_told(targets, outcomes, (count - 1) as nat, i);
    } else {
        if count > 1 {
            law_deletion_is_told(targets, outcomes, (count - 1) as nat, 0);
        } else {
            assert(before == Some((Seq::<Seq<char>>::empty(), true)));
        }
        if last->0 is Ok {
            assert(rows[i] =~= "thread="@ + decimal(targets[i].id as int) + (" status="@
                + "deleted"@));
        }
    }
    assert(last is Some && before is Some);
    assert(rows =~= before->Some_0.0.push(deleted_row(targets[count - 1].id, last->0)));
    if last->0 is Err {
        assert(deleted(targets, outcomes, count - 1)->0 is Err);
    } else if !success {
        let k = choose|k: int|
            0 <= k < count - 1 && (#[trigger] deleted(targets, outcomes, k)) is Some && deleted(
                targets,
                outcomes,
                k,
            )->0 is Err;
        assert(deleted(targets, outcomes, k)->0 is Err);
    }
}

/// What became of a thread is what became of the first deletion that held it.
pub proof fn law_outcome_is_that_of_its_deletion(
    targets: Seq<DeleteTarget>,
    outcomes: Seq<DeleteOutcome>,
    id: i64,
    from: nat,
    at: int,
)
    requires
        from <= at < outcomes.len(),
        snapshot_of(targets, outcomes[at].root, 0) matches Some(snapshot) && snapshot.contains(id),
        forall|k: int|
            from <= k < at ==> !(snapshot_of(targets, (#[trigger] outcomes[k]).root, 0)
                matches Some(snapshot) && snapshot.contains(id)),
    ensures
        outcome_for(targets, outcomes, id, from) == Some(
            match outcomes[at].result {
                Ok(()) => Ok::<(), Seq<char>>(()),
                Err(error) => Err(error@),
            },
        ),
    decreases at - from,
{
    if from < at {
        assert(!(snapshot_of(targets, outcomes[from as int].root, 0) matches Some(snapshot)
            && snapshot.contains(id)));
        law_outcome_is_that_of_its_deletion(targets, outcomes, id, from + 1, at);
    }
}

/// An agent that asks is known by its key: by the first context that has it, and by
/// none where no context has it.
pub proof fn law_context_is_found_by_its_key(
    contexts: Seq<(String, i64)>,
    key: Seq<char>,
    from: nat,
)
    ensures
        context_thread(contexts, key, from) matches Some(thread) ==> exists|i: int|
            from <= i < contexts.len() && (#[trigger] contexts[i]).0@ == key && contexts[i].1
                == thread && forall|k: int|
                from <= k < i ==> (#[trigger] contexts[k]).0@ != key,
        context_thread(contexts, key, from) is None ==> forall|k: int|
            from <= k < contexts.len() ==> (#[trigger] contexts[k]).0@ != key,
    decreases contexts.len() - from,
{
    if from < contexts.len() {
        if contexts[from as int].0@ != key {
            law_context_is_found_by_its_key(contexts, key, from + 1);
            if let Some(thread) = context_thread(contexts, key, from + 1) {
                let i = choose|i: int|
                    from + 1 <= i < contexts.len() && (#[trigger] contexts[i]).0@ == key
                        && contexts[i].1 == thread && forall|k: int|
                        from + 1 <= k < i ==> (#[trigger] contexts[k]).0@ != key;
                assert(contexts[i].0@ == key);
            }
        }
    }
}

/// The list of agents begins with the thread that asks, and shows each below it at
/// its depth with its state.
pub proof fn law_agents_are_listed(
    root: ThreadView,
    root_status: Seq<char>,
    rows: Seq<(ThreadView, usize)>,
    statuses: Seq<Seq<char>>,
    i: int,
)
    requires
        statuses.len() == rows.len(),
        0 <= i < rows.len(),
    ensures
        list_rows(root, root_status, rows, statuses).len() == rows.len() + 1,
        list_rows(root, root_status, rows, statuses)[0] == list_row(root, 0, root_status),
        list_rows(root, root_status, rows, statuses)[i + 1] == list_row(
            rows[i].0,
            rows[i].1 as nat,
            statuses[i],
        ),
{
}

/// An agent acts on a thread only where that stands below it and is not itself; an
/// answer that went wrong is no success, and its words are those of the error.
pub proof fn law_agents_act_on_those_below(
    invoking: i64,
    target: i64,
    below: bool,
    result: Result<(), AgentError>,
    outcome: Result<(String, bool), AgentError>,
    told: (String, bool),
    targets: Vec<i64>,
    checked: Result<(), AgentError>,
)
    requires
        call_ensures(authorize_descendant, (invoking, target, below), result),
        call_ensures(agent_answer, (outcome,), told),
        call_ensures(check_wait_targets, (&targets,), checked),
    ensures
        result is Ok <==> below && target != invoking,
        outcome is Err ==> !told.1 && told.0@ == outcome->Err_0.words(),
        outcome matches Ok((text, success)) ==> told.0@ == text@ && told.1 == success,
        checked is Ok <==> targets@.len() > 0,
{
}

/// Of the threads that are deleted together only those are roots that no other of them
/// takes along; what is deleted is deleted from the bottom, the youngest first.
pub proof fn law_nothing_is_deleted_twice(
    snapshots: Vec<(i64, Vec<i64>)>,
    roots: Vec<i64>,
    id: i64,
    snapshot: Vec<i64>,
    ids: Vec<i64>,
    i: int,
    j: int,
)
    requires
        forall|i: int, j: int|
            0 <= i < j < snapshots.len() ==> (#[trigger] snapshots[i]).0 != (
            #[trigger] snapshots[j]).0,
        call_ensures(normalized_delete_roots, (&snapshots,), roots),
        call_ensures(delete_order, (&snapshot,), ids),
        0 <= i < j < ids@.len(),
    ensures
        roots@.contains(id) <==> (exists|k: int|
            0 <= k < snapshots@.len() && (#[trigger] snapshots@[k]).0 == id) && (forall|k: int|
            0 <= k < snapshots@.len() && (#[trigger] snapshots@[k]).0 != id
                ==> !snapshots@[k].1@.contains(id)),
        roots@.no_duplicates(),
        ids@[i] >= ids@[j],
        ids@.to_multiset() == snapshot@.to_multiset(),
{
    let turned = ids@.reverse();
    assert(turned[ids@.len() - 1 - j] == ids@[j]);
    assert(turned[ids@.len() - 1 - i] == ids@[i]);
    assert(roots@.contains(id) <==> is_target(snapshots@, id) && !covered_by_other(
        snapshots@,
        id,
    ));
}

} // verus!
