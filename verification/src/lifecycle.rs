//! The turns of the threads: which threads have one, which are observed, and
//! which wait for the user.
use crate::assoc::{
    assoc, find_signed, find_unsigned, lemma_assoc_entry, lemma_assoc_key, lemma_assoc_push,
    lemma_assoc_remove, lemma_assoc_update, unique_keys,
};
use crate::text::{concat3, concat4, decimal, decimal_text};
use vstd::multiset::Multiset;
use vstd::prelude::*;

verus! {

/// How many turns of agents under one root may run at a time.
pub const MAX_AGENT_TURNS: usize = 8;

/// A turn that runs. Its number tells it from any other turn.
#[derive(Clone, Copy, Debug, PartialEq, Eq, Structural)]
pub struct ActiveTurn {
    pub serial: u64,
    pub cancelling: bool,
    pub agent_root: Option<i64>,
}

/// What the user is asked.
#[derive(Clone, Copy, Debug, PartialEq, Eq, Structural)]
pub enum InteractionKind {
    Approval,
    Questions,
}

/// A question to the user that is not answered yet.
#[derive(Clone, Copy, Debug, PartialEq, Eq, Structural)]
pub struct PendingInteraction {
    pub thread_id: i64,
    pub kind: InteractionKind,
}

/// Why something cannot be done now.
#[derive(Clone, Copy, Debug, PartialEq, Eq, Structural)]
pub enum LifecycleError {
    AlreadyActive,
    Observed,
    Unavailable,
    TooManyAgents,
    HasActiveTurn,
    DeleteActive(i64),
    DeleteObserved(i64),
    NoActiveTurn,
    Cancelling,
    NotPending(u64),
    NotOfKind(u64, InteractionKind),
    WrongAnswer(u64, InteractionKind),
    TurnEnded(u64, InteractionKind),
}

/// What an interaction is called.
pub open spec fn kind_words(kind: InteractionKind) -> Seq<char> {
    match kind {
        InteractionKind::Approval => "approval"@,
        InteractionKind::Questions => "question request"@,
    }
}

fn kind_text(kind: InteractionKind) -> (text: &'static str)
    ensures
        text@ == kind_words(kind),
{
    match kind {
        InteractionKind::Approval => "approval",
        InteractionKind::Questions => "question request",
    }
}

impl LifecycleError {
    /// What the user is told.
    pub open spec fn words(self) -> Seq<char> {
        match self {
            LifecycleError::AlreadyActive => "thread already has an active turn"@,
            LifecycleError::Observed => "thread is being observed"@,
            LifecycleError::Unavailable => "thread is unavailable"@,
            LifecycleError::TooManyAgents => {
                "at most eight descendant agent turns may run concurrently"@
            },
            LifecycleError::HasActiveTurn => "thread has an active turn"@,
            LifecycleError::DeleteActive(id) => "cannot delete thread "@ + decimal(id as int)
                + " with an active turn"@,
            LifecycleError::DeleteObserved(id) => "thread "@ + decimal(id as int)
                + " is being observed"@,
            LifecycleError::NoActiveTurn => "thread has no active turn"@,
            LifecycleError::Cancelling => "thread cancellation is in progress"@,
            LifecycleError::NotPending(id) => "interaction "@ + decimal(id as int)
                + " is not pending"@,
            LifecycleError::NotOfKind(id, kind) => "interaction "@ + decimal(id as int)
                + " is not a pending "@ + kind_words(kind),
            LifecycleError::WrongAnswer(id, kind) => "interaction "@ + decimal(id as int) + (
            match kind {
                InteractionKind::Approval => " is not an approval"@,
                InteractionKind::Questions => " is not a question request"@,
            }),
            LifecycleError::TurnEnded(id, kind) => "turn ended before "@ + kind_words(kind) + " "@
                + decimal(id as int) + " was resolved"@,
        }
    }

    /// What the user is told.
    pub fn message(&self) -> (text: String)
        ensures
            text@ == self.words(),
    {
        match self {
            LifecycleError::AlreadyActive => "thread already has an active turn".to_owned(),
            LifecycleError::Observed => "thread is being observed".to_owned(),
            LifecycleError::Unavailable => "thread is unavailable".to_owned(),
            LifecycleError::TooManyAgents => {
                "at most eight descendant agent turns may run concurrently".to_owned()
            },
            LifecycleError::HasActiveTurn => "thread has an active turn".to_owned(),
            LifecycleError::DeleteActive(id) => {
                let id = decimal_text(*id as i128);
                concat3("cannot delete thread ", id.as_str(), " with an active turn")
            },
            LifecycleError::DeleteObserved(id) => {
                let id = decimal_text(*id as i128);
                concat3("thread ", id.as_str(), " is being observed")
            },
            LifecycleError::NoActiveTurn => "thread has no active turn".to_owned(),
            LifecycleError::Cancelling => "thread cancellation is in progress".to_owned(),
            LifecycleError::NotPending(id) => {
                let id = decimal_text(*id as i128);
                concat3("interaction ", id.as_str(), " is not pending")
            },
            LifecycleError::NotOfKind(id, kind) => {
                let id = decimal_text(*id as i128);
                concat4("interaction ", id.as_str(), " is not a pending ", kind_text(*kind))
            },
            LifecycleError::WrongAnswer(id, kind) => {
                let id = decimal_text(*id as i128);
                let rest = match kind {
                    InteractionKind::Approval => " is not an approval",
                    InteractionKind::Questions => " is not a question request",
                };
                concat3("interaction ", id.as_str(), rest)
            },
            LifecycleError::TurnEnded(id, kind) => {
                let id = decimal_text(*id as i128);
                let mut text = concat4(
                    "turn ended before ",
                    kind_text(*kind),
                    " ",
                    id.as_str(),
                );
                text.push_str(" was resolved");
                text
            },
        }
    }
}

/// The turns of the threads.
pub struct TurnLifecycle {
    active: Vec<(i64, ActiveTurn)>,
    pins: Vec<i64>,
    interactions: Vec<(u64, PendingInteraction)>,
    last_interaction: u64,
    next_turn: u64,
}

/// What a [`TurnLifecycle`] stands for: the turn that runs in a thread, how often
/// a thread is observed, and what the user is asked.
pub struct LifecycleView {
    pub active: Map<i64, ActiveTurn>,
    pub pins: Multiset<i64>,
    pub interactions: Map<u64, PendingInteraction>,
    pub last_interaction: u64,
    pub next_turn: u64,
}

/// The threads whose turns belong to agents under `root`.
pub open spec fn agents(active: Map<i64, ActiveTurn>, root: i64) -> Set<i64> {
    active.dom().filter(|id: i64| active[id].agent_root == Some(root))
}

/// The active turns with those of the threads in `ids` cancelled.
pub open spec fn cancelled(active: Map<i64, ActiveTurn>, ids: Seq<i64>) -> Map<i64, ActiveTurn> {
    Map::new(
        |id: i64| active.contains_key(id),
        |id: i64|
            if ids.contains(id) {
                ActiveTurn { cancelling: true, ..active[id] }
            } else {
                active[id]
            },
    )
}

/// The questions that do not belong to a thread.
pub open spec fn without_thread(
    interactions: Map<u64, PendingInteraction>,
    thread_id: i64,
) -> Map<u64, PendingInteraction> {
    Map::new(
        |id: u64| interactions.contains_key(id) && interactions[id].thread_id != thread_id,
        |id: u64| interactions[id],
    )
}

/// Those of the first `count` of `ids` that have a turn, in order.
pub open spec fn active_among(active: Map<i64, ActiveTurn>, ids: Seq<i64>, count: nat) -> Seq<i64>
    decreases count,
{
    if count == 0 {
        Seq::empty()
    } else {
        let before = active_among(active, ids, (count - 1) as nat);
        if active.contains_key(ids[count - 1]) {
            before.push(ids[count - 1])
        } else {
            before
        }
    }
}

impl LifecycleView {
    /// What holds at any time: the numbers of the turns are given out once, what
    /// the user is asked belongs to a turn that runs, and no root has more than
    /// its share of agents.
    pub open spec fn consistent(self) -> bool {
        &&& self.active.dom().finite()
        &&& forall|id: i64|
            self.active.contains_key(id) ==> (#[trigger] self.active[id]).serial < self.next_turn
        &&& forall|a: i64, b: i64|
            self.active.contains_key(a) && self.active.contains_key(b) && a != b ==> (
            #[trigger] self.active[a]).serial != (#[trigger] self.active[b]).serial
        &&& forall|id: u64|
            self.interactions.contains_key(id) ==> 0 < id <= self.last_interaction
                && self.active.contains_key((#[trigger] self.interactions[id]).thread_id)
        &&& forall|root: i64| (#[trigger] agents(self.active, root)).len() <= MAX_AGENT_TURNS
    }

    /// Whether a thread is observed.
    pub open spec fn pinned(self, thread_id: i64) -> bool {
        self.pins.count(thread_id) > 0
    }

    /// Whether nothing keeps a thread from a turn or a change.
    pub open spec fn free(self, thread_id: i64) -> bool {
        !self.active.contains_key(thread_id) && !self.pinned(thread_id)
    }

    /// Whether the turn of a thread may ask the user something.
    pub open spec fn can_ask(self, thread_id: i64) -> bool {
        self.active.contains_key(thread_id) && !self.active[thread_id].cancelling
    }

    /// After the turn of a thread ended.
    pub open spec fn finished(self, thread_id: i64) -> LifecycleView {
        LifecycleView {
            active: self.active.remove(thread_id),
            interactions: without_thread(self.interactions, thread_id),
            ..self
        }
    }

    /// Each thread observed once more.
    pub open spec fn observed(self, thread_ids: Seq<i64>) -> LifecycleView {
        LifecycleView { pins: self.pins.add(thread_ids.to_multiset()), ..self }
    }

    /// A thread observed once less.
    pub open spec fn unobserved(self, thread_id: i64) -> LifecycleView {
        LifecycleView { pins: self.pins.remove(thread_id), ..self }
    }

    /// Why a thread cannot be deleted.
    pub open spec fn delete_problem(self, thread_id: i64) -> Option<LifecycleError> {
        if self.active.contains_key(thread_id) {
            Some(LifecycleError::DeleteActive(thread_id))
        } else if self.pinned(thread_id) {
            Some(LifecycleError::DeleteObserved(thread_id))
        } else {
            None
        }
    }

    /// Why the threads cannot be deleted: the first problem in their order.
    pub open spec fn first_delete_problem(self, ids: Seq<i64>) -> Option<LifecycleError>
        decreases ids.len(),
    {
        if ids.len() == 0 {
            None
        } else {
            match self.delete_problem(ids[0]) {
                Some(problem) => Some(problem),
                None => self.first_delete_problem(ids.skip(1)),
            }
        }
    }

    /// The turns with one more.
    pub open spec fn started(self, thread_id: i64, agent_root: Option<i64>) -> LifecycleView {
        LifecycleView {
            active: self.active.insert(
                thread_id,
                ActiveTurn { serial: self.next_turn, cancelling: false, agent_root },
            ),
            next_turn: (self.next_turn + 1) as u64,
            ..self
        }
    }
}

proof fn lemma_assoc_finite<K, V>(entries: Seq<(K, V)>)
    ensures
        assoc(entries).dom().finite(),
    decreases entries.len(),
{
    if entries.len() > 0 {
        lemma_assoc_finite(entries.drop_last());
        assert(assoc(entries).dom() =~= assoc(entries.drop_last()).dom().insert(
            entries.last().0,
        ));
    }
}

/// Taking a turn away leaves no root with more agents.
proof fn lemma_agents_removed(active: Map<i64, ActiveTurn>, thread_id: i64, root: i64)
    requires
        active.dom().finite(),
    ensures
        agents(active.remove(thread_id), root).len() <= agents(active, root).len(),
{
    let less = agents(active.remove(thread_id), root);
    let all = agents(active, root);
    assert(less.subset_of(all));
    vstd::set_lib::lemma_len_subset(less, all);
}

/// Changing whether turns are cancelled leaves the agents as they are.
proof fn lemma_agents_cancelled(active: Map<i64, ActiveTurn>, ids: Seq<i64>, root: i64)
    ensures
        agents(cancelled(active, ids), root) == agents(active, root),
{
    assert(agents(cancelled(active, ids), root) =~= agents(active, root));
}

/// A new turn is one more agent under its own root at most.
proof fn lemma_agents_added(
    active: Map<i64, ActiveTurn>,
    thread_id: i64,
    turn: ActiveTurn,
    root: i64,
)
    requires
        active.dom().finite(),
        !active.contains_key(thread_id),
    ensures
        agents(active.insert(thread_id, turn), root).len() == agents(active, root).len() + (
        if turn.agent_root == Some(root) {
            1int
        } else {
            0int
        }),
{
    let more = agents(active.insert(thread_id, turn), root);
    let all = agents(active, root);
    if turn.agent_root == Some(root) {
        assert(more =~= all.insert(thread_id));
    } else {
        assert(more =~= all);
    }
}

impl View for TurnLifecycle {
    type V = LifecycleView;

    closed spec fn view(&self) -> LifecycleView {
        LifecycleView {
            active: assoc(self.active@),
            pins: self.pins@.to_multiset(),
            interactions: assoc(self.interactions@),
            last_interaction: self.last_interaction,
            next_turn: self.next_turn,
        }
    }
}

impl TurnLifecycle {
    /// What the methods keep.
    pub closed spec fn well_formed(&self) -> bool {
        &&& unique_keys(self.active@)
        &&& unique_keys(self.interactions@)
        &&& self@.consistent()
    }

    /// What holds at any time.
    pub proof fn law_consistent(&self)
        requires
            self.well_formed(),
        ensures
            self@.consistent(),
    {
    }

    /// No turn runs, and nothing is observed or asked.
    pub fn new() -> (lifecycle: Self)
        ensures
            lifecycle.well_formed(),
            lifecycle@ == (LifecycleView {
                active: Map::empty(),
                pins: Multiset::empty(),
                interactions: Map::empty(),
                last_interaction: 0,
                next_turn: 0,
            }),
    {
        let lifecycle = TurnLifecycle {
            active: Vec::new(),
            pins: Vec::new(),
            interactions: Vec::new(),
            last_interaction: 0,
            next_turn: 0,
        };
        proof {
            lifecycle.pins@.to_multiset_ensures();
            assert(lifecycle.pins@.to_multiset() =~= Multiset::empty());
            assert forall|root: i64| (#[trigger] agents(Map::empty(), root)).len() <= 8 by {
                assert(agents(Map::empty(), root) =~= Set::empty());
            }
        }
        lifecycle
    }

    fn is_active(&self, thread_id: i64) -> (result: bool)
        requires
            self.well_formed(),
        ensures
            result == self@.active.contains_key(thread_id),
    {
        find_signed(&self.active, thread_id).is_some()
    }

    fn is_pinned(&self, thread_id: i64) -> (result: bool)
        ensures
            result == self@.pinned(thread_id),
    {
        let mut i: usize = 0;
        proof {
            self.pins@.to_multiset_ensures();
        }
        while i < self.pins.len()
            invariant
                i <= self.pins.len(),
                forall|j: int| 0 <= j < i ==> self.pins[j] != thread_id,
                self.pins@.contains(thread_id) <==> self.pins@.to_multiset().count(thread_id) > 0,
            decreases self.pins.len() - i,
        {
            if self.pins[i] == thread_id {
                assert(self.pins@[i as int] == thread_id);
                return true;
            }
            i += 1;
        }
        assert(!self.pins@.contains(thread_id));
        false
    }

    fn begin(&mut self, thread_id: i64, agent_root: Option<i64>) -> (serial: u64)
        requires
            old(self).well_formed(),
            old(self)@.next_turn < u64::MAX,
            !old(self)@.active.contains_key(thread_id),
            agent_root matches Some(root) ==> agents(old(self)@.active, root).len()
                < MAX_AGENT_TURNS,
        ensures
            final(self).well_formed(),
            final(self)@ == old(self)@.started(thread_id, agent_root),
            serial == old(self)@.next_turn,
    {
        let serial = self.next_turn;
        let turn = ActiveTurn { serial, cancelling: false, agent_root };
        proof {
            lemma_assoc_push(self.active@, thread_id, turn);
            assert forall|root: i64|
                (#[trigger] agents(self@.active.insert(thread_id, turn), root)).len()
                    <= MAX_AGENT_TURNS by {
                lemma_agents_added(self@.active, thread_id, turn, root);
                assert(agents(self@.active, root).len() <= MAX_AGENT_TURNS);
            }
        }
        self.active.push((thread_id, turn));
        self.next_turn = serial + 1;
        serial
    }

    /// Starts a turn of a thread.
    pub fn start(&mut self, thread_id: i64) -> (result: Result<u64, LifecycleError>)
        requires
            old(self).well_formed(),
            old(self)@.free(thread_id) ==> old(self)@.next_turn < u64::MAX,
        ensures
            final(self).well_formed(),
            if old(self)@.active.contains_key(thread_id) {
                result == Err::<u64, LifecycleError>(LifecycleError::AlreadyActive)
                    && final(self)@ == old(self)@
            } else if old(self)@.pinned(thread_id) {
                result == Err::<u64, LifecycleError>(LifecycleError::Observed) && final(self)@
                    == old(self)@
            } else {
                result == Ok::<u64, LifecycleError>(old(self)@.next_turn) && final(self)@ == old(
                    self,
                )@.started(thread_id, None)
            },
    {
        if self.is_active(thread_id) {
            return Err(LifecycleError::AlreadyActive);
        }
        if self.is_pinned(thread_id) {
            return Err(LifecycleError::Observed);
        }
        Ok(self.begin(thread_id, None))
    }

    fn count_agents(&self, root: i64) -> (count: usize)
        requires
            self.well_formed(),
        ensures
            count == agents(self@.active, root).len(),
    {
        let mut count: usize = 0;
        let mut i: usize = 0;
        let ghost all = self.active@;
        proof {
            assert(agents(assoc(all.take(0)), root) =~= Set::empty());
        }
        while i < self.active.len()
            invariant
                i <= self.active.len(),
                count <= i,
                all == self.active@,
                unique_keys(all),
                count == agents(assoc(all.take(i as int)), root).len(),
            decreases self.active.len() - i,
        {
            let (id, turn) = self.active[i];
            proof {
                let before = all.take(i as int);
                assert(all.take(i + 1) =~= before.push((id, turn)));
                lemma_assoc_push(before, id, turn);
                lemma_assoc_finite(before);
                lemma_assoc_key(before, id);
                assert(!assoc(before).contains_key(id)) by {
                    if assoc(before).contains_key(id) {
                        let j = choose|j: int|
                            0 <= j < before.len() && (#[trigger] before[j]).0 == id;
                        assert(before[j] == all[j]);
                        assert(all[j].0 != all[i as int].0);
                    }
                }
                lemma_agents_added(assoc(before), id, turn, root);
            }
            let counted = match turn.agent_root {
                Some(own) => own == root,
                None => false,
            };
            if counted {
                count += 1;
            }
            i += 1;
        }
        assert(all.take(i as int) =~= all);
        count
    }

    /// Starts a turn of an agent under `root`.
    pub fn start_agent(&mut self, thread_id: i64, root: i64) -> (result: Result<
        u64,
        LifecycleError,
    >)
        requires
            old(self).well_formed(),
            old(self)@.free(thread_id) && agents(old(self)@.active, root).len() < MAX_AGENT_TURNS
                ==> old(self)@.next_turn < u64::MAX,
        ensures
            final(self).well_formed(),
            if old(self)@.active.contains_key(thread_id) {
                result == Err::<u64, LifecycleError>(LifecycleError::AlreadyActive)
                    && final(self)@ == old(self)@
            } else if old(self)@.pinned(thread_id) {
                result == Err::<u64, LifecycleError>(LifecycleError::Unavailable) && final(self)@
                    == old(self)@
            } else if agents(old(self)@.active, root).len() >= MAX_AGENT_TURNS {
                result == Err::<u64, LifecycleError>(LifecycleError::TooManyAgents)
                    && final(self)@ == old(self)@
            } else {
                result == Ok::<u64, LifecycleError>(old(self)@.next_turn) && final(self)@ == old(
                    self,
                )@.started(thread_id, Some(root))
            },
    {
        if self.is_active(thread_id) {
            return Err(LifecycleError::AlreadyActive);
        }
        if self.is_pinned(thread_id) {
            return Err(LifecycleError::Unavailable);
        }
        if self.count_agents(root) >= MAX_AGENT_TURNS {
            return Err(LifecycleError::TooManyAgents);
        }
        Ok(self.begin(thread_id, Some(root)))
    }

    /// The turn that runs in a thread.
    pub fn get(&self, thread_id: i64) -> (turn: Option<ActiveTurn>)
        requires
            self.well_formed(),
        ensures
            match turn {
                Some(turn) => self@.active.contains_key(thread_id) && self@.active[thread_id]
                    == turn,
                None => !self@.active.contains_key(thread_id),
            },
    {
        match find_signed(&self.active, thread_id) {
            Some(at) => Some(self.active[at].1),
            None => None,
        }
    }

    /// Whether the turn with this number no longer runs.
    pub fn is_finished(&self, serial: u64) -> (result: bool)
        requires
            self.well_formed(),
        ensures
            result == !(exists|id: i64|
                self@.active.contains_key(id) && (#[trigger] self@.active[id]).serial == serial),
    {
        let mut i: usize = 0;
        let ghost all = self.active@;
        while i < self.active.len()
            invariant
                i <= self.active.len(),
                all == self.active@,
                unique_keys(all),
                forall|j: int| 0 <= j < i ==> (#[trigger] all[j]).1.serial != serial,
            decreases self.active.len() - i,
        {
            if self.active[i].1.serial == serial {
                proof {
                    lemma_assoc_entry(all, i as int);
                    assert(self@.active[all[i as int].0].serial == serial);
                }
                return false;
            }
            i += 1;
        }
        proof {
            assert forall|id: i64| self@.active.contains_key(id) implies (
            #[trigger] self@.active[id]).serial != serial by {
                lemma_assoc_key(all, id);
                let j = choose|j: int| 0 <= j < all.len() && (#[trigger] all[j]).0 == id;
                lemma_assoc_entry(all, j);
            }
        }
        true
    }

    /// Whether a thread can be changed.
    pub fn ensure_mutable(&self, thread_id: i64) -> (result: Result<(), LifecycleError>)
        requires
            self.well_formed(),
        ensures
            result == (if self@.active.contains_key(thread_id) {
                Err(LifecycleError::HasActiveTurn)
            } else if self@.pinned(thread_id) {
                Err(LifecycleError::Observed)
            } else {
                Ok(())
            }),
    {
        if self.is_active(thread_id) {
            return Err(LifecycleError::HasActiveTurn);
        }
        if self.is_pinned(thread_id) {
            return Err(LifecycleError::Observed);
        }
        Ok(())
    }

    fn cancel_at(&mut self, at: usize)
        requires
            old(self).well_formed(),
            at < old(self).active.len(),
        ensures
            final(self).well_formed(),
            final(self)@ == (LifecycleView {
                active: cancelled(old(self)@.active, seq![old(self).active[at as int].0]),
                ..old(self)@
            }),
            final(self).active.len() == old(self).active.len(),
    {
        let (id, turn) = self.active[at];
        let after = ActiveTurn { cancelling: true, ..turn };
        let ghost before = self@;
        proof {
            lemma_assoc_entry(self.active@, at as int);
            lemma_assoc_update(self.active@, at as int, after);
        }
        self.active.set(at, (id, after));
        proof {
            let ids = seq![id];
            assert(ids[0] == id);
            assert forall|other: i64| ids.contains(other) implies other == id by {}
            assert(self@.active =~= cancelled(before.active, ids));
            assert(self@.active.dom() =~= before.active.dom());
            assert forall|root: i64| (#[trigger] agents(self@.active, root)).len()
                <= MAX_AGENT_TURNS by {
                lemma_agents_cancelled(before.active, ids, root);
                assert(agents(before.active, root).len() <= MAX_AGENT_TURNS);
            }
        }
    }

    /// Asks the turn of a thread to stop.
    pub fn begin_cancellation(&mut self, thread_id: i64) -> (turn: Option<u64>)
        requires
            old(self).well_formed(),
        ensures
            final(self).well_formed(),
            final(self)@ == (LifecycleView {
                active: cancelled(old(self)@.active, seq![thread_id]),
                ..old(self)@
            }),
            match turn {
                Some(serial) => old(self)@.active.contains_key(thread_id) && old(
                    self,
                )@.active[thread_id].serial == serial,
                None => !old(self)@.active.contains_key(thread_id),
            },
    {
        match find_signed(&self.active, thread_id) {
            Some(at) => {
                let serial = self.active[at].1.serial;
                self.cancel_at(at);
                Some(serial)
            },
            None => {
                proof {
                    let ids = seq![thread_id];
                    assert forall|other: i64| ids.contains(other) implies other == thread_id by {}
                    assert(self@.active =~= cancelled(self@.active, ids));
                }
                None
            },
        }
    }

    /// Asks the turns of threads to stop, and tells which of them had one.
    pub fn begin_cancellation_many(&mut self, thread_ids: &Vec<i64>) -> (captured: Vec<i64>)
        requires
            old(self).well_formed(),
        ensures
            final(self).well_formed(),
            final(self)@ == (LifecycleView {
                active: cancelled(old(self)@.active, thread_ids@),
                ..old(self)@
            }),
            captured@ == active_among(old(self)@.active, thread_ids@, thread_ids@.len()),
    {
        let ghost start = self@;
        let mut captured: Vec<i64> = Vec::new();
        let mut i: usize = 0;
        assert(start.active =~= cancelled(start.active, thread_ids@.take(0)));
        while i < thread_ids.len()
            invariant
                i <= thread_ids.len(),
                self.well_formed(),
                self@ == (LifecycleView {
                    active: cancelled(start.active, thread_ids@.take(i as int)),
                    ..start
                }),
                captured@ == active_among(start.active, thread_ids@, i as nat),
            decreases thread_ids.len() - i,
        {
            let id = thread_ids[i];
            let ghost before = self@;
            if self.begin_cancellation(id).is_some() {
                captured.push(id);
            }
            proof {
                let taken = thread_ids@.take(i as int);
                let more = thread_ids@.take(i + 1);
                assert(more =~= taken.push(id));
                assert forall|other: i64| more.contains(other) == (taken.contains(other) || other
                    == id) by {
                    if taken.contains(other) {
                        let j = choose|j: int| 0 <= j < taken.len() && taken[j] == other;
                        assert(more[j] == other);
                    }
                    if other == id {
                        assert(more[i as int] == id);
                    }
                }
                let one = seq![id];
                assert(one[0] == id);
                assert forall|other: i64| one.contains(other) == (other == id) by {}
                assert(self@.active =~= cancelled(start.active, more));
            }
            i += 1;
        }
        assert(thread_ids@.take(i as int) =~= thread_ids@);
        captured
    }

    fn drop_interactions(&mut self, thread_id: i64)
        requires
            unique_keys(old(self).interactions@),
        ensures
            unique_keys(final(self).interactions@),
            assoc(final(self).interactions@) == without_thread(
                assoc(old(self).interactions@),
                thread_id,
            ),
            final(self).active == old(self).active,
            final(self).pins == old(self).pins,
            final(self).last_interaction == old(self).last_interaction,
            final(self).next_turn == old(self).next_turn,
    {
        let ghost all = self.interactions@;
        let mut kept: Vec<(u64, PendingInteraction)> = Vec::new();
        let mut i: usize = 0;
        assert(assoc(kept@) =~= without_thread(assoc(all.take(0)), thread_id));
        while i < self.interactions.len()
            invariant
                i <= self.interactions.len(),
                all == self.interactions@,
                unique_keys(all),
                unique_keys(kept@),
                assoc(kept@) == without_thread(assoc(all.take(i as int)), thread_id),
                self.active == old(self).active,
                self.pins == old(self).pins,
                self.last_interaction == old(self).last_interaction,
                self.next_turn == old(self).next_turn,
                self.interactions == old(self).interactions,
            decreases self.interactions.len() - i,
        {
            let (id, pending) = self.interactions[i];
            proof {
                let before = all.take(i as int);
                assert(all.take(i + 1) =~= before.push((id, pending)));
                lemma_assoc_push(before, id, pending);
                lemma_assoc_key(before, id);
                assert(!assoc(before).contains_key(id)) by {
                    if assoc(before).contains_key(id) {
                        let j = choose|j: int|
                            0 <= j < before.len() && (#[trigger] before[j]).0 == id;
                        assert(before[j] == all[j]);
                        assert(all[j].0 != all[i as int].0);
                    }
                }
                lemma_assoc_push(kept@, id, pending);
            }
            if pending.thread_id != thread_id {
                kept.push((id, pending));
            }
            assert(assoc(kept@) =~= without_thread(assoc(all.take(i + 1)), thread_id));
            i += 1;
        }
        assert(all.take(i as int) =~= all);
        self.interactions = kept;
    }

    /// Ends the turn of a thread. What it asked the user is asked no longer.
    pub fn finish(&mut self, thread_id: i64)
        requires
            old(self).well_formed(),
        ensures
            final(self).well_formed(),
            final(self)@ == old(self)@.finished(thread_id),
    {
        let ghost before = self@;
        self.drop_interactions(thread_id);
        match find_signed(&self.active, thread_id) {
            Some(at) => {
                proof {
                    lemma_assoc_remove(self.active@, at as int);
                }
                let _ = self.active.remove(at);
            },
            None => {
                assert(before.active.remove(thread_id) =~= before.active);
            },
        }
        proof {
            assert(self@.active == before.active.remove(thread_id));
            assert forall|root: i64| (#[trigger] agents(self@.active, root)).len()
                <= MAX_AGENT_TURNS by {
                lemma_agents_removed(before.active, thread_id, root);
                assert(agents(before.active, root).len() <= MAX_AGENT_TURNS);
            }
            assert forall|id: u64| self@.interactions.contains_key(id) implies 0 < id
                <= self@.last_interaction && self@.active.contains_key(
                (#[trigger] self@.interactions[id]).thread_id,
            ) by {
                assert(before.interactions.contains_key(id));
                assert(before.interactions[id] == self@.interactions[id]);
            }
        }
    }

    /// Whether threads can be deleted; otherwise the first reason why not.
    pub fn ensure_deletable(&self, thread_ids: &Vec<i64>) -> (result: Result<(), LifecycleError>)
        requires
            self.well_formed(),
        ensures
            result == match self@.first_delete_problem(thread_ids@) {
                Some(problem) => Err::<(), LifecycleError>(problem),
                None => Ok(()),
            },
    {
        let mut i: usize = 0;
        assert(thread_ids@.skip(0) =~= thread_ids@);
        while i < thread_ids.len()
            invariant
                i <= thread_ids.len(),
                self.well_formed(),
                self@.first_delete_problem(thread_ids@) == self@.first_delete_problem(
                    thread_ids@.skip(i as int),
                ),
            decreases thread_ids.len() - i,
        {
            let id = thread_ids[i];
            assert(thread_ids@.skip(i as int)[0] == id);
            assert(thread_ids@.skip(i as int).skip(1) =~= thread_ids@.skip(i + 1));
            if self.is_active(id) {
                return Err(LifecycleError::DeleteActive(id));
            }
            if self.is_pinned(id) {
                return Err(LifecycleError::DeleteObserved(id));
            }
            i += 1;
        }
        Ok(())
    }

    /// Observes threads, and tells the numbers of the turns that run in them.
    /// A thread is observed as often as it is named.
    pub fn pin_many(&mut self, thread_ids: &Vec<i64>) -> (turns: Vec<Option<u64>>)
        requires
            old(self).well_formed(),
        ensures
            final(self).well_formed(),
            final(self)@ == old(self)@.observed(thread_ids@),
            turns.len() == thread_ids.len(),
            forall|i: int|
                0 <= i < turns.len() ==> #[trigger] turns[i] == (if old(
                    self,
                )@.active.contains_key(thread_ids[i]) {
                    Some(old(self)@.active[thread_ids[i]].serial)
                } else {
                    None
                }),
    {
        let ghost start = self@;
        let mut turns: Vec<Option<u64>> = Vec::new();
        let mut i: usize = 0;
        proof {
            thread_ids@.take(0).to_multiset_ensures();
            assert(start.pins.add(thread_ids@.take(0).to_multiset()) =~= start.pins);
        }
        while i < thread_ids.len()
            invariant
                i <= thread_ids.len(),
                self.well_formed(),
                self@ == (LifecycleView {
                    pins: start.pins.add(thread_ids@.take(i as int).to_multiset()),
                    ..start
                }),
                turns.len() == i,
                forall|j: int|
                    0 <= j < turns.len() ==> #[trigger] turns[j] == (
                    if start.active.contains_key(thread_ids[j]) {
                        Some(start.active[thread_ids[j]].serial)
                    } else {
                        None
                    }),
            decreases thread_ids.len() - i,
        {
            let id = thread_ids[i];
            turns.push(
                match self.get(id) {
                    Some(turn) => Some(turn.serial),
                    None => None,
                },
            );
            proof {
                let taken = thread_ids@.take(i as int);
                assert(thread_ids@.take(i + 1) =~= taken.push(id));
                taken.to_multiset_ensures();
                self.pins@.to_multiset_ensures();
                assert(start.pins.add(taken.to_multiset()).insert(id) =~= start.pins.add(
                    taken.to_multiset().insert(id),
                ));
            }
            self.pins.push(id);
            i += 1;
        }
        assert(thread_ids@.take(i as int) =~= thread_ids@);
        turns
    }

    /// Observes a thread once less.
    pub fn release_pin(&mut self, thread_id: i64)
        requires
            old(self).well_formed(),
        ensures
            final(self).well_formed(),
            final(self)@ == old(self)@.unobserved(thread_id),
    {
        let ghost start = self@;
        let mut i: usize = 0;
        proof {
            self.pins@.to_multiset_ensures();
        }
        while i < self.pins.len()
            invariant
                i <= self.pins.len(),
                self.well_formed(),
                self@ == start,
                start == old(self)@,
                forall|j: int| 0 <= j < i ==> self.pins[j] != thread_id,
            decreases self.pins.len() - i,
        {
            if self.pins[i] == thread_id {
                proof {
                    self.pins@.to_multiset_ensures();
                }
                let _ = self.pins.remove(i);
                return ;
            }
            i += 1;
        }
        proof {
            self.pins@.to_multiset_ensures();
            assert(!self.pins@.contains(thread_id));
            assert(start.pins.remove(thread_id) =~= start.pins);
        }
    }

    /// Asks the user something on behalf of the turn of a thread. The number of
    /// the question is one that was never given out.
    pub fn register(&mut self, thread_id: i64, kind: InteractionKind) -> (result: Result<
        u64,
        LifecycleError,
    >)
        requires
            old(self).well_formed(),
            old(self)@.can_ask(thread_id) ==> old(self)@.last_interaction < u64::MAX,
        ensures
            final(self).well_formed(),
            if !old(self)@.active.contains_key(thread_id) {
                result == Err::<u64, LifecycleError>(LifecycleError::NoActiveTurn)
                    && final(self)@ == old(self)@
            } else if old(self)@.active[thread_id].cancelling {
                result == Err::<u64, LifecycleError>(LifecycleError::Cancelling) && final(self)@
                    == old(self)@
            } else {
                let id = (old(self)@.last_interaction + 1) as u64;
                &&& result == Ok::<u64, LifecycleError>(id)
                &&& !old(self)@.interactions.contains_key(id)
                &&& final(self)@ == (LifecycleView {
                    interactions: old(self)@.interactions.insert(
                        id,
                        PendingInteraction { thread_id, kind },
                    ),
                    last_interaction: id,
                    ..old(self)@
                })
            },
    {
        match self.get(thread_id) {
            None => {
                return Err(LifecycleError::NoActiveTurn);
            },
            Some(turn) => {
                if turn.cancelling {
                    return Err(LifecycleError::Cancelling);
                }
            },
        }
        let id = self.last_interaction + 1;
        let pending = PendingInteraction { thread_id, kind };
        proof {
            if self@.interactions.contains_key(id) {
                assert(self@.active.contains_key(self@.interactions[id].thread_id));
            }
            lemma_assoc_push(self.interactions@, id, pending);
        }
        self.interactions.push((id, pending));
        self.last_interaction = id;
        Ok(id)
    }

    /// Asks the user to approve something.
    pub fn register_approval(&mut self, thread_id: i64) -> (result: Result<u64, LifecycleError>)
        requires
            old(self).well_formed(),
            old(self)@.can_ask(thread_id) ==> old(self)@.last_interaction < u64::MAX,
        ensures
            final(self).well_formed(),
            result is Ok <==> old(self)@.can_ask(thread_id),
            match result {
                Ok(id) => id == old(self)@.last_interaction + 1 && final(self)@ == (
                LifecycleView {
                    interactions: old(self)@.interactions.insert(
                        id,
                        PendingInteraction { thread_id, kind: InteractionKind::Approval },
                    ),
                    last_interaction: id,
                    ..old(self)@
                }),
                Err(error) => final(self)@ == old(self)@ && error == (if old(
                    self,
                )@.active.contains_key(thread_id) {
                    LifecycleError::Cancelling
                } else {
                    LifecycleError::NoActiveTurn
                }),
            },
    {
        self.register(thread_id, InteractionKind::Approval)
    }

    /// Asks the user questions.
    pub fn register_question(&mut self, thread_id: i64) -> (result: Result<u64, LifecycleError>)
        requires
            old(self).well_formed(),
            old(self)@.can_ask(thread_id) ==> old(self)@.last_interaction < u64::MAX,
        ensures
            final(self).well_formed(),
            result is Ok <==> old(self)@.can_ask(thread_id),
            match result {
                Ok(id) => id == old(self)@.last_interaction + 1 && final(self)@ == (
                LifecycleView {
                    interactions: old(self)@.interactions.insert(
                        id,
                        PendingInteraction { thread_id, kind: InteractionKind::Questions },
                    ),
                    last_interaction: id,
                    ..old(self)@
                }),
                Err(error) => final(self)@ == old(self)@ && error == (if old(
                    self,
                )@.active.contains_key(thread_id) {
                    LifecycleError::Cancelling
                } else {
                    LifecycleError::NoActiveTurn
                }),
            },
    {
        self.register(thread_id, InteractionKind::Questions)
    }

    /// Takes a question of a kind away, to be answered. It can be taken once.
    pub fn claim(&mut self, id: u64, kind: InteractionKind) -> (result: Result<
        i64,
        LifecycleError,
    >)
        requires
            old(self).well_formed(),
        ensures
            final(self).well_formed(),
            if !old(self)@.interactions.contains_key(id) {
                result == Err::<i64, LifecycleError>(LifecycleError::NotPending(id))
                    && final(self)@ == old(self)@
            } else if old(self)@.interactions[id].kind != kind {
                result == Err::<i64, LifecycleError>(LifecycleError::NotOfKind(id, kind))
                    && final(self)@ == old(self)@
            } else {
                result == Ok::<i64, LifecycleError>(old(self)@.interactions[id].thread_id)
                    && final(self)@ == (LifecycleView {
                    interactions: old(self)@.interactions.remove(id),
                    ..old(self)@
                })
            },
    {
        match find_unsigned(&self.interactions, id) {
            None => Err(LifecycleError::NotPending(id)),
            Some(at) => {
                let pending = self.interactions[at].1;
                if pending.kind != kind {
                    return Err(LifecycleError::NotOfKind(id, kind));
                }
                proof {
                    lemma_assoc_remove(self.interactions@, at as int);
                }
                let _ = self.interactions.remove(at);
                Ok(pending.thread_id)
            },
        }
    }

    /// Takes an approval away, to be answered.
    pub fn claim_approval(&mut self, id: u64) -> (result: Result<i64, LifecycleError>)
        requires
            old(self).well_formed(),
        ensures
            final(self).well_formed(),
            if !old(self)@.interactions.contains_key(id) {
                result == Err::<i64, LifecycleError>(LifecycleError::NotPending(id))
                    && final(self)@ == old(self)@
            } else if old(self)@.interactions[id].kind != InteractionKind::Approval {
                result == Err::<i64, LifecycleError>(
                    LifecycleError::NotOfKind(id, InteractionKind::Approval),
                ) && final(self)@ == old(self)@
            } else {
                result == Ok::<i64, LifecycleError>(old(self)@.interactions[id].thread_id)
                    && final(self)@ == (LifecycleView {
                    interactions: old(self)@.interactions.remove(id),
                    ..old(self)@
                })
            },
    {
        self.claim(id, InteractionKind::Approval)
    }

    /// Takes questions away, to be answered.
    pub fn claim_questions(&mut self, id: u64) -> (result: Result<i64, LifecycleError>)
        requires
            old(self).well_formed(),
        ensures
            final(self).well_formed(),
            if !old(self)@.interactions.contains_key(id) {
                result == Err::<i64, LifecycleError>(LifecycleError::NotPending(id))
                    && final(self)@ == old(self)@
            } else if old(self)@.interactions[id].kind != InteractionKind::Questions {
                result == Err::<i64, LifecycleError>(
                    LifecycleError::NotOfKind(id, InteractionKind::Questions),
                ) && final(self)@ == old(self)@
            } else {
                result == Ok::<i64, LifecycleError>(old(self)@.interactions[id].thread_id)
                    && final(self)@ == (LifecycleView {
                    interactions: old(self)@.interactions.remove(id),
                    ..old(self)@
                })
            },
    {
        self.claim(id, InteractionKind::Questions)
    }

    /// Takes back everything that a thread asked the user.
    pub fn clear_interactions(&mut self, thread_id: i64)
        requires
            old(self).well_formed(),
        ensures
            final(self).well_formed(),
            final(self)@ == (LifecycleView {
                interactions: without_thread(old(self)@.interactions, thread_id),
                ..old(self)@
            }),
    {
        let ghost before = self@;
        self.drop_interactions(thread_id);
        proof {
            assert forall|id: u64| self@.interactions.contains_key(id) implies 0 < id
                <= self@.last_interaction && self@.active.contains_key(
                (#[trigger] self@.interactions[id]).thread_id,
            ) by {
                assert(before.interactions.contains_key(id));
                assert(before.interactions[id] == self@.interactions[id]);
            }
        }
    }
}

/// What comes of answering a question that was taken: the answer must be of its
/// kind, and the turn must still wait for it.
pub fn resolve(id: u64, pending: InteractionKind, answer: InteractionKind, delivered: bool) -> (result:
    Result<(), LifecycleError>)
    ensures
        result == (if pending != answer {
            Err(LifecycleError::WrongAnswer(id, answer))
        } else if !delivered {
            Err(LifecycleError::TurnEnded(id, answer))
        } else {
            Ok(())
        }),
{
    if pending != answer {
        Err(LifecycleError::WrongAnswer(id, answer))
    } else if !delivered {
        Err(LifecycleError::TurnEnded(id, answer))
    } else {
        Ok(())
    }
}

/// Where a turn ended, the thread has none and may ask nothing, and what it asked can
/// be answered no more; the turns and questions of other threads and what is observed
/// stay as they were; and ending it again changes nothing.
pub proof fn law_finish(state: LifecycleView, thread_id: i64, other: i64, id: u64)
    ensures
        !state.finished(thread_id).active.contains_key(thread_id),
        !state.finished(thread_id).can_ask(thread_id),
        state.interactions.contains_key(id) && state.interactions[id].thread_id == thread_id
            ==> !state.finished(thread_id).interactions.contains_key(id),
        state.interactions.contains_key(id) && state.interactions[id].thread_id != thread_id
            ==> state.finished(thread_id).interactions.contains_key(id) && state.finished(
            thread_id,
        ).interactions[id] == state.interactions[id],
        !state.interactions.contains_key(id) ==> !state.finished(
            thread_id,
        ).interactions.contains_key(id),
        other != thread_id ==> state.finished(thread_id).active.contains_key(other)
            == state.active.contains_key(other),
        other != thread_id && state.active.contains_key(other) ==> state.finished(
            thread_id,
        ).active[other] == state.active[other],
        state.finished(thread_id).pins == state.pins,
        state.finished(thread_id).finished(thread_id) == state.finished(thread_id),
{
    let once = state.finished(thread_id);
    let twice = once.finished(thread_id);
    assert(twice.active =~= once.active);
    assert(twice.interactions =~= once.interactions);
}

/// While a thread is observed it is not free, can neither be changed nor deleted, and
/// ending an observation of another thread frees it not; and where it is observed no
/// more and has no turn, it is free and can be deleted.
pub proof fn law_observed_thread_is_kept(
    state: LifecycleView,
    thread_ids: Seq<i64>,
    thread_id: i64,
    other: i64,
)
    ensures
        thread_ids.contains(thread_id) ==> !state.observed(thread_ids).free(thread_id),
        thread_ids.contains(thread_id) ==> state.observed(thread_ids).first_delete_problem(
            seq![thread_id],
        ) is Some,
        other != thread_id ==> state.unobserved(other).free(thread_id) == state.free(thread_id),
        state.pins.count(thread_id) > 1 ==> !state.unobserved(thread_id).free(thread_id),
        state.free(thread_id) <==> state.first_delete_problem(seq![thread_id]) is None,
{
    thread_ids.to_multiset_ensures();
    let alone = seq![thread_id];
    assert(alone.skip(1) =~= Seq::empty());
    assert(alone.skip(1).len() == 0);
    assert(state.first_delete_problem(alone.skip(1)) is None);
    assert(state.observed(thread_ids).first_delete_problem(alone.skip(1)) is None);
    if thread_ids.contains(thread_id) {
        assert(thread_ids.to_multiset().count(thread_id) > 0);
    }
}

/// A turn that ended leaves nothing asked, and its number comes to no other turn:
/// whatever turn starts next has another.
pub proof fn law_finished_turn_leaves_nothing(state: LifecycleView, thread_id: i64, id: u64)
    requires
        state.consistent(),
        state.active.contains_key(thread_id),
        without_thread(state.interactions, thread_id).contains_key(id),
    ensures
        state.interactions[id].thread_id != thread_id,
        state.active.remove(thread_id).contains_key(state.interactions[id].thread_id),
        state.active[thread_id].serial != state.next_turn,
{
}

/// While a thread is observed, it can neither be deleted nor is its deletion
/// hidden by another thread: some problem is reported.
pub proof fn law_observed_thread_is_not_deletable(state: LifecycleView, ids: Seq<i64>, i: int)
    requires
        0 <= i < ids.len(),
        state.pinned(ids[i]) || state.active.contains_key(ids[i]),
    ensures
        state.first_delete_problem(ids) is Some,
    decreases ids.len(),
{
    if i > 0 && state.delete_problem(ids[0]) is None {
        assert(ids.skip(1)[i - 1] == ids[i]);
        law_observed_thread_is_not_deletable(state, ids.skip(1), i - 1);
    }
}

/// Observing threads and then releasing each once leaves the observations as
/// they were.
pub proof fn law_released_pins_are_gone(pins: Multiset<i64>, ids: Seq<i64>)
    ensures
        released(pins.add(ids.to_multiset()), ids) == pins,
    decreases ids.len(),
{
    ids.to_multiset_ensures();
    if ids.len() == 0 {
        assert(pins.add(ids.to_multiset()) =~= pins);
    } else {
        let rest = ids.drop_last();
        let last = ids.last();
        rest.to_multiset_ensures();
        assert(rest.push(last) =~= ids);
        assert(pins.add(ids.to_multiset()).remove(last) =~= pins.add(rest.to_multiset()));
        law_released_pins_are_gone(pins, rest);
    }
}

/// The observations after releasing `ids`, the last first.
pub open spec fn released(pins: Multiset<i64>, ids: Seq<i64>) -> Multiset<i64>
    decreases ids.len(),
{
    if ids.len() == 0 {
        pins
    } else {
        released(pins.remove(ids.last()), ids.drop_last())
    }
}

/// A turn that is asked to stop is marked, and nothing else of it or of any other turn
/// changes; a mark is not taken back.
pub proof fn law_cancellation_marks_only_the_named(
    active: Map<i64, ActiveTurn>,
    ids: Seq<i64>,
    id: i64,
)
    ensures
        cancelled(active, ids).contains_key(id) <==> active.contains_key(id),
        active.contains_key(id) ==> {
            let turn = cancelled(active, ids)[id];
            &&& turn.serial == active[id].serial
            &&& turn.agent_root == active[id].agent_root
            &&& turn.cancelling <==> active[id].cancelling || ids.contains(id)
        },
{
}

/// The threads that are asked to stop are those of the named ones that have a turn, in
/// the order in which they were named.
pub proof fn law_stopped_are_those_with_a_turn(
    active: Map<i64, ActiveTurn>,
    ids: Seq<i64>,
    count: nat,
    i: int,
)
    requires
        0 <= i < count <= ids.len(),
    ensures
        ({
            let named = active_among(active, ids, count);
            let at = active_among(active, ids, i as nat).len();
            let next = active_among(active, ids, (i + 1) as nat).len();
            &&& at <= next <= named.len()
            &&& active.contains_key(ids[i]) ==> next == at + 1 && named[at as int] == ids[i]
            &&& !active.contains_key(ids[i]) ==> next == at
            &&& active_among(active, ids, 0).len() == 0
        }),
{
    lemma_active_grows(active, ids, (i + 1) as nat, count);
}

proof fn lemma_active_grows(active: Map<i64, ActiveTurn>, ids: Seq<i64>, count: nat, total: nat)
    requires
        count <= total <= ids.len(),
    ensures
        active_among(active, ids, count).len() <= active_among(active, ids, total).len(),
        forall|k: int|
            0 <= k < active_among(active, ids, count).len() ==> #[trigger] active_among(
                active,
                ids,
                total,
            )[k] == active_among(active, ids, count)[k],
    decreases total,
{
    if count < total {
        lemma_active_grows(active, ids, count, (total - 1) as nat);
    }
}

/// A turn that starts is that of its thread, below the root that it was started for,
/// is not asked to stop, and has a number that no turn had before; no other turn, no
/// question and no observer changes.
pub proof fn law_started_turn_is_new(
    state: LifecycleView,
    thread_id: i64,
    agent_root: Option<i64>,
    other: i64,
)
    requires
        state.consistent(),
        state.next_turn < u64::MAX,
        state.free(thread_id),
    ensures
        ({
            let after = state.started(thread_id, agent_root);
            &&& after.active.contains_key(thread_id)
            &&& after.active[thread_id].serial == state.next_turn
            &&& !after.active[thread_id].cancelling
            &&& after.active[thread_id].agent_root == agent_root
            &&& state.active.contains_key(other) ==> state.active[other].serial
                < after.active[thread_id].serial && after.active.contains_key(other)
                && after.active[other] == state.active[other]
            &&& other != thread_id ==> (after.active.contains_key(other)
                <==> state.active.contains_key(other))
            &&& after.next_turn == state.next_turn + 1
            &&& after.pins == state.pins
            &&& after.interactions == state.interactions
            &&& after.last_interaction == state.last_interaction
        }),
{
}

/// A thread can be deleted if and only if it has no turn and nobody observes it; a
/// list of threads can be deleted if and only if each of them can, and the first that
/// cannot is named.
pub proof fn law_free_threads_can_be_deleted(state: LifecycleView, ids: Seq<i64>)
    ensures
        state.first_delete_problem(ids) is None <==> forall|i: int|
            0 <= i < ids.len() ==> state.free(#[trigger] ids[i]),
        state.first_delete_problem(ids) matches Some(problem) ==> exists|i: int|
            0 <= i < ids.len() && !state.free(#[trigger] ids[i]) && problem == (
            if state.active.contains_key(ids[i]) {
                LifecycleError::DeleteActive(ids[i])
            } else {
                LifecycleError::DeleteObserved(ids[i])
            }) && forall|k: int| 0 <= k < i ==> state.free(#[trigger] ids[k]),
    decreases ids.len(),
{
    if ids.len() > 0 {
        let rest = ids.skip(1);
        law_free_threads_can_be_deleted(state, rest);
        assert forall|i: int| 0 <= i < rest.len() implies #[trigger] rest[i] == ids[i + 1] by {}
        if state.delete_problem(ids[0]) is Some {
            assert(!state.free(ids[0]));
        } else {
            assert(state.free(ids[0]));
            if let Some(problem) = state.first_delete_problem(rest) {
                let i = choose|i: int|
                    0 <= i < rest.len() && !state.free(#[trigger] rest[i]) && problem == (
                    if state.active.contains_key(rest[i]) {
                        LifecycleError::DeleteActive(rest[i])
                    } else {
                        LifecycleError::DeleteObserved(rest[i])
                    }) && forall|k: int| 0 <= k < i ==> state.free(#[trigger] rest[k]);
                assert(!state.free(ids[i + 1]));
                assert forall|k: int| 0 <= k < i + 1 implies state.free(#[trigger] ids[k]) by {
                    if k > 0 {
                        assert(state.free(rest[k - 1]));
                    }
                }
            } else {
                assert forall|i: int| 0 <= i < ids.len() implies state.free(#[trigger] ids[i]) by {
                    if i > 0 {
                        assert(state.free(rest[i - 1]));
                    }
                }
            }
        }
    }
}

/// An answer reaches its turn only where it is of the kind that was asked for and the
/// turn still listens.
pub proof fn law_answer_fits_the_question(
    id: u64,
    pending: InteractionKind,
    answer: InteractionKind,
    delivered: bool,
    result: Result<(), LifecycleError>,
)
    requires
        call_ensures(resolve, (id, pending, answer, delivered), result),
    ensures
        result is Ok <==> pending == answer && delivered,
        pending != answer ==> result == Err::<(), LifecycleError>(
            LifecycleError::WrongAnswer(id, answer),
        ),
        pending == answer && !delivered ==> result == Err::<(), LifecycleError>(
            LifecycleError::TurnEnded(id, answer),
        ),
{
}

/// At most eight agents below one root have turns at once.
pub proof fn law_agents_are_few(state: LifecycleView, root: i64)
    requires
        state.consistent(),
    ensures
        agents(state.active, root).len() <= 8,
        forall|id: i64| #[trigger]
            agents(state.active, root).contains(id) <==> state.active.contains_key(id)
                && state.active[id].agent_root == Some(root),
{
}

/// A question is answered once, by an answer of its kind: it is taken away then, and
/// nothing else changes. What is not asked, or asked in another way, stays as it is.
pub proof fn law_question_is_taken_once(
    state: &mut TurnLifecycle,
    id: u64,
    kind: InteractionKind,
    other: u64,
    result: Result<i64, LifecycleError>,
)
    requires
        call_ensures(TurnLifecycle::claim, (state, id, kind), result),
    ensures
        ({
            let before = old(state)@;
            let after = final(state)@;
            &&& result is Ok <==> before.interactions.contains_key(id)
                && before.interactions[id].kind == kind
            &&& result is Ok ==> !after.interactions.contains_key(id)
            &&& result is Err ==> after == before
            &&& result matches Ok(thread) ==> thread == before.interactions[id].thread_id
            &&& other != id ==> (after.interactions.contains_key(other)
                <==> before.interactions.contains_key(other))
            &&& after.active == before.active
        }),
{
}

/// What a turn asks is asked until it is answered: the answer of its kind reaches the
/// thread that asked, and then everything is as it was before.
pub proof fn law_asked_and_answered(
    asking: &mut TurnLifecycle,
    answering: &mut TurnLifecycle,
    thread_id: i64,
    kind: InteractionKind,
    asked: Result<u64, LifecycleError>,
    answered: Result<i64, LifecycleError>,
)
    requires
        call_ensures(TurnLifecycle::register, (asking, thread_id, kind), asked),
        asked is Ok,
        old(answering)@ == final(asking)@,
        call_ensures(TurnLifecycle::claim, (answering, asked->Ok_0, kind), answered),
    ensures
        answered == Ok::<i64, LifecycleError>(thread_id),
        final(answering)@.interactions == old(asking)@.interactions,
        final(answering)@.active == old(asking)@.active,
        final(answering)@.pins == old(asking)@.pins,
{
    assert(final(answering)@.interactions =~= old(asking)@.interactions);
}

/// Only a turn that runs and is not being stopped can ask; a new question has a number
/// of its own, and takes no other away.
pub proof fn law_running_turn_can_ask(
    state: &mut TurnLifecycle,
    thread_id: i64,
    kind: InteractionKind,
    other: u64,
    result: Result<u64, LifecycleError>,
)
    requires
        call_ensures(TurnLifecycle::register, (state, thread_id, kind), result),
    ensures
        result is Ok <==> old(state)@.active.contains_key(thread_id)
            && !old(state)@.active[thread_id].cancelling,
        result matches Err(error) ==> final(state)@ == old(state)@ && (error is NoActiveTurn
            <==> !old(state)@.active.contains_key(thread_id)) && (error is Cancelling
            <==> old(state)@.active.contains_key(thread_id)),
        result matches Ok(id) ==> !old(state)@.interactions.contains_key(id)
            && final(state)@.interactions.contains_key(id)
            && final(state)@.interactions[id].thread_id == thread_id
            && final(state)@.interactions[id].kind == kind && (other != id
            ==> final(state)@.interactions.contains_key(other)
            == old(state)@.interactions.contains_key(other)),
{
}

/// Approvals are asked and answered as approvals, and questions as questions.
pub proof fn law_approvals_and_questions_are_kept_apart(
    one: &mut TurnLifecycle,
    two: &mut TurnLifecycle,
    three: &mut TurnLifecycle,
    four: &mut TurnLifecycle,
    thread_id: i64,
    approval: Result<u64, LifecycleError>,
    question: Result<u64, LifecycleError>,
    id: u64,
    allowed: Result<i64, LifecycleError>,
    answered: Result<i64, LifecycleError>,
)
    requires
        call_ensures(TurnLifecycle::register_approval, (one, thread_id), approval),
        call_ensures(TurnLifecycle::register_question, (two, thread_id), question),
        call_ensures(TurnLifecycle::claim_approval, (three, id), allowed),
        call_ensures(TurnLifecycle::claim_questions, (four, id), answered),
    ensures
        approval matches Ok(number) ==> final(one)@.interactions[number].kind is Approval
            && final(one)@.interactions[number].thread_id == thread_id,
        question matches Ok(number) ==> final(two)@.interactions[number].kind is Questions
            && final(two)@.interactions[number].thread_id == thread_id,
        approval is Ok <==> old(one)@.active.contains_key(thread_id)
            && !old(one)@.active[thread_id].cancelling,
        question is Ok <==> old(two)@.active.contains_key(thread_id)
            && !old(two)@.active[thread_id].cancelling,
        allowed is Ok <==> old(three)@.interactions.contains_key(id)
            && old(three)@.interactions[id].kind is Approval,
        answered is Ok <==> old(four)@.interactions.contains_key(id)
            && old(four)@.interactions[id].kind is Questions,
        allowed matches Ok(thread) ==> old(three)@.interactions[id].thread_id == thread
            && !final(three)@.interactions.contains_key(id),
        answered matches Ok(thread) ==> old(four)@.interactions[id].thread_id == thread
            && !final(four)@.interactions.contains_key(id),
        allowed is Err ==> final(three)@ == old(three)@,
        answered is Err ==> final(four)@ == old(four)@,
{
}

/// A turn starts only in a thread that has none and is not observed, for an agent only
/// where fewer than eight run below its root; it is then the turn of that thread, and no
/// other thread is touched.
pub proof fn law_turn_starts_in_a_free_thread(
    state: &mut TurnLifecycle,
    agent: &mut TurnLifecycle,
    thread_id: i64,
    root: i64,
    other: i64,
    started: Result<u64, LifecycleError>,
    result: Result<u64, LifecycleError>,
)
    requires
        call_ensures(TurnLifecycle::start, (state, thread_id), started),
        call_ensures(TurnLifecycle::start_agent, (agent, thread_id, root), result),
    ensures
        started is Ok <==> !old(state)@.active.contains_key(thread_id) && !old(state)@.pinned(
            thread_id,
        ),
        result is Ok <==> !old(agent)@.active.contains_key(thread_id) && !old(agent)@.pinned(
            thread_id,
        ) && agents(old(agent)@.active, root).len() < 8,
        started is Err ==> final(state)@ == old(state)@,
        result is Err ==> final(agent)@ == old(agent)@,
        started matches Ok(serial) ==> final(state)@.active.contains_key(thread_id)
            && final(state)@.active[thread_id].serial == serial
            && !final(state)@.active[thread_id].cancelling
            && final(state)@.active[thread_id].agent_root is None,
        result matches Ok(serial) ==> final(agent)@.active.contains_key(thread_id)
            && final(agent)@.active[thread_id].serial == serial
            && !final(agent)@.active[thread_id].cancelling
            && final(agent)@.active[thread_id].agent_root == Some(root),
        other != thread_id ==> final(state)@.active.contains_key(other)
            == old(state)@.active.contains_key(other),
        other != thread_id ==> final(agent)@.active.contains_key(other)
            == old(agent)@.active.contains_key(other),
{
}

/// A stop is asked of the turn that runs, which goes on until it ends; what a thread
/// asked is taken back for that thread alone.
pub proof fn law_stop_is_asked_of_the_running_turn(
    state: &mut TurnLifecycle,
    cleared: &mut TurnLifecycle,
    thread_id: i64,
    other: i64,
    id: u64,
    turn: Option<u64>,
)
    requires
        call_ensures(TurnLifecycle::begin_cancellation, (state, thread_id), turn),
        call_ensures(TurnLifecycle::clear_interactions, (cleared, thread_id), ()),
    ensures
        turn is Some <==> old(state)@.active.contains_key(thread_id),
        turn matches Some(serial) ==> old(state)@.active[thread_id].serial == serial
            && final(state)@.active.contains_key(thread_id)
            && final(state)@.active[thread_id].cancelling
            && final(state)@.active[thread_id].serial == serial,
        other != thread_id && old(state)@.active.contains_key(other)
            ==> final(state)@.active.contains_key(other) && final(state)@.active[other]
            == old(state)@.active[other],
        final(cleared)@.interactions.contains_key(id) <==> old(
            cleared,
        )@.interactions.contains_key(id) && old(cleared)@.interactions[id].thread_id != thread_id,
        final(cleared)@.active == old(cleared)@.active,
{
    let ids = seq![thread_id];
    assert(ids[0] == thread_id);
    assert(ids.contains(thread_id));
    assert(!ids.contains(other) || other == thread_id);
}

/// A thread can be changed where nothing runs in it and nobody observes it.
pub proof fn law_quiet_thread_can_be_changed(
    state: TurnLifecycle,
    thread_id: i64,
    result: Result<(), LifecycleError>,
)
    requires
        call_ensures(TurnLifecycle::ensure_mutable, (&state, thread_id), result),
    ensures
        result is Ok <==> !state@.active.contains_key(thread_id) && state@.pins.count(thread_id)
            == 0,
        result matches Err(error) ==> (error is HasActiveTurn <==> state@.active.contains_key(
            thread_id,
        )),
{
}

/// An error says which thread or which question it is about, and what kind of answer was
/// awaited.
pub proof fn law_error_says_what_it_is_about(thread: i64, id: u64, kind: InteractionKind)
    ensures
        crate::text::holds_part(
            LifecycleError::DeleteActive(thread).words(),
            "thread "@ + decimal(thread as int),
        ),
        crate::text::holds_part(
            LifecycleError::DeleteObserved(thread).words(),
            "thread "@ + decimal(thread as int),
        ),
        crate::text::holds_part(
            LifecycleError::NotPending(id).words(),
            "interaction "@ + decimal(id as int),
        ),
        crate::text::holds_part(
            LifecycleError::NotOfKind(id, kind).words(),
            "interaction "@ + decimal(id as int),
        ),
        kind is Approval ==> crate::text::has_suffix(
            LifecycleError::NotOfKind(id, kind).words(),
            "approval"@,
        ) && crate::text::has_suffix(LifecycleError::WrongAnswer(id, kind).words(), "approval"@),
        kind is Questions ==> crate::text::has_suffix(
            LifecycleError::NotOfKind(id, kind).words(),
            "question request"@,
        ) && crate::text::has_suffix(
            LifecycleError::WrongAnswer(id, kind).words(),
            "question request"@,
        ),
        crate::text::holds_part(
            LifecycleError::TurnEnded(id, kind).words(),
            decimal(id as int),
        ),
{
    reveal_strlit("cannot delete thread ");
    reveal_strlit("cannot delete ");
    reveal_strlit("thread ");
    assert("cannot delete thread "@ =~= "cannot delete "@ + "thread "@);
    let named = "thread "@ + decimal(thread as int);
    let numbered = "interaction "@ + decimal(id as int);
    assert(LifecycleError::DeleteActive(thread).words() =~= "cannot delete "@ + named
        + " with an active turn"@);
    crate::text::lemma_holds_middle("cannot delete "@, named, " with an active turn"@);
    assert(LifecycleError::DeleteObserved(thread).words() =~= Seq::empty() + named
        + " is being observed"@);
    crate::text::lemma_holds_middle(Seq::empty(), named, " is being observed"@);
    assert(LifecycleError::NotPending(id).words() =~= Seq::empty() + numbered
        + " is not pending"@);
    crate::text::lemma_holds_middle(Seq::empty(), numbered, " is not pending"@);
    let other = LifecycleError::NotOfKind(id, kind).words();
    assert(other =~= Seq::empty() + numbered + (" is not a pending "@ + kind_words(kind)));
    crate::text::lemma_holds_middle(
        Seq::empty(),
        numbered,
        " is not a pending "@ + kind_words(kind),
    );
    assert(other.skip(other.len() - kind_words(kind).len()) =~= kind_words(kind));
    reveal_strlit(" is not an approval");
    reveal_strlit("approval");
    reveal_strlit(" is not a question request");
    reveal_strlit("question request");
    let wrong = LifecycleError::WrongAnswer(id, kind).words();
    assert(wrong.skip(wrong.len() - kind_words(kind).len()) =~= kind_words(kind));
    let start = "turn ended before "@ + kind_words(kind) + " "@;
    crate::text::lemma_holds_middle(start, decimal(id as int), " was resolved"@);
}

} // verus!
