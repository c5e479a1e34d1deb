//! What the controller does for a request of an agent.
use crate::agent::request::AgentError;
use crate::text::{blank, is_blank};
use vstd::prelude::*;

verus! {

/// A thread to wait for, and the event after which it is reported.
#[derive(Clone, Copy, Debug, PartialEq, Eq, Structural)]
pub struct AgentTarget {
    pub thread_id: i64,
    pub after_sequence: i64,
}

/// What an agent asks.
#[allow(inconsistent_fields)]
#[derive(Debug, PartialEq)]
pub enum AgentRequest {
    Create {
        name: String,
        model: Option<String>,
        effort: Option<String>,
        allow_delegation: bool,
    },
    Send { thread_id: i64, message: String },
    Wait { targets: Vec<AgentTarget>, timeout_ms: u64 },
    List,
    Cancel { thread_ids: Vec<i64>, recursive: bool },
    Delete { thread_ids: Vec<i64>, recursive: bool },
}

/// A step of a request. The steps are taken in order; the first that fails ends the
/// request with its error.
#[allow(inconsistent_fields)]
#[derive(Clone, Copy, Debug, PartialEq)]
pub enum AgentStep<'a> {
    /// The state of the thread is loaded.
    Materialize { thread_id: i64 },
    /// The request is refused.
    Refuse(AgentError),
    /// What the new agent runs with is settled, by what is asked for and by what the
    /// thread that asks runs with.
    Settle { parent: i64, model: &'a Option<String>, effort: &'a Option<String> },
    /// The models of the provider must hold the model with the effort, as they were
    /// settled.
    SelectModel,
    /// The lock on changes is taken, and held to the end or to `Unlock`.
    Lock,
    /// The lock on changes is given back.
    Unlock,
    /// From here on the steps are taken though nobody may wait for them any more.
    Accept,
    /// The thread must exist still.
    CheckThread { thread_id: i64 },
    /// A thread below another is created in the store, with what was settled.
    CreateChild { parent: i64, name: &'a String, allow_delegation: bool },
    /// The new thread is shown.
    ShowThread,
    /// The agent is told the number of the new thread.
    TellCreated,
    /// The thread must stand below the one that asks.
    Authorize { invoking: i64, target: i64 },
    /// The state of the thread is loaded under the lock that is held.
    MaterializeLocked { thread_id: i64 },
    /// The number of the last event of the thread is taken down.
    NoteSequence { thread_id: i64 },
    /// The turn is registered among those of the agents below the root of the thread
    /// that asks.
    RegisterTurn { thread_id: i64, invoking: i64 },
    /// The turn is shown; where that fails, it is finished.
    ShowTurn { thread_id: i64 },
    /// The turn runs. It asks nobody anything.
    LaunchTurn { thread_id: i64, message: &'a String },
    /// The agent is told the number that was taken down.
    TellSequence,
    /// The threads are kept from being changed or deleted, in their order.
    PinMany { targets: &'a Vec<AgentTarget> },
    /// The turns are waited for, at most so long, and reported in their order.
    WaitAndReport { targets: &'a Vec<AgentTarget>, timeout_ms: u64 },
    /// The thread and those below it are listed.
    ListBelow { thread_id: i64 },
    /// It is found out which threads are to be cancelled.
    CollectCancellation { invoking: i64, thread_ids: &'a Vec<i64>, recursive: bool },
    /// The turns of those threads are asked to stop.
    BeginCancellation,
    /// The agent is told of each.
    TellCancellation,
    /// It is found out which threads are to be deleted, and whether they may be.
    CollectDeletion { invoking: i64, thread_ids: &'a Vec<i64>, recursive: bool },
    /// Those threads are deleted.
    CommitDeletion,
    /// The processes of the deleted threads are stopped.
    StopProcesses,
    /// The agent is told of each.
    TellDeletion,
}

/// The steps that make sure of the first `count` of the threads to wait for.
pub open spec fn target_steps<'a>(invoking: i64, targets: Seq<AgentTarget>, count: nat) -> Seq<
    AgentStep<'a>,
>
    decreases count,
{
    if count == 0 {
        Seq::empty()
    } else {
        let target = targets[count - 1].thread_id;
        target_steps(invoking, targets, (count - 1) as nat).push(
            AgentStep::Authorize { invoking, target },
        ).push(AgentStep::MaterializeLocked { thread_id: target })
    }
}

/// The steps of a request that an agent makes in a thread.
pub open spec fn agent_steps<'a>(invoking: i64, request: &'a AgentRequest) -> Seq<AgentStep<'a>> {
    let first = AgentStep::Materialize { thread_id: invoking };
    match request {
        AgentRequest::Create { name, model, effort, allow_delegation } => if blank(name@) {
            seq![first, AgentStep::Refuse(AgentError::EmptyName)]
        } else {
            seq![
                first,
                AgentStep::Settle { parent: invoking, model, effort },
                AgentStep::SelectModel,
                AgentStep::Lock,
                AgentStep::CheckThread { thread_id: invoking },
                AgentStep::Accept,
                AgentStep::CreateChild {
                    parent: invoking,
                    name,
                    allow_delegation: *allow_delegation,
                },
                AgentStep::ShowThread,
                AgentStep::TellCreated,
            ]
        },
        AgentRequest::Send { thread_id, message } => seq![
            first,
            AgentStep::Lock,
            AgentStep::Authorize { invoking, target: *thread_id },
            AgentStep::MaterializeLocked { thread_id: *thread_id },
            AgentStep::NoteSequence { thread_id: *thread_id },
            AgentStep::RegisterTurn { thread_id: *thread_id, invoking },
            AgentStep::Accept,
            AgentStep::ShowTurn { thread_id: *thread_id },
            AgentStep::LaunchTurn { thread_id: *thread_id, message },
            AgentStep::TellSequence,
        ],
        AgentRequest::Wait { targets, timeout_ms } => if targets@.len() == 0 {
            seq![first, AgentStep::Refuse(AgentError::NoTarget)]
        } else {
            seq![first, AgentStep::Lock] + target_steps(invoking, targets@, targets@.len()) + seq![
                AgentStep::PinMany { targets },
                AgentStep::Unlock,
                AgentStep::WaitAndReport { targets, timeout_ms: *timeout_ms },
            ]
        },
        AgentRequest::List => seq![first, AgentStep::ListBelow { thread_id: invoking }],
        AgentRequest::Cancel { thread_ids, recursive } => seq![
            first,
            AgentStep::Lock,
            AgentStep::CollectCancellation { invoking, thread_ids, recursive: *recursive },
            AgentStep::BeginCancellation,
            AgentStep::Accept,
            AgentStep::Unlock,
            AgentStep::TellCancellation,
        ],
        AgentRequest::Delete { thread_ids, recursive } => seq![
            first,
            AgentStep::Lock,
            AgentStep::CollectDeletion { invoking, thread_ids, recursive: *recursive },
            AgentStep::Accept,
            AgentStep::CommitDeletion,
            AgentStep::Unlock,
            AgentStep::StopProcesses,
            AgentStep::TellDeletion,
        ],
    }
}

fn wait_plan<'a>(invoking: i64, targets: &'a Vec<AgentTarget>, timeout_ms: u64) -> (plan: Vec<
    AgentStep<'a>,
>)
    ensures
        plan@ == seq![
            AgentStep::Materialize { thread_id: invoking },
            AgentStep::Lock,
        ] + target_steps(invoking, targets@, targets@.len()) + seq![
            AgentStep::PinMany { targets },
            AgentStep::Unlock,
            AgentStep::WaitAndReport { targets, timeout_ms },
        ],
{
    let mut plan = vec![AgentStep::Materialize { thread_id: invoking }, AgentStep::Lock];
    let ghost head = plan@;
    let mut i: usize = 0;
    assert(plan@ =~= head + target_steps(invoking, targets@, 0));
    while i < targets.len()
        invariant
            i <= targets.len(),
            plan@ == head + target_steps(invoking, targets@, i as nat),
        decreases targets.len() - i,
    {
        let target = targets[i].thread_id;
        plan.push(AgentStep::Authorize { invoking, target });
        plan.push(AgentStep::MaterializeLocked { thread_id: target });
        i += 1;
        assert(plan@ =~= head + target_steps(invoking, targets@, i as nat));
    }
    let ghost middle = plan@;
    plan.push(AgentStep::PinMany { targets });
    plan.push(AgentStep::Unlock);
    plan.push(AgentStep::WaitAndReport { targets, timeout_ms });
    assert(plan@ =~= middle + seq![
        AgentStep::PinMany { targets },
        AgentStep::Unlock,
        AgentStep::WaitAndReport { targets, timeout_ms },
    ]);
    plan
}

/// The steps of a request that an agent makes in a thread.
pub fn agent_request<'a>(invoking: i64, request: &'a AgentRequest) -> (plan: Vec<AgentStep<'a>>)
    ensures
        plan@ == agent_steps(invoking, request),
{
    let first = AgentStep::Materialize { thread_id: invoking };
    match request {
        AgentRequest::Create { name, model, effort, allow_delegation } => {
            if is_blank(name.as_str()) {
                return vec![first, AgentStep::Refuse(AgentError::EmptyName)];
            }
            vec![
                first,
                AgentStep::Settle { parent: invoking, model, effort },
                AgentStep::SelectModel,
                AgentStep::Lock,
                AgentStep::CheckThread { thread_id: invoking },
                AgentStep::Accept,
                AgentStep::CreateChild {
                    parent: invoking,
                    name,
                    allow_delegation: *allow_delegation,
                },
                AgentStep::ShowThread,
                AgentStep::TellCreated,
            ]
        },
        AgentRequest::Send { thread_id, message } => vec![
            first,
            AgentStep::Lock,
            AgentStep::Authorize { invoking, target: *thread_id },
            AgentStep::MaterializeLocked { thread_id: *thread_id },
            AgentStep::NoteSequence { thread_id: *thread_id },
            AgentStep::RegisterTurn { thread_id: *thread_id, invoking },
            AgentStep::Accept,
            AgentStep::ShowTurn { thread_id: *thread_id },
            AgentStep::LaunchTurn { thread_id: *thread_id, message },
            AgentStep::TellSequence,
        ],
        AgentRequest::Wait { targets, timeout_ms } => {
            if targets.len() == 0 {
                return vec![first, AgentStep::Refuse(AgentError::NoTarget)];
            }
            wait_plan(invoking, targets, *timeout_ms)
        },
        AgentRequest::List => vec![first, AgentStep::ListBelow { thread_id: invoking }],
        AgentRequest::Cancel { thread_ids, recursive } => vec![
            first,
            AgentStep::Lock,
            AgentStep::CollectCancellation { invoking, thread_ids, recursive: *recursive },
            AgentStep::BeginCancellation,
            AgentStep::Accept,
            AgentStep::Unlock,
            AgentStep::TellCancellation,
        ],
        AgentRequest::Delete { thread_ids, recursive } => vec![
            first,
            AgentStep::Lock,
            AgentStep::CollectDeletion { invoking, thread_ids, recursive: *recursive },
            AgentStep::Accept,
            AgentStep::CommitDeletion,
            AgentStep::Unlock,
            AgentStep::StopProcesses,
            AgentStep::TellDeletion,
        ],
    }
}

/// Whether a step changes what others see.
pub open spec fn changes(step: AgentStep) -> bool {
    step is CreateChild || step is RegisterTurn || step is BeginCancellation
        || step is CommitDeletion
}

/// Whether a step finds out what the agent may act on, with the threads that it
/// names.
pub open spec fn authorizes(step: AgentStep, invoking: i64, changed: AgentStep) -> bool {
    match changed {
        AgentStep::CreateChild { parent, .. } => step == (AgentStep::CheckThread {
            thread_id: parent,
        }) && parent == invoking,
        AgentStep::RegisterTurn { thread_id, .. } => step == (AgentStep::Authorize {
            invoking,
            target: thread_id,
        }),
        AgentStep::BeginCancellation => step matches AgentStep::CollectCancellation {
            invoking: by,
            ..
        } && by == invoking,
        AgentStep::CommitDeletion => step matches AgentStep::CollectDeletion {
            invoking: by,
            ..
        } && by == invoking,
        _ => false,
    }
}

proof fn lemma_targets_change_nothing(invoking: i64, targets: Seq<AgentTarget>, count: nat, i: int)
    requires
        0 <= i < target_steps(invoking, targets, count).len(),
    ensures
        !changes(target_steps(invoking, targets, count)[i]),
    decreases count,
{
    let steps = target_steps(invoking, targets, count);
    let before = target_steps(invoking, targets, (count - 1) as nat);
    if i < before.len() {
        assert(steps[i] == before[i]);
        lemma_targets_change_nothing(invoking, targets, (count - 1) as nat, i);
    }
}

/// An agent changes nothing before it was found, under the lock that is held then,
/// that it may: it acts on its own thread or on those below it.
pub proof fn law_agents_act_only_below(invoking: i64, request: &AgentRequest, i: int)
    requires
        0 <= i < agent_steps(invoking, request).len(),
        changes(agent_steps(invoking, request)[i]),
    ensures
        exists|lock: int, found: int|
            0 <= lock < found < i && #[trigger] agent_steps(invoking, request)[lock] == AgentStep::Lock
                && authorizes(
                #[trigger] agent_steps(invoking, request)[found],
                invoking,
                agent_steps(invoking, request)[i],
            ) && forall|k: int|
                lock < k < i ==> #[trigger] agent_steps(invoking, request)[k] != AgentStep::Unlock,
{
    let plan = agent_steps(invoking, request);
    match request {
        AgentRequest::Create { .. } => {
            assert(plan[3] == AgentStep::Lock && authorizes(plan[4], invoking, plan[i]));
        },
        AgentRequest::Send { .. } => {
            assert(plan[1] == AgentStep::Lock && authorizes(plan[2], invoking, plan[i]));
        },
        AgentRequest::Wait { targets, .. } => {
            if targets@.len() > 0 {
                let steps = target_steps(invoking, targets@, targets@.len());
                if 2 <= i < 2 + steps.len() {
                    assert(plan[i] == steps[i - 2]);
                    lemma_targets_change_nothing(invoking, targets@, targets@.len(), i - 2);
                }
            }
        },
        AgentRequest::List => {},
        AgentRequest::Cancel { .. } => {
            assert(plan[1] == AgentStep::Lock && authorizes(plan[2], invoking, plan[i]));
        },
        AgentRequest::Delete { .. } => {
            assert(plan[1] == AgentStep::Lock && authorizes(plan[2], invoking, plan[i]));
        },
    }
}

/// No step is taken that the request does not ask for: each agent that is made, sent
/// to, waited for, listed, cancelled or deleted is one that the request names, with
/// what the request gives, and it is the thread that asks on whose behalf it is done.
pub proof fn law_only_what_the_agent_asks_is_done(invoking: i64, request: &AgentRequest, i: int)
    requires
        0 <= i < agent_steps(invoking, request).len(),
    ensures
        match agent_steps(invoking, request)[i] {
            AgentStep::Materialize { thread_id } => thread_id == invoking && i == 0,
            AgentStep::Refuse(AgentError::EmptyName) => *request matches AgentRequest::Create {
                name,
                ..
            } && blank(name@),
            AgentStep::Refuse(AgentError::NoTarget) => *request matches AgentRequest::Wait {
                targets,
                ..
            } && targets@.len() == 0,
            AgentStep::Refuse(_) => false,
            AgentStep::Settle { parent, model, effort } => parent == invoking && (*request
                matches AgentRequest::Create { model: m, effort: e, .. } && m == *model && e
                == *effort),
            AgentStep::CreateChild { parent, name, allow_delegation } => parent == invoking && (
            *request matches AgentRequest::Create { name: n, allow_delegation: a, .. } && n == *name
                && a == allow_delegation && !blank(n@)),
            AgentStep::LaunchTurn { thread_id, message } => *request == (AgentRequest::Send {
                thread_id,
                message: *message,
            }),
            AgentStep::ShowTurn { thread_id } => *request matches AgentRequest::Send {
                thread_id: thread,
                ..
            } && thread == thread_id,
            AgentStep::NoteSequence { thread_id } => *request matches AgentRequest::Send {
                thread_id: thread,
                ..
            } && thread == thread_id,
            AgentStep::RegisterTurn { thread_id, invoking: by } => by == invoking && (*request
                matches AgentRequest::Send { thread_id: thread, .. } && thread == thread_id),
            AgentStep::WaitAndReport { targets, timeout_ms } => *request == (AgentRequest::Wait {
                targets: *targets,
                timeout_ms,
            }),
            AgentStep::PinMany { targets } => *request matches AgentRequest::Wait {
                targets: named,
                ..
            } && named == *targets,
            AgentStep::ListBelow { thread_id } => thread_id == invoking && *request is List,
            AgentStep::CollectCancellation { invoking: by, thread_ids, recursive } => by == invoking
                && *request == (AgentRequest::Cancel { thread_ids: *thread_ids, recursive }),
            AgentStep::BeginCancellation => *request is Cancel,
            AgentStep::TellCancellation => *request is Cancel,
            AgentStep::CollectDeletion { invoking: by, thread_ids, recursive } => by == invoking
                && *request == (AgentRequest::Delete { thread_ids: *thread_ids, recursive }),
            AgentStep::CommitDeletion => *request is Delete,
            AgentStep::StopProcesses => *request is Delete,
            AgentStep::TellDeletion => *request is Delete,
            AgentStep::TellCreated => *request is Create,
            AgentStep::TellSequence => *request is Send,
            AgentStep::Authorize { invoking: by, target } => by == invoking && match *request {
                AgentRequest::Send { thread_id, .. } => target == thread_id,
                AgentRequest::Wait { targets, .. } => exists|t: int|
                    0 <= t < targets@.len() && (#[trigger] targets@[t]).thread_id == target,
                _ => false,
            },
            _ => true,
        },
{
    if let AgentRequest::Wait { targets, .. } = *request {
        if targets@.len() > 0 {
            lemma_target_steps(invoking, targets@, targets@.len());
            let checks = target_steps(invoking, targets@, targets@.len());
            if 2 <= i < 2 + checks.len() {
                assert(agent_steps(invoking, request)[i] == checks[i - 2]);
                let t = (i - 2) / 2;
                assert(checks[2 * t] == (AgentStep::Authorize {
                    invoking,
                    target: targets@[t].thread_id,
                }));
                assert(checks[2 * t + 1] == (AgentStep::MaterializeLocked {
                    thread_id: targets@[t].thread_id,
                }));
                assert(i - 2 == 2 * t || i - 2 == 2 * t + 1);
            }
        }
    }
}

proof fn lemma_target_steps(invoking: i64, targets: Seq<AgentTarget>, count: nat)
    requires
        count <= targets.len(),
    ensures
        target_steps(invoking, targets, count).len() == 2 * count,
        forall|t: int|
            0 <= t < count ==> target_steps(invoking, targets, count)[2 * t] == (
            AgentStep::Authorize { invoking, target: (#[trigger] targets[t]).thread_id })
                && target_steps(invoking, targets, count)[2 * t + 1] == (
            AgentStep::MaterializeLocked { thread_id: targets[t].thread_id }),
    decreases count,
{
    if count > 0 {
        lemma_target_steps(invoking, targets, (count - 1) as nat);
    }
}

/// What the agent asks for is done, unless it is refused, and the agent is told last:
/// the number of the new agent, where in its history the turn began, what came of
/// waiting, the list, or what became of each agent. Each agent that is waited for is
/// checked before, in their order.
pub proof fn law_what_the_agent_asks_is_done(invoking: i64, request: &AgentRequest)
    ensures
        ({
            let plan = agent_steps(invoking, request);
            let last = plan.last();
            &&& plan.len() >= 2
            &&& plan[0] == (AgentStep::Materialize { thread_id: invoking })
            &&& match *request {
                AgentRequest::Create { name, .. } => if blank(name@) {
                    last is Refuse && plan.len() == 2
                } else {
                    plan[plan.len() - 3] is CreateChild && last is TellCreated
                },
                AgentRequest::Send { .. } => plan[plan.len() - 2] is LaunchTurn && last
                    is TellSequence,
                AgentRequest::Wait { targets, .. } => if targets@.len() == 0 {
                    last is Refuse && plan.len() == 2
                } else {
                    last is WaitAndReport && forall|t: int|
                        0 <= t < targets@.len() ==> plan[2 + 2 * t] == (AgentStep::Authorize {
                            invoking,
                            target: (#[trigger] targets@[t]).thread_id,
                        })
                },
                AgentRequest::List => last is ListBelow,
                AgentRequest::Cancel { .. } => plan[3] is BeginCancellation && last
                    is TellCancellation,
                AgentRequest::Delete { .. } => plan[4] is CommitDeletion && plan[6] is StopProcesses
                    && last is TellDeletion,
            }
        }),
{
    if let AgentRequest::Wait { targets, .. } = *request {
        if targets@.len() > 0 {
            lemma_target_steps(invoking, targets@, targets@.len());
            let plan = agent_steps(invoking, request);
            let checks = target_steps(invoking, targets@, targets@.len());
            assert forall|t: int| 0 <= t < targets@.len() implies plan[2 + 2 * t] == (
            AgentStep::Authorize { invoking, target: (#[trigger] targets@[t]).thread_id }) by {
                assert(plan[2 + 2 * t] == checks[2 * t]);
            }
        }
    }
}

} // verus!
