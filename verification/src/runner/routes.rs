//! To whom the messages of a runner go.
use crate::commands::{panic_message, panic_words};
use crate::idset::IdSet;
use crate::runner::replies::{
    followed_by, subscription_update, ProcessSubscriptionUpdate, RunnerResponse,
};
use crate::text::{concat2, concat3};
use vstd::prelude::*;

verus! {

/// Who waits for answers of a runner.
#[derive(Debug)]
pub struct Routes {
    pending: IdSet,
    subscriptions: IdSet,
    callbacks: IdSet,
    next_request_id: u64,
}

/// What [`Routes`] stand for.
pub struct RoutesView {
    /// The requests that wait for their answer.
    pub pending: Set<u64>,
    /// The requests that get every answer until the last.
    pub subscriptions: Set<u64>,
    /// What the runner asks the controller.
    pub callbacks: Set<u64>,
    /// The number of the next request.
    pub next_request_id: u64,
}

impl RoutesView {
    /// What holds at any time: whoever waits has a number that was given out, and
    /// nobody waits both ways.
    pub open spec fn consistent(self) -> bool {
        &&& forall|id: u64| #[trigger] self.pending.contains(id) ==> id < self.next_request_id
        &&& forall|id: u64|
            #[trigger] self.subscriptions.contains(id) ==> id < self.next_request_id
        &&& forall|id: u64|
            !(#[trigger] self.pending.contains(id) && #[trigger] self.subscriptions.contains(id))
    }

    /// One more number given out.
    pub open spec fn counted(self) -> RoutesView {
        RoutesView { next_request_id: (self.next_request_id + 1) as u64, ..self }
    }
}

impl View for Routes {
    type V = RoutesView;

    closed spec fn view(&self) -> RoutesView {
        RoutesView {
            pending: self.pending@,
            subscriptions: self.subscriptions@,
            callbacks: self.callbacks@,
            next_request_id: self.next_request_id,
        }
    }
}

/// Where fewer wait, what holds at any time still holds.
proof fn lemma_fewer(before: RoutesView, after: RoutesView)
    requires
        before.consistent(),
        after.pending.subset_of(before.pending),
        after.subscriptions.subset_of(before.subscriptions),
        after.next_request_id >= before.next_request_id,
    ensures
        after.consistent(),
{
    assert forall|id: u64| #[trigger] after.pending.contains(id) implies id
        < after.next_request_id by {
        assert(before.pending.contains(id));
    }
    assert forall|id: u64| #[trigger] after.subscriptions.contains(id) implies id
        < after.next_request_id by {
        assert(before.subscriptions.contains(id));
    }
    assert forall|id: u64|
        !(#[trigger] after.pending.contains(id) && #[trigger] after.subscriptions.contains(id)) by {
        if after.pending.contains(id) && after.subscriptions.contains(id) {
            assert(before.pending.contains(id) && before.subscriptions.contains(id));
        }
    }
}

/// To whom an answer goes.
#[derive(Clone, Copy, Debug, PartialEq, Eq, Structural)]
pub enum Route {
    /// To one who follows a process.
    Subscription,
    /// To the one who asked.
    Request,
    /// To nobody.
    Unknown,
}

/// What comes from a runner.
#[derive(Debug)]
pub enum Incoming {
    Response { request_id: u64, response: RunnerResponse },
    /// The runner asks the controller something. Those of its earlier questions that
    /// were answered meanwhile are given.
    CallbackRequest { callback_id: u64, answered: Vec<u64> },
    CallbackCancel { callback_id: u64 },
    /// A line that is no message.
    Unreadable,
    /// The runner says nothing any more, or cannot be read.
    Ended,
}

/// What is done with what comes from a runner.
#[derive(Debug)]
pub enum Handling {
    /// Those who follow under the number are told, maybe for the last time. Where
    /// nobody of them listens, [`Routes::unfollow`] is next.
    Update { request_id: u64, update: ProcessSubscriptionUpdate, last: bool },
    /// The one who asked under the number gets the answer. Where they do not listen
    /// any more, [`Routes::undelivered`] is next.
    Deliver { request_id: u64, response: RunnerResponse },
    /// Nobody asked.
    Ignore,
    /// The question is worked on; an earlier one of the same number is given up.
    Answer { callback_id: u64, give_up_earlier: bool },
    /// The work on the question is given up.
    GiveUp { callback_id: u64 },
    /// Nothing more is read. Those who wait for an answer are told that the runner
    /// is gone.
    Stop { waiting: Vec<u64> },
}

/// Whether what is done with what comes from a runner, and who waits then, are
/// right.
pub open spec fn handled(
    before: RoutesView,
    incoming: Incoming,
    handling: Handling,
    after: RoutesView,
) -> bool {
    match incoming {
        Incoming::Response { request_id, response } => if before.subscriptions.contains(
            request_id,
        ) {
            let (told, terminal) = followed_by(response);
            &&& handling == (Handling::Update { request_id, update: told, last: terminal })
            &&& after == (RoutesView {
                subscriptions: if terminal {
                    before.subscriptions.remove(request_id)
                } else {
                    before.subscriptions
                },
                ..before
            })
        } else if before.pending.contains(request_id) {
            &&& handling == (Handling::Deliver { request_id, response })
            &&& after == (RoutesView { pending: before.pending.remove(request_id), ..before })
        } else {
            &&& handling == Handling::Ignore
            &&& after == before
        },
        Incoming::CallbackRequest { callback_id, answered } => {
            let open = before.callbacks.difference(answered@.to_set());
            &&& handling == (Handling::Answer {
                callback_id,
                give_up_earlier: open.contains(callback_id),
            })
            &&& after == (RoutesView { callbacks: open.insert(callback_id), ..before })
        },
        Incoming::CallbackCancel { callback_id } => {
            &&& handling == (if before.callbacks.contains(callback_id) {
                Handling::GiveUp { callback_id }
            } else {
                Handling::Ignore
            })
            &&& after == (RoutesView { callbacks: before.callbacks.remove(callback_id), ..before })
        },
        Incoming::Unreadable | Incoming::Ended => {
            &&& handling matches Handling::Stop { waiting }
            &&& waiting@.no_duplicates()
            &&& waiting@.to_set() == before.pending
            &&& after == (RoutesView {
                pending: Set::empty(),
                subscriptions: Set::empty(),
                callbacks: Set::empty(),
                ..before
            })
        },
    }
}

impl Routes {
    /// What is done with what comes from a runner.
    pub fn take(&mut self, incoming: Incoming) -> (handling: Handling)
        requires
            old(self).well_formed(),
        ensures
            final(self).well_formed(),
            handled(old(self)@, incoming, handling, final(self)@),
    {
        match incoming {
            Incoming::Response { request_id, response } => {
                if self.subscriptions.contains(request_id) {
                    let (update, terminal) = subscription_update(response);
                    let _ = self.route(request_id, terminal);
                    return Handling::Update { request_id, update, last: terminal };
                }
                match self.route(request_id, false) {
                    Route::Request => Handling::Deliver { request_id, response },
                    _ => Handling::Ignore,
                }
            },
            Incoming::CallbackRequest { callback_id, answered } => {
                self.forget(&answered);
                let give_up_earlier = self.callback(callback_id);
                Handling::Answer { callback_id, give_up_earlier }
            },
            Incoming::CallbackCancel { callback_id } => {
                if self.end_callback(callback_id) {
                    Handling::GiveUp { callback_id }
                } else {
                    Handling::Ignore
                }
            },
            Incoming::Unreadable => Handling::Stop { waiting: self.disconnect() },
            Incoming::Ended => Handling::Stop { waiting: self.disconnect() },
        }
    }

    fn forget(&mut self, answered: &Vec<u64>)
        requires
            old(self).well_formed(),
        ensures
            final(self).well_formed(),
            final(self)@ == (RoutesView {
                callbacks: old(self)@.callbacks.difference(answered@.to_set()),
                ..old(self)@
            }),
    {
        let mut i: usize = 0;
        assert(self@.callbacks =~= old(self)@.callbacks.difference(answered@.take(0).to_set()));
        while i < answered.len()
            invariant
                i <= answered.len(),
                self.well_formed(),
                self@ == (RoutesView {
                    callbacks: old(self)@.callbacks.difference(answered@.take(i as int).to_set()),
                    ..old(self)@
                }),
            decreases answered.len() - i,
        {
            let ghost before = self@.callbacks;
            let _ = self.end_callback(answered[i]);
            proof {
                let head = answered@.take(i as int);
                let more = answered@.take(i + 1);
                assert(more =~= head.push(answered@[i as int]));
                assert forall|id: u64| more.to_set().contains(id) == (head.to_set().contains(id)
                    || id == answered@[i as int]) by {
                    if head.contains(id) {
                        let k = choose|k: int| 0 <= k < head.len() && head[k] == id;
                        assert(more[k] == id);
                    }
                    if more.contains(id) && id != answered@[i as int] {
                        let k = choose|k: int| 0 <= k < more.len() && more[k] == id;
                        assert(head[k] == id);
                    }
                    assert(more[i as int] == answered@[i as int]);
                }
                assert(self@.callbacks =~= old(self)@.callbacks.difference(more.to_set()));
            }
            i += 1;
        }
        assert(answered@.take(i as int) =~= answered@);
    }

    /// What is done where the one who asked does not listen any more: a process that
    /// was started for them is stopped, by a request with a number that nobody had
    /// and nobody waits for.
    pub fn undelivered(&mut self, response: RunnerResponse) -> (stop: Option<(u64, String)>)
        requires
            old(self).well_formed(),
            old(self)@.next_request_id < u64::MAX,
        ensures
            final(self).well_formed(),
            match response {
                RunnerResponse::ProcessStarted { process_handle, .. } => stop == Some(
                    (old(self)@.next_request_id, process_handle),
                ) && final(self)@ == old(self)@.counted(),
                _ => stop is None && final(self)@ == old(self)@,
            },
    {
        match abandoned_process(response) {
            Some(handle) => {
                let id = self.next_id();
                Some((id, handle))
            },
            None => None,
        }
    }

    /// What the methods keep.
    pub closed spec fn well_formed(&self) -> bool {
        &&& self.pending.well_formed()
        &&& self.subscriptions.well_formed()
        &&& self.callbacks.well_formed()
        &&& self@.consistent()
    }

    /// What holds at any time.
    pub proof fn law_consistent(&self)
        requires
            self.well_formed(),
        ensures
            self@.consistent(),
    {
    }

    /// Nobody waits.
    pub fn new() -> (routes: Self)
        ensures
            routes.well_formed(),
            routes@ == (RoutesView {
                pending: Set::empty(),
                subscriptions: Set::empty(),
                callbacks: Set::empty(),
                next_request_id: 0,
            }),
    {
        Routes {
            pending: IdSet::new(),
            subscriptions: IdSet::new(),
            callbacks: IdSet::new(),
            next_request_id: 0,
        }
    }

    /// A number that nobody had.
    pub fn next_id(&mut self) -> (id: u64)
        requires
            old(self).well_formed(),
            old(self)@.next_request_id < u64::MAX,
        ensures
            final(self).well_formed(),
            id == old(self)@.next_request_id,
            final(self)@ == old(self)@.counted(),
    {
        let id = self.next_request_id;
        self.next_request_id = id + 1;
        proof {
            lemma_fewer(old(self)@, self@);
        }
        id
    }

    /// Waits for one answer.
    pub fn ask(&mut self) -> (id: u64)
        requires
            old(self).well_formed(),
            old(self)@.next_request_id < u64::MAX,
        ensures
            final(self).well_formed(),
            id == old(self)@.next_request_id,
            !old(self)@.pending.contains(id),
            final(self)@ == (RoutesView {
                pending: old(self)@.pending.insert(id),
                ..old(self)@.counted()
            }),
    {
        let id = self.next_id();
        let ghost before = self@;
        let _ = self.pending.insert(id);
        proof {
            assert(!old(self)@.pending.contains(id));
            assert(!old(self)@.subscriptions.contains(id));
            assert forall|k: u64| #[trigger] self@.pending.contains(k) implies k
                < self@.next_request_id by {
                assert(k == id || before.pending.contains(k));
            }
            assert forall|k: u64| #[trigger] self@.subscriptions.contains(k) implies k
                < self@.next_request_id by {
                assert(before.subscriptions.contains(k));
            }
            assert forall|k: u64|
                !(#[trigger] self@.pending.contains(k) && #[trigger] self@.subscriptions.contains(
                    k,
                )) by {
                assert(!(before.pending.contains(k) && before.subscriptions.contains(k)));
            }
        }
        id
    }

    /// Waits for answers until the last.
    pub fn follow(&mut self) -> (id: u64)
        requires
            old(self).well_formed(),
            old(self)@.next_request_id < u64::MAX,
        ensures
            final(self).well_formed(),
            id == old(self)@.next_request_id,
            !old(self)@.subscriptions.contains(id),
            final(self)@ == (RoutesView {
                subscriptions: old(self)@.subscriptions.insert(id),
                ..old(self)@.counted()
            }),
    {
        let id = self.next_id();
        let ghost before = self@;
        let _ = self.subscriptions.insert(id);
        proof {
            assert(!old(self)@.pending.contains(id));
            assert(!old(self)@.subscriptions.contains(id));
            assert forall|k: u64| #[trigger] self@.pending.contains(k) implies k
                < self@.next_request_id by {
                assert(before.pending.contains(k));
            }
            assert forall|k: u64| #[trigger] self@.subscriptions.contains(k) implies k
                < self@.next_request_id by {
                assert(k == id || before.subscriptions.contains(k));
            }
            assert forall|k: u64|
                !(#[trigger] self@.pending.contains(k) && #[trigger] self@.subscriptions.contains(
                    k,
                )) by {
                assert(!(before.pending.contains(k) && before.subscriptions.contains(k)));
            }
        }
        id
    }

    /// Waits no longer for an answer, because the request could not be sent.
    pub fn withdraw(&mut self, id: u64)
        requires
            old(self).well_formed(),
        ensures
            final(self).well_formed(),
            final(self)@ == (RoutesView { pending: old(self)@.pending.remove(id), ..old(self)@ }),
    {
        let _ = self.pending.remove(id);
        proof {
            lemma_fewer(old(self)@, self@);
        }
    }

    /// Waits no longer for answers: the last one came, or nobody listens.
    pub fn unfollow(&mut self, id: u64)
        requires
            old(self).well_formed(),
        ensures
            final(self).well_formed(),
            final(self)@ == (RoutesView {
                subscriptions: old(self)@.subscriptions.remove(id),
                ..old(self)@
            }),
    {
        let _ = self.subscriptions.remove(id);
        proof {
            lemma_fewer(old(self)@, self@);
        }
    }

    /// To whom an answer goes. `terminal` tells whether it is the last for those
    /// who follow. One who asked gets one answer.
    pub fn route(&mut self, id: u64, terminal: bool) -> (route: Route)
        requires
            old(self).well_formed(),
        ensures
            final(self).well_formed(),
            if old(self)@.subscriptions.contains(id) {
                route == Route::Subscription && final(self)@ == (RoutesView {
                    subscriptions: if terminal {
                        old(self)@.subscriptions.remove(id)
                    } else {
                        old(self)@.subscriptions
                    },
                    ..old(self)@
                })
            } else if old(self)@.pending.contains(id) {
                route == Route::Request && final(self)@ == (RoutesView {
                    pending: old(self)@.pending.remove(id),
                    ..old(self)@
                })
            } else {
                route == Route::Unknown && final(self)@ == old(self)@
            },
    {
        if self.subscriptions.contains(id) {
            if terminal {
                let _ = self.subscriptions.remove(id);
            }
            proof {
                lemma_fewer(old(self)@, self@);
            }
            return Route::Subscription;
        }
        let ghost before = self@;
        let found = self.pending.remove(id);
        proof {
            lemma_fewer(old(self)@, self@);
        }
        if found {
            Route::Request
        } else {
            assert(before.pending.remove(id) =~= before.pending);
            Route::Unknown
        }
    }

    /// The runner asks the controller something. Tells whether an earlier
    /// question of that number must be given up.
    pub fn callback(&mut self, id: u64) -> (supersedes: bool)
        requires
            old(self).well_formed(),
        ensures
            final(self).well_formed(),
            supersedes == old(self)@.callbacks.contains(id),
            final(self)@ == (RoutesView {
                callbacks: old(self)@.callbacks.insert(id),
                ..old(self)@
            }),
    {
        let new = self.callbacks.insert(id);
        proof {
            lemma_fewer(old(self)@, self@);
        }
        !new
    }

    /// A question is answered or given up. Tells whether it was still open.
    pub fn end_callback(&mut self, id: u64) -> (open: bool)
        requires
            old(self).well_formed(),
        ensures
            final(self).well_formed(),
            open == old(self)@.callbacks.contains(id),
            final(self)@ == (RoutesView {
                callbacks: old(self)@.callbacks.remove(id),
                ..old(self)@
            }),
    {
        let open = self.callbacks.remove(id);
        proof {
            lemma_fewer(old(self)@, self@);
        }
        open
    }

    /// The runner is gone. Tells who asked and got no answer; nobody waits any
    /// more.
    pub fn disconnect(&mut self) -> (waiting: Vec<u64>)
        requires
            old(self).well_formed(),
        ensures
            final(self).well_formed(),
            waiting@.no_duplicates(),
            waiting@.to_set() == old(self)@.pending,
            final(self)@ == (RoutesView {
                pending: Set::empty(),
                subscriptions: Set::empty(),
                callbacks: Set::empty(),
                ..old(self)@
            }),
    {
        let _ = self.callbacks.drain();
        let _ = self.subscriptions.drain();
        self.pending.drain()
    }
}

/// What those are told who wait when the runner is gone.
pub fn disconnected(name: &str) -> (message: String)
    ensures
        message@ == "runner "@ + name@ + " disconnected"@,
{
    concat3("runner ", name, " disconnected")
}

/// What is done where one who asked does not listen any more: a process that was
/// started for them is stopped.
pub fn abandoned_process(response: RunnerResponse) -> (handle: Option<String>)
    ensures
        handle == (match response {
            RunnerResponse::ProcessStarted { process_handle, timing: _ } => Some(process_handle),
            _ => None,
        }),
{
    match response {
        RunnerResponse::ProcessStarted { process_handle, timing: _ } => Some(process_handle),
        _ => None,
    }
}

/// How the work on a question of a runner ended.
#[derive(Debug)]
pub enum CallbackEnd {
    Answered { output: String, success: bool },
    Panicked { payload: Option<String> },
    Stopping,
}

/// What a runner is answered. Work that panics has failed.
pub fn callback_response(end: CallbackEnd) -> (response: (String, bool))
    ensures
        match end {
            CallbackEnd::Answered { output, success } => response == (output, success),
            CallbackEnd::Panicked { payload } => response.0@ == "agent callback panicked: "@
                + panic_words(payload) && !response.1,
            CallbackEnd::Stopping => response.0@ == "controller is stopping"@ && !response.1,
        },
{
    match end {
        CallbackEnd::Answered { output, success } => (output, success),
        CallbackEnd::Panicked { payload } => {
            let text = panic_message(payload);
            (concat2("agent callback panicked: ", text.as_str()), false)
        },
        CallbackEnd::Stopping => ("controller is stopping".to_owned(), false),
    }
}

/// Nobody who asked is answered twice: after an answer the number waits no more,
/// and no later request gets it.
pub proof fn law_answered_once(state: RoutesView, id: u64)
    requires
        state.consistent(),
        state.pending.contains(id),
    ensures
        !state.pending.remove(id).contains(id),
        !state.subscriptions.contains(id),
        id != state.next_request_id,
{
}

/// An answer goes to the one who asked under its number, and to nobody else: to those
/// who follow until the last, to the one who waits once, and to nobody where nobody
/// asked. No other number is touched.
pub proof fn law_answer_goes_to_who_asked(
    before: RoutesView,
    request_id: u64,
    response: RunnerResponse,
    handling: Handling,
    after: RoutesView,
    other: u64,
)
    requires
        before.consistent(),
        handled(before, Incoming::Response { request_id, response }, handling, after),
    ensures
        before.subscriptions.contains(request_id) ==> (handling matches Handling::Update {
            request_id: id,
            update,
            last,
        } && id == request_id && (update, last) == followed_by(response) && (
        after.subscriptions.contains(request_id) <==> !last)),
        before.pending.contains(request_id) ==> handling == (Handling::Deliver {
            request_id,
            response,
        }) && !after.pending.contains(request_id),
        !before.pending.contains(request_id) && !before.subscriptions.contains(request_id)
            ==> handling is Ignore && after == before,
        other != request_id ==> (after.pending.contains(other) <==> before.pending.contains(other))
            && (after.subscriptions.contains(other) <==> before.subscriptions.contains(other)),
        after.callbacks == before.callbacks,
        after.next_request_id == before.next_request_id,
{
}

/// A question of the runner is worked on, and an earlier one of its number that was
/// not answered is given up; where the runner takes a question back that is open, the
/// work on it is given up. When the runner is gone, all who wait are told, and nothing
/// is open any more.
pub proof fn law_questions_are_worked_on_once(
    before: RoutesView,
    incoming: Incoming,
    handling: Handling,
    after: RoutesView,
    other: u64,
)
    requires
        handled(before, incoming, handling, after),
    ensures
        incoming matches Incoming::CallbackRequest { callback_id, answered } ==> {
            &&& handling matches Handling::Answer { callback_id: id, give_up_earlier } && id
                == callback_id && (give_up_earlier <==> before.callbacks.contains(callback_id)
                && !answered@.contains(callback_id))
            &&& after.callbacks.contains(callback_id)
            &&& other != callback_id ==> (after.callbacks.contains(other)
                <==> before.callbacks.contains(other) && !answered@.contains(other))
            &&& after.pending == before.pending && after.subscriptions == before.subscriptions
        },
        incoming matches Incoming::CallbackCancel { callback_id } ==> {
            &&& handling == (Handling::GiveUp { callback_id }) <==> before.callbacks.contains(
                callback_id,
            )
            &&& handling is Ignore <==> !before.callbacks.contains(callback_id)
            &&& !after.callbacks.contains(callback_id)
            &&& other != callback_id ==> (after.callbacks.contains(other)
                <==> before.callbacks.contains(other))
            &&& after.pending == before.pending && after.subscriptions == before.subscriptions
        },
        incoming is Unreadable || incoming is Ended ==> {
            &&& handling matches Handling::Stop { waiting } && (waiting@.contains(other)
                <==> before.pending.contains(other))
            &&& !after.pending.contains(other) && !after.subscriptions.contains(other)
                && !after.callbacks.contains(other)
        },
        handling is Stop <==> incoming is Unreadable || incoming is Ended,
{
    if incoming is Unreadable || incoming is Ended {
        let waiting = handling->Stop_waiting@;
        assert(waiting.to_set().contains(other) <==> waiting.contains(other));
    }
}

/// What a question came to is told as it is: its answer, that it failed, or that the
/// controller stops; only an answer can be a success. A process that was started for
/// somebody who is gone is named, and nothing else is.
pub proof fn law_question_is_answered(
    end: CallbackEnd,
    told: (String, bool),
    response: RunnerResponse,
    handle: Option<String>,
)
    requires
        call_ensures(callback_response, (end,), told),
        call_ensures(abandoned_process, (response,), handle),
    ensures
        end matches CallbackEnd::Answered { output, success } ==> told.0 == output && told.1
            == success,
        !(end is Answered) ==> !told.1,
        end is Stopping ==> told.0@ == "controller is stopping"@,
        end matches CallbackEnd::Panicked { payload: Some(text) } ==> crate::text::has_suffix(
            told.0@,
            text@,
        ),
        handle is Some <==> response is ProcessStarted,
        response matches RunnerResponse::ProcessStarted { process_handle, .. } ==> handle == Some(
            process_handle,
        ),
{
    if let CallbackEnd::Panicked { payload: Some(text) } = end {
        assert(told.0@.skip(told.0@.len() - text@.len()) =~= text@);
    }
}

/// What was asked is answered once: the answer comes back under its number, and after
/// that nobody waits under it. What is withdrawn leaves everything as it was.
pub proof fn law_asked_is_answered_once(
    asking: &mut Routes,
    answering: &mut Routes,
    again: &mut Routes,
    id: u64,
    terminal: bool,
    later: bool,
    first: Route,
    second: Route,
)
    requires
        old(asking)@.consistent(),
        call_ensures(Routes::ask, (asking,), id),
        old(answering)@ == final(asking)@,
        call_ensures(Routes::route, (answering, id, terminal), first),
        old(again)@ == final(answering)@,
        call_ensures(Routes::route, (again, id, later), second),
    ensures
        first is Request,
        second is Unknown,
        final(again)@.pending == old(asking)@.pending,
        final(again)@.subscriptions == old(asking)@.subscriptions,
        final(again)@.callbacks == old(asking)@.callbacks,
{
    assert(!old(asking)@.subscriptions.contains(id));
    assert(final(again)@.pending =~= old(asking)@.pending);
}

/// What is followed is told until the last: every answer goes to who follows, and after
/// the last nobody does.
pub proof fn law_followed_is_told_until_the_last(
    asking: &mut Routes,
    told: &mut Routes,
    last: &mut Routes,
    id: u64,
    first: Route,
    second: Route,
)
    requires
        old(asking)@.consistent(),
        call_ensures(Routes::follow, (asking,), id),
        old(told)@ == final(asking)@,
        call_ensures(Routes::route, (told, id, false), first),
        old(last)@ == final(told)@,
        call_ensures(Routes::route, (last, id, true), second),
    ensures
        first is Subscription,
        final(told)@ == old(told)@,
        second is Subscription,
        final(last)@.subscriptions == old(asking)@.subscriptions,
        final(last)@.pending == old(asking)@.pending,
{
    assert(final(last)@.subscriptions =~= old(asking)@.subscriptions);
}

/// Two requests never have one number, and what is withdrawn or no longer followed is
/// that request alone.
pub proof fn law_request_has_a_number_of_its_own(
    one: &mut Routes,
    two: &mut Routes,
    three: &mut Routes,
    first: u64,
    second: u64,
    id: u64,
    other: u64,
)
    requires
        call_ensures(Routes::ask, (one,), first),
        old(two)@ == final(one)@,
        old(two)@.next_request_id < u64::MAX,
        call_ensures(Routes::next_id, (two,), second),
        call_ensures(Routes::withdraw, (three, id), ()),
    ensures
        old(one)@.next_request_id < u64::MAX ==> second == first + 1,
        final(three)@.pending.contains(other) <==> old(three)@.pending.contains(other) && other
            != id,
        final(three)@.subscriptions == old(three)@.subscriptions,
        final(three)@.next_request_id == old(three)@.next_request_id,
{
}

/// A question of the runner is open until it ends, and after the connection is lost
/// nothing is open; those who wait are told, each once.
pub proof fn law_lost_connection_ends_all(
    asked: &mut Routes,
    ended: &mut Routes,
    lost: &mut Routes,
    id: u64,
    other: u64,
    supersedes: bool,
    open: bool,
    waiting: Vec<u64>,
)
    requires
        call_ensures(Routes::callback, (asked, id), supersedes),
        call_ensures(Routes::end_callback, (ended, id), open),
        call_ensures(Routes::disconnect, (lost,), waiting),
    ensures
        supersedes <==> old(asked)@.callbacks.contains(id),
        final(asked)@.callbacks.contains(other) <==> other == id || old(
            asked,
        )@.callbacks.contains(other),
        open <==> old(ended)@.callbacks.contains(id),
        final(ended)@.callbacks.contains(other) <==> other != id && old(
            ended,
        )@.callbacks.contains(other),
        waiting@.contains(id) <==> old(lost)@.pending.contains(id),
        waiting@.no_duplicates(),
        !final(lost)@.pending.contains(id),
        !final(lost)@.subscriptions.contains(id),
        !final(lost)@.callbacks.contains(id),
        final(lost)@.next_request_id == old(lost)@.next_request_id,
{
    assert(waiting@.to_set().contains(id) <==> waiting@.contains(id));
}

/// A process that was started for nobody is stopped, under a number of its own.
pub proof fn law_unwanted_process_is_stopped(
    state: &mut Routes,
    response: RunnerResponse,
    stop: Option<(u64, String)>,
)
    requires
        call_ensures(Routes::undelivered, (state, response), stop),
    ensures
        stop is Some <==> response is ProcessStarted,
        response matches RunnerResponse::ProcessStarted { process_handle, .. } ==> stop == Some(
            (old(state)@.next_request_id, process_handle),
        ),
        !(response is ProcessStarted) ==> final(state)@ == old(state)@,
        final(state)@.pending == old(state)@.pending,
{
}

} // verus!
