//! When a request to a model is sent again.
use vstd::prelude::*;

verus! {

/// How often a request is sent again.
pub const MAX_RETRIES: u64 = 5;

/// Where a request stands: how often it was sent again, and whether the answer
/// that is coming in has already been passed on in part.
#[derive(Clone, Copy, Debug, PartialEq, Eq, Structural)]
pub struct RequestState {
    pub retries: u64,
    pub canonical_output: bool,
}

/// What happened to a request.
#[derive(Clone, Copy, Debug, PartialEq, Eq, Structural)]
pub enum RequestEvent {
    /// The request could not be sent; `retryable` where the connection timed
    /// out, was refused or broke.
    Failed { retryable: bool },
    /// The server answered with a status.
    Responded { status: u16 },
    /// The answer broke off; `transport` where the connection did.
    Broken { transport: bool },
    /// A frame of the answer came in, from which so many events came out.
    Frame { events: usize },
    /// A frame could not be read.
    Rejected,
    /// The answer ended and is complete.
    Finished,
    /// The answer ended and is no good; `incomplete` where it ended too early.
    Unfinished { incomplete: bool },
}

/// What is to be done.
#[derive(Clone, Copy, Debug, PartialEq, Eq, Structural)]
pub enum RequestAction {
    /// Send the request again after a pause.
    Retry { delay_ms: u64 },
    /// Read the answer; first tell how often the request was sent again.
    Read { announce: Option<u64> },
    /// Read on.
    ReadOn,
    /// Give up with the error that came.
    Fail,
    /// Pass on the end of the answer.
    Complete,
}

/// Two to the power of `exponent`.
pub open spec fn doubled(exponent: nat) -> int
    decreases exponent,
{
    if exponent == 0 {
        1
    } else {
        2 * doubled((exponent - 1) as nat)
    }
}

/// The pause before a request is sent again: a quarter of a second, doubled each
/// time, five times at most.
pub open spec fn pause_ms(retries: u64) -> int {
    250 * doubled(if retries < 5 {
        retries as nat
    } else {
        5
    })
}

/// Whether a status asks to send the request again.
pub open spec fn retry_status(status: u16) -> bool {
    status == 429 || 500 <= status <= 599
}

impl RequestState {
    /// A state that the machine can be in.
    pub open spec fn well_formed(self) -> bool {
        self.retries <= MAX_RETRIES
    }

    /// Whether an event lets the request be sent again, if there are tries left.
    pub open spec fn asks_retry(self, event: RequestEvent) -> bool {
        match event {
            RequestEvent::Failed { retryable } => retryable,
            RequestEvent::Responded { status } => retry_status(status),
            RequestEvent::Broken { transport } => transport && !self.canonical_output,
            RequestEvent::Unfinished { incomplete } => incomplete && !self.canonical_output,
            _ => false,
        }
    }

    /// The state after an event.
    pub open spec fn after(self, event: RequestEvent) -> RequestState {
        if self.asks_retry(event) && self.retries < MAX_RETRIES {
            RequestState { retries: (self.retries + 1) as u64, canonical_output: false }
        } else {
            match event {
                RequestEvent::Responded { .. } => RequestState {
                    retries: self.retries,
                    canonical_output: false,
                },
                RequestEvent::Frame { events } => RequestState {
                    retries: self.retries,
                    canonical_output: self.canonical_output || events > 0,
                },
                _ => self,
            }
        }
    }

    /// What is to be done on an event.
    pub open spec fn action(self, event: RequestEvent) -> RequestAction {
        if self.asks_retry(event) && self.retries < MAX_RETRIES {
            RequestAction::Retry { delay_ms: pause_ms((self.retries + 1) as u64) as u64 }
        } else {
            match event {
                RequestEvent::Responded { .. } => RequestAction::Read {
                    announce: if self.retries > 0 {
                        Some(self.retries)
                    } else {
                        None
                    },
                },
                RequestEvent::Frame { .. } => RequestAction::ReadOn,
                RequestEvent::Finished => RequestAction::Complete,
                _ => RequestAction::Fail,
            }
        }
    }

    /// A request that was not sent yet.
    pub fn new() -> (state: Self)
        ensures
            state.well_formed(),
            state.retries == 0,
            !state.canonical_output,
    {
        RequestState { retries: 0, canonical_output: false }
    }

    /// Takes an event, and says what is to be done.
    pub fn step(&mut self, event: RequestEvent) -> (action: RequestAction)
        requires
            old(self).well_formed(),
        ensures
            final(self).well_formed(),
            *final(self) == old(self).after(event),
            action == old(self).action(event),
    {
        let asks = match event {
            RequestEvent::Failed { retryable } => retryable,
            RequestEvent::Responded { status } => status == 429 || (500 <= status && status <= 599),
            RequestEvent::Broken { transport } => transport && !self.canonical_output,
            RequestEvent::Unfinished { incomplete } => incomplete && !self.canonical_output,
            _ => false,
        };
        if asks && self.retries < MAX_RETRIES {
            self.retries = self.retries + 1;
            self.canonical_output = false;
            return RequestAction::Retry { delay_ms: retry_delay(self.retries) };
        }
        match event {
            RequestEvent::Responded { .. } => {
                self.canonical_output = false;
                RequestAction::Read {
                    announce: if self.retries > 0 {
                        Some(self.retries)
                    } else {
                        None
                    },
                }
            },
            RequestEvent::Frame { events } => {
                if events > 0 {
                    self.canonical_output = true;
                }
                RequestAction::ReadOn
            },
            RequestEvent::Finished => RequestAction::Complete,
            _ => RequestAction::Fail,
        }
    }
}

/// The pause before a request is sent again, in milliseconds.
pub fn retry_delay(retries: u64) -> (delay_ms: u64)
    ensures
        delay_ms == pause_ms(retries),
{
    proof {
        reveal_with_fuel(doubled, 6);
    }
    let mut delay_ms: u64 = 250;
    let times: u64 = if retries < 5 {
        retries
    } else {
        5
    };
    let mut i: u64 = 0;
    while i < times
        invariant
            i <= times <= 5,
            delay_ms == 250 * doubled(i as nat),
            doubled(5) == 32,
        decreases times - i,
    {
        proof {
            lemma_doubled(i as nat, 5);
        }
        delay_ms = delay_ms * 2;
        i += 1;
    }
    delay_ms
}

proof fn lemma_doubled(low: nat, high: nat)
    requires
        low <= high,
    ensures
        1 <= doubled(low) <= doubled(high),
    decreases high,
{
    if low < high {
        lemma_doubled(low, (high - 1) as nat);
    } else if low > 0 {
        lemma_doubled((low - 1) as nat, (low - 1) as nat);
    }
}

/// The state after a series of events.
pub open spec fn run(state: RequestState, events: Seq<RequestEvent>) -> RequestState
    decreases events.len(),
{
    if events.len() == 0 {
        state
    } else {
        run(state, events.drop_last()).after(events.last())
    }
}

/// How many of the events make the request be sent again.
pub open spec fn retried(state: RequestState, events: Seq<RequestEvent>) -> nat
    decreases events.len(),
{
    if events.len() == 0 {
        0
    } else {
        retried(state, events.drop_last()) + (if run(state, events.drop_last()).action(
            events.last(),
        ) is Retry {
            1nat
        } else {
            0nat
        })
    }
}

/// However a request goes, it is sent again at most five times.
pub proof fn law_retries_are_bounded(events: Seq<RequestEvent>)
    ensures
        retried(RequestState { retries: 0, canonical_output: false }, events) <= MAX_RETRIES,
        run(RequestState { retries: 0, canonical_output: false }, events).retries == retried(
            RequestState { retries: 0, canonical_output: false },
            events,
        ),
    decreases events.len(),
{
    if events.len() > 0 {
        law_retries_are_bounded(events.drop_last());
    }
}

/// Once a part of an answer has been passed on, nothing that happens to that
/// answer makes the request be sent again: its frames are read on, or it ends.
pub proof fn law_no_retry_after_output(state: RequestState, event: RequestEvent)
    requires
        state.canonical_output,
        !(event is Failed) && !(event is Responded),
    ensures
        !(state.action(event) is Retry),
        state.after(event).canonical_output,
{
}

/// The pause before a request is sent again begins at a quarter of a second and
/// doubles with each time, up to the fifth.
pub proof fn law_pauses_double(retries: u64)
    ensures
        pause_ms(0) == 250,
        retries < 5 ==> pause_ms((retries + 1) as u64) == 2 * pause_ms(retries),
        retries >= 5 ==> pause_ms(retries) == 8000,
        250 <= pause_ms(retries) <= 8000,
{
    reveal_with_fuel(doubled, 7);
}

/// What is done about each thing that happens to a request. It is sent again at most
/// five times: where it could not be sent for a reason that may pass, where the server
/// has no time or fails, and where the answer broke off before anything was passed on.
/// Any other answer is read, and what went wrong for good is told.
pub proof fn law_request_is_sent_again_only_where_that_may_help(
    state: RequestState,
    event: RequestEvent,
)
    requires
        state.well_formed(),
    ensures
        ({
            let action = state.action(event);
            let after = state.after(event);
            let passing = match event {
                RequestEvent::Failed { retryable } => retryable,
                RequestEvent::Responded { status } => status == 429 || status / 100 == 5,
                RequestEvent::Broken { transport } => transport && !state.canonical_output,
                RequestEvent::Unfinished { incomplete } => incomplete && !state.canonical_output,
                RequestEvent::Frame { .. } => false,
                RequestEvent::Rejected => false,
                RequestEvent::Finished => false,
            };
            &&& action is Retry <==> passing && state.retries < 5
            &&& action matches RequestAction::Retry { delay_ms } ==> delay_ms == pause_ms(
                after.retries,
            ) && after.retries == state.retries + 1 && !after.canonical_output
            &&& !(action is Retry) ==> after.retries == state.retries
            &&& action is Read <==> event is Responded && !(action is Retry)
            &&& action matches RequestAction::Read { announce } ==> !after.canonical_output && (
            announce is Some <==> state.retries > 0) && (announce matches Some(times) ==> times
                == state.retries)
            &&& action is ReadOn <==> event is Frame
            &&& action is Complete <==> event is Finished
            &&& event matches RequestEvent::Frame { events } ==> (after.canonical_output
                <==> state.canonical_output || events > 0)
        }),
{
    law_pauses_double(state.retries);
    if state.retries < u64::MAX {
        law_pauses_double((state.retries + 1) as u64);
    }
}

} // verus!
