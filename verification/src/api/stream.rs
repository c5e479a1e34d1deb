//! A request to a model, from its first try to the end of its answer.
use crate::api::chat_completions;
use crate::api::common::{ApiError, ErrorView};
use crate::api::messages;
use crate::api::messages_answer;
use crate::api::responses_answer;
use crate::api::retry::{RequestAction, RequestEvent, RequestState, MAX_RETRIES};
use crate::api::sse::{blank_bytes, frame_value, frame_values, frames, remainder, SseDecoder};
use crate::json::{add_value, copy_values, json_views, Json, JsonView};
use crate::model::{emit, event_views, EventView, ModelEvent, ModelStreamEvent, UpdateView};
use crate::text::{concat3, concat5};
use vstd::prelude::*;

verus! {

/// The form of an answer, and what is known of it while it comes in.
#[derive(Debug)]
pub enum Dialect {
    ChatCompletions,
    Messages(messages::Live),
    Responses(responses_answer::Live),
}

/// What a [`Dialect`] stands for.
pub enum DialectView {
    ChatCompletions,
    Messages(Seq<(u64, messages::LiveBlockView)>),
    Responses(responses_answer::LiveView),
}

impl View for Dialect {
    type V = DialectView;

    open spec fn view(&self) -> DialectView {
        match self {
            Dialect::ChatCompletions => DialectView::ChatCompletions,
            Dialect::Messages(live) => DialectView::Messages(live@),
            Dialect::Responses(live) => DialectView::Responses(live@),
        }
    }
}

impl DialectView {
    /// The name of the form.
    pub open spec fn label(self) -> Seq<char> {
        match self {
            DialectView::ChatCompletions => "Chat Completions"@,
            DialectView::Messages(_) => "Messages"@,
            DialectView::Responses(_) => "Responses"@,
        }
    }

    /// Whether what is known of the answer fits together.
    pub open spec fn well_formed(self) -> bool {
        match self {
            DialectView::Responses(live) => live.well_formed(),
            _ => true,
        }
    }

    /// What is known after a frame, and the events that come out of it.
    #[verifier::opaque]
    pub open spec fn decoded(self, frame: JsonView) -> Result<
        (DialectView, Seq<EventView>),
        ErrorView,
    > {
        match self {
            DialectView::ChatCompletions => match chat_completions::live_events(frame) {
                Ok(events) => Ok((self, events)),
                Err(error) => Err(error),
            },
            DialectView::Messages(blocks) => match messages::live_step(blocks, frame) {
                Ok((after, events)) => Ok((DialectView::Messages(after), events)),
                Err(error) => Err(error),
            },
            DialectView::Responses(live) => match responses_answer::live_step(live, frame) {
                Ok((after, events)) => Ok((DialectView::Responses(after), events)),
                Err(error) => Err(error),
            },
        }
    }

    /// The events of the whole answer.
    #[verifier::opaque]
    pub open spec fn answered(
        self,
        model: Seq<char>,
        frames: Seq<JsonView>,
        rate_limits: Seq<JsonView>,
    ) -> Result<Seq<EventView>, ErrorView> {
        match self {
            DialectView::ChatCompletions => chat_completions::answer(frames, model),
            DialectView::Messages(_) => match messages_answer::whole(frames, model) {
                Ok(message) => messages_answer::message_events(message),
                Err(error) => Err(error),
            },
            DialectView::Responses(_) => responses_answer::answer(frames, rate_limits),
        }
    }
}

impl Dialect {
    fn label(&self) -> (label: &'static str)
        ensures
            label@ == self@.label(),
    {
        match self {
            Dialect::ChatCompletions => "Chat Completions",
            Dialect::Messages(_) => "Messages",
            Dialect::Responses(_) => "Responses",
        }
    }

    fn decode(&mut self, frame: &Json) -> (result: Result<Vec<ModelEvent>, ApiError>)
        requires
            old(self)@.well_formed(),
        ensures
            final(self)@.well_formed(),
            final(self)@.label() == old(self)@.label(),
            match result {
                Ok(events) => old(self)@.decoded(frame@) == Ok::<
                    (DialectView, Seq<EventView>),
                    ErrorView,
                >((final(self)@, event_views(events@))),
                Err(error) => old(self)@.decoded(frame@) == Err::<
                    (DialectView, Seq<EventView>),
                    ErrorView,
                >(error@),
            },
    {
        proof {
            reveal(DialectView::decoded);
        }
        match self {
            Dialect::ChatCompletions => chat_completions::live(frame),
            Dialect::Messages(live) => live.decode(frame),
            Dialect::Responses(live) => live.decode(frame),
        }
    }

    fn answer(&self, model: &str, frames: &Vec<Json>, rate_limits: &Vec<Json>) -> (result: Result<
        Vec<ModelEvent>,
        ApiError,
    >)
        ensures
            match result {
                Ok(events) => self@.answered(
                    model@,
                    json_views(frames@),
                    json_views(rate_limits@),
                ) == Ok::<Seq<EventView>, ErrorView>(event_views(events@)),
                Err(error) => self@.answered(
                    model@,
                    json_views(frames@),
                    json_views(rate_limits@),
                ) == Err::<Seq<EventView>, ErrorView>(error@),
            },
    {
        proof {
            reveal(DialectView::answered);
        }
        match self {
            Dialect::ChatCompletions => chat_completions::parse(frames, model),
            Dialect::Messages(_) => match messages_answer::Message::decode(frames, model) {
                Ok(message) => message.into_stream(),
                Err(error) => Err(error),
            },
            Dialect::Responses(_) => responses_answer::parse(frames, copy_values(rate_limits)),
        }
    }
}

/// A request with what came in of its answer.
#[derive(Debug)]
pub struct Exchange {
    dialect: Dialect,
    model: String,
    request: RequestState,
    decoder: SseDecoder,
    frames: Vec<Json>,
    rate_limits: Vec<Json>,
}

/// What an [`Exchange`] stands for.
pub struct ExchangeView {
    pub dialect: DialectView,
    pub model: Seq<char>,
    pub request: RequestState,
    pub buffer: Seq<u8>,
    pub frames: Seq<JsonView>,
    pub rate_limits: Seq<JsonView>,
}

impl View for Exchange {
    type V = ExchangeView;

    closed spec fn view(&self) -> ExchangeView {
        ExchangeView {
            dialect: self.dialect@,
            model: self.model@,
            request: self.request,
            buffer: self.decoder@,
            frames: json_views(self.frames@),
            rate_limits: json_views(self.rate_limits@),
        }
    }
}

/// What came of frames: what is known then, the events that are passed on, and
/// the error that ends it.
pub struct Taken {
    pub dialect: DialectView,
    pub request: RequestState,
    pub frames: Seq<JsonView>,
    pub events: Seq<EventView>,
    pub error: Option<ErrorView>,
}

impl ExchangeView {
    /// Whether what is known fits together.
    pub open spec fn well_formed(self) -> bool {
        self.request.well_formed() && self.dialect.well_formed()
    }

    /// What came of the first `count` of frames, up to the first that is no good.
    pub open spec fn taken(self, values: Seq<JsonView>, count: nat) -> Taken
        decreases count,
    {
        if count == 0 {
            Taken {
                dialect: self.dialect,
                request: self.request,
                frames: self.frames,
                events: Seq::empty(),
                error: None,
            }
        } else {
            let before = self.taken(values, (count - 1) as nat);
            if before.error is Some {
                before
            } else {
                match before.dialect.decoded(values[count - 1]) {
                    Ok((dialect, events)) => Taken {
                        dialect,
                        request: before.request.after(
                            RequestEvent::Frame {
                                events: if events.len() > 0 {
                                    1
                                } else {
                                    0
                                },
                            },
                        ),
                        frames: before.frames.push(values[count - 1]),
                        events: before.events + events,
                        error: None,
                    },
                    Err(error) => Taken { error: Some(error), ..before },
                }
            }
        }
    }

    /// What is known once frames were taken.
    pub open spec fn with(self, taken: Taken, buffer: Seq<u8>) -> ExchangeView {
        ExchangeView {
            dialect: taken.dialect,
            request: taken.request,
            frames: taken.frames,
            buffer,
            ..self
        }
    }

    /// What came of a chunk: the frames that it completes, up to the first that is
    /// no good.
    pub open spec fn after_chunk(self, chunk: Seq<u8>) -> Taken {
        let all = frames(self.buffer + chunk);
        let (values, problem) = frame_values(all, self.dialect.label(), all.len());
        let taken = self.taken(values, values.len());
        if taken.error is Some {
            taken
        } else {
            Taken { error: problem, ..taken }
        }
    }

    /// What came of the end of the answer: a last frame without a blank line after
    /// it.
    pub open spec fn after_rest(self) -> Taken {
        if blank_bytes(self.buffer) {
            self.taken(Seq::empty(), 0)
        } else {
            match frame_value(self.buffer, self.dialect.label()) {
                Ok(Some(value)) => self.taken(Seq::empty().push(value), 1),
                Ok(None) => self.taken(Seq::empty(), 0),
                Err(error) => Taken { error: Some(error), ..self.taken(Seq::empty(), 0) },
            }
        }
    }

    /// What is known after the end of an answer whose frames are all good: where
    /// the request is sent again, what it was and what came in of its answer are
    /// kept, and the try is counted.
    pub open spec fn after_end(self) -> ExchangeView {
        let taken = self.after_rest();
        let kept = self.with(taken, self.buffer);
        match taken.dialect.answered(self.model, taken.frames, self.rate_limits) {
            Ok(_) => kept,
            Err(error) => ExchangeView {
                request: taken.request.after(
                    RequestEvent::Unfinished { incomplete: error is Incomplete },
                ),
                ..kept
            },
        }
    }

    /// The events of the end of the answer, and what is done then.
    pub open spec fn ended(self) -> (Seq<EventView>, NextView) {
        let taken = self.after_rest();
        match taken.error {
            Some(error) => (taken.events, NextView::Fail(error)),
            None => match taken.dialect.answered(self.model, taken.frames, self.rate_limits) {
                Ok(events) => (taken.events + settled(events, events.len()), NextView::Complete),
                Err(error) => {
                    let event = RequestEvent::Unfinished { incomplete: error is Incomplete };
                    (taken.events, next_view(taken.request.action(event), error))
                },
            },
        }
    }
}

/// What is done after a part of an answer.
#[derive(Debug)]
pub enum Next {
    ReadOn,
    /// The request is sent again after a pause.
    Retry { delay_ms: u64 },
    Fail(ApiError),
    Complete,
}

/// What a [`Next`] stands for.
pub enum NextView {
    ReadOn,
    Retry { delay_ms: u64 },
    Fail(ErrorView),
    Complete,
}

impl View for Next {
    type V = NextView;

    open spec fn view(&self) -> NextView {
        match self {
            Next::ReadOn => NextView::ReadOn,
            Next::Retry { delay_ms } => NextView::Retry { delay_ms: *delay_ms },
            Next::Fail(error) => NextView::Fail(error@),
            Next::Complete => NextView::Complete,
        }
    }
}

/// What is done after an error: the request is sent again, or the error is told.
pub open spec fn next_view(action: RequestAction, error: ErrorView) -> NextView {
    match action {
        RequestAction::Retry { delay_ms } => NextView::Retry { delay_ms },
        _ => NextView::Fail(error),
    }
}

/// Those of the first `count` events of a whole answer that were not passed on
/// while it came in.
pub open spec fn settled(events: Seq<EventView>, count: nat) -> Seq<EventView>
    decreases count,
{
    if count == 0 {
        Seq::empty()
    } else {
        let before = settled(events, (count - 1) as nat);
        if events[count - 1] is Update {
            before
        } else {
            before.push(events[count - 1])
        }
    }
}

fn add_settled(output: &mut Vec<ModelEvent>, events: Vec<ModelEvent>)
    ensures
        event_views(final(output)@) == event_views(old(output)@) + settled(
            event_views(events@),
            events@.len(),
        ),
{
    let ghost all = event_views(events@);
    let ghost start = event_views(output@);
    let mut rest = events;
    let mut reversed: Vec<ModelEvent> = Vec::new();
    while rest.len() > 0
        invariant
            rest.len() + reversed.len() == all.len(),
            forall|k: int| 0 <= k < rest.len() ==> (#[trigger] rest[k])@ == all[k],
            forall|k: int|
                0 <= k < reversed.len() ==> (#[trigger] reversed[k])@ == all[all.len() - 1 - k],
        decreases rest.len(),
    {
        match rest.pop() {
            Some(event) => {
                reversed.push(event);
            },
            None => {},
        }
    }
    let ghost mut count: nat = 0;
    assert(start + settled(all, 0) =~= start);
    while reversed.len() > 0
        invariant
            count + reversed.len() == all.len(),
            forall|k: int|
                0 <= k < reversed.len() ==> (#[trigger] reversed[k])@ == all[all.len() - 1 - k],
            event_views(output@) == start + settled(all, count),
        decreases reversed.len(),
    {
        match reversed.pop() {
            Some(event) => {
                assert(event@ == all[count as int]);
                match event {
                    ModelEvent::Update(_) => {},
                    event => {
                        emit(output, event);
                        assert((start + settled(all, count)).push(all[count as int]) =~= start
                            + settled(all, count + 1));
                    },
                }
                proof {
                    count = count + 1;
                }
            },
            None => {},
        }
    }
}

fn add_events(output: &mut Vec<ModelEvent>, events: Vec<ModelEvent>)
    ensures
        event_views(final(output)@) == event_views(old(output)@) + event_views(events@),
{
    let ghost added = event_views(events@);
    let mut events = events;
    output.append(&mut events);
    assert(event_views(output@) =~= event_views(old(output)@) + added);
}

/// The words of a request that was sent again.
pub open spec fn retry_update(current: u64) -> EventView {
    EventView::Update(
        UpdateView::Retry { summary: "request retried before output"@, current, max: MAX_RETRIES },
    )
}

/// Whether a status says that the request was fine.
pub open spec fn success(status: u16) -> bool {
    200 <= status <= 299
}

/// Whether an answer that is not asked for again is refused because of its status:
/// all are that do not say that the request was fine.
pub fn answer_refused(status: u16) -> (refused: bool)
    ensures
        refused == !success(status),
{
    !(200 <= status && status <= 299)
}

impl Exchange {
    /// A request that was not sent yet.
    pub fn new(dialect: Dialect, model: &str) -> (exchange: Self)
        requires
            dialect@.well_formed(),
        ensures
            exchange@.well_formed(),
            exchange@ == (ExchangeView {
                dialect: dialect@,
                model: model@,
                request: RequestState { retries: 0, canonical_output: false },
                buffer: Seq::empty(),
                frames: Seq::empty(),
                rate_limits: Seq::empty(),
            }),
    {
        let exchange = Exchange {
            dialect,
            model: model.to_owned(),
            request: RequestState::new(),
            decoder: SseDecoder::new(),
            frames: Vec::new(),
            rate_limits: Vec::new(),
        };
        assert(exchange@.frames =~= Seq::empty());
        assert(exchange@.rate_limits =~= Seq::empty());
        exchange
    }

    /// What is done where the request could not be sent; `retryable` where the
    /// connection timed out, was refused or broke.
    pub fn failed(&mut self, retryable: bool) -> (action: RequestAction)
        requires
            old(self)@.well_formed(),
        ensures
            final(self)@.well_formed(),
            final(self)@ == (ExchangeView {
                request: old(self)@.request.after(RequestEvent::Failed { retryable }),
                ..old(self)@
            }),
            action == old(self)@.request.action(RequestEvent::Failed { retryable }),
    {
        self.request.step(RequestEvent::Failed { retryable })
    }

    /// What is done with an answer that begins, and what is told first: how often
    /// the request was sent again. An answer that is read starts anew.
    pub fn responded(&mut self, status: u16, rate_limits: Vec<Json>) -> (result: (
        RequestAction,
        Option<ModelEvent>,
    ))
        requires
            old(self)@.well_formed(),
        ensures
            final(self)@.well_formed(),
            result.0 == old(self)@.request.action(RequestEvent::Responded { status }),
            match result.0 {
                RequestAction::Read { announce } => {
                    &&& final(self)@ == (ExchangeView {
                        request: old(self)@.request.after(RequestEvent::Responded { status }),
                        buffer: Seq::empty(),
                        frames: Seq::empty(),
                        rate_limits: json_views(rate_limits@),
                        ..old(self)@
                    })
                    &&& match announce {
                        Some(current) => result.1 matches Some(event) && event@ == retry_update(
                            current,
                        ),
                        None => result.1 is None,
                    }
                },
                _ => {
                    &&& final(self)@ == (ExchangeView {
                        request: old(self)@.request.after(RequestEvent::Responded { status }),
                        ..old(self)@
                    })
                    &&& result.1 is None
                },
            },
    {
        let action = self.request.step(RequestEvent::Responded { status });
        match action {
            RequestAction::Read { announce } => {
                self.decoder = SseDecoder::new();
                self.frames = Vec::new();
                self.rate_limits = rate_limits;
                assert(self@.frames =~= Seq::empty());
                let update = match announce {
                    Some(current) => Some(
                        ModelEvent::Update(
                            ModelStreamEvent::Retry {
                                summary: "request retried before output".to_owned(),
                                current,
                                max: MAX_RETRIES,
                            },
                        ),
                    ),
                    None => None,
                };
                (action, update)
            },
            _ => (action, None),
        }
    }

    /// What is told of an answer that is refused; its status is given as words too,
    /// and what it holds.
    pub fn refused(&self, status: u16, shown: &str, body: &str) -> (error: Option<ApiError>)
        ensures
            match error {
                Some(error) => !success(status) && error@ == ErrorView::Invalid(
                    self@.dialect.label() + " request failed with "@ + shown@ + ": "@ + body@,
                ),
                None => success(status),
            },
    {
        if answer_refused(status) {
            Some(
                ApiError::Invalid(
                    concat5(self.dialect.label(), " request failed with ", shown, ": ", body),
                ),
            )
        } else {
            None
        }
    }

    fn take(&mut self, values: Vec<Json>, output: &mut Vec<ModelEvent>) -> (problem: Option<
        ApiError,
    >)
        requires
            old(self)@.well_formed(),
        ensures
            final(self)@.well_formed(),
            final(self)@.buffer == old(self)@.buffer,
            final(self)@.model == old(self)@.model,
            final(self)@.rate_limits == old(self)@.rate_limits,
            final(self)@.dialect.label() == old(self)@.dialect.label(),
            ({
                let taken = old(self)@.taken(json_views(values@), values@.len());
                &&& event_views(final(output)@) == event_views(old(output)@) + taken.events
                &&& match problem {
                    Some(error) => taken.error == Some(error@),
                    None => taken.error is None && final(self)@ == old(self)@.with(
                        taken,
                        old(self)@.buffer,
                    ),
                }
            }),
    {
        let ghost start = self@;
        let ghost given = json_views(values@);
        let ghost before = event_views(output@);
        let mut i: usize = 0;
        assert(before + Seq::<EventView>::empty() =~= before);
        while i < values.len()
            invariant
                i <= values.len(),
                given == json_views(values@),
                start == old(self)@,
                before == event_views(old(output)@),
                self@.well_formed(),
                self@ == start.with(start.taken(given, i as nat), start.buffer),
                self@.dialect.label() == start.dialect.label(),
                start.taken(given, i as nat).error is None,
                event_views(output@) == before + start.taken(given, i as nat).events,
            decreases values.len() - i,
        {
            let ghost so_far = start.taken(given, i as nat);
            assert(given[i as int] == values[i as int]@);
            match self.dialect.decode(&values[i]) {
                Ok(events) => {
                    let count = events.len();
                    let _ = self.request.step(RequestEvent::Frame { events: count });
                    add_value(&mut self.frames, values[i].clone());
                    let ghost fresh = event_views(events@);
                    assert(fresh.len() == count);
                    add_events(output, events);
                    assert(before + so_far.events + fresh =~= before + (so_far.events + fresh));
                },
                Err(error) => {
                    proof {
                        lemma_error_stays(start, given, (i + 1) as nat, given.len());
                    }
                    return Some(error);
                },
            }
            i += 1;
        }
        None
    }

    /// Takes a chunk of the answer: the events that are passed on, and the error
    /// that ends the answer.
    pub fn chunk(&mut self, chunk: &Vec<u8>) -> (result: (Vec<ModelEvent>, Option<ApiError>))
        requires
            old(self)@.well_formed(),
        ensures
            final(self)@.well_formed(),
            event_views(result.0@) == old(self)@.after_chunk(chunk@).events,
            match result.1 {
                Some(error) => old(self)@.after_chunk(chunk@).error == Some(error@),
                None => old(self)@.after_chunk(chunk@).error is None && final(self)@ == old(
                    self,
                )@.with(
                    old(self)@.after_chunk(chunk@),
                    remainder(old(self)@.buffer + chunk@),
                ),
            },
    {
        let decoded = self.decoder.accept(chunk, self.dialect.label());
        let ghost middle = self@;
        let mut output: Vec<ModelEvent> = Vec::new();
        assert(event_views(output@) =~= Seq::empty());
        proof {
            let all = frames(old(self)@.buffer + chunk@);
            let values = frame_values(all, old(self)@.dialect.label(), all.len()).0;
            lemma_taken_alike(old(self)@, middle, values, values.len());
        }
        let ghost values = json_views(decoded.values@);
        let problem = self.take(decoded.values, &mut output);
        assert(Seq::<EventView>::empty() + old(self)@.taken(values, values.len()).events =~= old(
            self,
        )@.taken(values, values.len()).events);
        match problem {
            Some(error) => (output, Some(error)),
            None => (output, decoded.error),
        }
    }

    /// What is done where the connection breaks; its words are given.
    pub fn broke(&mut self, words: &str) -> (next: Next)
        requires
            old(self)@.well_formed(),
        ensures
            final(self)@.well_formed(),
            final(self)@ == (ExchangeView {
                request: old(self)@.request.after(RequestEvent::Broken { transport: true }),
                ..old(self)@
            }),
            next@ == next_view(
                old(self)@.request.action(RequestEvent::Broken { transport: true }),
                ErrorView::Transport(
                    old(self)@.dialect.label() + " stream failed: "@ + words@,
                ),
            ),
    {
        let error = ApiError::Transport(
            concat3(self.dialect.label(), " stream failed: ", words),
        );
        match self.request.step(RequestEvent::Broken { transport: true }) {
            RequestAction::Retry { delay_ms } => Next::Retry { delay_ms },
            _ => Next::Fail(error),
        }
    }

    /// Takes the end of the answer: the events that are passed on, and what is done
    /// then.
    pub fn ended(&mut self) -> (result: (Vec<ModelEvent>, Next))
        requires
            old(self)@.well_formed(),
        ensures
            final(self)@.well_formed(),
            (event_views(result.0@), result.1@) == old(self)@.ended(),
            final(self)@.model == old(self)@.model,
            final(self)@.rate_limits == old(self)@.rate_limits,
            old(self)@.after_rest().error is None ==> final(self)@ == old(self)@.after_end(),
            result.1 matches Next::Retry { .. } ==> old(self)@.after_rest().error is None
                && final(self)@ == (ExchangeView {
                request: old(self)@.after_rest().request.after(
                    RequestEvent::Unfinished { incomplete: true },
                ),
                dialect: old(self)@.after_rest().dialect,
                frames: old(self)@.after_rest().frames,
                ..old(self)@
            }) && final(self)@.request.retries == old(self)@.request.retries + 1,
    {
        let mut output: Vec<ModelEvent> = Vec::new();
        assert(event_views(output@) =~= Seq::empty());
        let mut values: Vec<Json> = Vec::new();
        assert(json_views(values@) =~= Seq::empty());
        match self.decoder.finish(self.dialect.label()) {
            Ok(Some(value)) => {
                add_value(&mut values, value);
            },
            Ok(None) => {},
            Err(error) => {
                return (output, Next::Fail(error));
            },
        }
        let ghost given = json_views(values@);
        let ghost taken = old(self)@.taken(given, given.len());
        let problem = self.take(values, &mut output);
        assert(Seq::<EventView>::empty() + taken.events =~= taken.events);
        assert(taken == old(self)@.after_rest());
        match problem {
            Some(error) => {
                return (output, Next::Fail(error));
            },
            None => {},
        }
        proof {
            lemma_retries(old(self)@, given, given.len());
        }
        match self.dialect.answer(self.model.as_str(), &self.frames, &self.rate_limits) {
            Ok(events) => {
                add_settled(&mut output, events);
                (output, Next::Complete)
            },
            Err(error) => {
                let incomplete = matches!(error, ApiError::Incomplete(_));
                match self.request.step(RequestEvent::Unfinished { incomplete }) {
                    RequestAction::Retry { delay_ms } => (output, Next::Retry { delay_ms }),
                    _ => (output, Next::Fail(error)),
                }
            },
        }
    }
}

proof fn lemma_error_stays(state: ExchangeView, values: Seq<JsonView>, low: nat, high: nat)
    requires
        low <= high,
        state.taken(values, low).error is Some,
    ensures
        state.taken(values, high) == state.taken(values, low),
    decreases high - low,
{
    if low < high {
        lemma_error_stays(state, values, low, (high - 1) as nat);
    }
}

proof fn lemma_taken_alike(
    state: ExchangeView,
    other: ExchangeView,
    values: Seq<JsonView>,
    count: nat,
)
    requires
        state.dialect == other.dialect,
        state.request == other.request,
        state.frames == other.frames,
    ensures
        state.taken(values, count) == other.taken(values, count),
    decreases count,
{
    if count > 0 {
        lemma_taken_alike(state, other, values, (count - 1) as nat);
    }
}

proof fn lemma_retries(state: ExchangeView, values: Seq<JsonView>, count: nat)
    ensures
        state.taken(values, count).request.retries == state.request.retries,
    decreases count,
{
    if count > 0 {
        lemma_retries(state, values, (count - 1) as nat);
    }
}

/// Whatever of an answer was passed on is not passed on again: once events came
/// out of its frames, neither the end of the answer nor a break of the connection
/// makes the request be sent again.
pub proof fn law_nothing_is_passed_on_twice(
    state: ExchangeView,
    values: Seq<JsonView>,
    count: nat,
    incomplete: bool,
    transport: bool,
)
    requires
        state.well_formed(),
        state.request.canonical_output || state.taken(values, count).events.len() > 0,
    ensures
        state.taken(values, count).request.canonical_output,
        !(state.taken(values, count).request.action(
            RequestEvent::Unfinished { incomplete },
        ) is Retry),
        !(state.taken(values, count).request.action(RequestEvent::Broken { transport }) is Retry),
    decreases count,
{
    if count > 0 {
        let before = state.taken(values, (count - 1) as nat);
        if state.request.canonical_output || before.events.len() > 0 {
            law_nothing_is_passed_on_twice(
                state,
                values,
                (count - 1) as nat,
                incomplete,
                transport,
            );
        }
    }
}

/// The frames that are read are kept in their order, and what each says is passed on
/// after what the ones before it said. The first that cannot be read ends it.
pub proof fn law_frames_are_taken_in_order(
    exchange: ExchangeView,
    values: Seq<JsonView>,
    count: nat,
)
    requires
        0 < count <= values.len(),
    ensures
        ({
            let before = exchange.taken(values, (count - 1) as nat);
            let after = exchange.taken(values, count);
            let step = before.dialect.decoded(values[count - 1]);
            &&& before.error is Some ==> after == before
            &&& before.error is None && step is Ok ==> after.error is None && after.frames
                == before.frames.push(values[count - 1]) && after.events == before.events
                + step->Ok_0.1 && after.dialect == step->Ok_0.0 && after.request.retries
                == before.request.retries && (after.request.canonical_output
                <==> before.request.canonical_output || step->Ok_0.1.len() > 0)
            &&& before.error is None && step is Err ==> after.error == Some(step->Err_0)
                && after.frames == before.frames && after.events == before.events
        }),
        exchange.taken(values, 0).events.len() == 0,
        exchange.taken(values, 0).frames == exchange.frames,
{
}

/// An exchange is read by the API that it was begun with.
pub proof fn law_dialect_stays(dialect: DialectView, frame: JsonView)
    ensures
        dialect.decoded(frame) matches Ok((after, _)) ==> (after is ChatCompletions <==> dialect
            is ChatCompletions) && (after is Messages <==> dialect is Messages) && (after
            is Responses <==> dialect is Responses) && after.label() == dialect.label(),
        dialect.label() == "Chat Completions"@ <==> dialect is ChatCompletions,
        dialect.label() == "Messages"@ <==> dialect is Messages,
        dialect.label() == "Responses"@ <==> dialect is Responses,
{
    reveal(DialectView::decoded);
    reveal_strlit("Chat Completions");
    reveal_strlit("Messages");
    reveal_strlit("Responses");
    assert("Chat Completions"@.len() == 16 && "Messages"@.len() == 8 && "Responses"@.len() == 9);
}

/// What was passed on while it came in is not passed on again at the end: of the whole
/// answer only its finished parts are, all of them and in their order.
pub proof fn law_finished_parts_are_passed_on(events: Seq<EventView>, count: nat, i: int)
    requires
        0 <= i < count <= events.len(),
    ensures
        ({
            let parts = settled(events, count);
            let at = settled(events, i as nat).len();
            let next = settled(events, (i + 1) as nat).len();
            &&& at <= next <= parts.len()
            &&& events[i] is Update ==> next == at
            &&& !(events[i] is Update) ==> next == at + 1 && parts[at as int] == events[i]
        }),
{
    lemma_settled_grows(events, (i + 1) as nat, count);
}

proof fn lemma_settled_grows(events: Seq<EventView>, count: nat, total: nat)
    requires
        count <= total <= events.len(),
    ensures
        settled(events, count).len() <= settled(events, total).len(),
        forall|k: int|
            0 <= k < settled(events, count).len() ==> #[trigger] settled(events, total)[k]
                == settled(events, count)[k],
    decreases total,
{
    if count < total {
        lemma_settled_grows(events, count, (total - 1) as nat);
    }
}

/// An exchange is complete where all was read and the whole answer is good. Where the
/// answer ended too early and nothing was passed on it is begun again; any other fault
/// is told.
pub proof fn law_exchange_ends(exchange: ExchangeView)
    requires
        exchange.well_formed(),
        exchange.after_rest().request.well_formed(),
    ensures
        ({
            let rest = exchange.after_rest();
            let answer = rest.dialect.answered(
                exchange.model,
                rest.frames,
                exchange.rate_limits,
            );
            let (events, next) = exchange.ended();
            &&& next is Complete <==> rest.error is None && answer is Ok
            &&& next is Complete ==> events == rest.events + settled(
                answer->Ok_0,
                answer->Ok_0.len(),
            )
            &&& !(next is Complete) ==> events == rest.events
            &&& rest.error matches Some(error) ==> next == NextView::Fail(error)
            &&& next is Retry <==> rest.error is None && (answer matches Err(error) && error
                is Incomplete) && !rest.request.canonical_output && rest.request.retries < 5
            &&& rest.error is None && answer is Err && !(next is Retry) ==> next == NextView::Fail(
                answer->Err_0,
            )
            &&& !(next is ReadOn)
        }),
{
}

/// A request that was sent again is announced with how often that was and how often it
/// may be. A status is a success where it says so.
pub proof fn law_retries_are_announced(current: u64, status: u16, refused: bool)
    requires
        call_ensures(answer_refused, (status,), refused),
    ensures
        retry_update(current) matches EventView::Update(UpdateView::Retry {
            current: times,
            max,
            ..
        }) && times == current && max == 5,
        !refused <==> status / 100 == 2,
{
}

/// A new answer is read from its start: nothing that an earlier one left behind counts.
/// Who asked is told where the request was sent again before.
pub proof fn law_new_answer_is_read_from_its_start(
    exchange: &mut Exchange,
    status: u16,
    rate_limits: Vec<Json>,
    result: (RequestAction, Option<ModelEvent>),
)
    requires
        call_ensures(Exchange::responded, (exchange, status, rate_limits), result),
    ensures
        result.0 is Read ==> final(exchange)@.buffer.len() == 0 && final(exchange)@.frames.len()
            == 0 && final(exchange)@.rate_limits == json_views(rate_limits@),
        !(result.0 is Read) ==> final(exchange)@.frames == old(exchange)@.frames
            && final(exchange)@.rate_limits == old(exchange)@.rate_limits,
        result.1 is Some <==> (result.0 matches RequestAction::Read { announce } && announce
            is Some),
        final(exchange)@.model == old(exchange)@.model,
{
}

/// A stream that breaks is told with its words, unless the request is sent again.
pub proof fn law_broken_stream_is_told(exchange: &mut Exchange, words: &str, next: Next)
    requires
        call_ensures(Exchange::broke, (exchange, words), next),
    ensures
        next@ is Retry || next@ is Fail,
        next@ matches NextView::Fail(error) ==> (error matches ErrorView::Transport(text)
            && crate::text::has_suffix(text, words@)),
        final(exchange)@.frames == old(exchange)@.frames,
{
    if let NextView::Fail(ErrorView::Transport(text)) = next@ {
        assert(text.skip(text.len() - words@.len()) =~= words@);
    }
}

/// What came of a chunk: the events of all its frames up to the first that is no good,
/// and why that one is none; where every frame is good, only what cannot be read at all
/// is told.
pub proof fn law_chunk_is_taken_frame_by_frame(exchange: ExchangeView, chunk: Seq<u8>)
    ensures
        ({
            let all = frames(exchange.buffer + chunk);
            let (values, problem) = frame_values(all, exchange.dialect.label(), all.len());
            let taken = exchange.taken(values, values.len());
            let after = exchange.after_chunk(chunk);
            &&& after.events == taken.events
            &&& after.frames == taken.frames
            &&& taken.error matches Some(error) ==> after.error == Some(error)
            &&& taken.error is None ==> after.error == problem
            &&& taken.error is None && problem is None ==> after.frames.len()
                == exchange.frames.len() + values.len()
        }),
{
    let all = frames(exchange.buffer + chunk);
    let (values, problem) = frame_values(all, exchange.dialect.label(), all.len());
    lemma_good_frames_are_kept(exchange, values, values.len());
}

proof fn lemma_good_frames_are_kept(exchange: ExchangeView, values: Seq<JsonView>, count: nat)
    ensures
        exchange.taken(values, count).error is None ==> exchange.taken(values, count).frames.len()
            == exchange.frames.len() + count,
    decreases count,
{
    if count > 0 {
        lemma_good_frames_are_kept(exchange, values, (count - 1) as nat);
    }
}

} // verus!
