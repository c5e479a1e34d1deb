//! What a client of the controller makes of the messages that it gets.
use std::path::PathBuf;
use vstd::prelude::*;

verus! {

/// A `std::path::PathBuf`, which is only carried.
#[verifier::external_type_specification]
#[verifier::external_body]
pub struct ExPathBuf(PathBuf);

/// A client of the controller that listens at `endpoint`.
pub struct Client {
    endpoint: PathBuf,
}

impl Client {
    /// Where the controller listens.
    pub closed spec fn at(self) -> PathBuf {
        self.endpoint
    }

    /// A client of the controller that listens at `endpoint`.
    pub fn new(endpoint: PathBuf) -> (client: Self)
        ensures
            client.at() == endpoint,
    {
        Client { endpoint }
    }

    /// Where the controller listens.
    pub fn endpoint(&self) -> (endpoint: &PathBuf)
        ensures
            *endpoint == self.at(),
    {
        &self.endpoint
    }
}

/// How what is followed ends.
#[derive(Debug, PartialEq)]
pub enum SubscriptionTerminal {
    Deleted,
    ControllerShutdown,
    Error { message: String },
}

/// The end of what is followed, as an error.
#[derive(Debug, PartialEq)]
pub struct SubscriptionError {
    terminal: SubscriptionTerminal,
}

impl SubscriptionError {
    /// How it ended.
    pub closed spec fn ended(self) -> SubscriptionTerminal {
        self.terminal
    }

    /// The words of an end.
    pub open spec fn words(terminal: SubscriptionTerminal) -> Seq<char> {
        match terminal {
            SubscriptionTerminal::Deleted => "subscribed resource was deleted"@,
            SubscriptionTerminal::ControllerShutdown => "controller is shutting down"@,
            SubscriptionTerminal::Error { message } => message@,
        }
    }

    /// The error of an end.
    pub fn new(terminal: SubscriptionTerminal) -> (error: Self)
        ensures
            error.ended() == terminal,
    {
        SubscriptionError { terminal }
    }

    /// How it ended.
    pub fn terminal(&self) -> (terminal: &SubscriptionTerminal)
        ensures
            *terminal == self.ended(),
    {
        &self.terminal
    }

    /// What the user is told.
    pub fn message(&self) -> (text: String)
        ensures
            text@ == SubscriptionError::words(self.ended()),
    {
        match &self.terminal {
            SubscriptionTerminal::Deleted => "subscribed resource was deleted".to_owned(),
            SubscriptionTerminal::ControllerShutdown => "controller is shutting down".to_owned(),
            SubscriptionTerminal::Error { message } => message.clone(),
        }
    }
}

/// A message to one who follows something: what it is, what becomes of it, and
/// how it ends.
#[derive(Debug, PartialEq)]
pub enum SubscriptionMessage<S, O> {
    Snapshot { state: S },
    Operation { operation: O },
    Terminal { terminal: SubscriptionTerminal },
}

/// Why a message is not the one that was due.
#[derive(Debug, PartialEq)]
pub enum MessageError {
    Ended(SubscriptionError),
    EarlyOperation,
    SecondSnapshot,
}

impl MessageError {
    /// What the user is told.
    pub open spec fn words(self) -> Seq<char> {
        match self {
            MessageError::Ended(error) => SubscriptionError::words(error.ended()),
            MessageError::EarlyOperation => {
                "controller sent an operation before the subscription snapshot"@
            },
            MessageError::SecondSnapshot => "controller sent a second subscription snapshot"@,
        }
    }

    /// What the user is told.
    pub fn message(&self) -> (text: String)
        ensures
            text@ == self.words(),
    {
        match self {
            MessageError::Ended(error) => error.message(),
            MessageError::EarlyOperation => {
                "controller sent an operation before the subscription snapshot".to_owned()
            },
            MessageError::SecondSnapshot => {
                "controller sent a second subscription snapshot".to_owned()
            },
        }
    }
}

/// What the first message gives.
pub fn first_message<S, O>(message: SubscriptionMessage<S, O>) -> (result: Result<S, MessageError>)
    ensures
        match message {
            SubscriptionMessage::Snapshot { state } => result == Ok::<S, MessageError>(state),
            SubscriptionMessage::Operation { .. } => result == Err::<S, MessageError>(
                MessageError::EarlyOperation,
            ),
            SubscriptionMessage::Terminal { terminal } => result matches Err(
                MessageError::Ended(error),
            ) && error.ended() == terminal,
        },
{
    match message {
        SubscriptionMessage::Snapshot { state } => Ok(state),
        SubscriptionMessage::Operation { .. } => Err(MessageError::EarlyOperation),
        SubscriptionMessage::Terminal { terminal } => Err(
            MessageError::Ended(SubscriptionError::new(terminal)),
        ),
    }
}

/// What each message after the first gives.
pub fn next_message<S, O>(message: SubscriptionMessage<S, O>) -> (result: Result<O, MessageError>)
    ensures
        match message {
            SubscriptionMessage::Operation { operation } => result == Ok::<O, MessageError>(
                operation,
            ),
            SubscriptionMessage::Snapshot { .. } => result == Err::<O, MessageError>(
                MessageError::SecondSnapshot,
            ),
            SubscriptionMessage::Terminal { terminal } => result matches Err(
                MessageError::Ended(error),
            ) && error.ended() == terminal,
        },
{
    match message {
        SubscriptionMessage::Operation { operation } => Ok(operation),
        SubscriptionMessage::Snapshot { .. } => Err(MessageError::SecondSnapshot),
        SubscriptionMessage::Terminal { terminal } => Err(
            MessageError::Ended(SubscriptionError::new(terminal)),
        ),
    }
}

/// The response to a command.
#[derive(Debug, PartialEq)]
pub enum CommandResponse<R> {
    Success { result: R },
    Error { message: String },
}

/// What a response gives.
pub fn command_result<R>(response: CommandResponse<R>) -> (result: Result<R, String>)
    ensures
        result == (match response {
            CommandResponse::Success { result } => Ok::<R, String>(result),
            CommandResponse::Error { message } => Err::<R, String>(message),
        }),
{
    match response {
        CommandResponse::Success { result } => Ok(result),
        CommandResponse::Error { message } => Err(message),
    }
}

/// Why the controller cannot be reached.
#[derive(Clone, Copy, Debug, PartialEq, Eq, Structural)]
pub enum ConnectFailure {
    NotFound,
    ConnectionRefused,
    ConnectionReset,
    Other,
}

/// Whether the controller does not run.
pub fn not_running(failure: ConnectFailure) -> (stopped: bool)
    ensures
        stopped == (failure != ConnectFailure::Other),
{
    !matches!(failure, ConnectFailure::Other)
}

/// The client of the controller that listens at `endpoint`.
pub fn client(endpoint: PathBuf) -> (client: Client)
    ensures
        client.at() == endpoint,
{
    Client::new(endpoint)
}

/// What is followed begins with a snapshot and goes on with operations: the first
/// message must be the one, each later message the other, and an end is an error that
/// keeps why it came.
pub proof fn law_snapshot_comes_first<S, O>(
    message: SubscriptionMessage<S, O>,
    first: Result<S, MessageError>,
    later: Result<O, MessageError>,
)
    requires
        call_ensures(first_message::<S, O>, (message,), first),
        call_ensures(next_message::<S, O>, (message,), later),
    ensures
        first is Ok <==> message is Snapshot,
        later is Ok <==> message is Operation,
        message matches SubscriptionMessage::Snapshot { state } ==> first == Ok::<S, MessageError>(
            state,
        ) && later == Err::<O, MessageError>(MessageError::SecondSnapshot),
        message matches SubscriptionMessage::Operation { operation } ==> later == Ok::<
            O,
            MessageError,
        >(operation) && first == Err::<S, MessageError>(MessageError::EarlyOperation),
        message matches SubscriptionMessage::Terminal { terminal } ==> (first matches Err(
            MessageError::Ended(error),
        ) && error.ended() == terminal) && (later matches Err(MessageError::Ended(error))
            && error.ended() == terminal),
{
}

/// The words of an end tell the ends apart; an error is told in its own words.
pub proof fn law_ends_are_told_apart(message: String)
    ensures
        SubscriptionError::words(SubscriptionTerminal::Deleted) != SubscriptionError::words(
            SubscriptionTerminal::ControllerShutdown,
        ),
        SubscriptionError::words(SubscriptionTerminal::Deleted)
            == "subscribed resource was deleted"@,
        SubscriptionError::words(SubscriptionTerminal::ControllerShutdown)
            == "controller is shutting down"@,
        SubscriptionError::words(SubscriptionTerminal::Error { message }) == message@,
{
    reveal_strlit("subscribed resource was deleted");
    reveal_strlit("controller is shutting down");
    assert("subscribed resource was deleted"@.len() == 31 && "controller is shutting down"@.len() == 27);
}

/// A command that was accepted gives its result, and one that was refused the words of
/// the refusal. A controller that cannot be reached in one of the usual ways does not
/// run.
pub proof fn law_command_is_answered<R>(
    response: CommandResponse<R>,
    result: Result<R, String>,
    failure: ConnectFailure,
    stopped: bool,
)
    requires
        call_ensures(command_result::<R>, (response,), result),
        call_ensures(not_running, (failure,), stopped),
    ensures
        result is Ok <==> response is Success,
        response matches CommandResponse::Success { result: given } ==> result == Ok::<R, String>(
            given,
        ),
        response matches CommandResponse::Error { message } ==> result == Err::<R, String>(message),
        stopped <==> failure is NotFound || failure is ConnectionRefused || failure
            is ConnectionReset,
{
}

} // verus!
