//! What the controller does with the request of a client.
use crate::commands::{Command, ProcessLocator};
use crate::text::concat2;
use vstd::prelude::*;

verus! {

/// What a client wants to follow.
#[derive(Debug, PartialEq)]
pub enum Subscribe {
    Controller,
    Thread { thread_id: i64 },
    Checkpoint { checkpoint_id: i64 },
    Process { process: ProcessLocator },
}

/// What a client asks.
#[derive(Debug, PartialEq)]
pub enum StateRequest {
    Command(Command),
    Subscribe(Subscribe),
}

/// What is done with a request, in order. Where one of the first steps fails that
/// [`works`], the steps of a failure are taken in place of those that follow.
#[allow(inconsistent_fields)]
#[derive(Clone, Copy, Debug, PartialEq)]
pub enum ConnectionStep<'a> {
    /// The controller stops taking commands.
    ShutDown,
    /// The command is carried out.
    HandleCommand { command: &'a Command },
    /// What is followed is loaded.
    MaterializeThread { thread_id: i64 },
    /// What is followed is loaded.
    MaterializeCheckpoint { checkpoint_id: i64 },
    /// What is followed is loaded.
    MaterializeProcess { process: &'a ProcessLocator },
    /// The client is added to those who follow.
    Subscribe { subscribe: &'a Subscribe },
    /// The client gets the response.
    Respond,
    /// The client gets the error in place of the response.
    RespondError,
    /// The client gets the error as the end of what is followed.
    EndWithError,
    /// The connection is closed.
    Close,
    /// The controller ends.
    SignalShutdown,
    /// The hold on the state of the controller is given up.
    ReleaseState,
    /// The client gets what happens from here on.
    Serve,
}

/// Whether a step does what the client asks for, so that the client is told where
/// it fails.
pub open spec fn works(step: ConnectionStep) -> bool {
    match step {
        ConnectionStep::ShutDown => true,
        ConnectionStep::HandleCommand { .. } => true,
        ConnectionStep::MaterializeThread { .. } => true,
        ConnectionStep::MaterializeCheckpoint { .. } => true,
        ConnectionStep::MaterializeProcess { .. } => true,
        ConnectionStep::Subscribe { .. } => true,
        _ => false,
    }
}

/// The steps of a request.
pub open spec fn connection_steps<'a>(request: &'a StateRequest) -> Seq<ConnectionStep<'a>> {
    match request {
        StateRequest::Command(command) => if *command == Command::Shutdown {
            seq![
                ConnectionStep::ShutDown,
                ConnectionStep::Respond,
                ConnectionStep::Close,
                ConnectionStep::SignalShutdown,
            ]
        } else {
            seq![ConnectionStep::HandleCommand { command }, ConnectionStep::Respond]
        },
        StateRequest::Subscribe(subscribe) => {
            let follow = seq![
                ConnectionStep::Subscribe { subscribe },
                ConnectionStep::ReleaseState,
                ConnectionStep::Serve,
            ];
            match subscribe {
                Subscribe::Controller => follow,
                Subscribe::Thread { thread_id } => seq![
                    ConnectionStep::MaterializeThread { thread_id: *thread_id },
                ] + follow,
                Subscribe::Checkpoint { checkpoint_id } => seq![
                    ConnectionStep::MaterializeCheckpoint { checkpoint_id: *checkpoint_id },
                ] + follow,
                Subscribe::Process { process } => seq![
                    ConnectionStep::MaterializeProcess { process },
                ] + follow,
            }
        },
    }
}

/// The steps that are taken where what a request asks for fails: the client gets
/// the error, and the controller does not end for it.
pub open spec fn failure_steps<'a>(request: &'a StateRequest) -> Seq<ConnectionStep<'a>> {
    match request {
        StateRequest::Command(command) => if *command == Command::Shutdown {
            seq![ConnectionStep::RespondError, ConnectionStep::Close]
        } else {
            seq![ConnectionStep::RespondError]
        },
        StateRequest::Subscribe(_) => seq![ConnectionStep::EndWithError],
    }
}

/// What is done with a request, and what is done in place of the rest where that
/// fails.
pub fn handle_state_request<'a>(request: &'a StateRequest) -> (plan: (
    Vec<ConnectionStep<'a>>,
    Vec<ConnectionStep<'a>>,
))
    ensures
        plan.0@ == connection_steps(request),
        plan.1@ == failure_steps(request),
{
    match request {
        StateRequest::Command(command) => {
            if matches!(command, Command::Shutdown) {
                return (
                    vec![
                        ConnectionStep::ShutDown,
                        ConnectionStep::Respond,
                        ConnectionStep::Close,
                        ConnectionStep::SignalShutdown,
                    ],
                    vec![ConnectionStep::RespondError, ConnectionStep::Close],
                );
            }
            (
                vec![ConnectionStep::HandleCommand { command }, ConnectionStep::Respond],
                vec![ConnectionStep::RespondError],
            )
        },
        StateRequest::Subscribe(subscribe) => {
            let mut plan: Vec<ConnectionStep<'a>> = Vec::new();
            match subscribe {
                Subscribe::Controller => {},
                Subscribe::Thread { thread_id } => {
                    plan.push(ConnectionStep::MaterializeThread { thread_id: *thread_id });
                },
                Subscribe::Checkpoint { checkpoint_id } => {
                    plan.push(
                        ConnectionStep::MaterializeCheckpoint { checkpoint_id: *checkpoint_id },
                    );
                },
                Subscribe::Process { process } => {
                    plan.push(ConnectionStep::MaterializeProcess { process });
                },
            }
            plan.push(ConnectionStep::Subscribe { subscribe });
            plan.push(ConnectionStep::ReleaseState);
            plan.push(ConnectionStep::Serve);
            assert(plan@ =~= connection_steps(request));
            (plan, vec![ConnectionStep::EndWithError])
        },
    }
}

/// Nobody who only follows keeps the controller alive; the controller ends only
/// after it stopped taking commands and the client was told, and not where it could
/// not stop; and all that can fail comes before the client is answered or served.
pub proof fn law_connection_order(request: &StateRequest, i: int, j: int)
    requires
        0 <= i < connection_steps(request).len(),
        0 <= j < failure_steps(request).len(),
    ensures
        connection_steps(request)[i] == ConnectionStep::Serve ==> i > 0 && connection_steps(
            request,
        )[i - 1] == ConnectionStep::ReleaseState,
        connection_steps(request)[i] == ConnectionStep::SignalShutdown ==> i == 3
            && connection_steps(request)[0] == ConnectionStep::ShutDown && connection_steps(
            request,
        )[1] == ConnectionStep::Respond,
        failure_steps(request)[j] != ConnectionStep::SignalShutdown,
        !works(failure_steps(request)[j]),
        works(connection_steps(request)[i]) ==> forall|k: int|
            0 <= k < i ==> works(#[trigger] connection_steps(request)[k]),
{
}

/// What happens while a client follows.
#[derive(Clone, Copy, Debug, PartialEq, Eq, Structural)]
pub enum ServeEvent {
    /// There is something to tell.
    Message,
    /// There will be nothing more to tell.
    Ended,
    /// The client closed the connection.
    PeerClosed,
    /// The client sent something.
    PeerSent,
    /// There was nothing to read after all.
    NothingToRead,
    /// The connection broke.
    ReadFailed,
}

/// What is done for a client that follows.
#[derive(Clone, Copy, Debug, PartialEq, Eq, Structural)]
pub enum ServeAction {
    Send,
    Wait,
    Stop,
    /// The client gets [`unexpected_message`], and no more.
    RefuseAndStop,
    Fail,
}

/// What is done for a client that follows: it only listens.
pub fn serve_subscription(event: ServeEvent) -> (action: ServeAction)
    ensures
        action == (match event {
            ServeEvent::Message => ServeAction::Send,
            ServeEvent::Ended | ServeEvent::PeerClosed => ServeAction::Stop,
            ServeEvent::PeerSent => ServeAction::RefuseAndStop,
            ServeEvent::NothingToRead => ServeAction::Wait,
            ServeEvent::ReadFailed => ServeAction::Fail,
        }),
{
    match event {
        ServeEvent::Message => ServeAction::Send,
        ServeEvent::Ended => ServeAction::Stop,
        ServeEvent::PeerClosed => ServeAction::Stop,
        ServeEvent::PeerSent => ServeAction::RefuseAndStop,
        ServeEvent::NothingToRead => ServeAction::Wait,
        ServeEvent::ReadFailed => ServeAction::Fail,
    }
}

/// What a client is told that sends something while it follows.
pub fn unexpected_message() -> (text: &'static str)
    ensures
        text@ == "client sent a message after starting a subscription"@,
{
    "client sent a message after starting a subscription"
}

/// A message as it is written: on a line of its own.
pub fn message_line(message: &str) -> (line: String)
    ensures
        line@ == message@ + "\n"@,
{
    concat2(message, "\n")
}

/// No step is taken that the request does not ask for, and what it asks for is done:
/// a command is carried out as it came and answered, the controller is shut down only
/// where that is asked for, and what is to be followed is loaded, then followed, then
/// served.
pub proof fn law_connection_does_what_is_asked(request: &StateRequest, i: int)
    requires
        0 <= i < connection_steps(request).len(),
    ensures
        ({
            let plan = connection_steps(request);
            let n = plan.len() as int;
            &&& match plan[i] {
                ConnectionStep::ShutDown => *request == StateRequest::Command(Command::Shutdown)
                    && i == 0,
                ConnectionStep::SignalShutdown => *request == StateRequest::Command(
                    Command::Shutdown,
                ) && i == n - 1,
                ConnectionStep::Close => *request == StateRequest::Command(Command::Shutdown),
                ConnectionStep::HandleCommand { command } => *request == StateRequest::Command(
                    *command,
                ) && !(*command is Shutdown) && i == 0,
                ConnectionStep::MaterializeThread { thread_id } => *request
                    == StateRequest::Subscribe(Subscribe::Thread { thread_id }) && i == 0,
                ConnectionStep::MaterializeCheckpoint { checkpoint_id } => *request
                    == StateRequest::Subscribe(Subscribe::Checkpoint { checkpoint_id }) && i == 0,
                ConnectionStep::MaterializeProcess { process } => *request
                    == StateRequest::Subscribe(Subscribe::Process { process: *process }) && i == 0,
                ConnectionStep::Subscribe { subscribe } => *request == StateRequest::Subscribe(
                    *subscribe,
                ) && i == n - 3,
                ConnectionStep::ReleaseState => *request is Subscribe && i == n - 2,
                ConnectionStep::Serve => *request is Subscribe && i == n - 1,
                ConnectionStep::Respond => *request is Command && i == 1,
                ConnectionStep::RespondError => false,
                ConnectionStep::EndWithError => false,
            }
            &&& *request == StateRequest::Command(Command::Shutdown) ==> plan[0] is ShutDown
                && plan[1] is Respond && plan[n - 1] is SignalShutdown
            &&& *request matches StateRequest::Command(command) ==> command is Shutdown || (plan[0]
                is HandleCommand && plan[1] is Respond && n == 2)
            &&& *request matches StateRequest::Subscribe(subscribe) ==> plan[n - 3] is Subscribe
                && plan[n - 1] is Serve && (subscribe is Thread <==> plan[0] is MaterializeThread)
                && (subscribe is Checkpoint <==> plan[0] is MaterializeCheckpoint) && (subscribe
                is Process <==> plan[0] is MaterializeProcess)
        }),
{
}

/// A request that went wrong is answered with its error: a command in place of its
/// response, something that is followed as its end. The connection is closed where the
/// controller was to be shut down, and the controller does not end.
pub proof fn law_failure_is_answered(request: &StateRequest)
    ensures
        ({
            let plan = failure_steps(request);
            &&& *request is Command <==> plan[0] is RespondError
            &&& *request is Subscribe <==> plan[0] is EndWithError
            &&& *request == StateRequest::Command(Command::Shutdown) <==> plan.len() == 2
            &&& plan.len() == 2 ==> plan[1] is Close
            &&& 1 <= plan.len() <= 2
        }),
{
}

/// While something is followed, all that happens is sent; it ends where there is no
/// more or the client closes, with an error where the connection breaks, and a client
/// that says something is refused.
pub proof fn law_subscription_is_served(event: ServeEvent, action: ServeAction)
    requires
        call_ensures(serve_subscription, (event,), action),
    ensures
        action is Send <==> event is Message,
        action is Stop <==> event is Ended || event is PeerClosed,
        action is RefuseAndStop <==> event is PeerSent,
        action is Wait <==> event is NothingToRead,
        action is Fail <==> event is ReadFailed,
{
}

/// A message is one line.
pub proof fn law_message_is_a_line(message: &str, line: String)
    requires
        call_ensures(message_line, (message,), line),
    ensures
        line@.len() == message@.len() + 1,
        line@.last() == '\n',
        line@.drop_last() == message@,
{
    reveal_strlit("\n");
    assert(line@.drop_last() =~= message@);
}

} // verus!
