//! What a runner answers.
use crate::controller::{ProcessInspection, ProcessStatus};
use crate::json::Json;
use crate::text::concat2;
use vstd::prelude::*;

verus! {

/// A process that a command started beside itself.
#[derive(Debug, PartialEq)]
pub struct SpawnedProcess {
    pub process_id: String,
    pub process_handle: String,
    pub command: String,
}

/// An answer of a runner.
#[allow(inconsistent_fields)]
#[derive(Debug, PartialEq)]
pub enum RunnerResponse {
    Ready,
    ProcessStarted { process_handle: String, timing: Json },
    ProcessRunning {
        process_handle: String,
        output: Json,
        patch_results: Vec<Json>,
        spawned_processes: Vec<SpawnedProcess>,
        timing: Json,
    },
    ProcessFinished {
        output: Json,
        exit_code: Option<i32>,
        patch_results: Vec<Json>,
        spawned_processes: Vec<SpawnedProcess>,
    },
    ProcessStopped { output: Json },
    ProcessInspected { process_status: ProcessStatus, output_tail: String, omitted_bytes: usize },
    ProcessStatus { process_status: ProcessStatus },
    MissingObjects { digests: Vec<String> },
    TreeReady { digest: String, path: String },
    ObjectStored,
    Error { message: String },
}

/// What was asked where an answer does not fit.
#[derive(Clone, Copy, Debug, PartialEq, Eq, Structural)]
pub enum Asked {
    Initialize,
    StartCommand,
    WaitProcess,
    StopProcess,
    InspectProcess,
    ProcessStatus,
    PrepareTree,
    UploadObject,
}

/// Why an answer is no good.
#[derive(Debug, PartialEq)]
pub enum ReplyError {
    /// The runner says so.
    Runner { message: String },
    /// The answer does not fit what was asked.
    Invalid { asked: Asked },
}

impl ReplyError {
    /// What is told of it. Some errors show the answer, whose form for a developer
    /// is given.
    pub open spec fn words(self, shown: Seq<char>) -> Seq<char> {
        match self {
            ReplyError::Runner { message } => message@,
            ReplyError::Invalid { asked } => match asked {
                Asked::Initialize => "runner returned an invalid readiness response: "@ + shown,
                Asked::StartCommand => "runner returned an invalid start_command response"@,
                Asked::WaitProcess => "runner returned an invalid wait_process response"@,
                Asked::StopProcess => "runner returned an invalid stop_process response"@,
                Asked::InspectProcess => "runner returned an invalid inspect_process response"@,
                Asked::ProcessStatus => "runner returned an invalid process_status response"@,
                Asked::PrepareTree => "runner returned an invalid tree response: "@ + shown,
                Asked::UploadObject => "runner returned an invalid object response: "@ + shown,
            },
        }
    }

    /// What is told of it. Some errors show the answer, whose form for a developer
    /// is given.
    pub fn message(&self, shown: &str) -> (text: String)
        ensures
            text@ == self.words(shown@),
    {
        match self {
            ReplyError::Runner { message } => message.clone(),
            ReplyError::Invalid { asked } => match asked {
                Asked::Initialize => {
                    concat2("runner returned an invalid readiness response: ", shown)
                },
                Asked::StartCommand => {
                    "runner returned an invalid start_command response".to_owned()
                },
                Asked::WaitProcess => "runner returned an invalid wait_process response".to_owned(),
                Asked::StopProcess => "runner returned an invalid stop_process response".to_owned(),
                Asked::InspectProcess => {
                    "runner returned an invalid inspect_process response".to_owned()
                },
                Asked::ProcessStatus => {
                    "runner returned an invalid process_status response".to_owned()
                },
                Asked::PrepareTree => {
                    concat2("runner returned an invalid tree response: ", shown)
                },
                Asked::UploadObject => {
                    concat2("runner returned an invalid object response: ", shown)
                },
            },
        }
    }
}

/// Whether a runner is ready.
pub fn initialize(response: RunnerResponse) -> (result: Result<(), ReplyError>)
    ensures
        result == (match response {
            RunnerResponse::Ready => Ok(()),
            _ => Err(ReplyError::Invalid { asked: Asked::Initialize }),
        }),
{
    match response {
        RunnerResponse::Ready => Ok(()),
        _ => Err(ReplyError::Invalid { asked: Asked::Initialize }),
    }
}

/// A process that was started.
#[derive(Debug, PartialEq)]
pub struct StartedProcess {
    pub handle: String,
    pub timing: Json,
}

/// The process that a runner started.
pub fn start(response: RunnerResponse) -> (result: Result<StartedProcess, ReplyError>)
    ensures
        result == (match response {
            RunnerResponse::ProcessStarted { process_handle, timing } => Ok(
                StartedProcess { handle: process_handle, timing },
            ),
            RunnerResponse::Error { message } => Err(ReplyError::Runner { message }),
            _ => Err(ReplyError::Invalid { asked: Asked::StartCommand }),
        }),
{
    match response {
        RunnerResponse::ProcessStarted { process_handle, timing } => Ok(
            StartedProcess { handle: process_handle, timing },
        ),
        RunnerResponse::Error { message } => Err(ReplyError::Runner { message }),
        _ => Err(ReplyError::Invalid { asked: Asked::StartCommand }),
    }
}

/// What came of waiting for a process.
#[derive(Debug, PartialEq)]
pub enum WaitOutcome {
    Running {
        process_handle: String,
        output: Json,
        patch_results: Vec<Json>,
        spawned_processes: Vec<SpawnedProcess>,
        timing: Json,
    },
    Finished {
        output: Json,
        exit_code: Option<i32>,
        patch_results: Vec<Json>,
        spawned_processes: Vec<SpawnedProcess>,
    },
}

/// What came of waiting for a process.
pub fn wait(response: RunnerResponse) -> (result: Result<WaitOutcome, ReplyError>)
    ensures
        result == (match response {
            RunnerResponse::ProcessRunning {
                process_handle,
                output,
                patch_results,
                spawned_processes,
                timing,
            } => Ok(
                WaitOutcome::Running {
                    process_handle,
                    output,
                    patch_results,
                    spawned_processes,
                    timing,
                },
            ),
            RunnerResponse::ProcessFinished {
                output,
                exit_code,
                patch_results,
                spawned_processes,
            } => Ok(
                WaitOutcome::Finished { output, exit_code, patch_results, spawned_processes },
            ),
            RunnerResponse::Error { message } => Err(ReplyError::Runner { message }),
            _ => Err(ReplyError::Invalid { asked: Asked::WaitProcess }),
        }),
{
    match response {
        RunnerResponse::ProcessRunning {
            process_handle,
            output,
            patch_results,
            spawned_processes,
            timing,
        } => Ok(
            WaitOutcome::Running { process_handle, output, patch_results, spawned_processes, timing },
        ),
        RunnerResponse::ProcessFinished { output, exit_code, patch_results, spawned_processes } => {
            Ok(WaitOutcome::Finished { output, exit_code, patch_results, spawned_processes })
        },
        RunnerResponse::Error { message } => Err(ReplyError::Runner { message }),
        _ => Err(ReplyError::Invalid { asked: Asked::WaitProcess }),
    }
}

/// The output of a process that was stopped.
pub fn stop(response: RunnerResponse) -> (result: Result<Json, ReplyError>)
    ensures
        result == (match response {
            RunnerResponse::ProcessStopped { output } => Ok(output),
            RunnerResponse::Error { message } => Err(ReplyError::Runner { message }),
            _ => Err(ReplyError::Invalid { asked: Asked::StopProcess }),
        }),
{
    match response {
        RunnerResponse::ProcessStopped { output } => Ok(output),
        RunnerResponse::Error { message } => Err(ReplyError::Runner { message }),
        _ => Err(ReplyError::Invalid { asked: Asked::StopProcess }),
    }
}

/// What is known of a process.
pub fn inspect(response: RunnerResponse) -> (result: Result<ProcessInspection, ReplyError>)
    ensures
        result == (match response {
            RunnerResponse::ProcessInspected { process_status, output_tail, omitted_bytes } => Ok(
                ProcessInspection { status: process_status, output_tail, omitted_bytes },
            ),
            RunnerResponse::Error { message } => Err(ReplyError::Runner { message }),
            _ => Err(ReplyError::Invalid { asked: Asked::InspectProcess }),
        }),
{
    match response {
        RunnerResponse::ProcessInspected { process_status, output_tail, omitted_bytes } => Ok(
            ProcessInspection { status: process_status, output_tail, omitted_bytes },
        ),
        RunnerResponse::Error { message } => Err(ReplyError::Runner { message }),
        _ => Err(ReplyError::Invalid { asked: Asked::InspectProcess }),
    }
}

/// The state of a process.
pub fn status(response: RunnerResponse) -> (result: Result<ProcessStatus, ReplyError>)
    ensures
        result == (match response {
            RunnerResponse::ProcessStatus { process_status } => Ok(process_status),
            RunnerResponse::Error { message } => Err(ReplyError::Runner { message }),
            _ => Err(ReplyError::Invalid { asked: Asked::ProcessStatus }),
        }),
{
    match response {
        RunnerResponse::ProcessStatus { process_status } => Ok(process_status),
        RunnerResponse::Error { message } => Err(ReplyError::Runner { message }),
        _ => Err(ReplyError::Invalid { asked: Asked::ProcessStatus }),
    }
}

/// Whether a tree is in place.
#[derive(Debug, PartialEq)]
pub enum PrepareTreeResult {
    MissingObjects(Vec<String>),
    Ready { digest: String, path: String },
}

/// Whether a tree is in place.
pub fn prepare_tree(response: RunnerResponse) -> (result: Result<PrepareTreeResult, ReplyError>)
    ensures
        result == (match response {
            RunnerResponse::MissingObjects { digests } => Ok(
                PrepareTreeResult::MissingObjects(digests),
            ),
            RunnerResponse::TreeReady { digest, path } => Ok(
                PrepareTreeResult::Ready { digest, path },
            ),
            _ => Err(ReplyError::Invalid { asked: Asked::PrepareTree }),
        }),
{
    match response {
        RunnerResponse::MissingObjects { digests } => Ok(
            PrepareTreeResult::MissingObjects(digests),
        ),
        RunnerResponse::TreeReady { digest, path } => Ok(
            PrepareTreeResult::Ready { digest, path },
        ),
        _ => Err(ReplyError::Invalid { asked: Asked::PrepareTree }),
    }
}

/// Whether an object was stored.
pub fn upload_object(response: RunnerResponse) -> (result: Result<(), ReplyError>)
    ensures
        result == (match response {
            RunnerResponse::ObjectStored => Ok(()),
            _ => Err(ReplyError::Invalid { asked: Asked::UploadObject }),
        }),
{
    match response {
        RunnerResponse::ObjectStored => Ok(()),
        _ => Err(ReplyError::Invalid { asked: Asked::UploadObject }),
    }
}

/// What a subscription to a process brought.
#[derive(Clone, Debug, PartialEq)]
pub enum ProcessSubscriptionUpdate {
    Pending,
    Inspection(ProcessInspection),
    Error(String),
    Invalid,
}

/// What an answer says to those who follow a process, and whether it is the last
/// word.
pub open spec fn followed_by(response: RunnerResponse) -> (ProcessSubscriptionUpdate, bool) {
    match response {
        RunnerResponse::ProcessInspected { process_status, output_tail, omitted_bytes } => (
            ProcessSubscriptionUpdate::Inspection(
                ProcessInspection { status: process_status, output_tail, omitted_bytes },
            ),
            process_status is Exited,
        ),
        RunnerResponse::Error { message } => (ProcessSubscriptionUpdate::Error(message), true),
        _ => (ProcessSubscriptionUpdate::Invalid, true),
    }
}

/// What an answer says to those who follow a process, and whether it is the last
/// word.
pub fn subscription_update(response: RunnerResponse) -> (result: (ProcessSubscriptionUpdate, bool))
    ensures
        result == followed_by(response),
{
    match response {
        RunnerResponse::ProcessInspected { process_status, output_tail, omitted_bytes } => {
            let terminal = matches!(process_status, ProcessStatus::Exited { exit_code: _ });
            (
                ProcessSubscriptionUpdate::Inspection(
                    ProcessInspection { status: process_status, output_tail, omitted_bytes },
                ),
                terminal,
            )
        },
        RunnerResponse::Error { message } => (ProcessSubscriptionUpdate::Error(message), true),
        _ => (ProcessSubscriptionUpdate::Invalid, true),
    }
}

/// What one who follows a process gets from an update; `None` where the runner
/// is gone.
pub fn receive(update: Option<ProcessSubscriptionUpdate>) -> (result: Result<
    ProcessInspection,
    String,
>)
    ensures
        match update {
            Some(ProcessSubscriptionUpdate::Inspection(inspection)) => result == Ok::<
                ProcessInspection,
                String,
            >(inspection),
            Some(ProcessSubscriptionUpdate::Error(message)) => result matches Err(text) && text@
                == "Runner request failed: "@ + message@,
            Some(ProcessSubscriptionUpdate::Pending) | Some(
                ProcessSubscriptionUpdate::Invalid,
            ) => result matches Err(text) && text@
                == "runner returned an invalid process subscription response"@,
            None => result matches Err(text) && text@
                == "runner disconnected during process subscription"@,
        },
{
    match update {
        Some(ProcessSubscriptionUpdate::Inspection(inspection)) => Ok(inspection),
        Some(ProcessSubscriptionUpdate::Error(message)) => Err(
            concat2("Runner request failed: ", message.as_str()),
        ),
        Some(ProcessSubscriptionUpdate::Pending) => Err(
            "runner returned an invalid process subscription response".to_owned(),
        ),
        Some(ProcessSubscriptionUpdate::Invalid) => Err(
            "runner returned an invalid process subscription response".to_owned(),
        ),
        None => Err("runner disconnected during process subscription".to_owned()),
    }
}

/// An answer is taken only where it fits what was asked, and with all that it holds.
/// What the runner says went wrong is told in its words, and any other answer is
/// refused as one to what was asked.
pub proof fn law_reply_fits_what_was_asked(
    response: RunnerResponse,
    ready: Result<(), ReplyError>,
    started: Result<StartedProcess, ReplyError>,
    waited: Result<WaitOutcome, ReplyError>,
    stopped: Result<Json, ReplyError>,
    inspected: Result<ProcessInspection, ReplyError>,
    found: Result<ProcessStatus, ReplyError>,
    tree: Result<PrepareTreeResult, ReplyError>,
    stored: Result<(), ReplyError>,
)
    requires
        call_ensures(initialize, (response,), ready),
        call_ensures(start, (response,), started),
        call_ensures(wait, (response,), waited),
        call_ensures(stop, (response,), stopped),
        call_ensures(inspect, (response,), inspected),
        call_ensures(status, (response,), found),
        call_ensures(prepare_tree, (response,), tree),
        call_ensures(upload_object, (response,), stored),
    ensures
        ready is Ok <==> response is Ready,
        started is Ok <==> response is ProcessStarted,
        waited is Ok <==> response is ProcessRunning || response is ProcessFinished,
        stopped is Ok <==> response is ProcessStopped,
        inspected is Ok <==> response is ProcessInspected,
        found is Ok <==> response is ProcessStatus,
        tree is Ok <==> response is MissingObjects || response is TreeReady,
        stored is Ok <==> response is ObjectStored,
        response matches RunnerResponse::ProcessStarted { process_handle, timing } ==> (started
            matches Ok(process) && process.handle == process_handle && process.timing == timing),
        response matches RunnerResponse::ProcessRunning {
            process_handle,
            output,
            patch_results,
            spawned_processes,
            timing,
        } ==> waited == Ok::<WaitOutcome, ReplyError>(
            WaitOutcome::Running {
                process_handle,
                output,
                patch_results,
                spawned_processes,
                timing,
            },
        ),
        response matches RunnerResponse::ProcessFinished {
            output,
            exit_code,
            patch_results,
            spawned_processes,
        } ==> waited == Ok::<WaitOutcome, ReplyError>(
            WaitOutcome::Finished { output, exit_code, patch_results, spawned_processes },
        ),
        response matches RunnerResponse::ProcessStopped { output } ==> stopped == Ok::<
            Json,
            ReplyError,
        >(output),
        response matches RunnerResponse::ProcessInspected {
            process_status,
            output_tail,
            omitted_bytes,
        } ==> (inspected matches Ok(inspection) && inspection.status == process_status
            && inspection.output_tail == output_tail && inspection.omitted_bytes == omitted_bytes),
        response matches RunnerResponse::ProcessStatus { process_status } ==> found == Ok::<
            ProcessStatus,
            ReplyError,
        >(process_status),
        response matches RunnerResponse::MissingObjects { digests } ==> tree == Ok::<
            PrepareTreeResult,
            ReplyError,
        >(PrepareTreeResult::MissingObjects(digests)),
        response matches RunnerResponse::TreeReady { digest, path } ==> tree == Ok::<
            PrepareTreeResult,
            ReplyError,
        >(PrepareTreeResult::Ready { digest, path }),
        response matches RunnerResponse::Error { message } ==> started == Err::<
            StartedProcess,
            ReplyError,
        >(ReplyError::Runner { message }) && waited == Err::<WaitOutcome, ReplyError>(
            ReplyError::Runner { message },
        ) && stopped == Err::<Json, ReplyError>(ReplyError::Runner { message }) && inspected == Err::<
            ProcessInspection,
            ReplyError,
        >(ReplyError::Runner { message }) && found == Err::<ProcessStatus, ReplyError>(
            ReplyError::Runner { message },
        ),
        ready is Err ==> ready->Err_0 == (ReplyError::Invalid { asked: Asked::Initialize }),
        tree is Err ==> tree->Err_0 == (ReplyError::Invalid { asked: Asked::PrepareTree }),
        stored is Err ==> stored->Err_0 == (ReplyError::Invalid { asked: Asked::UploadObject }),
        started is Err && !(response is Error) ==> started->Err_0 == (ReplyError::Invalid {
            asked: Asked::StartCommand,
        }),
        waited is Err && !(response is Error) ==> waited->Err_0 == (ReplyError::Invalid {
            asked: Asked::WaitProcess,
        }),
        stopped is Err && !(response is Error) ==> stopped->Err_0 == (ReplyError::Invalid {
            asked: Asked::StopProcess,
        }),
        inspected is Err && !(response is Error) ==> inspected->Err_0 == (ReplyError::Invalid {
            asked: Asked::InspectProcess,
        }),
        found is Err && !(response is Error) ==> found->Err_0 == (ReplyError::Invalid {
            asked: Asked::ProcessStatus,
        }),
{
}

/// Who follows a process is told what is known of it, and for the last time where it
/// has exited, where the runner reports an error, or where it says something else.
pub proof fn law_process_is_followed_to_its_end(
    response: RunnerResponse,
    received: Result<ProcessInspection, String>,
)
    requires
        call_ensures(receive, (Some(followed_by(response).0),), received),
    ensures
        followed_by(response).1 <==> !(response matches RunnerResponse::ProcessInspected {
            process_status,
            ..
        } && !(process_status is Exited)),
        response matches RunnerResponse::ProcessInspected {
            process_status,
            output_tail,
            omitted_bytes,
        } ==> (received matches Ok(inspection) && inspection.status == process_status
            && inspection.output_tail == output_tail && inspection.omitted_bytes == omitted_bytes),
        received is Ok <==> response is ProcessInspected,
        response matches RunnerResponse::Error { message } ==> (received matches Err(words)
            && crate::text::has_suffix(words@, message@)),
{
    if let RunnerResponse::Error { message } = response {
        let words = received->Err_0@;
        assert(words.skip(words.len() - message@.len()) =~= message@);
    }
}

} // verus!
