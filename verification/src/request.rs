//! The requests that are answered in one message, those that start a turn, and
//! the one that ends everything.
use crate::event::ApprovalPolicy;
use vstd::prelude::*;
use vstd::std_specs::convert::FromSpecImpl;

verus! {

/// A request as a client sends it.
#[allow(inconsistent_fields)]
#[derive(Debug, PartialEq)]
pub enum ControllerRequest {
    Status,
    Shutdown,
    ThreadCreate { display_name: Option<String> },
    ThreadList,
    ModelList,
    ThreadRename { thread_id: i64, display_name: String },
    ThreadSetModel { thread_id: i64, model: String, reasoning_effort: String },
    ThreadSend { thread_id: i64, message: String },
    ThreadEvents { thread_id: i64 },
    ThreadCheckpointCreate { thread_id: i64 },
    ThreadCheckpointList { thread_id: i64 },
    ThreadCheckpointEvents { checkpoint_id: i64 },
    ThreadCheckpointRestore { thread_id: i64, checkpoint_id: i64 },
    ThreadFork {
        thread_id: i64,
        checkpoint_id: Option<i64>,
        sequence: i64,
        display_name: Option<String>,
    },
    ThreadRewind { thread_id: i64, checkpoint_id: Option<i64>, sequence: i64 },
    ThreadContinue { thread_id: i64 },
    ThreadCancel { thread_id: i64 },
    ThreadProcessList { thread_id: i64 },
    ThreadProcessInspect { thread_id: i64, runner: String, process_id: String },
    ThreadProcessStop { thread_id: i64, runner: String, process_id: String },
    CodexLogin,
    CodexLogout,
    CodexLoginStatus,
    ApprovalAllow { approval_id: u64 },
    ApprovalDeny { approval_id: u64, reason: Option<String> },
    RunnerList,
    RunnerLaunch {
        name: String,
        description: String,
        approval: ApprovalPolicy,
        command: Vec<String>,
    },
    ExecCommand { runner: String, command: String, mode: String },
    WaitProcess { runner: String, process_handle: String, timeout_ms: u64 },
    StopProcess { runner: String, process_handle: String },
}

/// A request by how it is answered.
#[derive(Debug, PartialEq)]
pub enum Request {
    Turn(TurnRequest),
    Unary(UnaryRequest),
    Shutdown,
}

/// A request that starts a turn.
#[derive(Debug, PartialEq)]
pub enum TurnRequest {
    Send { thread_id: i64, message: String },
    Continue { thread_id: i64 },
}

/// A request that one message answers.
#[allow(inconsistent_fields)]
#[derive(Debug, PartialEq)]
pub enum UnaryRequest {
    Status,
    ThreadCreate { display_name: Option<String> },
    ThreadList,
    ModelList,
    ThreadRename { thread_id: i64, display_name: String },
    ThreadSetModel { thread_id: i64, model: String, reasoning_effort: String },
    ThreadEvents { thread_id: i64 },
    ThreadCheckpointCreate { thread_id: i64 },
    ThreadCheckpointList { thread_id: i64 },
    ThreadCheckpointEvents { checkpoint_id: i64 },
    ThreadCheckpointRestore { thread_id: i64, checkpoint_id: i64 },
    ThreadFork {
        thread_id: i64,
        checkpoint_id: Option<i64>,
        sequence: i64,
        display_name: Option<String>,
    },
    ThreadRewind { thread_id: i64, checkpoint_id: Option<i64>, sequence: i64 },
    ThreadCancel { thread_id: i64 },
    ThreadProcessList { thread_id: i64 },
    ThreadProcessInspect { thread_id: i64, runner: String, process_id: String },
    ThreadProcessStop { thread_id: i64, runner: String, process_id: String },
    CodexLogin,
    CodexLogout,
    CodexLoginStatus,
    ApprovalAllow { approval_id: u64 },
    ApprovalDeny { approval_id: u64, reason: Option<String> },
    RunnerList,
    RunnerLaunch {
        name: String,
        description: String,
        approval: ApprovalPolicy,
        command: Vec<String>,
    },
    ExecCommand { runner: String, command: String, mode: String },
    WaitProcess { runner: String, process_handle: String, timeout_ms: u64 },
    StopProcess { runner: String, process_handle: String },
}

/// What a request asks for, by how it is answered.
pub open spec fn classified(request: ControllerRequest) -> Request {
    match request {
        ControllerRequest::Shutdown => Request::Shutdown,
        ControllerRequest::ThreadSend { thread_id, message } => Request::Turn(
            TurnRequest::Send { thread_id, message },
        ),
        ControllerRequest::ThreadContinue { thread_id } => Request::Turn(
            TurnRequest::Continue { thread_id },
        ),
        ControllerRequest::Status => Request::Unary(UnaryRequest::Status),
        ControllerRequest::ThreadCreate { display_name } => Request::Unary(
            UnaryRequest::ThreadCreate { display_name },
        ),
        ControllerRequest::ThreadList => Request::Unary(UnaryRequest::ThreadList),
        ControllerRequest::ModelList => Request::Unary(UnaryRequest::ModelList),
        ControllerRequest::ThreadRename { thread_id, display_name } => Request::Unary(
            UnaryRequest::ThreadRename { thread_id, display_name },
        ),
        ControllerRequest::ThreadSetModel { thread_id, model, reasoning_effort } => Request::Unary(
            UnaryRequest::ThreadSetModel { thread_id, model, reasoning_effort },
        ),
        ControllerRequest::ThreadEvents { thread_id } => Request::Unary(
            UnaryRequest::ThreadEvents { thread_id },
        ),
        ControllerRequest::ThreadCheckpointCreate { thread_id } => Request::Unary(
            UnaryRequest::ThreadCheckpointCreate { thread_id },
        ),
        ControllerRequest::ThreadCheckpointList { thread_id } => Request::Unary(
            UnaryRequest::ThreadCheckpointList { thread_id },
        ),
        ControllerRequest::ThreadCheckpointEvents { checkpoint_id } => Request::Unary(
            UnaryRequest::ThreadCheckpointEvents { checkpoint_id },
        ),
        ControllerRequest::ThreadCheckpointRestore { thread_id, checkpoint_id } => Request::Unary(
            UnaryRequest::ThreadCheckpointRestore { thread_id, checkpoint_id },
        ),
        ControllerRequest::ThreadFork { thread_id, checkpoint_id, sequence, display_name } => {
            Request::Unary(
                UnaryRequest::ThreadFork { thread_id, checkpoint_id, sequence, display_name },
            )
        },
        ControllerRequest::ThreadRewind { thread_id, checkpoint_id, sequence } => Request::Unary(
            UnaryRequest::ThreadRewind { thread_id, checkpoint_id, sequence },
        ),
        ControllerRequest::ThreadCancel { thread_id } => Request::Unary(
            UnaryRequest::ThreadCancel { thread_id },
        ),
        ControllerRequest::ThreadProcessList { thread_id } => Request::Unary(
            UnaryRequest::ThreadProcessList { thread_id },
        ),
        ControllerRequest::ThreadProcessInspect { thread_id, runner, process_id } => Request::Unary(
            UnaryRequest::ThreadProcessInspect { thread_id, runner, process_id },
        ),
        ControllerRequest::ThreadProcessStop { thread_id, runner, process_id } => Request::Unary(
            UnaryRequest::ThreadProcessStop { thread_id, runner, process_id },
        ),
        ControllerRequest::CodexLogin => Request::Unary(UnaryRequest::CodexLogin),
        ControllerRequest::CodexLogout => Request::Unary(UnaryRequest::CodexLogout),
        ControllerRequest::CodexLoginStatus => Request::Unary(UnaryRequest::CodexLoginStatus),
        ControllerRequest::ApprovalAllow { approval_id } => Request::Unary(
            UnaryRequest::ApprovalAllow { approval_id },
        ),
        ControllerRequest::ApprovalDeny { approval_id, reason } => Request::Unary(
            UnaryRequest::ApprovalDeny { approval_id, reason },
        ),
        ControllerRequest::RunnerList => Request::Unary(UnaryRequest::RunnerList),
        ControllerRequest::RunnerLaunch { name, description, approval, command } => Request::Unary(
            UnaryRequest::RunnerLaunch { name, description, approval, command },
        ),
        ControllerRequest::ExecCommand { runner, command, mode } => Request::Unary(
            UnaryRequest::ExecCommand { runner, command, mode },
        ),
        ControllerRequest::WaitProcess { runner, process_handle, timeout_ms } => Request::Unary(
            UnaryRequest::WaitProcess { runner, process_handle, timeout_ms },
        ),
        ControllerRequest::StopProcess { runner, process_handle } => Request::Unary(
            UnaryRequest::StopProcess { runner, process_handle },
        ),
    }
}

impl FromSpecImpl<ControllerRequest> for Request {
    open spec fn obeys_from_spec() -> bool {
        true
    }

    open spec fn from_spec(request: ControllerRequest) -> Self {
        classified(request)
    }
}

impl From<ControllerRequest> for Request {
    fn from(request: ControllerRequest) -> (classified: Self) {
        match request {
            ControllerRequest::Shutdown => Request::Shutdown,
            ControllerRequest::ThreadSend { thread_id, message } => {
                Request::Turn(TurnRequest::Send { thread_id, message })
            },
            ControllerRequest::ThreadContinue { thread_id } => {
                Request::Turn(TurnRequest::Continue { thread_id })
            },
            ControllerRequest::Status => Request::Unary(UnaryRequest::Status),
            ControllerRequest::ThreadCreate { display_name } => {
                Request::Unary(UnaryRequest::ThreadCreate { display_name })
            },
            ControllerRequest::ThreadList => Request::Unary(UnaryRequest::ThreadList),
            ControllerRequest::ModelList => Request::Unary(UnaryRequest::ModelList),
            ControllerRequest::ThreadRename { thread_id, display_name } => {
                Request::Unary(UnaryRequest::ThreadRename { thread_id, display_name })
            },
            ControllerRequest::ThreadSetModel { thread_id, model, reasoning_effort } => {
                Request::Unary(UnaryRequest::ThreadSetModel { thread_id, model, reasoning_effort })
            },
            ControllerRequest::ThreadEvents { thread_id } => {
                Request::Unary(UnaryRequest::ThreadEvents { thread_id })
            },
            ControllerRequest::ThreadCheckpointCreate { thread_id } => {
                Request::Unary(UnaryRequest::ThreadCheckpointCreate { thread_id })
            },
            ControllerRequest::ThreadCheckpointList { thread_id } => {
                Request::Unary(UnaryRequest::ThreadCheckpointList { thread_id })
            },
            ControllerRequest::ThreadCheckpointEvents { checkpoint_id } => {
                Request::Unary(UnaryRequest::ThreadCheckpointEvents { checkpoint_id })
            },
            ControllerRequest::ThreadCheckpointRestore { thread_id, checkpoint_id } => {
                Request::Unary(UnaryRequest::ThreadCheckpointRestore { thread_id, checkpoint_id })
            },
            ControllerRequest::ThreadFork { thread_id, checkpoint_id, sequence, display_name } => {
                Request::Unary(
                    UnaryRequest::ThreadFork { thread_id, checkpoint_id, sequence, display_name },
                )
            },
            ControllerRequest::ThreadRewind { thread_id, checkpoint_id, sequence } => {
                Request::Unary(UnaryRequest::ThreadRewind { thread_id, checkpoint_id, sequence })
            },
            ControllerRequest::ThreadCancel { thread_id } => {
                Request::Unary(UnaryRequest::ThreadCancel { thread_id })
            },
            ControllerRequest::ThreadProcessList { thread_id } => {
                Request::Unary(UnaryRequest::ThreadProcessList { thread_id })
            },
            ControllerRequest::ThreadProcessInspect { thread_id, runner, process_id } => {
                Request::Unary(UnaryRequest::ThreadProcessInspect { thread_id, runner, process_id })
            },
            ControllerRequest::ThreadProcessStop { thread_id, runner, process_id } => {
                Request::Unary(UnaryRequest::ThreadProcessStop { thread_id, runner, process_id })
            },
            ControllerRequest::CodexLogin => Request::Unary(UnaryRequest::CodexLogin),
            ControllerRequest::CodexLogout => Request::Unary(UnaryRequest::CodexLogout),
            ControllerRequest::CodexLoginStatus => Request::Unary(UnaryRequest::CodexLoginStatus),
            ControllerRequest::ApprovalAllow { approval_id } => {
                Request::Unary(UnaryRequest::ApprovalAllow { approval_id })
            },
            ControllerRequest::ApprovalDeny { approval_id, reason } => {
                Request::Unary(UnaryRequest::ApprovalDeny { approval_id, reason })
            },
            ControllerRequest::RunnerList => Request::Unary(UnaryRequest::RunnerList),
            ControllerRequest::RunnerLaunch { name, description, approval, command } => {
                Request::Unary(UnaryRequest::RunnerLaunch { name, description, approval, command })
            },
            ControllerRequest::ExecCommand { runner, command, mode } => {
                Request::Unary(UnaryRequest::ExecCommand { runner, command, mode })
            },
            ControllerRequest::WaitProcess { runner, process_handle, timeout_ms } => {
                Request::Unary(UnaryRequest::WaitProcess { runner, process_handle, timeout_ms })
            },
            ControllerRequest::StopProcess { runner, process_handle } => {
                Request::Unary(UnaryRequest::StopProcess { runner, process_handle })
            },
        }
    }
}

/// What kind a request is: a message or a continuation makes a turn, one ends the
/// controller, and every other is answered at once. Nothing of a request is lost, so
/// that two requests are never taken for one another.
pub proof fn law_request_keeps_what_it_says(request: ControllerRequest, other: ControllerRequest)
    ensures
        classified(request) is Shutdown <==> request is Shutdown,
        classified(request) is Turn <==> request is ThreadSend || request is ThreadContinue,
        request matches ControllerRequest::ThreadSend { thread_id, message } ==> classified(request)
            == Request::Turn(TurnRequest::Send { thread_id, message }),
        request matches ControllerRequest::ThreadContinue { thread_id } ==> classified(request)
            == Request::Turn(TurnRequest::Continue { thread_id }),
        classified(request) == classified(other) ==> request == other,
        classified(request) matches Request::Unary(unary) ==> {
            &&& unary is Status <==> request is Status
            &&& unary is ThreadCreate <==> request is ThreadCreate
            &&& unary is ThreadList <==> request is ThreadList
            &&& unary is ModelList <==> request is ModelList
            &&& unary is ThreadRename <==> request is ThreadRename
            &&& unary is ThreadSetModel <==> request is ThreadSetModel
            &&& unary is ThreadEvents <==> request is ThreadEvents
            &&& unary is ThreadCheckpointCreate <==> request is ThreadCheckpointCreate
            &&& unary is ThreadCheckpointList <==> request is ThreadCheckpointList
            &&& unary is ThreadCheckpointEvents <==> request is ThreadCheckpointEvents
            &&& unary is ThreadCheckpointRestore <==> request is ThreadCheckpointRestore
            &&& unary is ThreadFork <==> request is ThreadFork
            &&& unary is ThreadRewind <==> request is ThreadRewind
            &&& unary is ThreadCancel <==> request is ThreadCancel
            &&& unary is ThreadProcessList <==> request is ThreadProcessList
            &&& unary is ThreadProcessInspect <==> request is ThreadProcessInspect
            &&& unary is ThreadProcessStop <==> request is ThreadProcessStop
            &&& unary is CodexLogin <==> request is CodexLogin
            &&& unary is CodexLogout <==> request is CodexLogout
            &&& unary is CodexLoginStatus <==> request is CodexLoginStatus
            &&& unary is ApprovalAllow <==> request is ApprovalAllow
            &&& unary is ApprovalDeny <==> request is ApprovalDeny
            &&& unary is RunnerList <==> request is RunnerList
            &&& unary is RunnerLaunch <==> request is RunnerLaunch
            &&& unary is ExecCommand <==> request is ExecCommand
            &&& unary is WaitProcess <==> request is WaitProcess
            &&& unary is StopProcess <==> request is StopProcess
        },
{
}

/// A request that is answered at once is about what it was about: the thread, the
/// checkpoint, the process, the approval or the runner that it names.
pub proof fn law_request_is_about_the_same(request: ControllerRequest)
    ensures
        request matches ControllerRequest::ThreadRename { thread_id: id, display_name: name } ==> (
        classified(request) matches Request::Unary(
            UnaryRequest::ThreadRename { thread_id, display_name },
        ) && thread_id == id && display_name == name),
        request matches ControllerRequest::ThreadSetModel {
            thread_id: id,
            model: to,
            reasoning_effort: effort,
        } ==> (classified(request) matches Request::Unary(
            UnaryRequest::ThreadSetModel { thread_id, model, reasoning_effort },
        ) && thread_id == id && model == to && reasoning_effort == effort),
        request matches ControllerRequest::ThreadCheckpointRestore {
            thread_id: id,
            checkpoint_id: at,
        } ==> (classified(request) matches Request::Unary(
            UnaryRequest::ThreadCheckpointRestore { thread_id, checkpoint_id },
        ) && thread_id == id && checkpoint_id == at),
        request matches ControllerRequest::ThreadFork {
            thread_id: id,
            checkpoint_id: at,
            sequence: number,
            display_name: name,
        } ==> (classified(request) matches Request::Unary(
            UnaryRequest::ThreadFork { thread_id, checkpoint_id, sequence, display_name },
        ) && thread_id == id && checkpoint_id == at && sequence == number && display_name == name),
        request matches ControllerRequest::ThreadRewind {
            thread_id: id,
            checkpoint_id: at,
            sequence: number,
        } ==> (classified(request) matches Request::Unary(
            UnaryRequest::ThreadRewind { thread_id, checkpoint_id, sequence },
        ) && thread_id == id && checkpoint_id == at && sequence == number),
        request matches ControllerRequest::ThreadProcessInspect {
            thread_id: id,
            runner: on,
            process_id: process,
        } ==> (classified(request) matches Request::Unary(
            UnaryRequest::ThreadProcessInspect { thread_id, runner, process_id },
        ) && thread_id == id && runner == on && process_id == process),
        request matches ControllerRequest::ThreadProcessStop {
            thread_id: id,
            runner: on,
            process_id: process,
        } ==> (classified(request) matches Request::Unary(
            UnaryRequest::ThreadProcessStop { thread_id, runner, process_id },
        ) && thread_id == id && runner == on && process_id == process),
        request matches ControllerRequest::ApprovalAllow { approval_id: id } ==> (classified(
            request,
        ) matches Request::Unary(UnaryRequest::ApprovalAllow { approval_id }) && approval_id == id),
        request matches ControllerRequest::ApprovalDeny { approval_id: id, reason: why } ==> (
        classified(request) matches Request::Unary(
            UnaryRequest::ApprovalDeny { approval_id, reason },
        ) && approval_id == id && reason == why),
        request matches ControllerRequest::RunnerLaunch {
            name: to,
            description: about,
            approval: policy,
            command: words,
        } ==> (classified(request) matches Request::Unary(
            UnaryRequest::RunnerLaunch { name, description, approval, command },
        ) && name == to && description == about && approval == policy && command == words),
        request matches ControllerRequest::ExecCommand {
            runner: on,
            command: words,
            mode: how,
        } ==> (classified(request) matches Request::Unary(
            UnaryRequest::ExecCommand { runner, command, mode },
        ) && runner == on && command == words && mode == how),
        request matches ControllerRequest::WaitProcess {
            runner: on,
            process_handle: handle,
            timeout_ms: time,
        } ==> (classified(request) matches Request::Unary(
            UnaryRequest::WaitProcess { runner, process_handle, timeout_ms },
        ) && runner == on && process_handle == handle && timeout_ms == time),
        request matches ControllerRequest::StopProcess { runner: on, process_handle: handle } ==> (
        classified(request) matches Request::Unary(
            UnaryRequest::StopProcess { runner, process_handle },
        ) && runner == on && process_handle == handle),
{
}

} // verus!
