//! What the user is shown.
use crate::commands::Answer;
use crate::controller::{ProcessStatus, ProviderLifecycle};
use crate::event::{AssistantMessagePhase, Event, ThreadEventData, TurnOutcome};
use crate::json::{printed, Json};
use crate::provider::api_key_auth::CredentialSource;
use crate::provider::{Model, ModelToolBinding, ModelView};
use crate::text::{
    concat2, concat3, concat4, concat5, decimal, decimal_text, join, joined, views,
};
use vstd::prelude::*;

verus! {

/// A thread in a list.
pub fn thread_row(id: i64, display_name: &Option<String>) -> (row: String)
    ensures
        row@ == decimal(id as int) + "\t"@ + (match *display_name {
            Some(name) => name@,
            None => ""@,
        }),
{
    let name = match display_name {
        Some(name) => name.as_str(),
        None => "",
    };
    concat3(decimal_text(id as i128).as_str(), "\t", name)
}

/// A checkpoint in a list.
pub fn checkpoint_row(id: i64, created_at_ms: i64, reason: &str) -> (row: String)
    ensures
        row@ == decimal(id as int) + "\t"@ + decimal(created_at_ms as int) + "\t"@ + reason@,
{
    concat5(
        decimal_text(id as i128).as_str(),
        "\t",
        decimal_text(created_at_ms as i128).as_str(),
        "\t",
        reason,
    )
}

/// A runner in a list.
pub fn runner_row(name: &str, description: &str, lifecycle: &str) -> (row: String)
    ensures
        row@ == name@ + "\t"@ + description@ + "\t"@ + lifecycle@,
{
    concat5(name, "\t", description, "\t", lifecycle)
}

/// The first `count` bindings of a model, as they are listed.
pub open spec fn binding_words(bindings: Seq<(Seq<char>, Seq<char>)>) -> Seq<Seq<char>> {
    Seq::new(bindings.len(), |i: int| bindings[i].0 + "="@ + bindings[i].1)
}

/// A model in a list.
pub open spec fn model_words(model: ModelView) -> Seq<char> {
    "  "@ + model.id + "\t"@ + model.display_name + "\treasoning=["@ + joined(
        model.supported_reasoning_efforts,
        ","@,
    ) + "]\ttools=["@ + joined(binding_words(model.tool_bindings), ","@) + "]\tcontext="@ + (
    match model.context_window {
        Some(tokens) => decimal(tokens as int),
        None => "unknown"@,
    })
}

fn binding_list(bindings: &Vec<ModelToolBinding>) -> (list: Vec<String>)
    ensures
        views(list@) == binding_words(crate::provider::binding_views(bindings@)),
{
    let ghost all = binding_words(crate::provider::binding_views(bindings@));
    let mut list: Vec<String> = Vec::new();
    let mut i: usize = 0;
    assert(views(list@) =~= all.take(0));
    while i < bindings.len()
        invariant
            i <= bindings.len(),
            all == binding_words(crate::provider::binding_views(bindings@)),
            views(list@) == all.take(i as int),
        decreases bindings.len() - i,
    {
        let ghost before = views(list@);
        let text = concat3(bindings[i].tool.as_str(), "=", bindings[i].implementation.as_str());
        list.push(text);
        assert(views(list@) =~= before.push(text@));
        assert(all.take(i + 1) =~= all.take(i as int).push(all[i as int]));
        i += 1;
    }
    assert(all.take(i as int) =~= all);
    list
}

/// A model in a list.
pub fn model_row(model: &Model) -> (row: String)
    ensures
        row@ == model_words(model@),
{
    let efforts = join(&model.supported_reasoning_efforts, ",");
    let tools = join(&binding_list(&model.tool_bindings), ",");
    let context = match model.context_window {
        Some(tokens) => decimal_text(tokens as i128),
        None => "unknown".to_owned(),
    };
    let mut row = concat4("  ", model.id.as_str(), "\t", model.display_name.as_str());
    row.push_str("\treasoning=[");
    row.push_str(efforts.as_str());
    row.push_str("]\ttools=[");
    row.push_str(tools.as_str());
    row.push_str("]\tcontext=");
    row.push_str(context.as_str());
    row
}

/// A provider in a list: its words for the way to log in, its state and the
/// source of its login are given.
pub fn provider_row(id: &str, auth: &str, status: &str, source: &str, models: usize) -> (row: String)
    ensures
        row@ == id@ + "\tauth="@ + auth@ + "\tstatus="@ + status@ + "\tsource="@ + source@
            + "\tmodels="@ + decimal(models as int),
{
    let mut row = concat5(id, "\tauth=", auth, "\tstatus=", status);
    row.push_str("\tsource=");
    row.push_str(source);
    row.push_str("\tmodels=");
    row.push_str(decimal_text(models as i128).as_str());
    row
}

/// The approval that is to be shown: the one that is asked for, where it is not
/// shown yet.
pub fn approval_to_show(pending: Option<u64>, displayed: Option<u64>) -> (shown: Option<u64>)
    ensures
        shown == (if pending is Some && pending != displayed {
            pending
        } else {
            None
        }),
{
    match (pending, displayed) {
        (Some(id), Some(other)) => if id == other {
            None
        } else {
            Some(id)
        },
        (Some(id), None) => Some(id),
        (None, _) => None,
    }
}

/// What is shown of an approval that is asked for.
pub fn approval_lines(id: u64, tool: &str, arguments: &Json) -> (lines: Vec<String>)
    ensures
        views(lines@) == seq![
            decimal(id as int),
            "tool: "@ + tool@,
            "arguments: "@ + printed(arguments@),
        ],
{
    let lines = vec![
        decimal_text(id as i128),
        concat2("tool: ", tool),
        concat2("arguments: ", arguments.to_text().as_str()),
    ];
    assert(views(lines@) =~= seq![
        decimal(id as int),
        "tool: "@ + tool@,
        "arguments: "@ + printed(arguments@),
    ]);
    lines
}

/// The latest final answer among the first `count` events.
pub open spec fn final_answer(events: Seq<Event>, count: nat) -> Option<Seq<char>>
    decreases count,
{
    if count == 0 {
        None
    } else {
        match events[count - 1].data {
            ThreadEventData::AssistantMessage {
                content,
                phase: AssistantMessagePhase::FinalAnswer,
            } => Some(content@),
            _ => final_answer(events, (count - 1) as nat),
        }
    }
}

fn find_answer(events: &Vec<Event>) -> (answer: Option<String>)
    ensures
        match answer {
            Some(text) => final_answer(events@, events@.len()) == Some(text@),
            None => final_answer(events@, events@.len()) is None,
        },
{
    let mut i: usize = events.len();
    while i > 0
        invariant
            i <= events.len(),
            final_answer(events@, events@.len()) == final_answer(events@, i as nat),
        decreases i,
    {
        match &events[i - 1].data {
            ThreadEventData::AssistantMessage {
                content,
                phase: AssistantMessagePhase::FinalAnswer,
            } => {
                return Some(content.clone());
            },
            _ => {},
        }
        i -= 1;
    }
    None
}

/// What is shown at the end of a turn, or the error that it ended with.
pub fn display_turn_outcome(events: &Vec<Event>, outcome: &TurnOutcome, compacting: bool) -> (result:
    Result<Option<String>, String>)
    ensures
        match *outcome {
            TurnOutcome::Cancelled => result matches Ok(Some(text)) && text@ == "cancelled"@,
            TurnOutcome::Completed => if compacting {
                result matches Ok(Some(text)) && text@ == "compacted"@
            } else {
                match final_answer(events@, events@.len()) {
                    Some(content) => result matches Ok(Some(text)) && text@ == content,
                    None => result matches Ok(None),
                }
            },
            TurnOutcome::Failed { message } => result matches Err(text) && text@ == message@,
        },
{
    match outcome {
        TurnOutcome::Cancelled => Ok(Some("cancelled".to_owned())),
        TurnOutcome::Completed => if compacting {
            Ok(Some("compacted".to_owned()))
        } else {
            Ok(find_answer(events))
        },
        TurnOutcome::Failed { message } => Err(message.clone()),
    }
}

/// Whether a process that is no longer waited for ended well, or the error.
pub fn process_result(status: &ProcessStatus) -> (result: Result<(), String>)
    ensures
        match *status {
            ProcessStatus::Running => result is Ok,
            ProcessStatus::Exited { exit_code: Some(code) } => if code == 0 {
                result is Ok
            } else {
                result matches Err(text) && text@ == "command exited with status "@ + decimal(
                    code as int,
                )
            },
            ProcessStatus::Exited { exit_code: None } => result matches Err(text) && text@
                == "command exited with a signal"@,
            ProcessStatus::Unavailable { message } => result matches Err(text) && text@
                == message@,
        },
{
    match status {
        ProcessStatus::Running => Ok(()),
        ProcessStatus::Exited { exit_code } => match exit_code {
            Some(code) => if *code == 0 {
                Ok(())
            } else {
                Err(
                    concat2("command exited with status ", decimal_text(*code as i128).as_str()),
                )
            },
            None => Err("command exited with a signal".to_owned()),
        },
        ProcessStatus::Unavailable { message } => Err(message.clone()),
    }
}

/// What is told of a process that outlasts the wait.
pub fn still_running(process_id: &str) -> (text: String)
    ensures
        text@ == "process \""@ + process_id@ + "\" is still running"@,
{
    concat3("process \"", process_id, "\" is still running")
}

/// Whether a command was accepted; the words of another result are given.
pub fn expect_accepted(answer: Answer, words: &str) -> (result: Result<(), String>)
    ensures
        if answer == Answer::Accepted {
            result is Ok
        } else {
            result matches Err(text) && text@ == "unexpected command result: "@ + words@
        },
{
    match answer {
        Answer::Accepted => Ok(()),
        _ => Err(concat2("unexpected command result: ", words)),
    }
}

/// The words of the source of a login.
pub open spec fn source_words(source: CredentialSource) -> Seq<char> {
    match source {
        CredentialSource::Environment => "Environment"@,
        CredentialSource::File => "File"@,
    }
}

/// What is told of the state of a provider; the words of a state beside login and
/// logout are given.
pub fn provider_status(
    provider: &str,
    lifecycle: &ProviderLifecycle,
    source: Option<CredentialSource>,
    words: &str,
) -> (text: String)
    ensures
        text@ == (match *lifecycle {
            ProviderLifecycle::LoggedIn { account } => provider@ + ": logged in"@ + (
            match account {
                Some(account) => " as "@ + account@,
                None => ""@,
            }) + (match source {
                Some(source) => " ("@ + source_words(source) + ")"@,
                None => ""@,
            }),
            ProviderLifecycle::LoggedOut => provider@ + ": logged out"@,
            ProviderLifecycle::LoginRequired => provider@ + ": logged out"@,
            _ => provider@ + ": "@ + words@,
        }),
{
    match lifecycle {
        ProviderLifecycle::LoggedIn { account } => {
            let account = match account {
                Some(account) => concat2(" as ", account.as_str()),
                None => "".to_owned(),
            };
            let source = match source {
                Some(CredentialSource::Environment) => concat3(" (", "Environment", ")"),
                Some(CredentialSource::File) => concat3(" (", "File", ")"),
                None => "".to_owned(),
            };
            concat4(provider, ": logged in", account.as_str(), source.as_str())
        },
        ProviderLifecycle::LoggedOut => concat2(provider, ": logged out"),
        ProviderLifecycle::LoginRequired => concat2(provider, ": logged out"),
        _ => concat3(provider, ": ", words),
    }
}

/// Whether a provider is done with what it was asked.
pub open spec fn settled(lifecycle: ProviderLifecycle) -> bool {
    !(lifecycle is LoggingIn || lifecycle is LoggingOut || lifecycle is Refreshing)
}

/// Whether a provider is done with what it was asked.
pub fn is_settled(lifecycle: &ProviderLifecycle) -> (result: bool)
    ensures
        result == settled(*lifecycle),
{
    match lifecycle {
        ProviderLifecycle::LoggingIn => false,
        ProviderLifecycle::LoggingOut => false,
        ProviderLifecycle::Refreshing => false,
        _ => true,
    }
}

/// What is told after a login; the words of the state are given.
pub fn login_ended(provider: &str, lifecycle: &ProviderLifecycle, words: &str) -> (result: Result<
    String,
    String,
>)
    ensures
        match *lifecycle {
            ProviderLifecycle::LoggedIn { .. } => result matches Ok(text) && text@
                == "logged in to "@ + provider@,
            _ => result matches Err(text) && text@ == provider@ + " login ended in state "@
                + words@,
        },
{
    match lifecycle {
        ProviderLifecycle::LoggedIn { .. } => Ok(concat2("logged in to ", provider)),
        _ => Err(concat3(provider, " login ended in state ", words)),
    }
}

/// What is told after a logout; the words of the state are given.
pub fn logout_ended(provider: &str, lifecycle: &ProviderLifecycle, words: &str) -> (result: Result<
    String,
    String,
>)
    ensures
        match *lifecycle {
            ProviderLifecycle::LoggedOut => result matches Ok(text) && text@ == "logged out of "@
                + provider@,
            ProviderLifecycle::LoginRequired => result matches Ok(text) && text@
                == "logged out of "@ + provider@,
            ProviderLifecycle::LoggedIn { .. } => result matches Ok(text) && text@ == provider@
                + ": file credential removed; environment credential remains active"@,
            _ => result matches Err(text) && text@ == provider@ + " logout ended in state "@
                + words@,
        },
{
    match lifecycle {
        ProviderLifecycle::LoggedOut => Ok(concat2("logged out of ", provider)),
        ProviderLifecycle::LoginRequired => Ok(concat2("logged out of ", provider)),
        ProviderLifecycle::LoggedIn { .. } => Ok(
            concat2(
                provider,
                ": file credential removed; environment credential remains active",
            ),
        ),
        _ => Err(concat3(provider, " logout ended in state ", words)),
    }
}

/// How a runner does.
#[derive(Debug, PartialEq)]
pub enum RunnerLifecycle {
    Launching,
    Running,
    Failed { message: String },
}

/// Whether a runner that was launched is up; `None` where it is still waited for.
pub fn launch_progress(name: &str, lifecycle: &Option<RunnerLifecycle>) -> (result: Option<
    Result<(), String>,
>)
    ensures
        match *lifecycle {
            Some(RunnerLifecycle::Launching) => result is None,
            Some(RunnerLifecycle::Running) => result matches Some(Ok(_)),
            Some(RunnerLifecycle::Failed { message }) => result matches Some(Err(text)) && text@
                == message@,
            None => result matches Some(Err(text)) && text@ == "Runner "@ + name@
                + " is not available"@,
        },
{
    match lifecycle {
        Some(RunnerLifecycle::Launching) => None,
        Some(RunnerLifecycle::Running) => Some(Ok(())),
        Some(RunnerLifecycle::Failed { message }) => Some(Err(message.clone())),
        None => Some(Err(concat3("Runner ", name, " is not available"))),
    }
}

/// What a turn came to is shown: the last final answer where it ended well, that it
/// was compacted or cancelled, and as an error why it failed.
pub proof fn law_turn_is_shown_by_its_final_answer(
    events: Vec<Event>,
    outcome: TurnOutcome,
    compacting: bool,
    result: Result<Option<String>, String>,
    i: int,
)
    requires
        call_ensures(display_turn_outcome, (&events, &outcome, compacting), result),
        0 <= i < events@.len(),
        events@[i].data matches ThreadEventData::AssistantMessage { phase, .. } && phase
            is FinalAnswer,
        forall|j: int|
            i < j < events@.len() ==> !((#[trigger] events@[j]).data
                matches ThreadEventData::AssistantMessage { phase, .. } && phase is FinalAnswer),
    ensures
        result is Err <==> outcome is Failed,
        outcome matches TurnOutcome::Failed { message } ==> result->Err_0@ == message@,
        outcome is Cancelled ==> (result matches Ok(Some(text)) && text@ == "cancelled"@),
        outcome is Completed && compacting ==> (result matches Ok(Some(text)) && text@
            == "compacted"@),
        outcome is Completed && !compacting ==> (result matches Ok(Some(text)) && text@
            == events@[i].data->AssistantMessage_content@),
{
    lemma_final_answer(events@, events@.len(), i);
}

proof fn lemma_final_answer(events: Seq<Event>, count: nat, i: int)
    requires
        0 <= i < count <= events.len(),
        events[i].data matches ThreadEventData::AssistantMessage { phase, .. } && phase
            is FinalAnswer,
        forall|j: int|
            i < j < count ==> !((#[trigger] events[j]).data
                matches ThreadEventData::AssistantMessage { phase, .. } && phase is FinalAnswer),
    ensures
        final_answer(events, count) == Some(events[i].data->AssistantMessage_content@),
    decreases count,
{
    if i < count - 1 {
        assert(!(events[count - 1].data matches ThreadEventData::AssistantMessage { phase, .. }
            && phase is FinalAnswer));
        lemma_final_answer(events, (count - 1) as nat, i);
    }
}

/// Where there is no final answer, a turn that ended well shows nothing.
pub proof fn law_turn_without_an_answer_shows_nothing(
    events: Vec<Event>,
    result: Result<Option<String>, String>,
)
    requires
        call_ensures(display_turn_outcome, (&events, &TurnOutcome::Completed, false), result),
        forall|j: int|
            0 <= j < events@.len() ==> !((#[trigger] events@[j]).data
                matches ThreadEventData::AssistantMessage { phase, .. } && phase is FinalAnswer),
    ensures
        result == Ok::<Option<String>, String>(None),
{
    lemma_no_final_answer(events@, events@.len());
}

proof fn lemma_no_final_answer(events: Seq<Event>, count: nat)
    requires
        count <= events.len(),
        forall|j: int|
            0 <= j < count ==> !((#[trigger] events[j]).data
                matches ThreadEventData::AssistantMessage { phase, .. } && phase is FinalAnswer),
    ensures
        final_answer(events, count) is None,
    decreases count,
{
    if count > 0 {
        assert(!(events[count - 1].data matches ThreadEventData::AssistantMessage { phase, .. }
            && phase is FinalAnswer));
        lemma_no_final_answer(events, (count - 1) as nat);
    }
}

/// A process went well where it runs or ended with zero; otherwise the words say what
/// it ended with. Each approval is shown once.
pub proof fn law_process_went_well(
    status: ProcessStatus,
    result: Result<(), String>,
    pending: Option<u64>,
    displayed: Option<u64>,
    shown: Option<u64>,
)
    requires
        call_ensures(process_result, (&status,), result),
        call_ensures(approval_to_show, (pending, displayed), shown),
    ensures
        result is Ok <==> status is Running || status == (ProcessStatus::Exited {
            exit_code: Some(0i32),
        }),
        status matches ProcessStatus::Unavailable { message } ==> result->Err_0@ == message@,
        status matches ProcessStatus::Exited { exit_code: Some(code) } ==> code == 0
            || crate::text::has_suffix(result->Err_0@, decimal(code as int)),
        shown is Some <==> pending is Some && pending != displayed,
        shown is Some ==> shown == pending,
{
    if let ProcessStatus::Exited { exit_code: Some(code) } = status {
        if code != 0 {
            let words = result->Err_0@;
            assert(words.skip(words.len() - decimal(code as int).len()) =~= decimal(code as int));
        }
    }
}

/// A login is over when the provider is settled, and it succeeded where the provider
/// is logged in; a logout succeeded where it is not, or where only the environment
/// still logs it in.
pub proof fn law_login_and_logout_end(
    provider: &str,
    lifecycle: ProviderLifecycle,
    words: &str,
    login: Result<String, String>,
    logout: Result<String, String>,
    answer: Answer,
    accepted: Result<(), String>,
)
    requires
        call_ensures(login_ended, (provider, &lifecycle, words), login),
        call_ensures(logout_ended, (provider, &lifecycle, words), logout),
        call_ensures(expect_accepted, (answer, words), accepted),
    ensures
        login is Ok <==> lifecycle is LoggedIn,
        logout is Ok <==> lifecycle is LoggedOut || lifecycle is LoginRequired || lifecycle
            is LoggedIn,
        lifecycle is LoggedIn ==> logout->Ok_0@ == provider@
            + ": file credential removed; environment credential remains active"@,
        lifecycle is LoggedOut || lifecycle is LoginRequired ==> logout->Ok_0@ == "logged out of "@
            + provider@,
        lifecycle is LoggedIn ==> login->Ok_0@ == "logged in to "@ + provider@,
        settled(lifecycle) <==> lifecycle is LoggedOut || lifecycle is LoginRequired || lifecycle
            is LoggedIn || lifecycle is Failed,
        accepted is Ok <==> answer is Accepted,
{
}

/// A runner that is launched is waited for until it runs, fails or is gone.
pub proof fn law_launch_is_waited_for(
    name: &str,
    lifecycle: Option<RunnerLifecycle>,
    result: Option<Result<(), String>>,
)
    requires
        call_ensures(launch_progress, (name, &lifecycle), result),
    ensures
        result is None <==> lifecycle == Some(RunnerLifecycle::Launching),
        (result matches Some(ended) && ended is Ok) <==> lifecycle == Some(
            RunnerLifecycle::Running,
        ),
        lifecycle matches Some(RunnerLifecycle::Failed { message }) ==> (result matches Some(Err(
            text,
        )) && text@ == message@),
{
}

/// A row shows all that it is given, in columns.
pub proof fn law_rows_show_all_columns(
    id: i64,
    name: Option<String>,
    created: i64,
    reason: &str,
    runner: &str,
    description: &str,
    lifecycle: &str,
    thread: String,
    checkpoint: String,
    launched: String,
)
    requires
        call_ensures(thread_row, (id, &name), thread),
        call_ensures(checkpoint_row, (id, created, reason), checkpoint),
        call_ensures(runner_row, (runner, description, lifecycle), launched),
    ensures
        crate::text::has_prefix(thread@, decimal(id as int) + "\t"@),
        name matches Some(name) ==> crate::text::has_suffix(thread@, name@),
        crate::text::has_prefix(
            checkpoint@,
            decimal(id as int) + "\t"@ + decimal(created as int) + "\t"@,
        ),
        crate::text::has_suffix(checkpoint@, reason@),
        crate::text::has_prefix(launched@, runner@ + "\t"@ + description@ + "\t"@),
        crate::text::has_suffix(launched@, lifecycle@),
{
    let start = decimal(id as int) + "\t"@;
    assert(thread@.take(start.len() as int) =~= start);
    if let Some(name) = name {
        assert(thread@.skip(thread@.len() - name@.len()) =~= name@);
    }
    let times = decimal(id as int) + "\t"@ + decimal(created as int) + "\t"@;
    assert(checkpoint@.take(times.len() as int) =~= times);
    assert(checkpoint@.skip(checkpoint@.len() - reason@.len()) =~= reason@);
    let columns = runner@ + "\t"@ + description@ + "\t"@;
    assert(launched@.take(columns.len() as int) =~= columns);
    assert(launched@.skip(launched@.len() - lifecycle@.len()) =~= lifecycle@);
}

/// The row of a model begins with its name and what it is shown as, holds each effort
/// that it supports, and ends with its context.
pub proof fn law_model_row_shows_the_model(model: ModelView, i: int)
    requires
        0 <= i < model.supported_reasoning_efforts.len(),
    ensures
        crate::text::has_prefix(
            model_words(model),
            "  "@ + model.id + "\t"@ + model.display_name + "\treasoning=["@,
        ),
        crate::text::holds_part(model_words(model), model.supported_reasoning_efforts[i]),
        model.context_window matches Some(tokens) ==> crate::text::has_suffix(
            model_words(model),
            "\tcontext="@ + decimal(tokens as int),
        ),
        model.context_window is None ==> crate::text::has_suffix(
            model_words(model),
            "\tcontext="@ + "unknown"@,
        ),
{
    let text = model_words(model);
    let start = "  "@ + model.id + "\t"@ + model.display_name + "\treasoning=["@;
    let efforts = joined(model.supported_reasoning_efforts, ","@);
    let tools = "]\ttools=["@ + joined(binding_words(model.tool_bindings), ","@) + "]"@;
    let room = match model.context_window {
        Some(tokens) => decimal(tokens as int),
        None => "unknown"@,
    };
    let ending = "\tcontext="@ + room;
    reveal_strlit("]\tcontext=");
    reveal_strlit("]");
    reveal_strlit("\tcontext=");
    assert("]\tcontext="@ =~= "]"@ + "\tcontext="@);
    assert(text =~= start + efforts + (tools + ending));
    assert(text.take(start.len() as int) =~= start);
    assert(text.skip(text.len() - ending.len()) =~= ending);
    crate::text::law_joined_holds_its_parts(model.supported_reasoning_efforts, ","@, i);
    let effort = model.supported_reasoning_efforts[i];
    let at = choose|at: int|
        0 <= at <= efforts.len() - effort.len() && #[trigger] efforts.subrange(
            at,
            at + effort.len(),
        ) == effort;
    let there = start.len() + at;
    assert(text.subrange(there, there + effort.len()) =~= efforts.subrange(at, at + effort.len()));
}

/// A provider that is logged in is shown with its account and where its credential
/// comes from, where these are known; one that is not as logged out.
pub proof fn law_provider_is_shown(
    provider: &str,
    lifecycle: ProviderLifecycle,
    source: Option<CredentialSource>,
    words: &str,
    text: String,
)
    requires
        call_ensures(provider_status, (provider, &lifecycle, source, words), text),
    ensures
        lifecycle is LoggedIn ==> crate::text::has_prefix(text@, provider@ + ": logged in"@),
        lifecycle is LoggedOut || lifecycle is LoginRequired ==> text@ == provider@
            + ": logged out"@,
        (lifecycle matches ProviderLifecycle::LoggedIn { account: Some(account) } && source
            is None) ==> crate::text::has_suffix(
            text@,
            lifecycle->LoggedIn_account->0@,
        ),
        source_words(CredentialSource::Environment) != source_words(CredentialSource::File),
        !(lifecycle is LoggedIn || lifecycle is LoggedOut || lifecycle is LoginRequired) ==> text@
            == provider@ + ": "@ + words@,
{
    reveal_strlit("Environment");
    reveal_strlit("File");
    assert("Environment"@.len() == 11 && "File"@.len() == 4);
    reveal_strlit("");
    if let ProviderLifecycle::LoggedIn { account } = lifecycle {
        let start = provider@ + ": logged in"@;
        assert(text@.take(start.len() as int) =~= start);
        if let Some(account) = account {
            if source is None {
                assert(text@.skip(text@.len() - account@.len()) =~= account@);
            }
        }
    }
}

/// An approval is shown with its number, the tool that asks and what it asks with, each
/// in a line of its own.
pub proof fn law_approval_is_shown_with_its_number(
    id: u64,
    tool: &str,
    arguments: Json,
    lines: Vec<String>,
)
    requires
        call_ensures(approval_lines, (id, tool, &arguments), lines),
    ensures
        lines@.len() == 3,
        lines@[0]@ == decimal(id as int),
        lines@[1]@ == "tool: "@ + tool@,
        lines@[2]@ == "arguments: "@ + printed(arguments@),
{
    let shown = views(lines@);
    assert(shown.len() == 3);
    assert(shown[0] == lines@[0]@ && shown[1] == lines@[1]@ && shown[2] == lines@[2]@);
}

} // verus!
