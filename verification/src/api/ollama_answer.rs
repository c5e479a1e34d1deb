//! The Ollama API: what comes back.
use crate::api::chat_completions::events_outcome;
use crate::api::common::{invalid, uncounted, uncounted_error, ApiError, ErrorView};
use crate::api::messages::{named, named_error, no_events, Outcome};
use crate::api::ollama::{
    call_views, thinking_key, thinking_replay_key, Message, MessageView, ToolCall, ToolCallView,
};
use crate::api::sse::{blank_bytes, is_ascii_space};
use crate::event::{AssistantMessagePhase, OpaqueState};
use crate::json::{json_option, json_views, lemma_json_parts, Json, JsonView};
use crate::model::{
    completed, done, emit, emit_completed, emit_done, event_views, said, thought, EventView,
    ModelEvent, ModelResponse, ModelStreamEvent, ResponseView, UpdateView,
};
use crate::record::{read_record, record, Shape, ShapeView};
use crate::surface::OpaqueView;
use crate::text::{concat3, concat4, contains_text, decimal, decimal_text, view_option, views};
use crate::tokens::{text_tokens, token_count};
use vstd::prelude::*;

verus! {

/// A line of an answer.
#[derive(Debug, PartialEq)]
pub struct ChatChunk {
    pub message: Option<Message>,
    pub done: bool,
    pub prompt_eval_count: Option<u64>,
    pub eval_count: Option<u64>,
    pub error: Option<String>,
}

/// What a [`ChatChunk`] stands for.
pub struct ChunkView {
    pub message: Option<MessageView>,
    pub done: bool,
    pub prompt_eval_count: Option<u64>,
    pub eval_count: Option<u64>,
    pub error: Option<Seq<char>>,
}

/// What an optional message stands for.
pub open spec fn message_option(message: Option<Message>) -> Option<MessageView> {
    match message {
        Some(message) => Some(message@),
        None => None,
    }
}

impl View for ChatChunk {
    type V = ChunkView;

    open spec fn view(&self) -> ChunkView {
        ChunkView {
            message: message_option(self.message),
            done: self.done,
            prompt_eval_count: self.prompt_eval_count,
            eval_count: self.eval_count,
            error: view_option(self.error),
        }
    }
}

/// A text; empty where it is missing.
pub open spec fn text_or_empty(value: Option<JsonView>) -> Option<Seq<char>> {
    match value {
        None => Some(Seq::empty()),
        Some(JsonView::Text(text)) => Some(text),
        _ => None,
    }
}

/// A text that may be missing or null.
pub open spec fn text_or_none(value: Option<JsonView>) -> Option<Option<Seq<char>>> {
    match value {
        None => Some(None),
        Some(JsonView::Null) => Some(None),
        Some(JsonView::Text(text)) => Some(Some(text)),
        _ => None,
    }
}

/// A count that may be missing or null.
pub open spec fn count_or_none(value: Option<JsonView>) -> Option<Option<u64>> {
    match value {
        None => Some(None),
        Some(JsonView::Null) => Some(None),
        Some(value) => match value.as_u64() {
            Some(number) => Some(Some(number)),
            None => None,
        },
    }
}

/// A flag; down where it is missing.
pub open spec fn flag_or_down(value: Option<JsonView>) -> Option<bool> {
    match value {
        None => Some(false),
        Some(JsonView::Bool(flag)) => Some(flag),
        _ => None,
    }
}

/// A tool call; without arguments it is called with an empty object.
pub open spec fn call_of(value: JsonView) -> Option<ToolCallView> {
    if !value.is_record(0, 2) {
        None
    } else {
        match (text_or_none(value.element("id"@, 0)), value.element("function"@, 1)) {
            (Some(id), Some(function)) => if !function.is_record(0, 2) {
                None
            } else {
                match function.element("name"@, 0) {
                    Some(JsonView::Text(name)) => Some(
                        ToolCallView {
                            id,
                            name,
                            arguments: match function.element("arguments"@, 1) {
                                Some(arguments) => arguments,
                                None => JsonView::object(),
                            },
                        },
                    ),
                    _ => None,
                }
            },
            _ => None,
        }
    }
}

/// The first `count` tool calls.
pub open spec fn calls_of(values: Seq<JsonView>, count: nat) -> Option<Seq<ToolCallView>>
    decreases count,
{
    if count == 0 {
        Some(Seq::empty())
    } else {
        match (calls_of(values, (count - 1) as nat), call_of(values[count - 1])) {
            (Some(calls), Some(call)) => Some(calls.push(call)),
            _ => None,
        }
    }
}

/// A list of tool calls; empty where it is missing.
pub open spec fn calls_or_empty(value: Option<JsonView>) -> Option<Seq<ToolCallView>> {
    match value {
        None => Some(Seq::empty()),
        Some(JsonView::Array(values)) => calls_of(values, values.len()),
        _ => None,
    }
}

/// A message.
pub open spec fn message_of(value: JsonView) -> Option<MessageView> {
    if !value.is_record(0, 5) {
        None
    } else {
        match (
            text_or_empty(value.element("role"@, 0)),
            text_or_empty(value.element("content"@, 1)),
            text_or_empty(value.element("thinking"@, 2)),
            calls_or_empty(value.element("tool_calls"@, 3)),
            text_or_none(value.element("tool_name"@, 4)),
        ) {
            (Some(role), Some(content), Some(thinking), Some(tool_calls), Some(tool_name)) => {
                Some(MessageView { role, content, thinking, tool_calls, tool_name })
            },
            _ => None,
        }
    }
}

/// A message that may be missing or null.
pub open spec fn message_or_none(value: Option<JsonView>) -> Option<Option<MessageView>> {
    match value {
        None => Some(None),
        Some(JsonView::Null) => Some(None),
        Some(value) => match message_of(value) {
            Some(message) => Some(Some(message)),
            None => None,
        },
    }
}

/// A line of an answer.
pub open spec fn chunk_of(value: JsonView) -> Option<ChunkView> {
    if !value.is_record(0, 5) {
        None
    } else {
        match (
            message_or_none(value.element("message"@, 0)),
            flag_or_down(value.element("done"@, 1)),
            count_or_none(value.element("prompt_eval_count"@, 2)),
            count_or_none(value.element("eval_count"@, 3)),
            text_or_none(value.element("error"@, 4)),
        ) {
            (Some(message), Some(done), Some(prompt_eval_count), Some(eval_count), Some(error)) => {
                Some(ChunkView { message, done, prompt_eval_count, eval_count, error })
            },
            _ => None,
        }
    }
}

/// What an optional value given by reference stands for.
pub open spec fn ref_view(value: Option<&Json>) -> Option<JsonView> {
    match value {
        Some(value) => Some(value@),
        None => None,
    }
}

fn read_text(value: Option<&Json>) -> (text: Option<String>)
    ensures
        view_option(text) == text_or_empty(ref_view(value)),
{
    match value {
        None => {
            let text = String::new();
            Some(text)
        },
        Some(Json::Text(text)) => Some(text.clone()),
        Some(_) => None,
    }
}

fn read_optional_text(value: Option<&Json>) -> (text: Option<Option<String>>)
    ensures
        match text {
            Some(text) => text_or_none(ref_view(value)) == Some(view_option(text)),
            None => text_or_none(ref_view(value)) is None,
        },
{
    match value {
        None => Some(None),
        Some(Json::Null) => Some(None),
        Some(Json::Text(text)) => Some(Some(text.clone())),
        Some(_) => None,
    }
}

fn read_count(value: Option<&Json>) -> (count: Option<Option<u64>>)
    ensures
        count == count_or_none(ref_view(value)),
{
    match value {
        None => Some(None),
        Some(Json::Null) => Some(None),
        Some(value) => match value.as_u64() {
            Some(number) => Some(Some(number)),
            None => None,
        },
    }
}

fn read_flag(value: Option<&Json>) -> (flag: Option<bool>)
    ensures
        flag == flag_or_down(ref_view(value)),
{
    match value {
        None => Some(false),
        Some(Json::Bool(flag)) => Some(*flag),
        Some(_) => None,
    }
}

fn read_call(value: &Json) -> (call: Option<ToolCall>)
    ensures
        match call {
            Some(call) => call_of(value@) == Some(call@),
            None => call_of(value@) is None,
        },
{
    if !value.is_record(0, 2) {
        return None;
    }
    let id = match read_optional_text(value.element("id", 0)) {
        Some(id) => id,
        None => {
            return None;
        },
    };
    let function = match value.element("function", 1) {
        Some(function) => function,
        None => {
            return None;
        },
    };
    if !function.is_record(0, 2) {
        return None;
    }
    let name = match function.element("name", 0) {
        Some(Json::Text(name)) => name.clone(),
        _ => {
            return None;
        },
    };
    let arguments = match function.element("arguments", 1) {
        Some(arguments) => arguments.clone(),
        None => Json::object(),
    };
    Some(ToolCall { id, name, arguments })
}

proof fn lemma_calls_stop(values: Seq<JsonView>, count: nat, total: nat)
    requires
        count <= total,
        calls_of(values, count) is None,
    ensures
        calls_of(values, total) is None,
    decreases total,
{
    if count < total {
        lemma_calls_stop(values, count, (total - 1) as nat);
    }
}

fn read_calls(value: Option<&Json>) -> (calls: Option<Vec<ToolCall>>)
    ensures
        match calls {
            Some(calls) => calls_or_empty(ref_view(value)) == Some(call_views(calls@)),
            None => calls_or_empty(ref_view(value)) is None,
        },
{
    let mut calls: Vec<ToolCall> = Vec::new();
    assert(call_views(calls@) =~= Seq::empty());
    let list = match value {
        Some(list) => list,
        None => {
            return Some(calls);
        },
    };
    proof {
        lemma_json_parts(*list);
    }
    let values = match list {
        Json::Array(values) => values,
        _ => {
            return None;
        },
    };
    let ghost all = json_views(values@);
    let mut i: usize = 0;
    while i < values.len()
        invariant
            i <= values.len(),
            all == json_views(values@),
            ref_view(value) == Some(JsonView::Array(all)),
            calls_of(all, i as nat) == Some(call_views(calls@)),
        decreases values.len() - i,
    {
        assert(all[i as int] == values[i as int]@);
        match read_call(&values[i]) {
            Some(call) => {
                let ghost before = call_views(calls@);
                calls.push(call);
                assert(call_views(calls@) =~= before.push(call@));
            },
            None => {
                proof {
                    lemma_calls_stop(all, (i + 1) as nat, all.len());
                }
                return None;
            },
        }
        i += 1;
    }
    Some(calls)
}

fn read_message(value: &Json) -> (message: Option<Message>)
    ensures
        message_option(message) == message_of(value@),
{
    if !value.is_record(0, 5) {
        return None;
    }
    match (
        read_text(value.element("role", 0)),
        read_text(value.element("content", 1)),
        read_text(value.element("thinking", 2)),
        read_calls(value.element("tool_calls", 3)),
        read_optional_text(value.element("tool_name", 4)),
    ) {
        (Some(role), Some(content), Some(thinking), Some(tool_calls), Some(tool_name)) => Some(
            Message { role, content, thinking, tool_calls, tool_name },
        ),
        _ => None,
    }
}

/// Reads a line of an answer.
pub fn read_chunk(value: &Json) -> (chunk: Option<ChatChunk>)
    ensures
        match chunk {
            Some(chunk) => chunk_of(value@) == Some(chunk@),
            None => chunk_of(value@) is None,
        },
{
    if !value.is_record(0, 5) {
        return None;
    }
    let message = match value.element("message", 0) {
        None => None,
        Some(Json::Null) => None,
        Some(value) => match read_message(value) {
            Some(message) => Some(message),
            None => {
                return None;
            },
        },
    };
    match (
        read_flag(value.element("done", 1)),
        read_count(value.element("prompt_eval_count", 2)),
        read_count(value.element("eval_count", 3)),
        read_optional_text(value.element("error", 4)),
    ) {
        (Some(done), Some(prompt_eval_count), Some(eval_count), Some(error)) => Some(
            ChatChunk { message, done, prompt_eval_count, eval_count, error },
        ),
        _ => None,
    }
}

/// The error that a line cannot be read.
pub open spec fn unreadable() -> ErrorView {
    ErrorView::Invalid("failed to decode Ollama stream chunk"@)
}

/// What is read of a call of a tool.
pub open spec fn call_shape() -> ShapeView {
    ShapeView::record().with_whole("id"@).with(
        "function"@,
        ShapeView::record().with_whole("name"@).with_whole("arguments"@),
    )
}

/// What is read of a message.
pub open spec fn message_shape() -> ShapeView {
    ShapeView::record().with_whole("role"@).with_whole("content"@).with_whole("thinking"@).with(
        "tool_calls"@,
        call_shape().list(),
    ).with_whole("tool_name"@)
}

/// What is read of a line.
pub open spec fn chunk_shape() -> ShapeView {
    ShapeView::record().with("message"@, message_shape()).with_whole("done"@).with_whole(
        "prompt_eval_count"@,
    ).with_whole("eval_count"@).with_whole("error"@)
}

fn shape_of_chunk() -> (shape: Shape)
    ensures
        shape@ == chunk_shape(),
{
    let call = Shape::record().with_whole("id").with(
        "function",
        Shape::record().with_whole("name").with_whole("arguments"),
    );
    let message = Shape::record().with_whole("role").with_whole("content").with_whole(
        "thinking",
    ).with("tool_calls", call.list()).with_whole("tool_name");
    Shape::record().with("message", message).with_whole("done").with_whole(
        "prompt_eval_count",
    ).with_whole("eval_count").with_whole("error")
}

/// What a line holds; nothing where it is blank.
pub open spec fn line_chunk(line: Seq<u8>) -> Outcome<Option<ChunkView>> {
    if blank_bytes(line) {
        Ok(None)
    } else {
        match record(line, chunk_shape()) {
            None => Err(unreadable()),
            Some(value) => match chunk_of(value) {
                None => Err(unreadable()),
                Some(chunk) => Ok(Some(chunk)),
            },
        }
    }
}

/// What an optional chunk or an error stands for.
pub open spec fn chunk_outcome(result: Result<Option<ChatChunk>, ApiError>) -> Outcome<
    Option<ChunkView>,
> {
    match result {
        Ok(Some(chunk)) => Ok(Some(chunk@)),
        Ok(None) => Ok(None),
        Err(error) => Err(error@),
    }
}

/// Reads what a line holds.
pub fn decode_line(line: &Vec<u8>) -> (result: Result<Option<ChatChunk>, ApiError>)
    ensures
        chunk_outcome(result) == line_chunk(line@),
{
    let mut blank = true;
    let mut i: usize = 0;
    while i < line.len() && blank
        invariant
            i <= line.len(),
            blank ==> forall|j: int| 0 <= j < i ==> is_ascii_space(#[trigger] line@[j]),
            !blank ==> !blank_bytes(line@),
        decreases line.len() - i,
    {
        let byte = line[i];
        if !(byte == 9 || byte == 10 || byte == 12 || byte == 13 || byte == 32) {
            assert(!is_ascii_space(line@[i as int]));
            blank = false;
        }
        i += 1;
    }
    if blank {
        return Ok(None);
    }
    match read_record(line.as_slice(), &shape_of_chunk()) {
        None => Err(invalid("failed to decode Ollama stream chunk")),
        Some(value) => match read_chunk(&value) {
            None => Err(invalid("failed to decode Ollama stream chunk")),
            Some(chunk) => Ok(Some(chunk)),
        },
    }
}

/// Where the first line feed stands; the number of bytes where there is none.
pub open spec fn line_end(bytes: Seq<u8>) -> int
    decreases bytes.len(),
{
    if bytes.len() == 0 || bytes[0] == 10 {
        0
    } else {
        1 + line_end(bytes.skip(1))
    }
}

proof fn lemma_line_end(bytes: Seq<u8>)
    ensures
        0 <= line_end(bytes) <= bytes.len(),
        line_end(bytes) < bytes.len() ==> bytes[line_end(bytes)] == 10,
        forall|i: int| 0 <= i < line_end(bytes) ==> bytes[i] != 10,
    decreases bytes.len(),
{
    if bytes.len() > 0 && bytes[0] != 10 {
        let rest = bytes.skip(1);
        lemma_line_end(rest);
        assert forall|i: int| 0 <= i < line_end(bytes) implies bytes[i] != 10 by {
            if i > 0 {
                assert(rest[i - 1] == bytes[i]);
            }
        }
    }
}

proof fn lemma_line_end_is(bytes: Seq<u8>, at: int)
    requires
        0 <= at <= bytes.len(),
        at < bytes.len() ==> bytes[at] == 10,
        forall|i: int| 0 <= i < at ==> bytes[i] != 10,
    ensures
        line_end(bytes) == at,
{
    lemma_line_end(bytes);
}

/// What comes of asking for the next line.
pub enum Pull {
    Chunk(ChatChunk),
    NeedMore,
    End,
    Failed(ApiError),
}

/// What a [`Pull`] stands for.
pub enum PullView {
    Chunk(ChunkView),
    NeedMore,
    End,
    Failed(ErrorView),
}

impl View for Pull {
    type V = PullView;

    open spec fn view(&self) -> PullView {
        match self {
            Pull::Chunk(chunk) => PullView::Chunk(chunk@),
            Pull::NeedMore => PullView::NeedMore,
            Pull::End => PullView::End,
            Pull::Failed(error) => PullView::Failed(error@),
        }
    }
}

/// The next line that is not blank, and what stays in the buffer. A last line
/// need not end where the stream has.
pub open spec fn pulled(buffer: Seq<u8>, ended: bool) -> (PullView, Seq<u8>)
    decreases buffer.len(),
    via pulled_decreases
{
    let at = line_end(buffer);
    if at < buffer.len() {
        let rest = buffer.skip(at + 1);
        match line_chunk(buffer.take(at)) {
            Err(error) => (PullView::Failed(error), rest),
            Ok(None) => pulled(rest, ended),
            Ok(Some(chunk)) => (PullView::Chunk(chunk), rest),
        }
    } else if !ended {
        (PullView::NeedMore, buffer)
    } else if buffer.len() == 0 {
        (PullView::End, buffer)
    } else {
        match line_chunk(buffer) {
            Err(error) => (PullView::Failed(error), Seq::empty()),
            Ok(None) => (PullView::End, Seq::empty()),
            Ok(Some(chunk)) => (PullView::Chunk(chunk), Seq::empty()),
        }
    }
}

#[via_fn]
proof fn pulled_decreases(buffer: Seq<u8>, ended: bool) {
    lemma_line_end(buffer);
}

/// Reads an answer line by line from chunks of bytes.
#[derive(Debug, PartialEq)]
pub struct NdjsonDecoder {
    buffer: Vec<u8>,
}

impl View for NdjsonDecoder {
    type V = Seq<u8>;

    closed spec fn view(&self) -> Seq<u8> {
        self.buffer@
    }
}

impl NdjsonDecoder {
    /// A decoder that has read nothing.
    pub fn new() -> (decoder: Self)
        ensures
            decoder@ == Seq::<u8>::empty(),
    {
        NdjsonDecoder { buffer: Vec::new() }
    }

    /// Takes a chunk of bytes.
    pub fn push(&mut self, chunk: &Vec<u8>)
        ensures
            final(self)@ == old(self)@ + chunk@,
    {
        let ghost start = self.buffer@;
        let mut i: usize = 0;
        while i < chunk.len()
            invariant
                i <= chunk.len(),
                self.buffer@ == start + chunk@.take(i as int),
            decreases chunk.len() - i,
        {
            self.buffer.push(chunk[i]);
            i += 1;
            assert(self.buffer@ =~= start + chunk@.take(i as int));
        }
        assert(chunk@.take(i as int) =~= chunk@);
    }

    /// The next line that is not blank; `ended` where no more bytes will come.
    pub fn next(&mut self, ended: bool) -> (result: Pull)
        ensures
            pulled(old(self)@, ended) == (result@, final(self)@),
    {
        let ghost start = self.buffer@;
        loop
            invariant
                pulled(start, ended) == pulled(self.buffer@, ended),
                start == old(self)@,
            decreases self.buffer.len(),
        {
            let mut at: usize = 0;
            while at < self.buffer.len() && self.buffer[at] != 10
                invariant
                    at <= self.buffer.len(),
                    forall|i: int| 0 <= i < at ==> self.buffer@[i] != 10,
                decreases self.buffer.len() - at,
            {
                at += 1;
            }
            let ghost buffer = self.buffer@;
            proof {
                lemma_line_end_is(buffer, at as int);
            }
            if at < self.buffer.len() {
                let mut rest = self.buffer.split_off(at);
                let _ = rest.remove(0);
                let mut line: Vec<u8> = Vec::new();
                std::mem::swap(&mut line, &mut self.buffer);
                self.buffer = rest;
                proof {
                    assert(line@ =~= buffer.take(at as int));
                    assert(self.buffer@ =~= buffer.skip(at + 1));
                }
                match decode_line(&line) {
                    Err(error) => {
                        return Pull::Failed(error);
                    },
                    Ok(Some(chunk)) => {
                        return Pull::Chunk(chunk);
                    },
                    Ok(None) => {
                        continue ;
                    },
                }
            }
            if !ended {
                return Pull::NeedMore;
            }
            if self.buffer.len() == 0 {
                return Pull::End;
            }
            let mut line: Vec<u8> = Vec::new();
            std::mem::swap(&mut line, &mut self.buffer);
            return match decode_line(&line) {
                Err(error) => Pull::Failed(error),
                Ok(Some(chunk)) => Pull::Chunk(chunk),
                Ok(None) => Pull::End,
            };
        }
    }
}

// ---------------------------------------------------------------------------
// The answer
// ---------------------------------------------------------------------------

/// What has come in of an answer.
#[derive(Debug, PartialEq)]
pub struct Completion {
    pub thinking: String,
    pub content: String,
    pub tool_calls: Vec<ToolCall>,
}

/// What a [`Completion`] stands for.
pub struct CompletionView {
    pub thinking: Seq<char>,
    pub content: Seq<char>,
    pub tool_calls: Seq<ToolCallView>,
}

impl View for Completion {
    type V = CompletionView;

    open spec fn view(&self) -> CompletionView {
        CompletionView {
            thinking: self.thinking@,
            content: self.content@,
            tool_calls: call_views(self.tool_calls@),
        }
    }
}

/// A name for a call that came without one, made from a random number and the
/// length of the session's name in tokens.
pub open spec fn fallback_id(tokens: nat, index: nat, random: u64) -> Seq<char> {
    "ollama-"@ + decimal((random ^ (tokens as u64)) as int) + "-"@ + decimal(index as int)
}

/// A name for a call that came without one; an error where the name of the session
/// cannot be encoded.
pub open spec fn fallback(session_id: Seq<char>, index: nat, random: u64) -> Outcome<Seq<char>> {
    match token_count(session_id) {
        Some(tokens) => Ok(fallback_id(tokens, index, random)),
        None => Err(uncounted()),
    }
}

/// A name for a call that came without one, made from a random number.
pub fn fallback_call_id(session_id: &str, index: usize, random: u64) -> (result: Result<
    String,
    ApiError,
>)
    ensures
        match result {
            Ok(id) => fallback(session_id@, index as nat, random) == Ok::<Seq<char>, ErrorView>(
                id@,
            ),
            Err(error) => fallback(session_id@, index as nat, random) == Err::<
                Seq<char>,
                ErrorView,
            >(error@),
        },
{
    match text_tokens(session_id) {
        Some(tokens) => Ok(call_name(tokens, index, random)),
        None => Err(uncounted_error()),
    }
}

/// A name for a call that came without one, in a session whose name is `tokens`
/// long.
pub fn call_name(tokens: usize, index: usize, random: u64) -> (id: String)
    ensures
        id@ == fallback_id(tokens as nat, index as nat, random),
{
    let mixed: u64 = random ^ (tokens as u64);
    let number = decimal_text(mixed as i128);
    let position = decimal_text(index as i128);
    concat4("ollama-", number.as_str(), "-", position.as_str())
}

/// The name of a call.
pub open spec fn call_id(call: ToolCallView, session_id: Seq<char>, index: nat, random: u64) -> Outcome<
    Seq<char>,
> {
    if call.name.len() == 0 {
        Err(ErrorView::Invalid("Ollama tool call omitted function name"@))
    } else if !(call.arguments is Object) {
        Err(
            ErrorView::Invalid(
                "Ollama tool call "@ + call.name + " returned non-object arguments"@,
            ),
        )
    } else {
        match call.id {
            Some(id) => if id.len() == 0 {
                Err(ErrorView::Invalid("Ollama tool call returned an empty id"@))
            } else {
                Ok(id)
            },
            None => fallback(session_id, index, random),
        }
    }
}

/// The events and the names of the first `count` calls, after `events`.
pub open spec fn call_events(
    calls: Seq<ToolCallView>,
    session_id: Seq<char>,
    randoms: Seq<u64>,
    events: Seq<EventView>,
    count: nat,
) -> Outcome<(Seq<EventView>, Seq<Seq<char>>)>
    decreases count,
{
    if count == 0 {
        Ok((events, Seq::empty()))
    } else {
        match call_events(calls, session_id, randoms, events, (count - 1) as nat) {
            Err(error) => Err(error),
            Ok((before, ids)) => {
                let call = calls[count - 1];
                match call_id(call, session_id, (count - 1) as nat, randoms[count - 1]) {
                    Err(error) => Err(error),
                    Ok(id) => if ids.contains(id) {
                        Err(named("Ollama returned duplicate tool call id "@, id))
                    } else {
                        Ok(
                            (
                                before.push(
                                    done(
                                        ResponseView::ToolCall {
                                            name: call.name,
                                            arguments: call.arguments,
                                            call_id: id,
                                        },
                                    ),
                                ),
                                ids.push(id),
                            ),
                        )
                    },
                }
            },
        }
    }
}

/// A count as a JSON value.
pub open spec fn count_json(count: Option<u64>) -> JsonView {
    match count {
        Some(count) => JsonView::Integer(count as int),
        None => JsonView::Null,
    }
}

/// The token usage; none where nothing was counted. The total needs both counts,
/// and stays within `u64`.
pub open spec fn usage_json(input: Option<u64>, output: Option<u64>) -> Option<JsonView> {
    if input is None && output is None {
        None
    } else {
        let total = match (input, output) {
            (Some(input), Some(output)) => if input + output > u64::MAX {
                JsonView::Integer(u64::MAX as int)
            } else {
                JsonView::Integer(input + output)
            },
            _ => JsonView::Null,
        };
        Some(
            JsonView::object().with("input_tokens"@, count_json(input)).with(
                "output_tokens"@,
                count_json(output),
            ).with("total_tokens"@, total),
        )
    }
}

/// The parts of an answer before its tool calls.
pub open spec fn spoken(completion: CompletionView, model: Seq<char>) -> Seq<EventView> {
    let thought = if completion.thinking.len() == 0 {
        Seq::empty()
    } else {
        Seq::empty().push(
            done(
                ResponseView::Reasoning {
                    summary: completion.thinking,
                    opaque: OpaqueView {
                        replay_key: thinking_key(model),
                        payload: JsonView::object().with_text(
                            "thinking"@,
                            completion.thinking,
                        ),
                    },
                },
            ),
        )
    };
    if completion.content.len() == 0 {
        thought
    } else {
        thought.push(
            done(
                ResponseView::AssistantMessage {
                    content: completion.content,
                    phase: if completion.tool_calls.len() == 0 {
                        AssistantMessagePhase::FinalAnswer
                    } else {
                        AssistantMessagePhase::Commentary
                    },
                },
            ),
        )
    }
}

/// The events of a whole answer.
pub open spec fn finished(
    completion: CompletionView,
    session_id: Seq<char>,
    model: Seq<char>,
    input: Option<u64>,
    output: Option<u64>,
    randoms: Seq<u64>,
) -> Outcome<Seq<EventView>> {
    if completion.content.len() == 0 && completion.tool_calls.len() == 0 {
        Err(
            ErrorView::Invalid("Ollama completed without assistant content or tool calls"@),
        )
    } else {
        match call_events(
            completion.tool_calls,
            session_id,
            randoms,
            spoken(completion, model),
            completion.tool_calls.len(),
        ) {
            Err(error) => Err(error),
            Ok((events, _)) => Ok(events.push(completed(usage_json(input, output)))),
        }
    }
}

fn count_value(count: Option<u64>) -> (value: Json)
    ensures
        value@ == count_json(count),
{
    match count {
        Some(count) => Json::Integer(count as i128),
        None => Json::Null,
    }
}

fn token_usage(input: Option<u64>, output: Option<u64>) -> (usage: Option<Json>)
    ensures
        json_option(usage) == usage_json(input, output),
{
    if input.is_none() && output.is_none() {
        return None;
    }
    let total = match (input, output) {
        (Some(input), Some(output)) => Json::Integer(input.saturating_add(output) as i128),
        _ => Json::Null,
    };
    Some(
        Json::object().with("input_tokens", count_value(input)).with(
            "output_tokens",
            count_value(output),
        ).with("total_tokens", total),
    )
}

fn identify(call: &ToolCall, session_id: &str, index: usize, random: u64) -> (result: Result<
    String,
    ApiError,
>)
    ensures
        match result {
            Ok(id) => call_id(call@, session_id@, index as nat, random) == Ok::<
                Seq<char>,
                ErrorView,
            >(id@),
            Err(error) => call_id(call@, session_id@, index as nat, random) == Err::<
                Seq<char>,
                ErrorView,
            >(error@),
        },
{
    if call.name.as_str().is_empty() {
        return Err(invalid("Ollama tool call omitted function name"));
    }
    if !call.arguments.is_object() {
        return Err(
            ApiError::Invalid(
                concat3("Ollama tool call ", call.name.as_str(), " returned non-object arguments"),
            ),
        );
    }
    match &call.id {
        Some(id) => if id.as_str().is_empty() {
            Err(invalid("Ollama tool call returned an empty id"))
        } else {
            Ok(id.clone())
        },
        None => fallback_call_id(session_id, index, random),
    }
}

proof fn lemma_call_events_stop(
    calls: Seq<ToolCallView>,
    session_id: Seq<char>,
    randoms: Seq<u64>,
    events: Seq<EventView>,
    count: nat,
    total: nat,
)
    requires
        count <= total,
        call_events(calls, session_id, randoms, events, count) is Err,
    ensures
        call_events(calls, session_id, randoms, events, total) == call_events(
            calls,
            session_id,
            randoms,
            events,
            count,
        ),
    decreases total,
{
    if count < total {
        lemma_call_events_stop(calls, session_id, randoms, events, count, (total - 1) as nat);
    }
}

impl Completion {
    /// The events of the whole answer. There is a random number for each call,
    /// for the case that it came without a name.
    pub fn finish(
        &self,
        session_id: &str,
        model: &str,
        input_tokens: Option<u64>,
        output_tokens: Option<u64>,
        randoms: &Vec<u64>,
    ) -> (result: Result<Vec<ModelEvent>, ApiError>)
        requires
            randoms.len() >= self.tool_calls.len(),
        ensures
            events_outcome(result) == finished(
                self@,
                session_id@,
                model@,
                input_tokens,
                output_tokens,
                randoms@,
            ),
    {
        if self.content.as_str().is_empty() && self.tool_calls.len() == 0 {
            return Err(invalid("Ollama completed without assistant content or tool calls"));
        }
        let mut events = no_events();
        if !self.thinking.as_str().is_empty() {
            emit_done(
                &mut events,
                ModelResponse::Reasoning {
                    summary: self.thinking.clone(),
                    opaque: OpaqueState {
                        replay_key: thinking_replay_key(model),
                        payload: Json::object().with_text("thinking", self.thinking.as_str()),
                    },
                },
            );
        }
        if !self.content.as_str().is_empty() {
            emit_done(
                &mut events,
                ModelResponse::AssistantMessage {
                    content: self.content.clone(),
                    phase: if self.tool_calls.len() == 0 {
                        AssistantMessagePhase::FinalAnswer
                    } else {
                        AssistantMessagePhase::Commentary
                    },
                },
            );
        }
        let ghost said = spoken(self@, model@);
        let ghost all = call_views(self.tool_calls@);
        assert(event_views(events@) == said);
        let mut ids: Vec<String> = Vec::new();
        assert(views(ids@) =~= Seq::empty());
        let mut i: usize = 0;
        while i < self.tool_calls.len()
            invariant
                i <= self.tool_calls.len() <= randoms.len(),
                all == call_views(self.tool_calls@),
                all == self@.tool_calls,
                said == spoken(self@, model@),
                !(self@.content.len() == 0 && self@.tool_calls.len() == 0),
                call_events(all, session_id@, randoms@, said, i as nat) == Ok::<
                    (Seq<EventView>, Seq<Seq<char>>),
                    ErrorView,
                >((event_views(events@), views(ids@))),
            decreases self.tool_calls.len() - i,
        {
            assert(all[i as int] == self.tool_calls[i as int]@);
            let call = &self.tool_calls[i];
            let id = match identify(call, session_id, i, randoms[i]) {
                Ok(id) => id,
                Err(error) => {
                    proof {
                        lemma_call_events_stop(
                            all,
                            session_id@,
                            randoms@,
                            said,
                            (i + 1) as nat,
                            all.len(),
                        );
                    }
                    return Err(error);
                },
            };
            if contains_text(&ids, id.as_str()) {
                proof {
                    lemma_call_events_stop(
                        all,
                        session_id@,
                        randoms@,
                        said,
                        (i + 1) as nat,
                        all.len(),
                    );
                }
                return Err(named_error("Ollama returned duplicate tool call id ", id.as_str()));
            }
            emit_done(
                &mut events,
                ModelResponse::ToolCall {
                    name: call.name.clone(),
                    arguments: call.arguments.clone(),
                    call_id: id.clone(),
                },
            );
            let ghost before = views(ids@);
            ids.push(id);
            assert(views(ids@) =~= before.push(id@));
            i += 1;
        }
        emit_completed(&mut events, token_usage(input_tokens, output_tokens));
        Ok(events)
    }
}

/// An answer that is coming in.
pub struct OllamaStream {
    completion: Completion,
    session_id: String,
    model: String,
    finished: bool,
}

/// What an [`OllamaStream`] stands for.
pub struct StreamView {
    pub completion: CompletionView,
    pub session_id: Seq<char>,
    pub model: Seq<char>,
    pub finished: bool,
}

impl View for OllamaStream {
    type V = StreamView;

    closed spec fn view(&self) -> StreamView {
        StreamView {
            completion: self.completion@,
            session_id: self.session_id@,
            model: self.model@,
            finished: self.finished,
        }
    }
}

/// What has come in after a message.
pub open spec fn with_message(completion: CompletionView, message: Option<MessageView>) -> CompletionView {
    match message {
        Some(message) => CompletionView {
            thinking: completion.thinking + message.thinking,
            content: completion.content + message.content,
            tool_calls: completion.tool_calls + message.tool_calls,
        },
        None => completion,
    }
}

/// The news of a message.
pub open spec fn message_news(message: Option<MessageView>) -> Seq<EventView> {
    match message {
        Some(message) => {
            let thinking = if message.thinking.len() == 0 {
                Seq::empty()
            } else {
                Seq::empty().push(
                    EventView::Update(UpdateView::ReasoningSummaryDelta(message.thinking)),
                )
            };
            if message.content.len() == 0 {
                thinking
            } else {
                thinking.push(
                    EventView::Update(
                        UpdateView::AssistantDelta {
                            content: message.content,
                            phase: AssistantMessagePhase::Commentary,
                        },
                    ),
                )
            }
        },
        None => Seq::empty(),
    }
}

/// The state and the news after a line.
pub open spec fn accepted(state: StreamView, chunk: ChunkView, randoms: Seq<u64>) -> Outcome<
    (StreamView, Seq<EventView>),
> {
    match chunk.error {
        Some(error) => Err(named("Ollama stream failed: "@, error)),
        None => if state.finished {
            Err(ErrorView::Invalid("Ollama returned data after completion"@))
        } else {
            let completion = with_message(state.completion, chunk.message);
            let news = message_news(chunk.message);
            if chunk.done {
                match finished(
                    completion,
                    state.session_id,
                    state.model,
                    chunk.prompt_eval_count,
                    chunk.eval_count,
                    randoms,
                ) {
                    Err(error) => Err(error),
                    Ok(events) => Ok(
                        (StreamView { completion, finished: true, ..state }, news + events),
                    ),
                }
            } else {
                Ok((StreamView { completion, ..state }, news))
            }
        },
    }
}

/// The number of calls that a line brings.
pub open spec fn call_count(chunk: ChunkView) -> nat {
    match chunk.message {
        Some(message) => message.tool_calls.len(),
        None => 0,
    }
}

/// Whether what came of a line is what should: on an error the stream ends.
pub open spec fn accept_matches(
    outcome: Outcome<(StreamView, Seq<EventView>)>,
    result: Result<Vec<ModelEvent>, ApiError>,
    after: StreamView,
) -> bool {
    match result {
        Ok(events) => outcome == Ok::<(StreamView, Seq<EventView>), ErrorView>(
            (after, event_views(events@)),
        ),
        Err(error) => outcome == Err::<(StreamView, Seq<EventView>), ErrorView>(error@)
            && after.finished,
    }
}

/// A number from `rand::rng()`, through `rand::Rng::random`. Any number can come.
#[verifier::external_body]
fn random_number() -> (number: u64) {
    rand::Rng::random::<u64>(&mut rand::rng())
}

fn append_events(events: &mut Vec<ModelEvent>, more: Vec<ModelEvent>)
    ensures
        event_views(final(events)@) == event_views(old(events)@) + event_views(more@),
{
    let mut more = more;
    let ghost before = events@;
    let ghost added = more@;
    events.append(&mut more);
    assert(event_views(events@) =~= event_views(before) + event_views(added));
}

fn append_calls(calls: &mut Vec<ToolCall>, more: Vec<ToolCall>)
    ensures
        call_views(final(calls)@) == call_views(old(calls)@) + call_views(more@),
        final(calls)@.len() == old(calls)@.len() + more@.len(),
{
    let mut more = more;
    let ghost before = calls@;
    let ghost added = more@;
    calls.append(&mut more);
    assert(call_views(calls@) =~= call_views(before) + call_views(added));
}

impl OllamaStream {
    /// Nothing has come in.
    pub fn new(session_id: String, model: String) -> (stream: Self)
        ensures
            stream@.session_id == session_id@,
            stream@.model == model@,
            !stream@.finished,
            stream@.completion.thinking.len() == 0,
            stream@.completion.content.len() == 0,
            stream@.completion.tool_calls.len() == 0,
    {
        OllamaStream {
            completion: Completion {
                thinking: String::new(),
                content: String::new(),
                tool_calls: Vec::new(),
            },
            session_id,
            model,
            finished: false,
        }
    }

    /// Whether the answer has ended.
    pub fn is_finished(&self) -> (result: bool)
        ensures
            result == self@.finished,
    {
        self.finished
    }

    /// How many tool calls have come in.
    pub fn pending_calls(&self) -> (count: usize)
        ensures
            count == self@.completion.tool_calls.len(),
    {
        self.completion.tool_calls.len()
    }

    /// Takes a line. There is a random number for each call that has come in,
    /// for the case that it came without a name.
    pub fn accept_with(&mut self, chunk: ChatChunk, randoms: &Vec<u64>) -> (result: Result<
        Vec<ModelEvent>,
        ApiError,
    >)
        requires
            randoms.len() >= old(self)@.completion.tool_calls.len() + call_count(chunk@),
        ensures
            accept_matches(accepted(old(self)@, chunk@, randoms@), result, final(self)@),
    {
        let ChatChunk { message, done, prompt_eval_count, eval_count, error } = chunk;
        match error {
            Some(error) => {
                self.finished = true;
                return Err(named_error("Ollama stream failed: ", error.as_str()));
            },
            None => {},
        }
        if self.finished {
            return Err(invalid("Ollama returned data after completion"));
        }
        let ghost wanted_news = message_news(message_option(message));
        let mut events = no_events();
        match message {
            Some(message) => {
                let Message { content, thinking, tool_calls, .. } = message;
                self.completion.thinking.push_str(thinking.as_str());
                self.completion.content.push_str(content.as_str());
                if !thinking.as_str().is_empty() {
                    emit(
                        &mut events,
                        ModelEvent::Update(ModelStreamEvent::ReasoningSummaryDelta(thinking)),
                    );
                }
                if !content.as_str().is_empty() {
                    emit(
                        &mut events,
                        ModelEvent::Update(
                            ModelStreamEvent::AssistantDelta {
                                content,
                                phase: AssistantMessagePhase::Commentary,
                            },
                        ),
                    );
                }
                append_calls(&mut self.completion.tool_calls, tool_calls);
            },
            None => {},
        }
        assert(event_views(events@) == wanted_news);
        assert(self.completion@ == with_message(old(self)@.completion, message_option(message)));
        if done {
            match self.completion.finish(
                self.session_id.as_str(),
                self.model.as_str(),
                prompt_eval_count,
                eval_count,
                randoms,
            ) {
                Err(error) => {
                    self.finished = true;
                    return Err(error);
                },
                Ok(more) => {
                    append_events(&mut events, more);
                    self.finished = true;
                },
            }
        }
        Ok(events)
    }

    /// Takes a line. Calls that came without a name get one from random numbers.
    pub fn accept(&mut self, chunk: ChatChunk) -> (result: Result<Vec<ModelEvent>, ApiError>)
        requires
            old(self)@.completion.tool_calls.len() + call_count(chunk@) <= usize::MAX,
        ensures
            exists|randoms: Seq<u64>|
                randoms.len() == old(self)@.completion.tool_calls.len() + call_count(chunk@)
                    && accept_matches(
                    #[trigger] accepted(old(self)@, chunk@, randoms),
                    result,
                    final(self)@,
                ),
    {
        let brought: usize = match &chunk.message {
            Some(message) => message.tool_calls.len(),
            None => 0,
        };
        let count: usize = self.completion.tool_calls.len() + brought;
        let mut randoms: Vec<u64> = Vec::new();
        while randoms.len() < count
            invariant
                randoms.len() <= count,
            decreases count - randoms.len(),
        {
            randoms.push(random_number());
        }
        let result = self.accept_with(chunk, &randoms);
        assert(accept_matches(accepted(old(self)@, chunk@, randoms@), result, self@));
        result
    }

    /// The error that the stream ended without the mark of the end.
    pub fn ended_early() -> (error: ApiError)
        ensures
            error@ == ErrorView::Invalid("Ollama stream ended before a completion marker"@),
    {
        invalid("Ollama stream ended before a completion marker")
    }
}

proof fn lemma_pulled(buffer: Seq<u8>, more: Seq<u8>, ended: bool)
    ensures
        pulled(buffer, false).0 is NeedMore ==> pulled(buffer + more, ended) == pulled(
            pulled(buffer, false).1 + more,
            ended,
        ),
        !(pulled(buffer, false).0 is NeedMore) ==> pulled(buffer + more, ended) == (
            pulled(buffer, false).0,
            pulled(buffer, false).1 + more,
        ),
    decreases buffer.len(),
{
    lemma_line_end(buffer);
    let at = line_end(buffer);
    let whole = buffer + more;
    if at < buffer.len() {
        lemma_line_end_is(whole, at);
        let rest = buffer.skip(at + 1);
        assert(whole.take(at) =~= buffer.take(at));
        assert(whole.skip(at + 1) =~= rest + more);
        lemma_pulled(rest, more, ended);
    }
}

/// What is read of an answer does not depend on where its bytes are cut: a line
/// that is there is read alike whatever follows, and what is not enough for a line
/// stays until more comes.
pub proof fn law_lines_do_not_depend_on_chunks(buffer: Seq<u8>, more: Seq<u8>, ended: bool)
    ensures
        pulled(buffer, false).0 is NeedMore ==> pulled(buffer + more, ended) == pulled(
            pulled(buffer, false).1 + more,
            ended,
        ),
        !(pulled(buffer, false).0 is NeedMore) ==> pulled(buffer + more, ended) == (
            pulled(buffer, false).0,
            pulled(buffer, false).1 + more,
        ),
{
    lemma_pulled(buffer, more, ended);
}

/// What has come in and what was passed on after the first `count` lines, each with
/// the random numbers that it was taken with.
pub open spec fn received(
    state: StreamView,
    lines: Seq<(ChunkView, Seq<u64>)>,
    count: nat,
) -> Outcome<(StreamView, Seq<EventView>)>
    decreases count,
{
    if count == 0 {
        Ok((state, Seq::empty()))
    } else {
        match received(state, lines, (count - 1) as nat) {
            Ok((before, events)) => match accepted(
                before,
                lines[count - 1].0,
                lines[count - 1].1,
            ) {
                Ok((after, news)) => Ok((after, events + news)),
                Err(error) => Err(error),
            },
            Err(error) => Err(error),
        }
    }
}

proof fn lemma_call_events(
    calls: Seq<ToolCallView>,
    session_id: Seq<char>,
    randoms: Seq<u64>,
    events: Seq<EventView>,
    count: nat,
)
    requires
        count <= calls.len(),
        call_events(calls, session_id, randoms, events, count) is Ok,
    ensures
        ({
            let (all, ids) = call_events(calls, session_id, randoms, events, count)->Ok_0;
            &&& ids.len() == count
            &&& all.len() == events.len() + count
            &&& forall|i: int| 0 <= i < events.len() ==> #[trigger] all[i] == events[i]
            &&& forall|i: int|
                0 <= i < count ==> {
                    &&& (#[trigger] calls[i]).name.len() > 0
                    &&& calls[i].arguments is Object
                    &&& all[events.len() + i] == (EventView::OutputItemDone {
                        response: Some(
                            ResponseView::ToolCall {
                                name: calls[i].name,
                                arguments: calls[i].arguments,
                                call_id: ids[i],
                            },
                        ),
                    })
                    &&& calls[i].id matches Some(id) ==> ids[i] == id && id.len() > 0
                }
            &&& ids.no_duplicates()
        }),
    decreases count,
{
    if count > 0 {
        lemma_call_events(calls, session_id, randoms, events, (count - 1) as nat);
        let (before, ids) = call_events(calls, session_id, randoms, events, (count - 1) as nat)->Ok_0;
        let (all, longer) = call_events(calls, session_id, randoms, events, count)->Ok_0;
        assert forall|i: int| 0 <= i < count implies {
            &&& (#[trigger] calls[i]).name.len() > 0
            &&& calls[i].arguments is Object
            &&& all[events.len() + i] == (EventView::OutputItemDone {
                response: Some(
                    ResponseView::ToolCall {
                        name: calls[i].name,
                        arguments: calls[i].arguments,
                        call_id: longer[i],
                    },
                ),
            })
            &&& calls[i].id matches Some(id) ==> longer[i] == id && id.len() > 0
        } by {
            if i < count - 1 {
                assert(all[events.len() + i] == before[events.len() + i]);
            }
        }
    }
}

/// A whole answer is passed on in this order: the reasoning, what the assistant says,
/// the calls in the order in which they came, and the end with what was counted. A
/// call keeps its name, its arguments and the identity that it came with, no two
/// calls share one, and what the assistant says is the final answer only where no
/// call follows.
pub proof fn law_answer_is_passed_on_whole(
    completion: CompletionView,
    session_id: Seq<char>,
    model: Seq<char>,
    input: Option<u64>,
    output: Option<u64>,
    randoms: Seq<u64>,
)
    requires
        finished(completion, session_id, model, input, output, randoms) is Ok,
    ensures
        ({
            let events = finished(completion, session_id, model, input, output, randoms)->Ok_0;
            let calls = completion.tool_calls;
            let t = if completion.thinking.len() > 0 {
                1int
            } else {
                0
            };
            let s = if completion.content.len() > 0 {
                1int
            } else {
                0
            };
            &&& s + calls.len() > 0
            &&& events.len() == t + s + calls.len() + 1
            &&& t == 1 ==> (events[0] matches EventView::OutputItemDone {
                response: Some(ResponseView::Reasoning { summary, opaque }),
            } && summary == completion.thinking && opaque.payload.str_field("thinking"@) == Some(
                completion.thinking,
            ) && opaque.replay_key == thinking_key(model))
            &&& s == 1 ==> (events[t] matches EventView::OutputItemDone {
                response: Some(ResponseView::AssistantMessage { content, phase }),
            } && content == completion.content && (phase is FinalAnswer <==> calls.len() == 0))
            &&& forall|i: int|
                0 <= i < calls.len() ==> ((#[trigger] events[t + s + i])
                    matches EventView::OutputItemDone {
                    response: Some(ResponseView::ToolCall { name, arguments, call_id }),
                } && name == calls[i].name && arguments == calls[i].arguments && (calls[i].id
                    matches Some(id) ==> call_id == id))
            &&& forall|i: int, j: int|
                0 <= i < j < calls.len() ==> call_named(#[trigger] events[t + s + i]) != call_named(
                    #[trigger] events[t + s + j],
                )
            &&& events.last() matches EventView::Completed { token_usage, rate_limits }
                && rate_limits.len() == 0 && token_usage == usage_json(input, output)
        }),
{
    broadcast use crate::json::lemma_with, crate::json::lemma_no_fields;

    let calls = completion.tool_calls;
    let before = spoken(completion, model);
    lemma_call_events(calls, session_id, randoms, before, calls.len());
    let (all, ids) = call_events(calls, session_id, randoms, before, calls.len())->Ok_0;
    let events = finished(completion, session_id, model, input, output, randoms)->Ok_0;
    let t = if completion.thinking.len() > 0 {
        1int
    } else {
        0
    };
    let s = if completion.content.len() > 0 {
        1int
    } else {
        0
    };
    assert(before.len() == t + s);
    assert forall|i: int| 0 <= i < calls.len() implies ((#[trigger] events[t + s + i])
        matches EventView::OutputItemDone {
        response: Some(ResponseView::ToolCall { name, arguments, call_id }),
    } && name == calls[i].name && arguments == calls[i].arguments && call_id == ids[i] && (
    calls[i].id matches Some(id) ==> call_id == id)) by {
        assert(calls[i].name.len() > 0);
        assert(events[t + s + i] == all[before.len() + i]);
    }
    assert forall|i: int, j: int| 0 <= i < j < calls.len() implies call_named(
        #[trigger] events[t + s + i],
    ) != call_named(#[trigger] events[t + s + j]) by {
        assert(ids[i] != ids[j]);
    }
    if t == 1 {
        assert(events[0] == all[0]);
        assert(all[0] == before[0]);
    }
    if s == 1 {
        assert(events[t] == all[t]);
        assert(all[t] == before[t]);
    }
}

/// The identity of a call that is passed on.
pub open spec fn call_named(event: EventView) -> Option<Seq<char>> {
    match event {
        EventView::OutputItemDone { response: Some(ResponseView::ToolCall { call_id, .. }) } => {
            Some(call_id)
        },
        _ => None,
    }
}

/// The counts of the tokens keep what came in; the total is their sum, where both
/// came and the sum can be held.
pub proof fn law_tokens_are_counted(input: Option<u64>, output: Option<u64>)
    ensures
        usage_json(input, output) is None <==> input is None && output is None,
        usage_json(input, output) matches Some(usage) ==> {
            &&& usage.field("input_tokens"@).as_u64() == input
            &&& usage.field("output_tokens"@).as_u64() == output
            &&& usage.field("total_tokens"@).as_u64() is Some <==> input is Some && output is Some
            &&& input is Some && output is Some && input->0 + output->0 <= u64::MAX ==> usage.field(
                "total_tokens"@,
            ) == JsonView::Integer(input->0 + output->0)
        },
{
    broadcast use crate::json::lemma_with, crate::json::lemma_no_fields;

    reveal_strlit("input_tokens");
    reveal_strlit("output_tokens");
    reveal_strlit("total_tokens");
    assert("input_tokens"@.len() == 12 && "output_tokens"@.len() == 13 && "total_tokens"@.len() == 12);
    assert("input_tokens"@[0] != "total_tokens"@[0]);
}

/// What the assistant says at the end is what was passed on of it, piece by piece, in
/// the order in which the pieces came; and so is the summary of the reasoning.
pub proof fn law_answer_is_what_was_passed_on(
    start: StreamView,
    lines: Seq<(ChunkView, Seq<u64>)>,
    count: nat,
)
    requires
        start.completion.content.len() == 0,
        start.completion.thinking.len() == 0,
        count <= lines.len(),
        received(start, lines, count) is Ok,
    ensures
        ({
            let (state, events) = received(start, lines, count)->Ok_0;
            &&& state.completion.content == said(events)
            &&& state.completion.thinking == thought(events)
            &&& forall|i: int|
                0 <= i < events.len() ==> match #[trigger] events[i] {
                    EventView::OutputItemDone {
                        response: Some(ResponseView::AssistantMessage { content, .. }),
                    } => content == said(events),
                    EventView::OutputItemDone {
                        response: Some(ResponseView::Reasoning { summary, .. }),
                    } => summary == thought(events),
                    _ => true,
                }
            &&& (exists|i: int| 0 <= i < events.len() && !((#[trigger] events[i]) is Update))
                ==> state.finished
        }),
    decreases count,
{
    if count == 0 {
        assert(start.completion.content =~= said(Seq::empty()));
        assert(start.completion.thinking =~= thought(Seq::empty()));
    } else {
        law_answer_is_what_was_passed_on(start, lines, (count - 1) as nat);
        let (before, passed) = received(start, lines, (count - 1) as nat)->Ok_0;
        let (line, randoms) = lines[count - 1];
        let (state, news) = accepted(before, line, randoms)->Ok_0;
        let words = message_news(line.message);
        let ending = news.skip(words.len() as int);
        assert(news =~= words + ending);
        crate::model::lemma_said_in_order(passed, news);
        crate::model::lemma_said_in_order(words, ending);
        lemma_words_said(line.message);
        if line.done {
            let events = finished(
                state.completion,
                before.session_id,
                before.model,
                line.prompt_eval_count,
                line.eval_count,
                randoms,
            )->Ok_0;
            assert(ending =~= events);
            law_answer_is_passed_on_whole(
                state.completion,
                before.session_id,
                before.model,
                line.prompt_eval_count,
                line.eval_count,
                randoms,
            );
            lemma_finished_events(
                state.completion,
                before.session_id,
                before.model,
                line.prompt_eval_count,
                line.eval_count,
                randoms,
            );
        } else {
            assert(ending =~= Seq::empty());
        }
        crate::model::lemma_nothing_said(ending);
        let all = passed + news;
        match line.message {
            Some(message) => {
                assert(state.completion.content =~= said(all));
                assert(state.completion.thinking =~= thought(all));
            },
            None => {
                assert(state.completion.content =~= said(all));
                assert(state.completion.thinking =~= thought(all));
            },
        }
        assert forall|i: int| 0 <= i < all.len() implies match #[trigger] all[i] {
            EventView::OutputItemDone {
                response: Some(ResponseView::AssistantMessage { content, .. }),
            } => content == said(all),
            EventView::OutputItemDone {
                response: Some(ResponseView::Reasoning { summary, .. }),
            } => summary == thought(all),
            _ => true,
        } by {
            if i < passed.len() {
                assert(all[i] == passed[i]);
                assert(!before.finished);
                assert(passed[i] is Update);
            } else if i < passed.len() + words.len() {
                assert(all[i] == words[i - passed.len()]);
                assert(all[i] is Update);
            } else {
                assert(all[i] == ending[i - passed.len() - words.len()]);
            }
        }
        if exists|i: int| 0 <= i < all.len() && !((#[trigger] all[i]) is Update) {
            let i = choose|i: int| 0 <= i < all.len() && !((#[trigger] all[i]) is Update);
            if i < passed.len() {
                assert(all[i] == passed[i]);
            } else if i < passed.len() + words.len() {
                assert(all[i] == words[i - passed.len()]);
            }
        }
    }
}

proof fn lemma_words_said(message: Option<MessageView>)
    ensures
        said(message_news(message)) == (match message {
            Some(message) => message.content,
            None => Seq::empty(),
        }),
        thought(message_news(message)) == (match message {
            Some(message) => message.thinking,
            None => Seq::empty(),
        }),
        forall|i: int|
            0 <= i < message_news(message).len() ==> (#[trigger] message_news(message)[i]) is Update,
{
    let news = message_news(message);
    reveal_with_fuel(said, 3);
    reveal_with_fuel(thought, 3);
    match message {
        Some(message) => {
            assert(said(news) =~= message.content);
            assert(thought(news) =~= message.thinking);
        },
        None => {
            assert(said(news) =~= Seq::empty());
            assert(thought(news) =~= Seq::empty());
        },
    }
}

proof fn lemma_finished_events(
    completion: CompletionView,
    session_id: Seq<char>,
    model: Seq<char>,
    input: Option<u64>,
    output: Option<u64>,
    randoms: Seq<u64>,
)
    requires
        finished(completion, session_id, model, input, output, randoms) is Ok,
    ensures
        ({
            let events = finished(completion, session_id, model, input, output, randoms)->Ok_0;
            forall|i: int|
                0 <= i < events.len() ==> match #[trigger] events[i] {
                    EventView::Update(_) => false,
                    EventView::OutputItemDone {
                        response: Some(ResponseView::AssistantMessage { content, .. }),
                    } => content == completion.content,
                    EventView::OutputItemDone {
                        response: Some(ResponseView::Reasoning { summary, .. }),
                    } => summary == completion.thinking,
                    _ => true,
                }
        }),
{
    let calls = completion.tool_calls;
    let before = spoken(completion, model);
    lemma_call_events(calls, session_id, randoms, before, calls.len());
    let (all, ids) = call_events(calls, session_id, randoms, before, calls.len())->Ok_0;
    let events = finished(completion, session_id, model, input, output, randoms)->Ok_0;
    assert forall|i: int| 0 <= i < events.len() implies match #[trigger] events[i] {
        EventView::Update(_) => false,
        EventView::OutputItemDone {
            response: Some(ResponseView::AssistantMessage { content, .. }),
        } => content == completion.content,
        EventView::OutputItemDone {
            response: Some(ResponseView::Reasoning { summary, .. }),
        } => summary == completion.thinking,
        _ => true,
    } by {
        if i < before.len() {
            assert(events[i] == all[i]);
            assert(all[i] == before[i]);
        } else if i < all.len() {
            assert(calls[i - before.len()].name.len() > 0);
            assert(events[i] == all[before.len() + (i - before.len())]);
        }
    }
}

/// A line is taken as long as the answer has not ended and no error came; with the
/// mark of the end the answer ends, and nothing is taken after it.
pub proof fn law_answer_ends_once(state: StreamView, line: ChunkView, randoms: Seq<u64>)
    ensures
        (line.error is Some || state.finished) ==> accepted(state, line, randoms) is Err,
        accepted(state, line, randoms) matches Ok((after, _)) ==> {
            &&& after.finished <==> line.done
            &&& after.session_id == state.session_id
            &&& after.model == state.model
            &&& after.completion.tool_calls == state.completion.tool_calls + (match line.message {
                Some(message) => message.tool_calls,
                None => Seq::empty(),
            })
        },
        line.error is None && !state.finished && !line.done ==> accepted(state, line, randoms) is Ok,
{
    if line.message is None {
        assert(state.completion.tool_calls + Seq::<ToolCallView>::empty()
            =~= state.completion.tool_calls);
    }
}

/// Why an answer that has ended is refused: it says nothing and calls nothing, or a
/// call has no name, takes no object, has an empty identity or that of another call.
pub proof fn law_faulty_calls_are_refused(
    completion: CompletionView,
    session_id: Seq<char>,
    model: Seq<char>,
    input: Option<u64>,
    output: Option<u64>,
    randoms: Seq<u64>,
    i: int,
    j: int,
)
    requires
        0 <= i < completion.tool_calls.len(),
        0 <= j < completion.tool_calls.len(),
    ensures
        ({
            let call = completion.tool_calls[i];
            let other = completion.tool_calls[j];
            let answer = finished(completion, session_id, model, input, output, randoms);
            &&& call.name.len() == 0 ==> answer is Err
            &&& !(call.arguments is Object) ==> answer is Err
            &&& (call.id matches Some(id) && id.len() == 0) ==> answer is Err
            &&& i != j && call.id is Some && call.id == other.id ==> answer is Err
        }),
{
    let answer = finished(completion, session_id, model, input, output, randoms);
    if answer is Ok {
        let calls = completion.tool_calls;
        let before = spoken(completion, model);
        lemma_call_events(calls, session_id, randoms, before, calls.len());
        let (all, ids) = call_events(calls, session_id, randoms, before, calls.len())->Ok_0;
        assert(calls[i].name.len() > 0);
        assert(calls[j].name.len() > 0);
        if i != j {
            assert(ids[i] != ids[j]);
        }
    }
}

proof fn lemma_call_is_read_back(call: ToolCallView)
    ensures
        call_of(crate::api::ollama::call_json(call)) == Some(call),
{
    broadcast use crate::json::lemma_with, crate::json::lemma_no_fields;

    reveal_strlit("id");
    reveal_strlit("function");
    reveal_strlit("name");
    reveal_strlit("arguments");
    assert("id"@.len() == 2 && "function"@.len() == 8 && "name"@.len() == 4 && "arguments"@.len() == 9);
    let value = crate::api::ollama::call_json(call);
    assert(value.element("id"@, 0) == value.get("id"@));
    assert(value.element("function"@, 1) == value.get("function"@));
    let function = value.get("function"@)->0;
    assert(function.element("name"@, 0) == function.get("name"@));
    assert(function.element("arguments"@, 1) == function.get("arguments"@));
}

proof fn lemma_calls_are_read_back(calls: Seq<ToolCallView>, count: nat)
    requires
        count <= calls.len(),
    ensures
        calls_of(crate::api::ollama::calls_json(calls), count) == Some(calls.take(count as int)),
    decreases count,
{
    if count == 0 {
        assert(calls.take(0) =~= Seq::empty());
    } else {
        lemma_calls_are_read_back(calls, (count - 1) as nat);
        lemma_call_is_read_back(calls[count - 1]);
        assert(calls.take(count as int) =~= calls.take(count - 1).push(calls[count - 1]));
    }
}

/// A message that is sent is read back as it was: nothing that it says is lost or
/// changed on the way.
pub proof fn law_message_is_read_back(message: MessageView)
    ensures
        message_of(crate::api::ollama::message_json(message)) == Some(message),
{
    broadcast use crate::json::lemma_with, crate::json::lemma_no_fields;

    reveal_strlit("role");
    reveal_strlit("content");
    reveal_strlit("thinking");
    reveal_strlit("tool_calls");
    reveal_strlit("tool_name");
    assert("role"@.len() == 4 && "content"@.len() == 7 && "thinking"@.len() == 8 && "tool_calls"@.len() == 10 && "tool_name"@.len() == 9);
    let value = crate::api::ollama::message_json(message);
    lemma_calls_are_read_back(message.tool_calls, message.tool_calls.len());
    assert(message.tool_calls.take(message.tool_calls.len() as int) =~= message.tool_calls);
    assert(value.element("role"@, 0) == value.get("role"@));
    assert(value.element("content"@, 1) == value.get("content"@));
    assert(value.element("thinking"@, 2) == value.get("thinking"@));
    assert(value.element("tool_calls"@, 3) == value.get("tool_calls"@));
    assert(value.element("tool_name"@, 4) == value.get("tool_name"@));
    if message.thinking.len() == 0 {
        assert(message.thinking =~= Seq::empty());
    }
    if message.tool_calls.len() == 0 {
        assert(message.tool_calls =~= Seq::empty());
    }
}

/// A line is read with what it holds, whatever else stands in it: its message, whether
/// it is the last, what was counted, and its error.
pub proof fn law_line_is_read(
    message: MessageView,
    done: bool,
    input: u64,
    output: u64,
    error: Seq<char>,
)
    ensures
        ({
            let value = JsonView::object().with(
                "message"@,
                crate::api::ollama::message_json(message),
            ).with("done"@, JsonView::Bool(done)).with(
                "prompt_eval_count"@,
                JsonView::Integer(input as int),
            ).with("eval_count"@, JsonView::Integer(output as int));
            &&& chunk_of(value) == Some(
                ChunkView {
                    message: Some(message),
                    done,
                    prompt_eval_count: Some(input),
                    eval_count: Some(output),
                    error: None,
                },
            )
            &&& chunk_of(value.with_text("error"@, error)) matches Some(chunk) && chunk.error
                == Some(error)
        }),
        chunk_of(JsonView::object()) == Some(
            ChunkView {
                message: None,
                done: false,
                prompt_eval_count: None,
                eval_count: None,
                error: None,
            },
        ),
{
    broadcast use crate::json::lemma_with, crate::json::lemma_no_fields;

    reveal_strlit("message");
    reveal_strlit("done");
    reveal_strlit("prompt_eval_count");
    reveal_strlit("eval_count");
    reveal_strlit("error");
    assert("message"@.len() == 7 && "done"@.len() == 4 && "prompt_eval_count"@.len() == 17 && "eval_count"@.len() == 10 && "error"@.len() == 5);
    law_message_is_read_back(message);
    let value = JsonView::object().with(
        "message"@,
        crate::api::ollama::message_json(message),
    ).with("done"@, JsonView::Bool(done)).with(
        "prompt_eval_count"@,
        JsonView::Integer(input as int),
    ).with("eval_count"@, JsonView::Integer(output as int));
    let failed = value.with_text("error"@, error);
    assert(crate::api::ollama::message_json(message) is Object);
    lemma_elements(value);
    lemma_elements(failed);
    lemma_elements(JsonView::object());
}

proof fn lemma_elements(value: JsonView)
    requires
        value is Object,
    ensures
        value.element("message"@, 0) == value.get("message"@),
        value.element("done"@, 1) == value.get("done"@),
        value.element("prompt_eval_count"@, 2) == value.get("prompt_eval_count"@),
        value.element("eval_count"@, 3) == value.get("eval_count"@),
        value.element("error"@, 4) == value.get("error"@),
{
}

/// A name that is made for a call starts alike for all, and ends with the place of the
/// call after a dash.
pub proof fn law_made_name_ends_with_the_place(tokens: nat, index: nat, random: u64)
    ensures
        crate::text::has_prefix(fallback_id(tokens, index, random), "ollama-"@),
        crate::text::has_suffix(
            fallback_id(tokens, index, random),
            "-"@ + decimal(index as int),
        ),
{
    let name = fallback_id(tokens, index, random);
    let end = "-"@ + decimal(index as int);
    assert(name.take("ollama-"@.len() as int) =~= "ollama-"@);
    assert(name.skip(name.len() - end.len()) =~= end);
}

} // verus!
