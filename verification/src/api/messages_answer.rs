//! A whole answer of the Messages API.
use crate::api::chat_completions::events_outcome;
use crate::api::common::{
    incomplete_stream, invalid, needed_nonempty, needed_str, needed_u64, required_nonempty_str,
    required_str, required_u64, ApiError, ErrorView,
};
use crate::api::messages::{
    frame_error, json_outcome, named, named_error, numbered, numbered_error, replay_problem,
    thinking_key, Outcome,
};
use crate::event::{AssistantMessagePhase, OpaqueState};
use crate::json::{field_views, json_views, lemma_json_parts, lookup, parsed, Json, JsonView};
use crate::model::{
    completed, done, emit, emit_completed, emit_done, event_views, EventView, ModelEvent,
    ModelResponse, ResponseView,
};
use crate::surface::OpaqueView;
use crate::table::{entry, lemma_same_keys, ordered, position, put, rank};
use crate::text::{concat2, concat3, decimal_text, same_text};
use vstd::prelude::*;

verus! {

/// A block of an answer.
#[derive(Debug, PartialEq)]
pub enum Block {
    Text(String),
    Thinking { thinking: String, signature: String },
    RedactedThinking { data: String },
    ToolUse { call_id: String, name: String, initial_arguments: Json, argument_delta: String },
}

/// What a [`Block`] stands for.
pub enum BlockView {
    Text(Seq<char>),
    Thinking { thinking: Seq<char>, signature: Seq<char> },
    RedactedThinking { data: Seq<char> },
    ToolUse {
        call_id: Seq<char>,
        name: Seq<char>,
        initial_arguments: JsonView,
        argument_delta: Seq<char>,
    },
}

impl View for Block {
    type V = BlockView;

    open spec fn view(&self) -> BlockView {
        match self {
            Block::Text(text) => BlockView::Text(text@),
            Block::Thinking { thinking, signature } => BlockView::Thinking {
                thinking: thinking@,
                signature: signature@,
            },
            Block::RedactedThinking { data } => BlockView::RedactedThinking { data: data@ },
            Block::ToolUse { call_id, name, initial_arguments, argument_delta } => {
                BlockView::ToolUse {
                    call_id: call_id@,
                    name: name@,
                    initial_arguments: initial_arguments@,
                    argument_delta: argument_delta@,
                }
            },
        }
    }
}

/// A block and whether it has ended.
#[derive(Debug, PartialEq)]
pub struct OpenBlock {
    pub content: Block,
    pub stopped: bool,
}

/// What an [`OpenBlock`] stands for.
pub struct OpenView {
    pub content: BlockView,
    pub stopped: bool,
}

impl View for OpenBlock {
    type V = OpenView;

    open spec fn view(&self) -> OpenView {
        OpenView { content: self.content@, stopped: self.stopped }
    }
}

/// What blocks by their index stand for.
pub open spec fn block_views(blocks: Seq<(u64, OpenBlock)>) -> Seq<(u64, OpenView)> {
    Seq::new(blocks.len(), |i: int| (blocks[i].0, blocks[i].1@))
}

/// Why an answer ended.
#[derive(Clone, Copy, Debug, PartialEq, Eq, Structural)]
pub enum StopReason {
    EndTurn,
    StopSequence,
    ToolUse,
    PauseTurn,
    Refusal,
    MaxTokens,
    ContextWindow,
}

/// The reason that a word stands for.
pub open spec fn stop_reason(value: Seq<char>) -> Outcome<StopReason> {
    if value == "end_turn"@ {
        Ok(StopReason::EndTurn)
    } else if value == "stop_sequence"@ {
        Ok(StopReason::StopSequence)
    } else if value == "tool_use"@ {
        Ok(StopReason::ToolUse)
    } else if value == "pause_turn"@ {
        Ok(StopReason::PauseTurn)
    } else if value == "refusal"@ {
        Ok(StopReason::Refusal)
    } else if value == "max_tokens"@ {
        Ok(StopReason::MaxTokens)
    } else if value == "model_context_window_exceeded"@ {
        Ok(StopReason::ContextWindow)
    } else {
        Err(named("unknown Messages stop reason "@, value))
    }
}

impl StopReason {
    /// The reason that a word stands for.
    pub fn parse(value: &str) -> (result: Result<StopReason, ApiError>)
        ensures
            match result {
                Ok(reason) => stop_reason(value@) == Ok::<StopReason, ErrorView>(reason),
                Err(error) => stop_reason(value@) == Err::<StopReason, ErrorView>(error@),
            },
    {
        if same_text(value, "end_turn") {
            Ok(StopReason::EndTurn)
        } else if same_text(value, "stop_sequence") {
            Ok(StopReason::StopSequence)
        } else if same_text(value, "tool_use") {
            Ok(StopReason::ToolUse)
        } else if same_text(value, "pause_turn") {
            Ok(StopReason::PauseTurn)
        } else if same_text(value, "refusal") {
            Ok(StopReason::Refusal)
        } else if same_text(value, "max_tokens") {
            Ok(StopReason::MaxTokens)
        } else if same_text(value, "model_context_window_exceeded") {
            Ok(StopReason::ContextWindow)
        } else {
            Err(named_error("unknown Messages stop reason ", value))
        }
    }
}

/// The arguments of a tool call: what the deltas spell, or else what the block
/// started with; an object either way.
pub open spec fn call_arguments(initial: JsonView, delta: Seq<char>) -> Outcome<JsonView> {
    let arguments = if delta.len() == 0 {
        Some(initial)
    } else {
        parsed(delta)
    };
    match arguments {
        None => Err(ErrorView::Invalid("Messages returned invalid tool arguments"@)),
        Some(value) => if value is Object {
            Ok(value)
        } else {
            Err(ErrorView::Invalid("Messages returned non-object tool arguments"@))
        },
    }
}

fn tool_arguments(initial: &Json, delta: &str) -> (result: Result<Json, ApiError>)
    ensures
        json_outcome(result) == call_arguments(initial@, delta@),
{
    let arguments = if delta.is_empty() {
        Some(initial.clone())
    } else {
        Json::parse(delta)
    };
    match arguments {
        None => Err(invalid("Messages returned invalid tool arguments")),
        Some(value) => if value.is_object() {
            Ok(value)
        } else {
            Err(invalid("Messages returned non-object tool arguments"))
        },
    }
}

/// The block that starts with a value.
pub open spec fn started_block(value: JsonView) -> Outcome<BlockView> {
    match needed_str(value, "type"@, "Messages content_block_start event"@) {
        Err(error) => Err(error),
        Ok(kind) => if kind == "text"@ {
            match needed_str(value, "text"@, "Messages text content block"@) {
                Err(error) => Err(error),
                Ok(text) => Ok(BlockView::Text(text)),
            }
        } else if kind == "thinking"@ {
            match needed_str(value, "thinking"@, "Messages thinking content block"@) {
                Err(error) => Err(error),
                Ok(thinking) => match needed_str(
                    value,
                    "signature"@,
                    "Messages thinking content block"@,
                ) {
                    Err(error) => Err(error),
                    Ok(signature) => Ok(BlockView::Thinking { thinking, signature }),
                },
            }
        } else if kind == "redacted_thinking"@ {
            match needed_nonempty(value, "data"@, "Messages redacted_thinking content block"@) {
                Err(error) => Err(error),
                Ok(data) => Ok(BlockView::RedactedThinking { data }),
            }
        } else if kind == "tool_use"@ {
            if value.field("input"@) is Object {
                match needed_nonempty(value, "id"@, "Messages tool_use content block"@) {
                    Err(error) => Err(error),
                    Ok(call_id) => match needed_nonempty(
                        value,
                        "name"@,
                        "Messages tool_use content block"@,
                    ) {
                        Err(error) => Err(error),
                        Ok(name) => Ok(
                            BlockView::ToolUse {
                                call_id,
                                name,
                                initial_arguments: value.field("input"@),
                                argument_delta: Seq::empty(),
                            },
                        ),
                    },
                }
            } else {
                Err(
                    ErrorView::Invalid(
                        "Messages tool_use content block omitted object field input"@,
                    ),
                )
            }
        } else {
            Err(named("unknown Messages content block "@, kind))
        },
    }
}

/// The block with a delta.
pub open spec fn extended_block(block: BlockView, index: u64, delta: JsonView) -> Outcome<
    BlockView,
> {
    match needed_str(delta, "type"@, "Messages content_block_delta event"@) {
        Err(error) => Err(error),
        Ok(kind) => if kind == "text_delta"@ {
            match block {
                BlockView::Text(text) => match needed_str(
                    delta,
                    "text"@,
                    "Messages text_delta event"@,
                ) {
                    Err(error) => Err(error),
                    Ok(more) => Ok(BlockView::Text(text + more)),
                },
                _ => Err(
                    numbered("Messages text_delta referenced non-text content block "@, index),
                ),
            }
        } else if kind == "thinking_delta"@ {
            match block {
                BlockView::Thinking { thinking, signature } => match needed_str(
                    delta,
                    "thinking"@,
                    "Messages thinking_delta event"@,
                ) {
                    Err(error) => Err(error),
                    Ok(more) => Ok(BlockView::Thinking { thinking: thinking + more, signature }),
                },
                _ => Err(
                    numbered(
                        "Messages thinking_delta referenced non-thinking content block "@,
                        index,
                    ),
                ),
            }
        } else if kind == "signature_delta"@ {
            match block {
                BlockView::Thinking { thinking, signature } => match needed_str(
                    delta,
                    "signature"@,
                    "Messages signature_delta event"@,
                ) {
                    Err(error) => Err(error),
                    Ok(more) => Ok(BlockView::Thinking { thinking, signature: signature + more }),
                },
                _ => Err(
                    numbered(
                        "Messages signature_delta referenced non-thinking content block "@,
                        index,
                    ),
                ),
            }
        } else if kind == "input_json_delta"@ {
            match block {
                BlockView::ToolUse { call_id, name, initial_arguments, argument_delta } => {
                    match needed_str(delta, "partial_json"@, "Messages input_json_delta event"@) {
                        Err(error) => Err(error),
                        Ok(more) => Ok(
                            BlockView::ToolUse {
                                call_id,
                                name,
                                initial_arguments,
                                argument_delta: argument_delta + more,
                            },
                        ),
                    }
                },
                _ => Err(
                    numbered(
                        "Messages input_json_delta referenced non-tool content block "@,
                        index,
                    ),
                ),
            }
        } else if kind == "citations_delta"@ {
            match block {
                BlockView::Text(_) => if delta.field("citation"@) is Object {
                    Ok(block)
                } else {
                    Err(
                        ErrorView::Invalid(
                            "Messages citations_delta event omitted object field citation"@,
                        ),
                    )
                },
                _ => Err(
                    numbered("Messages citations_delta referenced non-text content block "@, index),
                ),
            }
        } else {
            Err(named("unknown Messages delta "@, kind))
        },
    }
}

/// Why a block cannot end as it is.
pub open spec fn stop_problem(block: BlockView) -> Option<ErrorView> {
    match block {
        BlockView::ToolUse { initial_arguments, argument_delta, .. } => match call_arguments(
            initial_arguments,
            argument_delta,
        ) {
            Err(error) => Some(error),
            Ok(_) => None,
        },
        BlockView::Thinking { signature, .. } => if signature.len() == 0 {
            Some(ErrorView::Invalid("Messages thinking content block omitted signature"@))
        } else {
            None
        },
        _ => None,
    }
}

/// An answer as far as it has come in.
pub struct GatherView {
    pub blocks: Seq<(u64, OpenView)>,
    pub usage: JsonView,
    pub stop_reason: Option<StopReason>,
    pub started: bool,
    pub stopped: bool,
}

/// An answer of which nothing has come in.
pub open spec fn nothing() -> GatherView {
    GatherView {
        blocks: Seq::empty(),
        usage: JsonView::object(),
        stop_reason: None,
        started: false,
        stopped: false,
    }
}

/// Where the field `key` stands; the number of fields where it does not.
pub open spec fn field_at(fields: Seq<(Seq<char>, JsonView)>, key: Seq<char>) -> int
    decreases fields.len(),
{
    if fields.len() == 0 || fields[0].0 == key {
        0
    } else {
        1 + field_at(fields.skip(1), key)
    }
}

/// The fields with `value` under `key`.
pub open spec fn with_field(
    fields: Seq<(Seq<char>, JsonView)>,
    key: Seq<char>,
    value: JsonView,
) -> Seq<(Seq<char>, JsonView)> {
    let at = field_at(fields, key);
    if at < fields.len() {
        fields.update(at, (key, value))
    } else {
        fields.push((key, value))
    }
}

/// The fields of `target` with the first `count` fields of `update` in the place
/// of those of the same name.
pub open spec fn merged_fields(
    target: Seq<(Seq<char>, JsonView)>,
    update: Seq<(Seq<char>, JsonView)>,
    count: nat,
) -> Seq<(Seq<char>, JsonView)>
    decreases count,
{
    if count == 0 {
        target
    } else {
        with_field(
            merged_fields(target, update, (count - 1) as nat),
            update[count - 1].0,
            update[count - 1].1,
        )
    }
}

/// Two objects merged; anything else as it was.
pub open spec fn merged(target: JsonView, update: JsonView) -> JsonView {
    match (target, update) {
        (JsonView::Object(fields), JsonView::Object(more)) => JsonView::Object(
            merged_fields(fields, more, more.len()),
        ),
        _ => target,
    }
}

proof fn lemma_field_at(fields: Seq<(Seq<char>, JsonView)>, key: Seq<char>)
    ensures
        0 <= field_at(fields, key) <= fields.len(),
        field_at(fields, key) < fields.len() ==> fields[field_at(fields, key)].0 == key,
        forall|i: int| 0 <= i < field_at(fields, key) ==> (#[trigger] fields[i]).0 != key,
        lookup(fields, key) == (if field_at(fields, key) < fields.len() {
            Some(fields[field_at(fields, key)].1)
        } else {
            None
        }),
    decreases fields.len(),
{
    if fields.len() > 0 && fields[0].0 != key {
        let rest = fields.skip(1);
        lemma_field_at(rest, key);
        assert forall|i: int| 0 <= i < field_at(fields, key) implies (#[trigger] fields[i]).0
            != key by {
            if i > 0 {
                assert(rest[i - 1] == fields[i]);
            }
        }
    }
}

proof fn lemma_field_at_is(fields: Seq<(Seq<char>, JsonView)>, key: Seq<char>, at: int)
    requires
        0 <= at <= fields.len(),
        forall|i: int| 0 <= i < at ==> (#[trigger] fields[i]).0 != key,
        at < fields.len() ==> fields[at].0 == key,
    ensures
        field_at(fields, key) == at,
{
    lemma_field_at(fields, key);
    let found = field_at(fields, key);
    if found < at {
        assert(fields[found].0 != key);
    }
    if at < found {
        assert(fields[at].0 != key);
    }
}

/// Later usage wins: a field of the update is found in the merged object, and a
/// field that the update lacks stays as it was.
pub proof fn law_merged_usage(
    fields: Seq<(Seq<char>, JsonView)>,
    key: Seq<char>,
    value: JsonView,
    other: Seq<char>,
)
    ensures
        lookup(with_field(fields, key, value), key) == Some(value),
        other != key ==> lookup(with_field(fields, key, value), other) == lookup(fields, other),
{
    let after = with_field(fields, key, value);
    lemma_field_at(fields, key);
    lemma_field_at(fields, other);
    let at = field_at(fields, key);
    assert forall|i: int| 0 <= i < at implies (#[trigger] after[i]).0 != key by {
        assert(fields[i].0 != key);
    }
    lemma_field_at_is(after, key, at);
    lemma_field_at(after, key);
    lemma_field_at(after, other);
    if other != key {
        let there = field_at(fields, other);
        if there < fields.len() {
            assert forall|i: int| 0 <= i < there implies (#[trigger] after[i]).0 != other by {
                assert(fields[i].0 != other);
            }
            lemma_field_at_is(after, other, there);
        } else {
            assert forall|i: int| 0 <= i < after.len() implies (#[trigger] after[i]).0 != other by {
                if i < fields.len() {
                    assert(fields[i].0 != other);
                }
            }
            lemma_field_at_is(after, other, after.len() as int);
        }
    }
}

fn set_field(fields: &mut Vec<(String, Json)>, key: &str, value: Json)
    ensures
        field_views(final(fields)@) == with_field(field_views(old(fields)@), key@, value@),
{
    let ghost before = field_views(fields@);
    let mut at: usize = 0;
    while at < fields.len() && !same_text(fields[at].0.as_str(), key)
        invariant
            at <= fields.len(),
            before == field_views(fields@),
            forall|i: int| 0 <= i < at ==> (#[trigger] before[i]).0 != key@,
        decreases fields.len() - at,
    {
        at += 1;
    }
    proof {
        lemma_field_at_is(before, key@, at as int);
    }
    if at < fields.len() {
        let (name, _) = fields.remove(at);
        fields.insert(at, (name, value));
    } else {
        fields.push((key.to_owned(), value));
    }
    assert(field_views(fields@) =~= with_field(before, key@, value@));
}

fn merge_usage(target: Json, update: &Json) -> (result: Json)
    ensures
        result@ == merged(target@, update@),
{
    proof {
        lemma_json_parts(target);
        lemma_json_parts(*update);
    }
    match (target, update) {
        (Json::Object(fields), Json::Object(more)) => {
            let mut fields = fields;
            let ghost start = field_views(fields@);
            let ghost all = field_views(more@);
            let mut i: usize = 0;
            while i < more.len()
                invariant
                    i <= more.len(),
                    all == field_views(more@),
                    field_views(fields@) == merged_fields(start, all, i as nat),
                decreases more.len() - i,
            {
                set_field(&mut fields, more[i].0.as_str(), more[i].1.clone());
                i += 1;
            }
            let result = Json::Object(fields);
            proof {
                lemma_json_parts(result);
            }
            result
        },
        (other, _) => other,
    }
}

/// The answer after the start of a block.
pub open spec fn after_start(state: GatherView, frame: JsonView) -> Outcome<GatherView> {
    match needed_u64(frame, "index"@, "Messages content_block_start event"@) {
        Err(error) => Err(error),
        Ok(index) => if entry(state.blocks, index) is Some {
            Err(numbered("Messages started duplicate content block "@, index))
        } else {
            match started_block(frame.field("content_block"@)) {
                Err(error) => Err(error),
                Ok(content) => Ok(
                    GatherView {
                        blocks: put(
                            state.blocks,
                            index,
                            OpenView { content, stopped: false },
                        ),
                        ..state
                    },
                ),
            }
        },
    }
}

/// The answer after a delta.
pub open spec fn after_delta(state: GatherView, frame: JsonView) -> Outcome<GatherView> {
    match needed_u64(frame, "index"@, "Messages content_block_delta event"@) {
        Err(error) => Err(error),
        Ok(index) => match entry(state.blocks, index) {
            None => Err(numbered("Messages delta referenced unknown content block "@, index)),
            Some(block) => if block.stopped {
                Err(numbered("Messages delta followed content_block_stop for block "@, index))
            } else {
                match extended_block(block.content, index, frame.field("delta"@)) {
                    Err(error) => Err(error),
                    Ok(content) => Ok(
                        GatherView {
                            blocks: put(
                                state.blocks,
                                index,
                                OpenView { content, stopped: false },
                            ),
                            ..state
                        },
                    ),
                }
            },
        },
    }
}

/// The answer after the end of a block.
pub open spec fn after_stop(state: GatherView, frame: JsonView) -> Outcome<GatherView> {
    match needed_u64(frame, "index"@, "Messages content_block_stop event"@) {
        Err(error) => Err(error),
        Ok(index) => match entry(state.blocks, index) {
            None => Err(numbered("Messages stopped unknown content block "@, index)),
            Some(block) => if block.stopped {
                Err(
                    ErrorView::Invalid(
                        "Messages stopped content block "@ + crate::text::decimal(index as int)
                            + " more than once"@,
                    ),
                )
            } else {
                match stop_problem(block.content) {
                    Some(error) => Err(error),
                    None => Ok(
                        GatherView {
                            blocks: put(
                                state.blocks,
                                index,
                                OpenView { content: block.content, stopped: true },
                            ),
                            ..state
                        },
                    ),
                }
            },
        },
    }
}

/// The answer after news of the whole message.
pub open spec fn after_message_delta(state: GatherView, frame: JsonView) -> Outcome<GatherView> {
    let usage = match frame.get("usage"@) {
        Some(update) => merged(state.usage, update),
        None => state.usage,
    };
    match frame.field("delta"@).get("stop_reason"@) {
        None => Err(
            ErrorView::Invalid("Messages message_delta event omitted field stop_reason"@),
        ),
        Some(value) => if value is Null {
            Ok(GatherView { usage, ..state })
        } else {
            match value.as_str() {
                None => Err(
                    ErrorView::Invalid(
                        "Messages message_delta event field stop_reason was not a string or null"@,
                    ),
                ),
                Some(word) => if state.stop_reason is Some {
                    Err(ErrorView::Invalid("Messages returned multiple stop reasons"@))
                } else {
                    match stop_reason(word) {
                        Err(error) => Err(error),
                        Ok(reason) => Ok(
                            GatherView { usage, stop_reason: Some(reason), ..state },
                        ),
                    }
                },
            }
        },
    }
}

/// The answer after a frame.
pub open spec fn after_frame(state: GatherView, frame: JsonView) -> Outcome<GatherView> {
    match needed_str(frame, "type"@, "Messages stream event"@) {
        Err(error) => Err(error),
        Ok(kind) => if kind == "error"@ {
            Err(frame_error(frame))
        } else if kind == "message_start"@ {
            if state.started {
                Err(ErrorView::Invalid("Messages returned multiple message_start events"@))
            } else if state.stopped {
                Err(ErrorView::Invalid("Messages started after message_stop"@))
            } else {
                Ok(
                    GatherView {
                        started: true,
                        usage: frame.field("message"@).field("usage"@),
                        ..state
                    },
                )
            }
        } else if kind == "content_block_start"@ {
            if !state.started {
                Err(ErrorView::Invalid("Messages content block preceded message_start"@))
            } else if state.stopped {
                Err(ErrorView::Invalid("Messages content block followed message_stop"@))
            } else {
                after_start(state, frame)
            }
        } else if kind == "content_block_delta"@ {
            if state.stopped {
                Err(ErrorView::Invalid("Messages delta followed message_stop"@))
            } else {
                after_delta(state, frame)
            }
        } else if kind == "content_block_stop"@ {
            if state.stopped {
                Err(ErrorView::Invalid("Messages content block followed message_stop"@))
            } else {
                after_stop(state, frame)
            }
        } else if kind == "message_delta"@ {
            if !state.started {
                Err(ErrorView::Invalid("Messages message_delta preceded message_start"@))
            } else if state.stopped {
                Err(ErrorView::Invalid("Messages message_delta followed message_stop"@))
            } else {
                after_message_delta(state, frame)
            }
        } else if kind == "message_stop"@ {
            if !state.started {
                Err(ErrorView::Invalid("Messages message_stop preceded message_start"@))
            } else if state.stopped {
                Err(ErrorView::Invalid("Messages returned multiple message_stop events"@))
            } else {
                Ok(GatherView { stopped: true, ..state })
            }
        } else if kind == "ping"@ {
            Ok(state)
        } else {
            Err(named("unknown Messages event "@, kind))
        },
    }
}

/// The answer of the first `count` frames.
pub open spec fn gathered(frames: Seq<JsonView>, count: nat) -> Outcome<GatherView>
    decreases count,
{
    if count == 0 {
        Ok(nothing())
    } else {
        match gathered(frames, (count - 1) as nat) {
            Ok(state) => after_frame(state, frames[count - 1]),
            Err(error) => Err(error),
        }
    }
}

/// A whole answer: its blocks in the order of their index, its usage, and why it
/// ended.
pub struct MessageView {
    pub blocks: Seq<BlockView>,
    pub usage: JsonView,
    pub stop_reason: StopReason,
    pub model: Seq<char>,
}

/// The answer that the frames hold.
pub open spec fn whole(frames: Seq<JsonView>, model: Seq<char>) -> Outcome<MessageView> {
    match gathered(frames, frames.len()) {
        Err(error) => Err(error),
        Ok(state) => if !state.stopped {
            Err(ErrorView::Incomplete("Messages"@))
        } else if exists|i: int|
            0 <= i < state.blocks.len() && !(#[trigger] state.blocks[i]).1.stopped {
            Err(ErrorView::Invalid("Messages stopped with an open content block"@))
        } else {
            match state.stop_reason {
                None => Err(ErrorView::Invalid("Messages response omitted stop_reason"@)),
                Some(stop_reason) => Ok(
                    MessageView {
                        blocks: Seq::new(
                            state.blocks.len(),
                            |i: int| state.blocks[i].1.content,
                        ),
                        usage: state.usage,
                        stop_reason,
                        model,
                    },
                ),
            }
        },
    }
}

/// A whole answer.
#[derive(Debug, PartialEq)]
pub struct Message {
    pub blocks: Vec<Block>,
    pub usage: Json,
    pub stop_reason: StopReason,
    pub model: String,
}

/// What a sequence of blocks stands for.
pub open spec fn content_views(blocks: Seq<Block>) -> Seq<BlockView> {
    Seq::new(blocks.len(), |i: int| blocks[i]@)
}

impl View for Message {
    type V = MessageView;

    open spec fn view(&self) -> MessageView {
        MessageView {
            blocks: content_views(self.blocks@),
            usage: self.usage@,
            stop_reason: self.stop_reason,
            model: self.model@,
        }
    }
}

struct Gather {
    blocks: Vec<(u64, OpenBlock)>,
    usage: Json,
    stop_reason: Option<StopReason>,
    started: bool,
    stopped: bool,
}

impl View for Gather {
    type V = GatherView;

    closed spec fn view(&self) -> GatherView {
        GatherView {
            blocks: block_views(self.blocks@),
            usage: self.usage@,
            stop_reason: self.stop_reason,
            started: self.started,
            stopped: self.stopped,
        }
    }
}

/// What a block or an error stands for.
pub open spec fn block_outcome(result: Result<Block, ApiError>) -> Outcome<BlockView> {
    match result {
        Ok(block) => Ok(block@),
        Err(error) => Err(error@),
    }
}

fn start_block(value: &Json) -> (result: Result<Block, ApiError>)
    ensures
        block_outcome(result) == started_block(value@),
{
    let kind = match required_str(value, "type", "Messages content_block_start event") {
        Ok(kind) => kind,
        Err(error) => {
            return Err(error);
        },
    };
    if same_text(kind, "text") {
        match required_str(value, "text", "Messages text content block") {
            Err(error) => Err(error),
            Ok(text) => Ok(Block::Text(text.to_owned())),
        }
    } else if same_text(kind, "thinking") {
        let thinking = match required_str(value, "thinking", "Messages thinking content block") {
            Ok(thinking) => thinking.to_owned(),
            Err(error) => {
                return Err(error);
            },
        };
        match required_str(value, "signature", "Messages thinking content block") {
            Err(error) => Err(error),
            Ok(signature) => Ok(Block::Thinking { thinking, signature: signature.to_owned() }),
        }
    } else if same_text(kind, "redacted_thinking") {
        match required_nonempty_str(value, "data", "Messages redacted_thinking content block") {
            Err(error) => Err(error),
            Ok(data) => Ok(Block::RedactedThinking { data: data.to_owned() }),
        }
    } else if same_text(kind, "tool_use") {
        let input = value.field("input");
        if !input.is_object() {
            return Err(invalid("Messages tool_use content block omitted object field input"));
        }
        let call_id = match required_nonempty_str(value, "id", "Messages tool_use content block") {
            Ok(call_id) => call_id.to_owned(),
            Err(error) => {
                return Err(error);
            },
        };
        match required_nonempty_str(value, "name", "Messages tool_use content block") {
            Err(error) => Err(error),
            Ok(name) => Ok(
                Block::ToolUse {
                    call_id,
                    name: name.to_owned(),
                    initial_arguments: input,
                    argument_delta: String::new(),
                },
            ),
        }
    } else {
        Err(named_error("unknown Messages content block ", kind))
    }
}

fn extend_block(block: Block, index: u64, delta: &Json) -> (result: Result<Block, ApiError>)
    ensures
        block_outcome(result) == extended_block(block@, index, delta@),
{
    let kind = match required_str(delta, "type", "Messages content_block_delta event") {
        Ok(kind) => kind,
        Err(error) => {
            return Err(error);
        },
    };
    if same_text(kind, "text_delta") {
        match block {
            Block::Text(text) => match required_str(delta, "text", "Messages text_delta event") {
                Err(error) => Err(error),
                Ok(more) => {
                    let mut text = text;
                    text.push_str(more);
                    Ok(Block::Text(text))
                },
            },
            _ => Err(
                numbered_error("Messages text_delta referenced non-text content block ", index),
            ),
        }
    } else if same_text(kind, "thinking_delta") {
        match block {
            Block::Thinking { thinking, signature } => match required_str(
                delta,
                "thinking",
                "Messages thinking_delta event",
            ) {
                Err(error) => Err(error),
                Ok(more) => {
                    let mut thinking = thinking;
                    thinking.push_str(more);
                    Ok(Block::Thinking { thinking, signature })
                },
            },
            _ => Err(
                numbered_error(
                    "Messages thinking_delta referenced non-thinking content block ",
                    index,
                ),
            ),
        }
    } else if same_text(kind, "signature_delta") {
        match block {
            Block::Thinking { thinking, signature } => match required_str(
                delta,
                "signature",
                "Messages signature_delta event",
            ) {
                Err(error) => Err(error),
                Ok(more) => {
                    let mut signature = signature;
                    signature.push_str(more);
                    Ok(Block::Thinking { thinking, signature })
                },
            },
            _ => Err(
                numbered_error(
                    "Messages signature_delta referenced non-thinking content block ",
                    index,
                ),
            ),
        }
    } else if same_text(kind, "input_json_delta") {
        match block {
            Block::ToolUse { call_id, name, initial_arguments, argument_delta } => {
                match required_str(delta, "partial_json", "Messages input_json_delta event") {
                    Err(error) => Err(error),
                    Ok(more) => {
                        let mut argument_delta = argument_delta;
                        argument_delta.push_str(more);
                        Ok(Block::ToolUse { call_id, name, initial_arguments, argument_delta })
                    },
                }
            },
            _ => Err(
                numbered_error(
                    "Messages input_json_delta referenced non-tool content block ",
                    index,
                ),
            ),
        }
    } else if same_text(kind, "citations_delta") {
        match block {
            Block::Text(_) => if delta.field("citation").is_object() {
                Ok(block)
            } else {
                Err(invalid("Messages citations_delta event omitted object field citation"))
            },
            _ => Err(
                numbered_error("Messages citations_delta referenced non-text content block ", index),
            ),
        }
    } else {
        Err(named_error("unknown Messages delta ", kind))
    }
}

fn find_stop_problem(block: &Block) -> (problem: Option<ApiError>)
    ensures
        match problem {
            Some(error) => stop_problem(block@) == Some(error@),
            None => stop_problem(block@) is None,
        },
{
    match block {
        Block::ToolUse { initial_arguments, argument_delta, .. } => match tool_arguments(
            initial_arguments,
            argument_delta.as_str(),
        ) {
            Err(error) => Some(error),
            Ok(_) => None,
        },
        Block::Thinking { signature, .. } => if signature.as_str().is_empty() {
            Some(invalid("Messages thinking content block omitted signature"))
        } else {
            None
        },
        _ => None,
    }
}

/// Whether a step went as it should.
spec fn step_ok(outcome: Outcome<GatherView>, problem: Option<ApiError>, after: GatherView) -> bool {
    match problem {
        Some(error) => outcome == Err::<GatherView, ErrorView>(error@),
        None => outcome == Ok::<GatherView, ErrorView>(after),
    }
}

impl Gather {
    /// Takes the block `index` out of its place, which is given too.
    fn take(&mut self, index: u64) -> (taken: (usize, Option<OpenBlock>))
        ensures
            match taken.1 {
                Some(block) => entry(old(self)@.blocks, index) == Some(block@)
                    && final(self).blocks@ == old(self).blocks@.remove(taken.0 as int),
                None => entry(old(self)@.blocks, index) is None && final(self).blocks@ == old(
                    self,
                ).blocks@,
            },
            taken.0 == rank(old(self)@.blocks, index),
            taken.0 <= final(self).blocks.len(),
            final(self).usage == old(self).usage,
            final(self).stop_reason == old(self).stop_reason,
            final(self).started == old(self).started,
            final(self).stopped == old(self).stopped,
    {
        let at = position(&self.blocks, index);
        proof {
            lemma_same_keys(self.blocks@, block_views(self.blocks@), index);
        }
        if at < self.blocks.len() && self.blocks[at].0 == index {
            let (_, block) = self.blocks.remove(at);
            (at, Some(block))
        } else {
            (at, None)
        }
    }

    fn start(&mut self, frame: &Json) -> (problem: Option<ApiError>)
        ensures
            step_ok(after_start(old(self)@, frame@), problem, final(self)@),
    {
        let index = match required_u64(frame, "index", "Messages content_block_start event") {
            Ok(index) => index,
            Err(error) => {
                return Some(error);
            },
        };
        let ghost before = self@.blocks;
        let ghost old_blocks = self.blocks@;
        let (at, found) = self.take(index);
        if found.is_some() {
            return Some(numbered_error("Messages started duplicate content block ", index));
        }
        match start_block(&frame.field("content_block")) {
            Err(error) => Some(error),
            Ok(content) => {
                let open = OpenBlock { content, stopped: false };
                self.blocks.insert(at, (index, open));
                assert(block_views(self.blocks@) =~= put(before, index, open@));
                None
            },
        }
    }

    fn delta(&mut self, frame: &Json) -> (problem: Option<ApiError>)
        ensures
            step_ok(after_delta(old(self)@, frame@), problem, final(self)@),
    {
        let index = match required_u64(frame, "index", "Messages content_block_delta event") {
            Ok(index) => index,
            Err(error) => {
                return Some(error);
            },
        };
        let ghost before = self@.blocks;
        let ghost old_blocks = self.blocks@;
        let (at, found) = self.take(index);
        let block = match found {
            Some(block) => block,
            None => {
                return Some(
                    numbered_error("Messages delta referenced unknown content block ", index),
                );
            },
        };
        if block.stopped {
            return Some(
                numbered_error("Messages delta followed content_block_stop for block ", index),
            );
        }
        match extend_block(block.content, index, &frame.field("delta")) {
            Err(error) => Some(error),
            Ok(content) => {
                let open = OpenBlock { content, stopped: false };
                self.blocks.insert(at, (index, open));
                assert(block_views(self.blocks@) =~= put(before, index, open@));
                None
            },
        }
    }

    fn stop(&mut self, frame: &Json) -> (problem: Option<ApiError>)
        ensures
            step_ok(after_stop(old(self)@, frame@), problem, final(self)@),
    {
        let index = match required_u64(frame, "index", "Messages content_block_stop event") {
            Ok(index) => index,
            Err(error) => {
                return Some(error);
            },
        };
        let ghost before = self@.blocks;
        let ghost old_blocks = self.blocks@;
        let (at, found) = self.take(index);
        let block = match found {
            Some(block) => block,
            None => {
                return Some(numbered_error("Messages stopped unknown content block ", index));
            },
        };
        if block.stopped {
            let number = decimal_text(index as i128);
            return Some(
                ApiError::Invalid(
                    concat3(
                        "Messages stopped content block ",
                        number.as_str(),
                        " more than once",
                    ),
                ),
            );
        }
        match find_stop_problem(&block.content) {
            Some(error) => Some(error),
            None => {
                let open = OpenBlock { content: block.content, stopped: true };
                self.blocks.insert(at, (index, open));
                assert(block_views(self.blocks@) =~= put(before, index, open@));
                None
            },
        }
    }

    fn message_delta(&mut self, frame: &Json) -> (problem: Option<ApiError>)
        ensures
            step_ok(after_message_delta(old(self)@, frame@), problem, final(self)@),
    {
        match frame.get("usage") {
            Some(update) => {
                let usage = self.usage.clone();
                self.usage = merge_usage(usage, update);
            },
            None => {},
        }
        let delta = frame.field("delta");
        match delta.get("stop_reason") {
            None => Some(invalid("Messages message_delta event omitted field stop_reason")),
            Some(value) => if value.is_null() {
                None
            } else {
                match value.as_str() {
                    None => Some(
                        invalid(
                            "Messages message_delta event field stop_reason was not a string or null",
                        ),
                    ),
                    Some(word) => if self.stop_reason.is_some() {
                        Some(invalid("Messages returned multiple stop reasons"))
                    } else {
                        match StopReason::parse(word) {
                            Err(error) => Some(error),
                            Ok(reason) => {
                                self.stop_reason = Some(reason);
                                None
                            },
                        }
                    },
                }
            },
        }
    }

    fn frame(&mut self, frame: &Json) -> (problem: Option<ApiError>)
        ensures
            step_ok(after_frame(old(self)@, frame@), problem, final(self)@),
    {
        let kind = match required_str(frame, "type", "Messages stream event") {
            Ok(kind) => kind,
            Err(error) => {
                return Some(error);
            },
        };
        if same_text(kind, "error") {
            let value = frame.field("error").to_text();
            Some(ApiError::Invalid(concat2("Messages error: ", value.as_str())))
        } else if same_text(kind, "message_start") {
            if self.started {
                Some(invalid("Messages returned multiple message_start events"))
            } else if self.stopped {
                Some(invalid("Messages started after message_stop"))
            } else {
                self.started = true;
                self.usage = frame.nested("message", "usage");
                None
            }
        } else if same_text(kind, "content_block_start") {
            if !self.started {
                Some(invalid("Messages content block preceded message_start"))
            } else if self.stopped {
                Some(invalid("Messages content block followed message_stop"))
            } else {
                self.start(frame)
            }
        } else if same_text(kind, "content_block_delta") {
            if self.stopped {
                Some(invalid("Messages delta followed message_stop"))
            } else {
                self.delta(frame)
            }
        } else if same_text(kind, "content_block_stop") {
            if self.stopped {
                Some(invalid("Messages content block followed message_stop"))
            } else {
                self.stop(frame)
            }
        } else if same_text(kind, "message_delta") {
            if !self.started {
                Some(invalid("Messages message_delta preceded message_start"))
            } else if self.stopped {
                Some(invalid("Messages message_delta followed message_stop"))
            } else {
                self.message_delta(frame)
            }
        } else if same_text(kind, "message_stop") {
            if !self.started {
                Some(invalid("Messages message_stop preceded message_start"))
            } else if self.stopped {
                Some(invalid("Messages returned multiple message_stop events"))
            } else {
                self.stopped = true;
                None
            }
        } else if same_text(kind, "ping") {
            None
        } else {
            Some(named_error("unknown Messages event ", kind))
        }
    }
}

proof fn lemma_frames_stop(frames: Seq<JsonView>, count: nat, total: nat)
    requires
        count <= total,
        gathered(frames, count) is Err,
    ensures
        gathered(frames, total) == gathered(frames, count),
    decreases total,
{
    if count < total {
        lemma_frames_stop(frames, count, (total - 1) as nat);
    }
}

fn contents(blocks: Vec<(u64, OpenBlock)>) -> (result: Vec<Block>)
    ensures
        content_views(result@) == Seq::new(
            blocks@.len(),
            |i: int| block_views(blocks@)[i].1.content,
        ),
{
    let mut rest = blocks;
    let mut reversed: Vec<Block> = Vec::new();
    let ghost all = blocks@;
    while rest.len() > 0
        invariant
            rest.len() + reversed.len() == all.len(),
            rest@ == all.take(rest.len() as int),
            forall|i: int|
                0 <= i < reversed.len() ==> (#[trigger] reversed[i]) == all[all.len() - 1
                    - i].1.content,
        decreases rest.len(),
    {
        match rest.pop() {
            Some((_, open)) => {
                reversed.push(open.content);
            },
            None => {},
        }
    }
    let mut result: Vec<Block> = Vec::new();
    let ghost turned = reversed@;
    while reversed.len() > 0
        invariant
            reversed.len() + result.len() == all.len(),
            turned.len() == all.len(),
            reversed@ == turned.take(reversed.len() as int),
            forall|i: int|
                0 <= i < turned.len() ==> (#[trigger] turned[i]) == all[all.len() - 1
                    - i].1.content,
            forall|i: int| 0 <= i < result.len() ==> (#[trigger] result[i]) == all[i].1.content,
        decreases reversed.len(),
    {
        match reversed.pop() {
            Some(block) => {
                result.push(block);
            },
            None => {},
        }
    }
    assert(content_views(result@) =~= Seq::new(
        all.len(),
        |i: int| block_views(all)[i].1.content,
    ));
    result
}

impl Message {
    /// Puts an answer together from its frames.
    pub fn decode(frames: &Vec<Json>, model: &str) -> (result: Result<Message, ApiError>)
        ensures
            match result {
                Ok(message) => whole(json_views(frames@), model@) == Ok::<MessageView, ErrorView>(
                    message@,
                ),
                Err(error) => whole(json_views(frames@), model@) == Err::<MessageView, ErrorView>(
                    error@,
                ),
            },
    {
        let mut state = Gather {
            blocks: Vec::new(),
            usage: Json::object(),
            stop_reason: None,
            started: false,
            stopped: false,
        };
        assert(block_views(state.blocks@) =~= Seq::empty());
        let ghost all = json_views(frames@);
        let mut i: usize = 0;
        while i < frames.len()
            invariant
                i <= frames.len(),
                all == json_views(frames@),
                gathered(all, i as nat) == Ok::<GatherView, ErrorView>(state@),
            decreases frames.len() - i,
        {
            assert(all[i as int] == frames[i as int]@);
            match state.frame(&frames[i]) {
                Some(error) => {
                    proof {
                        lemma_frames_stop(all, (i + 1) as nat, all.len());
                    }
                    return Err(error);
                },
                None => {},
            }
            i += 1;
        }
        if !state.stopped {
            return Err(incomplete_stream("Messages"));
        }
        let ghost blocks = state@.blocks;
        let mut j: usize = 0;
        while j < state.blocks.len()
            invariant
                j <= state.blocks.len(),
                blocks == block_views(state.blocks@),
                forall|k: int| 0 <= k < j ==> (#[trigger] blocks[k]).1.stopped,
                state@.stopped,
                all == json_views(frames@),
                gathered(all, all.len()) == Ok::<GatherView, ErrorView>(state@),
                blocks == state@.blocks,
            decreases state.blocks.len() - j,
        {
            assert(blocks[j as int].1 == state.blocks[j as int].1@);
            if !state.blocks[j].1.stopped {
                return Err(invalid("Messages stopped with an open content block"));
            }
            j += 1;
        }
        let stop_reason = match state.stop_reason {
            Some(reason) => reason,
            None => {
                return Err(invalid("Messages response omitted stop_reason"));
            },
        };
        let Gather { blocks: open, usage, .. } = state;
        let message = Message {
            blocks: contents(open),
            usage,
            stop_reason,
            model: model.to_owned(),
        };
        proof {
            assert(message@.blocks =~= Seq::new(blocks.len(), |k: int| blocks[k].1.content));
        }
        Ok(message)
    }
}

/// Whether an answer that ended for this reason is final.
pub open spec fn is_final(reason: StopReason) -> bool {
    reason == StopReason::EndTurn || reason == StopReason::StopSequence || reason
        == StopReason::Refusal
}

/// The phase of the text of an answer.
pub open spec fn phase_of(reason: StopReason) -> AssistantMessagePhase {
    if is_final(reason) {
        AssistantMessagePhase::FinalAnswer
    } else {
        AssistantMessagePhase::Commentary
    }
}

/// Whether a block calls a tool.
pub open spec fn has_tool(blocks: Seq<BlockView>) -> bool {
    exists|i: int| 0 <= i < blocks.len() && (#[trigger] blocks[i]) is ToolUse
}

/// Whether a block is text.
pub open spec fn has_text(blocks: Seq<BlockView>) -> bool {
    exists|i: int| 0 <= i < blocks.len() && (#[trigger] blocks[i]) is Text
}

/// Why an answer cannot be used as a whole.
pub open spec fn message_problem(message: MessageView) -> Option<ErrorView> {
    if message.stop_reason == StopReason::MaxTokens {
        Some(ErrorView::Invalid("Messages response reached max_tokens"@))
    } else if message.stop_reason == StopReason::ContextWindow {
        Some(ErrorView::Invalid("Messages response exceeded the model context window"@))
    } else if message.stop_reason == StopReason::ToolUse && !has_tool(message.blocks) {
        Some(ErrorView::Invalid("Messages stopped for tool_use without a tool block"@))
    } else if message.stop_reason != StopReason::ToolUse && has_tool(message.blocks) {
        Some(
            ErrorView::Invalid(
                "Messages returned a tool block with stop reason other than tool_use"@,
            ),
        )
    } else {
        None
    }
}

/// The part of the answer that a block is.
pub open spec fn block_response(block: BlockView, phase: AssistantMessagePhase, key: Seq<char>) -> Outcome<
    ResponseView,
> {
    match block {
        BlockView::Text(content) => Ok(ResponseView::AssistantMessage { content, phase }),
        BlockView::Thinking { thinking, signature } => Ok(
            ResponseView::Reasoning {
                summary: thinking,
                opaque: OpaqueView {
                    replay_key: key,
                    payload: JsonView::object().with_text("type"@, "thinking"@).with_text(
                        "thinking"@,
                        thinking,
                    ).with_text("signature"@, signature),
                },
            },
        ),
        BlockView::RedactedThinking { data } => Ok(
            ResponseView::Reasoning {
                summary: Seq::empty(),
                opaque: OpaqueView {
                    replay_key: key,
                    payload: JsonView::object().with_text("type"@, "redacted_thinking"@).with_text(
                        "data"@,
                        data,
                    ),
                },
            },
        ),
        BlockView::ToolUse { call_id, name, initial_arguments, argument_delta } => {
            match call_arguments(initial_arguments, argument_delta) {
                Err(error) => Err(error),
                Ok(arguments) => Ok(ResponseView::ToolCall { name, arguments, call_id }),
            }
        },
    }
}

/// The parts of the answer that the first `count` blocks are.
pub open spec fn block_events(
    blocks: Seq<BlockView>,
    phase: AssistantMessagePhase,
    key: Seq<char>,
    count: nat,
) -> Outcome<Seq<EventView>>
    decreases count,
{
    if count == 0 {
        Ok(Seq::empty())
    } else {
        match block_events(blocks, phase, key, (count - 1) as nat) {
            Err(error) => Err(error),
            Ok(before) => match block_response(blocks[count - 1], phase, key) {
                Err(error) => Err(error),
                Ok(response) => Ok(before.push(done(response))),
            },
        }
    }
}

/// A number, or the nearest one that fits `i64`.
pub open spec fn clamped(value: int) -> int {
    if value > i64::MAX {
        i64::MAX as int
    } else if value < i64::MIN {
        i64::MIN as int
    } else {
        value
    }
}

/// A count of tokens; zero where it is missing.
pub open spec fn count_of(value: JsonView, field: Seq<char>) -> int {
    match value.field(field).as_i64() {
        Some(number) => number as int,
        None => 0,
    }
}

/// The token usage in the library's terms. The total is the sum of the parts,
/// kept within `i64` at each step.
pub open spec fn usage_json(value: JsonView) -> JsonView {
    let input = count_of(value, "input_tokens"@);
    let cached = count_of(value, "cache_read_input_tokens"@);
    let cache_write = count_of(value, "cache_creation_input_tokens"@);
    let output = count_of(value, "output_tokens"@);
    JsonView::object().with("input_tokens"@, JsonView::Integer(input)).with(
        "cached_input_tokens"@,
        JsonView::Integer(cached),
    ).with("cache_write_input_tokens"@, JsonView::Integer(cache_write)).with(
        "output_tokens"@,
        JsonView::Integer(output),
    ).with(
        "total_tokens"@,
        JsonView::Integer(clamped(clamped(clamped(input + cached) + cache_write) + output)),
    )
}

/// The events of an answer.
pub open spec fn message_events(message: MessageView) -> Outcome<Seq<EventView>> {
    match message_problem(message) {
        Some(error) => Err(error),
        None => match block_events(
            message.blocks,
            phase_of(message.stop_reason),
            thinking_key(message.model),
            message.blocks.len(),
        ) {
            Err(error) => Err(error),
            Ok(events) => {
                let spoken = if !has_text(message.blocks) && is_final(message.stop_reason) {
                    events.push(
                        done(
                            ResponseView::AssistantMessage {
                                content: Seq::empty(),
                                phase: phase_of(message.stop_reason),
                            },
                        ),
                    )
                } else {
                    events
                };
                Ok(spoken.push(completed(Some(usage_json(message.usage)))))
            },
        },
    }
}

/// The sum, or the nearest number that fits.
fn saturating_sum(left: i64, right: i64) -> (sum: i64)
    ensures
        sum == clamped(left + right),
{
    let sum: i128 = left as i128 + right as i128;
    if sum > 0x7fff_ffff_ffff_ffff {
        0x7fff_ffff_ffff_ffff
    } else if sum < -0x8000_0000_0000_0000 {
        -0x8000_0000_0000_0000
    } else {
        sum as i64
    }
}

fn usage_value(value: &Json, field: &str) -> (number: i64)
    ensures
        number == count_of(value@, field@),
{
    match value.field(field).as_i64() {
        Some(number) => number,
        None => 0,
    }
}

/// The tokens that an answer took, as they are told everywhere.
pub fn normalize_usage(value: &Json) -> (usage: Json)
    ensures
        usage@ == usage_json(value@),
{
    let input = usage_value(value, "input_tokens");
    let cached = usage_value(value, "cache_read_input_tokens");
    let cache_write = usage_value(value, "cache_creation_input_tokens");
    let output = usage_value(value, "output_tokens");
    let total = saturating_sum(saturating_sum(saturating_sum(input, cached), cache_write), output);
    Json::object().with("input_tokens", Json::Integer(input as i128)).with(
        "cached_input_tokens",
        Json::Integer(cached as i128),
    ).with("cache_write_input_tokens", Json::Integer(cache_write as i128)).with(
        "output_tokens",
        Json::Integer(output as i128),
    ).with("total_tokens", Json::Integer(total as i128))
}

/// What a response or an error stands for.
pub open spec fn response_outcome(result: Result<ModelResponse, ApiError>) -> Outcome<
    ResponseView,
> {
    match result {
        Ok(response) => Ok(response@),
        Err(error) => Err(error@),
    }
}

fn respond(block: &Block, phase: AssistantMessagePhase, key: &str) -> (result: Result<
    ModelResponse,
    ApiError,
>)
    ensures
        response_outcome(result) == block_response(block@, phase, key@),
{
    match block {
        Block::Text(content) => Ok(
            ModelResponse::AssistantMessage { content: content.clone(), phase },
        ),
        Block::Thinking { thinking, signature } => Ok(
            ModelResponse::Reasoning {
                summary: thinking.clone(),
                opaque: OpaqueState {
                    replay_key: key.to_owned(),
                    payload: Json::object().with_text("type", "thinking").with_text(
                        "thinking",
                        thinking.as_str(),
                    ).with_text("signature", signature.as_str()),
                },
            },
        ),
        Block::RedactedThinking { data } => Ok(
            ModelResponse::Reasoning {
                summary: String::new(),
                opaque: OpaqueState {
                    replay_key: key.to_owned(),
                    payload: Json::object().with_text("type", "redacted_thinking").with_text(
                        "data",
                        data.as_str(),
                    ),
                },
            },
        ),
        Block::ToolUse { call_id, name, initial_arguments, argument_delta } => {
            match tool_arguments(initial_arguments, argument_delta.as_str()) {
                Err(error) => Err(error),
                Ok(arguments) => Ok(
                    ModelResponse::ToolCall {
                        name: name.clone(),
                        arguments,
                        call_id: call_id.clone(),
                    },
                ),
            }
        },
    }
}

proof fn lemma_blocks_stop(
    blocks: Seq<BlockView>,
    phase: AssistantMessagePhase,
    key: Seq<char>,
    count: nat,
    total: nat,
)
    requires
        count <= total,
        block_events(blocks, phase, key, count) is Err,
    ensures
        block_events(blocks, phase, key, total) == block_events(blocks, phase, key, count),
    decreases total,
{
    if count < total {
        lemma_blocks_stop(blocks, phase, key, count, (total - 1) as nat);
    }
}

impl Message {
    fn find_kinds(&self) -> (found: (bool, bool))
        ensures
            found.0 == has_tool(self@.blocks),
            found.1 == has_text(self@.blocks),
    {
        let mut tool = false;
        let mut text = false;
        let ghost all = content_views(self.blocks@);
        let mut i: usize = 0;
        while i < self.blocks.len()
            invariant
                i <= self.blocks.len(),
                all == content_views(self.blocks@),
                tool == (exists|k: int| 0 <= k < i && (#[trigger] all[k]) is ToolUse),
                text == (exists|k: int| 0 <= k < i && (#[trigger] all[k]) is Text),
            decreases self.blocks.len() - i,
        {
            assert(all[i as int] == self.blocks[i as int]@);
            match &self.blocks[i] {
                Block::ToolUse { .. } => {
                    tool = true;
                },
                Block::Text(_) => {
                    text = true;
                },
                _ => {},
            }
            i += 1;
        }
        (tool, text)
    }

    /// The events of the answer.
    pub fn into_stream(&self) -> (result: Result<Vec<ModelEvent>, ApiError>)
        ensures
            events_outcome(result) == message_events(self@),
    {
        let (tool, text) = self.find_kinds();
        match self.stop_reason {
            StopReason::MaxTokens => {
                return Err(invalid("Messages response reached max_tokens"));
            },
            StopReason::ContextWindow => {
                return Err(invalid("Messages response exceeded the model context window"));
            },
            StopReason::ToolUse => if !tool {
                return Err(invalid("Messages stopped for tool_use without a tool block"));
            },
            _ => if tool {
                return Err(
                    invalid("Messages returned a tool block with stop reason other than tool_use"),
                );
            },
        }
        let final_answer = self.stop_reason == StopReason::EndTurn || self.stop_reason
            == StopReason::StopSequence || self.stop_reason == StopReason::Refusal;
        let phase = if final_answer {
            AssistantMessagePhase::FinalAnswer
        } else {
            AssistantMessagePhase::Commentary
        };
        let key = concat3("messages/", self.model.as_str(), "/thinking-v2");
        let ghost all = content_views(self.blocks@);
        let mut output: Vec<ModelEvent> = Vec::new();
        assert(event_views(output@) =~= Seq::empty());
        let mut i: usize = 0;
        while i < self.blocks.len()
            invariant
                i <= self.blocks.len(),
                all == content_views(self.blocks@),
                all == self@.blocks,
                key@ == thinking_key(self@.model),
                phase == phase_of(self.stop_reason),
                message_problem(self@) is None,
                block_events(all, phase, key@, i as nat) == Ok::<Seq<EventView>, ErrorView>(
                    event_views(output@),
                ),
            decreases self.blocks.len() - i,
        {
            assert(all[i as int] == self.blocks[i as int]@);
            match respond(&self.blocks[i], phase, key.as_str()) {
                Err(error) => {
                    proof {
                        lemma_blocks_stop(all, phase, key@, (i + 1) as nat, all.len());
                    }
                    return Err(error);
                },
                Ok(response) => {
                    emit_done(&mut output, response);
                },
            }
            i += 1;
        }
        if !text && final_answer {
            emit_done(
                &mut output,
                ModelResponse::AssistantMessage { content: String::new(), phase },
            );
        }
        emit_completed(&mut output, Some(normalize_usage(&self.usage)));
        Ok(output)
    }
}

/// Each reason to stop has its word, and no word has two.
pub proof fn law_stop_reasons_have_their_words(value: Seq<char>)
    ensures
        stop_reason(value) == Ok::<StopReason, ErrorView>(StopReason::EndTurn) <==> value
            == "end_turn"@,
        stop_reason(value) == Ok::<StopReason, ErrorView>(StopReason::StopSequence) <==> value
            == "stop_sequence"@,
        stop_reason(value) == Ok::<StopReason, ErrorView>(StopReason::ToolUse) <==> value
            == "tool_use"@,
        stop_reason(value) == Ok::<StopReason, ErrorView>(StopReason::PauseTurn) <==> value
            == "pause_turn"@,
        stop_reason(value) == Ok::<StopReason, ErrorView>(StopReason::Refusal) <==> value
            == "refusal"@,
        stop_reason(value) == Ok::<StopReason, ErrorView>(StopReason::MaxTokens) <==> value
            == "max_tokens"@,
        stop_reason(value) == Ok::<StopReason, ErrorView>(StopReason::ContextWindow) <==> value
            == "model_context_window_exceeded"@,
{
    reveal_strlit("end_turn");
    reveal_strlit("stop_sequence");
    reveal_strlit("tool_use");
    reveal_strlit("pause_turn");
    reveal_strlit("refusal");
    reveal_strlit("max_tokens");
    reveal_strlit("model_context_window_exceeded");
    assert("end_turn"@.len() == 8 && "stop_sequence"@.len() == 13 && "tool_use"@.len() == 8 && "pause_turn"@.len() == 10 && "refusal"@.len() == 7 && "max_tokens"@.len() == 10 && "model_context_window_exceeded"@.len() == 29);
    assert("end_turn"@[0] != "tool_use"@[0]);
    assert("pause_turn"@[0] != "max_tokens"@[0]);
}

/// A block begins with what its first event says of it, and is of the kind that the
/// event names.
pub proof fn law_block_begins_as_announced(value: JsonView)
    ensures
        started_block(value) matches Ok(block) ==> match block {
            BlockView::Text(text) => value.str_field("type"@) == Some("text"@) && value.str_field(
                "text"@,
            ) == Some(text),
            BlockView::Thinking { thinking, signature } => value.str_field("type"@) == Some(
                "thinking"@,
            ) && value.str_field("thinking"@) == Some(thinking) && value.str_field("signature"@)
                == Some(signature),
            BlockView::RedactedThinking { data } => value.str_field("type"@) == Some(
                "redacted_thinking"@,
            ) && value.str_field("data"@) == Some(data) && data.len() > 0,
            BlockView::ToolUse { call_id, name, initial_arguments, argument_delta } => {
                &&& value.str_field("type"@) == Some("tool_use"@)
                &&& value.str_field("id"@) == Some(call_id)
                &&& value.str_field("name"@) == Some(name)
                &&& value.get("input"@) == Some(initial_arguments)
                &&& call_id.len() > 0 && name.len() > 0 && initial_arguments is Object
                &&& argument_delta.len() == 0
            },
        },
        value.str_field("type"@) == Some("text"@) && value.str_field("text"@) is Some
            ==> started_block(value) is Ok,
        value.str_field("type"@) == Some("thinking"@) && value.str_field("thinking"@) is Some
            && value.str_field("signature"@) is Some ==> started_block(value) is Ok,
        value.str_field("type"@) == Some("redacted_thinking"@) && (value.str_field("data"@)
            matches Some(data) && data.len() > 0) ==> started_block(value) is Ok,
        value.str_field("type"@) == Some("tool_use"@) && value.field("input"@) is Object && (
        value.str_field("id"@) matches Some(id) && id.len() > 0) && (value.str_field("name"@)
            matches Some(name) && name.len() > 0) ==> started_block(value) is Ok,
{
    reveal_strlit("text");
    reveal_strlit("thinking");
    reveal_strlit("redacted_thinking");
    reveal_strlit("tool_use");
    assert("text"@.len() == 4 && "thinking"@.len() == 8 && "redacted_thinking"@.len() == 17 && "tool_use"@.len() == 8);
    assert("thinking"@[1] != "tool_use"@[1]);
}

/// A piece of a block is added to the end of what has come in of that part; the rest
/// of the block stays as it is, and a piece for another kind of block is refused.
pub proof fn law_pieces_are_added_in_order(block: BlockView, index: u64, delta: JsonView)
    ensures
        ({
            let kind = delta.str_field("type"@);
            let after = extended_block(block, index, delta);
            &&& kind == Some("text_delta"@) && delta.str_field("text"@) is Some ==> (after is Ok
                <==> block is Text)
            &&& kind == Some("thinking_delta"@) && delta.str_field("thinking"@) is Some ==> (after
                is Ok <==> block is Thinking)
            &&& kind == Some("signature_delta"@) && delta.str_field("signature"@) is Some ==> (after
                is Ok <==> block is Thinking)
            &&& kind == Some("input_json_delta"@) && delta.str_field("partial_json"@) is Some ==> (
            after is Ok <==> block is ToolUse)
            &&& after matches Ok(after) ==> match block {
                BlockView::Text(text) => after == BlockView::Text(
                    text + (if kind == Some("text_delta"@) {
                        delta.str_field("text"@)->0
                    } else {
                        Seq::empty()
                    }),
                ) && (kind == Some("text_delta"@) || kind == Some("citations_delta"@)),
                BlockView::Thinking { thinking, signature } => (kind == Some("thinking_delta"@)
                    && after == (BlockView::Thinking {
                    thinking: thinking + delta.str_field("thinking"@)->0,
                    signature,
                })) || (kind == Some("signature_delta"@) && after == (BlockView::Thinking {
                    thinking,
                    signature: signature + delta.str_field("signature"@)->0,
                })),
                BlockView::RedactedThinking { .. } => false,
                BlockView::ToolUse { call_id, name, initial_arguments, argument_delta } => kind
                    == Some("input_json_delta"@) && after == (BlockView::ToolUse {
                    call_id,
                    name,
                    initial_arguments,
                    argument_delta: argument_delta + delta.str_field("partial_json"@)->0,
                }),
            }
        }),
{
    reveal_strlit("text_delta");
    reveal_strlit("thinking_delta");
    reveal_strlit("signature_delta");
    reveal_strlit("input_json_delta");
    reveal_strlit("citations_delta");
    assert("text_delta"@.len() == 10 && "thinking_delta"@.len() == 14 && "signature_delta"@.len() == 15 && "input_json_delta"@.len() == 16 && "citations_delta"@.len() == 15);
    assert("signature_delta"@[0] != "citations_delta"@[0]);
    if let BlockView::Text(text) = block {
        assert(text + Seq::<char>::empty() =~= text);
    }
}

/// An answer begins once and ends once: it begins before all blocks, nothing but a
/// sign of life comes after its end, and an event that reports an error is one.
pub proof fn law_answer_begins_and_ends_once(state: GatherView, frame: JsonView)
    ensures
        ({
            let kind = frame.str_field("type"@);
            let after = after_frame(state, frame);
            &&& kind is None ==> after is Err
            &&& kind == Some("error"@) ==> after is Err
            &&& kind == Some("ping"@) ==> after == Ok::<GatherView, ErrorView>(state)
            &&& kind == Some("message_start"@) ==> (after is Ok <==> !state.started
                && !state.stopped)
            &&& kind == Some("message_stop"@) ==> (after is Ok <==> state.started && !state.stopped)
            &&& state.stopped && kind != Some("ping"@) ==> after is Err
            &&& !state.started && (kind == Some("content_block_start"@) || kind == Some(
                "message_delta"@,
            )) ==> after is Err
            &&& after matches Ok(after) ==> {
                &&& after.started <==> state.started || kind == Some("message_start"@)
                &&& after.stopped <==> state.stopped || kind == Some("message_stop"@)
                &&& kind != Some("content_block_start"@) && kind != Some("content_block_delta"@)
                    && kind != Some("content_block_stop"@) ==> after.blocks == state.blocks
                &&& kind != Some("message_delta"@) ==> after.stop_reason == state.stop_reason
                &&& kind != Some("message_delta"@) && kind != Some("message_start"@) ==> after.usage
                    == state.usage
            }
        }),
{
    reveal_strlit("error");
    reveal_strlit("message_start");
    reveal_strlit("content_block_start");
    reveal_strlit("content_block_delta");
    reveal_strlit("content_block_stop");
    reveal_strlit("message_delta");
    reveal_strlit("message_stop");
    reveal_strlit("ping");
    assert("error"@.len() == 5 && "message_start"@.len() == 13 && "content_block_start"@.len() == 19 && "content_block_delta"@.len() == 19 && "content_block_stop"@.len() == 18 && "message_delta"@.len() == 13 && "message_stop"@.len() == 12 && "ping"@.len() == 4);
    assert("message_start"@[8] != "message_delta"@[8]);
    assert("content_block_start"@[14] != "content_block_delta"@[14]);
}

/// The block that an event speaks of is the only one that it changes: it begins one
/// that was not there, adds a piece to one that is open, or ends one that is open.
pub proof fn law_only_the_named_block_changes(state: GatherView, frame: JsonView, other: u64)
    requires
        ordered(state.blocks),
        after_frame(state, frame) is Ok,
    ensures
        ({
            let kind = frame.str_field("type"@);
            let after = after_frame(state, frame)->Ok_0;
            let named = frame.field("index"@).as_u64();
            &&& ordered(after.blocks)
            &&& Some(other) != named ==> entry(after.blocks, other) == entry(state.blocks, other)
            &&& kind == Some("content_block_start"@) ==> {
                &&& named is Some
                &&& entry(state.blocks, named->0) is None
                &&& started_block(frame.field("content_block"@)) matches Ok(content) && entry(
                    after.blocks,
                    named->0,
                ) == Some(OpenView { content, stopped: false })
            }
            &&& kind == Some("content_block_delta"@) ==> {
                let block = entry(state.blocks, named->0);
                &&& named is Some
                &&& block is Some && !block->0.stopped
                &&& extended_block(block->0.content, named->0, frame.field("delta"@)) matches Ok(
                    content,
                ) && entry(after.blocks, named->0) == Some(OpenView { content, stopped: false })
            }
            &&& kind == Some("content_block_stop"@) ==> {
                let block = entry(state.blocks, named->0);
                &&& named is Some
                &&& block is Some && !block->0.stopped
                &&& entry(after.blocks, named->0) == Some(
                    OpenView { content: block->0.content, stopped: true },
                )
            }
        }),
{
    reveal_strlit("error");
    reveal_strlit("message_start");
    reveal_strlit("content_block_start");
    reveal_strlit("content_block_delta");
    reveal_strlit("content_block_stop");
    reveal_strlit("message_delta");
    reveal_strlit("message_stop");
    reveal_strlit("ping");
    assert("error"@.len() == 5 && "message_start"@.len() == 13 && "content_block_start"@.len() == 19 && "content_block_delta"@.len() == 19 && "content_block_stop"@.len() == 18 && "message_delta"@.len() == 13 && "message_stop"@.len() == 12 && "ping"@.len() == 4);
    assert("message_start"@[8] != "message_delta"@[8]);
    assert("content_block_start"@[14] != "content_block_delta"@[14]);
    if let Some(index) = frame.field("index"@).as_u64() {
        let after = after_frame(state, frame)->Ok_0;
        if entry(after.blocks, index) is Some {
            let value = entry(after.blocks, index)->0;
            crate::table::law_put_then_entry(state.blocks, index, value, other);
            crate::table::law_put_then_entry(state.blocks, index, value, index);
        }
        if let Some(block) = entry(state.blocks, index) {
            crate::table::law_put_then_entry(
                state.blocks,
                index,
                OpenView { content: block.content, stopped: true },
                other,
            );
            if let Ok(content) = extended_block(block.content, index, frame.field("delta"@)) {
                crate::table::law_put_then_entry(
                    state.blocks,
                    index,
                    OpenView { content, stopped: false },
                    other,
                );
            }
        }
        if let Ok(content) = started_block(frame.field("content_block"@)) {
            crate::table::law_put_then_entry(
                state.blocks,
                index,
                OpenView { content, stopped: false },
                other,
            );
        }
    }
}

proof fn lemma_gathered_in_order(frames: Seq<JsonView>, count: nat)
    requires
        count <= frames.len(),
        gathered(frames, count) is Ok,
    ensures
        ordered(gathered(frames, count)->Ok_0.blocks),
    decreases count,
{
    if count > 0 {
        lemma_gathered_in_order(frames, (count - 1) as nat);
        law_only_the_named_block_changes(
            gathered(frames, (count - 1) as nat)->Ok_0,
            frames[count - 1],
            0,
        );
    }
}

/// A whole answer has all its blocks, in the order of their numbers: it has ended, so
/// has each block, and the reason is known. Otherwise there is no answer.
pub proof fn law_answer_is_whole(frames: Seq<JsonView>, model: Seq<char>)
    requires
        gathered(frames, frames.len()) is Ok,
    ensures
        ({
            let state = gathered(frames, frames.len())->Ok_0;
            &&& whole(frames, model) is Ok <==> state.stopped && state.stop_reason is Some && (
            forall|i: int|
                0 <= i < state.blocks.len() ==> (#[trigger] state.blocks[i]).1.stopped)
            &&& !state.stopped ==> whole(frames, model) == Err::<MessageView, ErrorView>(
                ErrorView::Incomplete("Messages"@),
            )
            &&& whole(frames, model) matches Ok(message) ==> {
                &&& message.blocks.len() == state.blocks.len()
                &&& forall|i: int|
                    0 <= i < message.blocks.len() ==> #[trigger] message.blocks[i]
                        == state.blocks[i].1.content
                &&& Some(message.stop_reason) == state.stop_reason
                &&& message.usage == state.usage
                &&& message.model == model
            }
            &&& ordered(state.blocks)
        }),
{
    lemma_gathered_in_order(frames, frames.len());
}

proof fn lemma_block_events(
    blocks: Seq<BlockView>,
    phase: AssistantMessagePhase,
    key: Seq<char>,
    count: nat,
)
    requires
        count <= blocks.len(),
        block_events(blocks, phase, key, count) is Ok,
    ensures
        block_events(blocks, phase, key, count)->Ok_0.len() == count,
        forall|i: int|
            0 <= i < count ==> block_response(#[trigger] blocks[i], phase, key) is Ok && block_events(
                blocks,
                phase,
                key,
                count,
            )->Ok_0[i] == (EventView::OutputItemDone {
                response: Some(block_response(blocks[i], phase, key)->Ok_0),
            }),
    decreases count,
{
    if count > 0 {
        lemma_block_events(blocks, phase, key, (count - 1) as nat);
    }
}

/// Each block of an answer is passed on as what it is, in the order of the blocks,
/// and the end comes last. A text is the final answer if and only if the model
/// stopped because it had no more to say; where it says nothing then, an empty answer
/// stands for that.
pub proof fn law_blocks_are_passed_on_in_order(message: MessageView, i: int)
    requires
        message_events(message) is Ok,
        0 <= i < message.blocks.len(),
    ensures
        ({
            let events = message_events(message)->Ok_0;
            let over = message.stop_reason is EndTurn || message.stop_reason is StopSequence
                || message.stop_reason is Refusal;
            let silent = over && forall|k: int|
                0 <= k < message.blocks.len() ==> !((#[trigger] message.blocks[k]) is Text);
            &&& events.len() == message.blocks.len() + 1 + if silent {
                1int
            } else {
                0
            }
            &&& events[i] matches EventView::OutputItemDone { response: Some(response) }
                && match message.blocks[i] {
                BlockView::Text(text) => response matches ResponseView::AssistantMessage {
                    content,
                    phase,
                } && content == text && (phase is FinalAnswer <==> over),
                BlockView::Thinking { thinking, signature } => response
                    matches ResponseView::Reasoning { summary, opaque } && summary == thinking
                    && opaque.payload.str_field("type"@) == Some("thinking"@)
                    && opaque.payload.str_field("thinking"@) == Some(thinking)
                    && opaque.payload.str_field("signature"@) == Some(signature)
                    && opaque.replay_key == thinking_key(message.model),
                BlockView::RedactedThinking { data } => response matches ResponseView::Reasoning {
                    summary,
                    opaque,
                } && summary.len() == 0 && opaque.payload.str_field("type"@) == Some(
                    "redacted_thinking"@,
                ) && opaque.payload.str_field("data"@) == Some(data) && opaque.replay_key
                    == thinking_key(message.model),
                BlockView::ToolUse { call_id: id, name: called, initial_arguments, argument_delta } => response
                    matches ResponseView::ToolCall { name, arguments, call_id } && name == called
                    && call_id == id && arguments is Object && (argument_delta.len() == 0
                    ==> arguments == initial_arguments) && (argument_delta.len() > 0 ==> Some(
                    arguments,
                ) == parsed(argument_delta)),
            }
            &&& silent ==> (events[events.len() - 2] matches EventView::OutputItemDone {
                response: Some(ResponseView::AssistantMessage { content, phase }),
            } && content.len() == 0 && phase is FinalAnswer)
            &&& events.last() matches EventView::Completed { token_usage: Some(usage), rate_limits }
                && usage == usage_json(message.usage) && rate_limits.len() == 0
        }),
{
    broadcast use crate::json::lemma_with, crate::json::lemma_no_fields;

    reveal_strlit("type");
    reveal_strlit("thinking");
    reveal_strlit("signature");
    reveal_strlit("data");
    reveal_strlit("redacted_thinking");
    assert("type"@.len() == 4 && "thinking"@.len() == 8 && "signature"@.len() == 9 && "data"@.len() == 4 && "redacted_thinking"@.len() == 17);
    assert("type"@[0] != "data"@[0]);
    let phase = phase_of(message.stop_reason);
    let key = thinking_key(message.model);
    lemma_block_events(message.blocks, phase, key, message.blocks.len());
    let events = message_events(message)->Ok_0;
    let passed = block_events(message.blocks, phase, key, message.blocks.len())->Ok_0;
    assert(block_response(message.blocks[i], phase, key) is Ok);
    assert(events[i] == passed[i]);
}

/// An answer that was cut off is refused, and so is one that stops to call tools
/// without a call, or that calls a tool without stopping for it.
pub proof fn law_calls_and_stop_reason_agree(message: MessageView)
    ensures
        (message.stop_reason is MaxTokens || message.stop_reason is ContextWindow)
            ==> message_events(message) is Err,
        message_events(message) is Ok ==> (message.stop_reason is ToolUse <==> exists|i: int|
            0 <= i < message.blocks.len() && (#[trigger] message.blocks[i]) is ToolUse),
        message_events(message) is Err ==> message.stop_reason is MaxTokens || message.stop_reason
            is ContextWindow || (message.stop_reason is ToolUse <==> !has_tool(message.blocks))
            || exists|i: int|
            0 <= i < message.blocks.len() && (#[trigger] message.blocks[i]
                matches BlockView::ToolUse { initial_arguments, argument_delta, .. }
                && call_arguments(initial_arguments, argument_delta) is Err),
{
    if message_events(message) is Err && message_problem(message) is None {
        lemma_block_events_fail(
            message.blocks,
            phase_of(message.stop_reason),
            thinking_key(message.model),
            message.blocks.len(),
        );
    }
}

proof fn lemma_block_events_fail(
    blocks: Seq<BlockView>,
    phase: AssistantMessagePhase,
    key: Seq<char>,
    count: nat,
)
    requires
        count <= blocks.len(),
        block_events(blocks, phase, key, count) is Err,
    ensures
        exists|i: int|
            0 <= i < count && (#[trigger] blocks[i] matches BlockView::ToolUse {
                initial_arguments,
                argument_delta,
                ..
            } && call_arguments(initial_arguments, argument_delta) is Err),
    decreases count,
{
    if count > 0 {
        if block_events(blocks, phase, key, (count - 1) as nat) is Err {
            lemma_block_events_fail(blocks, phase, key, (count - 1) as nat);
        } else {
            assert(blocks[count - 1] is ToolUse);
        }
    }
}

/// What is counted keeps its numbers under the names of the program; the total is the
/// sum of what was read, what was read from and written to the cache, and what was
/// written, where no sum leaves the numbers that can be held.
pub proof fn law_usage_keeps_its_counts(value: JsonView)
    ensures
        ({
            let usage = usage_json(value);
            let input = count_of(value, "input_tokens"@);
            let read = count_of(value, "cache_read_input_tokens"@);
            let written = count_of(value, "cache_creation_input_tokens"@);
            let output = count_of(value, "output_tokens"@);
            &&& value.field("input_tokens"@).as_i64() matches Some(number) ==> input == number
            &&& value.field("input_tokens"@).as_i64() is None ==> input == 0
            &&& usage.field("input_tokens"@) == JsonView::Integer(input)
            &&& usage.field("cached_input_tokens"@) == JsonView::Integer(read)
            &&& usage.field("cache_write_input_tokens"@) == JsonView::Integer(written)
            &&& usage.field("output_tokens"@) == JsonView::Integer(output)
            &&& (0 <= input && 0 <= read && 0 <= written && 0 <= output && input + read + written
                + output <= i64::MAX) ==> usage.field("total_tokens"@) == JsonView::Integer(
                input + read + written + output,
            )
        }),
{
    broadcast use crate::json::lemma_with, crate::json::lemma_no_fields;

    reveal_strlit("input_tokens");
    reveal_strlit("cached_input_tokens");
    reveal_strlit("cache_write_input_tokens");
    reveal_strlit("output_tokens");
    reveal_strlit("total_tokens");
    assert("input_tokens"@.len() == 12 && "cached_input_tokens"@.len() == 19 && "cache_write_input_tokens"@.len() == 24 && "output_tokens"@.len() == 13 && "total_tokens"@.len() == 12);
    assert("input_tokens"@[0] != "total_tokens"@[0]);
}

/// Thinking that came in an answer can be handed back to the model that thought it.
pub proof fn law_thinking_can_be_handed_back(
    block: BlockView,
    phase: AssistantMessagePhase,
    model: Seq<char>,
)
    requires
        block is Thinking || block is RedactedThinking,
        block matches BlockView::Thinking { signature, .. } ==> signature.len() > 0,
        block matches BlockView::RedactedThinking { data } ==> data.len() > 0,
    ensures
        block_response(block, phase, thinking_key(model)) matches Ok(ResponseView::Reasoning {
            opaque,
            ..
        }) && opaque.replay_key == thinking_key(model) && replay_problem(opaque.payload) is None,
{
    broadcast use crate::json::lemma_with, crate::json::lemma_no_fields;

    reveal_strlit("type");
    reveal_strlit("thinking");
    reveal_strlit("signature");
    reveal_strlit("data");
    reveal_strlit("redacted_thinking");
    assert("type"@.len() == 4 && "thinking"@.len() == 8 && "signature"@.len() == 9 && "data"@.len() == 4 && "redacted_thinking"@.len() == 17);
    assert("type"@[0] != "data"@[0]);
}

/// A block can end where it is whole: what was thought needs its signature, and a call
/// arguments that can be read. Text can always end.
pub proof fn law_whole_block_can_end(block: BlockView)
    ensures
        block is Text || block is RedactedThinking ==> stop_problem(block) is None,
        block matches BlockView::Thinking { signature, .. } ==> (stop_problem(block) is None
            <==> signature.len() > 0),
        block matches BlockView::ToolUse { initial_arguments, argument_delta, .. } ==> (
        stop_problem(block) is None <==> call_arguments(initial_arguments, argument_delta) is Ok),
{
}

} // verus!
