//! The models of Ollama Cloud.
use crate::api::ollama::{efforts_of, reasoning_efforts};
use crate::json::{field_views, json_views, lemma_json_parts, Json, JsonView};
use crate::provider::{bind, no_bindings, Model, ModelToolBinding, ModelView, OLLAMA_PROVIDER};
use crate::record::{read_record, record, Shape, ShapeView};
use crate::text::{concat2, concat4, ends_with, has_suffix, same_text, view_option};
use vstd::prelude::*;

verus! {

/// A model that the service lists.
#[derive(Debug, PartialEq)]
pub struct Tag {
    pub model: String,
    pub parameter_size: String,
}

/// What a [`Tag`] stands for.
pub struct TagView {
    pub model: Seq<char>,
    pub parameter_size: Seq<char>,
}

impl View for Tag {
    type V = TagView;

    open spec fn view(&self) -> TagView {
        TagView { model: self.model@, parameter_size: self.parameter_size@ }
    }
}

/// What is read of the details of a model.
#[derive(Clone, Copy, Debug, PartialEq, Eq, Structural)]
pub struct Show {
    pub thinking: bool,
    pub context_window: Option<i64>,
}

/// A text that may be left out; none where it is something else.
pub open spec fn optional_text(value: Option<JsonView>) -> Option<Seq<char>> {
    match value {
        Some(JsonView::Text(text)) => Some(text),
        Some(_) => None,
        None => Some(Seq::empty()),
    }
}

fn read_optional_text(value: Option<&Json>) -> (text: Option<String>)
    ensures
        view_option(text) == optional_text(
            match value {
                Some(value) => Some(value@),
                None => None,
            },
        ),
{
    match value {
        Some(value) => match value.as_str() {
            Some(text) => Some(text.to_owned()),
            None => None,
        },
        None => {
            let empty = String::new();
            assert(empty@ =~= Seq::empty());
            Some(empty)
        },
    }
}

/// The size that a listed model tells of itself.
pub open spec fn size_of(value: JsonView) -> Option<Seq<char>> {
    match value.element("details"@, 1) {
        Some(details) => if details.is_record(0, 1) {
            optional_text(details.element("parameter_size"@, 0))
        } else {
            None
        },
        None => Some(Seq::empty()),
    }
}

/// A listed model, by the names of its fields or in their order; none where it
/// cannot be read.
pub open spec fn tag_of(value: JsonView) -> Option<TagView> {
    if !value.is_record(1, 2) {
        None
    } else {
        match (value.element("model"@, 0), size_of(value)) {
            (Some(JsonView::Text(model)), Some(parameter_size)) => Some(
                TagView { model, parameter_size },
            ),
            _ => None,
        }
    }
}

/// Reads a listed model.
pub fn read_tag(value: &Json) -> (tag: Option<Tag>)
    ensures
        match tag_of(value@) {
            Some(view) => tag matches Some(tag) && tag@ == view,
            None => tag is None,
        },
{
    if !value.is_record(1, 2) {
        return None;
    }
    let model = match value.element("model", 0) {
        Some(Json::Text(model)) => model.clone(),
        _ => {
            return None;
        },
    };
    let parameter_size = match value.element("details", 1) {
        Some(details) => {
            if !details.is_record(0, 1) {
                return None;
            }
            read_optional_text(details.element("parameter_size", 0))
        },
        None => read_optional_text(None),
    };
    match parameter_size {
        Some(parameter_size) => Some(Tag { model, parameter_size }),
        None => None,
    }
}

/// What tags stand for.
pub open spec fn tag_views(tags: Seq<Tag>) -> Seq<TagView> {
    Seq::new(tags.len(), |i: int| tags[i]@)
}

/// The first `count` listed models; none where one of them cannot be read.
pub open spec fn tags_before(models: Seq<JsonView>, count: nat) -> Option<Seq<TagView>>
    decreases count,
{
    if count == 0 {
        Some(Seq::empty())
    } else {
        match (tags_before(models, (count - 1) as nat), tag_of(models[count - 1])) {
            (Some(before), Some(tag)) => Some(before.push(tag)),
            _ => None,
        }
    }
}

/// The models that the service lists; none where the list cannot be read.
pub open spec fn tags_of(listing: JsonView) -> Option<Seq<TagView>> {
    match listing.element("models"@, 0) {
        Some(JsonView::Array(models)) if listing.is_record(1, 1) => tags_before(
            models,
            models.len(),
        ),
        _ => None,
    }
}

proof fn lemma_unread(models: Seq<JsonView>, from: nat, count: nat)
    requires
        from <= count,
        tags_before(models, from) is None,
    ensures
        tags_before(models, count) is None,
    decreases count,
{
    if from < count {
        lemma_unread(models, from, (count - 1) as nat);
    }
}

/// What is read of the list of models.
pub open spec fn tags_shape() -> ShapeView {
    let details = ShapeView::record().with_whole("parameter_size"@);
    let tag = ShapeView::record().with_whole("model"@).with("details"@, details);
    ShapeView::record().with("models"@, tag.list())
}

/// The models that the service lists, from what it answers; none where that cannot
/// be read.
pub fn tags_answer(body: &[u8]) -> (tags: Option<Vec<Tag>>)
    ensures
        match record(body@, tags_shape()) {
            Some(listing) => match tags_of(listing) {
                Some(known) => tags matches Some(found) && tag_views(found@) == known,
                None => tags is None,
            },
            None => tags is None,
        },
{
    let details = Shape::record().with_whole("parameter_size");
    let tag = Shape::record().with_whole("model").with("details", details);
    let shape = Shape::record().with("models", tag.list());
    match read_record(body, &shape) {
        Some(listing) => read_tags(&listing),
        None => None,
    }
}

/// Reads the models that the service lists.
pub fn read_tags(listing: &Json) -> (tags: Option<Vec<Tag>>)
    ensures
        match tags_of(listing@) {
            Some(known) => tags matches Some(found) && tag_views(found@) == known,
            None => tags is None,
        },
{
    if !listing.is_record(1, 1) {
        return None;
    }
    let models = match listing.element("models", 0) {
        Some(listed) => match listed.as_array() {
            Some(models) => models,
            None => {
                return None;
            },
        },
        None => {
            return None;
        },
    };
    let mut tags: Vec<Tag> = Vec::new();
    let mut i: usize = 0;
    assert(tag_views(tags@) =~= Seq::empty());
    while i < models.len()
        invariant
            i <= models.len(),
            tags_before(json_views(models@), i as nat) == Some(tag_views(tags@)),
            tags_of(listing@) == tags_before(json_views(models@), models@.len()),
        decreases models.len() - i,
    {
        assert(json_views(models@)[i as int] == models[i as int]@);
        let ghost before = tag_views(tags@);
        match read_tag(&models[i]) {
            Some(tag) => {
                tags.push(tag);
                assert(tag_views(tags@) =~= before.push(tag@));
            },
            None => {
                proof {
                    lemma_unread(json_views(models@), (i + 1) as nat, models@.len());
                }
                return None;
            },
        }
        i += 1;
    }
    Some(tags)
}

/// Whether every capability is a text.
pub open spec fn all_texts(values: Seq<JsonView>) -> bool {
    forall|i: int| 0 <= i < values.len() ==> (#[trigger] values[i]) is Text
}

/// Whether a model can think; none where its capabilities cannot be read.
pub open spec fn thinks(show: JsonView) -> Option<bool> {
    match show.element("capabilities"@, 0) {
        Some(JsonView::Array(values)) => if all_texts(values) {
            Some(values.contains(JsonView::Text("thinking"@)))
        } else {
            None
        },
        Some(_) => None,
        None => Some(false),
    }
}

fn read_thinking(show: &Json) -> (thinking: Option<bool>)
    ensures
        thinking == thinks(show@),
{
    let value = match show.element("capabilities", 0) {
        Some(value) => value,
        None => {
            return Some(false);
        },
    };
    let values = match value.as_array() {
        Some(values) => values,
        None => {
            return None;
        },
    };
    let ghost all = json_views(values@);
    let mut thinking = false;
    let mut i: usize = 0;
    while i < values.len()
        invariant
            i <= values.len(),
            all == json_views(values@),
            show@.element("capabilities"@, 0) == Some(JsonView::Array(all)),
            forall|k: int| 0 <= k < i ==> (#[trigger] all[k]) is Text,
            thinking == exists|k: int|
                0 <= k < i && (#[trigger] all[k]) == JsonView::Text("thinking"@),
        decreases values.len() - i,
    {
        assert(all[i as int] == values[i as int]@);
        match values[i].as_str() {
            Some(text) => {
                if same_text(text, "thinking") {
                    thinking = true;
                }
            },
            None => {
                return None;
            },
        }
        i += 1;
    }
    assert(all.contains(JsonView::Text("thinking"@)) == thinking);
    Some(thinking)
}

/// The length of the context that the first of the fields from `from` on tells
/// whose name ends like one.
pub open spec fn context_of(fields: Seq<(Seq<char>, JsonView)>, from: nat) -> Option<i64>
    decreases fields.len() - from,
{
    if from >= fields.len() {
        None
    } else if has_suffix(fields[from as int].0, ".context_length"@) {
        fields[from as int].1.as_i64()
    } else {
        context_of(fields, from + 1)
    }
}

/// The details of a model, by the names of the fields or in their order; none where
/// they cannot be read.
pub open spec fn show_of(value: JsonView) -> Option<Show> {
    if !value.is_record(0, 2) {
        None
    } else {
        match (thinks(value), value.element("model_info"@, 1)) {
            (Some(thinking), Some(JsonView::Object(fields))) => Some(
                Show { thinking, context_window: context_of(fields, 0) },
            ),
            (Some(thinking), None) => Some(Show { thinking, context_window: None }),
            _ => None,
        }
    }
}

fn read_context(fields: &Vec<(String, Json)>) -> (window: Option<i64>)
    ensures
        window == context_of(field_views(fields@), 0),
{
    let ghost all = field_views(fields@);
    let mut i: usize = 0;
    while i < fields.len()
        invariant
            i <= fields.len(),
            all == field_views(fields@),
            context_of(all, 0) == context_of(all, i as nat),
        decreases fields.len() - i,
    {
        assert(all[i as int] == (fields[i as int].0@, fields[i as int].1@));
        if ends_with(fields[i].0.as_str(), ".context_length") {
            return fields[i].1.as_i64();
        }
        i += 1;
    }
    None
}

/// What is read of the details of a model.
pub open spec fn show_shape() -> ShapeView {
    ShapeView::record().with_whole("capabilities"@).with_whole("model_info"@)
}

/// The details of a model from what the service answers; none where that cannot be
/// read.
pub fn show_answer(body: &[u8]) -> (show: Option<Show>)
    ensures
        show == (match record(body@, show_shape()) {
            Some(value) => show_of(value),
            None => None,
        }),
{
    let shape = Shape::record().with_whole("capabilities").with_whole("model_info");
    match read_record(body, &shape) {
        Some(value) => read_show(&value),
        None => None,
    }
}

/// Reads the details of a model.
pub fn read_show(value: &Json) -> (show: Option<Show>)
    ensures
        show == show_of(value@),
{
    if !value.is_record(0, 2) {
        return None;
    }
    let thinking = match read_thinking(value) {
        Some(thinking) => thinking,
        None => {
            return None;
        },
    };
    match value.element("model_info", 1) {
        Some(info) => {
            proof {
                lemma_json_parts(*info);
            }
            match info {
                Json::Object(fields) => Some(
                    Show { thinking, context_window: read_context(fields) },
                ),
                _ => None,
            }
        },
        None => Some(Show { thinking, context_window: None }),
    }
}

/// Four fifths of a number, without the fraction.
pub open spec fn four_fifths(value: int) -> int {
    if value >= 0 {
        value * 4 / 5
    } else {
        -(-value * 4 / 5)
    }
}

/// The bindings of the web tools.
pub open spec fn web_bindings() -> Seq<(Seq<char>, Seq<char>)> {
    Seq::empty().push(("web_search"@, "ollama"@)).push(("web_fetch"@, "ollama"@))
}

/// A model as it is shown.
pub open spec fn model_of(tag: TagView, show: Show) -> ModelView {
    ModelView {
        provider: OLLAMA_PROVIDER@,
        id: tag.model,
        display_name: tag.model,
        description: if tag.parameter_size.len() == 0 {
            None
        } else {
            Some(tag.parameter_size + " parameters"@)
        },
        default_reasoning_effort: efforts_of(tag.model, show.thinking).0,
        supported_reasoning_efforts: efforts_of(tag.model, show.thinking).1,
        context_window: show.context_window,
        auto_compact_token_limit: match show.context_window {
            Some(tokens) => Some(four_fifths(tokens as int) as i64),
            None => None,
        },
        tool_bindings: web_bindings(),
    }
}

/// A model as it is shown.
pub fn model(tag: &Tag, show: &Show) -> (model: Model)
    requires
        show.context_window matches Some(tokens) ==> i64::MIN <= tokens * 4 <= i64::MAX,
    ensures
        model@ == model_of(tag@, *show),
{
    let (default_reasoning_effort, supported_reasoning_efforts) = reasoning_efforts(
        tag.model.as_str(),
        show.thinking,
    );
    let description = if tag.parameter_size.as_str().is_empty() {
        None
    } else {
        Some(concat2(tag.parameter_size.as_str(), " parameters"))
    };
    let auto_compact_token_limit = match show.context_window {
        Some(tokens) => {
            let fourfold: i128 = tokens as i128 * 4;
            if fourfold >= 0 {
                Some((fourfold / 5) as i64)
            } else {
                Some((-((-fourfold) / 5)) as i64)
            }
        },
        None => None,
    };
    let mut tool_bindings: Vec<ModelToolBinding> = no_bindings();
    bind(&mut tool_bindings, "web_search", "ollama");
    bind(&mut tool_bindings, "web_fetch", "ollama");
    Model {
        provider: OLLAMA_PROVIDER.to_owned(),
        id: tag.model.clone(),
        display_name: tag.model.clone(),
        description,
        default_reasoning_effort,
        supported_reasoning_efforts,
        context_window: show.context_window,
        auto_compact_token_limit,
        tool_bindings,
    }
}

/// What the service answers to a request that it refuses: the words are those of
/// the status, such as `404 Not Found`.
pub fn refusal(status: u16, words: &str, body: &str) -> (message: String)
    ensures
        message@ == (if status == 401 {
            "Ollama API key was rejected; run `atra provider login ollama`"@
        } else {
            "Ollama Cloud returned "@ + words@ + ": "@ + body@
        }),
{
    if status == 401 {
        "Ollama API key was rejected; run `atra provider login ollama`".to_owned()
    } else {
        concat4("Ollama Cloud returned ", words, ": ", body)
    }
}

/// A model that tells how much it can hold is compacted before that.
pub proof fn law_limit_is_within_the_window(tag: TagView, show: Show, tokens: i64)
    requires
        show.context_window == Some(tokens),
        0 <= tokens,
        tokens * 4 <= i64::MAX,
    ensures
        model_of(tag, show).auto_compact_token_limit matches Some(limit) && 0 <= limit <= tokens,
{
}

/// The key that a login takes.
pub fn login_key(credential: Option<String>) -> (result: Result<String, &'static str>)
    ensures
        match credential {
            Some(key) => result == Ok::<String, &'static str>(key),
            None => result matches Err(text) && text@ == "Ollama login requires an API key"@,
        },
{
    match credential {
        Some(key) => Ok(key),
        None => Err("Ollama login requires an API key"),
    }
}

/// A model has the name of its tag, thinks where it says that it does, and is compacted
/// at four fifths of its context; both tools of the web are done by Ollama.
pub proof fn law_model_is_as_tagged(tag: TagView, show: Show)
    ensures
        ({
            let model = model_of(tag, show);
            &&& model.provider == "ollama"@
            &&& model.id == tag.model
            &&& model.display_name == tag.model
            &&& model.context_window == show.context_window
            &&& model.auto_compact_token_limit is Some <==> show.context_window is Some
            &&& show.context_window matches Some(tokens) ==> (0 <= tokens <= 1_000_000_000_000
                ==> (model.auto_compact_token_limit matches Some(limit) && 5 * limit <= 4 * tokens
                < 5 * (limit + 1)))
            &&& model.description is None <==> tag.parameter_size.len() == 0
            &&& model.description matches Some(text) ==> crate::text::has_prefix(
                text,
                tag.parameter_size,
            )
            &&& model.tool_bindings.len() == 2
            &&& model.tool_bindings[0] == ("web_search"@, "ollama"@)
            &&& model.tool_bindings[1] == ("web_fetch"@, "ollama"@)
        }),
{
    assert(OLLAMA_PROVIDER@ == "ollama"@);
    if tag.parameter_size.len() > 0 {
        let text = tag.parameter_size + " parameters"@;
        assert(text.take(tag.parameter_size.len() as int) =~= tag.parameter_size);
    }
}

/// What a tag is read from: its name, which it must have, and the size where it is told.
pub proof fn law_tag_is_read(fields: Seq<(Seq<char>, JsonView)>)
    ensures
        ({
            let value = JsonView::Object(fields);
            let details = value.get("details"@);
            &&& tag_of(value) is Some ==> value.str_field("model"@) == Some(tag_of(value)->0.model)
            &&& value.str_field("model"@) is Some && details is None ==> tag_of(value) == Some(
                TagView { model: value.str_field("model"@)->0, parameter_size: Seq::empty() },
            )
            &&& value.str_field("model"@) is Some && details is Some && details->0 is Object
                && details->0.str_field("parameter_size"@) is Some ==> tag_of(value) == Some(
                TagView {
                    model: value.str_field("model"@)->0,
                    parameter_size: details->0.str_field("parameter_size"@)->0,
                },
            )
            &&& value.str_field("model"@) is None ==> tag_of(value) is None
        }),
{
}

/// The tags of a listing are those of its models, one for each, in their order.
pub proof fn law_every_model_has_its_tag(models: Seq<JsonView>, count: nat, i: int)
    requires
        0 <= i < count <= models.len(),
    ensures
        tags_before(models, count) matches Some(tags) ==> tags.len() == count && Some(tags[i])
            == tag_of(models[i]),
        tags_before(models, count) is None ==> exists|k: int|
            0 <= k < count && tag_of(#[trigger] models[k]) is None,
    decreases count,
{
    reveal_with_fuel(tags_before, 2);
    if count > 1 {
        law_every_model_has_its_tag(
            models,
            (count - 1) as nat,
            if i < count - 1 {
                i
            } else {
                0
            },
        );
    }
    assert(tag_of(models[count - 1]) is None || count == 1 || tags_before(
        models,
        (count - 1) as nat,
    ) is None || tags_before(models, count) is Some);
    if tags_before(models, count) is None && tag_of(models[count - 1]) is Some && count > 1 {
        let k = choose|k: int| 0 <= k < count - 1 && tag_of(#[trigger] models[k]) is None;
        assert(tag_of(models[k]) is None);
    }
}

/// The context of a model is what the first of its facts says that ends in the name for
/// it; whether it thinks is told among what it can do.
pub proof fn law_context_is_the_first_told(
    fields: Seq<(Seq<char>, JsonView)>,
    from: nat,
    i: int,
)
    requires
        from <= i < fields.len(),
        has_suffix(fields[i].0, ".context_length"@),
        forall|j: int| from <= j < i ==> !has_suffix((#[trigger] fields[j]).0, ".context_length"@),
    ensures
        context_of(fields, from) == fields[i].1.as_i64(),
    decreases fields.len() - from,
{
    if from < i {
        assert(!has_suffix(fields[from as int].0, ".context_length"@));
        law_context_is_the_first_told(fields, from + 1, i);
    }
}

/// Whether a model thinks is told among what it can do.
pub proof fn law_thinking_is_told(fields: Seq<(Seq<char>, JsonView)>)
    ensures
        ({
            let value = JsonView::Object(fields);
            let abilities = value.get("capabilities"@);
            let info = value.get("model_info"@);
            &&& show_of(value) matches Some(show) ==> (show.thinking <==> (abilities is Some
                && abilities->0 is Array && abilities->0->Array_0.contains(
                JsonView::Text("thinking"@),
            )))
            &&& show_of(value) matches Some(show) ==> (info matches Some(JsonView::Object(facts))
                ==> show.context_window == context_of(facts, 0))
            &&& show_of(value) is Some <==> (abilities is None || (abilities->0 is Array
                && all_texts(abilities->0->Array_0))) && (info is None || info->0 is Object)
        }),
{
}

/// A key that was rejected is told so; any other refusal is told in the words of the
/// server. A login needs a key.
pub proof fn law_refusal_is_told(
    status: u16,
    words: &str,
    body: &str,
    message: String,
    credential: Option<String>,
    key: Result<String, &'static str>,
)
    requires
        call_ensures(refusal, (status, words, body), message),
        call_ensures(login_key, (credential,), key),
    ensures
        status == 401 ==> message@
            == "Ollama API key was rejected; run `atra provider login ollama`"@,
        status != 401 ==> crate::text::holds_part(message@, words@) && crate::text::has_suffix(
            message@,
            body@,
        ),
        key is Ok <==> credential is Some,
        credential matches Some(given) ==> key == Ok::<String, &'static str>(given),
{
    if status != 401 {
        let start = "Ollama Cloud returned "@;
        let rest = ": "@ + body@;
        assert(message@ =~= start + words@ + rest);
        crate::text::lemma_holds_middle(start, words@, rest);
        assert(message@.skip(message@.len() - body@.len()) =~= body@);
    }
}

} // verus!
