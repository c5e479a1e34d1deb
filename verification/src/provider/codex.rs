//! The models of Codex, and what its errors say.
use crate::json::{json_views, parsed, Json, JsonView};
use crate::passage::{leading, leading_chars};
use crate::provider::tool_binding::{codex as codex_binding, Binding};
use crate::provider::{
    add_model, bind, binding_views, model_views, no_bindings, Model, ModelToolBinding, ModelView,
    CODEX_PROVIDER, DEFAULT_MODEL,
};
use crate::text::{same_text, views};
use vstd::prelude::*;

verus! {

/// The models that are known where the service lists none.
pub const BUNDLED_MODELS: &'static str = r#"[
  {
    "slug": "gpt-5.6-sol",
    "display_name": "GPT-5.6-Sol",
    "description": "Latest frontier agentic coding model.",
    "default_reasoning_level": "low",
    "supported_reasoning_levels": ["low", "medium", "high", "xhigh", "max", "ultra"],
    "context_window": 272000
  },
  {
    "slug": "gpt-5.6-terra",
    "display_name": "GPT-5.6-Terra",
    "description": "Balanced agentic coding model for everyday work.",
    "default_reasoning_level": "medium",
    "supported_reasoning_levels": ["low", "medium", "high", "xhigh", "max", "ultra"],
    "context_window": 272000
  },
  {
    "slug": "gpt-5.6-luna",
    "display_name": "GPT-5.6-Luna",
    "description": "Fast and affordable agentic coding model.",
    "default_reasoning_level": "medium",
    "supported_reasoning_levels": ["low", "medium", "high", "xhigh", "max"],
    "context_window": 272000
  },
  {
    "slug": "gpt-5.5",
    "display_name": "GPT-5.5",
    "description": "Frontier model for complex coding, research, and real-world work.",
    "default_reasoning_level": "medium",
    "supported_reasoning_levels": ["low", "medium", "high", "xhigh"],
    "context_window": 272000
  },
  {
    "slug": "gpt-5.2",
    "display_name": "GPT-5.2",
    "description": "Optimized for professional work and long-running agents.",
    "default_reasoning_level": "medium",
    "supported_reasoning_levels": ["low", "medium", "high", "xhigh"],
    "context_window": 272000
  }
]"#;

/// The efforts that the first `count` presets name, plainly or as a field.
pub open spec fn efforts(presets: Seq<JsonView>, count: nat) -> Seq<Seq<char>>
    decreases count,
{
    if count == 0 {
        Seq::empty()
    } else {
        let before = efforts(presets, (count - 1) as nat);
        match presets[count - 1].str_field("effort"@) {
            Some(effort) => before.push(effort),
            None => match presets[count - 1].as_str() {
                Some(effort) => before.push(effort),
                None => before,
            },
        }
    }
}

/// The efforts of a model; the one it starts with where none are named.
pub open spec fn supported_efforts(value: JsonView, default: Seq<char>) -> Seq<Seq<char>> {
    let named = match value.field("supported_reasoning_levels"@).as_array() {
        Some(presets) => efforts(presets, presets.len()),
        None => Seq::empty(),
    };
    if named.len() == 0 {
        Seq::empty().push(default)
    } else {
        named
    }
}

/// Nine tenths of a number, as far as nine times it can be told, without the
/// fraction.
pub open spec fn nine_tenths(value: i64) -> int {
    let ninefold = if value * 9 > i64::MAX {
        i64::MAX as int
    } else if value * 9 < i64::MIN {
        i64::MIN as int
    } else {
        value * 9
    };
    if ninefold >= 0 {
        ninefold / 10
    } else {
        -((-ninefold) / 10)
    }
}

/// Nine tenths of a number.
pub fn nine_tenths_of(value: i64) -> (result: i64)
    ensures
        result == nine_tenths(value),
{
    let mut ninefold: i128 = value as i128 * 9;
    if ninefold > 0x7fff_ffff_ffff_ffff {
        ninefold = 0x7fff_ffff_ffff_ffff;
    }
    if ninefold < -0x8000_0000_0000_0000 {
        ninefold = -0x8000_0000_0000_0000;
    }
    if ninefold >= 0 {
        (ninefold / 10) as i64
    } else {
        (-((-ninefold) / 10)) as i64
    }
}

/// The text of a field, or another.
pub open spec fn text_or(value: JsonView, key: Seq<char>, other: Seq<char>) -> Seq<char> {
    match value.str_field(key) {
        Some(text) => text,
        None => other,
    }
}

fn text_field_or(value: &Json, key: &str, other: &str) -> (text: String)
    ensures
        text@ == text_or(value@, key@, other@),
{
    match value.str_field(key) {
        Some(text) => text.to_owned(),
        None => other.to_owned(),
    }
}

/// The tools of a Codex model: the web search is its own.
pub open spec fn codex_bindings() -> Seq<(Seq<char>, Seq<char>)> {
    Seq::empty().push(("web_search"@, Binding::Hosted.words()))
}

fn codex_tool_bindings() -> (bindings: Vec<ModelToolBinding>)
    ensures
        binding_views(bindings@) == codex_bindings(),
{
    let mut bindings = no_bindings();
    match codex_binding("web_search") {
        Some(binding) => {
            bind(&mut bindings, "web_search", binding.name());
        },
        None => {},
    }
    bindings
}

/// A model as the service describes it; none where the description has no name
/// or no context window.
pub open spec fn described_model(value: JsonView) -> Option<ModelView> {
    match (value.str_field("slug"@), value.field("context_window"@).as_i64()) {
        (Some(id), Some(context_window)) => {
            let default = text_or(value, "default_reasoning_level"@, "medium"@);
            Some(
                ModelView {
                    provider: CODEX_PROVIDER@,
                    id,
                    display_name: text_or(value, "display_name"@, id),
                    description: value.str_field("description"@),
                    default_reasoning_effort: default,
                    supported_reasoning_efforts: supported_efforts(value, default),
                    context_window: Some(context_window),
                    auto_compact_token_limit: match value.field(
                        "auto_compact_token_limit"@,
                    ).as_i64() {
                        Some(limit) => Some(limit),
                        None => Some(nine_tenths(context_window) as i64),
                    },
                    tool_bindings: codex_bindings(),
                },
            )
        },
        _ => None,
    }
}

fn read_efforts(value: &Json, default: &str) -> (named: Vec<String>)
    ensures
        views(named@) == supported_efforts(value@, default@),
{
    let mut named: Vec<String> = Vec::new();
    let levels = value.field("supported_reasoning_levels");
    assert(views(named@) =~= Seq::empty());
    match levels.as_array() {
        Some(presets) => {
            let mut i: usize = 0;
            while i < presets.len()
                invariant
                    i <= presets.len(),
                    views(named@) == efforts(json_views(presets@), i as nat),
                decreases presets.len() - i,
            {
                assert(json_views(presets@)[i as int] == presets[i as int]@);
                let ghost before = views(named@);
                match presets[i].str_field("effort") {
                    Some(effort) => {
                        named.push(effort.to_owned());
                        assert(views(named@) =~= before.push(effort@));
                    },
                    None => match presets[i].as_str() {
                        Some(effort) => {
                            named.push(effort.to_owned());
                            assert(views(named@) =~= before.push(effort@));
                        },
                        None => {},
                    },
                }
                i += 1;
            }
        },
        None => {},
    }
    if named.len() == 0 {
        named.push(default.to_owned());
        assert(views(named@) =~= Seq::empty().push(default@));
    }
    named
}

/// A model as the service describes it.
pub fn parse_model(value: &Json) -> (model: Option<Model>)
    ensures
        match model {
            Some(model) => described_model(value@) == Some(model@),
            None => described_model(value@) is None,
        },
{
    let id = match value.str_field("slug") {
        Some(id) => id,
        None => {
            return None;
        },
    };
    let context_window = match value.field("context_window").as_i64() {
        Some(tokens) => tokens,
        None => {
            return None;
        },
    };
    let default = text_field_or(value, "default_reasoning_level", "medium");
    let supported = read_efforts(value, default.as_str());
    let limit = match value.field("auto_compact_token_limit").as_i64() {
        Some(limit) => limit,
        None => nine_tenths_of(context_window),
    };
    let description = match value.str_field("description") {
        Some(text) => Some(text.to_owned()),
        None => None,
    };
    Some(
        Model {
            provider: CODEX_PROVIDER.to_owned(),
            id: id.to_owned(),
            display_name: text_field_or(value, "display_name", id),
            description,
            default_reasoning_effort: default,
            supported_reasoning_efforts: supported,
            context_window: Some(context_window),
            auto_compact_token_limit: Some(limit),
            tool_bindings: codex_tool_bindings(),
        },
    )
}

/// The efforts of the model that is known where none can be read.
pub open spec fn fallback_efforts() -> Seq<Seq<char>> {
    Seq::empty().push("low"@).push("medium"@).push("high"@).push("xhigh"@)
}

/// The model that is known where none can be read.
pub open spec fn fallback() -> ModelView {
    ModelView {
        provider: CODEX_PROVIDER@,
        id: DEFAULT_MODEL@,
        display_name: DEFAULT_MODEL@,
        description: Some("Codex"@),
        default_reasoning_effort: "medium"@,
        supported_reasoning_efforts: fallback_efforts(),
        context_window: Some(400_000),
        auto_compact_token_limit: Some(360_000),
        tool_bindings: codex_bindings(),
    }
}

/// The efforts low to xhigh.
pub(crate) fn common_efforts() -> (named: Vec<String>)
    ensures
        views(named@) == fallback_efforts(),
{
    let mut named: Vec<String> = Vec::new();
    named.push("low".to_owned());
    named.push("medium".to_owned());
    named.push("high".to_owned());
    named.push("xhigh".to_owned());
    assert(views(named@) =~= fallback_efforts());
    named
}

/// The model that is known where none can be read.
pub fn fallback_model() -> (model: Model)
    ensures
        model@ == fallback(),
{
    Model {
        provider: CODEX_PROVIDER.to_owned(),
        id: DEFAULT_MODEL.to_owned(),
        display_name: DEFAULT_MODEL.to_owned(),
        description: Some("Codex".to_owned()),
        default_reasoning_effort: "medium".to_owned(),
        supported_reasoning_efforts: common_efforts(),
        context_window: Some(400_000),
        auto_compact_token_limit: Some(360_000),
        tool_bindings: codex_tool_bindings(),
    }
}

/// Whether a description is of a model that is listed.
pub open spec fn listed(value: JsonView) -> bool {
    value.str_field("visibility"@) == Some("list"@)
}

fn is_listed(value: &Json) -> (result: bool)
    ensures
        result == listed(value@),
{
    match value.str_field("visibility") {
        Some(text) => same_text(text, "list"),
        None => false,
    }
}

/// Whether a description from `from` on is of a model that is listed.
pub open spec fn any_listed(values: Seq<JsonView>) -> bool {
    exists|i: int| 0 <= i < values.len() && listed(#[trigger] values[i])
}

/// The models of the first `count` descriptions, only listed ones or all.
pub open spec fn models_of(values: Seq<JsonView>, only_listed: bool, count: nat) -> Seq<ModelView>
    decreases count,
{
    if count == 0 {
        Seq::empty()
    } else {
        let before = models_of(values, only_listed, (count - 1) as nat);
        if only_listed && !listed(values[count - 1]) {
            before
        } else {
            match described_model(values[count - 1]) {
                Some(model) => before.push(model),
                None => before,
            }
        }
    }
}

/// The models, and the fallback where there are none.
pub open spec fn some_models(models: Seq<ModelView>) -> Seq<ModelView> {
    if models.len() == 0 {
        Seq::empty().push(fallback())
    } else {
        models
    }
}

/// Why the models cannot be told.
#[derive(Clone, Copy, Debug, PartialEq, Eq, Structural)]
pub enum CatalogError {
    Undecoded,
    NoModels,
    Bundled,
}

impl CatalogError {
    /// What the user is told.
    pub open spec fn words(self) -> Seq<char> {
        match self {
            CatalogError::Undecoded => "failed to decode Codex models"@,
            CatalogError::NoModels => "Codex models response has no models array"@,
            CatalogError::Bundled => "failed to load bundled Codex model catalog"@,
        }
    }

    /// What the user is told.
    pub fn message(&self) -> (text: String)
        ensures
            text@ == self.words(),
    {
        match self {
            CatalogError::Undecoded => "failed to decode Codex models".to_owned(),
            CatalogError::NoModels => "Codex models response has no models array".to_owned(),
            CatalogError::Bundled => "failed to load bundled Codex model catalog".to_owned(),
        }
    }
}

/// The models from what the service answered, and from the bundled descriptions
/// where it lists none.
pub open spec fn catalog_of(value: JsonView, bundled: Option<JsonView>) -> Result<
    Seq<ModelView>,
    CatalogError,
> {
    match value.get("models"@) {
        Some(models) => match models.as_array() {
            Some(raw) => if any_listed(raw) {
                Ok(some_models(models_of(raw, true, raw.len())))
            } else {
                match bundled {
                    Some(bundled) => match bundled.as_array() {
                        Some(raw) => Ok(some_models(models_of(raw, false, raw.len()))),
                        None => Err(CatalogError::Bundled),
                    },
                    None => Err(CatalogError::Bundled),
                }
            },
            None => Err(CatalogError::NoModels),
        },
        None => Err(CatalogError::NoModels),
    }
}

fn read_models(values: &Vec<Json>, only_listed: bool) -> (models: Vec<Model>)
    ensures
        model_views(models@) == some_models(
            models_of(json_views(values@), only_listed, values@.len()),
        ),
{
    let mut models: Vec<Model> = Vec::new();
    let mut i: usize = 0;
    assert(model_views(models@) =~= Seq::empty());
    while i < values.len()
        invariant
            i <= values.len(),
            model_views(models@) == models_of(json_views(values@), only_listed, i as nat),
        decreases values.len() - i,
    {
        assert(json_views(values@)[i as int] == values[i as int]@);
        if !only_listed || is_listed(&values[i]) {
            match parse_model(&values[i]) {
                Some(model) => {
                    add_model(&mut models, model);
                },
                None => {},
            }
        }
        i += 1;
    }
    if models.len() == 0 {
        assert(model_views(models@) =~= Seq::empty());
        add_model(&mut models, fallback_model());
    }
    models
}

fn has_listed(values: &Vec<Json>) -> (found: bool)
    ensures
        found == any_listed(json_views(values@)),
{
    let mut i: usize = 0;
    while i < values.len()
        invariant
            i <= values.len(),
            forall|k: int| 0 <= k < i ==> !listed(#[trigger] json_views(values@)[k]),
        decreases values.len() - i,
    {
        assert(json_views(values@)[i as int] == values[i as int]@);
        if is_listed(&values[i]) {
            return true;
        }
        i += 1;
    }
    false
}

/// The models from what the service answered, with the bundled descriptions as
/// they were read.
pub fn catalog_with(value: &Json, bundled: &Option<Json>) -> (result: Result<
    Vec<Model>,
    CatalogError,
>)
    ensures
        match (result, catalog_of(value@, crate::json::json_option(*bundled))) {
            (Ok(models), Ok(expected)) => model_views(models@) == expected,
            (Err(error), Err(expected)) => error == expected,
            _ => false,
        },
{
    let raw = match value.get("models") {
        Some(models) => match models.as_array() {
            Some(raw) => raw,
            None => {
                return Err(CatalogError::NoModels);
            },
        },
        None => {
            return Err(CatalogError::NoModels);
        },
    };
    if has_listed(raw) {
        return Ok(read_models(raw, true));
    }
    match bundled {
        Some(bundled) => match bundled.as_array() {
            Some(raw) => Ok(read_models(raw, false)),
            None => Err(CatalogError::Bundled),
        },
        None => Err(CatalogError::Bundled),
    }
}

/// The models from what the service answered.
pub fn catalog(value: &Json) -> (result: Result<Vec<Model>, CatalogError>)
    ensures
        match (result, catalog_of(value@, parsed(BUNDLED_MODELS@))) {
            (Ok(models), Ok(expected)) => model_views(models@) == expected,
            (Err(error), Err(expected)) => error == expected,
            _ => false,
        },
{
    let bundled = Json::parse(BUNDLED_MODELS);
    catalog_with(value, &bundled)
}

/// The models from the text of what the service answered.
pub fn catalog_answer(body: &str) -> (result: Result<Vec<Model>, CatalogError>)
    ensures
        match parsed(body@) {
            None => result == Err::<Vec<Model>, CatalogError>(CatalogError::Undecoded),
            Some(value) => match (result, catalog_of(value, parsed(BUNDLED_MODELS@))) {
                (Ok(models), Ok(expected)) => model_views(models@) == expected,
                (Err(error), Err(expected)) => error == expected,
                _ => false,
            },
        },
{
    match Json::parse(body) {
        None => Err(CatalogError::Undecoded),
        Some(value) => catalog(&value),
    }
}

/// There is always a model to choose, where the answer can be read.
pub proof fn law_catalog_is_never_empty(value: JsonView, bundled: Option<JsonView>)
    ensures
        match catalog_of(value, bundled) {
            Ok(models) => models.len() > 0,
            Err(_) => true,
        },
{
}

/// How much of an answer is shown that is no error message.
pub const SHOWN_ANSWER: usize = 500;

/// The first of a value's fields that is there: the message of the error, the
/// detail, or the message.
pub open spec fn error_field(value: JsonView) -> Option<JsonView> {
    match value.field("error"@).get("message"@) {
        Some(message) => Some(message),
        None => match value.get("detail"@) {
            Some(detail) => Some(detail),
            None => value.get("message"@),
        },
    }
}

/// What an answer says is wrong: the text of that field, else the start of the
/// answer.
pub open spec fn error_words(body: Seq<char>, value: Option<JsonView>) -> Seq<char> {
    match value {
        Some(value) => match error_field(value) {
            Some(field) => match field.as_str() {
                Some(text) => text,
                None => leading(body, SHOWN_ANSWER as nat),
            },
            None => leading(body, SHOWN_ANSWER as nat),
        },
        None => leading(body, SHOWN_ANSWER as nat),
    }
}

/// What an answer says is wrong, from the value that it holds.
pub fn error_message_of(body: &str, value: &Option<Json>) -> (text: String)
    ensures
        text@ == error_words(body@, crate::json::json_option(*value)),
{
    match value {
        Some(value) => {
            let error = value.field("error");
            let field = match error.get("message") {
                Some(message) => Some(message),
                None => match value.get("detail") {
                    Some(detail) => Some(detail),
                    None => value.get("message"),
                },
            };
            match field {
                Some(field) => match field.as_str() {
                    Some(text) => text.to_owned(),
                    None => leading_chars(body, SHOWN_ANSWER),
                },
                None => leading_chars(body, SHOWN_ANSWER),
            }
        },
        None => leading_chars(body, SHOWN_ANSWER),
    }
}

/// What an answer says is wrong.
pub fn error_message(body: &str) -> (text: String)
    ensures
        text@ == error_words(body@, parsed(body@)),
{
    let value = Json::parse(body);
    error_message_of(body, &value)
}

/// A model is taken as it is described: under its name, with the context that it has,
/// which it must have. What is not described has its default: the name for what it is
/// shown as, medium for the effort, and nine tenths of the context for where it is
/// compacted.
pub proof fn law_model_is_as_described(value: JsonView)
    ensures
        described_model(value) is Some <==> value.str_field("slug"@) is Some && value.field(
            "context_window"@,
        ).as_i64() is Some,
        described_model(value) matches Some(model) ==> {
            let window = value.field("context_window"@).as_i64();
            &&& model.provider == "codex"@
            &&& Some(model.id) == value.str_field("slug"@)
            &&& model.context_window == window
            &&& model.description == value.str_field("description"@)
            &&& model.display_name == (if value.str_field("display_name"@) is Some {
                value.str_field("display_name"@)->0
            } else {
                model.id
            })
            &&& model.default_reasoning_effort == (if value.str_field(
                "default_reasoning_level"@,
            ) is Some {
                value.str_field("default_reasoning_level"@)->0
            } else {
                "medium"@
            })
            &&& value.field("auto_compact_token_limit"@).as_i64() matches Some(limit)
                ==> model.auto_compact_token_limit == Some(limit)
            &&& value.field("auto_compact_token_limit"@).as_i64() is None && 0 <= window->0
                <= 1_000_000_000_000 ==> (model.auto_compact_token_limit matches Some(limit) && 10
                * limit <= 9 * window->0 < 10 * (limit + 1))
            &&& model.supported_reasoning_efforts.len() > 0
        },
{
    assert(CODEX_PROVIDER@ == "codex"@);
}

/// The efforts of a model are those that are named, plainly or as a field, in their
/// order; where none is named, its default is the one.
pub proof fn law_efforts_are_those_named(presets: Seq<JsonView>, count: nat, i: int)
    requires
        0 <= i < count <= presets.len(),
    ensures
        ({
            let named = efforts(presets, count);
            let at = efforts(presets, i as nat).len();
            let next = efforts(presets, (i + 1) as nat).len();
            let plain = presets[i].as_str();
            let field = presets[i].str_field("effort"@);
            &&& at <= next <= named.len()
            &&& field is Some ==> next == at + 1 && named[at as int] == field->0
            &&& field is None && plain is Some ==> next == at + 1 && named[at as int] == plain->0
            &&& field is None && plain is None ==> next == at
        }),
{
    lemma_efforts_grow(presets, (i + 1) as nat, count);
}

proof fn lemma_efforts_grow(presets: Seq<JsonView>, count: nat, total: nat)
    requires
        count <= total <= presets.len(),
    ensures
        efforts(presets, count).len() <= efforts(presets, total).len(),
        forall|k: int|
            0 <= k < efforts(presets, count).len() ==> #[trigger] efforts(presets, total)[k]
                == efforts(presets, count)[k],
    decreases total,
{
    if count < total {
        lemma_efforts_grow(presets, count, (total - 1) as nat);
    }
}

/// The catalog shows the models that are listed, in their order, and no other. Where
/// none is listed it is the one that comes with the program, and where that has none
/// it is one model.
pub proof fn law_listed_models_are_shown(values: Seq<JsonView>, only_listed: bool, count: nat, i: int)
    requires
        0 <= i < count <= values.len(),
    ensures
        ({
            let models = models_of(values, only_listed, count);
            let at = models_of(values, only_listed, i as nat).len();
            let next = models_of(values, only_listed, (i + 1) as nat).len();
            let shown = (!only_listed || values[i].str_field("visibility"@) == Some("list"@))
                && described_model(values[i]) is Some;
            &&& at <= next <= models.len()
            &&& shown ==> next == at + 1 && Some(models[at as int]) == described_model(values[i])
            &&& !shown ==> next == at
        }),
{
    lemma_models_grow(values, only_listed, (i + 1) as nat, count);
}

proof fn lemma_models_grow(values: Seq<JsonView>, only_listed: bool, count: nat, total: nat)
    requires
        count <= total <= values.len(),
    ensures
        models_of(values, only_listed, count).len() <= models_of(values, only_listed, total).len(),
        forall|k: int|
            0 <= k < models_of(values, only_listed, count).len() ==> #[trigger] models_of(
                values,
                only_listed,
                total,
            )[k] == models_of(values, only_listed, count)[k],
    decreases total,
{
    if count < total {
        lemma_models_grow(values, only_listed, count, (total - 1) as nat);
    }
}

/// Which models the catalog is made of.
pub proof fn law_catalog_is_that_of_the_server(value: JsonView, bundled: Option<JsonView>)
    ensures
        ({
            let catalog = catalog_of(value, bundled);
            let raw = value.field("models"@);
            let any = raw is Array && exists|i: int|
                0 <= i < raw->Array_0.len() && (#[trigger] raw->Array_0[i]).str_field("visibility"@)
                    == Some("list"@);
            &&& !(raw is Array) <==> catalog == Err::<Seq<ModelView>, CatalogError>(
                CatalogError::NoModels,
            )
            &&& any ==> catalog is Ok && (models_of(raw->Array_0, true, raw->Array_0.len()).len()
                > 0 ==> catalog->Ok_0 == models_of(raw->Array_0, true, raw->Array_0.len()))
            &&& raw is Array && !any ==> (catalog is Ok <==> (bundled matches Some(own) && own
                is Array))
            &&& raw is Array && !any && catalog is Ok ==> {
                let own = bundled->0->Array_0;
                models_of(own, false, own.len()).len() > 0 ==> catalog->Ok_0 == models_of(
                    own,
                    false,
                    own.len(),
                )
            }
        }),
{
    let raw = value.field("models"@);
    if raw is Array {
        if any_listed(raw->Array_0) {
            let i = choose|i: int| 0 <= i < raw->Array_0.len() && listed(#[trigger] raw->Array_0[i]);
            assert(raw->Array_0[i].str_field("visibility"@) == Some("list"@));
        } else {
            assert forall|i: int| 0 <= i < raw->Array_0.len() implies (
            #[trigger] raw->Array_0[i]).str_field("visibility"@) != Some("list"@) by {
                assert(!listed(raw->Array_0[i]));
            }
        }
    }
}

/// What an answer says went wrong is told in its own words, where it has any, else by
/// its beginning.
pub proof fn law_error_is_told_in_its_words(body: Seq<char>, value: JsonView)
    ensures
        value.field("error"@).str_field("message"@) matches Some(text) ==> error_words(
            body,
            Some(value),
        ) == text,
        value.field("error"@).get("message"@) is None && value.str_field("detail"@) is Some
            ==> error_words(body, Some(value)) == value.str_field("detail"@)->0,
        value.field("error"@).get("message"@) is None && value.get("detail"@) is None
            && value.str_field("message"@) is Some ==> error_words(body, Some(value))
            == value.str_field("message"@)->0,
        error_words(body, None).is_prefix_of(body),
        error_words(body, None).len() <= 500,
        body.len() <= 500 ==> error_words(body, None) == body,
{
    if body.len() <= 500 {
        assert(error_words(body, None) =~= body);
    }
}

} // verus!
