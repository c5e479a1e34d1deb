//! The models of OpenCode Go.
use crate::json::{json_views, Json, JsonView};
use crate::provider::api_key_auth::CredentialSource;
use crate::provider::codex::{nine_tenths, nine_tenths_of};
use crate::provider::codex_session::{add_header, header_views, RequestHeader};
use crate::provider::tool_binding::{Binding, Executor};
use crate::provider::{
    add_model, bind, binding_views, model_views, no_bindings, Model, ModelToolBinding, ModelView,
    OPENCODE_GO_PROVIDER,
};
use crate::record::{read_record, record, Shape, ShapeView};
use crate::text::{concat2, concat3, contains_text, same_text, view_option, views};
use vstd::prelude::*;

verus! {

/// How a model is spoken to.
#[derive(Clone, Copy, Debug, PartialEq, Eq, Structural)]
pub enum Api {
    Responses,
    ChatCompletions,
    Messages,
}

/// The efforts of a model, the first of which it starts with.
#[derive(Clone, Copy, Debug, PartialEq, Eq, Structural)]
pub enum Efforts {
    LowMediumHigh,
    NoneToMax,
    LowHighMax,
    HighMax,
    Default,
    Max,
    OffOn,
    MinimalToXhigh,
    NoneLowHigh,
}

impl Efforts {
    /// The names of the efforts.
    pub open spec fn names(self) -> Seq<Seq<char>> {
        match self {
            Efforts::LowMediumHigh => seq!["low"@, "medium"@, "high"@],
            Efforts::NoneToMax => seq!["none"@, "low"@, "medium"@, "high"@, "xhigh"@, "max"@],
            Efforts::LowHighMax => seq!["low"@, "high"@, "max"@],
            Efforts::HighMax => seq!["high"@, "max"@],
            Efforts::Default => seq!["default"@],
            Efforts::Max => seq!["max"@],
            Efforts::OffOn => seq!["off"@, "on"@],
            Efforts::MinimalToXhigh => seq!["minimal"@, "low"@, "medium"@, "high"@, "xhigh"@],
            Efforts::NoneLowHigh => seq!["none"@, "low"@, "high"@],
        }
    }

    fn list(self) -> (names: Vec<String>)
        ensures
            views(names@) == self.names(),
            names.len() > 0,
    {
        let names = match self {
            Efforts::LowMediumHigh => {
                vec!["low".to_owned(), "medium".to_owned(), "high".to_owned()]
            },
            Efforts::NoneToMax => vec![
                "none".to_owned(),
                "low".to_owned(),
                "medium".to_owned(),
                "high".to_owned(),
                "xhigh".to_owned(),
                "max".to_owned(),
            ],
            Efforts::LowHighMax => vec!["low".to_owned(), "high".to_owned(), "max".to_owned()],
            Efforts::HighMax => vec!["high".to_owned(), "max".to_owned()],
            Efforts::Default => vec!["default".to_owned()],
            Efforts::Max => vec!["max".to_owned()],
            Efforts::OffOn => vec!["off".to_owned(), "on".to_owned()],
            Efforts::MinimalToXhigh => vec![
                "minimal".to_owned(),
                "low".to_owned(),
                "medium".to_owned(),
                "high".to_owned(),
                "xhigh".to_owned(),
            ],
            Efforts::NoneLowHigh => vec!["none".to_owned(), "low".to_owned(), "high".to_owned()],
        };
        assert(views(names@) =~= self.names());
        names
    }
}

/// A model of OpenCode Go. All of them have the same web tools.
#[derive(Clone, Copy, Debug)]
pub struct ModelSpec {
    pub id: &'static str,
    pub name: &'static str,
    pub api: Api,
    pub context: i64,
    pub efforts: Efforts,
}

/// The bindings of the web tools.
pub open spec fn web_bindings() -> Seq<(Seq<char>, Seq<char>)> {
    Seq::empty().push(("web_search"@, Binding::Function(Executor::Exa).words())).push(
        ("web_fetch"@, Binding::Function(Executor::DirectFetch).words()),
    )
}

fn web_tool_bindings() -> (bindings: Vec<ModelToolBinding>)
    ensures
        binding_views(bindings@) == web_bindings(),
{
    let mut bindings = no_bindings();
    bind(&mut bindings, "web_search", Binding::Function(Executor::Exa).name());
    bind(&mut bindings, "web_fetch", Binding::Function(Executor::DirectFetch).name());
    bindings
}

/// How a model is described.
pub open spec fn description(api: Api) -> Seq<char> {
    match api {
        Api::Responses => "OpenCode Go · Responses"@,
        Api::ChatCompletions => "OpenCode Go · Chat Completions"@,
        Api::Messages => "OpenCode Go · Messages"@,
    }
}

impl ModelSpec {
    /// The model as it is shown.
    pub open spec fn shown(self) -> ModelView {
        ModelView {
            provider: OPENCODE_GO_PROVIDER@,
            id: self.id@,
            display_name: self.name@,
            description: Some(description(self.api)),
            default_reasoning_effort: self.efforts.names()[0],
            supported_reasoning_efforts: self.efforts.names(),
            context_window: Some(self.context),
            auto_compact_token_limit: Some(nine_tenths(self.context) as i64),
            tool_bindings: web_bindings(),
        }
    }

    /// The model as it is shown.
    pub fn model(&self) -> (model: Model)
        requires
            i64::MIN <= self.context * 9 <= i64::MAX,
        ensures
            model@ == self.shown(),
    {
        let efforts = self.efforts.list();
        assert(views(efforts@)[0] == efforts[0]@);
        let description = match self.api {
            Api::Responses => "OpenCode Go · Responses",
            Api::ChatCompletions => "OpenCode Go · Chat Completions",
            Api::Messages => "OpenCode Go · Messages",
        };
        Model {
            provider: OPENCODE_GO_PROVIDER.to_owned(),
            id: self.id.to_owned(),
            display_name: self.name.to_owned(),
            description: Some(description.to_owned()),
            default_reasoning_effort: efforts[0].clone(),
            supported_reasoning_efforts: efforts,
            context_window: Some(self.context),
            auto_compact_token_limit: Some(nine_tenths_of(self.context)),
            tool_bindings: web_tool_bindings(),
        }
    }

    /// Who carries out a tool of the model.
    pub fn binding(&self, name: &str) -> (binding: Option<Binding>)
        ensures
            binding == (if name@ == "web_search"@ {
                Some(Binding::Function(Executor::Exa))
            } else if name@ == "web_fetch"@ {
                Some(Binding::Function(Executor::DirectFetch))
            } else {
                None
            }),
    {
        if same_text(name, "web_search") {
            Some(Binding::Function(Executor::Exa))
        } else if same_text(name, "web_fetch") {
            Some(Binding::Function(Executor::DirectFetch))
        } else {
            None
        }
    }
}

/// A model of OpenCode Go.
pub open spec fn entry(
    id: &'static str,
    name: &'static str,
    api: Api,
    context: i64,
    efforts: Efforts,
) -> ModelSpec {
    ModelSpec { id, name, api, context, efforts }
}

fn model_entry(
    id: &'static str,
    name: &'static str,
    api: Api,
    context: i64,
    efforts: Efforts,
) -> (model: ModelSpec)
    ensures
        model == entry(id, name, api, context, efforts),
{
    ModelSpec { id, name, api, context, efforts }
}

/// The models of OpenCode Go that are known.
pub open spec fn table() -> Seq<ModelSpec> {
    seq![
        entry("grok-4.5", "Grok 4.5", Api::Responses, 500_000, Efforts::LowMediumHigh),
        entry("gpt-5.6-luna", "GPT-5.6 Luna", Api::Responses, 1_050_000, Efforts::NoneToMax),
        entry("glm-5.3", "GLM-5.3", Api::ChatCompletions, 1_000_000, Efforts::LowHighMax),
        entry("glm-5.2", "GLM-5.2", Api::ChatCompletions, 1_000_000, Efforts::HighMax),
        entry("glm-5.1", "GLM-5.1", Api::ChatCompletions, 202_752, Efforts::Default),
        entry("kimi-k3", "Kimi K3", Api::ChatCompletions, 1_048_576, Efforts::Max),
        entry("kimi-k2.7-code", "Kimi K2.7 Code", Api::ChatCompletions, 262_144, Efforts::Default),
        entry("kimi-k2.6", "Kimi K2.6", Api::ChatCompletions, 262_144, Efforts::Default),
        entry("deepseek-v4-pro", "DeepSeek V4 Pro", Api::ChatCompletions, 1_000_000, Efforts::HighMax),
        entry("deepseek-v4-flash", "DeepSeek V4 Flash", Api::ChatCompletions, 1_000_000, Efforts::LowHighMax),
        entry("mimo-v2.5", "MiMo V2.5", Api::ChatCompletions, 1_000_000, Efforts::Default),
        entry("mimo-v2.5-pro", "MiMo V2.5 Pro", Api::ChatCompletions, 1_048_576, Efforts::Default),
        entry("minimax-m3", "MiniMax-M3", Api::Messages, 1_000_000, Efforts::OffOn),
        entry("minimax-m2.7", "MiniMax-M2.7", Api::Messages, 204_800, Efforts::Default),
        entry("muse-spark-1.2-contributor", "Muse Spark 1.2 Contributor", Api::Responses, 1_048_576, Efforts::MinimalToXhigh),
        entry("qwen3.8-max", "Qwen3.8 Max", Api::Messages, 1_000_000, Efforts::OffOn),
        entry("qwen3.7-max", "Qwen3.7 Max", Api::Messages, 1_000_000, Efforts::OffOn),
        entry("qwen3.7-plus", "Qwen3.7 Plus", Api::Messages, 1_000_000, Efforts::OffOn),
        entry("qwen3.6-plus", "Qwen3.6 Plus", Api::Messages, 1_000_000, Efforts::OffOn),
        entry("hy3", "Hy3", Api::ChatCompletions, 256_000, Efforts::NoneLowHigh),
    ]
}

/// The models of OpenCode Go that are known.
pub fn specs() -> (models: Vec<ModelSpec>)
    ensures
        models@ == table(),
        forall|i: int|
            0 <= i < models.len() ==> 0 <= (#[trigger] models[i]).context <= 2_000_000,
{
    let models = vec![
        model_entry("grok-4.5", "Grok 4.5", Api::Responses, 500_000, Efforts::LowMediumHigh),
        model_entry("gpt-5.6-luna", "GPT-5.6 Luna", Api::Responses, 1_050_000, Efforts::NoneToMax),
        model_entry("glm-5.3", "GLM-5.3", Api::ChatCompletions, 1_000_000, Efforts::LowHighMax),
        model_entry("glm-5.2", "GLM-5.2", Api::ChatCompletions, 1_000_000, Efforts::HighMax),
        model_entry("glm-5.1", "GLM-5.1", Api::ChatCompletions, 202_752, Efforts::Default),
        model_entry("kimi-k3", "Kimi K3", Api::ChatCompletions, 1_048_576, Efforts::Max),
        model_entry("kimi-k2.7-code", "Kimi K2.7 Code", Api::ChatCompletions, 262_144, Efforts::Default),
        model_entry("kimi-k2.6", "Kimi K2.6", Api::ChatCompletions, 262_144, Efforts::Default),
        model_entry("deepseek-v4-pro", "DeepSeek V4 Pro", Api::ChatCompletions, 1_000_000, Efforts::HighMax),
        model_entry("deepseek-v4-flash", "DeepSeek V4 Flash", Api::ChatCompletions, 1_000_000, Efforts::LowHighMax),
        model_entry("mimo-v2.5", "MiMo V2.5", Api::ChatCompletions, 1_000_000, Efforts::Default),
        model_entry("mimo-v2.5-pro", "MiMo V2.5 Pro", Api::ChatCompletions, 1_048_576, Efforts::Default),
        model_entry("minimax-m3", "MiniMax-M3", Api::Messages, 1_000_000, Efforts::OffOn),
        model_entry("minimax-m2.7", "MiniMax-M2.7", Api::Messages, 204_800, Efforts::Default),
        model_entry("muse-spark-1.2-contributor", "Muse Spark 1.2 Contributor", Api::Responses, 1_048_576, Efforts::MinimalToXhigh),
        model_entry("qwen3.8-max", "Qwen3.8 Max", Api::Messages, 1_000_000, Efforts::OffOn),
        model_entry("qwen3.7-max", "Qwen3.7 Max", Api::Messages, 1_000_000, Efforts::OffOn),
        model_entry("qwen3.7-plus", "Qwen3.7 Plus", Api::Messages, 1_000_000, Efforts::OffOn),
        model_entry("qwen3.6-plus", "Qwen3.6 Plus", Api::Messages, 1_000_000, Efforts::OffOn),
        model_entry("hy3", "Hy3", Api::ChatCompletions, 256_000, Efforts::NoneLowHigh),
    ];
    assert(models@ =~= table());
    models
}

/// The first known model with a name, from `from` on.
pub open spec fn find_spec(models: Seq<ModelSpec>, id: Seq<char>, from: nat) -> Option<ModelSpec>
    decreases models.len() - from,
{
    if from >= models.len() {
        None
    } else if models[from as int].id@ == id {
        Some(models[from as int])
    } else {
        find_spec(models, id, from + 1)
    }
}

/// The known model with a name.
pub fn spec(id: &str) -> (model: Option<ModelSpec>)
    ensures
        model == find_spec(table(), id@, 0),
{
    let models = specs();
    let mut i: usize = 0;
    while i < models.len()
        invariant
            i <= models.len(),
            models@ == table(),
            find_spec(table(), id@, 0) == find_spec(table(), id@, i as nat),
        decreases models.len() - i,
    {
        if same_text(models[i].id, id) {
            return Some(models[i]);
        }
        i += 1;
    }
    None
}

/// Those of the first `count` known models that the service has, as they are
/// shown.
pub open spec fn live_models(live: Seq<Seq<char>>, count: nat) -> Seq<ModelView>
    decreases count,
{
    if count == 0 {
        Seq::empty()
    } else {
        let before = live_models(live, (count - 1) as nat);
        if live.contains(table()[count - 1].id@) {
            before.push(table()[count - 1].shown())
        } else {
            before
        }
    }
}

/// The known models that the service has.
pub fn models(live: &Vec<String>) -> (models: Vec<Model>)
    ensures
        model_views(models@) == live_models(views(live@), table().len()),
{
    let known = specs();
    let mut found: Vec<Model> = Vec::new();
    let mut i: usize = 0;
    assert(model_views(found@) =~= Seq::empty());
    while i < known.len()
        invariant
            i <= known.len(),
            known@ == table(),
            forall|k: int|
                0 <= k < known.len() ==> 0 <= (#[trigger] known[k]).context <= 2_000_000,
            model_views(found@) == live_models(views(live@), i as nat),
        decreases known.len() - i,
    {
        if contains_text(live, known[i].id) {
            add_model(&mut found, known[i].model());
        }
        i += 1;
    }
    found
}

/// The id of a model that the service lists: the only field that is read.
pub open spec fn listed_id(model: JsonView) -> Option<Seq<char>> {
    match model.element("id"@, 0) {
        Some(JsonView::Text(id)) if model.is_record(1, 1) => Some(id),
        _ => None,
    }
}

fn read_id(model: &Json) -> (id: Option<String>)
    ensures
        view_option(id) == listed_id(model@),
{
    if !model.is_record(1, 1) {
        return None;
    }
    match model.element("id", 0) {
        Some(Json::Text(id)) => Some(id.clone()),
        _ => None,
    }
}

/// The ids of the first `count` models that the service lists; none where one of
/// them has no id.
pub open spec fn listed_ids(models: Seq<JsonView>, count: nat) -> Option<Seq<Seq<char>>>
    decreases count,
{
    if count == 0 {
        Some(Seq::empty())
    } else {
        match (listed_ids(models, (count - 1) as nat), listed_id(models[count - 1])) {
            (Some(before), Some(id)) => Some(before.push(id)),
            _ => None,
        }
    }
}

/// The ids of the models that the service lists; none where the list cannot be
/// read.
pub open spec fn ids_of(listing: JsonView) -> Option<Seq<Seq<char>>> {
    match listing.element("data"@, 0) {
        Some(JsonView::Array(models)) if listing.is_record(1, 1) => listed_ids(
            models,
            models.len(),
        ),
        _ => None,
    }
}

proof fn lemma_unlisted(models: Seq<JsonView>, from: nat, count: nat)
    requires
        from <= count,
        listed_ids(models, from) is None,
    ensures
        listed_ids(models, count) is None,
    decreases count,
{
    if from < count {
        lemma_unlisted(models, from, (count - 1) as nat);
    }
}

/// What is read of the list of models.
pub open spec fn listing_shape() -> ShapeView {
    ShapeView::record().with("data"@, ShapeView::record().with_whole("id"@).list())
}

/// The ids of the models that the service lists, from what it answers; none where
/// that cannot be read.
pub fn listing_answer(body: &[u8]) -> (ids: Option<Vec<String>>)
    ensures
        match record(body@, listing_shape()) {
            Some(listing) => match ids_of(listing) {
                Some(known) => ids matches Some(found) && views(found@) == known,
                None => ids is None,
            },
            None => ids is None,
        },
{
    let shape = Shape::record().with("data", Shape::record().with_whole("id").list());
    match read_record(body, &shape) {
        Some(listing) => live_ids(&listing),
        None => None,
    }
}

/// The ids of the models that the service lists.
pub fn live_ids(listing: &Json) -> (ids: Option<Vec<String>>)
    ensures
        match ids_of(listing@) {
            Some(known) => ids matches Some(found) && views(found@) == known,
            None => ids is None,
        },
{
    if !listing.is_record(1, 1) {
        return None;
    }
    let models = match listing.element("data", 0) {
        Some(data) => match data.as_array() {
            Some(models) => models,
            None => {
                return None;
            },
        },
        None => {
            return None;
        },
    };
    let mut ids: Vec<String> = Vec::new();
    let mut i: usize = 0;
    assert(views(ids@) =~= Seq::empty());
    while i < models.len()
        invariant
            i <= models.len(),
            listed_ids(json_views(models@), i as nat) == Some(views(ids@)),
            ids_of(listing@) == listed_ids(json_views(models@), models@.len()),
        decreases models.len() - i,
    {
        assert(json_views(models@)[i as int] == models[i as int]@);
        let ghost before = views(ids@);
        match read_id(&models[i]) {
            Some(id) => {
                ids.push(id);
                assert(views(ids@) =~= before.push(id@));
            },
            None => {
                proof {
                    lemma_unlisted(json_views(models@), (i + 1) as nat, models@.len());
                }
                return None;
            },
        }
        i += 1;
    }
    Some(ids)
}

/// Where a model is spoken to.
pub open spec fn endpoint_words(api: Api) -> Seq<char> {
    match api {
        Api::Responses => "https://opencode.ai/zen/go/v1/responses"@,
        Api::ChatCompletions => "https://opencode.ai/zen/go/v1/chat/completions"@,
        Api::Messages => "https://opencode.ai/zen/go/v1/messages"@,
    }
}

/// Where a model is spoken to.
pub fn endpoint(api: Api) -> (url: &'static str)
    ensures
        url@ == endpoint_words(api),
{
    match api {
        Api::Responses => "https://opencode.ai/zen/go/v1/responses",
        Api::ChatCompletions => "https://opencode.ai/zen/go/v1/chat/completions",
        Api::Messages => "https://opencode.ai/zen/go/v1/messages",
    }
}

/// How a model is spoken to, or what is told of a model that is not known.
pub fn route(model: &str) -> (result: Result<Api, String>)
    ensures
        match find_spec(table(), model@, 0) {
            Some(spec) => result == Ok::<Api, String>(spec.api),
            None => result matches Err(message) && message@ == "unsupported OpenCode Go model "@
                + model@,
        },
{
    match spec(model) {
        Some(spec) => Ok(spec.api),
        None => Err(concat2("unsupported OpenCode Go model ", model)),
    }
}

/// Who carries out a tool of a model.
pub fn tool_of(model: &str, name: &str) -> (binding: Option<Binding>)
    ensures
        binding == (if find_spec(table(), model@, 0) is None {
            None
        } else if name@ == "web_search"@ {
            Some(Binding::Function(Executor::Exa))
        } else if name@ == "web_fetch"@ {
            Some(Binding::Function(Executor::DirectFetch))
        } else {
            None
        }),
{
    match spec(model) {
        Some(spec) => spec.binding(name),
        None => None,
    }
}

/// What is told of the login.
pub fn account(source: Option<CredentialSource>) -> (text: String)
    ensures
        text@ == "OpenCode Go API key ("@ + (match source {
            Some(CredentialSource::Environment) => "environment"@,
            Some(CredentialSource::File) => "file"@,
            None => "unknown"@,
        }) + ")"@,
{
    let source = match source {
        Some(CredentialSource::Environment) => "environment",
        Some(CredentialSource::File) => "file",
        None => "unknown",
    };
    concat3("OpenCode Go API key (", source, ")")
}

/// What requests carry beside the key, by the form of the answer.
pub fn request_headers(api: Api, key: &str) -> (headers: Vec<RequestHeader>)
    ensures
        header_views(headers@) == (match api {
            Api::Messages => seq![
                ("x-api-key"@, key@),
                ("anthropic-version"@, "2023-06-01"@),
                ("anthropic-beta"@, "fine-grained-tool-streaming-2025-05-14"@),
            ],
            _ => Seq::empty(),
        }),
{
    let mut headers: Vec<RequestHeader> = Vec::new();
    assert(header_views(headers@) =~= Seq::empty());
    match api {
        Api::Messages => {
            add_header(&mut headers, "x-api-key", key);
            add_header(&mut headers, "anthropic-version", "2023-06-01");
            add_header(&mut headers, "anthropic-beta", "fine-grained-tool-streaming-2025-05-14");
            assert(header_views(headers@) =~= seq![
                ("x-api-key"@, key@),
                ("anthropic-version"@, "2023-06-01"@),
                ("anthropic-beta"@, "fine-grained-tool-streaming-2025-05-14"@),
            ]);
        },
        _ => {},
    }
    headers
}

/// The key that a login takes.
pub fn login_key(credential: Option<String>) -> (result: Result<String, &'static str>)
    ensures
        match credential {
            Some(key) => result == Ok::<String, &'static str>(key),
            None => result matches Err(text) && text@ == "OpenCode Go login requires an API key"@,
        },
{
    match credential {
        Some(key) => Ok(key),
        None => Err("OpenCode Go login requires an API key"),
    }
}

/// A model that the server lists is shown, and one that it does not list is not; what is
/// shown keeps the order of the table.
pub proof fn law_live_models_are_shown(live: Seq<Seq<char>>, count: nat, i: int)
    requires
        0 <= i < count <= table().len(),
    ensures
        ({
            let models = live_models(live, count);
            let at = live_models(live, i as nat).len();
            let next = live_models(live, (i + 1) as nat).len();
            let listed = live.contains(table()[i].id@);
            &&& at <= next <= models.len()
            &&& listed ==> next == at + 1 && models[at as int].id == table()[i].id@
            &&& !listed ==> next == at
        }),
{
    lemma_live_models_grow(live, (i + 1) as nat, count);
}

proof fn lemma_live_models_grow(live: Seq<Seq<char>>, count: nat, total: nat)
    requires
        count <= total <= table().len(),
    ensures
        live_models(live, count).len() <= live_models(live, total).len(),
        forall|k: int|
            0 <= k < live_models(live, count).len() ==> #[trigger] live_models(live, total)[k]
                == live_models(live, count)[k],
    decreases total,
{
    if count < total {
        lemma_live_models_grow(live, count, (total - 1) as nat);
    }
}

/// A model is shown under its own name with its own context, the first of its efforts as
/// the default, and is compacted at nine tenths of the context. It searches with Exa and
/// fetches by itself.
pub proof fn law_model_is_shown_as_specified(spec: ModelSpec)
    ensures
        ({
            let model = spec.shown();
            &&& model.provider == "opencode-go"@
            &&& model.id == spec.id@
            &&& model.display_name == spec.name@
            &&& model.context_window == Some(spec.context)
            &&& 0 <= spec.context <= 1_000_000_000_000 ==> (
            model.auto_compact_token_limit matches Some(limit) && 10 * limit <= 9 * spec.context
                < 10 * (limit + 1))
            &&& model.supported_reasoning_efforts.len() > 0
            &&& model.default_reasoning_effort == model.supported_reasoning_efforts[0]
            &&& model.tool_bindings.len() == 2
            &&& model.tool_bindings[0] == ("web_search"@, "exa"@)
            &&& model.tool_bindings[1] == ("web_fetch"@, "direct"@)
        }),
{
    assert(OPENCODE_GO_PROVIDER@ == "opencode-go"@);
}

/// The model of a name is the first of the table that has it, if one has.
pub proof fn law_model_is_found_by_its_name(models: Seq<ModelSpec>, id: Seq<char>, from: nat)
    requires
        from <= models.len(),
    ensures
        find_spec(models, id, from) matches Some(found) ==> found.id@ == id && models.contains(
            found,
        ),
        find_spec(models, id, from) is None ==> forall|i: int|
            from <= i < models.len() ==> (#[trigger] models[i]).id@ != id,
    decreases models.len() - from,
{
    if from < models.len() && models[from as int].id@ != id {
        law_model_is_found_by_its_name(models, id, from + 1);
    }
}

/// A request goes to the address of the interface that its model has, with the headers
/// that this one needs; a model that is not known is refused by name, and has no tools.
pub proof fn law_request_goes_to_its_interface(
    model: &str,
    routed: Result<Api, String>,
    api: Api,
    url: &'static str,
    key: &str,
    headers: Vec<RequestHeader>,
    name: &str,
    tool: Option<Binding>,
)
    requires
        call_ensures(route, (model,), routed),
        call_ensures(endpoint, (api,), url),
        call_ensures(request_headers, (api, key), headers),
        call_ensures(tool_of, (model, name), tool),
    ensures
        routed is Ok <==> find_spec(table(), model@, 0) is Some,
        routed matches Ok(found) ==> find_spec(table(), model@, 0)->0.api == found,
        routed matches Err(message) ==> crate::text::has_suffix(message@, model@),
        api is Responses ==> crate::text::has_suffix(url@, "/v1/responses"@),
        api is ChatCompletions ==> crate::text::has_suffix(url@, "/v1/chat/completions"@),
        api is Messages ==> crate::text::has_suffix(url@, "/v1/messages"@),
        api is Messages ==> header_views(headers@).contains(("x-api-key"@, key@)),
        api is Messages ==> header_views(headers@).contains(
            ("anthropic-version"@, "2023-06-01"@),
        ),
        !(api is Messages) ==> headers@.len() == 0,
        tool is Some ==> routed is Ok,
        routed is Ok ==> (tool is Some <==> name@ == "web_search"@ || name@ == "web_fetch"@),
        tool matches Some(binding) ==> (binding == Binding::Function(Executor::Exa) <==> name@
            == "web_search"@) && (binding == Binding::Function(Executor::DirectFetch) <==> name@
            == "web_fetch"@),
{
    reveal_strlit("web_search");
    reveal_strlit("web_fetch");
    assert("web_search"@.len() == 10 && "web_fetch"@.len() == 9);
    reveal_strlit("/v1/responses");
    reveal_strlit("/v1/chat/completions");
    reveal_strlit("/v1/messages");
    reveal_strlit("https://opencode.ai/zen/go/v1/responses");
    reveal_strlit("https://opencode.ai/zen/go/v1/chat/completions");
    reveal_strlit("https://opencode.ai/zen/go/v1/messages");
    match api {
        Api::Responses => {
            assert(url@.skip(url@.len() - "/v1/responses"@.len()) =~= "/v1/responses"@);
        },
        Api::ChatCompletions => {
            assert(url@.skip(url@.len() - "/v1/chat/completions"@.len())
                =~= "/v1/chat/completions"@);
        },
        Api::Messages => {
            assert(url@.skip(url@.len() - "/v1/messages"@.len()) =~= "/v1/messages"@);
            assert(header_views(headers@)[0] == ("x-api-key"@, key@));
            assert(header_views(headers@)[1] == ("anthropic-version"@, "2023-06-01"@));
        },
    }
    assert(header_views(headers@).len() == headers@.len());
    if let Err(message) = routed {
        assert(message@.skip(message@.len() - model@.len()) =~= model@);
    }
}

/// The names of a listing are those of its models, one for each, in their order.
pub proof fn law_every_listed_model_is_named(models: Seq<JsonView>, count: nat, i: int)
    requires
        0 <= i < count <= models.len(),
    ensures
        listed_ids(models, count) matches Some(ids) ==> ids.len() == count && Some(ids[i])
            == listed_id(models[i]),
    decreases count,
{
    reveal_with_fuel(listed_ids, 2);
    if count > 1 {
        law_every_listed_model_is_named(
            models,
            (count - 1) as nat,
            if i < count - 1 {
                i
            } else {
                0
            },
        );
    }
}

/// An account says where its key comes from; a login needs a key.
pub proof fn law_account_says_where_its_key_is(
    source: Option<CredentialSource>,
    text: String,
    credential: Option<String>,
    key: Result<String, &'static str>,
)
    requires
        call_ensures(account, (source,), text),
        call_ensures(login_key, (credential,), key),
    ensures
        source matches Some(CredentialSource::Environment) ==> crate::text::holds_part(
            text@,
            "environment"@,
        ),
        source matches Some(CredentialSource::File) ==> crate::text::holds_part(text@, "file"@),
        source is None ==> crate::text::holds_part(text@, "unknown"@),
        key is Ok <==> credential is Some,
        credential matches Some(given) ==> key == Ok::<String, &'static str>(given),
{
    let start = "OpenCode Go API key ("@;
    let middle = match source {
        Some(CredentialSource::Environment) => "environment"@,
        Some(CredentialSource::File) => "file"@,
        None => "unknown"@,
    };
    crate::text::lemma_holds_middle(start, middle, ")"@);
}

/// The efforts that a model is offered are words that are known, each once.
pub proof fn law_efforts_are_known_words(efforts: Efforts, i: int, j: int)
    requires
        0 <= i < j < efforts.names().len(),
    ensures
        efforts.names()[i] != efforts.names()[j],
        seq!["none"@, "off"@, "minimal"@, "low"@, "medium"@, "high"@, "xhigh"@].contains(
            efforts.names()[i],
        ),
        seq!["on"@, "low"@, "medium"@, "high"@, "xhigh"@, "max"@].contains(efforts.names()[j]),
{
    reveal_strlit("none");
    reveal_strlit("off");
    reveal_strlit("minimal");
    reveal_strlit("low");
    reveal_strlit("medium");
    reveal_strlit("high");
    reveal_strlit("xhigh");
    reveal_strlit("on");
    reveal_strlit("max");
    assert("none"@.len() == 4 && "off"@.len() == 3 && "minimal"@.len() == 7 && "low"@.len() == 3 && "medium"@.len() == 6 && "high"@.len() == 4 && "xhigh"@.len() == 5 && "on"@.len() == 2 && "max"@.len() == 3);
    assert("none"@[0] != "high"@[0]);
    assert("off"@[0] != "low"@[0]);
    assert("off"@[0] != "max"@[0]);
    assert("low"@[0] != "max"@[0]);
    let lower = seq!["none"@, "off"@, "minimal"@, "low"@, "medium"@, "high"@, "xhigh"@];
    let upper = seq!["on"@, "low"@, "medium"@, "high"@, "xhigh"@, "max"@];
    assert(lower[0] == "none"@ && lower[1] == "off"@ && lower[2] == "minimal"@ && lower[3]
        == "low"@ && lower[4] == "medium"@ && lower[5] == "high"@ && lower[6] == "xhigh"@);
    assert(upper[0] == "on"@ && upper[1] == "low"@ && upper[2] == "medium"@ && upper[3] == "high"@
        && upper[4] == "xhigh"@ && upper[5] == "max"@);
    match efforts {
        Efforts::LowMediumHigh => {},
        Efforts::NoneToMax => {},
        Efforts::LowHighMax => {},
        Efforts::HighMax => {},
        Efforts::Default => {},
        Efforts::Max => {},
        Efforts::OffOn => {},
        Efforts::MinimalToXhigh => {},
        Efforts::NoneLowHigh => {},
    }
}

} // verus!
