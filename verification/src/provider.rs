//! The providers of models.
use crate::text::{view_option, views};
use vstd::prelude::*;

pub mod api_key_auth;
pub mod codex;
pub mod codex_auth;
pub mod codex_limits;
pub mod codex_manager;
pub mod codex_session;
pub mod fake;
pub mod ollama;
pub mod opencode_go;
pub mod registry;
pub mod tool_binding;

verus! {

/// The name of the Codex provider.
pub const CODEX_PROVIDER: &'static str = "codex";

/// The name of the scripted provider.
pub const FAKE_PROVIDER: &'static str = "fake";

/// The name of the Ollama provider.
pub const OLLAMA_PROVIDER: &'static str = "ollama";

/// The name of the OpenCode Go provider.
pub const OPENCODE_GO_PROVIDER: &'static str = "opencode-go";

/// The model of a new thread.
pub const DEFAULT_MODEL: &'static str = "gpt-5.6-sol";

/// What every model is told first.
pub const BASE_INSTRUCTIONS: &'static str = "You are an expert coding assistant operating inside Atra, a coding agent harness. You help users by reading files, executing commands, editing code, and writing new files\n\nCommands execute on Atra Runners. The available Runners are provided in the conversation context. For each tool call, choose a suitable Runner with no more access than the operation requires.\n\nGuidelines:\n- Be concise in your responses.\n- Show file paths clearly when working with files.\n- For non-trivial work, put a todo annotation at the beginning of a commentary message or final answer when the todo state changes. Use `<todo>` and `</todo>` on separate lines with one or more `- [x]: completed`, `- [-]: in progress`, or `- [ ]: pending` lines between them. Omit the annotation when the todo state does not change.\n- Do not bypass or weaken Runner restrictions, sandbox boundaries, or Controller approval decisions.\n- Use subagents only when the user message, applicable AGENTS.md instructions, or an applicable skill explicitly instructs you to do so. Do not create subagents merely because delegation or parallelism may be useful.\n- When creating a subagent, omit `--model` and `--effort` so it inherits them from its parent unless the user message, applicable AGENTS.md instructions, or an applicable skill explicitly requires an override. Do not select a different model or reasoning effort merely because a task appears complex, important, or suited to a particular role.\n- The same rule applies to recursive delegation. A subagent may create child agents only when its thread context allows delegation and one of those instruction sources explicitly authorizes recursive delegation.\n- You are responsible for subagents you create. Before completing your turn, wait for required results and stop every descendant that is still running. Do not leave automated child turns running in the background.";

/// Who carries out a tool of a model.
#[derive(Debug, PartialEq)]
pub struct ModelToolBinding {
    pub tool: String,
    pub implementation: String,
}

/// A model of a provider.
#[derive(Debug, PartialEq)]
pub struct Model {
    pub provider: String,
    pub id: String,
    pub display_name: String,
    pub description: Option<String>,
    pub default_reasoning_effort: String,
    pub supported_reasoning_efforts: Vec<String>,
    pub context_window: Option<i64>,
    pub auto_compact_token_limit: Option<i64>,
    pub tool_bindings: Vec<ModelToolBinding>,
}

/// What a [`Model`] stands for.
pub struct ModelView {
    pub provider: Seq<char>,
    pub id: Seq<char>,
    pub display_name: Seq<char>,
    pub description: Option<Seq<char>>,
    pub default_reasoning_effort: Seq<char>,
    pub supported_reasoning_efforts: Seq<Seq<char>>,
    pub context_window: Option<i64>,
    pub auto_compact_token_limit: Option<i64>,
    pub tool_bindings: Seq<(Seq<char>, Seq<char>)>,
}

/// What bindings stand for.
pub open spec fn binding_views(bindings: Seq<ModelToolBinding>) -> Seq<(Seq<char>, Seq<char>)> {
    Seq::new(bindings.len(), |i: int| (bindings[i].tool@, bindings[i].implementation@))
}

impl View for Model {
    type V = ModelView;

    open spec fn view(&self) -> ModelView {
        ModelView {
            provider: self.provider@,
            id: self.id@,
            display_name: self.display_name@,
            description: view_option(self.description),
            default_reasoning_effort: self.default_reasoning_effort@,
            supported_reasoning_efforts: views(self.supported_reasoning_efforts@),
            context_window: self.context_window,
            auto_compact_token_limit: self.auto_compact_token_limit,
            tool_bindings: binding_views(self.tool_bindings@),
        }
    }
}

/// What models stand for.
pub open spec fn model_views(models: Seq<Model>) -> Seq<ModelView> {
    Seq::new(models.len(), |i: int| models[i]@)
}

/// One binding more.
pub(crate) fn bind(bindings: &mut Vec<ModelToolBinding>, tool: &str, implementation: &str)
    ensures
        binding_views(final(bindings)@) == binding_views(old(bindings)@).push(
            (tool@, implementation@),
        ),
{
    bindings.push(
        ModelToolBinding { tool: tool.to_owned(), implementation: implementation.to_owned() },
    );
    assert(binding_views(bindings@) =~= binding_views(old(bindings)@).push(
        (tool@, implementation@),
    ));
}

/// No bindings.
pub(crate) fn no_bindings() -> (bindings: Vec<ModelToolBinding>)
    ensures
        binding_views(bindings@) == Seq::<(Seq<char>, Seq<char>)>::empty(),
{
    let bindings: Vec<ModelToolBinding> = Vec::new();
    assert(binding_views(bindings@) =~= Seq::empty());
    bindings
}

/// One model more.
pub(crate) fn add_model(models: &mut Vec<Model>, model: Model)
    ensures
        model_views(final(models)@) == model_views(old(models)@).push(model@),
{
    models.push(model);
    assert(model_views(models@) =~= model_views(old(models)@).push(model@));
}

} // verus!
