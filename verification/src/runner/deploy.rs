//! Files that a runner needs.
use crate::runner::replies::PrepareTreeResult;
use crate::text::{concat2, concat4, same_text};
use vstd::prelude::*;

verus! {

/// What is done to bring a tree of files to a runner.
#[derive(Debug, PartialEq)]
pub enum TreeStep {
    /// These objects are uploaded, and the runner is asked again.
    Upload { digests: Vec<String> },
    /// The tree is in place.
    Ready { path: String },
}

/// What is done to bring a tree of files to a runner: what it misses is uploaded
/// until it has the tree, which must be the one that was meant.
pub fn deploy_step(result: PrepareTreeResult, expected: &str) -> (step: Result<TreeStep, String>)
    ensures
        match result {
            PrepareTreeResult::MissingObjects(digests) => step == Ok::<TreeStep, String>(
                TreeStep::Upload { digests },
            ),
            PrepareTreeResult::Ready { digest, path } => if digest@ == expected@ {
                step == Ok::<TreeStep, String>(TreeStep::Ready { path })
            } else {
                step matches Err(message) && message@ == "runner returned tree digest "@ + digest@
                    + ", expected "@ + expected@
            },
        },
{
    match result {
        PrepareTreeResult::MissingObjects(digests) => Ok(TreeStep::Upload { digests }),
        PrepareTreeResult::Ready { digest, path } => {
            if !same_text(digest.as_str(), expected) {
                return Err(
                    concat4(
                        "runner returned tree digest ",
                        digest.as_str(),
                        ", expected ",
                        expected,
                    ),
                );
            }
            Ok(TreeStep::Ready { path })
        },
    }
}

/// What is done with the skills of a runner.
#[derive(Clone, Copy, Debug, PartialEq, Eq, Structural)]
pub enum SkillsAction {
    /// The runner has them.
    Keep,
    /// There are none any more.
    Remove,
    /// They are brought to the runner.
    Deploy,
}

/// What is done with the skills of a runner that has those with a digest.
pub fn skills_action(current: &Option<String>, digest: &str, none: bool) -> (action: SkillsAction)
    ensures
        action == (if current matches Some(current) && current@ == digest@ {
            SkillsAction::Keep
        } else if none {
            SkillsAction::Remove
        } else {
            SkillsAction::Deploy
        }),
{
    let kept = match current {
        Some(current) => same_text(current.as_str(), digest),
        None => false,
    };
    if kept {
        SkillsAction::Keep
    } else if none {
        SkillsAction::Remove
    } else {
        SkillsAction::Deploy
    }
}

/// Where the tools of a tree stand.
pub fn tools_path(tree: &str) -> (path: String)
    ensures
        path@ == tree@ + "/bin"@,
{
    concat2(tree, "/bin")
}

/// Where the skills of a tree stand.
pub fn skills_path(tree: &str) -> (path: String)
    ensures
        path@ == tree@ + "/skills"@,
{
    concat2(tree, "/skills")
}

/// The objects that the runner lacks are uploaded, and a tree is in place only where
/// it is the one that was asked for.
pub proof fn law_tree_is_the_one_asked_for(
    result: PrepareTreeResult,
    expected: &str,
    step: Result<TreeStep, String>,
)
    requires
        call_ensures(deploy_step, (result, expected), step),
    ensures
        step matches Ok(TreeStep::Ready { path }) ==> (result matches PrepareTreeResult::Ready {
            digest,
            path: told,
        } && told == path && digest@ == expected@),
        step matches Ok(TreeStep::Upload { digests }) ==> result
            == PrepareTreeResult::MissingObjects(digests),
        step is Err <==> (result matches PrepareTreeResult::Ready { digest, .. } && digest@
            != expected@),
{
}

/// Skills that the runner has are kept; those that it has not are brought, or removed
/// where there are none.
pub proof fn law_skills_are_brought_where_they_differ(
    current: Option<String>,
    digest: &str,
    none: bool,
    action: SkillsAction,
)
    requires
        call_ensures(skills_action, (&current, digest, none), action),
    ensures
        action is Keep <==> (current matches Some(current) && current@ == digest@),
        action is Remove <==> !(current matches Some(current) && current@ == digest@) && none,
        action is Deploy <==> !(current matches Some(current) && current@ == digest@) && !none,
{
}

/// The tools and the skills of a tree are below it, each in a directory of its own.
pub proof fn law_tools_and_skills_are_below_the_tree(tree: &str, tools: String, skills: String)
    requires
        call_ensures(tools_path, (tree,), tools),
        call_ensures(skills_path, (tree,), skills),
    ensures
        crate::text::has_prefix(tools@, tree@),
        crate::text::has_suffix(tools@, "/bin"@),
        crate::text::has_prefix(skills@, tree@),
        crate::text::has_suffix(skills@, "/skills"@),
{
    assert(tools@.take(tree@.len() as int) =~= tree@);
    assert(tools@.skip(tree@.len() as int) =~= "/bin"@);
    assert(skills@.take(tree@.len() as int) =~= tree@);
    assert(skills@.skip(tree@.len() as int) =~= "/skills"@);
}

} // verus!
