//! The sandbox of a runner: what Bubblewrap is started with.
use crate::path::{
    absolute, begins_with, byte_views, entries, is_absolute, is_strict_descendant, parts,
    path_starts_with, same_path, split_paths, strictly_below,
};
use crate::text::{decimal, decimal_text, digits};
use vstd::prelude::*;

verus! {

/// Where the home directory is in the sandbox.
pub const SANDBOX_HOME: &'static str = "/run/atra-home";

/// Where the runner is in the sandbox.
pub const RUNNER_PATH: &'static str = "/run/atra-runner";

/// How much of the host a sandbox shows.
#[derive(Clone, Copy, Debug, PartialEq, Eq, Structural)]
pub enum SandboxPreset {
    Standard,
    Relaxed,
}

/// The home directory of the host that a sandbox hides.
pub fn host_home(preset: SandboxPreset, home: Option<Vec<u8>>) -> (result: Result<
    Option<Vec<u8>>,
    &'static str,
>)
    ensures
        match (preset, home) {
            (SandboxPreset::Standard, Some(path)) => result == Ok::<Option<Vec<u8>>, &'static str>(
                Some(path),
            ),
            (SandboxPreset::Standard, None) => result matches Err(message) && message@
                == "HOME is not set; the standard sandbox requires a host HOME directory"@,
            (SandboxPreset::Relaxed, _) => result == Ok::<Option<Vec<u8>>, &'static str>(None),
        },
{
    match preset {
        SandboxPreset::Standard => match home {
            Some(path) => Ok(Some(path)),
            None => Err("HOME is not set; the standard sandbox requires a host HOME directory"),
        },
        SandboxPreset::Relaxed => Ok(None),
    }
}

/// An argument of Bubblewrap: a word of this program, or bytes from elsewhere.
#[derive(Debug, PartialEq)]
pub enum Argument {
    Word(String),
    Raw(Vec<u8>),
}

/// What an [`Argument`] stands for.
pub enum ArgumentView {
    Word(Seq<char>),
    Raw(Seq<u8>),
}

impl View for Argument {
    type V = ArgumentView;

    open spec fn view(&self) -> ArgumentView {
        match self {
            Argument::Word(text) => ArgumentView::Word(text@),
            Argument::Raw(bytes) => ArgumentView::Raw(bytes@),
        }
    }
}

/// What arguments stand for.
pub open spec fn argument_views(arguments: Seq<Argument>) -> Seq<ArgumentView> {
    Seq::new(arguments.len(), |i: int| arguments[i]@)
}

/// A directory that is shown at another place, read-only.
#[derive(Debug, PartialEq)]
pub struct ReadOnlyMount {
    pub source: Vec<u8>,
    pub destination: Vec<u8>,
}

/// What the sandbox is made of. The mounts are resolved.
#[derive(Debug, PartialEq)]
pub struct SandboxContext {
    pub workspace: Vec<u8>,
    pub sandbox_home: Vec<u8>,
    pub runner_binary: Vec<u8>,
    pub hidden_host_home: Option<Vec<u8>>,
    pub preserved_path_directories: Vec<ReadOnlyMount>,
    pub uid: u32,
    pub gid: u32,
    pub mount_ro: Vec<Vec<u8>>,
    pub mount_rw: Vec<Vec<u8>>,
    pub bwrap_args: Vec<Vec<u8>>,
}

/// Words as arguments.
pub open spec fn words(texts: Seq<Seq<char>>) -> Seq<ArgumentView> {
    Seq::new(texts.len(), |i: int| ArgumentView::Word(texts[i]))
}

/// Three arguments: a flag and two paths.
pub open spec fn bound(flag: Seq<char>, source: Seq<u8>, destination: Seq<u8>) -> Seq<
    ArgumentView,
> {
    seq![ArgumentView::Word(flag), ArgumentView::Raw(source), ArgumentView::Raw(destination)]
}

/// The namespaces, the user, and what is shown of the host.
pub open spec fn base(uid: u32, gid: u32) -> Seq<ArgumentView> {
    words(
        seq![
            "--unshare-user"@,
            "--unshare-pid"@,
            "--unshare-ipc"@,
            "--unshare-uts"@,
            "--unshare-cgroup"@,
            "--uid"@,
            decimal(uid as int),
            "--gid"@,
            decimal(gid as int),
            "--die-with-parent"@,
            "--ro-bind"@,
            "/"@,
            "/"@,
            "--proc"@,
            "/proc"@,
            "--dev"@,
            "/dev"@,
            "--tmpfs"@,
            "/tmp"@,
            "--tmpfs"@,
            "/run"@,
            "--tmpfs"@,
            "/var/tmp"@,
            "--ro-bind"@,
            "/sys"@,
            "/sys"@,
        ],
    )
}

/// An empty directory in the place of the home directory of the host.
pub open spec fn hidden(home: Option<Vec<u8>>) -> Seq<ArgumentView> {
    match home {
        Some(home) => seq![ArgumentView::Word("--tmpfs"@), ArgumentView::Raw(home@)],
        None => Seq::empty(),
    }
}

/// The home directory of the sandbox.
pub open spec fn own_home(home: Seq<u8>) -> Seq<ArgumentView> {
    seq![
        ArgumentView::Word("--dir"@),
        ArgumentView::Word(SANDBOX_HOME@),
        ArgumentView::Word("--bind"@),
        ArgumentView::Raw(home),
        ArgumentView::Word(SANDBOX_HOME@),
    ]
}

/// The first `count` of the directories that are kept.
pub open spec fn kept(mounts: Seq<ReadOnlyMount>, count: nat) -> Seq<ArgumentView>
    decreases count,
{
    if count == 0 {
        Seq::empty()
    } else {
        let mount = mounts[count - 1];
        kept(mounts, (count - 1) as nat) + seq![
            ArgumentView::Word("--dir"@),
            ArgumentView::Raw(mount.destination@),
        ] + bound("--ro-bind"@, mount.source@, mount.destination@)
    }
}

/// The runner.
pub open spec fn runner(binary: Seq<u8>) -> Seq<ArgumentView> {
    seq![
        ArgumentView::Word("--ro-bind"@),
        ArgumentView::Raw(binary),
        ArgumentView::Word(RUNNER_PATH@),
    ]
}

/// The first `count` paths, each at its place.
pub open spec fn mounted(flag: Seq<char>, paths: Seq<Seq<u8>>, count: nat) -> Seq<ArgumentView>
    decreases count,
{
    if count == 0 {
        Seq::empty()
    } else {
        mounted(flag, paths, (count - 1) as nat) + bound(flag, paths[count - 1], paths[count - 1])
    }
}

/// The environment.
pub open spec fn environment() -> Seq<ArgumentView> {
    words(
        seq![
            "--setenv"@,
            "HOME"@,
            SANDBOX_HOME@,
            "--setenv"@,
            "TMPDIR"@,
            "/tmp"@,
            "--setenv"@,
            "TMP"@,
            "/tmp"@,
            "--setenv"@,
            "TEMP"@,
            "/tmp"@,
            "--chdir"@,
        ],
    )
}

/// The first `count` byte strings as arguments.
pub open spec fn raws(list: Seq<Seq<u8>>) -> Seq<ArgumentView> {
    Seq::new(list.len(), |i: int| ArgumentView::Raw(list[i]))
}

/// What is shown of the host, before what the user mounts.
pub open spec fn preset(context: SandboxContext) -> Seq<ArgumentView> {
    base(context.uid, context.gid) + hidden(context.hidden_host_home) + own_home(
        context.sandbox_home@,
    ) + bound("--bind"@, context.workspace@, context.workspace@) + kept(
        context.preserved_path_directories@,
        context.preserved_path_directories@.len(),
    ) + runner(context.runner_binary@)
}

/// What the user mounts: first what can only be read.
pub open spec fn explicit(context: SandboxContext) -> Seq<ArgumentView> {
    mounted("--ro-bind"@, byte_views(context.mount_ro@), context.mount_ro@.len()) + mounted(
        "--bind"@,
        byte_views(context.mount_rw@),
        context.mount_rw@.len(),
    )
}

/// The arguments of Bubblewrap.
pub open spec fn planned(context: SandboxContext) -> Seq<ArgumentView> {
    preset(context) + explicit(context) + environment() + seq![
        ArgumentView::Raw(context.workspace@),
    ] + raws(byte_views(context.bwrap_args@)) + words(seq!["--"@, RUNNER_PATH@, "--stdio"@])
}

/// Texts as a list.
pub open spec fn str_views(texts: Seq<&str>) -> Seq<Seq<char>> {
    Seq::new(texts.len(), |i: int| texts[i]@)
}

fn add_word(arguments: &mut Vec<Argument>, text: &str)
    ensures
        argument_views(final(arguments)@) == argument_views(old(arguments)@).push(
            ArgumentView::Word(text@),
        ),
{
    arguments.push(Argument::Word(text.to_owned()));
    assert(argument_views(arguments@) =~= argument_views(old(arguments)@).push(
        ArgumentView::Word(text@),
    ));
}

fn add_raw(arguments: &mut Vec<Argument>, bytes: &Vec<u8>)
    ensures
        argument_views(final(arguments)@) == argument_views(old(arguments)@).push(
            ArgumentView::Raw(bytes@),
        ),
{
    arguments.push(Argument::Raw(bytes.clone()));
    assert(arguments@.last()@ == ArgumentView::Raw(bytes@));
    assert(argument_views(arguments@) =~= argument_views(old(arguments)@).push(
        ArgumentView::Raw(bytes@),
    ));
}

fn add_words(arguments: &mut Vec<Argument>, texts: &Vec<&str>)
    ensures
        argument_views(final(arguments)@) == argument_views(old(arguments)@) + words(
            str_views(texts@),
        ),
{
    let ghost before = argument_views(arguments@);
    let ghost all = words(str_views(texts@));
    let mut i: usize = 0;
    assert(before + all.take(0) =~= before);
    while i < texts.len()
        invariant
            i <= texts.len(),
            all == words(str_views(texts@)),
            argument_views(arguments@) == before + all.take(i as int),
        decreases texts.len() - i,
    {
        add_word(arguments, texts[i]);
        assert(before + all.take(i + 1) =~= (before + all.take(i as int)).push(all[i as int]));
        i += 1;
    }
    assert(all.take(i as int) =~= all);
}

fn add_bound(arguments: &mut Vec<Argument>, flag: &str, source: &Vec<u8>, destination: &Vec<u8>)
    ensures
        argument_views(final(arguments)@) == argument_views(old(arguments)@) + bound(
            flag@,
            source@,
            destination@,
        ),
{
    add_word(arguments, flag);
    add_raw(arguments, source);
    add_raw(arguments, destination);
    assert(argument_views(arguments@) =~= argument_views(old(arguments)@) + bound(
        flag@,
        source@,
        destination@,
    ));
}

fn add_mounted(arguments: &mut Vec<Argument>, flag: &str, paths: &Vec<Vec<u8>>)
    ensures
        argument_views(final(arguments)@) == argument_views(old(arguments)@) + mounted(
            flag@,
            byte_views(paths@),
            paths@.len(),
        ),
{
    let ghost before = argument_views(arguments@);
    let ghost all = byte_views(paths@);
    let mut i: usize = 0;
    assert(before + mounted(flag@, all, 0) =~= before);
    while i < paths.len()
        invariant
            i <= paths.len(),
            all == byte_views(paths@),
            argument_views(arguments@) == before + mounted(flag@, all, i as nat),
        decreases paths.len() - i,
    {
        assert(all[i as int] == paths[i as int]@);
        add_bound(arguments, flag, &paths[i], &paths[i]);
        assert(before + mounted(flag@, all, (i + 1) as nat) =~= (before + mounted(
            flag@,
            all,
            i as nat,
        )) + bound(flag@, all[i as int], all[i as int]));
        i += 1;
    }
}

fn add_kept(arguments: &mut Vec<Argument>, mounts: &Vec<ReadOnlyMount>)
    ensures
        argument_views(final(arguments)@) == argument_views(old(arguments)@) + kept(
            mounts@,
            mounts@.len(),
        ),
{
    let ghost before = argument_views(arguments@);
    let mut i: usize = 0;
    assert(before + kept(mounts@, 0) =~= before);
    while i < mounts.len()
        invariant
            i <= mounts.len(),
            argument_views(arguments@) == before + kept(mounts@, i as nat),
        decreases mounts.len() - i,
    {
        let mount = &mounts[i];
        add_word(arguments, "--dir");
        add_raw(arguments, &mount.destination);
        add_bound(arguments, "--ro-bind", &mount.source, &mount.destination);
        assert(argument_views(arguments@) =~= before + kept(mounts@, (i + 1) as nat));
        i += 1;
    }
}

fn add_raws(arguments: &mut Vec<Argument>, list: &Vec<Vec<u8>>)
    ensures
        argument_views(final(arguments)@) == argument_views(old(arguments)@) + raws(
            byte_views(list@),
        ),
{
    let ghost before = argument_views(arguments@);
    let ghost all = raws(byte_views(list@));
    let mut i: usize = 0;
    assert(before + all.take(0) =~= before);
    while i < list.len()
        invariant
            i <= list.len(),
            all == raws(byte_views(list@)),
            argument_views(arguments@) == before + all.take(i as int),
        decreases list.len() - i,
    {
        add_raw(arguments, &list[i]);
        assert(before + all.take(i + 1) =~= (before + all.take(i as int)).push(all[i as int]));
        i += 1;
    }
    assert(all.take(i as int) =~= all);
}

fn add_base(arguments: &mut Vec<Argument>, uid: u32, gid: u32)
    ensures
        argument_views(final(arguments)@) == argument_views(old(arguments)@) + base(uid, gid),
{
    let uid_text = decimal_text(uid as i128);
    let gid_text = decimal_text(gid as i128);
    let texts = vec![
        "--unshare-user",
        "--unshare-pid",
        "--unshare-ipc",
        "--unshare-uts",
        "--unshare-cgroup",
        "--uid",
        uid_text.as_str(),
        "--gid",
        gid_text.as_str(),
        "--die-with-parent",
        "--ro-bind",
        "/",
        "/",
        "--proc",
        "/proc",
        "--dev",
        "/dev",
        "--tmpfs",
        "/tmp",
        "--tmpfs",
        "/run",
        "--tmpfs",
        "/var/tmp",
        "--ro-bind",
        "/sys",
        "/sys",
    ];
    add_words(arguments, &texts);
    assert(words(str_views(texts@)) =~= base(uid, gid));
}

fn add_environment(arguments: &mut Vec<Argument>)
    ensures
        argument_views(final(arguments)@) == argument_views(old(arguments)@) + environment(),
{
    let texts = vec![
        "--setenv",
        "HOME",
        SANDBOX_HOME,
        "--setenv",
        "TMPDIR",
        "/tmp",
        "--setenv",
        "TMP",
        "/tmp",
        "--setenv",
        "TEMP",
        "/tmp",
        "--chdir",
    ];
    add_words(arguments, &texts);
    assert(words(str_views(texts@)) =~= environment());
}

/// The arguments that Bubblewrap is started with.
pub fn build_plan(context: &SandboxContext) -> (arguments: Vec<Argument>)
    ensures
        argument_views(arguments@) == planned(*context),
{
    let mut arguments: Vec<Argument> = Vec::new();
    assert(argument_views(arguments@) =~= Seq::empty());
    add_base(&mut arguments, context.uid, context.gid);
    assert(argument_views(arguments@) =~= base(context.uid, context.gid));
    let ghost before = argument_views(arguments@);
    match &context.hidden_host_home {
        Some(home) => {
            add_word(&mut arguments, "--tmpfs");
            add_raw(&mut arguments, home);
        },
        None => {},
    }
    assert(argument_views(arguments@) =~= before + hidden(context.hidden_host_home));
    let ghost before = argument_views(arguments@);
    add_word(&mut arguments, "--dir");
    add_word(&mut arguments, SANDBOX_HOME);
    add_word(&mut arguments, "--bind");
    add_raw(&mut arguments, &context.sandbox_home);
    add_word(&mut arguments, SANDBOX_HOME);
    assert(argument_views(arguments@) =~= before + own_home(context.sandbox_home@));
    add_bound(&mut arguments, "--bind", &context.workspace, &context.workspace);
    add_kept(&mut arguments, &context.preserved_path_directories);
    let ghost before = argument_views(arguments@);
    add_word(&mut arguments, "--ro-bind");
    add_raw(&mut arguments, &context.runner_binary);
    add_word(&mut arguments, RUNNER_PATH);
    assert(argument_views(arguments@) =~= before + runner(context.runner_binary@));
    assert(argument_views(arguments@) == preset(*context));
    add_mounted(&mut arguments, "--ro-bind", &context.mount_ro);
    add_mounted(&mut arguments, "--bind", &context.mount_rw);
    assert(argument_views(arguments@) =~= preset(*context) + explicit(*context));
    add_environment(&mut arguments);
    let ghost before = argument_views(arguments@);
    add_raw(&mut arguments, &context.workspace);
    assert(argument_views(arguments@) =~= before + seq![ArgumentView::Raw(context.workspace@)]);
    add_raws(&mut arguments, &context.bwrap_args);
    let last = vec!["--", RUNNER_PATH, "--stdio"];
    add_words(&mut arguments, &last);
    assert(words(str_views(last@)) =~= words(seq!["--"@, RUNNER_PATH@, "--stdio"@]));
    arguments
}

/// The directories of the host that the sandbox does not show: `/tmp`, `/run` and
/// `/var/tmp`, and the home directory where it is hidden.
pub open spec fn hidden_roots(home: Option<Vec<u8>>) -> Seq<Seq<u8>> {
    let always = seq![
        seq![47u8, 116, 109, 112],
        seq![47u8, 114, 117, 110],
        seq![47u8, 118, 97, 114, 47, 116, 109, 112],
    ];
    match home {
        Some(home) => always.push(home@),
        None => always,
    }
}

/// Whether a directory of the search path is hidden without being a hidden
/// directory itself or a part of the workspace.
pub open spec fn wanted(path: Seq<u8>, workspace: Seq<u8>, roots: Seq<Seq<u8>>) -> bool {
    &&& absolute(path)
    &&& !begins_with(parts(path), parts(workspace))
    &&& exists|i: int| 0 <= i < roots.len() && strictly_below(path, #[trigger] roots[i])
}

/// Whether a path is among others.
pub open spec fn listed(paths: Seq<Seq<u8>>, path: Seq<u8>) -> bool {
    exists|i: int| 0 <= i < paths.len() && parts(#[trigger] paths[i]) == parts(path)
}

/// Those of the first `count` directories that are wanted, each once.
pub open spec fn wanted_of(
    paths: Seq<Seq<u8>>,
    workspace: Seq<u8>,
    roots: Seq<Seq<u8>>,
    count: nat,
) -> Seq<Seq<u8>>
    decreases count,
{
    if count == 0 {
        Seq::empty()
    } else {
        let before = wanted_of(paths, workspace, roots, (count - 1) as nat);
        let path = paths[count - 1];
        if wanted(path, workspace, roots) && !listed(before, path) {
            before.push(path)
        } else {
            before
        }
    }
}

fn is_listed(paths: &Vec<Vec<u8>>, path: &Vec<u8>) -> (found: bool)
    ensures
        found == listed(byte_views(paths@), path@),
{
    let ghost all = byte_views(paths@);
    let mut i: usize = 0;
    while i < paths.len()
        invariant
            i <= paths.len(),
            all == byte_views(paths@),
            forall|k: int| 0 <= k < i ==> parts(#[trigger] all[k]) != parts(path@),
        decreases paths.len() - i,
    {
        assert(all[i as int] == paths[i as int]@);
        if same_path(&paths[i], path) {
            return true;
        }
        i += 1;
    }
    false
}

fn is_wanted(path: &Vec<u8>, workspace: &Vec<u8>, roots: &Vec<Vec<u8>>) -> (result: bool)
    ensures
        result == wanted(path@, workspace@, byte_views(roots@)),
{
    if !is_absolute(path) || path_starts_with(path, workspace) {
        return false;
    }
    let ghost all = byte_views(roots@);
    let mut i: usize = 0;
    while i < roots.len()
        invariant
            i <= roots.len(),
            all == byte_views(roots@),
            absolute(path@),
            !begins_with(parts(path@), parts(workspace@)),
            forall|k: int| 0 <= k < i ==> !strictly_below(path@, #[trigger] all[k]),
        decreases roots.len() - i,
    {
        assert(all[i as int] == roots[i as int]@);
        if is_strict_descendant(path, &roots[i]) {
            return true;
        }
        i += 1;
    }
    false
}

/// The directories of a search path that the sandbox hides and that are shown
/// again where they can be resolved.
pub fn preserved_path_directories(
    path: &Option<Vec<u8>>,
    workspace: &Vec<u8>,
    hidden_host_home: &Option<Vec<u8>>,
) -> (directories: Vec<Vec<u8>>)
    ensures
        byte_views(directories@) == (match *path {
            Some(list) => wanted_of(
                entries(list@, 0),
                workspace@,
                hidden_roots(*hidden_host_home),
                entries(list@, 0).len(),
            ),
            None => Seq::empty(),
        }),
{
    let mut directories: Vec<Vec<u8>> = Vec::new();
    assert(byte_views(directories@) =~= Seq::empty());
    let list = match path {
        Some(list) => list,
        None => {
            return directories;
        },
    };
    let mut roots: Vec<Vec<u8>> = Vec::new();
    roots.push(vec![47u8, 116, 109, 112]);
    roots.push(vec![47u8, 114, 117, 110]);
    roots.push(vec![47u8, 118, 97, 114, 47, 116, 109, 112]);
    match hidden_host_home {
        Some(home) => {
            roots.push(home.clone());
        },
        None => {},
    }
    assert(byte_views(roots@) =~~= hidden_roots(*hidden_host_home));
    let paths = split_paths(list);
    let ghost all = byte_views(paths@);
    let mut i: usize = 0;
    while i < paths.len()
        invariant
            i <= paths.len(),
            all == byte_views(paths@),
            byte_views(directories@) == wanted_of(
                all,
                workspace@,
                byte_views(roots@),
                i as nat,
            ),
        decreases paths.len() - i,
    {
        assert(all[i as int] == paths[i as int]@);
        let ghost before = byte_views(directories@);
        if is_wanted(&paths[i], workspace, &roots) && !is_listed(&directories, &paths[i]) {
            directories.push(paths[i].clone());
            assert(byte_views(directories@) =~= before.push(all[i as int]));
        }
        i += 1;
    }
    directories
}

/// Whether a file can be run.
pub open spec fn runnable(is_file: bool, mode: u32) -> bool {
    is_file && (mode / 64 % 2 == 1 || mode / 8 % 2 == 1 || mode % 2 == 1)
}

/// Whether a file can be run: one of its permissions says so.
pub fn is_executable(is_file: bool, mode: u32) -> (result: bool)
    ensures
        result == runnable(is_file, mode),
{
    is_file && (mode / 64 % 2 == 1 || mode / 8 % 2 == 1 || mode % 2 == 1)
}

/// The home directory of the host is hidden before the workspace is shown, which
/// may lie in it.
pub proof fn law_home_is_hidden_before_the_workspace(context: SandboxContext, home: Vec<u8>)
    requires
        context.hidden_host_home == Some(home),
    ensures
        exists|i: int, j: int|
            0 <= i && i + 2 <= j && j + 3 <= planned(context).len() && planned(context).subrange(
                i,
                i + 2,
            ) == hidden(Some(home)) && #[trigger] planned(context).subrange(j, j + 3) == bound(
                "--bind"@,
                context.workspace@,
                context.workspace@,
            ) && #[trigger] after(i, j),
{
    let plan = planned(context);
    let i = base(context.uid, context.gid).len() as int;
    let j = i + 2 + 5;
    assert(plan.subrange(i, i + 2) =~= hidden(Some(home)));
    assert(plan.subrange(j, j + 3) =~= bound("--bind"@, context.workspace@, context.workspace@));
    assert(after(i, j));
}

/// Whether a place comes after another.
pub open spec fn after(first: int, second: int) -> bool {
    first < second
}

proof fn lemma_mounted(flag: Seq<char>, paths: Seq<Seq<u8>>, count: nat, k: int)
    requires
        count <= paths.len(),
    ensures
        mounted(flag, paths, count).len() == 3 * count,
        0 <= k < count ==> mounted(flag, paths, count).subrange(3 * k, 3 * k + 3) == bound(
            flag,
            paths[k],
            paths[k],
        ),
    decreases count,
{
    if count > 0 {
        lemma_mounted(flag, paths, (count - 1) as nat, k);
        let before = mounted(flag, paths, (count - 1) as nat);
        let all = mounted(flag, paths, count);
        if 0 <= k < count - 1 {
            assert(all.subrange(3 * k, 3 * k + 3) =~= before.subrange(3 * k, 3 * k + 3));
        } else if k == count - 1 {
            assert(all.subrange(3 * k, 3 * k + 3) =~= bound(flag, paths[k], paths[k]));
        }
    }
}

/// What the user mounts comes after all that is shown without it, the mounts that
/// can be written after those that can only be read.
pub proof fn law_explicit_mounts_follow_the_preset(context: SandboxContext, k: int)
    ensures
        0 <= k < context.mount_ro@.len() ==> planned(context).subrange(
            preset(context).len() + 3 * k,
            preset(context).len() + 3 * k + 3,
        ) == bound("--ro-bind"@, context.mount_ro@[k]@, context.mount_ro@[k]@),
        0 <= k < context.mount_rw@.len() ==> planned(context).subrange(
            preset(context).len() + 3 * context.mount_ro@.len() + 3 * k,
            preset(context).len() + 3 * context.mount_ro@.len() + 3 * k + 3,
        ) == bound("--bind"@, context.mount_rw@[k]@, context.mount_rw@[k]@),
{
    let plan = planned(context);
    let start = preset(context).len() as int;
    let ro = byte_views(context.mount_ro@);
    let rw = byte_views(context.mount_rw@);
    lemma_mounted("--ro-bind"@, ro, ro.len(), k);
    lemma_mounted("--bind"@, rw, rw.len(), k);
    let first = mounted("--ro-bind"@, ro, ro.len());
    let second = mounted("--bind"@, rw, rw.len());
    let middle = start + 3 * ro.len();
    assert(plan.subrange(start, middle) =~= first);
    assert(plan.subrange(middle, middle + 3 * rw.len()) =~= second);
    if 0 <= k < ro.len() {
        assert(plan.subrange(start + 3 * k, start + 3 * k + 3) =~= first.subrange(
            3 * k,
            3 * k + 3,
        ));
    }
    if 0 <= k < rw.len() {
        assert(plan.subrange(middle + 3 * k, middle + 3 * k + 3) =~= second.subrange(
            3 * k,
            3 * k + 3,
        ));
    }
}

/// The raw arguments come last before the runner that is started.
pub proof fn law_raw_arguments_precede_the_runner(context: SandboxContext)
    ensures
        planned(context).len() >= context.bwrap_args@.len() + 3,
        planned(context).skip(planned(context).len() - context.bwrap_args@.len() - 3) == raws(
            byte_views(context.bwrap_args@),
        ) + words(seq!["--"@, RUNNER_PATH@, "--stdio"@]),
{
    let plan = planned(context);
    let rest = raws(byte_views(context.bwrap_args@)) + words(
        seq!["--"@, RUNNER_PATH@, "--stdio"@],
    );
    assert(plan.skip(plan.len() - context.bwrap_args@.len() - 3) =~= rest);
}

proof fn lemma_digits_start(value: nat)
    ensures
        digits(value).len() > 0,
        '0' <= digits(value)[0] <= '9',
    decreases value,
{
    if value >= 10 {
        lemma_digits_start(value / 10);
    }
}

proof fn lemma_kept_words(mounts: Seq<ReadOnlyMount>, count: nat, word: Seq<char>)
    requires
        word != "--dir"@,
        word != "--ro-bind"@,
        count <= mounts.len(),
    ensures
        !kept(mounts, count).contains(ArgumentView::Word(word)),
    decreases count,
{
    if count > 0 {
        lemma_kept_words(mounts, (count - 1) as nat, word);
        let before = kept(mounts, (count - 1) as nat);
        let all = kept(mounts, count);
        assert forall|i: int| 0 <= i < all.len() implies all[i] != ArgumentView::Word(word) by {
            if i < before.len() {
                assert(all[i] == before[i]);
                assert(before.contains(before[i]));
            }
        }
    }
}

proof fn lemma_mounted_words(flag: Seq<char>, paths: Seq<Seq<u8>>, count: nat, word: Seq<char>)
    requires
        word != flag,
        count <= paths.len(),
    ensures
        !mounted(flag, paths, count).contains(ArgumentView::Word(word)),
    decreases count,
{
    if count > 0 {
        lemma_mounted_words(flag, paths, (count - 1) as nat, word);
        let before = mounted(flag, paths, (count - 1) as nat);
        let all = mounted(flag, paths, count);
        assert forall|i: int| 0 <= i < all.len() implies all[i] != ArgumentView::Word(word) by {
            if i < before.len() {
                assert(all[i] == before[i]);
                assert(before.contains(before[i]));
            }
        }
    }
}

proof fn lemma_both(left: Seq<ArgumentView>, right: Seq<ArgumentView>, argument: ArgumentView)
    requires
        !left.contains(argument),
        !right.contains(argument),
    ensures
        !(left + right).contains(argument),
{
    assert forall|i: int| 0 <= i < (left + right).len() implies (left + right)[i] != argument by {
        if i < left.len() {
            assert(left.contains(left[i]));
        } else {
            assert(right.contains(right[i - left.len()]));
        }
    }
}

proof fn lemma_other_words()
    ensures
        "--unshare-user"@ != "--unshare-net"@,
        "--unshare-pid"@ != "--unshare-net"@,
        "--unshare-ipc"@ != "--unshare-net"@,
        "--unshare-uts"@ != "--unshare-net"@,
        "--unshare-cgroup"@ != "--unshare-net"@,
        "--uid"@ != "--unshare-net"@,
        "--gid"@ != "--unshare-net"@,
        "--die-with-parent"@ != "--unshare-net"@,
        "--ro-bind"@ != "--unshare-net"@,
        "--bind"@ != "--unshare-net"@,
        "--dir"@ != "--unshare-net"@,
        "/"@ != "--unshare-net"@,
        "--proc"@ != "--unshare-net"@,
        "/proc"@ != "--unshare-net"@,
        "--dev"@ != "--unshare-net"@,
        "/dev"@ != "--unshare-net"@,
        "--tmpfs"@ != "--unshare-net"@,
        "/tmp"@ != "--unshare-net"@,
        "/run"@ != "--unshare-net"@,
        "/var/tmp"@ != "--unshare-net"@,
        "/sys"@ != "--unshare-net"@,
        "--setenv"@ != "--unshare-net"@,
        "HOME"@ != "--unshare-net"@,
        "TMPDIR"@ != "--unshare-net"@,
        "TMP"@ != "--unshare-net"@,
        "TEMP"@ != "--unshare-net"@,
        "--chdir"@ != "--unshare-net"@,
        "--"@ != "--unshare-net"@,
        "--stdio"@ != "--unshare-net"@,
        "/run/atra-home"@ != "--unshare-net"@,
        "/run/atra-runner"@ != "--unshare-net"@,
{
    reveal_strlit("--unshare-net");
    reveal_strlit("--unshare-user");
    reveal_strlit("--unshare-pid");
    reveal_strlit("--unshare-ipc");
    reveal_strlit("--unshare-uts");
    reveal_strlit("--unshare-cgroup");
    reveal_strlit("--uid");
    reveal_strlit("--gid");
    reveal_strlit("--die-with-parent");
    reveal_strlit("--ro-bind");
    reveal_strlit("--bind");
    reveal_strlit("--dir");
    reveal_strlit("/");
    reveal_strlit("--proc");
    reveal_strlit("/proc");
    reveal_strlit("--dev");
    reveal_strlit("/dev");
    reveal_strlit("--tmpfs");
    reveal_strlit("/tmp");
    reveal_strlit("/run");
    reveal_strlit("/var/tmp");
    reveal_strlit("/sys");
    reveal_strlit("--setenv");
    reveal_strlit("HOME");
    reveal_strlit("TMPDIR");
    reveal_strlit("TMP");
    reveal_strlit("TEMP");
    reveal_strlit("--chdir");
    reveal_strlit("--");
    reveal_strlit("--stdio");
    reveal_strlit("/run/atra-home");
    reveal_strlit("/run/atra-runner");
    assert("--unshare-net"@.len() == 13);
    assert("--unshare-net"@[10] == 'n');
    assert("--unshare-user"@.len() == 14);
    assert("--unshare-pid"@[10] == 'p');
    assert("--unshare-ipc"@[10] == 'i');
    assert("--unshare-uts"@[10] == 'u');
    assert("--unshare-cgroup"@.len() == 16);
    assert("--uid"@.len() == 5);
    assert("--gid"@.len() == 5);
    assert("--die-with-parent"@.len() == 17);
    assert("--ro-bind"@.len() == 9);
    assert("--bind"@.len() == 6);
    assert("--dir"@.len() == 5);
    assert("/"@.len() == 1);
    assert("--proc"@.len() == 6);
    assert("/proc"@.len() == 5);
    assert("--dev"@.len() == 5);
    assert("/dev"@.len() == 4);
    assert("--tmpfs"@.len() == 7);
    assert("/tmp"@.len() == 4);
    assert("/run"@.len() == 4);
    assert("/var/tmp"@.len() == 8);
    assert("/sys"@.len() == 4);
    assert("--setenv"@.len() == 8);
    assert("HOME"@.len() == 4);
    assert("TMPDIR"@.len() == 6);
    assert("TMP"@.len() == 3);
    assert("TEMP"@.len() == 4);
    assert("--chdir"@.len() == 7);
    assert("--"@.len() == 2);
    assert("--stdio"@.len() == 7);
    assert("/run/atra-home"@.len() == 14);
    assert("/run/atra-runner"@.len() == 16);
}

/// No word of this program gives the sandbox a network of its own.
pub proof fn law_network_is_shared(context: SandboxContext)
    ensures
        !planned(context).contains(ArgumentView::Word("--unshare-net"@)),
{
    let word = "--unshare-net"@;
    let argument = ArgumentView::Word(word);
    reveal_strlit("--unshare-net");
    lemma_other_words();
    lemma_digits_start(context.uid as nat);
    lemma_digits_start(context.gid as nat);
    let first = base(context.uid, context.gid);
    assert(decimal(context.uid as int)[0] != word[0]);
    assert(decimal(context.gid as int)[0] != word[0]);
    assert forall|i: int| 0 <= i < first.len() implies first[i] != argument by {}
    lemma_both(first, hidden(context.hidden_host_home), argument);
    let second = first + hidden(context.hidden_host_home);
    lemma_both(second, own_home(context.sandbox_home@), argument);
    let third = second + own_home(context.sandbox_home@);
    let workspace = bound("--bind"@, context.workspace@, context.workspace@);
    lemma_both(third, workspace, argument);
    let mounts = context.preserved_path_directories@;
    lemma_kept_words(mounts, mounts.len(), word);
    lemma_both(third + workspace, kept(mounts, mounts.len()), argument);
    lemma_both(
        third + workspace + kept(mounts, mounts.len()),
        runner(context.runner_binary@),
        argument,
    );
    let ro = byte_views(context.mount_ro@);
    let rw = byte_views(context.mount_rw@);
    lemma_mounted_words("--ro-bind"@, ro, ro.len(), word);
    lemma_mounted_words("--bind"@, rw, rw.len(), word);
    lemma_both(
        mounted("--ro-bind"@, ro, ro.len()),
        mounted("--bind"@, rw, rw.len()),
        argument,
    );
    lemma_both(preset(context), explicit(context), argument);
    lemma_both(preset(context) + explicit(context), environment(), argument);
    let place = seq![ArgumentView::Raw(context.workspace@)];
    let fourth = preset(context) + explicit(context) + environment();
    lemma_both(fourth, place, argument);
    lemma_both(fourth + place, raws(byte_views(context.bwrap_args@)), argument);
    lemma_both(
        fourth + place + raws(byte_views(context.bwrap_args@)),
        words(seq!["--"@, RUNNER_PATH@, "--stdio"@]),
        argument,
    );
}

/// Whether arguments stand in a list next to each other, in their order.
pub open spec fn has_run(list: Seq<ArgumentView>, run: Seq<ArgumentView>) -> bool {
    exists|at: int|
        0 <= at <= list.len() - run.len() && #[trigger] list.subrange(at, at + run.len()) == run
}

proof fn lemma_run_stays(one: Seq<ArgumentView>, other: Seq<ArgumentView>, run: Seq<ArgumentView>)
    ensures
        has_run(one, run) ==> has_run(one + other, run),
        has_run(other, run) ==> has_run(one + other, run),
{
    let all = one + other;
    if has_run(one, run) {
        let at = choose|at: int|
            0 <= at <= one.len() - run.len() && #[trigger] one.subrange(at, at + run.len()) == run;
        assert(all.subrange(at, at + run.len()) =~= one.subrange(at, at + run.len()));
    }
    if has_run(other, run) {
        let at = choose|at: int|
            0 <= at <= other.len() - run.len() && #[trigger] other.subrange(at, at + run.len())
                == run;
        let there = one.len() + at;
        assert(all.subrange(there, there + run.len()) =~= other.subrange(at, at + run.len()));
    }
}

proof fn lemma_preset_run(context: SandboxContext, run: Seq<ArgumentView>)
    ensures
        has_run(base(context.uid, context.gid), run) ==> has_run(preset(context), run),
        has_run(own_home(context.sandbox_home@), run) ==> has_run(preset(context), run),
        has_run(bound("--bind"@, context.workspace@, context.workspace@), run) ==> has_run(
            preset(context),
            run,
        ),
{
    let first = base(context.uid, context.gid);
    let hides = hidden(context.hidden_host_home);
    let home = own_home(context.sandbox_home@);
    let space = bound("--bind"@, context.workspace@, context.workspace@);
    let keeps = kept(
        context.preserved_path_directories@,
        context.preserved_path_directories@.len(),
    );
    let binary = runner(context.runner_binary@);
    lemma_run_stays(first, hides, run);
    lemma_run_stays(first + hides, home, run);
    lemma_run_stays(first + hides + home, space, run);
    lemma_run_stays(first + hides + home + space, keeps, run);
    lemma_run_stays(first + hides + home + space + keeps, binary, run);
}

proof fn lemma_planned_run(context: SandboxContext, run: Seq<ArgumentView>)
    ensures
        has_run(preset(context), run) ==> has_run(planned(context), run),
        has_run(explicit(context), run) ==> has_run(planned(context), run),
        has_run(environment(), run) ==> has_run(planned(context), run),
{
    let there = seq![ArgumentView::Raw(context.workspace@)];
    let given = raws(byte_views(context.bwrap_args@));
    let ending = words(seq!["--"@, RUNNER_PATH@, "--stdio"@]);
    let start = preset(context) + explicit(context);
    lemma_run_stays(preset(context), explicit(context), run);
    lemma_run_stays(start, environment(), run);
    lemma_run_stays(start + environment(), there, run);
    lemma_run_stays(start + environment() + there, given, run);
    lemma_run_stays(start + environment() + there + given, ending, run);
}

proof fn lemma_run_is(list: Seq<ArgumentView>, at: int, run: Seq<ArgumentView>)
    requires
        0 <= at <= list.len() - run.len(),
        list.subrange(at, at + run.len()) =~= run,
    ensures
        has_run(list, run),
{
}

/// Whether the source of each writable mount in a list is one of `sources`.
pub open spec fn writes_only(list: Seq<ArgumentView>, sources: Set<Seq<u8>>) -> bool {
    forall|i: int|
        0 <= i < list.len() && #[trigger] list[i] == ArgumentView::Word("--bind"@) ==> i + 1
            < list.len() && (list[i + 1] matches ArgumentView::Raw(source) && sources.contains(
            source,
        ))
}

proof fn lemma_writes_only(one: Seq<ArgumentView>, other: Seq<ArgumentView>, sources: Set<Seq<u8>>)
    requires
        writes_only(one, sources),
        writes_only(other, sources),
    ensures
        writes_only(one + other, sources),
{
    let all = one + other;
    assert forall|i: int|
        0 <= i < all.len() && #[trigger] all[i] == ArgumentView::Word("--bind"@) implies i + 1
        < all.len() && (all[i + 1] matches ArgumentView::Raw(source) && sources.contains(
        source,
    )) by {
        if i < one.len() {
            assert(one[i] == ArgumentView::Word("--bind"@));
            assert(all[i + 1] == one[i + 1]);
        } else {
            assert(other[i - one.len()] == ArgumentView::Word("--bind"@));
            assert(all[i + 1] == other[i - one.len() + 1]);
        }
    }
}

/// What may be written in the sandbox: the home that it has of its own, the workspace,
/// and what was mounted to be written.
pub open spec fn writable(context: SandboxContext) -> Set<Seq<u8>> {
    Set::new(
        |path: Seq<u8>|
            path == context.sandbox_home@ || path == context.workspace@ || byte_views(
                context.mount_rw@,
            ).contains(path),
    )
}

proof fn lemma_words_write_nothing(texts: Seq<Seq<char>>, sources: Set<Seq<u8>>)
    requires
        forall|i: int| 0 <= i < texts.len() ==> #[trigger] texts[i] != "--bind"@,
    ensures
        writes_only(words(texts), sources),
{
    assert forall|i: int|
        0 <= i < words(texts).len() implies #[trigger] words(texts)[i] != ArgumentView::Word(
        "--bind"@,
    ) by {
        assert(texts[i] != "--bind"@);
    }
}

proof fn lemma_base_words(uid: u32, gid: u32, sources: Set<Seq<u8>>)
    ensures
        writes_only(base(uid, gid), sources),
        writes_only(environment(), sources),
        writes_only(words(seq!["--"@, RUNNER_PATH@, "--stdio"@]), sources),
{
    let texts = seq![
        "--unshare-user"@,
        "--unshare-pid"@,
        "--unshare-ipc"@,
        "--unshare-uts"@,
        "--unshare-cgroup"@,
        "--uid"@,
        decimal(uid as int),
        "--gid"@,
        decimal(gid as int),
        "--die-with-parent"@,
        "--ro-bind"@,
        "/"@,
        "/"@,
        "--proc"@,
        "/proc"@,
        "--dev"@,
        "/dev"@,
        "--tmpfs"@,
        "/tmp"@,
        "--tmpfs"@,
        "/run"@,
        "--tmpfs"@,
        "/var/tmp"@,
        "--ro-bind"@,
        "/sys"@,
        "/sys"@,
    ];
    let settings = seq![
        "--setenv"@,
        "HOME"@,
        SANDBOX_HOME@,
        "--setenv"@,
        "TMPDIR"@,
        "/tmp"@,
        "--setenv"@,
        "TMP"@,
        "/tmp"@,
        "--setenv"@,
        "TEMP"@,
        "/tmp"@,
        "--chdir"@,
    ];
    reveal_strlit("--bind");
    reveal_strlit("--unshare-user");
    reveal_strlit("--unshare-pid");
    reveal_strlit("--unshare-ipc");
    reveal_strlit("--unshare-uts");
    reveal_strlit("--unshare-cgroup");
    reveal_strlit("--uid");
    reveal_strlit("--gid");
    reveal_strlit("--die-with-parent");
    reveal_strlit("--ro-bind");
    reveal_strlit("/");
    reveal_strlit("--proc");
    reveal_strlit("/proc");
    reveal_strlit("--dev");
    reveal_strlit("/dev");
    reveal_strlit("--tmpfs");
    reveal_strlit("/tmp");
    reveal_strlit("/run");
    reveal_strlit("/var/tmp");
    reveal_strlit("/sys");
    reveal_strlit("--setenv");
    reveal_strlit("HOME");
    reveal_strlit("TMPDIR");
    reveal_strlit("TMP");
    reveal_strlit("TEMP");
    reveal_strlit("--chdir");
    reveal_strlit("--");
    reveal_strlit("--stdio");
    reveal_strlit("/run/atra-home");
    reveal_strlit("/run/atra-runner");
    assert("--bind"@.len() == 6 && "--unshare-user"@.len() == 14 && "--unshare-pid"@.len() == 13 && "--unshare-ipc"@.len() == 13 && "--unshare-uts"@.len() == 13 && "--unshare-cgroup"@.len() == 16 && "--uid"@.len() == 5 && "--gid"@.len() == 5 && "--die-with-parent"@.len() == 17 && "--ro-bind"@.len() == 9 && "/"@.len() == 1 && "--proc"@.len() == 6 && "/proc"@.len() == 5 && "--dev"@.len() == 5 && "/dev"@.len() == 4 && "--tmpfs"@.len() == 7 && "/tmp"@.len() == 4 && "/run"@.len() == 4 && "/var/tmp"@.len() == 8 && "/sys"@.len() == 4 && "--setenv"@.len() == 8 && "HOME"@.len() == 4 && "TMPDIR"@.len() == 6 && "TMP"@.len() == 3 && "TEMP"@.len() == 4 && "--chdir"@.len() == 7 && "--"@.len() == 2 && "--stdio"@.len() == 7 && "/run/atra-home"@.len() == 14 && "/run/atra-runner"@.len() == 16);
    assert("--bind"@[2] != "--proc"@[2]);
    assert("--bind"@[0] != "TMPDIR"@[0]);
    assert("--proc"@[0] != "TMPDIR"@[0]);
    assert("--unshare-user"@[0] != "/run/atra-home"@[0]);
    assert("--unshare-pid"@[10] != "--unshare-ipc"@[10]);
    assert("--unshare-pid"@[10] != "--unshare-uts"@[10]);
    assert("--unshare-ipc"@[10] != "--unshare-uts"@[10]);
    assert("--unshare-cgroup"@[0] != "/run/atra-runner"@[0]);
    assert("--uid"@[2] != "--gid"@[2]);
    assert("--uid"@[0] != "/proc"@[0]);
    assert("--uid"@[2] != "--dev"@[2]);
    assert("--gid"@[0] != "/proc"@[0]);
    assert("--gid"@[2] != "--dev"@[2]);
    assert("/proc"@[0] != "--dev"@[0]);
    assert("/dev"@[1] != "/tmp"@[1]);
    assert("/dev"@[1] != "/run"@[1]);
    assert("/dev"@[1] != "/sys"@[1]);
    assert("/dev"@[0] != "HOME"@[0]);
    assert("/dev"@[0] != "TEMP"@[0]);
    assert("/tmp"@[1] != "/run"@[1]);
    assert("/tmp"@[1] != "/sys"@[1]);
    assert("/tmp"@[0] != "HOME"@[0]);
    assert("/tmp"@[0] != "TEMP"@[0]);
    assert("/run"@[1] != "/sys"@[1]);
    assert("/run"@[0] != "HOME"@[0]);
    assert("/run"@[0] != "TEMP"@[0]);
    assert("/sys"@[0] != "HOME"@[0]);
    assert("/sys"@[0] != "TEMP"@[0]);
    assert("HOME"@[0] != "TEMP"@[0]);
    assert("--tmpfs"@[2] != "--chdir"@[2]);
    assert("--tmpfs"@[2] != "--stdio"@[2]);
    assert("--chdir"@[2] != "--stdio"@[2]);
    assert("/var/tmp"@[0] != "--setenv"@[0]);
    assert(decimal(uid as int)[0] != '-') by {
        lemma_digits_have_no_dash(uid as nat);
    }
    assert(decimal(gid as int)[0] != '-') by {
        lemma_digits_have_no_dash(gid as nat);
    }
    assert("--bind"@[0] == '-');
    assert(decimal(uid as int) != "--bind"@);
    assert(decimal(gid as int) != "--bind"@);
    assert forall|i: int| 0 <= i < texts.len() implies #[trigger] texts[i] != "--bind"@ by {}
    assert forall|i: int| 0 <= i < settings.len() implies #[trigger] settings[i] != "--bind"@ by {}
    let ending = seq!["--"@, RUNNER_PATH@, "--stdio"@];
    assert forall|i: int| 0 <= i < ending.len() implies #[trigger] ending[i] != "--bind"@ by {}
    lemma_words_write_nothing(texts, sources);
    lemma_words_write_nothing(settings, sources);
    lemma_words_write_nothing(ending, sources);
}

proof fn lemma_digits_have_no_dash(value: nat)
    ensures
        crate::text::digits(value).len() > 0,
        crate::text::digits(value)[0] != '-',
    decreases value,
{
    if value >= 10 {
        lemma_digits_have_no_dash(value / 10);
    } else {
        assert(crate::text::digit(value as int) as int == 48 + value);
    }
}

proof fn lemma_mounts_write(flag: Seq<char>, paths: Seq<Seq<u8>>, count: nat, sources: Set<Seq<u8>>)
    requires
        count <= paths.len(),
        flag == "--bind"@ ==> forall|i: int|
            0 <= i < paths.len() ==> sources.contains(#[trigger] paths[i]),
    ensures
        writes_only(mounted(flag, paths, count), sources),
    decreases count,
{
    if count > 0 {
        lemma_mounts_write(flag, paths, (count - 1) as nat, sources);
        let path = paths[count - 1];
        assert(writes_only(bound(flag, path, path), sources));
        lemma_writes_only(
            mounted(flag, paths, (count - 1) as nat),
            bound(flag, path, path),
            sources,
        );
    }
}

proof fn lemma_kept_write_nothing(mounts: Seq<ReadOnlyMount>, count: nat, sources: Set<Seq<u8>>)
    requires
        count <= mounts.len(),
    ensures
        writes_only(kept(mounts, count), sources),
    decreases count,
{
    if count > 0 {
        lemma_kept_write_nothing(mounts, (count - 1) as nat, sources);
        reveal_strlit("--bind");
        reveal_strlit("--ro-bind");
        reveal_strlit("--dir");
        assert("--bind"@.len() == 6 && "--ro-bind"@.len() == 9 && "--dir"@.len() == 5);
        let mount = mounts[count - 1];
        let before = kept(mounts, (count - 1) as nat);
        let made = seq![ArgumentView::Word("--dir"@), ArgumentView::Raw(mount.destination@)];
        let shown = bound("--ro-bind"@, mount.source@, mount.destination@);
        assert(writes_only(made, sources));
        assert(writes_only(shown, sources));
        lemma_writes_only(before, made, sources);
        lemma_writes_only(before + made, shown, sources);
    }
}

/// Nothing can be written in the sandbox but the home that it has of its own, the
/// workspace, and what was mounted to be written: no other mount is writable.
pub proof fn law_only_the_workspace_is_writable(context: SandboxContext)
    ensures
        writes_only(planned(context), writable(context)),
{
    let sources = writable(context);
    lemma_base_words(context.uid, context.gid, sources);
    reveal_strlit("--bind");
    reveal_strlit("--ro-bind");
    reveal_strlit("--tmpfs");
    reveal_strlit("--dir");
    reveal_strlit("/run/atra-home");
    reveal_strlit("/run/atra-runner");
    assert("--bind"@.len() == 6 && "--ro-bind"@.len() == 9 && "--tmpfs"@.len() == 7 && "--dir"@.len() == 5 && "/run/atra-home"@.len() == 14 && "/run/atra-runner"@.len() == 16);
    let first = base(context.uid, context.gid);
    let hides = hidden(context.hidden_host_home);
    let home = own_home(context.sandbox_home@);
    let space = bound("--bind"@, context.workspace@, context.workspace@);
    let keeps = kept(
        context.preserved_path_directories@,
        context.preserved_path_directories@.len(),
    );
    let binary = runner(context.runner_binary@);
    assert(writes_only(hides, sources));
    assert(writes_only(home, sources));
    assert(writes_only(space, sources));
    lemma_kept_write_nothing(
        context.preserved_path_directories@,
        context.preserved_path_directories@.len(),
        sources,
    );
    assert(writes_only(binary, sources));
    lemma_writes_only(first, hides, sources);
    lemma_writes_only(first + hides, home, sources);
    lemma_writes_only(first + hides + home, space, sources);
    lemma_writes_only(first + hides + home + space, keeps, sources);
    lemma_writes_only(first + hides + home + space + keeps, binary, sources);
    let read = byte_views(context.mount_ro@);
    let written = byte_views(context.mount_rw@);
    lemma_mounts_write("--ro-bind"@, read, read.len(), sources);
    assert forall|i: int| 0 <= i < written.len() implies sources.contains(
        #[trigger] written[i],
    ) by {
        assert(written.contains(written[i]));
    }
    lemma_mounts_write("--bind"@, written, written.len(), sources);
    let more = mounted("--ro-bind"@, read, read.len());
    let last = mounted("--bind"@, written, written.len());
    lemma_writes_only(more, last, sources);
    lemma_writes_only(preset(context), explicit(context), sources);
    let there = seq![ArgumentView::Raw(context.workspace@)];
    let given = raws(byte_views(context.bwrap_args@));
    let ending = words(seq!["--"@, RUNNER_PATH@, "--stdio"@]);
    assert(writes_only(there, sources));
    assert(writes_only(given, sources));
    lemma_writes_only(preset(context) + explicit(context), environment(), sources);
    lemma_writes_only(preset(context) + explicit(context) + environment(), there, sources);
    lemma_writes_only(preset(context) + explicit(context) + environment() + there, given, sources);
    lemma_writes_only(
        preset(context) + explicit(context) + environment() + there + given,
        ending,
        sources,
    );
}

/// The sandbox shows the whole file system, to be read only, and the workspace, to be
/// written; it has a home of its own and runs as the user and the group of the host.
pub proof fn law_sandbox_shows_the_workspace(context: SandboxContext)
    ensures
        has_run(
            planned(context),
            seq![
                ArgumentView::Word("--ro-bind"@),
                ArgumentView::Word("/"@),
                ArgumentView::Word("/"@),
            ],
        ),
        has_run(
            planned(context),
            seq![
                ArgumentView::Word("--bind"@),
                ArgumentView::Raw(context.workspace@),
                ArgumentView::Raw(context.workspace@),
            ],
        ),
        has_run(
            planned(context),
            seq![
                ArgumentView::Word("--bind"@),
                ArgumentView::Raw(context.sandbox_home@),
                ArgumentView::Word("/run/atra-home"@),
            ],
        ),
        has_run(
            planned(context),
            seq![
                ArgumentView::Word("--uid"@),
                ArgumentView::Word(decimal(context.uid as int)),
                ArgumentView::Word("--gid"@),
                ArgumentView::Word(decimal(context.gid as int)),
            ],
        ),
{
    let system = seq![
        ArgumentView::Word("--ro-bind"@),
        ArgumentView::Word("/"@),
        ArgumentView::Word("/"@),
    ];
    let owner = seq![
        ArgumentView::Word("--uid"@),
        ArgumentView::Word(decimal(context.uid as int)),
        ArgumentView::Word("--gid"@),
        ArgumentView::Word(decimal(context.gid as int)),
    ];
    let own = seq![
        ArgumentView::Word("--bind"@),
        ArgumentView::Raw(context.sandbox_home@),
        ArgumentView::Word("/run/atra-home"@),
    ];
    let work = seq![
        ArgumentView::Word("--bind"@),
        ArgumentView::Raw(context.workspace@),
        ArgumentView::Raw(context.workspace@),
    ];
    lemma_run_is(base(context.uid, context.gid), 10, system);
    lemma_run_is(base(context.uid, context.gid), 5, owner);
    lemma_run_is(own_home(context.sandbox_home@), 2, own);
    lemma_run_is(bound("--bind"@, context.workspace@, context.workspace@), 0, work);
    lemma_preset_run(context, system);
    lemma_preset_run(context, owner);
    lemma_preset_run(context, own);
    lemma_preset_run(context, work);
    lemma_planned_run(context, system);
    lemma_planned_run(context, owner);
    lemma_planned_run(context, own);
    lemma_planned_run(context, work);
}

/// What was mounted is shown in its place, to be read or written as it was said.
pub proof fn law_sandbox_shows_what_is_mounted(context: SandboxContext, i: int)
    ensures
        0 <= i < context.mount_ro@.len() ==> has_run(
            planned(context),
            seq![
                ArgumentView::Word("--ro-bind"@),
                ArgumentView::Raw(context.mount_ro@[i]@),
                ArgumentView::Raw(context.mount_ro@[i]@),
            ],
        ),
        0 <= i < context.mount_rw@.len() ==> has_run(
            planned(context),
            seq![
                ArgumentView::Word("--bind"@),
                ArgumentView::Raw(context.mount_rw@[i]@),
                ArgumentView::Raw(context.mount_rw@[i]@),
            ],
        ),
{
    let read = byte_views(context.mount_ro@);
    let written = byte_views(context.mount_rw@);
    let more = mounted("--ro-bind"@, read, read.len());
    let last = mounted("--bind"@, written, written.len());
    if 0 <= i < read.len() {
        let run = bound("--ro-bind"@, read[i], read[i]);
        lemma_mounted_run("--ro-bind"@, read, read.len(), i);
        lemma_run_stays(more, last, run);
        lemma_planned_run(context, run);
    }
    if 0 <= i < written.len() {
        let run = bound("--bind"@, written[i], written[i]);
        lemma_mounted_run("--bind"@, written, written.len(), i);
        lemma_run_stays(more, last, run);
        lemma_planned_run(context, run);
    }
}

/// What runs in the sandbox has the home of the sandbox, and works in the workspace.
pub proof fn law_sandbox_works_in_the_workspace(context: SandboxContext)
    ensures
        has_run(
            planned(context),
            seq![
                ArgumentView::Word("--setenv"@),
                ArgumentView::Word("HOME"@),
                ArgumentView::Word("/run/atra-home"@),
            ],
        ),
        has_run(
            planned(context),
            seq![ArgumentView::Word("--chdir"@), ArgumentView::Raw(context.workspace@)],
        ),
{
    let named = seq![
        ArgumentView::Word("--setenv"@),
        ArgumentView::Word("HOME"@),
        ArgumentView::Word("/run/atra-home"@),
    ];
    lemma_run_is(environment(), 0, named);
    lemma_planned_run(context, named);
    let place = seq![ArgumentView::Word("--chdir"@), ArgumentView::Raw(context.workspace@)];
    let there = seq![ArgumentView::Raw(context.workspace@)];
    let start = preset(context) + explicit(context) + environment();
    lemma_run_is(start + there, start.len() - 1, place);
    let given = raws(byte_views(context.bwrap_args@));
    let ending = words(seq!["--"@, RUNNER_PATH@, "--stdio"@]);
    lemma_run_stays(start + there, given, place);
    lemma_run_stays(start + there + given, ending, place);
}

proof fn lemma_mounted_run(flag: Seq<char>, paths: Seq<Seq<u8>>, count: nat, i: int)
    requires
        0 <= i < count <= paths.len(),
    ensures
        has_run(mounted(flag, paths, count), bound(flag, paths[i], paths[i])),
    decreases count,
{
    let before = mounted(flag, paths, (count - 1) as nat);
    let added = bound(flag, paths[count - 1], paths[count - 1]);
    if i < count - 1 {
        lemma_mounted_run(flag, paths, (count - 1) as nat, i);
        lemma_run_stays(before, added, bound(flag, paths[i], paths[i]));
    } else {
        lemma_run_is(before + added, before.len() as int, added);
    }
}

/// A directory of the search path is kept where it would be hidden, unless the
/// workspace holds it; none is kept twice.
pub proof fn law_hidden_directories_are_kept(
    paths: Seq<Seq<u8>>,
    workspace: Seq<u8>,
    roots: Seq<Seq<u8>>,
    count: nat,
    i: int,
)
    requires
        0 <= i < count <= paths.len(),
    ensures
        ({
            let kept = wanted_of(paths, workspace, roots, count);
            &&& wanted(paths[i], workspace, roots) ==> listed(kept, paths[i])
            &&& forall|k: int|
                0 <= k < kept.len() ==> wanted(#[trigger] kept[k], workspace, roots)
            &&& forall|j: int, k: int|
                0 <= j < k < kept.len() ==> parts(#[trigger] kept[j]) != parts(#[trigger] kept[k])
        }),
    decreases count,
{
    let before = wanted_of(paths, workspace, roots, (count - 1) as nat);
    let after = wanted_of(paths, workspace, roots, count);
    if count > 1 {
        law_hidden_directories_are_kept(
            paths,
            workspace,
            roots,
            (count - 1) as nat,
            if i < count - 1 {
                i
            } else {
                0
            },
        );
    }
    if listed(before, paths[i]) {
        let k = choose|k: int|
            0 <= k < before.len() && parts(#[trigger] before[k]) == parts(paths[i]);
        assert(parts(after[k]) == parts(paths[i]));
    } else if i == count - 1 && wanted(paths[i], workspace, roots) {
        assert(after.last() == paths[i]);
        assert(parts(after[after.len() - 1]) == parts(paths[i]));
    }
}

/// A file can be run where anyone may run it.
pub proof fn law_runnable_files(is_file: bool, mode: u32)
    ensures
        !is_file ==> !runnable(is_file, mode),
        runnable(true, mode) <==> mode & 0o111 != 0,
{
    assert((mode / 64 % 2 == 1 || mode / 8 % 2 == 1 || mode % 2 == 1) == (mode & 0o111 != 0))
        by (bit_vector);
}

/// The standard sandbox hides the home of the host, and cannot do without one; the
/// relaxed one hides none.
pub proof fn law_standard_sandbox_hides_the_home(
    preset: SandboxPreset,
    home: Option<Vec<u8>>,
    result: Result<Option<Vec<u8>>, &'static str>,
)
    requires
        call_ensures(host_home, (preset, home), result),
    ensures
        preset is Relaxed ==> result == Ok::<Option<Vec<u8>>, &'static str>(None),
        preset is Standard && home is Some ==> result == Ok::<Option<Vec<u8>>, &'static str>(home),
        result is Err <==> preset is Standard && home is None,
{
}

} // verus!
