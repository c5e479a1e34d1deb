//! The platform: the tools and the runner that are installed.
use crate::text::{concat2, concat3, concat5, ends_with, first_at, has_suffix, same_text, split_first, split_once, trim, trimmed};
use vstd::prelude::*;

verus! {

/// The platform of a host.
pub fn host_platform(architecture: &str) -> (result: Result<&'static str, String>)
    ensures
        if architecture@ == "x86_64"@ {
            result matches Ok(name) && name@ == "x86_64-linux-static"@
        } else if architecture@ == "aarch64"@ {
            result matches Ok(name) && name@ == "aarch64-linux-static"@
        } else {
            result matches Err(message) && message@ == "unsupported host architecture "@
                + architecture@
        },
{
    if same_text(architecture, "x86_64") {
        Ok("x86_64-linux-static")
    } else if same_text(architecture, "aarch64") {
        Ok("aarch64-linux-static")
    } else {
        Err(concat2("unsupported host architecture ", architecture))
    }
}

/// Where the platform of a build is.
pub fn bundle_url(commit: &str, platform: &str) -> (url: String)
    ensures
        url@ == "https://github.com/Pylgos/atra-agent/releases/download/build-"@ + commit@
            + "/atra-platform-"@ + platform@ + ".zip"@,
{
    concat5(
        "https://github.com/Pylgos/atra-agent/releases/download/build-",
        commit,
        "/atra-platform-",
        platform,
        ".zip",
    )
}

/// Whether a text is the name of a file and of nothing else.
pub open spec fn plain_name(name: Seq<char>) -> bool {
    &&& name.len() > 0
    &&& name != "."@
    &&& name != ".."@
    &&& !name.contains('/')
    &&& !name.contains('\\')
}

proof fn lemma_first_at(text: Seq<char>, separator: char)
    ensures
        split_first(text, separator) is Some == text.contains(separator),
    decreases text.len(),
{
    lemma_first(text, separator);
}

proof fn lemma_first(text: Seq<char>, separator: char)
    ensures
        text.contains(separator) <==> first_at(text, separator) < text.len(),
        0 <= first_at(text, separator) <= text.len(),
    decreases text.len(),
{
    if text.len() > 0 {
        if text[0] != separator {
            lemma_first(text.skip(1), separator);
            if text.contains(separator) {
                let i = choose|i: int| 0 <= i < text.len() && text[i] == separator;
                assert(text.skip(1)[i - 1] == separator);
            }
            if text.skip(1).contains(separator) {
                let i = choose|i: int| 0 <= i < text.skip(1).len() && text.skip(1)[i] == separator;
                assert(text[i + 1] == separator);
            }
        } else {
            assert(text.contains(separator));
        }
    }
}

/// Whether the name of a tool is one.
pub fn validate_tool_name(name: &str) -> (valid: bool)
    ensures
        valid == plain_name(name@),
{
    proof {
        lemma_first_at(name@, '/');
        lemma_first_at(name@, '\\');
    }
    !name.is_empty() && !same_text(name, ".") && !same_text(name, "..") && split_once(
        name,
        '/',
    ).is_none() && split_once(name, '\\').is_none()
}

/// The script that stores a runner that comes in, under its digest.
pub open spec fn script_words(digest: Seq<char>) -> Seq<char> {
    "root=\"${TMPDIR:-/tmp}/atra-$(id -u)\"; path=\"$root/objects/"@ + digest
        + "\"; if [ -x \"$path\" ]; then cat >/dev/null; else umask 077; mkdir -p \"$root/objects\"; temporary=\"$path.tmp.$$\"; cat >\"$temporary\"; chmod 555 \"$temporary\"; if ! ln \"$temporary\" \"$path\" 2>/dev/null; then test -x \"$path\"; fi; rm -f \"$temporary\"; fi; printf '%s\\n' \"$path\""@
}

/// The script that stores a runner that comes in, under its digest.
pub fn upload_script(digest: &str) -> (script: String)
    ensures
        script@ == script_words(digest@),
{
    concat3(
        "root=\"${TMPDIR:-/tmp}/atra-$(id -u)\"; path=\"$root/objects/",
        digest,
        "\"; if [ -x \"$path\" ]; then cat >/dev/null; else umask 077; mkdir -p \"$root/objects\"; temporary=\"$path.tmp.$$\"; cat >\"$temporary\"; chmod 555 \"$temporary\"; if ! ln \"$temporary\" \"$path\" 2>/dev/null; then test -x \"$path\"; fi; rm -f \"$temporary\"; fi; printf '%s\\n' \"$path\"",
    )
}

/// Whether a path is where the script stores a runner.
pub open spec fn stored_at(path: Seq<char>, digest: Seq<char>) -> bool {
    path.len() > 0 && path[0] == '/' && has_suffix(path, "/objects/"@ + digest)
}

/// The path that the script reports; an error holds what it reported in its
/// place.
pub fn uploaded_path(output: &str, digest: &str) -> (result: Result<String, String>)
    ensures
        match result {
            Ok(path) => path@ == trimmed(output@) && stored_at(path@, digest@),
            Err(path) => path@ == trimmed(output@) && !stored_at(path@, digest@),
        },
{
    let path = trim(output);
    let suffix = concat2("/objects/", digest);
    if crate::text::starts_with(path.as_str(), "/") && ends_with(path.as_str(), suffix.as_str()) {
        proof {
            reveal_strlit("/");
            assert(path@.take(1)[0] == "/"@[0]);
        }
        Ok(path)
    } else {
        proof {
            reveal_strlit("/");
            if path@.len() > 0 && path@[0] == '/' {
                assert(path@.take(1) =~= "/"@);
            }
        }
        Err(path)
    }
}

/// Each architecture has its own platform, whose name begins with that of the
/// architecture; another is refused and named.
pub proof fn law_platform_is_that_of_the_host(
    architecture: &str,
    result: Result<&'static str, String>,
)
    requires
        call_ensures(host_platform, (architecture,), result),
    ensures
        result is Ok <==> architecture@ == "x86_64"@ || architecture@ == "aarch64"@,
        result matches Ok(name) ==> name@ == architecture@ + "-linux-static"@,
        result matches Err(words) ==> has_suffix(words@, architecture@),
{
    reveal_strlit("x86_64");
    reveal_strlit("aarch64");
    reveal_strlit("-linux-static");
    reveal_strlit("x86_64-linux-static");
    reveal_strlit("aarch64-linux-static");
    assert("x86_64"@.len() == 6 && "aarch64"@.len() == 7 && "-linux-static"@.len() == 13 && "x86_64-linux-static"@.len() == 19 && "aarch64-linux-static"@.len() == 20);
    assert("x86_64-linux-static"@ =~= "x86_64"@ + "-linux-static"@);
    assert("aarch64-linux-static"@ =~= "aarch64"@ + "-linux-static"@);
    if let Err(words) = result {
        assert(words@.skip(words@.len() - architecture@.len()) =~= architecture@);
    }
}

/// A tool is named by one part of a path: its name cannot lead anywhere else.
pub proof fn law_tool_name_is_one_part(name: Seq<char>, k: int)
    requires
        plain_name(name),
        0 <= k < name.len(),
    ensures
        name[k] != '/',
        name[k] != '\\',
        name != ".."@,
        name != "."@,
{
}

/// What was uploaded is taken only where it is stored under its digest.
pub proof fn law_upload_is_stored_under_its_digest(
    output: &str,
    digest: &str,
    result: Result<String, String>,
)
    requires
        call_ensures(uploaded_path, (output, digest), result),
    ensures
        result matches Ok(path) ==> has_suffix(path@, "/objects/"@ + digest@) && path@[0] == '/'
            && path@ == trimmed(output@),
        (has_suffix(trimmed(output@), "/objects/"@ + digest@) && trimmed(output@).len() > 0
            && trimmed(output@)[0] == '/') ==> result is Ok,
{
}

/// The bundle is the one that was built from the commit for the platform.
pub proof fn law_bundle_is_named_by_commit_and_platform(
    commit: &str,
    platform: &str,
    url: String,
)
    requires
        call_ensures(bundle_url, (commit, platform), url),
    ensures
        has_suffix(url@, "/atra-platform-"@ + platform@ + ".zip"@),
        crate::text::holds_part(url@, "/releases/download/build-"@ + commit@),
{
    let ending = "/atra-platform-"@ + platform@ + ".zip"@;
    assert(url@.skip(url@.len() - ending.len()) =~= ending);
    let opening = "https://github.com/Pylgos/atra-agent/releases/download/build-"@;
    let host = "https://github.com/Pylgos/atra-agent"@;
    let path = "/releases/download/build-"@;
    reveal_strlit("https://github.com/Pylgos/atra-agent/releases/download/build-");
    reveal_strlit("https://github.com/Pylgos/atra-agent");
    reveal_strlit("/releases/download/build-");
    assert(opening =~= host + path);
    assert(url@ =~= host + (path + commit@) + ending);
    crate::text::lemma_holds_middle(host, path + commit@, ending);
}

} // verus!
