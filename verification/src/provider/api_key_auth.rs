//! Keys of providers.
use crate::text::{blank, concat3, is_blank, law_trimmed_once, trim, trimmed, view_option};
use vstd::prelude::*;

verus! {

/// Where a key comes from.
#[derive(Clone, Copy, Debug, PartialEq, Eq, Structural)]
pub enum CredentialSource {
    Environment,
    File,
}

/// The key of a provider, as it was found.
#[derive(Debug)]
pub struct ApiKeyAuth {
    provider: Option<String>,
    key: Option<String>,
}

/// What an [`ApiKeyAuth`] stands for.
pub struct KeyView {
    pub provider: Option<Seq<char>>,
    pub key: Option<Seq<char>>,
}

impl View for ApiKeyAuth {
    type V = KeyView;

    closed spec fn view(&self) -> KeyView {
        KeyView { provider: view_option(self.provider), key: view_option(self.key) }
    }
}

/// The key that the environment or a file gives: the environment first, where it
/// says something; a key in a file has nothing around it.
pub open spec fn found_key(environment: Option<Seq<char>>, file: Option<Seq<char>>) -> Option<
    Seq<char>,
> {
    match environment {
        Some(value) => if blank(value) {
            file_key(file)
        } else {
            Some(value)
        },
        None => file_key(file),
    }
}

/// The key that a file gives.
pub open spec fn file_key(file: Option<Seq<char>>) -> Option<Seq<char>> {
    match file {
        Some(text) => if trimmed(text).len() == 0 {
            None
        } else {
            Some(trimmed(text))
        },
        None => None,
    }
}

fn load(environment: &Option<String>, file: &Option<String>) -> (key: Option<String>)
    ensures
        view_option(key) == found_key(view_option(*environment), view_option(*file)),
{
    match environment {
        Some(value) => {
            if !is_blank(value.as_str()) {
                return Some(value.clone());
            }
        },
        None => {},
    }
    match file {
        Some(text) => {
            let key = trim(text.as_str());
            if key.as_str().is_empty() {
                None
            } else {
                Some(key)
            }
        },
        None => None,
    }
}

/// What is told where there is no key.
pub open spec fn login_words(provider: Option<Seq<char>>) -> Seq<char> {
    "login required; run `atra provider login "@ + (match provider {
        Some(name) => name,
        None => "provider"@,
    }) + "`"@
}

impl ApiKeyAuth {
    /// The key of a provider from what the environment and the file say.
    pub fn new(
        provider: Option<String>,
        environment: &Option<String>,
        file: &Option<String>,
    ) -> (auth: Self)
        ensures
            auth@.provider == view_option(provider),
            auth@.key == found_key(view_option(*environment), view_option(*file)),
    {
        ApiKeyAuth { provider, key: load(environment, file) }
    }

    /// The key, or what to do to have one.
    pub fn key(&self) -> (result: Result<String, String>)
        ensures
            match self@.key {
                Some(key) => result matches Ok(found) && found@ == key,
                None => result matches Err(message) && message@ == login_words(self@.provider),
            },
    {
        match &self.key {
            Some(key) => Ok(key.clone()),
            None => Err(concat3("login required; run `atra provider login ", self.provider(), "`")),
        }
    }

    /// Whether there is a key.
    pub fn configured(&self) -> (configured: bool)
        ensures
            configured == (self@.key is Some),
    {
        self.key.is_some()
    }

    /// Looks for the key again.
    pub fn reload(&mut self, environment: &Option<String>, file: &Option<String>)
        ensures
            final(self)@.provider == old(self)@.provider,
            final(self)@.key == found_key(view_option(*environment), view_option(*file)),
    {
        self.key = load(environment, file);
    }

    /// The name of the provider.
    pub fn provider(&self) -> (name: &str)
        ensures
            name@ == (match self@.provider {
                Some(name) => name,
                None => "provider"@,
            }),
    {
        match &self.provider {
            Some(name) => name.as_str(),
            None => "provider",
        }
    }
}

/// Where the key comes from.
pub fn source(environment: &Option<String>, file_exists: bool) -> (source: Option<CredentialSource>)
    ensures
        source == (if view_option(*environment) matches Some(value) && !blank(value) {
            Some(CredentialSource::Environment)
        } else if file_exists {
            Some(CredentialSource::File)
        } else {
            None
        }),
{
    let set = match environment {
        Some(value) => !is_blank(value.as_str()),
        None => false,
    };
    if set {
        Some(CredentialSource::Environment)
    } else if file_exists {
        Some(CredentialSource::File)
    } else {
        None
    }
}

/// What is stored of a key that the user gives: nothing around it; one that is
/// blank is refused.
pub fn stored_key(key: &str) -> (result: Result<String, &'static str>)
    ensures
        if blank(key@) {
            result matches Err(message) && message@ == "API key must not be empty"@
        } else {
            result matches Ok(stored) && stored@ == trimmed(key@)
        },
{
    if is_blank(key) {
        return Err("API key must not be empty");
    }
    Ok(trim(key))
}

/// What was stored of a key is what is found of it.
pub proof fn law_stored_key_is_found(key: Seq<char>)
    requires
        !blank(key),
    ensures
        found_key(None, Some(trimmed(key))) == Some(trimmed(key)),
{
    law_trimmed_once(key);
}

/// What the environment says goes before what is stored.
pub proof fn law_environment_comes_first(key: Seq<char>, file: Option<Seq<char>>)
    requires
        !blank(key),
    ensures
        found_key(Some(key), file) == Some(key),
{
}

/// Where a key comes from is where it is found: the environment where it is set there,
/// else the file. What is stored has no space around it, and a blank key is refused.
pub proof fn law_key_comes_from_where_it_is_found(
    environment: Option<String>,
    file_exists: bool,
    found: Option<CredentialSource>,
    key: &str,
    stored: Result<String, &'static str>,
)
    requires
        call_ensures(source, (&environment, file_exists), found),
        call_ensures(stored_key, (key,), stored),
    ensures
        ({
            let set = environment is Some && !blank(environment->0@);
            &&& (found matches Some(CredentialSource::Environment)) <==> set
            &&& (found matches Some(CredentialSource::File)) <==> !set && file_exists
            &&& found is None <==> !set && !file_exists
        }),
        stored is Ok <==> !blank(key@),
        stored matches Ok(text) ==> text@ == trimmed(key@),
{
}

/// A provider without a key says how to log in with it, by its name.
pub proof fn law_login_is_asked_for_by_name(provider: Option<Seq<char>>)
    ensures
        provider matches Some(name) ==> crate::text::holds_part(
            login_words(provider),
            "atra provider login "@ + name,
        ),
{
    if let Some(name) = provider {
        reveal_strlit("login required; run `atra provider login ");
        reveal_strlit("login required; run `");
        reveal_strlit("atra provider login ");
        let start = "login required; run `"@;
        let middle = "atra provider login "@ + name;
        assert("login required; run `atra provider login "@ =~= start + "atra provider login "@);
        assert(login_words(provider) =~= start + middle + "`"@);
        crate::text::lemma_holds_middle(start, middle, "`"@);
    }
}

} // verus!
