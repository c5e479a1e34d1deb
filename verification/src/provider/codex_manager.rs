//! Who is logged in to Codex.
use crate::json::{Json, JsonView};
use crate::provider::api_key_auth::CredentialSource;
use crate::provider::codex_auth::{
    auth_from_tokens, auth_of, claims, ends_soon, file_shape, pair_views, recovery, renewal_body,
    renewed, renewed_tokens, shape_of_tokens, stored_tokens, token_expires_soon,
    tokens_from_file, tokens_option, tokens_shape, Auth, Recovery, Tokens, TokensView, ISSUER,
    RENEWAL_SECONDS,
};
use crate::record::{read_record, record};
use crate::text::{concat2, concat4, view_option};
use vstd::prelude::*;
use vstd::utf8::encode_utf8;

verus! {

/// The login that is known.
#[derive(Debug)]
pub struct AuthManager {
    tokens: Option<Tokens>,
}

impl View for AuthManager {
    type V = Option<TokensView>;

    closed spec fn view(&self) -> Option<TokensView> {
        tokens_option(self.tokens)
    }
}

/// The login that a file holds, if there is one; none where the file cannot be
/// understood.
pub open spec fn filed(file: Option<Seq<char>>) -> Option<Option<TokensView>> {
    match file {
        Some(text) => stored_tokens(record(encode_utf8(text), file_shape())),
        None => Some(None),
    }
}

/// The login that a file holds, if there is one.
pub fn read_tokens(file: &Option<String>) -> (tokens: Option<Option<Tokens>>)
    ensures
        match tokens {
            Some(tokens) => filed(view_option(*file)) == Some(tokens_option(tokens)),
            None => filed(view_option(*file)) is None,
        },
{
    match file {
        Some(text) => tokens_from_file(text.as_str()),
        None => Some(None),
    }
}

/// What the token service is asked for a new token.
pub open spec fn renewal(client_id: Seq<char>, tokens: TokensView) -> JsonView {
    JsonView::object().with_text("client_id"@, client_id).with_text(
        "grant_type"@,
        "refresh_token"@,
    ).with_text("refresh_token"@, tokens.refresh_token)
}

/// What is done about a login that may have ended.
#[derive(Debug)]
pub enum RefreshStep {
    /// The login that is known will do.
    Keep,
    LoginRequired,
    /// The token service is asked.
    Ask { body: Json },
}

/// What a [`RefreshStep`] stands for.
pub enum RefreshView {
    Keep,
    LoginRequired,
    Ask { body: JsonView },
}

impl View for RefreshStep {
    type V = RefreshView;

    open spec fn view(&self) -> RefreshView {
        match self {
            RefreshStep::Keep => RefreshView::Keep,
            RefreshStep::LoginRequired => RefreshView::LoginRequired,
            RefreshStep::Ask { body } => RefreshView::Ask { body: body@ },
        }
    }
}

/// Whether the token of a login ends soon.
pub open spec fn ending(login: Option<TokensView>, now: i64) -> bool {
    match login {
        Some(tokens) => ends_soon(claims(tokens.access_token), now),
        None => false,
    }
}

/// What is done to get a new token.
pub open spec fn asked(login: Option<TokensView>, client_id: Seq<char>) -> RefreshView {
    match login {
        Some(tokens) => RefreshView::Ask { body: renewal(client_id, tokens) },
        None => RefreshView::LoginRequired,
    }
}

/// What is done about a login, seen again once nobody else renews it.
pub open spec fn refreshed(login: Option<TokensView>, now: i64, client_id: Seq<char>) -> RefreshView {
    if login is Some && !ending(login, now) {
        RefreshView::Keep
    } else {
        asked(login, client_id)
    }
}

/// Whether a login on disk is another than the one that was refused.
pub open spec fn another(disk: Option<TokensView>, rejected: Seq<char>) -> bool {
    match disk {
        Some(tokens) => tokens.access_token != rejected,
        None => false,
    }
}

impl AuthManager {
    /// The login of a file. A file that cannot be understood is no login.
    pub fn new(file: &Option<String>) -> (manager: Self)
        ensures
            manager@ == (match filed(view_option(*file)) {
                Some(tokens) => tokens,
                None => None,
            }),
    {
        match read_tokens(file) {
            Some(tokens) => AuthManager { tokens },
            None => AuthManager { tokens: None },
        }
    }

    /// Takes the login of a file. Where the file cannot be understood, what was
    /// known stays.
    pub fn reload(&mut self, file: &Option<String>) -> (read: bool)
        ensures
            read == (filed(view_option(*file)) is Some),
            final(self)@ == (match filed(view_option(*file)) {
                Some(tokens) => tokens,
                None => old(self)@,
            }),
    {
        match read_tokens(file) {
            Some(tokens) => {
                self.tokens = tokens;
                true
            },
            None => false,
        }
    }

    /// How requests show that they are allowed.
    pub fn auth(&self) -> (auth: Option<Auth>)
        ensures
            match (auth, self@) {
                (Some(auth), Some(tokens)) => auth@ == auth_of(tokens, claims(tokens.id_token)),
                (None, None) => true,
                _ => false,
            },
    {
        match &self.tokens {
            Some(tokens) => Some(auth_from_tokens(tokens)),
            None => None,
        }
    }

    /// Whether the login is to be renewed before it is used.
    pub fn needs_refresh(&self, now: i64) -> (needed: bool)
        requires
            now <= i64::MAX - RENEWAL_SECONDS,
        ensures
            needed == ending(self@, now),
    {
        match &self.tokens {
            Some(tokens) => token_expires_soon(tokens.access_token.as_str(), now),
            None => false,
        }
    }

    fn ask(&self, client_id: &str) -> (step: RefreshStep)
        ensures
            step@ == asked(self@, client_id@),
    {
        match &self.tokens {
            Some(tokens) => RefreshStep::Ask { body: renewal_body(client_id, tokens) },
            None => RefreshStep::LoginRequired,
        }
    }

    /// What is done about a login that was about to end, once nobody else renews
    /// it: it may have been renewed since.
    pub fn refresh(&self, now: i64, client_id: &str) -> (step: RefreshStep)
        requires
            now <= i64::MAX - RENEWAL_SECONDS,
        ensures
            step@ == refreshed(self@, now, client_id@),
    {
        if self.tokens.is_some() && !self.needs_refresh(now) {
            RefreshStep::Keep
        } else {
            self.ask(client_id)
        }
    }

    /// What is done where a token was refused: another that is on disk by now is
    /// taken, else a new one is asked for.
    pub fn recover_unauthorized(
        &mut self,
        disk: Option<Tokens>,
        rejected: &str,
        client_id: &str,
    ) -> (step: RefreshStep)
        ensures
            if another(tokens_option(disk), rejected@) {
                final(self)@ == tokens_option(disk) && step@ == RefreshView::Keep
            } else {
                final(self)@ == old(self)@ && step@ == asked(old(self)@, client_id@)
            },
    {
        match recovery(&disk, rejected) {
            Recovery::TakeStored => {
                self.tokens = disk;
                RefreshStep::Keep
            },
            Recovery::Renew => self.ask(client_id),
        }
    }

    /// Takes a login that was renewed.
    pub fn accept(&mut self, tokens: Tokens)
        ensures
            final(self)@ == Some(tokens@),
    {
        self.tokens = Some(tokens);
    }

    /// The login that is known.
    pub fn tokens(&self) -> (tokens: &Option<Tokens>)
        ensures
            tokens_option(*tokens) == self@,
    {
        &self.tokens
    }
}

/// A login that the answer to a renewal gives is used as it is until its token
/// ends: no other is asked for, requests show its token, and they name the account
/// that the login had before.
pub proof fn law_renewed_login_is_used(
    current: TokensView,
    answer: Option<JsonView>,
    now: i64,
    client_id: Seq<char>,
)
    requires
        renewed(current, answer) matches Some(tokens) && !ends_soon(
            claims(tokens.access_token),
            now,
        ),
    ensures
        refreshed(renewed(current, answer), now, client_id) == RefreshView::Keep,
        renewed(current, answer) matches Some(tokens) ==> {
            let auth = auth_of(tokens, claims(tokens.id_token));
            &&& auth.token == tokens.access_token
            &&& current.account_id is Some ==> auth.account_id == current.account_id
        },
{
}

/// Where the login comes from.
pub fn credential_source(file_exists: bool) -> (source: Option<CredentialSource>)
    ensures
        source == (if file_exists {
            Some(CredentialSource::File)
        } else {
            None
        }),
{
    if file_exists {
        Some(CredentialSource::File)
    } else {
        None
    }
}

/// The tokens of an answer of the token service to a renewal.
pub fn renewal_answer(current: &Tokens, body: &str) -> (tokens: Option<Tokens>)
    ensures
        match tokens {
            Some(tokens) => renewed(current@, record(encode_utf8(body@), tokens_shape())) == Some(
                tokens@,
            ),
            None => renewed(current@, record(encode_utf8(body@), tokens_shape())) is None,
        },
{
    let value = read_record(body.as_bytes(), &shape_of_tokens());
    renewed_tokens(current, &value)
}

/// Where a request for tokens goes.
pub fn token_endpoint(chosen: &Option<String>) -> (url: String)
    ensures
        url@ == (match *chosen {
            Some(url) => url@,
            None => ISSUER@ + "/oauth/token"@,
        }),
{
    match chosen {
        Some(url) => url.clone(),
        None => concat2(ISSUER, "/oauth/token"),
    }
}

/// Where a request that ends a login goes.
pub fn revocation_endpoint(chosen: &Option<String>) -> (url: String)
    ensures
        url@ == (match *chosen {
            Some(url) => url@,
            None => ISSUER@ + "/oauth/revoke"@,
        }),
{
    match chosen {
        Some(url) => url.clone(),
        None => concat2(ISSUER, "/oauth/revoke"),
    }
}

fn pair(name: &str, value: &str) -> (result: (String, String))
    ensures
        result.0@ == name@,
        result.1@ == value@,
{
    (name.to_owned(), value.to_owned())
}

/// What the token service is asked for the tokens of a code.
pub fn exchange_form(code: &str, redirect: &str, client_id: &str, verifier: &str) -> (form: Vec<
    (String, String),
>)
    ensures
        pair_views(form@) == seq![
            ("grant_type"@, "authorization_code"@),
            ("code"@, code@),
            ("redirect_uri"@, redirect@),
            ("client_id"@, client_id@),
            ("code_verifier"@, verifier@),
        ],
{
    let form = vec![
        pair("grant_type", "authorization_code"),
        pair("code", code),
        pair("redirect_uri", redirect),
        pair("client_id", client_id),
        pair("code_verifier", verifier),
    ];
    assert(pair_views(form@) =~= seq![
        ("grant_type"@, "authorization_code"@),
        ("code"@, code@),
        ("redirect_uri"@, redirect@),
        ("client_id"@, client_id@),
        ("code_verifier"@, verifier@),
    ]);
    form
}

/// What the token service refused.
#[derive(Clone, Copy, Debug, PartialEq, Eq, Structural)]
pub enum TokenTask {
    Refresh,
    Exchange,
}

/// What is told where the token service refuses; the words of the status and of
/// the answer are given.
pub fn token_failure(task: TokenTask, status: &str, words: &str) -> (text: String)
    ensures
        text@ == (match task {
            TokenTask::Refresh => "Codex token refresh failed ("@,
            TokenTask::Exchange => "Codex token exchange failed ("@,
        }) + status@ + "): "@ + words@,
{
    match task {
        TokenTask::Refresh => concat4("Codex token refresh failed (", status, "): ", words),
        TokenTask::Exchange => concat4("Codex token exchange failed (", status, "): ", words),
    }
}

/// Where the browser may come back to, in the order in which they are tried.
pub fn callback_ports() -> (ports: Vec<u16>)
    ensures
        ports@ == seq![1455u16, 1457u16],
{
    vec![1455, 1457]
}

/// A login over the browser takes no credential.
pub fn check_credential(credential: &Option<String>) -> (result: Result<(), &'static str>)
    ensures
        match *credential {
            None => result is Ok,
            Some(_) => result matches Err(text) && text@
                == "Codex login does not accept a credential"@,
        },
{
    match credential {
        None => Ok(()),
        Some(_) => Err("Codex login does not accept a credential"),
    }
}

/// A login is kept as long as it does not end soon; one that does is renewed with its
/// refresh token, and without a login one is required.
pub proof fn law_login_is_renewed_before_it_ends(
    login: Option<TokensView>,
    now: i64,
    client_id: Seq<char>,
)
    ensures
        ({
            let step = refreshed(login, now, client_id);
            let soon = login is Some && ends_soon(claims(login->0.access_token), now);
            &&& step is Keep <==> login is Some && !soon
            &&& step is LoginRequired <==> login is None
            &&& step is Ask <==> login is Some && soon
            &&& step matches RefreshView::Ask { body } ==> body.str_field("refresh_token"@) == Some(
                login->0.refresh_token,
            ) && body.str_field("client_id"@) == Some(client_id) && body.str_field("grant_type"@)
                == Some("refresh_token"@)
        }),
{
    broadcast use crate::json::lemma_with, crate::json::lemma_no_fields;

    reveal_strlit("client_id");
    reveal_strlit("grant_type");
    reveal_strlit("refresh_token");
    assert("client_id"@.len() == 9 && "grant_type"@.len() == 10 && "refresh_token"@.len() == 13);
}

/// Where a token was rejected, another one that was stored meanwhile is taken; where
/// there is none, the login is renewed.
pub proof fn law_stored_login_is_taken(
    disk: Option<TokensView>,
    rejected: Seq<char>,
    login: Option<TokensView>,
    client_id: Seq<char>,
)
    ensures
        another(disk, rejected) <==> disk is Some && disk->0.access_token != rejected,
        asked(login, client_id) is LoginRequired <==> login is None,
        !(asked(login, client_id) is Keep),
{
}

/// Tokens are asked for and revoked where that was chosen, else at the issuer. A
/// credential cannot be given, and a login is in a file or nowhere.
pub proof fn law_endpoints_are_those_chosen(
    chosen: Option<String>,
    token: String,
    revoke: String,
    credential: Option<String>,
    checked: Result<(), &'static str>,
    exists_file: bool,
    source: Option<CredentialSource>,
)
    requires
        call_ensures(token_endpoint, (&chosen,), token),
        call_ensures(revocation_endpoint, (&chosen,), revoke),
        call_ensures(check_credential, (&credential,), checked),
        call_ensures(credential_source, (exists_file,), source),
    ensures
        chosen matches Some(url) ==> token@ == url@ && revoke@ == url@,
        chosen is None ==> token@ == "https://auth.openai.com/oauth/token"@ && revoke@
            == "https://auth.openai.com/oauth/revoke"@,
        checked is Ok <==> credential is None,
        source is Some <==> exists_file,
        source matches Some(source) ==> source is File,
{
    reveal_strlit("https://auth.openai.com");
    reveal_strlit("/oauth/token");
    reveal_strlit("/oauth/revoke");
    reveal_strlit("https://auth.openai.com/oauth/token");
    reveal_strlit("https://auth.openai.com/oauth/revoke");
    assert(ISSUER@ + "/oauth/token"@ =~= "https://auth.openai.com/oauth/token"@);
    assert(ISSUER@ + "/oauth/revoke"@ =~= "https://auth.openai.com/oauth/revoke"@);
}

/// A code is exchanged together with the verifier and the address that it was asked
/// for with.
pub proof fn law_code_is_exchanged_with_its_verifier(
    code: &str,
    redirect: &str,
    client_id: &str,
    verifier: &str,
    form: Vec<(String, String)>,
)
    requires
        call_ensures(exchange_form, (code, redirect, client_id, verifier), form),
    ensures
        pair_views(form@).contains(("code"@, code@)),
        pair_views(form@).contains(("code_verifier"@, verifier@)),
        pair_views(form@).contains(("redirect_uri"@, redirect@)),
        pair_views(form@).contains(("client_id"@, client_id@)),
        pair_views(form@).contains(("grant_type"@, "authorization_code"@)),
        form@.len() == 5,
{
    let pairs = pair_views(form@);
    assert(pairs[0] == ("grant_type"@, "authorization_code"@));
    assert(pairs[1] == ("code"@, code@));
    assert(pairs[2] == ("redirect_uri"@, redirect@));
    assert(pairs[3] == ("client_id"@, client_id@));
    assert(pairs[4] == ("code_verifier"@, verifier@));
    assert(pairs.len() == form@.len());
}

/// A login that is stored meanwhile is taken where it is another than the rejected one,
/// and only then; else the login is renewed, and stays until that is answered. What
/// cannot be read from the file changes nothing.
pub proof fn law_rejected_login_is_replaced(
    manager: &mut AuthManager,
    disk: Option<Tokens>,
    rejected: &str,
    client_id: &str,
    step: RefreshStep,
)
    requires
        call_ensures(
            AuthManager::recover_unauthorized,
            (manager, disk, rejected, client_id),
            step,
        ),
    ensures
        ({
            let other = disk is Some && disk->0@.access_token != rejected@;
            &&& step@ is Keep <==> other
            &&& other ==> final(manager)@ == Some(disk->0@)
            &&& !other ==> final(manager)@ == old(manager)@
            &&& !other ==> (step@ is LoginRequired <==> old(manager)@ is None)
        }),
{
}

/// A file that holds a login replaces what was known, and one that does not leaves it.
pub proof fn law_read_login_replaces_the_known(
    manager: &mut AuthManager,
    file: Option<String>,
    read: bool,
)
    requires
        call_ensures(AuthManager::reload, (manager, &file), read),
    ensures
        !read ==> final(manager)@ == old(manager)@,
        read ==> Some(final(manager)@) == filed(view_option(file)),
{
}

} // verus!
