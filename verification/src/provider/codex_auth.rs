//! The login of Codex.
use crate::api::sse::utf8_text;
use crate::codec::{
    base64_url, base64_url_decoded, digest_url, lossy, lossy_text, sha256, url_bytes, url_text,
};
use crate::json::{json_option, parsed, Json, JsonView};
use crate::passage::{leading, leading_chars, nth_part, split_part};
use crate::provider::codex::SHOWN_ANSWER;
use crate::record::{read_record, record, Shape, ShapeView};
use crate::text::{
    concat2, concat3, concat4, concat5, copy_option, decimal, decimal_text, first_at, is_blank,
    same_text, split_once, view_option, words,
};
use rand::RngCore;
use vstd::prelude::*;
use vstd::utf8::{decode_utf8, encode_utf8, valid_utf8};

verus! {

/// Who issues the tokens.
pub const ISSUER: &'static str = "https://auth.openai.com";

/// As whom this client logs in.
pub const CLIENT_ID: &'static str = "app_EMoamEEZ73f0CkXaXp7hrann";

/// What is told where a login is needed.
pub const LOGIN_REQUIRED: &'static str = "Codex login required; run `atra provider login codex`";

/// How long before its end a token is renewed, in seconds.
pub const RENEWAL_SECONDS: i64 = 300;

/// The tokens of a login.
#[derive(Debug, PartialEq)]
pub struct Tokens {
    pub id_token: String,
    pub access_token: String,
    pub refresh_token: String,
    pub account_id: Option<String>,
}

/// What [`Tokens`] stand for.
pub struct TokensView {
    pub id_token: Seq<char>,
    pub access_token: Seq<char>,
    pub refresh_token: Seq<char>,
    pub account_id: Option<Seq<char>>,
}

impl View for Tokens {
    type V = TokensView;

    open spec fn view(&self) -> TokensView {
        TokensView {
            id_token: self.id_token@,
            access_token: self.access_token@,
            refresh_token: self.refresh_token@,
            account_id: view_option(self.account_id),
        }
    }
}

/// How a request shows that it is allowed.
#[derive(Debug, PartialEq)]
pub struct Auth {
    pub token: String,
    pub account_id: Option<String>,
    pub email: Option<String>,
}

/// What an [`Auth`] stands for.
pub struct AuthView {
    pub token: Seq<char>,
    pub account_id: Option<Seq<char>>,
    pub email: Option<Seq<char>>,
}

impl View for Auth {
    type V = AuthView;

    open spec fn view(&self) -> AuthView {
        AuthView {
            token: self.token@,
            account_id: view_option(self.account_id),
            email: view_option(self.email),
        }
    }
}

/// What a token claims: what its second part holds in base64.
pub open spec fn claims(token: Seq<char>) -> Option<JsonView> {
    match nth_part(token, '.', 1) {
        Some(part) => match base64_url_decoded(part) {
            Some(bytes) => if valid_utf8(bytes) {
                parsed(decode_utf8(bytes))
            } else {
                None
            },
            None => None,
        },
        None => None,
    }
}

/// What a token claims.
pub fn jwt_payload(token: &str) -> (payload: Option<Json>)
    ensures
        json_option(payload) == claims(token@),
{
    let part = match split_part(token, '.', 1) {
        Some(part) => part,
        None => {
            return None;
        },
    };
    let bytes = match url_bytes(part.as_str()) {
        Some(bytes) => bytes,
        None => {
            return None;
        },
    };
    match utf8_text(bytes.as_slice()) {
        Some(text) => Json::parse(text.as_str()),
        None => None,
    }
}

/// Whether claims end soon after a time.
pub open spec fn ends_soon(claims: Option<JsonView>, now: i64) -> bool {
    match claims {
        Some(claims) => match claims.field("exp"@).as_i64() {
            Some(end) => end <= now + RENEWAL_SECONDS,
            None => false,
        },
        None => false,
    }
}

/// Whether claims end soon after a time.
pub fn claims_end_soon(claims: &Option<Json>, now: i64) -> (soon: bool)
    requires
        now <= i64::MAX - RENEWAL_SECONDS,
    ensures
        soon == ends_soon(json_option(*claims), now),
{
    match claims {
        Some(claims) => match claims.field("exp").as_i64() {
            Some(end) => end <= now + RENEWAL_SECONDS,
            None => false,
        },
        None => false,
    }
}

/// Whether a token ends soon after a time in seconds since 1970. One that does
/// not say when it ends does not.
pub fn token_expires_soon(token: &str, now: i64) -> (soon: bool)
    requires
        now <= i64::MAX - RENEWAL_SECONDS,
    ensures
        soon == ends_soon(claims(token@), now),
{
    let payload = jwt_payload(token);
    claims_end_soon(&payload, now)
}

/// The account that claims are about.
pub open spec fn claimed_account(claims: JsonView) -> Option<Seq<char>> {
    claims.field("https://api.openai.com/auth"@).str_field("chatgpt_account_id"@)
}

/// The address that claims are about.
pub open spec fn claimed_email(claims: JsonView) -> Option<Seq<char>> {
    match claims.get("email"@) {
        Some(email) => email.as_str(),
        None => claims.field("https://api.openai.com/profile"@).str_field("email"@),
    }
}

fn account_of(claims: &Json) -> (account: Option<String>)
    ensures
        view_option(account) == claimed_account(claims@),
{
    let auth = claims.field("https://api.openai.com/auth");
    match auth.str_field("chatgpt_account_id") {
        Some(account) => Some(account.to_owned()),
        None => None,
    }
}

fn email_of(claims: &Json) -> (email: Option<String>)
    ensures
        view_option(email) == claimed_email(claims@),
{
    let profile = claims.field("https://api.openai.com/profile");
    let email = match claims.get("email") {
        Some(email) => email.as_str(),
        None => profile.str_field("email"),
    };
    match email {
        Some(email) => Some(email.to_owned()),
        None => None,
    }
}

/// How requests show that they are allowed, from tokens and what the token of
/// the person claims.
pub open spec fn auth_of(tokens: TokensView, claims: Option<JsonView>) -> AuthView {
    let claims = match claims {
        Some(claims) => claims,
        None => JsonView::Null,
    };
    AuthView {
        token: tokens.access_token,
        account_id: match tokens.account_id {
            Some(account) => Some(account),
            None => claimed_account(claims),
        },
        email: claimed_email(claims),
    }
}

/// How requests show that they are allowed, from tokens and what the token of
/// the person claims.
pub fn auth_with_claims(tokens: &Tokens, payload: Option<Json>) -> (auth: Auth)
    ensures
        auth@ == auth_of(tokens@, json_option(payload)),
{
    let payload = match payload {
        Some(payload) => payload,
        None => Json::Null,
    };
    let account_id = match &tokens.account_id {
        Some(account) => Some(account.clone()),
        None => account_of(&payload),
    };
    Auth { token: tokens.access_token.clone(), account_id, email: email_of(&payload) }
}

/// How requests show that they are allowed.
pub fn auth_from_tokens(tokens: &Tokens) -> (auth: Auth)
    ensures
        auth@ == auth_of(tokens@, claims(tokens@.id_token)),
{
    auth_with_claims(tokens, jwt_payload(tokens.id_token.as_str()))
}

/// An optional text that a field may hold; `None` where it holds something else.
pub open spec fn optional_text(field: Option<JsonView>) -> Option<Option<Seq<char>>> {
    match field {
        None | Some(JsonView::Null) => Some(None),
        Some(JsonView::Text(text)) => Some(Some(text)),
        Some(_) => None,
    }
}

fn read_optional_text(field: Option<&Json>) -> (text: Option<Option<String>>)
    ensures
        match text {
            Some(text) => optional_text(
                match field {
                    Some(field) => Some(field@),
                    None => None,
                },
            ) == Some(view_option(text)),
            None => optional_text(
                match field {
                    Some(field) => Some(field@),
                    None => None,
                },
            ) is None,
        },
{
    match field {
        None => Some(None),
        Some(Json::Null) => Some(None),
        Some(Json::Text(text)) => Some(Some(text.clone())),
        Some(_) => None,
    }
}

/// The text that a field must hold.
pub open spec fn needed_text(field: Option<JsonView>) -> Option<Seq<char>> {
    match field {
        Some(JsonView::Text(text)) => Some(text),
        _ => None,
    }
}

fn read_needed_text(field: Option<&Json>) -> (text: Option<String>)
    ensures
        view_option(text) == needed_text(
            match field {
                Some(field) => Some(field@),
                None => None,
            },
        ),
{
    match field {
        Some(Json::Text(text)) => Some(text.clone()),
        _ => None,
    }
}

/// The tokens that a value holds: by the names of the fields, or all four in their
/// order.
pub open spec fn tokens_in(value: JsonView) -> Option<TokensView> {
    if !value.is_record(4, 4) {
        None
    } else {
        match (
            needed_text(value.element("id_token"@, 0)),
            needed_text(value.element("access_token"@, 1)),
            needed_text(value.element("refresh_token"@, 2)),
            optional_text(value.element("account_id"@, 3)),
        ) {
            (Some(id_token), Some(access_token), Some(refresh_token), Some(account_id)) => Some(
                TokensView { id_token, access_token, refresh_token, account_id },
            ),
            _ => None,
        }
    }
}

fn read_tokens(value: &Json) -> (tokens: Option<Tokens>)
    ensures
        match tokens {
            Some(tokens) => tokens_in(value@) == Some(tokens@),
            None => tokens_in(value@) is None,
        },
{
    if !value.is_record(4, 4) {
        return None;
    }
    match (
        read_needed_text(value.element("id_token", 0)),
        read_needed_text(value.element("access_token", 1)),
        read_needed_text(value.element("refresh_token", 2)),
        read_optional_text(value.element("account_id", 3)),
    ) {
        (Some(id_token), Some(access_token), Some(refresh_token), Some(account_id)) => Some(
            Tokens { id_token, access_token, refresh_token, account_id },
        ),
        _ => None,
    }
}

/// The tokens that the file of a login holds, by the names of its fields or in
/// their order: none where there is no login; `None` where the file cannot be read.
pub open spec fn stored_tokens(value: Option<JsonView>) -> Option<Option<TokensView>> {
    match value {
        Some(value) => if !value.is_record(3, 4) || optional_text(
            value.element("auth_mode"@, 0),
        ) is None || optional_text(value.element("OPENAI_API_KEY"@, 1)) is None {
            None
        } else {
            match value.element("tokens"@, 2) {
                None | Some(JsonView::Null) => Some(None),
                Some(tokens) => match tokens_in(tokens) {
                    Some(tokens) => Some(Some(tokens)),
                    None => None,
                },
            }
        },
        None => None,
    }
}

/// What optional tokens stand for.
pub open spec fn tokens_option(tokens: Option<Tokens>) -> Option<TokensView> {
    match tokens {
        Some(tokens) => Some(tokens@),
        None => None,
    }
}

/// The tokens that the value of a login's file holds.
pub fn tokens_from_value(value: &Option<Json>) -> (tokens: Option<Option<Tokens>>)
    ensures
        match tokens {
            Some(tokens) => stored_tokens(json_option(*value)) == Some(tokens_option(tokens)),
            None => stored_tokens(json_option(*value)) is None,
        },
{
    let value = match value {
        Some(value) => value,
        None => {
            return None;
        },
    };
    if !value.is_record(3, 4) {
        return None;
    }
    if read_optional_text(value.element("auth_mode", 0)).is_none() || read_optional_text(
        value.element("OPENAI_API_KEY", 1),
    ).is_none() {
        return None;
    }
    match value.element("tokens", 2) {
        None => Some(None),
        Some(tokens) => {
            if tokens.is_null() {
                Some(None)
            } else {
                match read_tokens(tokens) {
                    Some(tokens) => Some(Some(tokens)),
                    None => None,
                }
            }
        },
    }
}

/// What is read of an answer of the token service.
pub open spec fn tokens_shape() -> ShapeView {
    ShapeView::record().with_whole("id_token"@).with_whole("access_token"@).with_whole(
        "refresh_token"@,
    )
}

/// What is read of the file of a login.
pub open spec fn file_shape() -> ShapeView {
    ShapeView::record().with_whole("auth_mode"@).with_whole("OPENAI_API_KEY"@).with(
        "tokens"@,
        tokens_shape().with_whole("account_id"@),
    ).with_whole("last_refresh"@)
}

/// What is read of an answer of the token service.
pub fn shape_of_tokens() -> (shape: Shape)
    ensures
        shape@ == tokens_shape(),
{
    Shape::record().with_whole("id_token").with_whole("access_token").with_whole("refresh_token")
}

/// The tokens that the text of a login's file holds.
pub fn tokens_from_file(text: &str) -> (tokens: Option<Option<Tokens>>)
    ensures
        match tokens {
            Some(tokens) => stored_tokens(record(encode_utf8(text@), file_shape())) == Some(
                tokens_option(tokens),
            ),
            None => stored_tokens(record(encode_utf8(text@), file_shape())) is None,
        },
{
    let tokens = shape_of_tokens().with_whole("account_id");
    let shape = Shape::record().with_whole("auth_mode").with_whole("OPENAI_API_KEY").with(
        "tokens",
        tokens,
    ).with_whole("last_refresh");
    let value = read_record(text.as_bytes(), &shape);
    tokens_from_value(&value)
}

/// A text or null.
pub open spec fn text_or_null(text: Option<Seq<char>>) -> JsonView {
    match text {
        Some(text) => JsonView::Text(text),
        None => JsonView::Null,
    }
}

fn text_or_null_value(text: &Option<String>) -> (value: Json)
    ensures
        value@ == text_or_null(view_option(*text)),
{
    match text {
        Some(text) => Json::text(text.as_str()),
        None => Json::Null,
    }
}

/// The file of a login.
pub open spec fn login_file(tokens: TokensView, time: Seq<char>) -> JsonView {
    JsonView::object().with_text("auth_mode"@, "chatgpt"@).with_text(
        "OPENAI_API_KEY"@,
        tokens.access_token,
    ).with(
        "tokens"@,
        JsonView::object().with_text("id_token"@, tokens.id_token).with_text(
            "access_token"@,
            tokens.access_token,
        ).with_text("refresh_token"@, tokens.refresh_token).with(
            "account_id"@,
            text_or_null(tokens.account_id),
        ),
    ).with_text("last_refresh"@, time)
}

/// The file of a login that was made or renewed at a time.
pub fn login_file_value(tokens: &Tokens, time: &str) -> (value: Json)
    ensures
        value@ == login_file(tokens@, time@),
{
    Json::object().with_text("auth_mode", "chatgpt").with_text(
        "OPENAI_API_KEY",
        tokens.access_token.as_str(),
    ).with(
        "tokens",
        Json::object().with_text("id_token", tokens.id_token.as_str()).with_text(
            "access_token",
            tokens.access_token.as_str(),
        ).with_text("refresh_token", tokens.refresh_token.as_str()).with(
            "account_id",
            text_or_null_value(&tokens.account_id),
        ),
    ).with_text("last_refresh", time)
}

/// What is written of a login is what is read of it.
pub proof fn law_login_is_read_back(tokens: TokensView, time: Seq<char>)
    ensures
        stored_tokens(Some(login_file(tokens, time))) == Some(Some(tokens)),
{
    reveal_strlit("auth_mode");
    reveal_strlit("OPENAI_API_KEY");
    reveal_strlit("tokens");
    reveal_strlit("last_refresh");
    reveal_strlit("id_token");
    reveal_strlit("access_token");
    reveal_strlit("refresh_token");
    reveal_strlit("account_id");
    let file = login_file(tokens, time)->Object_0;
    assert(file[0] == ("auth_mode"@, JsonView::Text("chatgpt"@)));
    let inner = file[2].1;
    let fields = inner->Object_0;
    lemma_lookup(file, 0);
    assert("auth_mode"@.len() != "OPENAI_API_KEY"@.len());
    assert("auth_mode"@.len() != "tokens"@.len());
    assert("OPENAI_API_KEY"@.len() != "tokens"@.len());
    lemma_lookup(file, 1);
    lemma_lookup(file, 2);
    assert("id_token"@.len() != "access_token"@.len());
    assert("id_token"@.len() != "refresh_token"@.len());
    assert("access_token"@.len() != "refresh_token"@.len());
    assert("account_id"@.len() != "refresh_token"@.len());
    assert("account_id"@.len() != "access_token"@.len());
    assert("account_id"@.len() != "id_token"@.len());
    lemma_lookup(fields, 0);
    lemma_lookup(fields, 1);
    lemma_lookup(fields, 2);
    lemma_lookup(fields, 3);
}

/// A field is found under its key where no earlier field has that key.
proof fn lemma_lookup(fields: Seq<(Seq<char>, JsonView)>, at: int)
    requires
        0 <= at < fields.len(),
        forall|i: int| 0 <= i < at ==> (#[trigger] fields[i]).0 != fields[at].0,
    ensures
        crate::json::lookup(fields, fields[at].0) == Some(fields[at].1),
    decreases at,
{
    if at > 0 {
        let rest = fields.skip(1);
        assert(fields[0].0 != fields[at].0);
        assert(rest[at - 1] == fields[at]);
        assert forall|i: int| 0 <= i < at - 1 implies (#[trigger] rest[i]).0 != rest[at - 1].0 by {
            assert(rest[i] == fields[i + 1]);
        }
        lemma_lookup(rest, at - 1);
    }
}

/// The tokens after a renewal: what the answer gives anew, else what was.
pub open spec fn renewed(current: TokensView, value: Option<JsonView>) -> Option<TokensView> {
    match value {
        Some(value) => if !value.is_record(3, 3) {
            None
        } else {
            match (
                optional_text(value.element("id_token"@, 0)),
                optional_text(value.element("access_token"@, 1)),
                optional_text(value.element("refresh_token"@, 2)),
            ) {
                (Some(id_token), Some(access_token), Some(refresh_token)) => Some(
                    TokensView {
                        id_token: match id_token {
                            Some(token) => token,
                            None => current.id_token,
                        },
                        access_token: match access_token {
                            Some(token) => token,
                            None => current.access_token,
                        },
                        refresh_token: match refresh_token {
                            Some(token) => token,
                            None => current.refresh_token,
                        },
                        account_id: current.account_id,
                    },
                ),
                _ => None,
            }
        },
        None => None,
    }
}

fn token_or(token: Option<String>, current: &String) -> (result: String)
    ensures
        result@ == (match token {
            Some(token) => token@,
            None => current@,
        }),
{
    match token {
        Some(token) => token,
        None => current.clone(),
    }
}

/// The tokens after a renewal.
pub fn renewed_tokens(current: &Tokens, value: &Option<Json>) -> (tokens: Option<Tokens>)
    ensures
        match tokens {
            Some(tokens) => renewed(current@, json_option(*value)) == Some(tokens@),
            None => renewed(current@, json_option(*value)) is None,
        },
{
    let value = match value {
        Some(value) => value,
        None => {
            return None;
        },
    };
    if !value.is_record(3, 3) {
        return None;
    }
    match (
        read_optional_text(value.element("id_token", 0)),
        read_optional_text(value.element("access_token", 1)),
        read_optional_text(value.element("refresh_token", 2)),
    ) {
        (Some(id_token), Some(access_token), Some(refresh_token)) => Some(
            Tokens {
                id_token: token_or(id_token, &current.id_token),
                access_token: token_or(access_token, &current.access_token),
                refresh_token: token_or(refresh_token, &current.refresh_token),
                account_id: copy_option(&current.account_id),
            },
        ),
        _ => None,
    }
}

/// A renewal that gives nothing anew keeps every token, and none loses the
/// account.
pub proof fn law_renewal_keeps_what_is_not_renewed(current: TokensView, value: Option<JsonView>)
    ensures
        renewed(current, Some(JsonView::object())) == Some(current),
        renewed(current, value) matches Some(tokens) ==> tokens.account_id == current.account_id,
{
}

/// The tokens from the answer to a code, with the account that the person's
/// token claims.
pub open spec fn exchanged(value: Option<JsonView>, claimed: Option<JsonView>) -> Option<TokensView> {
    match value {
        Some(value) => if !value.is_record(3, 3) {
            None
        } else {
            match (
                needed_text(value.element("id_token"@, 0)),
                needed_text(value.element("access_token"@, 1)),
                needed_text(value.element("refresh_token"@, 2)),
            ) {
                (Some(id_token), Some(access_token), Some(refresh_token)) => Some(
                    TokensView {
                        id_token,
                        access_token,
                        refresh_token,
                        account_id: match claimed {
                            Some(claimed) => claimed_account(claimed),
                            None => None,
                        },
                    },
                ),
                _ => None,
            }
        },
        None => None,
    }
}

/// The person's token in the answer to a code.
pub open spec fn exchanged_id(value: Option<JsonView>) -> Option<Seq<char>> {
    match value {
        Some(value) => needed_text(value.element("id_token"@, 0)),
        None => None,
    }
}

/// The tokens from the answer to a code, with what the person's token claims.
pub fn exchanged_tokens(value: &Option<Json>, claimed: &Option<Json>) -> (tokens: Option<Tokens>)
    ensures
        match tokens {
            Some(tokens) => exchanged(json_option(*value), json_option(*claimed)) == Some(tokens@),
            None => exchanged(json_option(*value), json_option(*claimed)) is None,
        },
{
    let value = match value {
        Some(value) => value,
        None => {
            return None;
        },
    };
    let account_id = match claimed {
        Some(claimed) => account_of(claimed),
        None => None,
    };
    if !value.is_record(3, 3) {
        return None;
    }
    match (
        read_needed_text(value.element("id_token", 0)),
        read_needed_text(value.element("access_token", 1)),
        read_needed_text(value.element("refresh_token", 2)),
    ) {
        (Some(id_token), Some(access_token), Some(refresh_token)) => Some(
            Tokens { id_token, access_token, refresh_token, account_id },
        ),
        _ => None,
    }
}

/// The tokens from the text of the answer to a code.
pub fn exchange_answer(body: &str) -> (tokens: Option<Tokens>)
    ensures
        ({
            let value = record(encode_utf8(body@), tokens_shape());
            match exchanged_id(value) {
                Some(id) => match tokens {
                    Some(tokens) => exchanged(value, claims(id)) == Some(tokens@),
                    None => exchanged(value, claims(id)) is None,
                },
                None => tokens is None,
            }
        }),
{
    let value = read_record(body.as_bytes(), &shape_of_tokens());
    let claimed = match &value {
        Some(value) => match read_needed_text(value.element("id_token", 0)) {
            Some(id) => jwt_payload(id.as_str()),
            None => {
                return None;
            },
        },
        None => {
            return None;
        },
    };
    exchanged_tokens(&value, &claimed)
}

/// What the token service is asked to renew a login.
pub fn renewal_body(client_id: &str, tokens: &Tokens) -> (body: Json)
    ensures
        body@ == JsonView::object().with_text("client_id"@, client_id@).with_text(
            "grant_type"@,
            "refresh_token"@,
        ).with_text("refresh_token"@, tokens@.refresh_token),
{
    Json::object().with_text("client_id", client_id).with_text(
        "grant_type",
        "refresh_token",
    ).with_text("refresh_token", tokens.refresh_token.as_str())
}

/// What the token service is asked to end a login: the token to renew it is given
/// up, or the token itself where there is none.
pub open spec fn revocation(tokens: TokensView, client_id: Seq<char>) -> JsonView {
    if tokens.refresh_token.len() == 0 {
        JsonView::object().with_text("token"@, tokens.access_token).with_text(
            "token_type_hint"@,
            "access_token"@,
        ).with("client_id"@, JsonView::Null)
    } else {
        JsonView::object().with_text("token"@, tokens.refresh_token).with_text(
            "token_type_hint"@,
            "refresh_token"@,
        ).with_text("client_id"@, client_id)
    }
}

/// What the token service is asked to end a login.
pub fn revocation_body(tokens: &Tokens, client_id: &str) -> (body: Json)
    ensures
        body@ == revocation(tokens@, client_id@),
{
    if tokens.refresh_token.as_str().is_empty() {
        Json::object().with_text("token", tokens.access_token.as_str()).with_text(
            "token_type_hint",
            "access_token",
        ).with("client_id", Json::Null)
    } else {
        Json::object().with_text("token", tokens.refresh_token.as_str()).with_text(
            "token_type_hint",
            "refresh_token",
        ).with_text("client_id", client_id)
    }
}

/// What comes of a request that was not allowed: another token may be on disk by
/// now, else the login is renewed.
#[derive(Clone, Copy, Debug, PartialEq, Eq, Structural)]
pub enum Recovery {
    TakeStored,
    Renew,
}

/// What comes of a request that was not allowed with a token.
pub fn recovery(stored: &Option<Tokens>, rejected: &str) -> (action: Recovery)
    ensures
        action == (if stored matches Some(tokens) && tokens.access_token@ != rejected@ {
            Recovery::TakeStored
        } else {
            Recovery::Renew
        }),
{
    match stored {
        Some(tokens) => {
            if same_text(tokens.access_token.as_str(), rejected) {
                Recovery::Renew
            } else {
                Recovery::TakeStored
            }
        },
        None => Recovery::Renew,
    }
}

/// What is done with an answer: a first one that says the request was not allowed
/// makes it be sent again with another token.
pub fn resend(status: u16, attempt: usize) -> (again: bool)
    ensures
        again == (status == 401 && attempt == 0),
{
    status == 401 && attempt == 0
}

/// A value of the environment, unless it is blank; else another text.
pub open spec fn set_or(value: Option<Seq<char>>, other: Seq<char>) -> Seq<char> {
    match value {
        Some(value) => if crate::text::blank(value) {
            other
        } else {
            value
        },
        None => other,
    }
}

fn set_text_or(value: &Option<String>, other: &str) -> (text: String)
    ensures
        text@ == set_or(view_option(*value), other@),
{
    match value {
        Some(value) => {
            if is_blank(value.as_str()) {
                other.to_owned()
            } else {
                value.clone()
            }
        },
        None => other.to_owned(),
    }
}

/// As whom this client logs in: as the environment says, else as itself.
pub fn oauth_client_id(value: &Option<String>) -> (id: String)
    ensures
        id@ == set_or(view_option(*value), CLIENT_ID@),
{
    set_text_or(value, CLIENT_ID)
}

/// Whether a character can stand in the value of a header.
pub open spec fn header_character(character: char) -> bool {
    character as u32 >= 32 && character as u32 != 127 || character == '\t'
}

/// Whether a text can be the value of a header.
pub open spec fn header_text(text: Seq<char>) -> bool {
    forall|i: int| 0 <= i < text.len() ==> header_character(#[trigger] text[i])
}

/// `reqwest::header::HeaderValue::from_str`. Believed: it takes a text whose
/// bytes are the tab or are at least 32 and not 127, which holds of every byte of
/// a character beyond ASCII.
#[verifier::external_body]
pub(crate) fn is_header_value(text: &str) -> (valid: bool)
    ensures
        valid == header_text(text@),
{
    reqwest::header::HeaderValue::from_str(text).is_ok()
}

/// By what this client is known: by what the environment says, where that can be
/// sent.
pub fn originator(value: &Option<String>) -> (name: String)
    ensures
        name@ == (match view_option(*value) {
            Some(value) => if header_text(value) {
                value
            } else {
                "codex_cli_rs"@
            },
            None => "codex_cli_rs"@,
        }),
{
    match value {
        Some(value) => {
            if is_header_value(value.as_str()) {
                value.clone()
            } else {
                "codex_cli_rs".to_owned()
            }
        },
        None => "codex_cli_rs".to_owned(),
    }
}

/// How this client introduces itself.
pub fn codex_user_agent(
    originator: &str,
    os_type: &str,
    os_version: &str,
    architecture: &str,
    terminal: &Option<String>,
) -> (agent: String)
    ensures
        agent@ == originator@ + "/0.0.0 ("@ + os_type@ + " "@ + os_version@ + "; "@ + architecture@
            + ") "@ + set_or(view_option(*terminal), "unknown"@),
{
    let terminal = set_text_or(terminal, "unknown");
    let mut agent = concat5(originator, "/0.0.0 (", os_type, " ", os_version);
    agent.push_str("; ");
    agent.push_str(architecture);
    agent.push_str(") ");
    agent.push_str(terminal.as_str());
    agent
}

/// What an answer of the token service says is wrong.
pub open spec fn token_error_field(value: JsonView) -> Option<JsonView> {
    match value.get("error_description"@) {
        Some(field) => Some(field),
        None => match value.field("error"@).get("message"@) {
            Some(field) => Some(field),
            None => value.get("error"@),
        },
    }
}

/// What an answer of the token service says is wrong, else the start of the
/// answer.
pub open spec fn token_error_words(body: Seq<char>, value: Option<JsonView>) -> Seq<char> {
    match value {
        Some(value) => match token_error_field(value) {
            Some(field) => match field.as_str() {
                Some(text) => text,
                None => leading(body, SHOWN_ANSWER as nat),
            },
            None => leading(body, SHOWN_ANSWER as nat),
        },
        None => leading(body, SHOWN_ANSWER as nat),
    }
}

/// What an answer of the token service says is wrong, from the value that it
/// holds.
pub fn error_message_of(body: &str, value: &Option<Json>) -> (text: String)
    ensures
        text@ == token_error_words(body@, json_option(*value)),
{
    match value {
        Some(value) => {
            let error = value.field("error");
            let field = match value.get("error_description") {
                Some(field) => Some(field),
                None => match error.get("message") {
                    Some(field) => Some(field),
                    None => value.get("error"),
                },
            };
            match field {
                Some(field) => match field.as_str() {
                    Some(text) => text.to_owned(),
                    None => leading_chars(body, SHOWN_ANSWER),
                },
                None => leading_chars(body, SHOWN_ANSWER),
            }
        },
        None => leading_chars(body, SHOWN_ANSWER),
    }
}

/// What an answer of the token service says is wrong.
pub fn error_message(body: &str) -> (text: String)
    ensures
        text@ == token_error_words(body@, parsed(body@)),
{
    let value = Json::parse(body);
    error_message_of(body, &value)
}

/// `rand::RngCore::fill_bytes` on `rand::rng()`. Believed: as many bytes as were
/// asked for. What they are is left to chance.
#[verifier::external_body]
fn random_bytes(count: usize) -> (bytes: Vec<u8>)
    ensures
        bytes@.len() == count,
{
    let mut bytes = vec![0; count];
    rand::rng().fill_bytes(&mut bytes);
    bytes
}

/// A text that cannot be guessed, from so many random bytes.
pub fn random_urlsafe(count: usize) -> (text: String)
    ensures
        exists|bytes: Seq<u8>| bytes.len() == count && text@ == #[trigger] base64_url(bytes),
{
    let bytes = random_bytes(count);
    url_text(bytes.as_slice())
}

/// What shows the service that the one who asks for a login is the one who gets
/// the tokens: the digest of a secret.
pub fn code_challenge(verifier: &str) -> (challenge: String)
    ensures
        challenge@ == base64_url(sha256(encode_utf8(verifier@))),
{
    digest_url(verifier.as_bytes())
}

/// Where the browser comes back to.
pub fn redirect_uri(port: u16) -> (uri: String)
    ensures
        uri@ == "http://localhost:"@ + decimal(port as int) + "/auth/callback"@,
{
    let port = decimal_text(port as i128);
    concat3("http://localhost:", port.as_str(), "/auth/callback")
}

/// What pairs stand for.
pub open spec fn pair_views(pairs: Seq<(String, String)>) -> Seq<(Seq<char>, Seq<char>)> {
    Seq::new(pairs.len(), |i: int| (pairs[i].0@, pairs[i].1@))
}

/// What the browser is sent to the service with.
pub open spec fn authorization_pairs(
    client_id: Seq<char>,
    redirect: Seq<char>,
    challenge: Seq<char>,
    state: Seq<char>,
    originator: Seq<char>,
) -> Seq<(Seq<char>, Seq<char>)> {
    seq![
        ("response_type"@, "code"@),
        ("client_id"@, client_id),
        ("redirect_uri"@, redirect),
        (
            "scope"@,
            "openid profile email offline_access api.connectors.read api.connectors.invoke"@,
        ),
        ("code_challenge"@, challenge),
        ("code_challenge_method"@, "S256"@),
        ("id_token_add_organizations"@, "true"@),
        ("codex_cli_simplified_flow"@, "true"@),
        ("state"@, state),
        ("originator"@, originator),
    ]
}

/// An address with pairs added to its query; none where it is no address.
pub uninterp spec fn url_with_pairs(base: Seq<char>, pairs: Seq<(Seq<char>, Seq<char>)>) -> Option<
    Seq<char>,
>;

/// `reqwest::Url::parse`, and `extend_pairs` on the query of the result. Believed:
/// whether it fails, and the address otherwise, depend on the base and the pairs
/// alone. An address of gigabytes, and one with a fragment, are left out:
/// `query_pairs_mut` panics where the query starts beyond what 32 bits tell, and so
/// does the end of its use where a fragment is put back beyond that.
#[verifier::external_body]
pub(crate) fn build_url(base: &str, pairs: &Vec<(String, String)>) -> (url: Option<String>)
    requires
        base@.len() <= 4096,
        forall|i: int| 0 <= i < base@.len() ==> base@[i] != '#',
    ensures
        match url {
            Some(url) => url_with_pairs(base@, pair_views(pairs@)) == Some(url@),
            None => url_with_pairs(base@, pair_views(pairs@)) is None,
        },
{
    let mut url = reqwest::Url::parse(base).ok()?;
    url.query_pairs_mut().extend_pairs(pairs);
    Some(url.into())
}

fn pair(name: &str, value: &str) -> (pair: (String, String))
    ensures
        pair.0@ == name@,
        pair.1@ == value@,
{
    (name.to_owned(), value.to_owned())
}

/// Where the browser is sent to log in.
pub fn authorization_url(
    client_id: &str,
    redirect: &str,
    challenge: &str,
    state: &str,
    originator: &str,
) -> (url: Option<String>)
    ensures
        match url {
            Some(url) => url_with_pairs(
                "https://auth.openai.com/oauth/authorize"@,
                authorization_pairs(client_id@, redirect@, challenge@, state@, originator@),
            ) == Some(url@),
            None => url_with_pairs(
                "https://auth.openai.com/oauth/authorize"@,
                authorization_pairs(client_id@, redirect@, challenge@, state@, originator@),
            ) is None,
        },
{
    let pairs = vec![
        pair("response_type", "code"),
        pair("client_id", client_id),
        pair("redirect_uri", redirect),
        pair(
            "scope",
            "openid profile email offline_access api.connectors.read api.connectors.invoke",
        ),
        pair("code_challenge", challenge),
        pair("code_challenge_method", "S256"),
        pair("id_token_add_organizations", "true"),
        pair("codex_cli_simplified_flow", "true"),
        pair("state", state),
        pair("originator", originator),
    ];
    proof {
        reveal_strlit("https://auth.openai.com/oauth/authorize");
        assert(pair_views(pairs@) =~= authorization_pairs(
            client_id@,
            redirect@,
            challenge@,
            state@,
            originator@,
        ));
    }
    build_url("https://auth.openai.com/oauth/authorize", &pairs)
}

/// What an address asks for.
#[derive(Debug)]
pub struct UrlParts {
    pub path: String,
    pub query: Vec<(String, String)>,
}

/// What [`UrlParts`] stand for.
pub struct UrlPartsView {
    pub path: Seq<char>,
    pub query: Seq<(Seq<char>, Seq<char>)>,
}

impl View for UrlParts {
    type V = UrlPartsView;

    open spec fn view(&self) -> UrlPartsView {
        UrlPartsView { path: self.path@, query: pair_views(self.query@) }
    }
}

/// The path and the pairs of the query of an address; none where it is no
/// address.
pub uninterp spec fn url_parts(text: Seq<char>) -> Option<UrlPartsView>;

/// `reqwest::Url::parse`, with `path` and `query_pairs` of the result. Believed:
/// whether it fails, and the parts otherwise, depend on the text alone.
#[verifier::external_body]
fn read_url(text: &str) -> (parts: Option<UrlParts>)
    ensures
        match parts {
            Some(parts) => url_parts(text@) == Some(parts@),
            None => url_parts(text@) is None,
        },
{
    let url = reqwest::Url::parse(text).ok()?;
    Some(UrlParts { path: url.path().to_owned(), query: url.query_pairs().into_owned().collect() })
}

/// What a request of a browser asks for: the second word of its first line.
pub open spec fn request_target(request: Seq<char>) -> Seq<char> {
    let line = request.take(first_at(request, '\n'));
    if words(line, false).len() >= 2 {
        words(line, false)[1]
    } else {
        "/"@
    }
}

/// The last value of a name in a query.
pub open spec fn query_value(query: Seq<(Seq<char>, Seq<char>)>, name: Seq<char>) -> Option<Seq<char>>
    decreases query.len(),
{
    if query.len() == 0 {
        None
    } else if query.last().0 == name {
        Some(query.last().1)
    } else {
        query_value(query.drop_last(), name)
    }
}

fn find_query<'a>(query: &'a Vec<(String, String)>, name: &str) -> (value: Option<&'a String>)
    ensures
        match value {
            Some(value) => query_value(pair_views(query@), name@) == Some(value@),
            None => query_value(pair_views(query@), name@) is None,
        },
{
    let ghost all = pair_views(query@);
    let mut i: usize = query.len();
    assert(all.take(i as int) =~= all);
    while i > 0
        invariant
            i <= query.len(),
            all == pair_views(query@),
            query_value(all, name@) == query_value(all.take(i as int), name@),
        decreases i,
    {
        assert(all.take(i as int).last() == all[i - 1]);
        assert(all.take(i as int).drop_last() =~= all.take(i - 1));
        if same_text(query[i - 1].0.as_str(), name) {
            return Some(&query[i - 1].1);
        }
        i -= 1;
    }
    None
}

/// What is done with a request of the browser.
#[derive(Debug)]
pub enum CallbackAction {
    NotFound,
    StateMismatch,
    /// The login failed, and ends.
    Failed { description: String },
    /// The code is exchanged for tokens.
    Exchange { code: String },
    MissingCode,
}

/// What a [`CallbackAction`] stands for.
pub enum CallbackView {
    NotFound,
    StateMismatch,
    Failed { description: Seq<char> },
    Exchange { code: Seq<char> },
    MissingCode,
}

impl View for CallbackAction {
    type V = CallbackView;

    open spec fn view(&self) -> CallbackView {
        match self {
            CallbackAction::NotFound => CallbackView::NotFound,
            CallbackAction::StateMismatch => CallbackView::StateMismatch,
            CallbackAction::Failed { description } => CallbackView::Failed {
                description: description@,
            },
            CallbackAction::Exchange { code } => CallbackView::Exchange { code: code@ },
            CallbackAction::MissingCode => CallbackView::MissingCode,
        }
    }
}

/// What is done with a request of the browser. Nothing that it brings is looked
/// at before the secret that it was sent with came back.
pub open spec fn callback(parts: UrlPartsView, state: Seq<char>) -> CallbackView {
    if parts.path != "/auth/callback"@ {
        CallbackView::NotFound
    } else if query_value(parts.query, "state"@) != Some(state) {
        CallbackView::StateMismatch
    } else {
        match query_value(parts.query, "error"@) {
            Some(error) => CallbackView::Failed {
                description: match query_value(parts.query, "error_description"@) {
                    Some(description) => description,
                    None => error,
                },
            },
            None => match query_value(parts.query, "code"@) {
                Some(code) => if code.len() == 0 {
                    CallbackView::MissingCode
                } else {
                    CallbackView::Exchange { code }
                },
                None => CallbackView::MissingCode,
            },
        }
    }
}

/// What is done with a request of the browser, from what it asks for.
pub fn callback_action(parts: &UrlParts, state: &str) -> (action: CallbackAction)
    ensures
        action@ == callback(parts@, state@),
{
    if !same_text(parts.path.as_str(), "/auth/callback") {
        return CallbackAction::NotFound;
    }
    let known = match find_query(&parts.query, "state") {
        Some(found) => same_text(found.as_str(), state),
        None => false,
    };
    if !known {
        return CallbackAction::StateMismatch;
    }
    match find_query(&parts.query, "error") {
        Some(error) => {
            let description = match find_query(&parts.query, "error_description") {
                Some(description) => description.clone(),
                None => error.clone(),
            };
            return CallbackAction::Failed { description };
        },
        None => {},
    }
    match find_query(&parts.query, "code") {
        Some(code) => {
            if code.as_str().is_empty() {
                CallbackAction::MissingCode
            } else {
                CallbackAction::Exchange { code: code.clone() }
            }
        },
        None => CallbackAction::MissingCode,
    }
}

/// A code is taken only from a request that brings the secret, and then it is the
/// one that the request brings.
pub proof fn law_code_needs_the_state(parts: UrlPartsView, state: Seq<char>)
    ensures
        callback(parts, state) matches CallbackView::Exchange { code } ==> query_value(
            parts.query,
            "state"@,
        ) == Some(state) && query_value(parts.query, "code"@) == Some(code),
        callback(parts, state) is Failed ==> query_value(parts.query, "state"@) == Some(state),
{
}

/// The target of a request of a browser.
pub fn target(request: &str) -> (result: String)
    ensures
        result@ == request_target(request@),
{
    let line = match split_once(request, '\n') {
        Some((line, _)) => line,
        None => {
            proof {
                lemma_no_separator(request@, '\n');
                assert(request@.take(first_at(request@, '\n')) =~= request@);
            }
            request.to_owned()
        },
    };
    match second_word(line.as_str()) {
        Some(word) => word,
        None => "/".to_owned(),
    }
}

proof fn lemma_no_separator(text: Seq<char>, separator: char)
    ensures
        0 <= first_at(text, separator) <= text.len(),
    decreases text.len(),
{
    if text.len() > 0 && text[0] != separator {
        lemma_no_separator(text.skip(1), separator);
    }
}

fn second_word(line: &str) -> (word: Option<String>)
    ensures
        match word {
            Some(word) => words(line@, false).len() >= 2 && words(line@, false)[1] == word@,
            None => words(line@, false).len() < 2,
        },
{
    let all = crate::text::word_list(line);
    if all.len() >= 2 {
        assert(crate::text::views(all@)[1] == all[1]@);
        Some(all[1].clone())
    } else {
        None
    }
}

/// What is done with a request of the browser; none where it asks for no
/// address.
pub fn handle_callback(request: &[u8], state: &str) -> (action: Option<CallbackAction>)
    ensures
        match url_parts("http://localhost"@ + request_target(lossy(request@))) {
            Some(parts) => action matches Some(action) && action@ == callback(parts, state@),
            None => action is None,
        },
{
    let text = lossy_text(request);
    let wanted = target(text.as_str());
    let url = concat2("http://localhost", wanted.as_str());
    match read_url(url.as_str()) {
        Some(parts) => Some(callback_action(&parts, state)),
        None => None,
    }
}

/// The status of an answer to the browser.
#[derive(Clone, Copy, Debug, PartialEq, Eq, Structural)]
pub enum ReplyStatus {
    Fine,
    BadRequest,
    NotFound,
    InternalServerError,
}

impl ReplyStatus {
    /// The first line of the answer.
    pub open spec fn words(self) -> Seq<char> {
        match self {
            ReplyStatus::Fine => "200 OK"@,
            ReplyStatus::BadRequest => "400 Bad Request"@,
            ReplyStatus::NotFound => "404 Not Found"@,
            ReplyStatus::InternalServerError => "500 Internal Server Error"@,
        }
    }

    fn line(self) -> (text: &'static str)
        ensures
            text@ == self.words(),
    {
        match self {
            ReplyStatus::Fine => "200 OK",
            ReplyStatus::BadRequest => "400 Bad Request",
            ReplyStatus::NotFound => "404 Not Found",
            ReplyStatus::InternalServerError => "500 Internal Server Error",
        }
    }
}

/// An answer to the browser. Its length is told in bytes.
pub open spec fn http_reply(status: ReplyStatus, body: Seq<char>) -> Seq<char> {
    "HTTP/1.1 "@ + status.words()
        + "\r\nContent-Type: text/plain; charset=utf-8\r\nContent-Length: "@ + decimal(
        encode_utf8(body).len() as int,
    ) + "\r\nConnection: close\r\n\r\n"@ + body
}

/// An answer to the browser.
pub fn respond(status: ReplyStatus, body: &str) -> (reply: String)
    ensures
        reply@ == http_reply(status, body@),
{
    let length = decimal_text(body.as_bytes().len() as i128);
    let mut reply = concat4(
        "HTTP/1.1 ",
        status.line(),
        "\r\nContent-Type: text/plain; charset=utf-8\r\nContent-Length: ",
        length.as_str(),
    );
    reply.push_str("\r\nConnection: close\r\n\r\n");
    reply.push_str(body);
    reply
}

/// What the browser is answered before a code is exchanged.
pub open spec fn callback_reply(action: CallbackView) -> Option<(ReplyStatus, Seq<char>)> {
    match action {
        CallbackView::NotFound => Some((ReplyStatus::NotFound, "Not found"@)),
        CallbackView::StateMismatch => Some((ReplyStatus::BadRequest, "State mismatch"@)),
        CallbackView::Failed { description } => Some((ReplyStatus::BadRequest, description)),
        CallbackView::MissingCode => Some(
            (ReplyStatus::BadRequest, "Missing authorization code"@),
        ),
        CallbackView::Exchange { code: _ } => None,
    }
}

/// What the browser is answered before a code is exchanged.
pub fn reply_to(action: &CallbackAction) -> (reply: Option<(ReplyStatus, String)>)
    ensures
        match (reply, callback_reply(action@)) {
            (Some((status, body)), Some((expected, text))) => status == expected && body@ == text,
            (None, None) => true,
            _ => false,
        },
{
    match action {
        CallbackAction::NotFound => Some((ReplyStatus::NotFound, "Not found".to_owned())),
        CallbackAction::StateMismatch => Some(
            (ReplyStatus::BadRequest, "State mismatch".to_owned()),
        ),
        CallbackAction::Failed { description } => Some(
            (ReplyStatus::BadRequest, description.clone()),
        ),
        CallbackAction::MissingCode => Some(
            (ReplyStatus::BadRequest, "Missing authorization code".to_owned()),
        ),
        CallbackAction::Exchange { .. } => None,
    }
}

/// What the browser is answered after a code was exchanged.
pub fn exchange_reply(exchanged: bool) -> (reply: (ReplyStatus, &'static str))
    ensures
        if exchanged {
            reply.0 == ReplyStatus::Fine && reply.1@
                == "Sign-in complete. You can close this window."@
        } else {
            reply.0 == ReplyStatus::InternalServerError && reply.1@
                == "Sign-in failed. Return to the terminal for details."@
        },
{
    if exchanged {
        (ReplyStatus::Fine, "Sign-in complete. You can close this window.")
    } else {
        (
            ReplyStatus::InternalServerError,
            "Sign-in failed. Return to the terminal for details.",
        )
    }
}

/// What ends the login that failed.
pub fn login_failure(description: &str) -> (message: String)
    ensures
        message@ == "Codex login failed: "@ + description@,
{
    concat2("Codex login failed: ", description)
}

/// A token ends soon where it says that it ends within five minutes; one that does not
/// say when it ends does not.
pub proof fn law_token_ends_within_five_minutes(claims: JsonView, now: i64)
    ensures
        claims.field("exp"@).as_i64() matches Some(end) ==> (ends_soon(Some(claims), now) <==> end
            - now <= 300),
        claims.field("exp"@).as_i64() is None ==> !ends_soon(Some(claims), now),
        !ends_soon(None, now),
{
}

/// Who is logged in: the account that the login names, else the one that its token
/// claims; the token that is sent is the access token.
pub proof fn law_login_names_its_account(tokens: TokensView, claims: JsonView)
    ensures
        auth_of(tokens, Some(claims)).token == tokens.access_token,
        auth_of(tokens, None).token == tokens.access_token,
        tokens.account_id is Some ==> auth_of(tokens, Some(claims)).account_id
            == tokens.account_id,
        tokens.account_id is None ==> auth_of(tokens, Some(claims)).account_id == claims.field(
            "https://api.openai.com/auth"@,
        ).str_field("chatgpt_account_id"@),
        claims.str_field("email"@) is Some ==> auth_of(tokens, Some(claims)).email
            == claims.str_field("email"@),
        claims.get("email"@) is None ==> auth_of(tokens, Some(claims)).email == claims.field(
            "https://api.openai.com/profile"@,
        ).str_field("email"@),
        auth_of(tokens, None).email is None,
{
}

/// A new login has the three tokens that the answer brought, each in its place, and
/// the account that the identity claims; without one of the three there is none.
pub proof fn law_new_login_has_its_tokens(
    id: Seq<char>,
    access: Seq<char>,
    refresh: Seq<char>,
    claimed: Option<JsonView>,
)
    ensures
        ({
            let value = JsonView::object().with_text("id_token"@, id).with_text(
                "access_token"@,
                access,
            ).with_text("refresh_token"@, refresh);
            &&& exchanged_id(Some(value)) == Some(id)
            &&& exchanged(Some(value), claimed) matches Some(tokens) && tokens.id_token == id
                && tokens.access_token == access && tokens.refresh_token == refresh
                && tokens.account_id == (match claimed {
                Some(claimed) => claimed_account(claimed),
                None => None,
            })
        }),
        exchanged(
            Some(
                JsonView::object().with_text("id_token"@, id).with_text("access_token"@, access),
            ),
            claimed,
        ) is None,
        exchanged(
            Some(
                JsonView::object().with_text("id_token"@, id).with_text("refresh_token"@, refresh),
            ),
            claimed,
        ) is None,
        exchanged(None, claimed) is None,
{
    broadcast use crate::json::lemma_with, crate::json::lemma_no_fields;

    reveal_strlit("id_token");
    reveal_strlit("access_token");
    reveal_strlit("refresh_token");
    assert("id_token"@.len() == 8 && "access_token"@.len() == 12 && "refresh_token"@.len() == 13);
    let value = JsonView::object().with_text("id_token"@, id).with_text("access_token"@, access);
    let whole = value.with_text("refresh_token"@, refresh);
    let other = JsonView::object().with_text("id_token"@, id).with_text("refresh_token"@, refresh);
    lemma_token_elements(value);
    lemma_token_elements(whole);
    lemma_token_elements(other);
}

proof fn lemma_token_elements(value: JsonView)
    requires
        value is Object,
    ensures
        value.element("id_token"@, 0) == value.get("id_token"@),
        value.element("access_token"@, 1) == value.get("access_token"@),
        value.element("refresh_token"@, 2) == value.get("refresh_token"@),
{
}

/// A renewal replaces the tokens that it brings, each by its own.
pub proof fn law_renewal_replaces_what_it_brings(
    current: TokensView,
    id: Seq<char>,
    access: Seq<char>,
    refresh: Seq<char>,
)
    ensures
        renewed(
            current,
            Some(
                JsonView::object().with_text("id_token"@, id).with_text(
                    "access_token"@,
                    access,
                ).with_text("refresh_token"@, refresh),
            ),
        ) == Some(
            TokensView {
                id_token: id,
                access_token: access,
                refresh_token: refresh,
                account_id: current.account_id,
            },
        ),
        renewed(current, Some(JsonView::object().with_text("access_token"@, access))) == Some(
            TokensView { access_token: access, ..current },
        ),
        renewed(current, Some(JsonView::object().with_text("refresh_token"@, refresh))) == Some(
            TokensView { refresh_token: refresh, ..current },
        ),
{
    broadcast use crate::json::lemma_with, crate::json::lemma_no_fields;

    reveal_strlit("id_token");
    reveal_strlit("access_token");
    reveal_strlit("refresh_token");
    assert("id_token"@.len() == 8 && "access_token"@.len() == 12 && "refresh_token"@.len() == 13);
    let one = JsonView::object().with_text("access_token"@, access);
    let other = JsonView::object().with_text("refresh_token"@, refresh);
    let whole = JsonView::object().with_text("id_token"@, id).with_text(
        "access_token"@,
        access,
    ).with_text("refresh_token"@, refresh);
    lemma_token_elements(one);
    lemma_token_elements(other);
    lemma_token_elements(whole);
}

/// What is revoked is the refresh token, with the client that it was given to, and the
/// access token only where there is no other.
pub proof fn law_refresh_token_is_revoked(tokens: TokensView, client_id: Seq<char>)
    ensures
        ({
            let body = revocation(tokens, client_id);
            &&& tokens.refresh_token.len() > 0 ==> body.str_field("token"@) == Some(
                tokens.refresh_token,
            ) && body.str_field("token_type_hint"@) == Some("refresh_token"@) && body.str_field(
                "client_id"@,
            ) == Some(client_id)
            &&& tokens.refresh_token.len() == 0 ==> body.str_field("token"@) == Some(
                tokens.access_token,
            ) && body.str_field("token_type_hint"@) == Some("access_token"@) && body.field(
                "client_id"@,
            ) is Null
        }),
{
    broadcast use crate::json::lemma_with, crate::json::lemma_no_fields;

    reveal_strlit("token");
    reveal_strlit("token_type_hint");
    reveal_strlit("client_id");
    assert("token"@.len() == 5 && "token_type_hint"@.len() == 15 && "client_id"@.len() == 9);
}

/// A request is sent again once, and only where the login was rejected; then a login
/// that was stored meanwhile is taken, if it is another.
pub proof fn law_rejected_request_is_sent_again_once(
    status: u16,
    attempt: usize,
    again: bool,
    stored: Option<Tokens>,
    rejected: &str,
    action: Recovery,
)
    requires
        call_ensures(resend, (status, attempt), again),
        call_ensures(recovery, (&stored, rejected), action),
    ensures
        again <==> status == 401 && attempt == 0,
        action is TakeStored <==> (stored matches Some(tokens) && tokens.access_token@ != rejected@),
{
}

/// A setting that is empty counts as not made.
pub proof fn law_empty_setting_is_none(value: Option<Seq<char>>, other: Seq<char>)
    ensures
        value is None ==> set_or(value, other) == other,
        value matches Some(text) ==> (crate::text::blank(text) ==> set_or(value, other) == other) && (
        !crate::text::blank(text) ==> set_or(value, other) == text),
{
}

/// What a callback leads to: only one to the right path that brings back the state of
/// the login is heeded; an error that it brings ends the login, and a code is exchanged.
pub proof fn law_callback_leads_to_its_code(parts: UrlPartsView, state: Seq<char>)
    ensures
        ({
            let action = callback(parts, state);
            let ours = parts.path == "/auth/callback"@;
            let known = query_value(parts.query, "state"@) == Some(state);
            let error = query_value(parts.query, "error"@);
            let told = query_value(parts.query, "error_description"@);
            let code = query_value(parts.query, "code"@);
            &&& action is NotFound <==> !ours
            &&& action is StateMismatch <==> ours && !known
            &&& action is Failed <==> ours && known && error is Some
            &&& action matches CallbackView::Failed { description } ==> description == (
            if told is Some {
                told->0
            } else {
                error->0
            })
            &&& action is Exchange <==> ours && known && error is None && code is Some
                && code->0.len() > 0
            &&& action matches CallbackView::Exchange { code: found } ==> code == Some(found)
        }),
{
}

/// A value of a query is the last that has its name.
pub proof fn law_query_value_is_the_last(
    query: Seq<(Seq<char>, Seq<char>)>,
    name: Seq<char>,
    i: int,
)
    requires
        0 <= i < query.len(),
        query[i].0 == name,
        forall|j: int| i < j < query.len() ==> (#[trigger] query[j]).0 != name,
    ensures
        query_value(query, name) == Some(query[i].1),
    decreases query.len(),
{
    if i < query.len() - 1 {
        assert(query[query.len() - 1].0 != name);
        assert forall|j: int| i < j < query.len() - 1 implies (
        #[trigger] query.drop_last()[j]).0 != name by {
            assert(query[j].0 != name);
        }
        law_query_value_is_the_last(query.drop_last(), name, i);
    }
}

/// A callback that is not exchanged is answered at once: what is not there with not
/// found, what is wrong with what is wrong. A login that succeeded is answered with
/// success, and no other.
pub proof fn law_callback_is_answered(
    action: CallbackView,
    traded: bool,
    reply: (ReplyStatus, &'static str),
)
    requires
        call_ensures(exchange_reply, (traded,), reply),
    ensures
        callback_reply(action) is None <==> action is Exchange,
        callback_reply(action) matches Some((status, body)) ==> (status is NotFound <==> action
            is NotFound) && (status is BadRequest <==> !(action is NotFound)) && (action
            matches CallbackView::Failed { description } ==> body == description),
        reply.0 is Fine <==> traded,
        reply.0 is InternalServerError <==> !traded,
        ReplyStatus::Fine.words() == "200 OK"@,
        ReplyStatus::BadRequest.words() == "400 Bad Request"@,
        ReplyStatus::NotFound.words() == "404 Not Found"@,
        ReplyStatus::InternalServerError.words() == "500 Internal Server Error"@,
{
}

/// A reply ends with its body, and says how many bytes that has.
pub proof fn law_reply_ends_with_its_body(status: ReplyStatus, body: Seq<char>)
    ensures
        crate::text::has_suffix(http_reply(status, body), "\r\n\r\n"@ + body),
        crate::text::has_prefix(http_reply(status, body), "HTTP/1.1 "@ + status.words() + "\r\n"@),
        crate::text::holds_part(
            http_reply(status, body),
            "Content-Length: "@ + decimal(encode_utf8(body).len() as int) + "\r\n"@,
        ),
{
    reveal_strlit("\r\n\r\n");
    reveal_strlit("\r\n");
    reveal_strlit("\r\nConnection: close\r\n\r\n");
    reveal_strlit("Connection: close\r\n\r\n");
    reveal_strlit("Connection: close");
    reveal_strlit("Content-Length: ");
    reveal_strlit("\r\nContent-Type: text/plain; charset=utf-8\r\n");
    reveal_strlit("\r\nContent-Type: text/plain; charset=utf-8\r\nContent-Length: ");
    let text = http_reply(status, body);
    let count = decimal(encode_utf8(body).len() as int);
    let start = "HTTP/1.1 "@ + status.words();
    let kind = "\r\nContent-Type: text/plain; charset=utf-8\r\n"@;
    assert("\r\nContent-Type: text/plain; charset=utf-8\r\nContent-Length: "@ =~= kind
        + "Content-Length: "@);
    assert("\r\nConnection: close\r\n\r\n"@ =~= "\r\n"@ + "Connection: close\r\n\r\n"@);
    assert("Connection: close\r\n\r\n"@ =~= "Connection: close"@ + "\r\n\r\n"@);
    let length = "Content-Length: "@ + count + "\r\n"@;
    let rest = "Connection: close"@ + "\r\n\r\n"@ + body;
    assert(text =~= (start + kind) + length + rest);
    crate::text::lemma_holds_middle(start + kind, length, rest);
    let ending = "\r\n\r\n"@ + body;
    assert(text.skip(text.len() - ending.len()) =~= ending);
    let opening = start + "\r\n"@;
    assert(text.take(opening.len() as int) =~= opening);
}

/// The page where the user logs in is asked for with the challenge and the state of
/// this login.
pub proof fn law_login_is_asked_for_with_its_state(
    client_id: Seq<char>,
    redirect: Seq<char>,
    challenge: Seq<char>,
    state: Seq<char>,
    originator: Seq<char>,
)
    ensures
        ({
            let pairs = authorization_pairs(client_id, redirect, challenge, state, originator);
            &&& pairs.len() == 10
            &&& pairs.contains(("state"@, state))
            &&& pairs.contains(("code_challenge"@, challenge))
            &&& pairs.contains(("code_challenge_method"@, "S256"@))
            &&& pairs.contains(("client_id"@, client_id))
            &&& pairs.contains(("redirect_uri"@, redirect))
            &&& pairs.contains(("response_type"@, "code"@))
            &&& pairs.contains(("originator"@, originator))
        }),
{
    let pairs = authorization_pairs(client_id, redirect, challenge, state, originator);
    assert(pairs[0] == ("response_type"@, "code"@));
    assert(pairs[1] == ("client_id"@, client_id));
    assert(pairs[2] == ("redirect_uri"@, redirect));
    assert(pairs[4] == ("code_challenge"@, challenge));
    assert(pairs[5] == ("code_challenge_method"@, "S256"@));
    assert(pairs[8] == ("state"@, state));
    assert(pairs[9] == ("originator"@, originator));
}

/// A header holds no control character but the tabulator.
pub proof fn law_header_holds_no_controls(text: Seq<char>, k: int)
    requires
        header_text(text),
        0 <= k < text.len(),
    ensures
        text[k] != '\n',
        text[k] != '\r',
        text[k] != '\0',
{
    assert(header_character(text[k]));
}

/// What went wrong with a token is told in the words of the answer: how the error is
/// described, else its message, else its name; and where it has none, by its beginning.
pub proof fn law_token_error_is_told_in_its_words(body: Seq<char>, value: JsonView)
    ensures
        value.str_field("error_description"@) is Some ==> token_error_words(body, Some(value))
            == value.str_field("error_description"@)->0,
        value.get("error_description"@) is None && value.field("error"@).str_field("message"@)
            is Some ==> token_error_words(body, Some(value)) == value.field("error"@).str_field(
            "message"@,
        )->0,
        value.get("error_description"@) is None && value.field("error"@).get("message"@) is None
            && value.str_field("error"@) is Some ==> token_error_words(body, Some(value))
            == value.str_field("error"@)->0,
        token_error_words(body, None).is_prefix_of(body),
        token_error_words(body, None).len() <= 500,
        body.len() <= 500 ==> token_error_words(body, None) == body,
{
}

} // verus!
