use atra::codec::url_text;
use atra::json::Json;
use atra::provider::api_key_auth::CredentialSource;
use atra::provider::codex::{
    catalog, catalog_answer, catalog_with, error_message, fallback_model, nine_tenths_of, parse_model,
    CatalogError, BUNDLED_MODELS,
};
use atra::provider::codex_auth;
use atra::provider::codex_auth::{
    auth_from_tokens, authorization_url, code_challenge, codex_user_agent, exchange_answer,
    exchange_reply, handle_callback, jwt_payload, login_failure, login_file_value,
    oauth_client_id, originator, random_urlsafe, recovery, redirect_uri, renewal_body,
    renewed_tokens, reply_to, resend, respond, revocation_body, target, token_expires_soon,
    tokens_from_file, CallbackAction, Recovery, ReplyStatus, Tokens,
};
use atra::provider::codex_limits::{
    fractional_seconds, normalize_rate_limit_window, rate_limit_headers, rate_limit_snapshots,
    rate_limit_sources, usage_snapshots, usage_sources, Header,
};
use atra::provider::codex_manager::{
    callback_ports, check_credential, credential_source, exchange_form, renewal_answer,
    revocation_endpoint, token_endpoint, token_failure, AuthManager, RefreshStep, TokenTask,
};
use atra::provider::codex_session::{
    account_headers, next_turn_state, request_headers, RequestHeader, Sessions, BASE_URL,
    SESSION_IDLE_MS,
};

fn json(text: &str) -> Json {
    Json::parse(text).unwrap()
}

fn sorted(value: Json) -> Json {
    match value {
        Json::Array(items) => Json::Array(items.into_iter().map(sorted).collect()),
        Json::Object(fields) => {
            let mut fields: Vec<(String, Json)> =
                fields.into_iter().map(|(key, value)| (key, sorted(value))).collect();
            fields.sort_by(|left, right| left.0.cmp(&right.0));
            Json::Object(fields)
        }
        other => other,
    }
}

fn token(claims: &str) -> String {
    format!("head.{}.signature", url_text(claims.as_bytes()))
}

fn tokens(id: &str, account: Option<&str>) -> Tokens {
    Tokens {
        id_token: id.to_owned(),
        access_token: "access".to_owned(),
        refresh_token: "refresh".to_owned(),
        account_id: account.map(|text| text.to_owned()),
    }
}

#[test]
fn a_listed_model_is_described() {
    let model = parse_model(&json(
        r#"{"slug":"gpt-x","context_window":272000,"default_reasoning_level":"low","supported_reasoning_levels":[{"effort":"low"},"high"]}"#,
    ))
    .unwrap();
    assert_eq!(model.provider, "codex");
    assert_eq!(model.display_name, "gpt-x");
    assert_eq!(model.default_reasoning_effort, "low");
    assert_eq!(model.supported_reasoning_efforts, vec!["low".to_owned(), "high".to_owned()]);
    assert_eq!(model.auto_compact_token_limit, Some(244_800));
    assert_eq!(model.tool_bindings.len(), 1);
    assert_eq!(model.tool_bindings[0].implementation, "hosted");
    assert!(parse_model(&json(r#"{"slug":"gpt-x"}"#)).is_none());
    assert!(parse_model(&json(r#"{"context_window":1}"#)).is_none());
}

#[test]
fn nine_tenths_are_rounded_towards_zero() {
    assert_eq!(nine_tenths_of(101), 90);
    assert_eq!(nine_tenths_of(0), 0);
}

#[test]
fn a_catalog_holds_what_is_listed() {
    let models = catalog(&json(
        r#"{"models":[{"slug":"a","context_window":10,"visibility":"list"},{"slug":"b","context_window":10,"visibility":"hide"}]}"#,
    ))
    .unwrap();
    assert_eq!(models.len(), 1);
    assert_eq!(models[0].id, "a");
}

#[test]
fn a_catalog_without_a_listed_model_is_the_bundled_one() {
    let models = catalog(&json(r#"{"models":[{"slug":"b","context_window":10}]}"#)).unwrap();
    let ids: Vec<&str> = models.iter().map(|model| model.id.as_str()).collect();
    assert_eq!(ids, ["gpt-5.6-sol", "gpt-5.6-terra", "gpt-5.6-luna", "gpt-5.5", "gpt-5.2"]);
    assert_eq!(models[0].auto_compact_token_limit, Some(244_800));
    assert_eq!(models[2].supported_reasoning_efforts.len(), 5);
    assert!(Json::parse(BUNDLED_MODELS).is_some());
}

#[test]
fn a_catalog_is_never_empty() {
    let models = catalog(&json(r#"{"models":[{"visibility":"list"}]}"#)).unwrap();
    assert_eq!(models, vec![fallback_model()]);
    assert_eq!(models[0].context_window, Some(400_000));
}

#[test]
fn an_answer_without_models() {
    let error = catalog(&json("{}")).unwrap_err();
    assert_eq!(error, CatalogError::NoModels);
    assert_eq!(error.message(), "Codex models response has no models array");
    let error = catalog_with(&json(r#"{"models":[]}"#), &None).unwrap_err();
    assert_eq!(error.message(), "failed to load bundled Codex model catalog");
}

#[test]
fn what_the_service_says_is_wrong() {
    assert_eq!(error_message(r#"{"error":{"message":"one"},"detail":"two"}"#), "one");
    assert_eq!(error_message(r#"{"detail":"two","message":"three"}"#), "two");
    assert_eq!(error_message(r#"{"message":"three"}"#), "three");
    assert_eq!(error_message(r#"{"detail":7}"#), r#"{"detail":7}"#);
    assert_eq!(error_message(&"é".repeat(600)), "é".repeat(500));
}

#[test]
fn malformed_auth_holds_no_tokens() {
    assert!(tokens_from_file("{not json").is_none());
    assert!(tokens_from_file(r#"{"tokens":7}"#).is_none());
    assert_eq!(tokens_from_file("{}"), Some(None));
    assert_eq!(tokens_from_file(r#"{"tokens":null}"#), Some(None));
}

#[test]
fn a_login_is_read_back() {
    for account in [None, Some("account-1")] {
        let tokens = tokens("id", account);
        let text = login_file_value(&tokens, "2026-01-01T00:00:00Z").to_text();
        assert_eq!(tokens_from_file(&text), Some(Some(tokens)));
    }
}

#[test]
fn a_login_file_can_be_read_by_others() {
    assert_eq!(
        sorted(login_file_value(&tokens("id", None), "now")),
        sorted(json(
            r#"{"auth_mode":"chatgpt","OPENAI_API_KEY":"access","tokens":{"id_token":"id","access_token":"access","refresh_token":"refresh","account_id":null},"last_refresh":"now"}"#,
        )),
    );
}

#[test]
fn claims_are_read_from_a_token() {
    assert_eq!(jwt_payload(&token(r#"{"exp":7}"#)), Some(json(r#"{"exp":7}"#)));
    assert_eq!(jwt_payload("only-one-part"), None);
    assert_eq!(jwt_payload("head.!!!.tail"), None);
    assert_eq!(jwt_payload(&token("{not json")), None);
}

#[test]
fn a_token_is_renewed_before_it_ends() {
    let ending = token(r#"{"exp":1000}"#);
    assert!(token_expires_soon(&ending, 700));
    assert!(!token_expires_soon(&ending, 699));
    assert!(!token_expires_soon(&token("{}"), 5000));
    assert!(!token_expires_soon("opaque", 5000));
}

#[test]
fn an_account_is_taken_from_the_tokens_or_their_claims() {
    let claims = r#"{"email":"a@example.com","https://api.openai.com/auth":{"chatgpt_account_id":"claimed"}}"#;
    let auth = auth_from_tokens(&tokens(&token(claims), None));
    assert_eq!(auth.token, "access");
    assert_eq!(auth.account_id.as_deref(), Some("claimed"));
    assert_eq!(auth.email.as_deref(), Some("a@example.com"));
    let auth = auth_from_tokens(&tokens(&token(claims), Some("stored")));
    assert_eq!(auth.account_id.as_deref(), Some("stored"));
    let profile = r#"{"https://api.openai.com/profile":{"email":"b@example.com"}}"#;
    assert_eq!(auth_from_tokens(&tokens(&token(profile), None)).email.as_deref(), Some("b@example.com"));
    assert_eq!(auth_from_tokens(&tokens("opaque", None)).email, None);
}

#[test]
fn a_renewal_keeps_what_it_does_not_renew() {
    let current = tokens("id", Some("account-1"));
    let renewed = renewed_tokens(&current, &Json::parse(r#"{"access_token":"newer"}"#)).unwrap();
    assert_eq!(renewed.access_token, "newer");
    assert_eq!(renewed.refresh_token, "refresh");
    assert_eq!(renewed.id_token, "id");
    assert_eq!(renewed.account_id.as_deref(), Some("account-1"));
    assert!(renewed_tokens(&current, &Json::parse(r#"{"access_token":7}"#)).is_none());
    assert!(renewed_tokens(&current, &None).is_none());
}

#[test]
fn a_code_is_exchanged_for_tokens() {
    let id = token(r#"{"https://api.openai.com/auth":{"chatgpt_account_id":"claimed"}}"#);
    let body = format!(
        r#"{{"id_token":"{id}","access_token":"a","refresh_token":"r"}}"#
    );
    let exchanged = exchange_answer(&body).unwrap();
    assert_eq!(exchanged.access_token, "a");
    assert_eq!(exchanged.account_id.as_deref(), Some("claimed"));
    assert!(exchange_answer(r#"{"id_token":"x"}"#).is_none());
    assert!(exchange_answer("{}").is_none());
}

#[test]
fn what_the_token_service_is_asked() {
    let current = tokens("id", None);
    assert_eq!(
        sorted(renewal_body("client", &current)),
        sorted(json(
            r#"{"client_id":"client","grant_type":"refresh_token","refresh_token":"refresh"}"#,
        )),
    );
    assert_eq!(
        sorted(revocation_body(&current, "client")),
        sorted(json(
            r#"{"token":"refresh","token_type_hint":"refresh_token","client_id":"client"}"#,
        )),
    );
    let without = Tokens { refresh_token: String::new(), ..current };
    assert_eq!(
        sorted(revocation_body(&without, "client")),
        sorted(json(r#"{"token":"access","token_type_hint":"access_token","client_id":null}"#)),
    );
}

#[test]
fn a_refused_request_is_sent_again_once() {
    assert!(resend(401, 0));
    assert!(!resend(401, 1));
    assert!(!resend(403, 0));
    assert_eq!(recovery(&Some(tokens("id", None)), "older"), Recovery::TakeStored);
    assert_eq!(recovery(&Some(tokens("id", None)), "access"), Recovery::Renew);
    assert_eq!(recovery(&None, "access"), Recovery::Renew);
}

#[test]
fn values_of_the_environment() {
    assert_eq!(oauth_client_id(&None), codex_auth::CLIENT_ID);
    assert_eq!(oauth_client_id(&Some("  ".to_owned())), codex_auth::CLIENT_ID);
    assert_eq!(oauth_client_id(&Some("mine".to_owned())), "mine");
    assert_eq!(originator(&Some("me".to_owned())), "me");
    assert_eq!(originator(&Some("bad\nvalue".to_owned())), "codex_cli_rs");
    assert_eq!(originator(&None), "codex_cli_rs");
    assert_eq!(
        codex_user_agent("me", "Linux", "6.1", "x86_64", &None),
        "me/0.0.0 (Linux 6.1; x86_64) unknown",
    );
}

#[test]
fn what_the_token_service_says_is_wrong() {
    assert_eq!(
        codex_auth::error_message(r#"{"error":"bad","error_description":"expired"}"#),
        "expired",
    );
    assert_eq!(codex_auth::error_message(r#"{"error":{"message":"nested"}}"#), "nested");
    assert_eq!(codex_auth::error_message(r#"{"error":"bad"}"#), "bad");
    assert_eq!(codex_auth::error_message("plain words"), "plain words");
}

#[test]
fn a_secret_is_shown_by_its_digest() {
    assert_eq!(
        code_challenge("dBjftJeZ4CVP-mB92K27uhbUJU1p1r_wW1gFWFOEjXk"),
        "E9Melhoa2OwvFrEMTJguCHaoeK1t8URWbuGJSstw-cM",
    );
    let secret = random_urlsafe(32);
    assert_eq!(secret.len(), 43);
    assert!(secret.bytes().all(|byte| byte.is_ascii_alphanumeric() || byte == b'-' || byte == b'_'));
}

#[test]
fn the_browser_is_sent_to_the_service() {
    let redirect = redirect_uri(1455);
    assert_eq!(redirect, "http://localhost:1455/auth/callback");
    let url = authorization_url("client", &redirect, "challenge", "state", "me").unwrap();
    assert!(url.starts_with("https://auth.openai.com/oauth/authorize?response_type=code&client_id=client&"));
    assert!(url.contains("redirect_uri=http%3A%2F%2Flocalhost%3A1455%2Fauth%2Fcallback"));
    assert!(url.contains("code_challenge=challenge"));
    assert!(url.contains("code_challenge_method=S256"));
    assert!(url.ends_with("&state=state&originator=me"));
}

fn called_back(path: &str) -> CallbackAction {
    let request = format!("GET {path} HTTP/1.1\r\nHost: localhost\r\n\r\n");
    handle_callback(request.as_bytes(), "secret").unwrap()
}

#[test]
fn a_code_needs_the_secret() {
    let action = called_back("/auth/callback?code=abc%20d&state=secret");
    assert!(matches!(&action, CallbackAction::Exchange { code } if code == "abc d"));
    assert!(reply_to(&action).is_none());
    let action = called_back("/auth/callback?code=abc&state=other");
    assert!(matches!(action, CallbackAction::StateMismatch));
    let action = called_back("/auth/callback?error=denied&state=other");
    assert!(matches!(action, CallbackAction::StateMismatch));
    assert_eq!(
        reply_to(&action),
        Some((ReplyStatus::BadRequest, "State mismatch".to_owned())),
    );
}

#[test]
fn other_requests_of_the_browser() {
    let action = called_back("/favicon.ico");
    assert_eq!(reply_to(&action), Some((ReplyStatus::NotFound, "Not found".to_owned())));
    let action = called_back("/auth/callback?state=secret&error=denied");
    assert!(matches!(&action, CallbackAction::Failed { description } if description == "denied"));
    let action = called_back("/auth/callback?state=secret&error=denied&error_description=no+way");
    assert_eq!(reply_to(&action), Some((ReplyStatus::BadRequest, "no way".to_owned())));
    let action = called_back("/auth/callback?state=secret&code=");
    assert_eq!(
        reply_to(&action),
        Some((ReplyStatus::BadRequest, "Missing authorization code".to_owned())),
    );
    assert_eq!(target("GARBAGE"), "/");
    assert_eq!(target("GET /x HTTP/1.1\r\nGET /y"), "/x");
    assert_eq!(login_failure("denied"), "Codex login failed: denied");
}

#[test]
fn the_browser_is_answered() {
    assert_eq!(
        respond(ReplyStatus::NotFound, "é"),
        "HTTP/1.1 404 Not Found\r\nContent-Type: text/plain; charset=utf-8\r\nContent-Length: 2\r\nConnection: close\r\n\r\né",
    );
    assert_eq!(exchange_reply(true).0, ReplyStatus::Fine);
    assert_eq!(
        exchange_reply(false),
        (
            ReplyStatus::InternalServerError,
            "Sign-in failed. Return to the terminal for details.",
        ),
    );
}

#[test]
fn windows_are_told_in_minutes() {
    let none = json("{}");
    let window = json(r#"{"used_percent":12.5,"limit_window_seconds":18030,"reset_at":99}"#);
    assert_eq!(
        sorted(normalize_rate_limit_window(Some(&window), &none)),
        sorted(json(r#"{"used_percent":12.5,"window_minutes":300,"resets_at":99}"#)),
    );
    let window = json(r#"{"used_percent":1,"window_minutes":5,"limit_window_seconds":18000}"#);
    assert_eq!(
        sorted(normalize_rate_limit_window(Some(&window), &none)),
        sorted(json(r#"{"used_percent":1,"window_minutes":5,"resets_at":null}"#)),
    );
    assert!(normalize_rate_limit_window(None, &none).is_null());
    assert!(normalize_rate_limit_window(Some(&json(r#"{"used_percent":null}"#)), &none).is_null());
}

#[test]
fn fractions_of_a_minute_are_looked_up() {
    let value = json(r#"{"rate_limit":{"primary_window":{"used_percent":1,"limit_window_seconds":90.5}}}"#);
    let sources = rate_limit_sources(&value);
    assert_eq!(fractional_seconds(&sources), vec!["90.5".to_owned()]);
    let shown = rate_limit_snapshots(&value, &json(r#"{"90.5":1.5083333333333333}"#));
    assert_eq!(shown.len(), 1);
    assert_eq!(
        shown[0].nested("primary", "window_minutes"),
        json("1.5083333333333333"),
    );
}

#[test]
fn limits_come_in_several_forms() {
    let none = json("{}");
    let usage = json(
        r#"{"rate_limit":{"primary_window":{"used_percent":1}},"additional_rate_limits":[{"limit_name":"extra","rate_limit":{"secondary_window":{"used_percent":2}}}]}"#,
    );
    let shown = rate_limit_snapshots(&usage, &none);
    assert_eq!(shown.len(), 2);
    assert_eq!(shown[0].str_field("limit_id"), Some("codex"));
    assert_eq!(shown[1].str_field("limit_id"), Some("extra"));
    assert_eq!(shown[1].nested("secondary", "used_percent"), json("2"));
    let single = rate_limit_snapshots(&json(r#"{"limit_id":"only","primary":{"used_percent":3}}"#), &none);
    assert_eq!(single.len(), 1);
    assert_eq!(single[0].str_field("limit_id"), Some("only"));
    let list = rate_limit_snapshots(&json(r#"[{"limit_id":"a"},{}]"#), &none);
    assert_eq!(list.len(), 2);
    assert_eq!(list[1].str_field("limit_id"), Some("codex"));
    assert!(rate_limit_snapshots(&json("7"), &none).is_empty());
}

fn header(name: &str, text: &str) -> Header {
    Header { name: name.to_owned(), text: Some(text.to_owned()), number: Json::parse(text) }
}

#[test]
fn limits_are_read_from_headers() {
    let values = rate_limit_headers(&vec![
        header("x-codex-primary-used-percent", "40.5"),
        header("x-codex-primary-window-minutes", "300"),
        header("x-codex-primary-reset-at", "1700000000"),
        header("content-type", "text/plain"),
    ]);
    assert_eq!(values.len(), 1);
    assert_eq!(values[0].str_field("limit_id"), Some("codex"));
    assert_eq!(values[0].nested("primary", "used_percent"), json("40.5"));
    assert_eq!(values[0].nested("primary", "window_minutes"), json("300"));
    assert!(rate_limit_headers(&Vec::new()).is_empty());
}

#[test]
fn sessions_are_kept_while_they_are_used() {
    let mut sessions = Sessions::new();
    sessions.open("one", 1000);
    sessions.open("two", 2000);
    sessions.open("one", 3000);
    let ids = |sessions: &Sessions| -> Vec<String> {
        sessions.kept().iter().map(|session| session.id.clone()).collect()
    };
    assert_eq!(ids(&sessions), vec!["two".to_owned(), "one".to_owned()]);
    sessions.open("three", 2000 + SESSION_IDLE_MS);
    assert_eq!(ids(&sessions), vec!["one".to_owned(), "three".to_owned()]);
    sessions.clear();
    assert!(sessions.kept().is_empty());
}

fn pairs(headers: &[RequestHeader]) -> Vec<(&str, &str)> {
    headers.iter().map(|header| (header.name, header.value.as_str())).collect()
}

#[test]
fn requests_carry_their_session() {
    let headers = request_headers("s-1", &Some("turn".to_owned())).unwrap();
    assert_eq!(
        pairs(&headers),
        vec![
            ("session-id", "s-1"),
            ("thread-id", "s-1"),
            ("x-client-request-id", "s-1"),
            ("x-codex-turn-state", "turn"),
            ("x-codex-beta-features", "remote_compaction_v2"),
        ],
    );
    assert_eq!(request_headers("s\n1", &None).err().unwrap().message(), "invalid model session ID");
    assert_eq!(
        request_headers("s-1", &Some("\u{7f}".to_owned())).err().unwrap().message(),
        "invalid Codex turn state",
    );
    assert_eq!(
        next_turn_state(Some("old".to_owned()), None),
        Some("old".to_owned()),
    );
    assert_eq!(
        next_turn_state(Some("old".to_owned()), Some("new".to_owned())),
        Some("new".to_owned()),
    );
}

#[test]
fn requests_carry_their_account() {
    let url = format!("{BASE_URL}/responses");
    assert_eq!(
        pairs(&account_headers(&url, &Some("account-1".to_owned()))),
        vec![("version", "0.0.0"), ("ChatGPT-Account-ID", "account-1")],
    );
    assert_eq!(pairs(&account_headers("https://chatgpt.com/backend-api/wham/usage", &None)), vec![]);
}

#[test]
fn malformed_auth_does_not_prevent_manager_creation() {
    let manager = AuthManager::new(&Some("{not json".to_owned()));
    assert!(manager.auth().is_none());
}

fn filed(access: &str) -> Option<String> {
    let tokens = Tokens { access_token: access.to_owned(), ..tokens("id", None) };
    Some(login_file_value(&tokens, "now").to_text())
}

#[test]
fn a_login_is_reloaded() {
    let mut manager = AuthManager::new(&filed("first"));
    assert_eq!(manager.auth().unwrap().token, "first");
    assert!(!manager.reload(&Some("{not json".to_owned())));
    assert_eq!(manager.auth().unwrap().token, "first");
    assert!(manager.reload(&filed("second")));
    assert_eq!(manager.auth().unwrap().token, "second");
    assert!(manager.reload(&None));
    assert!(manager.tokens().is_none());
}

#[test]
fn a_login_that_ends_is_renewed() {
    let ending = token(r#"{"exp":1000}"#);
    let manager = AuthManager::new(&filed(&ending));
    assert!(manager.needs_refresh(900));
    assert!(!manager.needs_refresh(100));
    assert!(matches!(manager.refresh(100, "client"), RefreshStep::Keep));
    let step = manager.refresh(900, "client");
    assert!(matches!(
        step,
        RefreshStep::Ask { body } if body.str_field("refresh_token") == Some("refresh")
    ));
    let nobody = AuthManager::new(&None);
    assert!(!nobody.needs_refresh(900));
    assert!(matches!(nobody.refresh(900, "client"), RefreshStep::LoginRequired));
}

#[test]
fn a_refused_login_is_recovered() {
    let mut manager = AuthManager::new(&filed("old"));
    let step = manager.recover_unauthorized(Some(tokens("id", None)), "old", "client");
    assert!(matches!(step, RefreshStep::Keep));
    assert_eq!(manager.auth().unwrap().token, "access");
    let step = manager.recover_unauthorized(Some(tokens("id", None)), "access", "client");
    assert!(matches!(step, RefreshStep::Ask { .. }));
    let step = manager.recover_unauthorized(None, "access", "client");
    assert!(matches!(step, RefreshStep::Ask { .. }));
    let renewed = renewal_answer(&tokens("id", None), r#"{"access_token":"newest"}"#).unwrap();
    manager.accept(renewed);
    assert_eq!(manager.auth().unwrap().token, "newest");
    assert!(renewal_answer(&tokens("id", None), "[]").is_none());
}

#[test]
fn where_tokens_come_from() {
    assert_eq!(credential_source(true), Some(CredentialSource::File));
    assert_eq!(credential_source(false), None);
    assert_eq!(token_endpoint(&None), "https://auth.openai.com/oauth/token");
    assert_eq!(token_endpoint(&Some("http://other".to_owned())), "http://other");
    assert_eq!(revocation_endpoint(&None), "https://auth.openai.com/oauth/revoke");
    assert_eq!(callback_ports(), vec![1455, 1457]);
    assert!(check_credential(&None).is_ok());
    assert_eq!(
        check_credential(&Some("key".to_owned())).unwrap_err(),
        "Codex login does not accept a credential",
    );
    let form = exchange_form("code", "uri", "client", "secret");
    assert_eq!(form.len(), 5);
    assert_eq!(form[4], ("code_verifier".to_owned(), "secret".to_owned()));
    assert_eq!(
        token_failure(TokenTask::Refresh, "400 Bad Request", "expired"),
        "Codex token refresh failed (400 Bad Request): expired",
    );
    assert_eq!(
        token_failure(TokenTask::Exchange, "400 Bad Request", "expired"),
        "Codex token exchange failed (400 Bad Request): expired",
    );
}

#[test]
fn a_login_can_be_a_list_of_its_fields() {
    let tokens = Tokens {
        id_token: "i".to_owned(),
        access_token: "a".to_owned(),
        refresh_token: "r".to_owned(),
        account_id: None,
    };
    assert_eq!(tokens_from_file(r#"[null,null,["i","a","r",null]]"#), Some(Some(tokens)));
    assert_eq!(tokens_from_file(r#"["chatgpt","key",null,7]"#), Some(None));
    assert!(tokens_from_file("[null,null]").is_none());
    assert!(tokens_from_file(r#"[null,null,["i","a","r"]]"#).is_none());
    assert!(tokens_from_file("[null,null,null,null,null]").is_none());
    let current = tokens_from_file(r#"{"tokens":["i","a","r","n"]}"#).unwrap().unwrap();
    let renewed = renewed_tokens(&current, &Json::parse(r#"[null,"b",null]"#)).unwrap();
    assert_eq!(
        (renewed.access_token.as_str(), renewed.refresh_token.as_str()),
        ("b", "r"),
    );
    assert!(renewed_tokens(&current, &Json::parse(r#"[null,"b"]"#)).is_none());
    assert_eq!(exchange_answer(r#"["i","a","r"]"#).unwrap().access_token, "a");
    assert!(exchange_answer(r#"["i","a"]"#).is_none());
}

#[test]
fn answers_are_read_from_their_text() {
    assert_eq!(catalog_answer("{not json").unwrap_err(), CatalogError::Undecoded);
    assert_eq!(catalog_answer("{}").unwrap_err(), CatalogError::NoModels);
    assert_eq!(CatalogError::Undecoded.message(), "failed to decode Codex models");
    assert!(!catalog_answer(r#"{"models":[]}"#).unwrap().is_empty());
    assert!(usage_sources("{not json").is_none());
    assert!(usage_snapshots("{not json", &Json::Null).is_none());
    let value = json("{}");
    assert_eq!(
        usage_snapshots("{}", &Json::Null).unwrap(),
        rate_limit_snapshots(&value, &Json::Null),
    );
    assert_eq!(usage_sources("{}").unwrap().len(), rate_limit_sources(&value).len());
}
