use atra::json::Json;
use atra::markup::nesting_of;
use atra::provider::tool_binding::{
    check_addresses, codex, exa_request, exa_text, exa_url, fetch_result, fetch_step, fetch_target,
    fetched_page, judge_address, ollama, ollama_path, public_ip, redirect_target, Address, Binding,
    Executor, FetchAction, FetchResponse, IpAddress, ToolError, MAX_FETCH_BYTES, MAX_NESTING,
};

fn json(text: &str) -> Json {
    Json::parse(text).unwrap()
}

fn sorted(value: Json) -> Json {
    match value {
        Json::Object(fields) => {
            let mut fields: Vec<(String, Json)> =
                fields.into_iter().map(|(key, value)| (key, sorted(value))).collect();
            fields.sort_by(|left, right| left.0.cmp(&right.0));
            Json::Object(fields)
        }
        Json::Array(items) => Json::Array(items.into_iter().map(sorted).collect()),
        value => value,
    }
}

fn v4(a: u8, b: u8, c: u8, d: u8) -> IpAddress {
    IpAddress::V4(a, b, c, d)
}

fn v6(first: u16, last: u16) -> IpAddress {
    IpAddress::V6(first, 0, 0, 0, 0, 0, 0, last)
}

fn mapped(a: u8, b: u8, c: u8, d: u8) -> IpAddress {
    let high = u16::from_be_bytes([a, b]);
    let low = u16::from_be_bytes([c, d]);
    IpAddress::V6(0, 0, 0, 0, 0, 0xffff, high, low)
}

#[test]
fn rejects_non_public_addresses() {
    for address in [
        v4(127, 0, 0, 1),
        v4(10, 0, 0, 1),
        v4(169, 254, 1, 1),
        v4(192, 168, 1, 1),
        v6(0, 1),
        v6(0xfc00, 1),
        v6(0xfe80, 1),
        mapped(127, 0, 0, 1),
        mapped(10, 0, 0, 1),
    ] {
        assert!(!public_ip(address), "{address:?}");
    }
    assert!(public_ip(v4(8, 8, 8, 8)));
    assert!(public_ip(IpAddress::V6(0x2606, 0x4700, 0x4700, 0, 0, 0, 0, 0x1111)));
}

#[test]
fn rejects_private_fetch_targets() {
    let target = fetch_target(&json(r#"{"url":"http://127.0.0.1/"}"#)).unwrap();
    assert_eq!((target.host.as_str(), target.port), ("127.0.0.1", 80));
    let private = vec![(v4(127, 0, 0, 1), "127.0.0.1".to_owned())];
    let error = check_addresses(&private).unwrap_err();
    assert_eq!(error.message(), "web_fetch refuses non-public address 127.0.0.1");
}

#[test]
fn returns_the_validated_public_socket_addresses() {
    let target = fetch_target(&json(r#"{"url":"https://1.1.1.1/example"}"#)).unwrap();
    assert_eq!(target.host, "1.1.1.1");
    assert_eq!(format!("{}:{}", target.host, target.port), "1.1.1.1:443");
    assert_eq!(target.url, "https://1.1.1.1/example");
    let public = vec![(v4(1, 1, 1, 1), "1.1.1.1".to_owned())];
    assert!(check_addresses(&public).is_ok());
}

#[test]
fn one_private_address_is_enough_to_refuse_a_host() {
    let mixed = vec![
        (v4(1, 1, 1, 1), "1.1.1.1".to_owned()),
        (v4(172, 16, 0, 9), "172.16.0.9".to_owned()),
    ];
    assert_eq!(
        check_addresses(&mixed).unwrap_err().message(),
        "web_fetch refuses non-public address 172.16.0.9",
    );
    assert_eq!(
        check_addresses(&Vec::new()).unwrap_err().message(),
        "web_fetch host resolved to no addresses",
    );
}

#[test]
fn ranges_that_are_not_public() {
    for address in [
        v4(0, 0, 0, 0),
        v4(172, 31, 255, 255),
        v4(255, 255, 255, 255),
        v4(224, 0, 0, 1),
        v4(192, 0, 2, 1),
        v4(198, 51, 100, 7),
        v4(203, 0, 113, 9),
        v6(0, 0),
        v6(0xff02, 1),
        v6(0xfdff, 1),
        v6(0xfebf, 1),
        mapped(192, 168, 0, 1),
    ] {
        assert!(!public_ip(address), "{address:?}");
    }
    for address in [
        v4(172, 15, 0, 1),
        v4(172, 32, 0, 1),
        v4(11, 0, 0, 1),
        mapped(8, 8, 8, 8),
        v6(0xfec0, 1),
    ] {
        assert!(public_ip(address), "{address:?}");
    }
}

#[test]
fn converts_html_to_markdown() {
    let page = fetch_result(
        "https://example.com/",
        "text/html; charset=utf-8",
        b"<h1>Hello</h1><p>world</p>",
    )
    .unwrap();
    assert_eq!(page.str_field("markdown"), Some("# Hello\n\nworld"));
    assert_eq!(page.str_field("url"), Some("https://example.com/"));
    assert_eq!(page.str_field("content_type"), Some("text/html; charset=utf-8"));
}

#[test]
fn other_content_is_passed_on_as_it_is() {
    let page = fetch_result("https://example.com/a", "text/plain", b"a <b> \xff").unwrap();
    assert_eq!(
        page,
        fetched_page("https://example.com/a", "text/plain", "a <b> \u{fffd}"),
    );
}

#[test]
fn oversized_content_is_refused() {
    let bytes = vec![b'x'; MAX_FETCH_BYTES + 1];
    assert_eq!(
        fetch_result("https://example.com/", "text/plain", &bytes).unwrap_err().message(),
        "web_fetch response exceeds 5242880 bytes",
    );
    assert!(fetch_result("https://example.com/", "text/plain", &bytes[1..]).is_ok());
}

fn response(status: u16, location: Option<&str>, content_length: Option<u64>) -> FetchResponse {
    FetchResponse {
        status,
        refusal: format!("refused with {status}"),
        location: location.map(|text| text.to_owned()),
        content_length,
    }
}

#[test]
fn redirects_are_followed_up_to_a_bound() {
    let step = |redirects, answer| fetch_step(redirects, "https://example.com/a/b", answer);
    let FetchAction::Redirect { target } = step(4, response(302, Some("../next"), None)).unwrap()
    else {
        panic!("the redirect was not followed");
    };
    assert_eq!(target.url, "https://example.com/next");
    assert_eq!((target.host.as_str(), target.port), ("example.com", 443));
    assert_eq!(
        step(5, response(302, Some("/next"), None)).unwrap_err().message(),
        "web_fetch exceeded 5 redirects",
    );
    assert_eq!(
        step(0, response(301, None, None)).unwrap_err().message(),
        "redirect response omitted Location",
    );
}

#[test]
fn a_redirect_is_read_before_it_is_counted() {
    let step = |redirects, location| {
        fetch_step(redirects, "https://example.com/", response(302, Some(location), None))
            .unwrap_err()
            .message()
    };
    assert_eq!(step(5, "http://[bad"), "invalid IPv6 address");
    assert_eq!(step(0, "http://[bad"), "invalid IPv6 address");
    assert_eq!(step(0, "file:///etc/hosts"), "web_fetch only supports HTTP and HTTPS");
    assert_eq!(step(5, "file:///etc/hosts"), "web_fetch exceeded 5 redirects");
}

#[test]
fn answers_that_end_a_fetch() {
    let step = |redirects, answer| fetch_step(redirects, "https://example.com/", answer);
    assert!(matches!(step(5, response(200, None, Some(10))), Ok(FetchAction::Read)));
    assert_eq!(
        step(0, response(408, None, None)).unwrap_err().message(),
        "web_fetch timed out",
    );
    assert_eq!(
        step(0, response(404, None, None)).unwrap_err().message(),
        "refused with 404",
    );
    assert_eq!(
        step(0, response(200, None, Some(MAX_FETCH_BYTES as u64 + 1))).unwrap_err().message(),
        "web_fetch response exceeds 5242880 bytes",
    );
}

#[test]
fn a_search_asks_for_a_bounded_number_of_results() {
    let body = exa_request(&json(r#"{"query":"rust"}"#)).unwrap();
    assert_eq!(
        sorted(body),
        sorted(json(
            r#"{"jsonrpc":"2.0","id":1,"method":"tools/call","params":{"name":"web_search_exa","arguments":{"query":"rust","type":"auto","numResults":5,"livecrawl":"fallback"}}}"#,
        )),
    );
    let count = |text: &str| {
        let body = exa_request(&json(text)).unwrap();
        body.nested("params", "arguments").field("numResults").as_u64()
    };
    assert_eq!(count(r#"{"query":"rust","max_results":0}"#), Some(1));
    assert_eq!(count(r#"{"query":"rust","max_results":7}"#), Some(7));
    assert_eq!(count(r#"{"query":"rust","max_results":70}"#), Some(10));
    assert_eq!(
        exa_request(&json("{}")).unwrap_err().message(),
        "web_search requires string property `query`",
    );
}

#[test]
fn a_search_answer_is_found_in_either_form() {
    let plain = r#" {"result":{"content":[{"type":"image"},{"type":"text","text":"found"}]}} "#;
    assert_eq!(exa_text(plain).unwrap(), "found");
    let streamed = "event: message\ndata: {\"result\":{\"content\":[{\"type\":\"text\",\"text\":\"also\"}]}}\n\n";
    assert_eq!(exa_text(streamed).unwrap(), "also");
    assert_eq!(
        exa_text("data: [DONE]\n").unwrap_err().message(),
        "Exa returned no textual search result",
    );
    assert_eq!(
        exa_text("{not json").unwrap_err().message(),
        "key must be a string at line 1 column 2",
    );
}

#[test]
fn tools_are_bound_to_what_carries_them_out() {
    assert_eq!(codex("web_search").map(|binding| binding.name()), Some("hosted"));
    assert!(codex("web_fetch").is_none());
    assert_eq!(ollama("web_search"), Some(Binding::Function(Executor::Ollama)));
    assert_eq!(ollama("web_fetch"), Some(Binding::Function(Executor::Ollama)));
    assert!(ollama("exec_command").is_none());
    assert_eq!(ollama_path("web_search").unwrap(), "web_search");
    assert_eq!(
        ollama_path("exec_command").unwrap_err().message(),
        "unsupported Ollama tool exec_command",
    );
}

#[test]
fn fetch_arguments() {
    let target = |text: &str| fetch_target(&json(text));
    let found = target(r#"{"url":"HTTPS://Example.com:8443/a b?q#f"}"#).unwrap();
    assert_eq!(found.url, "https://example.com:8443/a%20b?q#f");
    assert_eq!((found.host.as_str(), found.port), ("example.com", 8443));
    assert_eq!(
        target(r#"{"url":7}"#).unwrap_err().message(),
        "web_fetch requires string property `url`",
    );
    assert_eq!(
        target(r#"{"url":"/relative"}"#).unwrap_err().message(),
        "relative URL without a base",
    );
    assert_eq!(
        target(r#"{"url":"file:///etc/hosts"}"#).unwrap_err().message(),
        "web_fetch only supports HTTP and HTTPS",
    );
    let address = |host: Option<&str>, port| Address {
        scheme: "http".to_owned(),
        host: host.map(str::to_owned),
        port,
        text: "http://x/".to_owned(),
    };
    assert_eq!(
        judge_address(address(None, Some(80))).unwrap_err().message(),
        "web_fetch URL has no host",
    );
    assert_eq!(
        judge_address(address(Some("x"), None)).unwrap_err().message(),
        "URL has no known port",
    );
    assert_eq!(judge_address(address(Some("x"), Some(81))).unwrap().port, 81);
    assert_eq!(redirect_target("http://x/a", "b").unwrap().url, "http://x/b");
    assert_eq!(ToolError::NoKey.message(), "Ollama API key is unavailable");
    assert_eq!(ToolError::Conversion.message(), "failed to convert fetched HTML to Markdown");
}

#[test]
fn a_search_brings_a_key_where_there_is_one() {
    assert_eq!(exa_url(&None).unwrap(), "https://mcp.exa.ai/mcp");
    assert_eq!(exa_url(&Some("  ".to_owned())).unwrap(), "https://mcp.exa.ai/mcp");
    assert_eq!(
        exa_url(&Some(" a&b ".to_owned())).unwrap(),
        "https://mcp.exa.ai/mcp?exaApiKey=a%26b",
    );
}

#[test]
fn a_page_that_nests_too_deeply_is_refused() {
    let page = |depth: usize| "<div>".repeat(depth) + "x" + &"</div>".repeat(depth);
    let fetched = |depth| fetch_result("https://example.com/", "text/html", page(depth).as_bytes());
    assert_eq!(fetched(MAX_NESTING).unwrap().str_field("markdown"), Some("x"));
    assert_eq!(
        fetched(MAX_NESTING + 1).unwrap_err().message(),
        "web_fetch page is nested too deeply",
    );
    let levels = [
        "<table><td>", "<table><caption>", "<ul><li>", "<ol><li>", "<blockquote><p>", "<b><i>",
        "<a href=x><div>", "<li><dd>", "<h1><object>", "<pre><object>", "<template><div>",
    ];
    for level in levels {
        let deepest = level.repeat(MAX_NESTING / nesting_of(level)) + "x";
        assert!(fetch_result("https://example.com/", "text/html", deepest.as_bytes()).is_ok());
    }
    let wide = "<p>x</p>".repeat(MAX_NESTING * 4);
    assert!(fetch_result("https://example.com/", "text/html", wide.as_bytes()).is_ok());
}
