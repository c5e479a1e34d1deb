use atra::api::ollama_answer::decode_line;
use atra::json::Json;
use atra::provider::codex_auth::{exchange_answer, tokens_from_file, Tokens};
use atra::provider::codex_manager::renewal_answer;
use atra::provider::tool_binding::ollama_answer;
use atra::provider::{ollama, opencode_go};
use atra::record::{read_record, Shape};

fn shape() -> Shape {
    let inner = Shape::record().with_whole("x").with_whole("y");
    Shape::record().with_whole("a").with("b", inner).with("c", Shape::record().with_whole("z").list())
}

fn read(text: &str) -> Option<Json> {
    read_record(text.as_bytes(), &shape())
}

fn json(text: &str) -> Json {
    Json::parse(text).unwrap()
}

/// Values that a reader of whole values refuses, or that only one who reads them sees.
const ODD: [&str; 5] = ["1e999", "-1e999", r#""\ud800""#, r#"{"q":1,"q":2}"#, "[[],{},null]"];

#[test]
fn only_what_is_asked_for_is_read() {
    assert_eq!(read(r#" { "a" : 1 , "other" : [2] } "#), Some(json(r#"{"a":1}"#)));
    assert_eq!(read("{}"), Some(json("{}")));
    assert_eq!(
        read(r#"{"c":[{"z":1,"w":2},{"w":3},[4]],"b":{"y":[{"w":5}],"w":6}}"#),
        Some(Json::Object(vec![
            ("c".to_owned(), json(r#"[{"z":1},{},[4]]"#)),
            ("b".to_owned(), json(r#"{"y":[{"w":5}]}"#)),
        ])),
    );
    assert_eq!(read(r#"[1,[2],[[3]],{"k":4}]"#), Some(json(r#"[1,[2],[[3]],{"k":4}]"#)));
    assert_eq!(read("null"), Some(Json::Null));
    assert_eq!(read(r#"{"b":null,"c":{"z":1}}"#), Some(json(r#"{"b":null,"c":{"z":1}}"#)));
}

#[test]
fn what_is_not_asked_for_may_hold_anything() {
    for odd in ODD {
        let text = format!(r#"{{"other":{odd},"a":1,"other":{odd}}}"#);
        assert_eq!(read(&text), Some(json(r#"{"a":1}"#)), "{odd}");
    }
    let deep = "[".repeat(5000) + &"]".repeat(5000);
    assert_eq!(read(&format!(r#"{{"other":{deep},"a":1}}"#)), Some(json(r#"{"a":1}"#)));
    assert_eq!(read(&format!(r#"{{"a":{deep}}}"#)), None);
    assert_eq!(read_record(b"{\"other\":\"\xff\",\"a\":1}", &shape()), Some(json(r#"{"a":1}"#)));
    assert_eq!(read_record(b"{\"a\":\"\xff\"}", &shape()), None);
}

#[test]
fn what_is_asked_for_stands_once() {
    assert_eq!(read(r#"{"a":1,"a":1}"#), None);
    assert_eq!(read(r#"{"a":1,"\u0061":2}"#), None);
    assert_eq!(read(r#"{"b":{"x":1,"x":1}}"#), None);
    assert_eq!(read(r#"{"c":[{"z":1},{"z":2,"z":2}]}"#), None);
    assert_eq!(read(r#"{"a":1e999}"#), None);
    assert_eq!(read(r#"{"a":{"q":1,"q":2}}"#), Some(json(r#"{"a":{"q":2}}"#)));
}

#[test]
fn what_is_no_json_is_not_read() {
    for text in [
        "", " ", "{", r#"{"a":1"#, r#"{"a":1,}"#, r#"{"a" 1}"#, r#"{"a":1} x"#, r#"{"a":1},"#, "{a:1}",
        r#"{"other":1x}"#, r#"{"other":01}"#, r#"{"\ud800":1}"#, r#"{"a":,}"#, "[1 2]", "[1,]", r#"{1:2}"#,
    ] {
        assert_eq!(read(text), None, "{text}");
    }
}

#[test]
fn what_is_around_a_value_counts_for_its_depth() {
    let nested = |count: usize| "[".repeat(count) + &"]".repeat(count);
    assert!(read(&format!(r#"{{"a":{}}}"#, nested(126))).is_some());
    assert!(read(&format!(r#"{{"a":{}}}"#, nested(127))).is_none());
    assert!(read(&format!(r#"{{"b":{{"x":{}}}}}"#, nested(125))).is_some());
    assert!(read(&format!(r#"{{"b":{{"x":{}}}}}"#, nested(126))).is_none());
    assert!(Json::parse(&nested(127)).is_some());
    assert!(Json::parse(&nested(128)).is_none());
}

#[test]
fn lines_of_an_answer_are_read_as_records() {
    let chunk = |text: &str| decode_line(&text.as_bytes().to_vec()).map(|chunk| chunk.unwrap());
    let plain = chunk(r#"{"done":true,"eval_count":3}"#).unwrap();
    for odd in ODD {
        let text = format!(r#"{{"total":{odd},"done":true,"message":null,"eval_count":3}}"#);
        assert_eq!(chunk(&text).unwrap(), plain, "{odd}");
        let message = format!(r#"{{"message":{{"content":"a","images":{odd}}}}}"#);
        assert_eq!(chunk(&message).unwrap(), chunk(r#"{"message":{"content":"a"}}"#).unwrap());
    }
    assert!(chunk(r#"{"done":true,"done":true}"#).is_err());
    assert!(chunk(r#"{"message":{"content":"a","content":"b"}}"#).is_err());
    let call = r#"{"message":{"tool_calls":[{"function":{"name":"n","name":"n"}}]}}"#;
    assert!(chunk(call).is_err());
}

#[test]
fn logins_are_read_as_records() {
    let tokens = Tokens {
        id_token: "i".to_owned(),
        access_token: "a".to_owned(),
        refresh_token: "r".to_owned(),
        account_id: None,
    };
    let fields = r#""id_token":"i","access_token":"a","refresh_token":"r""#;
    for odd in ODD {
        let text = format!(r#"{{"other":{odd},"tokens":{{{fields},"other":{odd}}}}}"#);
        assert_eq!(tokens_from_file(&text).unwrap().as_ref(), Some(&tokens), "{odd}");
        let answer = format!(r#"{{{fields},"expires_in":{odd}}}"#);
        assert_eq!(exchange_answer(&answer).as_ref(), Some(&tokens));
        assert_eq!(renewal_answer(&tokens, &answer).as_ref(), Some(&tokens));
    }
    assert!(tokens_from_file(r#"{"tokens":null,"tokens":null}"#).is_none());
    assert!(exchange_answer(&format!(r#"{{{fields},"id_token":"i"}}"#)).is_none());
    assert!(renewal_answer(&tokens, r#"{"id_token":null,"id_token":"i"}"#).is_none());
    assert!(tokens_from_file(r#"{"last_refresh":1e999}"#).is_none());
}

#[test]
fn catalogs_are_read_as_records() {
    for odd in ODD {
        let listing = format!(r#"{{"models":[{{"model":"m","size":{odd}}}],"next":{odd}}}"#);
        let tags = ollama::tags_answer(listing.as_bytes()).unwrap();
        assert_eq!(tags.len(), 1);
        assert_eq!(tags[0].model, "m");
        let show = format!(r#"{{"license":{odd},"model_info":{{"x.context_length":7}}}}"#);
        assert_eq!(ollama::show_answer(show.as_bytes()).unwrap().context_window, Some(7));
        let listed = format!(r#"{{"object":{odd},"data":[{{"created":{odd},"id":"m"}}]}}"#);
        assert_eq!(opencode_go::listing_answer(listed.as_bytes()), Some(vec!["m".to_owned()]));
    }
    assert!(ollama::tags_answer(br#"{"models":[],"models":[]}"#).is_none());
    assert!(ollama::tags_answer(br#"{"models":[{"model":"m","model":"m"}]}"#).is_none());
    assert!(ollama::show_answer(br#"{"model_info":{},"model_info":{}}"#).is_none());
    assert!(opencode_go::listing_answer(br#"{"data":[{"id":"m","id":"m"}]}"#).is_none());
    assert!(opencode_go::listing_answer(b"").is_none());
}

#[test]
fn answers_to_tools_are_whole_values() {
    assert_eq!(ollama_answer("web_fetch", br#"{"a":[1]}"#).unwrap(), json(r#"{"a":[1]}"#));
    for body in [&b"{"[..], &b"\"\xff\""[..], &b"1e999"[..]] {
        assert_eq!(
            ollama_answer("web_fetch", body).unwrap_err().message(),
            "failed to decode Ollama web_fetch result",
        );
    }
}
