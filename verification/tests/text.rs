use atra::codec::{
    digest_text, digest_url, frame_blob, hex_text, lossy_text, object_blob, url_bytes, url_text,
};
use atra::json::Json;
use atra::order::{is_before, order_by, order_pairs, order_texts, sort_ids, sort_ids_descending};
use atra::passage::{
    contains_part, leading_chars, replace_parts, split_part, strip_prefix, strip_suffix,
    text_lines,
};
use atra::path::{
    is_absolute, is_strict_descendant, path_parts, path_starts_with, same_path, split_paths, Part,
};
use atra::text::{
    ascii_lowercase, decimal_text, ends_with, is_blank, join, one_line, single_spaced, split_once,
    starts_with, tail_chars, trim, truncate_chars, word_list,
};
use atra::tokens::text_tokens;

fn texts(list: &[&str]) -> Vec<String> {
    list.iter().map(|text| (*text).to_owned()).collect()
}

#[test]
fn numbers_are_written_out() {
    assert_eq!(decimal_text(0), "0");
    assert_eq!(decimal_text(-120), "-120");
    assert_eq!(decimal_text(u64::MAX as i128), "18446744073709551615");
}

#[test]
fn text_on_one_line() {
    assert_eq!(one_line("a\nb\r\tc"), "a b c");
    assert_eq!(single_spaced("  a\n b\u{3000}c "), "a b c");
    assert_eq!(word_list(" a  b\t"), texts(&["a", "b"]));
}

#[test]
fn long_text_is_cut() {
    assert_eq!(truncate_chars("abcdef", 4), "a...");
    assert_eq!(truncate_chars("abcd", 4), "abcd");
    assert_eq!(tail_chars("abcdef", 5), "...ef");
    assert_eq!(leading_chars("éàü", 2), "éà");
}

#[test]
fn space_around_text() {
    assert_eq!(trim(" \ta b\u{85}"), "a b");
    assert_eq!(trim(&trim("  x ")), "x");
    assert!(is_blank(" \n\u{2003}"));
    assert!(!is_blank(" . "));
}

#[test]
fn parts_of_text() {
    assert!(starts_with("abc", "ab"));
    assert!(!starts_with("abc", "abcd"));
    assert!(ends_with("abc", "bc"));
    assert!(!ends_with("abc", "b"));
    assert_eq!(strip_prefix("data: x", "data: "), Some("x".to_owned()));
    assert_eq!(strip_prefix("x", "data: "), None);
    assert_eq!(strip_suffix("x.zip", ".zip"), Some("x".to_owned()));
    assert_eq!(split_once("a=b=c", '='), Some(("a".to_owned(), "b=c".to_owned())));
    assert_eq!(split_once("abc", '='), None);
    assert_eq!(split_part("a.b.c", '.', 1), Some("b".to_owned()));
    assert_eq!(split_part("a.b", '.', 2), None);
    assert!(contains_part("text/html; charset", "text/html"));
    assert!(!contains_part("text/htm", "text/html"));
    assert_eq!(replace_parts("aXbXX", "X", "--"), "a--b----");
    assert_eq!(join(&texts(&["a", "b", "c"]), ", "), "a, b, c");
    assert_eq!(ascii_lowercase("AbÉ"), "abÉ");
}

#[test]
fn lines_of_text() {
    assert_eq!(text_lines("a\r\nb\n\nc"), texts(&["a", "b", "", "c"]));
    assert_eq!(text_lines("a\n"), texts(&["a"]));
    assert!(text_lines("").is_empty());
}

#[test]
fn digests() {
    assert_eq!(
        digest_text(b"abc"),
        "ba7816bf8f01cfea414140de5dae2223b00361a396177a9cb410ff61f20015ad",
    );
    assert_eq!(digest_url(b"abc"), "ungWv48Bz-pBQUDeXa4iI7ADYaOWF3qctBD_YfIAFa0");
    assert_eq!(hex_text(&vec![0x0f, 0xa0]), "0fa0");
}

#[test]
fn bytes_as_text() {
    assert_eq!(url_text(&[0xfb, 0xff]), "-_8");
    assert_eq!(url_bytes("-_8"), Some(vec![0xfb, 0xff]));
    assert_eq!(url_bytes("-_8="), None);
    assert_eq!(url_bytes("+/8"), None);
    assert_eq!(lossy_text(b"a\xffb"), "a\u{fffd}b");
}

#[test]
fn objects_are_compressed() {
    let object = vec![b'x'; 10_000];
    let blob = object_blob(&object).unwrap();
    assert!(blob.len() < 100);
    assert!(blob.starts_with("KLUv/"));
    assert_eq!(frame_blob(Some(vec![0xff, 0xef])), Some("/+8=".to_owned()));
    assert_eq!(frame_blob(None), None);
}

#[test]
fn orders() {
    assert_eq!(order_by(&vec![5, 1, 5, 0]), vec![3, 1, 0, 2]);
    assert_eq!(sort_ids(&vec![3, -1, 2]), vec![-1, 2, 3]);
    assert_eq!(sort_ids_descending(&vec![3, -1, 2]), vec![3, 2, -1]);
    assert_eq!(order_texts(&texts(&["b", "a", "ab"])), vec![1, 2, 0]);
    assert_eq!(order_pairs(&vec![2, 1, 1], &texts(&["a", "b", "a"])), vec![2, 1, 0]);
    assert!(is_before("a", "ab"));
    assert!(is_before("Z", "a"));
    assert!(!is_before("a", "a"));
}

#[test]
fn paths() {
    let bytes = |text: &str| text.as_bytes().to_vec();
    assert_eq!(
        path_parts(&bytes("/a//./b/..")),
        vec![
            Part::Root,
            Part::Normal(bytes("a")),
            Part::Normal(bytes("b")),
            Part::Parent,
        ],
    );
    assert_eq!(path_parts(&bytes("./a")), vec![Part::Current, Part::Normal(bytes("a"))]);
    assert!(path_starts_with(&bytes("/a/b"), &bytes("/a/")));
    assert!(!path_starts_with(&bytes("/ab"), &bytes("/a")));
    assert!(same_path(&bytes("/a/b/"), &bytes("/a//b")));
    assert!(is_strict_descendant(&bytes("/a/b"), &bytes("/a")));
    assert!(!is_strict_descendant(&bytes("/a"), &bytes("/a/")));
    assert!(is_absolute(&bytes("/a")));
    assert!(!is_absolute(&bytes("a")));
    assert_eq!(split_paths(&bytes("/a::/b")), vec![bytes("/a"), bytes(""), bytes("/b")]);
}

#[test]
fn documents_are_read_and_written() {
    let value = Json::parse(r#"{"a":[1,-2,2.5,"x",null,true],"b":{}}"#).unwrap();
    assert_eq!(value.field("a").as_array().unwrap().len(), 6);
    assert_eq!(value.to_text(), r#"{"a":[1,-2,2.5,"x",null,true],"b":{}}"#);
    assert_eq!(value.field("c"), Json::Null);
    assert!(Json::parse("{").is_none());
    assert_eq!(Json::parse("18446744073709551615").unwrap().as_u64(), Some(u64::MAX));
    assert_eq!(Json::parse("18446744073709551615").unwrap().as_i64(), None);
    let config = Json::parse_toml("a = 1\n[b]\nc = \"d\"\n").unwrap();
    assert_eq!(config.field("a").as_i64(), Some(1));
    assert_eq!(config.nested("b", "c").as_str(), Some("d"));
    assert!(Json::parse_toml("a = ").is_none());
}

#[test]
fn tokens_are_counted() {
    assert_eq!(text_tokens(""), Some(0));
    assert_eq!(text_tokens("hello world"), Some(2));
    assert_eq!(text_tokens("<|endoftext|>"), Some(7));
    assert_eq!(text_tokens(&" ".repeat(1_100_000)), None);
}
