use mcp_editor_lsp_bridge::escape;
use mcp_editor_lsp_bridge::fault::{Failure, Fault};
use mcp_editor_lsp_bridge::json::Json;
use mcp_editor_lsp_bridge::order;
use mcp_editor_lsp_bridge::path;
use mcp_editor_lsp_bridge::table::Table;
use mcp_editor_lsp_bridge::text;
use mcp_editor_lsp_bridge::uri;
use mcp_editor_lsp_bridge::wire;
use std::path::{Path, PathBuf};

fn json(text: &str) -> Json {
    wire::parse(text.as_bytes()).expect("valid JSON")
}

#[test]
fn texts_are_decoded_only_if_they_are_utf8() {
    assert_eq!(text::decode("a😀".as_bytes()), Some("a😀".to_string()));
    assert_eq!(text::decode(&[0xff, 0x41]), None);
    assert_eq!(text::decode(&[0xf0, 0x9f]), None);
}

#[test]
fn characters_have_their_widths() {
    for ch in ['a', 'é', '雪', '😀', '\u{ffff}', '\u{10000}'] {
        assert_eq!(text::char_units(ch), ch.len_utf16());
        assert_eq!(text::char_bytes(ch), ch.len_utf8());
        assert_eq!(text::blank(ch), ch.is_whitespace());
    }
    for code in 0..0x3100u32 {
        let ch = char::from_u32(code).unwrap();
        assert_eq!(text::blank(ch), ch.is_whitespace(), "{code:x}");
    }
}

#[test]
fn text_helpers_agree_with_the_standard_library() {
    for sample in ["", " a ", "\u{a0}x\u{2003}", "a.b.c", "tsconfig.json", "  ", "a\r\nb\n\nc\r"] {
        assert_eq!(text::trim(sample), sample.trim());
        assert_eq!(text::is_all_blank(sample), sample.trim().is_empty());
        assert_eq!(text::starts_with(sample, "tsconfig"), sample.starts_with("tsconfig"));
        assert_eq!(text::contains(sample, ".b"), sample.contains(".b"));
        assert_eq!(text::contains(sample, ""), sample.contains(""));
        assert_eq!(text::lines(sample), sample.lines().map(String::from).collect::<Vec<_>>());
        assert_eq!(text::replace_char(sample, 'a', 'b'), sample.replace('a', "b"));
    }
    assert_eq!(text::strip_prefix("Version 7", "Version "), Some("7".to_string()));
    assert_eq!(text::strip_prefix("7", "Version "), None);
    assert!(text::before("a", "b") && text::before("a", "ab") && !text::before("b", "a"));
    assert!(text::same_ignoring_case("Content-LENGTH", "content-length"));
    assert!(!text::same_ignoring_case("É", "é"));
    assert_eq!(text::join(&vec!["a".to_string(), "b".to_string()], ","), "a,b");
}

#[test]
fn numbers_are_written_and_read_back() {
    for n in [0, 7, 10, 4294967295, u64::MAX] {
        assert_eq!(text::decimal_text(n), n.to_string());
        assert_eq!(text::parse_number(&n.to_string(), u64::MAX), Some(n));
    }
    assert_eq!(text::parse_number("+12", 100), Some(12));
    assert_eq!(text::parse_number("0012", 100), Some(12));
    for wrong in ["", "+", "-1", "1x", " 1", "++1"] {
        assert_eq!(text::parse_number(wrong, 100), None, "{wrong}");
    }
    assert_eq!(text::parse_number("101", 100), None);
    assert_eq!(text::parse_number("99999999999999999999999", u64::MAX), None);
}

#[test]
fn paths_agree_with_the_standard_library() {
    let samples = [
        "", "/", "//", ".", "..", "a", "/a", "a/", "/a/b", "a//b", "./a", "a/./b", "/./a", "a/..",
        "/a/b.rs", ".rs", "a.tar.gz", "..a", "/a/.hidden", "./", "a/.", "/tmp/x.TS", "b.",
    ];
    for sample in samples {
        let real = Path::new(sample);
        assert_eq!(path::is_absolute(sample), real.is_absolute(), "{sample}");
        assert_eq!(
            path::file_name(sample),
            real.file_name().map(|n| n.to_str().unwrap().to_string()),
            "{sample}"
        );
        assert_eq!(
            path::extension(sample),
            real.extension().map(|n| n.to_str().unwrap().to_string()),
            "{sample}"
        );
        assert_eq!(
            path::parent(sample),
            real.parent().map(|n| n.to_str().unwrap().to_string()),
            "{sample}"
        );
        assert_eq!(
            path::ancestors(sample),
            real.ancestors().map(|n| n.to_str().unwrap().to_string()).collect::<Vec<_>>(),
            "{sample}"
        );
        assert_eq!(
            path::components_list(sample),
            real.components()
                .map(|n| n.as_os_str().to_str().unwrap().to_string())
                .collect::<Vec<_>>(),
            "{sample}"
        );
        for other in samples {
            let base = Path::new(other);
            assert_eq!(path::starts_with(sample, other), real.starts_with(base), "{sample} {other}");
            assert_eq!(
                path::strip_prefix(sample, other),
                real.strip_prefix(base).ok().map(|n| n.to_str().unwrap().to_string()),
                "{sample} {other}"
            );
            assert_eq!(
                path::join(sample, other),
                real.join(base).to_str().unwrap(),
                "{sample} {other}"
            );
        }
    }
}

#[test]
fn tables_keep_their_keys_in_order() {
    let mut table: Table<u64> = Table::new();
    for (key, value) in [("b", 1), ("a", 2), ("c", 3), ("b", 4)] {
        table.insert(key, value);
    }
    assert_eq!(table.len(), 3);
    assert_eq!(table.key_list(), vec!["a", "b", "c"]);
    assert_eq!(table.get("b"), Some(&4));
    assert_eq!(table.remove("a"), Some(2));
    assert_eq!(table.remove("a"), None);
    table.remove_all(&vec!["c".to_string(), "x".to_string()]);
    assert_eq!(table.key_list(), vec!["b"]);
    assert!(table.contains("b") && !table.contains("c"));
}

#[test]
fn json_is_read_and_written() {
    let text = r#"{"a":[1,-2,1.5,true,null,"x\n"],"b":{"c":18446744073709551615}}"#;
    let value = json(text);
    assert_eq!(value.at("a").item(0).as_u64(), Some(1));
    assert_eq!(value.at("a").item(1).as_i64(), Some(-2));
    assert_eq!(value.at("a").item(2).as_u64(), None);
    assert_eq!(value.at("a").item(2).as_i64(), None);
    assert_eq!(value.at("a").item(3).as_bool(), Some(true));
    assert!(value.at("a").item(4).is_null());
    assert_eq!(value.at("a").item(5).as_str(), Some("x\n"));
    assert_eq!(value.at("b").at("c").as_u64(), Some(u64::MAX));
    assert_eq!(value.at("b").at("c").as_i64(), None);
    assert!(value.at("missing").is_null() && value.item(9).is_null());
    assert_eq!(wire::render_text(&value), text);
    assert_eq!(wire::parse(&wire::render(&value)), Some(value.copy()));
    assert_eq!(value.copy(), value);
    assert_eq!(wire::parse(b"{"), None);
    assert_eq!(
        wire::parse_or_explain(b"{bad"),
        Err("key must be a string at line 1 column 2".to_string())
    );
    assert_eq!(wire::parse_or_explain(b"[1]"), Ok(json("[1]")));
    let outside = wire::to_value(&value);
    assert_eq!(outside, serde_json::from_str::<serde_json::Value>(text).unwrap());
    assert_eq!(wire::from_value(outside), value);
}

#[test]
fn nesting_is_read_back_up_to_its_limit() {
    let nested = |depth: usize| {
        let mut value = Json::null();
        for _ in 0..depth {
            value = Json::array(vec![value]);
        }
        value
    };
    let deepest = nested(127);
    assert_eq!(wire::parse(&wire::render(&deepest)), Some(deepest));
    assert_eq!(wire::parse(&wire::render(&nested(128))), None);
}

#[test]
fn objects_are_built_and_changed() {
    let mut value = Json::object().with("a", Json::number(1)).with("a", Json::number(2));
    value.set_inner("cargo", "features", Json::text("all"));
    assert_eq!(value, json(r#"{"a":2,"cargo":{"features":"all"}}"#));
    value.remove("a");
    assert_eq!(value, json(r#"{"cargo":{"features":"all"}}"#));
    let mut empty = Json::null();
    empty.set("x", Json::boolean(true));
    assert_eq!(empty, json(r#"{"x":true}"#));
    assert_eq!(Json::text("t").with("x", Json::null()), Json::text("t"));
    assert_eq!(Json::integer(-3), json("-3"));
    assert_eq!(Json::integer(3), json("3"));
    assert_eq!(Json::texts(&vec!["p".to_string()]), json(r#"["p"]"#));
    assert_eq!(Json::optional_text(&None), Json::null());
}

#[test]
fn marked_raw_values_are_not_read_back() {
    let mark = "$serde_json::private::RawValue";
    let value = Json::object().with(mark, Json::text("[1]"));
    let bytes = wire::render(&value);
    assert_eq!(bytes, br#"{"$serde_json::private::RawValue":"[1]"}"#);
    assert_ne!(wire::parse(&bytes), Some(value));
}

#[test]
fn paths_are_ordered_by_components() {
    let list = |paths: &[&str]| paths.iter().map(|path| path.to_string()).collect::<Vec<_>>();
    let sorted = order::arrange(list(&["b", "/a-b", "..", "/a/c", "/a", ".", "/", "/a/b/c", "/a/b"]));
    assert_eq!(sorted, list(&["/", "/a", "/a/b", "/a/b/c", "/a/c", "/a-b", ".", "..", "b"]));
    let mut paths: Vec<PathBuf> = sorted.iter().rev().map(PathBuf::from).collect();
    paths.sort();
    assert_eq!(paths, sorted.iter().map(PathBuf::from).collect::<Vec<_>>());
    assert_eq!(order::arrange(list(&["/b", "/a", "/b"])), list(&["/a", "/b", "/b"]));
    assert_eq!(order::arrange(list(&[])), list(&[]));
}

#[test]
fn paths_that_are_no_texts_have_texts() {
    assert_eq!(escape::text_of_path("/tmp/雪".as_bytes()), "/tmp/雪");
    assert_eq!(escape::bytes_of_path("/tmp/雪"), "/tmp/雪".as_bytes());
    assert_eq!(escape::text_of_path("/é\u{fffd}".as_bytes()), "/é\u{fffd}");
    let cases: [(&[u8], &str); 5] = [
        (b"/a\xff.rs", "/a\0FF.rs"),
        (b"/\xe9\x9b/\xe9\x9b\xaa", "/\0E9\09B/雪"),
        (b"\x00", "\x0000"),
        (b"\x00FF", "\x0000FF"),
        (b"\xed\xa0\x80", "\0ED\0A0\080"),
    ];
    for (bytes, text) in cases {
        assert_eq!(escape::text_of_path(bytes), text);
        assert_eq!(escape::bytes_of_path(text), bytes);
        assert_eq!(escape::show(text), String::from_utf8_lossy(bytes));
    }
    assert_eq!(escape::show("/tmp/a b"), "/tmp/a b");
    assert_eq!(escape::show("/\0E9\09B/x"), "/\u{fffd}/x");
    assert_eq!(uri::file_uri("/a\0FF b\x0000%.rs").unwrap(), "file:///a%FF%20b%00%25.rs");
    assert_eq!(uri::directory_uri("/a\0FF").unwrap(), "file:///a%FF/");
    let path = uri::file_path("file:///a%FF%20b%00%25.rs", Fault::InvalidUri).unwrap();
    assert_eq!(escape::text_of_path(&path), "/a\0FF b\x0000%.rs");
    let failure = Failure::at(Fault::StaleFile, "/a\0FF");
    assert_eq!(failure.message(), "Stale refactor: /a\u{fffd} changed; no edits applied");
    let sorted = order::arrange(vec!["/\0FF".to_string(), "/a".to_string(), "/é".to_string()]);
    assert_eq!(sorted, vec!["/a", "/é", "/\0FF"]);
}

#[test]
fn files_have_uris_and_uris_have_files() {
    assert_eq!(uri::file_uri("/tmp/a b.rs").unwrap(), "file:///tmp/a%20b.rs");
    assert_eq!(uri::file_uri("tmp/a.rs"), Err(Fault::InvalidPath));
    assert_eq!(uri::directory_uri("/tmp/x").unwrap(), "file:///tmp/x/");
    assert_eq!(uri::directory_uri("x"), Err(Fault::InvalidWorkspacePath));
    let path = |text: &str| uri::file_path(text, Fault::InvalidUri);
    assert_eq!(path("file:///tmp/a%20b.rs").unwrap(), b"/tmp/a b.rs");
    assert_eq!(path("file://other/tmp/a.rs"), Err(Failure::plain(Fault::InvalidUri)));
    assert_eq!(path("file:///tmp/%FF").unwrap(), b"/tmp/\xff");
    let error = path("not a url").unwrap_err();
    assert_eq!(error.fault, Fault::UnreadableUrl);
    assert_eq!(error.message(), "relative URL without a base");
}

#[test]
fn failures_are_worded() {
    assert_eq!(Failure::plain(Fault::LineOutOfRange).message(), "Line out of range");
    assert_eq!(
        Failure::of(Fault::StaleFile, "/a.rs").message(),
        "Stale refactor: /a.rs changed; no edits applied"
    );
    assert_eq!(
        Failure::of(Fault::VtslsEntryShape, "vtsls").message(),
        "vtsls_settings.vtsls must be an object"
    );
}
