use mcp_editor_lsp_bridge::fault::Fault;
use mcp_editor_lsp_bridge::json::Json;
use mcp_editor_lsp_bridge::protocol::{
    document_change, edit_text, offset, position, read_message, text_at, write_message, Reading,
};
use mcp_editor_lsp_bridge::wire;

fn json(text: &str) -> Json {
    wire::parse(text.as_bytes()).expect("valid JSON")
}

fn edit(start: (u64, u64), end: (u64, u64), text: &str) -> Json {
    Json::object()
        .with(
            "range",
            Json::object()
                .with("start", position(start.0, start.1))
                .with("end", position(end.0, end.1)),
        )
        .with("newText", Json::text(text))
}

fn failed(input: &[u8], ended: bool) -> Option<Fault> {
    match read_message(input, ended) {
        Reading::Failed(failure) => Some(failure.fault),
        _ => None,
    }
}

fn failure_words(input: &[u8]) -> String {
    match read_message(input, true) {
        Reading::Failed(failure) => failure.message(),
        _ => panic!("not failed"),
    }
}

#[test]
fn unicode_and_crlf() {
    assert_eq!(document_change("a\r\n😀", "", true).at("range").at("end"), &position(1, 2));
    assert_eq!(document_change("a\n", "", true).at("range").at("end"), &position(1, 0));
    assert_eq!(document_change("", "x", false), json(r#"{"text":"x"}"#));
    let text = "a😀b\r\n雪x";
    assert_eq!(offset(text, &position(0, 3)).unwrap(), 5);
    assert!(offset(text, &position(0, 2)).is_err());
    assert_eq!(
        edit_text(
            text,
            &[json(
                r#"{"range":{"start":{"line":1,"character":0},"end":{"line":1,"character":1}},"newText":"z"}"#
            )]
        )
        .unwrap(),
        "a😀b\r\nzx"
    );
}

#[test]
fn positions_are_refused_for_their_reasons() {
    let text = "a😀b\r\n雪x";
    assert_eq!(offset(text, &json("{}")), Err(Fault::MissingLine));
    assert_eq!(offset(text, &json(r#"{"line":0}"#)), Err(Fault::MissingCharacter));
    assert_eq!(offset(text, &json(r#"{"line":-1,"character":0}"#)), Err(Fault::MissingLine));
    assert_eq!(offset(text, &position(2, 0)), Err(Fault::LineOutOfRange));
    assert_eq!(offset(text, &position(u64::MAX, 0)), Err(Fault::LineOutOfRange));
    assert_eq!(offset(text, &position(0, 5)), Err(Fault::CharacterOutOfRange));
    assert_eq!(offset(text, &position(1, 3)), Err(Fault::CharacterOutOfRange));
    assert_eq!(offset(text, &position(0, 2)), Err(Fault::SplitsSurrogatePair));
    assert_eq!(offset(text, &position(0, 4)), Ok(6));
    assert_eq!(offset(text, &position(1, 2)), Ok(text.len()));
    assert_eq!(offset("", &position(0, 0)), Ok(0));
}

#[test]
fn edits_are_made_together_or_not_at_all() {
    let text = "one two three";
    let both = [edit((0, 8), (0, 13), "3"), edit((0, 0), (0, 3), "1")];
    assert_eq!(edit_text(text, &both).unwrap(), "1 two 3");
    let inserts = [edit((0, 3), (0, 3), "A"), edit((0, 3), (0, 3), "B")];
    assert_eq!(edit_text(text, &inserts).unwrap(), "oneAB two three");
    let touching = [edit((0, 0), (0, 3), "1"), edit((0, 3), (0, 4), "-")];
    assert_eq!(edit_text(text, &touching).unwrap(), "1-two three");
    let overlapping = [edit((0, 0), (0, 5), "x"), edit((0, 4), (0, 6), "y")];
    assert_eq!(edit_text(text, &overlapping), Err(Fault::OverlappingEdits));
    assert_eq!(edit_text(text, &[edit((0, 3), (0, 1), "x")]), Err(Fault::OverlappingEdits));
    assert_eq!(edit_text(text, &[]).unwrap(), text);
    let nothing = json(
        r#"{"range":{"start":{"line":0,"character":0},"end":{"line":0,"character":0}}}"#,
    );
    assert_eq!(edit_text(text, &[nothing]), Err(Fault::MissingNewText));
    assert_eq!(
        edit_text(text, &[edit((0, 0), (0, 1), "x"), edit((9, 0), (9, 0), "y")]),
        Err(Fault::LineOutOfRange)
    );
}

#[test]
fn ranges_give_their_texts() {
    let text = "let 雪 = 1;";
    assert_eq!(text_at(text, &position(0, 4), &position(0, 5)), Ok(Some("雪".to_string())));
    assert_eq!(text_at(text, &position(0, 5), &position(0, 4)), Ok(None));
    assert_eq!(text_at(text, &position(0, 5), &position(1, 4)), Err(Fault::LineOutOfRange));
}

#[test]
fn changes_span_the_old_document() {
    let change = document_change("x\ry\n\rz😀", "new", true);
    assert_eq!(change.at("text").as_str(), Some("new"));
    assert_eq!(change.at("range").at("start"), &position(0, 0));
    assert_eq!(change.at("range").at("end"), &position(3, 3));
    assert!(!document_change("x", "new", false).has("range"));
}

#[test]
fn changes_give_the_new_document() {
    let replaced = |old: &str, new: &str| {
        let change = document_change(old, new, true);
        let edit = Json::object()
            .with("range", change.at("range").copy())
            .with("newText", change.at("text").copy());
        edit_text(old, &[edit])
    };
    for old in ["", "a", "a\n", "\r\n😀\nb", "one\ntwo 雪"] {
        assert_eq!(replaced(old, "new\ntext"), Ok("new\ntext".to_string()));
    }
    assert_eq!(replaced("a\rb", "new"), Err(Fault::LineOutOfRange));
}

#[test]
fn messages_are_framed_and_read_back() {
    let value = json(r#"{"jsonrpc":"2.0","method":"initialized","params":{"text":"😀"}}"#);
    let mut bytes = write_message(&value);
    let body = wire::render(&value);
    let header = format!("Content-Length: {}\r\n\r\n", body.len());
    assert_eq!(&bytes[..header.len()], header.as_bytes());
    assert_eq!(&bytes[header.len()..], &body[..]);
    let whole = bytes.len();
    bytes.extend_from_slice(b"Content-Length: 9");
    for ended in [false, true] {
        match read_message(&bytes, ended) {
            Reading::Message { value: read, length } => {
                assert_eq!(read, value);
                assert_eq!(length, whole);
            }
            _ => panic!("no message"),
        }
    }
    for cut in 0..whole {
        assert!(matches!(read_message(&bytes[..cut], false), Reading::More), "{cut}");
    }
}

#[test]
fn messages_are_read_in_turn() {
    let mark = "$serde_json::private::RawValue";
    let first = json(r#"{"text":"雪"}"#);
    let second = Json::object().with(mark, Json::text("5")).with("", Json::null());
    let mut bytes = write_message(&first);
    bytes.extend_from_slice(&write_message(&second));
    for value in [first, second] {
        let length = match read_message(&bytes, true) {
            Reading::Message { value: read, length } => {
                assert_eq!(read, value);
                length
            }
            _ => panic!("no message"),
        };
        bytes.drain(..length);
    }
    assert!(matches!(read_message(&bytes, true), Reading::Ended));
}

#[test]
fn failures_of_messages_are_worded() {
    for (length, words) in [
        ("", "cannot parse integer from empty string"),
        ("x", "invalid digit found in string"),
        ("-1", "invalid digit found in string"),
        ("+", "invalid digit found in string"),
        ("99999999999999999999", "number too large to fit in target type"),
    ] {
        let header = format!("Content-Length: {length}\r\n\r\n");
        assert_eq!(failure_words(header.as_bytes()), words);
        assert_eq!(length.parse::<usize>().unwrap_err().to_string(), words);
    }
    assert_eq!(
        failure_words(b"Content-Length: 2\r\n\r\n{x"),
        "key must be a string at line 1 column 2"
    );
    assert_eq!(failure_words(b"Content-Length: 1\r\n\r\n"), "early eof");
    assert_eq!(failure_words(b"\xff\r\n"), "stream did not contain valid UTF-8");
    assert_eq!(failure_words(b"\r\n"), "Missing Content-Length");
}

#[test]
fn headers_are_read_leniently_and_bodies_strictly() {
    let read = |input: &[u8]| match read_message(input, true) {
        Reading::Message { value, .. } => Some(value),
        _ => None,
    };
    assert_eq!(read(b"content-length:2\nX: y\n\n{}"), Some(Json::object()));
    assert_eq!(read(b"Content-Length: 9\r\nContent-Length: 2\r\n\r\n{}"), Some(Json::object()));
    assert!(matches!(read_message(b"", true), Reading::Ended));
    assert!(matches!(read_message(b"Content-Length: 2\r\n", true), Reading::Ended));
    assert!(matches!(read_message(b"Content-Length: 2", true), Reading::Ended));
    assert_eq!(failed(b"Content-Length: x\r\n", false), Some(Fault::InvalidLength));
    assert_eq!(failed(b"Content-Length: x", true), Some(Fault::InvalidLength));
    assert_eq!(failed(b"\xff\r\n", false), Some(Fault::HeaderNotText));
    assert_eq!(failed(b"\r\n", false), Some(Fault::MissingLength));
    assert_eq!(failed(b"Content-Length: 33554433\r\n\r\n", false), Some(Fault::MessageTooLarge));
    assert_eq!(failed(b"Content-Length: 3\r\n\r\n{}", true), Some(Fault::MessageCutShort));
    assert_eq!(failed(b"Content-Length: 2\r\n\r\n{x", false), Some(Fault::InvalidJson));
}
