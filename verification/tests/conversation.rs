use mcp_editor_lsp_bridge::companion::{event_answer, events_url, version, Companion, CompanionStep};
use mcp_editor_lsp_bridge::fault::Fault;
use mcp_editor_lsp_bridge::json::Json;
use mcp_editor_lsp_bridge::language::{rust_spec, Language, ServerSpec};
use mcp_editor_lsp_bridge::lsp::{notification, retries, Lsp, Reaction};
use mcp_editor_lsp_bridge::wire;
use mcp_editor_lsp_bridge::workspace::{Config, SyncEvent};

fn json(text: &str) -> Json {
    wire::parse(text.as_bytes()).expect("valid JSON")
}

fn server(section: &'static str, settings: &str, server_status: bool) -> Lsp {
    Lsp::new(&ServerSpec {
        name: "test-server",
        command: "test".to_string(),
        args: vec![],
        settings: json(settings),
        section,
        server_status,
    })
}

fn reply(lsp: &mut Lsp, message: &str) -> Json {
    match lsp.receive(&json(message)) {
        Reaction::Reply(reply) => reply,
        _ => panic!("no reply"),
    }
}

fn event(step: Result<CompanionStep, mcp_editor_lsp_bridge::fault::Failure>) -> SyncEvent {
    match step.unwrap() {
        CompanionStep::Send(event) => event,
        _ => panic!("nothing sent"),
    }
}

#[test]
fn configuration_is_answered_by_section() {
    let mut lsp = server("rust-analyzer", r#"{"cargo":{"features":["a"]},"checkOnSave":false}"#, true);
    let answer = reply(
        &mut lsp,
        r#"{"id":7,"method":"workspace/configuration","params":{"items":[{"section":"rust-analyzer"},{"section":"rust-analyzer.cargo.features"},{"section":"rust-analyzer.rust-analyzer.checkOnSave"},{},{"section":"nothing.here"}]}}"#,
    );
    assert_eq!(answer.at("jsonrpc").as_str(), Some("2.0"));
    assert_eq!(answer.at("id").as_u64(), Some(7));
    assert_eq!(
        answer.at("result"),
        &json(
            r#"[{"cargo":{"features":["a"]},"checkOnSave":false},["a"],false,{"cargo":{"features":["a"]},"checkOnSave":false},null]"#
        )
    );
    let mut whole = server("", r#"{"typescript":{"tsdk":"/x"}}"#, false);
    let answer = reply(
        &mut whole,
        r#"{"id":"a","method":"workspace/configuration","params":{"items":[{"section":"typescript"},{"section":".typescript.tsdk"}]}}"#,
    );
    assert_eq!(answer.at("result"), &json(r#"[{"tsdk":"/x"},"/x"]"#));
}

#[test]
fn server_requests_are_answered_or_refused() {
    let mut lsp = server("s", "{}", true);
    let edit = reply(&mut lsp, r#"{"id":1,"method":"workspace/applyEdit","params":{}}"#);
    assert_eq!(edit.at("result").at("applied"), &Json::boolean(false));
    for method in [
        "workspace/diagnostic/refresh",
        "workspace/semanticTokens/refresh",
        "workspace/inlayHint/refresh",
        "window/workDoneProgress/create",
        "client/registerCapability",
        "client/unregisterCapability",
    ] {
        let answer = reply(&mut lsp, &format!(r#"{{"id":2,"method":"{method}"}}"#));
        assert!(answer.has("result") && answer.at("result").is_null());
    }
    let refused = reply(&mut lsp, r#"{"id":3,"method":"window/showMessageRequest"}"#);
    assert_eq!(
        refused,
        json(
            r#"{"jsonrpc":"2.0","id":3,"error":{"code":-32601,"message":"Unsupported client request"}}"#
        )
    );
}

#[test]
fn notifications_change_the_analysis() {
    let mut lsp = server("s", "{}", true);
    assert_eq!(lsp.state.status, "initializing");
    lsp.begun();
    assert!(!lsp.state.ready);
    let status = |lsp: &mut Lsp, params: &str| {
        lsp.receive(
            &Json::object()
                .with("method", Json::text("experimental/serverStatus"))
                .with("params", json(params)),
        );
    };
    status(&mut lsp, r#"{"quiescent":false,"health":"ok"}"#);
    assert_eq!((lsp.state.ready, lsp.state.status.as_str()), (false, "indexing"));
    status(&mut lsp, r#"{"quiescent":true,"health":"error","message":"broken"}"#);
    assert_eq!((lsp.state.ready, lsp.state.status.as_str()), (false, "broken"));
    status(&mut lsp, r#"{"quiescent":true,"health":"ok"}"#);
    assert_eq!((lsp.state.ready, lsp.state.status.as_str()), (true, "ready"));
    lsp.receive(&json(
        r#"{"method":"textDocument/publishDiagnostics","params":{"uri":"u","diagnostics":[1]}}"#,
    ));
    assert!(lsp.state.diagnostics.contains("u"));
    lsp.drop_diagnostics("u");
    assert!(!lsp.state.diagnostics.contains("u"));
    let summary = lsp.summary(Language::Rust, Some(9));
    assert_eq!(
        summary,
        json(r#"{"language":"rust","backend":"test-server","pid":9,"ready":true,"status":"ready"}"#)
    );
    let mut plain = server("s", "{}", false);
    plain.begun();
    assert_eq!((plain.state.ready, plain.state.status.as_str()), (true, "ready"));
}

#[test]
fn answers_reach_the_one_who_waits() {
    let mut lsp = server("s", "{}", true);
    let (first, message) = lsp.request("textDocument/hover", json(r#"{"x":1}"#));
    assert_eq!(
        message,
        json(r#"{"jsonrpc":"2.0","id":1,"method":"textDocument/hover","params":{"x":1}}"#)
    );
    let (second, _) = lsp.request("shutdown", Json::null());
    assert_eq!((first, second), (1, 2));
    match lsp.receive(&json(r#"{"id":1,"result":{"ok":true}}"#)) {
        Reaction::Resolve { id, result } => {
            assert_eq!(id, 1);
            assert_eq!(result.unwrap(), json(r#"{"ok":true}"#));
        }
        _ => panic!("not resolved"),
    }
    assert!(matches!(lsp.receive(&json(r#"{"id":1,"result":1}"#)), Reaction::Nothing));
    match lsp.receive(&json(r#"{"id":2,"error":{"code":-32801}}"#)) {
        Reaction::Resolve { result, .. } => {
            let words = result.unwrap_err().message();
            assert_eq!(words, r#"LSP: {"code":-32801}"#);
            assert!(retries(0, &words) && retries(2, &words) && !retries(3, &words));
            assert!(!retries(0, "LSP: other"));
        }
        _ => panic!("not resolved"),
    }
    let (third, _) = lsp.request("a", Json::null());
    let cancel = lsp.cancel(third);
    assert_eq!(cancel, notification("$/cancelRequest", json(r#"{"id":3}"#)));
    let (fourth, _) = lsp.request("b", Json::null());
    lsp.forget(fourth);
    let (fifth, _) = lsp.request("c", Json::null());
    assert_eq!(lsp.exited(), vec![fifth]);
    assert_eq!((lsp.state.ready, lsp.state.status.as_str()), (false, "analyzer exited"));
    assert!(lsp.exited().is_empty());
}

#[test]
fn conversations_begin_with_utf16() {
    let mut lsp = Lsp::new(&rust_spec(&Config::default()).unwrap());
    let greeting = lsp.initialize("/tmp/project", 42).unwrap();
    assert_eq!(greeting.at("processId").as_u64(), Some(42));
    assert_eq!(greeting.at("rootUri").as_str(), Some("file:///tmp/project/"));
    assert_eq!(greeting.at("workspaceFolders").item(0).at("name").as_str(), Some("project"));
    assert_eq!(
        greeting.at("capabilities").at("general").at("positionEncodings"),
        &json(r#"["utf-16"]"#)
    );
    assert_eq!(greeting.at("initializationOptions").at("checkOnSave"), &Json::boolean(false));
    assert_eq!(lsp.initialize("relative", 1), Err(Fault::InvalidWorkspacePath));
    let capabilities = r#"{"capabilities":{"textDocumentSync":2}}"#;
    assert!(lsp.negotiate(&json(capabilities)).is_ok());
    assert_eq!(lsp.capabilities.at("textDocumentSync").as_u64(), Some(2));
    assert_eq!(
        lsp.negotiate(&json(r#"{"capabilities":{"positionEncoding":"utf-8"}}"#)),
        Err(Fault::NotUtf16)
    );
    assert!(lsp.negotiate(&json(r#"{"capabilities":{"positionEncoding":"utf-16"}}"#)).is_ok());
}

#[test]
fn companion_introduces_itself() {
    let mut companion = Companion::new();
    assert_eq!(companion.id.len(), 36);
    assert!(companion.tick().is_none());
    let initialize = json(r#"{"id":1,"method":"initialize","params":{"rootUri":"file:///w"}}"#);
    match companion.receive(1, &initialize).unwrap() {
        CompanionStep::Reply(reply) => {
            assert_eq!(reply.at("result").at("serverInfo").at("version").as_str(), Some(version()));
            let sync = reply.at("result").at("capabilities").at("textDocumentSync");
            assert_eq!(sync.at("change").as_u64(), Some(1));
        }
        _ => panic!("no reply"),
    }
    assert_eq!(companion.root, "/w");
    assert_eq!(companion.tick().unwrap().kind, "connect");
    let folders =
        json(r#"{"id":1,"method":"initialize","params":{"workspaceFolders":[{"uri":"file:///v"}]}}"#);
    assert!(companion.receive(2, &folders).is_ok());
    assert_eq!(companion.root, "/v");
    let marked = json(r#"{"id":1,"method":"initialize","params":{"rootUri":"file:///w%FF"}}"#);
    assert!(companion.receive(2, &marked).is_ok());
    assert_eq!(companion.root, "/w\u{fffd}");
    let fault = |companion: &mut Companion, message: &str| {
        companion.receive(3, &json(message)).err().unwrap().fault
    };
    assert_eq!(fault(&mut companion, r#"{"id":1,"method":"initialize"}"#), Fault::NoRoot);
    assert_eq!(
        fault(&mut companion, r#"{"id":1,"method":"initialize","params":{"rootUri":"file://h/w"}}"#),
        Fault::InvalidRootUri
    );
    assert_eq!(
        fault(&mut companion, r#"{"id":1,"method":"initialize","params":{"rootUri":"w"}}"#),
        Fault::UnreadableUrl
    );
    match companion.receive(4, &json(r#"{"id":2,"method":"shutdown"}"#)).unwrap() {
        CompanionStep::Reply(reply) => assert!(reply.at("result").is_null()),
        _ => panic!("no reply"),
    }
    match companion.receive(5, &json(r#"{"id":2,"method":"other"}"#)).unwrap() {
        CompanionStep::Reply(reply) => {
            assert_eq!(reply.at("error").at("code").as_i64(), Some(-32601));
        }
        _ => panic!("no reply"),
    }
    assert!(matches!(
        companion.receive(6, &json(r#"{"method":"exit"}"#)).unwrap(),
        CompanionStep::Exit
    ));
    assert!(companion.farewell().is_none());
}

const OPEN: &str = r#"{"method":"textDocument/didOpen","params":{"textDocument":{"uri":"u","text":"one"}}}"#;
const CHANGE: &str = r#"{"method":"textDocument/didChange","params":{"textDocument":{"uri":"u"},"contentChanges":[{"range":{"start":{"line":0,"character":0},"end":{"line":0,"character":3}},"text":"two"}]}}"#;

fn connected() -> Companion {
    let mut companion = Companion::with_id("me".to_string());
    let initialize = json(r#"{"id":1,"method":"initialize","params":{"rootUri":"file:///w"}}"#);
    assert!(companion.receive(1, &initialize).is_ok());
    let visit = companion.ticked(Some(&json(r#"{"instance":"first"}"#))).unwrap();
    assert!(visit.restarted && visit.uris.is_empty());
    companion
}

#[test]
fn companion_passes_documents_on() {
    let mut companion = connected();
    assert_eq!(companion.tick().unwrap().kind, "heartbeat");
    let opened = event(companion.receive(2, &json(OPEN)));
    assert_eq!(opened.workspace, "/w");
    assert_eq!(opened.companion, "me");
    assert_eq!((opened.kind.as_str(), opened.text.as_deref()), ("open", Some("one")));
    companion.answered("open", "u", Some(&json(r#"{"accepted":true,"epoch":4}"#)), 2);
    let changed = event(companion.receive(3, &json(CHANGE)));
    assert_eq!((changed.kind.as_str(), changed.text.as_deref()), ("change", Some("two")));
    assert_eq!(changed.epoch, 4);
    let saved = json(r#"{"method":"textDocument/didSave","params":{"textDocument":{"uri":"u"}}}"#);
    assert_eq!(event(companion.receive(4, &saved)).kind, "save");
    let closed = json(r#"{"method":"textDocument/didClose","params":{"textDocument":{"uri":"u"}}}"#);
    assert_eq!(event(companion.receive(5, &closed)).kind, "close");
    companion.answered("close", "u", Some(&json("{}")), 5);
    assert!(!companion.documents.contains("u"));
    assert_eq!(companion.farewell().unwrap().kind, "disconnect");
    for other in [r#"{"method":"initialized"}"#, r#"{"method":"x","params":{"textDocument":{"uri":"u"}}}"#] {
        assert!(matches!(companion.receive(6, &json(other)).unwrap(), CompanionStep::Nothing));
    }
}

#[test]
fn refused_documents_rest_until_the_next_change() {
    let mut companion = connected();
    let _ = event(companion.receive(2, &json(OPEN)));
    // Messages three and four were on their way when the refusal arrived.
    companion.answered("open", "u", Some(&json(r#"{"accepted":false,"epoch":9}"#)), 4);
    for sequence in [3, 4] {
        let step = companion.receive(sequence, &json(CHANGE)).unwrap();
        assert!(matches!(step, CompanionStep::Nothing));
    }
    let again = event(companion.receive(5, &json(CHANGE)));
    assert_eq!((again.kind.as_str(), again.epoch), ("change", 9));
}

#[test]
fn documents_are_brought_to_a_restarted_bridge() {
    let mut companion = connected();
    let _ = event(companion.receive(2, &json(OPEN)));
    companion.answered("open", "u", Some(&json(r#"{"accepted":true,"epoch":3}"#)), 2);
    assert!(companion.ticked(None).is_none());
    assert!(!companion.connected);
    assert!(matches!(companion.receive(3, &json(CHANGE)).unwrap(), CompanionStep::Nothing));
    let visit = companion.ticked(Some(&json(r#"{"instance":"second"}"#))).unwrap();
    assert_eq!((visit.restarted, visit.uris), (true, vec!["u".to_string()]));
    let reopened = companion.reopen("u", true).unwrap();
    assert_eq!((reopened.kind.as_str(), reopened.epoch), ("open", 0));
    assert_eq!(reopened.text.as_deref(), Some("two"));
    companion.answered("open", "u", None, 3);
    let visit = companion.ticked(Some(&json(r#"{"instance":"second"}"#))).unwrap();
    assert!(!visit.restarted);
    companion.answered("open", "u", Some(&json(r#"{"accepted":false,"epoch":1}"#)), 3);
    assert!(companion.reopen("u", false).is_none());
    assert!(companion.reopen("unknown", true).is_none());
}

#[test]
fn changes_that_cannot_be_made_end_the_companion() {
    let mut companion = connected();
    let _ = event(companion.receive(2, &json(OPEN)));
    let fault = |companion: &mut Companion, changes: &str| {
        let message = format!(
            r#"{{"method":"textDocument/didChange","params":{{"textDocument":{{"uri":"u"}},"contentChanges":{changes}}}}}"#
        );
        companion.receive(3, &json(&message)).err().unwrap().fault
    };
    assert_eq!(fault(&mut companion, "null"), Fault::MissingChanges);
    assert_eq!(fault(&mut companion, "[{}]"), Fault::MissingText);
    assert_eq!(
        fault(
            &mut companion,
            r#"[{"text":"x"},{"range":{"start":{"line":5,"character":0},"end":{"line":5,"character":0}},"text":"y"}]"#
        ),
        Fault::LineOutOfRange
    );
    assert_eq!(companion.documents.get("u").unwrap().text, "one");
}

#[test]
fn events_go_to_the_bridge() {
    assert_eq!(events_url("http://127.0.0.1:47831//"), "http://127.0.0.1:47831/api/companion");
    assert_eq!(events_url(""), "/api/companion");
    assert_eq!(event_answer(true, r#"{"a":1}"#), Some(json(r#"{"a":1}"#)));
    assert_eq!(event_answer(true, "nope"), None);
    assert_eq!(event_answer(false, "{}"), None);
}
