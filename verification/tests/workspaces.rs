use mcp_editor_lsp_bridge::checks::{
    cargo_arguments, combined, compiler_messages, rust_result, typescript_arguments,
    typescript_project, typescript_result, verify_snapshot,
};
use mcp_editor_lsp_bridge::documents::{hash_disk, restored, DiskStep, RestoreStep, SyncStep};
use mcp_editor_lsp_bridge::fault::{Failure, Fault};
use mcp_editor_lsp_bridge::json::Json;
use mcp_editor_lsp_bridge::language::{Language, Markers, ServerSpec, TypeScriptBackend};
use mcp_editor_lsp_bridge::lsp::Lsp;
use mcp_editor_lsp_bridge::registry::{
    require_absolute, AttachStep, BackendStep, Core, Place,
};
use mcp_editor_lsp_bridge::status::{public_config, pulled, pulls};
use mcp_editor_lsp_bridge::table::Table;
use mcp_editor_lsp_bridge::wire;
use mcp_editor_lsp_bridge::workspace::{missing_parent, Config, Lookup, SyncEvent, Workspace};

fn json(text: &str) -> Json {
    wire::parse(text.as_bytes()).expect("valid JSON")
}

fn workspace() -> Workspace {
    Workspace::with_instance(
        "session".to_string(),
        "/w".to_string(),
        Language::Rust,
        Config::default(),
        0,
    )
}

fn event(kind: &str, companion: &str, text: Option<&str>, epoch: u64) -> SyncEvent {
    SyncEvent {
        workspace: "/w".to_string(),
        companion: companion.to_string(),
        kind: kind.to_string(),
        uri: Some("file:///w/a.rs".to_string()),
        text: text.map(String::from),
        epoch,
    }
}

const URI: &str = "file:///w/a.rs";

fn put(workspace: &mut Workspace, text: &str, source: &'static str, disk: Option<&str>) -> Option<Json> {
    let capabilities = json(r#"{"textDocumentSync":{"change":2}}"#);
    let message = workspace.begin_document(URI, text, &capabilities, "/w/a.rs").unwrap();
    workspace.finish_document(URI, text.to_string(), source, disk.map(String::from));
    message
}

fn answer(step: SyncStep) -> Json {
    match step {
        SyncStep::Answer(answer) => answer,
        _ => panic!("no answer"),
    }
}

fn fault(step: SyncStep) -> Fault {
    match step {
        SyncStep::Failed(fault) => fault,
        _ => panic!("no fault"),
    }
}

fn server(name: &'static str) -> Lsp {
    Lsp::new(&ServerSpec {
        name,
        command: String::new(),
        args: vec![],
        settings: Json::object(),
        section: "",
        server_status: false,
    })
}

#[test]
fn documents_are_opened_and_changed() {
    let mut w = workspace();
    let opened = put(&mut w, "one", "disk", Some("one")).unwrap();
    assert_eq!(opened.at("method").as_str(), Some("textDocument/didOpen"));
    assert_eq!(
        opened.at("params").at("textDocument"),
        &json(r#"{"uri":"file:///w/a.rs","languageId":"rust","version":1,"text":"one"}"#)
    );
    assert!(put(&mut w, "one", "zed", None).is_none());
    assert_eq!(w.documents.get(URI).unwrap().source, "zed");
    let changed = put(&mut w, "two", "zed", None).unwrap();
    assert_eq!(changed.at("method").as_str(), Some("textDocument/didChange"));
    assert_eq!(changed.at("params").at("textDocument").at("version").as_i64(), Some(2));
    let change = changed.at("params").at("contentChanges").item(0);
    assert_eq!(change.at("text").as_str(), Some("two"));
    assert_eq!(change.at("range").at("end"), &json(r#"{"line":0,"character":3}"#));
    assert_eq!(w.document_text(URI).unwrap(), "two");
    assert_eq!(w.document_text("other"), Err(Fault::NotOpen));
    assert!(w.is_open(URI) && w.has_room(URI));
    assert_eq!(w.document_uris(), vec![URI]);
    let failure = w.begin_document("u", "t", &Json::null(), "/w/a.txt").unwrap_err();
    assert_eq!(failure, Failure::of(Fault::UnsupportedSource, "/w/a.txt"));
    assert_eq!(w.open_text(URI).unwrap().version, 2);
    assert!(w.open_text("other").is_none());
    assert_eq!(w.reopen_message(URI, "/w/a.rs").unwrap().at("params").at("textDocument").at("version").as_i64(), Some(2));
    assert_eq!(w.reopen_message("other", "/w/a.rs").unwrap_err().fault, Fault::NotOpen);
    w.closed(URI);
    assert!(!w.is_open(URI));
}

#[test]
fn the_disk_wins_over_the_editor() {
    let mut w = workspace();
    assert!(matches!(w.sync(&event("connect", "zed", None, 0), None, 5), SyncStep::Answer(_)));
    put(&mut w, "disk text", "disk", Some("disk text"));
    let changed = event("change", "zed", Some("editor text"), 0);
    match w.sync(&changed, Some(URI.to_string()), 6) {
        SyncStep::Write { text, source, answer, .. } => {
            assert_eq!(source, "zed");
            assert_eq!(text, "editor text");
            assert_eq!(answer, json(r#"{"accepted":true,"epoch":0}"#));
            put(&mut w, &text, "zed", None);
        }
        _ => panic!("not accepted"),
    }
    match w.disk_changed(URI, Some("agent text".to_string()), true) {
        DiskStep::Update(text) => put(&mut w, &text, "disk", None),
        _ => panic!("not seen"),
    };
    let generation = w.generation;
    let message = w.announce(URI, false);
    assert_eq!(w.generation, generation + 1);
    assert_eq!(
        message.at("params"),
        &json(r#"{"changes":[{"uri":"file:///w/a.rs","type":2}]}"#)
    );
    assert_eq!(
        answer(w.sync(&changed, Some(URI.to_string()), 7)),
        json(
            r#"{"accepted":false,"epoch":1,"reason":"Disk edit superseded editor snapshot"}"#
        )
    );
    assert_eq!(w.document_text(URI).unwrap(), "agent text");
    assert!(matches!(
        w.disk_changed(URI, Some("agent text".to_string()), true),
        DiskStep::Quiet
    ));
    assert!(matches!(
        w.sync(&event("change", "zed", Some("x"), 1), Some(URI.to_string()), 8),
        SyncStep::Write { .. }
    ));
}

#[test]
fn changes_on_disk_call_for_their_steps() {
    let mut w = workspace();
    let text = Some("x".to_string());
    assert!(matches!(w.disk_changed("file:///w/new.rs", text.clone(), true), DiskStep::Announce));
    assert!(matches!(w.disk_changed("file:///w/new.rs", text, true), DiskStep::Quiet));
    put(&mut w, "one", "disk", Some("one"));
    assert!(matches!(w.disk_changed(URI, Some("one".to_string()), true), DiskStep::Quiet));
    assert!(matches!(
        w.disk_changed(URI, Some("two".to_string()), false),
        DiskStep::Failed(Fault::MissingDocumentServer)
    ));
    assert!(matches!(w.disk_changed(URI, None, true), DiskStep::Close));
    assert_eq!(w.documents.get(URI).unwrap().epoch, 1);
    assert_eq!(w.announce(URI, true).at("params").at("changes").item(0).at("type").as_u64(), Some(3));
    assert_ne!(hash_disk(&None), hash_disk(&Some(String::new())));
    assert_eq!(hash_disk(&Some("a".to_string())), hash_disk(&Some("a".to_string())));
    w.watch_failed("too many files");
    assert!(!w.check_fresh());
    assert_eq!(w.watcher_error.as_deref(), Some("too many files"));
}

#[test]
fn companions_come_and_go() {
    let mut w = workspace();
    assert_eq!(fault(w.sync(&event("open", "a", None, 0), None, 1)), Fault::CompanionNotConnected);
    assert_eq!(
        answer(w.sync(&event("connect", "a", None, 0), None, 1)),
        json(r#"{"connected":true,"instance":"session"}"#)
    );
    assert_eq!(fault(w.sync(&event("connect", "b", None, 0), None, 2)), Fault::CompanionActive);
    assert_eq!(
        answer(w.sync(&event("heartbeat", "a", None, 0), None, 3)),
        json(r#"{"connected":true}"#)
    );
    assert_eq!(w.companion_seen, 3);
    assert!(!w.lease_expired(15_003) && w.lease_expired(15_004));
    assert_eq!(fault(w.sync(&event("save", "a", None, 0), None, 4)), Fault::MissingUri);
    let uri = || Some(URI.to_string());
    assert_eq!(fault(w.sync(&event("open", "a", None, 0), uri(), 4)), Fault::MissingText);
    assert_eq!(fault(w.sync(&event("other", "a", None, 0), uri(), 4)), Fault::UnknownSyncEvent);
    match w.sync(&event("save", "a", None, 0), uri(), 5) {
        SyncStep::Save { message, answer, .. } => {
            assert_eq!(message.at("method").as_str(), Some("textDocument/didSave"));
            assert_eq!(answer, json(r#"{"accepted":true,"epoch":0}"#));
        }
        _ => panic!("not saved"),
    }
    assert!(matches!(w.sync(&event("close", "a", None, 0), uri(), 5), SyncStep::Close { .. }));
    assert!(matches!(
        w.sync(&event("connect", "a", None, 0), None, 6),
        SyncStep::Release { reconnect: true }
    ));
    assert_eq!(w.companion, None);
    assert_eq!(
        w.released(Some("a"), 7),
        json(r#"{"connected":true,"instance":"session"}"#)
    );
    assert!(matches!(
        w.sync(&event("disconnect", "a", None, 0), None, 8),
        SyncStep::Release { reconnect: false }
    ));
    assert_eq!(w.released(None, 9), json(r#"{"connected":false}"#));
    assert_eq!(w.companion, None);
    w.sync(&event("connect", "a", None, 0), None, 9);
    w.drop_companion();
    assert!(!w.lease_expired(u64::MAX));
    w.stop();
    assert_eq!(fault(w.sync(&event("connect", "a", None, 0), None, 9)), Fault::Stopped);
    assert_eq!(w.ensure_running(), Err(Fault::Stopped));
}

#[test]
fn a_new_session_takes_the_documents_over() {
    let mut old = workspace();
    old.sync(&event("connect", "a", None, 0), None, 3);
    put(&mut old, "text", "zed", Some("disk"));
    let mut new = Workspace::new("/w".to_string(), Language::Rust, Config::default(), 4);
    assert_eq!(new.instance.len(), 36);
    new.disk_changed(URI, None, true);
    new.adopt(&old);
    assert_eq!(new.document_text(URI).unwrap(), "text");
    assert_eq!(new.companion.as_deref(), Some("a"));
    assert_eq!((new.companion_seen, new.generation), (3, 1));
    assert_eq!(new.disk_hashes.len(), 0);
    new.server_started();
    assert_eq!(new.generation, 2);
}

#[test]
fn paths_stay_in_the_workspace() {
    let w = workspace();
    assert_eq!(w.candidate("src/a.rs").unwrap(), "/w/src/a.rs");
    assert_eq!(w.candidate("/etc/x").unwrap(), "/etc/x");
    assert_eq!(w.candidate("file:///w/a%20b.rs").unwrap(), "/w/a b.rs");
    assert_eq!(w.candidate("file://h/a.rs").unwrap_err().fault, Fault::InvalidUri);
    assert_eq!(w.candidate("file:").unwrap(), "/");
    let odd = w.candidate("file:///w/%FF.rs").unwrap();
    assert_eq!(odd, "/w/\0FF.rs");
    assert_eq!(w.candidate("a\0FF").unwrap(), "/w/a\x0000FF");
    assert_eq!(w.resolve(&odd, &Lookup::MissingIn("/w".to_string())).unwrap(), odd);
    assert_eq!(w.uri(&odd).unwrap(), "file:///w/%FF.rs");
    let found = |path: &str| Lookup::Found(path.to_string());
    assert_eq!(w.resolve("x", &found("/w/real.rs")).unwrap(), "/w/real.rs");
    assert_eq!(w.resolve("x", &found("/etc/passwd")), Err(Fault::OutsideWorkspace));
    assert_eq!(w.resolve("x", &found("/ww")), Err(Fault::OutsideWorkspace));
    let missing = Lookup::MissingIn("/w/dir".to_string());
    assert_eq!(w.resolve("/w/link/new.rs", &missing).unwrap(), "/w/dir/new.rs");
    assert_eq!(w.resolve("/w/..", &missing), Err(Fault::MissingFilename));
    assert_eq!(missing_parent("/w/new.rs").unwrap(), "/w");
    assert_eq!(missing_parent("/"), Err(Fault::MissingParent));
    assert_eq!(w.uri("/w/a.rs").unwrap(), URI);
    assert_eq!(w.uri("a.rs"), Err(Fault::InvalidPath));
    for path in ["/w/a.rs", "/w/x/tsconfig.app.json", "/w/Cargo.lock", "/w/build.rs"] {
        assert!(w.relevant(path), "{path}");
    }
    for path in ["/v/a.rs", "/w/target/a.rs", "/w/node_modules/x/a.ts", "/w/README.md", "/w/tsconfigx"] {
        assert!(!w.relevant(path), "{path}");
    }
    assert_eq!(
        w.watched_paths(&vec!["/w/b.ts".to_string(), "/w/x.md".to_string(), "/w/a.rs".to_string()]),
        vec!["/w/b.ts", "/w/a.rs"]
    );
}

#[test]
fn checks_are_made_once_for_a_state() {
    let mut w = workspace();
    assert!(!w.check_fresh());
    let generation = w.begin_check().unwrap();
    assert!(w.check.running);
    w.finish_check(generation, Ok((false, vec![json(r#"{"message":"bad"}"#)])));
    assert!(w.check_fresh());
    assert_eq!(w.begin_check(), None);
    assert!(w.check_due(generation));
    w.announce(URI, false);
    assert!(!w.check_fresh() && !w.check_due(generation));
    let next = w.begin_check().unwrap();
    w.finish_check(next, Err("compiler unavailable".to_string()));
    assert!(!w.check_fresh());
    assert_eq!((w.check.success, w.check.generation), (None, None));
    assert_eq!(w.check.diagnostics.len(), 1);
    assert_eq!(
        w.check.to_json(),
        json(
            r#"{"running":false,"generation":null,"success":null,"error":"compiler unavailable","diagnostics":[{"message":"bad"}]}"#
        )
    );
    let late = w.begin_check().unwrap();
    w.announce(URI, false);
    w.finish_check(late, Ok((true, vec![])));
    assert!(!w.check_fresh());
    assert!(w.begin_check().is_some());
}

#[test]
fn compilers_are_called_and_heard() {
    let mut config = Config::default();
    assert_eq!(
        cargo_arguments(&config),
        vec!["check", "--workspace", "--all-targets", "--message-format=json"]
    );
    config.cargo_features = vec!["a".to_string(), "b".to_string()];
    config.no_default_features = true;
    config.cargo_target = Some("t".to_string());
    assert_eq!(
        cargo_arguments(&config)[4..],
        ["--features", "a,b", "--no-default-features", "--target", "t"]
    );
    config.all_features = true;
    assert_eq!(cargo_arguments(&config)[4], "--all-features");
    let lines: Vec<String> = [
        r#"{"reason":"compiler-artifact"}"#,
        r#"{"reason":"compiler-message","message":{"level":"error"}}"#,
        "warning: not JSON",
    ]
    .iter()
    .map(|line| line.to_string())
    .collect();
    let messages = compiler_messages(&lines);
    assert_eq!(messages, vec![json(r#"{"level":"error"}"#)]);
    assert!(!rust_result(false, messages, "").unwrap().0);
    assert!(rust_result(true, vec![], "").unwrap().0);
    assert_eq!(
        rust_result(false, vec![], "no cargo").unwrap_err().message(),
        "cargo check failed: no cargo"
    );
    assert_eq!(typescript_project(true, true), Ok("tsconfig.json"));
    assert_eq!(typescript_project(false, true), Ok("jsconfig.json"));
    assert_eq!(typescript_project(false, false), Err(Fault::NoTypeScriptProject));
    assert_eq!(
        typescript_arguments("tsconfig.json"),
        vec!["--noEmit", "--pretty", "false", "--project", "tsconfig.json"]
    );
    let (passed, found) = typescript_result(false, "exit 2", "a.ts: bad\r\n\n", "  \nmore").unwrap();
    assert!(!passed);
    assert_eq!(
        found,
        vec![
            json(r#"{"source":"typescript","message":"a.ts: bad","rendered":"a.ts: bad"}"#),
            json(r#"{"source":"typescript","message":"more","rendered":"more"}"#),
        ]
    );
    assert_eq!(
        typescript_result(false, "exit 2", " \n", "").unwrap_err().message(),
        "TypeScript check exited without diagnostics: exit 2"
    );
    assert_eq!(typescript_result(true, "", "", "").unwrap(), (true, vec![]));
    let (passed, all) = combined(Some((true, vec![Json::null()])), Some((false, found)));
    assert!(!passed && all.len() == 3);
    assert_eq!(all[0], Json::null());
    assert_eq!(combined(None, None), (true, vec![]));
    assert_eq!(combined(Some((false, vec![])), None), (false, vec![]));
    assert_eq!(combined(None, Some((true, all))).1.len(), 3);
}

#[test]
fn snapshots_tell_the_servers_of_changes() {
    let mut w = workspace();
    put(&mut w, "one", "disk", Some("one"));
    let disk = |files: &[(&str, u64)]| {
        let mut table: Table<u64> = Table::new();
        for (path, hash) in files {
            table.insert(path, *hash);
        }
        table
    };
    let (first, message) = w.take_snapshot(disk(&[("/w/a.rs", 1), ("/w/b.rs", 2)])).unwrap();
    assert_eq!(
        message.unwrap().at("params").at("changes"),
        &json(r#"[{"uri":"file:///w/a.rs","type":2},{"uri":"file:///w/b.rs","type":2}]"#)
    );
    assert_eq!(w.generation, 1);
    let (same, message) = w.take_snapshot(disk(&[("/w/a.rs", 1), ("/w/b.rs", 2)])).unwrap();
    assert!(message.is_none());
    assert_eq!(w.generation, 1);
    assert!(verify_snapshot(&same, &first).is_ok());
    let (other, message) = w.take_snapshot(disk(&[("/w/a.rs", 9)])).unwrap();
    assert_eq!(
        message.unwrap().at("params").at("changes"),
        &json(r#"[{"uri":"file:///w/a.rs","type":2},{"uri":"file:///w/b.rs","type":3}]"#)
    );
    assert_eq!(verify_snapshot(&other, &first), Err(Fault::StaleSnapshot));
    put(&mut w, "edited", "zed", None);
    let (edited, _) = w.take_snapshot(disk(&[("/w/a.rs", 9)])).unwrap();
    assert_eq!(verify_snapshot(&edited, &other), Err(Fault::StaleSnapshot));
    assert_eq!(edited.documents.get(URI).unwrap().version, 2);
    assert_eq!(w.take_snapshot(disk(&[("a.rs", 9)])).err(), Some(Fault::InvalidPath));
}

#[test]
fn status_and_diagnostics_tell_the_state() {
    let mut w = workspace();
    w.config.environment.insert("TOKEN", "hidden".to_string());
    put(&mut w, "one", "disk", Some("one"));
    let mut rust = server("rust-analyzer");
    rust.begun();
    let mut script = server("vtsls");
    let analyzers =
        vec![rust.summary(Language::Rust, Some(5)), script.summary(Language::TypeScript, None)];
    let status = w.status(analyzers, &rust, Some(5));
    assert_eq!(status.at("workspace").as_str(), Some("/w"));
    assert_eq!(status.at("ready"), &Json::boolean(false));
    assert_eq!(status.at("status").as_str(), Some("ready"));
    assert_eq!(
        status.at("documents"),
        &json(r#"[{"uri":"file:///w/a.rs","source":"disk","version":1,"epoch":0}]"#)
    );
    assert_eq!(status.at("config").at("environment"), &json(r#"{"TOKEN":"configured"}"#));
    assert_eq!(
        status.at("config").at("analyzer_settings"),
        &json(r#"{"checkOnSave":false}"#)
    );
    assert_eq!(status.at("config").at("typescript_backend").as_str(), Some("auto"));
    assert!(!public_config(&w.config, Language::TypeScript).at("analyzer_settings").has("checkOnSave"));
    rust.put_diagnostics(URI, json(r#"{"uri":"file:///w/a.rs","version":1,"diagnostics":[1]}"#));
    rust.put_diagnostics("file:///w/b.rs", json(r#"{"version":1,"diagnostics":[]}"#));
    script.put_diagnostics("file:///w/b.rs", json(r#"{"version":2,"diagnostics":[2]}"#));
    let all = w.diagnostics(&rust, Some(&rust), Some(&script), None);
    assert_eq!(all.at("checkFresh"), &Json::boolean(false));
    assert_eq!(all.at("savedFileCheck").at("success"), &Json::null());
    let live = all.at("liveDiagnostics");
    assert_eq!(live.at(URI).at("matchesDocumentVersion"), &Json::boolean(true));
    assert_eq!(live.at("file:///w/b.rs").at("diagnostics"), &json("[2]"));
    assert_eq!(live.at("file:///w/b.rs").at("matchesDocumentVersion"), &Json::boolean(false));
    let one = w.diagnostics(&rust, Some(&rust), None, Some(URI));
    assert!(one.at("liveDiagnostics").has(URI) && !one.at("liveDiagnostics").has("file:///w/b.rs"));
    assert_eq!(w.wanted_documents(None).len(), 1);
    assert_eq!(w.wanted_documents(Some(URI))[0].version, 1);
    assert!(w.wanted_documents(Some("other")).is_empty());
    assert!(pulls(&json(r#"{"diagnosticProvider":{}}"#)) && !pulls(&json("{}")));
    assert_eq!(
        pulled("u", 3, &json(r#"{"kind":"full","items":[1]}"#)),
        Some(json(r#"{"uri":"u","version":3,"diagnostics":[1]}"#))
    );
    assert_eq!(pulled("u", 3, &json(r#"{"kind":"unchanged"}"#)), None);
}

const CARGO: Markers =
    Markers { cargo: true, tsconfig: false, jsconfig: false, package: false, git: false };
const NOTHING: Markers =
    Markers { cargo: false, tsconfig: false, jsconfig: false, package: false, git: true };

fn place(root: &str, markers: Markers) -> Option<Place> {
    Some(Place { root: root.to_string(), markers })
}

fn attached_by(step: AttachStep) -> u64 {
    match step {
        AttachStep::Existing(session) => session,
        _ => panic!("not attached"),
    }
}

#[test]
fn disconnected_workspaces_stay_disconnected() {
    let mut core = Core::new(Config::default());
    assert_eq!(require_absolute("relative"), Err(Fault::NotAbsolute));
    assert!(require_absolute("/w").is_ok());
    let w = place("/w", CARGO);
    match core.workspace("/w", &place("/w", NOTHING)) {
        AttachStep::Failed(failure) => assert_eq!(failure.fault, Fault::NoMarker),
        _ => panic!("attached"),
    }
    assert!(matches!(core.workspace("/w", &None), AttachStep::Find));
    assert!(matches!(core.workspace("/w", &w), AttachStep::Start(TypeScriptBackend::Auto)));
    let session = core.attached("/w", TypeScriptBackend::Auto);
    assert_eq!(attached_by(core.workspace("/w", &w)), session);
    assert_eq!(core.session_roots(), vec!["/w"]);
    let (held, answer) = core.disconnect("/w");
    assert_eq!(held, Some(session));
    assert_eq!(answer, json(r#"{"workspace":"/w","connected":false}"#));
    match core.workspace("/w", &w) {
        AttachStep::Failed(failure) => assert_eq!(
            failure.message(),
            "Workspace disconnected; reconnect explicitly with bridge workspace-connect --workspace /w"
        ),
        _ => panic!("attached"),
    }
    assert_eq!(
        core.status(vec![]),
        json(r#"{"workspaces":[],"disconnectedWorkspaces":["/w"]}"#)
    );
    assert_eq!(core.disconnect("/w").0, None);
    assert!(matches!(core.connect("/w", &w), AttachStep::Start(_)));
    let again = core.attached("/w", TypeScriptBackend::Auto);
    assert_ne!(again, session);
    assert_eq!(attached_by(core.workspace("/w", &w)), again);
    assert_eq!(core.status(vec![]).at("disconnectedWorkspaces"), &json("[]"));
}

#[test]
fn a_directory_has_one_session() {
    let mut core = Core::new(Config::default());
    assert!(core.has_room());
    let real = place("/w", CARGO);
    match core.connect("w", &real) {
        AttachStep::Failed(failure) => assert_eq!(failure.fault, Fault::NotAbsolute),
        _ => panic!("attached"),
    }
    assert!(matches!(core.workspace("/link", &real), AttachStep::Start(_)));
    let session = core.attached("/w", TypeScriptBackend::Auto);
    let other = core.attached("/w-2", TypeScriptBackend::Auto);
    let inner = core.attached("/w/inner", TypeScriptBackend::Auto);
    assert!(session != other && session != inner && other != inner);
    core.disconnect("/w-2");
    for path in ["/w", "/link", "/w/../w"] {
        assert_eq!(attached_by(core.workspace(path, &real)), session);
        assert_eq!(attached_by(core.connect(path, &real)), session);
    }
    assert!(matches!(core.workspace("w", &real), AttachStep::Failed(_)));
    assert_eq!(core.session_of("/w/inner"), Some(inner));
    assert_eq!(core.session_of("/w-2"), None);
    core.attached("/w-2", TypeScriptBackend::Auto);
    assert_eq!(core.session_roots(), vec!["/w", "/w/inner", "/w-2"]);
    core.disconnect("/w-2");
    core.disconnect("/w/inner");
    assert_eq!(
        core.status(vec![]).at("disconnectedWorkspaces"),
        &json(r#"["/w/inner","/w-2"]"#)
    );
}

#[test]
fn chosen_backends_outlive_a_disconnection() {
    let mut core = Core::new(Config::default());
    let choose = |core: &Core, backend| core.set_typescript_backend("/w", backend);
    assert_eq!(
        choose(&core, TypeScriptBackend::Vtsls),
        BackendStep::Failed(Fault::NotConnected)
    );
    let first = core.attached("/w", TypeScriptBackend::Auto);
    assert_eq!(choose(&core, TypeScriptBackend::Auto), BackendStep::Unchanged(first));
    assert_eq!(choose(&core, TypeScriptBackend::Vtsls), BackendStep::Restart(first));
    let second = core.backend_changed("/w", TypeScriptBackend::Vtsls);
    assert_ne!(first, second);
    assert_eq!(choose(&core, TypeScriptBackend::Vtsls), BackendStep::Unchanged(second));
    core.disconnect("/w");
    assert!(matches!(
        core.connect("/w", &place("/w", CARGO)),
        AttachStep::Start(TypeScriptBackend::Vtsls)
    ));
    let config = core.config().with_backend(TypeScriptBackend::Native);
    assert_eq!(config.typescript_backend, TypeScriptBackend::Native);
    assert_eq!(config.analyzer, "rust-analyzer");
}

#[test]
fn released_documents_are_what_their_files_hold() {
    let mut w = workspace();
    put(&mut w, "edited", "zed", Some("saved"));
    match restored(Some("saved".to_string())) {
        RestoreStep::Write(text) => assert!(put(&mut w, &text, "disk", None).is_some()),
        RestoreStep::Close => panic!("closed"),
    }
    assert_eq!(w.document_text(URI).unwrap(), "saved");
    assert!(matches!(restored(None), RestoreStep::Close));
    w.closed(URI);
    assert!(w.document_uris().is_empty());
}

#[test]
fn changes_are_told_in_the_order_of_paths() {
    let mut w = workspace();
    let disk = |paths: &[&str]| {
        let mut table: Table<u64> = Table::new();
        for path in paths {
            table.insert(path, 1);
        }
        table
    };
    let told = |message: Option<Json>| {
        let message = message.unwrap();
        let changes = message.at("params").at("changes");
        let uris = (0..changes.item_count()).map(|i| changes.item(i).at("uri").copy());
        wire::render_text(&Json::array(uris.collect()))
    };
    let (_, message) = w.take_snapshot(disk(&["/w/a-b.rs", "/w/a/b.rs", "/w/a.rs"])).unwrap();
    assert_eq!(
        told(message),
        r#"["file:///w/a/b.rs","file:///w/a-b.rs","file:///w/a.rs"]"#
    );
    let (_, message) = w.take_snapshot(disk(&["/w/z.rs"])).unwrap();
    assert_eq!(
        told(message),
        r#"["file:///w/z.rs","file:///w/a/b.rs","file:///w/a-b.rs","file:///w/a.rs"]"#
    );
}
