use mcp_editor_lsp_bridge::json::Json;
use mcp_editor_lsp_bridge::output::{diagnostics, status};
use mcp_editor_lsp_bridge::symbols::{compact, flatten};
use mcp_editor_lsp_bridge::wire;

fn json(text: &str) -> Json {
    wire::parse(text.as_bytes()).expect("valid JSON")
}

#[test]
fn compact_diagnostics_preserve_uncertainty_and_failures() {
    for check in [
        json(r#"{"success":null,"running":false,"error":null,"diagnostics":[]}"#),
        json(r#"{"success":null,"running":false,"error":"compiler unavailable","diagnostics":[]}"#),
        json(r#"{"success":false,"running":false,"error":null,"diagnostics":[{"message":"bad"}]}"#),
    ] {
        let raw = json(
            r#"{"ready":true,"checkFresh":false,"liveDiagnostics":{"clean":{"diagnostics":[]},"bad":{"diagnostics":[{"message":"overlay error"}],"matchesDocumentVersion":false}}}"#,
        )
        .with("savedFileCheck", check.copy());
        let compact = diagnostics(raw.copy(), false);
        assert_eq!(compact.at("savedFileCheck"), &check);
        assert_eq!(compact.at("checkFresh"), &Json::boolean(false));
        assert!(compact.at("liveDiagnostics").get("clean").is_none());
        assert_eq!(compact.at("liveDiagnosticCount"), &Json::number(1));
        assert_eq!(diagnostics(raw.copy(), true), raw);
    }
}

#[test]
fn short_diagnostics_count_and_drop_the_note() {
    let raw = json(
        r#"{"note":"n","generation":3,"savedFileCheck":{"diagnostics":[1,2]},"liveDiagnostics":{"a":{"diagnostics":[1]},"b":{"diagnostics":[1,2]},"c":{}}}"#,
    );
    let short = diagnostics(raw, false);
    assert!(!short.has("note"));
    assert_eq!(short.at("generation"), &Json::number(3));
    assert_eq!(short.at("savedDiagnosticCount"), &Json::number(2));
    assert_eq!(short.at("liveDiagnosticCount"), &Json::number(3));
    assert!(short.at("liveDiagnostics").has("a") && !short.at("liveDiagnostics").has("c"));
    let nothing = diagnostics(Json::null(), false);
    assert_eq!(
        nothing,
        json(r#"{"liveDiagnostics":null,"liveDiagnosticCount":0,"savedDiagnosticCount":0}"#)
    );
}

#[test]
fn status_is_short_unless_asked_for() {
    let one = json(
        r#"{"workspace":"/w","language":"rust","ready":true,"status":"ready","analyzers":[],"analyzerPid":7,"companion":"id","documents":[{},{}],"generation":2,"checkFresh":true,"check":{"running":false,"success":true,"error":null},"watcherError":null,"config":{"x":1}}"#,
    );
    assert_eq!(status(one.copy(), true), one);
    let expected = json(
        r#"{"workspace":"/w","language":"rust","ready":true,"status":"ready","analyzers":[],"analyzerPid":7,"companionConnected":true,"documentCount":2,"generation":2,"checkFresh":true,"checkRunning":false,"checkSuccess":true,"checkError":null,"watcherError":null}"#,
    );
    assert_eq!(status(one.copy(), false), expected);
    let all = Json::object()
        .with("workspaces", Json::array(vec![one]))
        .with("disconnectedWorkspaces", json(r#"["/gone"]"#));
    let short = status(all, false);
    assert_eq!(short.at("workspaces").item(0), &expected);
    assert_eq!(short.at("disconnectedWorkspaces"), &json(r#"["/gone"]"#));
    assert_eq!(status(Json::null(), false).at("companionConnected"), &Json::boolean(false));
}

#[test]
fn symbols_are_flattened_before_their_children() {
    let tree = json(
        r#"[{"name":"Outer","kind":5,"selectionRange":{"start":{"line":1,"character":6}},"range":{"start":{"line":0,"character":0}},"children":[{"name":"inner","kind":6,"range":{"start":{"line":2,"character":4}}}]},{"name":"flat","kind":12,"containerName":"mod","location":{"uri":"file:///b.rs","range":{"start":{"line":9,"character":0}}}}]"#,
    );
    let rows = flatten(&tree, "file:///a.rs");
    assert_eq!(rows.len(), 3);
    assert_eq!(rows[0].at("name").as_str(), Some("Outer"));
    assert!(rows[0].at("container").is_null());
    assert_eq!(rows[0].at("line").as_u64(), Some(1));
    assert_eq!(rows[0].at("exactSelection"), &Json::boolean(true));
    assert_eq!(rows[1].at("container").as_str(), Some("Outer"));
    assert_eq!(rows[1].at("uri").as_str(), Some("file:///a.rs"));
    assert_eq!(rows[1].at("exactSelection"), &Json::boolean(false));
    assert_eq!(rows[2].at("container").as_str(), Some("mod"));
    assert_eq!(rows[2].at("uri").as_str(), Some("file:///b.rs"));
    assert_eq!(rows[2].at("line").as_u64(), Some(9));
    assert_eq!(
        compact(rows).item(1),
        &json(r#"{"name":"inner","kind":6,"container":"Outer","line":2,"character":4}"#)
    );
    assert!(flatten(&Json::null(), "u").is_empty());
}
