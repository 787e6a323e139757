use mcp_editor_lsp_bridge::fault::{Failure, Fault};
use mcp_editor_lsp_bridge::json::Json;
use mcp_editor_lsp_bridge::language::{
    cargo_root, dependency_paths, infer_root, rust_spec, typescript_binary, typescript_major,
    typescript_spec, workspace_dependency, Language, Markers, Probe, RootChoice, ServerSpec,
    SetupStep, TypeScriptBackend, TypeScriptFacts, VersionReport,
};
use mcp_editor_lsp_bridge::wire;
use mcp_editor_lsp_bridge::workspace::Config;

fn json(text: &str) -> Json {
    wire::parse(text.as_bytes()).expect("valid JSON")
}

const NONE: Markers =
    Markers { cargo: false, tsconfig: false, jsconfig: false, package: false, git: false };

fn report(output: &str) -> Option<VersionReport> {
    Some(VersionReport { success: true, output: output.to_string() })
}

fn facts() -> TypeScriptFacts {
    TypeScriptFacts {
        compiler: Some("/w/node_modules/.bin/tsc".to_string()),
        version: None,
        server_version: None,
        sdk: None,
        wrapper: None,
    }
}

fn ready(step: SetupStep) -> ServerSpec {
    match step {
        SetupStep::Ready(spec) => spec,
        _ => panic!("not ready"),
    }
}

fn refused(step: SetupStep) -> Failure {
    match step {
        SetupStep::Failed(failure) => failure,
        _ => panic!("not refused"),
    }
}

#[test]
fn languages_and_workspace_boundaries() {
    for (path, id) in [
        ("a.rs", "rust"),
        ("a.ts", "typescript"),
        ("a.mts", "typescript"),
        ("a.cts", "typescript"),
        ("a.tsx", "typescriptreact"),
        ("a.jsx", "javascriptreact"),
        ("a.cjs", "javascript"),
    ] {
        assert_eq!(Language::document_id(path).unwrap(), id);
    }
    assert!(Language::for_path("Cargo.toml").is_err());
    // A project in /r, seen from /r/src/deep and from a repository inside it.
    let package = Markers { package: true, ..NONE };
    let git = Markers { git: true, ..NONE };
    match infer_root("/r/src/deep", &vec![NONE, NONE, package, NONE]) {
        RootChoice::Here(root) => assert_eq!(root, "/r"),
        _ => panic!("no workspace"),
    }
    assert_eq!(Language::default_for(package).unwrap(), Language::TypeScript);
    assert!(matches!(
        infer_root("/r/nested/src", &vec![NONE, git, package, NONE]),
        RootChoice::NotFound
    ));
    assert!(typescript_binary(&None, &Config::default()).is_err());
}

#[test]
fn sources_are_told_by_extension() {
    assert_eq!(Language::for_path("/a/b.rs").unwrap(), Language::Rust);
    for extension in ["ts", "tsx", "mts", "cts", "js", "jsx", "mjs", "cjs"] {
        assert_eq!(Language::for_path(&format!("x.{extension}")).unwrap(), Language::TypeScript);
    }
    let failure = Language::for_path("/a/b.RS").unwrap_err();
    assert_eq!(failure.message(), "Unsupported source file: /a/b.RS");
    assert_eq!(Language::document_id("/a/.rs").unwrap_err().fault, Fault::UnsupportedSource);
    assert_eq!(Language::document_id("a.mjs").unwrap(), "javascript");
    assert_eq!(Language::Rust.name(), "rust");
    assert_eq!(TypeScriptBackend::TypeScriptLanguageServer.name(), "typescript-language-server");
    assert_eq!(TypeScriptBackend::default(), TypeScriptBackend::Auto);
}

#[test]
fn markers_decide_the_language() {
    assert_eq!(Language::default_for(NONE), Err(Fault::NoMarker));
    let both = Markers { cargo: true, package: true, ..NONE };
    assert_eq!(Language::default_for(both), Ok(Language::Rust));
    assert_eq!(
        Language::default_for(Markers { jsconfig: true, ..NONE }),
        Ok(Language::TypeScript)
    );
}

#[test]
fn cargo_names_the_workspace() {
    let cargo = Markers { cargo: true, ..NONE };
    match infer_root("/r/member/src", &vec![NONE, cargo, cargo]) {
        RootChoice::Cargo(dir) => assert_eq!(dir, "/r/member"),
        _ => panic!("no manifest"),
    }
    assert_eq!(cargo_root(true, "/r/Cargo.toml\n", "").unwrap(), "/r");
    assert_eq!(
        cargo_root(false, "", "no manifest").unwrap_err().message(),
        "Cannot infer Cargo workspace: no manifest"
    );
    assert_eq!(cargo_root(true, "\n", "").unwrap_err().fault, Fault::InvalidManifest);
}

#[test]
fn dependencies_are_found_up_to_the_repository() {
    assert_eq!(
        dependency_paths("/r/a", ".bin/tsc"),
        vec!["/r/a/node_modules/.bin/tsc", "/r/node_modules/.bin/tsc", "/node_modules/.bin/tsc"]
    );
    let no = Probe { file: false, git: false };
    let yes = Probe { file: true, git: true };
    let boundary = Probe { file: false, git: true };
    assert_eq!(
        workspace_dependency("/r/a", ".bin/tsc", &vec![no, yes, no]),
        Some("/r/node_modules/.bin/tsc".to_string())
    );
    assert_eq!(workspace_dependency("/r/a", ".bin/tsc", &vec![boundary, yes, no]), None);
    assert_eq!(workspace_dependency("/r/a", ".bin/tsc", &vec![no, no, no]), None);
}

#[test]
fn rust_settings_follow_the_configuration() {
    let mut config = Config::default();
    config.analyzer_settings = json(r#"{"checkOnSave":true,"cargo":{"allTargets":true}}"#);
    config.cargo_features = vec!["a".to_string(), "b".to_string()];
    config.cargo_target = Some("wasm32".to_string());
    let spec = rust_spec(&config).unwrap();
    assert_eq!(spec.name, "rust-analyzer");
    assert_eq!(spec.command, "rust-analyzer");
    assert!(spec.server_status && spec.args.is_empty());
    assert_eq!(
        spec.settings,
        json(
            r#"{"checkOnSave":false,"cargo":{"allTargets":true,"features":["a","b"],"noDefaultFeatures":false,"target":"wasm32"}}"#
        )
    );
    config.all_features = true;
    config.cargo_target = None;
    config.analyzer_settings = Json::object();
    let all = rust_spec(&config).unwrap();
    assert_eq!(all.settings.at("cargo").at("features").as_str(), Some("all"));
    assert!(!all.settings.at("cargo").has("target"));
    config.analyzer_settings = Json::array(vec![]);
    assert!(matches!(rust_spec(&config), Err(Fault::AnalyzerSettingsShape)));
}

#[test]
fn versions_are_read_from_reports() {
    let read = |success: bool, output: &str| {
        typescript_major(&VersionReport { success, output: output.to_string() })
    };
    assert_eq!(read(true, "Version 5.9.3\n"), Some(5));
    assert_eq!(read(true, "  Version 7"), Some(7));
    assert_eq!(read(false, "Version 5.9.3"), None);
    assert_eq!(read(true, "5.9.3"), None);
    assert_eq!(read(true, "Version x.1"), None);
    assert_eq!(read(true, "Version 99999999999.1"), None);
}

#[test]
fn backend_selection_pins_workspace_sdk_and_compiler() {
    let sdk = "/w/node_modules/typescript/lib";
    let mut config = Config::default();
    let mut known = facts();
    match typescript_spec(&config, &known) {
        SetupStep::AskVersion(binary) => assert_eq!(binary, "/w/node_modules/.bin/tsc"),
        _ => panic!("no version asked for"),
    }
    known.version = report("Version 5.9.3\n");
    assert!(matches!(typescript_spec(&config, &known), SetupStep::AskSdk));
    known.sdk = Some(Some(sdk.to_string()));
    assert!(matches!(typescript_spec(&config, &known), SetupStep::AskWrapper("vtsls")));
    known.wrapper = Some(None);
    let spec = ready(typescript_spec(&config, &known));
    assert_eq!(spec.name, "vtsls");
    assert_eq!(spec.command, "vtsls");
    assert_eq!(spec.section, "");
    assert_eq!(spec.settings.at("typescript").at("tsdk").as_str(), Some(sdk));
    assert_eq!(spec.settings.at("vtsls").at("autoUseWorkspaceTsdk"), &Json::boolean(true));
    config.typescript_backend = TypeScriptBackend::TypeScriptLanguageServer;
    config.typescript_language_server_settings =
        json(r#"{"tsserver":{"path":"/wrong/sdk", "useSyntaxServer":"never"}}"#);
    known.wrapper = Some(Some("/w/node_modules/.bin/typescript-language-server".to_string()));
    let spec = ready(typescript_spec(&config, &known));
    assert_eq!(spec.name, "typescript-language-server");
    assert_eq!(spec.command, "/w/node_modules/.bin/typescript-language-server");
    assert_eq!(spec.args, vec!["--stdio"]);
    assert_eq!(
        spec.settings.at("tsserver").at("path").as_str(),
        Some("/w/node_modules/typescript/lib/tsserver.js")
    );
    assert_eq!(spec.settings.at("tsserver").at("useSyntaxServer").as_str(), Some("never"));
    config.typescript_analyzer = Some("/unrelated/native/compiler".to_string());
    assert_eq!(
        typescript_binary(&known.compiler, &config).unwrap(),
        "/w/node_modules/.bin/tsc"
    );
    config.typescript_backend = TypeScriptBackend::Native;
    assert_eq!(
        refused(typescript_spec(&config, &known)).message(),
        "Native LSP requires workspace TypeScript 7; select vtsls or typescript-language-server for TypeScript 5"
    );
    config.typescript_analyzer = None;
    config.typescript_backend = TypeScriptBackend::Auto;
    known.version = report("Version 7.0.2\n");
    match typescript_spec(&config, &known) {
        SetupStep::AskServerVersion(binary) => assert_eq!(binary, "/w/node_modules/.bin/tsc"),
        _ => panic!("no version asked for"),
    }
    known.server_version = report("Version 7.0.2\n");
    let spec = ready(typescript_spec(&config, &known));
    assert_eq!(spec.name, "native-typescript");
    assert_eq!(spec.args, vec!["--lsp", "--stdio"]);
    config.typescript_backend = TypeScriptBackend::Vtsls;
    assert_eq!(refused(typescript_spec(&config, &known)).fault, Fault::WrapperVersion);
    // A repository below the project does not see the project's compiler.
    let probes = vec![
        Probe { file: false, git: false },
        Probe { file: false, git: true },
        Probe { file: true, git: false },
    ];
    let own = workspace_dependency("/w/nested/src", ".bin/tsc", &probes);
    assert!(typescript_binary(&own, &Config::default()).is_err());
    known.compiler = None;
    assert_eq!(refused(typescript_spec(&config, &known)).fault, Fault::NoTypeScript);
}

#[test]
fn unusable_typescript_tools_are_refused() {
    let mut config = Config::default();
    let mut known = facts();
    known.version = report("tsc: not found");
    assert_eq!(
        refused(typescript_spec(&config, &known)).message(),
        "Cannot determine TypeScript version at /w/node_modules/.bin/tsc: tsc: not found"
    );
    known.version = report("Version 7.0.0");
    config.typescript_analyzer = Some("/opt/tsc".to_string());
    known.server_version = report("Version 6.0.0");
    assert_eq!(refused(typescript_spec(&config, &known)).fault, Fault::AnalyzerNotSeven);
    known.server_version = report("?");
    assert_eq!(
        refused(typescript_spec(&config, &known)).message(),
        "Cannot determine TypeScript version at /opt/tsc: ?"
    );
    known.version = report("Version 3.9.0");
    assert_eq!(
        refused(typescript_spec(&config, &known)).message(),
        "The selected wrapper requires TypeScript 4–6, got 3. Use auto or native for TypeScript 7"
    );
    known.version = report("Version 5.0.0");
    known.sdk = Some(None);
    assert_eq!(refused(typescript_spec(&config, &known)).fault, Fault::NoTsserver);
    known.sdk = Some(Some("/sdk".to_string()));
    config.vtsls_settings = json(r#"{"vtsls":null}"#);
    assert_eq!(
        refused(typescript_spec(&config, &known)).message(),
        "vtsls_settings.vtsls must be an object"
    );
    config.vtsls_settings = json(r#"{"typescript":1}"#);
    assert_eq!(
        refused(typescript_spec(&config, &known)).message(),
        "vtsls_settings.typescript must be an object"
    );
    config.vtsls_settings = Json::null();
    assert_eq!(refused(typescript_spec(&config, &known)).fault, Fault::VtslsSettingsShape);
    config.typescript_backend = TypeScriptBackend::TypeScriptLanguageServer;
    config.typescript_language_server_settings = json(r#"{"tsserver":[]}"#);
    assert_eq!(
        refused(typescript_spec(&config, &known)).fault,
        Fault::LanguageServerSettingsShape
    );
    config.typescript_language_server_settings = Json::object();
    config.typescript_language_server = Some("/opt/tls".to_string());
    assert_eq!(ready(typescript_spec(&config, &known)).command, "/opt/tls");
    let rust = ready(Language::Rust.spec(&Config::default(), &facts()));
    assert_eq!(rust.section, "rust-analyzer");
}
