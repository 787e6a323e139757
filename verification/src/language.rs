//! What differs from language to language: which files belong to it, and which
//! server speaks it.

use crate::workspace::Config;
use crate::fault::{Failure, FailureView, Fault};
use crate::json::{Json, JsonView};
use crate::path;
use crate::text;
use vstd::prelude::*;

verus! {

/// A language that the bridge speaks.
#[derive(Clone, Copy, Debug, PartialEq, Eq, PartialOrd, Ord, Structural)]
pub enum Language {
    Rust,
    TypeScript,
}

/// The server that speaks TypeScript.
#[derive(Clone, Copy, Debug, PartialEq, Eq, Structural)]
pub enum TypeScriptBackend {
    /// Native for TypeScript 7, else vtsls.
    Auto,
    Native,
    Vtsls,
    TypeScriptLanguageServer,
}

impl Default for TypeScriptBackend {
    fn default() -> (r: TypeScriptBackend)
        ensures
            r == TypeScriptBackend::Auto,
    {
        TypeScriptBackend::Auto
    }
}

impl TypeScriptBackend {
    /// The backend's name.
    pub open spec fn named(self) -> Seq<char> {
        match self {
            TypeScriptBackend::Auto => "auto"@,
            TypeScriptBackend::Native => "native"@,
            TypeScriptBackend::Vtsls => "vtsls"@,
            TypeScriptBackend::TypeScriptLanguageServer => "typescript-language-server"@,
        }
    }

    /// The backend's name.
    pub fn name(self) -> (r: &'static str)
        ensures
            r@ == self.named(),
    {
        match self {
            TypeScriptBackend::Auto => "auto",
            TypeScriptBackend::Native => "native",
            TypeScriptBackend::Vtsls => "vtsls",
            TypeScriptBackend::TypeScriptLanguageServer => "typescript-language-server",
        }
    }
}

/// How to start a language server, and what to tell it.
pub struct ServerSpec {
    pub name: &'static str,
    pub command: String,
    pub args: Vec<String>,
    pub settings: Json,
    /// The configuration section that the server asks for; empty for the whole.
    pub section: &'static str,
    /// Whether the server reports when it is ready.
    pub server_status: bool,
}

/// How to start a language server, in the terms of contracts.
pub struct ServerView {
    pub name: Seq<char>,
    pub command: Seq<char>,
    pub args: Seq<Seq<char>>,
    pub settings: JsonView,
    pub section: Seq<char>,
    pub server_status: bool,
}

impl View for ServerSpec {
    type V = ServerView;

    open spec fn view(&self) -> ServerView {
        ServerView {
            name: self.name@,
            command: self.command@,
            args: text::texts_view(self.args@),
            settings: self.settings@,
            section: self.section@,
            server_status: self.server_status,
        }
    }
}

/// Which of the files that mark a workspace a directory holds.
#[derive(Clone, Copy, Debug, PartialEq, Eq, Structural)]
pub struct Markers {
    pub cargo: bool,
    pub tsconfig: bool,
    pub jsconfig: bool,
    pub package: bool,
    /// Whether the directory has a `.git` entry.
    pub git: bool,
}

impl Markers {
    /// Whether there is a file that marks a TypeScript or JavaScript project.
    pub open spec fn is_script(self) -> bool {
        self.tsconfig || self.jsconfig || self.package
    }

    /// Whether there is a file that marks a TypeScript or JavaScript project.
    pub fn script(self) -> (r: bool)
        ensures
            r == self.is_script(),
    {
        self.tsconfig || self.jsconfig || self.package
    }
}

/// Whether an extension is that of a TypeScript or JavaScript source.
pub open spec fn is_script_extension(extension: Seq<char>) -> bool {
    ||| extension == "ts"@
    ||| extension == "tsx"@
    ||| extension == "mts"@
    ||| extension == "cts"@
    ||| extension == "js"@
    ||| extension == "jsx"@
    ||| extension == "mjs"@
    ||| extension == "cjs"@
}

/// The language of a source file, by its extension.
pub open spec fn language_of(path: Seq<char>) -> Option<Language> {
    match path::extension_of(path) {
        Some(extension) => if extension == "rs"@ {
            Some(Language::Rust)
        } else if is_script_extension(extension) {
            Some(Language::TypeScript)
        } else {
            None
        },
        None => None,
    }
}

/// The language identifier of a source file's document.
pub open spec fn document_language(path: Seq<char>) -> Option<Seq<char>> {
    match path::extension_of(path) {
        Some(extension) => if extension == "rs"@ {
            Some("rust"@)
        } else if extension == "tsx"@ {
            Some("typescriptreact"@)
        } else if extension == "jsx"@ {
            Some("javascriptreact"@)
        } else if extension == "js"@ || extension == "mjs"@ || extension == "cjs"@ {
            Some("javascript"@)
        } else if is_script_extension(extension) {
            Some("typescript"@)
        } else {
            None
        },
        None => None,
    }
}

/// The settings that a Rust server gets: those configured, without checks on
/// save and with the configured Cargo features and target.
pub open spec fn rust_settings(config: Config) -> JsonView {
    let base = config.analyzer_settings@.with("checkOnSave"@, JsonView::Bool(false)).with_inner(
        "cargo"@,
        "features"@,
        if config.all_features {
            JsonView::Text("all"@)
        } else {
            JsonView::Array(
                text::texts_view(config.cargo_features@).map_values(
                    |t: Seq<char>| JsonView::Text(t),
                ),
            )
        },
    ).with_inner("cargo"@, "noDefaultFeatures"@, JsonView::Bool(config.no_default_features));
    match config.cargo_target {
        Some(target) => base.with_inner("cargo"@, "target"@, JsonView::Text(target@)),
        None => base,
    }
}

/// The Rust server.
pub open spec fn rust_server(config: Config) -> ServerView {
    ServerView {
        name: "rust-analyzer"@,
        command: config.analyzer@,
        args: Seq::empty(),
        settings: rust_settings(config),
        section: "rust-analyzer"@,
        server_status: true,
    }
}

impl Language {
    /// The language's name.
    pub open spec fn named(self) -> Seq<char> {
        match self {
            Language::Rust => "rust"@,
            Language::TypeScript => "typescript"@,
        }
    }

    /// The language's name.
    pub fn name(self) -> (r: &'static str)
        ensures
            r@ == self.named(),
    {
        match self {
            Language::Rust => "rust",
            Language::TypeScript => "typescript",
        }
    }

    /// The language of a source file, by its extension.
    pub fn for_path(path: &str) -> (r: Result<Language, Failure>)
        ensures
            match r {
                Ok(language) => language_of(path@) == Some(language),
                Err(failure) => language_of(path@) is None && failure@ == FailureView::at(
                    Fault::UnsupportedSource,
                    path@,
                ),
            },
    {
        match path::extension(path) {
            Some(extension) => {
                let e = extension.as_str();
                if text::same(e, "rs") {
                    return Ok(Language::Rust);
                }
                if text::same(e, "ts") || text::same(e, "tsx") || text::same(e, "mts")
                    || text::same(e, "cts") || text::same(e, "js") || text::same(e, "jsx")
                    || text::same(e, "mjs") || text::same(e, "cjs") {
                    return Ok(Language::TypeScript);
                }
            },
            None => {},
        }
        Err(Failure::at(Fault::UnsupportedSource, path))
    }

    /// The language that a workspace is opened with: Rust where there is a
    /// Cargo manifest, else TypeScript where there is a project file of it.
    pub fn default_for(markers: Markers) -> (r: Result<Language, Fault>)
        ensures
            r == if markers.cargo {
                Ok(Language::Rust)
            } else if markers.is_script() {
                Ok(Language::TypeScript)
            } else {
                Err(Fault::NoMarker)
            },
    {
        if markers.cargo {
            Ok(Language::Rust)
        } else if markers.script() {
            Ok(Language::TypeScript)
        } else {
            Err(Fault::NoMarker)
        }
    }

    /// The language identifier of a source file's document.
    pub fn document_id(path: &str) -> (r: Result<&'static str, Failure>)
        ensures
            match r {
                Ok(id) => document_language(path@) == Some(id@),
                Err(failure) => document_language(path@) is None && failure@ == FailureView::at(
                    Fault::UnsupportedSource,
                    path@,
                ),
            },
    {
        match path::extension(path) {
            Some(extension) => {
                let e = extension.as_str();
                if text::same(e, "rs") {
                    return Ok("rust");
                }
                if text::same(e, "tsx") {
                    return Ok("typescriptreact");
                }
                if text::same(e, "jsx") {
                    return Ok("javascriptreact");
                }
                if text::same(e, "js") || text::same(e, "mjs") || text::same(e, "cjs") {
                    return Ok("javascript");
                }
            },
            None => {},
        }
        match Language::for_path(path) {
            Ok(_) => Ok("typescript"),
            Err(failure) => Err(failure),
        }
    }
}

/// A source file has a document identifier exactly when it has a language.
pub proof fn law_sources_have_identifiers(path: Seq<char>)
    ensures
        document_language(path) is Some <==> language_of(path) is Some,
        language_of(path) == Some(Language::Rust) <==> document_language(path) == Some("rust"@),
{
    reveal_strlit("rust");
    reveal_strlit("typescriptreact");
    reveal_strlit("javascriptreact");
    reveal_strlit("javascript");
    reveal_strlit("typescript");
    assert("rust"@.len() == 4 && "typescript"@.len() == 10 && "javascript"@.len() == 10);
    assert("typescriptreact"@.len() == 15 && "javascriptreact"@.len() == 15);
}

/// How to start the Rust server.
pub fn rust_spec(config: &Config) -> (r: Result<ServerSpec, Fault>)
    requires
        config.analyzer_settings@.field("cargo"@) is Object
            || config.analyzer_settings@.field("cargo"@) is Null,
    ensures
        match r {
            Ok(spec) => config.analyzer_settings@ is Object && spec@ == rust_server(*config),
            Err(fault) => !(config.analyzer_settings@ is Object) && fault
                == Fault::AnalyzerSettingsShape,
        },
{
    let mut settings = config.analyzer_settings.copy();
    if !settings.is_object() {
        return Err(Fault::AnalyzerSettingsShape);
    }
    proof {
        reveal_strlit("cargo");
        reveal_strlit("checkOnSave");
        assert("cargo"@.len() != "checkOnSave"@.len());
    }
    settings.set("checkOnSave", Json::boolean(false));
    let features = if config.all_features {
        Json::text("all")
    } else {
        Json::texts(&config.cargo_features)
    };
    settings.set_inner("cargo", "features", features);
    settings.set_inner("cargo", "noDefaultFeatures", Json::boolean(config.no_default_features));
    match &config.cargo_target {
        Some(target) => {
            settings.set_inner("cargo", "target", Json::text(target.as_str()));
        },
        None => {},
    }
    let args: Vec<String> = Vec::new();
    proof {
        assert(text::texts_view(args@) =~= Seq::<Seq<char>>::empty());
    }
    Ok(
        ServerSpec {
            name: "rust-analyzer",
            command: config.analyzer.as_str().to_owned(),
            args,
            settings,
            section: "rust-analyzer",
            server_status: true,
        },
    )
}

// ---------------------------------------------------------------------------
// Finding things above a directory
// ---------------------------------------------------------------------------
/// What one directory on the way up has to do with a dependency.
#[derive(Clone, Copy, Debug, PartialEq, Eq, Structural)]
pub struct Probe {
    /// Whether the dependency's file is there.
    pub file: bool,
    /// Whether the directory has a `.git` entry.
    pub git: bool,
}

/// Where a dependency would be, seen from a directory.
pub open spec fn dependency_path(dir: Seq<char>, relative: Seq<char>) -> Seq<char> {
    path::joined_to(path::joined_to(dir, "node_modules"@), relative)
}

/// The nearest directory, from a place on, that has a dependency; none beyond
/// a repository's boundary.
pub open spec fn dependency_from(
    dirs: Seq<Seq<char>>,
    relative: Seq<char>,
    probes: Seq<Probe>,
    i: int,
) -> Option<Seq<char>>
    decreases dirs.len() - i,
{
    if i >= dirs.len() || i >= probes.len() {
        None
    } else if probes[i].file {
        Some(dependency_path(dirs[i], relative))
    } else if probes[i].git {
        None
    } else {
        dependency_from(dirs, relative, probes, i + 1)
    }
}

/// Where a dependency may be: in the `node_modules` of a directory and of those
/// above it.
pub fn dependency_paths(root: &str, relative: &str) -> (r: Vec<String>)
    ensures
        text::texts_view(r@) == path::ancestors_of(root@).map_values(
            |dir: Seq<char>| dependency_path(dir, relative@),
        ),
{
    let dirs = path::ancestors(root);
    let ghost views = text::texts_view(dirs@);
    let mut out: Vec<String> = Vec::new();
    let mut i: usize = 0;
    while i < dirs.len()
        invariant
            views == text::texts_view(dirs@),
            i <= dirs@.len(),
            out@.len() == i,
            forall|j: int|
                0 <= j < i ==> #[trigger] out@[j]@ == dependency_path(views[j], relative@),
        decreases dirs@.len() - i,
    {
        let modules = path::join(dirs[i].as_str(), "node_modules");
        out.push(path::join(modules.as_str(), relative));
        i = i + 1;
    }
    proof {
        assert(text::texts_view(out@) =~= views.map_values(
            |dir: Seq<char>| dependency_path(dir, relative@),
        ));
    }
    out
}

/// Where a dependency is, told from what the directories on the way up hold.
pub fn workspace_dependency(root: &str, relative: &str, probes: &Vec<Probe>) -> (r: Option<String>)
    ensures
        text::option_view(r) == dependency_from(
            path::ancestors_of(root@),
            relative@,
            probes@,
            0,
        ),
{
    let dirs = path::ancestors(root);
    let ghost views = path::ancestors_of(root@);
    let mut i: usize = 0;
    while i < dirs.len() && i < probes.len()
        invariant
            views == text::texts_view(dirs@),
            views == path::ancestors_of(root@),
            i <= dirs@.len(),
            dependency_from(views, relative@, probes@, 0) == dependency_from(
                views,
                relative@,
                probes@,
                i as int,
            ),
        decreases dirs@.len() - i,
    {
        if probes[i].file {
            let modules = path::join(dirs[i].as_str(), "node_modules");
            return Some(path::join(modules.as_str(), relative));
        }
        if probes[i].git {
            return None;
        }
        i = i + 1;
    }
    None
}

/// The workspace that a directory belongs to.
pub enum RootChoice {
    /// A Cargo manifest is here; Cargo knows the workspace.
    Cargo(String),
    Here(String),
    NotFound,
}

/// The workspace that a directory belongs to, in the terms of contracts.
pub enum RootView {
    Cargo(Seq<char>),
    Here(Seq<char>),
    NotFound,
}

impl View for RootChoice {
    type V = RootView;

    open spec fn view(&self) -> RootView {
        match *self {
            RootChoice::Cargo(dir) => RootView::Cargo(dir@),
            RootChoice::Here(dir) => RootView::Here(dir@),
            RootChoice::NotFound => RootView::NotFound,
        }
    }
}

/// The workspace that the nearest marker, from a place on, decides; none beyond
/// a repository's boundary.
pub open spec fn root_from(dirs: Seq<Seq<char>>, found: Seq<Markers>, i: int) -> RootView
    decreases dirs.len() - i,
{
    if i >= dirs.len() || i >= found.len() {
        RootView::NotFound
    } else if found[i].cargo {
        RootView::Cargo(dirs[i])
    } else if found[i].is_script() {
        RootView::Here(dirs[i])
    } else if found[i].git {
        RootView::NotFound
    } else {
        root_from(dirs, found, i + 1)
    }
}

/// The workspace that a directory belongs to, told from what it and those above
/// it hold.
pub fn infer_root(cwd: &str, found: &Vec<Markers>) -> (r: RootChoice)
    ensures
        r@ == root_from(path::ancestors_of(cwd@), found@, 0),
{
    let dirs = path::ancestors(cwd);
    let ghost views = path::ancestors_of(cwd@);
    let mut i: usize = 0;
    while i < dirs.len() && i < found.len()
        invariant
            views == text::texts_view(dirs@),
            views == path::ancestors_of(cwd@),
            i <= dirs@.len(),
            root_from(views, found@, 0) == root_from(views, found@, i as int),
        decreases dirs@.len() - i,
    {
        if found[i].cargo {
            return RootChoice::Cargo(dirs[i].as_str().to_owned());
        }
        if found[i].script() {
            return RootChoice::Here(dirs[i].as_str().to_owned());
        }
        if found[i].git {
            return RootChoice::NotFound;
        }
        i = i + 1;
    }
    RootChoice::NotFound
}

/// The nearest directory with a project file decides, also where it is the root of
/// its repository: Cargo is asked where there is a manifest, and the directory is
/// the workspace where there is a script project.
pub proof fn law_nearest_project_is_found(dirs: Seq<Seq<char>>, found: Seq<Markers>, i: int)
    requires
        0 <= i < found.len(),
        i < dirs.len(),
        found[i].cargo || found[i].tsconfig || found[i].jsconfig || found[i].package,
        forall|j: int|
            0 <= j < i ==> !(#[trigger] found[j]).cargo && !found[j].tsconfig && !found[j].jsconfig
                && !found[j].package && !found[j].git,
    ensures
        root_from(dirs, found, 0) == if found[i].cargo {
            RootView::Cargo(dirs[i])
        } else {
            RootView::Here(dirs[i])
        },
{
    lemma_nearest(dirs, found, i, 0);
}

proof fn lemma_nearest(dirs: Seq<Seq<char>>, found: Seq<Markers>, i: int, at: int)
    requires
        0 <= at <= i < found.len(),
        i < dirs.len(),
        found[i].cargo || found[i].is_script(),
        forall|j: int|
            0 <= j < i ==> !(#[trigger] found[j]).cargo && !found[j].is_script() && !found[j].git,
    ensures
        root_from(dirs, found, at) == if found[i].cargo {
            RootView::Cargo(dirs[i])
        } else {
            RootView::Here(dirs[i])
        },
    decreases i - at,
{
    if at < i {
        assert(!found[at].cargo);
        lemma_nearest(dirs, found, i, at + 1);
    }
}

/// Where no directory has a project file, there is no workspace.
pub proof fn law_no_project_is_made_up(dirs: Seq<Seq<char>>, found: Seq<Markers>)
    requires
        forall|j: int|
            0 <= j < found.len() ==> !(#[trigger] found[j]).cargo && !found[j].tsconfig
                && !found[j].jsconfig && !found[j].package,
    ensures
        root_from(dirs, found, 0) is NotFound,
{
    lemma_nothing(dirs, found, 0);
}

proof fn lemma_nothing(dirs: Seq<Seq<char>>, found: Seq<Markers>, i: int)
    requires
        0 <= i,
        forall|j: int| 0 <= j < found.len() ==> !(#[trigger] found[j]).cargo && !found[j].is_script(),
    ensures
        root_from(dirs, found, i) is NotFound,
    decreases dirs.len() - i,
{
    if i < dirs.len() && i < found.len() && !found[i].git {
        lemma_nothing(dirs, found, i + 1);
    }
}

/// The search for a workspace does not pass a repository's boundary: without a
/// marker up to it, there is no workspace, whatever stands above.
pub proof fn law_search_stops_at_repository(dirs: Seq<Seq<char>>, found: Seq<Markers>, boundary: int)
    requires
        0 <= boundary < found.len(),
        found[boundary].git,
        forall|j: int|
            0 <= j <= boundary ==> !(#[trigger] found[j]).cargo && !found[j].is_script(),
    ensures
        root_from(dirs, found, 0) is NotFound,
{
    lemma_stops(dirs, found, boundary, 0);
}

proof fn lemma_stops(dirs: Seq<Seq<char>>, found: Seq<Markers>, boundary: int, i: int)
    requires
        0 <= i <= boundary < found.len(),
        found[boundary].git,
        forall|j: int|
            0 <= j <= boundary ==> !(#[trigger] found[j]).cargo && !found[j].is_script(),
    ensures
        root_from(dirs, found, i) is NotFound,
    decreases boundary - i,
{
    if i < dirs.len() && !found[i].git {
        lemma_stops(dirs, found, boundary, i + 1);
    }
}

/// The workspace that Cargo reports.
pub open spec fn cargo_workspace(success: bool, stdout: Seq<char>, stderr: Seq<char>) -> Result<
    Seq<char>,
    FailureView,
> {
    if !success {
        Err(FailureView { fault: Fault::CargoFailed, detail: stderr })
    } else {
        match path::parent_of(text::trimmed(stdout)) {
            Some(root) => Ok(root),
            None => Err(FailureView::plain(Fault::InvalidManifest)),
        }
    }
}

/// The workspace that Cargo reports: the directory of the manifest that it
/// printed.
pub fn cargo_root(success: bool, stdout: &str, stderr: &str) -> (r: Result<String, Failure>)
    ensures
        match r {
            Ok(root) => cargo_workspace(success, stdout@, stderr@) == Ok::<Seq<char>, FailureView>(
                root@,
            ),
            Err(failure) => cargo_workspace(success, stdout@, stderr@) == Err::<
                Seq<char>,
                FailureView,
            >(failure@),
        },
{
    if !success {
        return Err(Failure::of(Fault::CargoFailed, stderr));
    }
    let manifest = text::trim(stdout);
    match path::parent(manifest.as_str()) {
        Some(root) => Ok(root),
        None => Err(Failure::plain(Fault::InvalidManifest)),
    }
}

// ---------------------------------------------------------------------------
// TypeScript
// ---------------------------------------------------------------------------
/// What a compiler said when asked for its version.
pub struct VersionReport {
    pub success: bool,
    pub output: String,
}

/// The major version that a report names.
pub open spec fn reported_major(success: bool, output: Seq<char>) -> Option<nat> {
    let said = text::trimmed(output);
    if success && text::has_prefix(said, "Version "@) {
        let version = said.skip("Version "@.len() as int);
        let major = match text::first_index(version, '.') {
            Some(dot) => version.take(dot),
            None => version,
        };
        match text::parsed_number(major) {
            Some(n) => if n <= u32::MAX {
                Some(n)
            } else {
                None
            },
            None => None,
        }
    } else {
        None
    }
}

/// The major version that a compiler reports: the number between `Version` and
/// the first dot.
pub fn typescript_major(report: &VersionReport) -> (r: Option<u32>)
    ensures
        match r {
            Some(n) => reported_major(report.success, report.output@) == Some(n as nat),
            None => reported_major(report.success, report.output@) is None,
        },
{
    if !report.success {
        return None;
    }
    let said = text::trim(report.output.as_str());
    let version = match text::strip_prefix(said.as_str(), "Version ") {
        Some(version) => version,
        None => {
            return None;
        },
    };
    let chars = text::chars_of(version.as_str());
    proof {
        assert(chars@.skip(0) =~= chars@);
    }
    let end: usize = match text::find_from(&chars, 0, '.') {
        Some(dot) => dot,
        None => chars.len(),
    };
    let major = text::text_between(&chars, 0, end);
    proof {
        assert(chars@.subrange(0, end as int) =~= chars@.take(end as int));
        assert(chars@.take(chars@.len() as int) =~= chars@);
    }
    match text::parse_number(major.as_str(), u32::MAX as u64) {
        Some(n) => Some(n as u32),
        None => None,
    }
}

/// The compiler that a workspace uses: its own, else the configured one.
pub open spec fn compiler_of(config: Config, own: Option<Seq<char>>) -> Option<Seq<char>> {
    if own is Some {
        own
    } else {
        text::option_view(config.typescript_analyzer)
    }
}

/// The compiler that a workspace uses. Which server wraps it does not matter;
/// the project's own compiler comes first.
pub fn typescript_binary(own: &Option<String>, config: &Config) -> (r: Result<String, Fault>)
    ensures
        match r {
            Ok(binary) => compiler_of(*config, text::option_view(*own)) == Some(binary@),
            Err(fault) => compiler_of(*config, text::option_view(*own)) is None && fault
                == Fault::NoTypeScript,
        },
{
    match own {
        Some(path) => Ok(path.as_str().to_owned()),
        None => match &config.typescript_analyzer {
            Some(path) => Ok(path.as_str().to_owned()),
            None => Err(Fault::NoTypeScript),
        },
    }
}

/// The backend that is used with a compiler of the given major version.
pub open spec fn chosen_backend(configured: TypeScriptBackend, major: nat) -> TypeScriptBackend {
    if configured == TypeScriptBackend::Auto {
        if major == 7 {
            TypeScriptBackend::Native
        } else {
            TypeScriptBackend::Vtsls
        }
    } else {
        configured
    }
}

/// What is known of a workspace's TypeScript tools. A field is none until it
/// has been asked for.
pub struct TypeScriptFacts {
    /// The workspace's own compiler, if it has one.
    pub compiler: Option<String>,
    /// What the compiler said of its version.
    pub version: Option<VersionReport>,
    /// What the binary that will serve said of its version.
    pub server_version: Option<VersionReport>,
    /// The workspace's own library directory, if it has one.
    pub sdk: Option<Option<String>>,
    /// The workspace's own wrapper command, if it has one.
    pub wrapper: Option<Option<String>>,
}

/// What is to be done next to start a TypeScript server.
pub enum SetupStep {
    /// Ask the compiler for its version.
    AskVersion(String),
    /// Ask the binary that will serve for its version.
    AskServerVersion(String),
    /// Look for `typescript/lib/tsserver.js` and resolve its directory.
    AskSdk,
    /// Look for a wrapper command in the workspace.
    AskWrapper(&'static str),
    Ready(ServerSpec),
    Failed(Failure),
}

/// What is to be done next, in the terms of contracts.
pub enum SetupView {
    AskVersion(Seq<char>),
    AskServerVersion(Seq<char>),
    AskSdk,
    AskWrapper(Seq<char>),
    Ready(ServerView),
    Failed(FailureView),
}

impl View for SetupStep {
    type V = SetupView;

    open spec fn view(&self) -> SetupView {
        match *self {
            SetupStep::AskVersion(binary) => SetupView::AskVersion(binary@),
            SetupStep::AskServerVersion(binary) => SetupView::AskServerVersion(binary@),
            SetupStep::AskSdk => SetupView::AskSdk,
            SetupStep::AskWrapper(name) => SetupView::AskWrapper(name@),
            SetupStep::Ready(spec) => SetupView::Ready(spec@),
            SetupStep::Failed(failure) => SetupView::Failed(failure@),
        }
    }
}

/// The failure of a version report that names no version.
pub open spec fn unknown_version(binary: Seq<char>, report: VersionReport) -> FailureView {
    FailureView {
        fault: Fault::UnknownVersion,
        detail: binary + ": "@ + text::trimmed(report.output@),
    }
}

/// The server that the compiler itself is.
pub open spec fn native_server(config: Config, binary: Seq<char>) -> ServerView {
    ServerView {
        name: "native-typescript"@,
        command: binary,
        args: seq!["--lsp"@, "--stdio"@],
        settings: config.typescript_settings@,
        section: "typescript"@,
        server_status: false,
    }
}

/// What is to be done next where the compiler serves itself.
pub open spec fn native_setup(
    config: Config,
    facts: TypeScriptFacts,
    compiler: Seq<char>,
    major: nat,
) -> SetupView {
    let binary = match config.typescript_analyzer {
        Some(configured) => configured@,
        None => compiler,
    };
    if major != 7 {
        SetupView::Failed(
            FailureView { fault: Fault::NativeNeedsSeven, detail: text::decimal(major) },
        )
    } else {
        match facts.server_version {
            None => SetupView::AskServerVersion(binary),
            Some(report) => match reported_major(report.success, report.output@) {
                None => SetupView::Failed(unknown_version(binary, report)),
                Some(n) => if n != 7 {
                    SetupView::Failed(FailureView::plain(Fault::AnalyzerNotSeven))
                } else {
                    SetupView::Ready(native_server(config, binary))
                },
            },
        }
    }
}

/// The command of a wrapper: the configured one, else the workspace's own, else
/// its bare name. None if the workspace has not been asked yet and matters.
pub open spec fn wrapper_command(
    configured: Option<String>,
    local: Option<Option<String>>,
    name: Seq<char>,
) -> Option<Seq<char>> {
    match configured {
        Some(command) => Some(command@),
        None => match local {
            None => None,
            Some(Some(path)) => Some(path@),
            Some(None) => Some(name),
        },
    }
}

/// A wrapper with its settings, once its command is known.
pub open spec fn wrapper_setup(
    name: Seq<char>,
    command: Option<Seq<char>>,
    settings: JsonView,
    section: Seq<char>,
) -> SetupView {
    match command {
        None => SetupView::AskWrapper(name),
        Some(command) => SetupView::Ready(
            ServerView {
                name,
                command,
                args: seq!["--stdio"@],
                settings,
                section,
                server_status: false,
            },
        ),
    }
}

/// Whether a member is there and is not an object.
pub open spec fn misshapen(settings: JsonView, key: Seq<char>) -> bool {
    settings.has(key) && !(settings.field(key) is Object)
}

/// What is to be done next where a wrapper drives the workspace's library.
pub open spec fn wrapped_setup(
    config: Config,
    facts: TypeScriptFacts,
    backend: TypeScriptBackend,
    major: nat,
) -> SetupView {
    if !(4 <= major <= 6) {
        SetupView::Failed(FailureView { fault: Fault::WrapperVersion, detail: text::decimal(major) })
    } else {
        match facts.sdk {
            None => SetupView::AskSdk,
            Some(None) => SetupView::Failed(FailureView::plain(Fault::NoTsserver)),
            Some(Some(sdk)) => if backend == TypeScriptBackend::TypeScriptLanguageServer {
                let settings = config.typescript_language_server_settings@;
                if !(settings is Object) || misshapen(settings, "tsserver"@) {
                    SetupView::Failed(FailureView::plain(Fault::LanguageServerSettingsShape))
                } else {
                    wrapper_setup(
                        "typescript-language-server"@,
                        wrapper_command(
                            config.typescript_language_server,
                            facts.wrapper,
                            "typescript-language-server"@,
                        ),
                        settings.with_inner(
                            "tsserver"@,
                            "path"@,
                            JsonView::Text(path::joined_to(sdk@, "tsserver.js"@)),
                        ),
                        "typescript"@,
                    )
                }
            } else {
                let settings = config.vtsls_settings@;
                if !(settings is Object) {
                    SetupView::Failed(FailureView::plain(Fault::VtslsSettingsShape))
                } else if misshapen(settings, "typescript"@) {
                    SetupView::Failed(
                        FailureView { fault: Fault::VtslsEntryShape, detail: "typescript"@ },
                    )
                } else if misshapen(settings, "vtsls"@) {
                    SetupView::Failed(
                        FailureView { fault: Fault::VtslsEntryShape, detail: "vtsls"@ },
                    )
                } else {
                    wrapper_setup(
                        "vtsls"@,
                        wrapper_command(config.vtsls_analyzer, facts.wrapper, "vtsls"@),
                        settings.with_inner("typescript"@, "tsdk"@, JsonView::Text(sdk@)).with_inner(
                            "vtsls"@,
                            "autoUseWorkspaceTsdk"@,
                            JsonView::Bool(true),
                        ),
                        ""@,
                    )
                }
            },
        }
    }
}

/// What is to be done next to start a TypeScript server.
pub open spec fn setup(config: Config, facts: TypeScriptFacts) -> SetupView {
    match compiler_of(config, text::option_view(facts.compiler)) {
        None => SetupView::Failed(FailureView::plain(Fault::NoTypeScript)),
        Some(compiler) => match facts.version {
            None => SetupView::AskVersion(compiler),
            Some(report) => match reported_major(report.success, report.output@) {
                None => SetupView::Failed(unknown_version(compiler, report)),
                Some(major) => {
                    let backend = chosen_backend(config.typescript_backend, major);
                    if backend == TypeScriptBackend::Native {
                        native_setup(config, facts, compiler, major)
                    } else {
                        wrapped_setup(config, facts, backend, major)
                    }
                },
            },
        },
    }
}

fn fail_unknown_version(binary: &str, report: &VersionReport) -> (r: SetupStep)
    ensures
        r@ == SetupView::Failed(unknown_version(binary@, *report)),
{
    let said = text::trim(report.output.as_str());
    let start = text::joined(binary, ": ");
    let detail = text::joined(start.as_str(), said.as_str());
    SetupStep::Failed(Failure::of(Fault::UnknownVersion, detail.as_str()))
}

fn one_text(only: &str) -> (r: Vec<String>)
    ensures
        text::texts_view(r@) == seq![only@],
{
    let mut out: Vec<String> = Vec::new();
    out.push(only.to_owned());
    proof {
        assert(text::texts_view(out@) =~= seq![only@]);
    }
    out
}

fn native_spec(
    config: &Config,
    facts: &TypeScriptFacts,
    compiler: &str,
    major: u32,
) -> (r: SetupStep)
    ensures
        r@ == native_setup(*config, *facts, compiler@, major as nat),
{
    if major != 7 {
        let detail = text::decimal_text(major as u64);
        return SetupStep::Failed(Failure::of(Fault::NativeNeedsSeven, detail.as_str()));
    }
    let binary = match &config.typescript_analyzer {
        Some(configured) => configured.as_str(),
        None => compiler,
    };
    match &facts.server_version {
        None => SetupStep::AskServerVersion(binary.to_owned()),
        Some(report) => match typescript_major(report) {
            None => fail_unknown_version(binary, report),
            Some(n) => {
                if n != 7 {
                    return SetupStep::Failed(Failure::plain(Fault::AnalyzerNotSeven));
                }
                let mut args: Vec<String> = Vec::new();
                args.push("--lsp".to_owned());
                args.push("--stdio".to_owned());
                proof {
                    assert(text::texts_view(args@) =~= seq!["--lsp"@, "--stdio"@]);
                }
                SetupStep::Ready(
                    ServerSpec {
                        name: "native-typescript",
                        command: binary.to_owned(),
                        args,
                        settings: config.typescript_settings.copy(),
                        section: "typescript",
                        server_status: false,
                    },
                )
            },
        },
    }
}

/// The command of a wrapper: the configured one, else the workspace's own, else
/// its bare name. None if the workspace has to be asked first.
pub fn wrapper_binary(
    configured: &Option<String>,
    local: &Option<Option<String>>,
    name: &str,
) -> (r: Option<String>)
    ensures
        text::option_view(r) == wrapper_command(*configured, *local, name@),
{
    match configured {
        Some(command) => Some(command.as_str().to_owned()),
        None => match local {
            None => None,
            Some(found) => match found {
                Some(path) => Some(path.as_str().to_owned()),
                None => Some(name.to_owned()),
            },
        },
    }
}

fn wrapper_spec(
    name: &'static str,
    command: Option<String>,
    settings: Json,
    section: &'static str,
) -> (r: SetupStep)
    ensures
        r@ == wrapper_setup(name@, text::option_view(command), settings@, section@),
{
    match command {
        None => SetupStep::AskWrapper(name),
        Some(command) => SetupStep::Ready(
            ServerSpec {
                name,
                command,
                args: one_text("--stdio"),
                settings,
                section,
                server_status: false,
            },
        ),
    }
}

fn is_misshapen(settings: &Json, key: &str) -> (r: bool)
    ensures
        r == misshapen(settings@, key@),
{
    match settings.get(key) {
        Some(value) => !value.is_object(),
        None => false,
    }
}

fn wrapped_spec(
    config: &Config,
    facts: &TypeScriptFacts,
    backend: TypeScriptBackend,
    major: u32,
) -> (r: SetupStep)
    ensures
        r@ == wrapped_setup(*config, *facts, backend, major as nat),
{
    if major < 4 || major > 6 {
        let detail = text::decimal_text(major as u64);
        return SetupStep::Failed(Failure::of(Fault::WrapperVersion, detail.as_str()));
    }
    let sdk = match &facts.sdk {
        None => {
            return SetupStep::AskSdk;
        },
        Some(found) => match found {
            None => {
                return SetupStep::Failed(Failure::plain(Fault::NoTsserver));
            },
            Some(sdk) => sdk.as_str(),
        },
    };
    if backend == TypeScriptBackend::TypeScriptLanguageServer {
        let mut settings = config.typescript_language_server_settings.copy();
        if !settings.is_object() || is_misshapen(&settings, "tsserver") {
            return SetupStep::Failed(Failure::plain(Fault::LanguageServerSettingsShape));
        }
        let server = path::join(sdk, "tsserver.js");
        settings.set_inner("tsserver", "path", Json::text(server.as_str()));
        let command = wrapper_binary(
            &config.typescript_language_server,
            &facts.wrapper,
            "typescript-language-server",
        );
        return wrapper_spec("typescript-language-server", command, settings, "typescript");
    }
    let mut settings = config.vtsls_settings.copy();
    if !settings.is_object() {
        return SetupStep::Failed(Failure::plain(Fault::VtslsSettingsShape));
    }
    if is_misshapen(&settings, "typescript") {
        return SetupStep::Failed(Failure::of(Fault::VtslsEntryShape, "typescript"));
    }
    if is_misshapen(&settings, "vtsls") {
        return SetupStep::Failed(Failure::of(Fault::VtslsEntryShape, "vtsls"));
    }
    proof {
        reveal_strlit("typescript");
        reveal_strlit("vtsls");
        assert("typescript"@.len() != "vtsls"@.len());
    }
    settings.set_inner("typescript", "tsdk", Json::text(sdk));
    settings.set_inner("vtsls", "autoUseWorkspaceTsdk", Json::boolean(true));
    let command = wrapper_binary(&config.vtsls_analyzer, &facts.wrapper, "vtsls");
    wrapper_spec("vtsls", command, settings, "")
}

/// What is to be done next to start a TypeScript server, from what is known so
/// far. The project's compiler decides the version; a wrapper always drives the
/// project's own library.
pub fn typescript_spec(config: &Config, facts: &TypeScriptFacts) -> (r: SetupStep)
    ensures
        r@ == setup(*config, *facts),
{
    let compiler = match typescript_binary(&facts.compiler, config) {
        Ok(compiler) => compiler,
        Err(fault) => {
            return SetupStep::Failed(Failure::plain(fault));
        },
    };
    let report = match &facts.version {
        None => {
            return SetupStep::AskVersion(compiler);
        },
        Some(report) => report,
    };
    let major: u32 = match typescript_major(report) {
        None => {
            return fail_unknown_version(compiler.as_str(), report);
        },
        Some(major) => major,
    };
    let backend = match config.typescript_backend {
        TypeScriptBackend::Auto => if major == 7 {
            TypeScriptBackend::Native
        } else {
            TypeScriptBackend::Vtsls
        },
        backend => backend,
    };
    if backend == TypeScriptBackend::Native {
        native_spec(config, facts, compiler.as_str(), major)
    } else {
        wrapped_spec(config, facts, backend, major)
    }
}

/// What is to be done next to start the server of a language.
pub open spec fn server_setup(language: Language, config: Config, facts: TypeScriptFacts) -> SetupView {
    match language {
        Language::Rust => if config.analyzer_settings@ is Object {
            SetupView::Ready(rust_server(config))
        } else {
            SetupView::Failed(FailureView::plain(Fault::AnalyzerSettingsShape))
        },
        Language::TypeScript => setup(config, facts),
    }
}

impl Language {
    /// What is to be done next to start this language's server.
    pub fn spec(self, config: &Config, facts: &TypeScriptFacts) -> (r: SetupStep)
        requires
            self == Language::Rust ==> config.analyzer_settings@.field("cargo"@) is Object
                || config.analyzer_settings@.field("cargo"@) is Null,
        ensures
            r@ == server_setup(self, *config, *facts),
    {
        match self {
            Language::Rust => match rust_spec(config) {
                Ok(spec) => SetupStep::Ready(spec),
                Err(fault) => SetupStep::Failed(Failure::plain(fault)),
            },
            Language::TypeScript => typescript_spec(config, facts),
        }
    }
}

/// The compiler never comes from the configuration where the workspace has one
/// of its own.
pub proof fn law_project_compiler_comes_first(config: Config, own: Seq<char>)
    ensures
        compiler_of(config, Some(own)) == Some(own),
{
}

/// A wrapper that is ready drives the workspace's own library, whatever path
/// the configured settings name.
pub proof fn law_wrappers_use_the_project_library(config: Config, facts: TypeScriptFacts)
    requires
        setup(config, facts) is Ready,
        facts.version matches Some(report) && reported_major(report.success, report.output@)
            matches Some(major) && chosen_backend(config.typescript_backend, major)
            != TypeScriptBackend::Native,
    ensures
        facts.sdk matches Some(Some(sdk)) && ({
            let settings = setup(config, facts)->Ready_0.settings;
            if config.typescript_backend == TypeScriptBackend::TypeScriptLanguageServer {
                settings.field("tsserver"@).field("path"@) == JsonView::Text(
                    path::joined_to(sdk@, "tsserver.js"@),
                )
            } else {
                settings.field("typescript"@).field("tsdk"@) == JsonView::Text(sdk@)
            }
        }),
{
    reveal_strlit("typescript");
    reveal_strlit("vtsls");
    assert("typescript"@.len() != "vtsls"@.len());
}

/// The language of a source file goes by its extension: `rs` is Rust, the
/// extensions of TypeScript and JavaScript are TypeScript, and all others are none.
pub proof fn law_languages_by_extension(path: Seq<char>)
    ensures
        path::extension_of(path) == Some("rs"@) ==> language_of(path) == Some(Language::Rust),
        path::extension_of(path) == Some("ts"@) || path::extension_of(path) == Some("tsx"@)
            || path::extension_of(path) == Some("mts"@) || path::extension_of(path) == Some("cts"@)
            || path::extension_of(path) == Some("js"@) || path::extension_of(path) == Some("jsx"@)
            || path::extension_of(path) == Some("mjs"@) || path::extension_of(path) == Some("cjs"@)
            ==> language_of(path) == Some(Language::TypeScript),
        language_of(path) == Some(Language::Rust) ==> path::extension_of(path) == Some("rs"@),
        language_of(path) == Some(Language::TypeScript) ==> path::extension_of(path) == Some("ts"@)
            || path::extension_of(path) == Some("tsx"@) || path::extension_of(path) == Some("mts"@)
            || path::extension_of(path) == Some("cts"@) || path::extension_of(path) == Some("js"@)
            || path::extension_of(path) == Some("jsx"@) || path::extension_of(path) == Some("mjs"@)
            || path::extension_of(path) == Some("cjs"@),
{
    reveal_strlit("rs");
    reveal_strlit("ts");
    reveal_strlit("tsx");
    reveal_strlit("mts");
    reveal_strlit("cts");
    reveal_strlit("js");
    reveal_strlit("jsx");
    reveal_strlit("mjs");
    reveal_strlit("cjs");
    assert("rs"@.len() == 2);
    assert("ts"@.len() == 2);
    assert("tsx"@.len() == 3);
    assert("mts"@.len() == 3);
    assert("cts"@.len() == 3);
    assert("js"@.len() == 2);
    assert("jsx"@.len() == 3);
    assert("mjs"@.len() == 3);
    assert("cjs"@.len() == 3);
    assert("rs"@[0] == 'r');
    assert("ts"@[0] == 't');
    assert("js"@[0] == 'j');
    assert("tsx"@[0] == 't');
    assert("mts"@[0] == 'm');
    assert("cts"@[0] == 'c');
    assert("jsx"@[0] == 'j');
    assert("mjs"@[0] == 'm');
    assert("cjs"@[0] == 'c');
    assert("mts"@[1] == 't');
    assert("mjs"@[1] == 'j');
    assert("cts"@[1] == 't');
    assert("cjs"@[1] == 'j');
}

/// What a document is called to its server goes by its extension too.
pub proof fn law_documents_are_named_by_extension(path: Seq<char>)
    ensures
        path::extension_of(path) == Some("rs"@) ==> document_language(path) == Some("rust"@),
        path::extension_of(path) == Some("tsx"@) ==> document_language(path) == Some(
            "typescriptreact"@,
        ),
        path::extension_of(path) == Some("jsx"@) ==> document_language(path) == Some(
            "javascriptreact"@,
        ),
        path::extension_of(path) == Some("js"@) || path::extension_of(path) == Some("mjs"@)
            || path::extension_of(path) == Some("cjs"@) ==> document_language(path) == Some(
            "javascript"@,
        ),
        path::extension_of(path) == Some("ts"@) || path::extension_of(path) == Some("mts"@)
            || path::extension_of(path) == Some("cts"@) ==> document_language(path) == Some(
            "typescript"@,
        ),
        document_language(path) is Some <==> language_of(path) is Some,
{
    reveal_strlit("rs");
    reveal_strlit("ts");
    reveal_strlit("tsx");
    reveal_strlit("mts");
    reveal_strlit("cts");
    reveal_strlit("js");
    reveal_strlit("jsx");
    reveal_strlit("mjs");
    reveal_strlit("cjs");
    assert("rs"@.len() == 2);
    assert("ts"@.len() == 2);
    assert("tsx"@.len() == 3);
    assert("mts"@.len() == 3);
    assert("cts"@.len() == 3);
    assert("js"@.len() == 2);
    assert("jsx"@.len() == 3);
    assert("mjs"@.len() == 3);
    assert("cjs"@.len() == 3);
    assert("rs"@[0] == 'r');
    assert("ts"@[0] == 't');
    assert("js"@[0] == 'j');
    assert("tsx"@[0] == 't');
    assert("mts"@[0] == 'm');
    assert("cts"@[0] == 'c');
    assert("jsx"@[0] == 'j');
    assert("mjs"@[0] == 'm');
    assert("cjs"@[0] == 'c');
    assert("mts"@[1] == 't');
    assert("mjs"@[1] == 'j');
    assert("cts"@[1] == 't');
    assert("cjs"@[1] == 'j');
}

/// The nearest directory that has a dependency gives it, also where it is the root of
/// its repository; beyond that none is sought.
pub proof fn law_nearest_dependency_is_found(
    dirs: Seq<Seq<char>>,
    relative: Seq<char>,
    probes: Seq<Probe>,
    i: int,
)
    requires
        0 <= i < probes.len(),
        i < dirs.len(),
        forall|j: int| 0 <= j < i ==> !(#[trigger] probes[j]).file && !probes[j].git,
    ensures
        probes[i].file ==> dependency_from(dirs, relative, probes, 0) == Some(
            path::joined_to(path::joined_to(dirs[i], "node_modules"@), relative),
        ),
        !probes[i].file && probes[i].git ==> dependency_from(dirs, relative, probes, 0) is None,
{
    lemma_dependency(dirs, relative, probes, i, 0);
}

proof fn lemma_dependency(
    dirs: Seq<Seq<char>>,
    relative: Seq<char>,
    probes: Seq<Probe>,
    i: int,
    at: int,
)
    requires
        0 <= at <= i < probes.len(),
        i < dirs.len(),
        forall|j: int| 0 <= j < i ==> !(#[trigger] probes[j]).file && !probes[j].git,
    ensures
        dependency_from(dirs, relative, probes, at) == dependency_from(dirs, relative, probes, i),
    decreases i - at,
{
    if at < i {
        assert(!probes[at].file);
        lemma_dependency(dirs, relative, probes, i, at + 1);
    }
}

/// The workspace that Cargo reports is the directory of the manifest that it names,
/// if it succeeds.
pub proof fn law_cargo_names_the_workspace(above: Seq<char>, dir: Seq<char>, stderr: Seq<char>)
    requires
        above.len() > 0,
        !text::is_blank(above[0]),
        path::is_entry(dir),
    ensures
        ({
            let root = path::joined_to(above, dir);
            let stdout = path::joined_to(root, "Cargo.toml"@).push('\n');
            &&& cargo_workspace(true, stdout, stderr) == Ok::<Seq<char>, FailureView>(root)
            &&& cargo_workspace(false, stdout, stderr) == Err::<Seq<char>, FailureView>(
                FailureView { fault: Fault::CargoFailed, detail: stderr },
            )
        }),
{
    let root = path::joined_to(above, dir);
    reveal_strlit("Cargo.toml");
    let file = "Cargo.toml"@;
    assert(file.len() == 10 && file.last() == 'l');
    assert(path::is_entry(file)) by {
        reveal_strlit(".");
        assert("."@.len() == 1);
        if file.contains('/') {
            let i = choose|i: int| 0 <= i < file.len() && file[i] == '/';
            assert(file[0] == 'C' && file[1] == 'a' && file[2] == 'r' && file[3] == 'g' && file[4]
                == 'o' && file[5] == '.' && file[6] == 't' && file[7] == 'o' && file[8] == 'm'
                && file[9] == 'l');
        }
    }
    assert(!path::is_rooted(dir)) by {
        if path::is_rooted(dir) {
            assert(dir.contains(dir[0]));
        }
    }
    let manifest = path::joined_to(root, file);
    let stdout = manifest.push('\n');
    path::law_parent_of_an_entry(above, dir, file);
    assert(root[0] == above[0]);
    assert(manifest[0] == root[0]);
    assert(manifest.last() == 'l');
    assert(text::trim_start(stdout) == stdout);
    assert(stdout.drop_last() =~= manifest);
    assert(text::is_blank('\n'));
    assert(!text::is_blank('l'));
    assert(text::trim_end(stdout) == manifest) by {
        reveal_with_fuel(text::trim_end, 3);
    }
}

/// The version that a compiler reports is the number before the first dot.
pub proof fn law_versions_are_read(major: u32, rest: Seq<char>)
    requires
        rest.len() > 0,
        !text::is_blank(rest.last()),
    ensures
        reported_major(true, "Version "@ + text::decimal(major as nat) + seq!['.'] + rest) == Some(
            major as nat,
        ),
        reported_major(
            false,
            "Version "@ + text::decimal(major as nat) + seq!['.'] + rest,
        ) is None,
{
    let digits = text::decimal(major as nat);
    let output = "Version "@ + digits + seq!['.'] + rest;
    reveal_strlit("Version ");
    assert("Version "@.len() == 8 && "Version "@[0] == 'V');
    text::lemma_decimal_parses(major as nat);
    assert(output[0] == 'V');
    assert(!text::is_blank('V'));
    assert(text::trim_start(output) == output);
    assert(output.last() == rest.last());
    assert(text::trim_end(output) == output);
    assert(output.take(8) =~= "Version "@);
    let version = output.skip(8);
    assert(version =~= digits + seq!['.'] + rest);
    assert forall|j: int| 0 <= j < digits.len() implies version[j] != '.' by {
        assert(version[j] == digits[j]);
        assert(text::is_digit(digits[j]));
    }
    text::lemma_first_index_is(version, '.', digits.len() as int);
    assert(version.take(digits.len() as int) =~= digits);
}

/// Without a choice the native server is taken for TypeScript 7 and vtsls for any
/// other; a choice is kept.
pub proof fn law_backends_are_chosen(configured: TypeScriptBackend, major: nat)
    ensures
        configured == TypeScriptBackend::Auto && major == 7 ==> chosen_backend(configured, major)
            == TypeScriptBackend::Native,
        configured == TypeScriptBackend::Auto && major != 7 ==> chosen_backend(configured, major)
            == TypeScriptBackend::Vtsls,
        configured != TypeScriptBackend::Auto ==> chosen_backend(configured, major) == configured,
{
}

/// The Rust server is started as configured: the command, the settings with the
/// features and the target, and without checks of its own.
pub proof fn law_the_rust_server_is_as_configured(config: Config, facts: TypeScriptFacts, key: Seq<char>)
    requires
        config.analyzer_settings@ is Object,
        config.analyzer_settings@.field("cargo"@) is Object || config.analyzer_settings@.field(
            "cargo"@,
        ) is Null,
    ensures
        server_setup(Language::Rust, config, facts) matches SetupView::Ready(server)
            && server.command == config.analyzer@ && server.args.len() == 0
            && server.settings.field("checkOnSave"@) == JsonView::Bool(false)
            && server.settings.field("cargo"@).field("noDefaultFeatures"@) == JsonView::Bool(
            config.no_default_features,
        ) && (config.all_features ==> server.settings.field("cargo"@).field("features"@)
            == JsonView::Text("all"@)) && (!config.all_features ==> (server.settings.field(
            "cargo"@,
        ).field("features"@) matches JsonView::Array(features) && features.len()
            == config.cargo_features@.len() && forall|i: int|
            0 <= i < features.len() ==> (#[trigger] features[i]) == JsonView::Text(
                config.cargo_features@[i]@,
            ))) && (config.cargo_target matches Some(target) ==> server.settings.field(
            "cargo"@,
        ).field("target"@) == JsonView::Text(target@)) && (key != "checkOnSave"@ && key != "cargo"@
            ==> server.settings.field(key) == config.analyzer_settings@.field(key)),
{
    reveal_strlit("checkOnSave");
    reveal_strlit("cargo");
    reveal_strlit("features");
    reveal_strlit("noDefaultFeatures");
    reveal_strlit("target");
    assert("checkOnSave"@.len() == 11);
    assert("cargo"@.len() == 5);
    assert("features"@.len() == 8);
    assert("noDefaultFeatures"@.len() == 17);
    assert("target"@.len() == 6);
}

/// A TypeScript server that can be started is: the native one for version 7, with the
/// configured binary or the project's own compiler.
pub proof fn law_native_servers_are_started(config: Config, facts: TypeScriptFacts, compiler: Seq<char>)
    requires
        compiler_of(config, text::option_view(facts.compiler)) == Some(compiler),
        facts.version matches Some(report) && reported_major(report.success, report.output@) == Some(
            7nat,
        ),
        facts.server_version matches Some(report) && reported_major(report.success, report.output@)
            == Some(7nat),
        config.typescript_backend == TypeScriptBackend::Auto || config.typescript_backend
            == TypeScriptBackend::Native,
    ensures
        server_setup(Language::TypeScript, config, facts) matches SetupView::Ready(server)
            && server.command == (match config.typescript_analyzer {
            Some(binary) => binary@,
            None => compiler,
        }) && server.args == seq!["--lsp"@, "--stdio"@] && server.settings
            == config.typescript_settings@,
{
}

/// A wrapper is started for versions 4 to 6, by the configured command, else the
/// project's own, else by its name.
pub proof fn law_wrappers_are_started(
    config: Config,
    facts: TypeScriptFacts,
    compiler: Seq<char>,
    major: nat,
    sdk: String,
)
    requires
        compiler_of(config, text::option_view(facts.compiler)) == Some(compiler),
        facts.version matches Some(report) && reported_major(report.success, report.output@) == Some(
            major,
        ),
        4 <= major <= 6,
        facts.sdk == Some(Some(sdk)),
        facts.wrapper is Some,
        config.typescript_backend == TypeScriptBackend::Auto || config.typescript_backend
            == TypeScriptBackend::Vtsls,
        config.vtsls_settings@ is Object,
        !config.vtsls_settings@.has("typescript"@) || config.vtsls_settings@.field(
            "typescript"@,
        ) is Object,
        !config.vtsls_settings@.has("vtsls"@) || config.vtsls_settings@.field("vtsls"@) is Object,
    ensures
        server_setup(Language::TypeScript, config, facts) matches SetupView::Ready(server)
            && server.name == "vtsls"@ && server.args == seq!["--stdio"@] && server.command == (
        match config.vtsls_analyzer {
            Some(command) => command@,
            None => match facts.wrapper->0 {
                Some(own) => own@,
                None => "vtsls"@,
            },
        }) && server.settings.field("typescript"@).field("tsdk"@) == JsonView::Text(sdk@)
            && server.settings.field("vtsls"@).field("autoUseWorkspaceTsdk"@) == JsonView::Bool(true),
{
    reveal_strlit("typescript");
    reveal_strlit("vtsls");
    reveal_strlit("tsdk");
    reveal_strlit("autoUseWorkspaceTsdk");
    assert("typescript"@.len() == 10);
    assert("vtsls"@.len() == 5);
    assert("tsdk"@.len() == 4);
    assert("autoUseWorkspaceTsdk"@.len() == 20);
}

/// Setting up a TypeScript server asks for what it needs: the compiler's version, then
/// that of the native server, or the project's library and its wrapper. Versions that
/// do not suit are refused.
pub proof fn law_setup_asks_for_what_it_needs(
    config: Config,
    facts: TypeScriptFacts,
    compiler: Seq<char>,
    major: nat,
)
    requires
        compiler_of(config, text::option_view(facts.compiler)) == Some(compiler),
    ensures
        facts.version is None ==> setup(config, facts) == SetupView::AskVersion(compiler),
        facts.version matches Some(report) && reported_major(report.success, report.output@) is None
            ==> (setup(config, facts) matches SetupView::Failed(failure) && failure.fault
            == Fault::UnknownVersion),
        (facts.version matches Some(report) && reported_major(report.success, report.output@)
            == Some(major)) && config.typescript_backend == TypeScriptBackend::Native && major != 7
            ==> (setup(config, facts) matches SetupView::Failed(failure) && failure.fault
            == Fault::NativeNeedsSeven && failure.detail == text::decimal(major)),
        (facts.version matches Some(report) && reported_major(report.success, report.output@)
            == Some(7nat)) && (config.typescript_backend == TypeScriptBackend::Native
            || config.typescript_backend == TypeScriptBackend::Auto) && facts.server_version is None
            ==> setup(config, facts) == SetupView::AskServerVersion(
            match config.typescript_analyzer {
                Some(binary) => binary@,
                None => compiler,
            },
        ),
        (facts.version matches Some(report) && reported_major(report.success, report.output@)
            == Some(major)) && (config.typescript_backend == TypeScriptBackend::Vtsls
            || config.typescript_backend == TypeScriptBackend::TypeScriptLanguageServer) && !(4
            <= major <= 6) ==> (setup(config, facts) matches SetupView::Failed(failure)
            && failure.fault == Fault::WrapperVersion && failure.detail == text::decimal(major)),
        (facts.version matches Some(report) && reported_major(report.success, report.output@)
            == Some(major)) && config.typescript_backend != TypeScriptBackend::Native && 4 <= major
            <= 6 && facts.sdk is None ==> setup(config, facts) == SetupView::AskSdk,
        (facts.version matches Some(report) && reported_major(report.success, report.output@)
            == Some(major)) && config.typescript_backend != TypeScriptBackend::Native && 4 <= major
            <= 6 && facts.sdk == Some(None::<String>) ==> (setup(config, facts) matches SetupView::Failed(
            failure,
        ) && failure.fault == Fault::NoTsserver),
{
}

/// Without a compiler of its own and a configured one a workspace has no TypeScript
/// server.
pub proof fn law_typescript_needs_a_compiler(config: Config, facts: TypeScriptFacts)
    ensures
        facts.compiler is None && config.typescript_analyzer is None ==> (setup(
            config,
            facts,
        ) matches SetupView::Failed(failure) && failure.fault == Fault::NoTypeScript),
        facts.compiler is None ==> (config.typescript_analyzer matches Some(configured)
            ==> compiler_of(config, text::option_view(facts.compiler)) == Some(configured@)),
{
}

/// The other wrapper is started in the same way, and told where the project's library is.
pub proof fn law_the_other_wrapper_is_started(
    config: Config,
    facts: TypeScriptFacts,
    compiler: Seq<char>,
    major: nat,
    sdk: String,
)
    requires
        compiler_of(config, text::option_view(facts.compiler)) == Some(compiler),
        facts.version matches Some(report) && reported_major(report.success, report.output@) == Some(
            major,
        ),
        4 <= major <= 6,
        facts.sdk == Some(Some(sdk)),
        facts.wrapper is Some,
        config.typescript_backend == TypeScriptBackend::TypeScriptLanguageServer,
        config.typescript_language_server_settings@ is Object,
        !config.typescript_language_server_settings@.has("tsserver"@)
            || config.typescript_language_server_settings@.field("tsserver"@) is Object,
    ensures
        server_setup(Language::TypeScript, config, facts) matches SetupView::Ready(server)
            && server.name == "typescript-language-server"@ && server.args == seq!["--stdio"@]
            && server.command == (match config.typescript_language_server {
            Some(command) => command@,
            None => match facts.wrapper->0 {
                Some(own) => own@,
                None => "typescript-language-server"@,
            },
        }) && server.settings.field("tsserver"@).field("path"@) == JsonView::Text(
            path::joined_to(sdk@, "tsserver.js"@),
        ),
{
    reveal_strlit("tsserver");
    reveal_strlit("path");
    assert("tsserver"@.len() == 8);
    assert("path"@.len() == 4);
}

} // verus!
