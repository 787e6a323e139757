//! Workspaces: their documents, checks and sessions.

use crate::escape;
use crate::fault::{Failure, FailureView, Fault};
use crate::json::{views, Json, JsonView};
use crate::language::{self, Language, TypeScriptBackend};
use crate::path;
use crate::refactor::{is_skipped_directory, skips_directory};
use crate::table::{among, lemma_among_all, lemma_among_next, Table};
use crate::text;
use crate::uri;
use vstd::prelude::*;
use vstd::utf8::encode_utf8;

verus! {

/// How the bridge starts language servers and compilers.
#[derive(Debug, PartialEq)]
pub struct Config {
    pub analyzer: String,
    pub typescript_analyzer: Option<String>,
    pub typescript_settings: Json,
    pub typescript_backend: TypeScriptBackend,
    pub typescript_language_server: Option<String>,
    pub typescript_language_server_settings: Json,
    pub vtsls_analyzer: Option<String>,
    pub vtsls_settings: Json,
    pub analyzer_settings: Json,
    pub environment: Table<String>,
    pub cargo_features: Vec<String>,
    pub cargo_target: Option<String>,
    pub all_features: bool,
    pub no_default_features: bool,
}

impl Config {
    /// Whether this is the configuration that nothing was said about.
    pub open spec fn is_default(self) -> bool {
        &&& self.analyzer@ == "rust-analyzer"@
        &&& self.typescript_analyzer is None
        &&& self.typescript_settings@ == JsonView::object()
        &&& self.typescript_backend == TypeScriptBackend::Auto
        &&& self.typescript_language_server is None
        &&& self.typescript_language_server_settings@ == JsonView::object()
        &&& self.vtsls_analyzer is None
        &&& self.vtsls_settings@ == JsonView::object()
        &&& self.analyzer_settings@ == JsonView::object()
        &&& self.environment@ == Map::<Seq<char>, String>::empty()
        &&& self.cargo_features@.len() == 0
        &&& self.cargo_target is None
        &&& !self.all_features
        &&& !self.no_default_features
    }
}

/// Whether two tables of texts hold the same.
pub open spec fn same_texts(a: Map<Seq<char>, String>, b: Map<Seq<char>, String>) -> bool {
    a.dom() == b.dom() && forall|k: Seq<char>| #[trigger] a.contains_key(k) ==> a[k]@ == b[k]@
}

/// Whether a configuration is another one, but for the backend.
pub open spec fn same_but_backend(a: Config, b: Config) -> bool {
    &&& a.analyzer@ == b.analyzer@
    &&& text::option_view(a.typescript_analyzer) == text::option_view(b.typescript_analyzer)
    &&& a.typescript_settings@ == b.typescript_settings@
    &&& text::option_view(a.typescript_language_server) == text::option_view(
        b.typescript_language_server,
    )
    &&& a.typescript_language_server_settings@ == b.typescript_language_server_settings@
    &&& text::option_view(a.vtsls_analyzer) == text::option_view(b.vtsls_analyzer)
    &&& a.vtsls_settings@ == b.vtsls_settings@
    &&& a.analyzer_settings@ == b.analyzer_settings@
    &&& same_texts(a.environment@, b.environment@)
    &&& text::texts_view(a.cargo_features@) == text::texts_view(b.cargo_features@)
    &&& text::option_view(a.cargo_target) == text::option_view(b.cargo_target)
    &&& a.all_features == b.all_features
    &&& a.no_default_features == b.no_default_features
}

fn copy_texts(table: &Table<String>) -> (r: Table<String>)
    ensures
        same_texts(r@, table@),
{
    let mut out: Table<String> = Table::new();
    let total: usize = table.len();
    let mut i: usize = 0;
    while i < total
        invariant
            total == table.count(),
            i <= total,
            forall|k: Seq<char>| #[trigger]
                out@.contains_key(k) <==> among(*table, k, i as int),
            forall|k: Seq<char>| #[trigger]
                out@.contains_key(k) ==> table@.contains_key(k) && out@[k]@ == table@[k]@,
        decreases total - i,
    {
        let key = table.key_at(i);
        out.insert(key, table.value_at(i).as_str().to_owned());
        proof {
            lemma_among_next(*table, i as int);
        }
        i = i + 1;
    }
    proof {
        lemma_among_all(*table);
        assert(out@.dom() =~= table@.dom());
    }
    out
}

fn copy_list(texts: &Vec<String>) -> (r: Vec<String>)
    ensures
        text::texts_view(r@) == text::texts_view(texts@),
{
    let mut out: Vec<String> = Vec::new();
    let mut i: usize = 0;
    while i < texts.len()
        invariant
            i <= texts@.len(),
            out@.len() == i,
            forall|j: int| 0 <= j < i ==> #[trigger] out@[j]@ == texts@[j]@,
        decreases texts@.len() - i,
    {
        out.push(texts[i].as_str().to_owned());
        i = i + 1;
    }
    proof {
        assert(text::texts_view(out@) =~= text::texts_view(texts@));
    }
    out
}

impl Config {
    /// This configuration with another backend.
    pub fn with_backend(&self, backend: TypeScriptBackend) -> (r: Config)
        ensures
            same_but_backend(r, *self),
            r.typescript_backend == backend,
    {
        Config {
            analyzer: self.analyzer.as_str().to_owned(),
            typescript_analyzer: text::copy_option(&self.typescript_analyzer),
            typescript_settings: self.typescript_settings.copy(),
            typescript_backend: backend,
            typescript_language_server: text::copy_option(&self.typescript_language_server),
            typescript_language_server_settings: self.typescript_language_server_settings.copy(),
            vtsls_analyzer: text::copy_option(&self.vtsls_analyzer),
            vtsls_settings: self.vtsls_settings.copy(),
            analyzer_settings: self.analyzer_settings.copy(),
            environment: copy_texts(&self.environment),
            cargo_features: copy_list(&self.cargo_features),
            cargo_target: text::copy_option(&self.cargo_target),
            all_features: self.all_features,
            no_default_features: self.no_default_features,
        }
    }
}

impl Default for Config {
    fn default() -> (r: Config)
        ensures
            r.is_default(),
    {
        Config {
            analyzer: "rust-analyzer".to_owned(),
            typescript_analyzer: None,
            typescript_settings: Json::object(),
            typescript_backend: TypeScriptBackend::Auto,
            typescript_language_server: None,
            typescript_language_server_settings: Json::object(),
            vtsls_analyzer: None,
            vtsls_settings: Json::object(),
            analyzer_settings: Json::object(),
            environment: Table::new(),
            cargo_features: Vec::new(),
            cargo_target: None,
            all_features: false,
            no_default_features: false,
        }
    }
}

/// What an editor tells of a workspace or of one of its documents.
#[derive(Debug, PartialEq)]
pub struct SyncEvent {
    pub workspace: String,
    pub companion: String,
    pub kind: String,
    pub uri: Option<String>,
    pub text: Option<String>,
    pub epoch: u64,
}

/// What an editor tells, in the terms of contracts.
#[verifier::ext_equal]
pub struct SyncEventView {
    pub workspace: Seq<char>,
    pub companion: Seq<char>,
    pub kind: Seq<char>,
    pub uri: Option<Seq<char>>,
    pub text: Option<Seq<char>>,
    pub epoch: u64,
}

impl View for SyncEvent {
    type V = SyncEventView;

    open spec fn view(&self) -> SyncEventView {
        SyncEventView {
            workspace: self.workspace@,
            companion: self.companion@,
            kind: self.kind@,
            uri: text::option_view(self.uri),
            text: text::option_view(self.text),
            epoch: self.epoch,
        }
    }
}

// ---------------------------------------------------------------------------
// Documents and their workspace
// ---------------------------------------------------------------------------
/// How long a companion is taken to be there after its last sign of life, in
/// milliseconds.
pub const COMPANION_LEASE: u64 = 15_000;

/// An open document.
pub struct Document {
    pub text: String,
    /// What its file held when it was last read; none if it could not be.
    pub disk: Option<String>,
    pub version: i64,
    /// How often the disk has changed under it.
    pub epoch: u64,
    /// Who the text comes from: the disk or the editor.
    pub source: &'static str,
}

/// An open document, in the terms of contracts.
#[verifier::ext_equal]
pub struct DocumentView {
    pub text: Seq<char>,
    pub disk: Option<Seq<char>>,
    pub version: i64,
    pub epoch: u64,
    pub source: Seq<char>,
}

impl View for Document {
    type V = DocumentView;

    open spec fn view(&self) -> DocumentView {
        DocumentView {
            text: self.text@,
            disk: text::option_view(self.disk),
            version: self.version,
            epoch: self.epoch,
            source: self.source@,
        }
    }
}

impl Document {
    /// A copy.
    pub fn copy(&self) -> (r: Document)
        ensures
            r@ == self@,
    {
        let r = Document {
            text: self.text.as_str().to_owned(),
            disk: text::copy_option(&self.disk),
            version: self.version,
            epoch: self.epoch,
            source: self.source,
        };
        proof {
            assert(r@ =~= self@);
        }
        r
    }
}

/// Documents, in the terms of contracts.
pub open spec fn document_views(documents: Map<Seq<char>, Document>) -> Map<
    Seq<char>,
    DocumentView,
> {
    Map::new(|uri: Seq<char>| documents.contains_key(uri), |uri: Seq<char>| documents[uri]@)
}

/// The last check of the saved files.
pub struct CheckState {
    pub running: bool,
    /// The state of the workspace that was checked; none if none was.
    pub generation: Option<u64>,
    pub success: Option<bool>,
    pub error: Option<String>,
    pub diagnostics: Vec<Json>,
}

/// The last check of the saved files, in the terms of contracts.
#[verifier::ext_equal]
pub struct CheckView {
    pub running: bool,
    pub generation: Option<u64>,
    pub success: Option<bool>,
    pub error: Option<Seq<char>>,
    pub diagnostics: Seq<JsonView>,
}

impl View for CheckState {
    type V = CheckView;

    open spec fn view(&self) -> CheckView {
        CheckView {
            running: self.running,
            generation: self.generation,
            success: self.success,
            error: text::option_view(self.error),
            diagnostics: views(self.diagnostics@),
        }
    }
}

/// A workspace: its open documents and what is known of its files.
pub struct Workspace {
    /// Tells this session from any other of the same directory.
    pub instance: String,
    pub running: bool,
    pub root: String,
    pub language: Language,
    pub config: Config,
    pub documents: Table<Document>,
    pub disk_hashes: Table<u64>,
    pub refactor_disk: Table<u64>,
    /// Counts the changes that a check of the saved files may depend on.
    pub generation: u64,
    pub companion: Option<String>,
    /// When the companion last gave a sign of life, in milliseconds.
    pub companion_seen: u64,
    pub check: CheckState,
    pub watcher_error: Option<String>,
}

/// A workspace, in the terms of contracts.
#[verifier::ext_equal]
pub struct WorkspaceView {
    pub instance: Seq<char>,
    pub running: bool,
    pub root: Seq<char>,
    pub language: Language,
    pub config: Config,
    pub documents: Map<Seq<char>, DocumentView>,
    pub disk_hashes: Map<Seq<char>, u64>,
    pub refactor_disk: Map<Seq<char>, u64>,
    pub generation: u64,
    pub companion: Option<Seq<char>>,
    pub companion_seen: u64,
    pub check: CheckView,
    pub watcher_error: Option<Seq<char>>,
}

impl View for Workspace {
    type V = WorkspaceView;

    open spec fn view(&self) -> WorkspaceView {
        WorkspaceView {
            instance: self.instance@,
            running: self.running,
            root: self.root@,
            language: self.language,
            config: self.config,
            documents: document_views(self.documents@),
            disk_hashes: self.disk_hashes@,
            refactor_disk: self.refactor_disk@,
            generation: self.generation,
            companion: text::option_view(self.companion),
            companion_seen: self.companion_seen,
            check: self.check@,
            watcher_error: text::option_view(self.watcher_error),
        }
    }
}

impl WorkspaceView {
    /// A workspace that has just been opened.
    pub open spec fn opened(
        instance: Seq<char>,
        root: Seq<char>,
        language: Language,
        config: Config,
        now: u64,
    ) -> WorkspaceView {
        WorkspaceView {
            instance,
            running: true,
            root,
            language,
            config,
            documents: Map::empty(),
            disk_hashes: Map::empty(),
            refactor_disk: Map::empty(),
            generation: 0,
            companion: None,
            companion_seen: now,
            check: CheckView {
                running: false,
                generation: None,
                success: None,
                error: None,
                diagnostics: Seq::empty(),
            },
            watcher_error: None,
        }
    }

    /// With one document put in or replaced.
    pub open spec fn with_document(self, uri: Seq<char>, document: DocumentView) -> WorkspaceView {
        WorkspaceView { documents: self.documents.insert(uri, document), ..self }
    }

    /// Without a document.
    pub open spec fn without_document(self, uri: Seq<char>) -> WorkspaceView {
        WorkspaceView { documents: self.documents.remove(uri), ..self }
    }

    /// Whether the last check was of the files as they are now.
    pub open spec fn check_fresh(self) -> bool {
        self.check.generation == Some(self.generation) && !self.check.running
            && self.watcher_error is None
    }

    /// How often the disk has changed under a document.
    pub open spec fn epoch_of(self, uri: Seq<char>) -> u64 {
        if self.documents.contains_key(uri) {
            self.documents[uri].epoch
        } else {
            0
        }
    }
}

// ---------------------------------------------------------------------------
// Paths
// ---------------------------------------------------------------------------
/// Whether a file is told to the language servers when it changes, by its name.
pub open spec fn is_watched_name(name: Seq<char>) -> bool {
    ||| name == "tsconfig.json"@
    ||| name == "jsconfig.json"@
    ||| name == "package.json"@
    ||| name == "bun.lock"@
    ||| name == "package-lock.json"@
    ||| name == "pnpm-lock.yaml"@
    ||| text::has_prefix(name, "tsconfig."@)
    ||| name == "Cargo.toml"@
    ||| name == "Cargo.lock"@
    ||| name == "build.rs"@
    ||| name == "config.toml"@
    ||| name == "rust-toolchain.toml"@
}

/// Whether a path leads through a directory that is not looked into.
pub open spec fn leads_aside(relative: Seq<char>) -> bool {
    let parts = path::components(relative);
    exists|i: int| 0 <= i < parts.len() && is_skipped_directory(#[trigger] parts[i])
}

/// Whether a change of a file matters to a workspace: it lies in it, outside
/// build output and dependencies, and is a source or a project file.
pub open spec fn is_watched(root: Seq<char>, file: Seq<char>) -> bool {
    path::relative_to(file, root) matches Some(relative) && !leads_aside(relative) && (
    language::language_of(file) is Some || (path::file_name_of(file) matches Some(name)
        && is_watched_name(name)))
}

fn watched_name(name: &str) -> (r: bool)
    ensures
        r == is_watched_name(name@),
{
    text::same(name, "tsconfig.json") || text::same(name, "jsconfig.json") || text::same(
        name,
        "package.json",
    ) || text::same(name, "bun.lock") || text::same(name, "package-lock.json") || text::same(
        name,
        "pnpm-lock.yaml",
    ) || text::starts_with(name, "tsconfig.") || text::same(name, "Cargo.toml") || text::same(
        name,
        "Cargo.lock",
    ) || text::same(name, "build.rs") || text::same(name, "config.toml") || text::same(
        name,
        "rust-toolchain.toml",
    )
}

fn goes_aside(relative: &str) -> (r: bool)
    ensures
        r == leads_aside(relative@),
{
    let parts = path::components_list(relative);
    let ghost all = path::components(relative@);
    let mut i: usize = 0;
    while i < parts.len()
        invariant
            all == path::components(relative@),
            text::texts_view(parts@) == all,
            i <= parts@.len(),
            forall|j: int| 0 <= j < i ==> !is_skipped_directory(#[trigger] all[j]),
        decreases parts@.len() - i,
    {
        proof {
            assert(all[i as int] == parts@[i as int]@);
        }
        if skips_directory(parts[i].as_str()) {
            return true;
        }
        i = i + 1;
    }
    false
}

/// Where a path leads on disk.
pub enum Lookup {
    /// It exists; this is its real path.
    Found(String),
    /// It does not exist; this is the real path of its directory.
    MissingIn(String),
}

/// The real path of a path that was looked up.
pub open spec fn resolved(root: Seq<char>, candidate: Seq<char>, lookup: Lookup) -> Result<
    Seq<char>,
    Fault,
> {
    let actual = match lookup {
        Lookup::Found(path) => Ok(path@),
        Lookup::MissingIn(dir) => match path::file_name_of(candidate) {
            Some(name) => Ok(path::joined_to(dir@, name)),
            None => Err(Fault::MissingFilename),
        },
    };
    match actual {
        Err(fault) => Err(fault),
        Ok(path) => if path::lies_in(path, root) {
            Ok(path)
        } else {
            Err(Fault::OutsideWorkspace)
        },
    }
}

/// The path that an input names, before it is looked up: a file URI, or a path
/// seen from the workspace.
pub open spec fn candidate(root: Seq<char>, input: Seq<char>) -> Result<Seq<char>, FailureView> {
    if text::has_prefix(input, "file:"@) {
        match uri::path_in_uri(input, Fault::InvalidUri) {
            Ok(bytes) => Ok(escape::path_text(bytes)),
            Err(failure) => Err(failure),
        }
    } else {
        Ok(path::joined_to(root, escape::path_text(encode_utf8(input))))
    }
}

/// The directory to look up where a path does not exist.
pub fn missing_parent(candidate: &str) -> (r: Result<String, Fault>)
    ensures
        match r {
            Ok(dir) => path::parent_of(candidate@) == Some(dir@),
            Err(fault) => path::parent_of(candidate@) is None && fault == Fault::MissingParent,
        },
{
    match path::parent(candidate) {
        Some(dir) => Ok(dir),
        None => Err(Fault::MissingParent),
    }
}

impl Workspace {
    /// A workspace that has just been opened, as a session of the given name.
    pub fn with_instance(
        instance: String,
        root: String,
        language: Language,
        config: Config,
        now: u64,
    ) -> (r: Workspace)
        ensures
            r@ == WorkspaceView::opened(instance@, root@, language, config, now),
    {
        let r = Workspace {
            instance,
            running: true,
            root,
            language,
            config,
            documents: Table::new(),
            disk_hashes: Table::new(),
            refactor_disk: Table::new(),
            generation: 0,
            companion: None,
            companion_seen: now,
            check: CheckState {
                running: false,
                generation: None,
                success: None,
                error: None,
                diagnostics: Vec::new(),
            },
            watcher_error: None,
        };
        proof {
            assert(r@ =~= WorkspaceView::opened(instance@, root@, language, config, now));
        }
        r
    }

    /// A workspace that has just been opened, as a session of its own.
    pub fn new(root: String, language: Language, config: Config, now: u64) -> (r: Workspace)
        ensures
            r@ == WorkspaceView::opened(r@.instance, root@, language, config, now),
            r@.instance.len() == 36,
    {
        Workspace::with_instance(uri::fresh_id(), root, language, config, now)
    }

    /// Whether the workspace has not been disconnected.
    pub fn ensure_running(&self) -> (r: Result<(), Fault>)
        ensures
            r == if self@.running {
                Ok(())
            } else {
                Err(Fault::Stopped)
            },
    {
        if self.running {
            Ok(())
        } else {
            Err(Fault::Stopped)
        }
    }

    /// Disconnects the workspace.
    pub fn stop(&mut self)
        ensures
            final(self)@ == (WorkspaceView { running: false, ..old(self)@ }),
    {
        self.running = false;
    }

    /// Whether a change of a file matters to the workspace.
    pub fn relevant(&self, file: &str) -> (r: bool)
        ensures
            r == is_watched(self@.root, file@),
    {
        match path::strip_prefix(file, self.root.as_str()) {
            None => false,
            Some(relative) => {
                if goes_aside(relative.as_str()) {
                    return false;
                }
                if Language::for_path(file).is_ok() {
                    return true;
                }
                match path::file_name(file) {
                    Some(name) => watched_name(name.as_str()),
                    None => false,
                }
            },
        }
    }

    /// The path that an input names, before it is looked up.
    pub fn candidate(&self, input: &str) -> (r: Result<String, Failure>)
        ensures
            match r {
                Ok(path) => candidate(self@.root, input@) == Ok::<Seq<char>, FailureView>(path@),
                Err(failure) => candidate(self@.root, input@) == Err::<Seq<char>, FailureView>(
                    failure@,
                ),
            },
    {
        if text::starts_with(input, "file:") {
            match uri::file_path(input, Fault::InvalidUri) {
                Ok(bytes) => Ok(escape::text_of_path(bytes.as_slice())),
                Err(failure) => Err(failure),
            }
        } else {
            let relative = escape::text_of_path(input.as_bytes());
            Ok(path::join(self.root.as_str(), relative.as_str()))
        }
    }

    /// The real path of a path that was looked up. It must lie in the
    /// workspace, wherever links lead.
    pub fn resolve(&self, candidate: &str, lookup: &Lookup) -> (r: Result<String, Fault>)
        ensures
            match r {
                Ok(path) => resolved(self@.root, candidate@, *lookup) == Ok::<Seq<char>, Fault>(
                    path@,
                ),
                Err(fault) => resolved(self@.root, candidate@, *lookup) == Err::<Seq<char>, Fault>(
                    fault,
                ),
            },
    {
        let actual = match lookup {
            Lookup::Found(path) => path.as_str().to_owned(),
            Lookup::MissingIn(dir) => match path::file_name(candidate) {
                Some(name) => path::join(dir.as_str(), name.as_str()),
                None => {
                    return Err(Fault::MissingFilename);
                },
            },
        };
        if path::starts_with(actual.as_str(), self.root.as_str()) {
            Ok(actual)
        } else {
            Err(Fault::OutsideWorkspace)
        }
    }

    /// The URI of a file.
    pub fn uri(&self, path: &str) -> (r: Result<String, Fault>)
        ensures
            match r {
                Ok(uri) => path::is_rooted(path@) && uri::file_uri_of(path@) == Some(uri@),
                Err(fault) => !path::is_rooted(path@) && fault == Fault::InvalidPath,
            },
    {
        uri::file_uri(path)
    }
}

/// No path outside the workspace is ever used, wherever links lead.
pub proof fn law_paths_stay_inside(root: Seq<char>, candidate: Seq<char>, lookup: Lookup)
    requires
        resolved(root, candidate, lookup) is Ok,
    ensures
        path::lies_in(resolved(root, candidate, lookup)->Ok_0, root),
{
}

/// A change matters if it is in the workspace, not under dependencies, build output
/// or version control, and of a source or of a file that describes the project.
pub proof fn law_watched_files(root: Seq<char>, file: Seq<char>)
    ensures
        path::relative_to(file, root) is None ==> !is_watched(root, file),
        path::relative_to(file, root) matches Some(relative) ==> {
            let parts = path::components(relative);
            let aside = exists|i: int|
                0 <= i < parts.len() && ((#[trigger] parts[i]) == ".git"@ || parts[i]
                    == "node_modules"@ || parts[i] == "target"@ || parts[i] == "dist"@ || parts[i]
                    == ".next"@);
            let counts = language::language_of(file) is Some || (path::file_name_of(file) matches
                Some(name) && (name == "tsconfig.json"@ || name == "jsconfig.json"@ || name
                == "package.json"@ || name == "bun.lock"@ || name == "package-lock.json"@ || name
                == "pnpm-lock.yaml"@ || text::has_prefix(name, "tsconfig."@) || name
                == "Cargo.toml"@ || name == "Cargo.lock"@ || name == "build.rs"@ || name
                == "config.toml"@ || name == "rust-toolchain.toml"@));
            is_watched(root, file) <==> !aside && counts
        },
{
    match path::relative_to(file, root) {
        Some(relative) => {
            let parts = path::components(relative);
            if leads_aside(relative) {
                let i = choose|i: int|
                    0 <= i < parts.len() && is_skipped_directory(#[trigger] parts[i]);
                assert(is_skipped_directory(parts[i]));
            }
            if exists|i: int|
                0 <= i < parts.len() && ((#[trigger] parts[i]) == ".git"@ || parts[i]
                    == "node_modules"@ || parts[i] == "target"@ || parts[i] == "dist"@ || parts[i]
                    == ".next"@) {
                let i = choose|i: int|
                    0 <= i < parts.len() && ((#[trigger] parts[i]) == ".git"@ || parts[i]
                        == "node_modules"@ || parts[i] == "target"@ || parts[i] == "dist"@
                        || parts[i] == ".next"@);
                assert(is_skipped_directory(parts[i]));
            }
        },
        None => {},
    }
}

/// An input is the path of a file URI, or a path seen from the workspace; what it
/// leads to must lie in the workspace, and a file that is not there is sought in the
/// real directory that it would be in.
pub proof fn law_inputs_are_paths(root: Seq<char>, input: Seq<char>, candidate_path: Seq<char>, lookup: Lookup)
    ensures
        !text::has_prefix(input, "file:"@) && !input.contains('\0') ==> candidate(root, input) == Ok::<
            Seq<char>,
            FailureView,
        >(path::joined_to(root, input)),
        text::has_prefix(input, "file:"@) && uri::url_normal(input) is Ok ==> match uri::url_path(
            input,
        ) {
            Some(bytes) => candidate(root, input) matches Ok(found) && escape::path_bytes(found)
                == bytes,
            None => candidate(root, input) is Err,
        },
        lookup matches Lookup::Found(found) ==> resolved(root, candidate_path, lookup)
            == if path::lies_in(found@, root) {
            Ok::<Seq<char>, Fault>(found@)
        } else {
            Err::<Seq<char>, Fault>(Fault::OutsideWorkspace)
        },
        lookup matches Lookup::MissingIn(dir) ==> match path::file_name_of(candidate_path) {
            Some(name) => resolved(root, candidate_path, lookup) == if path::lies_in(
                path::joined_to(dir@, name),
                root,
            ) {
                Ok::<Seq<char>, Fault>(path::joined_to(dir@, name))
            } else {
                Err::<Seq<char>, Fault>(Fault::OutsideWorkspace)
            },
            None => resolved(root, candidate_path, lookup) == Err::<Seq<char>, Fault>(
                Fault::MissingFilename,
            ),
        },
{
    if !input.contains('\0') {
        escape::law_plain_paths_are_texts(input);
    }
    match uri::url_path(input) {
        Some(bytes) => {
            escape::law_paths_keep_their_bytes(bytes);
        },
        None => {},
    }
}

/// A workspace that has just been opened runs, has no documents and no companion, and
/// nothing of it was checked.
pub proof fn law_opened_workspaces_are_unchecked(
    instance: Seq<char>,
    root: Seq<char>,
    language: Language,
    config: Config,
    now: u64,
)
    ensures
        ({
            let state = WorkspaceView::opened(instance, root, language, config, now);
            &&& state.running
            &&& state.instance == instance && state.root == root && state.language == language
                && state.config == config
            &&& forall|uri: Seq<char>| !(#[trigger] state.documents.contains_key(uri))
            &&& state.companion is None
            &&& state.check.success is None && !state.check.running && state.check.generation is None
            &&& !state.check_fresh()
            &&& state.watcher_error is None
        }),
{
}

} // verus!
