//! What is said of a workspace: its state, its configuration and its
//! diagnostics.

use crate::json::{copy_all, member_views, views, Json, JsonView};
use crate::language::Language;
use crate::lsp::{optional_number, Lsp, LspView};
use crate::table::{among, lemma_among_all, lemma_among_next, Table};
use crate::text;
use crate::workspace::{CheckState, CheckView, Config, Document, DocumentView};
use crate::workspace::{Workspace, WorkspaceView};
use vstd::prelude::*;

verus! {

/// A number, or null.
pub open spec fn optional_count(n: Option<u64>) -> JsonView {
    match n {
        Some(n) => JsonView::Int(n as int),
        None => JsonView::Null,
    }
}

/// A truth value, or null.
pub open spec fn optional_truth(b: Option<bool>) -> JsonView {
    match b {
        Some(b) => JsonView::Bool(b),
        None => JsonView::Null,
    }
}

/// What is said of a check.
pub open spec fn check_json(check: CheckView) -> JsonView {
    JsonView::object().with("running"@, JsonView::Bool(check.running)).with(
        "generation"@,
        optional_count(check.generation),
    ).with("success"@, optional_truth(check.success)).with(
        "error"@,
        JsonView::of_text(check.error),
    ).with("diagnostics"@, JsonView::Array(check.diagnostics))
}

impl CheckState {
    /// What is said of the check.
    pub fn to_json(&self) -> (r: Json)
        ensures
            r@ == check_json(self@),
    {
        let generation = match self.generation {
            Some(n) => Json::number(n),
            None => Json::null(),
        };
        let success = match self.success {
            Some(b) => Json::boolean(b),
            None => Json::null(),
        };
        Json::object().with("running", Json::boolean(self.running)).with(
            "generation",
            generation,
        ).with("success", success).with("error", Json::optional_text(&self.error)).with(
            "diagnostics",
            Json::array(copy_all(&self.diagnostics)),
        )
    }
}

/// What stands for the value of an environment variable.
pub open spec fn masked(environment: Map<Seq<char>, String>) -> JsonView {
    JsonView::Object(
        Map::new(
            |name: Seq<char>| environment.contains_key(name),
            |name: Seq<char>| JsonView::Text("configured"@),
        ),
    )
}

/// Texts as a JSON array.
pub open spec fn texts_json(texts: Seq<String>) -> JsonView {
    JsonView::Array(text::texts_view(texts).map_values(|t: Seq<char>| JsonView::Text(t)))
}

/// Where checks come from, as it is told.
pub open spec fn checks_note() -> Seq<char> {
    "Shared core runs Cargo and/or workspace TypeScript checks for active languages after disk changes or explicit diagnostics(check=true)"@
}

/// The configuration as it is shown: without the values of environment
/// variables, and with the settings that a Rust server really gets.
pub open spec fn public_config_view(config: Config, language: Language) -> JsonView {
    let settings = if language == Language::Rust {
        config.analyzer_settings@.or_object().with("checkOnSave"@, JsonView::Bool(false))
    } else {
        config.analyzer_settings@
    };
    JsonView::object().with("analyzer"@, JsonView::Text(config.analyzer@)).with(
        "typescript_analyzer"@,
        JsonView::of_text(text::option_view(config.typescript_analyzer)),
    ).with("typescript_settings"@, config.typescript_settings@).with(
        "typescript_backend"@,
        JsonView::Text(config.typescript_backend.named()),
    ).with(
        "typescript_language_server"@,
        JsonView::of_text(text::option_view(config.typescript_language_server)),
    ).with(
        "typescript_language_server_settings"@,
        config.typescript_language_server_settings@,
    ).with(
        "vtsls_analyzer"@,
        JsonView::of_text(text::option_view(config.vtsls_analyzer)),
    ).with("vtsls_settings"@, config.vtsls_settings@).with("analyzer_settings"@, settings).with(
        "environment"@,
        masked(config.environment@),
    ).with("cargo_features"@, texts_json(config.cargo_features@)).with(
        "cargo_target"@,
        JsonView::of_text(text::option_view(config.cargo_target)),
    ).with("all_features"@, JsonView::Bool(config.all_features)).with(
        "no_default_features"@,
        JsonView::Bool(config.no_default_features),
    ).with("compilerChecks"@, JsonView::Text(checks_note()))
}

fn mask(environment: &Table<String>) -> (r: Json)
    ensures
        r@ == masked(environment@),
{
    let mut out: Table<Json> = Table::new();
    let total: usize = environment.len();
    let mut i: usize = 0;
    while i < total
        invariant
            total == environment.count(),
            i <= total,
            forall|k: Seq<char>| #[trigger]
                out@.contains_key(k) <==> among(*environment, k, i as int),
            forall|k: Seq<char>| #[trigger]
                out@.contains_key(k) ==> environment@.contains_key(k) && out@[k]@
                    == JsonView::Text("configured"@),
        decreases total - i,
    {
        let key = environment.key_at(i);
        out.insert(key, Json::text("configured"));
        proof {
            lemma_among_next(*environment, i as int);
        }
        i = i + 1;
    }
    proof {
        lemma_among_all(*environment);
        assert(member_views(out@) =~= masked(environment@)->Object_0);
    }
    Json::from_table(out)
}

/// The configuration as it is shown.
pub fn public_config(config: &Config, language: Language) -> (r: Json)
    requires
        language == Language::Rust ==> config.analyzer_settings@ is Object
            || config.analyzer_settings@ is Null,
    ensures
        r@ == public_config_view(*config, language),
{
    let mut settings = config.analyzer_settings.copy();
    if language == Language::Rust {
        settings.set("checkOnSave", Json::boolean(false));
    }
    Json::object().with("analyzer", Json::text(config.analyzer.as_str())).with(
        "typescript_analyzer",
        Json::optional_text(&config.typescript_analyzer),
    ).with("typescript_settings", config.typescript_settings.copy()).with(
        "typescript_backend",
        Json::text(config.typescript_backend.name()),
    ).with(
        "typescript_language_server",
        Json::optional_text(&config.typescript_language_server),
    ).with(
        "typescript_language_server_settings",
        config.typescript_language_server_settings.copy(),
    ).with("vtsls_analyzer", Json::optional_text(&config.vtsls_analyzer)).with(
        "vtsls_settings",
        config.vtsls_settings.copy(),
    ).with("analyzer_settings", settings).with("environment", mask(&config.environment)).with(
        "cargo_features",
        Json::texts(&config.cargo_features),
    ).with("cargo_target", Json::optional_text(&config.cargo_target)).with(
        "all_features",
        Json::boolean(config.all_features),
    ).with("no_default_features", Json::boolean(config.no_default_features)).with(
        "compilerChecks",
        Json::text(
            "Shared core runs Cargo and/or workspace TypeScript checks for active languages after disk changes or explicit diagnostics(check=true)",
        ),
    )
}

/// No value of an environment variable is ever shown: only the names matter.
pub proof fn law_environment_is_masked(a: Map<Seq<char>, String>, b: Map<Seq<char>, String>)
    requires
        a.dom() == b.dom(),
    ensures
        masked(a) == masked(b),
{
    assert forall|k: Seq<char>| a.contains_key(k) == b.contains_key(k) by {
        assert(a.dom().contains(k) == b.dom().contains(k));
    }
    assert(masked(a)->Object_0 =~= masked(b)->Object_0);
}

// ---------------------------------------------------------------------------
// Status
// ---------------------------------------------------------------------------
/// What the status says of a document.
pub open spec fn document_row(uri: Seq<char>, document: DocumentView) -> JsonView {
    JsonView::object().with("uri"@, JsonView::Text(uri)).with(
        "source"@,
        JsonView::Text(document.source),
    ).with("version"@, JsonView::Int(document.version as int)).with(
        "epoch"@,
        JsonView::Int(document.epoch as int),
    )
}

/// What the status says of the documents, by URI.
pub open spec fn document_rows(documents: Table<Document>) -> Seq<JsonView> {
    Seq::new(documents.count(), |i: int| document_row(documents.key(i), documents.value(i)@))
}

/// Whether all servers are ready.
pub open spec fn all_ready(analyzers: Seq<JsonView>) -> bool {
    forall|i: int|
        0 <= i < analyzers.len() ==> (#[trigger] analyzers[i]).field("ready"@) == JsonView::Bool(
            true,
        )
}

/// What is said of a workspace, with what its servers say.
pub open spec fn workspace_status(
    workspace: Workspace,
    analyzers: Seq<JsonView>,
    primary: LspView,
    process: Option<u32>,
) -> JsonView {
    let state = workspace@;
    JsonView::object().with("workspace"@, JsonView::Text(state.root)).with(
        "language"@,
        JsonView::Text(state.language.named()),
    ).with("analyzers"@, JsonView::Array(analyzers)).with(
        "analyzerPid"@,
        optional_number(process),
    ).with("ready"@, JsonView::Bool(all_ready(analyzers))).with(
        "status"@,
        JsonView::Text(primary.status),
    ).with("companion"@, JsonView::of_text(state.companion)).with(
        "generation"@,
        JsonView::Int(state.generation as int),
    ).with("check"@, check_json(state.check)).with(
        "checkFresh"@,
        JsonView::Bool(state.check_fresh()),
    ).with("documents"@, JsonView::Array(document_rows(workspace.documents))).with(
        "config"@,
        public_config_view(state.config, state.language),
    ).with("watcherError"@, JsonView::of_text(state.watcher_error))
}

fn list_documents(documents: &Table<Document>) -> (r: Json)
    ensures
        r@ == JsonView::Array(document_rows(*documents)),
{
    let mut out: Vec<Json> = Vec::new();
    let total: usize = documents.len();
    let mut i: usize = 0;
    while i < total
        invariant
            total == documents.count(),
            i <= total,
            out@.len() == i,
            forall|j: int|
                0 <= j < i ==> #[trigger] out@[j]@ == document_row(
                    documents.key(j),
                    documents.value(j)@,
                ),
        decreases total - i,
    {
        let uri = documents.key_at(i);
        let document = documents.value_at(i);
        out.push(
            Json::object().with("uri", Json::text(uri)).with(
                "source",
                Json::text(document.source),
            ).with("version", Json::integer(document.version)).with(
                "epoch",
                Json::number(document.epoch),
            ),
        );
        i = i + 1;
    }
    proof {
        assert(views(out@) =~= document_rows(*documents));
    }
    Json::array(out)
}

fn ready_all(analyzers: &Vec<Json>) -> (r: bool)
    ensures
        r == all_ready(views(analyzers@)),
{
    let ghost all = views(analyzers@);
    let mut i: usize = 0;
    while i < analyzers.len()
        invariant
            all == views(analyzers@),
            i <= analyzers@.len(),
            forall|j: int|
                0 <= j < i ==> (#[trigger] all[j]).field("ready"@) == JsonView::Bool(true),
        decreases analyzers@.len() - i,
    {
        proof {
            assert(all[i as int] == analyzers@[i as int]@);
        }
        if !analyzers[i].at("ready").is_bool(true) {
            return false;
        }
        i = i + 1;
    }
    true
}

impl Workspace {
    /// What is said of the workspace. `analyzers` holds what is said of each of
    /// its servers; `primary` is the one that it was opened with.
    pub fn status(&self, analyzers: Vec<Json>, primary: &Lsp, process: Option<u32>) -> (r: Json)
        requires
            self@.language == Language::Rust ==> self@.config.analyzer_settings@ is Object
                || self@.config.analyzer_settings@ is Null,
        ensures
            r@ == workspace_status(*self, views(analyzers@), primary@, process),
    {
        let ready: bool = ready_all(&analyzers);
        let number = match process {
            Some(n) => Json::number(n as u64),
            None => Json::null(),
        };
        Json::object().with("workspace", Json::text(self.root.as_str())).with(
            "language",
            Json::text(self.language.name()),
        ).with("analyzers", Json::array(analyzers)).with("analyzerPid", number).with(
            "ready",
            Json::boolean(ready),
        ).with("status", Json::text(primary.state.status.as_str())).with(
            "companion",
            Json::optional_text(&self.companion),
        ).with("generation", Json::number(self.generation)).with(
            "check",
            self.check.to_json(),
        ).with("checkFresh", Json::boolean(self.check_fresh())).with(
            "documents",
            list_documents(&self.documents),
        ).with("config", public_config(&self.config, self.language)).with(
            "watcherError",
            Json::optional_text(&self.watcher_error),
        )
    }
}

// ---------------------------------------------------------------------------
// Diagnostics
// ---------------------------------------------------------------------------
/// Whether a document is among those that are asked for.
pub open spec fn is_target(target: Option<Seq<char>>, uri: Seq<char>) -> bool {
    match target {
        None => true,
        Some(wanted) => wanted == uri,
    }
}

/// What is said of a document's live diagnostics: what the server said, and
/// whether it was of the version that is open.
pub open spec fn live_entry(
    documents: Map<Seq<char>, DocumentView>,
    uri: Seq<char>,
    entry: JsonView,
) -> JsonView {
    entry.or_object().with(
        "matchesDocumentVersion"@,
        JsonView::Bool(
            documents.contains_key(uri) && entry.field("version"@).signed() == Some(
                documents[uri].version,
            ),
        ),
    )
}

/// The live diagnostics that are asked for.
pub open spec fn live_view(
    documents: Map<Seq<char>, DocumentView>,
    diagnostics: Map<Seq<char>, JsonView>,
    target: Option<Seq<char>>,
) -> Map<Seq<char>, JsonView> {
    Map::new(
        |uri: Seq<char>| diagnostics.contains_key(uri) && is_target(target, uri),
        |uri: Seq<char>| live_entry(documents, uri, diagnostics[uri]),
    )
}

/// What servers say together; the later one counts where they disagree.
pub open spec fn merged(first: Option<LspView>, second: Option<LspView>) -> Map<
    Seq<char>,
    JsonView,
> {
    let a = match first {
        Some(lsp) => lsp.diagnostics,
        None => Map::empty(),
    };
    let b = match second {
        Some(lsp) => lsp.diagnostics,
        None => Map::empty(),
    };
    a.union_prefer_right(b)
}

/// Why live diagnostics and checks differ, as it is told.
pub open spec fn diagnostics_note() -> Seq<char> {
    "Compiler check applies to saved files only; live diagnostics may describe editor overlays. No completed check means unknown, not clean."@
}

/// What is said of a workspace's diagnostics.
pub open spec fn diagnostics_answer(
    state: WorkspaceView,
    primary: LspView,
    live: Map<Seq<char>, JsonView>,
) -> JsonView {
    JsonView::object().with("ready"@, JsonView::Bool(primary.ready)).with(
        "analysisStatus"@,
        JsonView::Text(primary.status),
    ).with("liveDiagnostics"@, JsonView::Object(live)).with(
        "savedFileCheck"@,
        check_json(state.check),
    ).with("checkFresh"@, JsonView::Bool(state.check_fresh())).with(
        "generation"@,
        JsonView::Int(state.generation as int),
    ).with("note"@, JsonView::Text(diagnostics_note()))
}

/// Whether a server gives diagnostics when asked.
pub fn pulls(capabilities: &Json) -> (r: bool)
    ensures
        r == !(capabilities@.field("diagnosticProvider"@) is Null),
{
    !capabilities.at("diagnosticProvider").is_null()
}

/// What a server's answer says of a document, if it is a full report.
pub fn pulled(uri: &str, version: i64, result: &Json) -> (r: Option<Json>)
    ensures
        match r {
            Some(entry) => result@.field("kind"@) == JsonView::Text("full"@) && entry@
                == JsonView::object().with("uri"@, JsonView::Text(uri@)).with(
                "version"@,
                JsonView::Int(version as int),
            ).with("diagnostics"@, result@.field("items"@)),
            None => result@.field("kind"@) != JsonView::Text("full"@),
        },
{
    if result.at("kind").is_str("full") {
        Some(
            Json::object().with("uri", Json::text(uri)).with(
                "version",
                Json::integer(version),
            ).with("diagnostics", result.at("items").copy()),
        )
    } else {
        None
    }
}

/// The texts of an optional target.
pub open spec fn target_view(target: Option<&str>) -> Option<Seq<char>> {
    match target {
        Some(uri) => Some(uri@),
        None => None,
    }
}

/// A document and its version.
pub struct Versioned {
    pub uri: String,
    pub version: i64,
}

impl Workspace {
    /// The open documents that are asked for, with their versions.
    pub fn wanted_documents(&self, target: Option<&str>) -> (r: Vec<Versioned>)
        ensures
            forall|i: int|
                0 <= i < r@.len() ==> self@.documents.contains_key((#[trigger] r@[i]).uri@)
                    && is_target(target_view(target), r@[i].uri@) && r@[i].version
                    == self@.documents[r@[i].uri@].version,
            forall|uri: Seq<char>|
                self@.documents.contains_key(uri) && is_target(target_view(target), uri)
                    ==> exists|i: int| 0 <= i < r@.len() && (#[trigger] r@[i]).uri@ == uri,
            forall|i: int, j: int|
                0 <= i < j < r@.len() ==> (#[trigger] r@[i]).uri@ != (#[trigger] r@[j]).uri@,
    {
        let documents = &self.documents;
        let mut out: Vec<Versioned> = Vec::new();
        let total: usize = documents.len();
        let mut i: usize = 0;
        while i < total
            invariant
                total == documents.count(),
                *documents == self.documents,
                i <= total,
                forall|k: int|
                    0 <= k < out@.len() ==> documents@.contains_key((#[trigger] out@[k]).uri@)
                        && is_target(target_view(target), out@[k].uri@) && out@[k].version
                        == documents@[out@[k].uri@].version && exists|j: int|
                        0 <= j < i && #[trigger] documents.key(j) == out@[k].uri@,
                forall|j: int|
                    0 <= j < i && is_target(target_view(target), #[trigger] documents.key(j))
                        ==> exists|k: int|
                        0 <= k < out@.len() && (#[trigger] out@[k]).uri@ == documents.key(j),
                forall|a: int, b: int|
                    0 <= a < b < out@.len() ==> (#[trigger] out@[a]).uri@ != (
                    #[trigger] out@[b]).uri@,
            decreases total - i,
        {
            let uri = documents.key_at(i);
            let wanted: bool = match target {
                None => true,
                Some(target) => text::same(target, uri),
            };
            let ghost before = out@;
            if wanted {
                let version: i64 = documents.value_at(i).version;
                proof {
                    assert forall|k: int| 0 <= k < before.len() implies (
                    #[trigger] before[k]).uri@ != uri@ by {
                        let j = choose|j: int|
                            0 <= j < i && #[trigger] documents.key(j) == before[k].uri@;
                        text::lemma_order_irreflexive(uri@);
                        assert(text::comes_before(documents.key(j), documents.key(i as int)));
                    }
                }
                out.push(Versioned { uri: uri.to_owned(), version });
            }
            proof {
                assert forall|k: int| 0 <= k < out@.len() implies exists|j: int|
                    0 <= j < i + 1 && #[trigger] documents.key(j) == (
                    #[trigger] out@[k]).uri@ by {
                    if k < before.len() {
                        let j = choose|j: int|
                            0 <= j < i && #[trigger] documents.key(j) == before[k].uri@;
                        assert(0 <= j < i + 1 && documents.key(j) == out@[k].uri@);
                    } else {
                        assert(documents.key(i as int) == out@[k].uri@);
                    }
                }
                assert forall|j: int|
                    0 <= j < i + 1 && is_target(
                        target_view(target),
                        #[trigger] documents.key(j),
                    ) implies exists|k: int|
                    0 <= k < out@.len() && (#[trigger] out@[k]).uri@ == documents.key(j) by {
                    if j < i {
                        let k = choose|k: int|
                            0 <= k < before.len() && (#[trigger] before[k]).uri@ == documents.key(
                                j,
                            );
                        assert(out@[k].uri@ == documents.key(j));
                    } else {
                        assert(out@[before.len() as int].uri@ == documents.key(j));
                    }
                }
            }
            i = i + 1;
        }
        proof {
            assert forall|uri: Seq<char>|
                self@.documents.contains_key(uri) && is_target(target_view(target), uri) implies
                exists|k: int| 0 <= k < out@.len() && (#[trigger] out@[k]).uri@ == uri by {
                let j = choose|j: int| crate::table::key_at(documents.entries@, uri, j);
                assert(documents.key(j) == uri);
            }
        }
        out
    }

    fn add_live(&self, out: &mut Table<Json>, diagnostics: &Table<Json>, target: Option<&str>)
        ensures
            member_views(final(out)@) == member_views(old(out)@).union_prefer_right(
                live_view(self@.documents, member_views(diagnostics@), target_view(target)),
            ),
    {
        let ghost said = member_views(diagnostics@);
        let ghost wanted = live_view(self@.documents, said, target_view(target));
        let ghost before = out@;
        let total: usize = diagnostics.len();
        let mut i: usize = 0;
        while i < total
            invariant
                total == diagnostics.count(),
                said == member_views(diagnostics@),
                wanted == live_view(self@.documents, said, target_view(target)),
                i <= total,
                forall|k: Seq<char>| #[trigger]
                    out@.contains_key(k) <==> before.contains_key(k) || (wanted.contains_key(k)
                        && among(*diagnostics, k, i as int)),
                forall|k: Seq<char>| #[trigger]
                    out@.contains_key(k) ==> out@[k]@ == if wanted.contains_key(k) && among(
                        *diagnostics,
                        k,
                        i as int,
                    ) {
                        wanted[k]
                    } else {
                        before[k]@
                    },
            decreases total - i,
        {
            let uri = diagnostics.key_at(i);
            let entry = diagnostics.value_at(i);
            let asked: bool = match target {
                None => true,
                Some(target) => text::same(target, uri),
            };
            proof {
                assert(said.contains_key(uri@) && said[uri@] == entry@);
            }
            if asked {
                let matches: bool = match self.documents.get(uri) {
                    Some(document) => match entry.at("version").as_i64() {
                        Some(version) => version == document.version,
                        None => false,
                    },
                    None => false,
                };
                let base = if entry.is_null() {
                    Json::object()
                } else {
                    entry.copy()
                };
                out.insert(uri, base.with("matchesDocumentVersion", Json::boolean(matches)));
            }
            proof {
                lemma_among_next(*diagnostics, i as int);
                assert(wanted.contains_key(uri@) == asked);
            }
            i = i + 1;
        }
        proof {
            lemma_among_all(*diagnostics);
            let left = member_views(out@);
            let right = member_views(before).union_prefer_right(wanted);
            assert forall|k: Seq<char>| #[trigger]
                left.dom().contains(k) == right.dom().contains(k) by {}
            assert forall|k: Seq<char>| #[trigger] left.dom().contains(k) implies left[k]
                == right[k] by {}
            assert(left =~= right);
        }
    }

    /// What is said of the workspace's diagnostics, or of one document's.
    pub fn diagnostics(
        &self,
        primary: &Lsp,
        first: Option<&Lsp>,
        second: Option<&Lsp>,
        target: Option<&str>,
    ) -> (r: Json)
        ensures
            r@ == diagnostics_answer(
                self@,
                primary@,
                live_view(
                    self@.documents,
                    merged(
                        match first {
                            Some(lsp) => Some(lsp@),
                            None => None,
                        },
                        match second {
                            Some(lsp) => Some(lsp@),
                            None => None,
                        },
                    ),
                    target_view(target),
                ),
            ),
    {
        let mut live: Table<Json> = Table::new();
        let ghost a = match first {
            Some(lsp) => lsp@.diagnostics,
            None => Map::<Seq<char>, JsonView>::empty(),
        };
        let ghost b = match second {
            Some(lsp) => lsp@.diagnostics,
            None => Map::<Seq<char>, JsonView>::empty(),
        };
        let ghost goal = target_view(target);
        proof {
            assert(member_views(live@) =~= Map::<Seq<char>, JsonView>::empty());
            assert(live_view(self@.documents, Map::empty(), goal) =~= Map::empty());
        }
        match first {
            Some(lsp) => {
                self.add_live(&mut live, &lsp.state.diagnostics, target);
            },
            None => {},
        }
        proof {
            assert(member_views(live@) =~= live_view(self@.documents, a, goal));
        }
        match second {
            Some(lsp) => {
                self.add_live(&mut live, &lsp.state.diagnostics, target);
            },
            None => {},
        }
        proof {
            assert(member_views(live@) =~= live_view(
                self@.documents,
                a.union_prefer_right(b),
                goal,
            ));
        }
        Json::object().with("ready", Json::boolean(primary.state.ready)).with(
            "analysisStatus",
            Json::text(primary.state.status.as_str()),
        ).with("liveDiagnostics", Json::from_table(live)).with(
            "savedFileCheck",
            self.check.to_json(),
        ).with("checkFresh", Json::boolean(self.check_fresh())).with(
            "generation",
            Json::number(self.generation),
        ).with(
            "note",
            Json::text(
                "Compiler check applies to saved files only; live diagnostics may describe editor overlays. No completed check means unknown, not clean.",
            ),
        )
    }
}

/// Diagnostics tell whether the server is ready and what it is doing, all of its
/// findings, what the last check of the saved files came to, and whether that was of
/// the files as they are.
pub proof fn law_diagnostics_tell_the_state(
    state: WorkspaceView,
    primary: LspView,
    live: Map<Seq<char>, JsonView>,
)
    ensures
        ({
            let told = diagnostics_answer(state, primary, live);
            &&& told.field("ready"@) == JsonView::Bool(primary.ready)
            &&& told.field("analysisStatus"@) == JsonView::Text(primary.status)
            &&& told.field("liveDiagnostics"@) == JsonView::Object(live)
            &&& told.field("savedFileCheck"@) == check_json(state.check)
            &&& told.field("checkFresh"@) == JsonView::Bool(
                state.check.generation == Some(state.generation) && !state.check.running
                    && state.watcher_error is None,
            )
            &&& told.field("generation"@) == JsonView::Int(state.generation as int)
            &&& told.field("note"@) is Text
        }),
{
    reveal_strlit("ready");
    reveal_strlit("analysisStatus");
    reveal_strlit("liveDiagnostics");
    reveal_strlit("savedFileCheck");
    reveal_strlit("checkFresh");
    reveal_strlit("generation");
    reveal_strlit("note");
    assert("ready"@.len() == 5);
    assert("analysisStatus"@.len() == 14);
    assert("liveDiagnostics"@.len() == 15);
    assert("savedFileCheck"@.len() == 14);
    assert("checkFresh"@.len() == 10);
    assert("generation"@.len() == 10);
    assert("note"@.len() == 4);
    assert("analysisStatus"@[0] == 'a');
    assert("savedFileCheck"@[0] == 's');
    assert("checkFresh"@[0] == 'c');
    assert("generation"@[0] == 'g');
}

/// What is said of a check is all that is known of it.
pub proof fn law_checks_are_told_in_full(check: CheckView)
    ensures
        ({
            let told = check_json(check);
            &&& told.field("running"@) == JsonView::Bool(check.running)
            &&& told.field("generation"@) == match check.generation {
                Some(n) => JsonView::Int(n as int),
                None => JsonView::Null,
            }
            &&& told.field("success"@) == match check.success {
                Some(b) => JsonView::Bool(b),
                None => JsonView::Null,
            }
            &&& told.field("error"@) == match check.error {
                Some(words) => JsonView::Text(words),
                None => JsonView::Null,
            }
            &&& told.field("diagnostics"@) == JsonView::Array(check.diagnostics)
        }),
{
    reveal_strlit("running");
    reveal_strlit("generation");
    reveal_strlit("success");
    reveal_strlit("error");
    reveal_strlit("diagnostics");
    assert("running"@.len() == 7);
    assert("generation"@.len() == 10);
    assert("success"@.len() == 7);
    assert("error"@.len() == 5);
    assert("diagnostics"@.len() == 11);
    assert("running"@[0] == 'r');
    assert("success"@[0] == 's');
}

/// Every document that a server found something of is told, or the one that was
/// asked for, and no other; each with all that the server said, and with whether
/// that was of the version that is open.
pub proof fn law_live_findings_are_told(
    documents: Map<Seq<char>, DocumentView>,
    diagnostics: Map<Seq<char>, JsonView>,
    target: Option<Seq<char>>,
    uri: Seq<char>,
    key: Seq<char>,
)
    ensures
        live_view(documents, diagnostics, target).contains_key(uri) <==> diagnostics.contains_key(
            uri,
        ) && (target is None || target == Some(uri)),
        live_view(documents, diagnostics, target).contains_key(uri) && diagnostics[uri] is Object
            && key != "matchesDocumentVersion"@ ==> live_view(documents, diagnostics, target)[uri].field(
            key,
        ) == diagnostics[uri].field(key),
        live_view(documents, diagnostics, target).contains_key(uri) && diagnostics[uri] is Object
            ==> live_view(documents, diagnostics, target)[uri].field("matchesDocumentVersion"@)
            == JsonView::Bool(
            documents.contains_key(uri) && diagnostics[uri].field("version"@) == JsonView::Int(
                documents[uri].version as int,
            ),
        ),
{
}

/// The findings of two servers are those of both; of a document that both know, the
/// second one's.
pub proof fn law_findings_of_servers_are_merged(
    first: Option<LspView>,
    second: Option<LspView>,
    uri: Seq<char>,
)
    ensures
        second matches Some(lsp) && lsp.diagnostics.contains_key(uri) ==> merged(
            first,
            second,
        ).contains_key(uri) && merged(first, second)[uri] == second->0.diagnostics[uri],
        !(second matches Some(lsp) && lsp.diagnostics.contains_key(uri)) && (first matches Some(
            lsp,
        ) && lsp.diagnostics.contains_key(uri)) ==> merged(first, second).contains_key(uri)
            && merged(first, second)[uri] == first->0.diagnostics[uri],
        merged(first, second).contains_key(uri) ==> (first matches Some(lsp)
            && lsp.diagnostics.contains_key(uri)) || (second matches Some(lsp)
            && lsp.diagnostics.contains_key(uri)),
{
}

/// The status of a workspace tells what is known of it; it is ready if all its
/// servers are.
pub proof fn law_status_tells_the_workspace(
    workspace: Workspace,
    analyzers: Seq<JsonView>,
    primary: LspView,
    process: Option<u32>,
)
    ensures
        ({
            let told = workspace_status(workspace, analyzers, primary, process);
            let state = workspace@;
            &&& told.field("workspace"@) == JsonView::Text(state.root)
            &&& told.field("language"@) == JsonView::Text(state.language.named())
            &&& told.field("analyzers"@) == JsonView::Array(analyzers)
            &&& told.field("analyzerPid"@) == match process {
                Some(id) => JsonView::Int(id as int),
                None => JsonView::Null,
            }
            &&& told.field("ready"@) == JsonView::Bool(
                forall|i: int|
                    0 <= i < analyzers.len() ==> (#[trigger] analyzers[i]).field("ready"@)
                        == JsonView::Bool(true),
            )
            &&& told.field("status"@) == JsonView::Text(primary.status)
            &&& told.field("companion"@) == match state.companion {
                Some(id) => JsonView::Text(id),
                None => JsonView::Null,
            }
            &&& told.field("generation"@) == JsonView::Int(state.generation as int)
            &&& told.field("check"@) == check_json(state.check)
            &&& told.field("checkFresh"@) == JsonView::Bool(
                state.check.generation == Some(state.generation) && !state.check.running
                    && state.watcher_error is None,
            )
            &&& told.field("documents"@) is Array && told.field("documents"@)->Array_0.len()
                == workspace.documents.count()
            &&& told.field("config"@) == public_config_view(state.config, state.language)
            &&& told.field("watcherError"@) == match state.watcher_error {
                Some(words) => JsonView::Text(words),
                None => JsonView::Null,
            }
        }),
{
    reveal_strlit("workspace");
    reveal_strlit("language");
    reveal_strlit("analyzers");
    reveal_strlit("analyzerPid");
    reveal_strlit("ready");
    reveal_strlit("status");
    reveal_strlit("companion");
    reveal_strlit("generation");
    reveal_strlit("check");
    reveal_strlit("checkFresh");
    reveal_strlit("documents");
    reveal_strlit("config");
    reveal_strlit("watcherError");
    assert("workspace"@.len() == 9);
    assert("language"@.len() == 8);
    assert("analyzers"@.len() == 9);
    assert("analyzerPid"@.len() == 11);
    assert("ready"@.len() == 5);
    assert("status"@.len() == 6);
    assert("companion"@.len() == 9);
    assert("generation"@.len() == 10);
    assert("check"@.len() == 5);
    assert("checkFresh"@.len() == 10);
    assert("documents"@.len() == 9);
    assert("config"@.len() == 6);
    assert("watcherError"@.len() == 12);
    assert("workspace"@[0] == 'w');
    assert("analyzers"@[0] == 'a');
    assert("companion"@[0] == 'c');
    assert("documents"@[0] == 'd');
    assert("ready"@[0] == 'r');
    assert("check"@[0] == 'c');
    assert("status"@[0] == 's');
    assert("config"@[0] == 'c');
    assert("generation"@[0] == 'g');
    assert("checkFresh"@[0] == 'c');
}

/// Every open document is listed, with where its text comes from and how often it
/// has changed.
pub proof fn law_documents_are_listed(documents: Table<Document>, i: int)
    requires
        0 <= i < documents.count(),
    ensures
        document_rows(documents).len() == documents.count(),
        ({
            let row = document_rows(documents)[i];
            let document = documents.value(i)@;
            &&& row.field("uri"@) == JsonView::Text(documents.key(i))
            &&& row.field("source"@) == JsonView::Text(document.source)
            &&& row.field("version"@) == JsonView::Int(document.version as int)
            &&& row.field("epoch"@) == JsonView::Int(document.epoch as int)
        }),
{
    reveal_strlit("uri");
    reveal_strlit("source");
    reveal_strlit("version");
    reveal_strlit("epoch");
    assert("uri"@.len() == 3);
    assert("source"@.len() == 6);
    assert("version"@.len() == 7);
    assert("epoch"@.len() == 5);
}

/// The configuration is shown with the names of the environment but none of its
/// values.
pub proof fn law_environment_names_are_shown(
    environment: Map<Seq<char>, String>,
    name: Seq<char>,
)
    ensures
        masked(environment).has(name) == environment.contains_key(name),
        environment.contains_key(name) ==> masked(environment).field(name) == JsonView::Text(
            "configured"@,
        ),
{
}

/// The configuration is shown as it is, but for the values of the environment; the Rust
/// server's settings with its own checks switched off.
pub proof fn law_configurations_are_shown(config: Config, language: Language, i: int)
    requires
        0 <= i < config.cargo_features@.len(),
    ensures
        ({
            let told = public_config_view(config, language);
            &&& told.field("analyzer"@) == JsonView::Text(config.analyzer@)
            &&& told.field("typescript_settings"@) == config.typescript_settings@
            &&& told.field("typescript_backend"@) == JsonView::Text(
                config.typescript_backend.named(),
            )
            &&& told.field("typescript_language_server_settings"@)
                == config.typescript_language_server_settings@
            &&& told.field("vtsls_settings"@) == config.vtsls_settings@
            &&& language != Language::Rust ==> told.field("analyzer_settings"@)
                == config.analyzer_settings@
            &&& language == Language::Rust && config.analyzer_settings@ is Object ==> told.field(
                "analyzer_settings"@,
            ).field("checkOnSave"@) == JsonView::Bool(false)
            &&& told.field("environment"@) == masked(config.environment@)
            &&& told.field("cargo_features"@) is Array && told.field("cargo_features"@)->Array_0.len()
                == config.cargo_features@.len()
            &&& told.field("cargo_features"@)->Array_0[i] == JsonView::Text(
                config.cargo_features@[i]@,
            )
            &&& told.field("all_features"@) == JsonView::Bool(config.all_features)
            &&& told.field("no_default_features"@) == JsonView::Bool(config.no_default_features)
            &&& config.cargo_target matches Some(target) ==> told.field("cargo_target"@)
                == JsonView::Text(target@)
        }),
{
    reveal_strlit("analyzer");
    reveal_strlit("typescript_analyzer");
    reveal_strlit("typescript_settings");
    reveal_strlit("typescript_backend");
    reveal_strlit("typescript_language_server");
    reveal_strlit("typescript_language_server_settings");
    reveal_strlit("vtsls_analyzer");
    reveal_strlit("vtsls_settings");
    reveal_strlit("analyzer_settings");
    reveal_strlit("environment");
    reveal_strlit("cargo_features");
    reveal_strlit("cargo_target");
    reveal_strlit("all_features");
    reveal_strlit("no_default_features");
    reveal_strlit("compilerChecks");
    reveal_strlit("checkOnSave");
    assert("analyzer"@.len() == 8);
    assert("typescript_analyzer"@.len() == 19);
    assert("typescript_settings"@.len() == 19);
    assert("typescript_backend"@.len() == 18);
    assert("typescript_language_server"@.len() == 26);
    assert("typescript_language_server_settings"@.len() == 35);
    assert("vtsls_analyzer"@.len() == 14);
    assert("vtsls_settings"@.len() == 14);
    assert("analyzer_settings"@.len() == 17);
    assert("environment"@.len() == 11);
    assert("cargo_features"@.len() == 14);
    assert("cargo_target"@.len() == 12);
    assert("all_features"@.len() == 12);
    assert("no_default_features"@.len() == 19);
    assert("compilerChecks"@.len() == 14);
    assert("checkOnSave"@.len() == 11);
    assert("typescript_analyzer"@[11] == 'a');
    assert("typescript_settings"@[11] == 's');
    assert("typescript_analyzer"@[0] == 't');
    assert("no_default_features"@[0] == 'n');
    assert("typescript_settings"@[0] == 't');
    assert("vtsls_analyzer"@[6] == 'a');
    assert("vtsls_settings"@[6] == 's');
    assert("vtsls_analyzer"@[0] == 'v');
    assert("cargo_features"@[0] == 'c');
    assert("compilerChecks"@[0] == 'c');
    assert("vtsls_settings"@[0] == 'v');
    assert("cargo_features"@[1] == 'a');
    assert("compilerChecks"@[1] == 'o');
    assert("environment"@[0] == 'e');
    assert("checkOnSave"@[0] == 'c');
    assert("cargo_target"@[0] == 'c');
    assert("all_features"@[0] == 'a');
    assert(text::texts_view(config.cargo_features@)[i] == config.cargo_features@[i]@);
}

} // verus!
