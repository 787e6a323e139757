//! The client's side of a conversation with a language server.

use crate::escape;
use crate::fault::{Failure, FailureView, Fault};
use crate::json::{member_views, views, Json, JsonView};
use crate::language::{Language, ServerSpec, ServerView};
use crate::path;
use crate::table::Table;
use crate::text;
use crate::uri;
use crate::wire;
use vstd::prelude::*;

verus! {

/// How often a request is made again when the server says that the content was
/// modified meanwhile.
pub const MAX_RETRIES: u32 = 3;

/// What a server has told of its analysis.
pub struct AnalysisState {
    pub ready: bool,
    pub status: String,
    pub diagnostics: Table<Json>,
}

/// A conversation with a language server.
pub struct Lsp {
    /// The backend's name.
    pub name: &'static str,
    pub settings: Json,
    pub section: &'static str,
    /// Whether the server reports when it is ready.
    pub server_status: bool,
    pub state: AnalysisState,
    pub capabilities: Json,
    pub(crate) pending: Vec<u64>,
    pub(crate) next: u64,
}

/// A conversation with a language server, in the terms of contracts.
#[verifier::ext_equal]
pub struct LspView {
    pub name: Seq<char>,
    pub settings: JsonView,
    pub section: Seq<char>,
    pub server_status: bool,
    pub ready: bool,
    pub status: Seq<char>,
    pub diagnostics: Map<Seq<char>, JsonView>,
    pub capabilities: JsonView,
    /// The requests that wait for an answer.
    pub pending: Set<u64>,
    /// The number of the next request.
    pub next: u64,
}

impl View for Lsp {
    type V = LspView;

    open(crate) spec fn view(&self) -> LspView {
        LspView {
            name: self.name@,
            settings: self.settings@,
            section: self.section@,
            server_status: self.server_status,
            ready: self.state.ready,
            status: self.state.status@,
            diagnostics: member_views(self.state.diagnostics@),
            capabilities: self.capabilities@,
            pending: self.pending@.to_set(),
            next: self.next,
        }
    }
}

/// What a message from the server calls for.
pub enum Reaction {
    Nothing,
    /// Send this.
    Reply(Json),
    /// Hand this to the one who waits for the request.
    Resolve { id: u64, result: Result<Json, Failure> },
}

/// What a message from the server calls for, in the terms of contracts.
pub enum ReactionView {
    Nothing,
    Reply(JsonView),
    Resolve { id: u64, result: Result<JsonView, FailureView> },
}

impl View for Reaction {
    type V = ReactionView;

    open spec fn view(&self) -> ReactionView {
        match *self {
            Reaction::Nothing => ReactionView::Nothing,
            Reaction::Reply(message) => ReactionView::Reply(message@),
            Reaction::Resolve { id, result } => ReactionView::Resolve {
                id,
                result: match result {
                    Ok(value) => Ok(value@),
                    Err(failure) => Err(failure@),
                },
            },
        }
    }
}

// ---------------------------------------------------------------------------
// Messages
// ---------------------------------------------------------------------------
/// A message of the protocol, before its own members.
pub open spec fn envelope() -> JsonView {
    JsonView::object().with("jsonrpc"@, JsonView::Text("2.0"@))
}

/// A notification.
pub open spec fn notification_view(method: Seq<char>, params: JsonView) -> JsonView {
    envelope().with("method"@, JsonView::Text(method)).with("params"@, params)
}

/// A request.
pub open spec fn request_view(id: u64, method: Seq<char>, params: JsonView) -> JsonView {
    envelope().with("id"@, JsonView::Int(id as int)).with("method"@, JsonView::Text(method)).with(
        "params"@,
        params,
    )
}

/// An answer.
pub open spec fn answer_view(id: JsonView, result: JsonView) -> JsonView {
    envelope().with("id"@, id).with("result"@, result)
}

/// An answer that refuses.
pub open spec fn refusal_view(id: JsonView, message: Seq<char>) -> JsonView {
    envelope().with("id"@, id).with(
        "error"@,
        JsonView::object().with("code"@, JsonView::Int(-32601)).with(
            "message"@,
            JsonView::Text(message),
        ),
    )
}

fn message_start() -> (r: Json)
    ensures
        r@ == envelope(),
{
    Json::object().with("jsonrpc", Json::text("2.0"))
}

/// A notification.
pub fn notification(method: &str, params: Json) -> (r: Json)
    ensures
        r@ == notification_view(method@, params@),
{
    message_start().with("method", Json::text(method)).with("params", params)
}

/// An answer.
pub fn answer(id: &Json, result: Json) -> (r: Json)
    ensures
        r@ == answer_view(id@, result@),
{
    message_start().with("id", id.copy()).with("result", result)
}

/// An answer that refuses.
pub fn refusal(id: &Json, message: &str) -> (r: Json)
    ensures
        r@ == refusal_view(id@, message@),
{
    message_start().with("id", id.copy()).with(
        "error",
        Json::object().with("code", Json::integer(-32601)).with("message", Json::text(message)),
    )
}

// ---------------------------------------------------------------------------
// Configuration
// ---------------------------------------------------------------------------
/// A text without the prefix that it starts with, however often it does.
pub open spec fn stripped(text: Seq<char>, prefix: Seq<char>) -> Seq<char>
    decreases text.len(),
{
    if prefix.len() > 0 && text::has_prefix(text, prefix) {
        stripped(text.skip(prefix.len() as int), prefix)
    } else {
        text
    }
}

/// What stands at a dotted path in a value.
pub open spec fn lookup(value: JsonView, dotted: Seq<char>) -> JsonView
    decreases dotted.len(),
    via lookup_progress
{
    match text::first_index(dotted, '.') {
        Some(i) => lookup(value.field(dotted.take(i)), dotted.skip(i + 1)),
        None => value.field(dotted),
    }
}

#[via_fn]
proof fn lookup_progress(value: JsonView, dotted: Seq<char>) {
    text::lemma_first_index(dotted, '.');
}

/// The settings that a server asks for: all of them, or a part by its path
/// within its section.
pub open spec fn section_settings(
    settings: JsonView,
    section: Seq<char>,
    asked: Seq<char>,
) -> JsonView {
    let rest = stripped(asked, section.push('.'));
    if rest.len() == 0 || rest == section {
        settings
    } else {
        lookup(settings, rest)
    }
}

/// The answer to a request for configuration.
pub open spec fn configuration(settings: JsonView, section: Seq<char>, params: JsonView) -> JsonView {
    JsonView::Array(
        params.field("items"@).items_or_none().map_values(
            |item: JsonView|
                section_settings(settings, section, item.field("section"@).text_or_empty()),
        ),
    )
}

fn strip_repeated(from: &str, prefix: &str) -> (r: String)
    requires
        prefix@.len() > 0,
    ensures
        r@ == stripped(from@, prefix@),
{
    let mut rest = from.to_owned();
    loop
        invariant
            prefix@.len() > 0,
            stripped(from@, prefix@) == stripped(rest@, prefix@),
        decreases rest@.len(),
    {
        match text::strip_prefix(rest.as_str(), prefix) {
            Some(next) => {
                rest = next;
            },
            None => {
                return rest;
            },
        }
    }
}

fn look_up<'a>(value: &'a Json, dotted: &str) -> (r: &'a Json)
    ensures
        r@ == lookup(value@, dotted@),
{
    let chars = text::chars_of(dotted);
    let mut here = value;
    let mut from: usize = 0;
    let total: usize = chars.len();
    proof {
        assert(dotted@.skip(0) =~= dotted@);
    }
    loop
        invariant
            chars@ == dotted@,
            total == chars@.len(),
            from <= total,
            lookup(value@, dotted@) == lookup(here@, dotted@.skip(from as int)),
        decreases chars@.len() - from,
    {
        match text::find_from(&chars, from, '.') {
            Some(i) => {
                let key = text::text_between(&chars, from, i);
                proof {
                    let rest = dotted@.skip(from as int);
                    assert(rest.take(i - from) =~= dotted@.subrange(from as int, i as int));
                    assert(rest.skip(i - from + 1) =~= dotted@.skip(i + 1));
                }
                here = here.at(key.as_str());
                from = i + 1;
            },
            None => {
                let key = text::text_between(&chars, from, chars.len());
                proof {
                    assert(dotted@.subrange(from as int, dotted@.len() as int) =~= dotted@.skip(
                        from as int,
                    ));
                }
                return here.at(key.as_str());
            },
        }
    }
}

fn make_section_settings(settings: &Json, section: &str, asked: &str) -> (r: Json)
    ensures
        r@ == section_settings(settings@, section@, asked@),
{
    let mut prefix = section.to_owned();
    prefix.push('.');
    let rest = strip_repeated(asked, prefix.as_str());
    if rest.as_str().is_empty() || text::same(rest.as_str(), section) {
        settings.copy()
    } else {
        look_up(settings, rest.as_str()).copy()
    }
}

fn make_configuration(settings: &Json, section: &str, params: &Json) -> (r: Json)
    ensures
        r@ == configuration(settings@, section@, params@),
{
    let mut out: Vec<Json> = Vec::new();
    let ghost wanted = configuration(settings@, section@, params@)->Array_0;
    match params.at("items").as_array() {
        Some(items) => {
            let mut i: usize = 0;
            while i < items.len()
                invariant
                    i <= items@.len(),
                    out@.len() == i,
                    forall|j: int|
                        0 <= j < i ==> #[trigger] out@[j]@ == section_settings(
                            settings@,
                            section@,
                            items@[j]@.field("section"@).text_or_empty(),
                        ),
                decreases items@.len() - i,
            {
                out.push(
                    make_section_settings(settings, section, items[i].at("section").str_or_empty()),
                );
                i = i + 1;
            }
            proof {
                assert(views(out@) =~= wanted);
            }
        },
        None => {
            proof {
                assert(views(out@) =~= wanted);
            }
        },
    }
    Json::array(out)
}

// ---------------------------------------------------------------------------
// The conversation
// ---------------------------------------------------------------------------
/// Whether a server's request is accepted and needs no answer but null.
pub open spec fn is_acknowledged(method: Seq<char>) -> bool {
    ||| method == "workspace/diagnostic/refresh"@
    ||| method == "workspace/semanticTokens/refresh"@
    ||| method == "workspace/inlayHint/refresh"@
    ||| method == "window/workDoneProgress/create"@
    ||| method == "client/registerCapability"@
    ||| method == "client/unregisterCapability"@
}

/// The answer to a server's request.
pub open spec fn request_answer(
    settings: JsonView,
    section: Seq<char>,
    method: Seq<char>,
    id: JsonView,
    params: JsonView,
) -> JsonView {
    if method == "workspace/configuration"@ {
        answer_view(id, configuration(settings, section, params))
    } else if method == "workspace/applyEdit"@ {
        answer_view(
            id,
            JsonView::object().with("applied"@, JsonView::Bool(false)).with(
                "failureReason"@,
                JsonView::Text("Use the bridge apply_code_action tool"@),
            ),
        )
    } else if is_acknowledged(method) {
        answer_view(id, JsonView::Null)
    } else {
        refusal_view(id, "Unsupported client request"@)
    }
}

/// The text that tells whether a server is ready.
pub open spec fn status_text(params: JsonView, ready: bool) -> Seq<char> {
    match params.field("message"@).text() {
        Some(message) => message,
        None => if ready {
            "ready"@
        } else {
            "indexing"@
        },
    }
}

/// Whether a server says that it is ready.
pub open spec fn is_ready(params: JsonView) -> bool {
    params.field("quiescent"@) == JsonView::Bool(true) && params.field("health"@)
        != JsonView::Text("error"@)
}

/// The outcome of a request that an answer names.
pub open spec fn outcome(message: JsonView) -> Result<JsonView, FailureView> {
    if message.has("error"@) {
        Err(
            FailureView {
                fault: Fault::ServerError,
                detail: wire::json_text(message.field("error"@)),
            },
        )
    } else {
        Ok(message.field("result"@))
    }
}

/// What a message from the server changes, and what it calls for.
pub open spec fn received(lsp: LspView, message: JsonView) -> (LspView, ReactionView) {
    let params = message.field("params"@);
    match message.field("method"@).text() {
        Some(method) => if message.has("id"@) {
            (
                lsp,
                ReactionView::Reply(
                    request_answer(
                        lsp.settings,
                        lsp.section,
                        method,
                        message.field("id"@),
                        params,
                    ),
                ),
            )
        } else if method == "textDocument/publishDiagnostics"@ {
            match params.field("uri"@).text() {
                Some(uri) => (
                    LspView { diagnostics: lsp.diagnostics.insert(uri, params), ..lsp },
                    ReactionView::Nothing,
                ),
                None => (lsp, ReactionView::Nothing),
            }
        } else if method == "experimental/serverStatus"@ {
            let ready = is_ready(params);
            (
                LspView { ready, status: status_text(params, ready), ..lsp },
                ReactionView::Nothing,
            )
        } else {
            (lsp, ReactionView::Nothing)
        },
        None => match message.field("id"@).unsigned() {
            Some(id) => if lsp.pending.contains(id) {
                (
                    LspView { pending: lsp.pending.remove(id), ..lsp },
                    ReactionView::Resolve { id, result: outcome(message) },
                )
            } else {
                (lsp, ReactionView::Nothing)
            },
            None => (lsp, ReactionView::Nothing),
        },
    }
}

fn make_request_answer(
    settings: &Json,
    section: &str,
    method: &str,
    id: &Json,
    params: &Json,
) -> (r: Json)
    ensures
        r@ == request_answer(settings@, section@, method@, id@, params@),
{
    if text::same(method, "workspace/configuration") {
        answer(id, make_configuration(settings, section, params))
    } else if text::same(method, "workspace/applyEdit") {
        answer(
            id,
            Json::object().with("applied", Json::boolean(false)).with(
                "failureReason",
                Json::text("Use the bridge apply_code_action tool"),
            ),
        )
    } else if text::same(method, "workspace/diagnostic/refresh") || text::same(
        method,
        "workspace/semanticTokens/refresh",
    ) || text::same(method, "workspace/inlayHint/refresh") || text::same(
        method,
        "window/workDoneProgress/create",
    ) || text::same(method, "client/registerCapability") || text::same(
        method,
        "client/unregisterCapability",
    ) {
        answer(id, Json::null())
    } else {
        refusal(id, "Unsupported client request")
    }
}

/// A list of numbers without one of them.
fn without(ids: &Vec<u64>, id: u64) -> (r: Vec<u64>)
    ensures
        r@.to_set() == ids@.to_set().remove(id),
{
    let mut out: Vec<u64> = Vec::new();
    let mut i: usize = 0;
    while i < ids.len()
        invariant
            i <= ids@.len(),
            forall|n: u64| #[trigger]
                out@.contains(n) <==> n != id && ids@.take(i as int).contains(n),
        decreases ids@.len() - i,
    {
        let ghost before = out@;
        let here: u64 = ids[i];
        if here != id {
            out.push(here);
        }
        proof {
            let seen = ids@.take(i as int);
            let now = ids@.take(i + 1);
            assert(now =~= seen.push(here));
            assert forall|n: u64| #[trigger] out@.contains(n) <==> n != id && now.contains(n) by {
                if before.contains(n) {
                    let j = choose|j: int| 0 <= j < before.len() && before[j] == n;
                    assert(out@[j] == n);
                }
                if out@.contains(n) {
                    let j = choose|j: int| 0 <= j < out@.len() && out@[j] == n;
                    if j < before.len() {
                        assert(before[j] == n);
                        assert(before.contains(n));
                    } else {
                        assert(now[i as int] == n);
                    }
                }
                if now.contains(n) {
                    let j = choose|j: int| 0 <= j < now.len() && now[j] == n;
                    if j < i {
                        assert(seen[j] == n);
                    } else if n != id {
                        assert(out@[before.len() as int] == n);
                    }
                }
                if seen.contains(n) {
                    let j = choose|j: int| 0 <= j < seen.len() && seen[j] == n;
                    assert(now[j] == n);
                }
            }
        }
        i = i + 1;
    }
    proof {
        assert(ids@.take(ids@.len() as int) =~= ids@);
        assert(out@.to_set() =~= ids@.to_set().remove(id));
    }
    out
}

fn holds(ids: &Vec<u64>, id: u64) -> (r: bool)
    ensures
        r == ids@.to_set().contains(id),
{
    let mut i: usize = 0;
    while i < ids.len()
        invariant
            i <= ids@.len(),
            forall|j: int| 0 <= j < i ==> ids@[j] != id,
        decreases ids@.len() - i,
    {
        if ids[i] == id {
            proof {
                assert(ids@.contains(ids@[i as int]));
            }
            return true;
        }
        i = i + 1;
    }
    false
}

/// What the client can do, as it tells the server.
pub open spec fn client_capabilities() -> JsonView {
    let yes = JsonView::Bool(true);
    let kinds = seq![
        JsonView::Text("quickfix"@),
        JsonView::Text("refactor"@),
        JsonView::Text("source"@),
    ];
    JsonView::object().with(
        "general"@,
        JsonView::object().with(
            "positionEncodings"@,
            JsonView::Array(seq![JsonView::Text("utf-16"@)]),
        ),
    ).with(
        "workspace"@,
        JsonView::object().with("configuration"@, yes).with(
            "didChangeWatchedFiles"@,
            JsonView::object().with("dynamicRegistration"@, yes),
        ),
    ).with(
        "textDocument"@,
        JsonView::object().with(
            "documentSymbol"@,
            JsonView::object().with("hierarchicalDocumentSymbolSupport"@, yes),
        ).with("rename"@, JsonView::object().with("prepareSupport"@, yes)).with(
            "diagnostic"@,
            JsonView::object().with("dynamicRegistration"@, JsonView::Bool(false)).with(
                "relatedDocumentSupport"@,
                yes,
            ),
        ).with("publishDiagnostics"@, JsonView::object().with("versionSupport"@, yes)).with(
            "codeAction"@,
            JsonView::object().with(
                "codeActionLiteralSupport"@,
                JsonView::object().with(
                    "codeActionKind"@,
                    JsonView::object().with("valueSet"@, JsonView::Array(kinds)),
                ),
            ).with(
                "resolveSupport"@,
                JsonView::object().with(
                    "properties"@,
                    JsonView::Array(seq![JsonView::Text("edit"@)]),
                ),
            ),
        ),
    ).with("window"@, JsonView::object().with("workDoneProgress"@, yes)).with(
        "experimental"@,
        JsonView::object().with("serverStatusNotification"@, yes),
    )
}

/// What the client says when it starts a conversation.
pub open spec fn greeting(
    process: int,
    uri: Seq<char>,
    name: Seq<char>,
    settings: JsonView,
) -> JsonView {
    JsonView::object().with("processId"@, JsonView::Int(process)).with(
        "rootUri"@,
        JsonView::Text(uri),
    ).with(
        "workspaceFolders"@,
        JsonView::Array(
            seq![
                JsonView::object().with("uri"@, JsonView::Text(uri)).with(
                    "name"@,
                    JsonView::Text(name),
                ),
            ],
        ),
    ).with("capabilities"@, client_capabilities()).with("initializationOptions"@, settings)
}

fn list_of(only: Json) -> (r: Json)
    ensures
        r@ == JsonView::Array(seq![only@]),
{
    let mut items: Vec<Json> = Vec::new();
    items.push(only);
    proof {
        assert(views(items@) =~= seq![only@]);
    }
    Json::array(items)
}

fn make_capabilities() -> (r: Json)
    ensures
        r@ == client_capabilities(),
{
    let mut kinds: Vec<Json> = Vec::new();
    kinds.push(Json::text("quickfix"));
    kinds.push(Json::text("refactor"));
    kinds.push(Json::text("source"));
    proof {
        assert(views(kinds@) =~= seq![
            JsonView::Text("quickfix"@),
            JsonView::Text("refactor"@),
            JsonView::Text("source"@),
        ]);
    }
    let general = Json::object().with("positionEncodings", list_of(Json::text("utf-16")));
    let workspace = Json::object().with("configuration", Json::boolean(true)).with(
        "didChangeWatchedFiles",
        Json::object().with("dynamicRegistration", Json::boolean(true)),
    );
    let actions = Json::object().with(
        "codeActionLiteralSupport",
        Json::object().with("codeActionKind", Json::object().with("valueSet", Json::array(kinds))),
    ).with("resolveSupport", Json::object().with("properties", list_of(Json::text("edit"))));
    let document = Json::object().with(
        "documentSymbol",
        Json::object().with("hierarchicalDocumentSymbolSupport", Json::boolean(true)),
    ).with("rename", Json::object().with("prepareSupport", Json::boolean(true))).with(
        "diagnostic",
        Json::object().with("dynamicRegistration", Json::boolean(false)).with(
            "relatedDocumentSupport",
            Json::boolean(true),
        ),
    ).with("publishDiagnostics", Json::object().with("versionSupport", Json::boolean(true))).with(
        "codeAction",
        actions,
    );
    Json::object().with("general", general).with("workspace", workspace).with(
        "textDocument",
        document,
    ).with("window", Json::object().with("workDoneProgress", Json::boolean(true))).with(
        "experimental",
        Json::object().with("serverStatusNotification", Json::boolean(true)),
    )
}

impl Lsp {
    /// A conversation that has not begun.
    pub open spec fn fresh(spec: ServerView) -> LspView {
        LspView {
            name: spec.name,
            settings: spec.settings,
            section: spec.section,
            server_status: spec.server_status,
            ready: false,
            status: "initializing"@,
            diagnostics: Map::empty(),
            capabilities: JsonView::Null,
            pending: Set::empty(),
            next: 1,
        }
    }

    /// A conversation that has not begun.
    pub fn new(spec: &ServerSpec) -> (r: Lsp)
        ensures
            r@ == Lsp::fresh(spec@),
    {
        let r = Lsp {
            name: spec.name,
            settings: spec.settings.copy(),
            section: spec.section,
            server_status: spec.server_status,
            state: AnalysisState {
                ready: false,
                status: "initializing".to_owned(),
                diagnostics: Table::new(),
            },
            capabilities: Json::null(),
            pending: Vec::new(),
            next: 1,
        };
        proof {
            assert(r@ =~= Lsp::fresh(spec@));
        }
        r
    }

    /// A request to send, with its number. It then waits for its answer.
    pub fn request(&mut self, method: &str, params: Json) -> (r: (u64, Json))
        ensures
            r.0 == old(self)@.next,
            r.1@ == request_view(r.0, method@, params@),
            final(self)@ == (LspView {
                pending: old(self)@.pending.insert(r.0),
                next: if r.0 == u64::MAX {
                    0
                } else {
                    (r.0 + 1) as u64
                },
                ..old(self)@
            }),
    {
        let id: u64 = self.next;
        let ghost before = self.pending@;
        self.next = if id == u64::MAX {
            0
        } else {
            id + 1
        };
        self.pending.push(id);
        proof {
            assert(self.pending@.to_set() =~= before.to_set().insert(id)) by {
                assert forall|n: u64| #[trigger]
                    self.pending@.contains(n) <==> before.contains(n) || n == id by {
                    if before.contains(n) {
                        let j = choose|j: int| 0 <= j < before.len() && before[j] == n;
                        assert(self.pending@[j] == n);
                    }
                    assert(self.pending@[before.len() as int] == id);
                    if self.pending@.contains(n) && n != id {
                        let j = choose|j: int|
                            0 <= j < self.pending@.len() && self.pending@[j] == n;
                        assert(before[j] == n);
                    }
                }
            }
            assert(self@ =~= (LspView {
                pending: old(self)@.pending.insert(id),
                next: self.next,
                ..old(self)@
            }));
        }
        let message = message_start().with("id", Json::number(id)).with(
            "method",
            Json::text(method),
        ).with("params", params);
        (id, message)
    }

    /// Stops waiting for a request, which could not be sent.
    pub fn forget(&mut self, id: u64)
        ensures
            final(self)@ == (LspView { pending: old(self)@.pending.remove(id), ..old(self)@ }),
    {
        self.pending = without(&self.pending, id);
        proof {
            assert(self@ =~= (LspView { pending: old(self)@.pending.remove(id), ..old(self)@ }));
        }
    }

    /// Stops waiting for a request that was not answered in time; the result is
    /// to be sent.
    pub fn cancel(&mut self, id: u64) -> (r: Json)
        ensures
            final(self)@ == (LspView { pending: old(self)@.pending.remove(id), ..old(self)@ }),
            r@ == notification_view(
                "$/cancelRequest"@,
                JsonView::object().with("id"@, JsonView::Int(id as int)),
            ),
    {
        self.forget(id);
        notification("$/cancelRequest", Json::object().with("id", Json::number(id)))
    }

    /// Takes in a message from the server.
    pub fn receive(&mut self, message: &Json) -> (r: Reaction)
        ensures
            (final(self)@, r@) == received(old(self)@, message@),
    {
        let params = message.at("params");
        match message.at("method").as_str() {
            Some(method) => match message.get("id") {
                Some(id) => Reaction::Reply(
                    make_request_answer(&self.settings, self.section, method, id, params),
                ),
                None => {
                    if text::same(method, "textDocument/publishDiagnostics") {
                        match params.at("uri").as_str() {
                            Some(uri) => {
                                let ghost before = self.state.diagnostics@;
                                self.state.diagnostics.insert(uri, params.copy());
                                proof {
                                    assert(member_views(self.state.diagnostics@) =~= member_views(
                                        before,
                                    ).insert(uri@, params@));
                                }
                            },
                            None => {},
                        }
                    } else if text::same(method, "experimental/serverStatus") {
                        self.state.ready = params.at("quiescent").is_bool(true) && !params.at(
                            "health",
                        ).is_str("error");
                        self.state.status = match params.at("message").as_str() {
                            Some(message) => message.to_owned(),
                            None => if self.state.ready {
                                "ready".to_owned()
                            } else {
                                "indexing".to_owned()
                            },
                        };
                    }
                    proof {
                        assert(self@ =~= received(old(self)@, message@).0);
                    }
                    Reaction::Nothing
                },
            },
            None => match message.at("id").as_u64() {
                Some(id) => {
                    if !holds(&self.pending, id) {
                        return Reaction::Nothing;
                    }
                    self.forget(id);
                    let result = match message.get("error") {
                        Some(error) => {
                            let detail = wire::render_text(error);
                            Err(Failure::of(Fault::ServerError, detail.as_str()))
                        },
                        None => Ok(message.at("result").copy()),
                    };
                    Reaction::Resolve { id, result }
                },
                None => Reaction::Nothing,
            },
        }
    }

    /// Notes that the server is gone. The result lists the requests that will
    /// not be answered any more.
    pub fn exited(&mut self) -> (r: Vec<u64>)
        ensures
            r@.to_set() == old(self)@.pending,
            final(self)@ == (LspView {
                ready: false,
                status: "analyzer exited"@,
                pending: Set::empty(),
                ..old(self)@
            }),
    {
        let mut waiting: Vec<u64> = Vec::new();
        core::mem::swap(&mut waiting, &mut self.pending);
        self.state.ready = false;
        self.state.status = "analyzer exited".to_owned();
        proof {
            assert(self.pending@.to_set() =~= Set::<u64>::empty());
            assert(self@ =~= (LspView {
                ready: false,
                status: "analyzer exited"@,
                pending: Set::empty(),
                ..old(self)@
            }));
        }
        waiting
    }

    /// What the client says when it starts the conversation.
    pub fn initialize(&self, root: &str, process: u32) -> (r: Result<Json, Fault>)
        ensures
            match r {
                Ok(params) => path::is_rooted(root@) && params@ == greeting(
                    process as int,
                    uri::directory_uri_of(root@)->0,
                    match path::file_name_of(root@) {
                        Some(name) => escape::shown(name),
                        None => ""@,
                    },
                    self@.settings,
                ),
                Err(fault) => !path::is_rooted(root@) && fault == Fault::InvalidWorkspacePath,
            },
    {
        let place = match uri::directory_uri(root) {
            Ok(place) => place,
            Err(fault) => {
                return Err(fault);
            },
        };
        let name = match path::file_name(root) {
            Some(name) => escape::show(name.as_str()),
            None => "".to_owned(),
        };
        Ok(self.greet(process, place.as_str(), name.as_str()))
    }

    /// What the client says when it starts the conversation, about the
    /// directory of a URI and a name.
    pub fn greet(&self, process: u32, place: &str, name: &str) -> (r: Json)
        ensures
            r@ == greeting(process as int, place@, name@, self@.settings),
    {
        let folder = Json::object().with("uri", Json::text(place)).with("name", Json::text(name));
        Json::object().with("processId", Json::number(process as u64)).with(
            "rootUri",
            Json::text(place),
        ).with("workspaceFolders", list_of(folder)).with("capabilities", make_capabilities()).with(
            "initializationOptions",
            self.settings.copy(),
        )
    }

    /// Takes in the server's answer to the greeting. Positions must count
    /// UTF-16 units.
    pub fn negotiate(&mut self, result: &Json) -> (r: Result<(), Fault>)
        ensures
            final(self)@ == (LspView {
                capabilities: result@.field("capabilities"@),
                ..old(self)@
            }),
            ({
                let encoding = result@.field("capabilities"@).field("positionEncoding"@).text();
                match r {
                    Ok(()) => encoding is None || encoding == Some("utf-16"@),
                    Err(fault) => encoding is Some && encoding != Some("utf-16"@) && fault
                        == Fault::NotUtf16,
                }
            }),
    {
        self.capabilities = result.at("capabilities").copy();
        match self.capabilities.at("positionEncoding").as_str() {
            Some(encoding) => if text::same(encoding, "utf-16") {
                Ok(())
            } else {
                Err(Fault::NotUtf16)
            },
            None => Ok(()),
        }
    }

    /// Notes that the conversation has begun. A server that does not report
    /// when it is ready is taken to be so at once.
    pub fn begun(&mut self)
        ensures
            final(self)@ == if old(self)@.server_status {
                old(self)@
            } else {
                LspView { ready: true, status: "ready"@, ..old(self)@ }
            },
    {
        if !self.server_status {
            self.state.ready = true;
            self.state.status = "ready".to_owned();
        }
        proof {
            assert(self@ =~= if old(self)@.server_status {
                old(self)@
            } else {
                LspView { ready: true, status: "ready"@, ..old(self)@ }
            });
        }
    }

    /// Takes in the diagnostics of a document.
    pub fn put_diagnostics(&mut self, uri: &str, value: Json)
        ensures
            final(self)@ == (LspView {
                diagnostics: old(self)@.diagnostics.insert(uri@, value@),
                ..old(self)@
            }),
    {
        let ghost before = self.state.diagnostics@;
        self.state.diagnostics.insert(uri, value);
        proof {
            assert(member_views(self.state.diagnostics@) =~= member_views(before).insert(
                uri@,
                value@,
            ));
            assert(self@ =~= (LspView {
                diagnostics: old(self)@.diagnostics.insert(uri@, value@),
                ..old(self)@
            }));
        }
    }

    /// Drops the diagnostics of a document.
    pub fn drop_diagnostics(&mut self, uri: &str)
        ensures
            final(self)@ == (LspView {
                diagnostics: old(self)@.diagnostics.remove(uri@),
                ..old(self)@
            }),
    {
        let ghost before = self.state.diagnostics@;
        let _ = self.state.diagnostics.remove(uri);
        proof {
            assert(member_views(self.state.diagnostics@) =~= member_views(before).remove(uri@));
            assert(self@ =~= (LspView {
                diagnostics: old(self)@.diagnostics.remove(uri@),
                ..old(self)@
            }));
        }
    }

    /// What the status of a workspace says of this server.
    pub fn summary(&self, language: Language, process: Option<u32>) -> (r: Json)
        ensures
            r@ == summary_view(self@, language, process),
    {
        Json::object().with("language", Json::text(language.name())).with(
            "backend",
            Json::text(self.name),
        ).with(
            "pid",
            match process {
                Some(n) => Json::number(n as u64),
                None => Json::null(),
            },
        ).with("ready", Json::boolean(self.state.ready)).with(
            "status",
            Json::text(self.state.status.as_str()),
        )
    }
}

/// A number, or null.
pub open spec fn optional_number(n: Option<u32>) -> JsonView {
    match n {
        Some(n) => JsonView::Int(n as int),
        None => JsonView::Null,
    }
}

/// What the status of a workspace says of a server.
pub open spec fn summary_view(lsp: LspView, language: Language, process: Option<u32>) -> JsonView {
    JsonView::object().with("language"@, JsonView::Text(language.named())).with(
        "backend"@,
        JsonView::Text(lsp.name),
    ).with("pid"@, optional_number(process)).with("ready"@, JsonView::Bool(lsp.ready)).with(
        "status"@,
        JsonView::Text(lsp.status),
    )
}

/// Whether a failed request is to be made again: the server said that the
/// content was modified, and it was not tried too often yet.
pub fn retries(attempt: u32, error: &str) -> (r: bool)
    ensures
        r == (attempt < MAX_RETRIES && text::holds_run(error@, "-32801"@)),
{
    attempt < MAX_RETRIES && text::contains(error, "-32801")
}

/// An answer reaches the one who waits for it once: a second answer with the
/// same number changes nothing.
pub proof fn law_answers_are_taken_once(lsp: LspView, first: JsonView, second: JsonView)
    requires
        first.field("method"@).text() is None,
        second.field("method"@).text() is None,
        received(lsp, first).1 is Resolve,
        first.field("id"@) == second.field("id"@),
    ensures
        received(received(lsp, first).0, second) == (received(lsp, first).0, ReactionView::Nothing),
{
}

/// Every request of the server gets an answer that bears its number, and
/// changes nothing.
pub proof fn law_requests_are_answered(lsp: LspView, message: JsonView)
    requires
        message.field("method"@) is Text,
        message.has("id"@),
    ensures
        received(lsp, message).0 == lsp,
        received(lsp, message).1 matches ReactionView::Reply(reply) && reply.field("id"@)
            == message.field("id"@),
{
    reveal_strlit("jsonrpc");
    reveal_strlit("id");
    reveal_strlit("result");
    reveal_strlit("error");
    assert("id"@.len() == 2 && "result"@.len() == 6 && "error"@.len() == 5);
}

/// What a server publishes of a document replaces what it said of it before, and only
/// that; a message without a document says nothing.
pub proof fn law_published_findings_are_kept(lsp: LspView, message: JsonView)
    requires
        message.field("method"@) == JsonView::Text("textDocument/publishDiagnostics"@),
        !message.has("id"@),
    ensures
        message.field("params"@).field("uri"@) matches JsonView::Text(uri) ==> {
            let now = received(lsp, message).0;
            &&& now.diagnostics.contains_key(uri)
            &&& now.diagnostics[uri] == message.field("params"@)
            &&& forall|other: Seq<char>|
                other != uri ==> (#[trigger] now.diagnostics.contains_key(other))
                    == lsp.diagnostics.contains_key(other) && (lsp.diagnostics.contains_key(other)
                    ==> now.diagnostics[other] == lsp.diagnostics[other])
            &&& now.ready == lsp.ready && now.pending == lsp.pending && now.status == lsp.status
        },
        !(message.field("params"@).field("uri"@) is Text) ==> received(lsp, message).0 == lsp,
        received(lsp, message).1 is Nothing,
{
}

/// A server that tells its state is ready if it is quiet and well, and its own words
/// are what is said of it.
pub proof fn law_server_state_is_followed(lsp: LspView, message: JsonView)
    requires
        message.field("method"@) == JsonView::Text("experimental/serverStatus"@),
        !message.has("id"@),
    ensures
        ({
            let now = received(lsp, message).0;
            let params = message.field("params"@);
            &&& now.ready == (params.field("quiescent"@) == JsonView::Bool(true) && params.field(
                "health"@,
            ) != JsonView::Text("error"@))
            &&& params.field("message"@) matches JsonView::Text(words) ==> now.status == words
            &&& !(params.field("message"@) is Text) ==> now.status == if now.ready {
                "ready"@
            } else {
                "indexing"@
            }
            &&& now.diagnostics == lsp.diagnostics && now.pending == lsp.pending
        }),
{
    reveal_strlit("textDocument/publishDiagnostics");
    reveal_strlit("experimental/serverStatus");
    assert("textDocument/publishDiagnostics"@.len() == 31);
    assert("experimental/serverStatus"@.len() == 25);
}

/// The answer to a request that waits reaches it: the result, or the error in the
/// server's words; an answer to none that waits says nothing.
pub proof fn law_answers_reach_their_request(lsp: LspView, message: JsonView, id: u64)
    requires
        !(message.field("method"@) is Text),
        message.field("id"@) == JsonView::Int(id as int),
    ensures
        lsp.pending.contains(id) ==> received(lsp, message).1 == (ReactionView::Resolve {
            id,
            result: if message.has("error"@) {
                Err::<JsonView, FailureView>(
                    FailureView {
                        fault: Fault::ServerError,
                        detail: wire::json_text(message.field("error"@)),
                    },
                )
            } else {
                Ok::<JsonView, FailureView>(message.field("result"@))
            },
        }),
        lsp.pending.contains(id) ==> received(lsp, message).0.pending == lsp.pending.remove(id),
        !lsp.pending.contains(id) ==> received(lsp, message) == (lsp, ReactionView::Nothing),
{
}

/// A server that asks for its configuration gets one answer for each item, in order;
/// one that wants to edit is told how edits are made; refreshes and registrations are
/// granted; and anything else is refused.
pub proof fn law_server_requests_are_answered(
    settings: JsonView,
    section: Seq<char>,
    id: JsonView,
    params: JsonView,
    method: Seq<char>,
    items: Seq<JsonView>,
    i: int,
)
    requires
        params.field("items"@) == JsonView::Array(items),
        0 <= i < items.len(),
    ensures
        ({
            let answer = request_answer(settings, section, "workspace/configuration"@, id, params);
            &&& answer.field("id"@) == id
            &&& answer.field("result"@) is Array
            &&& answer.field("result"@)->Array_0.len() == items.len()
            &&& answer.field("result"@)->Array_0[i] == section_settings(
                settings,
                section,
                match items[i].field("section"@) {
                    JsonView::Text(name) => name,
                    _ => Seq::empty(),
                },
            )
        }),
        ({
            let answer = request_answer(settings, section, "workspace/applyEdit"@, id, params);
            answer.field("id"@) == id && answer.field("result"@).field("applied"@) == JsonView::Bool(
                false,
            )
        }),
        method == "workspace/diagnostic/refresh"@ || method == "workspace/semanticTokens/refresh"@
            || method == "workspace/inlayHint/refresh"@ || method
            == "window/workDoneProgress/create"@ || method == "client/registerCapability"@ || method
            == "client/unregisterCapability"@ ==> request_answer(
            settings,
            section,
            method,
            id,
            params,
        ).has("result"@) && request_answer(settings, section, method, id, params).field(
            "result"@,
        ) is Null && request_answer(settings, section, method, id, params).field("id"@) == id
            && !request_answer(settings, section, method, id, params).has("error"@),
{
    reveal_strlit("id");
    reveal_strlit("result");
    reveal_strlit("error");
    reveal_strlit("jsonrpc");
    reveal_strlit("applied");
    reveal_strlit("failureReason");
    reveal_strlit("workspace/configuration");
    reveal_strlit("workspace/applyEdit");
    reveal_strlit("workspace/diagnostic/refresh");
    reveal_strlit("workspace/semanticTokens/refresh");
    reveal_strlit("workspace/inlayHint/refresh");
    reveal_strlit("window/workDoneProgress/create");
    reveal_strlit("client/registerCapability");
    reveal_strlit("client/unregisterCapability");
    assert("id"@.len() == 2);
    assert("result"@.len() == 6);
    assert("error"@.len() == 5);
    assert("jsonrpc"@.len() == 7);
    assert("applied"@.len() == 7);
    assert("failureReason"@.len() == 13);
    assert("workspace/configuration"@.len() == 23);
    assert("workspace/applyEdit"@.len() == 19);
    assert("workspace/diagnostic/refresh"@.len() == 28);
    assert("workspace/semanticTokens/refresh"@.len() == 32);
    assert("workspace/inlayHint/refresh"@.len() == 27);
    assert("window/workDoneProgress/create"@.len() == 30);
    assert("client/registerCapability"@.len() == 25);
    assert("client/unregisterCapability"@.len() == 27);
    assert("jsonrpc"@[0] == 'j');
    assert("applied"@[0] == 'a');
    assert("workspace/inlayHint/refresh"@[0] == 'w');
    assert("client/unregisterCapability"@[0] == 'c');
}

/// A section of the settings is found by its name, which may start with that of the
/// server's own section; the server's own section, and none, are all settings.
pub proof fn law_sections_are_found(settings: JsonView, section: Seq<char>, key: Seq<char>)
    requires
        section.len() > 0,
        key.len() > 0,
        !key.contains('.'),
        key != section,
    ensures
        section_settings(settings, section, Seq::empty()) == settings,
        section_settings(settings, section, section) == settings,
        section_settings(settings, section, section.push('.') + key) == settings.field(key),
        section_settings(settings, section, key) == settings.field(key),
{
    let prefix = section.push('.');
    assert(prefix.len() > 0);
    assert(stripped(Seq::empty(), prefix) == Seq::<char>::empty());
    assert(stripped(section, prefix) == section);
    text::lemma_first_index(key, '.');
    match text::first_index(key, '.') {
        Some(i) => {
            assert(key.contains(key[i]));
        },
        None => {},
    }
    assert(!text::has_prefix(key, prefix)) by {
        if text::has_prefix(key, prefix) {
            assert(key.take(prefix.len() as int)[section.len() as int] == '.');
            assert(key.contains(key[section.len() as int]));
        }
    }
    assert(stripped(key, prefix) == key);
    let asked = prefix + key;
    assert(asked.take(prefix.len() as int) =~= prefix);
    assert(asked.skip(prefix.len() as int) =~= key);
    assert(stripped(asked, prefix) == stripped(key, prefix));
}

/// A dotted name is followed member by member.
pub proof fn law_dotted_names_are_followed(value: JsonView, first: Seq<char>, rest: Seq<char>)
    requires
        !first.contains('.'),
    ensures
        lookup(value, first) == value.field(first),
        lookup(value, first.push('.') + rest) == lookup(value.field(first), rest),
{
    text::lemma_first_index(first, '.');
    match text::first_index(first, '.') {
        Some(i) => {
            assert(first.contains(first[i]));
        },
        None => {},
    }
    let all = first.push('.') + rest;
    assert forall|j: int| 0 <= j < first.len() implies all[j] != '.' by {
        assert(all[j] == first[j]);
        assert(first.contains(first[j]));
    }
    text::lemma_first_index_is(all, '.', first.len() as int);
    assert(all.take(first.len() as int) =~= first);
    assert(all.skip(first.len() as int + 1) =~= rest);
}

/// Messages to a server say what they are: a request bears its number, and all bear
/// the method and the parameters.
pub proof fn law_messages_are_complete(id: u64, method: Seq<char>, params: JsonView)
    ensures
        request_view(id, method, params).field("id"@) == JsonView::Int(id as int),
        request_view(id, method, params).field("method"@) == JsonView::Text(method),
        request_view(id, method, params).field("params"@) == params,
        request_view(id, method, params).field("jsonrpc"@) == JsonView::Text("2.0"@),
        notification_view(method, params).field("method"@) == JsonView::Text(method),
        notification_view(method, params).field("params"@) == params,
        notification_view(method, params).field("jsonrpc"@) == JsonView::Text("2.0"@),
        !notification_view(method, params).has("id"@),
{
    reveal_strlit("id");
    reveal_strlit("method");
    reveal_strlit("params");
    reveal_strlit("jsonrpc");
    assert("id"@.len() == 2);
    assert("method"@.len() == 6);
    assert("params"@.len() == 6);
    assert("jsonrpc"@.len() == 7);
    assert("method"@[0] == 'm');
    assert("params"@[0] == 'p');
}

/// The client says who it is, which directory it opens and how it is configured, and
/// that positions count UTF-16 units.
pub proof fn law_the_greeting_is_complete(
    process: int,
    uri: Seq<char>,
    name: Seq<char>,
    settings: JsonView,
)
    ensures
        ({
            let told = greeting(process, uri, name, settings);
            &&& told.field("processId"@) == JsonView::Int(process)
            &&& told.field("rootUri"@) == JsonView::Text(uri)
            &&& told.field("workspaceFolders"@).item(0).field("uri"@) == JsonView::Text(uri)
            &&& told.field("workspaceFolders"@).item(0).field("name"@) == JsonView::Text(name)
            &&& told.field("initializationOptions"@) == settings
            &&& told.field("capabilities"@).field("general"@).field("positionEncodings"@).item(0)
                == JsonView::Text("utf-16"@)
        }),
{
    reveal_strlit("processId");
    reveal_strlit("rootUri");
    reveal_strlit("workspaceFolders");
    reveal_strlit("initializationOptions");
    reveal_strlit("capabilities");
    reveal_strlit("uri");
    reveal_strlit("name");
    reveal_strlit("general");
    reveal_strlit("positionEncodings");
    reveal_strlit("workspace");
    reveal_strlit("textDocument");
    reveal_strlit("window");
    reveal_strlit("experimental");
    assert("processId"@.len() == 9);
    assert("rootUri"@.len() == 7);
    assert("workspaceFolders"@.len() == 16);
    assert("initializationOptions"@.len() == 21);
    assert("capabilities"@.len() == 12);
    assert("uri"@.len() == 3);
    assert("name"@.len() == 4);
    assert("general"@.len() == 7);
    assert("positionEncodings"@.len() == 17);
    assert("workspace"@.len() == 9);
    assert("textDocument"@.len() == 12);
    assert("window"@.len() == 6);
    assert("experimental"@.len() == 12);
    assert("processId"@[0] == 'p');
    assert("workspace"@[0] == 'w');
    assert("rootUri"@[0] == 'r');
    assert("general"@[0] == 'g');
    assert("capabilities"@[0] == 'c');
    assert("textDocument"@[0] == 't');
    assert("experimental"@[0] == 'e');
}

/// What is said of a server is its language and name, its process, whether it is ready
/// and what it is doing.
pub proof fn law_servers_are_summed_up(lsp: LspView, language: Language, process: Option<u32>)
    ensures
        ({
            let told = summary_view(lsp, language, process);
            &&& told.field("language"@) == JsonView::Text(language.named())
            &&& told.field("backend"@) == JsonView::Text(lsp.name)
            &&& told.field("pid"@) == match process {
                Some(id) => JsonView::Int(id as int),
                None => JsonView::Null,
            }
            &&& told.field("ready"@) == JsonView::Bool(lsp.ready)
            &&& told.field("status"@) == JsonView::Text(lsp.status)
        }),
{
    reveal_strlit("language");
    reveal_strlit("backend");
    reveal_strlit("pid");
    reveal_strlit("ready");
    reveal_strlit("status");
    assert("language"@.len() == 8);
    assert("backend"@.len() == 7);
    assert("pid"@.len() == 3);
    assert("ready"@.len() == 5);
    assert("status"@.len() == 6);
}

/// A request of the server's that is not known is refused as such, and a message of any
/// other kind changes nothing.
pub proof fn law_unknown_messages_change_nothing(
    lsp: LspView,
    message: JsonView,
    settings: JsonView,
    section: Seq<char>,
    method: Seq<char>,
    id: JsonView,
    params: JsonView,
)
    ensures
        method != "workspace/configuration"@ && method != "workspace/applyEdit"@ && method != "workspace/diagnostic/refresh"@ && method != "workspace/semanticTokens/refresh"@ && method != "workspace/inlayHint/refresh"@ && method != "window/workDoneProgress/create"@ && method != "client/registerCapability"@ && method != "client/unregisterCapability"@ ==> ({
            let answer = request_answer(settings, section, method, id, params);
            &&& answer.field("id"@) == id
            &&& answer.field("error"@).field("code"@) == JsonView::Int(-32601)
            &&& !answer.has("result"@)
        }),
        message.field("method"@) == JsonView::Text(method) && !message.has("id"@) && method
            != "textDocument/publishDiagnostics"@ && method != "experimental/serverStatus"@
            ==> received(lsp, message) == (lsp, ReactionView::Nothing),
        !(message.field("method"@) is Text) && !(message.field("id"@) is Int) ==> received(
            lsp,
            message,
        ) == (lsp, ReactionView::Nothing),
{
    reveal_strlit("id");
    reveal_strlit("result");
    reveal_strlit("error");
    reveal_strlit("jsonrpc");
    reveal_strlit("code");
    reveal_strlit("message");
    assert("id"@.len() == 2);
    assert("result"@.len() == 6);
    assert("error"@.len() == 5);
    assert("jsonrpc"@.len() == 7);
    assert("code"@.len() == 4);
    assert("message"@.len() == 7);
    assert("jsonrpc"@[0] == 'j');
    assert("message"@[0] == 'm');
}

/// A server that has just been started is not ready, knows nothing and waits for
/// nothing.
pub proof fn law_fresh_servers_know_nothing(spec: ServerView, uri: Seq<char>, id: u64)
    ensures
        ({
            let lsp = Lsp::fresh(spec);
            &&& !lsp.ready
            &&& lsp.name == spec.name && lsp.settings == spec.settings && lsp.section
                == spec.section && lsp.server_status == spec.server_status
            &&& !lsp.diagnostics.contains_key(uri)
            &&& !lsp.pending.contains(id)
        }),
{
}

} // verus!
