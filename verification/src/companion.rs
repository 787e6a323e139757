//! The editor's companion: it speaks the language-server protocol to an editor
//! and passes the editor's documents on to the bridge.

use crate::escape;
use crate::fault::{Failure, FailureView, Fault};
use crate::json::{views, Json, JsonView};
use crate::lsp;
use crate::protocol;
use crate::table::Table;
use crate::text;
use crate::uri;
use crate::wire;
use crate::workspace::{SyncEvent, SyncEventView};
use vstd::prelude::*;
use vstd::utf8::encode_utf8;

verus! {

/// The version that the companion gives as its own.
pub open spec fn version_text() -> Seq<char> {
    "0.2.0"@
}

/// The version that the companion gives as its own.
pub fn version() -> (r: &'static str)
    ensures
        r@ == version_text(),
{
    "0.2.0"
}

/// A document as the editor shows it.
#[derive(Clone, Copy, PartialEq, Eq, Structural)]
pub struct Sending {
    /// The bridge's count of disk changes that this document has seen.
    pub epoch: u64,
    /// Whether the document is sent to the bridge. A document that the bridge
    /// refused is not, until the editor changes it again.
    pub replay: bool,
    /// The last editor message that was on its way when the bridge refused.
    pub suppress_through: u64,
}

/// A document as the editor shows it.
pub struct EditorDocument {
    pub text: String,
    pub sending: Sending,
}

/// A document as the editor shows it, in the terms of contracts.
#[verifier::ext_equal]
pub struct EditorView {
    pub text: Seq<char>,
    pub sending: Sending,
}

impl View for EditorDocument {
    type V = EditorView;

    open spec fn view(&self) -> EditorView {
        EditorView { text: self.text@, sending: self.sending }
    }
}

/// What a document's sending is after the bridge has answered. A refusal lets
/// the document rest; messages up to `received` were on their way by then.
pub open spec fn acknowledged(sending: Sending, answer: JsonView, received: u64) -> Sending {
    let epoch = match answer.field("epoch"@).unsigned() {
        Some(n) => n,
        None => sending.epoch,
    };
    let replay = sending.replay && answer.field("accepted"@) != JsonView::Bool(false);
    Sending {
        epoch,
        replay,
        suppress_through: if replay {
            sending.suppress_through
        } else {
            received
        },
    }
}

impl Sending {
    /// A document that the editor has just opened.
    pub open spec fn opened() -> Sending {
        Sending { epoch: 0, replay: true, suppress_through: 0 }
    }

    /// Takes in the bridge's answer.
    pub fn acknowledge(self, answer: &Json, received: u64) -> (r: Sending)
        ensures
            r == acknowledged(self, answer@, received),
    {
        let epoch: u64 = match answer.at("epoch").as_u64() {
            Some(n) => n,
            None => self.epoch,
        };
        let replay: bool = self.replay && !answer.at("accepted").is_bool(false);
        let suppress_through: u64 = if replay {
            self.suppress_through
        } else {
            received
        };
        Sending { epoch, replay, suppress_through }
    }
}

/// A text after the editor's changes, one after the other: a change with a
/// range is an edit, one without is the whole new text.
pub open spec fn changed_text(text: Seq<char>, changes: Seq<JsonView>) -> Result<Seq<char>, Fault>
    decreases changes.len(),
{
    if changes.len() == 0 {
        Ok(text)
    } else {
        match changed_text(text, changes.drop_last()) {
            Err(fault) => Err(fault),
            Ok(earlier) => one_change(earlier, changes.last()),
        }
    }
}

/// A text after one change of the editor's.
pub open spec fn one_change(text: Seq<char>, change: JsonView) -> Result<Seq<char>, Fault> {
    if change.has("range"@) {
        protocol::edited(text, seq![change_as_edit(change)])
    } else {
        match change.field("text"@).text() {
            Some(new) => Ok(new),
            None => Err(Fault::MissingText),
        }
    }
}

/// A change with a range, as an edit.
pub open spec fn change_as_edit(change: JsonView) -> JsonView {
    JsonView::object().with("range"@, change.field("range"@)).with(
        "newText"@,
        change.field("text"@),
    )
}

/// The change event that tells a server of a new text gives that text, where it
/// is made in the old one; an incremental one does so if every carriage return
/// of the old text belongs to a line feed.
pub proof fn law_document_change_gives_new_text(
    old_text: Seq<char>,
    new_text: Seq<char>,
    incremental: bool,
)
    requires
        incremental ==> protocol::has_no_lone_return(old_text),
        text::byte_len(old_text) <= u64::MAX,
    ensures
        one_change(old_text, protocol::change_view(old_text, new_text, incremental)) == Ok::<
            Seq<char>,
            Fault,
        >(new_text),
{
    let change = protocol::change_view(old_text, new_text, incremental);
    reveal_strlit("range");
    reveal_strlit("text");
    assert("range"@.len() == 5 && "text"@.len() == 4);
    if incremental {
        protocol::law_replacement_gives_new_text(old_text, new_text);
        assert(change_as_edit(change) == protocol::replacement(old_text, new_text));
    }
}

fn apply_change(old_text: &str, change: &Json) -> (r: Result<String, Fault>)
    ensures
        match r {
            Ok(new) => one_change(old_text@, change@) == Ok::<Seq<char>, Fault>(new@),
            Err(fault) => one_change(old_text@, change@) == Err::<Seq<char>, Fault>(fault),
        },
{
    match change.get("range") {
        Some(range) => {
            let edit = Json::object().with("range", range.copy()).with(
                "newText",
                change.at("text").copy(),
            );
            let mut edits: Vec<Json> = Vec::new();
            edits.push(edit);
            proof {
                assert(views(edits@) =~= seq![change_as_edit(change@)]);
            }
            protocol::edit_text(old_text, edits.as_slice())
        },
        None => match change.at("text").as_str() {
            Some(new) => Ok(new.to_owned()),
            None => Err(Fault::MissingText),
        },
    }
}

proof fn lemma_first_change_fault(text: Seq<char>, changes: Seq<JsonView>, n: int)
    requires
        0 <= n <= changes.len(),
    ensures
        changed_text(text, changes.take(n)) matches Err(fault) ==> changed_text(text, changes)
            == Err::<Seq<char>, Fault>(fault),
    decreases changes.len(),
{
    if n < changes.len() {
        lemma_first_change_fault(text, changes.drop_last(), n);
        assert(changes.drop_last().take(n) =~= changes.take(n));
    } else {
        assert(changes.take(n) =~= changes);
    }
}

/// A text after the editor's changes.
pub fn apply_changes(old_text: &str, changes: &Vec<Json>) -> (r: Result<String, Fault>)
    ensures
        match r {
            Ok(new) => changed_text(old_text@, views(changes@)) == Ok::<Seq<char>, Fault>(new@),
            Err(fault) => changed_text(old_text@, views(changes@)) == Err::<Seq<char>, Fault>(
                fault,
            ),
        },
{
    let ghost all = views(changes@);
    let mut now = old_text.to_owned();
    let mut i: usize = 0;
    proof {
        assert(all.take(0) =~= Seq::<JsonView>::empty());
    }
    while i < changes.len()
        invariant
            all == views(changes@),
            i <= changes@.len(),
            changed_text(old_text@, all.take(i as int)) == Ok::<Seq<char>, Fault>(now@),
        decreases changes@.len() - i,
    {
        proof {
            assert(all.take(i + 1).drop_last() =~= all.take(i as int));
            assert(all.take(i + 1).last() == changes@[i as int]@);
            lemma_first_change_fault(old_text@, all, i + 1);
        }
        now = match apply_change(now.as_str(), &changes[i]) {
            Ok(new) => new,
            Err(fault) => {
                return Err(fault);
            },
        };
        i = i + 1;
    }
    proof {
        assert(all.take(all.len() as int) =~= all);
    }
    Ok(now)
}

/// The companion of one editor.
pub struct Companion {
    pub id: String,
    /// The workspace's directory; empty until the editor has named it.
    pub root: String,
    /// Whether the bridge knows this companion.
    pub connected: bool,
    /// The bridge's session that the documents were last sent to.
    pub instance: String,
    pub documents: Table<EditorDocument>,
}

/// The companion of one editor, in the terms of contracts.
#[verifier::ext_equal]
pub struct CompanionView {
    pub id: Seq<char>,
    pub root: Seq<char>,
    pub connected: bool,
    pub instance: Seq<char>,
    pub documents: Map<Seq<char>, EditorView>,
}

/// Documents, in the terms of contracts.
pub open spec fn editor_views(documents: Map<Seq<char>, EditorDocument>) -> Map<
    Seq<char>,
    EditorView,
> {
    Map::new(|uri: Seq<char>| documents.contains_key(uri), |uri: Seq<char>| documents[uri]@)
}

impl View for Companion {
    type V = CompanionView;

    open spec fn view(&self) -> CompanionView {
        CompanionView {
            id: self.id@,
            root: self.root@,
            connected: self.connected,
            instance: self.instance@,
            documents: editor_views(self.documents@),
        }
    }
}

/// What an editor message calls for.
pub enum CompanionStep {
    Nothing,
    /// Send this to the editor.
    Reply(Json),
    /// Send this to the bridge, and hand its answer to [`Companion::answered`].
    Send(SyncEvent),
    /// The editor is done.
    Exit,
}

/// What an editor message calls for, in the terms of contracts.
pub enum StepView {
    Nothing,
    Reply(JsonView),
    Send(SyncEventView),
    Exit,
}

impl View for CompanionStep {
    type V = StepView;

    open spec fn view(&self) -> StepView {
        match *self {
            CompanionStep::Nothing => StepView::Nothing,
            CompanionStep::Reply(message) => StepView::Reply(message@),
            CompanionStep::Send(event) => StepView::Send(event@),
            CompanionStep::Exit => StepView::Exit,
        }
    }
}

/// What the companion says of itself.
pub open spec fn introduction() -> JsonView {
    JsonView::object().with(
        "capabilities"@,
        JsonView::object().with("positionEncoding"@, JsonView::Text("utf-16"@)).with(
            "textDocumentSync"@,
            JsonView::object().with("openClose"@, JsonView::Bool(true)).with(
                "change"@,
                JsonView::Int(1),
            ).with("save"@, JsonView::object().with("includeText"@, JsonView::Bool(true))),
        ),
    ).with(
        "serverInfo"@,
        JsonView::object().with("name"@, JsonView::Text("Editor bridge companion"@)).with(
            "version"@,
            JsonView::Text(version_text()),
        ),
    )
}

/// The URI of the workspace that an editor names.
pub open spec fn named_root(params: JsonView) -> Option<Seq<char>> {
    match params.field("rootUri"@).text() {
        Some(uri) => Some(uri),
        None => params.field("workspaceFolders"@).item(0).field("uri"@).text(),
    }
}

/// The workspace's directory that an editor names, with replacement characters
/// where it is no text.
pub open spec fn root_path(params: JsonView) -> Result<Seq<char>, FailureView> {
    match named_root(params) {
        None => Err(FailureView::plain(Fault::NoRoot)),
        Some(uri) => match uri::path_in_uri(uri, Fault::InvalidRootUri) {
            Ok(bytes) => Ok(escape::lossy_text(bytes)),
            Err(failure) => Err(failure),
        },
    }
}

/// What a companion that was told its workspace changes and answers.
pub open spec fn introduced(
    state: CompanionView,
    root: Result<Seq<char>, FailureView>,
    id: JsonView,
) -> Result<(CompanionView, StepView), FailureView> {
    match root {
        Err(failure) => Err(failure),
        Ok(root) => Ok(
            (
                CompanionView { root, ..state },
                StepView::Reply(lsp::answer_view(id, introduction())),
            ),
        ),
    }
}

/// What the editor's request changes and is answered.
pub open spec fn requested(
    state: CompanionView,
    method: Seq<char>,
    id: JsonView,
    params: JsonView,
) -> Result<(CompanionView, StepView), FailureView> {
    if method == "initialize"@ {
        introduced(state, root_path(params), id)
    } else if method == "shutdown"@ {
        Ok((state, StepView::Reply(lsp::answer_view(id, JsonView::Null))))
    } else {
        Ok((state, StepView::Reply(lsp::refusal_view(id, "Unsupported method"@))))
    }
}

/// The kind of event that a method is, if it is one.
pub open spec fn event_kind(method: Seq<char>) -> Option<Seq<char>> {
    if method == "textDocument/didOpen"@ {
        Some("open"@)
    } else if method == "textDocument/didChange"@ {
        Some("change"@)
    } else if method == "textDocument/didSave"@ {
        Some("save"@)
    } else if method == "textDocument/didClose"@ {
        Some("close"@)
    } else {
        None
    }
}

/// The document after a change that the editor tells of. It is sent again, if
/// the change was made after the bridge's refusal had arrived.
pub open spec fn changed_document(
    document: EditorView,
    sequence: u64,
    changes: JsonView,
) -> Result<EditorView, Fault> {
    match changes.items() {
        None => Err(Fault::MissingChanges),
        Some(items) => match changed_text(document.text, items) {
            Err(fault) => Err(fault),
            Ok(text) => Ok(
                EditorView {
                    text,
                    sending: Sending {
                        replay: sequence > document.sending.suppress_through,
                        ..document.sending
                    },
                },
            ),
        },
    }
}

/// The documents after an editor's notification.
pub open spec fn noted(
    documents: Map<Seq<char>, EditorView>,
    kind: Seq<char>,
    uri: Seq<char>,
    sequence: u64,
    params: JsonView,
) -> Result<Map<Seq<char>, EditorView>, Fault> {
    if kind == "open"@ {
        Ok(
            documents.insert(
                uri,
                EditorView {
                    text: params.field("textDocument"@).field("text"@).text_or_empty(),
                    sending: Sending::opened(),
                },
            ),
        )
    } else if kind == "change"@ && documents.contains_key(uri) {
        match changed_document(documents[uri], sequence, params.field("contentChanges"@)) {
            Err(fault) => Err(fault),
            Ok(document) => Ok(documents.insert(uri, document)),
        }
    } else {
        Ok(documents)
    }
}

/// Whether a notification is passed on: the bridge must know the companion, and
/// a change must be of a document that is being sent.
pub open spec fn passes_on(state: CompanionView, kind: Seq<char>, uri: Seq<char>) -> bool {
    state.connected && (kind != "change"@ || (state.documents.contains_key(uri)
        && state.documents[uri].sending.replay))
}

/// The event that tells of a document.
pub open spec fn document_event(state: CompanionView, kind: Seq<char>, uri: Seq<char>) -> SyncEventView {
    let known = state.documents.contains_key(uri);
    SyncEventView {
        workspace: state.root,
        companion: state.id,
        kind,
        uri: Some(uri),
        text: Some(
            if known {
                state.documents[uri].text
            } else {
                Seq::empty()
            },
        ),
        epoch: if known {
            state.documents[uri].sending.epoch
        } else {
            0
        },
    }
}

/// The event that tells of the companion alone.
pub open spec fn own_event(state: CompanionView, kind: Seq<char>) -> SyncEventView {
    SyncEventView {
        workspace: state.root,
        companion: state.id,
        kind,
        uri: None,
        text: None,
        epoch: 0,
    }
}

/// What an editor's notification changes, and what it calls for. A closed
/// document is forgotten, once the bridge has answered if it is told.
pub open spec fn notified(
    state: CompanionView,
    method: Seq<char>,
    sequence: u64,
    params: JsonView,
) -> Result<(CompanionView, StepView), FailureView> {
    if method == "exit"@ {
        Ok((state, StepView::Exit))
    } else {
        match params.field("textDocument"@).field("uri"@).text() {
            None => Ok((state, StepView::Nothing)),
            Some(uri) => match event_kind(method) {
                None => Ok((state, StepView::Nothing)),
                Some(kind) => match noted(state.documents, kind, uri, sequence, params) {
                    Err(fault) => Err(FailureView::plain(fault)),
                    Ok(documents) => {
                        let now = CompanionView { documents, ..state };
                        if passes_on(now, kind, uri) {
                            Ok((now, StepView::Send(document_event(now, kind, uri))))
                        } else if kind == "close"@ {
                            Ok(
                                (
                                    CompanionView { documents: documents.remove(uri), ..state },
                                    StepView::Nothing,
                                ),
                            )
                        } else {
                            Ok((now, StepView::Nothing))
                        }
                    },
                },
            },
        }
    }
}

/// What an editor message changes, and what it calls for.
pub open spec fn received(state: CompanionView, sequence: u64, message: JsonView) -> Result<
    (CompanionView, StepView),
    FailureView,
> {
    let method = message.field("method"@).text_or_empty();
    let params = message.field("params"@);
    if message.has("id"@) {
        requested(state, method, message.field("id"@), params)
    } else {
        notified(state, method, sequence, params)
    }
}

/// What the bridge's answer to a document's event changes; no answer means that
/// the bridge cannot be reached.
pub open spec fn after_answer(
    state: CompanionView,
    kind: Seq<char>,
    uri: Seq<char>,
    answer: Option<JsonView>,
    received: u64,
) -> CompanionView {
    let told = match answer {
        None => CompanionView { connected: false, ..state },
        Some(value) => if state.documents.contains_key(uri) {
            let document = state.documents[uri];
            CompanionView {
                documents: state.documents.insert(
                    uri,
                    EditorView {
                        sending: acknowledged(document.sending, value, received),
                        ..document
                    },
                ),
                ..state
            }
        } else {
            state
        },
    };
    if kind == "close"@ {
        CompanionView { documents: told.documents.remove(uri), ..told }
    } else {
        told
    }
}

/// What the bridge's answer to a sign of life changes.
pub open spec fn after_tick(state: CompanionView, answer: Option<JsonView>) -> CompanionView {
    match answer {
        None => CompanionView { connected: false, ..state },
        Some(value) => if state.connected {
            state
        } else {
            CompanionView {
                connected: true,
                instance: value.field("instance"@).text_or_empty(),
                ..state
            }
        },
    }
}

/// What bringing a document to a bridge that was just reached changes: one that
/// was restarted counts disk changes from the start.
pub open spec fn brought(state: CompanionView, uri: Seq<char>, restarted: bool) -> CompanionView {
    if state.documents.contains_key(uri) && restarted {
        let document = state.documents[uri];
        CompanionView {
            documents: state.documents.insert(
                uri,
                EditorView { sending: Sending { epoch: 0, ..document.sending }, ..document },
            ),
            ..state
        }
    } else {
        state
    }
}

/// The documents to bring to a bridge that was just reached.
pub struct Visit {
    pub uris: Vec<String>,
    /// Whether the bridge is another session than before.
    pub restarted: bool,
}

fn make_introduction() -> (r: Json)
    ensures
        r@ == introduction(),
{
    Json::object().with(
        "capabilities",
        Json::object().with("positionEncoding", Json::text("utf-16")).with(
            "textDocumentSync",
            Json::object().with("openClose", Json::boolean(true)).with(
                "change",
                Json::number(1),
            ).with("save", Json::object().with("includeText", Json::boolean(true))),
        ),
    ).with(
        "serverInfo",
        Json::object().with("name", Json::text("Editor bridge companion")).with(
            "version",
            Json::text(version()),
        ),
    )
}

fn find_root(params: &Json) -> (r: Result<String, Failure>)
    ensures
        match r {
            Ok(root) => root_path(params@) == Ok::<Seq<char>, FailureView>(root@),
            Err(failure) => root_path(params@) == Err::<Seq<char>, FailureView>(failure@),
        },
{
    let named = match params.at("rootUri").as_str() {
        Some(uri) => Some(uri),
        None => params.at("workspaceFolders").item(0).at("uri").as_str(),
    };
    match named {
        None => Err(Failure::plain(Fault::NoRoot)),
        Some(uri) => match uri::file_path(uri, Fault::InvalidRootUri) {
            Ok(bytes) => Ok(escape::text_from_utf8_lossy(bytes.as_slice())),
            Err(failure) => Err(failure),
        },
    }
}

fn kind_of(method: &str) -> (r: Option<&'static str>)
    ensures
        match r {
            Some(kind) => event_kind(method@) == Some(kind@),
            None => event_kind(method@) is None,
        },
{
    if text::same(method, "textDocument/didOpen") {
        Some("open")
    } else if text::same(method, "textDocument/didChange") {
        Some("change")
    } else if text::same(method, "textDocument/didSave") {
        Some("save")
    } else if text::same(method, "textDocument/didClose") {
        Some("close")
    } else {
        None
    }
}

impl Companion {
    /// A companion that no editor has spoken to.
    pub fn with_id(id: String) -> (r: Companion)
        ensures
            r@ == (CompanionView {
                id: id@,
                root: Seq::empty(),
                connected: false,
                instance: Seq::empty(),
                documents: Map::empty(),
            }),
    {
        let r = Companion {
            id,
            root: String::new(),
            connected: false,
            instance: String::new(),
            documents: Table::new(),
        };
        proof {
            assert(r.root@ =~= Seq::<char>::empty());
            assert(r.instance@ =~= Seq::<char>::empty());
            assert(r@ =~= (CompanionView {
                id: id@,
                root: Seq::empty(),
                connected: false,
                instance: Seq::empty(),
                documents: Map::empty(),
            }));
        }
        r
    }

    /// A companion with a fresh identifier.
    pub fn new() -> (r: Companion)
        ensures
            r@ == (CompanionView {
                id: r@.id,
                root: Seq::empty(),
                connected: false,
                instance: Seq::empty(),
                documents: Map::empty(),
            }),
            r@.id.len() == 36,
    {
        Companion::with_id(uri::fresh_id())
    }

    fn own_event(&self, kind: &str) -> (r: SyncEvent)
        ensures
            r@ == own_event(self@, kind@),
    {
        let r = SyncEvent {
            workspace: self.root.as_str().to_owned(),
            companion: self.id.as_str().to_owned(),
            kind: kind.to_owned(),
            uri: None,
            text: None,
            epoch: 0,
        };
        proof {
            assert(r@ =~= own_event(self@, kind@));
        }
        r
    }

    fn document_event(&self, kind: &str, uri: &str) -> (r: SyncEvent)
        ensures
            r@ == document_event(self@, kind@, uri@),
    {
        let (text, epoch) = match self.documents.get(uri) {
            Some(document) => (document.text.as_str().to_owned(), document.sending.epoch),
            None => (String::new(), 0),
        };
        let r = SyncEvent {
            workspace: self.root.as_str().to_owned(),
            companion: self.id.as_str().to_owned(),
            kind: kind.to_owned(),
            uri: Some(uri.to_owned()),
            text: Some(text),
            epoch,
        };
        proof {
            assert(!self.documents@.contains_key(uri@) ==> text@ =~= Seq::<char>::empty());
            assert(r@ =~= document_event(self@, kind@, uri@));
        }
        r
    }

    fn put(&mut self, uri: &str, document: EditorDocument)
        ensures
            final(self)@ == (CompanionView {
                documents: old(self)@.documents.insert(uri@, document@),
                ..old(self)@
            }),
    {
        let ghost before = self.documents@;
        self.documents.insert(uri, document);
        proof {
            assert(editor_views(self.documents@) =~= editor_views(before).insert(
                uri@,
                document@,
            ));
            assert(self@ =~= (CompanionView {
                documents: old(self)@.documents.insert(uri@, document@),
                ..old(self)@
            }));
        }
    }

    fn forget(&mut self, uri: &str)
        ensures
            final(self)@ == (CompanionView {
                documents: old(self)@.documents.remove(uri@),
                ..old(self)@
            }),
    {
        let ghost before = self.documents@;
        let _ = self.documents.remove(uri);
        proof {
            assert(editor_views(self.documents@) =~= editor_views(before).remove(uri@));
            assert(self@ =~= (CompanionView {
                documents: old(self)@.documents.remove(uri@),
                ..old(self)@
            }));
        }
    }

    /// Takes in an editor message, by its number. An error ends the companion.
    pub fn receive(&mut self, sequence: u64, message: &Json) -> (r: Result<CompanionStep, Failure>)
        ensures
            match r {
                Ok(step) => received(old(self)@, sequence, message@) == Ok::<
                    (CompanionView, StepView),
                    FailureView,
                >((final(self)@, step@)),
                Err(failure) => received(old(self)@, sequence, message@) == Err::<
                    (CompanionView, StepView),
                    FailureView,
                >(failure@) && final(self)@ == old(self)@,
            },
    {
        let method = message.at("method").str_or_empty();
        let params = message.at("params");
        match message.get("id") {
            Some(id) => self.answer_request(method, id, params),
            None => self.note(sequence, method, params),
        }
    }

    /// Takes in the workspace that the editor named, or why it named none.
    pub fn introduce(&mut self, root: Result<String, Failure>, id: &Json) -> (r: Result<
        CompanionStep,
        Failure,
    >)
        ensures
            ({
                let named = match root {
                    Ok(root) => Ok(root@),
                    Err(failure) => Err(failure@),
                };
                match r {
                    Ok(step) => introduced(old(self)@, named, id@) == Ok::<
                        (CompanionView, StepView),
                        FailureView,
                    >((final(self)@, step@)),
                    Err(failure) => introduced(old(self)@, named, id@) == Err::<
                        (CompanionView, StepView),
                        FailureView,
                    >(failure@) && final(self)@ == old(self)@,
                }
            }),
    {
        match root {
            Err(failure) => Err(failure),
            Ok(root) => {
                self.root = root;
                proof {
                    assert(self@ =~= (CompanionView { root: root@, ..old(self)@ }));
                }
                Ok(CompanionStep::Reply(lsp::answer(id, make_introduction())))
            },
        }
    }

    fn answer_request(&mut self, method: &str, id: &Json, params: &Json) -> (r: Result<
        CompanionStep,
        Failure,
    >)
        ensures
            match r {
                Ok(step) => requested(old(self)@, method@, id@, params@) == Ok::<
                    (CompanionView, StepView),
                    FailureView,
                >((final(self)@, step@)),
                Err(failure) => requested(old(self)@, method@, id@, params@) == Err::<
                    (CompanionView, StepView),
                    FailureView,
                >(failure@) && final(self)@ == old(self)@,
            },
    {
        if text::same(method, "initialize") {
            self.introduce(find_root(params), id)
        } else if text::same(method, "shutdown") {
            Ok(CompanionStep::Reply(lsp::answer(id, Json::null())))
        } else {
            Ok(CompanionStep::Reply(lsp::refusal(id, "Unsupported method")))
        }
    }

    fn note(&mut self, sequence: u64, method: &str, params: &Json) -> (r: Result<
        CompanionStep,
        Failure,
    >)
        ensures
            match r {
                Ok(step) => notified(old(self)@, method@, sequence, params@) == Ok::<
                    (CompanionView, StepView),
                    FailureView,
                >((final(self)@, step@)),
                Err(failure) => notified(old(self)@, method@, sequence, params@) == Err::<
                    (CompanionView, StepView),
                    FailureView,
                >(failure@) && final(self)@ == old(self)@,
            },
    {
        if text::same(method, "exit") {
            return Ok(CompanionStep::Exit);
        }
        let uri = match params.at("textDocument").at("uri").as_str() {
            Some(uri) => uri,
            None => {
                return Ok(CompanionStep::Nothing);
            },
        };
        let kind = match kind_of(method) {
            Some(kind) => kind,
            None => {
                return Ok(CompanionStep::Nothing);
            },
        };
        match self.note_document(kind, uri, sequence, params) {
            Err(fault) => {
                return Err(Failure::plain(fault));
            },
            Ok(()) => {},
        }
        let sent: bool = match self.documents.get(uri) {
            Some(document) => document.sending.replay,
            None => false,
        };
        if self.connected && (!text::same(kind, "change") || sent) {
            return Ok(CompanionStep::Send(self.document_event(kind, uri)));
        }
        if text::same(kind, "close") {
            self.forget(uri);
        }
        Ok(CompanionStep::Nothing)
    }

    fn note_document(&mut self, kind: &str, uri: &str, sequence: u64, params: &Json) -> (r: Result<
        (),
        Fault,
    >)
        ensures
            match r {
                Ok(()) => noted(old(self)@.documents, kind@, uri@, sequence, params@) == Ok::<
                    Map<Seq<char>, EditorView>,
                    Fault,
                >(final(self)@.documents) && final(self)@ == (CompanionView {
                    documents: final(self)@.documents,
                    ..old(self)@
                }),
                Err(fault) => noted(old(self)@.documents, kind@, uri@, sequence, params@) == Err::<
                    Map<Seq<char>, EditorView>,
                    Fault,
                >(fault) && final(self)@ == old(self)@,
            },
    {
        if text::same(kind, "open") {
            let document = EditorDocument {
                text: params.at("textDocument").at("text").str_or_empty().to_owned(),
                sending: Sending { epoch: 0, replay: true, suppress_through: 0 },
            };
            self.put(uri, document);
            return Ok(());
        }
        if text::same(kind, "change") {
            let now = match self.documents.get(uri) {
                None => {
                    return Ok(());
                },
                Some(document) => match params.at("contentChanges").as_array() {
                    None => {
                        return Err(Fault::MissingChanges);
                    },
                    Some(changes) => match apply_changes(document.text.as_str(), changes) {
                        Err(fault) => {
                            return Err(fault);
                        },
                        Ok(text) => {
                            let mut sending = document.sending;
                            sending.replay = sequence > sending.suppress_through;
                            EditorDocument { text, sending }
                        },
                    },
                },
            };
            self.put(uri, now);
        }
        Ok(())
    }

    /// Takes in the bridge's answer to a document's event; none if the bridge
    /// could not be reached. `received` counts the editor messages so far.
    pub fn answered(&mut self, kind: &str, uri: &str, answer: Option<&Json>, received: u64)
        ensures
            final(self)@ == after_answer(
                old(self)@,
                kind@,
                uri@,
                match answer {
                    Some(value) => Some(value@),
                    None => None,
                },
                received,
            ),
    {
        match answer {
            None => {
                self.connected = false;
                proof {
                    assert(self@ =~= (CompanionView { connected: false, ..old(self)@ }));
                }
            },
            Some(value) => {
                let now = match self.documents.get(uri) {
                    None => None,
                    Some(document) => Some(
                        EditorDocument {
                            text: document.text.as_str().to_owned(),
                            sending: document.sending.acknowledge(value, received),
                        },
                    ),
                };
                match now {
                    Some(document) => {
                        self.put(uri, document);
                    },
                    None => {},
                }
            },
        }
        if text::same(kind, "close") {
            self.forget(uri);
        }
    }

    /// The sign of life to send to the bridge; none before the editor has named
    /// a workspace.
    pub fn tick(&self) -> (r: Option<SyncEvent>)
        ensures
            match r {
                Some(event) => self@.root.len() > 0 && event@ == own_event(
                    self@,
                    if self@.connected {
                        "heartbeat"@
                    } else {
                        "connect"@
                    },
                ),
                None => self@.root.len() == 0,
            },
    {
        if self.root.as_str().is_empty() {
            None
        } else if self.connected {
            Some(self.own_event("heartbeat"))
        } else {
            Some(self.own_event("connect"))
        }
    }

    /// Takes in the bridge's answer to a sign of life; none if the bridge could
    /// not be reached. The result lists what to bring to a bridge that was just
    /// reached, each by [`Companion::reopen`].
    pub fn ticked(&mut self, answer: Option<&Json>) -> (r: Option<Visit>)
        ensures
            final(self)@ == after_tick(
                old(self)@,
                match answer {
                    Some(value) => Some(value@),
                    None => None,
                },
            ),
            match r {
                Some(visit) => answer is Some && !old(self)@.connected && visit.restarted == (
                old(self)@.instance != final(self)@.instance) && text::texts_view(
                    visit.uris@,
                ).to_set() == old(self)@.documents.dom() && text::in_text_order(
                    text::texts_view(visit.uris@),
                ),
                None => answer is None || old(self)@.connected,
            },
    {
        match answer {
            None => {
                self.connected = false;
                proof {
                    assert(self@ =~= (CompanionView { connected: false, ..old(self)@ }));
                }
                None
            },
            Some(value) => {
                if self.connected {
                    return None;
                }
                let next = value.at("instance").str_or_empty();
                let restarted: bool = !text::same(self.instance.as_str(), next);
                self.connected = true;
                self.instance = next.to_owned();
                proof {
                    assert(self@ =~= (CompanionView {
                        connected: true,
                        instance: next@,
                        ..old(self)@
                    }));
                    assert(editor_views(self.documents@).dom() =~= self.documents@.dom());
                }
                let uris = self.documents.key_list();
                Some(Visit { uris, restarted })
            },
        }
    }

    /// Brings a document to a bridge that was just reached. The result is to be
    /// sent, and its answer handed to [`Companion::answered`].
    pub fn reopen(&mut self, uri: &str, restarted: bool) -> (r: Option<SyncEvent>)
        ensures
            final(self)@ == brought(old(self)@, uri@, restarted),
            match r {
                Some(event) => old(self)@.documents.contains_key(uri@)
                    && old(self)@.documents[uri@].sending.replay && event@ == document_event(
                    final(self)@,
                    "open"@,
                    uri@,
                ),
                None => !(old(self)@.documents.contains_key(uri@)
                    && old(self)@.documents[uri@].sending.replay),
            },
    {
        let (found, replay) = match self.documents.get(uri) {
            None => (None, false),
            Some(document) => {
                let mut sending = document.sending;
                sending.epoch = 0;
                (
                    Some(EditorDocument { text: document.text.as_str().to_owned(), sending }),
                    document.sending.replay,
                )
            },
        };
        match found {
            None => None,
            Some(document) => {
                if restarted {
                    self.put(uri, document);
                }
                if replay {
                    Some(self.document_event("open", uri))
                } else {
                    None
                }
            },
        }
    }

    /// What to tell the bridge when the editor is done.
    pub fn farewell(&self) -> (r: Option<SyncEvent>)
        ensures
            match r {
                Some(event) => self@.connected && event@ == own_event(self@, "disconnect"@),
                None => !self@.connected,
            },
    {
        if self.connected {
            Some(self.own_event("disconnect"))
        } else {
            None
        }
    }
}

/// A text without the slashes at its end.
pub open spec fn without_slashes(text: Seq<char>) -> Seq<char>
    decreases text.len(),
{
    if text.len() > 0 && text.last() == '/' {
        without_slashes(text.drop_last())
    } else {
        text
    }
}

/// Where events are sent.
pub fn events_url(endpoint: &str) -> (r: String)
    ensures
        r@ == without_slashes(endpoint@) + "/api/companion"@,
{
    let chars = text::chars_of(endpoint);
    let mut n: usize = chars.len();
    proof {
        assert(chars@.take(chars@.len() as int) =~= chars@);
    }
    while n > 0 && chars[n - 1] == '/'
        invariant
            chars@ == endpoint@,
            n <= chars@.len(),
            without_slashes(endpoint@) == without_slashes(endpoint@.take(n as int)),
        decreases n,
    {
        proof {
            assert(endpoint@.take(n as int).drop_last() =~= endpoint@.take(n - 1));
        }
        n = n - 1;
    }
    proof {
        assert(endpoint@.subrange(0, n as int) =~= endpoint@.take(n as int));
    }
    let base = text::text_between(&chars, 0, n);
    text::joined(base.as_str(), "/api/companion")
}

/// The bridge's answer to an event: the JSON of a successful response.
pub fn event_answer(success: bool, body: &str) -> (r: Option<Json>)
    ensures
        match r {
            Some(value) => success && wire::json_read(encode_utf8(body@)) == Some(value@),
            None => !success || wire::json_read(encode_utf8(body@)) is None,
        },
{
    if success {
        wire::parse(body.as_bytes())
    } else {
        None
    }
}

/// A document that the bridge refused is at rest: changes that were on their
/// way when the refusal arrived are not passed on.
pub proof fn law_refused_document_rests(
    state: CompanionView,
    uri: Seq<char>,
    answer: JsonView,
    received_by_then: u64,
    sequence: u64,
    params: JsonView,
)
    requires
        state.documents.contains_key(uri),
        answer.field("accepted"@) == JsonView::Bool(false),
        sequence <= received_by_then,
        params.field("textDocument"@).field("uri"@) == JsonView::Text(uri),
    ensures
        ({
            let refused = after_answer(state, "change"@, uri, Some(answer), received_by_then);
            notified(refused, "textDocument/didChange"@, sequence, params) matches Ok((_, step))
                ==> step is Nothing
        }),
{
    lemma_kinds_differ();
}

/// The editor's next change after that is passed on again, with the disk count
/// that the bridge named.
pub proof fn law_next_change_is_passed_on(
    state: CompanionView,
    uri: Seq<char>,
    answer: JsonView,
    received_by_then: u64,
    sequence: u64,
    params: JsonView,
)
    requires
        state.connected,
        state.documents.contains_key(uri),
        answer.field("accepted"@) == JsonView::Bool(false),
        answer.field("epoch"@).unsigned() is Some,
        sequence > received_by_then,
        params.field("textDocument"@).field("uri"@) == JsonView::Text(uri),
    ensures
        ({
            let refused = after_answer(state, "change"@, uri, Some(answer), received_by_then);
            notified(refused, "textDocument/didChange"@, sequence, params) matches Ok((_, step))
                ==> step matches StepView::Send(event) && event.epoch == answer.field(
                "epoch"@,
            ).unsigned()->0 && event.uri == Some(uri)
        }),
{
    lemma_kinds_differ();
}

proof fn lemma_kinds_differ()
    ensures
        "change"@ != "close"@,
        "change"@ != "open"@,
        "textDocument/didChange"@ != "exit"@,
        "textDocument/didChange"@ != "textDocument/didOpen"@,
{
    reveal_strlit("change");
    reveal_strlit("close");
    reveal_strlit("open");
    reveal_strlit("exit");
    reveal_strlit("textDocument/didChange");
    reveal_strlit("textDocument/didOpen");
    assert("change"@.len() == 6 && "close"@.len() == 5 && "open"@.len() == 4);
    assert("textDocument/didChange"@.len() == 22 && "exit"@.len() == 4);
    assert("textDocument/didOpen"@.len() == 20);
}

/// A document that the bridge refused is not brought to it again when the
/// connection was lost and is found again, whatever the bridge answers then.
pub proof fn law_refused_document_is_not_replayed(
    state: CompanionView,
    uri: Seq<char>,
    answer: JsonView,
    received_by_then: u64,
    lost: Option<JsonView>,
    found: Option<JsonView>,
    restarted: bool,
)
    requires
        state.documents.contains_key(uri),
        answer.field("accepted"@) == JsonView::Bool(false),
    ensures
        ({
            let refused = after_answer(state, "change"@, uri, Some(answer), received_by_then);
            let again = brought(after_tick(after_tick(refused, lost), found), uri, restarted);
            again.documents.contains_key(uri) && !again.documents[uri].sending.replay
        }),
{
    lemma_kinds_differ();
}

/// The editor's text is its own: no answer of the bridge changes it.
pub proof fn law_answers_leave_editor_texts(
    state: CompanionView,
    kind: Seq<char>,
    uri: Seq<char>,
    answer: Option<JsonView>,
    received_by_then: u64,
    other: Seq<char>,
)
    requires
        state.documents.contains_key(other),
        kind != "close"@ || other != uri,
    ensures
        ({
            let after = after_answer(state, kind, uri, answer, received_by_then);
            after.documents.contains_key(other) && after.documents[other].text
                == state.documents[other].text
        }),
{
}

/// What the editor opens is kept and passed on with its text, as a new document.
pub proof fn law_opened_documents_are_passed_on(
    state: CompanionView,
    uri: Seq<char>,
    text: Seq<char>,
    sequence: u64,
    params: JsonView,
)
    requires
        params.field("textDocument"@).field("uri"@) == JsonView::Text(uri),
        params.field("textDocument"@).field("text"@) == JsonView::Text(text),
    ensures
        notified(state, "textDocument/didOpen"@, sequence, params) matches Ok((now, step))
            && now.documents.contains_key(uri) && now.documents[uri].text == text && (forall|
            other: Seq<char>,
        |
            other != uri ==> ((#[trigger] now.documents.contains_key(other))
                == state.documents.contains_key(other)) && (state.documents.contains_key(other)
                ==> now.documents[other] == state.documents[other])) && step == if state.connected {
            StepView::Send(
                SyncEventView {
                    workspace: state.root,
                    companion: state.id,
                    kind: "open"@,
                    uri: Some(uri),
                    text: Some(text),
                    epoch: 0,
                },
            )
        } else {
            StepView::Nothing
        },
{
    reveal_strlit("textDocument/didOpen");
    reveal_strlit("textDocument/didChange");
    reveal_strlit("textDocument/didSave");
    reveal_strlit("textDocument/didClose");
    reveal_strlit("exit");
    reveal_strlit("open");
    reveal_strlit("change");
    reveal_strlit("save");
    reveal_strlit("close");
    assert("textDocument/didOpen"@.len() == 20);
    assert("textDocument/didChange"@.len() == 22);
    assert("textDocument/didSave"@.len() == 20);
    assert("textDocument/didClose"@.len() == 21);
    assert("exit"@.len() == 4);
    assert("open"@.len() == 4);
    assert("change"@.len() == 6);
    assert("save"@.len() == 4);
    assert("close"@.len() == 5);
    assert("textDocument/didOpen"@[16] == 'O');
    assert("textDocument/didSave"@[16] == 'S');
    assert("exit"@[0] == 'e');
    assert("open"@[0] == 'o');
    assert("save"@[0] == 's');
}

/// What the editor changes is kept, and passed on with the whole new text unless the
/// document rests.
pub proof fn law_changed_documents_are_passed_on(
    state: CompanionView,
    uri: Seq<char>,
    changes: Seq<JsonView>,
    sequence: u64,
    params: JsonView,
)
    requires
        params.field("textDocument"@).field("uri"@) == JsonView::Text(uri),
        params.field("contentChanges"@) == JsonView::Array(changes),
        state.documents.contains_key(uri),
        changed_text(state.documents[uri].text, changes) is Ok,
    ensures
        ({
            let text = changed_text(state.documents[uri].text, changes)->Ok_0;
            let awake = sequence > state.documents[uri].sending.suppress_through;
            notified(state, "textDocument/didChange"@, sequence, params) matches Ok((now, step))
                && now.documents.contains_key(uri) && now.documents[uri].text == text && step
                == if state.connected && awake {
                StepView::Send(
                    SyncEventView {
                        workspace: state.root,
                        companion: state.id,
                        kind: "change"@,
                        uri: Some(uri),
                        text: Some(text),
                        epoch: state.documents[uri].sending.epoch,
                    },
                )
            } else {
                StepView::Nothing
            }
        }),
{
    reveal_strlit("textDocument/didOpen");
    reveal_strlit("textDocument/didChange");
    reveal_strlit("textDocument/didSave");
    reveal_strlit("textDocument/didClose");
    reveal_strlit("exit");
    reveal_strlit("open");
    reveal_strlit("change");
    reveal_strlit("save");
    reveal_strlit("close");
    assert("textDocument/didOpen"@.len() == 20);
    assert("textDocument/didChange"@.len() == 22);
    assert("textDocument/didSave"@.len() == 20);
    assert("textDocument/didClose"@.len() == 21);
    assert("exit"@.len() == 4);
    assert("open"@.len() == 4);
    assert("change"@.len() == 6);
    assert("save"@.len() == 4);
    assert("close"@.len() == 5);
    assert("textDocument/didOpen"@[16] == 'O');
    assert("textDocument/didSave"@[16] == 'S');
    assert("exit"@[0] == 'e');
    assert("open"@[0] == 'o');
    assert("save"@[0] == 's');
}

/// What the editor saves or closes is passed on, with the text and the epoch that are
/// known; a document that is closed while there is no bridge is let go.
pub proof fn law_saved_and_closed_documents_are_passed_on(
    state: CompanionView,
    uri: Seq<char>,
    sequence: u64,
    params: JsonView,
)
    requires
        params.field("textDocument"@).field("uri"@) == JsonView::Text(uri),
        state.documents.contains_key(uri),
    ensures
        state.connected ==> (notified(state, "textDocument/didSave"@, sequence, params) matches Ok(
            (now, StepView::Send(event)),
        ) && now == state && event.kind == "save"@ && event.uri == Some(uri) && event.workspace
            == state.root && event.companion == state.id && event.epoch
            == state.documents[uri].sending.epoch),
        state.connected ==> (notified(state, "textDocument/didClose"@, sequence, params) matches Ok(
            (now, StepView::Send(event)),
        ) && now == state && event.kind == "close"@ && event.uri == Some(uri) && event.workspace
            == state.root && event.companion == state.id && event.epoch
            == state.documents[uri].sending.epoch),
        !state.connected ==> (notified(state, "textDocument/didClose"@, sequence, params) matches Ok(
            (now, StepView::Nothing),
        ) && !now.documents.contains_key(uri)),
        !state.connected ==> notified(state, "textDocument/didSave"@, sequence, params) == Ok::<
            (CompanionView, StepView),
            FailureView,
        >((state, StepView::Nothing)),
{
    reveal_strlit("textDocument/didOpen");
    reveal_strlit("textDocument/didChange");
    reveal_strlit("textDocument/didSave");
    reveal_strlit("textDocument/didClose");
    reveal_strlit("exit");
    reveal_strlit("open");
    reveal_strlit("change");
    reveal_strlit("save");
    reveal_strlit("close");
    assert("textDocument/didOpen"@.len() == 20);
    assert("textDocument/didChange"@.len() == 22);
    assert("textDocument/didSave"@.len() == 20);
    assert("textDocument/didClose"@.len() == 21);
    assert("exit"@.len() == 4);
    assert("open"@.len() == 4);
    assert("change"@.len() == 6);
    assert("save"@.len() == 4);
    assert("close"@.len() == 5);
    assert("textDocument/didOpen"@[16] == 'O');
    assert("textDocument/didSave"@[16] == 'S');
    assert("exit"@[0] == 'e');
    assert("open"@[0] == 'o');
    assert("save"@[0] == 's');
    let saved = notified(state, "textDocument/didSave"@, sequence, params)->Ok_0.0;
    assert(saved =~= state);
    let closed = notified(state, "textDocument/didClose"@, sequence, params)->Ok_0.0;
    if state.connected {
        assert(closed =~= state);
    }
}

/// Changes of a document are made one after the other; the first that cannot be made
/// ends it.
pub proof fn law_changes_are_made_in_turn(text: Seq<char>, changes: Seq<JsonView>, more: JsonView)
    ensures
        changed_text(text, Seq::empty()) == Ok::<Seq<char>, Fault>(text),
        changed_text(text, changes) matches Ok(now) ==> changed_text(text, changes.push(more))
            == one_change(now, more),
        changed_text(text, changes) matches Err(fault) ==> changed_text(text, changes.push(more))
            == Err::<Seq<char>, Fault>(fault),
{
    assert(changes.push(more).drop_last() =~= changes);
}

/// A change without a range gives the whole new text; one with a range replaces what
/// stands there and nothing else.
pub proof fn law_changes_replace_their_range(
    before: Seq<char>,
    part: Seq<char>,
    after: Seq<char>,
    change: JsonView,
    new_text: Seq<char>,
)
    requires
        change.field("text"@) == JsonView::Text(new_text),
        change.has("range"@) ==> protocol::position_place(
            before + part + after,
            change.field("range"@).field("start"@),
        ) == Ok::<int, Fault>(before.len() as int) && protocol::position_place(
            before + part + after,
            change.field("range"@).field("end"@),
        ) == Ok::<int, Fault>((before + part).len() as int),
    ensures
        change.has("range"@) ==> one_change(before + part + after, change) == Ok::<Seq<char>, Fault>(
            before + new_text + after,
        ),
        !change.has("range"@) ==> one_change(before + part + after, change) == Ok::<
            Seq<char>,
            Fault,
        >(new_text),
{
    reveal_strlit("range");
    reveal_strlit("newText");
    assert("range"@.len() == 5);
    assert("newText"@.len() == 7);
    if change.has("range"@) {
        protocol::law_one_edit_replaces_its_range(before, part, after, change_as_edit(change));
    }
}

/// The editor's first request is answered with what the companion can do, and its
/// directory is taken; a request to shut down is answered with null; any other is
/// refused.
pub proof fn law_requests_of_the_editor_are_answered(
    state: CompanionView,
    method: Seq<char>,
    id: JsonView,
    params: JsonView,
)
    ensures
        method == "initialize"@ ==> match root_path(params) {
            Ok(root) => requested(state, method, id, params) matches Ok(
                (now, StepView::Reply(reply)),
            ) && now.root == root && now.documents == state.documents && now.connected
                == state.connected && reply.field("id"@) == id && reply.field("result"@)
                == introduction(),
            Err(failure) => requested(state, method, id, params) == Err::<
                (CompanionView, StepView),
                FailureView,
            >(failure),
        },
        method == "shutdown"@ ==> (requested(state, method, id, params) matches Ok(
            (now, StepView::Reply(reply)),
        ) && now == state && reply.field("id"@) == id && reply.has("result"@) && reply.field(
            "result"@,
        ) is Null),
        method != "initialize"@ && method != "shutdown"@ ==> (requested(
            state,
            method,
            id,
            params,
        ) matches Ok((now, StepView::Reply(reply))) && now == state && reply.field("id"@) == id
            && reply.field("error"@).field("code"@) == JsonView::Int(-32601)),
{
    reveal_strlit("initialize");
    reveal_strlit("shutdown");
    reveal_strlit("id");
    reveal_strlit("result");
    reveal_strlit("error");
    reveal_strlit("code");
    reveal_strlit("message");
    reveal_strlit("jsonrpc");
    assert("initialize"@.len() == 10);
    assert("shutdown"@.len() == 8);
    assert("id"@.len() == 2);
    assert("result"@.len() == 6);
    assert("error"@.len() == 5);
    assert("code"@.len() == 4);
    assert("message"@.len() == 7);
    assert("jsonrpc"@.len() == 7);
    assert("message"@[0] == 'm');
    assert("jsonrpc"@[0] == 'j');
}

/// The directory is that of the root URI, or of the first folder where there is none.
pub proof fn law_the_editor_names_the_root(params: JsonView)
    ensures
        params.field("rootUri"@) matches JsonView::Text(uri) ==> named_root(params) == Some(uri),
        !(params.field("rootUri"@) is Text) && (params.field("workspaceFolders"@) matches JsonView::Array(
            folders,
        ) && folders.len() > 0 && folders[0].field("uri"@) is Text) ==> named_root(params) == Some(
            params.field("workspaceFolders"@)->Array_0[0].field("uri"@)->Text_0,
        ),
{
}

/// The bridge's answer sets the epoch of a document; a lost bridge is noted, and a
/// document that was closed is let go.
pub proof fn law_answers_set_epochs(
    state: CompanionView,
    kind: Seq<char>,
    uri: Seq<char>,
    answer: JsonView,
    epoch: u64,
    received: u64,
)
    requires
        state.documents.contains_key(uri),
        kind != "close"@,
        answer.field("epoch"@) == JsonView::Int(epoch as int),
    ensures
        ({
            let now = after_answer(state, kind, uri, Some(answer), received);
            &&& now.documents.contains_key(uri)
            &&& now.documents[uri].sending.epoch == epoch
            &&& now.documents[uri].text == state.documents[uri].text
            &&& now.connected == state.connected
            &&& answer.field("accepted"@) == JsonView::Bool(true) && state.documents[uri].sending.replay
                ==> now.documents[uri].sending.replay
        }),
        !after_answer(state, kind, uri, None, received).connected,
        !after_answer(state, "close"@, uri, Some(answer), received).documents.contains_key(uri),
        !after_answer(state, "close"@, uri, None, received).documents.contains_key(uri),
{
}

/// A companion that reaches the bridge is connected, and one that does not is not.
pub proof fn law_ticks_connect(state: CompanionView, answer: JsonView)
    ensures
        after_tick(state, Some(answer)).connected,
        !after_tick(state, None).connected,
        after_tick(state, Some(answer)).documents == state.documents,
        !state.connected && (answer.field("instance"@) is Text) ==> after_tick(
            state,
            Some(answer),
        ).instance == answer.field("instance"@)->Text_0,
        state.connected ==> after_tick(state, Some(answer)) == state,
{
}

/// Only slashes at the end are taken away, and all of them.
pub proof fn law_only_slashes_at_the_end_go(text: Seq<char>)
    ensures
        without_slashes(text).len() <= text.len(),
        without_slashes(text) == text.take(without_slashes(text).len() as int),
        without_slashes(text).len() > 0 ==> without_slashes(text).last() != '/',
        forall|i: int| without_slashes(text).len() <= i < text.len() ==> #[trigger] text[i] == '/',
    decreases text.len(),
{
    if text.len() > 0 && text.last() == '/' {
        let rest = text.drop_last();
        law_only_slashes_at_the_end_go(rest);
        let n = without_slashes(rest).len() as int;
        assert(rest.take(n) =~= text.take(n));
        assert forall|i: int| n <= i < text.len() implies #[trigger] text[i] == '/' by {
            if i < rest.len() {
                assert(rest[i] == text[i]);
            }
        }
    } else {
        assert(text.take(text.len() as int) =~= text);
    }
}

/// An event about a document has its text and epoch as they are known, and one about
/// the companion itself has neither; both say whose they are.
pub proof fn law_events_say_whose_they_are(state: CompanionView, kind: Seq<char>, uri: Seq<char>)
    ensures
        own_event(state, kind).kind == kind,
        own_event(state, kind).workspace == state.root,
        own_event(state, kind).companion == state.id,
        own_event(state, kind).uri is None && own_event(state, kind).text is None,
        document_event(state, kind, uri).kind == kind,
        document_event(state, kind, uri).workspace == state.root,
        document_event(state, kind, uri).companion == state.id,
        document_event(state, kind, uri).uri == Some(uri),
        state.documents.contains_key(uri) ==> document_event(state, kind, uri).text == Some(
            state.documents[uri].text,
        ) && document_event(state, kind, uri).epoch == state.documents[uri].sending.epoch,
{
}

/// What is brought to a bridge that was started anew begins with its epochs, and keeps
/// its text.
pub proof fn law_documents_are_brought(state: CompanionView, uri: Seq<char>, restarted: bool)
    requires
        state.documents.contains_key(uri),
    ensures
        brought(state, uri, restarted).documents.contains_key(uri),
        brought(state, uri, restarted).documents[uri].text == state.documents[uri].text,
        restarted ==> brought(state, uri, restarted).documents[uri].sending.epoch == 0,
        !restarted ==> brought(state, uri, restarted) == state,
        brought(state, uri, restarted).documents[uri].sending.replay
            == state.documents[uri].sending.replay,
{
}

/// The companion says that it takes whole texts, and texts with saves.
pub proof fn law_the_companion_takes_whole_texts()
    ensures
        introduction().field("capabilities"@).field("positionEncoding"@) == JsonView::Text(
            "utf-16"@,
        ),
        introduction().field("capabilities"@).field("textDocumentSync"@).field("openClose"@)
            == JsonView::Bool(true),
        introduction().field("capabilities"@).field("textDocumentSync"@).field("change"@)
            == JsonView::Int(1),
        introduction().field("capabilities"@).field("textDocumentSync"@).field("save"@).field(
            "includeText"@,
        ) == JsonView::Bool(true),
{
    reveal_strlit("capabilities");
    reveal_strlit("serverInfo");
    reveal_strlit("positionEncoding");
    reveal_strlit("textDocumentSync");
    reveal_strlit("openClose");
    reveal_strlit("change");
    reveal_strlit("save");
    reveal_strlit("includeText");
    assert("capabilities"@.len() == 12);
    assert("serverInfo"@.len() == 10);
    assert("positionEncoding"@.len() == 16);
    assert("textDocumentSync"@.len() == 16);
    assert("openClose"@.len() == 9);
    assert("change"@.len() == 6);
    assert("save"@.len() == 4);
    assert("includeText"@.len() == 11);
    assert("positionEncoding"@[0] == 'p');
    assert("textDocumentSync"@[0] == 't');
}

/// Messages of the editor that are not about documents, or about documents that are not
/// known, pass without effect.
pub proof fn law_other_messages_pass(
    state: CompanionView,
    method: Seq<char>,
    sequence: u64,
    params: JsonView,
)
    ensures
        method == "exit"@ ==> notified(state, method, sequence, params) == Ok::<
            (CompanionView, StepView),
            FailureView,
        >((state, StepView::Exit)),
        method != "exit"@ && !(params.field("textDocument"@).field("uri"@) is Text) ==> notified(
            state,
            method,
            sequence,
            params,
        ) == Ok::<(CompanionView, StepView), FailureView>((state, StepView::Nothing)),
        method != "exit"@ && method != "textDocument/didOpen"@ && method
            != "textDocument/didChange"@ && method != "textDocument/didSave"@ && method
            != "textDocument/didClose"@ ==> notified(state, method, sequence, params) == Ok::<
            (CompanionView, StepView),
            FailureView,
        >((state, StepView::Nothing)),
{
}

/// A message with a number is a request, and one without is a notification.
pub proof fn law_messages_are_told_apart(state: CompanionView, sequence: u64, message: JsonView, method: Seq<char>)
    requires
        message.field("method"@) == JsonView::Text(method),
    ensures
        message.has("id"@) ==> received(state, sequence, message) == requested(
            state,
            method,
            message.field("id"@),
            message.field("params"@),
        ),
        !message.has("id"@) ==> received(state, sequence, message) == notified(
            state,
            method,
            sequence,
            message.field("params"@),
        ),
{
}

/// A change that cannot be made in the text that is known is an error, and so is one
/// without a list of changes.
pub proof fn law_impossible_changes_fail(
    state: CompanionView,
    uri: Seq<char>,
    sequence: u64,
    params: JsonView,
)
    requires
        params.field("textDocument"@).field("uri"@) == JsonView::Text(uri),
        state.documents.contains_key(uri),
    ensures
        !(params.field("contentChanges"@) is Array) ==> notified(
            state,
            "textDocument/didChange"@,
            sequence,
            params,
        ) == Err::<(CompanionView, StepView), FailureView>(
            FailureView::plain(Fault::MissingChanges),
        ),
        params.field("contentChanges"@) matches JsonView::Array(changes) && (changed_text(
            state.documents[uri].text,
            changes,
        ) matches Err(fault)) ==> notified(state, "textDocument/didChange"@, sequence, params)
            is Err,
{
    reveal_strlit("textDocument/didOpen");
    reveal_strlit("textDocument/didChange");
    reveal_strlit("textDocument/didSave");
    reveal_strlit("textDocument/didClose");
    reveal_strlit("exit");
    reveal_strlit("open");
    reveal_strlit("change");
    reveal_strlit("save");
    reveal_strlit("close");
    assert("textDocument/didOpen"@.len() == 20);
    assert("textDocument/didChange"@.len() == 22);
    assert("textDocument/didSave"@.len() == 20);
    assert("textDocument/didClose"@.len() == 21);
    assert("exit"@.len() == 4);
    assert("open"@.len() == 4);
    assert("change"@.len() == 6);
    assert("save"@.len() == 4);
    assert("close"@.len() == 5);
    assert("textDocument/didOpen"@[16] == 'O');
    assert("textDocument/didSave"@[16] == 'S');
    assert("exit"@[0] == 'e');
    assert("open"@[0] == 'o');
    assert("save"@[0] == 's');
}

} // verus!
