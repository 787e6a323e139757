//! Open documents: what the language servers are told of them, and whose text
//! counts when the disk and an editor disagree.

use crate::fault::{Failure, FailureView, Fault};
use crate::json::{views, Json, JsonView};
use crate::language::{self, Language};
use crate::lsp::{notification, notification_view};
use crate::protocol;
use crate::table::{among, lemma_among_all, lemma_among_next, Table};
use crate::text;
use crate::workspace::{document_views, is_watched, Document, DocumentView, SyncEvent};
use crate::workspace::SyncEventView;
use crate::workspace::{Workspace, WorkspaceView, COMPANION_LEASE};
use std::collections::hash_map::DefaultHasher;
use std::hash::Hasher;
use vstd::prelude::*;
use vstd::std_specs::hash::DefaultHasherAdditionalSpecFns;
use vstd::utf8::encode_utf8;

verus! {

// ---------------------------------------------------------------------------
// What servers are told
// ---------------------------------------------------------------------------
/// A document by its URI.
pub open spec fn document_ref(uri: Seq<char>) -> JsonView {
    JsonView::object().with("uri"@, JsonView::Text(uri))
}

/// Parameters that name a document.
pub open spec fn about(uri: Seq<char>) -> JsonView {
    JsonView::object().with("textDocument"@, document_ref(uri))
}

/// Tells that a document was opened.
pub open spec fn open_view(
    uri: Seq<char>,
    language: Seq<char>,
    version: int,
    text: Seq<char>,
) -> JsonView {
    notification_view(
        "textDocument/didOpen"@,
        JsonView::object().with(
            "textDocument"@,
            document_ref(uri).with("languageId"@, JsonView::Text(language)).with(
                "version"@,
                JsonView::Int(version),
            ).with("text"@, JsonView::Text(text)),
        ),
    )
}

/// Tells that a document was changed.
pub open spec fn change_view(
    uri: Seq<char>,
    version: int,
    old_text: Seq<char>,
    new_text: Seq<char>,
    incremental: bool,
) -> JsonView {
    notification_view(
        "textDocument/didChange"@,
        JsonView::object().with(
            "textDocument"@,
            document_ref(uri).with("version"@, JsonView::Int(version)),
        ).with(
            "contentChanges"@,
            JsonView::Array(seq![protocol::change_view(old_text, new_text, incremental)]),
        ),
    )
}

/// Tells that a document was closed.
pub open spec fn close_view(uri: Seq<char>) -> JsonView {
    notification_view("textDocument/didClose"@, about(uri))
}

/// Tells that a document was saved.
pub open spec fn save_view(uri: Seq<char>) -> JsonView {
    notification_view("textDocument/didSave"@, about(uri))
}

/// A file that was changed on disk, or removed from it.
pub open spec fn file_change(uri: Seq<char>, gone: bool) -> JsonView {
    document_ref(uri).with(
        "type"@,
        JsonView::Int(
            if gone {
                3
            } else {
                2
            },
        ),
    )
}

/// Tells that files were changed on disk.
pub open spec fn watched_view(changes: Seq<JsonView>) -> JsonView {
    notification_view(
        "workspace/didChangeWatchedFiles"@,
        JsonView::object().with("changes"@, JsonView::Array(changes)),
    )
}

/// Whether a server takes changes by range.
pub open spec fn is_incremental(capabilities: JsonView) -> bool {
    let sync = capabilities.field("textDocumentSync"@);
    let change = if sync.unsigned() is Some {
        sync.unsigned()
    } else {
        sync.field("change"@).unsigned()
    };
    change == Some(2u64)
}

/// Parameters that name a document.
pub fn naming(uri: &str) -> (r: Json)
    ensures
        r@ == about(uri@),
{
    Json::object().with("textDocument", Json::object().with("uri", Json::text(uri)))
}

/// Tells that a document was opened.
pub fn open_message(uri: &str, language: &str, version: i64, text: &str) -> (r: Json)
    ensures
        r@ == open_view(uri@, language@, version as int, text@),
{
    notification(
        "textDocument/didOpen",
        Json::object().with(
            "textDocument",
            Json::object().with("uri", Json::text(uri)).with(
                "languageId",
                Json::text(language),
            ).with("version", Json::integer(version)).with("text", Json::text(text)),
        ),
    )
}

fn change_message(
    uri: &str,
    version: i64,
    old_text: &str,
    new_text: &str,
    incremental: bool,
) -> (r: Json)
    ensures
        r@ == change_view(uri@, version as int, old_text@, new_text@, incremental),
{
    let mut changes: Vec<Json> = Vec::new();
    changes.push(protocol::document_change(old_text, new_text, incremental));
    proof {
        assert(views(changes@) =~= seq![protocol::change_view(old_text@, new_text@, incremental)]);
    }
    notification(
        "textDocument/didChange",
        Json::object().with(
            "textDocument",
            Json::object().with("uri", Json::text(uri)).with("version", Json::integer(version)),
        ).with("contentChanges", Json::array(changes)),
    )
}

/// Tells that a document was closed.
pub fn close_message(uri: &str) -> (r: Json)
    ensures
        r@ == close_view(uri@),
{
    notification("textDocument/didClose", naming(uri))
}

/// Tells that a document was saved.
pub fn save_message(uri: &str) -> (r: Json)
    ensures
        r@ == save_view(uri@),
{
    notification("textDocument/didSave", naming(uri))
}

/// A file that was changed on disk, or removed from it.
pub fn changed_file(uri: &str, gone: bool) -> (r: Json)
    ensures
        r@ == file_change(uri@, gone),
{
    let kind: u64 = if gone {
        3
    } else {
        2
    };
    Json::object().with("uri", Json::text(uri)).with("type", Json::number(kind))
}

/// Tells that files were changed on disk.
pub fn watched_message(changes: Vec<Json>) -> (r: Json)
    ensures
        r@ == watched_view(views(changes@)),
{
    notification(
        "workspace/didChangeWatchedFiles",
        Json::object().with("changes", Json::array(changes)),
    )
}

fn incremental(capabilities: &Json) -> (r: bool)
    ensures
        r == is_incremental(capabilities@),
{
    let sync = capabilities.at("textDocumentSync");
    match sync.as_u64() {
        Some(n) => n == 2,
        None => match sync.at("change").as_u64() {
            Some(n) => n == 2,
            None => false,
        },
    }
}

// ---------------------------------------------------------------------------
// Giving a document a text
// ---------------------------------------------------------------------------
/// What giving a document a text tells the server first. An open document gets
/// a new version if the text is another; an unknown one is opened.
pub open spec fn begun(
    state: WorkspaceView,
    uri: Seq<char>,
    text: Seq<char>,
    capabilities: JsonView,
    path: Seq<char>,
) -> Result<(WorkspaceView, Option<JsonView>), FailureView> {
    if state.documents.contains_key(uri) {
        let document = state.documents[uri];
        if document.text != text {
            let version = (document.version + 1) as i64;
            Ok(
                (
                    state.with_document(uri, DocumentView { version, ..document }),
                    Some(
                        change_view(
                            uri,
                            version as int,
                            document.text,
                            text,
                            is_incremental(capabilities),
                        ),
                    ),
                ),
            )
        } else {
            Ok((state, None))
        }
    } else {
        match language::document_language(path) {
            Some(id) => Ok((state, Some(open_view(uri, id, 1, text)))),
            None => Err(FailureView::at(Fault::UnsupportedSource, path)),
        }
    }
}

/// What giving a document a text comes to, once the server was told.
pub open spec fn finished(
    state: WorkspaceView,
    uri: Seq<char>,
    text: Seq<char>,
    source: Seq<char>,
    disk: Option<Seq<char>>,
) -> WorkspaceView {
    if state.documents.contains_key(uri) {
        state.with_document(uri, DocumentView { text, source, ..state.documents[uri] })
    } else {
        state.with_document(uri, DocumentView { text, disk, version: 1, epoch: 0, source })
    }
}

impl Workspace {
    fn put_document(&mut self, uri: &str, document: Document)
        ensures
            final(self)@ == old(self)@.with_document(uri@, document@),
    {
        let ghost before = self.documents@;
        self.documents.insert(uri, document);
        proof {
            assert(document_views(self.documents@) =~= document_views(before).insert(
                uri@,
                document@,
            ));
            assert(self@ =~= old(self)@.with_document(uri@, document@));
        }
    }

    /// Forgets a document, which was closed.
    pub fn closed(&mut self, uri: &str)
        ensures
            final(self)@ == old(self)@.without_document(uri@),
    {
        let ghost before = self.documents@;
        let _ = self.documents.remove(uri);
        proof {
            assert(document_views(self.documents@) =~= document_views(before).remove(uri@));
            assert(self@ =~= old(self)@.without_document(uri@));
        }
    }

    /// Whether a document is open.
    pub fn is_open(&self, uri: &str) -> (r: bool)
        ensures
            r == self@.documents.contains_key(uri@),
    {
        self.documents.contains(uri)
    }

    /// The URIs of the open documents.
    pub fn document_uris(&self) -> (r: Vec<String>)
        ensures
            text::texts_view(r@).to_set() == self@.documents.dom(),
            text::texts_view(r@).no_duplicates(),
            text::in_text_order(text::texts_view(r@)),
    {
        proof {
            assert(document_views(self.documents@).dom() =~= self.documents@.dom());
        }
        self.documents.key_list()
    }

    /// The text of an open document.
    pub fn document_text(&self, uri: &str) -> (r: Result<String, Fault>)
        ensures
            match r {
                Ok(text) => self@.documents.contains_key(uri@) && text@
                    == self@.documents[uri@].text,
                Err(fault) => !self@.documents.contains_key(uri@) && fault == Fault::NotOpen,
            },
    {
        match self.documents.get(uri) {
            Some(document) => Ok(document.text.as_str().to_owned()),
            None => Err(Fault::NotOpen),
        }
    }

    /// Whether a document's counters can still grow.
    pub fn has_room(&self, uri: &str) -> (r: bool)
        ensures
            r == (self@.documents.contains_key(uri@) ==> self@.documents[uri@].version < i64::MAX
                && self@.documents[uri@].epoch < u64::MAX),
    {
        match self.documents.get(uri) {
            Some(document) => document.version < i64::MAX && document.epoch < u64::MAX,
            None => true,
        }
    }

    /// Begins to give a document a text. The result is to be sent to the server
    /// before [`Workspace::finish_document`].
    pub fn begin_document(&mut self, uri: &str, text: &str, capabilities: &Json, path: &str) -> (r:
        Result<Option<Json>, Failure>)
        requires
            old(self)@.documents.contains_key(uri@) ==> old(self)@.documents[uri@].version
                < i64::MAX,
        ensures
            match r {
                Ok(message) => begun(old(self)@, uri@, text@, capabilities@, path@) == Ok::<
                    (WorkspaceView, Option<JsonView>),
                    FailureView,
                >(
                    (
                        final(self)@,
                        match message {
                            Some(message) => Some(message@),
                            None => None,
                        },
                    ),
                ),
                Err(failure) => begun(old(self)@, uri@, text@, capabilities@, path@) == Err::<
                    (WorkspaceView, Option<JsonView>),
                    FailureView,
                >(failure@) && final(self)@ == old(self)@,
            },
    {
        let (next, message) = match self.documents.get(uri) {
            Some(document) => {
                if text::same(document.text.as_str(), text) {
                    return Ok(None);
                }
                let mut next = document.copy();
                next.version = document.version + 1;
                let message = change_message(
                    uri,
                    next.version,
                    document.text.as_str(),
                    text,
                    incremental(capabilities),
                );
                (next, message)
            },
            None => {
                return match Language::document_id(path) {
                    Ok(id) => Ok(Some(open_message(uri, id, 1, text))),
                    Err(failure) => Err(failure),
                };
            },
        };
        proof {
            assert(next@ =~= (DocumentView {
                version: next.version,
                ..self@.documents[uri@]
            }));
        }
        self.put_document(uri, next);
        Ok(Some(message))
    }

    /// Gives a document a text, after the server was told. The result tells
    /// whether what the server said of the old text is out of date.
    pub fn finish_document(
        &mut self,
        uri: &str,
        text: String,
        source: &'static str,
        disk: Option<String>,
    ) -> (r: bool)
        ensures
            final(self)@ == finished(
                old(self)@,
                uri@,
                text@,
                source@,
                text::option_view(disk),
            ),
            r == (old(self)@.documents.contains_key(uri@) && old(self)@.documents[uri@].text
                != text@),
    {
        let (next, outdated) = match self.documents.get(uri) {
            Some(document) => {
                let outdated: bool = !text::same(document.text.as_str(), text.as_str());
                (
                    Document {
                        text,
                        disk: text::copy_option(&document.disk),
                        version: document.version,
                        epoch: document.epoch,
                        source,
                    },
                    outdated,
                )
            },
            None => (Document { text, disk, version: 1, epoch: 0, source }, false),
        };
        proof {
            if self@.documents.contains_key(uri@) {
                assert(next@ =~= (DocumentView {
                    text: text@,
                    source: source@,
                    ..self@.documents[uri@]
                }));
            } else {
                assert(next@ =~= (DocumentView {
                    text: text@,
                    disk: text::option_view(disk),
                    version: 1,
                    epoch: 0,
                    source: source@,
                }));
            }
        }
        self.put_document(uri, next);
        outdated
    }
}

/// Giving a document a text gives it that text, and a new version exactly when
/// the text is another.
pub proof fn law_documents_follow_their_texts(
    state: WorkspaceView,
    uri: Seq<char>,
    text: Seq<char>,
    source: Seq<char>,
    disk: Option<Seq<char>>,
    capabilities: JsonView,
    path: Seq<char>,
)
    requires
        begun(state, uri, text, capabilities, path) is Ok,
        state.documents.contains_key(uri) ==> state.documents[uri].version < i64::MAX,
    ensures
        ({
            let told = begun(state, uri, text, capabilities, path)->Ok_0;
            let after = finished(told.0, uri, text, source, disk);
            &&& after.documents.contains_key(uri)
            &&& after.documents[uri].text == text
            &&& after.documents[uri].source == source
            &&& told.1 is Some <==> !(state.documents.contains_key(uri)
                && state.documents[uri].text == text)
            &&& state.documents.contains_key(uri) ==> after.documents[uri].version
                == state.documents[uri].version + if state.documents[uri].text == text {
                0int
            } else {
                1
            }
            &&& state.documents.contains_key(uri) ==> after.documents[uri].epoch
                == state.documents[uri].epoch
        }),
{
}

// ---------------------------------------------------------------------------
// Changes on disk
// ---------------------------------------------------------------------------
/// What the hasher is fed for what a file holds: whether it is there, then its
/// text and an end mark.
pub open spec fn disk_fed(disk: Option<Seq<char>>) -> Seq<Seq<u8>> {
    match disk {
        None => seq![vstd::bytes::spec_u64_to_le_bytes(0)],
        Some(text) => seq![
            vstd::bytes::spec_u64_to_le_bytes(1),
            encode_utf8(text),
            seq![255u8],
        ],
    }
}

/// The hash that tells whether a file was changed.
pub open spec fn disk_hash(disk: Option<Seq<char>>) -> u64 {
    DefaultHasher::spec_finish(disk_fed(disk))
}

/// The hash that tells whether a file was changed.
pub fn hash_disk(disk: &Option<String>) -> (r: u64)
    ensures
        r == disk_hash(text::option_view(*disk)),
{
    let mut hasher = DefaultHasher::new();
    match disk {
        None => {
            let tag = vstd::bytes::u64_to_le_bytes(0);
            hasher.write(tag.as_slice());
        },
        Some(text) => {
            let tag = vstd::bytes::u64_to_le_bytes(1);
            hasher.write(tag.as_slice());
            hasher.write(text.as_str().as_bytes());
            let mut end: Vec<u8> = Vec::new();
            end.push(255);
            proof {
                assert(end@ =~= seq![255u8]);
            }
            hasher.write(end.as_slice());
        },
    }
    proof {
        assert(hasher@ =~= disk_fed(text::option_view(*disk)));
    }
    hasher.finish()
}

/// The source of a text that a file holds.
pub fn disk_source() -> (r: &'static str)
    ensures
        r@ == "disk"@,
{
    "disk"
}

/// What a change on disk calls for.
pub enum DiskStep {
    /// Nothing changed.
    Quiet,
    Failed(Fault),
    /// Give the document this text from [`disk_source`], then
    /// [`Workspace::announce`].
    Update(String),
    /// Close the document, then [`Workspace::announce`].
    Close,
    /// [`Workspace::announce`] it.
    Announce,
}

/// What a change on disk calls for, in the terms of contracts.
pub enum DiskView {
    Quiet,
    Failed(Fault),
    Update(Seq<char>),
    Close,
    Announce,
}

impl View for DiskStep {
    type V = DiskView;

    open spec fn view(&self) -> DiskView {
        match *self {
            DiskStep::Quiet => DiskView::Quiet,
            DiskStep::Failed(fault) => DiskView::Failed(fault),
            DiskStep::Update(text) => DiskView::Update(text@),
            DiskStep::Close => DiskView::Close,
            DiskStep::Announce => DiskView::Announce,
        }
    }
}

/// What reading a file changes, and what it calls for. `served` tells whether
/// there is a server for it. An open document whose file is another than it was
/// enters a new epoch.
pub open spec fn seen_on_disk(
    state: WorkspaceView,
    uri: Seq<char>,
    disk: Option<Seq<char>>,
    served: bool,
) -> (WorkspaceView, DiskView) {
    let hash = disk_hash(disk);
    if state.disk_hashes.contains_key(uri) && state.disk_hashes[uri] == hash {
        (state, DiskView::Quiet)
    } else {
        let noted = WorkspaceView { disk_hashes: state.disk_hashes.insert(uri, hash), ..state };
        if !state.documents.contains_key(uri) {
            (noted, DiskView::Announce)
        } else if !served {
            (noted, DiskView::Failed(Fault::MissingDocumentServer))
        } else {
            let document = state.documents[uri];
            if document.disk == disk {
                (noted, DiskView::Quiet)
            } else {
                (
                    noted.with_document(
                        uri,
                        DocumentView { disk, epoch: (document.epoch + 1) as u64, ..document },
                    ),
                    match disk {
                        Some(text) => DiskView::Update(text),
                        None => DiskView::Close,
                    },
                )
            }
        }
    }
}

/// The paths that matter to a workspace, in order.
pub open spec fn only_watched(root: Seq<char>, paths: Seq<Seq<char>>) -> Seq<Seq<char>>
    decreases paths.len(),
{
    if paths.len() == 0 {
        Seq::empty()
    } else {
        let earlier = only_watched(root, paths.drop_last());
        if is_watched(root, paths.last()) {
            earlier.push(paths.last())
        } else {
            earlier
        }
    }
}

impl Workspace {
    /// Takes in what a file holds; none if it cannot be read.
    pub fn disk_changed(&mut self, uri: &str, disk: Option<String>, served: bool) -> (r: DiskStep)
        requires
            old(self)@.documents.contains_key(uri@) ==> old(self)@.documents[uri@].epoch
                < u64::MAX,
        ensures
            (final(self)@, r@) == seen_on_disk(
                old(self)@,
                uri@,
                text::option_view(disk),
                served,
            ),
    {
        let hash: u64 = hash_disk(&disk);
        match self.disk_hashes.get(uri) {
            Some(known) => {
                if *known == hash {
                    return DiskStep::Quiet;
                }
            },
            None => {},
        }
        self.disk_hashes.insert(uri, hash);
        proof {
            assert(self@ =~= (WorkspaceView {
                disk_hashes: old(self)@.disk_hashes.insert(uri@, hash),
                ..old(self)@
            }));
        }
        let next = match self.documents.get(uri) {
            None => {
                return DiskStep::Announce;
            },
            Some(document) => {
                if !served {
                    return DiskStep::Failed(Fault::MissingDocumentServer);
                }
                if text::same_option(&document.disk, &disk) {
                    return DiskStep::Quiet;
                }
                let mut next = document.copy();
                next.epoch = document.epoch + 1;
                next.disk = text::copy_option(&disk);
                next
            },
        };
        proof {
            assert(next@ =~= (DocumentView {
                disk: text::option_view(disk),
                epoch: next.epoch,
                ..old(self)@.documents[uri@]
            }));
        }
        self.put_document(uri, next);
        match disk {
            Some(text) => DiskStep::Update(text),
            None => DiskStep::Close,
        }
    }

    /// The paths of an event on disk that matter to the workspace, in order.
    pub fn watched_paths(&self, paths: &Vec<String>) -> (r: Vec<String>)
        ensures
            text::texts_view(r@) == only_watched(self@.root, text::texts_view(paths@)),
    {
        let ghost all = text::texts_view(paths@);
        let mut out: Vec<String> = Vec::new();
        let mut i: usize = 0;
        proof {
            assert(all.take(0) =~= Seq::<Seq<char>>::empty());
            assert(text::texts_view(out@) =~= Seq::<Seq<char>>::empty());
        }
        while i < paths.len()
            invariant
                all == text::texts_view(paths@),
                i <= paths@.len(),
                text::texts_view(out@) == only_watched(self@.root, all.take(i as int)),
            decreases paths@.len() - i,
        {
            proof {
                assert(all.take(i + 1).drop_last() =~= all.take(i as int));
                assert(all.take(i + 1).last() == paths@[i as int]@);
            }
            let ghost before = text::texts_view(out@);
            if self.relevant(paths[i].as_str()) {
                out.push(paths[i].as_str().to_owned());
                proof {
                    assert(text::texts_view(out@) =~= before.push(paths@[i as int]@));
                }
            }
            i = i + 1;
        }
        proof {
            assert(all.take(all.len() as int) =~= all);
        }
        out
    }

    /// Counts a change on disk. The result is to be sent to every server.
    pub fn announce(&mut self, uri: &str, gone: bool) -> (r: Json)
        requires
            old(self)@.generation < u64::MAX,
        ensures
            final(self)@ == (WorkspaceView {
                generation: (old(self)@.generation + 1) as u64,
                ..old(self)@
            }),
            r@ == watched_view(seq![file_change(uri@, gone)]),
    {
        self.generation = self.generation + 1;
        proof {
            assert(self@ =~= (WorkspaceView { generation: self.generation, ..old(self)@ }));
        }
        let mut changes: Vec<Json> = Vec::new();
        changes.push(changed_file(uri, gone));
        proof {
            assert(views(changes@) =~= seq![file_change(uri@, gone)]);
        }
        watched_message(changes)
    }

    /// Notes that the files could not be watched.
    pub fn watch_failed(&mut self, error: &str)
        ensures
            final(self)@ == (WorkspaceView { watcher_error: Some(error@), ..old(self)@ }),
    {
        self.watcher_error = Some(error.to_owned());
        proof {
            assert(self@ =~= (WorkspaceView { watcher_error: Some(error@), ..old(self)@ }));
        }
    }

    /// Counts a server that was started later than the workspace.
    pub fn server_started(&mut self)
        requires
            old(self)@.generation < u64::MAX,
        ensures
            final(self)@ == (WorkspaceView {
                generation: (old(self)@.generation + 1) as u64,
                ..old(self)@
            }),
    {
        self.generation = self.generation + 1;
        proof {
            assert(self@ =~= (WorkspaceView { generation: self.generation, ..old(self)@ }));
        }
    }
}

// ---------------------------------------------------------------------------
// The editor
// ---------------------------------------------------------------------------
/// What an editor's event calls for.
pub enum SyncStep {
    Answer(Json),
    Failed(Fault),
    /// Restore every document as [`restored`] says, then [`Workspace::released`].
    Release { reconnect: bool },
    /// Give the document this text from this source, then answer.
    Write { uri: String, text: String, source: &'static str, answer: Json },
    /// Send the message to the document's server, then answer.
    Save { uri: String, message: Json, answer: Json },
    /// Restore the document as [`restored`] says, then answer.
    Close { uri: String, answer: Json },
}

/// What an editor's event calls for, in the terms of contracts.
pub enum SyncView {
    Answer(JsonView),
    Failed(Fault),
    Release { reconnect: bool },
    Write { uri: Seq<char>, text: Seq<char>, source: Seq<char>, answer: JsonView },
    Save { uri: Seq<char>, message: JsonView, answer: JsonView },
    Close { uri: Seq<char>, answer: JsonView },
}

impl View for SyncStep {
    type V = SyncView;

    open spec fn view(&self) -> SyncView {
        match *self {
            SyncStep::Answer(answer) => SyncView::Answer(answer@),
            SyncStep::Failed(fault) => SyncView::Failed(fault),
            SyncStep::Release { reconnect } => SyncView::Release { reconnect },
            SyncStep::Write { uri, text, source, answer } => SyncView::Write {
                uri: uri@,
                text: text@,
                source: source@,
                answer: answer@,
            },
            SyncStep::Save { uri, message, answer } => SyncView::Save {
                uri: uri@,
                message: message@,
                answer: answer@,
            },
            SyncStep::Close { uri, answer } => SyncView::Close { uri: uri@, answer: answer@ },
        }
    }
}

/// What restoring a document that the editor lets go of calls for.
pub enum RestoreStep {
    /// Give the document this text from [`disk_source`].
    Write(String),
    /// Close the document.
    Close,
}

/// What restoring a document calls for, in the terms of contracts.
pub enum RestoreView {
    Write(Seq<char>),
    Close,
}

impl View for RestoreStep {
    type V = RestoreView;

    open spec fn view(&self) -> RestoreView {
        match *self {
            RestoreStep::Write(text) => RestoreView::Write(text@),
            RestoreStep::Close => RestoreView::Close,
        }
    }
}

/// What restoring a document calls for: it gets what its file holds, and is
/// closed if that cannot be read.
pub open spec fn restoration(disk: Option<Seq<char>>) -> RestoreView {
    match disk {
        Some(text) => RestoreView::Write(text),
        None => RestoreView::Close,
    }
}

/// What restoring a document calls for, by what its file holds.
pub fn restored(disk: Option<String>) -> (r: RestoreStep)
    ensures
        r@ == restoration(text::option_view(disk)),
{
    match disk {
        Some(text) => RestoreStep::Write(text),
        None => RestoreStep::Close,
    }
}

/// The answer to a companion that is now connected.
pub open spec fn connected_view(instance: Seq<char>) -> JsonView {
    JsonView::object().with("connected"@, JsonView::Bool(true)).with(
        "instance"@,
        JsonView::Text(instance),
    )
}

/// The answer that tells only whether a companion is connected.
pub open spec fn connection_view(connected: bool) -> JsonView {
    JsonView::object().with("connected"@, JsonView::Bool(connected))
}

/// The answer to an event that was taken in.
pub open spec fn accepted_view(epoch: u64) -> JsonView {
    JsonView::object().with("accepted"@, JsonView::Bool(true)).with(
        "epoch"@,
        JsonView::Int(epoch as int),
    )
}

/// The answer to an event that the disk has overtaken.
pub open spec fn superseded_view(epoch: u64) -> JsonView {
    JsonView::object().with("accepted"@, JsonView::Bool(false)).with(
        "epoch"@,
        JsonView::Int(epoch as int),
    ).with("reason"@, JsonView::Text("Disk edit superseded editor snapshot"@))
}

/// What an event about a document calls for. One that does not know of the last
/// change on disk is turned away.
pub open spec fn document_sync(
    state: WorkspaceView,
    event: SyncEventView,
    uri: Seq<char>,
) -> SyncView {
    let epoch = state.epoch_of(uri);
    if event.epoch != epoch {
        SyncView::Answer(superseded_view(epoch))
    } else if event.kind == "open"@ || event.kind == "change"@ {
        match event.text {
            Some(text) => SyncView::Write {
                uri,
                text,
                source: "zed"@,
                answer: accepted_view(epoch),
            },
            None => SyncView::Failed(Fault::MissingText),
        }
    } else if event.kind == "save"@ {
        SyncView::Save { uri, message: save_view(uri), answer: accepted_view(epoch) }
    } else if event.kind == "close"@ {
        SyncView::Close { uri, answer: accepted_view(epoch) }
    } else {
        SyncView::Failed(Fault::UnknownSyncEvent)
    }
}

/// What an editor's event changes, and what it calls for. `uri` is the document
/// that the event names, resolved. There is one companion at a time.
pub open spec fn synced(
    state: WorkspaceView,
    event: SyncEventView,
    uri: Option<Seq<char>>,
    now: u64,
) -> (WorkspaceView, SyncView) {
    if !state.running {
        (state, SyncView::Failed(Fault::Stopped))
    } else if event.kind == "connect"@ {
        match state.companion {
            Some(id) => if id != event.companion {
                (state, SyncView::Failed(Fault::CompanionActive))
            } else {
                (
                    WorkspaceView { companion: None, ..state },
                    SyncView::Release { reconnect: true },
                )
            },
            None => (
                WorkspaceView {
                    companion: Some(event.companion),
                    companion_seen: now,
                    ..state
                },
                SyncView::Answer(connected_view(state.instance)),
            ),
        }
    } else if state.companion != Some(event.companion) {
        (state, SyncView::Failed(Fault::CompanionNotConnected))
    } else {
        let seen = WorkspaceView { companion_seen: now, ..state };
        if event.kind == "disconnect"@ {
            (WorkspaceView { companion: None, ..seen }, SyncView::Release { reconnect: false })
        } else if event.kind == "heartbeat"@ {
            (seen, SyncView::Answer(connection_view(true)))
        } else {
            match uri {
                None => (seen, SyncView::Failed(Fault::MissingUri)),
                Some(uri) => (seen, document_sync(seen, event, uri)),
            }
        }
    }
}

/// What the end of a release changes: a companion that reconnects is there
/// again.
pub open spec fn after_release(
    state: WorkspaceView,
    reconnect: Option<Seq<char>>,
    now: u64,
) -> WorkspaceView {
    match reconnect {
        Some(id) => WorkspaceView { companion: Some(id), companion_seen: now, ..state },
        None => state,
    }
}

impl Workspace {
    /// Takes in an editor's event. `uri` is the document that the event names,
    /// resolved; its file has been read before.
    pub fn sync(&mut self, event: &SyncEvent, uri: Option<String>, now: u64) -> (r: SyncStep)
        ensures
            (final(self)@, r@) == synced(old(self)@, event@, text::option_view(uri), now),
    {
        if !self.running {
            return SyncStep::Failed(Fault::Stopped);
        }
        let ours: bool = match &self.companion {
            Some(id) => text::same(id.as_str(), event.companion.as_str()),
            None => false,
        };
        if text::same(event.kind.as_str(), "connect") {
            return match &self.companion {
                Some(_) => if !ours {
                    SyncStep::Failed(Fault::CompanionActive)
                } else {
                    self.companion = None;
                    proof {
                        assert(self@ =~= (WorkspaceView { companion: None, ..old(self)@ }));
                    }
                    SyncStep::Release { reconnect: true }
                },
                None => {
                    self.companion = Some(event.companion.as_str().to_owned());
                    self.companion_seen = now;
                    proof {
                        assert(self@ =~= (WorkspaceView {
                            companion: Some(event.companion@),
                            companion_seen: now,
                            ..old(self)@
                        }));
                    }
                    SyncStep::Answer(
                        Json::object().with("connected", Json::boolean(true)).with(
                            "instance",
                            Json::text(self.instance.as_str()),
                        ),
                    )
                },
            };
        }
        if !ours {
            return SyncStep::Failed(Fault::CompanionNotConnected);
        }
        self.companion_seen = now;
        proof {
            assert(self@ =~= (WorkspaceView { companion_seen: now, ..old(self)@ }));
        }
        if text::same(event.kind.as_str(), "disconnect") {
            self.companion = None;
            proof {
                assert(self@ =~= (WorkspaceView {
                    companion: None,
                    companion_seen: now,
                    ..old(self)@
                }));
            }
            return SyncStep::Release { reconnect: false };
        }
        if text::same(event.kind.as_str(), "heartbeat") {
            return SyncStep::Answer(Json::object().with("connected", Json::boolean(true)));
        }
        match uri {
            None => SyncStep::Failed(Fault::MissingUri),
            Some(uri) => self.sync_document(event, uri),
        }
    }

    fn sync_document(&self, event: &SyncEvent, uri: String) -> (r: SyncStep)
        ensures
            r@ == document_sync(self@, event@, uri@),
    {
        let epoch: u64 = match self.documents.get(uri.as_str()) {
            Some(document) => document.epoch,
            None => 0,
        };
        if event.epoch != epoch {
            return SyncStep::Answer(
                Json::object().with("accepted", Json::boolean(false)).with(
                    "epoch",
                    Json::number(epoch),
                ).with("reason", Json::text("Disk edit superseded editor snapshot")),
            );
        }
        let answer = Json::object().with("accepted", Json::boolean(true)).with(
            "epoch",
            Json::number(epoch),
        );
        let kind = event.kind.as_str();
        if text::same(kind, "open") || text::same(kind, "change") {
            match &event.text {
                Some(text) => SyncStep::Write {
                    uri,
                    text: text.as_str().to_owned(),
                    source: "zed",
                    answer,
                },
                None => SyncStep::Failed(Fault::MissingText),
            }
        } else if text::same(kind, "save") {
            let message = save_message(uri.as_str());
            SyncStep::Save { uri, message, answer }
        } else if text::same(kind, "close") {
            SyncStep::Close { uri, answer }
        } else {
            SyncStep::Failed(Fault::UnknownSyncEvent)
        }
    }

    /// Ends a release: every document has what its file holds. A companion that
    /// reconnects is there again.
    pub fn released(&mut self, reconnect: Option<&str>, now: u64) -> (answer: Json)
        ensures
            final(self)@ == after_release(
                old(self)@,
                match reconnect {
                    Some(id) => Some(id@),
                    None => None,
                },
                now,
            ),
            answer@ == match reconnect {
                Some(_) => connected_view(old(self)@.instance),
                None => connection_view(false),
            },
    {
        match reconnect {
            Some(id) => {
                self.companion = Some(id.to_owned());
                self.companion_seen = now;
                proof {
                    assert(self@ =~= after_release(old(self)@, Some(id@), now));
                }
                Json::object().with("connected", Json::boolean(true)).with(
                    "instance",
                    Json::text(self.instance.as_str()),
                )
            },
            None => Json::object().with("connected", Json::boolean(false)),
        }
    }

    /// Whether the companion has given no sign of life for too long.
    pub fn lease_expired(&self, now: u64) -> (r: bool)
        ensures
            r == (self@.companion is Some && now - self@.companion_seen > COMPANION_LEASE),
    {
        self.companion.is_some() && now > self.companion_seen && now - self.companion_seen
            > COMPANION_LEASE
    }

    /// Lets the companion go; every document is then to be given what its file
    /// holds.
    pub fn drop_companion(&mut self)
        ensures
            final(self)@ == (WorkspaceView { companion: None, ..old(self)@ }),
    {
        self.companion = None;
        proof {
            assert(self@ =~= (WorkspaceView { companion: None, ..old(self)@ }));
        }
    }

    /// Takes over the documents and the companion of another session of the
    /// same workspace, whose place this one takes.
    pub fn adopt(&mut self, other: &Workspace)
        requires
            old(self)@.generation < u64::MAX,
        ensures
            final(self)@ == (WorkspaceView {
                documents: other@.documents,
                companion: other@.companion,
                companion_seen: other@.companion_seen,
                generation: (old(self)@.generation + 1) as u64,
                disk_hashes: Map::empty(),
                ..old(self)@
            }),
    {
        let mut documents: Table<Document> = Table::new();
        let total: usize = other.documents.len();
        let mut i: usize = 0;
        while i < total
            invariant
                total == other.documents.count(),
                i <= total,
                forall|uri: Seq<char>| #[trigger]
                    documents@.contains_key(uri) <==> among(other.documents, uri, i as int),
                forall|uri: Seq<char>| #[trigger]
                    documents@.contains_key(uri) ==> other.documents@.contains_key(uri)
                        && documents@[uri]@ == other.documents@[uri]@,
            decreases total - i,
        {
            let uri = other.documents.key_at(i);
            let document = other.documents.value_at(i);
            documents.insert(uri, document.copy());
            proof {
                lemma_among_next(other.documents, i as int);
            }
            i = i + 1;
        }
        proof {
            lemma_among_all(other.documents);
            assert(document_views(documents@) =~= document_views(other.documents@));
        }
        self.documents = documents;
        self.companion = text::copy_option(&other.companion);
        self.companion_seen = other.companion_seen;
        self.generation = self.generation + 1;
        self.disk_hashes = Table::new();
        proof {
            assert(self@ =~= (WorkspaceView {
                documents: other@.documents,
                companion: other@.companion,
                companion_seen: other@.companion_seen,
                generation: (old(self)@.generation + 1) as u64,
                disk_hashes: Map::empty(),
                ..old(self)@
            }));
        }
    }

    /// The message that opens a document as it is, for another server.
    pub fn reopen_message(&self, uri: &str, path: &str) -> (r: Result<Json, Failure>)
        ensures
            match r {
                Ok(message) => self@.documents.contains_key(uri@) && language::document_language(
                    path@,
                ) is Some && message@ == open_view(
                    uri@,
                    language::document_language(path@)->0,
                    self@.documents[uri@].version as int,
                    self@.documents[uri@].text,
                ),
                Err(failure) => failure@ == if !self@.documents.contains_key(uri@) {
                    FailureView::plain(Fault::NotOpen)
                } else {
                    FailureView::at(Fault::UnsupportedSource, path@)
                } && (!self@.documents.contains_key(uri@) || language::document_language(
                    path@,
                ) is None),
            },
    {
        match self.documents.get(uri) {
            None => Err(Failure::plain(Fault::NotOpen)),
            Some(document) => match Language::document_id(path) {
                Ok(id) => Ok(open_message(uri, id, document.version, document.text.as_str())),
                Err(failure) => Err(failure),
            },
        }
    }
}

/// The disk wins: once a file was seen to be another than it was, an editor's
/// event from before that is turned away with the new epoch, and no document
/// changes.
pub proof fn law_disk_supersedes_editor(
    state: WorkspaceView,
    uri: Seq<char>,
    disk: Option<Seq<char>>,
    event: SyncEventView,
    now: u64,
)
    requires
        state.running,
        state.documents.contains_key(uri),
        state.documents[uri].epoch < u64::MAX,
        state.documents[uri].disk != disk,
        state.disk_hashes.contains_key(uri) ==> state.disk_hashes[uri] != disk_hash(disk),
        state.companion == Some(event.companion),
        event.kind == "open"@ || event.kind == "change"@ || event.kind == "save"@ || event.kind
            == "close"@,
        event.epoch == state.documents[uri].epoch,
    ensures
        ({
            let changed = seen_on_disk(state, uri, disk, true).0;
            let told = synced(changed, event, Some(uri), now);
            &&& told.1 == SyncView::Answer(
                superseded_view((state.documents[uri].epoch + 1) as u64),
            )
            &&& told.0.documents == changed.documents
        }),
{
    reveal_strlit("connect");
    reveal_strlit("disconnect");
    reveal_strlit("heartbeat");
    reveal_strlit("open");
    reveal_strlit("change");
    reveal_strlit("save");
    reveal_strlit("close");
    assert("connect"@.len() == 7 && "disconnect"@.len() == 10 && "heartbeat"@.len() == 9);
    assert("open"@.len() == 4 && "change"@.len() == 6 && "save"@.len() == 4 && "close"@.len() == 5);
}

/// A workspace has one companion: another one can neither connect nor send
/// while it is there.
pub proof fn law_one_companion_at_a_time(
    state: WorkspaceView,
    event: SyncEventView,
    uri: Option<Seq<char>>,
    now: u64,
)
    requires
        state.companion matches Some(id) && id != event.companion,
    ensures
        synced(state, event, uri, now).0 == state,
        synced(state, event, uri, now).1 is Failed,
{
}

/// What the disk holds replaces what an editor showed: after a change on disk
/// was taken in, the document has the file's text.
pub proof fn law_disk_text_replaces_overlay(
    state: WorkspaceView,
    uri: Seq<char>,
    disk: Seq<char>,
    capabilities: JsonView,
    path: Seq<char>,
)
    requires
        state.documents.contains_key(uri),
        state.documents[uri].epoch < u64::MAX,
        state.documents[uri].version < i64::MAX,
        seen_on_disk(state, uri, Some(disk), true).1 is Update,
    ensures
        ({
            let seen = seen_on_disk(state, uri, Some(disk), true);
            let told = begun(seen.0, uri, disk, capabilities, path);
            let after = finished(told->Ok_0.0, uri, disk, "disk"@, Some(disk));
            &&& seen.1 == DiskView::Update(disk)
            &&& told is Ok
            &&& after.documents[uri].text == disk
            &&& after.documents[uri].disk == Some(disk)
            &&& after.documents[uri].source == "disk"@
            &&& after.documents[uri].epoch == state.documents[uri].epoch + 1
        }),
{
}

/// The file of a document when the document is restored: its path, what it holds
/// if it can be read, and what its server can do.
pub struct FileView {
    pub path: Seq<char>,
    pub text: Option<Seq<char>>,
    pub capabilities: JsonView,
}

/// After a document was restored.
pub open spec fn after_restore(
    state: WorkspaceView,
    uri: Seq<char>,
    file: FileView,
) -> WorkspaceView {
    match restoration(file.text) {
        RestoreView::Write(text) => match begun(state, uri, text, file.capabilities, file.path) {
            Ok(told) => finished(told.0, uri, text, "disk"@, file.text),
            Err(_) => state,
        },
        RestoreView::Close => state.without_document(uri),
    }
}

/// After documents were restored one after the other.
pub open spec fn after_restores(
    state: WorkspaceView,
    uris: Seq<Seq<char>>,
    files: spec_fn(Seq<char>) -> FileView,
) -> WorkspaceView
    decreases uris.len(),
{
    if uris.len() == 0 {
        state
    } else {
        after_restore(
            after_restores(state, uris.drop_last(), files),
            uris.last(),
            files(uris.last()),
        )
    }
}

/// An open document as its file has it: with a new version exactly when the text
/// is another.
pub open spec fn as_on_disk(document: DocumentView, text: Seq<char>) -> DocumentView {
    DocumentView {
        text,
        source: "disk"@,
        version: if document.text == text {
            document.version
        } else {
            (document.version + 1) as i64
        },
        ..document
    }
}

/// The documents, with some of them as their files have them.
pub open spec fn documents_on_disk(
    documents: Map<Seq<char>, DocumentView>,
    uris: Set<Seq<char>>,
    files: spec_fn(Seq<char>) -> FileView,
) -> Map<Seq<char>, DocumentView> {
    Map::new(
        |uri: Seq<char>|
            documents.contains_key(uri) && (uris.contains(uri) ==> files(uri).text is Some),
        |uri: Seq<char>|
            if uris.contains(uri) {
                as_on_disk(documents[uri], files(uri).text->0)
            } else {
                documents[uri]
            },
    )
}

proof fn lemma_restores(
    state: WorkspaceView,
    uris: Seq<Seq<char>>,
    files: spec_fn(Seq<char>) -> FileView,
)
    requires
        uris.no_duplicates(),
        forall|uri: Seq<char>| #[trigger] uris.contains(uri) ==> state.documents.contains_key(uri),
    ensures
        after_restores(state, uris, files) == (WorkspaceView {
            documents: documents_on_disk(state.documents, uris.to_set(), files),
            ..state
        }),
    decreases uris.len(),
{
    if uris.len() == 0 {
        assert(documents_on_disk(state.documents, uris.to_set(), files) =~= state.documents);
    } else {
        let earlier = uris.drop_last();
        let uri = uris.last();
        assert forall|other: Seq<char>| #[trigger] earlier.contains(other) implies uris.contains(
            other,
        ) by {
            let i = choose|i: int| 0 <= i < earlier.len() && earlier[i] == other;
            assert(uris[i] == other);
        }
        assert(uris.contains(uri));
        assert(!earlier.contains(uri));
        lemma_restores(state, earlier, files);
        assert forall|other: Seq<char>| uris.to_set().contains(other) == (
        earlier.to_set().contains(other) || other == uri) by {
            if uris.contains(other) && other != uri {
                let i = choose|i: int| 0 <= i < uris.len() && uris[i] == other;
                assert(earlier[i] == other);
            }
        }
        let before = after_restores(state, earlier, files);
        assert(before.documents.contains_key(uri));
        assert(before.documents[uri] == state.documents[uri]);
        assert(after_restores(state, uris, files).documents =~= documents_on_disk(
            state.documents,
            uris.to_set(),
            files,
        ));
    }
}

/// Once the editor has let go, every document is what its file holds, and those
/// whose files cannot be read are closed; nothing else has changed. `uris` are
/// the open documents.
pub proof fn law_release_restores_documents(
    state: WorkspaceView,
    uris: Seq<Seq<char>>,
    files: spec_fn(Seq<char>) -> FileView,
)
    requires
        uris.no_duplicates(),
        uris.to_set() == state.documents.dom(),
    ensures
        after_restores(state, uris, files) == (WorkspaceView {
            documents: documents_on_disk(state.documents, state.documents.dom(), files),
            ..state
        }),
        forall|uri: Seq<char>| #[trigger]
            state.documents.contains_key(uri) ==> match files(uri).text {
                Some(text) => {
                    let after = after_restores(state, uris, files);
                    &&& after.documents.contains_key(uri)
                    &&& after.documents[uri].text == text
                    &&& after.documents[uri].source == "disk"@
                    &&& after.documents[uri].epoch == state.documents[uri].epoch
                },
                None => !after_restores(state, uris, files).documents.contains_key(uri),
            },
{
    assert forall|uri: Seq<char>| #[trigger] uris.contains(uri) implies state.documents.contains_key(
        uri,
    ) by {
        assert(uris.to_set().contains(uri));
    }
    lemma_restores(state, uris, files);
}

/// A companion that disconnects is gone, and its documents are restored.
pub proof fn law_disconnection_releases(
    state: WorkspaceView,
    event: SyncEventView,
    uri: Option<Seq<char>>,
    now: u64,
)
    requires
        state.running,
        state.companion == Some(event.companion),
        event.kind == "disconnect"@,
    ensures
        synced(state, event, uri, now).1 == (SyncView::Release { reconnect: false }),
        synced(state, event, uri, now).0.companion is None,
        synced(state, event, uri, now).0.documents == state.documents,
{
    reveal_strlit("connect");
    reveal_strlit("disconnect");
    assert("connect"@.len() == 7 && "disconnect"@.len() == 10);
}

/// A companion that connects anew starts over: the documents that it had are
/// first given what their files hold, and only then is it there again.
pub proof fn law_reconnection_starts_over(
    state: WorkspaceView,
    event: SyncEventView,
    uri: Option<Seq<char>>,
    now: u64,
)
    requires
        state.running,
        state.companion == Some(event.companion),
        event.kind == "connect"@,
    ensures
        synced(state, event, uri, now).1 == (SyncView::Release { reconnect: true }),
        synced(state, event, uri, now).0.companion is None,
        synced(state, event, uri, now).0.documents == state.documents,
{
}

// ---------------------------------------------------------------------------
// What events and messages mean
// ---------------------------------------------------------------------------
/// An event of the companion that knows of the last change on disk is taken in: a text
/// that it opens or changes becomes the document's, a save is passed on, and a
/// document that it closes is restored.
pub proof fn law_current_events_are_taken(
    state: WorkspaceView,
    event: SyncEventView,
    uri: Seq<char>,
    now: u64,
)
    requires
        state.running,
        state.companion == Some(event.companion),
        event.epoch == if state.documents.contains_key(uri) {
            state.documents[uri].epoch
        } else {
            0
        },
    ensures
        (event.kind == "open"@ || event.kind == "change"@) && (event.text matches Some(text))
            ==> (synced(state, event, Some(uri), now).1 matches SyncView::Write {
            uri: told,
            text,
            source,
            answer,
        } && told == uri && Some(text) == event.text && source == "zed"@ && answer.field(
            "accepted"@,
        ) == JsonView::Bool(true) && answer.field("epoch"@) == JsonView::Int(event.epoch as int)),
        event.kind == "save"@ ==> (synced(state, event, Some(uri), now).1 matches SyncView::Save {
            uri: told,
            message,
            answer,
        } && told == uri && message.field("method"@) == JsonView::Text("textDocument/didSave"@)
            && message.field("params"@).field("textDocument"@).field("uri"@) == JsonView::Text(uri)
            && answer.field("accepted"@) == JsonView::Bool(true)),
        event.kind == "close"@ ==> (synced(state, event, Some(uri), now).1 matches SyncView::Close {
            uri: told,
            answer,
        } && told == uri && answer.field("accepted"@) == JsonView::Bool(true)),
        synced(state, event, Some(uri), now).0.documents == state.documents,
        event.kind != "disconnect"@ && event.kind != "connect"@ ==> synced(
            state,
            event,
            Some(uri),
            now,
        ).0.companion_seen == now,
{
    reveal_strlit("connect");
    reveal_strlit("disconnect");
    reveal_strlit("heartbeat");
    reveal_strlit("open");
    reveal_strlit("change");
    reveal_strlit("save");
    reveal_strlit("close");
    reveal_strlit("accepted");
    reveal_strlit("epoch");
    reveal_strlit("method");
    reveal_strlit("params");
    reveal_strlit("jsonrpc");
    reveal_strlit("textDocument");
    reveal_strlit("uri");
    assert("connect"@.len() == 7);
    assert("disconnect"@.len() == 10);
    assert("heartbeat"@.len() == 9);
    assert("open"@.len() == 4);
    assert("change"@.len() == 6);
    assert("save"@.len() == 4);
    assert("close"@.len() == 5);
    assert("accepted"@.len() == 8);
    assert("epoch"@.len() == 5);
    assert("method"@.len() == 6);
    assert("params"@.len() == 6);
    assert("jsonrpc"@.len() == 7);
    assert("textDocument"@.len() == 12);
    assert("uri"@.len() == 3);
    assert("connect"@[0] == 'c');
    assert("jsonrpc"@[0] == 'j');
    assert("open"@[0] == 'o');
    assert("save"@[0] == 's');
    assert("change"@[0] == 'c');
    assert("method"@[0] == 'm');
    assert("params"@[0] == 'p');
    assert("close"@[0] == 'c');
    assert("epoch"@[0] == 'e');
}

/// A companion connects where there is none, stays connected by its heartbeats, and is
/// the one that connected.
pub proof fn law_companions_connect(
    state: WorkspaceView,
    event: SyncEventView,
    uri: Option<Seq<char>>,
    now: u64,
)
    requires
        state.running,
    ensures
        event.kind == "connect"@ && state.companion is None ==> ({
            let (after, step) = synced(state, event, uri, now);
            &&& after.companion == Some(event.companion)
            &&& after.companion_seen == now
            &&& after.documents == state.documents
            &&& step matches SyncView::Answer(answer) && answer.field("connected"@)
                == JsonView::Bool(true) && answer.field("instance"@) == JsonView::Text(
                state.instance,
            )
        }),
        event.kind == "heartbeat"@ && state.companion == Some(event.companion) ==> ({
            let (after, step) = synced(state, event, uri, now);
            &&& after.companion == state.companion
            &&& after.companion_seen == now
            &&& step matches SyncView::Answer(answer) && answer.field("connected"@)
                == JsonView::Bool(true)
        }),
{
    reveal_strlit("connect");
    reveal_strlit("disconnect");
    reveal_strlit("heartbeat");
    reveal_strlit("open");
    reveal_strlit("change");
    reveal_strlit("save");
    reveal_strlit("close");
    reveal_strlit("connected");
    reveal_strlit("instance");
    assert("connect"@.len() == 7);
    assert("disconnect"@.len() == 10);
    assert("heartbeat"@.len() == 9);
    assert("open"@.len() == 4);
    assert("change"@.len() == 6);
    assert("save"@.len() == 4);
    assert("close"@.len() == 5);
    assert("connected"@.len() == 9);
    assert("instance"@.len() == 8);
    assert("heartbeat"@[0] == 'h');
    assert("connected"@[0] == 'c');
    assert("open"@[0] == 'o');
    assert("save"@[0] == 's');
}

/// A workspace that was stopped takes nothing in.
pub proof fn law_stopped_workspaces_take_nothing(
    state: WorkspaceView,
    event: SyncEventView,
    uri: Option<Seq<char>>,
    now: u64,
)
    requires
        !state.running,
    ensures
        synced(state, event, uri, now) == (state, SyncView::Failed(Fault::Stopped)),
{
}

/// A file is looked at once for each of its contents: what was seen already changes
/// nothing, a file that is not open is announced, and one that is open becomes the
/// document's text, or closes it where it is gone.
pub proof fn law_changes_on_disk_are_seen(
    state: WorkspaceView,
    uri: Seq<char>,
    disk: Option<Seq<char>>,
)
    ensures
        state.disk_hashes.contains_key(uri) && state.disk_hashes[uri] == disk_hash(disk)
            ==> seen_on_disk(state, uri, disk, true) == (state, DiskView::Quiet),
        !(state.disk_hashes.contains_key(uri) && state.disk_hashes[uri] == disk_hash(disk))
            && !state.documents.contains_key(uri) ==> seen_on_disk(state, uri, disk, true).1
            is Announce && seen_on_disk(state, uri, disk, true).0.documents == state.documents,
        !(state.disk_hashes.contains_key(uri) && state.disk_hashes[uri] == disk_hash(disk))
            && state.documents.contains_key(uri) && state.documents[uri].disk != disk ==> ({
            let (after, step) = seen_on_disk(state, uri, disk, true);
            &&& step == match disk {
                Some(text) => DiskView::Update(text),
                None => DiskView::Close,
            }
            &&& after.documents.contains_key(uri)
            &&& after.documents[uri].disk == disk
            &&& after.documents[uri].epoch == (state.documents[uri].epoch + 1) as u64
            &&& after.documents[uri].text == state.documents[uri].text
        }),
        !(state.disk_hashes.contains_key(uri) && state.disk_hashes[uri] == disk_hash(disk))
            ==> seen_on_disk(state, uri, disk, true).0.disk_hashes.contains_key(uri)
            && seen_on_disk(state, uri, disk, true).0.disk_hashes[uri] == disk_hash(disk),
        seen_on_disk(
            seen_on_disk(state, uri, disk, true).0,
            uri,
            disk,
            true,
        ).1 is Quiet,
{
}

/// The server is told of an opened document all that it needs: its language, version
/// and text.
pub proof fn law_opened_documents_are_told(
    uri: Seq<char>,
    language: Seq<char>,
    version: int,
    text: Seq<char>,
)
    ensures
        ({
            let told = open_view(uri, language, version, text);
            let document = told.field("params"@).field("textDocument"@);
            &&& told.field("method"@) == JsonView::Text("textDocument/didOpen"@)
            &&& document.field("uri"@) == JsonView::Text(uri)
            &&& document.field("languageId"@) == JsonView::Text(language)
            &&& document.field("version"@) == JsonView::Int(version)
            &&& document.field("text"@) == JsonView::Text(text)
        }),
        close_view(uri).field("method"@) == JsonView::Text("textDocument/didClose"@),
        close_view(uri).field("params"@).field("textDocument"@).field("uri"@) == JsonView::Text(uri),
{
    reveal_strlit("method");
    reveal_strlit("params");
    reveal_strlit("jsonrpc");
    reveal_strlit("textDocument");
    reveal_strlit("uri");
    reveal_strlit("languageId");
    reveal_strlit("version");
    reveal_strlit("text");
    assert("method"@.len() == 6);
    assert("params"@.len() == 6);
    assert("jsonrpc"@.len() == 7);
    assert("textDocument"@.len() == 12);
    assert("uri"@.len() == 3);
    assert("languageId"@.len() == 10);
    assert("version"@.len() == 7);
    assert("text"@.len() == 4);
    assert("method"@[0] == 'm');
    assert("params"@[0] == 'p');
    assert("jsonrpc"@[0] == 'j');
    assert("version"@[0] == 'v');
}

/// The server is told of a changed document its version and one change, which makes the
/// new text of the old one.
pub proof fn law_changed_documents_are_told(
    uri: Seq<char>,
    version: int,
    old_text: Seq<char>,
    new_text: Seq<char>,
    incremental: bool,
)
    requires
        incremental ==> protocol::has_no_lone_return(old_text),
        text::byte_len(old_text) <= u64::MAX,
    ensures
        ({
            let told = change_view(uri, version, old_text, new_text, incremental);
            let params = told.field("params"@);
            &&& told.field("method"@) == JsonView::Text("textDocument/didChange"@)
            &&& params.field("textDocument"@).field("uri"@) == JsonView::Text(uri)
            &&& params.field("textDocument"@).field("version"@) == JsonView::Int(version)
            &&& params.field("contentChanges"@) matches JsonView::Array(changes) && changes.len() == 1
                && crate::companion::changed_text(old_text, changes) == Ok::<Seq<char>, Fault>(
                new_text,
            ) && changes[0].has("range"@) == incremental
        }),
{
    reveal_strlit("method");
    reveal_strlit("params");
    reveal_strlit("jsonrpc");
    reveal_strlit("textDocument");
    reveal_strlit("uri");
    reveal_strlit("version");
    reveal_strlit("contentChanges");
    reveal_strlit("range");
    reveal_strlit("text");
    assert("method"@.len() == 6);
    assert("params"@.len() == 6);
    assert("jsonrpc"@.len() == 7);
    assert("textDocument"@.len() == 12);
    assert("uri"@.len() == 3);
    assert("version"@.len() == 7);
    assert("contentChanges"@.len() == 14);
    assert("range"@.len() == 5);
    assert("text"@.len() == 4);
    assert("method"@[0] == 'm');
    assert("params"@[0] == 'p');
    assert("jsonrpc"@[0] == 'j');
    assert("version"@[0] == 'v');
    crate::companion::law_document_change_gives_new_text(old_text, new_text, incremental);
    let change = protocol::change_view(old_text, new_text, incremental);
    let changes = seq![change];
    assert(changes.drop_last() =~= Seq::<JsonView>::empty());
    crate::companion::law_changes_are_made_in_turn(old_text, Seq::empty(), change);
    assert(Seq::<JsonView>::empty().push(change) =~= changes);
}

/// A server takes changes by range if it says so, by the number 2, alone or as the
/// change of its synchronization.
pub proof fn law_incremental_servers(capabilities: JsonView)
    ensures
        capabilities.field("textDocumentSync"@) == JsonView::Int(2) ==> is_incremental(capabilities),
        capabilities.field("textDocumentSync"@).field("change"@) == JsonView::Int(2)
            ==> is_incremental(capabilities),
        is_incremental(capabilities) ==> capabilities.field("textDocumentSync"@) == JsonView::Int(2)
            || capabilities.field("textDocumentSync"@).field("change"@) == JsonView::Int(2),
{
}

/// Of the paths that changed, those that matter are kept, in order, and no others.
pub proof fn law_watched_paths_are_kept(root: Seq<char>, paths: Seq<Seq<char>>, more: Seq<char>)
    ensures
        only_watched(root, Seq::empty()) == Seq::<Seq<char>>::empty(),
        only_watched(root, paths.push(more)) == if is_watched(root, more) {
            only_watched(root, paths).push(more)
        } else {
            only_watched(root, paths)
        },
{
    assert(paths.push(more).drop_last() =~= paths);
}

/// A companion that connects again is there again after the release, at that moment.
pub proof fn law_released_companions_return(
    state: WorkspaceView,
    reconnect: Option<Seq<char>>,
    now: u64,
)
    ensures
        reconnect matches Some(id) ==> after_release(state, reconnect, now).companion == Some(id)
            && after_release(state, reconnect, now).companion_seen == now,
        after_release(state, reconnect, now).documents == state.documents,
        reconnect is None ==> after_release(state, reconnect, now) == state,
{
}

/// An event that does not know of the last change on disk is answered with the epoch
/// that is current, and does nothing else; one that says too little, or something
/// unknown, is refused.
pub proof fn law_stale_events_are_turned_away(
    state: WorkspaceView,
    event: SyncEventView,
    uri: Seq<char>,
    now: u64,
)
    requires
        state.running,
        state.companion == Some(event.companion),
        event.kind != "connect"@,
        event.kind != "disconnect"@,
        event.kind != "heartbeat"@,
    ensures
        ({
            let epoch = if state.documents.contains_key(uri) {
                state.documents[uri].epoch
            } else {
                0
            };
            let step = synced(state, event, Some(uri), now).1;
            &&& event.epoch != epoch ==> (step matches SyncView::Answer(answer) && answer.field(
                "accepted"@,
            ) == JsonView::Bool(false) && answer.field("epoch"@) == JsonView::Int(epoch as int))
            &&& event.epoch == epoch && (event.kind == "open"@ || event.kind == "change"@)
                && event.text is None ==> step == SyncView::Failed(Fault::MissingText)
            &&& event.epoch == epoch && event.kind != "open"@ && event.kind != "change"@
                && event.kind != "save"@ && event.kind != "close"@ ==> step == SyncView::Failed(
                Fault::UnknownSyncEvent,
            )
        }),
        synced(state, event, None, now).1 == SyncView::Failed(Fault::MissingUri),
        synced(state, event, Some(uri), now).0.documents == state.documents,
        synced(state, event, Some(uri), now).0.companion == state.companion,
{
    reveal_strlit("connect");
    reveal_strlit("disconnect");
    reveal_strlit("heartbeat");
    reveal_strlit("open");
    reveal_strlit("change");
    reveal_strlit("save");
    reveal_strlit("close");
    reveal_strlit("accepted");
    reveal_strlit("epoch");
    reveal_strlit("reason");
    assert("connect"@.len() == 7);
    assert("disconnect"@.len() == 10);
    assert("heartbeat"@.len() == 9);
    assert("open"@.len() == 4);
    assert("change"@.len() == 6);
    assert("save"@.len() == 4);
    assert("close"@.len() == 5);
    assert("accepted"@.len() == 8);
    assert("epoch"@.len() == 5);
    assert("reason"@.len() == 6);
    assert("open"@[0] == 'o');
    assert("save"@[0] == 's');
    assert("change"@[0] == 'c');
    assert("reason"@[0] == 'r');
    assert("close"@[0] == 'c');
    assert("epoch"@[0] == 'e');
}

/// Where no server is there for an open document, a change of its file is an error; and
/// a file that holds what the document knew it to hold changes nothing.
pub proof fn law_unserved_changes_fail(
    state: WorkspaceView,
    uri: Seq<char>,
    disk: Option<Seq<char>>,
)
    requires
        !(state.disk_hashes.contains_key(uri) && state.disk_hashes[uri] == disk_hash(disk)),
        state.documents.contains_key(uri),
    ensures
        seen_on_disk(state, uri, disk, false).1 == DiskView::Failed(Fault::MissingDocumentServer),
        seen_on_disk(state, uri, disk, false).0.documents == state.documents,
        state.documents[uri].disk == disk ==> seen_on_disk(state, uri, disk, true).1 is Quiet
            && seen_on_disk(state, uri, disk, true).0.documents == state.documents,
{
}

/// The servers are told of files that changed in one message.
pub proof fn law_changed_files_are_announced(changes: Seq<JsonView>, uri: Seq<char>, gone: bool)
    ensures
        watched_view(changes).field("method"@) == JsonView::Text(
            "workspace/didChangeWatchedFiles"@,
        ),
        watched_view(changes).field("params"@).field("changes"@) == JsonView::Array(changes),
        file_change(uri, gone).field("uri"@) == JsonView::Text(uri),
        file_change(uri, gone).field("type"@) == JsonView::Int(
            if gone {
                3
            } else {
                2
            },
        ),
{
    reveal_strlit("method");
    reveal_strlit("params");
    reveal_strlit("jsonrpc");
    reveal_strlit("changes");
    reveal_strlit("uri");
    reveal_strlit("type");
    assert("method"@.len() == 6);
    assert("params"@.len() == 6);
    assert("jsonrpc"@.len() == 7);
    assert("changes"@.len() == 7);
    assert("uri"@.len() == 3);
    assert("type"@.len() == 4);
    assert("method"@[0] == 'm');
    assert("params"@[0] == 'p');
    assert("jsonrpc"@[0] == 'j');
    assert("changes"@[0] == 'c');
}

/// A new document is open from then on, with what its file held, its first version and
/// epoch; opening it tells the server its language and text.
pub proof fn law_new_documents_are_opened(
    state: WorkspaceView,
    uri: Seq<char>,
    text: Seq<char>,
    source: Seq<char>,
    disk: Option<Seq<char>>,
    capabilities: JsonView,
    path: Seq<char>,
)
    requires
        !state.documents.contains_key(uri),
    ensures
        match language::document_language(path) {
            Some(id) => begun(state, uri, text, capabilities, path) == Ok::<
                (WorkspaceView, Option<JsonView>),
                FailureView,
            >((state, Some(open_view(uri, id, 1, text)))),
            None => begun(state, uri, text, capabilities, path) is Err,
        },
        finished(state, uri, text, source, disk).documents.contains_key(uri),
        finished(state, uri, text, source, disk).documents[uri] == (DocumentView {
            text,
            disk,
            version: 1,
            epoch: 0,
            source,
        }),
        forall|other: Seq<char>|
            other != uri ==> (#[trigger] finished(
                state,
                uri,
                text,
                source,
                disk,
            ).documents.contains_key(other)) == state.documents.contains_key(other),
{
}

} // verus!
