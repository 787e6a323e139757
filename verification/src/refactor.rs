//! Snapshots of a workspace and edits of several files that are made together
//! or not at all.

use crate::fault::{Failure, FailureView, Fault};
use crate::json::{copy_all, views, Json, JsonView};
use crate::language;
use crate::output::capped;
use crate::path;
use crate::protocol;
use crate::table::{among, lemma_among_all, lemma_among_next, Table};
use crate::text;
use std::collections::hash_map::DefaultHasher;
use std::hash::Hasher;
use vstd::prelude::*;
use vstd::std_specs::hash::DefaultHasherAdditionalSpecFns;

verus! {

/// The most bytes that an edit may read and write, and that one file of a
/// snapshot may have.
pub const MAX_EDIT_BYTES: usize = 16_777_216;

/// The most bytes that the files of a snapshot may have together.
pub const MAX_SNAPSHOT_BYTES: u64 = 268_435_456;

/// The most files that a snapshot may have.
pub const MAX_SNAPSHOT_FILES: usize = 100_000;

/// What the hasher is fed for a run of bytes: its length, then itself.
pub open spec fn fed(bytes: Seq<u8>) -> Seq<Seq<u8>> {
    seq![vstd::bytes::spec_u64_to_le_bytes(bytes.len() as u64), bytes]
}

/// The hash that tells contents apart.
pub open spec fn fingerprint_of(bytes: Seq<u8>) -> u64 {
    DefaultHasher::spec_finish(fed(bytes))
}

/// The hash that tells contents apart.
pub fn fingerprint(bytes: &[u8]) -> (r: u64)
    ensures
        r == fingerprint_of(bytes@),
{
    let mut hasher = DefaultHasher::new();
    let length = vstd::bytes::u64_to_le_bytes(bytes.len() as u64);
    hasher.write(length.as_slice());
    hasher.write(bytes);
    proof {
        assert(hasher@ =~= fed(bytes@));
    }
    hasher.finish()
}

/// What an open document was when a snapshot was taken.
#[derive(Clone, Copy, Debug, PartialEq, Eq, Structural)]
pub struct DocumentStamp {
    pub hash: u64,
    pub version: i64,
    pub epoch: u64,
}

/// What a workspace was at one moment: which session, the contents of its files
/// and of the open documents.
#[derive(Debug)]
pub struct Snapshot {
    pub instance: String,
    pub disk: Table<u64>,
    pub documents: Table<DocumentStamp>,
}

/// What a workspace was at one moment, in the terms of contracts.
#[verifier::ext_equal]
pub struct SnapshotView {
    pub instance: Seq<char>,
    pub disk: Map<Seq<char>, u64>,
    pub documents: Map<Seq<char>, DocumentStamp>,
}

impl View for Snapshot {
    type V = SnapshotView;

    open spec fn view(&self) -> SnapshotView {
        SnapshotView {
            instance: self.instance@,
            disk: self.disk@,
            documents: self.documents@,
        }
    }
}

proof fn lemma_equal_maps<V>(a: Map<Seq<char>, V>, b: Map<Seq<char>, V>)
    requires
        a.dom().finite(),
        b.dom().finite(),
        a.dom().len() == b.dom().len(),
        forall|k: Seq<char>| #[trigger]
            a.dom().contains(k) ==> b.dom().contains(k) && a[k] == b[k],
    ensures
        a == b,
{
    assert(a.dom().subset_of(b.dom()));
    vstd::set_lib::lemma_subset_equality(a.dom(), b.dom());
    assert(a =~= b);
}

/// Whether two tables of numbers hold the same.
pub fn same_numbers(a: &Table<u64>, b: &Table<u64>) -> (r: bool)
    ensures
        r == (a@ == b@),
{
    let total: usize = a.len();
    if total != b.len() {
        return false;
    }
    let mut i: usize = 0;
    while i < total
        invariant
            total == a.count(),
            i <= total,
            forall|j: int|
                0 <= j < i ==> b@.contains_key(#[trigger] a.key(j)) && b@[a.key(j)] == a.value(j),
        decreases total - i,
    {
        let key = a.key_at(i);
        let value: u64 = *a.value_at(i);
        match b.get(key) {
            Some(other) => {
                if *other != value {
                    return false;
                }
            },
            None => {
                return false;
            },
        }
        i = i + 1;
    }
    proof {
        use_type_invariant(a);
        assert forall|k: Seq<char>| #[trigger] a@.dom().contains(k) implies b@.dom().contains(k)
            && a@[k] == b@[k] by {
            let j = choose|j: int| crate::table::key_at(a.entries@, k, j);
            assert(a.key(j) == k);
            crate::table::lemma_entry(a.entries@, j);
        }
        lemma_equal_maps(a@, b@);
    }
    true
}

/// Whether two tables of stamps hold the same.
pub fn same_stamps(a: &Table<DocumentStamp>, b: &Table<DocumentStamp>) -> (r: bool)
    ensures
        r == (a@ == b@),
{
    let total: usize = a.len();
    if total != b.len() {
        return false;
    }
    let mut i: usize = 0;
    while i < total
        invariant
            total == a.count(),
            i <= total,
            forall|j: int|
                0 <= j < i ==> b@.contains_key(#[trigger] a.key(j)) && b@[a.key(j)] == a.value(j),
        decreases total - i,
    {
        let key = a.key_at(i);
        let value: DocumentStamp = *a.value_at(i);
        match b.get(key) {
            Some(other) => {
                if *other != value {
                    return false;
                }
            },
            None => {
                return false;
            },
        }
        i = i + 1;
    }
    proof {
        use_type_invariant(a);
        assert forall|k: Seq<char>| #[trigger] a@.dom().contains(k) implies b@.dom().contains(k)
            && a@[k] == b@[k] by {
            let j = choose|j: int| crate::table::key_at(a.entries@, k, j);
            assert(a.key(j) == k);
            crate::table::lemma_entry(a.entries@, j);
        }
        lemma_equal_maps(a@, b@);
    }
    true
}

impl Snapshot {
    /// Whether two snapshots are of the same session, files and documents.
    pub fn same(&self, other: &Snapshot) -> (r: bool)
        ensures
            r == (self@ == other@),
    {
        let r = text::same(self.instance.as_str(), other.instance.as_str()) && same_numbers(
            &self.disk,
            &other.disk,
        ) && same_stamps(&self.documents, &other.documents);
        proof {
            if r {
                assert(self@ =~= other@);
            }
        }
        r
    }
}

// ---------------------------------------------------------------------------
// Which files count
// ---------------------------------------------------------------------------
/// Whether a directory holds nothing that a refactor can affect: dependencies,
/// build output and version control.
pub open spec fn is_skipped_directory(name: Seq<char>) -> bool {
    ||| name == ".git"@
    ||| name == "node_modules"@
    ||| name == "target"@
    ||| name == "dist"@
    ||| name == ".next"@
}

/// Whether a directory holds nothing that a refactor can affect.
pub fn skips_directory(name: &str) -> (r: bool)
    ensures
        r == is_skipped_directory(name@),
{
    text::same(name, ".git") || text::same(name, "node_modules") || text::same(name, "target")
        || text::same(name, "dist") || text::same(name, ".next")
}

/// Whether a file describes a project, by its name.
pub open spec fn is_project_file(name: Seq<char>) -> bool {
    ||| name == "Cargo.toml"@
    ||| name == "Cargo.lock"@
    ||| name == "rust-toolchain.toml"@
    ||| name == "config.toml"@
    ||| name == "package.json"@
    ||| name == "jsconfig.json"@
    ||| name == "bun.lock"@
    ||| name == "package-lock.json"@
    ||| name == "pnpm-lock.yaml"@
    ||| name == "yarn.lock"@
    ||| text::has_prefix(name, "tsconfig"@)
}

/// Whether a file can affect a refactor: sources and project files.
pub open spec fn affects_refactor(path: Seq<char>) -> bool {
    ||| language::language_of(path) is Some
    ||| path::file_name_of(path) matches Some(name) && is_project_file(name)
}

/// Whether a file can affect a refactor.
pub fn relevant(path: &str) -> (r: bool)
    ensures
        r == affects_refactor(path@),
{
    if language::Language::for_path(path).is_ok() {
        return true;
    }
    match path::file_name(path) {
        Some(name) => {
            let n = name.as_str();
            text::same(n, "Cargo.toml") || text::same(n, "Cargo.lock") || text::same(
                n,
                "rust-toolchain.toml",
            ) || text::same(n, "config.toml") || text::same(n, "package.json") || text::same(
                n,
                "jsconfig.json",
            ) || text::same(n, "bun.lock") || text::same(n, "package-lock.json") || text::same(
                n,
                "pnpm-lock.yaml",
            ) || text::same(n, "yarn.lock") || text::starts_with(n, "tsconfig")
        },
        None => false,
    }
}

/// What an entry of a directory is.
#[derive(Clone, Copy, Debug, PartialEq, Eq, Structural)]
pub enum EntryKind {
    Directory,
    File,
    /// A link or anything else.
    Other,
}

/// What an entry of a directory calls for.
#[derive(Clone, Copy, Debug, PartialEq, Eq, Structural)]
pub enum EntryStep {
    Nothing,
    /// Ask for the file's size, [`DiskSnapshot::reserve`] it, and
    /// [`DiskSnapshot::record`] what it holds.
    Measure,
}

/// The files of a snapshot while they are being collected.
pub struct DiskSnapshot {
    pub(crate) files: Table<u64>,
    pub(crate) bytes: u64,
    pub(crate) pending: Vec<String>,
}

/// The files of a snapshot while they are being collected, in the terms of
/// contracts.
#[verifier::ext_equal]
pub struct DiskView {
    /// The files so far, with their fingerprints.
    pub files: Map<Seq<char>, u64>,
    /// The bytes reserved so far.
    pub bytes: u64,
    /// The directories that are still to be listed; the last one is next.
    pub pending: Seq<Seq<char>>,
}

impl View for DiskSnapshot {
    type V = DiskView;

    open(crate) spec fn view(&self) -> DiskView {
        DiskView {
            files: self.files@,
            bytes: self.bytes,
            pending: text::texts_view(self.pending@),
        }
    }
}

impl DiskView {
    /// What an entry of a directory changes, and what it calls for. A name that
    /// is not text is none.
    pub open spec fn found(self, path: Seq<char>, name: Option<Seq<char>>, kind: EntryKind) -> (
        DiskView,
        EntryStep,
    ) {
        match kind {
            EntryKind::Directory => if name matches Some(name) && is_skipped_directory(name) {
                (self, EntryStep::Nothing)
            } else {
                (DiskView { pending: self.pending.push(path), ..self }, EntryStep::Nothing)
            },
            EntryKind::File => if affects_refactor(path) {
                (self, EntryStep::Measure)
            } else {
                (self, EntryStep::Nothing)
            },
            EntryKind::Other => (self, EntryStep::Nothing),
        }
    }

    /// Why a file of a size may not be read any more, if so: neither it, nor
    /// all files together, nor their number may go over the limits.
    pub open spec fn refusal(self, path: Seq<char>, size: u64) -> Option<FailureView> {
        if size > MAX_EDIT_BYTES {
            Some(FailureView::at(Fault::SnapshotFileTooLarge, path))
        } else if self.bytes + size > MAX_SNAPSHOT_BYTES || self.files.dom().len()
            >= MAX_SNAPSHOT_FILES {
            Some(FailureView::plain(Fault::SnapshotLimit))
        } else {
            None
        }
    }
}

impl DiskSnapshot {
    #[verifier::type_invariant]
    pub(crate) open(crate) spec fn bounded(self) -> bool {
        self.bytes <= MAX_SNAPSHOT_BYTES
    }

    /// A snapshot of a directory, before anything was listed.
    pub fn new(root: &str) -> (r: DiskSnapshot)
        ensures
            r@ == (DiskView { files: Map::empty(), bytes: 0, pending: seq![root@] }),
    {
        let mut pending: Vec<String> = Vec::new();
        pending.push(root.to_owned());
        proof {
            assert(text::texts_view(pending@) =~= seq![root@]);
        }
        DiskSnapshot { files: Table::new(), bytes: 0, pending }
    }

    /// The directory to list next; none if all were listed.
    pub fn next_directory(&mut self) -> (r: Option<String>)
        ensures
            match r {
                Some(dir) => old(self)@.pending.len() > 0 && dir@ == old(self)@.pending.last()
                    && final(self)@ == (DiskView {
                    pending: old(self)@.pending.drop_last(),
                    ..old(self)@
                }),
                None => old(self)@.pending.len() == 0 && final(self)@ == old(self)@,
            },
    {
        proof {
            use_type_invariant(&*self);
        }
        let ghost before = self.pending@;
        let mut pending: Vec<String> = Vec::new();
        core::mem::swap(&mut pending, &mut self.pending);
        let next = pending.pop();
        core::mem::swap(&mut pending, &mut self.pending);
        proof {
            assert(text::texts_view(before).len() == before.len());
            if before.len() > 0 {
                assert(text::texts_view(before).last() == before.last()@);
                assert(text::texts_view(self.pending@) =~= text::texts_view(before).drop_last());
            }
            assert(self@ =~= (DiskView {
                pending: text::texts_view(self.pending@),
                ..old(self)@
            }));
        }
        next
    }

    /// Takes in an entry of a directory.
    pub fn found(&mut self, path: &str, name: Option<&str>, kind: EntryKind) -> (r: EntryStep)
        ensures
            (final(self)@, r) == old(self)@.found(
                path@,
                match name {
                    Some(name) => Some(name@),
                    None => None,
                },
                kind,
            ),
    {
        proof {
            use_type_invariant(&*self);
        }
        match kind {
            EntryKind::Directory => {
                let skipped: bool = match name {
                    Some(name) => skips_directory(name),
                    None => false,
                };
                if !skipped {
                    let ghost before = text::texts_view(self.pending@);
                    let mut pending: Vec<String> = Vec::new();
                    core::mem::swap(&mut pending, &mut self.pending);
                    pending.push(path.to_owned());
                    core::mem::swap(&mut pending, &mut self.pending);
                    proof {
                        assert(text::texts_view(self.pending@) =~= before.push(path@));
                        assert(self@ =~= (DiskView {
                            pending: before.push(path@),
                            ..old(self)@
                        }));
                    }
                }
                EntryStep::Nothing
            },
            EntryKind::File => if relevant(path) {
                EntryStep::Measure
            } else {
                EntryStep::Nothing
            },
            EntryKind::Other => EntryStep::Nothing,
        }
    }

    /// Whether a file of a size may still be read; if so, its bytes count.
    pub fn reserve(&mut self, path: &str, size: u64) -> (r: Result<(), Failure>)
        ensures
            match r {
                Ok(()) => old(self)@.refusal(path@, size) is None && final(self)@ == (DiskView {
                    bytes: (old(self)@.bytes + size) as u64,
                    ..old(self)@
                }),
                Err(failure) => old(self)@.refusal(path@, size) == Some(failure@) && final(self)@
                    == old(self)@,
            },
    {
        proof {
            use_type_invariant(&*self);
        }
        if size > MAX_EDIT_BYTES as u64 {
            return Err(Failure::at(Fault::SnapshotFileTooLarge, path));
        }
        if size > MAX_SNAPSHOT_BYTES - self.bytes || self.files.len() >= MAX_SNAPSHOT_FILES {
            return Err(Failure::plain(Fault::SnapshotLimit));
        }
        self.bytes = self.bytes + size;
        proof {
            assert(self@ =~= (DiskView { bytes: self.bytes, ..old(self)@ }));
        }
        Ok(())
    }

    /// Takes a file in.
    pub fn record(&mut self, path: &str, contents: &[u8])
        ensures
            final(self)@ == (DiskView {
                files: old(self)@.files.insert(path@, fingerprint_of(contents@)),
                ..old(self)@
            }),
    {
        proof {
            use_type_invariant(&*self);
        }
        let hash: u64 = fingerprint(contents);
        let mut files: Table<u64> = Table::new();
        core::mem::swap(&mut files, &mut self.files);
        files.insert(path, hash);
        core::mem::swap(&mut files, &mut self.files);
        proof {
            assert(self@ =~= (DiskView {
                files: old(self)@.files.insert(path@, hash),
                ..old(self)@
            }));
        }
    }

    /// The files with their fingerprints.
    pub fn finish(self) -> (files: Table<u64>)
        ensures
            files@ == self@.files,
    {
        self.files
    }
}

/// Dependencies, build output and version control are never looked into.
pub proof fn law_skipped_directories_are_not_listed(
    state: DiskView,
    path: Seq<char>,
    name: Seq<char>,
)
    requires
        is_skipped_directory(name),
    ensures
        state.found(path, Some(name), EntryKind::Directory) == (state, EntryStep::Nothing),
{
}

// ---------------------------------------------------------------------------
// Edits, file by file
// ---------------------------------------------------------------------------
/// The edits of one document, and the version that they were made for.
pub struct DocumentEdits {
    pub version: Option<i64>,
    pub edits: Vec<Json>,
}

/// The edits of one document, in the terms of contracts.
#[verifier::ext_equal]
pub struct DocumentEditsView {
    pub version: Option<i64>,
    pub edits: Seq<JsonView>,
}

impl View for DocumentEdits {
    type V = DocumentEditsView;

    open spec fn view(&self) -> DocumentEditsView {
        DocumentEditsView { version: self.version, edits: views(self.edits@) }
    }
}

/// The edits of several documents, in the terms of contracts.
pub open spec fn group_views(groups: Map<Seq<char>, DocumentEdits>) -> Map<
    Seq<char>,
    DocumentEditsView,
> {
    Map::new(|uri: Seq<char>| groups.contains_key(uri), |uri: Seq<char>| groups[uri]@)
}

/// The groups of a `changes` map: edits without versions.
pub open spec fn change_groups(changes: JsonView) -> Result<
    Map<Seq<char>, DocumentEditsView>,
    Fault,
> {
    match changes.members() {
        None => Err(Fault::InvalidChanges),
        Some(members) => if exists|uri: Seq<char>| #[trigger]
            members.contains_key(uri) && members[uri].items() is None {
            Err(Fault::InvalidEdits)
        } else {
            Ok(
                Map::new(
                    |uri: Seq<char>| members.contains_key(uri),
                    |uri: Seq<char>|
                        DocumentEditsView { version: None, edits: members[uri].items_or_none() },
                ),
            )
        },
    }
}

/// The version that a change is for; none if it says none.
pub open spec fn change_version(change: JsonView) -> Result<Option<i64>, Fault> {
    match change.field("textDocument"@).field("version"@) {
        JsonView::Null => Ok(None),
        version => match version.signed() {
            Some(n) => Ok(Some(n)),
            None => Err(Fault::InvalidVersion),
        },
    }
}

/// Groups with one more document change.
pub open spec fn with_change(
    groups: Map<Seq<char>, DocumentEditsView>,
    change: JsonView,
) -> Result<Map<Seq<char>, DocumentEditsView>, Fault> {
    if change.has("kind"@) {
        Err(Fault::ResourceOperation)
    } else {
        match change.field("textDocument"@).field("uri"@).text() {
            None => Err(Fault::MissingDocumentUri),
            Some(uri) => if groups.contains_key(uri) {
                Err(Fault::DuplicateGroup)
            } else {
                match change_version(change) {
                    Err(fault) => Err(fault),
                    Ok(version) => match change.field("edits"@).items() {
                        None => Err(Fault::MissingEdits),
                        Some(edits) => Ok(groups.insert(uri, DocumentEditsView { version, edits })),
                    },
                }
            },
        }
    }
}

/// Groups with document changes, one after the other; the first fault, if there
/// is one.
pub open spec fn with_changes(
    groups: Map<Seq<char>, DocumentEditsView>,
    changes: Seq<JsonView>,
) -> Result<Map<Seq<char>, DocumentEditsView>, Fault>
    decreases changes.len(),
{
    if changes.len() == 0 {
        Ok(groups)
    } else {
        match with_changes(groups, changes.drop_last()) {
            Err(fault) => Err(fault),
            Ok(earlier) => with_change(earlier, changes.last()),
        }
    }
}

/// The text edits of a workspace edit, document by document. Nothing but text
/// edits is accepted, and no document may be named twice.
pub open spec fn edit_groups(edit: JsonView) -> Result<Map<Seq<char>, DocumentEditsView>, Fault> {
    let first = if edit.has("changes"@) {
        change_groups(edit.field("changes"@))
    } else {
        Ok(Map::empty())
    };
    let all = match first {
        Err(fault) => Err(fault),
        Ok(groups) => if edit.has("documentChanges"@) {
            match edit.field("documentChanges"@).items() {
                None => Err(Fault::InvalidDocumentChanges),
                Some(changes) => with_changes(groups, changes),
            }
        } else {
            Ok(groups)
        },
    };
    match all {
        Err(fault) => Err(fault),
        Ok(groups) => if groups == Map::<Seq<char>, DocumentEditsView>::empty() {
            Err(Fault::NoTextEdits)
        } else {
            Ok(groups)
        },
    }
}

/// What document changes leave of the groups that were there before them.
proof fn lemma_changes_keep_groups(
    groups: Map<Seq<char>, DocumentEditsView>,
    changes: Seq<JsonView>,
)
    requires
        with_changes(groups, changes) is Ok,
    ensures
        ({
            let all = with_changes(groups, changes)->Ok_0;
            &&& forall|uri: Seq<char>| #[trigger]
                groups.contains_key(uri) ==> all.contains_key(uri) && all[uri] == groups[uri]
            &&& forall|i: int|
                0 <= i < changes.len() ==> {
                    let change = #[trigger] changes[i];
                    &&& !change.has("kind"@)
                    &&& change.field("textDocument"@).field("uri"@) matches JsonView::Text(uri)
                        && !groups.contains_key(uri) && all.contains_key(uri)
                        && change.field("edits"@) == JsonView::Array(all[uri].edits)
                        && match all[uri].version {
                        Some(n) => change.field("textDocument"@).field("version"@)
                            == JsonView::Int(n as int),
                        None => change.field("textDocument"@).field("version"@) is Null,
                    }
                }
            &&& forall|uri: Seq<char>| #[trigger]
                all.contains_key(uri) ==> groups.contains_key(uri) || exists|i: int|
                    0 <= i < changes.len() && (#[trigger] changes[i]).field("textDocument"@).field(
                        "uri"@,
                    ) == JsonView::Text(uri)
            &&& forall|i: int, j: int|
                0 <= i < j < changes.len() ==> (#[trigger] changes[i]).field("textDocument"@).field(
                    "uri"@,
                ) != (#[trigger] changes[j]).field("textDocument"@).field("uri"@)
        }),
    decreases changes.len(),
{
    if changes.len() > 0 {
        let front = changes.drop_last();
        lemma_changes_keep_groups(groups, front);
        let earlier = with_changes(groups, front)->Ok_0;
        let all = with_changes(groups, changes)->Ok_0;
        let last = changes.last();
        let uri = last.field("textDocument"@).field("uri"@)->Text_0;
        assert(last.field("textDocument"@).field("uri"@) == JsonView::Text(uri));
        assert forall|i: int| 0 <= i < changes.len() implies ({
            let change = #[trigger] changes[i];
            &&& !change.has("kind"@)
            &&& change.field("textDocument"@).field("uri"@) matches JsonView::Text(name)
                && !groups.contains_key(name) && all.contains_key(name) && change.field("edits"@)
                == JsonView::Array(all[name].edits) && match all[name].version {
                Some(n) => change.field("textDocument"@).field("version"@) == JsonView::Int(
                    n as int,
                ),
                None => change.field("textDocument"@).field("version"@) is Null,
            }
        }) by {
            if i < front.len() {
                assert(changes[i] == front[i]);
            }
        }
        assert forall|name: Seq<char>| #[trigger] all.contains_key(name) implies groups.contains_key(
            name,
        ) || exists|i: int|
            0 <= i < changes.len() && (#[trigger] changes[i]).field("textDocument"@).field("uri"@)
                == JsonView::Text(name) by {
            if name == uri {
                assert(changes[changes.len() - 1] == last);
            } else if !groups.contains_key(name) {
                assert(earlier.contains_key(name));
                let i = choose|i: int|
                    0 <= i < front.len() && (#[trigger] front[i]).field("textDocument"@).field(
                        "uri"@,
                    ) == JsonView::Text(name);
                assert(changes[i] == front[i]);
            }
        }
        assert forall|i: int, j: int| 0 <= i < j < changes.len() implies (
        #[trigger] changes[i]).field("textDocument"@).field("uri"@) != (
        #[trigger] changes[j]).field("textDocument"@).field("uri"@) by {
            assert(changes[i] == front[i]);
            if j < front.len() {
                assert(changes[j] == front[j]);
            }
        }
    }
}

/// A workspace edit loses and makes up nothing: every document that it names has
/// exactly the edits that it gives for the document, one by one, and the version
/// that it gives; no other document has any; and none is named twice.
pub proof fn law_groups_hold_all_edits(edit: JsonView)
    requires
        edit_groups(edit) is Ok,
    ensures
        ({
            let groups = edit_groups(edit)->Ok_0;
            let members = edit.field("changes"@)->Object_0;
            let changes = edit.field("documentChanges"@)->Array_0;
            &&& edit.has("changes"@) ==> edit.field("changes"@) is Object && forall|
                uri: Seq<char>,
            | #[trigger]
                members.contains_key(uri) ==> groups.contains_key(uri) && members[uri]
                    == JsonView::Array(groups[uri].edits) && groups[uri].version is None
            &&& edit.has("documentChanges"@) ==> edit.field("documentChanges"@) is Array && forall|
                i: int,
            |
                0 <= i < changes.len() ==> {
                    let change = #[trigger] changes[i];
                    &&& !change.has("kind"@)
                    &&& change.field("textDocument"@).field("uri"@) matches JsonView::Text(uri)
                        && groups.contains_key(uri) && change.field("edits"@) == JsonView::Array(
                        groups[uri].edits,
                    ) && match groups[uri].version {
                        Some(n) => change.field("textDocument"@).field("version"@)
                            == JsonView::Int(n as int),
                        None => change.field("textDocument"@).field("version"@) is Null,
                    } && !(edit.has("changes"@) && members.contains_key(uri))
                }
            &&& forall|uri: Seq<char>| #[trigger]
                groups.contains_key(uri) ==> (edit.has("changes"@) && members.contains_key(uri)) || (
                edit.has("documentChanges"@) && exists|i: int|
                    0 <= i < changes.len() && (#[trigger] changes[i]).field("textDocument"@).field(
                        "uri"@,
                    ) == JsonView::Text(uri))
            &&& edit.has("documentChanges"@) ==> forall|i: int, j: int|
                0 <= i < j < changes.len() ==> (#[trigger] changes[i]).field("textDocument"@).field(
                    "uri"@,
                ) != (#[trigger] changes[j]).field("textDocument"@).field("uri"@)
            &&& exists|uri: Seq<char>| #[trigger] groups.contains_key(uri)
        }),
{
    let groups = edit_groups(edit)->Ok_0;
    let first = if edit.has("changes"@) {
        change_groups(edit.field("changes"@))->Ok_0
    } else {
        Map::empty()
    };
    if edit.has("documentChanges"@) {
        lemma_changes_keep_groups(first, edit.field("documentChanges"@)->Array_0);
    }
    if forall|uri: Seq<char>| !(#[trigger] groups.contains_key(uri)) {
        assert(groups =~= Map::<Seq<char>, DocumentEditsView>::empty());
    }
    if edit.has("changes"@) {
        let members = edit.field("changes"@)->Object_0;
        assert forall|uri: Seq<char>| #[trigger] members.contains_key(uri) implies
            groups.contains_key(uri) && members[uri] == JsonView::Array(groups[uri].edits)
            && groups[uri].version is None by {
            assert(members[uri].items() is Some);
            assert(first.contains_key(uri));
        }
    }
}

/// A workspace edit is taken if it gives nothing but lists of text edits, for at
/// least one document and none twice.
pub proof fn law_text_edits_are_taken(edit: JsonView)
    requires
        ({
            let members = edit.field("changes"@)->Object_0;
            let changes = edit.field("documentChanges"@)->Array_0;
            &&& edit.has("changes"@) ==> edit.field("changes"@) is Object && forall|
                uri: Seq<char>,
            | #[trigger] members.contains_key(uri) ==> members[uri] is Array
            &&& edit.has("documentChanges"@) ==> edit.field("documentChanges"@) is Array && forall|
                i: int,
            |
                0 <= i < changes.len() ==> {
                    let change = #[trigger] changes[i];
                    &&& !change.has("kind"@)
                    &&& change.field("textDocument"@).field("uri"@) matches JsonView::Text(uri)
                        && !(edit.has("changes"@) && members.contains_key(uri))
                    &&& change.field("edits"@) is Array
                    &&& change.field("textDocument"@).field("version"@) is Null || (
                    change.field("textDocument"@).field("version"@) matches JsonView::Int(n)
                        && i64::MIN <= n <= i64::MAX)
                }
            &&& edit.has("documentChanges"@) ==> forall|i: int, j: int|
                0 <= i < j < changes.len() ==> (#[trigger] changes[i]).field("textDocument"@).field(
                    "uri"@,
                ) != (#[trigger] changes[j]).field("textDocument"@).field("uri"@)
            &&& (edit.has("changes"@) && exists|uri: Seq<char>| #[trigger]
                members.contains_key(uri)) || (edit.has("documentChanges"@) && changes.len() > 0)
        }),
    ensures
        edit_groups(edit) is Ok,
{
    let members = edit.field("changes"@)->Object_0;
    let changes = edit.field("documentChanges"@)->Array_0;
    let first: Map<Seq<char>, DocumentEditsView> = if edit.has("changes"@) {
        change_groups(edit.field("changes"@))->Ok_0
    } else {
        Map::empty()
    };
    if edit.has("changes"@) {
        assert(change_groups(edit.field("changes"@)) is Ok);
    }
    if edit.has("documentChanges"@) {
        lemma_changes_are_taken(first, changes);
        lemma_changes_keep_groups(first, changes);
        let all = with_changes(first, changes)->Ok_0;
        if changes.len() > 0 {
            let uri = changes[0].field("textDocument"@).field("uri"@)->Text_0;
            assert(all.contains_key(uri));
            assert(!Map::<Seq<char>, DocumentEditsView>::empty().contains_key(uri));
        } else {
            let uri = choose|uri: Seq<char>| #[trigger] members.contains_key(uri);
            assert(first.contains_key(uri));
            assert(all.contains_key(uri));
            assert(!Map::<Seq<char>, DocumentEditsView>::empty().contains_key(uri));
        }
    } else {
        let uri = choose|uri: Seq<char>| #[trigger] members.contains_key(uri);
        assert(first.contains_key(uri));
        assert(!Map::<Seq<char>, DocumentEditsView>::empty().contains_key(uri));
    }
}

proof fn lemma_changes_are_taken(
    groups: Map<Seq<char>, DocumentEditsView>,
    changes: Seq<JsonView>,
)
    requires
        forall|i: int|
            0 <= i < changes.len() ==> {
                let change = #[trigger] changes[i];
                &&& !change.has("kind"@)
                &&& change.field("textDocument"@).field("uri"@) matches JsonView::Text(uri)
                    && !groups.contains_key(uri)
                &&& change.field("edits"@) is Array
                &&& change.field("textDocument"@).field("version"@) is Null || (change.field(
                    "textDocument"@,
                ).field("version"@) matches JsonView::Int(n) && i64::MIN <= n <= i64::MAX)
            },
        forall|i: int, j: int|
            0 <= i < j < changes.len() ==> (#[trigger] changes[i]).field("textDocument"@).field(
                "uri"@,
            ) != (#[trigger] changes[j]).field("textDocument"@).field("uri"@),
    ensures
        with_changes(groups, changes) is Ok,
    decreases changes.len(),
{
    if changes.len() > 0 {
        let front = changes.drop_last();
        assert forall|i: int| 0 <= i < front.len() implies ({
            let change = #[trigger] front[i];
            &&& !change.has("kind"@)
            &&& change.field("textDocument"@).field("uri"@) matches JsonView::Text(uri)
                && !groups.contains_key(uri)
            &&& change.field("edits"@) is Array
            &&& change.field("textDocument"@).field("version"@) is Null || (change.field(
                "textDocument"@,
            ).field("version"@) matches JsonView::Int(n) && i64::MIN <= n <= i64::MAX)
        }) by {
            assert(changes[i] == front[i]);
        }
        assert forall|i: int, j: int| 0 <= i < j < front.len() implies (#[trigger] front[i]).field(
            "textDocument"@,
        ).field("uri"@) != (#[trigger] front[j]).field("textDocument"@).field("uri"@) by {
            assert(changes[i] == front[i] && changes[j] == front[j]);
        }
        lemma_changes_are_taken(groups, front);
        lemma_changes_keep_groups(groups, front);
        let earlier = with_changes(groups, front)->Ok_0;
        let last = changes[changes.len() - 1];
        assert(last == changes.last());
        let uri = last.field("textDocument"@).field("uri"@)->Text_0;
        if earlier.contains_key(uri) {
            let i = choose|i: int|
                0 <= i < front.len() && (#[trigger] front[i]).field("textDocument"@).field("uri"@)
                    == JsonView::Text(uri);
            assert(changes[i] == front[i]);
            assert(changes[i].field("textDocument"@).field("uri"@) != last.field(
                "textDocument"@,
            ).field("uri"@));
        }
    }
}

fn read_changes(changes: &Json) -> (r: Result<Table<DocumentEdits>, Fault>)
    ensures
        match r {
            Ok(groups) => change_groups(changes@) == Ok::<
                Map<Seq<char>, DocumentEditsView>,
                Fault,
            >(group_views(groups@)),
            Err(fault) => change_groups(changes@) == Err::<
                Map<Seq<char>, DocumentEditsView>,
                Fault,
            >(fault),
        },
{
    let members = match changes.as_object() {
        Some(members) => members,
        None => {
            return Err(Fault::InvalidChanges);
        },
    };
    let ghost all = crate::json::member_views(members@);
    let mut groups: Table<DocumentEdits> = Table::new();
    let total: usize = members.len();
    let mut i: usize = 0;
    while i < total
        invariant
            total == members.count(),
            i <= total,
            all == crate::json::member_views(members@),
            changes@ == JsonView::Object(all),
            forall|uri: Seq<char>| #[trigger]
                groups@.contains_key(uri) <==> among(*members, uri, i as int),
            forall|uri: Seq<char>| #[trigger]
                groups@.contains_key(uri) ==> all.contains_key(uri) && all[uri].items() is Some
                    && groups@[uri]@ == (DocumentEditsView {
                    version: None,
                    edits: all[uri].items_or_none(),
                }),
        decreases total - i,
    {
        let uri = members.key_at(i);
        let value = members.value_at(i);
        proof {
            assert(all.contains_key(uri@) && all[uri@] == value@);
        }
        let edits = match value.as_array() {
            Some(items) => copy_all(items),
            None => {
                return Err(Fault::InvalidEdits);
            },
        };
        groups.insert(uri, DocumentEdits { version: None, edits });
        proof {
            lemma_among_next(*members, i as int);
        }
        i = i + 1;
    }
    proof {
        lemma_among_all(*members);
        assert forall|uri: Seq<char>| #[trigger] all.contains_key(uri) implies groups@.contains_key(
            uri,
        ) by {
            assert(among(*members, uri, total as int));
        }
        assert(group_views(groups@) =~= change_groups(changes@)->Ok_0);
    }
    Ok(groups)
}

fn read_change(groups: &mut Table<DocumentEdits>, change: &Json) -> (r: Result<(), Fault>)
    ensures
        match r {
            Ok(()) => with_change(group_views(old(groups)@), change@) == Ok::<
                Map<Seq<char>, DocumentEditsView>,
                Fault,
            >(group_views(final(groups)@)),
            Err(fault) => with_change(group_views(old(groups)@), change@) == Err::<
                Map<Seq<char>, DocumentEditsView>,
                Fault,
            >(fault),
        },
{
    let ghost before = group_views(groups@);
    if change.has("kind") {
        return Err(Fault::ResourceOperation);
    }
    let document = change.at("textDocument");
    let uri = match document.at("uri").as_str() {
        Some(uri) => uri,
        None => {
            return Err(Fault::MissingDocumentUri);
        },
    };
    if groups.contains(uri) {
        return Err(Fault::DuplicateGroup);
    }
    let version: Option<i64> = if document.at("version").is_null() {
        None
    } else {
        match document.at("version").as_i64() {
            Some(n) => Some(n),
            None => {
                return Err(Fault::InvalidVersion);
            },
        }
    };
    let edits = match change.at("edits").as_array() {
        Some(items) => copy_all(items),
        None => {
            return Err(Fault::MissingEdits);
        },
    };
    let ghost group = DocumentEditsView { version, edits: views(edits@) };
    groups.insert(uri, DocumentEdits { version, edits });
    proof {
        assert(group_views(groups@) =~= before.insert(uri@, group));
    }
    Ok(())
}

/// A fault among the first changes is the fault of them all.
proof fn lemma_first_change_fault(
    groups: Map<Seq<char>, DocumentEditsView>,
    changes: Seq<JsonView>,
    n: int,
)
    requires
        0 <= n <= changes.len(),
    ensures
        with_changes(groups, changes.take(n)) matches Err(fault) ==> with_changes(groups, changes)
            == Err::<Map<Seq<char>, DocumentEditsView>, Fault>(fault),
    decreases changes.len(),
{
    if n < changes.len() {
        lemma_first_change_fault(groups, changes.drop_last(), n);
        assert(changes.drop_last().take(n) =~= changes.take(n));
    } else {
        assert(changes.take(n) =~= changes);
    }
}

/// The text edits of a workspace edit, document by document.
pub fn text_edit_groups(edit: &Json) -> (r: Result<Table<DocumentEdits>, Fault>)
    ensures
        match r {
            Ok(groups) => edit_groups(edit@) == Ok::<Map<Seq<char>, DocumentEditsView>, Fault>(
                group_views(groups@),
            ),
            Err(fault) => edit_groups(edit@) == Err::<Map<Seq<char>, DocumentEditsView>, Fault>(
                fault,
            ),
        },
{
    let mut groups: Table<DocumentEdits> = match edit.get("changes") {
        Some(changes) => match read_changes(changes) {
            Ok(groups) => groups,
            Err(fault) => {
                return Err(fault);
            },
        },
        None => {
            let none: Table<DocumentEdits> = Table::new();
            proof {
                assert(group_views(none@) =~= Map::<Seq<char>, DocumentEditsView>::empty());
            }
            none
        },
    };
    let ghost first = group_views(groups@);
    match edit.get("documentChanges") {
        Some(changes) => match changes.as_array() {
            None => {
                return Err(Fault::InvalidDocumentChanges);
            },
            Some(items) => {
                let ghost all = views(items@);
                let mut i: usize = 0;
                proof {
                    assert(all.take(0) =~= Seq::<JsonView>::empty());
                }
                while i < items.len()
                    invariant
                        all == views(items@),
                        i <= items@.len(),
                        with_changes(first, all.take(i as int)) == Ok::<
                            Map<Seq<char>, DocumentEditsView>,
                            Fault,
                        >(group_views(groups@)),
                        forall|fault: Fault|
                            with_changes(first, all) == Err::<
                                Map<Seq<char>, DocumentEditsView>,
                                Fault,
                            >(fault) ==> edit_groups(edit@) == Err::<
                                Map<Seq<char>, DocumentEditsView>,
                                Fault,
                            >(fault),
                    decreases items@.len() - i,
                {
                    proof {
                        assert(all.take(i + 1).drop_last() =~= all.take(i as int));
                        assert(all.take(i + 1).last() == items@[i as int]@);
                        lemma_first_change_fault(first, all, i + 1);
                    }
                    match read_change(&mut groups, &items[i]) {
                        Ok(()) => {},
                        Err(fault) => {
                            return Err(fault);
                        },
                    }
                    i = i + 1;
                }
                proof {
                    assert(all.take(all.len() as int) =~= all);
                }
            },
        },
        None => {},
    }
    if groups.len() == 0 {
        proof {
            assert(groups@.dom() =~= Set::<Seq<char>>::empty());
            assert(group_views(groups@) =~= Map::<Seq<char>, DocumentEditsView>::empty());
        }
        return Err(Fault::NoTextEdits);
    }
    proof {
        if group_views(groups@) == Map::<Seq<char>, DocumentEditsView>::empty() {
            assert(group_views(groups@).dom() =~= groups@.dom());
            assert(groups@.dom() =~= Set::<Seq<char>>::empty());
        }
    }
    Ok(groups)
}

/// A workspace edit that creates, renames or deletes files is refused as a
/// whole.
pub proof fn law_resource_operations_are_refused(edit: JsonView, i: int)
    requires
        edit.field("documentChanges"@) is Array,
        0 <= i < edit.field("documentChanges"@)->Array_0.len(),
        edit.field("documentChanges"@)->Array_0[i].has("kind"@),
    ensures
        edit_groups(edit) is Err,
{
    let changes = edit.field("documentChanges"@)->Array_0;
    lemma_refused(Map::empty(), changes, i);
    match change_groups(edit.field("changes"@)) {
        Ok(groups) => {
            lemma_refused(groups, changes, i);
        },
        Err(_) => {},
    }
}

proof fn lemma_refused(
    groups: Map<Seq<char>, DocumentEditsView>,
    changes: Seq<JsonView>,
    i: int,
)
    requires
        0 <= i < changes.len(),
        changes[i].has("kind"@),
    ensures
        with_changes(groups, changes) is Err,
    decreases changes.len(),
{
    if i < changes.len() - 1 {
        lemma_refused(groups, changes.drop_last(), i);
    }
}

// ---------------------------------------------------------------------------
// Prepared edits
// ---------------------------------------------------------------------------
/// The edit of one file.
#[derive(Debug)]
pub struct FileEdit {
    pub path: String,
    /// What the file holds on disk.
    pub original_disk: String,
    /// What the server edited: the open document, or the file.
    pub before: String,
    pub after: String,
    pub edits: Vec<Json>,
}

impl FileEdit {
    /// Whether making the edits in the text before gives the text after.
    pub open spec fn holds(self) -> bool {
        protocol::edited(self.before@, views(self.edits@)) == Ok::<Seq<char>, Fault>(self.after@)
    }

    /// Whether every edit names a range of the text before.
    pub open spec fn located(self) -> bool {
        forall|i: int|
            0 <= i < self.edits@.len() ==> is_located(self.before@, #[trigger] self.edits@[i]@)
    }
}

/// Whether an edit names a range of a text.
pub open spec fn is_located(text: Seq<char>, edit: JsonView) -> bool {
    let start = protocol::position_place(text, edit.field("range"@).field("start"@));
    let end = protocol::position_place(text, edit.field("range"@).field("end"@));
    start is Ok && end is Ok && start->Ok_0 <= end->Ok_0
}

/// The edits of several files that belong together.
#[derive(Debug)]
pub struct PreparedEdit {
    pub files: Vec<FileEdit>,
}

/// Line numbers in order, each once, with one more.
pub open spec fn with_line(lines: Seq<u64>, line: u64) -> Seq<u64>
    decreases lines.len(),
{
    if lines.len() == 0 || lines.last() < line {
        lines.push(line)
    } else if lines.last() == line {
        lines
    } else {
        with_line(lines.drop_last(), line).push(lines.last())
    }
}

/// The lines on which edits start, in order, each once.
pub open spec fn start_lines(edits: Seq<JsonView>) -> Seq<u64>
    decreases edits.len(),
{
    if edits.len() == 0 {
        Seq::empty()
    } else {
        let earlier = start_lines(edits.drop_last());
        match edits.last().field("range"@).field("start"@).field("line"@).unsigned() {
            Some(line) => with_line(earlier, line),
            None => earlier,
        }
    }
}

/// Line numbers as a JSON array.
pub open spec fn lines_view(lines: Seq<u64>) -> JsonView {
    JsonView::Array(lines.map_values(|line: u64| JsonView::Int(line as int)))
}

/// What a receipt says of one edit, with the text that it replaces.
pub open spec fn edit_receipt(before: Seq<char>, edit: JsonView) -> JsonView {
    let range = edit.field("range"@);
    let start = protocol::position_place(before, range.field("start"@))->Ok_0;
    let end = protocol::position_place(before, range.field("end"@))->Ok_0;
    JsonView::object().with("range"@, range).with(
        "oldText"@,
        JsonView::Text(before.subrange(start, end)),
    ).with("newText"@, edit.field("newText"@))
}

/// A path as it is shown: from the workspace's root on, if it lies in it.
pub open spec fn shown_path(path: Seq<char>, root: Seq<char>) -> Seq<char> {
    match path::relative_to(path, root) {
        Some(relative) => relative,
        None => path,
    }
}

/// What a receipt says of one file.
pub open spec fn file_receipt(file: FileEdit, root: Seq<char>, verbose: bool) -> JsonView {
    let edits = views(file.edits@);
    let short = JsonView::object().with("path"@, JsonView::Text(shown_path(file.path@, root))).with(
        "editCount"@,
        JsonView::Int(edits.len() as int),
    ).with("lines"@, lines_view(start_lines(edits)));
    if verbose {
        short.with(
            "edits"@,
            JsonView::Array(edits.map_values(|edit: JsonView| edit_receipt(file.before@, edit))),
        )
    } else {
        short
    }
}

/// How many edits files have together.
pub open spec fn edit_total(files: Seq<FileEdit>) -> nat
    decreases files.len(),
{
    if files.len() == 0 {
        0
    } else {
        edit_total(files.drop_last()) + files.last().edits@.len()
    }
}

/// What is said of an edit that was made or is planned.
pub open spec fn receipt_view(
    files: Seq<FileEdit>,
    root: Seq<char>,
    applied: bool,
    verbose: bool,
) -> JsonView {
    JsonView::object().with("applied"@, JsonView::Bool(applied)).with(
        "fileCount"@,
        JsonView::Int(files.len() as int),
    ).with("editCount"@, JsonView::Int(capped(edit_total(files)))).with(
        "files"@,
        JsonView::Array(files.map_values(|file: FileEdit| file_receipt(file, root, verbose))),
    )
}

proof fn lemma_with_line(lines: Seq<u64>, line: u64, k: int)
    requires
        0 <= k <= lines.len(),
        forall|j: int| k <= j < lines.len() ==> #[trigger] lines[j] > line,
        k > 0 ==> lines[k - 1] <= line,
    ensures
        with_line(lines, line) == if k > 0 && lines[k - 1] == line {
            lines
        } else {
            lines.insert(k, line)
        },
    decreases lines.len(),
{
    if k < lines.len() {
        lemma_with_line(lines.drop_last(), line, k);
        assert(lines.drop_last().push(lines.last()) =~= lines);
        assert(lines.drop_last().insert(k, line).push(lines.last()) =~= lines.insert(k, line));
    } else {
        assert(lines.push(line) =~= lines.insert(k, line));
    }
}

fn list_lines(edits: &Vec<Json>) -> (r: Vec<u64>)
    ensures
        r@ == start_lines(views(edits@)),
{
    let ghost all = views(edits@);
    let mut lines: Vec<u64> = Vec::new();
    let mut i: usize = 0;
    proof {
        assert(all.take(0) =~= Seq::<JsonView>::empty());
    }
    while i < edits.len()
        invariant
            all == views(edits@),
            i <= edits@.len(),
            lines@ == start_lines(all.take(i as int)),
        decreases edits@.len() - i,
    {
        proof {
            assert(all.take(i + 1).drop_last() =~= all.take(i as int));
            assert(all.take(i + 1).last() == edits@[i as int]@);
        }
        match edits[i].at("range").at("start").at("line").as_u64() {
            Some(line) => {
                let mut k: usize = lines.len();
                while k > 0 && lines[k - 1] > line
                    invariant
                        k <= lines@.len(),
                        forall|j: int| k <= j < lines@.len() ==> #[trigger] lines@[j] > line,
                    decreases k,
                {
                    k = k - 1;
                }
                proof {
                    lemma_with_line(lines@, line, k as int);
                }
                if !(k > 0 && lines[k - 1] == line) {
                    lines.insert(k, line);
                }
            },
            None => {},
        }
        i = i + 1;
    }
    proof {
        assert(all.take(all.len() as int) =~= all);
    }
    lines
}

/// The lines of a receipt are in order, each once, and are those on which edits
/// start.
pub proof fn law_lines_are_sorted(edits: Seq<JsonView>)
    ensures
        forall|i: int, j: int|
            0 <= i < j < start_lines(edits).len() ==> #[trigger] start_lines(edits)[i]
                < #[trigger] start_lines(edits)[j],
        forall|line: u64| #[trigger]
            start_lines(edits).contains(line) <==> exists|i: int|
                0 <= i < edits.len() && (#[trigger] edits[i]).field("range"@).field(
                    "start"@,
                ).field("line"@).unsigned() == Some(line),
    decreases edits.len(),
{
    if edits.len() > 0 {
        let rest = edits.drop_last();
        law_lines_are_sorted(rest);
        let here = edits.last().field("range"@).field("start"@).field("line"@).unsigned();
        match here {
            Some(line) => {
                lemma_with_line_sorted(start_lines(rest), line);
            },
            None => {},
        }
        assert forall|line: u64| #[trigger]
            start_lines(edits).contains(line) <==> exists|i: int|
                0 <= i < edits.len() && (#[trigger] edits[i]).field("range"@).field(
                    "start"@,
                ).field("line"@).unsigned() == Some(line) by {
            if start_lines(rest).contains(line) {
                let i = choose|i: int|
                    0 <= i < rest.len() && (#[trigger] rest[i]).field("range"@).field(
                        "start"@,
                    ).field("line"@).unsigned() == Some(line);
                assert(edits[i] == rest[i]);
            }
            if exists|i: int|
                0 <= i < edits.len() && (#[trigger] edits[i]).field("range"@).field(
                    "start"@,
                ).field("line"@).unsigned() == Some(line) {
                let i = choose|i: int|
                    0 <= i < edits.len() && (#[trigger] edits[i]).field("range"@).field(
                        "start"@,
                    ).field("line"@).unsigned() == Some(line);
                if i < rest.len() {
                    assert(rest[i] == edits[i]);
                }
            }
            if here == Some(line) {
                assert(edits[edits.len() - 1] == edits.last());
            }
        }
    }
}

proof fn lemma_with_line_sorted(lines: Seq<u64>, line: u64)
    requires
        forall|i: int, j: int|
            0 <= i < j < lines.len() ==> #[trigger] lines[i] < #[trigger] lines[j],
    ensures
        forall|i: int, j: int|
            0 <= i < j < with_line(lines, line).len() ==> #[trigger] with_line(lines, line)[i]
                < #[trigger] with_line(lines, line)[j],
        forall|n: u64| #[trigger]
            with_line(lines, line).contains(n) <==> lines.contains(n) || n == line,
    decreases lines.len(),
{
    let all = with_line(lines, line);
    if lines.len() == 0 || lines.last() < line {
        assert forall|n: u64| #[trigger] all.contains(n) <==> lines.contains(n) || n == line by {
            if lines.contains(n) {
                let i = choose|i: int| 0 <= i < lines.len() && lines[i] == n;
                assert(all[i] == n);
            }
            assert(all[lines.len() as int] == line);
        }
    } else if lines.last() == line {
        assert(lines[lines.len() - 1] == line);
    } else {
        let rest = lines.drop_last();
        let inner = with_line(rest, line);
        lemma_with_line_sorted(rest, line);
        assert(all =~= inner.push(lines.last()));
        assert forall|n: u64| #[trigger] all.contains(n) <==> lines.contains(n) || n == line by {
            if inner.contains(n) {
                let i = choose|i: int| 0 <= i < inner.len() && inner[i] == n;
                assert(all[i] == n);
            }
            assert(all[inner.len() as int] == lines.last());
            if all.contains(n) {
                let i = choose|i: int| 0 <= i < all.len() && all[i] == n;
                if i < inner.len() {
                    assert(inner[i] == n);
                    assert(inner.contains(n));
                    if rest.contains(n) {
                        let j = choose|j: int| 0 <= j < rest.len() && rest[j] == n;
                        assert(lines[j] == n);
                    }
                } else {
                    assert(lines[lines.len() - 1] == n);
                }
            }
            if lines.contains(n) {
                let j = choose|j: int| 0 <= j < lines.len() && lines[j] == n;
                if j < rest.len() {
                    assert(rest[j] == n);
                    assert(inner.contains(n));
                }
            }
            if n == line {
                assert(inner.contains(n));
            }
        }
        assert forall|i: int, j: int| 0 <= i < j < all.len() implies #[trigger] all[i]
            < #[trigger] all[j] by {
            if j == inner.len() {
                assert(inner.contains(inner[i]));
                if rest.contains(inner[i]) {
                    let m = choose|m: int| 0 <= m < rest.len() && rest[m] == inner[i];
                    assert(lines[m] < lines[lines.len() - 1]);
                }
            } else {
                assert(inner[i] < inner[j]);
            }
        }
    }
}

fn lines_json(lines: &Vec<u64>) -> (r: Json)
    ensures
        r@ == lines_view(lines@),
{
    let mut out: Vec<Json> = Vec::new();
    let mut i: usize = 0;
    while i < lines.len()
        invariant
            i <= lines@.len(),
            out@.len() == i,
            forall|j: int| 0 <= j < i ==> #[trigger] out@[j]@ == JsonView::Int(lines@[j] as int),
        decreases lines@.len() - i,
    {
        out.push(Json::number(lines[i]));
        i = i + 1;
    }
    proof {
        assert(views(out@) =~= lines@.map_values(|line: u64| JsonView::Int(line as int)));
    }
    Json::array(out)
}

fn make_edit_receipt(before: &str, edit: &Json) -> (r: Json)
    requires
        is_located(before@, edit@),
    ensures
        r@ == edit_receipt(before@, edit@),
{
    let range = edit.at("range");
    let replaced = match protocol::text_at(before, range.at("start"), range.at("end")) {
        Ok(Some(part)) => part,
        _ => String::new(),
    };
    Json::object().with("range", range.copy()).with("oldText", Json::text(replaced.as_str())).with(
        "newText",
        edit.at("newText").copy(),
    )
}

/// A path as it is shown: from the workspace's root on, if it lies in it.
pub fn show_path(path: &str, root: &str) -> (r: String)
    ensures
        r@ == shown_path(path@, root@),
{
    match path::strip_prefix(path, root) {
        Some(relative) => relative,
        None => path.to_owned(),
    }
}

fn make_file_receipt(file: &FileEdit, root: &str, verbose: bool) -> (r: Json)
    requires
        verbose ==> file.located(),
    ensures
        r@ == file_receipt(*file, root@, verbose),
{
    let lines = list_lines(&file.edits);
    let shown = show_path(file.path.as_str(), root);
    let short = Json::object().with("path", Json::text(shown.as_str())).with(
        "editCount",
        Json::number(file.edits.len() as u64),
    ).with("lines", lines_json(&lines));
    if !verbose {
        return short;
    }
    let mut out: Vec<Json> = Vec::new();
    let mut i: usize = 0;
    while i < file.edits.len()
        invariant
            file.located(),
            i <= file.edits@.len(),
            out@.len() == i,
            forall|j: int|
                0 <= j < i ==> #[trigger] out@[j]@ == edit_receipt(
                    file.before@,
                    file.edits@[j]@,
                ),
        decreases file.edits@.len() - i,
    {
        out.push(make_edit_receipt(file.before.as_str(), &file.edits[i]));
        i = i + 1;
    }
    proof {
        assert(views(out@) =~= views(file.edits@).map_values(
            |edit: JsonView| edit_receipt(file.before@, edit),
        ));
    }
    short.with("edits", Json::array(out))
}

impl PreparedEdit {
    /// Whether every edit names a range of its text, as a long receipt needs.
    pub fn is_located(&self) -> (r: bool)
        ensures
            r == forall|i: int|
                0 <= i < self.files@.len() ==> (#[trigger] self.files@[i]).located(),
    {
        let mut i: usize = 0;
        while i < self.files.len()
            invariant
                i <= self.files@.len(),
                forall|j: int| 0 <= j < i ==> (#[trigger] self.files@[j]).located(),
            decreases self.files@.len() - i,
        {
            let file = &self.files[i];
            let mut k: usize = 0;
            while k < file.edits.len()
                invariant
                    i < self.files@.len(),
                    *file == self.files@[i as int],
                    k <= file.edits@.len(),
                    forall|j: int|
                        0 <= j < k ==> is_located(file.before@, #[trigger] file.edits@[j]@),
                decreases file.edits@.len() - k,
            {
                let range = file.edits[k].at("range");
                match protocol::text_at(file.before.as_str(), range.at("start"), range.at("end")) {
                    Ok(Some(_)) => {},
                    _ => {
                        proof {
                            assert(!is_located(file.before@, file.edits@[k as int]@));
                        }
                        return false;
                    },
                }
                k = k + 1;
            }
            i = i + 1;
        }
        true
    }

    /// What is said of the edit: how many files and edits, and which lines;
    /// with the replaced texts if `verbose`.
    pub fn receipt(&self, root: &str, applied: bool, verbose: bool) -> (r: Json)
        requires
            verbose ==> forall|i: int|
                0 <= i < self.files@.len() ==> (#[trigger] self.files@[i]).located(),
        ensures
            r@ == receipt_view(self.files@, root@, applied, verbose),
    {
        let mut out: Vec<Json> = Vec::new();
        let mut count: u64 = 0;
        let mut i: usize = 0;
        proof {
            assert(self.files@.take(0) =~= Seq::<FileEdit>::empty());
        }
        while i < self.files.len()
            invariant
                verbose ==> forall|j: int|
                    0 <= j < self.files@.len() ==> (#[trigger] self.files@[j]).located(),
                i <= self.files@.len(),
                count == capped(edit_total(self.files@.take(i as int))),
                out@.len() == i,
                forall|j: int|
                    0 <= j < i ==> #[trigger] out@[j]@ == file_receipt(
                        self.files@[j],
                        root@,
                        verbose,
                    ),
            decreases self.files@.len() - i,
        {
            proof {
                assert(self.files@.take(i + 1).drop_last() =~= self.files@.take(i as int));
            }
            let edits: u64 = self.files[i].edits.len() as u64;
            count = if count > u64::MAX - edits {
                u64::MAX
            } else {
                count + edits
            };
            out.push(make_file_receipt(&self.files[i], root, verbose));
            i = i + 1;
        }
        proof {
            assert(self.files@.take(self.files@.len() as int) =~= self.files@);
            assert(views(out@) =~= self.files@.map_values(
                |file: FileEdit| file_receipt(file, root@, verbose),
            ));
        }
        Json::object().with("applied", Json::boolean(applied)).with(
            "fileCount",
            Json::number(self.files.len() as u64),
        ).with("editCount", Json::number(count)).with("files", Json::array(out))
    }
}

/// Edits that could be made name ranges of the text: a receipt can always be
/// given for them.
pub proof fn law_made_edits_are_located(file: FileEdit)
    requires
        file.holds(),
    ensures
        file.located(),
{
    let text = file.before@;
    let edits = views(file.edits@);
    let found = protocol::edits_at(text, edits)->Ok_0;
    protocol::law_in_order_sorts(found);
    assert forall|i: int| 0 <= i < file.edits@.len() implies is_located(
        text,
        #[trigger] file.edits@[i]@,
    ) by {
        lemma_edit_found(text, edits, i);
        assert(edits[i] == file.edits@[i]@);
        let ordered = protocol::in_order(found);
        assert(found.contains(found[i]));
        found.to_multiset_ensures();
        ordered.to_multiset_ensures();
        assert(ordered.to_multiset().count(found[i]) > 0);
        assert(ordered.contains(found[i]));
        let k = choose|k: int| 0 <= k < ordered.len() && ordered[k] == found[i];
        assert(ordered[k].start <= ordered[k].end);
    }
}

proof fn lemma_edit_found(text: Seq<char>, edits: Seq<JsonView>, i: int)
    requires
        protocol::edits_at(text, edits) is Ok,
        0 <= i < edits.len(),
    ensures
        protocol::edits_at(text, edits)->Ok_0.len() == edits.len(),
        protocol::edit_at(text, edits[i]) == Ok::<protocol::EditView, Fault>(
            protocol::edits_at(text, edits)->Ok_0[i],
        ),
    decreases edits.len(),
{
    let rest = edits.drop_last();
    if i < rest.len() {
        lemma_edit_found(text, rest, i);
        assert(rest[i] == edits[i]);
    } else if rest.len() > 0 {
        lemma_edit_found(text, rest, 0);
    }
}

// ---------------------------------------------------------------------------
// Preparing an edit
// ---------------------------------------------------------------------------
/// An open document, as far as an edit of it is concerned.
pub struct OpenText {
    pub text: String,
    pub version: i64,
}

/// Edits while they are being prepared, file by file.
pub struct Preparation {
    pub(crate) files: Vec<FileEdit>,
    pub(crate) bytes: usize,
}

/// What preparing the edit of one file needs to know.
pub struct Target {
    /// The resolved path.
    pub path: String,
    /// What the file holds on disk.
    pub disk: String,
    /// The open document, if there is one.
    pub document: Option<OpenText>,
}

/// The text that a server edited: the open document, or the file.
pub open spec fn edited_text(target: Target) -> Seq<char> {
    match target.document {
        Some(document) => document.text@,
        None => target.disk@,
    }
}

/// Whether the files so far have a path.
pub open spec fn has_path(files: Seq<FileEdit>, path: Seq<char>) -> bool {
    exists|i: int| 0 <= i < files.len() && (#[trigger] files[i]).path@ == path
}

/// Why a file's edit cannot be prepared; none if it can.
pub open spec fn preparation_fault(
    files: Seq<FileEdit>,
    bytes: nat,
    target: Target,
    group: DocumentEditsView,
    disk: Map<Seq<char>, u64>,
) -> Option<FailureView> {
    let before = edited_text(target);
    if has_path(files, target.path@) {
        Some(FailureView::plain(Fault::DuplicateAlias))
    } else if !(disk.contains_key(target.path@) && disk[target.path@] == fingerprint_of(
        vstd::utf8::encode_utf8(target.disk@),
    )) {
        Some(FailureView::at(Fault::StaleTarget, target.path@))
    } else if group.version is Some && !(target.document matches Some(document)
        && Some(document.version) == group.version) {
        Some(FailureView::plain(Fault::StaleVersion))
    } else {
        match protocol::edited(before, group.edits) {
            Err(fault) => Some(FailureView::plain(fault)),
            Ok(after) => if bytes + text::byte_len(target.disk@) + text::byte_len(before)
                + text::byte_len(after) > MAX_EDIT_BYTES {
                Some(FailureView::plain(Fault::EditTooLarge))
            } else {
                None
            },
        }
    }
}

impl Preparation {
    #[verifier::type_invariant]
    pub(crate) open(crate) spec fn bounded(self) -> bool {
        &&& self.bytes <= MAX_EDIT_BYTES
        &&& forall|i: int| 0 <= i < self.files@.len() ==> (#[trigger] self.files@[i]).holds()
    }

    /// The files so far.
    pub open(crate) spec fn prepared(self) -> Seq<FileEdit> {
        self.files@
    }

    /// The bytes read and written so far.
    pub open(crate) spec fn size(self) -> nat {
        self.bytes as nat
    }

    /// An edit without files.
    pub fn new() -> (r: Preparation)
        ensures
            r.prepared() == Seq::<FileEdit>::empty(),
            r.size() == 0,
    {
        Preparation { files: Vec::new(), bytes: 0 }
    }

    /// Whether a path is not among the files so far: two documents that are one
    /// file are not edited together.
    pub fn claim(&self, path: &str) -> (r: Result<(), Fault>)
        ensures
            match r {
                Ok(()) => !has_path(self.prepared(), path@),
                Err(fault) => has_path(self.prepared(), path@) && fault == Fault::DuplicateAlias,
            },
    {
        let mut i: usize = 0;
        while i < self.files.len()
            invariant
                i <= self.files@.len(),
                forall|j: int| 0 <= j < i ==> (#[trigger] self.files@[j]).path@ != path@,
            decreases self.files@.len() - i,
        {
            if text::same(self.files[i].path.as_str(), path) {
                return Err(Fault::DuplicateAlias);
            }
            i = i + 1;
        }
        Ok(())
    }

    /// Prepares the edit of one file: it must be as the snapshot saw it, and
    /// its edits must fit the text that the server edited.
    pub fn prepare(&mut self, target: Target, group: DocumentEdits, disk: &Table<u64>) -> (r: Result<
        (),
        Failure,
    >)
        ensures
            match r {
                Ok(()) => {
                    let before = edited_text(target);
                    let after = protocol::edited(before, group@.edits)->Ok_0;
                    &&& preparation_fault(
                        old(self).prepared(),
                        old(self).size(),
                        target,
                        group@,
                        disk@,
                    ) is None
                    &&& final(self).prepared().len() == old(self).prepared().len() + 1
                    &&& final(self).prepared().drop_last() == old(self).prepared()
                    &&& final(self).prepared().last().path@ == target.path@
                    &&& final(self).prepared().last().original_disk@ == target.disk@
                    &&& final(self).prepared().last().before@ == before
                    &&& final(self).prepared().last().after@ == after
                    &&& views(final(self).prepared().last().edits@) == group@.edits
                    &&& final(self).size() == old(self).size() + text::byte_len(target.disk@)
                        + text::byte_len(before) + text::byte_len(after)
                },
                Err(failure) => preparation_fault(
                    old(self).prepared(),
                    old(self).size(),
                    target,
                    group@,
                    disk@,
                ) == Some(failure@) && final(self).prepared() == old(self).prepared()
                    && final(self).size() == old(self).size(),
            },
    {
        proof {
            use_type_invariant(&*self);
        }
        match self.claim(target.path.as_str()) {
            Ok(()) => {},
            Err(fault) => {
                return Err(Failure::plain(fault));
            },
        }
        let hash: u64 = fingerprint(target.disk.as_str().as_bytes());
        let known: bool = match disk.get(target.path.as_str()) {
            Some(seen) => *seen == hash,
            None => false,
        };
        if !known {
            return Err(Failure::at(Fault::StaleTarget, target.path.as_str()));
        }
        let fitting: bool = match group.version {
            None => true,
            Some(version) => match &target.document {
                Some(document) => document.version == version,
                None => false,
            },
        };
        if !fitting {
            return Err(Failure::plain(Fault::StaleVersion));
        }
        let before = match &target.document {
            Some(document) => document.text.as_str().to_owned(),
            None => target.disk.as_str().to_owned(),
        };
        let after = match protocol::edit_text(before.as_str(), group.edits.as_slice()) {
            Ok(after) => after,
            Err(fault) => {
                return Err(Failure::plain(fault));
            },
        };
        let total: u128 = self.bytes as u128 + target.disk.as_str().as_bytes().len() as u128
            + before.as_str().as_bytes().len() as u128 + after.as_str().as_bytes().len() as u128;
        if total > MAX_EDIT_BYTES as u128 {
            return Err(Failure::plain(Fault::EditTooLarge));
        }
        let ghost earlier = self.files@;
        let mut files: Vec<FileEdit> = Vec::new();
        core::mem::swap(&mut files, &mut self.files);
        files.push(
            FileEdit {
                path: target.path,
                original_disk: target.disk,
                before,
                after,
                edits: group.edits,
            },
        );
        core::mem::swap(&mut files, &mut self.files);
        self.bytes = total as usize;
        proof {
            assert(self.files@.drop_last() =~= earlier);
        }
        Ok(())
    }

    /// The whole edit. Every file's edits hold, so that a receipt can be given.
    pub fn finish(self) -> (r: PreparedEdit)
        ensures
            r.files@ == self.prepared(),
            forall|i: int|
                0 <= i < r.files@.len() ==> (#[trigger] r.files@[i]).holds()
                    && r.files@[i].located(),
    {
        proof {
            use_type_invariant(&self);
            assert forall|i: int| 0 <= i < self.files@.len() implies (#[trigger] self.files@[i]).holds()
                && self.files@[i].located() by {
                law_made_edits_are_located(self.files@[i]);
            }
        }
        PreparedEdit { files: self.files }
    }
}

// ---------------------------------------------------------------------------
// Making an edit
// ---------------------------------------------------------------------------
/// How far the writing of an edit has come.
pub struct CommitView {
    pub total: nat,
    /// Files that were found unchanged and staged.
    pub staged: nat,
    /// Files that were found unchanged again, after all were staged.
    pub checked: nat,
    /// Files that were replaced.
    pub replaced: nat,
    pub failed: bool,
}

impl CommitView {
    /// Nothing is checked again before all is staged, and nothing replaced
    /// before all is checked.
    pub open spec fn in_turn(self) -> bool {
        &&& self.staged <= self.total
        &&& self.checked <= self.total
        &&& self.replaced <= self.total
        &&& self.checked > 0 ==> self.staged == self.total
        &&& self.replaced > 0 ==> self.checked == self.total && !self.failed
    }

    /// What is to be done next.
    pub open spec fn next(self) -> CommitAction {
        if self.failed {
            CommitAction::Stop
        } else if self.staged < self.total {
            CommitAction::Stage(self.staged as usize)
        } else if self.checked < self.total {
            CommitAction::Recheck(self.checked as usize)
        } else if self.replaced < self.total {
            CommitAction::Replace(self.replaced as usize)
        } else {
            CommitAction::Done
        }
    }

    /// What the contents of the file that is next say.
    pub open spec fn after_read(self, unchanged: bool) -> CommitView {
        if !unchanged {
            CommitView { failed: true, ..self }
        } else if self.staged < self.total {
            CommitView { staged: self.staged + 1, ..self }
        } else {
            CommitView { checked: self.checked + 1, ..self }
        }
    }
}

/// What is to be done next with a file, by its number.
#[derive(Clone, Copy, Debug, PartialEq, Eq, Structural)]
pub enum CommitAction {
    /// Read the file; if it is unchanged, write what it will hold beside it.
    Stage(usize),
    /// Read the file once more.
    Recheck(usize),
    /// Put what was written beside the file in its place.
    Replace(usize),
    Done,
    /// Take back what was written beside the files.
    Stop,
}

/// The writing of an edit. Every file is staged, then every file is checked
/// once more, and only then is the first one replaced.
pub struct Commit {
    pub(crate) total: usize,
    pub(crate) staged: usize,
    pub(crate) checked: usize,
    pub(crate) replaced: usize,
    pub(crate) failed: bool,
}

impl View for Commit {
    type V = CommitView;

    open(crate) spec fn view(&self) -> CommitView {
        CommitView {
            total: self.total as nat,
            staged: self.staged as nat,
            checked: self.checked as nat,
            replaced: self.replaced as nat,
            failed: self.failed,
        }
    }
}

impl Commit {
    #[verifier::type_invariant]
    pub(crate) open(crate) spec fn ordered(self) -> bool {
        self@.in_turn()
    }

    /// The writing of an edit, before anything was done.
    pub fn new(edit: &PreparedEdit) -> (r: Commit)
        ensures
            r@ == (CommitView {
                total: edit.files@.len(),
                staged: 0,
                checked: 0,
                replaced: 0,
                failed: false,
            }),
    {
        Commit { total: edit.files.len(), staged: 0, checked: 0, replaced: 0, failed: false }
    }

    /// What is to be done next.
    pub fn next(&self) -> (r: CommitAction)
        ensures
            r == self@.next(),
            self@.in_turn(),
    {
        proof {
            use_type_invariant(self);
        }
        if self.failed {
            CommitAction::Stop
        } else if self.staged < self.total {
            CommitAction::Stage(self.staged)
        } else if self.checked < self.total {
            CommitAction::Recheck(self.checked)
        } else if self.replaced < self.total {
            CommitAction::Replace(self.replaced)
        } else {
            CommitAction::Done
        }
    }

    /// Takes in what the file that is next holds. A changed file ends it all.
    pub fn read(&mut self, edit: &PreparedEdit, contents: &str) -> (r: Result<(), Failure>)
        requires
            old(self)@.total == edit.files@.len(),
            old(self)@.next() is Stage || old(self)@.next() is Recheck,
        ensures
            ({
                let staging = old(self)@.next() is Stage;
                let i = if staging {
                    old(self)@.staged as int
                } else {
                    old(self)@.checked as int
                };
                let file = edit.files@[i];
                let unchanged = contents@ == file.original_disk@;
                &&& final(self)@ == old(self)@.after_read(unchanged)
                &&& match r {
                    Ok(()) => unchanged,
                    Err(failure) => !unchanged && failure@ == FailureView::at(
                        if staging {
                            Fault::StaleFile
                        } else {
                            Fault::StaleDuringStaging
                        },
                        file.path@,
                    ),
                }
            }),
    {
        proof {
            use_type_invariant(&*self);
        }
        if self.staged < self.total {
            let file = &edit.files[self.staged];
            if !text::same(contents, file.original_disk.as_str()) {
                self.failed = true;
                return Err(Failure::at(Fault::StaleFile, file.path.as_str()));
            }
            self.staged = self.staged + 1;
        } else {
            let file = &edit.files[self.checked];
            if !text::same(contents, file.original_disk.as_str()) {
                self.failed = true;
                return Err(Failure::at(Fault::StaleDuringStaging, file.path.as_str()));
            }
            self.checked = self.checked + 1;
        }
        Ok(())
    }

    /// Notes that the file that is next was replaced.
    pub fn replaced(&mut self)
        requires
            old(self)@.next() is Replace,
        ensures
            final(self)@ == (CommitView { replaced: old(self)@.replaced + 1, ..old(self)@ }),
    {
        proof {
            use_type_invariant(&*self);
        }
        self.replaced = self.replaced + 1;
    }

    /// The paths of the files that were replaced.
    pub fn applied(&self, edit: &PreparedEdit) -> (r: Vec<String>)
        requires
            self@.total == edit.files@.len(),
        ensures
            text::texts_view(r@) == edit.files@.take(self@.replaced as int).map_values(
                |file: FileEdit| file.path@,
            ),
    {
        proof {
            use_type_invariant(self);
        }
        let mut out: Vec<String> = Vec::new();
        let mut i: usize = 0;
        while i < self.replaced
            invariant
                self.replaced <= edit.files@.len(),
                i <= self.replaced,
                out@.len() == i,
                forall|j: int| 0 <= j < i ==> #[trigger] out@[j]@ == edit.files@[j].path@,
            decreases self.replaced - i,
        {
            out.push(edit.files[i].path.as_str().to_owned());
            i = i + 1;
        }
        proof {
            assert(text::texts_view(out@) =~= edit.files@.take(self@.replaced as int).map_values(
                |file: FileEdit| file.path@,
            ));
        }
        out
    }
}

/// No file is replaced before every file was found unchanged twice: once when
/// it was staged, and once after all were staged.
pub proof fn law_replacement_comes_last(state: CommitView)
    requires
        state.next() is Replace,
        state.in_turn(),
    ensures
        state.staged == state.total,
        state.checked == state.total,
        !state.failed,
{
}

/// A changed file ends the writing before any file was replaced, and for good.
pub proof fn law_stale_edit_writes_nothing(state: CommitView, unchanged: bool)
    requires
        state.in_turn(),
        state.next() is Stage || state.next() is Recheck,
    ensures
        state.after_read(false).next() is Stop,
        state.after_read(false).replaced == 0,
        state.after_read(unchanged).in_turn(),
        state.after_read(unchanged).replaced == 0,
{
}

// ---------------------------------------------------------------------------
// Carrying an edit out
// ---------------------------------------------------------------------------
/// What carrying an edit out calls for next.
#[derive(Clone, Copy, Debug, PartialEq, Eq, Structural)]
pub enum ApplyAction {
    /// Take a snapshot and hand it to [`Applying::verify`].
    Verify,
    /// Write the files, then [`Applying::written`].
    Write,
    /// Tell the servers of the file of this number, then
    /// [`Applying::refreshed`].
    Refresh(usize),
    /// Give the receipt.
    Done,
    /// Nothing more is done.
    Stop,
}

/// How far carrying an edit out has come.
pub struct ApplyView {
    pub total: nat,
    /// Whether the workspace was found as the edit's snapshot saw it.
    pub verified: bool,
    pub written: bool,
    /// The files that the servers were told of.
    pub refreshed: nat,
    pub failed: bool,
}

impl ApplyView {
    /// Nothing is written before the snapshot is verified, and the servers are
    /// told of nothing before it is written.
    pub open spec fn in_turn(self) -> bool {
        &&& self.written ==> self.verified
        &&& self.refreshed > 0 ==> self.written
        &&& self.refreshed <= self.total
    }

    /// What is to be done next.
    pub open spec fn next(self) -> ApplyAction {
        if self.failed {
            ApplyAction::Stop
        } else if !self.verified {
            ApplyAction::Verify
        } else if !self.written {
            ApplyAction::Write
        } else if self.refreshed < self.total {
            ApplyAction::Refresh(self.refreshed as usize)
        } else {
            ApplyAction::Done
        }
    }

    /// After a snapshot was compared with the edit's own.
    pub open spec fn after_verify(
        self,
        current: SnapshotView,
        earlier: SnapshotView,
        running: bool,
    ) -> ApplyView {
        if current == earlier && running {
            ApplyView { verified: true, ..self }
        } else {
            ApplyView { failed: true, ..self }
        }
    }
}

/// The carrying out of an edit: verified, written, told to the servers.
pub struct Applying {
    pub(crate) total: usize,
    pub(crate) verified: bool,
    pub(crate) written: bool,
    pub(crate) refreshed: usize,
    pub(crate) failed: bool,
}

impl View for Applying {
    type V = ApplyView;

    open(crate) spec fn view(&self) -> ApplyView {
        ApplyView {
            total: self.total as nat,
            verified: self.verified,
            written: self.written,
            refreshed: self.refreshed as nat,
            failed: self.failed,
        }
    }
}

impl Applying {
    #[verifier::type_invariant]
    pub(crate) open(crate) spec fn ordered(self) -> bool {
        self@.in_turn()
    }

    /// Before anything was done.
    pub fn new(edit: &PreparedEdit) -> (r: Applying)
        ensures
            r@ == (ApplyView {
                total: edit.files@.len(),
                verified: false,
                written: false,
                refreshed: 0,
                failed: false,
            }),
    {
        Applying {
            total: edit.files.len(),
            verified: false,
            written: false,
            refreshed: 0,
            failed: false,
        }
    }

    /// What is to be done next.
    pub fn next(&self) -> (r: ApplyAction)
        ensures
            r == self@.next(),
            self@.in_turn(),
    {
        proof {
            use_type_invariant(self);
        }
        if self.failed {
            ApplyAction::Stop
        } else if !self.verified {
            ApplyAction::Verify
        } else if !self.written {
            ApplyAction::Write
        } else if self.refreshed < self.total {
            ApplyAction::Refresh(self.refreshed)
        } else {
            ApplyAction::Done
        }
    }

    /// Compares the workspace with what the edit's snapshot saw. `running`
    /// tells that the workspace has not been disconnected.
    pub fn verify(&mut self, current: &Snapshot, earlier: &Snapshot, running: bool) -> (r: Result<
        (),
        Fault,
    >)
        requires
            old(self)@.next() is Verify,
        ensures
            final(self)@ == old(self)@.after_verify(current@, earlier@, running),
            r == if current@ != earlier@ {
                Err(Fault::StaleSnapshot)
            } else if !running {
                Err(Fault::Stopped)
            } else {
                Ok(())
            },
    {
        proof {
            use_type_invariant(&*self);
        }
        if !current.same(earlier) {
            self.failed = true;
            return Err(Fault::StaleSnapshot);
        }
        if !running {
            self.failed = true;
            return Err(Fault::Stopped);
        }
        self.verified = true;
        Ok(())
    }

    /// Notes that the files were written.
    pub fn written(&mut self)
        requires
            old(self)@.next() is Write,
        ensures
            final(self)@ == (ApplyView { written: true, ..old(self)@ }),
    {
        proof {
            use_type_invariant(&*self);
        }
        self.written = true;
    }

    /// Notes that the servers were told of a file, or why they could not be:
    /// the files are written all the same.
    pub fn refreshed(&mut self, error: Option<&str>) -> (r: Result<(), Failure>)
        requires
            old(self)@.next() is Refresh,
        ensures
            match error {
                None => r is Ok && final(self)@ == (ApplyView {
                    refreshed: old(self)@.refreshed + 1,
                    ..old(self)@
                }),
                Some(error) => (r matches Err(failure) && failure@ == (FailureView {
                    fault: Fault::NotSynchronized,
                    detail: error@,
                })) && final(self)@ == (ApplyView { failed: true, ..old(self)@ }),
            },
    {
        proof {
            use_type_invariant(&*self);
        }
        match error {
            None => {
                self.refreshed = self.refreshed + 1;
                Ok(())
            },
            Some(error) => {
                self.failed = true;
                Err(Failure::of(Fault::NotSynchronized, error))
            },
        }
    }
}

/// An edit is written only in a workspace that is as the edit's snapshot saw
/// it: any difference ends it before the first write, for good.
pub proof fn law_stale_workspace_is_not_written(
    state: ApplyView,
    current: SnapshotView,
    earlier: SnapshotView,
    running: bool,
)
    requires
        state.in_turn(),
        state.next() is Verify,
        current != earlier || !running,
    ensures
        state.after_verify(current, earlier, running).next() is Stop,
        !state.after_verify(current, earlier, running).written,
{
}

/// What is about to be written has been verified.
pub proof fn law_writing_follows_verification(state: ApplyView)
    requires
        state.next() is Write,
    ensures
        state.verified,
        !state.written,
{
}

// ---------------------------------------------------------------------------
// What edits come to
// ---------------------------------------------------------------------------
/// After so many files were found unchanged.
pub open spec fn after_reads(state: CommitView, count: nat) -> CommitView
    decreases count,
{
    if count == 0 {
        state
    } else {
        after_reads(state, (count - 1) as nat).after_read(true)
    }
}

/// An edit of files that stay unchanged is written: each is staged, each is read
/// once more, each is replaced, in order, and then it is done.
pub proof fn law_unchanged_files_are_written(total: usize, count: nat)
    requires
        count <= 2 * total,
    ensures
        ({
            let start = CommitView {
                total: total as nat,
                staged: 0,
                checked: 0,
                replaced: 0,
                failed: false,
            };
            let state = after_reads(start, count);
            &&& count < total ==> state.next() == CommitAction::Stage(count as usize)
            &&& total <= count < 2 * total ==> state.next() == CommitAction::Recheck(
                (count - total) as usize,
            )
            &&& count == 2 * total ==> forall|replaced: usize|
                replaced <= total ==> (#[trigger] (CommitView {
                    replaced: replaced as nat,
                    ..state
                }).next()) == if replaced < total {
                    CommitAction::Replace(replaced)
                } else {
                    CommitAction::Done
                }
            &&& state.total == total && state.replaced == 0 && !state.failed
            &&& count <= total ==> state.staged == count && state.checked == 0
            &&& count >= total ==> state.staged == total && state.checked == count - total
        }),
    decreases count,
{
    if count > 0 {
        law_unchanged_files_are_written(total, (count - 1) as nat);
    }
}

/// An edit of a workspace that is as its snapshot saw it is written, the servers
/// are told of each file in order, and then it is done.
pub proof fn law_verified_edits_are_carried_out(
    total: usize,
    snapshot: SnapshotView,
    refreshed: usize,
)
    requires
        refreshed <= total,
    ensures
        ({
            let start = ApplyView {
                total: total as nat,
                verified: false,
                written: false,
                refreshed: 0,
                failed: false,
            };
            let verified = start.after_verify(snapshot, snapshot, true);
            let told = ApplyView { written: true, refreshed: refreshed as nat, ..verified };
            &&& start.next() is Verify
            &&& verified.next() is Write
            &&& told.next() == if refreshed < total {
                ApplyAction::Refresh(refreshed)
            } else {
                ApplyAction::Done
            }
        }),
{
}

/// A file's edit is prepared exactly if the file is not edited already, is on disk
/// as the snapshot saw it, has the version that the server edited, if that gave
/// one, and can be edited so without going over 16 MiB in all.
pub proof fn law_fresh_edits_are_prepared(
    files: Seq<FileEdit>,
    bytes: nat,
    target: Target,
    group: DocumentEditsView,
    disk: Map<Seq<char>, u64>,
)
    ensures
        preparation_fault(files, bytes, target, group, disk) is None <==> {
            let before = match target.document {
                Some(document) => document.text@,
                None => target.disk@,
            };
            &&& forall|i: int| 0 <= i < files.len() ==> (#[trigger] files[i]).path@ != target.path@
            &&& disk.contains_key(target.path@)
            &&& disk[target.path@] == fingerprint_of(vstd::utf8::encode_utf8(target.disk@))
            &&& group.version matches Some(version) ==> (target.document matches Some(document)
                && document.version == version)
            &&& protocol::edited(before, group.edits) is Ok
            &&& bytes + text::byte_len(target.disk@) + text::byte_len(before) + text::byte_len(
                protocol::edited(before, group.edits)->Ok_0,
            ) <= 16 * 1024 * 1024
        },
{
}

/// A receipt tells whether the edit was made, how many files it has, and of each
/// file its path, how many edits it has and on which lines they start; of each edit,
/// if that is asked for, its range, the text that it replaces and the new one.
pub proof fn law_receipts_tell_all(
    files: Seq<FileEdit>,
    root: Seq<char>,
    applied: bool,
    verbose: bool,
    i: int,
    k: int,
)
    requires
        0 <= i < files.len(),
        0 <= k < files[i].edits@.len(),
    ensures
        ({
            let told = receipt_view(files, root, applied, verbose);
            let file = told.field("files"@)->Array_0[i];
            let edit = files[i].edits@[k]@;
            let range = edit.field("range"@);
            &&& told.field("applied"@) == JsonView::Bool(applied)
            &&& told.field("fileCount"@) == JsonView::Int(files.len() as int)
            &&& told.field("files"@) is Array && told.field("files"@)->Array_0.len() == files.len()
            &&& edit_total(files) <= u64::MAX ==> told.field("editCount"@) == JsonView::Int(
                edit_total(files) as int,
            )
            &&& file.field("path"@) == JsonView::Text(shown_path(files[i].path@, root))
            &&& file.field("editCount"@) == JsonView::Int(files[i].edits@.len() as int)
            &&& file.field("lines"@) is Array && file.field("lines"@)->Array_0.len() == start_lines(
                views(files[i].edits@),
            ).len()
            &&& forall|n: int|
                0 <= n < start_lines(views(files[i].edits@)).len() ==> (#[trigger] file.field(
                    "lines"@,
                )->Array_0[n]) == JsonView::Int(start_lines(views(files[i].edits@))[n] as int)
            &&& verbose ==> file.field("edits"@) is Array && file.field("edits"@)->Array_0.len()
                == files[i].edits@.len() && ({
                let one = file.field("edits"@)->Array_0[k];
                let start = protocol::position_place(files[i].before@, range.field("start"@));
                let end = protocol::position_place(files[i].before@, range.field("end"@));
                &&& one.field("range"@) == range
                &&& one.field("newText"@) == edit.field("newText"@)
                &&& start is Ok && end is Ok ==> one.field("oldText"@) == JsonView::Text(
                    files[i].before@.subrange(start->Ok_0, end->Ok_0),
                )
            })
            &&& !verbose ==> !file.has("edits"@)
        }),
{
    reveal_strlit("applied");
    reveal_strlit("fileCount");
    reveal_strlit("editCount");
    reveal_strlit("files");
    reveal_strlit("path");
    reveal_strlit("lines");
    reveal_strlit("edits");
    reveal_strlit("range");
    reveal_strlit("oldText");
    reveal_strlit("newText");
    assert("applied"@.len() == 7);
    assert("fileCount"@.len() == 9);
    assert("editCount"@.len() == 9);
    assert("files"@.len() == 5);
    assert("path"@.len() == 4);
    assert("lines"@.len() == 5);
    assert("edits"@.len() == 5);
    assert("range"@.len() == 5);
    assert("oldText"@.len() == 7);
    assert("newText"@.len() == 7);
    assert("applied"@[0] == 'a');
    assert("oldText"@[0] == 'o');
    assert("newText"@[0] == 'n');
    assert("fileCount"@[0] == 'f');
    assert("editCount"@[0] == 'e');
    assert("files"@[0] == 'f');
    assert("lines"@[0] == 'l');
    assert("edits"@[0] == 'e');
    assert("range"@[0] == 'r');
    let told = receipt_view(files, root, applied, verbose);
    assert(told.field("files"@)->Array_0[i] == file_receipt(files[i], root, verbose));
    assert(views(files[i].edits@)[k] == files[i].edits@[k]@);
    assert(views(files[i].edits@).len() == files[i].edits@.len());
}

/// The edits of several files are counted together.
pub proof fn law_edits_are_counted(files: Seq<FileEdit>, more: FileEdit)
    ensures
        edit_total(Seq::empty()) == 0,
        edit_total(files.push(more)) == edit_total(files) + more.edits@.len(),
{
    assert(files.push(more).drop_last() =~= files);
}

/// A path in the workspace is shown from its root on; any other as it is.
pub proof fn law_paths_are_shown_from_the_root(path: Seq<char>, root: Seq<char>)
    ensures
        path::relative_to(path, root) matches Some(relative) ==> shown_path(path, root) == relative,
        path::relative_to(path, root) is None ==> shown_path(path, root) == path,
{
}

/// A snapshot looks into every directory but those of dependencies, build output
/// and version control, and measures every source and project file, but no link.
pub proof fn law_snapshots_see_sources(
    state: DiskView,
    path: Seq<char>,
    name: Option<Seq<char>>,
)
    ensures
        ({
            let skipped = name == Some(".git"@) || name == Some("node_modules"@) || name == Some(
                "target"@,
            ) || name == Some("dist"@) || name == Some(".next"@);
            let listed = state.found(path, name, EntryKind::Directory);
            &&& listed.1 is Nothing
            &&& skipped ==> listed.0 == state
            &&& !skipped ==> listed.0 == (DiskView { pending: state.pending.push(path), ..state })
        }),
        state.found(path, name, EntryKind::Other) == (state, EntryStep::Nothing),
        state.found(path, name, EntryKind::File).0 == state,
        path::extension_of(path) == Some("rs"@) || path::extension_of(path) == Some("ts"@)
            || path::extension_of(path) == Some("tsx"@) || path::extension_of(path) == Some("mts"@)
            || path::extension_of(path) == Some("cts"@) || path::extension_of(path) == Some("js"@)
            || path::extension_of(path) == Some("jsx"@) || path::extension_of(path) == Some("mjs"@)
            || path::extension_of(path) == Some("cjs"@) ==> state.found(
            path,
            name,
            EntryKind::File,
        ).1 is Measure,
        path::file_name_of(path) matches Some(file) && (file == "Cargo.toml"@ || file
            == "Cargo.lock"@ || file == "rust-toolchain.toml"@ || file == "config.toml"@ || file
            == "package.json"@ || file == "jsconfig.json"@ || file == "bun.lock"@ || file
            == "package-lock.json"@ || file == "pnpm-lock.yaml"@ || file == "yarn.lock"@
            || text::has_prefix(file, "tsconfig"@)) ==> state.found(
            path,
            name,
            EntryKind::File,
        ).1 is Measure,
{
    language::law_languages_by_extension(path);
}

/// A file is read for a snapshot exactly if it has at most 16 MiB, all files
/// together have at most 256 MiB, and there are fewer than 100,000 so far.
pub proof fn law_snapshots_are_bounded(state: DiskView, path: Seq<char>, size: u64)
    ensures
        state.refusal(path, size) is None <==> size <= 16 * 1024 * 1024 && state.bytes + size <= 256
            * 1024 * 1024 && state.files.dom().len() < 100_000,
{
}

} // verus!
