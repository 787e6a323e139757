use mcp_editor_lsp_bridge::fault::Fault;
use mcp_editor_lsp_bridge::json::Json;
use mcp_editor_lsp_bridge::protocol::position;
use mcp_editor_lsp_bridge::refactor::{
    fingerprint, relevant, skips_directory, text_edit_groups, ApplyAction, Applying, Commit,
    CommitAction, DiskSnapshot, EntryKind, EntryStep,
    DocumentEdits, DocumentStamp, FileEdit, OpenText, Preparation, PreparedEdit, Snapshot, Target,
    MAX_EDIT_BYTES,
};
use mcp_editor_lsp_bridge::table::Table;
use mcp_editor_lsp_bridge::wire;
use std::collections::hash_map::DefaultHasher;
use std::hash::{Hash, Hasher};

fn json(text: &str) -> Json {
    wire::parse(text.as_bytes()).expect("valid JSON")
}

fn edit(line: u64, from: u64, to: u64, text: &str) -> Json {
    Json::object()
        .with(
            "range",
            Json::object().with("start", position(line, from)).with("end", position(line, to)),
        )
        .with("newText", Json::text(text))
}

fn file(path: &str, disk: &str, before: &str, after: &str, edits: Vec<Json>) -> FileEdit {
    FileEdit {
        path: path.to_string(),
        original_disk: disk.to_string(),
        before: before.to_string(),
        after: after.to_string(),
        edits,
    }
}

/// Carries an edit out on files that are only texts, as a file system would;
/// the result tells which faults met it and what the files hold then.
fn carry_out(edit: &PreparedEdit, files: &mut Vec<String>, change: Option<usize>) -> Option<Fault> {
    let mut commit = Commit::new(edit);
    let mut staged: Vec<String> = Vec::new();
    loop {
        match commit.next() {
            CommitAction::Stage(i) => {
                if let Err(failure) = commit.read(edit, &files[i]) {
                    return Some(failure.fault);
                }
                staged.push(edit.files[i].after.clone());
                if staged.len() == edit.files.len() {
                    if let Some(changed) = change {
                        files[changed] = "meanwhile".to_string();
                    }
                }
            }
            CommitAction::Recheck(i) => {
                if let Err(failure) = commit.read(edit, &files[i]) {
                    assert_eq!(commit.next(), CommitAction::Stop);
                    assert!(commit.applied(edit).is_empty());
                    return Some(failure.fault);
                }
            }
            CommitAction::Replace(i) => {
                assert_eq!(staged.len(), edit.files.len());
                files[i] = staged[i].clone();
                commit.replaced();
                assert_eq!(commit.applied(edit).len(), i + 1);
            }
            CommitAction::Done => return None,
            CommitAction::Stop => panic!("stopped without a fault"),
        }
    }
}

#[test]
fn reject_resources_duplicates_and_stale_disk_before_writes() {
    assert!(text_edit_groups(&json(
        r#"{"documentChanges":[{"kind":"rename","oldUri":"a","newUri":"b"}]}"#
    ))
    .is_err());
    assert!(text_edit_groups(&json(
        r#"{"changes":{"a":[]},"documentChanges":[{"textDocument":{"uri":"a","version":1},"edits":[]}]}"#
    ))
    .is_err());
    let edit = PreparedEdit {
        files: vec![
            file("a.ts", "before", "before", "after", vec![]),
            file("b.ts", "before", "before", "after", vec![]),
        ],
    };
    let mut files = vec!["before".to_string(), "concurrent".to_string()];
    assert_eq!(carry_out(&edit, &mut files, None), Some(Fault::StaleFile));
    assert_eq!(files, vec!["before", "concurrent"]);
}

#[test]
fn edits_are_written_only_if_nothing_changed_meanwhile() {
    let edit = PreparedEdit {
        files: vec![file("a.ts", "one", "one", "1", vec![]), file("b.ts", "two", "two", "2", vec![])],
    };
    let mut files = vec!["one".to_string(), "two".to_string()];
    assert_eq!(carry_out(&edit, &mut files, Some(1)), Some(Fault::StaleDuringStaging));
    assert_eq!(files, vec!["one", "meanwhile"]);
    let mut files = vec!["one".to_string(), "two".to_string()];
    assert_eq!(carry_out(&edit, &mut files, None), None);
    assert_eq!(files, vec!["1", "2"]);
    let nothing = PreparedEdit { files: vec![] };
    assert_eq!(Commit::new(&nothing).next(), CommitAction::Done);
}

#[test]
fn edit_groups_are_refused_for_their_reasons() {
    let fault = |text: &str| text_edit_groups(&json(text)).err();
    assert_eq!(fault(r#"{"changes":[]}"#), Some(Fault::InvalidChanges));
    assert_eq!(fault(r#"{"changes":{"a":1}}"#), Some(Fault::InvalidEdits));
    assert_eq!(fault(r#"{"documentChanges":{}}"#), Some(Fault::InvalidDocumentChanges));
    assert_eq!(fault(r#"{"documentChanges":[{"kind":"create"}]}"#), Some(Fault::ResourceOperation));
    assert_eq!(fault(r#"{"documentChanges":[{}]}"#), Some(Fault::MissingDocumentUri));
    assert_eq!(
        fault(r#"{"documentChanges":[{"textDocument":{"uri":"a","version":"1"},"edits":[]}]}"#),
        Some(Fault::InvalidVersion)
    );
    assert_eq!(
        fault(r#"{"documentChanges":[{"textDocument":{"uri":"a"}}]}"#),
        Some(Fault::MissingEdits)
    );
    assert_eq!(
        fault(
            r#"{"documentChanges":[{"textDocument":{"uri":"a"},"edits":[]},{"textDocument":{"uri":"a"},"edits":[]}]}"#
        ),
        Some(Fault::DuplicateGroup)
    );
    assert_eq!(fault("{}"), Some(Fault::NoTextEdits));
    assert_eq!(fault("null"), Some(Fault::NoTextEdits));
    let groups = text_edit_groups(&json(
        r#"{"changes":{"b":[{"newText":"x"}]},"documentChanges":[{"textDocument":{"uri":"a","version":4},"edits":[]},{"textDocument":{"uri":"c","version":null},"edits":[]}]}"#,
    ))
    .unwrap();
    assert_eq!(groups.key_list(), vec!["a", "b", "c"]);
    assert_eq!(groups.get("a").unwrap().version, Some(4));
    assert_eq!(groups.get("b").unwrap().version, None);
    assert_eq!(groups.get("b").unwrap().edits.len(), 1);
    assert_eq!(groups.get("c").unwrap().version, None);
}

#[test]
fn receipts_list_files_and_lines() {
    let before = "fn greet() {}\ngreet();\n";
    let edit = PreparedEdit {
        files: vec![
            file(
                "/w/src/a.rs",
                before,
                before,
                "fn hello() {}\nhello();\n",
                vec![edit(1, 0, 5, "hello"), edit(0, 3, 8, "hello"), edit(1, 5, 5, "")],
            ),
            file("/other/b.rs", "", "", "", vec![]),
        ],
    };
    assert!(edit.is_located());
    let short = edit.receipt("/w", false, false);
    assert_eq!(
        short,
        json(
            r#"{"applied":false,"fileCount":2,"editCount":3,"files":[{"path":"src/a.rs","editCount":3,"lines":[0,1]},{"path":"/other/b.rs","editCount":0,"lines":[]}]}"#
        )
    );
    let long = edit.receipt("/w", true, true);
    assert_eq!(long.at("applied"), &Json::boolean(true));
    let first = long.at("files").item(0).at("edits").item(0);
    assert_eq!(first.at("oldText").as_str(), Some("greet"));
    assert_eq!(first.at("newText").as_str(), Some("hello"));
    assert_eq!(first.at("range").at("start"), &position(1, 0));
    let astray = PreparedEdit { files: vec![file("a", "", "", "", vec![json("{}")])] };
    assert!(!astray.is_located());
}

#[test]
fn fingerprints_are_those_of_the_standard_hasher() {
    for sample in ["", "a", "fn main() {}"] {
        let mut hasher = DefaultHasher::new();
        sample.as_bytes().hash(&mut hasher);
        assert_eq!(fingerprint(sample.as_bytes()), hasher.finish());
    }
    assert_ne!(fingerprint(b"a"), fingerprint(b"b"));
}

#[test]
fn snapshots_differ_when_anything_does() {
    let snapshot = |instance: &str, hash: u64, version: i64| {
        let mut disk: Table<u64> = Table::new();
        disk.insert("/w/a.rs", hash);
        let mut documents: Table<DocumentStamp> = Table::new();
        documents.insert("file:///w/a.rs", DocumentStamp { hash: 1, version, epoch: 0 });
        Snapshot { instance: instance.to_string(), disk, documents }
    };
    assert!(snapshot("i", 1, 1).same(&snapshot("i", 1, 1)));
    assert!(!snapshot("i", 1, 1).same(&snapshot("j", 1, 1)));
    assert!(!snapshot("i", 1, 1).same(&snapshot("i", 2, 1)));
    assert!(!snapshot("i", 1, 1).same(&snapshot("i", 1, 2)));
    let mut more = snapshot("i", 1, 1);
    more.disk.insert("/w/b.rs", 1);
    assert!(!snapshot("i", 1, 1).same(&more) && !more.same(&snapshot("i", 1, 1)));
}

#[test]
fn only_files_that_matter_are_in_a_snapshot() {
    for name in ["/w/a.rs", "/w/Cargo.toml", "/w/tsconfig.base.json", "tsconfigs", "yarn.lock"] {
        assert!(relevant(name), "{name}");
    }
    for name in ["/w/README.md", "/w/xtsconfig.json", "/w/Makefile", "/"] {
        assert!(!relevant(name), "{name}");
    }
    assert!(skips_directory("node_modules") && skips_directory(".git") && !skips_directory("src"));
    let mut disk = DiskSnapshot::new("/w");
    assert_eq!(disk.next_directory().as_deref(), Some("/w"));
    let found = |disk: &mut DiskSnapshot, name: &str, kind| {
        disk.found(&format!("/w/{name}"), Some(name), kind)
    };
    assert_eq!(found(&mut disk, "src", EntryKind::Directory), EntryStep::Nothing);
    assert_eq!(found(&mut disk, "lib", EntryKind::Directory), EntryStep::Nothing);
    assert_eq!(found(&mut disk, "target", EntryKind::Directory), EntryStep::Nothing);
    assert_eq!(found(&mut disk, "a.rs", EntryKind::File), EntryStep::Measure);
    assert_eq!(found(&mut disk, "a.rs", EntryKind::Other), EntryStep::Nothing);
    assert_eq!(found(&mut disk, "a.md", EntryKind::File), EntryStep::Nothing);
    assert_eq!(disk.next_directory().as_deref(), Some("/w/lib"));
    assert_eq!(disk.next_directory().as_deref(), Some("/w/src"));
    assert_eq!(disk.next_directory(), None);
    assert!(disk.reserve("/w/a.rs", 5).is_ok());
    disk.record("/w/a.rs", b"hello");
    let large = disk.reserve("/w/b.rs", MAX_EDIT_BYTES as u64 + 1).unwrap_err();
    assert_eq!(large.message(), "Refactor snapshot file too large: /w/b.rs");
    for _ in 0..15 {
        assert!(disk.reserve("/w/c.rs", MAX_EDIT_BYTES as u64).is_ok());
    }
    assert_eq!(
        disk.reserve("/w/d.rs", MAX_EDIT_BYTES as u64).unwrap_err().fault,
        Fault::SnapshotLimit
    );
    let files = disk.finish();
    assert_eq!(files.get("/w/a.rs"), Some(&fingerprint(b"hello")));
}

#[test]
fn edits_are_prepared_against_the_snapshot() {
    let mut disk: Table<u64> = Table::new();
    disk.insert("/w/a.rs", fingerprint(b"old"));
    let target = |text: &str, version: Option<i64>| Target {
        path: "/w/a.rs".to_string(),
        disk: text.to_string(),
        document: version.map(|version| OpenText { text: "buffer".to_string(), version }),
    };
    let group = |version: Option<i64>, to: u64| DocumentEdits {
        version,
        edits: vec![edit(0, 0, to, "new")],
    };
    let fault = |target: Target, group: DocumentEdits| {
        Preparation::new().prepare(target, group, &disk).unwrap_err().fault
    };
    assert_eq!(fault(target("other", None), group(None, 3)), Fault::StaleTarget);
    assert_eq!(fault(target("old", None), group(Some(1), 3)), Fault::StaleVersion);
    assert_eq!(fault(target("old", Some(2)), group(Some(1), 3)), Fault::StaleVersion);
    assert_eq!(fault(target("old", None), group(None, 9)), Fault::CharacterOutOfRange);
    let mut unknown = target("old", None);
    unknown.path = "/w/z.rs".to_string();
    let failure = Preparation::new().prepare(unknown, group(None, 3), &disk).unwrap_err();
    assert_eq!(
        failure.message(),
        "Stale or unsupported refactor target: /w/z.rs; no edits applied"
    );
    let mut all = Preparation::new();
    assert!(all.claim("/w/a.rs").is_ok());
    assert!(all.prepare(target("old", Some(2)), group(Some(2), 6), &disk).is_ok());
    assert_eq!(all.claim("/w/a.rs"), Err(Fault::DuplicateAlias));
    assert_eq!(
        all.prepare(target("old", None), group(None, 3), &disk).unwrap_err().fault,
        Fault::DuplicateAlias
    );
    let prepared = all.finish();
    assert_eq!(prepared.files.len(), 1);
    assert_eq!(prepared.files[0].before, "buffer");
    assert_eq!(prepared.files[0].after, "new");
    assert_eq!(prepared.files[0].original_disk, "old");
    let huge = "x".repeat(MAX_EDIT_BYTES / 2);
    disk.insert("/w/huge.rs", fingerprint(huge.as_bytes()));
    let target = Target { path: "/w/huge.rs".to_string(), disk: huge, document: None };
    assert_eq!(
        Preparation::new().prepare(target, group(None, 3), &disk).unwrap_err().fault,
        Fault::EditTooLarge
    );
}

#[test]
fn stale_workspaces_are_not_written() {
    let snapshot = |instance: &str| Snapshot {
        instance: instance.to_string(),
        disk: Table::new(),
        documents: Table::new(),
    };
    let edit = PreparedEdit { files: vec![file("a.ts", "one", "one", "1", vec![])] };
    let mut stale = Applying::new(&edit);
    assert_eq!(stale.next(), ApplyAction::Verify);
    assert_eq!(stale.verify(&snapshot("a"), &snapshot("b"), true), Err(Fault::StaleSnapshot));
    assert_eq!(stale.next(), ApplyAction::Stop);
    let mut gone = Applying::new(&edit);
    assert_eq!(gone.verify(&snapshot("a"), &snapshot("a"), false), Err(Fault::Stopped));
    assert_eq!(gone.next(), ApplyAction::Stop);
    let mut good = Applying::new(&edit);
    assert!(good.verify(&snapshot("a"), &snapshot("a"), true).is_ok());
    assert_eq!(good.next(), ApplyAction::Write);
    good.written();
    assert_eq!(good.next(), ApplyAction::Refresh(0));
    assert!(good.refreshed(None).is_ok());
    assert_eq!(good.next(), ApplyAction::Done);
    let mut lost = Applying::new(&edit);
    assert!(lost.verify(&snapshot("a"), &snapshot("a"), true).is_ok());
    lost.written();
    assert_eq!(
        lost.refreshed(Some("broken pipe")).unwrap_err().message(),
        "Edits applied but analyzer synchronization failed: broken pipe. Inspect disk; do not blindly retry"
    );
    assert_eq!(lost.next(), ApplyAction::Stop);
}
