//! Checks of the saved files, and what is said of a workspace's state.

use crate::documents::{changed_file, file_change, watched_message, watched_view};
use crate::fault::{Failure, FailureView, Fault};
use crate::json::{views, Json, JsonView};
use crate::order;
use crate::path;
use crate::refactor::{fingerprint, fingerprint_of, DocumentStamp, OpenText, Snapshot, SnapshotView};
use crate::table::{among, lemma_among_all, lemma_among_next, Table};
use crate::text;
use crate::uri;
use crate::wire;
use crate::workspace::{CheckView, Config, DocumentView, Workspace, WorkspaceView};
use vstd::prelude::*;
use vstd::utf8::encode_utf8;

verus! {

// ---------------------------------------------------------------------------
// Running checks
// ---------------------------------------------------------------------------
/// What a check came to: whether it passed and what it found, or why it could
/// not be made.
pub type CheckResult = Result<(bool, Vec<Json>), Failure>;

/// Whether the files as they are have been checked.
pub open spec fn is_checked(state: WorkspaceView) -> bool {
    state.check.generation == Some(state.generation) && state.check.success is Some
}

/// The check after it came to an end. One that could not be made leaves what it
/// found before, but neither success nor the state that it was of.
pub open spec fn check_ended(
    check: CheckView,
    generation: u64,
    result: Result<(bool, Seq<JsonView>), Seq<char>>,
) -> CheckView {
    match result {
        Ok((success, diagnostics)) => CheckView {
            running: false,
            generation: Some(generation),
            success: Some(success),
            diagnostics,
            ..check
        },
        Err(error) => CheckView {
            running: false,
            generation: None,
            success: None,
            error: Some(error),
            ..check
        },
    }
}

impl Workspace {
    /// Begins a check, unless the files as they are have been checked. The
    /// result is the state that is checked.
    pub fn begin_check(&mut self) -> (r: Option<u64>)
        ensures
            match r {
                None => is_checked(old(self)@) && final(self)@ == old(self)@,
                Some(generation) => !is_checked(old(self)@) && generation == old(self)@.generation
                    && final(self)@ == (WorkspaceView {
                    check: CheckView { running: true, error: None, ..old(self)@.check },
                    ..old(self)@
                }),
            },
    {
        let current: bool = match self.check.generation {
            Some(generation) => generation == self.generation,
            None => false,
        };
        if current && self.check.success.is_some() {
            return None;
        }
        self.check.running = true;
        self.check.error = None;
        proof {
            assert(self@ =~= (WorkspaceView {
                check: CheckView { running: true, error: None, ..old(self)@.check },
                ..old(self)@
            }));
        }
        Some(self.generation)
    }

    /// Ends a check.
    pub fn finish_check(&mut self, generation: u64, result: Result<(bool, Vec<Json>), String>)
        ensures
            final(self)@ == (WorkspaceView {
                check: check_ended(
                    old(self)@.check,
                    generation,
                    match result {
                        Ok((success, diagnostics)) => Ok((success, views(diagnostics@))),
                        Err(error) => Err(error@),
                    },
                ),
                ..old(self)@
            }),
    {
        self.check.running = false;
        match result {
            Ok((success, diagnostics)) => {
                self.check.generation = Some(generation);
                self.check.success = Some(success);
                self.check.diagnostics = diagnostics;
            },
            Err(error) => {
                self.check.generation = None;
                self.check.success = None;
                self.check.error = Some(error);
            },
        }
        proof {
            assert(self@ =~= (WorkspaceView {
                check: check_ended(
                    old(self)@.check,
                    generation,
                    match result {
                        Ok((success, diagnostics)) => Ok((success, views(diagnostics@))),
                        Err(error) => Err(error@),
                    },
                ),
                ..old(self)@
            }));
        }
    }

    /// Whether a check that was put off is still to be made: nothing changed
    /// since.
    pub fn check_due(&self, generation: u64) -> (r: bool)
        ensures
            r == (self@.generation == generation),
    {
        self.generation == generation
    }

    /// Whether the last check was of the files as they are now.
    pub fn check_fresh(&self) -> (r: bool)
        ensures
            r == self@.check_fresh(),
    {
        let current: bool = match self.check.generation {
            Some(generation) => generation == self.generation,
            None => false,
        };
        current && !self.check.running && self.watcher_error.is_none()
    }
}

/// A check that could not be made never reads like one that passed.
pub proof fn law_failed_check_is_unknown(state: WorkspaceView, generation: u64, error: Seq<char>)
    ensures
        ({
            let after = WorkspaceView {
                check: check_ended(state.check, generation, Err(error)),
                ..state
            };
            &&& after.check.success is None
            &&& after.check.error == Some(error)
            &&& !after.check_fresh()
            &&& !is_checked(after)
        }),
{
}

/// A change after a check began makes its result out of date.
pub proof fn law_changes_outdate_checks(
    state: WorkspaceView,
    generation: u64,
    success: bool,
    diagnostics: Seq<JsonView>,
)
    requires
        generation != state.generation,
    ensures
        ({
            let after = WorkspaceView {
                check: check_ended(state.check, generation, Ok((success, diagnostics))),
                ..state
            };
            !after.check_fresh() && !is_checked(after)
        }),
{
}

/// The arguments of a check of the Rust code.
pub open spec fn cargo_view(config: Config) -> Seq<Seq<char>> {
    let base = seq!["check"@, "--workspace"@, "--all-targets"@, "--message-format=json"@];
    let features = if config.all_features {
        base.push("--all-features"@)
    } else if config.cargo_features@.len() > 0 {
        base.push("--features"@).push(
            text::join_with(text::texts_view(config.cargo_features@), ","@),
        )
    } else {
        base
    };
    let defaults = if config.no_default_features {
        features.push("--no-default-features"@)
    } else {
        features
    };
    match config.cargo_target {
        Some(target) => defaults.push("--target"@).push(target@),
        None => defaults,
    }
}

fn push_text(out: &mut Vec<String>, more: &str)
    ensures
        text::texts_view(final(out)@) == text::texts_view(old(out)@).push(more@),
{
    out.push(more.to_owned());
    proof {
        assert(text::texts_view(out@) =~= text::texts_view(old(out)@).push(more@));
    }
}

/// The arguments of a check of the Rust code.
pub fn cargo_arguments(config: &Config) -> (r: Vec<String>)
    ensures
        text::texts_view(r@) == cargo_view(*config),
{
    let mut out: Vec<String> = Vec::new();
    push_text(&mut out, "check");
    push_text(&mut out, "--workspace");
    push_text(&mut out, "--all-targets");
    push_text(&mut out, "--message-format=json");
    proof {
        assert(text::texts_view(out@) =~= seq![
            "check"@,
            "--workspace"@,
            "--all-targets"@,
            "--message-format=json"@,
        ]);
    }
    if config.all_features {
        push_text(&mut out, "--all-features");
    } else if config.cargo_features.len() > 0 {
        let features = text::join(&config.cargo_features, ",");
        push_text(&mut out, "--features");
        push_text(&mut out, features.as_str());
    }
    if config.no_default_features {
        push_text(&mut out, "--no-default-features");
    }
    match &config.cargo_target {
        Some(target) => {
            push_text(&mut out, "--target");
            push_text(&mut out, target.as_str());
        },
        None => {},
    }
    out
}

/// What a line of the compiler's output tells, if it is a message.
pub open spec fn message_in(line: Option<JsonView>) -> Option<JsonView> {
    match line {
        Some(value) => if value.field("reason"@) == JsonView::Text("compiler-message"@) {
            Some(value.field("message"@))
        } else {
            None
        },
        None => None,
    }
}

/// What a line of the compiler's output tells, if it is a message.
pub fn compiler_message(line: Option<Json>) -> (r: Option<Json>)
    ensures
        match r {
            Some(message) => message_in(
                match line {
                    Some(value) => Some(value@),
                    None => None,
                },
            ) == Some(message@),
            None => message_in(
                match line {
                    Some(value) => Some(value@),
                    None => None,
                },
            ) is None,
        },
{
    match line {
        Some(value) => if value.at("reason").is_str("compiler-message") {
            Some(value.at("message").copy())
        } else {
            None
        },
        None => None,
    }
}

/// The messages in the compiler's output, in order.
pub open spec fn messages_in(lines: Seq<Seq<char>>) -> Seq<JsonView>
    decreases lines.len(),
{
    if lines.len() == 0 {
        Seq::empty()
    } else {
        let earlier = messages_in(lines.drop_last());
        match message_in(wire::json_read(encode_utf8(lines.last()))) {
            Some(message) => earlier.push(message),
            None => earlier,
        }
    }
}

/// The messages in the compiler's output, in order. Lines that are not JSON, or
/// not messages, are passed over.
pub fn compiler_messages(lines: &Vec<String>) -> (r: Vec<Json>)
    ensures
        views(r@) == messages_in(text::texts_view(lines@)),
{
    let ghost all = text::texts_view(lines@);
    let mut out: Vec<Json> = Vec::new();
    let mut i: usize = 0;
    proof {
        assert(all.take(0) =~= Seq::<Seq<char>>::empty());
        assert(views(out@) =~= Seq::<JsonView>::empty());
    }
    while i < lines.len()
        invariant
            all == text::texts_view(lines@),
            i <= lines@.len(),
            views(out@) == messages_in(all.take(i as int)),
        decreases lines@.len() - i,
    {
        proof {
            assert(all.take(i + 1).drop_last() =~= all.take(i as int));
            assert(all.take(i + 1).last() == lines@[i as int]@);
        }
        let ghost before = views(out@);
        match compiler_message(wire::parse(lines[i].as_str().as_bytes())) {
            Some(message) => {
                let ghost told = message@;
                out.push(message);
                proof {
                    assert(views(out@) =~= before.push(told));
                }
            },
            None => {},
        }
        i = i + 1;
    }
    proof {
        assert(all.take(all.len() as int) =~= all);
    }
    out
}

/// Every message of the compiler is kept, whatever it holds, and in order: a line
/// that is JSON with the reason of a message adds its message to those of the
/// lines before it, and any other line adds nothing.
pub proof fn law_compiler_messages_are_kept(lines: Seq<Seq<char>>, line: Seq<char>)
    ensures
        messages_in(Seq::empty()) == Seq::<JsonView>::empty(),
        wire::json_read(encode_utf8(line)) matches Some(value) && value.field("reason"@)
            == JsonView::Text("compiler-message"@) ==> messages_in(lines.push(line)) == messages_in(
            lines,
        ).push(wire::json_read(encode_utf8(line))->0.field("message"@)),
        !(wire::json_read(encode_utf8(line)) matches Some(value) && value.field("reason"@)
            == JsonView::Text("compiler-message"@)) ==> messages_in(lines.push(line))
            == messages_in(lines),
{
    assert(lines.push(line).drop_last() =~= lines);
}

/// The output of the compiler may be read in pieces.
pub proof fn law_compiler_output_may_be_split(lines: Seq<Seq<char>>, more: Seq<Seq<char>>)
    ensures
        messages_in(lines + more) == messages_in(lines) + messages_in(more),
    decreases more.len(),
{
    if more.len() == 0 {
        assert(lines + more =~= lines);
        assert(messages_in(lines) + messages_in(more) =~= messages_in(lines));
    } else {
        law_compiler_output_may_be_split(lines, more.drop_last());
        assert((lines + more).drop_last() =~= lines + more.drop_last());
        assert(messages_in(lines + more) =~= messages_in(lines) + messages_in(more));
    }
}

/// What a check of the Rust code came to. One that failed without a message
/// could not be made.
pub fn rust_result(success: bool, diagnostics: Vec<Json>, stderr: &str) -> (r: CheckResult)
    ensures
        match r {
            Ok((passed, found)) => (success || diagnostics@.len() > 0) && passed == success
                && found == diagnostics,
            Err(failure) => !success && diagnostics@.len() == 0 && failure@ == (FailureView {
                fault: Fault::CargoCheckFailed,
                detail: stderr@,
            }),
        },
{
    if !success && diagnostics.len() == 0 {
        return Err(Failure::of(Fault::CargoCheckFailed, stderr));
    }
    Ok((success, diagnostics))
}

/// The project file that a check of the TypeScript code reads.
pub fn typescript_project(tsconfig: bool, jsconfig: bool) -> (r: Result<&'static str, Fault>)
    ensures
        match r {
            Ok(name) => (tsconfig || jsconfig) && name@ == if tsconfig {
                "tsconfig.json"@
            } else {
                "jsconfig.json"@
            },
            Err(fault) => !tsconfig && !jsconfig && fault == Fault::NoTypeScriptProject,
        },
{
    if tsconfig {
        Ok("tsconfig.json")
    } else if jsconfig {
        Ok("jsconfig.json")
    } else {
        Err(Fault::NoTypeScriptProject)
    }
}

/// The arguments of a check of the TypeScript code.
pub fn typescript_arguments(project: &str) -> (r: Vec<String>)
    ensures
        text::texts_view(r@) == seq!["--noEmit"@, "--pretty"@, "false"@, "--project"@, project@],
{
    let mut out: Vec<String> = Vec::new();
    push_text(&mut out, "--noEmit");
    push_text(&mut out, "--pretty");
    push_text(&mut out, "false");
    push_text(&mut out, "--project");
    push_text(&mut out, project);
    proof {
        assert(text::texts_view(out@) =~= seq![
            "--noEmit"@,
            "--pretty"@,
            "false"@,
            "--project"@,
            project@,
        ]);
    }
    out
}

/// A line of the TypeScript compiler's output as a diagnostic.
pub open spec fn line_diagnostic(line: Seq<char>) -> JsonView {
    JsonView::object().with("source"@, JsonView::Text("typescript"@)).with(
        "message"@,
        JsonView::Text(line),
    ).with("rendered"@, JsonView::Text(line))
}

/// The diagnostics in lines of output: those that are not blank.
pub open spec fn line_diagnostics(lines: Seq<Seq<char>>) -> Seq<JsonView>
    decreases lines.len(),
{
    if lines.len() == 0 {
        Seq::empty()
    } else {
        let earlier = line_diagnostics(lines.drop_last());
        if text::trimmed(lines.last()).len() == 0 {
            earlier
        } else {
            earlier.push(line_diagnostic(lines.last()))
        }
    }
}

/// What a check of the TypeScript code came to. One that failed without a word
/// could not be made.
pub fn typescript_result(success: bool, status: &str, stdout: &str, stderr: &str) -> (r:
    CheckResult)
    ensures
        ({
            let output = stdout@ + stderr@;
            let silent = text::trimmed(output).len() == 0;
            match r {
                Ok((passed, found)) => (success || !silent) && passed == success && views(found@)
                    == line_diagnostics(text::lines_of(output)),
                Err(failure) => !success && silent && failure@ == (FailureView {
                    fault: Fault::SilentTypeScript,
                    detail: status@,
                }),
            }
        }),
{
    let output = text::joined(stdout, stderr);
    if !success && text::is_all_blank(output.as_str()) {
        return Err(Failure::of(Fault::SilentTypeScript, status));
    }
    let lines = text::lines(output.as_str());
    let ghost all = text::texts_view(lines@);
    let mut out: Vec<Json> = Vec::new();
    let mut i: usize = 0;
    proof {
        assert(all.take(0) =~= Seq::<Seq<char>>::empty());
        assert(views(out@) =~= Seq::<JsonView>::empty());
    }
    while i < lines.len()
        invariant
            all == text::texts_view(lines@),
            i <= lines@.len(),
            views(out@) == line_diagnostics(all.take(i as int)),
        decreases lines@.len() - i,
    {
        proof {
            assert(all.take(i + 1).drop_last() =~= all.take(i as int));
            assert(all.take(i + 1).last() == lines@[i as int]@);
        }
        let ghost before = views(out@);
        let line = lines[i].as_str();
        if !text::is_all_blank(line) {
            out.push(
                Json::object().with("source", Json::text("typescript")).with(
                    "message",
                    Json::text(line),
                ).with("rendered", Json::text(line)),
            );
            proof {
                assert(views(out@) =~= before.push(line_diagnostic(line@)));
            }
        }
        i = i + 1;
    }
    proof {
        assert(all.take(all.len() as int) =~= all);
    }
    Ok((success, out))
}

/// Two checks as one: it passed if both did, and found what both found.
fn both_results(first: (bool, Vec<Json>), second: (bool, Vec<Json>)) -> (r: (bool, Vec<Json>))
    ensures
        r.0 == (first.0 && second.0),
        r.1@ == first.1@ + second.1@,
{
    let (passed, found) = first;
    let (also_passed, also_found) = second;
    let mut all = found;
    let mut more = also_found;
    all.append(&mut more);
    (passed && also_passed, all)
}

/// What a check comes to, from those of the languages that were checked, if
/// any: it passed if all of them did, and found what they found, in order.
pub fn combined(rust: Option<(bool, Vec<Json>)>, script: Option<(bool, Vec<Json>)>) -> (r: (
    bool,
    Vec<Json>,
))
    ensures
        r.0 == ((rust matches Some(first) ==> first.0) && (script matches Some(second)
            ==> second.0)),
        r.1@ == (match rust {
            Some(first) => first.1@,
            None => Seq::empty(),
        }) + match script {
            Some(second) => second.1@,
            None => Seq::empty(),
        },
{
    let first = match rust {
        Some(first) => first,
        None => (true, Vec::new()),
    };
    match script {
        Some(second) => both_results(first, second),
        None => {
            proof {
                assert(first.1@ + Seq::<Json>::empty() =~= first.1@);
            }
            first
        },
    }
}

// ---------------------------------------------------------------------------
// Snapshots
// ---------------------------------------------------------------------------
/// What the open documents are.
pub open spec fn stamps(documents: Map<Seq<char>, DocumentView>) -> Map<Seq<char>, DocumentStamp> {
    Map::new(
        |uri: Seq<char>| documents.contains_key(uri),
        |uri: Seq<char>|
            DocumentStamp {
                hash: fingerprint_of(encode_utf8(documents[uri].text)),
                version: documents[uri].version,
                epoch: documents[uri].epoch,
            },
    )
}

/// What the workspace is, with the given files.
pub open spec fn snapshot_view(state: WorkspaceView, disk: Map<Seq<char>, u64>) -> SnapshotView {
    SnapshotView { instance: state.instance, disk, documents: stamps(state.documents) }
}

/// Whether a file is not as it was.
pub open spec fn differs(table: Map<Seq<char>, u64>, path: Seq<char>, hash: u64) -> bool {
    !(table.contains_key(path) && table[path] == hash)
}

/// The files, among the first of those there are, that are new or changed.
pub open spec fn changed_files(disk: Table<u64>, known: Map<Seq<char>, u64>, n: nat) -> Seq<
    Seq<char>,
>
    decreases n,
{
    if n == 0 {
        Seq::empty()
    } else {
        let earlier = changed_files(disk, known, (n - 1) as nat);
        let path = disk.key(n - 1);
        if differs(known, path, disk.value(n - 1)) {
            earlier.push(path)
        } else {
            earlier
        }
    }
}

/// The files, among the first of those there were, that are gone.
pub open spec fn gone_files(known: Table<u64>, disk: Map<Seq<char>, u64>, n: nat) -> Seq<Seq<char>>
    decreases n,
{
    if n == 0 {
        Seq::empty()
    } else {
        let earlier = gone_files(known, disk, (n - 1) as nat);
        let path = known.key(n - 1);
        if !disk.contains_key(path) {
            earlier.push(path)
        } else {
            earlier
        }
    }
}

/// What is told of files, in the order of their paths.
pub open spec fn told_of(paths: Seq<Seq<char>>, gone: bool) -> Seq<JsonView> {
    order::arranged(paths).map_values(
        |path: Seq<char>| file_change(uri::file_uri_of(path)->0, gone),
    )
}

/// All files that are new, changed or gone: first those that are there.
pub open spec fn file_changes(disk: Table<u64>, known: Table<u64>) -> Seq<JsonView> {
    told_of(changed_files(disk, known@, disk.count()), false) + told_of(
        gone_files(known, disk@, known.count()),
        true,
    )
}

/// Whether all paths are absolute, so that all files have URIs.
pub open spec fn all_rooted(files: Map<Seq<char>, u64>) -> bool {
    forall|path: Seq<char>| #[trigger] files.contains_key(path) ==> path::is_rooted(path)
}

/// Tells of files, in the order of their paths.
fn tell_of(paths: Vec<String>, gone: bool) -> (r: Vec<Json>)
    requires
        forall|path: Seq<char>| #[trigger]
            text::texts_view(paths@).contains(path) ==> path::is_rooted(path),
    ensures
        views(r@) == told_of(text::texts_view(paths@), gone),
{
    let ghost given = text::texts_view(paths@);
    let sorted = order::arrange(paths);
    let ghost all = text::texts_view(sorted@);
    proof {
        order::law_arranged_paths(given);
        assert forall|k: int| 0 <= k < all.len() implies path::is_rooted(#[trigger] all[k]) by {
            assert(all.to_set().contains(all[k]));
            assert(given.contains(all[k]));
        }
    }
    let mut out: Vec<Json> = Vec::new();
    let mut i: usize = 0;
    while i < sorted.len()
        invariant
            all == text::texts_view(sorted@),
            all == order::arranged(given),
            forall|k: int| 0 <= k < all.len() ==> path::is_rooted(#[trigger] all[k]),
            i <= sorted@.len(),
            out@.len() == i,
            forall|k: int|
                0 <= k < i ==> (#[trigger] out@[k])@ == file_change(
                    uri::file_uri_of(all[k])->0,
                    gone,
                ),
        decreases sorted@.len() - i,
    {
        proof {
            assert(path::is_rooted(all[i as int]));
        }
        match uri::file_uri(sorted[i].as_str()) {
            Ok(place) => {
                out.push(changed_file(place.as_str(), gone));
            },
            Err(_) => {},
        }
        i = i + 1;
    }
    proof {
        assert(views(out@) =~= told_of(given, gone));
    }
    out
}

fn list_changes(disk: &Table<u64>, known: &Table<u64>) -> (r: Vec<Json>)
    requires
        all_rooted(disk@),
        all_rooted(known@),
    ensures
        views(r@) == file_changes(*disk, *known),
{
    let mut changed: Vec<String> = Vec::new();
    let total: usize = disk.len();
    let mut i: usize = 0;
    proof {
        assert(text::texts_view(changed@) =~= Seq::<Seq<char>>::empty());
    }
    while i < total
        invariant
            all_rooted(disk@),
            total == disk.count(),
            i <= total,
            text::texts_view(changed@) == changed_files(*disk, known@, i as nat),
            forall|k: int| 0 <= k < changed@.len() ==> path::is_rooted((#[trigger] changed@[k])@),
        decreases total - i,
    {
        let path = disk.key_at(i);
        let hash: u64 = *disk.value_at(i);
        let same: bool = match known.get(path) {
            Some(seen) => *seen == hash,
            None => false,
        };
        let ghost before = text::texts_view(changed@);
        if !same {
            changed.push(path.to_owned());
            proof {
                assert(text::texts_view(changed@) =~= before.push(path@));
            }
        }
        i = i + 1;
    }
    let mut gone: Vec<String> = Vec::new();
    let count: usize = known.len();
    let mut k: usize = 0;
    proof {
        assert(text::texts_view(gone@) =~= Seq::<Seq<char>>::empty());
    }
    while k < count
        invariant
            all_rooted(known@),
            count == known.count(),
            k <= count,
            text::texts_view(gone@) == gone_files(*known, disk@, k as nat),
            forall|j: int| 0 <= j < gone@.len() ==> path::is_rooted((#[trigger] gone@[j])@),
        decreases count - k,
    {
        let path = known.key_at(k);
        let ghost before = text::texts_view(gone@);
        if !disk.contains(path) {
            gone.push(path.to_owned());
            proof {
                assert(text::texts_view(gone@) =~= before.push(path@));
            }
        }
        k = k + 1;
    }
    let mut out = tell_of(changed, false);
    let mut rest = tell_of(gone, true);
    let ghost first = views(out@);
    let ghost second = views(rest@);
    out.append(&mut rest);
    proof {
        assert(views(out@) =~= first + second);
    }
    out
}

fn rooted(files: &Table<u64>) -> (r: bool)
    ensures
        r == all_rooted(files@),
{
    let total: usize = files.len();
    let mut i: usize = 0;
    while i < total
        invariant
            total == files.count(),
            i <= total,
            forall|j: int| 0 <= j < i ==> path::is_rooted(#[trigger] files.key(j)),
        decreases total - i,
    {
        if !path::is_absolute(files.key_at(i)) {
            return false;
        }
        i = i + 1;
    }
    proof {
        assert forall|k: Seq<char>| #[trigger] files@.contains_key(k) implies path::is_rooted(k) by {
            let j = choose|j: int| crate::table::key_at(files.entries@, k, j);
            assert(files.key(j) == k);
        }
    }
    true
}

fn copy_numbers(table: &Table<u64>) -> (r: Table<u64>)
    ensures
        r@ == table@,
{
    let mut out: Table<u64> = Table::new();
    let total: usize = table.len();
    let mut i: usize = 0;
    while i < total
        invariant
            total == table.count(),
            i <= total,
            forall|k: Seq<char>| #[trigger]
                out@.contains_key(k) <==> among(*table, k, i as int),
            forall|k: Seq<char>| #[trigger]
                out@.contains_key(k) ==> table@.contains_key(k) && out@[k] == table@[k],
        decreases total - i,
    {
        let key = table.key_at(i);
        out.insert(key, *table.value_at(i));
        proof {
            lemma_among_next(*table, i as int);
        }
        i = i + 1;
    }
    proof {
        lemma_among_all(*table);
        assert(out@ =~= table@);
    }
    out
}

impl Workspace {
    fn list_stamps(&self) -> (r: Table<DocumentStamp>)
        ensures
            r@ == stamps(self@.documents),
    {
        let documents = &self.documents;
        let mut out: Table<DocumentStamp> = Table::new();
        let total: usize = documents.len();
        let mut i: usize = 0;
        while i < total
            invariant
                total == documents.count(),
                *documents == self.documents,
                i <= total,
                forall|k: Seq<char>| #[trigger]
                    out@.contains_key(k) <==> among(*documents, k, i as int),
                forall|k: Seq<char>| #[trigger]
                    out@.contains_key(k) ==> documents@.contains_key(k) && out@[k] == stamps(
                        self@.documents,
                    )[k],
            decreases total - i,
        {
            let key = documents.key_at(i);
            let document = documents.value_at(i);
            let stamp = DocumentStamp {
                hash: fingerprint(document.text.as_str().as_bytes()),
                version: document.version,
                epoch: document.epoch,
            };
            out.insert(key, stamp);
            proof {
                lemma_among_next(*documents, i as int);
            }
            i = i + 1;
        }
        proof {
            lemma_among_all(*documents);
            assert(out@ =~= stamps(self@.documents));
        }
        out
    }

    /// Takes a snapshot with the given files, which become the known ones. The
    /// message tells every server of the files that changed since the last
    /// snapshot; there is none if none did.
    pub fn take_snapshot(&mut self, disk: Table<u64>) -> (r: Result<
        (Snapshot, Option<Json>),
        Fault,
    >)
        requires
            old(self)@.generation < u64::MAX,
        ensures
            match r {
                Err(fault) => fault == Fault::InvalidPath && !(all_rooted(disk@) && all_rooted(
                    old(self)@.refactor_disk,
                )) && final(self)@ == old(self)@,
                Ok((snapshot, message)) => {
                    let changes = file_changes(disk, old(self).refactor_disk);
                    &&& all_rooted(disk@) && all_rooted(old(self)@.refactor_disk)
                    &&& snapshot@ == snapshot_view(old(self)@, disk@)
                    &&& final(self)@ == (WorkspaceView {
                        refactor_disk: disk@,
                        generation: if changes.len() > 0 {
                            (old(self)@.generation + 1) as u64
                        } else {
                            old(self)@.generation
                        },
                        ..old(self)@
                    })
                    &&& match message {
                        Some(message) => changes.len() > 0 && message@ == watched_view(changes),
                        None => changes.len() == 0,
                    }
                },
            },
    {
        if !rooted(&disk) || !rooted(&self.refactor_disk) {
            return Err(Fault::InvalidPath);
        }
        let changes = list_changes(&disk, &self.refactor_disk);
        let ghost told = file_changes(disk, self.refactor_disk);
        proof {
            assert(views(changes@).len() == changes@.len());
        }
        let documents = self.list_stamps();
        let snapshot = Snapshot {
            instance: self.instance.as_str().to_owned(),
            disk: copy_numbers(&disk),
            documents,
        };
        proof {
            assert(snapshot@ =~= snapshot_view(self@, disk@));
        }
        self.refactor_disk = disk;
        let message = if changes.len() > 0 {
            self.generation = self.generation + 1;
            Some(watched_message(changes))
        } else {
            None
        };
        proof {
            assert(self@ =~= (WorkspaceView {
                refactor_disk: disk@,
                generation: if told.len() > 0 {
                    (old(self)@.generation + 1) as u64
                } else {
                    old(self)@.generation
                },
                ..old(self)@
            }));
        }
        Ok((snapshot, message))
    }

    /// An open document, as far as an edit of it is concerned.
    pub fn open_text(&self, uri: &str) -> (r: Option<OpenText>)
        ensures
            match r {
                Some(open) => self@.documents.contains_key(uri@) && open.text@
                    == self@.documents[uri@].text && open.version == self@.documents[uri@].version,
                None => !self@.documents.contains_key(uri@),
            },
    {
        match self.documents.get(uri) {
            Some(document) => Some(
                OpenText { text: document.text.as_str().to_owned(), version: document.version },
            ),
            None => None,
        }
    }
}

/// Whether a workspace is still as a snapshot saw it.
pub fn verify_snapshot(current: &Snapshot, earlier: &Snapshot) -> (r: Result<(), Fault>)
    ensures
        r == if current@ == earlier@ {
            Ok(())
        } else {
            Err(Fault::StaleSnapshot)
        },
{
    if current.same(earlier) {
        Ok(())
    } else {
        Err(Fault::StaleSnapshot)
    }
}

/// A snapshot still holds only in the same session, with the same files and the
/// same open documents, none of which has another version or epoch.
pub proof fn law_snapshot_sees_changes(
    before: WorkspaceView,
    disk_before: Map<Seq<char>, u64>,
    after: WorkspaceView,
    disk_after: Map<Seq<char>, u64>,
    uri: Seq<char>,
)
    requires
        snapshot_view(before, disk_before) == snapshot_view(after, disk_after),
    ensures
        before.instance == after.instance,
        disk_before == disk_after,
        before.documents.contains_key(uri) <==> after.documents.contains_key(uri),
        before.documents.contains_key(uri) ==> before.documents[uri].version
            == after.documents[uri].version && before.documents[uri].epoch
            == after.documents[uri].epoch && fingerprint_of(
            encode_utf8(before.documents[uri].text),
        ) == fingerprint_of(encode_utf8(after.documents[uri].text)),
{
    let a = stamps(before.documents);
    let b = stamps(after.documents);
    assert(a == b);
    assert(a.contains_key(uri) == b.contains_key(uri));
    assert(a.contains_key(uri) ==> a[uri] == b[uri]);
}

/// A check that is still running never reads like one of the files as they are.
pub proof fn law_running_check_is_not_fresh(state: WorkspaceView)
    requires
        state.check.running,
    ensures
        !state.check_fresh(),
{
}

// ---------------------------------------------------------------------------
// What checks and changes mean
// ---------------------------------------------------------------------------
/// A check that was made of the files as they are is fresh, and says what it found.
pub proof fn law_completed_checks_are_fresh(
    state: WorkspaceView,
    success: bool,
    diagnostics: Seq<JsonView>,
)
    ensures
        ({
            let after = WorkspaceView {
                check: check_ended(state.check, state.generation, Ok((success, diagnostics))),
                ..state
            };
            &&& after.check.success == Some(success)
            &&& after.check.diagnostics == diagnostics
            &&& after.check.generation == Some(state.generation)
            &&& !after.check.running
            &&& is_checked(after)
            &&& after.check_fresh() == (state.watcher_error is None)
        }),
{
}

/// Cargo checks the whole workspace with all targets and answers in JSON, with the
/// features and the target that are configured and no others.
pub proof fn law_cargo_checks_as_configured(config: Config)
    ensures
        ({
            let arguments = cargo_view(config);
            let features = text::join_with(text::texts_view(config.cargo_features@), ","@);
            let chosen = if config.all_features {
                seq!["--all-features"@]
            } else if config.cargo_features@.len() > 0 {
                seq!["--features"@, features]
            } else {
                Seq::<Seq<char>>::empty()
            };
            let defaults = if config.no_default_features {
                seq!["--no-default-features"@]
            } else {
                Seq::<Seq<char>>::empty()
            };
            let target = match config.cargo_target {
                Some(target) => seq!["--target"@, target@],
                None => Seq::<Seq<char>>::empty(),
            };
            arguments =~= seq![
                "check"@,
                "--workspace"@,
                "--all-targets"@,
                "--message-format=json"@,
            ] + chosen + defaults + target
        }),
{
}

/// Every line of the TypeScript compiler that is not blank is a finding, in order,
/// with its words.
pub proof fn law_compiler_lines_are_findings(lines: Seq<Seq<char>>, line: Seq<char>)
    ensures
        line_diagnostics(Seq::empty()) == Seq::<JsonView>::empty(),
        (exists|i: int| 0 <= i < line.len() && !text::is_blank(#[trigger] line[i]))
            ==> line_diagnostics(lines.push(line)).len() == line_diagnostics(lines).len() + 1
            && line_diagnostics(lines.push(line)).drop_last() == line_diagnostics(lines)
            && line_diagnostics(lines.push(line)).last().field("message"@) == JsonView::Text(line)
            && line_diagnostics(lines.push(line)).last().field("rendered"@) == JsonView::Text(line)
            && line_diagnostics(lines.push(line)).last().field("source"@) == JsonView::Text(
            "typescript"@,
        ),
        (forall|i: int| 0 <= i < line.len() ==> text::is_blank(#[trigger] line[i]))
            ==> line_diagnostics(lines.push(line)) == line_diagnostics(lines),
{
    reveal_strlit("source");
    reveal_strlit("message");
    reveal_strlit("rendered");
    assert("source"@.len() == 6);
    assert("message"@.len() == 7);
    assert("rendered"@.len() == 8);
    assert(lines.push(line).drop_last() =~= lines);
    text::law_trimming_takes_blanks_only(line);
    if exists|i: int| 0 <= i < line.len() && !text::is_blank(#[trigger] line[i]) {
        assert(line_diagnostics(lines.push(line)).drop_last() =~= line_diagnostics(lines));
    }
}

/// The servers are told of every file that is new or has changed, and of every one
/// that is gone; of no other.
pub proof fn law_changed_files_are_told(disk: Table<u64>, known: Table<u64>, n: nat, path: Seq<char>)
    requires
        n <= disk.count(),
    ensures
        changed_files(disk, known@, n).contains(path) <==> exists|i: int|
            0 <= i < n && #[trigger] disk.key(i) == path && !(known@.contains_key(path)
                && known@[path] == disk.value(i)),
    decreases n,
{
    if n > 0 {
        let m = (n - 1) as nat;
        law_changed_files_are_told(disk, known, m, path);
        let earlier = changed_files(disk, known@, m);
        let all = changed_files(disk, known@, n);
        let last = disk.key(n - 1);
        if !(known@.contains_key(last) && known@[last] == disk.value(n - 1)) {
            assert(all == earlier.push(last));
            lemma_pushed(earlier, last, path);
        } else {
            assert(all == earlier);
        }
        if exists|i: int|
            0 <= i < n && #[trigger] disk.key(i) == path && !(known@.contains_key(path)
                && known@[path] == disk.value(i)) {
            let i = choose|i: int|
                0 <= i < n && #[trigger] disk.key(i) == path && !(known@.contains_key(path)
                    && known@[path] == disk.value(i));
            if i < m {
                assert(disk.key(i) == path);
            }
        }
        if all.contains(path) && !earlier.contains(path) {
            assert(disk.key(n - 1) == path);
        }
        if earlier.contains(path) {
            let i = choose|i: int|
                0 <= i < m && #[trigger] disk.key(i) == path && !(known@.contains_key(path)
                    && known@[path] == disk.value(i));
            assert(0 <= i < n && disk.key(i) == path);
        }
    }
}

proof fn lemma_pushed(list: Seq<Seq<char>>, more: Seq<char>, path: Seq<char>)
    ensures
        list.push(more).contains(path) <==> list.contains(path) || path == more,
{
    let all = list.push(more);
    if list.contains(path) {
        let j = choose|j: int| 0 <= j < list.len() && list[j] == path;
        assert(all[j] == path);
    }
    assert(all[list.len() as int] == more);
    if all.contains(path) && path != more {
        let j = choose|j: int| 0 <= j < all.len() && all[j] == path;
        assert(list[j] == path);
    }
}

/// The files that are gone are those that were known and are not there.
pub proof fn law_gone_files_are_told(known: Table<u64>, disk: Table<u64>, n: nat, path: Seq<char>)
    requires
        n <= known.count(),
    ensures
        gone_files(known, disk@, n).contains(path) <==> !disk@.contains_key(path) && exists|i: int|
            0 <= i < n && #[trigger] known.key(i) == path,
    decreases n,
{
    if n > 0 {
        let m = (n - 1) as nat;
        law_gone_files_are_told(known, disk, m, path);
        let earlier = gone_files(known, disk@, m);
        let last = known.key(n - 1);
        lemma_pushed(earlier, last, path);
        if exists|i: int| 0 <= i < m && #[trigger] known.key(i) == path {
            let i = choose|i: int| 0 <= i < m && #[trigger] known.key(i) == path;
            assert(0 <= i < n && known.key(i) == path);
        }
    }
}

/// What is told of a file is its URI, and whether it is gone or has changed.
pub proof fn law_told_files_are_named(paths: Seq<Seq<char>>, gone: bool, i: int)
    requires
        0 <= i < paths.len(),
    ensures
        told_of(paths, gone).len() == paths.len(),
        told_of(paths, gone)[i].field("uri"@) == JsonView::Text(
            uri::file_uri_of(order::arranged(paths)[i])->0,
        ),
        told_of(paths, gone)[i].field("type"@) == JsonView::Int(
            if gone {
                3
            } else {
                2
            },
        ),
{
    reveal_strlit("uri");
    reveal_strlit("type");
    assert("uri"@.len() == 3);
    assert("type"@.len() == 4);
    order::law_arranged_paths(paths);
}

/// The servers are told first of the files that are there and then of those that are
/// gone, of all of them; and a snapshot knows every open document by its text, version
/// and epoch.
pub proof fn law_all_changes_are_told(
    disk: Table<u64>,
    known: Table<u64>,
    documents: Map<Seq<char>, DocumentView>,
    uri: Seq<char>,
)
    ensures
        file_changes(disk, known).len() == changed_files(disk, known@, disk.count()).len()
            + gone_files(known, disk@, known.count()).len(),
        file_changes(disk, known) == told_of(changed_files(disk, known@, disk.count()), false)
            + told_of(gone_files(known, disk@, known.count()), true),
        stamps(documents).contains_key(uri) <==> documents.contains_key(uri),
        documents.contains_key(uri) ==> stamps(documents)[uri].hash == fingerprint_of(
            encode_utf8(documents[uri].text),
        ) && stamps(documents)[uri].version == documents[uri].version && stamps(
            documents,
        )[uri].epoch == documents[uri].epoch,
{
    order::law_arranged_paths(changed_files(disk, known@, disk.count()));
    order::law_arranged_paths(gone_files(known, disk@, known.count()));
}

} // verus!
