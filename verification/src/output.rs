//! Answers in the short form that agents read, unless they ask for all of it.

use crate::json::{member_views, views, Json, JsonView};
use crate::table::{among, lemma_among_all, lemma_among_next, Table};
use vstd::prelude::*;

verus! {

/// The short form of one workspace's status.
pub open spec fn short_status(value: JsonView) -> JsonView {
    let check = value.field("check"@);
    JsonView::object().with("workspace"@, value.field("workspace"@)).with(
        "language"@,
        value.field("language"@),
    ).with("ready"@, value.field("ready"@)).with("status"@, value.field("status"@)).with(
        "analyzers"@,
        value.field("analyzers"@),
    ).with("analyzerPid"@, value.field("analyzerPid"@)).with(
        "companionConnected"@,
        JsonView::Bool(value.field("companion"@) is Text),
    ).with(
        "documentCount"@,
        JsonView::Int(value.field("documents"@).items_or_none().len() as int),
    ).with("generation"@, value.field("generation"@)).with(
        "checkFresh"@,
        value.field("checkFresh"@),
    ).with("checkRunning"@, check.field("running"@)).with(
        "checkSuccess"@,
        check.field("success"@),
    ).with("checkError"@, check.field("error"@)).with("watcherError"@, value.field("watcherError"@))
}

/// The status as it is shown: of all workspaces, or of one.
pub open spec fn status_view(value: JsonView, verbose: bool) -> JsonView
    decreases value,
{
    if verbose {
        value
    } else {
        match value {
            JsonView::Object(members) => if members.contains_key("workspaces"@) {
                match members["workspaces"@] {
                    JsonView::Array(items) => JsonView::object().with(
                        "workspaces"@,
                        JsonView::Array(
                            Seq::new(
                                items.len(),
                                |i: int|
                                    if 0 <= i < items.len() {
                                        status_view(items[i], false)
                                    } else {
                                        JsonView::Null
                                    },
                            ),
                        ),
                    ).with("disconnectedWorkspaces"@, value.field("disconnectedWorkspaces"@)),
                    _ => short_status(value),
                }
            } else {
                short_status(value)
            },
            _ => short_status(value),
        }
    }
}

fn make_short_status(value: &Json) -> (r: Json)
    ensures
        r@ == short_status(value@),
{
    let check = value.at("check");
    Json::object().with("workspace", value.at("workspace").copy()).with(
        "language",
        value.at("language").copy(),
    ).with("ready", value.at("ready").copy()).with("status", value.at("status").copy()).with(
        "analyzers",
        value.at("analyzers").copy(),
    ).with("analyzerPid", value.at("analyzerPid").copy()).with(
        "companionConnected",
        Json::boolean(value.at("companion").is_text()),
    ).with("documentCount", Json::number(value.at("documents").item_count() as u64)).with(
        "generation",
        value.at("generation").copy(),
    ).with("checkFresh", value.at("checkFresh").copy()).with(
        "checkRunning",
        check.at("running").copy(),
    ).with("checkSuccess", check.at("success").copy()).with(
        "checkError",
        check.at("error").copy(),
    ).with("watcherError", value.at("watcherError").copy())
}

fn shorten_status(value: &Json) -> (r: Json)
    ensures
        r@ == status_view(value@, false),
    decreases value,
{
    match value.get("workspaces") {
        Some(workspaces) => match workspaces.as_array() {
            Some(items) => {
                let mut out: Vec<Json> = Vec::new();
                let mut i: usize = 0;
                while i < items.len()
                    invariant
                        i <= items@.len(),
                        decreases_to!(value => items),
                        out@.len() == i,
                        forall|j: int|
                            0 <= j < i ==> #[trigger] out@[j]@ == status_view(items@[j]@, false),
                    decreases items@.len() - i,
                {
                    proof {
                        assert(decreases_to!(*items => items@));
                        assert(decreases_to!(items@ => items@[i as int]));
                    }
                    out.push(shorten_status(&items[i]));
                    i = i + 1;
                }
                let ghost shown = status_view(value@, false)->Object_0["workspaces"@]->Array_0;
                let gone = value.at("disconnectedWorkspaces").copy();
                proof {
                    reveal_strlit("workspaces");
                    reveal_strlit("disconnectedWorkspaces");
                    assert("workspaces"@.len() != "disconnectedWorkspaces"@.len());
                    assert(views(out@) =~= shown);
                }
                Json::object().with("workspaces", Json::array(out)).with(
                    "disconnectedWorkspaces",
                    gone,
                )
            },
            None => make_short_status(value),
        },
        None => make_short_status(value),
    }
}

/// The status as it is shown: everything, or the short form of each workspace.
pub fn status(value: Json, verbose: bool) -> (r: Json)
    ensures
        r@ == status_view(value@, verbose),
{
    if verbose {
        value
    } else {
        shorten_status(&value)
    }
}

/// How many diagnostics a live entry holds.
pub open spec fn entry_count(entry: JsonView) -> nat {
    entry.field("diagnostics"@).items_or_none().len()
}

/// The live entries that hold diagnostics.
pub open spec fn with_findings(entries: Map<Seq<char>, JsonView>) -> Map<Seq<char>, JsonView> {
    Map::new(
        |uri: Seq<char>| entries.contains_key(uri) && entry_count(entries[uri]) > 0,
        |uri: Seq<char>| entries[uri],
    )
}

/// How many diagnostics live entries hold.
pub open spec fn total_count(entries: Map<Seq<char>, JsonView>) -> nat
    decreases entries.dom().len(),
{
    if !entries.dom().finite() || entries.dom().len() == 0 {
        0
    } else {
        let uri = entries.dom().choose();
        entry_count(entries[uri]) + total_count(entries.remove(uri))
    }
}

/// A count that stops at the largest 64-bit number.
pub open spec fn capped(n: nat) -> int {
    if n <= u64::MAX {
        n as int
    } else {
        u64::MAX as int
    }
}

/// The diagnostics as they are shown. The short form leaves out entries without
/// findings and the explanatory note, adds counts, and keeps all else: a check
/// that did not run, failed or is out of date never reads like a clean one.
pub open spec fn diagnostics_view(value: JsonView, verbose: bool) -> JsonView {
    if verbose {
        value
    } else {
        let live = match value.field("liveDiagnostics"@) {
            JsonView::Object(entries) => JsonView::Object(with_findings(entries)),
            other => other,
        };
        let count = match live {
            JsonView::Object(entries) => capped(total_count(entries)),
            _ => 0,
        };
        let saved = value.field("savedFileCheck"@).field("diagnostics"@).items_or_none().len();
        (if value is Null {
            JsonView::object()
        } else {
            value
        }).with("liveDiagnostics"@, live).with("liveDiagnosticCount"@, JsonView::Int(count)).with(
            "savedDiagnosticCount"@,
            JsonView::Int(saved as int),
        ).without("note"@)
    }
}

/// Any entry may be counted first.
proof fn lemma_total_count(entries: Map<Seq<char>, JsonView>, uri: Seq<char>)
    requires
        entries.dom().finite(),
        entries.contains_key(uri),
    ensures
        total_count(entries) == entry_count(entries[uri]) + total_count(entries.remove(uri)),
    decreases entries.dom().len(),
{
    let first = entries.dom().choose();
    assert(entries.dom().contains(uri));
    assert(entries.dom().contains(first));
    if first != uri {
        lemma_total_count(entries.remove(first), uri);
        lemma_total_count(entries.remove(uri), first);
        assert(entries.remove(first).remove(uri) =~= entries.remove(uri).remove(first));
    }
}

/// The live entries that hold diagnostics, and how many those are.
fn findings(entries: &Table<Json>) -> (r: (Json, u64))
    ensures
        r.0@ == JsonView::Object(with_findings(member_views(entries@))),
        r.1 == capped(total_count(with_findings(member_views(entries@)))),
{
    let ghost all = member_views(entries@);
    let mut kept: Table<Json> = Table::new();
    let mut count: u64 = 0;
    let mut i: usize = 0;
    let total: usize = entries.len();
    proof {
        assert(member_views(kept@) =~= Map::<Seq<char>, JsonView>::empty());
        assert(total_count(member_views(kept@)) == 0);
    }
    while i < total
        invariant
            total == entries.count(),
            i <= total,
            all == member_views(entries@),
            member_views(kept@).dom().finite(),
            count == capped(total_count(member_views(kept@))),
            forall|uri: Seq<char>| #[trigger]
                kept@.contains_key(uri) <==> with_findings(all).contains_key(uri) && among(
                    *entries,
                    uri,
                    i as int,
                ),
            forall|uri: Seq<char>| #[trigger]
                kept@.contains_key(uri) ==> kept@[uri]@ == all[uri],
        decreases total - i,
    {
        let uri = entries.key_at(i);
        let entry = entries.value_at(i);
        let ghost before = kept@;
        proof {
            assert(all[uri@] == entry@);
            assert forall|j: int| 0 <= j < i implies #[trigger] entries.key(j) != uri@ by {
                crate::text::lemma_order_irreflexive(uri@);
            }
            assert(!before.contains_key(uri@));
        }
        let found: u64 = entry.at("diagnostics").item_count() as u64;
        if found > 0 {
            kept.insert(uri, entry.copy());
            proof {
                let now = member_views(kept@);
                assert(now =~= member_views(before).insert(uri@, entry@));
                lemma_total_count(now, uri@);
                assert(now.remove(uri@) =~= member_views(before));
            }
            count = if count > u64::MAX - found {
                u64::MAX
            } else {
                count + found
            };
        }
        proof {
            lemma_among_next(*entries, i as int);
        }
        i = i + 1;
    }
    proof {
        let left = member_views(kept@);
        let right = with_findings(all);
        lemma_among_all(*entries);
        assert(left =~= right);
    }
    (Json::from_table(kept), count)
}

/// The diagnostics as they are shown.
pub fn diagnostics(value: Json, verbose: bool) -> (r: Json)
    requires
        !verbose ==> value@ is Object || value@ is Null,
    ensures
        r@ == diagnostics_view(value@, verbose),
{
    if verbose {
        return value;
    }
    let (live, count) = match value.at("liveDiagnostics").as_object() {
        Some(entries) => findings(entries),
        None => (value.at("liveDiagnostics").copy(), 0),
    };
    let saved: usize = value.at("savedFileCheck").at("diagnostics").item_count();
    let mut value = value;
    value.set("liveDiagnostics", live);
    value.set("liveDiagnosticCount", Json::number(count));
    value.set("savedDiagnosticCount", Json::number(saved as u64));
    value.remove("note");
    value
}

/// The short form keeps every member of the full one but the note and the live
/// entries without findings: whether a check ran, is running, failed or is
/// fresh reads the same in both.
pub proof fn law_short_form_keeps_uncertainty(value: JsonView, key: Seq<char>)
    requires
        value is Object,
        key != "note"@,
        key != "liveDiagnostics"@,
        key != "liveDiagnosticCount"@,
        key != "savedDiagnosticCount"@,
    ensures
        diagnostics_view(value, false).has(key) == value.has(key),
        diagnostics_view(value, false).field(key) == value.field(key),
{
}

/// The short form drops no finding: an entry with diagnostics stays as it was.
pub proof fn law_short_form_keeps_findings(value: JsonView, uri: Seq<char>)
    requires
        value is Object,
        entry_count(value.field("liveDiagnostics"@).field(uri)) > 0,
    ensures
        diagnostics_view(value, false).field("liveDiagnostics"@).field(uri) == value.field(
            "liveDiagnostics"@,
        ).field(uri),
{
    reveal_strlit("note");
    reveal_strlit("liveDiagnostics");
    reveal_strlit("liveDiagnosticCount");
    reveal_strlit("savedDiagnosticCount");
    assert("note"@.len() == 4 && "liveDiagnostics"@.len() == 15);
    assert("liveDiagnosticCount"@.len() == 19 && "savedDiagnosticCount"@.len() == 20);
}

/// The short status keeps what is known of readiness and of the check, and counts
/// what it leaves out.
pub proof fn law_short_status_keeps_the_state(value: JsonView)
    ensures
        ({
            let told = short_status(value);
            let check = value.field("check"@);
            &&& told.field("workspace"@) == value.field("workspace"@)
            &&& told.field("language"@) == value.field("language"@)
            &&& told.field("ready"@) == value.field("ready"@)
            &&& told.field("status"@) == value.field("status"@)
            &&& told.field("analyzers"@) == value.field("analyzers"@)
            &&& told.field("analyzerPid"@) == value.field("analyzerPid"@)
            &&& told.field("companionConnected"@) == JsonView::Bool(
                value.field("companion"@) is Text,
            )
            &&& value.field("documents"@) matches JsonView::Array(documents) ==> told.field(
                "documentCount"@,
            ) == JsonView::Int(documents.len() as int)
            &&& !(value.field("documents"@) is Array) ==> told.field("documentCount"@)
                == JsonView::Int(0)
            &&& told.field("generation"@) == value.field("generation"@)
            &&& told.field("checkFresh"@) == value.field("checkFresh"@)
            &&& told.field("checkRunning"@) == check.field("running"@)
            &&& told.field("checkSuccess"@) == check.field("success"@)
            &&& told.field("checkError"@) == check.field("error"@)
            &&& told.field("watcherError"@) == value.field("watcherError"@)
        }),
{
    reveal_strlit("workspace");
    reveal_strlit("language");
    reveal_strlit("ready");
    reveal_strlit("status");
    reveal_strlit("analyzers");
    reveal_strlit("analyzerPid");
    reveal_strlit("companionConnected");
    reveal_strlit("documentCount");
    reveal_strlit("generation");
    reveal_strlit("checkFresh");
    reveal_strlit("checkRunning");
    reveal_strlit("checkSuccess");
    reveal_strlit("checkError");
    reveal_strlit("watcherError");
    assert("workspace"@.len() == 9);
    assert("language"@.len() == 8);
    assert("ready"@.len() == 5);
    assert("status"@.len() == 6);
    assert("analyzers"@.len() == 9);
    assert("analyzerPid"@.len() == 11);
    assert("companionConnected"@.len() == 18);
    assert("documentCount"@.len() == 13);
    assert("generation"@.len() == 10);
    assert("checkFresh"@.len() == 10);
    assert("checkRunning"@.len() == 12);
    assert("checkSuccess"@.len() == 12);
    assert("checkError"@.len() == 10);
    assert("watcherError"@.len() == 12);
    assert("workspace"@[0] == 'w');
    assert("analyzers"@[0] == 'a');
    assert("generation"@[0] == 'g');
    assert("checkFresh"@[0] == 'c');
    assert("checkError"@[0] == 'c');
    assert("checkFresh"@[5] == 'F');
    assert("checkError"@[5] == 'E');
    assert("checkRunning"@[5] == 'R');
    assert("checkSuccess"@[5] == 'S');
    assert("checkRunning"@[0] == 'c');
    assert("watcherError"@[0] == 'w');
    assert("checkSuccess"@[0] == 'c');
}

/// The status of all workspaces lists every one of them, in short if that is asked
/// for, and all that are disconnected; a long one is left as it is.
pub proof fn law_all_workspaces_are_shown(value: JsonView, i: int)
    ensures
        status_view(value, true) == value,
        value.field("workspaces"@) matches JsonView::Array(items) ==> {
            let told = status_view(value, false);
            &&& told.field("disconnectedWorkspaces"@) == value.field("disconnectedWorkspaces"@)
            &&& told.field("workspaces"@) is Array
            &&& told.field("workspaces"@)->Array_0.len() == items.len()
            &&& 0 <= i < items.len() ==> told.field("workspaces"@)->Array_0[i] == status_view(
                items[i],
                false,
            )
        },
        !(value.field("workspaces"@) is Array) ==> status_view(value, false) == short_status(value),
{
    reveal_strlit("workspaces");
    reveal_strlit("disconnectedWorkspaces");
    assert("workspaces"@.len() == 10);
    assert("disconnectedWorkspaces"@.len() == 22);
}

/// The short form of diagnostics leaves out the entries without findings and no
/// other, and counts the findings, live and saved.
pub proof fn law_findings_are_counted(value: JsonView, uri: Seq<char>)
    requires
        value is Object,
    ensures
        ({
            let told = diagnostics_view(value, false);
            let live = value.field("liveDiagnostics"@);
            &&& diagnostics_view(value, true) == value
            &&& value.field("savedFileCheck"@).field("diagnostics"@) matches JsonView::Array(found)
                ==> told.field("savedDiagnosticCount"@) == JsonView::Int(found.len() as int)
            &&& live matches JsonView::Object(entries) ==> {
                &&& told.field("liveDiagnostics"@).has(uri) <==> entries.contains_key(uri) && (
                entries[uri].field("diagnostics"@) matches JsonView::Array(found) && found.len()
                    > 0)
                &&& told.field("liveDiagnostics"@).has(uri) ==> told.field("liveDiagnostics"@).field(
                    uri,
                ) == entries[uri]
            }
            &&& !(live is Object) ==> told.field("liveDiagnosticCount"@) == JsonView::Int(0)
        }),
{
    reveal_strlit("note");
    reveal_strlit("liveDiagnostics");
    reveal_strlit("liveDiagnosticCount");
    reveal_strlit("savedDiagnosticCount");
    assert("note"@.len() == 4);
    assert("liveDiagnostics"@.len() == 15);
    assert("liveDiagnosticCount"@.len() == 19);
    assert("savedDiagnosticCount"@.len() == 20);
}

/// Findings of several documents are counted together.
pub proof fn law_counts_add_up(
    entries: Map<Seq<char>, JsonView>,
    uri: Seq<char>,
    found: Seq<JsonView>,
    entry: JsonView,
)
    requires
        entries.dom().finite(),
        !entries.contains_key(uri),
        entry.field("diagnostics"@) == JsonView::Array(found),
    ensures
        total_count(Map::<Seq<char>, JsonView>::empty()) == 0,
        total_count(entries.insert(uri, entry)) == total_count(entries) + found.len(),
{
    let more = entries.insert(uri, entry);
    lemma_total_count(more, uri);
    assert(more.remove(uri) =~= entries);
}

} // verus!
