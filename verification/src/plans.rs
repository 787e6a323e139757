//! Plans and actions that were shown and may be carried out later.

use crate::fault::Fault;
use crate::json::{views, Json, JsonView};
use crate::refactor::{PreparedEdit, Snapshot, SnapshotView};
use crate::table::{among, lemma_among_all, lemma_among_next, Table};
use crate::text;
use crate::uri;
use std::sync::Arc;
use vstd::prelude::*;

verus! {

/// How long a plan or an action is kept, in milliseconds.
pub const PLAN_TTL: u64 = 300_000;

/// How many plans are kept.
pub const MAX_PLANS: usize = 8;

/// How many actions are kept.
pub const MAX_ACTIONS: usize = 128;

/// `Arc::clone` gives another handle on the same value.
#[verifier::external_body]
fn share(snapshot: &Arc<Snapshot>) -> (r: Arc<Snapshot>)
    ensures
        r@ == snapshot@,
{
    Arc::clone(snapshot)
}

/// A rename that was shown and not written yet.
pub struct RenamePlan {
    pub root: String,
    pub snapshot: Snapshot,
    pub edit: PreparedEdit,
    pub new_name: String,
    pub symbol: Option<String>,
    /// When it was made, in milliseconds.
    pub created: u64,
}

/// A code action that was shown.
pub struct CachedAction {
    pub root: String,
    pub uri: String,
    pub action: Json,
    pub snapshot: Arc<Snapshot>,
    /// When it was shown, in milliseconds.
    pub created: u64,
}

/// A code action that was shown, in the terms of contracts.
#[verifier::ext_equal]
pub struct ActionView {
    pub root: Seq<char>,
    pub uri: Seq<char>,
    pub action: JsonView,
    pub snapshot: SnapshotView,
    pub created: u64,
}

impl View for CachedAction {
    type V = ActionView;

    open spec fn view(&self) -> ActionView {
        ActionView {
            root: self.root@,
            uri: self.uri@,
            action: self.action@,
            snapshot: self.snapshot@,
            created: self.created,
        }
    }
}

/// The plans and actions that are kept.
pub struct Application {
    pub(crate) plans: Table<RenamePlan>,
    pub(crate) actions: Table<CachedAction>,
}

/// The plans and actions that are kept, in the terms of contracts.
#[verifier::ext_equal]
pub struct ApplicationView {
    pub plans: Map<Seq<char>, RenamePlan>,
    pub actions: Map<Seq<char>, ActionView>,
}

/// Actions, in the terms of contracts.
pub open spec fn action_views(actions: Map<Seq<char>, CachedAction>) -> Map<Seq<char>, ActionView> {
    Map::new(|id: Seq<char>| actions.contains_key(id), |id: Seq<char>| actions[id]@)
}

impl View for Application {
    type V = ApplicationView;

    open(crate) spec fn view(&self) -> ApplicationView {
        ApplicationView { plans: self.plans@, actions: action_views(self.actions@) }
    }
}

/// Whether what was made at a time is too old.
pub open spec fn is_expired(created: u64, now: u64) -> bool {
    now - created >= PLAN_TTL
}

/// The plans that are not too old.
pub open spec fn live_plans(plans: Map<Seq<char>, RenamePlan>, now: u64) -> Map<
    Seq<char>,
    RenamePlan,
> {
    Map::new(
        |id: Seq<char>| plans.contains_key(id) && !is_expired(plans[id].created, now),
        |id: Seq<char>| plans[id],
    )
}

/// The actions that are not too old.
pub open spec fn live_actions(actions: Map<Seq<char>, ActionView>, now: u64) -> Map<
    Seq<char>,
    ActionView,
> {
    Map::new(
        |id: Seq<char>| actions.contains_key(id) && !is_expired(actions[id].created, now),
        |id: Seq<char>| actions[id],
    )
}

/// What taking a plan leaves and gives. A plan of another workspace stays; any
/// other is gone, whether it is still good or not.
pub open spec fn plan_taken(
    plans: Map<Seq<char>, RenamePlan>,
    id: Seq<char>,
    root: Seq<char>,
    now: u64,
) -> (Map<Seq<char>, RenamePlan>, Result<RenamePlan, Fault>) {
    if !plans.contains_key(id) {
        (plans, Err(Fault::UnknownPlan))
    } else if plans[id].root@ != root {
        (plans, Err(Fault::PlanElsewhere))
    } else if is_expired(plans[id].created, now) {
        (plans.remove(id), Err(Fault::PlanExpired))
    } else {
        (plans.remove(id), Ok(plans[id]))
    }
}

/// What looking an action up leaves and gives. One that is too old is gone.
pub open spec fn action_found(
    actions: Map<Seq<char>, ActionView>,
    id: Seq<char>,
    root: Seq<char>,
    now: u64,
) -> (Map<Seq<char>, ActionView>, Result<ActionView, Fault>) {
    if !actions.contains_key(id) {
        (actions, Err(Fault::UnknownAction))
    } else if actions[id].root != root {
        (actions, Err(Fault::ActionElsewhere))
    } else if is_expired(actions[id].created, now) {
        (actions.remove(id), Err(Fault::ActionExpired))
    } else {
        (actions, Ok(actions[id]))
    }
}

/// What is said of an action.
pub open spec fn action_row(id: Seq<char>, action: JsonView) -> JsonView {
    JsonView::object().with("action_id"@, JsonView::Text(id)).with(
        "title"@,
        action.field("title"@),
    ).with("kind"@, action.field("kind"@)).with("disabled"@, action.field("disabled"@)).with(
        "requiresCommand"@,
        JsonView::Bool(!(action.field("command"@) is Null)),
    )
}

/// Actions that are shown together: all of one document, seen at one moment.
pub struct Listing {
    pub root: String,
    pub uri: String,
    pub snapshot: Arc<Snapshot>,
    pub now: u64,
}

/// Actions with the first of those that are shown together.
pub open spec fn with_actions(
    kept: Map<Seq<char>, ActionView>,
    ids: Seq<Seq<char>>,
    actions: Seq<JsonView>,
    listing: Listing,
) -> Map<Seq<char>, ActionView>
    decreases ids.len(),
{
    if ids.len() == 0 {
        kept
    } else {
        with_actions(kept, ids.drop_last(), actions, listing).insert(
            ids.last(),
            ActionView {
                root: listing.root@,
                uri: listing.uri@,
                action: actions[ids.len() - 1],
                snapshot: listing.snapshot@,
                created: listing.now,
            },
        )
    }
}

/// What is said of actions that are shown together.
pub open spec fn action_rows(ids: Seq<Seq<char>>, actions: Seq<JsonView>) -> JsonView {
    JsonView::Array(Seq::new(actions.len(), |i: int| action_row(ids[i], actions[i])))
}

fn expired(created: u64, now: u64) -> (r: bool)
    ensures
        r == is_expired(created, now),
{
    now >= created && now - created >= PLAN_TTL
}

impl Application {
    /// Nothing is kept.
    pub fn new() -> (r: Application)
        ensures
            r@ == (ApplicationView { plans: Map::empty(), actions: Map::empty() }),
    {
        let r = Application { plans: Table::new(), actions: Table::new() };
        proof {
            assert(r@ =~= (ApplicationView { plans: Map::empty(), actions: Map::empty() }));
        }
        r
    }

    fn expire_plans(&mut self, now: u64)
        ensures
            final(self)@ == (ApplicationView {
                plans: live_plans(old(self)@.plans, now),
                ..old(self)@
            }),
    {
        let ghost before = self.plans@;
        let total: usize = self.plans.len();
        let mut old_ids: Vec<String> = Vec::new();
        let mut i: usize = 0;
        while i < total
            invariant
                total == self.plans.count(),
                self.plans@ == before,
                *self == *old(self),
                i <= total,
                forall|k: Seq<char>| #[trigger]
                    text::texts_view(old_ids@).contains(k) <==> among(self.plans, k, i as int)
                        && is_expired(before[k].created, now),
            decreases total - i,
        {
            let id = self.plans.key_at(i);
            let created: u64 = self.plans.value_at(i).created;
            let ghost listed = text::texts_view(old_ids@);
            if expired(created, now) {
                old_ids.push(id.to_owned());
                proof {
                    assert(text::texts_view(old_ids@) =~= listed.push(id@));
                }
            }
            proof {
                lemma_among_next(self.plans, i as int);
                lemma_listed(listed, text::texts_view(old_ids@), id@, is_expired(created, now));
            }
            i = i + 1;
        }
        proof {
            lemma_among_all(self.plans);
        }
        self.plans.remove_all(&old_ids);
        proof {
            assert(self.plans@ =~= live_plans(before, now));
            assert(self@ =~= (ApplicationView {
                plans: live_plans(old(self)@.plans, now),
                ..old(self)@
            }));
        }
    }

    fn expire_actions(&mut self, now: u64)
        ensures
            final(self)@ == (ApplicationView {
                actions: live_actions(old(self)@.actions, now),
                ..old(self)@
            }),
    {
        let ghost before = self.actions@;
        let total: usize = self.actions.len();
        let mut old_ids: Vec<String> = Vec::new();
        let mut i: usize = 0;
        while i < total
            invariant
                total == self.actions.count(),
                self.actions@ == before,
                *self == *old(self),
                i <= total,
                forall|k: Seq<char>| #[trigger]
                    text::texts_view(old_ids@).contains(k) <==> among(self.actions, k, i as int)
                        && is_expired(before[k].created, now),
            decreases total - i,
        {
            let id = self.actions.key_at(i);
            let created: u64 = self.actions.value_at(i).created;
            let ghost listed = text::texts_view(old_ids@);
            if expired(created, now) {
                old_ids.push(id.to_owned());
                proof {
                    assert(text::texts_view(old_ids@) =~= listed.push(id@));
                }
            }
            proof {
                lemma_among_next(self.actions, i as int);
                lemma_listed(listed, text::texts_view(old_ids@), id@, is_expired(created, now));
            }
            i = i + 1;
        }
        proof {
            lemma_among_all(self.actions);
        }
        self.actions.remove_all(&old_ids);
        proof {
            assert(action_views(self.actions@) =~= live_actions(action_views(before), now));
            assert(self@ =~= (ApplicationView {
                actions: live_actions(old(self)@.actions, now),
                ..old(self)@
            }));
        }
    }

    /// Keeps a plan under an identifier. Plans that are too old are let go
    /// first; if there are still too many, the plan is not kept.
    pub fn keep_plan_as(&mut self, id: &str, plan: RenamePlan, now: u64) -> (r: Result<(), Fault>)
        ensures
            ({
                let kept = live_plans(old(self)@.plans, now);
                match r {
                    Ok(()) => kept.dom().len() < MAX_PLANS && final(self)@ == (ApplicationView {
                        plans: kept.insert(id@, plan),
                        ..old(self)@
                    }),
                    Err(fault) => kept.dom().len() >= MAX_PLANS && fault == Fault::PreviewCacheFull
                        && final(self)@ == (ApplicationView { plans: kept, ..old(self)@ }),
                }
            }),
    {
        self.expire_plans(now);
        if self.plans.len() >= MAX_PLANS {
            return Err(Fault::PreviewCacheFull);
        }
        self.plans.insert(id, plan);
        proof {
            assert(self@ =~= (ApplicationView {
                plans: live_plans(old(self)@.plans, now).insert(id@, plan),
                ..old(self)@
            }));
        }
        Ok(())
    }

    /// Keeps a plan under a fresh identifier.
    pub fn keep_plan(&mut self, plan: RenamePlan, now: u64) -> (r: Result<String, Fault>)
        ensures
            ({
                let kept = live_plans(old(self)@.plans, now);
                match r {
                    Ok(id) => kept.dom().len() < MAX_PLANS && id@.len() == 36 && final(self)@ == (
                    ApplicationView { plans: kept.insert(id@, plan), ..old(self)@ }),
                    Err(fault) => kept.dom().len() >= MAX_PLANS && fault == Fault::PreviewCacheFull
                        && final(self)@ == (ApplicationView { plans: kept, ..old(self)@ }),
                }
            }),
    {
        let id = uri::fresh_id();
        match self.keep_plan_as(id.as_str(), plan, now) {
            Ok(()) => Ok(id),
            Err(fault) => Err(fault),
        }
    }

    /// Takes a plan to carry it out. Two callers cannot both take it.
    pub fn take_plan(&mut self, id: &str, root: &str, now: u64) -> (r: Result<RenamePlan, Fault>)
        ensures
            final(self)@ == (ApplicationView {
                plans: plan_taken(old(self)@.plans, id@, root@, now).0,
                ..old(self)@
            }),
            r == plan_taken(old(self)@.plans, id@, root@, now).1,
    {
        match self.plans.get(id) {
            None => {
                return Err(Fault::UnknownPlan);
            },
            Some(plan) => {
                if !text::same(plan.root.as_str(), root) {
                    return Err(Fault::PlanElsewhere);
                }
            },
        }
        let taken = self.plans.remove(id);
        proof {
            assert(self@ =~= (ApplicationView {
                plans: old(self)@.plans.remove(id@),
                ..old(self)@
            }));
        }
        match taken {
            None => Err(Fault::UnknownPlan),
            Some(plan) => if expired(plan.created, now) {
                Err(Fault::PlanExpired)
            } else {
                Ok(plan)
            },
        }
    }

    /// Keeps actions that are shown together, each under its identifier. Actions
    /// that are too old are let go first; if there would be too many, none is
    /// kept. The result says what is shown.
    pub fn keep_actions_as(&mut self, ids: &Vec<String>, actions: &Vec<Json>, listing: &Listing)
        -> (r: Result<Json, Fault>)
        requires
            ids@.len() == actions@.len(),
        ensures
            ({
                let kept = live_actions(old(self)@.actions, listing.now);
                match r {
                    Ok(rows) => kept.dom().len() + actions@.len() <= MAX_ACTIONS && rows@
                        == action_rows(text::texts_view(ids@), views(actions@)) && final(self)@ == (
                    ApplicationView {
                        actions: with_actions(
                            kept,
                            text::texts_view(ids@),
                            views(actions@),
                            *listing,
                        ),
                        ..old(self)@
                    }),
                    Err(fault) => kept.dom().len() + actions@.len() > MAX_ACTIONS && fault
                        == Fault::ActionCacheFull && final(self)@ == (ApplicationView {
                        actions: kept,
                        ..old(self)@
                    }),
                }
            }),
    {
        self.expire_actions(listing.now);
        let ghost kept = self@.actions;
        let ghost names = text::texts_view(ids@);
        let ghost all = views(actions@);
        let count: usize = self.actions.len();
        proof {
            assert(action_views(self.actions@).dom() =~= self.actions@.dom());
        }
        if count > MAX_ACTIONS || actions.len() > MAX_ACTIONS - count {
            return Err(Fault::ActionCacheFull);
        }
        let mut rows: Vec<Json> = Vec::new();
        let mut i: usize = 0;
        proof {
            assert(names.take(0) =~= Seq::<Seq<char>>::empty());
        }
        while i < actions.len()
            invariant
                ids@.len() == actions@.len(),
                names == text::texts_view(ids@),
                all == views(actions@),
                i <= actions@.len(),
                self@ == (ApplicationView {
                    actions: with_actions(kept, names.take(i as int), all, *listing),
                    ..old(self)@
                }),
                rows@.len() == i,
                forall|j: int| 0 <= j < i ==> #[trigger] rows@[j]@ == action_row(names[j], all[j]),
            decreases actions@.len() - i,
        {
            let action = &actions[i];
            let id = ids[i].as_str();
            let ghost before = self.actions@;
            let held = CachedAction {
                root: listing.root.as_str().to_owned(),
                uri: listing.uri.as_str().to_owned(),
                action: action.copy(),
                snapshot: share(&listing.snapshot),
                created: listing.now,
            };
            let ghost view = held@;
            self.actions.insert(id, held);
            rows.push(
                Json::object().with("action_id", Json::text(id)).with(
                    "title",
                    action.at("title").copy(),
                ).with("kind", action.at("kind").copy()).with(
                    "disabled",
                    action.at("disabled").copy(),
                ).with("requiresCommand", Json::boolean(!action.at("command").is_null())),
            );
            proof {
                assert(action_views(self.actions@) =~= action_views(before).insert(id@, view));
                assert(names.take(i + 1).drop_last() =~= names.take(i as int));
                assert(view =~= (ActionView {
                    root: listing.root@,
                    uri: listing.uri@,
                    action: all[i as int],
                    snapshot: listing.snapshot@,
                    created: listing.now,
                }));
                assert(self@ =~= (ApplicationView {
                    actions: with_actions(kept, names.take(i + 1), all, *listing),
                    ..old(self)@
                }));
            }
            i = i + 1;
        }
        proof {
            assert(names.take(names.len() as int) =~= names);
            assert(views(rows@) =~= action_rows(names, all)->Array_0);
        }
        Ok(Json::array(rows))
    }

    /// Keeps the actions that a server listed, each under a fresh identifier. An
    /// answer that is no list has none.
    pub fn keep_actions(&mut self, result: &Json, listing: &Listing) -> (r: Result<Json, Fault>)
        ensures
            ({
                let kept = live_actions(old(self)@.actions, listing.now);
                let actions = result@.items_or_none();
                match r {
                    Ok(rows) => kept.dom().len() + actions.len() <= MAX_ACTIONS && exists|
                        ids: Seq<Seq<char>>,
                    |
                        ids.len() == actions.len() && (forall|i: int|
                            0 <= i < ids.len() ==> (#[trigger] ids[i]).len() == 36) && rows@
                            == #[trigger] action_rows(ids, actions) && final(self)@ == (ApplicationView {
                            actions: with_actions(kept, ids, actions, *listing),
                            ..old(self)@
                        }),
                    Err(fault) => kept.dom().len() + actions.len() > MAX_ACTIONS && fault
                        == Fault::ActionCacheFull && final(self)@ == (ApplicationView {
                        actions: kept,
                        ..old(self)@
                    }),
                }
            }),
    {
        let none: Vec<Json> = Vec::new();
        proof {
            assert(views(none@) =~= Seq::<JsonView>::empty());
        }
        let actions = match result.as_array() {
            Some(items) => items,
            None => &none,
        };
        let mut ids: Vec<String> = Vec::new();
        while ids.len() < actions.len()
            invariant
                ids@.len() <= actions@.len(),
                forall|i: int| 0 <= i < ids@.len() ==> (#[trigger] ids@[i])@.len() == 36,
            decreases actions@.len() - ids@.len(),
        {
            ids.push(uri::fresh_id());
        }
        proof {
            assert(views(actions@) == result@.items_or_none());
            let names = text::texts_view(ids@);
            assert(names.len() == actions@.len());
            assert forall|i: int| 0 <= i < names.len() implies (#[trigger] names[i]).len()
                == 36 by {
                assert(names[i] == ids@[i]@);
            }
        }
        self.keep_actions_as(&ids, actions, listing)
    }

    /// Looks an action up to carry it out.
    pub fn find_action(&mut self, id: &str, root: &str, now: u64) -> (r: Result<CachedAction, Fault>)
        ensures
            final(self)@ == (ApplicationView {
                actions: action_found(old(self)@.actions, id@, root@, now).0,
                ..old(self)@
            }),
            match r {
                Ok(action) => action_found(old(self)@.actions, id@, root@, now).1 == Ok::<
                    ActionView,
                    Fault,
                >(action@),
                Err(fault) => action_found(old(self)@.actions, id@, root@, now).1 == Err::<
                    ActionView,
                    Fault,
                >(fault),
            },
    {
        let found = match self.actions.get(id) {
            None => {
                return Err(Fault::UnknownAction);
            },
            Some(action) => {
                if !text::same(action.root.as_str(), root) {
                    return Err(Fault::ActionElsewhere);
                }
                if expired(action.created, now) {
                    None
                } else {
                    Some(
                        CachedAction {
                            root: action.root.as_str().to_owned(),
                            uri: action.uri.as_str().to_owned(),
                            action: action.action.copy(),
                            snapshot: share(&action.snapshot),
                            created: action.created,
                        },
                    )
                }
            },
        };
        match found {
            Some(action) => {
                proof {
                    assert(action@ =~= old(self)@.actions[id@]);
                }
                Ok(action)
            },
            None => {
                self.drop_action(id);
                Err(Fault::ActionExpired)
            },
        }
    }

    /// Lets an action go, which was carried out.
    pub fn drop_action(&mut self, id: &str)
        ensures
            final(self)@ == (ApplicationView {
                actions: old(self)@.actions.remove(id@),
                ..old(self)@
            }),
    {
        let ghost before = self.actions@;
        let _ = self.actions.remove(id);
        proof {
            assert(action_views(self.actions@) =~= action_views(before).remove(id@));
            assert(self@ =~= (ApplicationView {
                actions: old(self)@.actions.remove(id@),
                ..old(self)@
            }));
        }
    }

    /// Lets all go that is of a workspace, which was disconnected.
    pub fn forget_workspace(&mut self, root: &str)
        ensures
            final(self)@ == forgotten(old(self)@, root@),
    {
        let ghost plans_before = self.plans@;
        let ghost actions_before = self.actions@;
        let total: usize = self.plans.len();
        let mut ids: Vec<String> = Vec::new();
        let mut i: usize = 0;
        while i < total
            invariant
                total == self.plans.count(),
                self.plans@ == plans_before,
                self.actions@ == actions_before,
                *self == *old(self),
                i <= total,
                forall|k: Seq<char>| #[trigger]
                    text::texts_view(ids@).contains(k) <==> among(self.plans, k, i as int)
                        && plans_before[k].root@ == root@,
            decreases total - i,
        {
            let id = self.plans.key_at(i);
            let ghost listed = text::texts_view(ids@);
            let ours: bool = text::same(self.plans.value_at(i).root.as_str(), root);
            if ours {
                ids.push(id.to_owned());
                proof {
                    assert(text::texts_view(ids@) =~= listed.push(id@));
                }
            }
            proof {
                lemma_among_next(self.plans, i as int);
                lemma_listed(listed, text::texts_view(ids@), id@, ours);
            }
            i = i + 1;
        }
        proof {
            lemma_among_all(self.plans);
        }
        self.plans.remove_all(&ids);
        let ghost plans_after = self.plans@;
        proof {
            assert(plans_after =~= forgotten(old(self)@, root@).plans);
        }
        let count: usize = self.actions.len();
        let mut old_ids: Vec<String> = Vec::new();
        let mut n: usize = 0;
        while n < count
            invariant
                count == self.actions.count(),
                self.actions@ == actions_before,
                self.plans@ == plans_after,
                n <= count,
                forall|k: Seq<char>| #[trigger]
                    text::texts_view(old_ids@).contains(k) <==> among(self.actions, k, n as int)
                        && actions_before[k].root@ == root@,
            decreases count - n,
        {
            let id = self.actions.key_at(n);
            let ghost listed = text::texts_view(old_ids@);
            let ours: bool = text::same(self.actions.value_at(n).root.as_str(), root);
            if ours {
                old_ids.push(id.to_owned());
                proof {
                    assert(text::texts_view(old_ids@) =~= listed.push(id@));
                }
            }
            proof {
                lemma_among_next(self.actions, n as int);
                lemma_listed(listed, text::texts_view(old_ids@), id@, ours);
            }
            n = n + 1;
        }
        proof {
            lemma_among_all(self.actions);
        }
        self.actions.remove_all(&old_ids);
        proof {
            assert(action_views(self.actions@) =~= forgotten(old(self)@, root@).actions);
            assert(self@ =~= forgotten(old(self)@, root@));
        }
    }
}

/// A list of identifiers with one more holds that one too.
proof fn lemma_listed(listed: Seq<Seq<char>>, now: Seq<Seq<char>>, id: Seq<char>, chosen: bool)
    requires
        now == if chosen {
            listed.push(id)
        } else {
            listed
        },
    ensures
        forall|k: Seq<char>| #[trigger]
            now.contains(k) <==> (listed.contains(k) || (chosen && k == id)),
{
    if chosen {
        assert forall|k: Seq<char>| #[trigger]
            now.contains(k) <==> (listed.contains(k) || k == id) by {
            if listed.contains(k) {
                let j = choose|j: int| 0 <= j < listed.len() && listed[j] == k;
                assert(now[j] == k);
            }
            assert(now[listed.len() as int] == id);
            if now.contains(k) && k != id {
                let j = choose|j: int| 0 <= j < now.len() && now[j] == k;
                assert(listed[j] == k);
            }
        }
    }
}

/// All but what is of a workspace.
pub open spec fn forgotten(state: ApplicationView, root: Seq<char>) -> ApplicationView {
    ApplicationView {
        plans: Map::new(
            |id: Seq<char>| state.plans.contains_key(id) && state.plans[id].root@ != root,
            |id: Seq<char>| state.plans[id],
        ),
        actions: Map::new(
            |id: Seq<char>| state.actions.contains_key(id) && state.actions[id].root != root,
            |id: Seq<char>| state.actions[id],
        ),
    }
}

/// A plan is carried out at most once: who has taken it leaves none for the
/// next.
pub proof fn law_plans_are_taken_once(
    plans: Map<Seq<char>, RenamePlan>,
    id: Seq<char>,
    root: Seq<char>,
    now: u64,
    other: Seq<char>,
    later: u64,
)
    requires
        plan_taken(plans, id, root, now).1 is Ok,
    ensures
        plan_taken(plan_taken(plans, id, root, now).0, id, other, later).1 == Err::<
            RenamePlan,
            Fault,
        >(Fault::UnknownPlan),
{
}

/// A plan is carried out only in its own workspace and only while it is young.
pub proof fn law_plans_expire(
    plans: Map<Seq<char>, RenamePlan>,
    id: Seq<char>,
    root: Seq<char>,
    now: u64,
)
    requires
        plan_taken(plans, id, root, now).1 is Ok,
    ensures
        plans.contains_key(id),
        plans[id].root@ == root,
        now - plans[id].created < PLAN_TTL,
{
}

/// A disconnected workspace leaves no plan and no action behind.
pub proof fn law_disconnection_drops_plans(
    state: ApplicationView,
    root: Seq<char>,
    id: Seq<char>,
    now: u64,
)
    ensures
        plan_taken(forgotten(state, root).plans, id, root, now).1 is Err,
        action_found(forgotten(state, root).actions, id, root, now).1 is Err,
{
}

/// A listed action is found again by its identifier, in its workspace and while
/// it is young, if the identifiers differ.
pub proof fn law_listed_actions_are_found(
    kept: Map<Seq<char>, ActionView>,
    ids: Seq<Seq<char>>,
    shown: Seq<JsonView>,
    listing: Listing,
    i: int,
    now: u64,
)
    requires
        0 <= i < ids.len() == shown.len(),
        ids.no_duplicates(),
        !is_expired(listing.now, now),
    ensures
        ({
            let actions = with_actions(kept, ids, shown, listing);
            let row = action_rows(ids, shown)->Array_0[i];
            &&& row.field("action_id"@) == JsonView::Text(ids[i])
            &&& action_found(actions, ids[i], listing.root@, now) == (
                actions,
                Ok::<ActionView, Fault>(
                    ActionView {
                        root: listing.root@,
                        uri: listing.uri@,
                        action: shown[i],
                        snapshot: listing.snapshot@,
                        created: listing.now,
                    },
                ),
            )
        }),
{
    lemma_action_kept(kept, ids, shown, listing, i);
    reveal_strlit("action_id");
    reveal_strlit("title");
    reveal_strlit("kind");
    reveal_strlit("disabled");
    reveal_strlit("requiresCommand");
    assert("action_id"@.len() == 9 && "title"@.len() == 5 && "kind"@.len() == 4);
    assert("disabled"@.len() == 8 && "requiresCommand"@.len() == 15);
}

proof fn lemma_action_kept(
    kept: Map<Seq<char>, ActionView>,
    ids: Seq<Seq<char>>,
    shown: Seq<JsonView>,
    listing: Listing,
    i: int,
)
    requires
        0 <= i < ids.len() <= shown.len(),
        ids.no_duplicates(),
    ensures
        with_actions(kept, ids, shown, listing).contains_key(ids[i]),
        with_actions(kept, ids, shown, listing)[ids[i]] == (ActionView {
            root: listing.root@,
            uri: listing.uri@,
            action: shown[i],
            snapshot: listing.snapshot@,
            created: listing.now,
        }),
    decreases ids.len(),
{
    let rest = ids.drop_last();
    if i < rest.len() {
        assert(rest.no_duplicates()) by {
            assert forall|a: int, b: int| 0 <= a < rest.len() && 0 <= b < rest.len() && a != b
                implies rest[a] != rest[b] by {
                assert(ids[a] != ids[b]);
            }
        }
        lemma_action_kept(kept, rest, shown, listing, i);
        assert(ids[i] != ids[ids.len() - 1]);
    }
}

/// At most so many plans are kept, whatever was kept before.
pub proof fn law_plans_are_few(
    plans: Map<Seq<char>, RenamePlan>,
    id: Seq<char>,
    plan: RenamePlan,
    now: u64,
)
    requires
        plans.dom().finite(),
        live_plans(plans, now).dom().len() < MAX_PLANS,
    ensures
        live_plans(plans, now).insert(id, plan).dom().len() <= MAX_PLANS,
{
    let kept = live_plans(plans, now);
    assert(kept.dom().subset_of(plans.dom()));
    vstd::set_lib::lemma_set_subset_finite(plans.dom(), kept.dom());
    assert(kept.insert(id, plan).dom() =~= kept.dom().insert(id));
}

/// At most so many actions are kept, whatever was kept before.
pub proof fn law_actions_are_few(
    actions: Map<Seq<char>, ActionView>,
    ids: Seq<Seq<char>>,
    shown: Seq<JsonView>,
    listing: Listing,
)
    requires
        actions.dom().finite(),
        live_actions(actions, listing.now).dom().len() + ids.len() <= MAX_ACTIONS,
    ensures
        with_actions(live_actions(actions, listing.now), ids, shown, listing).dom().len()
            <= MAX_ACTIONS,
{
    let kept = live_actions(actions, listing.now);
    assert(kept.dom().subset_of(actions.dom()));
    vstd::set_lib::lemma_set_subset_finite(actions.dom(), kept.dom());
    lemma_actions_count(kept, ids, shown, listing);
}

proof fn lemma_actions_count(
    kept: Map<Seq<char>, ActionView>,
    ids: Seq<Seq<char>>,
    shown: Seq<JsonView>,
    listing: Listing,
)
    requires
        kept.dom().finite(),
    ensures
        with_actions(kept, ids, shown, listing).dom().finite(),
        with_actions(kept, ids, shown, listing).dom().len() <= kept.dom().len() + ids.len(),
    decreases ids.len(),
{
    if ids.len() > 0 {
        lemma_actions_count(kept, ids.drop_last(), shown, listing);
        let before = with_actions(kept, ids.drop_last(), shown, listing);
        let after = with_actions(kept, ids, shown, listing);
        assert(after.dom() =~= before.dom().insert(ids.last()));
    }
}

/// A plan that was kept is given back as it was kept, to its own workspace and for
/// five minutes, whatever is kept beside it.
pub proof fn law_kept_plans_are_given_back(
    plans: Map<Seq<char>, RenamePlan>,
    id: Seq<char>,
    plan: RenamePlan,
    root: Seq<char>,
    kept: u64,
    now: u64,
)
    requires
        plan.root@ == root,
        now - plan.created < 300_000,
    ensures
        plan_taken(live_plans(plans, kept).insert(id, plan), id, root, now).1 == Ok::<
            RenamePlan,
            Fault,
        >(plan),
        plans.contains_key(id) && plans[id] == plan ==> plan_taken(plans, id, root, now).1 == Ok::<
            RenamePlan,
            Fault,
        >(plan),
        plans.contains_key(id) && plans[id] == plan ==> live_plans(plans, now).contains_key(id)
            && live_plans(plans, now)[id] == plan,
{
}

/// A plan that is not given out says why: it is unknown, of another workspace, where
/// it stays, or five minutes old.
pub proof fn law_refused_plans_say_why(
    plans: Map<Seq<char>, RenamePlan>,
    id: Seq<char>,
    root: Seq<char>,
    now: u64,
)
    ensures
        !plans.contains_key(id) ==> plan_taken(plans, id, root, now) == (
            plans,
            Err::<RenamePlan, Fault>(Fault::UnknownPlan),
        ),
        plans.contains_key(id) && plans[id].root@ != root ==> plan_taken(plans, id, root, now) == (
            plans,
            Err::<RenamePlan, Fault>(Fault::PlanElsewhere),
        ),
        plans.contains_key(id) && plans[id].root@ == root && now - plans[id].created >= 300_000
            ==> plan_taken(plans, id, root, now).1 == Err::<RenamePlan, Fault>(Fault::PlanExpired),
        forall|other: Seq<char>|
            other != id && plans.contains_key(other) ==> (#[trigger] plan_taken(
                plans,
                id,
                root,
                now,
            ).0.contains_key(other)) && plan_taken(plans, id, root, now).0[other] == plans[other],
{
}

/// An action that is not found says why, and what is found stays to be found.
pub proof fn law_refused_actions_say_why(
    actions: Map<Seq<char>, ActionView>,
    id: Seq<char>,
    root: Seq<char>,
    now: u64,
)
    ensures
        !actions.contains_key(id) ==> action_found(actions, id, root, now).1 == Err::<
            ActionView,
            Fault,
        >(Fault::UnknownAction),
        actions.contains_key(id) && actions[id].root != root ==> action_found(
            actions,
            id,
            root,
            now,
        ).1 == Err::<ActionView, Fault>(Fault::ActionElsewhere),
        actions.contains_key(id) && actions[id].root == root && now - actions[id].created
            >= 300_000 ==> action_found(actions, id, root, now).1 == Err::<ActionView, Fault>(
            Fault::ActionExpired,
        ),
        actions.contains_key(id) && actions[id].root == root && now - actions[id].created < 300_000
            ==> action_found(actions, id, root, now) == (
            actions,
            Ok::<ActionView, Fault>(actions[id]),
        ),
        actions.contains_key(id) && now - actions[id].created < 300_000 ==> live_actions(
            actions,
            now,
        ).contains_key(id) && live_actions(actions, now)[id] == actions[id],
        actions.contains_key(id) && now - actions[id].created >= 300_000 ==> !live_actions(
            actions,
            now,
        ).contains_key(id),
{
}

/// Every action that a server lists is shown, in order, with its title and kind,
/// whether and why it is disabled, and whether it would need a command.
pub proof fn law_all_actions_are_shown(ids: Seq<Seq<char>>, actions: Seq<JsonView>, i: int)
    requires
        0 <= i < actions.len(),
    ensures
        action_rows(ids, actions) is Array,
        action_rows(ids, actions)->Array_0.len() == actions.len(),
        ({
            let row = action_rows(ids, actions)->Array_0[i];
            &&& row.field("action_id"@) == JsonView::Text(ids[i])
            &&& row.field("title"@) == actions[i].field("title"@)
            &&& row.field("kind"@) == actions[i].field("kind"@)
            &&& row.field("disabled"@) == actions[i].field("disabled"@)
            &&& row.field("requiresCommand"@) == JsonView::Bool(
                !(actions[i].field("command"@) is Null),
            )
        }),
{
    reveal_strlit("action_id");
    reveal_strlit("title");
    reveal_strlit("kind");
    reveal_strlit("disabled");
    reveal_strlit("requiresCommand");
    assert("action_id"@.len() == 9);
    assert("title"@.len() == 5);
    assert("kind"@.len() == 4);
    assert("disabled"@.len() == 8);
    assert("requiresCommand"@.len() == 15);
}

/// Listing actions loses none of those that are kept and still young, unless they
/// are shown anew.
pub proof fn law_listing_keeps_others(
    kept: Map<Seq<char>, ActionView>,
    ids: Seq<Seq<char>>,
    shown: Seq<JsonView>,
    listing: Listing,
    id: Seq<char>,
)
    requires
        !ids.contains(id),
    ensures
        with_actions(kept, ids, shown, listing).contains_key(id) <==> kept.contains_key(id),
        kept.contains_key(id) ==> with_actions(kept, ids, shown, listing)[id] == kept[id],
    decreases ids.len(),
{
    if ids.len() > 0 {
        let front = ids.drop_last();
        assert(!front.contains(id)) by {
            if front.contains(id) {
                let j = choose|j: int| 0 <= j < front.len() && front[j] == id;
                assert(ids[j] == id);
            }
        }
        assert(ids[ids.len() - 1] != id) by {
            if ids[ids.len() - 1] == id {
                assert(ids.contains(id));
            }
        }
        law_listing_keeps_others(kept, front, shown, listing, id);
    }
}

/// Disconnecting a workspace leaves the plans and actions of all others.
pub proof fn law_disconnection_spares_others(
    state: ApplicationView,
    root: Seq<char>,
    id: Seq<char>,
)
    ensures
        state.plans.contains_key(id) && state.plans[id].root@ != root ==> forgotten(
            state,
            root,
        ).plans.contains_key(id) && forgotten(state, root).plans[id] == state.plans[id],
        state.actions.contains_key(id) && state.actions[id].root != root ==> forgotten(
            state,
            root,
        ).actions.contains_key(id) && forgotten(state, root).actions[id] == state.actions[id],
{
}

} // verus!
