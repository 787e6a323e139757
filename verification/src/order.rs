//! The order of paths: by their components, one after the other.

use crate::escape::{self, path_bytes};
use crate::path;
use crate::text;
use vstd::prelude::*;
use vstd::relations::{sorted_by, total_ordering};
use vstd::seq_lib;

verus! {

/// Where a component stands among the kinds of components: the root, a dot, two
/// dots, a name.
pub open spec fn rank(component: Seq<char>) -> int {
    if component == "/"@ {
        0
    } else if component == "."@ {
        1
    } else if component == ".."@ {
        2
    } else {
        3
    }
}

/// The order of bytes: by the first in which they differ, a beginning before
/// anything longer.
pub open spec fn bytes_before(a: Seq<u8>, b: Seq<u8>) -> bool
    decreases a.len(),
{
    if b.len() == 0 {
        false
    } else if a.len() == 0 {
        true
    } else if a[0] != b[0] {
        a[0] < b[0]
    } else {
        bytes_before(a.drop_first(), b.drop_first())
    }
}

/// Whether a name comes before another: by its bytes. So that no two texts
/// compare alike, those with the same bytes go by their characters.
pub open spec fn name_before(a: Seq<char>, b: Seq<char>) -> bool {
    bytes_before(path_bytes(a), path_bytes(b)) || (path_bytes(a) == path_bytes(b)
        && text::comes_before(a, b))
}

/// Whether a component comes before another: by its kind, names by their bytes.
pub open spec fn component_before(a: Seq<char>, b: Seq<char>) -> bool {
    rank(a) < rank(b) || (rank(a) == rank(b) && name_before(a, b))
}

/// Whether components come before others: by the first in which they differ, a
/// beginning before anything longer.
pub open spec fn components_before(a: Seq<Seq<char>>, b: Seq<Seq<char>>) -> bool
    decreases a.len(),
{
    if b.len() == 0 {
        false
    } else if a.len() == 0 {
        true
    } else if a[0] != b[0] {
        component_before(a[0], b[0])
    } else {
        components_before(a.drop_first(), b.drop_first())
    }
}

/// Whether a path may stand before another. So that no two paths may stand
/// either way, paths with the same components go by their text.
pub open spec fn may_precede(a: Seq<char>, b: Seq<char>) -> bool {
    let x = path::components(a);
    let y = path::components(b);
    components_before(x, y) || (x == y && !text::comes_before(b, a))
}

/// The order of paths.
pub open spec fn path_order() -> spec_fn(Seq<char>, Seq<char>) -> bool {
    |a: Seq<char>, b: Seq<char>| may_precede(a, b)
}

/// Paths in their order.
pub open spec fn arranged(paths: Seq<Seq<char>>) -> Seq<Seq<char>> {
    paths.sort_by(path_order())
}

proof fn lemma_bytes_irreflexive(a: Seq<u8>)
    ensures
        !bytes_before(a, a),
    decreases a.len(),
{
    if a.len() > 0 {
        lemma_bytes_irreflexive(a.drop_first());
    }
}

proof fn lemma_bytes_transitive(a: Seq<u8>, b: Seq<u8>, c: Seq<u8>)
    requires
        bytes_before(a, b),
        bytes_before(b, c),
    ensures
        bytes_before(a, c),
    decreases a.len(),
{
    if a.len() > 0 && a[0] == b[0] && b[0] == c[0] {
        lemma_bytes_transitive(a.drop_first(), b.drop_first(), c.drop_first());
    }
}

proof fn lemma_bytes_total(a: Seq<u8>, b: Seq<u8>)
    ensures
        bytes_before(a, b) || bytes_before(b, a) || a == b,
    decreases a.len(),
{
    if a.len() > 0 && b.len() > 0 && a[0] == b[0] {
        lemma_bytes_total(a.drop_first(), b.drop_first());
        if a.drop_first() == b.drop_first() {
            assert(a =~= seq![a[0]] + a.drop_first());
            assert(b =~= seq![b[0]] + b.drop_first());
        }
    } else if a.len() == 0 && b.len() == 0 {
        assert(a =~= b);
    }
}

proof fn lemma_component_irreflexive(a: Seq<char>)
    ensures
        !component_before(a, a),
{
    lemma_bytes_irreflexive(path_bytes(a));
    text::lemma_order_irreflexive(a);
}

proof fn lemma_component_transitive(a: Seq<char>, b: Seq<char>, c: Seq<char>)
    requires
        component_before(a, b),
        component_before(b, c),
    ensures
        component_before(a, c),
{
    if rank(a) == rank(b) && rank(b) == rank(c) {
        let x = path_bytes(a);
        let y = path_bytes(b);
        let z = path_bytes(c);
        if bytes_before(x, y) && bytes_before(y, z) {
            lemma_bytes_transitive(x, y, z);
        } else if x == y && y == z {
            lemma_bytes_irreflexive(x);
            text::lemma_order_transitive(a, b, c);
        }
    }
}

proof fn lemma_component_total(a: Seq<char>, b: Seq<char>)
    ensures
        component_before(a, b) || component_before(b, a) || a == b,
{
    lemma_bytes_total(path_bytes(a), path_bytes(b));
    text::lemma_order_total(a, b);
}

proof fn lemma_components_irreflexive(a: Seq<Seq<char>>)
    ensures
        !components_before(a, a),
    decreases a.len(),
{
    if a.len() > 0 {
        lemma_components_irreflexive(a.drop_first());
    }
}

proof fn lemma_components_transitive(a: Seq<Seq<char>>, b: Seq<Seq<char>>, c: Seq<Seq<char>>)
    requires
        components_before(a, b),
        components_before(b, c),
    ensures
        components_before(a, c),
    decreases a.len(),
{
    if a.len() > 0 {
        if a[0] == b[0] && b[0] == c[0] {
            lemma_components_transitive(a.drop_first(), b.drop_first(), c.drop_first());
        } else if a[0] != b[0] && b[0] != c[0] {
            lemma_component_transitive(a[0], b[0], c[0]);
            lemma_component_irreflexive(a[0]);
        }
    }
}

proof fn lemma_components_total(a: Seq<Seq<char>>, b: Seq<Seq<char>>)
    ensures
        components_before(a, b) || components_before(b, a) || a == b,
    decreases a.len(),
{
    if a.len() > 0 && b.len() > 0 {
        if a[0] == b[0] {
            lemma_components_total(a.drop_first(), b.drop_first());
            if a.drop_first() == b.drop_first() {
                assert(a =~= seq![a[0]] + a.drop_first());
                assert(b =~= seq![b[0]] + b.drop_first());
            }
        } else {
            lemma_component_total(a[0], b[0]);
        }
    } else if a.len() == 0 && b.len() == 0 {
        assert(a =~= b);
    }
}

/// Of two paths one may stand before the other, and both only if they are the
/// same; what may stand before a path may stand before all that follow it.
pub proof fn law_paths_are_ordered()
    ensures
        total_ordering(path_order()),
{
    let order = path_order();
    assert forall|a: Seq<char>| #[trigger] order(a, a) by {
        text::lemma_order_irreflexive(a);
    }
    assert forall|a: Seq<char>, b: Seq<char>| #[trigger] order(a, b) && #[trigger] order(
        b,
        a,
    ) implies a == b by {
        let x = path::components(a);
        let y = path::components(b);
        lemma_components_irreflexive(x);
        if components_before(x, y) && components_before(y, x) {
            lemma_components_transitive(x, y, x);
        }
        text::lemma_order_total(a, b);
    }
    assert forall|a: Seq<char>, b: Seq<char>, c: Seq<char>| #[trigger] order(a, b)
        && #[trigger] order(b, c) implies order(a, c) by {
        let x = path::components(a);
        let y = path::components(b);
        let z = path::components(c);
        if components_before(x, y) && components_before(y, z) {
            lemma_components_transitive(x, y, z);
        } else if x == y && y == z {
            text::lemma_order_total(a, b);
            text::lemma_order_total(b, c);
            if text::comes_before(c, a) {
                if a != b {
                    text::lemma_order_transitive(c, a, b);
                }
            }
        }
    }
    assert forall|a: Seq<char>, b: Seq<char>| #[trigger] order(a, b) || #[trigger] order(b, a) by {
        lemma_components_total(path::components(a), path::components(b));
        text::lemma_order_total(a, b);
        if text::comes_before(a, b) && text::comes_before(b, a) {
            text::lemma_order_transitive(a, b, a);
            text::lemma_order_irreflexive(a);
        }
    }
}

/// Paths in their order are the same paths, each as often, and each may stand
/// before all that follow it.
pub proof fn law_arranged_paths(paths: Seq<Seq<char>>)
    ensures
        arranged(paths).to_multiset() == paths.to_multiset(),
        sorted_by(arranged(paths), path_order()),
        arranged(paths).to_set() == paths.to_set(),
        arranged(paths).len() == paths.len(),
{
    broadcast use seq_lib::group_to_multiset_ensures;

    law_paths_are_ordered();
    paths.lemma_sort_by_ensures(path_order());
    let sorted = arranged(paths);
    assert(sorted.to_multiset().len() == paths.to_multiset().len());
    assert forall|p: Seq<char>| #[trigger] sorted.to_set().contains(p) == paths.to_set().contains(
        p,
    ) by {
        assert(sorted.contains(p) <==> sorted.to_multiset().count(p) > 0);
        assert(paths.contains(p) <==> paths.to_multiset().count(p) > 0);
    }
    assert(sorted.to_set() =~= paths.to_set());
}

/// Paths none of which occurs twice still do not, once they are in order.
pub proof fn law_arranged_once(paths: Seq<Seq<char>>)
    requires
        paths.no_duplicates(),
    ensures
        arranged(paths).no_duplicates(),
{
    law_arranged_paths(paths);
    paths.lemma_multiset_has_no_duplicates();
    arranged(paths).lemma_multiset_has_no_duplicates_conv();
}

fn rank_of(component: &str) -> (r: u8)
    ensures
        r == rank(component@),
{
    if text::same(component, "/") {
        0
    } else if text::same(component, ".") {
        1
    } else if text::same(component, "..") {
        2
    } else {
        3
    }
}

/// Whether a name comes before another.
fn name_precedes(a: &str, b: &str) -> (r: bool)
    ensures
        r == name_before(a@, b@),
{
    let x = escape::bytes_of_path(a);
    let y = escape::bytes_of_path(b);
    proof {
        assert(x@.skip(0) =~= x@);
        assert(y@.skip(0) =~= y@);
    }
    let mut i: usize = 0;
    while i < x.len() && i < y.len() && x[i] == y[i]
        invariant
            x@ == path_bytes(a@),
            y@ == path_bytes(b@),
            i <= x@.len(),
            i <= y@.len(),
            forall|k: int| 0 <= k < i ==> x@[k] == y@[k],
            bytes_before(x@, y@) == bytes_before(x@.skip(i as int), y@.skip(i as int)),
        decreases x@.len() - i,
    {
        proof {
            assert(x@.skip(i as int).drop_first() =~= x@.skip(i + 1));
            assert(y@.skip(i as int).drop_first() =~= y@.skip(i + 1));
        }
        i = i + 1;
    }
    if i < y.len() {
        if i < x.len() {
            return x[i] < y[i];
        }
        return true;
    }
    if i < x.len() {
        return false;
    }
    proof {
        assert(x@ =~= y@);
    }
    text::before(a, b)
}

/// Whether components come before others.
fn precedes(a: &Vec<String>, b: &Vec<String>) -> (r: bool)
    ensures
        r == components_before(text::texts_view(a@), text::texts_view(b@)),
{
    let ghost x = text::texts_view(a@);
    let ghost y = text::texts_view(b@);
    proof {
        assert(x.skip(0) =~= x);
        assert(y.skip(0) =~= y);
    }
    let mut i: usize = 0;
    while i < a.len() && i < b.len() && text::same(a[i].as_str(), b[i].as_str())
        invariant
            x == text::texts_view(a@),
            y == text::texts_view(b@),
            i <= a@.len(),
            i <= b@.len(),
            components_before(x, y) == components_before(x.skip(i as int), y.skip(i as int)),
        decreases a@.len() - i,
    {
        proof {
            assert(x.skip(i as int)[0] == a@[i as int]@);
            assert(y.skip(i as int)[0] == b@[i as int]@);
            assert(x.skip(i as int).drop_first() =~= x.skip(i + 1));
            assert(y.skip(i as int).drop_first() =~= y.skip(i + 1));
        }
        i = i + 1;
    }
    if i >= b.len() {
        return false;
    }
    if i >= a.len() {
        return true;
    }
    proof {
        assert(x.skip(i as int)[0] == a@[i as int]@);
        assert(y.skip(i as int)[0] == b@[i as int]@);
    }
    let first: u8 = rank_of(a[i].as_str());
    let second: u8 = rank_of(b[i].as_str());
    first < second || (first == second && name_precedes(a[i].as_str(), b[i].as_str()))
}

/// A path with its components.
struct Split {
    path: String,
    components: Vec<String>,
}

impl Split {
    spec fn is_right(self) -> bool {
        text::texts_view(self.components@) == path::components(self.path@)
    }
}

spec fn paths_in(list: Seq<Split>) -> Seq<Seq<char>> {
    list.map_values(|split: Split| split.path@)
}

fn may_stand_before(a: &Split, b: &Split) -> (r: bool)
    requires
        a.is_right(),
        b.is_right(),
    ensures
        r == may_precede(a.path@, b.path@),
{
    if precedes(&a.components, &b.components) {
        return true;
    }
    if precedes(&b.components, &a.components) {
        proof {
            lemma_components_irreflexive(path::components(a.path@));
        }
        return false;
    }
    proof {
        lemma_components_total(path::components(a.path@), path::components(b.path@));
    }
    !text::before(b.path.as_str(), a.path.as_str())
}

/// The place for one more in a list in order: behind all that may stand before
/// it.
fn place_for(list: &Vec<Split>, next: &Split) -> (r: usize)
    requires
        forall|i: int| 0 <= i < list@.len() ==> (#[trigger] list@[i]).is_right(),
        sorted_by(paths_in(list@), path_order()),
        next.is_right(),
    ensures
        r <= list@.len(),
        forall|i: int| 0 <= i < r ==> may_precede((#[trigger] list@[i]).path@, next.path@),
        forall|i: int|
            r <= i < list@.len() ==> may_precede(next.path@, (#[trigger] list@[i]).path@),
{
    proof {
        law_paths_are_ordered();
    }
    let ghost order = path_order();
    let ghost all = paths_in(list@);
    let mut low: usize = 0;
    let mut high: usize = list.len();
    while low < high
        invariant
            low <= high <= list@.len(),
            order == path_order(),
            all == paths_in(list@),
            total_ordering(order),
            sorted_by(all, order),
            next.is_right(),
            forall|i: int| 0 <= i < list@.len() ==> (#[trigger] list@[i]).is_right(),
            forall|i: int| 0 <= i < low ==> may_precede((#[trigger] list@[i]).path@, next.path@),
            forall|i: int|
                high <= i < list@.len() ==> may_precede(next.path@, (#[trigger] list@[i]).path@),
        decreases high - low,
    {
        let middle: usize = low + (high - low) / 2;
        let before = may_stand_before(&list[middle], next);
        proof {
            let m = all[middle as int];
            assert(m == list@[middle as int].path@);
            assert(order(m, next.path@) || order(next.path@, m));
            assert forall|i: int| 0 <= i < list@.len() && before && i <= middle implies may_precede(
                (#[trigger] list@[i]).path@,
                next.path@,
            ) by {
                assert(all[i] == list@[i].path@);
                if i < middle {
                    assert(order(all[i], m));
                    assert(order(m, next.path@));
                }
            }
            assert forall|i: int| 0 <= i < list@.len() && !before && middle <= i implies
                may_precede(next.path@, (#[trigger] list@[i]).path@) by {
                assert(all[i] == list@[i].path@);
                assert(order(next.path@, m));
                if middle < i {
                    assert(order(m, all[i]));
                }
            }
        }
        if before {
            low = middle + 1;
        } else {
            high = middle;
        }
    }
    low
}

/// Puts paths in their order.
pub fn arrange(paths: Vec<String>) -> (r: Vec<String>)
    ensures
        text::texts_view(r@) == arranged(text::texts_view(paths@)),
{
    let ghost given = text::texts_view(paths@);
    let mut list: Vec<Split> = Vec::new();
    let mut i: usize = 0;
    proof {
        assert(paths_in(list@) =~= given.take(0));
    }
    while i < paths.len()
        invariant
            given == text::texts_view(paths@),
            i <= paths@.len(),
            list@.len() == i,
            forall|k: int| 0 <= k < list@.len() ==> (#[trigger] list@[k]).is_right(),
            sorted_by(paths_in(list@), path_order()),
            paths_in(list@).to_multiset() == given.take(i as int).to_multiset(),
        decreases paths@.len() - i,
    {
        let path = paths[i].as_str();
        let next = Split { path: path.to_owned(), components: path::components_list(path) };
        let at: usize = place_for(&list, &next);
        let ghost before = list@;
        list.insert(at, next);
        proof {
            let old_paths = paths_in(before);
            let new_paths = paths_in(list@);
            assert(new_paths =~= old_paths.insert(at as int, path@));
            seq_lib::to_multiset_insert(old_paths, at as int, path@);
            assert(given.take(i + 1) =~= given.take(i as int).push(path@));
            seq_lib::to_multiset_build(given.take(i as int), path@);
            let order = path_order();
            assert forall|a: int, b: int| 0 <= a < b < new_paths.len() implies #[trigger] order(
                new_paths[a],
                new_paths[b],
            ) by {
                let x = if a < at {
                    a
                } else {
                    a - 1
                };
                let y = if b < at {
                    b
                } else {
                    b - 1
                };
                if a == at {
                    assert(may_precede(path@, before[y].path@));
                } else if b == at {
                    assert(may_precede(before[x].path@, path@));
                } else {
                    assert(order(old_paths[x], old_paths[y]));
                }
            }
            assert forall|k: int| 0 <= k < list@.len() implies (#[trigger] list@[k]).is_right() by {
                if k < at {
                    assert(list@[k] == before[k]);
                } else if k > at {
                    assert(list@[k] == before[k - 1]);
                }
            }
        }
        i = i + 1;
    }
    let ghost sorted = paths_in(list@);
    proof {
        assert(given.take(i as int) =~= given);
        law_paths_are_ordered();
        law_arranged_paths(given);
        seq_lib::lemma_sorted_unique(sorted, arranged(given), path_order());
    }
    let mut out: Vec<String> = Vec::new();
    let mut k: usize = 0;
    while k < list.len()
        invariant
            k <= list@.len(),
            sorted == paths_in(list@),
            out@.len() == k,
            forall|j: int| 0 <= j < k ==> #[trigger] out@[j]@ == sorted[j],
        decreases list@.len() - k,
    {
        out.push(list[k].path.as_str().to_owned());
        k = k + 1;
    }
    proof {
        assert(text::texts_view(out@) =~= sorted);
    }
    out
}

proof fn lemma_bytes_front(front: Seq<u8>, a: Seq<u8>, b: Seq<u8>)
    ensures
        bytes_before(front + a, front + b) == bytes_before(a, b),
    decreases front.len(),
{
    if front.len() == 0 {
        assert(front + a =~= a && front + b =~= b);
    } else {
        lemma_bytes_front(front.drop_first(), a, b);
        assert((front + a).drop_first() =~= front.drop_first() + a);
        assert((front + b).drop_first() =~= front.drop_first() + b);
        if b.len() == 0 {
            assert((front + b).len() > 0);
        }
    }
}

proof fn lemma_components_front(front: Seq<Seq<char>>, a: Seq<Seq<char>>, b: Seq<Seq<char>>)
    ensures
        components_before(front + a, front + b) == components_before(a, b),
    decreases front.len(),
{
    if front.len() == 0 {
        assert(front + a =~= a && front + b =~= b);
    } else {
        lemma_components_front(front.drop_first(), a, b);
        assert((front + a).drop_first() =~= front.drop_first() + a);
        assert((front + b).drop_first() =~= front.drop_first() + b);
    }
}

/// Paths go by their components: a directory stands before all that it holds, and of
/// two names in one directory the one whose bytes are less at the first difference
/// stands first, with all that it holds.
pub proof fn law_paths_go_by_components(
    a: Seq<char>,
    b: Seq<char>,
    front: Seq<Seq<char>>,
    first: Seq<Seq<char>>,
    second: Seq<Seq<char>>,
    bytes: Seq<u8>,
    less: Seq<u8>,
    more: Seq<u8>,
)
    requires
        path::components(a) == front + first,
        path::components(b) == front + second,
        second.len() > 0,
        first.len() == 0 || (first[0] != "/"@ && first[0] != "."@ && first[0] != ".."@ && second[0]
            != "/"@ && second[0] != "."@ && second[0] != ".."@ && path_bytes(first[0]) == bytes
            + less && path_bytes(second[0]) == bytes + more && more.len() > 0 && (less.len() == 0
            || less[0] < more[0])),
    ensures
        may_precede(a, b),
        !may_precede(b, a),
{
    lemma_components_front(front, first, second);
    if first.len() > 0 {
        lemma_bytes_front(bytes, less, more);
        assert(bytes_before(path_bytes(first[0]), path_bytes(second[0])));
        if first[0] == second[0] {
            lemma_bytes_irreflexive(path_bytes(first[0]));
        }
    }
    assert(components_before(path::components(a), path::components(b)));
    lemma_components_irreflexive(path::components(a));
    if components_before(path::components(b), path::components(a)) {
        lemma_components_transitive(
            path::components(a),
            path::components(b),
            path::components(a),
        );
    }
}

} // verus!
