//! A table from texts to values, kept in the order of its keys.

use crate::text;
use vstd::prelude::*;

verus! {

/// A table whose keys are texts. No key occurs twice, and the entries stand in
/// the order of their keys.
#[derive(Debug, PartialEq)]
pub struct Table<V> {
    pub(crate) entries: Vec<(String, V)>,
}

/// Whether the keys of a run of entries stand in strictly increasing order.
pub open spec fn in_key_order<V>(entries: Seq<(String, V)>) -> bool {
    forall|i: int, j: int|
        0 <= i < j < entries.len() ==> text::comes_before(
            #[trigger] entries[i].0@,
            #[trigger] entries[j].0@,
        )
}

/// Whether a key stands at a place.
pub open spec fn key_at<V>(entries: Seq<(String, V)>, key: Seq<char>, i: int) -> bool {
    0 <= i < entries.len() && entries[i].0@ == key
}

/// The map that a run of entries stands for.
pub open spec fn entries_map<V>(entries: Seq<(String, V)>) -> Map<Seq<char>, V> {
    Map::new(
        |key: Seq<char>| exists|i: int| key_at(entries, key, i),
        |key: Seq<char>| entries[choose|i: int| key_at(entries, key, i)].1,
    )
}

/// Whether a key is among the first ones of a table.
pub open spec fn among<V>(table: Table<V>, key: Seq<char>, n: int) -> bool {
    exists|j: int| 0 <= j < n && #[trigger] table.key(j) == key
}

/// The keys among the first ones, with one more.
pub proof fn lemma_among_next<V>(table: Table<V>, i: int)
    requires
        0 <= i,
    ensures
        forall|key: Seq<char>| #[trigger]
            among(table, key, i + 1) <==> (among(table, key, i) || key == table.key(i)),
{
    assert forall|key: Seq<char>| #[trigger]
        among(table, key, i + 1) <==> (among(table, key, i) || key == table.key(i)) by {
        if among(table, key, i) {
            let j = choose|j: int| 0 <= j < i && #[trigger] table.key(j) == key;
            assert(0 <= j < i + 1 && table.key(j) == key);
        }
    }
}

/// All keys are among the first ones, if those are all.
pub proof fn lemma_among_all<V>(table: Table<V>)
    ensures
        forall|key: Seq<char>| #[trigger]
            among(table, key, table.count() as int) <==> table@.contains_key(key),
{
    assert forall|key: Seq<char>| #[trigger]
        among(table, key, table.count() as int) <==> table@.contains_key(key) by {
        if table@.contains_key(key) {
            let j = choose|j: int| key_at(table.entries@, key, j);
            assert(table.key(j) == key);
        }
        if among(table, key, table.count() as int) {
            let j = choose|j: int| 0 <= j < table.count() && #[trigger] table.key(j) == key;
            assert(key_at(table.entries@, key, j));
        }
    }
}

/// A key in order stands at one place only.
proof fn lemma_one_place<V>(entries: Seq<(String, V)>, i: int, j: int)
    requires
        in_key_order(entries),
        0 <= i < entries.len(),
        0 <= j < entries.len(),
        entries[i].0@ == entries[j].0@,
    ensures
        i == j,
{
    text::lemma_order_irreflexive(entries[i].0@);
    if i < j {
        assert(text::comes_before(entries[i].0@, entries[j].0@));
    } else if j < i {
        assert(text::comes_before(entries[j].0@, entries[i].0@));
    }
}

/// What stands at a place is what the map holds for its key.
pub proof fn lemma_entry<V>(entries: Seq<(String, V)>, i: int)
    requires
        in_key_order(entries),
        0 <= i < entries.len(),
    ensures
        entries_map(entries).contains_key(entries[i].0@),
        entries_map(entries)[entries[i].0@] == entries[i].1,
{
    let key = entries[i].0@;
    assert(key_at(entries, key, i));
    let k = choose|k: int| key_at(entries, key, k);
    lemma_one_place(entries, i, k);
}

/// A key that stands at no place is not in the map.
proof fn lemma_absent<V>(entries: Seq<(String, V)>, key: Seq<char>)
    requires
        forall|i: int| 0 <= i < entries.len() ==> #[trigger] entries[i].0@ != key,
    ensures
        !entries_map(entries).contains_key(key),
{
}

impl<V> Table<V> {
    #[verifier::type_invariant]
    pub(crate) open(crate) spec fn well_formed(self) -> bool {
        in_key_order(self.entries@)
    }

    /// The number of entries.
    pub open(crate) spec fn count(self) -> nat {
        self.entries@.len()
    }

    /// The key at a place, in the order of the keys.
    pub open(crate) spec fn key(self, i: int) -> Seq<char> {
        self.entries@[i].0@
    }

    /// The value at a place, in the order of the keys.
    pub open(crate) spec fn value(self, i: int) -> V {
        self.entries@[i].1
    }

    /// The keys, in their order.
    pub open spec fn keys(self) -> Seq<Seq<char>> {
        Seq::new(self.count(), |i: int| self.key(i))
    }

    /// An empty table.
    pub fn new() -> (table: Self)
        ensures
            table@ == Map::<Seq<char>, V>::empty(),
            table.count() == 0,
    {
        let table = Table { entries: Vec::new() };
        proof {
            assert(table@ =~= Map::<Seq<char>, V>::empty());
        }
        table
    }

    /// The number of entries.
    pub fn len(&self) -> (n: usize)
        ensures
            n == self.count(),
            self.count() == self@.dom().len(),
            self@.dom().finite(),
    {
        proof {
            use_type_invariant(self);
            lemma_count(self.entries@);
        }
        self.entries.len()
    }

    /// The key at a place, in the order of the keys.
    pub fn key_at(&self, i: usize) -> (key: &str)
        requires
            i < self.count(),
        ensures
            key@ == self.key(i as int),
            self@.contains_key(key@),
            self@[key@] == self.value(i as int),
            forall|j: int|
                0 <= j < i ==> text::comes_before(#[trigger] self.key(j), self.key(i as int)),
    {
        proof {
            use_type_invariant(self);
            lemma_entry(self.entries@, i as int);
        }
        self.entries[i].0.as_str()
    }

    /// The value at a place, in the order of the keys.
    pub fn value_at(&self, i: usize) -> (value: &V)
        requires
            i < self.count(),
        ensures
            *value == self.value(i as int),
            self@.contains_key(self.key(i as int)),
            self@[self.key(i as int)] == *value,
    {
        proof {
            use_type_invariant(self);
            lemma_entry(self.entries@, i as int);
        }
        &self.entries[i].1
    }

    /// The keys, in their order.
    pub fn key_list(&self) -> (r: Vec<String>)
        ensures
            text::texts_view(r@) == self.keys(),
            text::texts_view(r@).to_set() == self@.dom(),
            text::texts_view(r@).no_duplicates(),
            text::in_text_order(text::texts_view(r@)),
    {
        proof {
            use_type_invariant(self);
        }
        let mut out: Vec<String> = Vec::new();
        let mut i: usize = 0;
        while i < self.entries.len()
            invariant
                i <= self.entries@.len(),
                out@.len() == i,
                forall|j: int| 0 <= j < i ==> #[trigger] out@[j]@ == self.key(j),
            decreases self.entries@.len() - i,
        {
            out.push(self.entries[i].0.as_str().to_owned());
            i = i + 1;
        }
        proof {
            let list = text::texts_view(out@);
            assert(list =~= self.keys());
            assert forall|k: Seq<char>|
                #[trigger] list.to_set().contains(k) == self@.dom().contains(k) by {
                if list.contains(k) {
                    let j = choose|j: int| 0 <= j < list.len() && list[j] == k;
                    assert(key_at(self.entries@, k, j));
                }
                if self@.dom().contains(k) {
                    let j = choose|j: int| key_at(self.entries@, k, j);
                    assert(list[j] == k);
                }
            }
            assert(list.to_set() =~= self@.dom());
            assert forall|a: int, b: int| 0 <= a < b < list.len() implies text::comes_before(
                #[trigger] list[a],
                #[trigger] list[b],
            ) by {
                assert(text::comes_before(self.entries@[a].0@, self.entries@[b].0@));
            }
            assert forall|a: int, b: int| 0 <= a < list.len() && 0 <= b < list.len() && a != b
                implies list[a] != list[b] by {
                text::lemma_order_irreflexive(list[a]);
                if a < b {
                    assert(text::comes_before(self.entries@[a].0@, self.entries@[b].0@));
                } else {
                    assert(text::comes_before(self.entries@[b].0@, self.entries@[a].0@));
                }
            }
        }
        out
    }

    /// The first place whose key does not come before `key`.
    fn place(&self, key: &str) -> (i: usize)
        ensures
            i <= self.entries@.len(),
            forall|j: int| 0 <= j < i ==> text::comes_before(#[trigger] self.entries@[j].0@, key@),
            i < self.entries@.len() ==> !text::comes_before(self.entries@[i as int].0@, key@),
    {
        let mut i: usize = 0;
        while i < self.entries.len() && text::before(self.entries[i].0.as_str(), key)
            invariant
                i <= self.entries@.len(),
                forall|j: int|
                    0 <= j < i ==> text::comes_before(#[trigger] self.entries@[j].0@, key@),
            decreases self.entries@.len() - i,
        {
            i = i + 1;
        }
        i
    }

    /// The place of a key, if it is there.
    pub fn find(&self, key: &str) -> (r: Option<usize>)
        ensures
            match r {
                Some(i) => i < self.count() && self.key(i as int) == key@ && self@.contains_key(
                    key@,
                ) && self@[key@] == self.value(i as int),
                None => !self@.contains_key(key@),
            },
    {
        proof {
            use_type_invariant(self);
        }
        let i = self.place(key);
        if i < self.entries.len() && text::same(self.entries[i].0.as_str(), key) {
            proof {
                lemma_entry(self.entries@, i as int);
            }
            Some(i)
        } else {
            proof {
                assert forall|j: int| 0 <= j < self.entries@.len() implies #[trigger]
                    self.entries@[j].0@ != key@ by {
                    text::lemma_order_irreflexive(key@);
                    if i < j {
                        text::lemma_order_total(self.entries@[i as int].0@, key@);
                        assert(text::comes_before(key@, self.entries@[i as int].0@));
                        assert(text::comes_before(
                            self.entries@[i as int].0@,
                            self.entries@[j].0@,
                        ));
                        text::lemma_order_transitive(
                            key@,
                            self.entries@[i as int].0@,
                            self.entries@[j].0@,
                        );
                    }
                }
                lemma_absent(self.entries@, key@);
            }
            None
        }
    }

    /// Whether a key is there.
    pub fn contains(&self, key: &str) -> (r: bool)
        ensures
            r == self@.contains_key(key@),
    {
        self.find(key).is_some()
    }

    /// The value of a key.
    pub fn get(&self, key: &str) -> (r: Option<&V>)
        ensures
            match r {
                Some(v) => self@.contains_key(key@) && *v == self@[key@],
                None => !self@.contains_key(key@),
            },
    {
        match self.find(key) {
            Some(i) => Some(self.value_at(i)),
            None => None,
        }
    }

    /// Puts a value at a key, in place of the one that may be there.
    pub fn insert(&mut self, key: &str, value: V)
        ensures
            final(self)@ == old(self)@.insert(key@, value),
    {
        proof {
            use_type_invariant(&*self);
        }
        let ghost before = self.entries@;
        let i = self.place(key);
        let mut entries: Vec<(String, V)> = Vec::new();
        core::mem::swap(&mut entries, &mut self.entries);
        let there = i < entries.len() && text::same(entries[i].0.as_str(), key);
        if there {
            entries.remove(i);
        }
        entries.insert(i, (key.to_owned(), value));
        proof {
            let after = entries@;
            assert forall|a: int, b: int| 0 <= a < b < after.len() implies text::comes_before(
                #[trigger] after[a].0@,
                #[trigger] after[b].0@,
            ) by {
                let from = |n: int| if n < i { n } else if there { n } else { n - 1 };
                if a != i && b != i {
                    assert(after[a] == before[from(a)]);
                    assert(after[b] == before[from(b)]);
                } else if b == i {
                    assert(after[a] == before[a]);
                } else {
                    assert(after[b] == before[from(b)]);
                    text::lemma_order_total(before[i as int].0@, key@);
                    if !there {
                        assert(text::comes_before(key@, before[i as int].0@));
                        if from(b) > i {
                            text::lemma_order_transitive(
                                key@,
                                before[i as int].0@,
                                before[from(b)].0@,
                            );
                        }
                    } else {
                        assert(text::comes_before(before[i as int].0@, before[b].0@));
                    }
                }
            }
            assert(in_key_order(after));
            let wanted = entries_map(before).insert(key@, value);
            assert forall|k: Seq<char>|
                (#[trigger] entries_map(after).dom().contains(k) == wanted.dom().contains(k)) && (
                entries_map(after).dom().contains(k) ==> entries_map(after)[k] == wanted[k]) by {
                assert(after[i as int].0@ == key@);
                lemma_entry(after, i as int);
                if k != key@ {
                    if entries_map(after).contains_key(k) {
                        let n = choose|n: int| key_at(after, k, n);
                        lemma_entry(after, n);
                        let m = if n < i { n } else if there { n } else { n - 1 };
                        assert(after[n] == before[m]);
                        lemma_entry(before, m);
                    }
                    if entries_map(before).contains_key(k) {
                        let m = choose|m: int| key_at(before, k, m);
                        let n = if m < i { m } else if there { m } else { m + 1 };
                        assert(after[n] == before[m]);
                        assert(key_at(after, k, n));
                    }
                }
            }
            assert(entries_map(after).dom() =~= wanted.dom());
            assert(entries_map(after) =~= wanted);
        }
        core::mem::swap(&mut entries, &mut self.entries);
    }

    /// Takes a key and its value out.
    pub fn remove(&mut self, key: &str) -> (r: Option<V>)
        ensures
            final(self)@ == old(self)@.remove(key@),
            match r {
                Some(v) => old(self)@.contains_key(key@) && v == old(self)@[key@],
                None => !old(self)@.contains_key(key@),
            },
    {
        proof {
            use_type_invariant(&*self);
        }
        let ghost before = self.entries@;
        match self.find(key) {
            None => {
                proof {
                    assert(self@ =~= self@.remove(key@));
                }
                None
            },
            Some(i) => {
                let mut entries: Vec<(String, V)> = Vec::new();
                core::mem::swap(&mut entries, &mut self.entries);
                let (_, value) = entries.remove(i);
                proof {
                    let after = entries@;
                    assert(in_key_order(after));
                    let wanted = entries_map(before).remove(key@);
                    assert forall|k: Seq<char>|
                        (#[trigger] entries_map(after).dom().contains(k) == wanted.dom().contains(
                            k,
                        )) && (entries_map(after).dom().contains(k) ==> entries_map(after)[k]
                            == wanted[k]) by {
                        if entries_map(after).contains_key(k) {
                            let n = choose|n: int| key_at(after, k, n);
                            lemma_entry(after, n);
                            let m = if n < i { n } else { n + 1 };
                            assert(after[n] == before[m]);
                            lemma_entry(before, m);
                            if k == key@ {
                                lemma_one_place(before, m, i as int);
                            }
                        }
                        if k != key@ && entries_map(before).contains_key(k) {
                            let m = choose|m: int| key_at(before, k, m);
                            let n = if m < i { m } else { m - 1 };
                            assert(after[n] == before[m]);
                            assert(key_at(after, k, n));
                        }
                    }
                    assert(entries_map(after).dom() =~= wanted.dom());
                    assert(entries_map(after) =~= wanted);
                }
                core::mem::swap(&mut entries, &mut self.entries);
                Some(value)
            },
        }
    }
}

impl<V> Table<V> {
    /// Takes several keys and their values out.
    pub fn remove_all(&mut self, keys: &Vec<String>)
        ensures
            final(self)@ == old(self)@.remove_keys(text::texts_view(keys@).to_set()),
    {
        let ghost all = text::texts_view(keys@);
        let mut i: usize = 0;
        proof {
            assert(all.take(0).to_set() =~= Set::<Seq<char>>::empty());
            assert(self@ =~= self@.remove_keys(all.take(0).to_set()));
        }
        while i < keys.len()
            invariant
                all == text::texts_view(keys@),
                i <= keys@.len(),
                self@ == old(self)@.remove_keys(all.take(i as int).to_set()),
            decreases keys@.len() - i,
        {
            let _ = self.remove(keys[i].as_str());
            proof {
                let before = all.take(i as int);
                let now = all.take(i + 1);
                assert(now =~= before.push(all[i as int]));
                assert forall|k: Seq<char>| #[trigger]
                    now.to_set().contains(k) == (before.to_set().contains(k) || k
                        == all[i as int]) by {
                    if before.contains(k) {
                        let j = choose|j: int| 0 <= j < before.len() && before[j] == k;
                        assert(now[j] == k);
                    }
                    if now.contains(k) {
                        let j = choose|j: int| 0 <= j < now.len() && now[j] == k;
                        if j < i {
                            assert(before[j] == k);
                        }
                    }
                    assert(now[i as int] == all[i as int]);
                }
                assert(self@ =~= old(self)@.remove_keys(now.to_set()));
            }
            i = i + 1;
        }
        proof {
            assert(all.take(all.len() as int) =~= all);
        }
    }
}

impl<V> View for Table<V> {
    type V = Map<Seq<char>, V>;

    open(crate) spec fn view(&self) -> Map<Seq<char>, V> {
        entries_map(self.entries@)
    }
}

/// There are as many keys as entries.
proof fn lemma_count<V>(entries: Seq<(String, V)>)
    requires
        in_key_order(entries),
    ensures
        entries_map(entries).dom().finite(),
        entries_map(entries).dom().len() == entries.len(),
    decreases entries.len(),
{
    let dom = entries_map(entries).dom();
    if entries.len() == 0 {
        assert(dom =~= Set::<Seq<char>>::empty());
    } else {
        let rest = entries.drop_last();
        lemma_count(rest);
        let last = entries.last().0@;
        let n = entries.len() - 1;
        assert forall|k: Seq<char>|
            dom.contains(k) == entries_map(rest).dom().insert(last).contains(k) by {
            if dom.contains(k) {
                let i = choose|i: int| key_at(entries, k, i);
                if i < n {
                    assert(key_at(rest, k, i));
                }
            }
            if entries_map(rest).dom().contains(k) {
                let i = choose|i: int| key_at(rest, k, i);
                assert(key_at(entries, k, i));
            }
            assert(key_at(entries, last, n));
        }
        assert(dom =~= entries_map(rest).dom().insert(last));
        if entries_map(rest).dom().contains(last) {
            let i = choose|i: int| key_at(rest, last, i);
            assert(entries[i].0@ == entries[n].0@);
            lemma_one_place(entries, i, n);
        }
    }
}

} // verus!
