//! A table of values under text keys, listed in the order of the keys.

use vstd::prelude::*;

use crate::text::{comes_before, precedes, same_text};
use crate::text::{
    lemma_precedes_irreflexive, lemma_precedes_total, lemma_precedes_transitive,
};

verus! {

/// Every key comes strictly before the keys after it: the list is sorted and
/// holds nothing twice.
pub open spec fn increasing(keys: Seq<Seq<char>>) -> bool {
    forall|i: int, j: int| 0 <= i < j < keys.len() ==> #[trigger] precedes(keys[i], keys[j])
}

/// `keys` lists the members of `set` in increasing order.
pub open spec fn lists(keys: Seq<Seq<char>>, set: Set<Seq<char>>) -> bool {
    &&& increasing(keys)
    &&& forall|key: Seq<char>| #[trigger] keys.contains(key) <==> set.contains(key)
}

/// The members of `set` in increasing order.
pub open spec fn listed(set: Set<Seq<char>>) -> Seq<Seq<char>> {
    choose|keys: Seq<Seq<char>>| lists(keys, set)
}

/// There is only one way to list a set in increasing order.
pub proof fn lemma_one_listing(a: Seq<Seq<char>>, b: Seq<Seq<char>>, set: Set<Seq<char>>)
    requires
        lists(a, set),
        lists(b, set),
    ensures
        a == b,
    decreases a.len(),
{
    if a.len() == 0 {
        if b.len() > 0 {
            assert(b.contains(b[0]));
            assert(a.contains(b[0]));
        }
        assert(a =~= b);
    } else {
        assert(a.contains(a.last()));
        assert(b.contains(a.last()));
        assert(b.contains(b.last()));
        assert(a.contains(b.last()));
        lemma_last_is_greatest(a, b.last());
        lemma_last_is_greatest(b, a.last());
        if a.last() != b.last() {
            lemma_precedes_transitive(a.last(), b.last(), a.last());
            lemma_precedes_irreflexive(a.last());
        }
        lemma_shorter_listing(a, set);
        lemma_shorter_listing(b, set);
        lemma_one_listing(a.drop_last(), b.drop_last(), set.remove(a.last()));
        assert(a =~= a.drop_last().push(a.last()));
        assert(b =~= b.drop_last().push(b.last()));
    }
}

proof fn lemma_last_is_greatest(keys: Seq<Seq<char>>, key: Seq<char>)
    requires
        increasing(keys),
        keys.contains(key),
    ensures
        key == keys.last() || precedes(key, keys.last()),
{
    let i = keys.index_of(key);
    if i < keys.len() - 1 {
        assert(precedes(keys[i], keys[keys.len() - 1]));
    }
}

proof fn lemma_shorter_listing(keys: Seq<Seq<char>>, set: Set<Seq<char>>)
    requires
        lists(keys, set),
        keys.len() > 0,
    ensures
        lists(keys.drop_last(), set.remove(keys.last())),
{
    let shorter = keys.drop_last();
    assert forall|i: int, j: int| 0 <= i < j < shorter.len() implies #[trigger] precedes(
        shorter[i],
        shorter[j],
    ) by {
        assert(precedes(keys[i], keys[j]));
    }
    assert forall|key: Seq<char>| #[trigger] shorter.contains(key) <==> set.remove(
        keys.last(),
    ).contains(key) by {
        if shorter.contains(key) {
            let i = shorter.index_of(key);
            assert(keys[i] == key);
            assert(keys.contains(key));
            assert(precedes(keys[i], keys[keys.len() - 1]));
            lemma_precedes_irreflexive(key);
        }
        if set.remove(keys.last()).contains(key) {
            assert(keys.contains(key));
            let i = keys.index_of(key);
            assert(shorter[i] == key);
        }
    }
}

/// A map from text keys to values that lists its keys in increasing order.
#[derive(Debug)]
pub struct Table<V> {
    entries: Vec<(String, V)>,
}

impl<V> View for Table<V> {
    type V = Map<Seq<char>, V>;

    closed spec fn view(&self) -> Map<Seq<char>, V> {
        Map::new(
            |key: Seq<char>| self.keys().contains(key),
            |key: Seq<char>| self.entries@[self.keys().index_of(key)].1,
        )
    }
}

impl<V> Table<V> {
    /// The keys, in the order in which they are listed.
    pub closed spec fn keys(&self) -> Seq<Seq<char>> {
        self.entries@.map_values(|entry: (String, V)| entry.0@)
    }

    #[verifier::type_invariant]
    closed spec fn sorted(&self) -> bool {
        increasing(self.keys())
    }

    proof fn lemma_entry(&self, i: int)
        requires
            self.sorted(),
            0 <= i < self.keys().len(),
        ensures
            self.keys().index_of(self.keys()[i]) == i,
            self@.contains_key(self.keys()[i]),
            self@[self.keys()[i]] == self.entries@[i].1,
    {
        let key = self.keys()[i];
        assert(self.keys().contains(key));
        let j = self.keys().index_of(key);
        assert(0 <= j < self.keys().len() && self.keys()[j] == key);
        lemma_precedes_irreflexive(key);
        if i < j {
            assert(precedes(self.keys()[i], self.keys()[j]));
        } else if j < i {
            assert(precedes(self.keys()[j], self.keys()[i]));
        }
    }

    /// An empty table.
    pub fn new() -> (table: Self)
        ensures
            table@ == Map::<Seq<char>, V>::empty(),
            table.keys() == Seq::<Seq<char>>::empty(),
    {
        let table = Table { entries: Vec::new() };
        assert(table.keys() =~= Seq::<Seq<char>>::empty());
        assert(table@ =~= Map::<Seq<char>, V>::empty());
        table
    }

    /// How many keys the table lists.
    pub fn len(&self) -> (n: usize)
        ensures
            n == self.keys().len(),
            lists(self.keys(), self@.dom()),
            self.keys() == listed(self@.dom()),
    {
        proof {
            use_type_invariant(self);
            assert(lists(self.keys(), self@.dom()));
            lemma_one_listing(self.keys(), listed(self@.dom()), self@.dom());
        }
        self.entries.len()
    }

    /// The key at position `i`.
    pub fn key_at(&self, i: usize) -> (key: &String)
        requires
            i < self.keys().len(),
        ensures
            key@ == self.keys()[i as int],
            self@.contains_key(key@),
    {
        proof {
            use_type_invariant(self);
            self.lemma_entry(i as int);
        }
        &self.entries[i].0
    }

    /// The value under the key at position `i`.
    pub fn value_at(&self, i: usize) -> (value: &V)
        requires
            i < self.keys().len(),
        ensures
            *value == self@[self.keys()[i as int]],
    {
        proof {
            use_type_invariant(self);
            self.lemma_entry(i as int);
        }
        &self.entries[i].1
    }

    /// The first position whose key does not come before `key`.
    fn position(&self, key: &str) -> (p: usize)
        ensures
            p <= self.keys().len(),
            forall|i: int| 0 <= i < p ==> precedes(#[trigger] self.keys()[i], key@),
            forall|i: int|
                p <= i < self.keys().len() ==> !precedes(#[trigger] self.keys()[i], key@),
    {
        proof {
            use_type_invariant(self);
        }
        let mut p: usize = 0;
        while p < self.entries.len() && comes_before(&self.entries[p].0, key)
            invariant
                p <= self.entries@.len(),
                forall|i: int| 0 <= i < p ==> precedes(#[trigger] self.keys()[i], key@),
            decreases self.entries@.len() - p,
        {
            assert(self.keys()[p as int] == self.entries@[p as int].0@);
            p += 1;
        }
        proof {
            assert forall|i: int| p <= i < self.keys().len() implies !precedes(
                #[trigger] self.keys()[i],
                key@,
            ) by {
                assert(self.keys()[p as int] == self.entries@[p as int].0@);
                if i > p && precedes(self.keys()[i], key@) {
                    assert(precedes(self.keys()[p as int], self.keys()[i]));
                    lemma_precedes_transitive(self.keys()[p as int], self.keys()[i], key@);
                }
            }
        }
        p
    }

    /// Whether the entry at `p`, the position of `key`, is the one under `key`.
    fn holds_at(&self, p: usize, key: &str) -> (held: bool)
        requires
            p <= self.keys().len(),
            forall|i: int| 0 <= i < p ==> precedes(#[trigger] self.keys()[i], key@),
            forall|i: int|
                p <= i < self.keys().len() ==> !precedes(#[trigger] self.keys()[i], key@),
        ensures
            held == self@.contains_key(key@),
            held ==> p < self.keys().len() && self.keys()[p as int] == key@,
            held ==> self@[key@] == self.entries@[p as int].1,
            !held ==> forall|i: int|
                p <= i < self.keys().len() ==> precedes(key@, #[trigger] self.keys()[i]),
    {
        proof {
            use_type_invariant(self);
        }
        let held = p < self.entries.len() && same_text(&self.entries[p].0, key);
        proof {
            if held {
                assert(self.keys()[p as int] == key@);
                self.lemma_entry(p as int);
            } else {
                assert forall|i: int| p <= i < self.keys().len() implies precedes(
                    key@,
                    #[trigger] self.keys()[i],
                ) by {
                    assert(self.keys()[p as int] == self.entries@[p as int].0@);
                    lemma_precedes_total(self.keys()[i], key@);
                    if self.keys()[i] == key@ {
                        assert(precedes(self.keys()[p as int], self.keys()[i]));
                    }
                }
                if self.keys().contains(key@) {
                    let i = choose|i: int| 0 <= i < self.keys().len() && self.keys()[i] == key@;
                    lemma_precedes_irreflexive(key@);
                    if i < p {
                        assert(precedes(self.keys()[i], key@));
                    } else {
                        assert(precedes(key@, self.keys()[i]));
                    }
                }
            }
        }
        held
    }

    /// The value under `key`.
    pub fn get(&self, key: &str) -> (value: Option<&V>)
        ensures
            value is Some <==> self@.contains_key(key@),
            value is Some ==> *value->0 == self@[key@],
    {
        let p = self.position(key);
        if self.holds_at(p, key) {
            Some(&self.entries[p].1)
        } else {
            None
        }
    }

    /// Puts `value` under `key`, in place of what was there.
    pub fn insert(&mut self, key: String, value: V)
        ensures
            final(self)@ == old(self)@.insert(key@, value),
    {
        let p = self.position(&key);
        let held = self.holds_at(p, &key);
        proof {
            use_type_invariant(&*self);
        }
        let ghost before = *self;
        let ghost key_chars = key@;
        let mut entries: Vec<(String, V)> = Vec::new();
        core::mem::swap(&mut entries, &mut self.entries);
        if held {
            entries[p] = (key, value);
        } else {
            entries.insert(p, (key, value));
        }
        let ghost keys = entries@.map_values(|entry: (String, V)| entry.0@);
        proof {
            if held {
                assert(keys =~= before.keys());
            } else {
                assert(keys =~= before.keys().insert(p as int, key_chars));
                assert(increasing(keys)) by {
                    assert forall|i: int, j: int| 0 <= i < j < keys.len() implies #[trigger]
                        precedes(keys[i], keys[j]) by {
                        let old_i = if i < p { i } else { i - 1 };
                        let old_j = if j < p { j } else { j - 1 };
                        if i != p && j != p {
                            assert(precedes(before.keys()[old_i], before.keys()[old_j]));
                        } else if i == p {
                            assert(precedes(key_chars, before.keys()[old_j]));
                        } else {
                            assert(precedes(before.keys()[old_i], key_chars));
                        }
                    }
                }
            }
        }
        self.entries = entries;
        proof {
            assert(self.keys() =~= keys);
            self.lemma_entry(p as int);
            assert forall|k: Seq<char>| self@.contains_key(k) == before@.insert(
                key_chars,
                value,
            ).contains_key(k) by {
                if before.keys().contains(k) {
                    let i = before.keys().index_of(k);
                    let at = if !held && i >= p { i + 1 } else { i };
                    assert(keys[at] == k);
                }
                if keys.contains(k) && k != key_chars {
                    let i = keys.index_of(k);
                    let at = if !held && i > p { i - 1 } else { i };
                    assert(before.keys()[at] == k);
                }
                assert(keys[p as int] == key_chars);
            }
            assert forall|k: Seq<char>| #[trigger] self@.contains_key(k) implies self@[k]
                == before@.insert(key_chars, value)[k] by {
                let i = keys.index_of(k);
                self.lemma_entry(i);
                if k != key_chars {
                    let at = if !held && i > p { i - 1 } else { i };
                    assert(before.keys()[at] == k);
                    before.lemma_entry(at);
                }
            }
            assert(self@ =~= before@.insert(key_chars, value));
        }
    }
}

impl<V: Clone> Clone for Table<V> {
    /// A table with the same keys and a clone of each value.
    fn clone(&self) -> (copy: Self)
        ensures
            copy.keys() == self.keys(),
            copy@.dom() == self@.dom(),
            forall|key: Seq<char>| #[trigger]
                self@.contains_key(key) ==> cloned::<V>(self@[key], copy@[key]),
    {
        proof {
            use_type_invariant(self);
        }
        let mut entries: Vec<(String, V)> = Vec::new();
        let mut i: usize = 0;
        while i < self.entries.len()
            invariant
                i <= self.entries@.len(),
                entries@.len() == i,
                forall|k: int| 0 <= k < i ==> (#[trigger] entries@[k]).0@ == self.entries@[k].0@,
                forall|k: int|
                    0 <= k < i ==> cloned::<V>(self.entries@[k].1, (#[trigger] entries@[k]).1),
            decreases self.entries@.len() - i,
        {
            entries.push((self.entries[i].0.clone(), self.entries[i].1.clone()));
            i += 1;
        }
        let ghost keys = entries@.map_values(|entry: (String, V)| entry.0@);
        assert(keys =~= self.keys());
        let copy = Table { entries };
        proof {
            assert(copy.keys() == self.keys());
            assert(copy@.dom() =~= self@.dom());
            assert forall|key: Seq<char>| #[trigger] self@.contains_key(key) implies cloned::<V>(
                self@[key],
                copy@[key],
            ) by {
                let k = self.keys().index_of(key);
                self.lemma_entry(k);
                copy.lemma_entry(k);
                assert(cloned::<V>(self.entries@[k].1, copy.entries@[k].1));
            }
        }
        copy
    }
}

/// Every finite set has its listing: in increasing order, each member once, and nothing
/// else.
pub proof fn law_finite_sets_are_listed(set: Set<Seq<char>>)
    requires
        set.finite(),
    ensures
        lists(listed(set), set),
        listed(set).no_duplicates(),
        listed(set).len() == set.len(),
{
    lemma_listing_exists(set);
    let keys = listed(set);
    assert(lists(keys, set));
    assert(keys.no_duplicates()) by {
        assert forall|i: int, j: int| 0 <= i < keys.len() && 0 <= j < keys.len() && i != j implies
            keys[i] != keys[j] by {
            if i < j {
                assert(precedes(keys[i], keys[j]));
                lemma_precedes_irreflexive(keys[i]);
            } else {
                assert(precedes(keys[j], keys[i]));
                lemma_precedes_irreflexive(keys[j]);
            }
        }
    }
    keys.unique_seq_to_set();
    assert forall|key: Seq<char>| keys.to_set().contains(key) <==> set.contains(key) by {
        assert(keys.contains(key) <==> set.contains(key));
    }
    assert(keys.to_set() =~= set);
}

proof fn lemma_listing_exists(set: Set<Seq<char>>)
    requires
        set.finite(),
    ensures
        exists|keys: Seq<Seq<char>>| lists(keys, set),
    decreases set.len(),
{
    if set.len() == 0 {
        assert(set =~= Set::<Seq<char>>::empty());
        assert(lists(Seq::<Seq<char>>::empty(), set));
    } else {
        let key = set.choose();
        let rest = set.remove(key);
        lemma_listing_exists(rest);
        let keys = choose|keys: Seq<Seq<char>>| lists(keys, rest);
        lemma_listing_with_one_more(keys, rest, key, 0);
        assert(rest.insert(key) =~= set);
    }
}

/// A key that is not listed yet has its place in a listing, at `from` or behind it.
proof fn lemma_listing_with_one_more(
    keys: Seq<Seq<char>>,
    set: Set<Seq<char>>,
    key: Seq<char>,
    from: int,
)
    requires
        lists(keys, set),
        !set.contains(key),
        0 <= from <= keys.len(),
        forall|i: int| 0 <= i < from ==> precedes(#[trigger] keys[i], key),
    ensures
        exists|more: Seq<Seq<char>>| lists(more, set.insert(key)),
    decreases keys.len() - from,
{
    if from < keys.len() && precedes(keys[from], key) {
        lemma_listing_with_one_more(keys, set, key, from + 1);
    } else {
        let more = keys.insert(from, key);
        assert forall|i: int, j: int| 0 <= i < j < more.len() implies #[trigger] precedes(
            more[i],
            more[j],
        ) by {
            let x = if i < from { i } else { i - 1 };
            let y = if j < from { j } else { j - 1 };
            if i != from && j != from {
                assert(precedes(keys[x], keys[y]));
            } else if j == from {
                assert(precedes(keys[x], key));
            } else {
                assert(keys.contains(keys[from]));
                lemma_precedes_total(keys[from], key);
                if y > from {
                    assert(precedes(keys[from], keys[y]));
                    lemma_precedes_transitive(key, keys[from], keys[y]);
                }
            }
        }
        assert forall|k: Seq<char>| #[trigger] more.contains(k) <==> set.insert(key).contains(
            k,
        ) by {
            if more.contains(k) && k != key {
                let i = more.index_of(k);
                let x = if i < from { i } else { i - 1 };
                assert(keys[x] == k);
                assert(keys.contains(k));
            }
            if set.contains(k) {
                assert(keys.contains(k));
                let x = keys.index_of(k);
                let i = if x < from { x } else { x + 1 };
                assert(more[i] == k);
            }
            assert(more[from] == key);
        }
        assert(lists(more, set.insert(key)));
    }
}

} // verus!
