//! The fact store: a finite map from fact keys to values.

use vstd::prelude::*;
use crate::datum::Datum;

verus! {

/// The mathematical model of a fact store.
pub type Facts = Map<Seq<char>, Datum>;

/// No two entries carry the same key.
spec fn distinct_keys(entries: Seq<(String, Datum)>) -> bool {
    forall|i: int, j: int|
        0 <= i < j < entries.len() ==> (#[trigger] entries[i]).0@ != (#[trigger] entries[j]).0@
}

/// Some entry carries `key`.
spec fn has_key(entries: Seq<(String, Datum)>, key: Seq<char>) -> bool {
    exists|i: int| 0 <= i < entries.len() && (#[trigger] entries[i]).0@ == key
}

/// The index of an entry that carries `key`.
spec fn position(entries: Seq<(String, Datum)>, key: Seq<char>) -> int {
    choose|i: int| 0 <= i < entries.len() && (#[trigger] entries[i]).0@ == key
}

/// The map that a list of entries with distinct keys stands for.
spec fn entries_map(entries: Seq<(String, Datum)>) -> Facts {
    Map::new(|k: Seq<char>| has_key(entries, k), |k: Seq<char>| entries[position(entries, k)].1)
}

/// Each entry of a list with distinct keys is found again in its map.
proof fn lemma_entry_in_map(entries: Seq<(String, Datum)>, i: int)
    requires
        distinct_keys(entries),
        0 <= i < entries.len(),
    ensures
        entries_map(entries).contains_key(entries[i].0@),
        entries_map(entries)[entries[i].0@] == entries[i].1,
{
    let key = entries[i].0@;
    assert(has_key(entries, key));
    let p = position(entries, key);
    assert(p == i) by {
        if p < i {
            assert(entries[p].0@ != entries[i].0@);
        } else if i < p {
            assert(entries[i].0@ != entries[p].0@);
        }
    }
}

/// A snapshot of world facts: each key has at most one value, and the order
/// in which facts were written does not matter.
#[derive(Debug)]
pub struct LocalState {
    entries: Vec<(String, Datum)>,
}

impl View for LocalState {
    type V = Facts;

    closed spec fn view(&self) -> Facts {
        entries_map(self.entries@)
    }
}

impl LocalState {
    #[verifier::type_invariant]
    spec fn keys_are_distinct(self) -> bool {
        distinct_keys(self.entries@)
    }

    /// The store without any fact.
    pub fn new() -> (state: LocalState)
        ensures
            state@ == Map::<Seq<char>, Datum>::empty(),
    {
        let state = LocalState { entries: Vec::new() };
        assert(state@ =~= Map::<Seq<char>, Datum>::empty());
        state
    }

    /// The number of facts in the store.
    pub fn len(&self) -> (n: usize)
        ensures
            n == self@.len(),
            self@.dom().finite(),
    {
        proof {
            use_type_invariant(self);
            lemma_entries_map_len(self.entries@);
        }
        self.entries.len()
    }

    /// The index of the entry for `key`, if there is one.
    fn find(&self, key: &String) -> (found: Option<usize>)
        ensures
            match found {
                Some(i) => i < self.entries@.len() && self.entries@[i as int].0@ == key@,
                None => !has_key(self.entries@, key@),
            },
    {
        let n: usize = self.entries.len();
        let mut i: usize = 0;
        while i < n
            invariant
                n == self.entries@.len(),
                i <= n,
                forall|j: int| 0 <= j < i ==> (#[trigger] self.entries@[j]).0@ != key@,
            decreases n - i,
        {
            if self.entries[i].0 == *key {
                return Some(i);
            }
            i += 1;
        }
        None
    }

    /// The value stored under `key`, if the store has that fact.
    pub fn get(&self, key: &str) -> (value: Option<Datum>)
        ensures
            value == (if self@.contains_key(key@) {
                Some(self@[key@])
            } else {
                None
            }),
    {
        let owned: String = key.to_owned();
        self.lookup(&owned)
    }

    /// The value stored under `key`, if the store has that fact.
    pub fn lookup(&self, key: &String) -> (value: Option<Datum>)
        ensures
            value == (if self@.contains_key(key@) {
                Some(self@[key@])
            } else {
                None
            }),
    {
        proof {
            use_type_invariant(self);
        }
        match self.find(key) {
            Some(i) => {
                proof {
                    lemma_entry_in_map(self.entries@, i as int);
                }
                Some(self.entries[i].1)
            },
            None => None,
        }
    }

    /// Writes `value` under `key`, replacing what was stored there.
    pub fn insert(&mut self, key: String, value: Datum)
        ensures
            final(self)@ == old(self)@.insert(key@, value),
    {
        proof {
            use_type_invariant(&*self);
        }
        let found = self.find(&key);
        let ghost before = self.entries@;
        let ghost k = key@;
        let mut entries: Vec<(String, Datum)> = Vec::new();
        core::mem::swap(&mut self.entries, &mut entries);
        match found {
            Some(i) => {
                entries[i] = (key, value);
                proof {
                    let after = entries@;
                    assert(distinct_keys(after)) by {
                        assert forall|a: int, b: int| 0 <= a < b < after.len() implies (
                        #[trigger] after[a]).0@ != (#[trigger] after[b]).0@ by {
                            assert(before[a].0@ != before[b].0@);
                        }
                    }
                    lemma_update_map(before, i as int, k, value, after);
                }
            },
            None => {
                entries.push((key, value));
                proof {
                    let after = entries@;
                    assert(distinct_keys(after)) by {
                        assert forall|a: int, b: int| 0 <= a < b < after.len() implies (
                        #[trigger] after[a]).0@ != (#[trigger] after[b]).0@ by {
                            if b < before.len() {
                                assert(before[a].0@ != before[b].0@);
                            } else {
                                assert(before[a].0@ != k);
                            }
                        }
                    }
                    lemma_push_map(before, k, value, after);
                }
            },
        }
        self.entries = entries;
    }

    /// This store with `value` written under `key`.
    pub fn with_datum(self, key: &str, value: Datum) -> (state: LocalState)
        ensures
            state@ == self@.insert(key@, value),
    {
        let mut state = self;
        state.insert(key.to_owned(), value);
        state
    }

    /// Whether every fact of this store is a fact of `other`, with the same
    /// value.
    fn included_in(&self, other: &LocalState) -> (b: bool)
        ensures
            b == (forall|k: Seq<char>| #[trigger]
                self@.contains_key(k) ==> other@.contains_key(k) && other@[k] == self@[k]),
    {
        proof {
            use_type_invariant(self);
        }
        let n: usize = self.entries.len();
        let mut i: usize = 0;
        while i < n
            invariant
                n == self.entries@.len(),
                i <= n,
                distinct_keys(self.entries@),
                forall|j: int|
                    0 <= j < i ==> other@.contains_key((#[trigger] self.entries@[j]).0@)
                        && other@[self.entries@[j].0@] == self.entries@[j].1,
            decreases n - i,
        {
            proof {
                lemma_entry_in_map(self.entries@, i as int);
            }
            let ghost key = self.entries@[i as int].0@;
            match other.lookup(&self.entries[i].0) {
                Some(v) => {
                    if !(v == self.entries[i].1) {
                        assert(self@.contains_key(key) && other@[key] != self@[key]);
                        return false;
                    }
                },
                None => {
                    assert(self@.contains_key(key) && !other@.contains_key(key));
                    return false;
                },
            }
            i += 1;
        }
        proof {
            assert forall|k: Seq<char>| #[trigger] self@.contains_key(k) implies other@
                .contains_key(k) && other@[k] == self@[k] by {
                let p = position(self.entries@, k);
                lemma_entry_in_map(self.entries@, p);
            }
        }
        true
    }

    /// Whether both stores hold the same facts.
    pub fn same_facts(&self, other: &LocalState) -> (b: bool)
        ensures
            b == (self@ == other@),
    {
        let b = self.included_in(other) && other.included_in(self);
        proof {
            if b {
                assert(self@ =~= other@);
            }
        }
        b
    }

    /// A copy of the entries.
    fn to_vec(&self) -> (facts: Vec<(String, Datum)>)
        ensures
            distinct_keys(facts@),
            entries_map(facts@) == self@,
    {
        proof {
            use_type_invariant(self);
        }
        let n: usize = self.entries.len();
        let mut facts: Vec<(String, Datum)> = Vec::new();
        let mut i: usize = 0;
        while i < n
            invariant
                n == self.entries@.len(),
                i <= n,
                facts@.len() == i,
                forall|j: int|
                    0 <= j < i ==> (#[trigger] facts@[j]).0@ == self.entries@[j].0@ && facts@[j].1
                        == self.entries@[j].1,
            decreases n - i,
        {
            facts.push((self.entries[i].0.clone(), self.entries[i].1));
            i += 1;
        }
        proof {
            lemma_same_entries_same_map(self.entries@, facts@);
        }
        facts
    }
}

impl Clone for LocalState {
    fn clone(&self) -> (copy: LocalState)
        ensures
            copy@ == self@,
    {
        proof {
            use_type_invariant(self);
        }
        let entries = self.to_vec();
        LocalState { entries }
    }
}

/// Two lists with the same keys and values, entry by entry, stand for the
/// same map, and the keys of one are distinct if those of the other are.
proof fn lemma_same_entries_same_map(a: Seq<(String, Datum)>, b: Seq<(String, Datum)>)
    requires
        a.len() == b.len(),
        forall|j: int| 0 <= j < a.len() ==> (#[trigger] b[j]).0@ == a[j].0@ && b[j].1 == a[j].1,
        distinct_keys(a),
    ensures
        distinct_keys(b),
        entries_map(b) == entries_map(a),
{
    assert forall|i: int, j: int| 0 <= i < j < b.len() implies (#[trigger] b[i]).0@ != (
    #[trigger] b[j]).0@ by {
        assert(a[i].0@ != a[j].0@);
    }
    assert forall|k: Seq<char>| has_key(a, k) == has_key(b, k) by {
        if has_key(a, k) {
            let p = position(a, k);
            assert(b[p].0@ == k);
        }
        if has_key(b, k) {
            let p = position(b, k);
            assert(a[p].0@ == k);
        }
    }
    assert forall|k: Seq<char>| has_key(a, k) implies entries_map(a)[k] == entries_map(b)[k] by {
        let p = position(a, k);
        lemma_entry_in_map(a, p);
        assert(b[p].0@ == k);
        lemma_entry_in_map(b, p);
    }
    assert(entries_map(b) =~= entries_map(a));
}

/// Replacing the entry that carries `key` writes `value` under `key`.
proof fn lemma_update_map(
    before: Seq<(String, Datum)>,
    i: int,
    key: Seq<char>,
    value: Datum,
    after: Seq<(String, Datum)>,
)
    requires
        distinct_keys(before),
        distinct_keys(after),
        0 <= i < before.len(),
        before[i].0@ == key,
        after.len() == before.len(),
        after[i].0@ == key,
        after[i].1 == value,
        forall|j: int| 0 <= j < before.len() && j != i ==> after[j] == before[j],
    ensures
        entries_map(after) == entries_map(before).insert(key, value),
{
    let target = entries_map(before).insert(key, value);
    assert forall|k: Seq<char>| has_key(after, k) == target.contains_key(k) by {
        if has_key(after, k) {
            let p = position(after, k);
            if p != i {
                assert(before[p].0@ == k);
            }
        }
        if has_key(before, k) {
            let p = position(before, k);
            assert(after[p].0@ == k);
        }
        if k == key {
            assert(after[i].0@ == k);
        }
    }
    assert forall|k: Seq<char>| has_key(after, k) implies entries_map(after)[k] == target[k] by {
        let p = position(after, k);
        lemma_entry_in_map(after, p);
        if p != i {
            assert(before[p].0@ == k);
            lemma_entry_in_map(before, p);
            assert(before[i].0@ != before[p].0@) by {
                if i < p {
                    assert(before[i].0@ != before[p].0@);
                } else {
                    assert(before[p].0@ != before[i].0@);
                }
            }
        }
    }
    assert(entries_map(after) =~= target);
}

/// Appending an entry under a key that no entry carries writes its value
/// under that key.
proof fn lemma_push_map(
    before: Seq<(String, Datum)>,
    key: Seq<char>,
    value: Datum,
    after: Seq<(String, Datum)>,
)
    requires
        distinct_keys(before),
        distinct_keys(after),
        !has_key(before, key),
        after.len() == before.len() + 1,
        after[before.len() as int].0@ == key,
        after[before.len() as int].1 == value,
        forall|j: int| 0 <= j < before.len() ==> after[j] == before[j],
    ensures
        entries_map(after) == entries_map(before).insert(key, value),
{
    let target = entries_map(before).insert(key, value);
    let n = before.len() as int;
    assert forall|k: Seq<char>| has_key(after, k) == target.contains_key(k) by {
        if has_key(after, k) {
            let p = position(after, k);
            if p != n {
                assert(before[p].0@ == k);
            }
        }
        if has_key(before, k) {
            let p = position(before, k);
            assert(after[p].0@ == k);
        }
        if k == key {
            assert(after[n].0@ == k);
        }
    }
    assert forall|k: Seq<char>| has_key(after, k) implies entries_map(after)[k] == target[k] by {
        let p = position(after, k);
        lemma_entry_in_map(after, p);
        if p != n {
            assert(before[p].0@ == k);
            lemma_entry_in_map(before, p);
        }
    }
    assert(entries_map(after) =~= target);
}

/// A list of entries with distinct keys stands for a finite map with as many
/// facts as the list has entries.
proof fn lemma_entries_map_len(entries: Seq<(String, Datum)>)
    requires
        distinct_keys(entries),
    ensures
        entries_map(entries).dom().finite(),
        entries_map(entries).len() == entries.len(),
    decreases entries.len(),
{
    if entries.len() == 0 {
        assert(entries_map(entries) =~= Map::<Seq<char>, Datum>::empty());
    } else {
        let front = entries.drop_last();
        let last = entries.last();
        assert(distinct_keys(front)) by {
            assert forall|i: int, j: int| 0 <= i < j < front.len() implies (#[trigger] front[i]).0@
                != (#[trigger] front[j]).0@ by {
                assert(entries[i].0@ != entries[j].0@);
            }
        }
        lemma_entries_map_len(front);
        assert(!has_key(front, last.0@)) by {
            if has_key(front, last.0@) {
                let p = position(front, last.0@);
                assert(entries[p].0@ != entries[entries.len() - 1].0@);
            }
        }
        lemma_push_map(front, last.0@, last.1, entries);
        assert(!entries_map(front).dom().contains(last.0@));
    }
}

} // verus!
