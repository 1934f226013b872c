//! A map keyed by text.

use crate::text;
use vstd::prelude::*;

verus! {

/// A finite map from text to `V`, its entries in the order in which they were
/// last set.
#[derive(Debug)]
pub struct StrMap<V> {
    entries: Vec<(String, V)>,
}

/// The index of an entry with this key.
spec fn holds<V>(entries: Seq<(String, V)>, i: int, key: Seq<char>) -> bool {
    0 <= i < entries.len() && entries[i].0@ == key
}

spec fn entries_map<V>(entries: Seq<(String, V)>) -> Map<Seq<char>, V> {
    Map::new(
        |key: Seq<char>| exists|i: int| holds(entries, i, key),
        |key: Seq<char>| entries[choose|i: int| holds(entries, i, key)].1,
    )
}

/// No key occurs twice.
spec fn distinct<V>(entries: Seq<(String, V)>) -> bool {
    forall|i: int, j: int|
        0 <= i < j < entries.len() ==> (#[trigger] entries[i]).0@ != (#[trigger] entries[j]).0@
}

proof fn lemma_entry<V>(entries: Seq<(String, V)>, i: int)
    requires
        distinct(entries),
        0 <= i < entries.len(),
    ensures
        entries_map(entries).contains_key(entries[i].0@),
        entries_map(entries)[entries[i].0@] == entries[i].1,
{
    let key = entries[i].0@;
    assert(holds(entries, i, key));
    let j = choose|j: int| holds(entries, j, key);
    assert(holds(entries, j, key));
    assert(i == j);
}

impl<V> View for StrMap<V> {
    type V = Map<Seq<char>, V>;

    closed spec fn view(&self) -> Map<Seq<char>, V> {
        entries_map(self.entries@)
    }
}

impl<V> StrMap<V> {
    #[verifier::type_invariant]
    closed spec fn keys_distinct(self) -> bool {
        distinct(self.entries@)
    }

    /// The empty map.
    pub fn new() -> (r: StrMap<V>)
        ensures
            r@ == Map::<Seq<char>, V>::empty(),
    {
        let r: StrMap<V> = StrMap { entries: Vec::new() };
        assert(r@ =~= Map::<Seq<char>, V>::empty());
        r
    }

    /// Where the entry of `key` stands; the number of entries if there is none.
    fn find(&self, key: &str) -> (r: usize)
        ensures
            r <= self.entries@.len(),
            r < self.entries@.len() ==> holds(self.entries@, r as int, key@),
            r == self.entries@.len() ==> forall|i: int| !holds(self.entries@, i, key@),
    {
        let mut i: usize = 0;
        while i < self.entries.len()
            invariant
                i <= self.entries@.len(),
                forall|k: int| 0 <= k < i ==> !holds(self.entries@, k, key@),
            decreases self.entries.len() - i,
        {
            if text::str_eq(self.entries[i].0.as_str(), key) {
                return i;
            }
            i = i + 1;
        }
        i
    }

    /// The value of `key`.
    pub fn get(&self, key: &str) -> (r: Option<&V>)
        ensures
            match r {
                Some(v) => self@.contains_key(key@) && *v == self@[key@],
                None => !self@.contains_key(key@),
            },
    {
        proof {
            use_type_invariant(self);
        }
        let i: usize = self.find(key);
        if i < self.entries.len() {
            proof {
                lemma_entry(self.entries@, i as int);
            }
            Some(&self.entries[i].1)
        } else {
            None
        }
    }

    /// How many keys the map has.
    pub fn len(&self) -> (n: usize)
        ensures
            n == self@.len(),
            self@.dom().finite(),
    {
        proof {
            use_type_invariant(self);
            lemma_len(self.entries@);
        }
        self.entries.len()
    }

    /// Set the value of `key`.
    pub fn insert(&mut self, key: String, value: V)
        ensures
            final(self)@ == old(self)@.insert(key@, value),
    {
        self.remove(key.as_str());
        proof {
            use_type_invariant(&*self);
        }
        let ghost before = self.entries@;
        let ghost added = before.push((key, value));
        let mut entries: Vec<(String, V)> = Vec::new();
        std::mem::swap(&mut entries, &mut self.entries);
        entries.push((key, value));
        proof {
            assert forall|i: int, j: int| 0 <= i < j < added.len() implies (
            #[trigger] added[i]).0@ != (#[trigger] added[j]).0@ by {
                if j == before.len() {
                    lemma_entry(before, i);
                }
            }
        }
        self.entries = entries;
        proof {
            let m = entries_map(added);
            let n = old(self)@.insert(key@, value);
            lemma_entry(added, before.len() as int);
            assert forall|k: Seq<char>| m.contains_key(k) == n.contains_key(k) by {
                if m.contains_key(k) && k != key@ {
                    let i = choose|i: int| holds(added, i, k);
                    assert(holds(before, i, k));
                    lemma_entry(before, i);
                }
                if n.contains_key(k) && k != key@ {
                    assert(entries_map(before).contains_key(k));
                    let i = choose|i: int| holds(before, i, k);
                    assert(holds(added, i, k));
                    lemma_entry(added, i);
                }
            }
            assert forall|k: Seq<char>| m.contains_key(k) implies m[k] == n[k] by {
                let i = choose|i: int| holds(added, i, k);
                lemma_entry(added, i);
                if i < before.len() {
                    lemma_entry(before, i);
                }
            }
            assert(m =~= n);
        }
    }

    /// Take the value of `key` out of the map.
    pub fn remove(&mut self, key: &str) -> (r: Option<V>)
        ensures
            match r {
                Some(v) => old(self)@.contains_key(key@) && v == old(self)@[key@],
                None => !old(self)@.contains_key(key@),
            },
            final(self)@ == old(self)@.remove(key@),
    {
        proof {
            use_type_invariant(&*self);
        }
        let i: usize = self.find(key);
        let ghost before = self.entries@;
        if i == self.entries.len() {
            assert(self@ =~= old(self)@.remove(key@));
            return None;
        }
        let ghost after = before.remove(i as int);
        let mut entries: Vec<(String, V)> = Vec::new();
        std::mem::swap(&mut entries, &mut self.entries);
        let (_, value): (String, V) = entries.remove(i);
        assert(entries@ =~= after);
        proof {
            assert forall|a: int, b: int| 0 <= a < b < after.len() implies (
            #[trigger] after[a]).0@ != (#[trigger] after[b]).0@ by {
                let x = if a < i { a } else { a + 1 };
                let y = if b < i { b } else { b + 1 };
                assert(after[a] == before[x] && after[b] == before[y]);
            }
            lemma_entry(before, i as int);
        }
        self.entries = entries;
        proof {
            let m = entries_map(after);
            let n = old(self)@.remove(key@);
            assert forall|k: Seq<char>| m.contains_key(k) == n.contains_key(k) by {
                if m.contains_key(k) {
                    let a = choose|a: int| holds(after, a, k);
                    let x = if a < i { a } else { a + 1 };
                    assert(holds(before, x, k));
                    lemma_entry(before, x);
                    assert(before[x].0@ != before[i as int].0@);
                }
                if n.contains_key(k) {
                    let x = choose|x: int| holds(before, x, k);
                    let a = if x < i { x } else { x - 1 };
                    assert(x != i);
                    assert(holds(after, a, k));
                }
            }
            assert forall|k: Seq<char>| m.contains_key(k) implies m[k] == n[k] by {
                let a = choose|a: int| holds(after, a, k);
                lemma_entry(after, a);
                let x = if a < i { a } else { a + 1 };
                lemma_entry(before, x);
            }
            assert(m =~= n);
        }
        Some(value)
    }

    /// The entries, each key once.
    pub fn entries(&self) -> (r: &Vec<(String, V)>)
        ensures
            forall|i: int|
                0 <= i < r@.len() ==> self@.contains_key((#[trigger] r@[i]).0@)
                    && self@[r@[i].0@] == r@[i].1,
            forall|key: Seq<char>| #[trigger]
                self@.contains_key(key) ==> exists|i: int|
                    0 <= i < r@.len() && (#[trigger] r@[i]).0@ == key,
            r@.len() == self@.len(),
    {
        proof {
            use_type_invariant(self);
            lemma_len(self.entries@);
            assert forall|key: Seq<char>| #[trigger] self@.contains_key(key) implies exists|i: int|
                0 <= i < self.entries@.len() && (#[trigger] self.entries@[i]).0@ == key by {
                let i = choose|i: int| holds(self.entries@, i, key);
                assert(self.entries@[i].0@ == key);
            }
            assert forall|i: int| 0 <= i < self.entries@.len() implies self@.contains_key(
                (#[trigger] self.entries@[i]).0@,
            ) && self@[self.entries@[i].0@] == self.entries@[i].1 by {
                lemma_entry(self.entries@, i);
            }
        }
        &self.entries
    }
}

proof fn lemma_len<V>(entries: Seq<(String, V)>)
    requires
        distinct(entries),
    ensures
        entries_map(entries).dom().finite(),
        entries_map(entries).len() == entries.len(),
    decreases entries.len(),
{
    let m = entries_map(entries);
    if entries.len() == 0 {
        assert(m.dom() =~= Set::empty());
    } else {
        let rest = entries.drop_last();
        let last = entries.last();
        lemma_len(rest);
        let r = entries_map(rest);
        assert(!r.contains_key(last.0@)) by {
            if r.contains_key(last.0@) {
                let i = choose|i: int| holds(rest, i, last.0@);
                assert(entries[i].0@ != entries[entries.len() - 1].0@);
            }
        }
        assert forall|k: Seq<char>| m.dom().contains(k) == r.dom().insert(last.0@).contains(k) by {
            if m.contains_key(k) {
                let i = choose|i: int| holds(entries, i, k);
                if i < rest.len() {
                    assert(holds(rest, i, k));
                }
            }
            if r.contains_key(k) {
                let i = choose|i: int| holds(rest, i, k);
                assert(holds(entries, i, k));
            }
            if k == last.0@ {
                assert(holds(entries, entries.len() - 1, k));
            }
        }
        assert(m.dom() =~= r.dom().insert(last.0@));
    }
}

} // verus!
