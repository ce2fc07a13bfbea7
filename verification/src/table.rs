//! One table: a finite map from byte keys to byte values.

use crate::bytes::{bytes_eq, bytes_in_range, in_range};
use vstd::prelude::*;

verus! {

/// A record of a table.
#[derive(Debug)]
struct Entry {
    key: Vec<u8>,
    value: Vec<u8>,
}

/// Some entry of `s` has key `k`.
spec fn has_key(s: Seq<Entry>, k: Seq<u8>) -> bool {
    exists|i: int| 0 <= i < s.len() && (#[trigger] s[i]).key@ == k
}

/// The position of an entry with key `k`.
spec fn index_of(s: Seq<Entry>, k: Seq<u8>) -> int {
    choose|i: int| 0 <= i < s.len() && (#[trigger] s[i]).key@ == k
}

/// No key occurs in two entries.
spec fn distinct_keys(s: Seq<Entry>) -> bool {
    forall|i: int, j: int| 0 <= i < j < s.len() ==> (#[trigger] s[i]).key@ != (#[trigger] s[j]).key@
}

/// The map that a list of entries stands for.
spec fn entries_map(s: Seq<Entry>) -> Map<Seq<u8>, Seq<u8>> {
    Map::new(|k: Seq<u8>| has_key(s, k), |k: Seq<u8>| s[index_of(s, k)].value@)
}

/// What a range delete leaves of a map: the keys outside `[start, end)`.
pub open spec fn without_range(
    m: Map<Seq<u8>, Seq<u8>>,
    start: Seq<u8>,
    end: Seq<u8>,
) -> Map<Seq<u8>, Seq<u8>> {
    Map::new(|k: Seq<u8>| m.dom().contains(k) && !in_range(k, start, end), |k: Seq<u8>| m[k])
}

/// With distinct keys, the entry at position `i` is the one the map holds
/// for its key.
proof fn lemma_entry_in_map(s: Seq<Entry>, i: int)
    requires
        distinct_keys(s),
        0 <= i < s.len(),
    ensures
        entries_map(s).dom().contains(s[i].key@),
        entries_map(s)[s[i].key@] == s[i].value@,
{
    let k = s[i].key@;
    assert(has_key(s, k));
    let j = index_of(s, k);
    assert(0 <= j < s.len() && s[j].key@ == k);
    if j < i {
        assert(s[j].key@ != s[i].key@);
    } else if i < j {
        assert(s[i].key@ != s[j].key@);
    }
}

/// An in-memory table. Every key has at most one entry.
#[derive(Debug)]
pub struct MemoryTable {
    entries: Vec<Entry>,
}

impl View for MemoryTable {
    type V = Map<Seq<u8>, Seq<u8>>;

    closed spec fn view(&self) -> Map<Seq<u8>, Seq<u8>> {
        entries_map(self.entries@)
    }
}

impl MemoryTable {
    #[verifier::type_invariant]
    spec fn well_formed(self) -> bool {
        distinct_keys(self.entries@)
    }

    /// The empty table.
    pub fn new() -> (t: Self)
        ensures
            t@ == Map::<Seq<u8>, Seq<u8>>::empty(),
    {
        let t = MemoryTable { entries: Vec::new() };
        assert(t@ =~= Map::<Seq<u8>, Seq<u8>>::empty());
        t
    }

    /// The number of keys in the table.
    pub fn len(&self) -> (n: usize)
        ensures
            self@.dom().finite(),
            n == self@.dom().len(),
    {
        proof {
            use_type_invariant(self);
            lemma_entries_card(self.entries@);
        }
        self.entries.len()
    }

    fn position(&self, key: &[u8]) -> (r: Option<usize>)
        ensures
            match r {
                Some(i) => i < self.entries.len() && self.entries[i as int].key@ == key@,
                None => !has_key(self.entries@, key@),
            },
    {
        let mut i: usize = 0;
        while i < self.entries.len()
            invariant
                i <= self.entries.len(),
                forall|j: int| 0 <= j < i ==> (#[trigger] self.entries[j]).key@ != key@,
            decreases self.entries.len() - i,
        {
            if bytes_eq(self.entries[i].key.as_slice(), key) {
                return Some(i);
            }
            i += 1;
        }
        None
    }

    /// The value stored under `key`, if there is one.
    pub fn get(&self, key: &[u8]) -> (r: Option<&Vec<u8>>)
        ensures
            match r {
                Some(v) => self@.dom().contains(key@) && v@ == self@[key@],
                None => !self@.dom().contains(key@),
            },
    {
        proof {
            use_type_invariant(self);
        }
        match self.position(key) {
            Some(i) => {
                proof {
                    lemma_entry_in_map(self.entries@, i as int);
                }
                Some(&self.entries[i].value)
            },
            None => None,
        }
    }

    /// Whether `key` is present.
    pub fn contains_key(&self, key: &[u8]) -> (r: bool)
        ensures
            r == self@.dom().contains(key@),
    {
        self.position(key).is_some()
    }

    /// Stores `value` under `key`, replacing what was there.
    pub fn insert(&mut self, key: Vec<u8>, value: Vec<u8>)
        ensures
            final(self)@ == old(self)@.insert(key@, value@),
    {
        proof {
            use_type_invariant(&*self);
        }
        let found = self.position(key.as_slice());
        let mut entries: Vec<Entry> = Vec::new();
        std::mem::swap(&mut entries, &mut self.entries);
        let ghost before = entries@;
        match found {
            Some(i) => {
                entries.set(i, Entry { key, value });
                proof {
                    lemma_map_after_set(before, entries@, i as int);
                }
            },
            None => {
                entries.push(Entry { key, value });
                proof {
                    lemma_map_after_push(before, entries@);
                }
            },
        }
        self.entries = entries;
    }

    /// Removes `key`; a key that is absent leaves the table as it was.
    pub fn remove(&mut self, key: &[u8])
        ensures
            final(self)@ == old(self)@.remove(key@),
    {
        proof {
            use_type_invariant(&*self);
        }
        let found = self.position(key);
        let mut entries: Vec<Entry> = Vec::new();
        std::mem::swap(&mut entries, &mut self.entries);
        let ghost before = entries@;
        match found {
            Some(i) => {
                entries.swap_remove(i);
                proof {
                    lemma_map_after_swap_remove(before, entries@, i as int);
                }
            },
            None => {
                assert(entries_map(before).remove(key@) =~= entries_map(before));
            },
        }
        self.entries = entries;
    }

    /// Removes every key in the half-open interval `[start, end)`.
    pub fn remove_range(&mut self, start: &[u8], end: &[u8])
        ensures
            final(self)@ == without_range(old(self)@, start@, end@),
    {
        proof {
            use_type_invariant(&*self);
        }
        let mut entries: Vec<Entry> = Vec::new();
        std::mem::swap(&mut entries, &mut self.entries);
        let ghost before = entries@;
        let mut i: usize = 0;
        while i < entries.len()
            invariant
                i <= entries.len(),
                distinct_keys(before),
                distinct_keys(entries@),
                forall|j: int| 0 <= j < i ==> !in_range((#[trigger] entries[j]).key@, start@, end@),
                forall|j: int| 0 <= j < entries.len() ==> has_entry(before, #[trigger] entries[j]),
                forall|j: int|
                    0 <= j < before.len() && !in_range((#[trigger] before[j]).key@, start@, end@)
                        ==> has_entry(entries@, before[j]),
            decreases entries.len() - i,
        {
            if bytes_in_range(entries[i].key.as_slice(), start, end) {
                let ghost prev = entries@;
                entries.swap_remove(i);
                proof {
                    let last = prev.len() - 1;
                    assert forall|j: int| 0 <= j < entries.len() implies has_entry(
                        before,
                        #[trigger] entries[j],
                    ) by {
                        if j == i {
                            assert(entries[j] == prev[last]);
                        } else {
                            assert(entries[j] == prev[j]);
                        }
                    }
                    assert forall|j: int|
                        0 <= j < before.len() && !in_range(
                            (#[trigger] before[j]).key@,
                            start@,
                            end@,
                        ) implies has_entry(entries@, before[j]) by {
                        let p = choose|p: int| 0 <= p < prev.len() && same_entry(prev[p], before[j]);
                        assert(p != i);
                        if p == last {
                            assert(same_entry(entries[i as int], before[j]));
                        } else {
                            assert(same_entry(entries[p], before[j]));
                        }
                    }
                    assert forall|a: int, b: int| 0 <= a < b < entries.len() implies (
                    #[trigger] entries[a]).key@ != (#[trigger] entries[b]).key@ by {
                        let pa = if a == i { last } else { a };
                        let pb = if b == i { last } else { b };
                        assert(entries[a] == prev[pa]);
                        assert(entries[b] == prev[pb]);
                        if pa < pb {
                            assert(prev[pa].key@ != prev[pb].key@);
                        } else {
                            assert(prev[pb].key@ != prev[pa].key@);
                        }
                    }
                    assert forall|j: int| 0 <= j < i implies !in_range(
                        (#[trigger] entries[j]).key@,
                        start@,
                        end@,
                    ) by {
                        assert(entries[j] == prev[j]);
                    }
                }
            } else {
                i += 1;
            }
        }
        proof {
            lemma_filtered_map(before, entries@, start@, end@);
        }
        self.entries = entries;
    }
}

/// Two entries with the same key and the same value.
spec fn same_entry(a: Entry, b: Entry) -> bool {
    a.key@ == b.key@ && a.value@ == b.value@
}

/// `s` holds an entry with the key and value of `e`.
spec fn has_entry(s: Seq<Entry>, e: Entry) -> bool {
    exists|p: int| 0 <= p < s.len() && same_entry(#[trigger] s[p], e)
}

proof fn lemma_map_after_set(before: Seq<Entry>, after: Seq<Entry>, i: int)
    requires
        distinct_keys(before),
        0 <= i < before.len(),
        after.len() == before.len(),
        after[i].key@ == before[i].key@,
        forall|j: int| 0 <= j < before.len() && j != i ==> after[j] == before[j],
    ensures
        distinct_keys(after),
        entries_map(after) == entries_map(before).insert(after[i].key@, after[i].value@),
{
    assert forall|a: int, b: int| 0 <= a < b < after.len() implies (#[trigger] after[a]).key@ != (
    #[trigger] after[b]).key@ by {
        assert(before[a].key@ != before[b].key@);
    }
    let m = entries_map(before).insert(after[i].key@, after[i].value@);
    assert forall|k: Seq<u8>| m.dom().contains(k) <==> entries_map(after).dom().contains(k) by {
        if has_key(before, k) {
            let j = index_of(before, k);
            assert(after[j].key@ == k);
        }
        if has_key(after, k) {
            let j = index_of(after, k);
            assert(before[j].key@ == k);
        }
        if k == after[i].key@ {
            assert(has_key(after, k));
        }
    }
    assert forall|k: Seq<u8>| m.dom().contains(k) implies m[k] == entries_map(after)[k] by {
        let j = index_of(after, k);
        assert(0 <= j < after.len() && after[j].key@ == k);
        lemma_entry_in_map(after, j);
        if j != i {
            lemma_entry_in_map(before, j);
        }
    }
    assert(entries_map(after) =~= m);
}

proof fn lemma_map_after_push(before: Seq<Entry>, after: Seq<Entry>)
    requires
        distinct_keys(before),
        after.len() == before.len() + 1,
        forall|j: int| 0 <= j < before.len() ==> after[j] == before[j],
        !has_key(before, after[before.len() as int].key@),
    ensures
        distinct_keys(after),
        entries_map(after) == entries_map(before).insert(
            after[before.len() as int].key@,
            after[before.len() as int].value@,
        ),
{
    let n = before.len() as int;
    assert forall|a: int, b: int| 0 <= a < b < after.len() implies (#[trigger] after[a]).key@ != (
    #[trigger] after[b]).key@ by {
        if b < n {
            assert(before[a].key@ != before[b].key@);
        } else {
            assert(before[a].key@ == after[a].key@);
        }
    }
    let m = entries_map(before).insert(after[n].key@, after[n].value@);
    assert forall|k: Seq<u8>| m.dom().contains(k) <==> entries_map(after).dom().contains(k) by {
        if has_key(before, k) {
            let j = index_of(before, k);
            assert(after[j].key@ == k);
        }
        if has_key(after, k) {
            let j = index_of(after, k);
            if j < n {
                assert(before[j].key@ == k);
            }
        }
        if k == after[n].key@ {
            assert(has_key(after, k));
        }
    }
    assert forall|k: Seq<u8>| m.dom().contains(k) implies m[k] == entries_map(after)[k] by {
        let j = index_of(after, k);
        assert(0 <= j < after.len() && after[j].key@ == k);
        lemma_entry_in_map(after, j);
        if j < n {
            assert(before[j].key@ == k);
            lemma_entry_in_map(before, j);
        }
    }
    assert(entries_map(after) =~= m);
}

proof fn lemma_map_after_swap_remove(before: Seq<Entry>, after: Seq<Entry>, i: int)
    requires
        distinct_keys(before),
        0 <= i < before.len(),
        after == before.update(i, before.last()).drop_last(),
    ensures
        distinct_keys(after),
        entries_map(after) == entries_map(before).remove(before[i].key@),
{
    let last = before.len() - 1;
    assert forall|a: int| 0 <= a < after.len() implies #[trigger] after[a] == before[if a == i {
        last
    } else {
        a
    }] by {}
    assert forall|a: int, b: int| 0 <= a < b < after.len() implies (#[trigger] after[a]).key@ != (
    #[trigger] after[b]).key@ by {
        let pa = if a == i { last } else { a };
        let pb = if b == i { last } else { b };
        assert(after[a] == before[pa]);
        assert(after[b] == before[pb]);
        if pa < pb {
            assert(before[pa].key@ != before[pb].key@);
        } else {
            assert(before[pb].key@ != before[pa].key@);
        }
    }
    let m = entries_map(before).remove(before[i].key@);
    assert forall|k: Seq<u8>| m.dom().contains(k) <==> entries_map(after).dom().contains(k) by {
        if m.dom().contains(k) {
            let j = index_of(before, k);
            assert(0 <= j < before.len() && before[j].key@ == k);
            assert(j != i);
            if j == last {
                assert(after[i].key@ == k);
            } else {
                assert(after[j].key@ == k);
            }
        }
        if has_key(after, k) {
            let j = index_of(after, k);
            assert(0 <= j < after.len() && after[j].key@ == k);
            let p = if j == i { last } else { j };
            assert(after[j] == before[p]);
            assert(before[p].key@ == k);
            if p < i {
                assert(before[p].key@ != before[i].key@);
            } else {
                assert(before[i].key@ != before[p].key@);
            }
        }
    }
    assert forall|k: Seq<u8>| m.dom().contains(k) implies m[k] == entries_map(after)[k] by {
        let j = index_of(after, k);
        assert(0 <= j < after.len() && after[j].key@ == k);
        let p = if j == i { last } else { j };
        assert(after[j] == before[p]);
        lemma_entry_in_map(after, j);
        lemma_entry_in_map(before, p);
    }
    assert(entries_map(after) =~= m);
}

proof fn lemma_filtered_map(before: Seq<Entry>, after: Seq<Entry>, start: Seq<u8>, end: Seq<u8>)
    requires
        distinct_keys(before),
        distinct_keys(after),
        forall|j: int| 0 <= j < after.len() ==> !in_range((#[trigger] after[j]).key@, start, end),
        forall|j: int| 0 <= j < after.len() ==> has_entry(before, #[trigger] after[j]),
        forall|j: int|
            0 <= j < before.len() && !in_range((#[trigger] before[j]).key@, start, end)
                ==> has_entry(after, before[j]),
    ensures
        entries_map(after) == without_range(entries_map(before), start, end),
{
    let m = without_range(entries_map(before), start, end);
    assert forall|k: Seq<u8>| m.dom().contains(k) <==> entries_map(after).dom().contains(k) by {
        if m.dom().contains(k) {
            let j = index_of(before, k);
            assert(0 <= j < before.len() && before[j].key@ == k);
            assert(has_entry(after, before[j]));
            let p = choose|p: int| 0 <= p < after.len() && same_entry(#[trigger] after[p], before[j]);
            assert(after[p].key@ == k);
        }
        if has_key(after, k) {
            let j = index_of(after, k);
            assert(0 <= j < after.len() && after[j].key@ == k);
            assert(has_entry(before, after[j]));
            let p = choose|p: int| 0 <= p < before.len() && same_entry(#[trigger] before[p], after[j]);
            assert(before[p].key@ == k);
        }
    }
    assert forall|k: Seq<u8>| m.dom().contains(k) implies m[k] == entries_map(after)[k] by {
        let j = index_of(after, k);
        assert(0 <= j < after.len() && after[j].key@ == k);
        assert(has_entry(before, after[j]));
        let p = choose|p: int| 0 <= p < before.len() && same_entry(#[trigger] before[p], after[j]);
        lemma_entry_in_map(after, j);
        lemma_entry_in_map(before, p);
    }
    assert(entries_map(after) =~= m);
}

/// A list of entries with distinct keys stands for a finite map with as many
/// keys as the list has entries.
proof fn lemma_entries_card(s: Seq<Entry>)
    requires
        distinct_keys(s),
    ensures
        entries_map(s).dom().finite(),
        entries_map(s).dom().len() == s.len(),
    decreases s.len(),
{
    if s.len() == 0 {
        assert(entries_map(s).dom() =~= Set::<Seq<u8>>::empty());
    } else {
        let t = s.drop_last();
        let k = s.last().key@;
        assert forall|i: int, j: int| 0 <= i < j < t.len() implies (#[trigger] t[i]).key@ != (
        #[trigger] t[j]).key@ by {
            assert(s[i].key@ != s[j].key@);
        }
        lemma_entries_card(t);
        assert(!has_key(t, k)) by {
            if has_key(t, k) {
                let j = index_of(t, k);
                assert(s[j].key@ != s[s.len() - 1].key@);
            }
        }
        assert forall|x: Seq<u8>| entries_map(s).dom().contains(x) <==> entries_map(t).dom().insert(
            k,
        ).contains(x) by {
            if has_key(s, x) {
                let j = index_of(s, x);
                if j < t.len() {
                    assert(t[j].key@ == x);
                }
            }
            if has_key(t, x) {
                let j = index_of(t, x);
                assert(s[j].key@ == x);
            }
            if x == k {
                assert(s[s.len() - 1].key@ == x);
            }
        }
        assert(entries_map(s).dom() =~= entries_map(t).dom().insert(k));
    }
}

} // verus!
