//! A map from byte strings that keeps its keys in dictionary order.

use crate::order::{
    before, before_is_one_way, before_is_transitive, beginning_is_not_after,
    beginnings_stay_together, begins_with, place, place_is_decided, starts_with, Place,
};
use vstd::prelude::*;

verus! {

/// The byte strings of `keys` come one strictly before the next.
pub open spec fn in_order(keys: Seq<Seq<u8>>) -> bool {
    forall|i: int, j: int| 0 <= i < j < keys.len() ==> before(#[trigger] keys[i], #[trigger] keys[j])
}

/// The keys that begin with `prefix` are those from `start` on, up to but not at `end`.
pub open spec fn is_range(keys: Seq<Seq<u8>>, prefix: Seq<u8>, start: int, end: int) -> bool {
    forall|i: int|
        0 <= i < keys.len() ==> (start <= i < end <==> begins_with(#[trigger] keys[i], prefix))
}

/// The keys of the map are `keys`.
pub open spec fn holds_keys<V>(map: Map<Seq<u8>, V>, keys: Seq<Seq<u8>>) -> bool {
    forall|key: Seq<u8>| #[trigger] keys.contains(key) <==> map.contains_key(key)
}

/// A map from byte strings to values of type `V`, its entries held in the
/// dictionary order of their keys.
#[derive(Debug)]
pub struct OrdMap<V> {
    entries: Vec<(Vec<u8>, V)>,
}

spec fn keys_of<V>(entries: Seq<(Vec<u8>, V)>) -> Seq<Seq<u8>> {
    Seq::new(entries.len(), |i: int| entries[i].0@)
}

spec fn holds<V>(entries: Seq<(Vec<u8>, V)>, key: Seq<u8>, i: int) -> bool {
    0 <= i < entries.len() && entries[i].0@ == key
}

spec fn map_of<V>(entries: Seq<(Vec<u8>, V)>) -> Map<Seq<u8>, V> {
    Map::new(
        |key: Seq<u8>| exists|i: int| holds(entries, key, i),
        |key: Seq<u8>| entries[choose|i: int| holds(entries, key, i)].1,
    )
}

proof fn entry_is_in_map<V>(entries: Seq<(Vec<u8>, V)>, i: int)
    requires
        in_order(keys_of(entries)),
        0 <= i < entries.len(),
    ensures
        map_of(entries).contains_key(entries[i].0@),
        map_of(entries)[entries[i].0@] == entries[i].1,
{
    let key = entries[i].0@;
    assert(holds(entries, key, i));
    let j = choose|j: int| holds(entries, key, j);
    let keys = keys_of(entries);
    assert(keys[i] == key && keys[j] == key);
    before_is_one_way(key, key);
    if i < j {
        assert(before(keys[i], keys[j]));
    } else if j < i {
        assert(before(keys[j], keys[i]));
    }
}

proof fn entries_are_counted<V>(entries: Seq<(Vec<u8>, V)>)
    requires
        in_order(keys_of(entries)),
    ensures
        map_of(entries).len() == entries.len(),
{
    let keys = keys_of(entries);
    assert forall|i: int, j: int|
        0 <= i < keys.len() && 0 <= j < keys.len() && i != j implies keys[i] != keys[j] by {
        before_is_one_way(keys[i], keys[i]);
        if i < j {
            assert(before(keys[i], keys[j]));
        } else {
            assert(before(keys[j], keys[i]));
        }
    }
    keys.unique_seq_to_set();
    assert(keys.to_set() =~= map_of(entries).dom()) by {
        assert forall|key: Seq<u8>| keys.to_set().contains(key) <==> map_of(
            entries,
        ).dom().contains(key) by {
            if keys.contains(key) {
                let i = choose|i: int| 0 <= i < keys.len() && keys[i] == key;
                assert(holds(entries, key, i));
            }
            if map_of(entries).dom().contains(key) {
                let i = choose|i: int| holds(entries, key, i);
                assert(keys[i] == key);
            }
        }
    }
}

/// Calls `Vec::capacity`. How much has been allocated is up to the allocator; it is
/// never less than what is held.
#[verifier::external_body]
fn vec_capacity<T>(items: &Vec<T>) -> (r: usize)
    ensures
        r >= items@.len(),
{
    items.capacity()
}

impl<V> View for OrdMap<V> {
    type V = Map<Seq<u8>, V>;

    closed spec fn view(&self) -> Map<Seq<u8>, V> {
        map_of(self.entries@)
    }
}

impl<V> OrdMap<V> {
    #[verifier::type_invariant]
    spec fn well_formed(self) -> bool {
        in_order(keys_of(self.entries@))
    }

    /// The keys, in order.
    pub closed spec fn keys(&self) -> Seq<Seq<u8>> {
        keys_of(self.entries@)
    }

    /// An empty map.
    pub fn new() -> (r: Self)
        ensures
            r@ == Map::<Seq<u8>, V>::empty(),
    {
        let r = OrdMap { entries: Vec::new() };
        assert(r@ =~= Map::<Seq<u8>, V>::empty());
        r
    }

    /// The first position whose key does not come before `key`, and whether the
    /// key there is `key` itself.
    fn find(&self, key: &[u8]) -> (r: (usize, bool))
        ensures
            r.0 <= self.entries@.len(),
            forall|i: int| 0 <= i < r.0 ==> before(#[trigger] self.keys()[i], key@),
            forall|i: int|
                r.0 <= i < self.entries@.len() ==> !before(#[trigger] self.keys()[i], key@),
            r.1 <==> r.0 < self.entries@.len() && self.keys()[r.0 as int] == key@,
            r.1 <==> self@.contains_key(key@),
    {
        proof {
            use_type_invariant(self);
        }
        let ghost keys = self.keys();
        let mut low: usize = 0;
        let mut high: usize = self.entries.len();
        while low < high
            invariant
                low <= high <= self.entries@.len(),
                keys == keys_of(self.entries@),
                in_order(keys),
                forall|i: int| 0 <= i < low ==> before(#[trigger] keys[i], key@),
                forall|i: int| high <= i < keys.len() ==> !before(#[trigger] keys[i], key@),
            decreases high - low,
        {
            let mid: usize = low + (high - low) / 2;
            assert(keys[mid as int] == self.entries@[mid as int].0@);
            if place(self.entries[mid].0.as_slice(), key) == Place::Before {
                assert forall|i: int| 0 <= i < mid + 1 implies before(#[trigger] keys[i], key@) by {
                    if i < mid {
                        before_is_transitive(keys[i], keys[mid as int], key@);
                    }
                }
                low = mid + 1;
            } else {
                assert forall|i: int| mid <= i < keys.len() implies !before(
                    #[trigger] keys[i],
                    key@,
                ) by {
                    if i > mid && before(keys[i], key@) {
                        before_is_transitive(keys[mid as int], keys[i], key@);
                    }
                }
                high = mid;
            }
        }
        let found: bool = if low < self.entries.len() {
            assert(keys[low as int] == self.entries@[low as int].0@);
            place(self.entries[low].0.as_slice(), key) == Place::Same
        } else {
            false
        };
        proof {
            if found {
                entry_is_in_map(self.entries@, low as int);
            } else if self@.contains_key(key@) {
                let i = choose|i: int| holds(self.entries@, key@, i);
                assert(keys[i] == key@);
                before_is_one_way(key@, key@);
                assert(i >= low);
                assert(i != low);
                place_is_decided(keys[low as int], key@);
                assert(before(keys[low as int], keys[i]));
                assert(false);
            }
        }
        (low, found)
    }

    /// The value stored under `key`.
    pub fn get(&self, key: &[u8]) -> (r: Option<&V>)
        ensures
            match r {
                Some(v) => self@.contains_key(key@) && *v == self@[key@],
                None => !self@.contains_key(key@),
            },
    {
        let (i, found): (usize, bool) = self.find(key);
        if found {
            proof {
                use_type_invariant(self);
                entry_is_in_map(self.entries@, i as int);
            }
            Some(&self.entries[i].1)
        } else {
            None
        }
    }

    /// Tells whether something is stored under `key`.
    pub fn contains(&self, key: &[u8]) -> (r: bool)
        ensures
            r == self@.contains_key(key@),
    {
        self.find(key).1
    }

    /// Stores `value` under `key`, in place of what was stored there.
    pub fn insert(&mut self, key: Vec<u8>, value: V)
        ensures
            final(self)@ == old(self)@.insert(key@, value),
    {
        let (i, found): (usize, bool) = self.find(key.as_slice());
        proof {
            use_type_invariant(&*self);
        }
        let ghost was = self.entries@;
        let ghost keys = self.keys();
        let ghost stored = (key, value);
        let mut entries: Vec<(Vec<u8>, V)> = Vec::new();
        std::mem::swap(&mut entries, &mut self.entries);
        if found {
            entries.remove(i);
        }
        let ghost between = entries@;
        entries.insert(i, (key, value));
        let ghost now = entries@;
        proof {
            let d: int = if found { 1 } else { 0 };
            assert forall|j: int| 0 <= j < now.len() implies now[j] == (if j < i {
                was[j]
            } else if j == i {
                stored
            } else {
                was[j - 1 + d]
            }) by {}
            let after = keys_of(now);
            assert forall|a: int, b: int| 0 <= a < b < after.len() implies before(
                #[trigger] after[a],
                #[trigger] after[b],
            ) by {
                let wa: int = if a < i { a } else { a - 1 + d };
                let wb: int = if b < i { b } else { b - 1 + d };
                assert(after[i as int] == key@);
                if a == i {
                    assert(after[b] == keys[wb]);
                    place_is_decided(keys[wb], key@);
                    if found {
                        assert(before(keys[i as int], keys[wb]));
                    } else if keys[wb] == key@ {
                        assert(holds(was, key@, wb));
                    }
                    assert(before(key@, keys[wb]));
                } else if b == i {
                    assert(after[a] == keys[wa]);
                    assert(before(keys[wa], key@));
                } else {
                    assert(after[a] == keys[wa] && after[b] == keys[wb]);
                    assert(before(keys[wa], keys[wb]));
                }
            }
            assert(in_order(after));
            assert(map_of(now) =~= map_of(was).insert(key@, value)) by {
                entry_is_in_map(now, i as int);
                assert(now[i as int].0@ == key@);
                assert forall|k: Seq<u8>| #[trigger] map_of(now).dom().contains(k) <==> k == key@
                    || map_of(was).dom().contains(k) by {
                    if k != key@ && map_of(was).contains_key(k) {
                        let j = choose|j: int| holds(was, k, j);
                        let n: int = if j < i { j } else { j + 1 - d };
                        assert(now[n] == was[j]);
                        assert(holds(now, k, n));
                    }
                    if k != key@ && map_of(now).contains_key(k) {
                        let n = choose|n: int| holds(now, k, n);
                        let j: int = if n < i { n } else { n - 1 + d };
                        assert(was[j] == now[n]);
                        assert(holds(was, k, j));
                    }
                }
                assert forall|k: Seq<u8>| k != key@ && map_of(was).dom().contains(
                    k,
                ) implies #[trigger] map_of(now)[k] == map_of(was)[k] by {
                    let j = choose|j: int| holds(was, k, j);
                    let n: int = if j < i { j } else { j + 1 - d };
                    assert(now[n] == was[j]);
                    entry_is_in_map(was, j);
                    entry_is_in_map(now, n);
                }
            }
        }
        self.entries = entries;
    }

    /// Takes out what is stored under `key`.
    pub fn remove(&mut self, key: &[u8]) -> (r: Option<V>)
        ensures
            final(self)@ == old(self)@.remove(key@),
            match r {
                Some(v) => old(self)@.contains_key(key@) && v == old(self)@[key@],
                None => !old(self)@.contains_key(key@),
            },
    {
        let (i, found): (usize, bool) = self.find(key);
        if !found {
            assert(self@ =~= old(self)@.remove(key@));
            return None;
        }
        proof {
            use_type_invariant(&*self);
            entry_is_in_map(self.entries@, i as int);
        }
        let ghost was = self.entries@;
        let ghost keys = keys_of(was);
        let mut entries: Vec<(Vec<u8>, V)> = Vec::new();
        std::mem::swap(&mut entries, &mut self.entries);
        let entry: (Vec<u8>, V) = entries.remove(i);
        let ghost now = entries@;
        proof {
            let after = keys_of(now);
            assert forall|a: int, b: int| 0 <= a < b < after.len() implies before(
                #[trigger] after[a],
                #[trigger] after[b],
            ) by {
                let wa: int = if a < i { a } else { a + 1 };
                let wb: int = if b < i { b } else { b + 1 };
                assert(after[a] == keys[wa] && after[b] == keys[wb]);
                assert(before(keys[wa], keys[wb]));
            }
            assert(in_order(after));
            assert(map_of(now) =~= map_of(was).remove(key@)) by {
                assert forall|k: Seq<u8>| #[trigger] map_of(now).dom().contains(k) <==> k != key@
                    && map_of(was).dom().contains(k) by {
                    if k != key@ && map_of(was).contains_key(k) {
                        let j = choose|j: int| holds(was, k, j);
                        let n: int = if j < i { j } else { j - 1 };
                        assert(now[n] == was[j]);
                        assert(holds(now, k, n));
                    }
                    if map_of(now).contains_key(k) {
                        let n = choose|n: int| holds(now, k, n);
                        let j: int = if n < i { n } else { n + 1 };
                        assert(was[j] == now[n]);
                        assert(holds(was, k, j));
                        assert(keys[j] == k);
                        before_is_one_way(key@, key@);
                        if n < i {
                            assert(before(keys[j], keys[i as int]));
                        } else {
                            assert(before(keys[i as int], keys[j]));
                        }
                    }
                }
                assert forall|k: Seq<u8>| map_of(now).dom().contains(k) implies #[trigger] map_of(
                    now,
                )[k] == map_of(was)[k] by {
                    let n = choose|n: int| holds(now, k, n);
                    let j: int = if n < i { n } else { n + 1 };
                    assert(was[j] == now[n]);
                    entry_is_in_map(was, j);
                    entry_is_in_map(now, n);
                }
            }
        }
        self.entries = entries;
        Some(entry.1)
    }

    /// The number of entries.
    pub fn len(&self) -> (r: usize)
        ensures
            r == self@.len(),
    {
        proof {
            use_type_invariant(self);
            entries_are_counted(self.entries@);
        }
        self.entries.len()
    }

    /// The number of entries that there is room for without allocating again.
    pub fn capacity(&self) -> (r: usize)
        ensures
            r >= self@.len(),
    {
        proof {
            use_type_invariant(self);
            entries_are_counted(self.entries@);
        }
        vec_capacity(&self.entries)
    }

    /// Takes everything out. The room that was allocated for the entries is kept.
    pub fn clear(&mut self)
        ensures
            final(self)@ == Map::<Seq<u8>, V>::empty(),
    {
        let mut entries: Vec<(Vec<u8>, V)> = Vec::new();
        std::mem::swap(&mut entries, &mut self.entries);
        entries.clear();
        self.entries = entries;
        assert(self@ =~= Map::<Seq<u8>, V>::empty());
    }

    /// The positions of the keys that begin with `prefix`: from the first number
    /// on, and up to but not at the second.
    pub fn range(&self, prefix: &[u8]) -> (r: (usize, usize))
        ensures
            r.0 <= r.1 <= self.keys().len(),
            in_order(self.keys()),
            forall|i: int|
                0 <= i < self.keys().len() ==> (r.0 <= i < r.1 <==> begins_with(
                    #[trigger] self.keys()[i],
                    prefix@,
                )),
            forall|key: Seq<u8>| self.keys().contains(key) <==> self@.contains_key(key),
            is_range(self.keys(), prefix@, r.0 as int, r.1 as int),
            holds_keys(self@, self.keys()),
    {
        let (start, _found): (usize, bool) = self.find(prefix);
        proof {
            use_type_invariant(self);
        }
        let ghost keys = self.keys();
        let mut end: usize = start;
        while end < self.entries.len() && starts_with(self.entries[end].0.as_slice(), prefix)
            invariant
                start <= end <= self.entries@.len(),
                keys == keys_of(self.entries@),
                forall|i: int| start <= i < end ==> begins_with(#[trigger] keys[i], prefix@),
            decreases self.entries@.len() - end,
        {
            assert(keys[end as int] == self.entries@[end as int].0@);
            end = end + 1;
        }
        proof {
            assert forall|i: int| 0 <= i < keys.len() implies (start <= i < end <==> begins_with(
                #[trigger] keys[i],
                prefix@,
            )) by {
                if i < start {
                    if begins_with(keys[i], prefix@) {
                        beginning_is_not_after(keys[i], prefix@);
                    }
                } else if i >= end {
                    assert(keys[end as int] == self.entries@[end as int].0@);
                    if i > end {
                        beginnings_stay_together(prefix@, keys[end as int], keys[i]);
                    }
                }
            }
            assert forall|key: Seq<u8>| keys.contains(key) <==> self@.contains_key(key) by {
                if keys.contains(key) {
                    let i = choose|i: int| 0 <= i < keys.len() && keys[i] == key;
                    assert(holds(self.entries@, key, i));
                }
                if self@.contains_key(key) {
                    let i = choose|i: int| holds(self.entries@, key, i);
                    assert(keys[i] == key);
                }
            }
        }
        (start, end)
    }

    /// The key at position `i` and what is stored under it.
    pub fn entry(&self, i: usize) -> (r: (&Vec<u8>, &V))
        requires
            i < self.keys().len(),
        ensures
            r.0@ == self.keys()[i as int],
            self@.contains_key(r.0@),
            *r.1 == self@[r.0@],
    {
        proof {
            use_type_invariant(self);
            entry_is_in_map(self.entries@, i as int);
        }
        (&self.entries[i].0, &self.entries[i].1)
    }
}

} // verus!
