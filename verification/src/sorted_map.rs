//! A map from text keys to values, kept as two parallel vectors in strictly
//! ascending key order, so that walking it yields the keys in lexicographic
//! order whatever the order of insertion was.

use crate::key_order::{compare_keys, key_before, lemma_key_order_transitive, lemma_key_order_trichotomy, KeyOrder};
use vstd::prelude::*;

verus! {

/// The keys stand in strictly ascending order; in particular none occurs twice.
pub open spec fn ascending(keys: Seq<Seq<char>>) -> bool {
    forall|i: int, j: int| 0 <= i < j < keys.len() ==> key_before(keys[i], keys[j])
}

/// `at` is the place of `key` among ascending `keys`: every key below `at`
/// sorts before `key`; if `found`, the key at `at` is `key` itself; if not,
/// every key from `at` on sorts after `key`.
pub open spec fn is_slot(keys: Seq<Seq<char>>, key: Seq<char>, at: int, found: bool) -> bool {
    &&& 0 <= at <= keys.len()
    &&& forall|i: int| 0 <= i < at ==> key_before(#[trigger] keys[i], key)
    &&& found ==> at < keys.len() && keys[at] == key
    &&& !found ==> forall|i: int| at <= i < keys.len() ==> key_before(key, #[trigger] keys[i])
}

/// The map that pairs each key with the value at the same index.
pub open spec fn assoc<W>(keys: Seq<Seq<char>>, values: Seq<W>) -> Map<Seq<char>, W> {
    Map::new(|k: Seq<char>| keys.contains(k), |k: Seq<char>| values[keys.index_of(k)])
}

/// Ascending keys are pairwise distinct.
pub proof fn lemma_ascending_distinct(keys: Seq<Seq<char>>, i: int, j: int)
    requires
        ascending(keys),
        0 <= i < keys.len(),
        0 <= j < keys.len(),
        keys[i] == keys[j],
    ensures
        i == j,
{
    lemma_key_order_trichotomy(keys[i], keys[j]);
}

/// Under ascending keys, the map holds at each key the value of the same index.
pub proof fn lemma_assoc_at<W>(keys: Seq<Seq<char>>, values: Seq<W>, i: int)
    requires
        ascending(keys),
        0 <= i < keys.len(),
    ensures
        assoc(keys, values).contains_key(keys[i]),
        assoc(keys, values)[keys[i]] == values[i],
{
    assert(keys.contains(keys[i]));
    lemma_ascending_distinct(keys, i, keys.index_of(keys[i]));
}

/// A slot tells whether the key is present.
pub proof fn lemma_slot_presence(keys: Seq<Seq<char>>, key: Seq<char>, at: int, found: bool)
    requires
        ascending(keys),
        is_slot(keys, key, at, found),
    ensures
        found == keys.contains(key),
        found ==> keys.index_of(key) == at,
{
    if found {
        assert(keys.contains(key));
        lemma_ascending_distinct(keys, at, keys.index_of(key));
    } else {
        if keys.contains(key) {
            let i = keys.index_of(key);
            lemma_key_order_trichotomy(keys[i], key);
        }
    }
}

/// Putting an absent key into its slot keeps the keys ascending and adds
/// exactly that pair to the map.
pub proof fn lemma_assoc_insert<W>(
    keys: Seq<Seq<char>>,
    values: Seq<W>,
    at: int,
    key: Seq<char>,
    value: W,
)
    requires
        ascending(keys),
        keys.len() == values.len(),
        is_slot(keys, key, at, false),
    ensures
        ascending(keys.insert(at, key)),
        assoc(keys.insert(at, key), values.insert(at, value)) == assoc(keys, values).insert(
            key,
            value,
        ),
{
    let keys2 = keys.insert(at, key);
    let values2 = values.insert(at, value);
    assert forall|i: int, j: int| 0 <= i < j < keys2.len() implies key_before(
        keys2[i],
        keys2[j],
    ) by {
        if j < at {
        } else if j == at {
            assert(keys2[i] == keys[i]);
        } else if i < at {
            assert(keys2[j] == keys[j - 1]);
            lemma_key_order_transitive(keys[i], key, keys[j - 1]);
        } else if i == at {
            assert(keys2[j] == keys[j - 1]);
        } else {
            assert(keys2[i] == keys[i - 1]);
            assert(keys2[j] == keys[j - 1]);
        }
    }
    let before = assoc(keys, values);
    let after = assoc(keys2, values2);
    assert forall|k: Seq<char>| after.contains_key(k) <==> before.insert(
        key,
        value,
    ).contains_key(k) by {
        if keys2.contains(k) {
            let i = keys2.index_of(k);
            if i < at {
                assert(keys[i] == k);
            } else if i > at {
                assert(keys[i - 1] == k);
            }
        }
        if keys.contains(k) {
            let i = keys.index_of(k);
            if i < at {
                assert(keys2[i] == k);
            } else {
                assert(keys2[i + 1] == k);
            }
        }
        if k == key {
            assert(keys2[at] == k);
        }
    }
    assert forall|k: Seq<char>| after.contains_key(k) implies after[k] == before.insert(
        key,
        value,
    )[k] by {
        let i = keys2.index_of(k);
        lemma_assoc_at(keys2, values2, i);
        if i < at {
            assert(keys[i] == k);
            lemma_assoc_at(keys, values, i);
        } else if i > at {
            assert(keys[i - 1] == k);
            lemma_assoc_at(keys, values, i - 1);
            lemma_key_order_trichotomy(key, k);
        }
    }
    assert(after =~= before.insert(key, value));
}

/// Replacing the value at a present key changes the map at that key only.
pub proof fn lemma_assoc_update<W>(keys: Seq<Seq<char>>, values: Seq<W>, at: int, value: W)
    requires
        ascending(keys),
        keys.len() == values.len(),
        0 <= at < keys.len(),
    ensures
        assoc(keys, values.update(at, value)) == assoc(keys, values).insert(keys[at], value),
{
    let before = assoc(keys, values);
    let after = assoc(keys, values.update(at, value));
    assert(keys.contains(keys[at]));
    assert forall|k: Seq<char>| after.contains_key(k) implies after[k] == before.insert(
        keys[at],
        value,
    )[k] by {
        let i = keys.index_of(k);
        lemma_assoc_at(keys, values, i);
        lemma_assoc_at(keys, values.update(at, value), i);
        if i != at && k == keys[at] {
            lemma_ascending_distinct(keys, i, at);
        }
    }
    assert(after =~= before.insert(keys[at], value));
}

/// Ascending key sequences that hold the same keys are the same sequence.
pub proof fn lemma_ascending_unique(a: Seq<Seq<char>>, b: Seq<Seq<char>>)
    requires
        ascending(a),
        ascending(b),
        forall|k: Seq<char>| a.contains(k) <==> b.contains(k),
    ensures
        a == b,
    decreases a.len(),
{
    if a.len() == 0 {
        if b.len() > 0 {
            assert(b.contains(b[0]));
        }
        assert(a =~= b);
    } else {
        // The greatest key of each is the last one, so the two last keys coincide.
        let x = a.last();
        assert(a.contains(x));
        assert(b.contains(x));
        let y = b.last();
        assert(b.contains(y));
        assert(a.contains(y));
        let ib = b.index_of(x);
        let ia = a.index_of(y);
        lemma_key_order_trichotomy(x, y);
        assert(x == y);
        let a0 = a.drop_last();
        let b0 = b.drop_last();
        assert forall|k: Seq<char>| a0.contains(k) <==> b0.contains(k) by {
            if a0.contains(k) {
                let i = a0.index_of(k);
                assert(a[i] == k);
                assert(a.contains(k));
                let j = b.index_of(k);
                lemma_key_order_trichotomy(k, x);
                assert(b0[j] == k);
            }
            if b0.contains(k) {
                let i = b0.index_of(k);
                assert(b[i] == k);
                assert(b.contains(k));
                let j = a.index_of(k);
                lemma_key_order_trichotomy(k, y);
                assert(a0[j] == k);
            }
        }
        lemma_ascending_unique(a0, b0);
        assert(a =~= a0.push(x));
        assert(b =~= b0.push(y));
    }
}

/// `keys` lists the keys of `map` in ascending order.
pub open spec fn enumerates<W>(keys: Seq<Seq<char>>, map: Map<Seq<char>, W>) -> bool {
    &&& ascending(keys)
    &&& forall|k: Seq<char>| keys.contains(k) <==> map.contains_key(k)
}

/// The keys of a map in ascending order: the order in which the map is
/// walked and rendered. It is meaningful for maps with finitely many keys,
/// which have exactly one such listing.
pub open spec fn ordered_keys<W>(map: Map<Seq<char>, W>) -> Seq<Seq<char>> {
    choose|keys: Seq<Seq<char>>| enumerates(keys, map)
}

/// A listing of the keys of a map in ascending order is the only one.
pub proof fn lemma_ordered_keys<W>(keys: Seq<Seq<char>>, map: Map<Seq<char>, W>)
    requires
        enumerates(keys, map),
    ensures
        ordered_keys(map) == keys,
{
    lemma_ascending_unique(ordered_keys(map), keys);
}

/// Every key has a slot among ascending keys.
pub proof fn lemma_slot_exists(keys: Seq<Seq<char>>, key: Seq<char>) -> (slot: (int, bool))
    requires
        ascending(keys),
    ensures
        is_slot(keys, key, slot.0, slot.1),
    decreases keys.len(),
{
    if keys.len() == 0 {
        (0, false)
    } else {
        let last = keys.last();
        lemma_key_order_trichotomy(last, key);
        if key_before(last, key) {
            assert forall|i: int| 0 <= i < keys.len() implies key_before(
                #[trigger] keys[i],
                key,
            ) by {
                if i < keys.len() - 1 {
                    lemma_key_order_transitive(keys[i], last, key);
                }
            }
            (keys.len() as int, false)
        } else if last == key {
            (keys.len() - 1, true)
        } else {
            let earlier = keys.drop_last();
            let slot = lemma_slot_exists(earlier, key);
            assert forall|i: int| 0 <= i < slot.0 implies key_before(#[trigger] keys[i], key) by {
                assert(keys[i] == earlier[i]);
            }
            if slot.1 {
                assert(keys[slot.0] == earlier[slot.0]);
            } else {
                assert forall|i: int| slot.0 <= i < keys.len() implies key_before(
                    key,
                    #[trigger] keys[i],
                ) by {
                    if i < keys.len() - 1 {
                        assert(keys[i] == earlier[i]);
                    }
                }
            }
            slot
        }
    }
}

/// A map that has an ascending listing of its keys still has one after a
/// key is set.
pub proof fn lemma_enumerates_insert<W>(
    keys: Seq<Seq<char>>,
    map: Map<Seq<char>, W>,
    key: Seq<char>,
    value: W,
) -> (grown: Seq<Seq<char>>)
    requires
        enumerates(keys, map),
    ensures
        enumerates(grown, map.insert(key, value)),
{
    let slot = lemma_slot_exists(keys, key);
    lemma_slot_presence(keys, key, slot.0, slot.1);
    if slot.1 {
        keys
    } else {
        let grown = keys.insert(slot.0, key);
        lemma_assoc_insert(keys, keys, slot.0, key, key);
        assert forall|k: Seq<char>| grown.contains(k) <==> map.insert(key, value).contains_key(
            k,
        ) by {
            assert(assoc(grown, grown).contains_key(k) == grown.contains(k));
            assert(assoc(keys, keys).contains_key(k) == keys.contains(k));
        }
        grown
    }
}

/// The text of each string of a sequence.
pub open spec fn texts(strings: Seq<String>) -> Seq<Seq<char>> {
    Seq::new(strings.len(), |i: int| strings[i]@)
}

/// The view of each value of a sequence.
pub open spec fn views<V: View>(values: Seq<V>) -> Seq<V::V> {
    Seq::new(values.len(), |i: int| values[i]@)
}

/// A map from text keys to values that keeps its keys in strictly ascending
/// order.
#[derive(Debug, Clone, PartialEq, Eq)]
pub struct SortedMap<V> {
    keys: Vec<String>,
    values: Vec<V>,
}

impl<V: View> SortedMap<V> {
    /// The keys, in the order in which the map is walked.
    pub closed spec fn keys(&self) -> Seq<Seq<char>> {
        texts(self.keys@)
    }

    /// The values, each at the index of its key.
    pub closed spec fn values(&self) -> Seq<V::V> {
        views(self.values@)
    }

    /// Every key has its value and the keys are strictly ascending.
    pub open spec fn wf(&self) -> bool {
        &&& self.keys().len() == self.values().len()
        &&& ascending(self.keys())
    }

    /// The map as a mathematical map from key to value.
    pub open spec fn view(&self) -> Map<Seq<char>, V::V> {
        assoc(self.keys(), self.values())
    }

    /// A well-formed map is walked in the ascending order of its keys, and
    /// each index holds the value that the map gives to the key there.
    pub proof fn lemma_walk(&self)
        requires
            self.wf(),
        ensures
            self.keys() == ordered_keys(self@),
            enumerates(self.keys(), self@),
            forall|i: int|
                0 <= i < self.keys().len() ==> self.values()[i] == self@[#[trigger] self.keys()[i]],
    {
        lemma_ordered_keys(self.keys(), self@);
        assert forall|i: int| 0 <= i < self.keys().len() implies self.values()[i]
            == self@[#[trigger] self.keys()[i]] by {
            lemma_assoc_at(self.keys(), self.values(), i);
        }
    }

    /// An empty map.
    pub fn new() -> (m: Self)
        ensures
            m.wf(),
            m.keys() == Seq::<Seq<char>>::empty(),
            m.values() == Seq::<V::V>::empty(),
            m@ == Map::<Seq<char>, V::V>::empty(),
    {
        let m = SortedMap { keys: Vec::new(), values: Vec::new() };
        assert(m.keys() =~= Seq::<Seq<char>>::empty());
        assert(m.values() =~= Seq::<V::V>::empty());
        assert(m@ =~= Map::<Seq<char>, V::V>::empty());
        m
    }

    /// The number of keys.
    pub fn len(&self) -> (n: usize)
        ensures
            n == self.keys().len(),
    {
        self.keys.len()
    }

    /// The key at `index` in ascending order.
    pub fn key_at(&self, index: usize) -> (key: &String)
        requires
            index < self.keys().len(),
        ensures
            key@ == self.keys()[index as int],
    {
        &self.keys[index]
    }

    /// The value of the key at `index` in ascending order.
    pub fn value_at(&self, index: usize) -> (value: &V)
        requires
            self.wf(),
            index < self.keys().len(),
        ensures
            value@ == self.values()[index as int],
            value@ == self@[self.keys()[index as int]],
    {
        proof {
            lemma_assoc_at(self.keys(), self.values(), index as int);
        }
        &self.values[index]
    }

    /// Finds the place of `key` by binary search.
    pub fn position(&self, key: &str) -> (r: (usize, bool))
        requires
            self.wf(),
        ensures
            is_slot(self.keys(), key@, r.0 as int, r.1),
            r.1 == self@.contains_key(key@),
    {
        let mut lo: usize = 0;
        let mut hi: usize = self.keys.len();
        while lo < hi
            invariant
                self.wf(),
                lo <= hi <= self.keys().len(),
                self.keys().len() == self.keys@.len(),
                forall|i: int| 0 <= i < lo ==> key_before(#[trigger] self.keys()[i], key@),
                forall|i: int|
                    hi <= i < self.keys().len() ==> key_before(key@, #[trigger] self.keys()[i]),
            decreases hi - lo,
        {
            let mid: usize = lo + (hi - lo) / 2;
            let probe = self.keys[mid].as_str();
            assert(probe@ == self.keys()[mid as int]);
            match compare_keys(probe, key) {
                KeyOrder::Same => {
                    proof {
                        lemma_slot_presence(self.keys(), key@, mid as int, true);
                    }
                    return (mid, true);
                },
                KeyOrder::Before => {
                    proof {
                        assert forall|i: int| 0 <= i < mid + 1 implies key_before(
                            #[trigger] self.keys()[i],
                            key@,
                        ) by {
                            if i < mid {
                                lemma_key_order_transitive(self.keys()[i], probe@, key@);
                            }
                        }
                    }
                    lo = mid + 1;
                },
                KeyOrder::After => {
                    proof {
                        assert forall|i: int| mid <= i < self.keys().len() implies key_before(
                            key@,
                            #[trigger] self.keys()[i],
                        ) by {
                            if mid < i {
                                lemma_key_order_transitive(key@, probe@, self.keys()[i]);
                            }
                        }
                    }
                    hi = mid;
                },
            }
        }
        proof {
            lemma_slot_presence(self.keys(), key@, lo as int, false);
        }
        (lo, false)
    }

    /// The value recorded under `key`, if any.
    pub fn get(&self, key: &str) -> (r: Option<&V>)
        requires
            self.wf(),
        ensures
            match r {
                Some(value) => self@.contains_key(key@) && value@ == self@[key@],
                None => !self@.contains_key(key@),
            },
    {
        let (at, found) = self.position(key);
        if found {
            Some(self.value_at(at))
        } else {
            None
        }
    }

    /// Puts a key that the map does not hold into its slot.
    pub(crate) fn insert_at(&mut self, at: usize, key: String, value: V)
        requires
            old(self).wf(),
            is_slot(old(self).keys(), key@, at as int, false),
        ensures
            final(self).wf(),
            final(self).keys() == old(self).keys().insert(at as int, key@),
            final(self).values() == old(self).values().insert(at as int, value@),
            final(self)@ == old(self)@.insert(key@, value@),
    {
        proof {
            lemma_assoc_insert(self.keys(), self.values(), at as int, key@, value@);
        }
        self.keys.insert(at, key);
        self.values.insert(at, value);
        assert(self.keys() =~= old(self).keys().insert(at as int, key@));
        assert(self.values() =~= old(self).values().insert(at as int, value@));
    }

    /// Replaces the value of the key at `at` and hands the former value back.
    pub(crate) fn replace_at(&mut self, at: usize, value: V) -> (former: V)
        requires
            old(self).wf(),
            at < old(self).keys().len(),
        ensures
            final(self).wf(),
            former@ == old(self).values()[at as int],
            final(self).keys() == old(self).keys(),
            final(self).values() == old(self).values().update(at as int, value@),
            final(self)@ == old(self)@.insert(old(self).keys()[at as int], value@),
    {
        proof {
            lemma_assoc_update(self.keys(), self.values(), at as int, value@);
        }
        self.values.push(value);
        let former = self.values.swap_remove(at);
        assert(self.values() =~= old(self).values().update(at as int, value@));
        former
    }
}

} // verus!
