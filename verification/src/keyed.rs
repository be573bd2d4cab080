//! A small map from text to values that keeps its keys in the order in which
//! they were first inserted.

use vstd::prelude::*;
use crate::text::same_text;

verus! {

/// Values by key. No key occurs twice.
#[derive(Debug)]
pub struct KeyedStore<V> {
    entries: Vec<(String, V)>,
}

/// Whether one of `pairs` has the key `key`.
pub open spec fn has_key<V>(pairs: Seq<(Seq<char>, V)>, key: Seq<char>) -> bool {
    exists|i: int| 0 <= i < pairs.len() && (#[trigger] pairs[i]).0 == key
}

/// Where a pair with the key `key` stands.
pub open spec fn index_of_key<V>(pairs: Seq<(Seq<char>, V)>, key: Seq<char>) -> int {
    choose|i: int| 0 <= i < pairs.len() && (#[trigger] pairs[i]).0 == key
}

/// Whether no two of `pairs` have the same key.
pub open spec fn distinct_keys<V>(pairs: Seq<(Seq<char>, V)>) -> bool {
    forall|i: int, j: int|
        0 <= i < j < pairs.len() ==> (#[trigger] pairs[i]).0 != (#[trigger] pairs[j]).0
}

/// `pairs` as a map.
pub open spec fn map_of_pairs<V>(pairs: Seq<(Seq<char>, V)>) -> Map<Seq<char>, V> {
    Map::new(
        |key: Seq<char>| has_key(pairs, key),
        |key: Seq<char>| pairs[index_of_key(pairs, key)].1,
    )
}

/// `pairs` with `value` for `key`: in the place of the pair that has the key, or
/// at the end where none has it.
pub open spec fn with_pair<V>(pairs: Seq<(Seq<char>, V)>, key: Seq<char>, value: V) -> Seq<
    (Seq<char>, V),
> {
    if has_key(pairs, key) {
        pairs.update(index_of_key(pairs, key), (key, value))
    } else {
        pairs.push((key, value))
    }
}

/// `pairs` without the pair that has the key `key`; the others keep their order.
pub open spec fn without_key<V>(pairs: Seq<(Seq<char>, V)>, key: Seq<char>) -> Seq<
    (Seq<char>, V),
> {
    if has_key(pairs, key) {
        pairs.remove(index_of_key(pairs, key))
    } else {
        pairs
    }
}

impl<V> KeyedStore<V> {
    /// The pairs of key and value, in the order of insertion.
    pub closed spec fn pairs(&self) -> Seq<(Seq<char>, V)> {
        self.entries@.map_values(|e: (String, V)| (e.0@, e.1))
    }

    /// No key occurs twice.
    pub open spec fn wf(&self) -> bool {
        distinct_keys(self.pairs())
    }
}

impl<V> View for KeyedStore<V> {
    type V = Map<Seq<char>, V>;

    open spec fn view(&self) -> Map<Seq<char>, V> {
        map_of_pairs(self.pairs())
    }
}

/// What pairs with distinct keys say of one key they say for good.
proof fn lemma_index_unique<V>(pairs: Seq<(Seq<char>, V)>, i: int)
    requires
        distinct_keys(pairs),
        0 <= i < pairs.len(),
    ensures
        has_key(pairs, pairs[i].0),
        index_of_key(pairs, pairs[i].0) == i,
{
    let j = index_of_key(pairs, pairs[i].0);
    assert(0 <= j < pairs.len() && pairs[j].0 == pairs[i].0);
}

/// The map has what the pairs have.
pub proof fn lemma_pairs_and_map<V>(pairs: Seq<(Seq<char>, V)>)
    requires
        distinct_keys(pairs),
    ensures
        forall|i: int|
            0 <= i < pairs.len() ==> map_of_pairs(pairs).dom().contains((#[trigger] pairs[i]).0)
                && map_of_pairs(pairs)[pairs[i].0] == pairs[i].1,
        forall|key: Seq<char>| #[trigger]
            map_of_pairs(pairs).dom().contains(key) ==> exists|i: int|
                0 <= i < pairs.len() && (#[trigger] pairs[i]).0 == key,
{
    assert forall|i: int| 0 <= i < pairs.len() implies map_of_pairs(pairs).dom().contains(
        (#[trigger] pairs[i]).0,
    ) && map_of_pairs(pairs)[pairs[i].0] == pairs[i].1 by {
        lemma_index_unique(pairs, i);
    }
}

/// `pairs` with `f` of each value.
pub open spec fn mapped<V, W>(pairs: Seq<(Seq<char>, V)>, f: spec_fn(V) -> W) -> Seq<
    (Seq<char>, W),
> {
    pairs.map_values(|p: (Seq<char>, V)| (p.0, f(p.1)))
}

/// A function of the values leaves the keys, and is that function in the map.
pub proof fn lemma_mapped<V, W>(pairs: Seq<(Seq<char>, V)>, f: spec_fn(V) -> W)
    ensures
        distinct_keys(mapped(pairs, f)) == distinct_keys(pairs),
        distinct_keys(pairs) ==> map_of_pairs(mapped(pairs, f)) == map_of_pairs(pairs).map_values(f),
{
    let after = mapped(pairs, f);
    assert(forall|i: int| 0 <= i < pairs.len() ==> #[trigger] after[i].0 == pairs[i].0);
    if distinct_keys(pairs) {
        assert forall|i: int, j: int| 0 <= i < j < after.len() implies (#[trigger] after[i]).0 != (
        #[trigger] after[j]).0 by {
            assert(pairs[i].0 != pairs[j].0);
        }
        lemma_pairs_and_map(pairs);
        lemma_pairs_and_map(after);
        let left = map_of_pairs(after);
        let right = map_of_pairs(pairs).map_values(f);
        assert forall|key: Seq<char>| #[trigger] left.dom().contains(key) == right.dom().contains(
            key,
        ) by {
            if left.dom().contains(key) {
                let i = choose|i: int| 0 <= i < after.len() && (#[trigger] after[i]).0 == key;
                assert(pairs[i].0 == key);
            }
            if map_of_pairs(pairs).dom().contains(key) {
                let i = choose|i: int| 0 <= i < pairs.len() && (#[trigger] pairs[i]).0 == key;
                assert(after[i].0 == key);
            }
        }
        assert forall|key: Seq<char>| left.dom().contains(key) implies #[trigger] left[key]
            == right[key] by {
            let i = choose|i: int| 0 <= i < after.len() && (#[trigger] after[i]).0 == key;
            assert(pairs[i].0 == key);
        }
        assert(left =~= right);
    }
    if distinct_keys(after) {
        assert forall|i: int, j: int| 0 <= i < j < pairs.len() implies (#[trigger] pairs[i]).0 != (
        #[trigger] pairs[j]).0 by {
            assert(after[i].0 != after[j].0);
        }
    }
}

/// A function of the values goes along with finding and removing a pair.
pub proof fn lemma_mapped_key<V, W>(
    pairs: Seq<(Seq<char>, V)>,
    f: spec_fn(V) -> W,
    key: Seq<char>,
)
    requires
        distinct_keys(pairs),
    ensures
        has_key(mapped(pairs, f), key) == has_key(pairs, key),
        has_key(pairs, key) ==> index_of_key(mapped(pairs, f), key) == index_of_key(pairs, key),
        mapped(without_key(pairs, key), f) == without_key(mapped(pairs, f), key),
{
    let after = mapped(pairs, f);
    assert(forall|i: int| 0 <= i < pairs.len() ==> #[trigger] after[i].0 == pairs[i].0);
    lemma_mapped(pairs, f);
    if has_key(pairs, key) {
        let i = index_of_key(pairs, key);
        assert(after[i].0 == key);
        lemma_index_unique(after, i);
    }
    if has_key(after, key) {
        let i = index_of_key(after, key);
        assert(pairs[i].0 == key);
    }
    assert(mapped(without_key(pairs, key), f) =~= without_key(after, key));
}

/// A function of the values goes along with setting a pair.
pub proof fn lemma_mapped_pair<V, W>(
    pairs: Seq<(Seq<char>, V)>,
    f: spec_fn(V) -> W,
    key: Seq<char>,
    value: V,
)
    requires
        distinct_keys(pairs),
    ensures
        mapped(with_pair(pairs, key, value), f) == with_pair(mapped(pairs, f), key, f(value)),
{
    lemma_mapped_key(pairs, f, key);
    assert(mapped(with_pair(pairs, key, value), f) =~= with_pair(
        mapped(pairs, f),
        key,
        f(value),
    ));
}

/// A new value at place `i` changes the map at that key alone.
pub proof fn lemma_update<V>(pairs: Seq<(Seq<char>, V)>, i: int, value: V)
    requires
        distinct_keys(pairs),
        0 <= i < pairs.len(),
    ensures
        distinct_keys(pairs.update(i, (pairs[i].0, value))),
        map_of_pairs(pairs.update(i, (pairs[i].0, value))) == map_of_pairs(pairs).insert(
            pairs[i].0,
            value,
        ),
{
    let after = pairs.update(i, (pairs[i].0, value));
    lemma_same_keys(pairs, after);
    assert forall|key: Seq<char>| has_key(after, key) implies #[trigger] map_of_pairs(after)[key]
        == map_of_pairs(pairs).insert(pairs[i].0, value)[key] by {
        let j = index_of_key(after, key);
        lemma_index_unique(after, j);
        lemma_index_unique(pairs, j);
    }
    lemma_index_unique(pairs, i);
    assert(map_of_pairs(after) =~= map_of_pairs(pairs).insert(pairs[i].0, value));
}

/// Pairs that agree on their keys, place by place, have the same keys.
pub proof fn lemma_same_keys<V>(a: Seq<(Seq<char>, V)>, b: Seq<(Seq<char>, V)>)
    requires
        a.len() == b.len(),
        forall|i: int| 0 <= i < a.len() ==> (#[trigger] a[i]).0 == b[i].0,
        distinct_keys(a),
    ensures
        distinct_keys(b),
        map_of_pairs(a).dom() == map_of_pairs(b).dom(),
{
    assert forall|key: Seq<char>| has_key(a, key) == has_key(b, key) by {
        if has_key(a, key) {
            let i = index_of_key(a, key);
            assert(b[i].0 == key);
        }
        if has_key(b, key) {
            let i = index_of_key(b, key);
            assert(a[i].0 == key);
        }
    }
    assert forall|i: int, j: int| 0 <= i < j < b.len() implies (#[trigger] b[i]).0 != (
    #[trigger] b[j]).0 by {
        assert(a[i].0 != a[j].0);
    }
    assert(map_of_pairs(a).dom() =~= map_of_pairs(b).dom());
}

proof fn lemma_push<V>(pairs: Seq<(Seq<char>, V)>, key: Seq<char>, value: V)
    requires
        distinct_keys(pairs),
        !has_key(pairs, key),
    ensures
        distinct_keys(pairs.push((key, value))),
        map_of_pairs(pairs.push((key, value))) == map_of_pairs(pairs).insert(key, value),
{
    let after = pairs.push((key, value));
    assert forall|k: Seq<char>| has_key(after, k) == (has_key(pairs, k) || k == key) by {
        if has_key(pairs, k) {
            let i = index_of_key(pairs, k);
            assert(after[i].0 == k);
        }
        if k == key {
            assert(after[pairs.len() as int].0 == k);
        }
        if has_key(after, k) {
            let i = index_of_key(after, k);
            if i < pairs.len() {
                assert(pairs[i].0 == k);
            }
        }
    }
    assert forall|k: Seq<char>| has_key(after, k) implies #[trigger] map_of_pairs(after)[k]
        == map_of_pairs(pairs).insert(key, value)[k] by {
        let j = index_of_key(after, k);
        lemma_index_unique(after, j);
        if j < pairs.len() {
            assert(pairs[j].0 == k);
            lemma_index_unique(pairs, j);
        }
    }
    assert(map_of_pairs(after) =~= map_of_pairs(pairs).insert(key, value));
}

proof fn lemma_remove<V>(pairs: Seq<(Seq<char>, V)>, i: int)
    requires
        distinct_keys(pairs),
        0 <= i < pairs.len(),
    ensures
        distinct_keys(pairs.remove(i)),
        map_of_pairs(pairs.remove(i)) == map_of_pairs(pairs).remove(pairs[i].0),
{
    let after = pairs.remove(i);
    let key = pairs[i].0;
    assert forall|j: int| 0 <= j < after.len() implies #[trigger] after[j] == pairs[if j < i {
        j
    } else {
        j + 1
    }] by {}
    assert forall|k: Seq<char>| has_key(after, k) == (has_key(pairs, k) && k != key) by {
        if has_key(pairs, k) && k != key {
            let j = index_of_key(pairs, k);
            assert(after[if j < i {
                j
            } else {
                j - 1
            }].0 == k);
        }
        if has_key(after, k) {
            let j = index_of_key(after, k);
            assert(pairs[if j < i {
                j
            } else {
                j + 1
            }].0 == k);
        }
    }
    assert forall|k: Seq<char>| has_key(after, k) implies #[trigger] map_of_pairs(after)[k]
        == map_of_pairs(pairs).remove(key)[k] by {
        let j = index_of_key(after, k);
        lemma_index_unique(after, j);
        lemma_index_unique(pairs, if j < i {
            j
        } else {
            j + 1
        });
    }
    assert(map_of_pairs(after) =~= map_of_pairs(pairs).remove(key));
}

impl<V> KeyedStore<V> {
    /// The empty map.
    pub fn new() -> (r: Self)
        ensures
            r.wf(),
            r.pairs() == Seq::<(Seq<char>, V)>::empty(),
            r@ == Map::<Seq<char>, V>::empty(),
    {
        let r = KeyedStore { entries: Vec::new() };
        assert(r.pairs() =~= Seq::<(Seq<char>, V)>::empty());
        assert(r@ =~= Map::<Seq<char>, V>::empty());
        r
    }

    fn find(&self, key: &str) -> (r: Option<usize>)
        requires
            self.wf(),
        ensures
            match r {
                Some(i) => i < self.pairs().len() && self.pairs()[i as int].0 == key@ && self@.dom().contains(
                    key@,
                ) && self@[key@] == self.pairs()[i as int].1,
                None => !self@.dom().contains(key@),
            },
    {
        let mut i: usize = 0;
        while i < self.entries.len()
            invariant
                i <= self.entries@.len(),
                self.wf(),
                forall|j: int| 0 <= j < i ==> (#[trigger] self.pairs()[j]).0 != key@,
            decreases self.entries@.len() - i,
        {
            if same_text(self.entries[i].0.as_str(), key) {
                proof {
                    assert(self.pairs()[i as int].0 == key@);
                    lemma_index_unique(self.pairs(), i as int);
                }
                return Some(i);
            }
            i = i + 1;
        }
        None
    }

    /// Whether `key` has a value.
    pub fn contains_key(&self, key: &str) -> (r: bool)
        requires
            self.wf(),
        ensures
            r == self@.dom().contains(key@),
    {
        self.find(key).is_some()
    }

    /// The value of `key`.
    pub fn get(&self, key: &str) -> (r: Option<&V>)
        requires
            self.wf(),
        ensures
            match r {
                Some(v) => self@.dom().contains(key@) && *v == self@[key@],
                None => !self@.dom().contains(key@),
            },
    {
        match self.find(key) {
            Some(i) => Some(&self.entries[i].1),
            None => None,
        }
    }

    /// The value of `key`, to be changed in place.
    pub fn get_mut(&mut self, key: &str) -> (r: Option<&mut V>)
        requires
            old(self).wf(),
        ensures
            final(self).wf(),
            match r {
                Some(v) => old(self)@.dom().contains(key@) && *v == old(self)@[key@] && final(self)@
                    == old(self)@.insert(key@, *final(v)) && final(self).pairs() == with_pair(
                    old(self).pairs(),
                    key@,
                    *final(v),
                ),
                None => !old(self)@.dom().contains(key@) && final(self)@ == old(self)@
                    && final(self).pairs() == old(self).pairs(),
            },
    {
        match self.find(key) {
            Some(i) => {
                let v = &mut self.entries[i].1;
                proof {
                    lemma_update(old(self).pairs(), i as int, *final(v));
                    lemma_index_unique(old(self).pairs(), i as int);
                    assert(after_borrow(*self).pairs() =~= old(self).pairs().update(
                        i as int,
                        (key@, *final(v)),
                    ));
                }
                Some(v)
            },
            None => None,
        }
    }

    /// Gives `key` the value `value`, and hands back the value that it had. A
    /// key that had one keeps its place; a new key goes to the end.
    pub fn insert(&mut self, key: String, value: V) -> (r: Option<V>)
        requires
            old(self).wf(),
        ensures
            final(self).wf(),
            final(self)@ == old(self)@.insert(key@, value),
            final(self).pairs() == with_pair(old(self).pairs(), key@, value),
            match r {
                Some(v) => old(self)@.dom().contains(key@) && v == old(self)@[key@],
                None => !old(self)@.dom().contains(key@),
            },
    {
        match self.find(key.as_str()) {
            Some(i) => {
                let mut held = value;
                std::mem::swap(&mut self.entries[i].1, &mut held);
                proof {
                    lemma_update(old(self).pairs(), i as int, value);
                    lemma_index_unique(old(self).pairs(), i as int);
                    assert(self.pairs() =~= old(self).pairs().update(i as int, (key@, value)));
                }
                Some(held)
            },
            None => {
                let ghost k = key@;
                self.entries.push((key, value));
                proof {
                    lemma_push(old(self).pairs(), k, value);
                    assert(self.pairs() =~= old(self).pairs().push((k, value)));
                }
                None
            },
        }
    }

    /// Takes `key` and its value out.
    pub fn remove(&mut self, key: &str) -> (r: Option<V>)
        requires
            old(self).wf(),
        ensures
            final(self).wf(),
            final(self)@ == old(self)@.remove(key@),
            final(self).pairs() == without_key(old(self).pairs(), key@),
            match r {
                Some(v) => old(self)@.dom().contains(key@) && v == old(self)@[key@],
                None => !old(self)@.dom().contains(key@),
            },
    {
        match self.find(key) {
            Some(i) => {
                let (k, v) = self.entries.remove(i);
                proof {
                    lemma_remove(old(self).pairs(), i as int);
                    lemma_index_unique(old(self).pairs(), i as int);
                    assert(self.pairs() =~= old(self).pairs().remove(i as int));
                }
                Some(v)
            },
            None => {
                assert(self@ =~= old(self)@.remove(key@));
                None
            },
        }
    }

    /// Takes every pair out, in the order of insertion.
    pub fn take_all(&mut self) -> (r: Vec<(String, V)>)
        ensures
            final(self).wf(),
            final(self).pairs() == Seq::<(Seq<char>, V)>::empty(),
            final(self)@ == Map::<Seq<char>, V>::empty(),
            r@.map_values(|e: (String, V)| (e.0@, e.1)) == old(self).pairs(),
    {
        let mut taken: Vec<(String, V)> = Vec::new();
        std::mem::swap(&mut self.entries, &mut taken);
        assert(self.pairs() =~= Seq::<(Seq<char>, V)>::empty());
        assert(self@ =~= Map::<Seq<char>, V>::empty());
        taken
    }

    /// How many keys there are.
    pub fn len(&self) -> (r: usize)
        ensures
            r == self.pairs().len(),
    {
        self.entries.len()
    }

    /// The value at place `i`, to be changed in place.
    pub fn value_at(&mut self, i: usize) -> (r: &mut V)
        requires
            i < old(self).pairs().len(),
        ensures
            *r == old(self).pairs()[i as int].1,
            final(self).pairs() == old(self).pairs().update(
                i as int,
                (old(self).pairs()[i as int].0, *final(r)),
            ),
    {
        let v = &mut self.entries[i].1;
        assert(after_borrow(*self).pairs() =~= old(self).pairs().update(
            i as int,
            (old(self).pairs()[i as int].0, *final(v)),
        ));
        v
    }
}

/// A pair for a new key comes at the end; one for a key that is there takes the place
/// of the pair that has it. Taking a key out leaves all other pairs in order.
pub proof fn lemma_places<V>(pairs: Seq<(Seq<char>, V)>, at: int, key: Seq<char>, value: V)
    requires
        distinct_keys(pairs),
        0 <= at < pairs.len(),
        forall|i: int| 0 <= i < pairs.len() ==> (#[trigger] pairs[i]).0 != key,
    ensures
        with_pair(pairs, key, value) == pairs.push((key, value)),
        without_key(pairs, key) == pairs,
        with_pair(pairs, pairs[at].0, value) == pairs.update(at, (pairs[at].0, value)),
        without_key(pairs, pairs[at].0) == pairs.remove(at),
{
    lemma_index_unique(pairs, at);
}

} // verus!
