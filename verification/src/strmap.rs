//! A map keyed by text. No key occurs twice.

use vstd::prelude::*;

use crate::text;

verus! {

/// The map that a row of pairs stands for; of two pairs with one key, the
/// later counts.
pub open spec fn pairs_map<V: View>(pairs: Seq<(String, V)>) -> Map<Seq<char>, V::V>
    decreases pairs.len(),
{
    if pairs.len() == 0 {
        Map::empty()
    } else {
        pairs_map(pairs.drop_last()).insert(pairs.last().0@, pairs.last().1@)
    }
}

/// No key stands in two of the pairs.
pub open spec fn distinct_keys<V>(pairs: Seq<(String, V)>) -> bool {
    forall|i: int, j: int|
        #![trigger pairs[i], pairs[j]]
        0 <= i < j < pairs.len() ==> pairs[i].0@ != pairs[j].0@
}

/// Every pair is found in the map, and nothing else is.
pub proof fn lemma_pairs_map<V: View>(pairs: Seq<(String, V)>)
    requires
        distinct_keys(pairs),
    ensures
        forall|i: int|
            #![trigger pairs[i]]
            0 <= i < pairs.len() ==> pairs_map(pairs).contains_key(pairs[i].0@) && pairs_map(
                pairs,
            )[pairs[i].0@] == pairs[i].1@,
        forall|k: Seq<char>| #[trigger]
            pairs_map(pairs).contains_key(k) ==> exists|i: int|
                0 <= i < pairs.len() && (#[trigger] pairs[i]).0@ == k,
        pairs_map(pairs).dom().finite(),
        pairs_map(pairs).dom().len() == pairs.len(),
    decreases pairs.len(),
{
    if pairs.len() > 0 {
        let init = pairs.drop_last();
        assert forall|i: int, j: int| 0 <= i < j < init.len() implies #[trigger] init[i].0@
            != #[trigger] init[j].0@ by {
            assert(init[i] == pairs[i] && init[j] == pairs[j]);
        }
        lemma_pairs_map(init);
        assert forall|i: int| 0 <= i < pairs.len() implies pairs_map(pairs).contains_key(
            (#[trigger] pairs[i]).0@,
        ) && pairs_map(pairs)[pairs[i].0@] == pairs[i].1@ by {
            if i < init.len() {
                assert(init[i] == pairs[i]);
                assert(pairs[i].0@ != pairs[pairs.len() - 1].0@);
            }
        }
        assert forall|k: Seq<char>| #[trigger] pairs_map(pairs).contains_key(k) implies exists|
            i: int,
        |
            0 <= i < pairs.len() && (#[trigger] pairs[i]).0@ == k by {
            if k == pairs.last().0@ {
                assert(pairs[pairs.len() - 1].0@ == k);
            } else {
                assert(pairs_map(init).contains_key(k));
                let i = choose|i: int| 0 <= i < init.len() && (#[trigger] init[i]).0@ == k;
                assert(pairs[i].0@ == k);
            }
        }
        assert(!pairs_map(init).contains_key(pairs.last().0@)) by {
            if pairs_map(init).contains_key(pairs.last().0@) {
                let i = choose|i: int|
                    0 <= i < init.len() && (#[trigger] init[i]).0@ == pairs.last().0@;
                assert(pairs[i].0@ == pairs[pairs.len() - 1].0@);
            }
        }
        assert(pairs_map(pairs).dom() =~= pairs_map(init).dom().insert(pairs.last().0@));
    } else {
        assert(pairs_map(pairs).dom() =~= Set::empty());
    }
}

/// A map is fixed by what its pairs say of each key.
pub proof fn lemma_pairs_map_is<V: View>(pairs: Seq<(String, V)>, m: Map<Seq<char>, V::V>)
    requires
        distinct_keys(pairs),
        forall|i: int|
            #![trigger pairs[i]]
            0 <= i < pairs.len() ==> m.contains_key(pairs[i].0@) && m[pairs[i].0@] == pairs[i].1@,
        forall|k: Seq<char>| #[trigger]
            m.contains_key(k) ==> exists|i: int|
                0 <= i < pairs.len() && (#[trigger] pairs[i]).0@ == k,
    ensures
        pairs_map(pairs) == m,
{
    lemma_pairs_map(pairs);
    assert forall|k: Seq<char>| #[trigger] m.contains_key(k) implies pairs_map(pairs).contains_key(
        k,
    ) && pairs_map(pairs)[k] == m[k] by {
        let i = choose|i: int| 0 <= i < pairs.len() && (#[trigger] pairs[i]).0@ == k;
        assert(pairs_map(pairs).contains_key(pairs[i].0@));
    }
    assert forall|k: Seq<char>| #[trigger] pairs_map(pairs).contains_key(k) implies m.contains_key(
        k,
    ) by {
        let i = choose|i: int| 0 <= i < pairs.len() && (#[trigger] pairs[i]).0@ == k;
        assert(m.contains_key(pairs[i].0@));
    }
    assert(pairs_map(pairs) =~= m);
}

/// The labels with one more, if there is a value for it.
pub open spec fn with_label(
    labels: Map<Seq<char>, Seq<char>>,
    key: Seq<char>,
    value: Option<Seq<char>>,
) -> Map<Seq<char>, Seq<char>> {
    match value {
        Some(v) => labels.insert(key, v),
        None => labels,
    }
}

/// A map from text to `V`.
#[derive(Debug)]
pub struct StrMap<V> {
    entries: Vec<(String, V)>,
}

/// A label set.
pub type Labels = StrMap<String>;

impl<V: View> View for StrMap<V> {
    type V = Map<Seq<char>, V::V>;

    closed spec fn view(&self) -> Map<Seq<char>, V::V> {
        pairs_map(self.entries@)
    }
}

impl<V> StrMap<V> {
    #[verifier::type_invariant]
    closed spec fn keys_differ(self) -> bool {
        distinct_keys(self.entries@)
    }
}

impl<V: View> StrMap<V> {
    /// The pairs in the order in which they are walked.
    pub closed spec fn pairs(&self) -> Seq<(String, V)> {
        self.entries@
    }

    /// The empty map.
    pub fn new() -> (r: Self)
        ensures
            r@ == Map::<Seq<char>, V::V>::empty(),
    {
        StrMap { entries: Vec::new() }
    }

    /// The number of keys. What walking the pairs shows is what the map holds.
    pub fn len(&self) -> (r: usize)
        ensures
            r == self@.dom().len(),
            self@.dom().finite(),
            r == self.pairs().len(),
            distinct_keys(self.pairs()),
            self@ == pairs_map(self.pairs()),
    {
        proof {
            use_type_invariant(self);
            lemma_pairs_map(self.entries@);
        }
        self.entries.len()
    }

    /// Whether there is no key.
    pub fn is_empty(&self) -> (r: bool)
        ensures
            r == (self@ == Map::<Seq<char>, V::V>::empty()),
    {
        proof {
            use_type_invariant(self);
            lemma_pairs_map(self.entries@);
            if self.entries@.len() == 0 {
                assert(self@ =~= Map::<Seq<char>, V::V>::empty());
            } else {
                assert(self@.contains_key(self.entries@[0].0@));
            }
        }
        self.entries.len() == 0
    }

    fn position(&self, key: &str) -> (r: Option<usize>)
        ensures
            match r {
                Some(i) => i < self.entries@.len() && self.entries@[i as int].0@ == key@,
                None => forall|i: int|
                    0 <= i < self.entries@.len() ==> (#[trigger] self.entries@[i]).0@ != key@,
            },
    {
        let mut i: usize = 0;
        while i < self.entries.len()
            invariant
                i <= self.entries@.len(),
                forall|k: int| 0 <= k < i ==> (#[trigger] self.entries@[k]).0@ != key@,
            decreases self.entries@.len() - i,
        {
            if text::str_eq(self.entries[i].0.as_str(), key) {
                return Some(i);
            }
            i = i + 1;
        }
        None
    }

    /// The value under `key`.
    pub fn get(&self, key: &str) -> (r: Option<&V>)
        ensures
            match r {
                Some(v) => self@.contains_key(key@) && v@ == self@[key@],
                None => !self@.contains_key(key@),
            },
    {
        proof {
            use_type_invariant(self);
            lemma_pairs_map(self.entries@);
        }
        match self.position(key) {
            Some(i) => Some(&self.entries[i].1),
            None => None,
        }
    }

    /// Whether `key` has a value.
    pub fn contains_key(&self, key: &str) -> (r: bool)
        ensures
            r == self@.contains_key(key@),
    {
        self.get(key).is_some()
    }

    /// The pair at position `i` of the walk.
    pub fn entry_at(&self, i: usize) -> (r: (&String, &V))
        requires
            i < self.pairs().len(),
        ensures
            *r.0 == self.pairs()[i as int].0,
            *r.1 == self.pairs()[i as int].1,
            self@.contains_key(r.0@),
            self@[r.0@] == r.1@,
    {
        proof {
            use_type_invariant(self);
            lemma_pairs_map(self.entries@);
        }
        (&self.entries[i].0, &self.entries[i].1)
    }

    /// Puts `value` under `key`, in place of what was there.
    pub fn insert(&mut self, key: String, value: V) -> (r: Option<V>)
        ensures
            final(self)@ == old(self)@.insert(key@, value@),
            match r {
                Some(v) => old(self)@.contains_key(key@) && v@ == old(self)@[key@],
                None => !old(self)@.contains_key(key@),
            },
    {
        proof {
            use_type_invariant(&*self);
            lemma_pairs_map(self.entries@);
        }
        let at = self.position(key.as_str());
        let mut entries: Vec<(String, V)> = Vec::new();
        std::mem::swap(&mut entries, &mut self.entries);
        let ghost before = entries@;
        let previous = match at {
            Some(i) => {
                let mut pair = (key, value);
                std::mem::swap(&mut pair, &mut entries[i]);
                proof {
                    assert(entries@ =~= before.update(i as int, entries@[i as int]));
                    assert forall|a: int, b: int| 0 <= a < b < entries@.len() implies #[trigger] entries@[a].0@
                        != #[trigger] entries@[b].0@ by {
                        assert(before[a].0@ != before[b].0@);
                    }
                    let m = old(self)@.insert(key@, value@);
                    assert forall|j: int| 0 <= j < entries@.len() implies m.contains_key(
                        (#[trigger] entries@[j]).0@,
                    ) && m[entries@[j].0@] == entries@[j].1@ by {
                        if j != i {
                            assert(entries@[j] == before[j]);
                            assert(before[j].0@ != before[i as int].0@);
                        }
                    }
                    assert forall|k: Seq<char>| #[trigger] m.contains_key(k) implies exists|j: int|
                        0 <= j < entries@.len() && (#[trigger] entries@[j]).0@ == k by {
                        if k == key@ {
                            assert(entries@[i as int].0@ == k);
                        } else {
                            let j = choose|j: int|
                                0 <= j < before.len() && (#[trigger] before[j]).0@ == k;
                            assert(entries@[j].0@ == k);
                        }
                    }
                    lemma_pairs_map_is(entries@, m);
                }
                Some(pair.1)
            },
            None => {
                entries.push((key, value));
                proof {
                    assert(entries@.drop_last() =~= before);
                    assert forall|a: int, b: int| 0 <= a < b < entries@.len() implies #[trigger] entries@[a].0@
                        != #[trigger] entries@[b].0@ by {
                        assert(entries@[a] == before[a]);
                        if b < before.len() {
                            assert(entries@[b] == before[b]);
                        }
                    }
                }
                None
            },
        };
        self.entries = entries;
        previous
    }

    /// Takes `key` and its value out.
    pub fn remove(&mut self, key: &str) -> (r: Option<V>)
        ensures
            final(self)@ == old(self)@.remove(key@),
            match r {
                Some(v) => old(self)@.contains_key(key@) && v@ == old(self)@[key@],
                None => !old(self)@.contains_key(key@),
            },
    {
        proof {
            use_type_invariant(&*self);
            lemma_pairs_map(self.entries@);
        }
        match self.position(key) {
            Some(i) => {
                let mut entries: Vec<(String, V)> = Vec::new();
                std::mem::swap(&mut entries, &mut self.entries);
                let ghost before = entries@;
                let pair = entries.remove(i);
                proof {
                    assert forall|a: int, b: int| 0 <= a < b < entries@.len() implies #[trigger] entries@[a].0@
                        != #[trigger] entries@[b].0@ by {
                        let a1 = if a < i {
                            a
                        } else {
                            a + 1
                        };
                        let b1 = if b < i {
                            b
                        } else {
                            b + 1
                        };
                        assert(before[a1].0@ != before[b1].0@);
                    }
                    let m = old(self)@.remove(key@);
                    assert forall|j: int| 0 <= j < entries@.len() implies m.contains_key(
                        (#[trigger] entries@[j]).0@,
                    ) && m[entries@[j].0@] == entries@[j].1@ by {
                        let j1 = if j < i {
                            j
                        } else {
                            j + 1
                        };
                        assert(entries@[j] == before[j1]);
                        assert(before[j1].0@ != before[i as int].0@);
                    }
                    assert forall|k: Seq<char>| #[trigger] m.contains_key(k) implies exists|j: int|
                        0 <= j < entries@.len() && (#[trigger] entries@[j]).0@ == k by {
                        let j1 = choose|j1: int|
                            0 <= j1 < before.len() && (#[trigger] before[j1]).0@ == k;
                        let j = if j1 < i {
                            j1
                        } else {
                            j1 - 1
                        };
                        assert(entries@[j].0@ == k);
                    }
                    lemma_pairs_map_is(entries@, m);
                }
                self.entries = entries;
                Some(pair.1)
            },
            None => {
                assert(self@.remove(key@) =~= self@);
                None
            },
        }
    }
}

/// Values of which another one with the same view can be made.
pub trait Duplicate: View + Sized {
    fn duplicate(&self) -> (r: Self)
        ensures
            r@ == self@,
    ;
}

impl Duplicate for String {
    fn duplicate(&self) -> (r: Self) {
        self.clone()
    }
}

impl<V: Duplicate> Clone for StrMap<V> {
    fn clone(&self) -> (r: Self)
        ensures
            r@ == self@,
    {
        proof {
            use_type_invariant(self);
        }
        let mut entries: Vec<(String, V)> = Vec::new();
        let mut i: usize = 0;
        while i < self.entries.len()
            invariant
                i <= self.entries@.len(),
                entries@.len() == i,
                distinct_keys(self.entries@),
                forall|k: int|
                    0 <= k < i ==> (#[trigger] entries@[k]).0@ == self.entries@[k].0@
                        && entries@[k].1@ == self.entries@[k].1@,
            decreases self.entries@.len() - i,
        {
            entries.push((self.entries[i].0.clone(), self.entries[i].1.duplicate()));
            i = i + 1;
        }
        proof {
            lemma_pairs_map(self.entries@);
            assert forall|a: int, b: int| 0 <= a < b < entries@.len() implies #[trigger] entries@[a].0@
                != #[trigger] entries@[b].0@ by {
                assert(self.entries@[a].0@ != self.entries@[b].0@);
            }
            assert forall|k: Seq<char>| #[trigger] self@.contains_key(k) implies exists|j: int|
                0 <= j < entries@.len() && (#[trigger] entries@[j]).0@ == k by {
                let j = choose|j: int|
                    0 <= j < self.entries@.len() && (#[trigger] self.entries@[j]).0@ == k;
                assert(entries@[j].0@ == k);
            }
            assert forall|j: int| 0 <= j < entries@.len() implies self@.contains_key(
                (#[trigger] entries@[j]).0@,
            ) && self@[entries@[j].0@] == entries@[j].1@ by {
                assert(self.entries@[j].0@ == entries@[j].0@);
            }
            lemma_pairs_map_is(entries@, self@);
        }
        StrMap { entries }
    }
}

impl<V: Duplicate> StrMap<V> {
    /// Puts every pair of `other` into the map, in place of what was there.
    pub fn extend(&mut self, other: &StrMap<V>)
        ensures
            final(self)@ == old(self)@.union_prefer_right(other@),
    {
        proof {
            use_type_invariant(other);
            lemma_pairs_map(other.entries@);
        }
        let mut i: usize = 0;
        assert(other.entries@.take(0).len() == 0);
        assert(self@ =~= old(self)@.union_prefer_right(pairs_map(other.entries@.take(0))));
        while i < other.entries.len()
            invariant
                i <= other.entries@.len(),
                self@ == old(self)@.union_prefer_right(pairs_map(other.entries@.take(i as int))),
            decreases other.entries@.len() - i,
        {
            self.insert(other.entries[i].0.clone(), other.entries[i].1.duplicate());
            proof {
                let next = other.entries@.take(i + 1);
                assert(next.drop_last() =~= other.entries@.take(i as int));
                assert(self@ =~= old(self)@.union_prefer_right(pairs_map(next)));
            }
            i = i + 1;
        }
        assert(other.entries@.take(i as int) =~= other.entries@);
    }
}

/// A label that has a value is put among the labels, in place of one of its name;
/// one that has none changes nothing.
pub proof fn law_a_label_needs_a_value(
    labels: Map<Seq<char>, Seq<char>>,
    key: Seq<char>,
    value: Option<Seq<char>>,
)
    ensures
        value matches Some(v) ==> with_label(labels, key, value) == labels.insert(key, v),
        value is None ==> with_label(labels, key, value) == labels,
{
}

} // verus!
