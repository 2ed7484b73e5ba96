//! A map from texts to values, kept in insertion order.
use vstd::prelude::*;

use crate::text::{eq_chars, to_chars};

verus! {

/// A map keyed by text. No key occurs twice.
#[derive(Debug)]
pub struct Assoc<V> {
    pairs: Vec<(String, V)>,
}

/// The keys of `pairs`, in order.
pub open spec fn keys_of<V>(pairs: Seq<(String, V)>) -> Seq<Seq<char>> {
    pairs.map_values(|p: (String, V)| p.0@)
}

/// The map that `pairs` denotes.
pub open spec fn map_of<V>(pairs: Seq<(String, V)>) -> Map<Seq<char>, V> {
    Map::new(
        |k: Seq<char>| keys_of(pairs).contains(k),
        |k: Seq<char>| pairs[keys_of(pairs).index_of(k)].1,
    )
}

/// A list of keys without `key`.
pub open spec fn without_key(ks: Seq<Seq<char>>, key: Seq<char>) -> Seq<Seq<char>> {
    ks.filter(|k: Seq<char>| k != key)
}

impl<V> View for Assoc<V> {
    type V = Map<Seq<char>, V>;

    closed spec fn view(&self) -> Map<Seq<char>, V> {
        map_of(self.pairs@)
    }
}

proof fn lemma_pair<V>(pairs: Seq<(String, V)>, i: int)
    requires
        keys_of(pairs).no_duplicates(),
        0 <= i < pairs.len(),
    ensures
        keys_of(pairs).index_of(pairs[i].0@) == i,
        map_of(pairs).contains_key(pairs[i].0@),
        map_of(pairs)[pairs[i].0@] == pairs[i].1,
{
    let ks = keys_of(pairs);
    assert(ks[i] == pairs[i].0@);
    assert(ks.contains(ks[i]));
    let j = ks.index_of(ks[i]);
    assert(0 <= j < ks.len() && ks[j] == ks[i]);
}

impl<V> Assoc<V> {
    /// Well-formedness: the keys are distinct.
    pub closed spec fn wf(&self) -> bool {
        keys_of(self.pairs@).no_duplicates()
    }

    /// The keys, in insertion order.
    pub closed spec fn keys(&self) -> Seq<Seq<char>> {
        keys_of(self.pairs@)
    }

    /// The key list holds exactly the keys of the map, each once.
    pub proof fn lemma_keys(&self)
        requires
            self.wf(),
        ensures
            self.keys().no_duplicates(),
            forall|k: Seq<char>| #[trigger]
                self@.contains_key(k) <==> self.keys().contains(k),
            self@.dom().finite(),
            self@.dom().len() == self.keys().len(),
    {
        assert(self@.dom() =~= self.keys().to_set());
        self.keys().unique_seq_to_set();
    }

    /// An empty map.
    pub fn new() -> (r: Self)
        ensures
            r.wf(),
            r@ == Map::<Seq<char>, V>::empty(),
            r.keys() == Seq::<Seq<char>>::empty(),
    {
        let r = Assoc { pairs: Vec::new() };
        proof {
            assert(r@ =~= Map::empty());
            assert(r.keys() =~= Seq::empty());
        }
        r
    }

    /// Number of keys.
    pub fn len(&self) -> (r: usize)
        ensures
            r == self.keys().len(),
    {
        self.pairs.len()
    }

    /// The key at position `i`.
    pub fn key_at(&self, i: usize) -> (r: &String)
        requires
            i < self.keys().len(),
        ensures
            r@ == self.keys()[i as int],
    {
        &self.pairs[i].0
    }

    /// The value at position `i`.
    pub fn value_at(&self, i: usize) -> (r: &V)
        requires
            self.wf(),
            i < self.keys().len(),
        ensures
            self@.contains_key(self.keys()[i as int]),
            *r == self@[self.keys()[i as int]],
    {
        proof {
            lemma_pair(self.pairs@, i as int);
        }
        &self.pairs[i].1
    }

    /// The position of `key`.
    pub fn position(&self, key: &str) -> (r: Option<usize>)
        requires
            self.wf(),
        ensures
            match r {
                Some(i) => i < self.keys().len() && self.keys()[i as int] == key@
                    && self@.contains_key(key@),
                None => !self@.contains_key(key@),
            },
    {
        let wanted = to_chars(key);
        let mut i: usize = 0;
        while i < self.pairs.len()
            invariant
                i <= self.pairs@.len(),
                self.wf(),
                wanted@ == key@,
                forall|j: int| 0 <= j < i ==> self.keys()[j] != key@,
            decreases self.pairs@.len() - i,
        {
            let have = to_chars(&self.pairs[i].0);
            if eq_chars(&have, &wanted) {
                proof {
                    lemma_pair(self.pairs@, i as int);
                }
                return Some(i);
            }
            proof {
                assert(self.keys()[i as int] == self.pairs@[i as int].0@);
            }
            i = i + 1;
        }
        proof {
            assert(self.keys().len() == self.pairs@.len());
            assert(!self.keys().contains(key@));
        }
        None
    }

    /// Whether `key` is there.
    pub fn contains_key(&self, key: &str) -> (r: bool)
        requires
            self.wf(),
        ensures
            r == self@.contains_key(key@),
    {
        self.position(key).is_some()
    }

    /// The value of `key`.
    pub fn get(&self, key: &str) -> (r: Option<&V>)
        requires
            self.wf(),
        ensures
            match r {
                Some(v) => self@.contains_key(key@) && *v == self@[key@],
                None => !self@.contains_key(key@),
            },
    {
        match self.position(key) {
            Some(i) => Some(self.value_at(i)),
            None => None,
        }
    }

    /// The value of `key`, for writing.
    pub fn get_mut(&mut self, key: &str) -> (r: Option<&mut V>)
        requires
            old(self).wf(),
        ensures
            final(self).wf(),
            match r {
                Some(v) => {
                    &&& old(self)@.contains_key(key@)
                    &&& *v == old(self)@[key@]
                    &&& final(self)@ == old(self)@.insert(key@, *final(v))
                    &&& final(self).keys() == old(self).keys()
                },
                None => {
                    &&& !old(self)@.contains_key(key@)
                    &&& *final(self) == *old(self)
                },
            },
    {
        match self.position(key) {
            Some(i) => {
                let ghost before = self.pairs@;
                let r = &mut self.pairs[i].1;
                proof {
                    lemma_pair(before, i as int);
                    let after = before.update(i as int, (before[i as int].0, *final(r)));
                    assert(keys_of(after) =~= keys_of(before));
                    assert(map_of(after) =~= map_of(before).insert(key@, *final(r)));
                }
                Some(r)
            },
            None => None,
        }
    }

    /// Sets the value of `key`.
    pub fn insert(&mut self, key: String, value: V)
        requires
            old(self).wf(),
        ensures
            final(self).wf(),
            final(self)@ == old(self)@.insert(key@, value),
            final(self).keys() == (if old(self)@.contains_key(key@) {
                old(self).keys()
            } else {
                old(self).keys().push(key@)
            }),
    {
        match self.position(&key) {
            Some(i) => {
                let ghost before = self.pairs@;
                let ghost name = before[i as int].0;
                self.pairs[i].1 = value;
                proof {
                    lemma_pair(before, i as int);
                    assert(self.pairs@ =~= before.update(i as int, (name, value)));
                    assert(keys_of(self.pairs@) =~= keys_of(before));
                    assert(self@ =~= map_of(before).insert(key@, value));
                }
            },
            None => {
                let ghost before = self.pairs@;
                let ghost name = key@;
                self.pairs.push((key, value));
                proof {
                    let ks = keys_of(self.pairs@);
                    assert(ks =~= keys_of(before).push(name));
                    assert(!keys_of(before).contains(name));
                    assert forall|i: int, j: int|
                        0 <= i < ks.len() && 0 <= j < ks.len() && i != j implies ks[i] != ks[j] by {
                        if i < before.len() && j < before.len() {
                            assert(keys_of(before)[i] == ks[i]);
                            assert(keys_of(before)[j] == ks[j]);
                        } else if i < before.len() {
                            assert(keys_of(before)[i] == ks[i]);
                            assert(keys_of(before).contains(ks[i]));
                        } else {
                            assert(keys_of(before)[j] == ks[j]);
                            assert(keys_of(before).contains(ks[j]));
                        }
                    }
                    lemma_map_push(before, self.pairs@, name, value);
                }
            },
        }
    }

    /// Takes `key` out of the map.
    pub fn remove(&mut self, key: &str) -> (r: Option<V>)
        requires
            old(self).wf(),
        ensures
            final(self).wf(),
            final(self)@ == old(self)@.remove(key@),
            final(self).keys() == without_key(old(self).keys(), key@),
            match r {
                Some(v) => old(self)@.contains_key(key@) && v == old(self)@[key@],
                None => !old(self)@.contains_key(key@) && *final(self) == *old(self),
            },
    {
        match self.position(key) {
            Some(i) => {
                let ghost before = self.pairs@;
                let (_name, value) = self.pairs.remove(i);
                proof {
                    lemma_pair(before, i as int);
                    lemma_map_remove(before, i as int);
                    lemma_filter_one(keys_of(before), i as int);
                    assert(keys_of(self.pairs@) =~= keys_of(before).remove(i as int));
                }
                Some(value)
            },
            None => {
                proof {
                    assert(self@ =~= self@.remove(key@));
                    lemma_filter_none(self.keys(), key@);
                }
                None
            },
        }
    }

    /// Empties the map.
    pub fn clear(&mut self)
        ensures
            final(self).wf(),
            final(self)@ == Map::<Seq<char>, V>::empty(),
            final(self).keys() == Seq::<Seq<char>>::empty(),
    {
        self.pairs = Vec::new();
        proof {
            assert(self@ =~= Map::empty());
            assert(self.keys() =~= Seq::empty());
        }
    }
}

proof fn lemma_filter_none(ks: Seq<Seq<char>>, key: Seq<char>)
    requires
        !ks.contains(key),
    ensures
        without_key(ks, key) == ks,
    decreases ks.len(),
{
    reveal(Seq::filter);
    if ks.len() > 0 {
        assert(ks.contains(ks.last()));
        assert(!ks.drop_last().contains(key)) by {
            if ks.drop_last().contains(key) {
                let i = choose|i: int| 0 <= i < ks.len() - 1 && ks.drop_last()[i] == key;
                assert(ks[i] == key);
            }
        }
        lemma_filter_none(ks.drop_last(), key);
        assert(ks.drop_last().push(ks.last()) =~= ks);
    } else {
        assert(without_key(ks, key) =~= ks);
    }
}

proof fn lemma_filter_one(ks: Seq<Seq<char>>, i: int)
    requires
        ks.no_duplicates(),
        0 <= i < ks.len(),
    ensures
        without_key(ks, ks[i]) == ks.remove(i),
    decreases ks.len(),
{
    reveal(Seq::filter);
    let t = ks.drop_last();
    if i == ks.len() - 1 {
        assert(!t.contains(ks[i])) by {
            if t.contains(ks[i]) {
                let j = choose|j: int| 0 <= j < t.len() && t[j] == ks[i];
                assert(ks[j] == ks[i]);
            }
        }
        lemma_filter_none(t, ks[i]);
        assert(ks.remove(i) =~= t);
    } else {
        assert(t.no_duplicates());
        assert(t[i] == ks[i]);
        lemma_filter_one(t, i);
        assert(ks.last() != ks[i]);
        assert(ks.remove(i) =~= t.remove(i).push(ks.last()));
    }
}

proof fn lemma_map_push<V>(
    before: Seq<(String, V)>,
    after: Seq<(String, V)>,
    name: Seq<char>,
    value: V,
)
    requires
        keys_of(before).no_duplicates(),
        keys_of(after).no_duplicates(),
        !keys_of(before).contains(name),
        after.len() == before.len() + 1,
        forall|i: int| 0 <= i < before.len() ==> after[i] == before[i],
        after.last().0@ == name,
        after.last().1 == value,
    ensures
        map_of(after) == map_of(before).insert(name, value),
{
    let n = before.len() as int;
    lemma_pair(after, n);
    assert forall|k: Seq<char>| #[trigger]
        map_of(after).contains_key(k) <==> map_of(before).insert(name, value).contains_key(k) by {
        if keys_of(after).contains(k) {
            let i = keys_of(after).index_of(k);
            if i < n {
                assert(keys_of(before)[i] == k);
            }
        }
        if keys_of(before).contains(k) {
            let i = keys_of(before).index_of(k);
            assert(keys_of(after)[i] == k);
        }
    }
    assert forall|k: Seq<char>| #[trigger] map_of(after).contains_key(k) implies map_of(after)[k]
        == map_of(before).insert(name, value)[k] by {
        let i = keys_of(after).index_of(k);
        assert(keys_of(after)[i] == k);
        lemma_pair(after, i);
        if i < n {
            assert(keys_of(before)[i] == k);
            lemma_pair(before, i);
        }
    }
    assert(map_of(after) =~= map_of(before).insert(name, value));
}

proof fn lemma_map_remove<V>(before: Seq<(String, V)>, i: int)
    requires
        keys_of(before).no_duplicates(),
        0 <= i < before.len(),
    ensures
        keys_of(before.remove(i)).no_duplicates(),
        map_of(before.remove(i)) == map_of(before).remove(before[i].0@),
{
    let after = before.remove(i);
    let name = before[i].0@;
    let ks = keys_of(before);
    let ls = keys_of(after);
    assert forall|a: int| 0 <= a < ls.len() implies #[trigger] ls[a] == (if a < i {
        ks[a]
    } else {
        ks[a + 1]
    }) by {}
    assert(ks[i] == name);
    assert forall|a: int, b: int| 0 <= a < ls.len() && 0 <= b < ls.len() && a != b implies ls[a]
        != ls[b] by {}
    assert forall|k: Seq<char>| #[trigger]
        map_of(after).contains_key(k) <==> map_of(before).remove(name).contains_key(k) by {
        if ls.contains(k) {
            let a = ls.index_of(k);
            assert(ls[a] == k);
            let b = if a < i {
                a
            } else {
                a + 1
            };
            assert(ks[b] == k);
            assert(k != name);
        }
        if ks.contains(k) && k != name {
            let b = ks.index_of(k);
            assert(ks[b] == k);
            let a = if b < i {
                b
            } else {
                b - 1
            };
            assert(ls[a] == k);
        }
    }
    assert forall|k: Seq<char>| #[trigger] map_of(after).contains_key(k) implies map_of(after)[k]
        == map_of(before).remove(name)[k] by {
        let a = ls.index_of(k);
        assert(ls[a] == k);
        lemma_pair(after, a);
        let b = if a < i {
            a
        } else {
            a + 1
        };
        assert(ks[b] == k);
        lemma_pair(before, b);
    }
    assert(map_of(after) =~= map_of(before).remove(name));
}

/// The keys before position `i + 1`.
pub(crate) proof fn lemma_take_contains(s: Seq<Seq<char>>, i: int)
    requires
        0 <= i < s.len(),
    ensures
        forall|k: Seq<char>| #[trigger]
            s.take(i + 1).contains(k) <==> s.take(i).contains(k) || k == s[i],
{
    assert(s.take(i + 1) =~= s.take(i).push(s[i]));
    assert forall|k: Seq<char>| #[trigger]
        s.take(i + 1).contains(k) <==> s.take(i).contains(k) || k == s[i] by {
        vstd::seq_lib::lemma_seq_contains_after_push(s.take(i), s[i], k);
    }
}

/// Taking a key from a list takes it and no other.
pub proof fn taking_a_key_keeps_the_others(ks: Seq<Seq<char>>, key: Seq<char>, k: Seq<char>)
    ensures
        without_key(ks, key).contains(k) <==> ks.contains(k) && k != key,
        ks.no_duplicates() ==> without_key(ks, key).no_duplicates(),
    decreases ks.len(),
{
    reveal(Seq::filter);
    if ks.len() > 0 {
        let before = ks.drop_last();
        let last = ks.last();
        taking_a_key_keeps_the_others(before, key, k);
        taking_a_key_keeps_the_others(before, key, last);
        assert(ks =~= before.push(last));
        vstd::seq_lib::lemma_seq_contains_after_push(before, last, k);
        vstd::seq_lib::lemma_seq_contains_after_push(without_key(before, key), last, k);
        if ks.no_duplicates() {
            assert(before.no_duplicates());
            if before.contains(last) {
                let j = choose|j: int| 0 <= j < before.len() && before[j] == last;
                assert(ks[j] == ks[ks.len() - 1]);
            }
        }
    }
}

/// A list of pairs holds every key it has a pair for, with the value of the first.
pub proof fn pairs_are_found_by_key<V>(pairs: Seq<(String, V)>, i: int)
    requires
        0 <= i < pairs.len(),
        keys_of(pairs).no_duplicates(),
    ensures
        map_of(pairs).contains_key(pairs[i].0@),
        map_of(pairs)[pairs[i].0@] == pairs[i].1,
{
    let ks = keys_of(pairs);
    assert(ks[i] == pairs[i].0@);
    assert(ks.contains(ks[i]));
    assert(ks.index_of(ks[i]) == i);
}

} // verus!
