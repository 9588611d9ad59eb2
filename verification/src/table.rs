//! A small map: key and value pairs in a vector, no key twice.

use crate::principal::Principal;
use vstd::prelude::*;

verus! {

/// What a [`Table`] can be looked up by. Keys are the same when their views
/// are.
pub trait TableKey: View + Sized {
    /// Whether `self` and `other` are the same key.
    fn same_key(&self, other: &Self) -> (same: bool)
        ensures
            same == (self@ == other@),
    ;
}

impl TableKey for Principal {
    fn same_key(&self, other: &Principal) -> (same: bool) {
        *self == *other
    }
}

impl TableKey for String {
    fn same_key(&self, other: &String) -> (same: bool) {
        *self == *other
    }
}

/// No key stands at two places.
pub open spec fn keys_differ<K: View, V>(pairs: Seq<(K, V)>) -> bool {
    forall|i: int, j: int|
        0 <= i < j < pairs.len() ==> (#[trigger] pairs[i]).0@ != (#[trigger] pairs[j]).0@
}

/// The map that `pairs` hold.
pub open spec fn contents<K: View, V>(pairs: Seq<(K, V)>) -> Map<K::V, V>
    decreases pairs.len(),
{
    if pairs.len() == 0 {
        Map::empty()
    } else {
        contents(pairs.drop_last()).insert(pairs.last().0@, pairs.last().1)
    }
}

/// A map from `K` to `V` that keeps its pairs in the order in which their keys
/// first came.
pub struct Table<K: TableKey, V> {
    pairs: Vec<(K, V)>,
}

impl<K: TableKey, V> View for Table<K, V> {
    type V = Map<K::V, V>;

    closed spec fn view(&self) -> Map<K::V, V> {
        contents(self.pairs@)
    }
}

impl<K: TableKey, V> Table<K, V> {
    /// No key occurs twice.
    pub closed spec fn wf(self) -> bool {
        keys_differ(self.pairs@)
    }

    /// The pairs in the order in which they are kept.
    pub closed spec fn sequence(self) -> Seq<(K, V)> {
        self.pairs@
    }

    /// What the pairs of a table say of the map it holds: the keys are those
    /// of the map, each once, with the value that it has there.
    pub proof fn lemma_sequence(self)
        requires
            self.wf(),
        ensures
            keys_differ(self.sequence()),
            contents(self.sequence()) == self@,
    {
    }

    /// An empty table.
    pub fn new() -> (table: Table<K, V>)
        ensures
            table.wf(),
            table@ == Map::<K::V, V>::empty(),
            table.sequence() == Seq::<(K, V)>::empty(),
    {
        Table { pairs: Vec::new() }
    }

    /// Whether there is no key.
    pub fn is_empty(&self) -> (empty: bool)
        ensures
            empty == (self@ == Map::<K::V, V>::empty()),
            empty == (self.sequence().len() == 0),
    {
        if self.pairs.len() > 0 {
            proof {
                let last = self.pairs@.last().0@;
                assert(self@.contains_key(last));
                assert(!Map::<K::V, V>::empty().contains_key(last));
            }
            false
        } else {
            true
        }
    }

    /// The number of keys.
    pub fn len(&self) -> (len: usize)
        ensures
            len == self.sequence().len(),
    {
        self.pairs.len()
    }

    /// The pair at place `index`.
    pub fn pair(&self, index: usize) -> (pair: &(K, V))
        requires
            index < self.sequence().len(),
        ensures
            *pair == self.sequence()[index as int],
    {
        &self.pairs[index]
    }

    /// The place of `key`.
    fn find(&self, key: &K) -> (place: Option<usize>)
        requires
            self.wf(),
        ensures
            match place {
                Some(i) => {
                    &&& i < self.pairs@.len()
                    &&& self.pairs@[i as int].0@ == key@
                    &&& self@.contains_key(key@)
                    &&& self@[key@] == self.pairs@[i as int].1
                },
                None => {
                    &&& !self@.contains_key(key@)
                    &&& forall|i: int|
                        0 <= i < self.pairs@.len() ==> (#[trigger] self.pairs@[i]).0@ != key@
                },
            },
    {
        let mut i: usize = 0;
        while i < self.pairs.len()
            invariant
                self.wf(),
                i <= self.pairs@.len(),
                forall|j: int| 0 <= j < i ==> (#[trigger] self.pairs@[j]).0@ != key@,
            decreases self.pairs@.len() - i,
        {
            if self.pairs[i].0.same_key(key) {
                proof {
                    lemma_contents_at(self.pairs@, i as int);
                }
                return Some(i);
            }
            i = i + 1;
        }
        proof {
            if self@.contains_key(key@) {
                lemma_contents_from(self.pairs@, key@);
            }
        }
        None
    }

    /// The value of `key`.
    pub fn get(&self, key: &K) -> (value: Option<&V>)
        requires
            self.wf(),
        ensures
            match value {
                Some(v) => self@.contains_key(key@) && *v == self@[key@],
                None => !self@.contains_key(key@),
            },
    {
        match self.find(key) {
            Some(i) => Some(&self.pairs[i].1),
            None => None,
        }
    }

    /// The place where the value of `key` is kept, after `initial` has been put
    /// there if `key` had none.
    pub fn slot(&mut self, key: K, initial: V) -> (value: &mut V)
        requires
            old(self).wf(),
        ensures
            *value == (if old(self)@.contains_key(key@) {
                old(self)@[key@]
            } else {
                initial
            }),
            final(self).wf(),
            final(self)@ == old(self)@.insert(key@, *final(value)),
    {
        let place: usize = match self.find(&key) {
            Some(i) => i,
            None => {
                self.pairs.push((key, initial));
                proof {
                    lemma_contents_push(old(self).pairs@, self.pairs@.last());
                }
                self.pairs.len() - 1
            },
        };
        proof {
            lemma_contents_at(self.pairs@, place as int);
            let stored = self.pairs@[place as int].0;
            assert forall|v: V|
                {
                    let changed = #[trigger] self.pairs@.update(place as int, (stored, v));
                    keys_differ(changed) && contents(changed) == old(self)@.insert(stored@, v)
                } by {
                lemma_contents_update(self.pairs@, place as int, (stored, v));
                assert(self@.insert(stored@, v) =~= old(self)@.insert(stored@, v));
            }
        }
        &mut self.pairs[place].1
    }

    /// Gives `key` the value `value`, in place of the value it had.
    pub fn insert(&mut self, key: K, value: V)
        requires
            old(self).wf(),
        ensures
            final(self).wf(),
            final(self)@ == old(self)@.insert(key@, value),
    {
        match self.find(&key) {
            Some(i) => {
                self.pairs[i].1 = value;
                proof {
                    lemma_contents_update(old(self).pairs@, i as int, self.pairs@[i as int]);
                }
            },
            None => {
                self.pairs.push((key, value));
                proof {
                    lemma_contents_push(old(self).pairs@, self.pairs@.last());
                }
            },
        }
    }

    /// Forgets `key`.
    pub fn remove(&mut self, key: &K)
        requires
            old(self).wf(),
        ensures
            final(self).wf(),
            final(self)@ == old(self)@.remove(key@),
    {
        match self.find(key) {
            Some(i) => {
                let _ = self.pairs.remove(i);
                proof {
                    lemma_contents_remove(old(self).pairs@, i as int);
                }
            },
            None => {
                assert(self@ == self@.remove(key@));
            },
        }
    }
}

/// Every pair is in the map.
pub proof fn lemma_contents_at<K: View, V>(pairs: Seq<(K, V)>, i: int)
    requires
        keys_differ(pairs),
        0 <= i < pairs.len(),
    ensures
        contents(pairs).contains_key(pairs[i].0@),
        contents(pairs)[pairs[i].0@] == pairs[i].1,
    decreases pairs.len(),
{
    if i < pairs.len() - 1 {
        let front = pairs.drop_last();
        lemma_contents_at(front, i);
        assert(front[i] == pairs[i]);
        assert(pairs[i].0@ != pairs[pairs.len() - 1].0@);
    }
}

/// Every key of the map stands in a pair.
pub proof fn lemma_contents_from<K: View, V>(pairs: Seq<(K, V)>, key: K::V) -> (i: int)
    requires
        contents(pairs).contains_key(key),
    ensures
        0 <= i < pairs.len(),
        pairs[i].0@ == key,
    decreases pairs.len(),
{
    if pairs.last().0@ == key {
        pairs.len() - 1
    } else {
        lemma_contents_from(pairs.drop_last(), key)
    }
}

/// The pairs up to and with `i` hold what those before `i` hold, and the new
/// key of the pair at `i`.
pub proof fn lemma_next_pair<K: View, V>(pairs: Seq<(K, V)>, i: int)
    requires
        keys_differ(pairs),
        0 <= i < pairs.len(),
    ensures
        !contents(pairs.take(i)).contains_key(pairs[i].0@),
        contents(pairs.take(i + 1)) == contents(pairs.take(i)).insert(pairs[i].0@, pairs[i].1),
{
    assert(pairs.take(i + 1).drop_last() == pairs.take(i));
    if contents(pairs.take(i)).contains_key(pairs[i].0@) {
        let j = lemma_contents_from(pairs.take(i), pairs[i].0@);
        assert(pairs.take(i)[j] == pairs[j]);
    }
}

/// A pair with a new key at the end adds the key.
proof fn lemma_contents_push<K: View, V>(pairs: Seq<(K, V)>, pair: (K, V))
    requires
        keys_differ(pairs),
        forall|i: int| 0 <= i < pairs.len() ==> (#[trigger] pairs[i]).0@ != pair.0@,
    ensures
        keys_differ(pairs.push(pair)),
        contents(pairs.push(pair)) == contents(pairs).insert(pair.0@, pair.1),
{
    assert(pairs.push(pair).drop_last() == pairs);
}

/// Another value in a pair changes the value of its key.
proof fn lemma_contents_update<K: View, V>(pairs: Seq<(K, V)>, i: int, pair: (K, V))
    requires
        keys_differ(pairs),
        0 <= i < pairs.len(),
        pair.0@ == pairs[i].0@,
    ensures
        keys_differ(pairs.update(i, pair)),
        contents(pairs.update(i, pair)) == contents(pairs).insert(pair.0@, pair.1),
    decreases pairs.len(),
{
    let changed = pairs.update(i, pair);
    assert(keys_differ(changed)) by {
        assert forall|a: int, b: int| 0 <= a < b < changed.len() implies (
        #[trigger] changed[a]).0@ != (#[trigger] changed[b]).0@ by {
            assert(changed[a].0@ == pairs[a].0@);
            assert(changed[b].0@ == pairs[b].0@);
        }
    }
    let front = pairs.drop_last();
    if i == pairs.len() - 1 {
        assert(changed.drop_last() == front);
        assert(contents(changed) =~= contents(pairs).insert(pair.0@, pair.1));
    } else {
        lemma_contents_update(front, i, pair);
        assert(changed.drop_last() == front.update(i, pair));
        assert(pairs[i].0@ != pairs[pairs.len() - 1].0@);
        assert(contents(changed) =~= contents(pairs).insert(pair.0@, pair.1));
    }
}

/// Without a pair, the map is without its key.
proof fn lemma_contents_remove<K: View, V>(pairs: Seq<(K, V)>, i: int)
    requires
        keys_differ(pairs),
        0 <= i < pairs.len(),
    ensures
        keys_differ(pairs.remove(i)),
        contents(pairs.remove(i)) == contents(pairs).remove(pairs[i].0@),
{
    let rest = pairs.remove(i);
    let key = pairs[i].0@;
    assert(keys_differ(rest)) by {
        assert forall|a: int, b: int| 0 <= a < b < rest.len() implies (#[trigger] rest[a]).0@ != (
        #[trigger] rest[b]).0@ by {
            let x = if a < i { a } else { a + 1 };
            let y = if b < i { b } else { b + 1 };
            assert(rest[a] == pairs[x]);
            assert(rest[b] == pairs[y]);
        }
    }
    let smaller = contents(pairs).remove(key);
    assert forall|k: K::V| #[trigger] contents(rest).dom().contains(k) implies smaller.dom().contains(k)
        && contents(rest)[k] == smaller[k] by {
        let a = lemma_contents_from(rest, k);
        let x = if a < i { a } else { a + 1 };
        assert(rest[a] == pairs[x]);
        lemma_contents_at(rest, a);
        lemma_contents_at(pairs, x);
        assert(pairs[x].0@ != pairs[i].0@);
    }
    assert forall|k: K::V| #[trigger] smaller.dom().contains(k) implies contents(
        rest,
    ).dom().contains(k) by {
        let x = lemma_contents_from(pairs, k);
        let a = if x < i { x } else { x - 1 };
        assert(rest[a] == pairs[x]);
        lemma_contents_at(rest, a);
    }
    assert(contents(rest).dom() =~= smaller.dom());
    assert(contents(rest) =~= smaller);
}

} // verus!
