//! A map that keeps its entries in the order in which their keys first came.
//!
//! The model of a map is the sequence of its entries. Keys are compared by
//! their views, no key occurs twice, and the order is part of what the map is:
//! two maps with the same entries in another order are different maps.

use vstd::prelude::*;

verus! {

/// A type whose values can serve as keys: equality can be decided at run time
/// and agrees with equality of the views.
pub trait MapKey: View + Sized {
    fn key_eq(&self, other: &Self) -> (r: bool)
        ensures
            r == (self@ == other@),
    ;
}

impl MapKey for String {
    fn key_eq(&self, other: &Self) -> (r: bool) {
        *self == *other
    }
}

impl MapKey for u64 {
    fn key_eq(&self, other: &Self) -> (r: bool) {
        *self == *other
    }
}

/// Some entry of `s` has the key `k`.
pub open spec fn has_key<K, V>(s: Seq<(K, V)>, k: K) -> bool {
    exists|i: int| 0 <= i < s.len() && (#[trigger] s[i]).0 == k
}

/// `i` is the place of the first entry of `s` with the key `k`.
pub open spec fn is_first_index<K, V>(s: Seq<(K, V)>, k: K, i: int) -> bool {
    &&& 0 <= i < s.len()
    &&& s[i].0 == k
    &&& forall|j: int| 0 <= j < i ==> (#[trigger] s[j]).0 != k
}

/// The place of the first entry of `s` with the key `k`, where there is one.
pub open spec fn first_index<K, V>(s: Seq<(K, V)>, k: K) -> int {
    choose|i: int| is_first_index(s, k, i)
}

/// No two entries of `s` have the same key.
pub open spec fn distinct_keys<K, V>(s: Seq<(K, V)>) -> bool {
    forall|i: int, j: int|
        0 <= i < j < s.len() ==> (#[trigger] s[i]).0 != (#[trigger] s[j]).0
}

/// `s` after `k` was given the value `v`: a key that is present keeps its
/// place and takes the new value, a new key goes to the end.
pub open spec fn put<K, V>(s: Seq<(K, V)>, k: K, v: V) -> Seq<(K, V)> {
    if has_key(s, k) {
        s.update(first_index(s, k), (k, v))
    } else {
        s.push((k, v))
    }
}

/// The map that the first `n` pairs of `input` build when they are put into an
/// empty map one after the other.
pub open spec fn collect<K, V>(input: Seq<(K, V)>, n: nat) -> Seq<(K, V)>
    decreases n,
{
    if n == 0 || n > input.len() {
        Seq::empty()
    } else {
        put(collect(input, (n - 1) as nat), input[n - 1].0, input[n - 1].1)
    }
}

/// The entries of `s`, each key and value replaced by its view.
pub open spec fn pairs_view<K: View, V: View>(s: Seq<(K, V)>) -> Seq<(K::V, V::V)> {
    Seq::new(s.len(), |i: int| (s[i].0@, s[i].1@))
}

/// A first place of a key is the first place of that key.
pub proof fn lemma_first_index<K, V>(s: Seq<(K, V)>, k: K, i: int)
    requires
        is_first_index(s, k, i),
    ensures
        has_key(s, k),
        first_index(s, k) == i,
{
    let c = first_index(s, k);
    assert(is_first_index(s, k, c));
    if c < i {
        assert(s[c].0 != k);
    } else if i < c {
        assert(s[i].0 != k);
    }
}

/// A key that is present has a first place.
pub proof fn lemma_has_key_first_index<K, V>(s: Seq<(K, V)>, k: K)
    requires
        has_key(s, k),
    ensures
        is_first_index(s, k, first_index(s, k)),
{
    let w = choose|i: int| 0 <= i < s.len() && (#[trigger] s[i]).0 == k;
    lemma_least_index(s, k, w);
}

proof fn lemma_least_index<K, V>(s: Seq<(K, V)>, k: K, w: int)
    requires
        0 <= w < s.len(),
        s[w].0 == k,
    ensures
        exists|i: int| is_first_index(s, k, i),
    decreases w,
{
    if exists|j: int| 0 <= j < w && (#[trigger] s[j]).0 == k {
        let j = choose|j: int| 0 <= j < w && (#[trigger] s[j]).0 == k;
        lemma_least_index(s, k, j);
    } else {
        assert(is_first_index(s, k, w));
    }
}

/// Putting a pair into a map without repeated keys leaves it without
/// repeated keys.
pub proof fn lemma_put_distinct<K, V>(s: Seq<(K, V)>, k: K, v: V)
    requires
        distinct_keys(s),
    ensures
        distinct_keys(put(s, k, v)),
        has_key(put(s, k, v), k),
{
    let t = put(s, k, v);
    if has_key(s, k) {
        lemma_has_key_first_index(s, k);
        let p = first_index(s, k);
        assert(t[p].0 == k);
        assert forall|i: int, j: int| 0 <= i < j < t.len() implies (#[trigger] t[i]).0 != (
        #[trigger] t[j]).0 by {
            assert(t[i].0 == s[i].0);
            assert(t[j].0 == s[j].0);
        }
    } else {
        assert(t[s.len() as int].0 == k);
        assert forall|i: int, j: int| 0 <= i < j < t.len() implies (#[trigger] t[i]).0 != (
        #[trigger] t[j]).0 by {
            if j < s.len() {
                assert(t[i].0 == s[i].0);
                assert(t[j].0 == s[j].0);
            } else {
                assert(t[i] == s[i]);
            }
        }
    }
}

/// Whatever pairs come in, no key occurs twice in the map that they build.
pub proof fn lemma_collect_distinct<K, V>(input: Seq<(K, V)>, n: nat)
    ensures
        distinct_keys(collect(input, n)),
    decreases n,
{
    if n == 0 || n > input.len() {
    } else {
        lemma_collect_distinct(input, (n - 1) as nat);
        lemma_put_distinct(collect(input, (n - 1) as nat), input[n - 1].0, input[n - 1].1);
    }
}

/// Pairs whose keys are all different build the map that lists them as they
/// came: nothing is reordered and nothing is dropped.
pub proof fn lemma_collect_preserves_order<K, V>(input: Seq<(K, V)>, n: nat)
    requires
        distinct_keys(input),
        n <= input.len(),
    ensures
        collect(input, n) == input.take(n as int),
    decreases n,
{
    if n == 0 {
        assert(collect(input, n) =~= input.take(n as int));
    } else {
        let m = (n - 1) as nat;
        lemma_collect_preserves_order(input, m);
        let s = input.take(m as int);
        let k = input[n - 1].0;
        if has_key(s, k) {
            let i = choose|i: int| 0 <= i < s.len() && (#[trigger] s[i]).0 == k;
            assert(s[i] == input[i]);
            assert(input[i].0 != input[n - 1].0);
        }
        assert(s.push(input[n - 1]) =~= input.take(n as int));
    }
}

/// Of two pairs with one key, the map keeps one entry, with the later value.
pub proof fn lemma_collect_last_write_wins<K, V>(k: K, v1: V, v2: V)
    ensures
        collect(seq![(k, v1), (k, v2)], 2) == seq![(k, v2)],
{
    let input = seq![(k, v1), (k, v2)];
    reveal_with_fuel(collect, 3);
    let empty = Seq::<(K, V)>::empty();
    assert(collect(input, 0) == empty);
    assert(!has_key(empty, k));
    let one = collect(input, 1);
    assert(one =~= seq![(k, v1)]);
    assert(is_first_index(one, k, 0));
    lemma_first_index(one, k, 0);
    assert(collect(input, 2) =~= seq![(k, v2)]);
}

/// A later pair with a key that is already present changes the value of that
/// key where it stands; every other entry stays as it is.
pub proof fn lemma_put_keeps_position<K, V>(s: Seq<(K, V)>, k: K, v: V, i: int)
    requires
        is_first_index(s, k, i),
    ensures
        put(s, k, v) == s.update(i, (k, v)),
        put(s, k, v).len() == s.len(),
{
    lemma_first_index(s, k, i);
}

/// A map that keeps its entries in insertion order.
#[derive(Debug, PartialEq, Eq)]
pub struct AmqpOrderedMap<K, V> {
    entries: Vec<(K, V)>,
}

impl<K: View, V: View> View for AmqpOrderedMap<K, V> {
    type V = Seq<(K::V, V::V)>;

    open spec fn view(&self) -> Seq<(K::V, V::V)> {
        pairs_view(self.pairs())
    }
}

impl<K, V> AmqpOrderedMap<K, V> {
    /// The entries as they are stored, in order.
    pub closed spec fn pairs(&self) -> Seq<(K, V)> {
        self.entries@
    }

    /// The stored entries are parts of the map.
    pub proof fn lemma_pairs_decrease(&self)
        ensures
            decreases_to!(self => self.pairs()),
    {
    }

    /// The number of entries.
    pub fn len(&self) -> (n: usize)
        ensures
            n == self.pairs().len(),
    {
        self.entries.len()
    }

    /// Whether the map has no entry.
    pub fn is_empty(&self) -> (r: bool)
        ensures
            r == (self.pairs().len() == 0),
    {
        self.entries.len() == 0
    }

    /// The key of the entry at place `i`.
    pub fn key_at(&self, i: usize) -> (k: &K)
        requires
            i < self.pairs().len(),
        ensures
            *k == self.pairs()[i as int].0,
    {
        &self.entries[i].0
    }

    /// The value of the entry at place `i`.
    pub fn value_at(&self, i: usize) -> (v: &V)
        requires
            i < self.pairs().len(),
        ensures
            *v == self.pairs()[i as int].1,
    {
        &self.entries[i].1
    }

    /// The entries in insertion order. The result is a fresh list of
    /// references: it can be walked any number of times.
    pub fn iter(&self) -> (r: Vec<(&K, &V)>)
        ensures
            r@.len() == self.pairs().len(),
            forall|i: int|
                0 <= i < r@.len() ==> *(#[trigger] r@[i]).0 == self.pairs()[i].0 && *r@[i].1
                    == self.pairs()[i].1,
    {
        let mut out: Vec<(&K, &V)> = Vec::new();
        let mut i: usize = 0;
        while i < self.entries.len()
            invariant
                i <= self.entries@.len(),
                out@.len() == i,
                forall|j: int|
                    0 <= j < i ==> *(#[trigger] out@[j]).0 == self.entries@[j].0 && *out@[j].1
                        == self.entries@[j].1,
            decreases self.entries@.len() - i,
        {
            let e = &self.entries[i];
            out.push((&e.0, &e.1));
            i = i + 1;
        }
        out
    }

    /// Gives the entries back, in order.
    pub fn into_pairs(self) -> (r: Vec<(K, V)>)
        ensures
            r@ == self.pairs(),
    {
        self.entries
    }
}

impl<K: View, V> AmqpOrderedMap<K, V> {
    /// A map with the entries `pairs`, which stand for those of `self` entry
    /// by entry: what a copy of `self`, or `self` with other kinds of keys, is built with. Two
    /// keys of `pairs` are the same only where the keys of `self` at their
    /// places are, so that no key comes twice where none did.
    pub(crate) fn rebuilt<K2: View, V2>(&self, pairs: Vec<(K2, V2)>) -> (r: AmqpOrderedMap<K2, V2>)
        requires
            pairs@.len() == self.pairs().len(),
            forall|i: int, j: int|
                0 <= i < j < pairs@.len() && (#[trigger] pairs@[i]).0@ == (#[trigger] pairs@[j]).0@
                    ==> self.pairs()[i].0@ == self.pairs()[j].0@,
        ensures
            r.pairs() == pairs@,
            (forall|i: int, j: int|
                0 <= i < j < self.pairs().len() ==> (#[trigger] self.pairs()[i]).0@ != (
                #[trigger] self.pairs()[j]).0@) ==> forall|i: int, j: int|
                0 <= i < j < r.pairs().len() ==> (#[trigger] r.pairs()[i]).0@ != (
                #[trigger] r.pairs()[j]).0@,
    {
        AmqpOrderedMap { entries: pairs }
    }
}

impl<K: MapKey, V: View> AmqpOrderedMap<K, V> {
    /// The invariant of every map that this module hands out.
    pub open spec fn wf(&self) -> bool {
        distinct_keys(self@)
    }

    /// The map without entries.
    pub fn new() -> (m: Self)
        ensures
            m@ == Seq::<(K::V, V::V)>::empty(),
            m.pairs() == Seq::<(K, V)>::empty(),
            m.wf(),
    {
        let m = AmqpOrderedMap { entries: Vec::new() };
        assert(m@ =~= Seq::<(K::V, V::V)>::empty());
        m
    }

    /// The place of the first entry with this key.
    pub fn index_of(&self, key: &K) -> (r: Option<usize>)
        ensures
            match r {
                Some(i) => is_first_index(self@, key@, i as int),
                None => !has_key(self@, key@),
            },
    {
        let mut i: usize = 0;
        while i < self.entries.len()
            invariant
                i <= self.entries@.len(),
                forall|j: int| 0 <= j < i ==> (#[trigger] self@[j]).0 != key@,
            decreases self.entries@.len() - i,
        {
            if self.entries[i].0.key_eq(key) {
                assert(self@[i as int].0 == key@);
                return Some(i);
            }
            assert(self@[i as int].0 != key@);
            i = i + 1;
        }
        None
    }

    /// Whether some entry has this key.
    pub fn contains_key(&self, key: &K) -> (r: bool)
        ensures
            r == has_key(self@, key@),
    {
        match self.index_of(key) {
            Some(i) => {
                assert(self@[i as int].0 == key@);
                true
            },
            None => false,
        }
    }

    /// The value that stands under this key.
    pub fn get(&self, key: &K) -> (r: Option<&V>)
        ensures
            match r {
                Some(v) => has_key(self@, key@) && v@ == self@[first_index(self@, key@)].1,
                None => !has_key(self@, key@),
            },
    {
        match self.index_of(key) {
            Some(i) => {
                proof {
                    lemma_first_index(self@, key@, i as int);
                }
                Some(&self.entries[i].1)
            },
            None => None,
        }
    }

    /// Gives `key` the value `value`. A key that is present keeps its place;
    /// a new key goes to the end. Returns the value that was replaced.
    pub fn insert(&mut self, key: K, value: V) -> (r: Option<V>)
        ensures
            final(self)@ == put(old(self)@, key@, value@),
            old(self).wf() ==> final(self).wf(),
            match r {
                Some(v) => has_key(old(self)@, key@) && v@ == old(self)@[first_index(
                    old(self)@,
                    key@,
                )].1,
                None => !has_key(old(self)@, key@),
            },
    {
        let found = self.index_of(&key);
        proof {
            if old(self).wf() {
                lemma_put_distinct(old(self)@, key@, value@);
            }
        }
        match found {
            Some(i) => {
                proof {
                    lemma_first_index(self@, key@, i as int);
                }
                self.entries.push((key, value));
                let replaced = self.entries.swap_remove(i);
                assert(self@ =~= put(old(self)@, key@, value@));
                Some(replaced.1)
            },
            None => {
                self.entries.push((key, value));
                assert(self@ =~= put(old(self)@, key@, value@));
                None
            },
        }
    }

    /// Builds a map from pairs, taken in order. Where a key comes again, its
    /// value replaces the earlier one and the key stays where it first stood.
    pub fn from_pairs(pairs: Vec<(K, V)>) -> (m: Self)
        ensures
            m@ == collect(pairs_view(pairs@), pairs@.len()),
            m.wf(),
            distinct_keys(pairs_view(pairs@)) ==> m@ == pairs_view(pairs@),
    {
        let ghost input = pairs_view(pairs@);
        let mut rest = pairs;
        let mut m: AmqpOrderedMap<K, V> = AmqpOrderedMap::new();
        let ghost mut done: nat = 0;
        assert(m@ =~= collect(input, 0));
        while rest.len() > 0
            invariant
                done + rest@.len() == input.len(),
                pairs_view(rest@) == input.skip(done as int),
                m@ == collect(input, done),
            decreases rest@.len(),
        {
            let ghost before = rest@;
            let (k, v) = rest.remove(0);
            proof {
                assert(pairs_view(before)[0] == input[done as int]);
                assert(pairs_view(rest@) =~= input.skip(done + 1int)) by {
                    assert forall|i: int| 0 <= i < rest@.len() implies pairs_view(rest@)[i]
                        == input.skip(done + 1int)[i] by {
                        assert(rest@[i] == before[i + 1]);
                        assert(pairs_view(before)[i + 1] == input.skip(done as int)[i + 1]);
                    }
                }
            }
            m.insert(k, v);
            proof {
                done = done + 1;
            }
        }
        proof {
            lemma_collect_distinct(input, input.len());
            if distinct_keys(input) {
                lemma_collect_preserves_order(input, input.len());
                assert(input.take(input.len() as int) =~= input);
            }
        }
        m
    }

    /// Takes pairs as the entries of a map, as they are. `None` where a key
    /// occurs twice among them.
    pub fn from_distinct_pairs(pairs: Vec<(K, V)>) -> (r: Option<Self>)
        ensures
            match r {
                Some(m) => distinct_keys(pairs_view(pairs@)) && m.pairs() == pairs@ && m.wf(),
                None => !distinct_keys(pairs_view(pairs@)),
            },
    {
        let ghost input = pairs_view(pairs@);
        let mut j: usize = 0;
        while j < pairs.len()
            invariant
                j <= pairs@.len(),
                input == pairs_view(pairs@),
                forall|a: int, b: int|
                    0 <= a < b < j ==> (#[trigger] input[a]).0 != (#[trigger] input[b]).0,
            decreases pairs@.len() - j,
        {
            let mut i: usize = 0;
            while i < j
                invariant
                    i <= j < pairs@.len(),
                    input == pairs_view(pairs@),
                    forall|a: int| 0 <= a < i ==> (#[trigger] input[a]).0 != input[j as int].0,
                decreases j - i,
            {
                if pairs[i].0.key_eq(&pairs[j].0) {
                    assert(input[i as int].0 == input[j as int].0);
                    return None;
                }
                assert(input[i as int].0 != input[j as int].0);
                i = i + 1;
            }
            j = j + 1;
        }
        Some(AmqpOrderedMap { entries: pairs })
    }
}

} // verus!
