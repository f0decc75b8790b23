//! In-memory sequences: 1-based integer-keyed local trees that may hold
//! holes.

use std::collections::BTreeMap;

use vstd::prelude::*;
use vstd::std_specs::btree::spec_keys_iter;
use vstd::std_specs::cmp::OrdSpec;
use vstd::std_specs::iter::IteratorSpec;

verus! {

/// A 1-based integer-keyed local sequence held as an ordered map from each
/// populated position to its value. Holes are absent positions, not stored
/// entries, so a positional write past the dense range or a delete leaves a
/// gap that iteration, counting and a positional read all skip.
#[derive(Debug, Clone)]
pub struct Sequence<V> {
    entries: BTreeMap<i64, V>,
}

impl<V> View for Sequence<V> {
    type V = Map<i64, V>;

    /// The populated positions and their values.
    closed spec fn view(&self) -> Map<i64, V> {
        self.entries@
    }
}

/// In an increasing sequence of an ordered type, each element orders
/// before every later one.
proof fn lemma_increasing_pair<K: Ord>(s: Seq<K>, i: int, j: int)
    requires
        vstd::laws_cmp::obeys_cmp::<K>(),
        vstd::std_specs::btree::increasing_seq(s),
        0 <= i < j < s.len(),
    ensures
        s[i].cmp_spec(&s[j]) is Less,
{
}

/// The keys a map walk yields come in strictly ascending order.
proof fn lemma_keys_ascending(keys: Seq<&i64>)
    requires
        vstd::std_specs::btree::increasing_seq(keys),
    ensures
        forall|i: int, j: int| 0 <= i < j < keys.len() ==> *keys[i] < *keys[j],
{
    assert(vstd::laws_cmp::obeys_cmp::<&i64>());
    assert forall|i: int, j: int| 0 <= i < j < keys.len() implies *keys[i] < *keys[j] by {
        lemma_increasing_pair(keys, i, j);
    }
}

/// The dense sequence of `values`: position `p` holds `values[p - 1]` for
/// every `p` from 1 to the number of values.
pub open spec fn dense_map<V>(values: Seq<V>) -> Map<i64, V> {
    Map::new(|p: i64| 1 <= p <= values.len(), |p: i64| values[p - 1])
}

/// Whether `ps` lists exactly the positions of `dom`, strictly ascending.
pub open spec fn ascending_cover(ps: Seq<i64>, dom: Set<i64>) -> bool {
    &&& forall|i: int, j: int| 0 <= i < j < ps.len() ==> ps[i] < ps[j]
    &&& forall|p: i64| dom.contains(p) <==> ps.contains(p)
}

impl<V> Sequence<V> {
    /// The empty sequence.
    pub fn new() -> (r: Self)
        ensures
            r@ == Map::<i64, V>::empty(),
    {
        Sequence { entries: BTreeMap::new() }
    }

    /// A dense `1..n` sequence from values in order.
    pub fn dense(values: Vec<V>) -> (r: Self)
        requires
            values@.len() < i64::MAX,
        ensures
            r@ == dense_map(values@),
    {
        let ghost vals = values@;
        let mut entries: BTreeMap<i64, V> = BTreeMap::new();
        let mut rest = values;
        let mut remaining: usize = rest.len();
        while remaining > 0
            invariant
                remaining == rest@.len(),
                rest@ == vals.take(remaining as int),
                vals.len() < i64::MAX,
                remaining <= vals.len(),
                entries@ == Map::new(
                    |p: i64| remaining < p <= vals.len(),
                    |p: i64| vals[p - 1],
                ),
            decreases remaining,
        {
            let value = rest.pop().unwrap();
            let position = remaining as i64;
            entries.insert(position, value);
            remaining = remaining - 1;
            assert(rest@ =~= vals.take(remaining as int));
            assert(entries@ =~= Map::new(
                |p: i64| remaining < p <= vals.len(),
                |p: i64| vals[p - 1],
            ));
        }
        assert(entries@ =~= dense_map(vals));
        Sequence { entries }
    }

    /// The number of populated positions, skipping holes.
    pub fn len(&self) -> (r: usize)
        ensures
            r == self@.len(),
    {
        self.entries.len()
    }

    /// The value at `position`, or `None` when the position is a hole or
    /// non-positive.
    pub fn get(&self, position: i64) -> (r: Option<&V>)
        ensures
            match r {
                Some(v) => self@.contains_key(position) && *v == self@[position],
                None => !self@.contains_key(position),
            },
    {
        self.entries.get(&position)
    }

    /// Writes `value` at `position`, replacing any entry there.
    pub fn set(&mut self, position: i64, value: V)
        ensures
            final(self)@ == old(self)@.insert(position, value),
    {
        self.entries.insert(position, value);
    }

    /// Removes the entry at `position`, returning whether one was there.
    pub fn remove(&mut self, position: i64) -> (r: bool)
        ensures
            final(self)@ == old(self)@.remove(position),
            r == old(self)@.contains_key(position),
    {
        self.entries.remove(&position).is_some()
    }
    /// The populated positions in ascending order.
    pub fn positions(&self) -> (r: Vec<i64>)
        ensures
            ascending_cover(r@, self@.dom()),
    {
        let mut out: Vec<i64> = Vec::new();
        let ghost keys = IteratorSpec::remaining(&spec_keys_iter(&self.entries));
        for k in it: self.entries.keys()
            invariant
                it.seq() == keys,
                keys == IteratorSpec::remaining(&spec_keys_iter(&self.entries)),
                out@ == it.seq().take(it.index() as int).map_values(|k: &i64| *k),
        {
            out.push(*k);
            assert(it.seq().take(it.index() + 1).map_values(|k: &i64| *k) =~= out@);
        }
        assert(keys.take(keys.len() as int) =~= keys);
        proof {
            lemma_keys_ascending(keys);
            assert(keys.unref().to_set() == self.entries@.dom());
            assert(out@ =~= keys.unref());
            assert forall|p: i64| self@.contains_key(p) <==> out@.contains(p) by {
                if self@.contains_key(p) {
                    assert(keys.unref().to_set().contains(p));
                }
                if out@.contains(p) {
                    let i = choose|i: int| 0 <= i < out@.len() && out@[i] == p;
                    assert(keys.unref().to_set().contains(out@[i]));
                }
            }
        }
        out
    }
    /// The highest populated position, or `None` when the sequence is empty.
    pub fn highest_position(&self) -> (r: Option<i64>)
        ensures
            r is None <==> self@.dom().is_empty(),
            r matches Some(p) ==> self@.contains_key(p) && forall|q: i64|
                #[trigger] self@.contains_key(q) ==> q <= p,
    {
        let ps = self.positions();
        if ps.len() == 0 {
            assert forall|q: i64| !self@.contains_key(q) by {
                if self@.contains_key(q) {
                    assert(ps@.contains(q));
                }
            }
            assert(self@.dom() =~= Set::<i64>::empty());
            return None;
        }
        let last = ps[ps.len() - 1];
        assert(ps@.contains(last));
        assert forall|q: i64| #[trigger] self@.contains_key(q) implies q <= last by {
            assert(ps@.contains(q));
            let i = choose|i: int| 0 <= i < ps@.len() && ps@[i] == q;
            if i < ps@.len() - 1 {
                assert(ps@[i] < ps@[ps@.len() - 1]);
            }
        }
        assert(self@.dom().contains(last));
        Some(last)
    }

    /// Stores `value` at `position`, which lies above every populated
    /// position: an append only ever extends the tail and never fills a hole.
    pub fn append(&mut self, position: i64, value: V)
        requires
            forall|q: i64| #[trigger] old(self)@.contains_key(q) ==> q < position,
        ensures
            final(self)@ == old(self)@.insert(position, value),
    {
        self.entries.insert(position, value);
    }

    /// The `(position, value)` rows in ascending position order.
    pub fn rows(&self) -> (r: Vec<(i64, &V)>)
        ensures
            ascending_cover(r@.map_values(|row: (i64, &V)| row.0), self@.dom()),
            forall|i: int| 0 <= i < r@.len() ==> *(#[trigger] r@[i]).1 == self@[r@[i].0],
    {
        let ps = self.positions();
        let mut out: Vec<(i64, &V)> = Vec::new();
        let mut i: usize = 0;
        while i < ps.len()
            invariant
                i <= ps@.len(),
                ascending_cover(ps@, self@.dom()),
                out@.len() == i,
                forall|k: int| 0 <= k < i ==> (#[trigger] out@[k]).0 == ps@[k],
                forall|k: int| 0 <= k < i ==> *(#[trigger] out@[k]).1 == self@[out@[k].0],
            decreases ps@.len() - i,
        {
            let p = ps[i];
            assert(ps@.contains(p));
            let v = self.get(p).unwrap();
            out.push((p, v));
            i = i + 1;
        }
        assert(out@.map_values(|row: (i64, &V)| row.0) =~= ps@);
        out
    }

    /// The stored values in ascending position order.
    pub fn values(&self) -> (r: Vec<&V>)
        ensures
            exists|ps: Seq<i64>|
                #![trigger ascending_cover(ps, self@.dom())]
                ascending_cover(ps, self@.dom()) && ps.len() == r@.len() && forall|i: int|
                    0 <= i < r@.len() ==> *(#[trigger] r@[i]) == self@[ps[i]],
    {
        let rows = self.rows();
        let ghost ps = rows@.map_values(|row: (i64, &V)| row.0);
        let mut out: Vec<&V> = Vec::new();
        let mut i: usize = 0;
        while i < rows.len()
            invariant
                i <= rows@.len(),
                ps == rows@.map_values(|row: (i64, &V)| row.0),
                forall|k: int| 0 <= k < rows@.len() ==> *(#[trigger] rows@[k]).1 == self@[rows@[k].0],
                out@.len() == i,
                forall|k: int| 0 <= k < i ==> *(#[trigger] out@[k]) == self@[ps[k]],
            decreases rows@.len() - i,
        {
            let (_, v) = rows[i];
            out.push(v);
            proof {
                assert(ps[i as int] == rows@[i as int].0);
            }
            i = i + 1;
        }
        assert(ascending_cover(ps, self@.dom()));
        out
    }

    /// The stored values in ascending position order, consuming the
    /// sequence.
    pub fn into_values(self) -> (r: Vec<V>)
        ensures
            exists|ps: Seq<i64>|
                #![trigger ascending_cover(ps, self@.dom())]
                ascending_cover(ps, self@.dom()) && ps.len() == r@.len() && forall|i: int|
                    0 <= i < r@.len() ==> #[trigger] r@[i] == self@[ps[i]],
    {
        let ghost original = self@;
        let ps = self.positions();
        let mut entries = self.entries;
        let mut out: Vec<V> = Vec::new();
        let mut i: usize = 0;
        while i < ps.len()
            invariant
                i <= ps@.len(),
                ascending_cover(ps@, original.dom()),
                out@.len() == i,
                forall|k: int| 0 <= k < i ==> #[trigger] out@[k] == original[ps@[k]],
                forall|k: int| i <= k < ps@.len() ==> entries@.contains_key(#[trigger] ps@[k])
                    && entries@[ps@[k]] == original[ps@[k]],
            decreases ps@.len() - i,
        {
            let p = ps[i];
            assert(entries@.contains_key(ps@[i as int]));
            let v = entries.remove(&p).unwrap();
            out.push(v);
            proof {
                assert forall|k: int| i + 1 <= k < ps@.len() implies entries@.contains_key(
                    #[trigger] ps@[k],
                ) && entries@[ps@[k]] == original[ps@[k]] by {
                    assert(ps@[i as int] < ps@[k]);
                }
            }
            i = i + 1;
        }
        out
    }
}

impl<V> Default for Sequence<V> {
    /// The empty sequence.
    fn default() -> (r: Self)
        ensures
            r@ == Map::<i64, V>::empty(),
    {
        Sequence::new()
    }
}

/// Two strictly ascending listings of the same positions are the same
/// listing.
pub proof fn lemma_ascending_cover_unique(a: Seq<i64>, b: Seq<i64>, dom: Set<i64>)
    requires
        ascending_cover(a, dom),
        ascending_cover(b, dom),
    ensures
        a == b,
{
    assert forall|k: int| 0 <= k < a.len() && 0 <= k < b.len() implies a[k] == b[k] by {
        lemma_ascending_prefix_equal(a, b, dom, k);
    }
    if a.len() > b.len() {
        let n = b.len() as int;
        assert(dom.contains(a[n]));
        let j = choose|j: int| 0 <= j < b.len() && b[j] == a[n];
        lemma_ascending_prefix_equal(a, b, dom, j);
        assert(a[j] < a[n]);
    } else if b.len() > a.len() {
        let n = a.len() as int;
        assert(dom.contains(b[n]));
        let j = choose|j: int| 0 <= j < a.len() && a[j] == b[n];
        lemma_ascending_prefix_equal(a, b, dom, j);
        assert(b[j] < b[n]);
    }
    assert(a =~= b);
}

proof fn lemma_ascending_prefix_equal(a: Seq<i64>, b: Seq<i64>, dom: Set<i64>, k: int)
    requires
        ascending_cover(a, dom),
        ascending_cover(b, dom),
        0 <= k < a.len(),
        k < b.len(),
    ensures
        a[k] == b[k],
    decreases k,
{
    if k > 0 {
        lemma_ascending_prefix_equal(a, b, dom, k - 1);
    }
    assert(dom.contains(a[k]));
    assert(b.contains(a[k]));
    let j = choose|j: int| 0 <= j < b.len() && b[j] == a[k];
    assert(dom.contains(b[k]));
    assert(a.contains(b[k]));
    let i = choose|i: int| 0 <= i < a.len() && a[i] == b[k];
    if j < k {
        if k > 0 {
            lemma_ascending_prefix_equal(a, b, dom, j);
            assert(a[j] < a[k]);
        }
    }
    if i < k {
        if k > 0 {
            lemma_ascending_prefix_equal(a, b, dom, i);
            assert(b[i] < b[k]);
        }
    }
    if j > k {
        assert(b[k] < b[j]);
        if i > k {
            assert(a[k] < a[i]);
        }
    }
}

/// A dense sequence lists its values back in order: its positions are
/// `1..n`, and position `p` holds the `p`-th value.
pub proof fn lemma_dense_values<V>(values: Seq<V>, ps: Seq<i64>)
    requires
        values.len() < i64::MAX,
        ascending_cover(ps, dense_map(values).dom()),
    ensures
        ps.len() == values.len(),
        forall|i: int| 0 <= i < ps.len() ==> #[trigger] dense_map(values)[ps[i]] == values[i],
{
    let n = values.len() as int;
    let expected = Seq::new(values.len(), |i: int| (i + 1) as i64);
    assert(ascending_cover(expected, dense_map(values).dom())) by {
        assert forall|p: i64| dense_map(values).dom().contains(p) <==> expected.contains(p) by {
            if dense_map(values).dom().contains(p) {
                assert(expected[p - 1] == p);
            }
        }
    }
    lemma_ascending_cover_unique(ps, expected, dense_map(values).dom());
}

/// Reading a position after writing it gives the written value; every other
/// position reads as before; the count grows by one exactly when the write
/// filled a hole.
pub proof fn lemma_write_then_read<V>(seq: Sequence<V>, p: i64, v: V, q: i64)
    ensures
        seq@.insert(p, v).contains_key(p),
        seq@.insert(p, v)[p] == v,
        q != p ==> seq@.insert(p, v).contains_key(q) == seq@.contains_key(q),
        q != p && seq@.contains_key(q) ==> seq@.insert(p, v)[q] == seq@[q],
        seq@.insert(p, v).len() == (if seq@.contains_key(p) {
            seq@.len() as int
        } else {
            seq@.len() + 1int
        }),
{
    assert(seq@.dom().finite());
}

/// Deleting a position leaves a hole there and every other position as
/// before; the count drops by one exactly when the position was populated.
pub proof fn lemma_delete_leaves_hole<V>(seq: Sequence<V>, p: i64, q: i64)
    ensures
        !seq@.remove(p).contains_key(p),
        q != p ==> seq@.remove(p).contains_key(q) == seq@.contains_key(q),
        q != p && seq@.contains_key(q) ==> seq@.remove(p)[q] == seq@[q],
        seq@.remove(p).len() == (if seq@.contains_key(p) {
            seq@.len() - 1
        } else {
            seq@.len() as int
        }),
{
    assert(seq@.dom().finite());
}

} // verus!
