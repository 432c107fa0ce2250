//! A map from strings to values that keeps its entries in insertion order.
use vstd::prelude::*;
use crate::text::str_eq;

verus! {

/// Whether no key occurs twice among `e`.
pub open spec fn keys_unique<V>(e: Seq<(String, V)>) -> bool {
    forall|i: int, j: int| 0 <= i < e.len() && 0 <= j < e.len() && i != j
        ==> #[trigger] e[i].0@ != #[trigger] e[j].0@
}

/// Whether `k` is the key of some entry of `e`.
pub open spec fn has_key<V>(e: Seq<(String, V)>, k: Seq<char>) -> bool {
    exists|i: int| 0 <= i < e.len() && #[trigger] e[i].0@ == k
}

/// The map that the entries `e` stand for.
pub open spec fn map_of<V>(e: Seq<(String, V)>) -> Map<Seq<char>, V> {
    Map::new(
        |k: Seq<char>| has_key(e, k),
        |k: Seq<char>| e[choose|i: int| 0 <= i < e.len() && #[trigger] e[i].0@ == k].1,
    )
}

/// With unique keys, the entry at `i` gives the map's value for its key.
pub proof fn lemma_map_of_at<V>(e: Seq<(String, V)>, i: int)
    requires
        keys_unique(e),
        0 <= i < e.len(),
    ensures
        map_of(e).contains_key(e[i].0@),
        map_of(e)[e[i].0@] == e[i].1,
{
    assert(has_key(e, e[i].0@));
    let j = choose|j: int| 0 <= j < e.len() && #[trigger] e[j].0@ == e[i].0@;
    assert(i == j);
}

/// The map of the first `i + 1` entries: the map of the first `i`, with
/// entry `i` added.
pub proof fn lemma_map_of_take<V>(e: Seq<(String, V)>, i: int)
    requires
        keys_unique(e),
        0 <= i < e.len(),
    ensures
        map_of(e.take(i + 1)) == map_of(e.take(i)).insert(e[i].0@, e[i].1),
{
    let a = e.take(i);
    let b = e.take(i + 1);
    assert(keys_unique(b)) by {
        assert forall|x: int, y: int| 0 <= x < b.len() && 0 <= y < b.len() && x != y
            implies #[trigger] b[x].0@ != #[trigger] b[y].0@ by {
            assert(b[x] == e[x] && b[y] == e[y]);
        }
    }
    assert(keys_unique(a)) by {
        assert forall|x: int, y: int| 0 <= x < a.len() && 0 <= y < a.len() && x != y
            implies #[trigger] a[x].0@ != #[trigger] a[y].0@ by {
            assert(a[x] == e[x] && a[y] == e[y]);
        }
    }
    let m = map_of(a).insert(e[i].0@, e[i].1);
    assert forall|q: Seq<char>| #[trigger] map_of(b).contains_key(q) == m.contains_key(q) by {
        if has_key(b, q) {
            let j = choose|j: int| 0 <= j < b.len() && #[trigger] b[j].0@ == q;
            if j < i {
                assert(a[j].0@ == q);
            }
        }
        if has_key(a, q) {
            let j = choose|j: int| 0 <= j < a.len() && #[trigger] a[j].0@ == q;
            assert(b[j].0@ == q);
        }
        if q == e[i].0@ {
            assert(b[i].0@ == q);
        }
    }
    assert forall|q: Seq<char>| #[trigger] map_of(b).contains_key(q) implies map_of(b)[q] == m[q] by {
        let j = choose|j: int| 0 <= j < b.len() && #[trigger] b[j].0@ == q;
        lemma_map_of_at(b, j);
        if j < i {
            lemma_map_of_at(a, j);
            assert(a[j].0@ != e[i].0@) by {
                assert(e[j].0@ != e[i].0@);
            }
        }
    }
    assert(map_of(b) =~= m);
}

/// A string-keyed map whose entries keep the order in which keys were
/// first inserted.
pub struct StrMap<V> {
    entries: Vec<(String, V)>,
}

impl<V> View for StrMap<V> {
    type V = Map<Seq<char>, V>;

    open spec fn view(&self) -> Map<Seq<char>, V> {
        map_of(self.entries())
    }
}

impl<V> StrMap<V> {
    /// The entries, in order.
    pub closed spec fn entries(&self) -> Seq<(String, V)> {
        self.entries@
    }

    /// Well-formedness: no key occurs twice.
    pub open spec fn wf(&self) -> bool {
        keys_unique(self.entries())
    }

    /// An empty map.
    pub fn new() -> (r: Self)
        ensures
            r.wf(),
            r.entries() == Seq::<(String, V)>::empty(),
            r@ == Map::<Seq<char>, V>::empty(),
    {
        let r = StrMap { entries: Vec::new() };
        assert(r@ =~= Map::<Seq<char>, V>::empty());
        r
    }

    /// The entries, in order.
    pub fn as_vec(&self) -> (r: &Vec<(String, V)>)
        ensures
            r@ == self.entries(),
    {
        &self.entries
    }

    /// The entries, in order, taken out of the map.
    pub fn into_vec(self) -> (r: Vec<(String, V)>)
        ensures
            r@ == self.entries(),
    {
        self.entries
    }

    /// The number of entries.
    pub fn len(&self) -> (r: usize)
        requires
            self.wf(),
        ensures
            r == self@.len(),
            r == self.entries().len(),
    {
        proof { self.lemma_len(); }
        self.entries.len()
    }

    /// Whether the map is empty.
    pub fn is_empty(&self) -> (r: bool)
        requires
            self.wf(),
        ensures
            r == (self@.len() == 0),
    {
        proof { self.lemma_len(); }
        self.entries.len() == 0
    }

    pub proof fn lemma_len(&self)
        requires
            self.wf(),
        ensures
            self@.dom().finite(),
            self@.len() == self.entries().len(),
        decreases self.entries().len(),
    {
        let e = self.entries();
        let keys = Seq::new(e.len(), |i: int| e[i].0@);
        assert(keys.no_duplicates());
        assert forall|q: Seq<char>| #[trigger] self@.dom().contains(q) == keys.to_set().contains(q) by {
            if self@.dom().contains(q) {
                let j = choose|j: int| 0 <= j < e.len() && #[trigger] e[j].0@ == q;
                assert(keys[j] == q);
            }
            if keys.contains(q) {
                let j = choose|j: int| 0 <= j < keys.len() && keys[j] == q;
                assert(e[j].0@ == q);
            }
        }
        assert(self@.dom() =~= keys.to_set());
        keys.unique_seq_to_set();
    }

    /// What the entries say of the map: it is finite, with one entry per
    /// key; each entry gives its key's value, and every key has an entry.
    pub proof fn lemma_entries(&self)
        requires
            self.wf(),
        ensures
            self@.dom().finite(),
            self@.len() == self.entries().len(),
            forall|i: int|
                0 <= i < self.entries().len() ==> self@.contains_key(
                    (#[trigger] self.entries()[i]).0@,
                ) && self@[self.entries()[i].0@] == self.entries()[i].1,
            forall|k: Seq<char>|
                #[trigger] self@.contains_key(k) ==> exists|i: int|
                    0 <= i < self.entries().len() && (#[trigger] self.entries()[i]).0@ == k,
    {
        self.lemma_len();
        let e = self.entries();
        assert forall|i: int| 0 <= i < e.len() implies self@.contains_key((#[trigger] e[i]).0@)
            && self@[e[i].0@] == e[i].1 by {
            lemma_map_of_at(e, i);
        }
    }

    /// The position of `k` among the entries, if it is there.
    fn find(&self, k: &str) -> (r: Option<usize>)
        requires
            self.wf(),
        ensures
            match r {
                Some(i) => i < self.entries().len() && self.entries()[i as int].0@ == k@,
                None => !has_key(self.entries(), k@),
            },
    {
        let mut i: usize = 0;
        while i < self.entries.len()
            invariant
                i <= self.entries@.len(),
                forall|j: int| 0 <= j < i ==> self.entries@[j].0@ != k@,
            decreases self.entries@.len() - i,
        {
            if str_eq(self.entries[i].0.as_str(), k) {
                return Some(i);
            }
            i = i + 1;
        }
        None
    }

    /// Whether `k` has a value.
    pub fn contains_key(&self, k: &str) -> (r: bool)
        requires
            self.wf(),
        ensures
            r == self@.contains_key(k@),
    {
        self.find(k).is_some()
    }

    /// The value of `k`, if any.
    pub fn get(&self, k: &str) -> (r: Option<&V>)
        requires
            self.wf(),
        ensures
            match r {
                Some(v) => self@.contains_key(k@) && *v == self@[k@],
                None => !self@.contains_key(k@),
            },
    {
        match self.find(k) {
            Some(i) => {
                proof { lemma_map_of_at(self.entries(), i as int); }
                Some(&self.entries[i].1)
            },
            None => None,
        }
    }

    /// Sets the value of `k`, replacing any earlier one. A new key goes
    /// after the others; a key already there keeps its place.
    pub fn insert(&mut self, k: String, v: V)
        requires
            old(self).wf(),
        ensures
            final(self).wf(),
            final(self)@ == old(self)@.insert(k@, v),
    {
        let ghost e0 = self.entries@;
        let ghost kv = k@;
        match self.find(k.as_str()) {
            Some(i) => {
                self.entries.set(i, (k, v));
                let ghost e1 = self.entries@;
                assert(keys_unique(e1)) by {
                    assert forall|a: int, b: int| 0 <= a < e1.len() && 0 <= b < e1.len() && a != b
                        implies #[trigger] e1[a].0@ != #[trigger] e1[b].0@ by {
                        assert(e0[a].0@ != e0[b].0@);
                    }
                }
                assert forall|q: Seq<char>| #[trigger] map_of(e1).contains_key(q)
                    == old(self)@.insert(kv, v).contains_key(q) by {
                    if q != kv && has_key(e0, q) {
                        let j = choose|j: int| 0 <= j < e0.len() && #[trigger] e0[j].0@ == q;
                        assert(e1[j].0@ == q);
                    }
                    if q == kv {
                        assert(e1[i as int].0@ == q);
                    }
                    if has_key(e1, q) {
                        let j = choose|j: int| 0 <= j < e1.len() && #[trigger] e1[j].0@ == q;
                        if j != i as int {
                            assert(e0[j].0@ == q);
                        }
                    }
                }
                assert forall|q: Seq<char>| #[trigger] map_of(e1).contains_key(q)
                    implies map_of(e1)[q] == old(self)@.insert(kv, v)[q] by {
                    let j = choose|j: int| 0 <= j < e1.len() && #[trigger] e1[j].0@ == q;
                    lemma_map_of_at(e1, j);
                    if j != i as int {
                        lemma_map_of_at(e0, j);
                    }
                }
                assert(map_of(e1) =~= old(self)@.insert(kv, v));
            },
            None => {
                self.entries.push((k, v));
                let ghost e1 = self.entries@;
                assert(keys_unique(e1)) by {
                    assert forall|a: int, b: int| 0 <= a < e1.len() && 0 <= b < e1.len() && a != b
                        implies #[trigger] e1[a].0@ != #[trigger] e1[b].0@ by {
                        if a < e0.len() && b < e0.len() {
                            assert(e0[a].0@ != e0[b].0@);
                        } else if a < e0.len() {
                            assert(e0[a].0@ == e1[a].0@);
                        } else {
                            assert(e0[b].0@ == e1[b].0@);
                        }
                    }
                }
                assert forall|q: Seq<char>| #[trigger] map_of(e1).contains_key(q)
                    == old(self)@.insert(kv, v).contains_key(q) by {
                    if q != kv && has_key(e0, q) {
                        let j = choose|j: int| 0 <= j < e0.len() && #[trigger] e0[j].0@ == q;
                        assert(e1[j].0@ == q);
                    }
                    if q == kv {
                        assert(e1[e0.len() as int].0@ == q);
                    }
                    if has_key(e1, q) {
                        let j = choose|j: int| 0 <= j < e1.len() && #[trigger] e1[j].0@ == q;
                        if j < e0.len() {
                            assert(e0[j].0@ == q);
                        }
                    }
                }
                assert forall|q: Seq<char>| #[trigger] map_of(e1).contains_key(q)
                    implies map_of(e1)[q] == old(self)@.insert(kv, v)[q] by {
                    let j = choose|j: int| 0 <= j < e1.len() && #[trigger] e1[j].0@ == q;
                    lemma_map_of_at(e1, j);
                    if j < e0.len() {
                        lemma_map_of_at(e0, j);
                    }
                }
                assert(map_of(e1) =~= old(self)@.insert(kv, v));
            },
        }
    }

    /// Removes `k` and its value, if it is there; the other entries keep
    /// their order.
    pub fn remove(&mut self, k: &str) -> (r: Option<V>)
        requires
            old(self).wf(),
        ensures
            final(self).wf(),
            final(self)@ == old(self)@.remove(k@),
            match r {
                Some(v) => old(self)@.contains_key(k@) && v == old(self)@[k@],
                None => !old(self)@.contains_key(k@),
            },
    {
        let ghost e0 = self.entries@;
        match self.find(k) {
            Some(i) => {
                proof { lemma_map_of_at(e0, i as int); }
                let (_, v) = self.entries.remove(i);
                let ghost e1 = self.entries@;
                assert(e1 =~= e0.remove(i as int));
                assert(keys_unique(e1)) by {
                    assert forall|a: int, b: int| 0 <= a < e1.len() && 0 <= b < e1.len() && a != b
                        implies #[trigger] e1[a].0@ != #[trigger] e1[b].0@ by {
                        let a0 = if a < i { a } else { a + 1 };
                        let b0 = if b < i { b } else { b + 1 };
                        assert(e0[a0].0@ != e0[b0].0@);
                    }
                }
                assert forall|q: Seq<char>| #[trigger] map_of(e1).contains_key(q)
                    == old(self)@.remove(k@).contains_key(q) by {
                    if q != k@ && has_key(e0, q) {
                        let j = choose|j: int| 0 <= j < e0.len() && #[trigger] e0[j].0@ == q;
                        if j < i {
                            assert(e1[j].0@ == q);
                        } else {
                            assert(e1[j - 1].0@ == q);
                        }
                    }
                    if has_key(e1, q) {
                        let j = choose|j: int| 0 <= j < e1.len() && #[trigger] e1[j].0@ == q;
                        let j0 = if j < i { j } else { j + 1 };
                        assert(e0[j0].0@ == q);
                        assert(j0 != i as int);
                    }
                }
                assert forall|q: Seq<char>| #[trigger] map_of(e1).contains_key(q)
                    implies map_of(e1)[q] == old(self)@.remove(k@)[q] by {
                    let j = choose|j: int| 0 <= j < e1.len() && #[trigger] e1[j].0@ == q;
                    let j0 = if j < i { j } else { j + 1 };
                    lemma_map_of_at(e1, j);
                    lemma_map_of_at(e0, j0);
                }
                assert(map_of(e1) =~= old(self)@.remove(k@));
                Some(v)
            },
            None => {
                assert(old(self)@ =~= old(self)@.remove(k@));
                None
            },
        }
    }

    /// Removes every entry.
    pub fn clear(&mut self)
        ensures
            final(self).wf(),
            final(self)@ == Map::<Seq<char>, V>::empty(),
    {
        self.entries = Vec::new();
        assert(map_of(self.entries@) =~= Map::<Seq<char>, V>::empty());
    }
}

} // verus!
