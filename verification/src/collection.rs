//! A map from string keys to schema objects that remembers insertion order.
use vstd::prelude::*;
use crate::order::{lemma_pair_key_eq, lemma_single_key_eq};

verus! {

/// A key made of strings.
pub trait MapKey: Sized {
    spec fn key_view(&self) -> Seq<Seq<char>>;

    fn key_eq(&self, other: &Self) -> (r: bool)
        ensures
            r == (self.key_view() == other.key_view()),
    ;
}

impl MapKey for String {
    open spec fn key_view(&self) -> Seq<Seq<char>> {
        seq![self@]
    }

    fn key_eq(&self, other: &Self) -> (r: bool) {
        proof {
            lemma_single_key_eq(self@, other@);
        }
        *self == *other
    }
}

impl MapKey for (String, String) {
    open spec fn key_view(&self) -> Seq<Seq<char>> {
        seq![self.0@, self.1@]
    }

    fn key_eq(&self, other: &Self) -> (r: bool) {
        proof {
            lemma_pair_key_eq(self.0@, self.1@, other.0@, other.1@);
        }
        self.0 == other.0 && self.1 == other.1
    }
}

/// Entries keyed by `K`, each key at most once, in the order their keys
/// were first inserted.
#[derive(Debug, PartialEq, Eq)]
pub struct KeyMap<K, V> {
    entries: Vec<(K, V)>,
}

/// Whether no two entries share a key.
pub open spec fn keys_unique<K: MapKey, V>(e: Seq<(K, V)>) -> bool {
    forall|i: int, j: int|
        0 <= i < e.len() && 0 <= j < e.len() && i != j ==> #[trigger] e[i].0.key_view()
            != #[trigger] e[j].0.key_view()
}

/// The position of the first entry with key `k`, if any.
pub open spec fn position_of<K: MapKey, V>(e: Seq<(K, V)>, k: Seq<Seq<char>>) -> Option<int>
    decreases e.len(),
{
    if e.len() == 0 {
        None
    } else if e[0].0.key_view() == k {
        Some(0)
    } else {
        match position_of(e.drop_first(), k) {
            Some(i) => Some(i + 1),
            None => None,
        }
    }
}

proof fn lemma_position_of<K: MapKey, V>(e: Seq<(K, V)>, k: Seq<Seq<char>>, n: int)
    requires
        0 <= n <= e.len(),
        forall|j: int| 0 <= j < n ==> #[trigger] e[j].0.key_view() != k,
        n < e.len() ==> e[n].0.key_view() == k,
    ensures
        position_of(e, k) == if n < e.len() { Some(n) } else { None::<int> },
    decreases n,
{
    if n > 0 {
        let t = e.drop_first();
        assert forall|j: int| 0 <= j < n - 1 implies #[trigger] t[j].0.key_view() != k by {
            assert(t[j] == e[j + 1]);
        }
        if n < e.len() {
            assert(t[n - 1] == e[n]);
        }
        lemma_position_of(t, k, n - 1);
    } else if e.len() == 0 {
    }
}

proof fn lemma_position_facts<K: MapKey, V>(e: Seq<(K, V)>, k: Seq<Seq<char>>)
    ensures
        match position_of(e, k) {
            Some(i) => 0 <= i < e.len() && e[i].0.key_view() == k,
            None => forall|j: int| 0 <= j < e.len() ==> #[trigger] e[j].0.key_view() != k,
        },
    decreases e.len(),
{
    if e.len() > 0 && e[0].0.key_view() != k {
        let t = e.drop_first();
        lemma_position_facts(t, k);
        match position_of(t, k) {
            Some(i) => {
                assert(e[i + 1] == t[i]);
            },
            None => {
                assert forall|j: int| 0 <= j < e.len() implies #[trigger] e[j].0.key_view() != k by {
                    if j > 0 {
                        assert(e[j] == t[j - 1]);
                    }
                }
            },
        }
    }
}

/// The entries after storing `v` under `k`: an entry with an equal key is
/// replaced in place, otherwise the pair is appended.
pub open spec fn inserted<K: MapKey, V>(e: Seq<(K, V)>, k: K, v: V) -> Seq<(K, V)> {
    match position_of(e, k.key_view()) {
        Some(i) => e.update(i, (k, v)),
        None => e.push((k, v)),
    }
}

/// Whether `j` is the last position of `rows` with its key.
pub open spec fn last_of_key<R>(rows: Seq<R>, key: spec_fn(R) -> Seq<Seq<char>>, j: int) -> bool {
    &&& 0 <= j < rows.len()
    &&& forall|j2: int| j < j2 < rows.len() ==> key(#[trigger] rows[j2]) != key(rows[j])
}

/// Whether the entries hold one entry per key among `rows`, with distinct
/// keys, each value related by `rel` to the last row with its key.
pub open spec fn built_from<K: MapKey, V, R>(
    e: Seq<(K, V)>,
    rows: Seq<R>,
    key: spec_fn(R) -> Seq<Seq<char>>,
    rel: spec_fn(V, R) -> bool,
) -> bool {
    &&& keys_unique(e)
    &&& forall|p: int|
        0 <= p < e.len() ==> exists|j: int|
            #[trigger] last_of_key(rows, key, j) && key(rows[j]) == (#[trigger] e[p]).0.key_view() && rel(
                e[p].1,
                rows[j],
            )
    &&& forall|j: int| 0 <= j < rows.len() ==> #[trigger] has_entry_key(e, key(rows[j]))
}

/// Whether some entry has key `k`.
pub open spec fn has_entry_key<K: MapKey, V>(e: Seq<(K, V)>, k: Seq<Seq<char>>) -> bool {
    exists|p: int| 0 <= p < e.len() && #[trigger] e[p].0.key_view() == k
}

/// Storing the pair built from one more row keeps the entries built from
/// the rows so far.
pub proof fn lemma_built_step<K: MapKey, V, R>(
    e: Seq<(K, V)>,
    rows: Seq<R>,
    key: spec_fn(R) -> Seq<Seq<char>>,
    rel: spec_fn(V, R) -> bool,
    k: K,
    v: V,
    r: R,
)
    requires
        built_from(e, rows, key, rel),
        k.key_view() == key(r),
        rel(v, r),
    ensures
        built_from(inserted(e, k, v), rows.push(r), key, rel),
{
    let rows2 = rows.push(r);
    let n = rows.len() as int;
    let e2 = inserted(e, k, v);
    lemma_position_facts(e, k.key_view());
    assert(last_of_key(rows2, key, n));
    assert forall|j: int| 0 <= j < n && #[trigger] last_of_key(rows, key, j) && key(rows[j]) != key(r) implies last_of_key(rows2, key, j) by {
        assert forall|j2: int| j < j2 < rows2.len() implies key(#[trigger] rows2[j2]) != key(rows2[j]) by {
            if j2 < n {
                assert(rows2[j2] == rows[j2]);
            }
        }
    }
    match position_of(e, k.key_view()) {
        Some(i) => {
            assert(e2 == e.update(i, (k, v)));
            assert forall|a: int, b: int|
                0 <= a < e2.len() && 0 <= b < e2.len() && a != b implies #[trigger] e2[a].0.key_view()
                != #[trigger] e2[b].0.key_view() by {
                assert(e[a].0.key_view() != e[b].0.key_view());
            }
            assert forall|p: int| 0 <= p < e2.len() implies exists|j: int|
                #[trigger] last_of_key(rows2, key, j) && key(rows2[j]) == (#[trigger] e2[p]).0.key_view() && rel(
                    e2[p].1,
                    rows2[j],
                ) by {
                if p == i {
                    assert(rows2[n] == r);
                } else {
                    let j = choose|j: int|
                        #[trigger] last_of_key(rows, key, j) && key(rows[j]) == e[p].0.key_view() && rel(e[p].1, rows[j]);
                    assert(e[p].0.key_view() != e[i].0.key_view());
                    assert(rows2[j] == rows[j]);
                    assert(last_of_key(rows2, key, j));
                }
            }
            assert forall|j: int| 0 <= j < rows2.len() implies #[trigger] has_entry_key(e2, key(rows2[j])) by {
                if j < n {
                    assert(rows2[j] == rows[j]);
                    assert(has_entry_key(e, key(rows[j])));
                    let p = choose|p: int| 0 <= p < e.len() && #[trigger] e[p].0.key_view() == key(rows[j]);
                    if p == i {
                        assert(e2[p] == (k, v));
                    } else {
                        assert(e2[p] == e[p]);
                    }
                    assert(0 <= p < e2.len() && e2[p].0.key_view() == key(rows2[j]));
                } else {
                    assert(e2[i] == (k, v));
                    assert(rows2[j] == r);
                    assert(0 <= i < e2.len() && e2[i].0.key_view() == key(rows2[j]));
                }
            }
            assert(built_from(e2, rows2, key, rel));
        },
        None => {
            assert(e2 == e.push((k, v)));
            assert forall|a: int, b: int|
                0 <= a < e2.len() && 0 <= b < e2.len() && a != b implies #[trigger] e2[a].0.key_view()
                != #[trigger] e2[b].0.key_view() by {
                if a < e.len() && b < e.len() {
                    assert(e[a].0.key_view() != e[b].0.key_view());
                } else if a < e.len() {
                    assert(e2[a] == e[a]);
                } else {
                    assert(e2[b] == e[b]);
                }
            }
            assert forall|p: int| 0 <= p < e2.len() implies exists|j: int|
                #[trigger] last_of_key(rows2, key, j) && key(rows2[j]) == (#[trigger] e2[p]).0.key_view() && rel(
                    e2[p].1,
                    rows2[j],
                ) by {
                if p == e.len() {
                    assert(rows2[n] == r);
                } else {
                    assert(e2[p] == e[p]);
                    let j = choose|j: int|
                        #[trigger] last_of_key(rows, key, j) && key(rows[j]) == e[p].0.key_view() && rel(e[p].1, rows[j]);
                    assert(rows2[j] == rows[j]);
                    assert(last_of_key(rows2, key, j));
                }
            }
            assert forall|j: int| 0 <= j < rows2.len() implies #[trigger] has_entry_key(e2, key(rows2[j])) by {
                if j < n {
                    assert(rows2[j] == rows[j]);
                    assert(has_entry_key(e, key(rows[j])));
                    let p = choose|p: int| 0 <= p < e.len() && #[trigger] e[p].0.key_view() == key(rows[j]);
                    assert(e2[p] == e[p]);
                    assert(0 <= p < e2.len() && e2[p].0.key_view() == key(rows2[j]));
                } else {
                    assert(rows2[j] == r);
                    assert(e2[e.len() as int] == (k, v));
                    assert(0 <= e.len() < e2.len() && e2[e.len() as int].0.key_view() == key(rows2[j]));
                }
            }
            assert(built_from(e2, rows2, key, rel));
        },
    }
}

/// What a lookup gives back after a store: the value just stored under its
/// key, and under any other key what was there before.
pub proof fn lemma_get_after_insert<K: MapKey, V>(e: Seq<(K, V)>, k: K, v: V, other: Seq<Seq<char>>)
    requires
        keys_unique(e),
    ensures
        keys_unique(inserted(e, k, v)),
        position_of(inserted(e, k, v), k.key_view()) matches Some(i) && inserted(e, k, v)[i].1 == v,
        other != k.key_view() ==> match (position_of(inserted(e, k, v), other), position_of(e, other)) {
            (Some(i), Some(j)) => inserted(e, k, v)[i] == e[j],
            (None, None) => true,
            _ => false,
        },
{
    let e2 = inserted(e, k, v);
    lemma_position_facts(e, k.key_view());
    lemma_position_facts(e, other);
    lemma_position_facts(e2, k.key_view());
    lemma_position_facts(e2, other);
    match position_of(e, k.key_view()) {
        Some(i) => {
            assert(e2 == e.update(i, (k, v)));
            assert forall|a: int, b: int|
                0 <= a < e2.len() && 0 <= b < e2.len() && a != b implies #[trigger] e2[a].0.key_view()
                != #[trigger] e2[b].0.key_view() by {
                assert(e[a].0.key_view() != e[b].0.key_view());
            }
            assert forall|x: int| 0 <= x < i implies #[trigger] e2[x].0.key_view() != k.key_view() by {
                lemma_position_of_first(e, k.key_view(), i, x);
                assert(e2[x] == e[x]);
            }
            lemma_position_of(e2, k.key_view(), i);
        },
        None => {
            assert(e2 == e.push((k, v)));
            assert forall|a: int, b: int|
                0 <= a < e2.len() && 0 <= b < e2.len() && a != b implies #[trigger] e2[a].0.key_view()
                != #[trigger] e2[b].0.key_view() by {
                if a < e.len() && b < e.len() {
                    assert(e[a].0.key_view() != e[b].0.key_view());
                } else if a < e.len() {
                    assert(e2[a] == e[a]);
                } else {
                    assert(e2[b] == e[b]);
                }
            }
            assert forall|j: int| 0 <= j < e.len() implies #[trigger] e2[j].0.key_view() != k.key_view() by {
                assert(e2[j] == e[j]);
            }
            lemma_position_of(e2, k.key_view(), e.len() as int);
        },
    }
    if other != k.key_view() {
        match position_of(e, other) {
            Some(j) => {
                assert(e2[j] == e[j]);
                assert forall|x: int| 0 <= x < j implies #[trigger] e2[x].0.key_view() != other by {
                    lemma_position_of_first(e, other, j, x);
                    if x < e.len() {
                        assert(e2[x].0.key_view() == e[x].0.key_view() || e2[x].0.key_view() == k.key_view());
                    }
                }
                lemma_position_of(e2, other, j);
            },
            None => {
                assert forall|x: int| 0 <= x < e2.len() implies #[trigger] e2[x].0.key_view() != other by {
                    if x < e.len() {
                        assert(e2[x].0.key_view() == e[x].0.key_view() || e2[x].0.key_view() == k.key_view());
                    }
                }
                lemma_position_of(e2, other, e2.len() as int);
            },
        }
    }
}

proof fn lemma_position_of_first<K: MapKey, V>(e: Seq<(K, V)>, k: Seq<Seq<char>>, j: int, x: int)
    requires
        position_of(e, k) == Some(j),
        0 <= x < j,
    ensures
        e[x].0.key_view() != k,
    decreases e.len(),
{
    lemma_position_facts(e, k);
    if e[0].0.key_view() != k && x > 0 {
        let t = e.drop_first();
        assert(position_of(t, k) == Some(j - 1));
        lemma_position_of_first(t, k, j - 1, x - 1);
        assert(e[x] == t[x - 1]);
    }
}

impl<K: MapKey, V> KeyMap<K, V> {
    /// The entries, in insertion order.
    pub closed spec fn entries(&self) -> Seq<(K, V)> {
        self.entries@
    }

    /// Whether no two entries share a key.
    pub open spec fn wf(&self) -> bool {
        keys_unique(self.entries())
    }

    /// An empty map.
    pub fn new() -> (m: Self)
        ensures
            m.entries() == Seq::<(K, V)>::empty(),
            m.wf(),
    {
        KeyMap { entries: Vec::new() }
    }

    /// The number of entries.
    pub fn len(&self) -> (n: usize)
        ensures
            n == self.entries().len(),
    {
        self.entries.len()
    }

    fn find(&self, key: &K) -> (r: Option<usize>)
        ensures
            match r {
                Some(i) => i < self.entries().len() && self.entries()[i as int].0.key_view()
                    == key.key_view(),
                None => forall|i: int|
                    0 <= i < self.entries().len() ==> #[trigger] self.entries()[i].0.key_view()
                        != key.key_view(),
            },
            match r {
                Some(i) => position_of(self.entries(), key.key_view()) == Some(i as int),
                None => position_of(self.entries(), key.key_view()) == None::<int>,
            },
    {
        for i in 0..self.entries.len()
            invariant
                forall|j: int| 0 <= j < i ==> #[trigger] self.entries@[j].0.key_view() != key.key_view(),
        {
            if self.entries[i].0.key_eq(key) {
                proof {
                    lemma_position_of(self.entries@, key.key_view(), i as int);
                }
                return Some(i);
            }
        }
        proof {
            lemma_position_of(self.entries@, key.key_view(), self.entries@.len() as int);
        }
        None
    }

    /// Stores `value` under `key`. An entry with an equal key keeps its
    /// position and gets the new key and value; its old value is returned.
    /// Otherwise the entry is appended and `None` is returned.
    pub fn insert(&mut self, key: K, value: V) -> (prev: Option<V>)
        ensures
            old(self).wf() ==> final(self).wf(),
            match position_of(old(self).entries(), key.key_view()) {
                Some(i) => {
                    &&& final(self).entries() == old(self).entries().update(i, (key, value))
                    &&& prev == Some(old(self).entries()[i].1)
                },
                None => {
                    &&& final(self).entries() == old(self).entries().push((key, value))
                    &&& prev == None::<V>
                },
            },
    {
        let ghost k = key.key_view();
        match self.find(&key) {
            Some(i) => {
                let (_, old_value) = self.entries.remove(i);
                self.entries.insert(i, (key, value));
                proof {
                    assert(self.entries@ =~= old(self).entries@.update(i as int, (key, value)));
                }
                Some(old_value)
            },
            None => {
                self.entries.push((key, value));
                None
            },
        }
    }

    /// The value stored under `key`, if any.
    pub fn get(&self, key: &K) -> (r: Option<&V>)
        ensures
            match position_of(self.entries(), key.key_view()) {
                Some(i) => r == Some(&self.entries()[i].1),
                None => r == None::<&V>,
            },
    {
        match self.find(key) {
            Some(i) => Some(&self.entries[i].1),
            None => None,
        }
    }

    /// References to the entries, in order.
    pub fn entry_refs(&self) -> (r: Vec<&(K, V)>)
        ensures
            r@.len() == self.entries().len(),
            forall|i: int| 0 <= i < r@.len() ==> *r@[i] == self.entries()[i],
    {
        let mut r: Vec<&(K, V)> = Vec::new();
        for i in 0..self.entries.len()
            invariant
                r@.len() == i,
                i <= self.entries@.len(),
                forall|j: int| 0 <= j < i ==> *r@[j] == self.entries@[j],
        {
            r.push(&self.entries[i]);
        }
        r
    }

    /// References to the values, in entry order.
    pub fn values(&self) -> (r: Vec<&V>)
        ensures
            r@.len() == self.entries().len(),
            forall|i: int| 0 <= i < r@.len() ==> r@[i] == &self.entries()[i].1,
    {
        let mut r: Vec<&V> = Vec::new();
        for i in 0..self.entries.len()
            invariant
                r@.len() == i,
                i <= self.entries@.len(),
                forall|j: int| 0 <= j < i ==> r@[j] == &self.entries@[j].1,
        {
            r.push(&self.entries[i].1);
        }
        r
    }
}

} // verus!
