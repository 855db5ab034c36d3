//! Keys of schema objects, their lexicographic order, and a stable sort by key.
use vstd::prelude::*;
use std::cmp::Ordering;
use itertools::Itertools;
use crate::text::chars_of;

verus! {

/// Lexicographic order on character sequences by code point, which is the
/// order `String` compares in.
pub open spec fn str_le(a: Seq<char>, b: Seq<char>) -> bool
    decreases a.len(),
{
    if a.len() == 0 {
        true
    } else if b.len() == 0 {
        false
    } else if a[0] == b[0] {
        str_le(a.drop_first(), b.drop_first())
    } else {
        (a[0] as int) < (b[0] as int)
    }
}

/// Lexicographic order on keys made of several strings, which is the order
/// tuples of strings compare in.
pub open spec fn key_le(a: Seq<Seq<char>>, b: Seq<Seq<char>>) -> bool
    decreases a.len(),
{
    if a.len() == 0 {
        true
    } else if b.len() == 0 {
        false
    } else if a[0] == b[0] {
        key_le(a.drop_first(), b.drop_first())
    } else {
        str_le(a[0], b[0])
    }
}

/// A value identified by a key made of strings, such as a name or a
/// (table, name) pair.
pub trait Keyed {
    spec fn key(&self) -> Seq<Seq<char>>;

    fn same_key(&self, other: &Self) -> (r: bool)
        ensures
            r == (self.key() == other.key()),
    ;

    fn key_before_eq(&self, other: &Self) -> (r: bool)
        ensures
            r == key_le(self.key(), other.key()),
    ;
}

/// One-string keys are equal exactly when the strings are.
pub proof fn lemma_single_key_eq(a: Seq<char>, b: Seq<char>)
    ensures
        (seq![a] == seq![b]) == (a == b),
{
    if seq![a] == seq![b] {
        assert(seq![a][0] == seq![b][0]);
    }
    if a == b {
        assert(seq![a] =~= seq![b]);
    }
}

/// Two-string keys are equal exactly when both parts are.
pub proof fn lemma_pair_key_eq(a0: Seq<char>, a1: Seq<char>, b0: Seq<char>, b1: Seq<char>)
    ensures
        (seq![a0, a1] == seq![b0, b1]) == (a0 == b0 && a1 == b1),
{
    if seq![a0, a1] == seq![b0, b1] {
        assert(seq![a0, a1][0] == seq![b0, b1][0]);
        assert(seq![a0, a1][1] == seq![b0, b1][1]);
    }
    if a0 == b0 && a1 == b1 {
        assert(seq![a0, a1] =~= seq![b0, b1]);
    }
}

/// Three-string keys are equal exactly when all parts are.
pub proof fn lemma_triple_key_eq(
    a0: Seq<char>,
    a1: Seq<char>,
    a2: Seq<char>,
    b0: Seq<char>,
    b1: Seq<char>,
    b2: Seq<char>,
)
    ensures
        (seq![a0, a1, a2] == seq![b0, b1, b2]) == (a0 == b0 && a1 == b1 && a2 == b2),
{
    if seq![a0, a1, a2] == seq![b0, b1, b2] {
        assert(seq![a0, a1, a2][0] == seq![b0, b1, b2][0]);
        assert(seq![a0, a1, a2][1] == seq![b0, b1, b2][1]);
        assert(seq![a0, a1, a2][2] == seq![b0, b1, b2][2]);
    }
    if a0 == b0 && a1 == b1 && a2 == b2 {
        assert(seq![a0, a1, a2] =~= seq![b0, b1, b2]);
    }
}

/// Whether `a` sorts before or equal to `b`.
pub fn string_le(a: &str, b: &str) -> (r: bool)
    ensures
        r == str_le(a@, b@),
{
    let x = chars_of(a);
    let y = chars_of(b);
    let mut i: usize = 0;
    assert(x@.skip(0) == x@);
    assert(y@.skip(0) == y@);
    while i < x.len() && i < y.len() && x[i] == y[i]
        invariant
            i <= x.len(),
            i <= y.len(),
            str_le(x@, y@) == str_le(x@.skip(i as int), y@.skip(i as int)),
        decreases x.len() - i,
    {
        assert(x@.skip(i as int).drop_first() == x@.skip(i + 1));
        assert(y@.skip(i as int).drop_first() == y@.skip(i + 1));
        i = i + 1;
    }
    if i == x.len() {
        assert(x@.skip(i as int).len() == 0);
        true
    } else if i == y.len() {
        assert(y@.skip(i as int).len() == 0);
        assert(x@.skip(i as int).len() > 0);
        false
    } else {
        let ghost xs = x@.skip(i as int);
        let ghost ys = y@.skip(i as int);
        assert(xs[0] == x@[i as int]);
        assert(ys[0] == y@[i as int]);
        assert(xs[0] != ys[0]);
        assert(str_le(xs, ys) == ((xs[0] as int) < (ys[0] as int)));
        x[i] < y[i]
    }
}

/// Every string sorts before or equal to itself.
pub proof fn lemma_str_le_refl(a: Seq<char>)
    ensures
        str_le(a, a),
    decreases a.len(),
{
    if a.len() > 0 {
        lemma_str_le_refl(a.drop_first());
    }
}

/// Whether the one-string key `[a]` sorts before or equal to `[b]`.
pub fn single_le(a: &str, b: &str) -> (r: bool)
    ensures
        r == key_le(seq![a@], seq![b@]),
{
    proof {
        assert(seq![a@].drop_first() =~= Seq::<Seq<char>>::empty());
        assert(seq![b@].drop_first() =~= Seq::<Seq<char>>::empty());
        lemma_str_le_refl(a@);
        reveal_with_fuel(key_le, 2);
    }
    string_le(a, b)
}

/// Whether the key `[a0, a1]` sorts before or equal to `[b0, b1]`.
pub fn pair_le(a0: &str, a1: &str, b0: &str, b1: &str) -> (r: bool)
    ensures
        r == key_le(seq![a0@, a1@], seq![b0@, b1@]),
{
    let ghost ka = seq![a0@, a1@];
    let ghost kb = seq![b0@, b1@];
    proof {
        assert(ka.drop_first() =~= seq![a1@]);
        assert(kb.drop_first() =~= seq![b1@]);
        assert(seq![a1@].drop_first() =~= Seq::<Seq<char>>::empty());
        assert(seq![b1@].drop_first() =~= Seq::<Seq<char>>::empty());
        reveal_with_fuel(key_le, 3);
    }
    if crate::text::str_eq(a0, b0) {
        if crate::text::str_eq(a1, b1) {
            true
        } else {
            string_le(a1, b1)
        }
    } else {
        string_le(a0, b0)
    }
}

/// Whether the key `[a0, a1, a2]` sorts before or equal to `[b0, b1, b2]`.
pub fn triple_le(a0: &str, a1: &str, a2: &str, b0: &str, b1: &str, b2: &str) -> (r: bool)
    ensures
        r == key_le(seq![a0@, a1@, a2@], seq![b0@, b1@, b2@]),
{
    let ghost ka = seq![a0@, a1@, a2@];
    let ghost kb = seq![b0@, b1@, b2@];
    assert(ka.drop_first() =~= seq![a1@, a2@]);
    assert(kb.drop_first() =~= seq![b1@, b2@]);
    assert(ka[0] == a0@ && kb[0] == b0@);
    if crate::text::str_eq(a0, b0) {
        pair_le(a1, a2, b1, b2)
    } else {
        string_le(a0, b0)
    }
}

/// `x` placed into `s` after every element whose key is before or equal to
/// its own, scanning from the back: the step of a stable insertion sort.
pub open spec fn insert_by_key<'a, T: Keyed>(s: Seq<&'a T>, x: &'a T) -> Seq<&'a T>
    decreases s.len(),
{
    if s.len() == 0 {
        seq![x]
    } else if key_le(s.last().key(), x.key()) {
        s.push(x)
    } else {
        insert_by_key(s.drop_last(), x).push(s.last())
    }
}

/// `s` sorted by key; elements with equal keys keep their relative order.
pub open spec fn sort_by_key<'a, T: Keyed>(s: Seq<&'a T>) -> Seq<&'a T>
    decreases s.len(),
{
    if s.len() == 0 {
        Seq::empty()
    } else {
        insert_by_key(sort_by_key(s.drop_last()), s.last())
    }
}

/// The elements of `s` with key `k`, in order.
pub open spec fn with_key_of<'a, T: Keyed>(s: Seq<&'a T>, k: Seq<Seq<char>>) -> Seq<&'a T>
    decreases s.len(),
{
    if s.len() == 0 {
        Seq::empty()
    } else if s.last().key() == k {
        with_key_of(s.drop_last(), k).push(s.last())
    } else {
        with_key_of(s.drop_last(), k)
    }
}

/// Whether `r` is `s` sorted stably by key: its keys never decrease, and
/// for every key the elements with that key come in the order they have in
/// `s`.
pub open spec fn stably_sorted<'a, T: Keyed>(r: Seq<&'a T>, s: Seq<&'a T>) -> bool {
    &&& sorted_by(r)
    &&& forall|k: Seq<Seq<char>>| #[trigger] with_key_of(r, k) == with_key_of(s, k)
}

/// Every key is before or equal to itself.
pub proof fn lemma_key_le_refl(a: Seq<Seq<char>>)
    ensures
        key_le(a, a),
    decreases a.len(),
{
    if a.len() > 0 {
        lemma_key_le_refl(a.drop_first());
    }
}

proof fn lemma_insert_with_key<'a, T: Keyed>(t: Seq<&'a T>, x: &'a T, k: Seq<Seq<char>>)
    ensures
        with_key_of(insert_by_key(t, x), k) == if x.key() == k {
            with_key_of(t, k).push(x)
        } else {
            with_key_of(t, k)
        },
    decreases t.len(),
{
    let w = with_key_of(t, k);
    if t.len() == 0 {
        let one = seq![x];
        assert(one.drop_last() =~= Seq::<&'a T>::empty());
        assert(insert_by_key(t, x) == one);
        assert(w == Seq::<&'a T>::empty());
        if x.key() == k {
            assert(with_key_of(one, k) == with_key_of(one.drop_last(), k).push(x));
            assert(with_key_of(one, k) =~= w.push(x));
        } else {
            assert(with_key_of(one, k) == with_key_of(one.drop_last(), k));
            assert(with_key_of(one, k) =~= w);
        }
    } else if key_le(t.last().key(), x.key()) {
        let tx = t.push(x);
        assert(tx.drop_last() =~= t);
        assert(insert_by_key(t, x) == tx);
        if x.key() == k {
            assert(with_key_of(tx, k) == w.push(x));
        } else {
            assert(with_key_of(tx, k) == w);
        }
    } else {
        lemma_key_le_refl(x.key());
        let l = t.last();
        let t1 = t.drop_last();
        let w1 = with_key_of(t1, k);
        assert(l.key() != x.key());
        lemma_insert_with_key(t1, x, k);
        let u = insert_by_key(t1, x);
        assert(insert_by_key(t, x) == u.push(l));
        assert(u.push(l).drop_last() =~= u);
        assert(u.push(l).last() == l);
        if l.key() == k {
            assert(w == w1.push(l));
            assert(with_key_of(u, k) == w1);
            assert(with_key_of(u.push(l), k) == with_key_of(u, k).push(l));
        } else if x.key() == k {
            assert(w == w1);
            assert(with_key_of(u, k) == w1.push(x));
            assert(with_key_of(u.push(l), k) == with_key_of(u, k));
        } else {
            assert(w == w1);
            assert(with_key_of(u, k) == w1);
            assert(with_key_of(u.push(l), k) == with_key_of(u, k));
        }
    }
}

/// Sorting by key is stable: it orders the keys, and the elements with
/// each key keep the order they have in `s`.
pub proof fn lemma_sort_by_key_stable<'a, T: Keyed>(s: Seq<&'a T>)
    ensures
        stably_sorted(sort_by_key(s), s),
    decreases s.len(),
{
    lemma_sort_by_key_sorted(s);
    if s.len() > 0 {
        lemma_sort_by_key_stable(s.drop_last());
        assert forall|k: Seq<Seq<char>>| #[trigger] with_key_of(sort_by_key(s), k) == with_key_of(s, k) by {
            lemma_insert_with_key(sort_by_key(s.drop_last()), s.last(), k);
            assert(with_key_of(sort_by_key(s.drop_last()), k) == with_key_of(s.drop_last(), k));
        }
    }
}

proof fn lemma_with_key_of_member<'a, T: Keyed>(s: Seq<&'a T>, k: Seq<Seq<char>>)
    requires
        with_key_of(s, k).len() > 0,
    ensures
        exists|i: int| 0 <= i < s.len() && #[trigger] s[i].key() == k,
    decreases s.len(),
{
    if s.last().key() != k {
        lemma_with_key_of_member(s.drop_last(), k);
        let i = choose|i: int| 0 <= i < s.drop_last().len() && #[trigger] s.drop_last()[i].key() == k;
        assert(s[i] == s.drop_last()[i]);
    } else {
        assert(s[s.len() - 1].key() == k);
    }
}

proof fn lemma_sorted_le_last<'a, T: Keyed>(s: Seq<&'a T>, k: Seq<Seq<char>>)
    requires
        sorted_by(s),
        with_key_of(s, k).len() > 0,
    ensures
        s.len() > 0,
        key_le(k, s.last().key()),
{
    lemma_with_key_of_member(s, k);
    let i = choose|i: int| 0 <= i < s.len() && #[trigger] s[i].key() == k;
    if i < s.len() - 1 {
        assert(key_le(s[i].key(), s[s.len() - 1].key()));
    } else {
        lemma_key_le_refl(k);
    }
}

/// Two sequences sorted by key whose elements with each key come in the
/// same order are equal: a stable sort has one result.
pub proof fn lemma_stably_sorted_unique<'a, T: Keyed>(r1: Seq<&'a T>, r2: Seq<&'a T>)
    requires
        sorted_by(r1),
        sorted_by(r2),
        forall|k: Seq<Seq<char>>| #[trigger] with_key_of(r1, k) == with_key_of(r2, k),
    ensures
        r1 == r2,
    decreases r1.len() + r2.len(),
{
    if r1.len() == 0 && r2.len() == 0 {
        assert(r1 =~= r2);
    } else if r1.len() == 0 {
        assert(with_key_of(r2, r2.last().key()).len() > 0);
        assert(with_key_of(r1, r2.last().key()).len() == 0);
    } else if r2.len() == 0 {
        assert(with_key_of(r1, r1.last().key()).len() > 0);
        assert(with_key_of(r2, r1.last().key()).len() == 0);
    } else {
        let x1 = r1.last();
        let x2 = r2.last();
        let k1 = x1.key();
        let k2 = x2.key();
        assert(with_key_of(r1, k1) == with_key_of(r1.drop_last(), k1).push(x1));
        assert(with_key_of(r2, k2) == with_key_of(r2.drop_last(), k2).push(x2));
        assert(with_key_of(r1, k1) == with_key_of(r2, k1));
        assert(with_key_of(r1, k2) == with_key_of(r2, k2));
        lemma_sorted_le_last(r2, k1);
        lemma_sorted_le_last(r1, k2);
        lemma_key_le_antisym(k1, k2);
        assert(x1 == with_key_of(r1, k1).last());
        assert(x2 == with_key_of(r2, k2).last());
        let d1 = r1.drop_last();
        let d2 = r2.drop_last();
        assert forall|i: int, j: int| 0 <= i < j < d1.len() implies key_le(#[trigger] d1[i].key(), #[trigger] d1[j].key()) by {
            assert(d1[i] == r1[i] && d1[j] == r1[j]);
        }
        assert forall|i: int, j: int| 0 <= i < j < d2.len() implies key_le(#[trigger] d2[i].key(), #[trigger] d2[j].key()) by {
            assert(d2[i] == r2[i] && d2[j] == r2[j]);
        }
        assert forall|k: Seq<Seq<char>>| #[trigger] with_key_of(d1, k) == with_key_of(d2, k) by {
            assert(with_key_of(r1, k) == with_key_of(r2, k));
            if k == k1 {
                assert(with_key_of(d1, k) == with_key_of(r1, k).drop_last());
                assert(with_key_of(d2, k) == with_key_of(r2, k).drop_last());
            }
        }
        lemma_stably_sorted_unique(d1, d2);
        assert(r1 =~= d1.push(x1));
        assert(r2 =~= d2.push(x2));
    }
}

/// The order of two keyed values: `Less` when the first key comes strictly
/// before the second, `Equal` when they are equal, `Greater` otherwise.
fn key_order<T: Keyed>(a: &T, b: &T) -> (r: Ordering)
    ensures
        (r == Ordering::Less) == (key_le(a.key(), b.key()) && a.key() != b.key()),
        (r == Ordering::Equal) == (a.key() == b.key()),
        (r == Ordering::Greater) == !key_le(a.key(), b.key()),
{
    proof {
        lemma_key_le_refl(a.key());
    }
    if a.key_before_eq(b) {
        if b.key_before_eq(a) {
            proof {
                lemma_key_le_antisym(a.key(), b.key());
            }
            Ordering::Equal
        } else {
            Ordering::Less
        }
    } else {
        Ordering::Greater
    }
}

/// `Itertools::sorted_by` with `key_order` as the comparison. It collects
/// the items into a `Vec` and calls `slice::sort_by`, which std documents
/// as a stable sort by the comparison; `key_order` is a total order, so the
/// keys of the result never decrease and items with equal keys keep their
/// order.
#[verifier::external_body]
fn sort_stably<'a, T: Keyed>(v: Vec<&'a T>) -> (r: Vec<&'a T>)
    ensures
        stably_sorted(r@, v@),
{
    v.into_iter().sorted_by(|a, b| key_order::<T>(a, b)).collect()
}

/// `v` sorted stably by key.
pub fn sorted_by_key<'a, T: Keyed>(v: Vec<&'a T>) -> (r: Vec<&'a T>)
    ensures
        r@ == sort_by_key(v@),
        stably_sorted(r@, v@),
{
    let ghost s = v@;
    let r = sort_stably(v);
    proof {
        lemma_sort_by_key_stable(s);
        assert forall|k: Seq<Seq<char>>| #[trigger] with_key_of(r@, k) == with_key_of(sort_by_key(s), k) by {
            assert(with_key_of(r@, k) == with_key_of(s, k));
            assert(with_key_of(sort_by_key(s), k) == with_key_of(s, k));
        }
        lemma_stably_sorted_unique(r@, sort_by_key(s));
    }
    r
}

/// Any two strings are ordered one way or the other.
pub proof fn lemma_str_le_total(a: Seq<char>, b: Seq<char>)
    ensures
        str_le(a, b) || str_le(b, a),
    decreases a.len(),
{
    if a.len() > 0 && b.len() > 0 && a[0] == b[0] {
        lemma_str_le_total(a.drop_first(), b.drop_first());
    }
}

/// The string order is transitive.
pub proof fn lemma_str_le_trans(a: Seq<char>, b: Seq<char>, c: Seq<char>)
    requires
        str_le(a, b),
        str_le(b, c),
    ensures
        str_le(a, c),
    decreases a.len(),
{
    if a.len() > 0 && b.len() > 0 && c.len() > 0 && a[0] == b[0] && b[0] == c[0] {
        lemma_str_le_trans(a.drop_first(), b.drop_first(), c.drop_first());
    }
}

/// Strings ordered both ways are equal.
pub proof fn lemma_str_le_antisym(a: Seq<char>, b: Seq<char>)
    requires
        str_le(a, b),
        str_le(b, a),
    ensures
        a == b,
    decreases a.len(),
{
    if a.len() > 0 {
        lemma_str_le_antisym(a.drop_first(), b.drop_first());
        assert(a =~= seq![a[0]] + a.drop_first());
        assert(b =~= seq![b[0]] + b.drop_first());
    } else {
        assert(b.len() == 0);
        assert(a =~= b);
    }
}

/// Any two keys are ordered one way or the other.
pub proof fn lemma_key_le_total(a: Seq<Seq<char>>, b: Seq<Seq<char>>)
    ensures
        key_le(a, b) || key_le(b, a),
    decreases a.len(),
{
    if a.len() > 0 && b.len() > 0 {
        if a[0] == b[0] {
            lemma_key_le_total(a.drop_first(), b.drop_first());
        } else {
            lemma_str_le_total(a[0], b[0]);
        }
    }
}

/// The key order is transitive.
pub proof fn lemma_key_le_trans(a: Seq<Seq<char>>, b: Seq<Seq<char>>, c: Seq<Seq<char>>)
    requires
        key_le(a, b),
        key_le(b, c),
    ensures
        key_le(a, c),
    decreases a.len(),
{
    if a.len() > 0 && b.len() > 0 && c.len() > 0 {
        if a[0] == b[0] && b[0] == c[0] {
            lemma_key_le_trans(a.drop_first(), b.drop_first(), c.drop_first());
        } else if a[0] == b[0] {
        } else if b[0] == c[0] {
        } else {
            lemma_str_le_trans(a[0], b[0], c[0]);
            if a[0] == c[0] {
                lemma_str_le_antisym(a[0], b[0]);
            }
        }
    }
}

/// Keys ordered both ways are equal.
pub proof fn lemma_key_le_antisym(a: Seq<Seq<char>>, b: Seq<Seq<char>>)
    requires
        key_le(a, b),
        key_le(b, a),
    ensures
        a == b,
    decreases a.len(),
{
    if a.len() > 0 {
        if a[0] == b[0] {
            lemma_key_le_antisym(a.drop_first(), b.drop_first());
            assert(a =~= seq![a[0]] + a.drop_first());
            assert(b =~= seq![b[0]] + b.drop_first());
        } else {
            lemma_str_le_antisym(a[0], b[0]);
        }
    } else {
        assert(b.len() == 0);
        assert(a =~= b);
    }
}

/// Whether the keys of `s` never decrease.
pub open spec fn sorted_by<'a, T: Keyed>(s: Seq<&'a T>) -> bool {
    forall|i: int, j: int| 0 <= i < j < s.len() ==> key_le(#[trigger] s[i].key(), #[trigger] s[j].key())
}

proof fn lemma_insert_by_key_multiset<'a, T: Keyed>(s: Seq<&'a T>, x: &'a T)
    ensures
        insert_by_key(s, x).to_multiset() == s.to_multiset().insert(x),
    decreases s.len(),
{
    broadcast use vstd::seq_lib::group_seq_properties;
    if s.len() == 0 {
        assert(seq![x] =~= Seq::<&'a T>::empty().push(x));
    } else if key_le(s.last().key(), x.key()) {
    } else {
        lemma_insert_by_key_multiset(s.drop_last(), x);
        assert(s =~= s.drop_last().push(s.last()));
        assert(s.to_multiset() == s.drop_last().to_multiset().insert(s.last()));
    }
}

proof fn lemma_insert_by_key_sorted<'a, T: Keyed>(s: Seq<&'a T>, x: &'a T)
    requires
        sorted_by(s),
    ensures
        sorted_by(insert_by_key(s, x)),
    decreases s.len(),
{
    broadcast use vstd::seq_lib::group_seq_properties;
    let r = insert_by_key(s, x);
    if s.len() == 0 {
    } else if key_le(s.last().key(), x.key()) {
        assert forall|i: int, j: int| 0 <= i < j < r.len() implies key_le(#[trigger] r[i].key(), #[trigger] r[j].key()) by {
            if j == s.len() {
                if i < s.len() - 1 {
                    lemma_key_le_trans(s[i].key(), s.last().key(), x.key());
                }
            }
        }
    } else {
        let d = s.drop_last();
        let l = s.last();
        assert(sorted_by(d)) by {
            assert forall|i: int, j: int| 0 <= i < j < d.len() implies key_le(#[trigger] d[i].key(), #[trigger] d[j].key()) by {
                assert(d[i] == s[i] && d[j] == s[j]);
            }
        }
        lemma_insert_by_key_sorted(d, x);
        lemma_insert_by_key_multiset(d, x);
        let t = insert_by_key(d, x);
        lemma_key_le_total(l.key(), x.key());
        assert forall|k: int| 0 <= k < t.len() implies key_le(#[trigger] t[k].key(), l.key()) by {
            assert(t.to_multiset().contains(t[k]));
            assert(d.to_multiset().insert(x).contains(t[k]));
            if t[k] != x {
                assert(d.to_multiset().contains(t[k]));
                assert(d.contains(t[k]));
                let m = choose|m: int| 0 <= m < d.len() && d[m] == t[k];
                assert(s[m] == d[m]);
                assert(key_le(s[m].key(), s[s.len() - 1].key()));
            }
        }
        assert forall|i: int, j: int| 0 <= i < j < r.len() implies key_le(#[trigger] r[i].key(), #[trigger] r[j].key()) by {
            if j == t.len() {
                assert(r[i] == t[i]);
            } else {
                assert(r[i] == t[i] && r[j] == t[j]);
            }
        }
    }
}

/// Sorting by key orders the keys and keeps exactly the same elements.
pub proof fn lemma_sort_by_key_sorted<'a, T: Keyed>(s: Seq<&'a T>)
    ensures
        sorted_by(sort_by_key(s)),
        sort_by_key(s).to_multiset() == s.to_multiset(),
    decreases s.len(),
{
    broadcast use vstd::seq_lib::group_seq_properties;
    if s.len() > 0 {
        lemma_sort_by_key_sorted(s.drop_last());
        lemma_insert_by_key_sorted(sort_by_key(s.drop_last()), s.last());
        lemma_insert_by_key_multiset(sort_by_key(s.drop_last()), s.last());
        assert(s =~= s.drop_last().push(s.last()));
    } else {
        assert(sort_by_key(s) =~= s);
    }
}

/// Whether no two elements of `s` share a key.
pub open spec fn distinct_keys<'a, T: Keyed>(s: Seq<&'a T>) -> bool {
    forall|i: int, j: int| 0 <= i < s.len() && 0 <= j < s.len() && i != j ==> #[trigger] s[i].key() != #[trigger] s[j].key()
}

proof fn lemma_insert_by_key_distinct<'a, T: Keyed>(s: Seq<&'a T>, x: &'a T)
    requires
        distinct_keys(s),
        forall|i: int| 0 <= i < s.len() ==> #[trigger] s[i].key() != x.key(),
    ensures
        distinct_keys(insert_by_key(s, x)),
    decreases s.len(),
{
    broadcast use vstd::seq_lib::group_seq_properties;
    let r = insert_by_key(s, x);
    if s.len() == 0 {
    } else if key_le(s.last().key(), x.key()) {
        assert forall|i: int, j: int| 0 <= i < r.len() && 0 <= j < r.len() && i != j implies #[trigger] r[i].key() != #[trigger] r[j].key() by {
            if i < s.len() && j < s.len() {
                assert(r[i] == s[i] && r[j] == s[j]);
            }
        }
    } else {
        let d = s.drop_last();
        let l = s.last();
        assert(distinct_keys(d)) by {
            assert forall|i: int, j: int| 0 <= i < d.len() && 0 <= j < d.len() && i != j implies #[trigger] d[i].key() != #[trigger] d[j].key() by {
                assert(d[i] == s[i] && d[j] == s[j]);
            }
        }
        assert forall|i: int| 0 <= i < d.len() implies #[trigger] d[i].key() != x.key() by {
            assert(d[i] == s[i]);
        }
        lemma_insert_by_key_distinct(d, x);
        lemma_insert_by_key_multiset(d, x);
        let t = insert_by_key(d, x);
        assert forall|k: int| 0 <= k < t.len() implies #[trigger] t[k].key() != l.key() by {
            assert(t.to_multiset().contains(t[k]));
            assert(d.to_multiset().insert(x).contains(t[k]));
            if t[k] != x {
                assert(d.to_multiset().contains(t[k]));
                assert(d.contains(t[k]));
                let m = choose|m: int| 0 <= m < d.len() && d[m] == t[k];
                assert(s[m] == d[m]);
                assert(s[m].key() != s[s.len() - 1].key());
            } else {
                assert(s[s.len() - 1].key() != x.key());
            }
        }
        assert forall|i: int, j: int| 0 <= i < r.len() && 0 <= j < r.len() && i != j implies #[trigger] r[i].key() != #[trigger] r[j].key() by {
            if i < t.len() && j < t.len() {
                assert(r[i] == t[i] && r[j] == t[j]);
            } else if i < t.len() {
                assert(r[i] == t[i]);
            } else {
                assert(r[j] == t[j]);
            }
        }
    }
}

/// Sorting keeps keys distinct.
pub proof fn lemma_sort_by_key_distinct<'a, T: Keyed>(s: Seq<&'a T>)
    requires
        distinct_keys(s),
    ensures
        distinct_keys(sort_by_key(s)),
    decreases s.len(),
{
    broadcast use vstd::seq_lib::group_seq_properties;
    if s.len() > 0 {
        let d = s.drop_last();
        assert(distinct_keys(d)) by {
            assert forall|i: int, j: int| 0 <= i < d.len() && 0 <= j < d.len() && i != j implies #[trigger] d[i].key() != #[trigger] d[j].key() by {
                assert(d[i] == s[i] && d[j] == s[j]);
            }
        }
        lemma_sort_by_key_distinct(d);
        lemma_sort_by_key_sorted(d);
        let t = sort_by_key(d);
        assert forall|k: int| 0 <= k < t.len() implies #[trigger] t[k].key() != s.last().key() by {
            assert(t.to_multiset().contains(t[k]));
            assert(d.to_multiset().contains(t[k]));
            assert(d.contains(t[k]));
            let m = choose|m: int| 0 <= m < d.len() && d[m] == t[k];
            assert(s[m] == d[m]);
            assert(s[m].key() != s[s.len() - 1].key());
        }
        lemma_insert_by_key_distinct(t, s.last());
    }
}

} // verus!
