//! Matching two collections of keyed objects, and the kinds of change a
//! generated SQL statement makes.
use vstd::prelude::*;
use crate::order::Keyed;
use crate::models::constraint::{ConstraintType, constraint_type_rank};

verus! {

/// The result of matching collection `a` against collection `b` by key.
#[derive(Debug, PartialEq, Eq)]
pub struct Diff<'a, T: Eq> {
    /// Objects of `a` whose key no object of `b` has.
    pub a_only: Vec<&'a T>,
    /// Objects of `a` and `b` that share a key.
    pub a_and_b: Vec<(&'a T, &'a T)>,
    /// Objects of `b` that were not matched to an object of `a`.
    pub b_only: Vec<&'a T>,
}

/// Whether some element of `s` has key `k`.
pub open spec fn has_key<'a, T: Keyed>(s: Seq<&'a T>, k: Seq<Seq<char>>) -> bool {
    exists|i: int| 0 <= i < s.len() && #[trigger] s[i].key() == k
}

/// The last element of `s` with key `k`.
pub open spec fn last_with_key<'a, T: Keyed>(s: Seq<&'a T>, k: Seq<Seq<char>>) -> &'a T
    decreases s.len(),
{
    if s.len() == 0 {
        arbitrary()
    } else if s.last().key() == k {
        s.last()
    } else {
        last_with_key(s.drop_last(), k)
    }
}

/// The elements of `a`, in order, whose key no element of `b` has.
pub open spec fn only_in_a<'a, T: Keyed>(a: Seq<&'a T>, b: Seq<&'a T>) -> Seq<&'a T>
    decreases a.len(),
{
    if a.len() == 0 {
        Seq::empty()
    } else if has_key(b, a.last().key()) {
        only_in_a(a.drop_last(), b)
    } else {
        only_in_a(a.drop_last(), b).push(a.last())
    }
}

/// Whether `b`'s last element is matched: its key occurs in `a` and in no
/// earlier element of `b`.
pub open spec fn last_matched<'a, T: Keyed>(a: Seq<&'a T>, b: Seq<&'a T>) -> bool {
    has_key(a, b.last().key()) && !has_key(b.drop_last(), b.last().key())
}

/// The matched pairs, in `b`'s order: each element of `b` whose key occurs in
/// `a` and not earlier in `b`, with the last element of `a` with that key.
pub open spec fn matched_pairs<'a, T: Keyed>(a: Seq<&'a T>, b: Seq<&'a T>) -> Seq<(&'a T, &'a T)>
    decreases b.len(),
{
    if b.len() == 0 {
        Seq::empty()
    } else if last_matched(a, b) {
        matched_pairs(a, b.drop_last()).push((last_with_key(a, b.last().key()), b.last()))
    } else {
        matched_pairs(a, b.drop_last())
    }
}

/// The elements of `b`, in order, that are not matched.
pub open spec fn unmatched_b<'a, T: Keyed>(a: Seq<&'a T>, b: Seq<&'a T>) -> Seq<&'a T>
    decreases b.len(),
{
    if b.len() == 0 {
        Seq::empty()
    } else if last_matched(a, b) {
        unmatched_b(a, b.drop_last())
    } else {
        unmatched_b(a, b.drop_last()).push(b.last())
    }
}

/// Whether `d` is the matching of `a` against `b`.
pub open spec fn is_diff_of<'a, T: Keyed + Eq>(d: Diff<'a, T>, a: Seq<&'a T>, b: Seq<&'a T>) -> bool {
    &&& d.a_only@ == only_in_a(a, b)
    &&& d.a_and_b@ == matched_pairs(a, b)
    &&& d.b_only@ == unmatched_b(a, b)
}

/// Whether some element of `s` among the first `n` has the key of `x`.
fn key_in_prefix<'a, T: Keyed>(s: &Vec<&'a T>, n: usize, x: &T) -> (r: bool)
    requires
        n <= s.len(),
    ensures
        r == has_key(s@.take(n as int), x.key()),
{
    let ghost k = x.key();
    for i in 0..n
        invariant
            n <= s.len(),
            k == x.key(),
            !has_key(s@.take(i as int), k),
    {
        if s[i].same_key(x) {
            assert(s@.take(n as int)[i as int] == s@[i as int]);
            return true;
        }
        assert forall|j: int| 0 <= j < i + 1 implies #[trigger] s@.take(i + 1)[j].key() != k by {
            if j < i {
                assert(s@.take(i + 1)[j] == s@.take(i as int)[j]);
            }
        }
    }
    false
}

proof fn lemma_last_with_key<'a, T: Keyed>(s: Seq<&'a T>, k: Seq<Seq<char>>, i: int)
    requires
        0 <= i < s.len(),
        s[i].key() == k,
        forall|j: int| i < j < s.len() ==> #[trigger] s[j].key() != k,
    ensures
        last_with_key(s, k) == s[i],
    decreases s.len(),
{
    if i < s.len() - 1 {
        let d = s.drop_last();
        assert forall|j: int| i < j < d.len() implies #[trigger] d[j].key() != k by {
            assert(d[j] == s[j]);
        }
        lemma_last_with_key(d, k, i);
    }
}

/// The position of the last element of `s` with the key of `x`, if any.
fn find_last<'a, T: Keyed>(s: &Vec<&'a T>, x: &T) -> (r: Option<usize>)
    ensures
        match r {
            Some(i) => i < s.len() && s@[i as int].key() == x.key() && last_with_key(s@, x.key())
                == s@[i as int] && has_key(s@, x.key()),
            None => !has_key(s@, x.key()),
        },
{
    let mut i = s.len();
    while i > 0
        invariant
            i <= s.len(),
            forall|j: int| i <= j < s.len() ==> #[trigger] s@[j].key() != x.key(),
        decreases i,
    {
        if s[i - 1].same_key(x) {
            proof {
                lemma_last_with_key(s@, x.key(), i - 1);
            }
            return Some(i - 1);
        }
        i = i - 1;
    }
    None
}

/// Matches `a` against `b` by key.
///
/// Pairs each object of `b` with the last object of `a` that has its key,
/// unless an earlier object of `b` already took that key; keeps the objects
/// of `a` whose key `b` lacks, and the objects of `b` left unpaired.
pub fn diff<'a, T: Keyed + Eq>(a: Vec<&'a T>, b: Vec<&'a T>) -> (d: Diff<'a, T>)
    ensures
        is_diff_of(d, a@, b@),
{
    let mut a_and_b: Vec<(&'a T, &'a T)> = Vec::new();
    let mut b_only: Vec<&'a T> = Vec::new();
    for j in 0..b.len()
        invariant
            a_and_b@ == matched_pairs(a@, b@.take(j as int)),
            b_only@ == unmatched_b(a@, b@.take(j as int)),
    {
        let x = b[j];
        let seen = key_in_prefix(&b, j, x);
        let ghost bj = b@.take(j + 1);
        proof {
            assert(bj.drop_last() == b@.take(j as int));
            assert(bj.last() == x);
        }
        if seen {
            b_only.push(x);
        } else {
            match find_last(&a, x) {
                Some(i) => {
                    a_and_b.push((a[i], x));
                },
                None => {
                    b_only.push(x);
                },
            }
        }
    }
    let mut a_only: Vec<&'a T> = Vec::new();
    for i in 0..a.len()
        invariant
            a_only@ == only_in_a(a@.take(i as int), b@),
    {
        let x = a[i];
        assert(a@.take(i + 1).drop_last() == a@.take(i as int));
        match find_last(&b, x) {
            Some(_) => {},
            None => {
                a_only.push(x);
            },
        }
    }
    assert(a@.take(a.len() as int) == a@);
    assert(b@.take(b.len() as int) == b@);
    Diff { a_only, a_and_b, b_only }
}

/// Matched objects share their key; no object kept only in `a` has its key
/// in `b`; and every object of `b` is either matched or kept only in `b`.
pub proof fn lemma_diff_partition<'a, T: Keyed>(a: Seq<&'a T>, b: Seq<&'a T>)
    ensures
        forall|i: int|
            0 <= i < matched_pairs(a, b).len() ==> (#[trigger] matched_pairs(a, b)[i]).0.key()
                == matched_pairs(a, b)[i].1.key(),
        forall|i: int| 0 <= i < only_in_a(a, b).len() ==> !has_key(b, (#[trigger] only_in_a(a, b)[i]).key()),
        matched_pairs(a, b).len() + unmatched_b(a, b).len() == b.len(),
    decreases a.len() + b.len(),
{
    if b.len() > 0 {
        lemma_diff_partition(a, b.drop_last());
        if last_matched(a, b) {
            let k = b.last().key();
            let i = choose|i: int| 0 <= i < a.len() && #[trigger] a[i].key() == k;
            lemma_last_with_key_found(a, k);
        }
    }
    if a.len() > 0 {
        lemma_only_in_a(a, b);
    }
}

proof fn lemma_last_with_key_found<'a, T: Keyed>(s: Seq<&'a T>, k: Seq<Seq<char>>)
    requires
        has_key(s, k),
    ensures
        last_with_key(s, k).key() == k,
    decreases s.len(),
{
    if s.last().key() != k {
        let i = choose|i: int| 0 <= i < s.len() && #[trigger] s[i].key() == k;
        assert(s.drop_last()[i] == s[i]);
        lemma_last_with_key_found(s.drop_last(), k);
    }
}

proof fn lemma_only_in_a<'a, T: Keyed>(a: Seq<&'a T>, b: Seq<&'a T>)
    ensures
        forall|i: int| 0 <= i < only_in_a(a, b).len() ==> !has_key(b, (#[trigger] only_in_a(a, b)[i]).key()),
    decreases a.len(),
{
    if a.len() > 0 {
        lemma_only_in_a(a.drop_last(), b);
        let p = only_in_a(a.drop_last(), b);
        if !has_key(b, a.last().key()) {
            assert forall|i: int| 0 <= i < only_in_a(a, b).len() implies !has_key(b, (#[trigger] only_in_a(a, b)[i]).key()) by {
                if i < p.len() {
                    assert(only_in_a(a, b)[i] == p[i]);
                }
            }
        }
    }
}

/// Matching a collection whose keys are distinct against itself pairs every
/// object with itself, in order, and leaves nothing unmatched.
pub proof fn lemma_diff_self<'a, T: Keyed>(s: Seq<&'a T>)
    requires
        crate::order::distinct_keys(s),
    ensures
        only_in_a(s, s) == Seq::<&'a T>::empty(),
        unmatched_b(s, s) == Seq::<&'a T>::empty(),
        matched_pairs(s, s) == s.map_values(|x: &'a T| (x, x)),
{
    lemma_self_prefix(s, s.len() as int);
    assert(s.take(s.len() as int) == s);
    lemma_only_in_a_self(s, s);
}

proof fn lemma_only_in_a_self<'a, T: Keyed>(a: Seq<&'a T>, s: Seq<&'a T>)
    requires
        forall|i: int| 0 <= i < a.len() ==> has_key(s, #[trigger] a[i].key()),
    ensures
        only_in_a(a, s) == Seq::<&'a T>::empty(),
    decreases a.len(),
{
    if a.len() > 0 {
        assert(has_key(s, a[a.len() - 1].key()));
        assert forall|i: int| 0 <= i < a.drop_last().len() implies has_key(s, #[trigger] a.drop_last()[i].key()) by {
            assert(a.drop_last()[i] == a[i]);
        }
        lemma_only_in_a_self(a.drop_last(), s);
    } else {
        assert(a.len() == 0);
    }
}

proof fn lemma_self_prefix<'a, T: Keyed>(s: Seq<&'a T>, n: int)
    requires
        crate::order::distinct_keys(s),
        0 <= n <= s.len(),
    ensures
        unmatched_b(s, s.take(n)) == Seq::<&'a T>::empty(),
        matched_pairs(s, s.take(n)) == s.take(n).map_values(|x: &'a T| (x, x)),
    decreases n,
{
    if n > 0 {
        let b = s.take(n);
        assert(b.drop_last() == s.take(n - 1));
        lemma_self_prefix(s, n - 1);
        let x = b.last();
        assert(x == s[n - 1]);
        assert(has_key(s, x.key())) by {
            assert(s[n - 1].key() == x.key());
        }
        assert(!has_key(b.drop_last(), x.key())) by {
            if has_key(b.drop_last(), x.key()) {
                let i = choose|i: int| 0 <= i < b.drop_last().len() && #[trigger] b.drop_last()[i].key() == x.key();
                assert(b.drop_last()[i] == s[i]);
            }
        }
        lemma_last_with_key(s, x.key(), n - 1);
        assert(matched_pairs(s, b) =~= s.take(n).map_values(|x: &'a T| (x, x)));
    } else {
        assert(s.take(0).map_values(|x: &'a T| (x, x)) =~= Seq::<(&'a T, &'a T)>::empty());
    }
}

/// The elements of `a`, in order, whose key some element of `b` has.
pub open spec fn with_key_in<'a, T: Keyed>(a: Seq<&'a T>, b: Seq<&'a T>) -> Seq<&'a T>
    decreases a.len(),
{
    if a.len() == 0 {
        Seq::empty()
    } else if has_key(b, a.last().key()) {
        with_key_in(a.drop_last(), b).push(a.last())
    } else {
        with_key_in(a.drop_last(), b)
    }
}

/// The keys of the elements of `s`, in order.
pub open spec fn key_seq<'a, T: Keyed>(s: Seq<&'a T>) -> Seq<Seq<Seq<char>>> {
    s.map_values(|x: &'a T| x.key())
}

/// Whether the keys `a` and `b` share come in the same order in both.
pub open spec fn common_keys_in_same_order<'a, T: Keyed>(a: Seq<&'a T>, b: Seq<&'a T>) -> bool {
    key_seq(with_key_in(a, b)) == key_seq(with_key_in(b, a))
}

proof fn lemma_distinct_drop_last<'a, T: Keyed>(s: Seq<&'a T>)
    requires
        crate::order::distinct_keys(s),
        s.len() > 0,
    ensures
        crate::order::distinct_keys(s.drop_last()),
        !has_key(s.drop_last(), s.last().key()),
{
    let d = s.drop_last();
    assert forall|i: int, j: int| 0 <= i < d.len() && 0 <= j < d.len() && i != j implies #[trigger] d[i].key()
        != #[trigger] d[j].key() by {
        assert(d[i] == s[i] && d[j] == s[j]);
        assert(s[i].key() != s[j].key());
    }
    if has_key(d, s.last().key()) {
        let i = choose|i: int| 0 <= i < d.len() && #[trigger] d[i].key() == s.last().key();
        assert(d[i] == s[i]);
        assert(s[i].key() != s[s.len() - 1].key());
    }
}

/// The last element of a sequence with distinct keys that has the key of
/// its `j`-th element is that element.
proof fn lemma_last_with_key_distinct<'a, T: Keyed>(s: Seq<&'a T>, j: int)
    requires
        crate::order::distinct_keys(s),
        0 <= j < s.len(),
    ensures
        last_with_key(s, s[j].key()) == s[j],
{
    assert forall|i: int| j < i < s.len() implies #[trigger] s[i].key() != s[j].key() by {
        assert(s[i].key() != s[j].key());
    }
    lemma_last_with_key(s, s[j].key(), j);
}

/// With distinct keys in `b`, the unmatched elements of `b` are those whose
/// key `a` lacks.
proof fn lemma_unmatched_is_only<'a, T: Keyed>(a: Seq<&'a T>, b: Seq<&'a T>)
    requires
        crate::order::distinct_keys(b),
    ensures
        unmatched_b(a, b) == only_in_a(b, a),
    decreases b.len(),
{
    if b.len() > 0 {
        lemma_distinct_drop_last(b);
        lemma_unmatched_is_only(a, b.drop_last());
    }
}

/// With distinct keys in `b`, the matched pairs are the elements of `b`
/// whose key `a` has, each with the last element of `a` with that key.
proof fn lemma_matched_is_common<'a, T: Keyed>(a: Seq<&'a T>, b: Seq<&'a T>)
    requires
        crate::order::distinct_keys(b),
    ensures
        matched_pairs(a, b) == with_key_in(b, a).map_values(|y: &'a T| (last_with_key(a, y.key()), y)),
    decreases b.len(),
{
    if b.len() > 0 {
        lemma_distinct_drop_last(b);
        lemma_matched_is_common(a, b.drop_last());
        assert(matched_pairs(a, b) =~= with_key_in(b, a).map_values(|y: &'a T| (last_with_key(a, y.key()), y)));
    } else {
        assert(matched_pairs(a, b) =~= with_key_in(b, a).map_values(|y: &'a T| (last_with_key(a, y.key()), y)));
    }
}

/// Every element of `with_key_in(a, b)` is an element of `a`.
proof fn lemma_with_key_in_members<'a, T: Keyed>(a: Seq<&'a T>, b: Seq<&'a T>)
    ensures
        forall|i: int|
            0 <= i < with_key_in(a, b).len() ==> exists|j: int|
                0 <= j < a.len() && a[j] == #[trigger] with_key_in(a, b)[i],
    decreases a.len(),
{
    if a.len() > 0 {
        let d = a.drop_last();
        lemma_with_key_in_members(d, b);
        let w = with_key_in(a, b);
        let wd = with_key_in(d, b);
        assert forall|i: int| 0 <= i < w.len() implies exists|j: int| 0 <= j < a.len() && a[j] == #[trigger] w[i] by {
            if i < wd.len() {
                assert(w[i] == wd[i]);
                let j = choose|j: int| 0 <= j < d.len() && d[j] == wd[i];
                assert(a[j] == d[j]);
            } else {
                assert(w[i] == a[a.len() - 1]);
            }
        }
    }
}

/// With distinct keys, each element of `with_key_in(a, b)` is the last
/// element of `a` with its key.
proof fn lemma_with_key_in_last<'a, T: Keyed>(a: Seq<&'a T>, b: Seq<&'a T>)
    requires
        crate::order::distinct_keys(a),
    ensures
        forall|i: int|
            0 <= i < with_key_in(a, b).len() ==> last_with_key(a, (#[trigger] with_key_in(a, b)[i]).key())
                == with_key_in(a, b)[i],
{
    lemma_with_key_in_members(a, b);
    assert forall|i: int| 0 <= i < with_key_in(a, b).len() implies last_with_key(
        a,
        (#[trigger] with_key_in(a, b)[i]).key(),
    ) == with_key_in(a, b)[i] by {
        let j = choose|j: int| 0 <= j < a.len() && a[j] == with_key_in(a, b)[i];
        lemma_last_with_key_distinct(a, j);
    }
}

/// Matching is symmetric: when keys are distinct within `a` and within `b`
/// and the keys both share come in the same order in both, matching `b`
/// against `a` keeps in `a_only` what matching `a` against `b` keeps in
/// `b_only` and the other way round, and matches the same pairs, in the
/// same order, each with its sides swapped.
pub proof fn lemma_diff_swap<'a, T: Keyed>(a: Seq<&'a T>, b: Seq<&'a T>)
    requires
        crate::order::distinct_keys(a),
        crate::order::distinct_keys(b),
        common_keys_in_same_order(a, b),
    ensures
        only_in_a(b, a) == unmatched_b(a, b),
        unmatched_b(b, a) == only_in_a(a, b),
        matched_pairs(b, a) == matched_pairs(a, b).map_values(|p: (&'a T, &'a T)| (p.1, p.0)),
{
    lemma_unmatched_is_only(a, b);
    lemma_unmatched_is_only(b, a);
    lemma_matched_is_common(a, b);
    lemma_matched_is_common(b, a);
    lemma_with_key_in_last(a, b);
    lemma_with_key_in_last(b, a);
    let wa = with_key_in(a, b);
    let wb = with_key_in(b, a);
    assert(key_seq(wa).len() == key_seq(wb).len());
    assert forall|i: int| 0 <= i < wa.len() implies #[trigger] wa[i].key() == wb[i].key() by {
        assert(key_seq(wa)[i] == key_seq(wb)[i]);
    }
    assert(matched_pairs(b, a) =~= matched_pairs(a, b).map_values(|p: (&'a T, &'a T)| (p.1, p.0)));
}

proof fn lemma_sorted_drop_last<'a, T: Keyed>(s: Seq<&'a T>)
    requires
        crate::order::sorted_by(s),
        s.len() > 0,
    ensures
        crate::order::sorted_by(s.drop_last()),
{
    let d = s.drop_last();
    assert forall|i: int, j: int| 0 <= i < j < d.len() implies crate::order::key_le(#[trigger] d[i].key(), #[trigger] d[j].key()) by {
        assert(d[i] == s[i] && d[j] == s[j]);
    }
}

/// Keeping the elements of `a` whose key `b` has does not depend on `b`'s
/// last element when no element of `a` has its key.
proof fn lemma_with_key_in_drop_other<'a, T: Keyed>(a: Seq<&'a T>, b: Seq<&'a T>)
    requires
        b.len() > 0,
        forall|i: int| 0 <= i < a.len() ==> #[trigger] a[i].key() != b.last().key(),
    ensures
        with_key_in(a, b) == with_key_in(a, b.drop_last()),
    decreases a.len(),
{
    if a.len() > 0 {
        let d = a.drop_last();
        assert forall|i: int| 0 <= i < d.len() implies #[trigger] d[i].key() != b.last().key() by {
            assert(d[i] == a[i]);
        }
        lemma_with_key_in_drop_other(d, b);
        let k = a.last().key();
        assert(k != b.last().key());
        if has_key(b, k) {
            let j = choose|j: int| 0 <= j < b.len() && #[trigger] b[j].key() == k;
            assert(b.drop_last()[j] == b[j]);
        }
        if has_key(b.drop_last(), k) {
            let j = choose|j: int| 0 <= j < b.drop_last().len() && #[trigger] b.drop_last()[j].key() == k;
            assert(b.drop_last()[j] == b[j]);
        }
    }
}

/// Nothing of `a` has a key of an empty sequence.
proof fn lemma_with_key_in_empty<'a, T: Keyed>(a: Seq<&'a T>, b: Seq<&'a T>)
    requires
        b.len() == 0,
    ensures
        with_key_in(a, b) == Seq::<&'a T>::empty(),
    decreases a.len(),
{
    if a.len() > 0 {
        lemma_with_key_in_empty(a.drop_last(), b);
    }
}

/// In a sorted sequence with distinct keys, every element before the last
/// has a key below the last one's, so none has a key that comes after it.
proof fn lemma_below_last<'a, T: Keyed>(s: Seq<&'a T>, k: Seq<Seq<char>>)
    requires
        crate::order::sorted_by(s),
        crate::order::distinct_keys(s),
        s.len() > 0,
        crate::order::key_le(s.last().key(), k),
        s.last().key() != k,
    ensures
        forall|i: int| 0 <= i < s.len() ==> #[trigger] s[i].key() != k,
{
    assert forall|i: int| 0 <= i < s.len() implies #[trigger] s[i].key() != k by {
        if i < s.len() - 1 {
            assert(crate::order::key_le(s[i].key(), s[s.len() - 1].key()));
            crate::order::lemma_key_le_trans(s[i].key(), s.last().key(), k);
            if s[i].key() == k {
                crate::order::lemma_key_le_antisym(s.last().key(), k);
            }
        }
    }
}

/// Two sequences sorted by key, each with distinct keys, have the keys they
/// share in the same order.
pub proof fn lemma_sorted_common_order<'a, T: Keyed>(a: Seq<&'a T>, b: Seq<&'a T>)
    requires
        crate::order::sorted_by(a),
        crate::order::sorted_by(b),
        crate::order::distinct_keys(a),
        crate::order::distinct_keys(b),
    ensures
        common_keys_in_same_order(a, b),
    decreases a.len() + b.len(),
{
    if a.len() == 0 {
        lemma_with_key_in_empty(b, a);
        assert(with_key_in(a, b) == Seq::<&'a T>::empty());
        assert(key_seq(with_key_in(a, b)) =~= key_seq(with_key_in(b, a)));
    } else if b.len() == 0 {
        lemma_with_key_in_empty(a, b);
        assert(with_key_in(b, a) == Seq::<&'a T>::empty());
        assert(key_seq(with_key_in(a, b)) =~= key_seq(with_key_in(b, a)));
    } else {
        let x = a.last();
        let y = b.last();
        lemma_distinct_drop_last(a);
        lemma_distinct_drop_last(b);
        lemma_sorted_drop_last(a);
        lemma_sorted_drop_last(b);
        let a1 = a.drop_last();
        let b1 = b.drop_last();
        if x.key() == y.key() {
            assert forall|i: int| 0 <= i < a1.len() implies #[trigger] a1[i].key() != b.last().key() by {
                assert(a1[i] == a[i]);
                assert(a[i].key() != a[a.len() - 1].key());
            }
            assert forall|i: int| 0 <= i < b1.len() implies #[trigger] b1[i].key() != a.last().key() by {
                assert(b1[i] == b[i]);
                assert(b[i].key() != b[b.len() - 1].key());
            }
            lemma_with_key_in_drop_other(a1, b);
            lemma_with_key_in_drop_other(b1, a);
            lemma_sorted_common_order(a1, b1);
            assert(has_key(b, x.key())) by {
                assert(b[b.len() - 1].key() == x.key());
            }
            assert(has_key(a, y.key())) by {
                assert(a[a.len() - 1].key() == y.key());
            }
            assert(key_seq(with_key_in(a, b)) =~= key_seq(with_key_in(a1, b1)).push(x.key()));
            assert(key_seq(with_key_in(b, a)) =~= key_seq(with_key_in(b1, a1)).push(y.key()));
        } else {
            crate::order::lemma_key_le_total(x.key(), y.key());
            if crate::order::key_le(x.key(), y.key()) {
                lemma_below_last(a, y.key());
                lemma_with_key_in_drop_other(a, b);
                assert(!has_key(a, y.key()));
                lemma_sorted_common_order(a, b1);
            } else {
                lemma_below_last(b, x.key());
                lemma_with_key_in_drop_other(b, a);
                assert(!has_key(b, x.key()));
                lemma_sorted_common_order(a1, b);
            }
        }
    }
}

/// Matching collections sorted by key, each with distinct keys, is
/// symmetric: swapping the sides swaps what is kept only on either side and
/// matches the same pairs with their sides swapped.
pub proof fn lemma_sorted_diff_swap<'a, T: Keyed>(a: Seq<&'a T>, b: Seq<&'a T>)
    requires
        crate::order::distinct_keys(a),
        crate::order::distinct_keys(b),
    ensures
        ({
            let sa = crate::order::sort_by_key(a);
            let sb = crate::order::sort_by_key(b);
            &&& only_in_a(sb, sa) == unmatched_b(sa, sb)
            &&& unmatched_b(sb, sa) == only_in_a(sa, sb)
            &&& matched_pairs(sb, sa) == matched_pairs(sa, sb).map_values(|p: (&'a T, &'a T)| (p.1, p.0))
        }),
{
    crate::order::lemma_sort_by_key_sorted(a);
    crate::order::lemma_sort_by_key_sorted(b);
    crate::order::lemma_sort_by_key_distinct(a);
    crate::order::lemma_sort_by_key_distinct(b);
    lemma_sorted_common_order(crate::order::sort_by_key(a), crate::order::sort_by_key(b));
    lemma_diff_swap(crate::order::sort_by_key(a), crate::order::sort_by_key(b));
}

/// The kind of change a generated statement makes. Statements are emitted
/// in the order of these kinds: drops first (constraints in the reverse of
/// their creation order), then alterations, then creations.
#[derive(Debug, Clone, Copy, PartialEq, Eq, PartialOrd, Ord, Structural)]
pub enum ChangeType {
    DropConstraint(ConstraintType),
    DropColumn,
    DropTrigger,
    DropRoutine,
    DropSequence,
    DropIndex,
    DropTable,
    DropType,
    DropExtension,
    DropSchema,
    AlterExtension,
    AlterSequence,
    AlterType,
    AlterColumn,
    Unsupported,
    CreateSchema,
    CreateExtension,
    CreateSequence,
    CreateType,
    CreateRoutine,
    CreateTable,
    CreateIndex,
    CreateColumn,
    CreateConstraint(ConstraintType),
    CreateTrigger,
}

/// The number of distinct ranks a change can have.
pub open spec fn change_rank_count() -> nat {
    37
}

/// The position of a change kind in the emission order. Dropped constraints
/// are ranked in the reverse of their type's order.
pub open spec fn change_rank(c: ChangeType) -> nat {
    match c {
        ChangeType::DropConstraint(t) => (6 - constraint_type_rank(t)) as nat,
        ChangeType::DropColumn => 7,
        ChangeType::DropTrigger => 8,
        ChangeType::DropRoutine => 9,
        ChangeType::DropSequence => 10,
        ChangeType::DropIndex => 11,
        ChangeType::DropTable => 12,
        ChangeType::DropType => 13,
        ChangeType::DropExtension => 14,
        ChangeType::DropSchema => 15,
        ChangeType::AlterExtension => 16,
        ChangeType::AlterSequence => 17,
        ChangeType::AlterType => 18,
        ChangeType::AlterColumn => 19,
        ChangeType::Unsupported => 20,
        ChangeType::CreateSchema => 21,
        ChangeType::CreateExtension => 22,
        ChangeType::CreateSequence => 23,
        ChangeType::CreateType => 24,
        ChangeType::CreateRoutine => 25,
        ChangeType::CreateTable => 26,
        ChangeType::CreateIndex => 27,
        ChangeType::CreateColumn => 28,
        ChangeType::CreateConstraint(t) => (29 + constraint_type_rank(t)) as nat,
        ChangeType::CreateTrigger => 36,
    }
}

/// Whether a change drops an object.
pub open spec fn is_drop(c: ChangeType) -> bool {
    c matches ChangeType::DropConstraint(_) || c == ChangeType::DropColumn || c == ChangeType::DropTrigger
        || c == ChangeType::DropRoutine || c == ChangeType::DropSequence || c == ChangeType::DropIndex
        || c == ChangeType::DropTable || c == ChangeType::DropType || c == ChangeType::DropExtension
        || c == ChangeType::DropSchema
}

/// Whether a change creates an object.
pub open spec fn is_create(c: ChangeType) -> bool {
    c == ChangeType::CreateSchema || c == ChangeType::CreateExtension || c == ChangeType::CreateSequence
        || c == ChangeType::CreateType || c == ChangeType::CreateRoutine || c == ChangeType::CreateTable
        || c == ChangeType::CreateIndex || c == ChangeType::CreateColumn || c matches ChangeType::CreateConstraint(_)
        || c == ChangeType::CreateTrigger
}

/// Statements are emitted drops first and creations last, with every
/// other change in between; distinct kinds of change have distinct ranks.
/// Schemas are created before what they hold and dropped after it, types
/// before the tables and routines that use them, tables before their
/// indexes and constraints, and triggers after everything else.
pub proof fn lemma_change_rank_groups(c: ChangeType, d: ChangeType)
    ensures
        is_drop(c) && !is_drop(d) ==> change_rank(c) < change_rank(d),
        is_create(d) && !is_create(c) ==> change_rank(c) < change_rank(d),
        c != d ==> change_rank(c) != change_rank(d),
        c != ChangeType::DropSchema && is_drop(c) ==> change_rank(c) < change_rank(ChangeType::DropSchema),
        c != ChangeType::CreateSchema && is_create(c) ==> change_rank(ChangeType::CreateSchema) < change_rank(c),
        change_rank(ChangeType::CreateType) < change_rank(ChangeType::CreateTable),
        change_rank(ChangeType::CreateType) < change_rank(ChangeType::CreateRoutine),
        change_rank(ChangeType::CreateTable) < change_rank(ChangeType::CreateIndex),
        d matches ChangeType::CreateConstraint(_) ==> change_rank(ChangeType::CreateTable) < change_rank(d),
        c != ChangeType::CreateTrigger ==> change_rank(c) < change_rank(ChangeType::CreateTrigger),
{
}

impl ChangeType {
    /// The position of this change kind in the emission order.
    pub fn rank(&self) -> (r: u8)
        ensures
            r as nat == change_rank(*self),
            r < change_rank_count(),
    {
        match self {
            ChangeType::DropConstraint(t) => 6 - t.rank(),
            ChangeType::DropColumn => 7,
            ChangeType::DropTrigger => 8,
            ChangeType::DropRoutine => 9,
            ChangeType::DropSequence => 10,
            ChangeType::DropIndex => 11,
            ChangeType::DropTable => 12,
            ChangeType::DropType => 13,
            ChangeType::DropExtension => 14,
            ChangeType::DropSchema => 15,
            ChangeType::AlterExtension => 16,
            ChangeType::AlterSequence => 17,
            ChangeType::AlterType => 18,
            ChangeType::AlterColumn => 19,
            ChangeType::Unsupported => 20,
            ChangeType::CreateSchema => 21,
            ChangeType::CreateExtension => 22,
            ChangeType::CreateSequence => 23,
            ChangeType::CreateType => 24,
            ChangeType::CreateRoutine => 25,
            ChangeType::CreateTable => 26,
            ChangeType::CreateIndex => 27,
            ChangeType::CreateColumn => 28,
            ChangeType::CreateConstraint(t) => 29 + t.rank(),
            ChangeType::CreateTrigger => 36,
        }
    }
}

/// A statement list's view: each change kind with the statement's text.
pub open spec fn stmts_view(v: Seq<(ChangeType, String)>) -> Seq<(ChangeType, Seq<char>)> {
    v.map_values(|e: (ChangeType, String)| (e.0, e.1@))
}

/// Appends `(c, s)` to a statement list.
pub fn push_stmt(v: &mut Vec<(ChangeType, String)>, c: ChangeType, s: String)
    ensures
        stmts_view(final(v)@) == stmts_view(old(v)@).push((c, s@)),
{
    let ghost before = v@;
    v.push((c, s));
    assert(stmts_view(v@) =~= stmts_view(before).push((c, s@)));
}

/// Appends every statement of `w` to `v`.
pub fn extend_stmts(v: &mut Vec<(ChangeType, String)>, w: Vec<(ChangeType, String)>)
    ensures
        stmts_view(final(v)@) == stmts_view(old(v)@) + stmts_view(w@),
{
    let ghost before = v@;
    let mut w = w;
    let ghost wv = w@;
    v.append(&mut w);
    assert(v@ == before + wv);
    assert(stmts_view(v@) =~= stmts_view(before) + stmts_view(wv));
}

/// Statements that render the changes between two versions of a
/// collection of schema objects.
pub trait DiffSql {
    /// Whether the statements can be rendered (no input the rendering
    /// rejects).
    spec fn sql_defined(&self) -> bool;

    /// The statements, each with the kind of change it makes.
    fn sql(&self) -> Vec<(ChangeType, String)>
        requires
            self.sql_defined(),
    ;
}

/// A schema object that can be dropped, changed and created by SQL.
pub trait SqlObject: Keyed + Eq {
    /// Whether two versions are equal field by field.
    spec fn same(&self, other: &Self) -> bool;

    /// The statements that drop this object.
    spec fn drop_view(&self) -> Seq<(ChangeType, Seq<char>)>;

    /// The statements that turn `previous` into this object.
    spec fn change_view(&self, previous: &Self) -> Seq<(ChangeType, Seq<char>)>;

    /// Whether the change from `previous` can be rendered.
    spec fn change_defined(&self, previous: &Self) -> bool;

    /// The statements that create this object.
    spec fn create_view(&self) -> Seq<(ChangeType, Seq<char>)>;

    /// Every object equals itself.
    proof fn lemma_same_refl(&self)
        ensures
            self.same(self),
    ;

    fn same_as(&self, other: &Self) -> (r: bool)
        ensures
            r == self.same(other),
    ;

    fn drop_stmts(&self) -> (r: Vec<(ChangeType, String)>)
        ensures
            stmts_view(r@) == self.drop_view(),
    ;

    fn change_stmts(&self, previous: &Self) -> (r: Vec<(ChangeType, String)>)
        requires
            self.change_defined(previous),
        ensures
            stmts_view(r@) == self.change_view(previous),
    ;

    fn create_stmts(&self) -> (r: Vec<(ChangeType, String)>)
        ensures
            stmts_view(r@) == self.create_view(),
    ;
}

/// The drop statements of each object, in order.
pub open spec fn drops_of<'a, T: SqlObject>(s: Seq<&'a T>) -> Seq<(ChangeType, Seq<char>)>
    decreases s.len(),
{
    if s.len() == 0 {
        Seq::empty()
    } else {
        drops_of(s.drop_last()) + s.last().drop_view()
    }
}

/// For each (old, new) pair in order: nothing when unchanged, otherwise the
/// statements that turn old into new.
pub open spec fn changes_of<'a, T: SqlObject>(p: Seq<(&'a T, &'a T)>) -> Seq<(ChangeType, Seq<char>)>
    decreases p.len(),
{
    if p.len() == 0 {
        Seq::empty()
    } else {
        changes_of(p.drop_last()) + if p.last().0.same(p.last().1) {
            Seq::empty()
        } else {
            p.last().1.change_view(p.last().0)
        }
    }
}

/// The create statements of each object, in order.
pub open spec fn creates_of<'a, T: SqlObject>(s: Seq<&'a T>) -> Seq<(ChangeType, Seq<char>)>
    decreases s.len(),
{
    if s.len() == 0 {
        Seq::empty()
    } else {
        creates_of(s.drop_last()) + s.last().create_view()
    }
}

/// The statements for a matched collection: drops of objects only in the
/// old version, changes of objects that differ, creations of objects only
/// in the new version, in that order.
pub open spec fn diff_sql_spec<'a, T: SqlObject>(d: &Diff<'a, T>) -> Seq<(ChangeType, Seq<char>)> {
    drops_of(d.a_only@) + changes_of(d.a_and_b@) + creates_of(d.b_only@)
}

/// Whether every changed pair of `d` can be rendered.
pub open spec fn diff_sql_defined<'a, T: SqlObject>(d: &Diff<'a, T>) -> bool {
    forall|i: int|
        0 <= i < d.a_and_b@.len() ==> !(#[trigger] d.a_and_b@[i]).0.same(d.a_and_b@[i].1)
            ==> d.a_and_b@[i].1.change_defined(d.a_and_b@[i].0)
}

/// Renders the statements for a matched collection.
pub fn render_diff<'a, T: SqlObject>(d: &Diff<'a, T>) -> (r: Vec<(ChangeType, String)>)
    requires
        diff_sql_defined(d),
    ensures
        stmts_view(r@) == diff_sql_spec(d),
{
    let mut v: Vec<(ChangeType, String)> = Vec::new();
    for i in 0..d.a_only.len()
        invariant
            stmts_view(v@) == drops_of(d.a_only@.take(i as int)),
    {
        assert(d.a_only@.take(i + 1).drop_last() == d.a_only@.take(i as int));
        extend_stmts(&mut v, d.a_only[i].drop_stmts());
    }
    assert(d.a_only@.take(d.a_only.len() as int) == d.a_only@);
    let ghost drops = stmts_view(v@);
    for i in 0..d.a_and_b.len()
        invariant
            diff_sql_defined(d),
            drops == drops_of(d.a_only@),
            stmts_view(v@) == drops + changes_of(d.a_and_b@.take(i as int)),
    {
        let (a, b) = d.a_and_b[i];
        assert(d.a_and_b@.take(i + 1).drop_last() == d.a_and_b@.take(i as int));
        assert(d.a_and_b@[i as int] == (a, b));
        if !a.same_as(b) {
            extend_stmts(&mut v, b.change_stmts(a));
        } else {
            assert(stmts_view(v@) + Seq::<(ChangeType, Seq<char>)>::empty() == stmts_view(v@));
        }
    }
    assert(d.a_and_b@.take(d.a_and_b.len() as int) == d.a_and_b@);
    let ghost changed = stmts_view(v@);
    for i in 0..d.b_only.len()
        invariant
            changed == drops_of(d.a_only@) + changes_of(d.a_and_b@),
            stmts_view(v@) == changed + creates_of(d.b_only@.take(i as int)),
    {
        assert(d.b_only@.take(i + 1).drop_last() == d.b_only@.take(i as int));
        extend_stmts(&mut v, d.b_only[i].create_stmts());
    }
    assert(d.b_only@.take(d.b_only.len() as int) == d.b_only@);
    v
}

/// A one-statement list.
pub fn single_stmt(c: ChangeType, s: String) -> (r: Vec<(ChangeType, String)>)
    ensures
        stmts_view(r@) == seq![(c, s@)],
{
    let mut v: Vec<(ChangeType, String)> = Vec::new();
    push_stmt(&mut v, c, s);
    assert(stmts_view(Seq::<(ChangeType, String)>::empty()) =~= Seq::<(ChangeType, Seq<char>)>::empty());
    v
}

} // verus!
