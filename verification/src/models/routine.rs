//! Functions, procedures and aggregates, ordered by their dependencies.
use vstd::prelude::*;
use crate::diff::{ChangeType, Diff, DiffSql, stmts_view, push_stmt};
use crate::models::index::{terminate_statement, terminated_statement};
use crate::order::{Keyed, key_le, lemma_pair_key_eq, lemma_triple_key_eq, pair_le, triple_le};
use crate::rows::{RoutineDependencyRow, RoutineKind, RoutineRow};
use crate::models::domain::{refs, refs_of};
use crate::order::{sort_by_key, sorted_by_key};
use crate::sql::{push_qualified, qualified_spec};
use crate::text::{copy_string, ends_with, push_str, starts_with, string_of};

verus! {

/// Identifies a routine: schema, name and identity arguments.
#[derive(Debug, Clone, PartialEq, Eq, Hash, PartialOrd, Ord)]
pub struct RoutineKey {
    pub schema: String,
    pub name: String,
    pub identity_arguments: String,
}

impl Keyed for RoutineKey {
    open spec fn key(&self) -> Seq<Seq<char>> {
        seq![self.schema@, self.name@, self.identity_arguments@]
    }

    fn same_key(&self, other: &Self) -> (r: bool) {
        proof {
            lemma_triple_key_eq(
                self.schema@,
                self.name@,
                self.identity_arguments@,
                other.schema@,
                other.name@,
                other.identity_arguments@,
            );
        }
        self.schema == other.schema && self.name == other.name && self.identity_arguments
            == other.identity_arguments
    }

    fn key_before_eq(&self, other: &Self) -> (r: bool) {
        triple_le(
            self.schema.as_str(),
            self.name.as_str(),
            self.identity_arguments.as_str(),
            other.schema.as_str(),
            other.name.as_str(),
            other.identity_arguments.as_str(),
        )
    }
}

impl RoutineKey {
    /// A key from its three parts.
    pub fn new(schema: &str, name: &str, identity_arguments: &str) -> (k: Self)
        ensures
            k.schema@ == schema@,
            k.name@ == name@,
            k.identity_arguments@ == identity_arguments@,
    {
        RoutineKey {
            schema: string_of(schema),
            name: string_of(name),
            identity_arguments: string_of(identity_arguments),
        }
    }

    /// A copy of this key.
    pub fn duplicate(&self) -> (k: Self)
        ensures
            k.key() == self.key(),
    {
        RoutineKey {
            schema: copy_string(&self.schema),
            name: copy_string(&self.name),
            identity_arguments: copy_string(&self.identity_arguments),
        }
    }
}

/// A routine, its definition and the routines its body depends on.
#[derive(Debug, Clone, PartialEq, Eq)]
pub struct Routine {
    pub schema: String,
    pub name: String,
    pub kind: RoutineKind,
    pub identity_arguments: String,
    pub definition: String,
    pub dependencies: Vec<RoutineKey>,
}

/// A routine's full key: schema, name, identity arguments.
pub open spec fn rkey(r: &Routine) -> Seq<Seq<char>> {
    seq![r.schema@, r.name@, r.identity_arguments@]
}

impl Keyed for Routine {
    /// Within one schema a routine is matched by name and identity
    /// arguments.
    open spec fn key(&self) -> Seq<Seq<char>> {
        seq![self.name@, self.identity_arguments@]
    }

    fn same_key(&self, other: &Self) -> (r: bool) {
        proof {
            lemma_pair_key_eq(self.name@, self.identity_arguments@, other.name@, other.identity_arguments@);
        }
        self.name == other.name && self.identity_arguments == other.identity_arguments
    }

    fn key_before_eq(&self, other: &Self) -> (r: bool) {
        pair_le(
            self.name.as_str(),
            self.identity_arguments.as_str(),
            other.name.as_str(),
            other.identity_arguments.as_str(),
        )
    }
}

/// Whether some routine of `s` has full key `k`.
pub open spec fn has_rkey<'a>(s: Seq<&'a Routine>, k: Seq<Seq<char>>) -> bool {
    exists|i: int| 0 <= i < s.len() && #[trigger] rkey(s[i]) == k
}

/// For each full key of `s`, its last routine in `s`.
pub open spec fn pool_of<'a>(s: Seq<&'a Routine>) -> Seq<&'a Routine>
    decreases s.len(),
{
    if s.len() == 0 {
        Seq::empty()
    } else if has_rkey(s.drop_first(), rkey(s[0])) {
        pool_of(s.drop_first())
    } else {
        seq![s[0]] + pool_of(s.drop_first())
    }
}

/// Whether a routine of `s` with full key `k` lists a dependency with key `d`.
pub open spec fn depends_on<'a>(s: Seq<&'a Routine>, k: Seq<Seq<char>>, d: Seq<Seq<char>>) -> bool {
    exists|i: int, j: int|
        0 <= i < s.len() && rkey(s[i]) == k && 0 <= j < s[i].dependencies@.len()
            && #[trigger] s[i].dependencies@[j].key() == d
}

/// Whether every dependency of key `k` that is itself among `s` has been
/// emitted into `e`.
pub open spec fn deps_done<'a>(s: Seq<&'a Routine>, e: Seq<&'a Routine>, k: Seq<Seq<char>>) -> bool {
    forall|d: Seq<Seq<char>>| #[trigger] depends_on(s, k, d) && has_rkey(s, d) ==> has_rkey(e, d)
}

/// The routine of `pool` with the smallest full key among those satisfying
/// `pred` (the earliest one on a tie).
pub open spec fn min_where<'a>(pool: Seq<&'a Routine>, pred: spec_fn(&'a Routine) -> bool) -> Option<&'a Routine>
    decreases pool.len(),
{
    if pool.len() == 0 {
        None
    } else {
        let m = min_where(pool.drop_last(), pred);
        let x = pool.last();
        if !pred(x) {
            m
        } else {
            match m {
                None => Some(x),
                Some(y) => if key_le(rkey(y), rkey(x)) {
                    Some(y)
                } else {
                    Some(x)
                },
            }
        }
    }
}

/// Not yet emitted, and every dependency among `s` already emitted.
pub open spec fn is_ready<'a>(s: Seq<&'a Routine>, e: Seq<&'a Routine>) -> spec_fn(&'a Routine) -> bool {
    |r: &'a Routine| !has_rkey(e, rkey(r)) && deps_done(s, e, rkey(r))
}

/// Not yet emitted.
pub open spec fn is_left<'a>(e: Seq<&'a Routine>) -> spec_fn(&'a Routine) -> bool {
    |r: &'a Routine| !has_rkey(e, rkey(r))
}

/// Appends the routines not yet emitted, smallest key first.
pub open spec fn finish_rest<'a>(pool: Seq<&'a Routine>, e: Seq<&'a Routine>, n: nat) -> Seq<&'a Routine>
    decreases n,
{
    if n == 0 {
        e
    } else {
        match min_where(pool, is_left(e)) {
            Some(r) => finish_rest(pool, e.push(r), (n - 1) as nat),
            None => e,
        }
    }
}

/// Emits, smallest key first, a routine whose dependencies are all
/// emitted, while there is one; then the rest (a dependency cycle) by key.
pub open spec fn emit_ready<'a>(s: Seq<&'a Routine>, pool: Seq<&'a Routine>, e: Seq<&'a Routine>, n: nat) -> Seq<&'a Routine>
    decreases n,
{
    if n == 0 {
        e
    } else {
        match min_where(pool, is_ready(s, e)) {
            Some(r) => emit_ready(s, pool, e.push(r), (n - 1) as nat),
            None => finish_rest(pool, e, n),
        }
    }
}

/// One routine per full key of `s`, each after the routines among `s` it
/// depends on, ties broken by the smallest key.
pub open spec fn dependency_order<'a>(s: Seq<&'a Routine>) -> Seq<&'a Routine> {
    emit_ready(s, pool_of(s), Seq::empty(), pool_of(s).len())
}

/// `dependency_order(s)`, reversed when `reverse` holds.
pub open spec fn topological_spec<'a>(s: Seq<&'a Routine>, reverse: bool) -> Seq<&'a Routine> {
    if reverse {
        dependency_order(s).reverse()
    } else {
        dependency_order(s)
    }
}

fn same_rkey(a: &Routine, b: &Routine) -> (r: bool)
    ensures
        r == (rkey(a) == rkey(b)),
{
    proof {
        lemma_triple_key_eq(a.schema@, a.name@, a.identity_arguments@, b.schema@, b.name@, b.identity_arguments@);
    }
    a.schema == b.schema && a.name == b.name && a.identity_arguments == b.identity_arguments
}

fn has_key_of(r: &Routine, k: &RoutineKey) -> (b: bool)
    ensures
        b == (rkey(r) == k.key()),
{
    proof {
        lemma_triple_key_eq(r.schema@, r.name@, r.identity_arguments@, k.schema@, k.name@, k.identity_arguments@);
    }
    r.schema == k.schema && r.name == k.name && r.identity_arguments == k.identity_arguments
}

fn rkey_le(a: &Routine, b: &Routine) -> (r: bool)
    ensures
        r == key_le(rkey(a), rkey(b)),
{
    triple_le(
        a.schema.as_str(),
        a.name.as_str(),
        a.identity_arguments.as_str(),
        b.schema.as_str(),
        b.name.as_str(),
        b.identity_arguments.as_str(),
    )
}

proof fn lemma_pool_keys<'a>(s: Seq<&'a Routine>)
    ensures
        forall|k: Seq<Seq<char>>|
            #![trigger has_rkey(pool_of(s), k)]
            #![trigger has_rkey(s, k)]
            has_rkey(pool_of(s), k) == has_rkey(s, k),
        forall|i: int, j: int|
            0 <= i < pool_of(s).len() && 0 <= j < pool_of(s).len() && i != j ==> rkey(
                #[trigger] pool_of(s)[i],
            ) != rkey(#[trigger] pool_of(s)[j]),
    decreases s.len(),
{
    if s.len() > 0 {
        let t = s.drop_first();
        lemma_pool_keys(t);
        let p = pool_of(s);
        let pt = pool_of(t);
        if has_rkey(t, rkey(s[0])) {
            assert(p == pt);
        } else {
            assert(p == seq![s[0]] + pt);
        }
        assert forall|k: Seq<Seq<char>>| has_rkey(p, k) == has_rkey(s, k) by {
            assert(has_rkey(pt, k) == has_rkey(t, k));
            if has_rkey(s, k) {
                let i = choose|i: int| 0 <= i < s.len() && #[trigger] rkey(s[i]) == k;
                if i > 0 {
                    assert(rkey(t[i - 1]) == k);
                    assert(has_rkey(pt, k));
                    let m = choose|m: int| 0 <= m < pt.len() && #[trigger] rkey(pt[m]) == k;
                    if !has_rkey(t, rkey(s[0])) {
                        assert(p[m + 1] == pt[m]);
                    }
                } else if has_rkey(t, rkey(s[0])) {
                    assert(has_rkey(pt, k));
                } else {
                    assert(p[0] == s[0]);
                }
            }
            if has_rkey(p, k) {
                let m = choose|m: int| 0 <= m < p.len() && #[trigger] rkey(p[m]) == k;
                if has_rkey(t, rkey(s[0])) {
                    assert(has_rkey(pt, k));
                    let i = choose|i: int| 0 <= i < t.len() && #[trigger] rkey(t[i]) == k;
                    assert(s[i + 1] == t[i]);
                } else if m == 0 {
                    assert(rkey(s[0]) == k);
                } else {
                    assert(p[m] == pt[m - 1]);
                    assert(has_rkey(pt, k));
                    let i = choose|i: int| 0 <= i < t.len() && #[trigger] rkey(t[i]) == k;
                    assert(s[i + 1] == t[i]);
                }
            }
        }
        if !has_rkey(t, rkey(s[0])) {
            assert(!has_rkey(pt, rkey(s[0])));
            assert forall|i: int, j: int|
                0 <= i < p.len() && 0 <= j < p.len() && i != j implies rkey(#[trigger] p[i]) != rkey(#[trigger] p[j]) by {
                if i > 0 && j > 0 {
                    assert(p[i] == pt[i - 1] && p[j] == pt[j - 1]);
                } else if i == 0 {
                    assert(p[j] == pt[j - 1]);
                    if rkey(p[i]) == rkey(p[j]) {
                        assert(has_rkey(pt, rkey(s[0])));
                    }
                } else {
                    assert(p[i] == pt[i - 1]);
                    if rkey(p[i]) == rkey(p[j]) {
                        assert(has_rkey(pt, rkey(s[0])));
                    }
                }
            }
        }
    }
}

/// For each full key of `s`, its last routine.
fn last_per_key<'a>(s: &Vec<&'a Routine>) -> (pool: Vec<&'a Routine>)
    ensures
        pool@ == pool_of(s@),
{
    let mut pool: Vec<&'a Routine> = Vec::new();
    assert(s@.skip(0) == s@);
    for i in 0..s.len()
        invariant
            pool@ + pool_of(s@.skip(i as int)) == pool_of(s@),
    {
        let mut later = false;
        let mut j = i + 1;
        while j < s.len()
            invariant
                i < j <= s.len(),
                later == has_rkey(s@.skip(i + 1).take(j - i - 1), rkey(s@[i as int])),
            decreases s.len() - j,
        {
            if same_rkey(s[j], s[i]) {
                later = true;
                assert(s@.skip(i + 1).take(j - i)[j - i - 1] == s@[j as int]);
            }
            proof {
                let a = s@.skip(i + 1).take(j - i - 1);
                let b = s@.skip(i + 1).take(j - i);
                assert forall|k: Seq<Seq<char>>| has_rkey(a, k) implies has_rkey(b, k) by {
                    let m = choose|m: int| 0 <= m < a.len() && #[trigger] rkey(a[m]) == k;
                    assert(b[m] == a[m]);
                }
                if has_rkey(b, rkey(s@[i as int])) && !has_rkey(a, rkey(s@[i as int])) {
                    let m = choose|m: int| 0 <= m < b.len() && #[trigger] rkey(b[m]) == rkey(s@[i as int]);
                    if m < j - i - 1 {
                        assert(a[m] == b[m]);
                    } else {
                        assert(b[m] == s@[j as int]);
                    }
                }
            }
            j = j + 1;
        }
        let ghost rest = s@.skip(i as int);
        assert(rest.drop_first() =~= s@.skip(i + 1));
        assert(s@.skip(i + 1).take(s.len() - i - 1) =~= s@.skip(i + 1));
        assert(rest[0] == s@[i as int]);
        if !later {
            pool.push(s[i]);
            assert(pool@ + pool_of(s@.skip(i + 1)) =~= pool@.drop_last() + pool_of(rest));
        }
    }
    assert(s@.skip(s.len() as int) =~= Seq::<&'a Routine>::empty());
    assert(pool@ + Seq::<&'a Routine>::empty() =~= pool@);
    pool
}

/// Pairs of pool positions (p, t) such that the routine at p depends on the
/// routine at t.
pub open spec fn edges_complete<'a>(s: Seq<&'a Routine>, pool: Seq<&'a Routine>, edges: Seq<(usize, usize)>) -> bool {
    &&& forall|m: int|
        0 <= m < edges.len() ==> (#[trigger] edges[m]).0 < pool.len() && edges[m].1 < pool.len()
            && depends_on(s, rkey(pool[edges[m].0 as int]), rkey(pool[edges[m].1 as int]))
    &&& forall|p: int, t: int|
        0 <= p < pool.len() && 0 <= t < pool.len() && depends_on(
            s,
            rkey(#[trigger] pool[p]),
            rkey(#[trigger] pool[t]),
        ) ==> exists|m: int| 0 <= m < edges.len() && edges[m] == (p as usize, t as usize)
}

fn position_in_pool<'a>(pool: &Vec<&'a Routine>, k: &RoutineKey) -> (r: Option<usize>)
    ensures
        match r {
            Some(p) => p < pool.len() && rkey(pool@[p as int]) == k.key(),
            None => !has_rkey(pool@, k.key()),
        },
{
    for p in 0..pool.len()
        invariant
            forall|q: int| 0 <= q < p ==> #[trigger] rkey(pool@[q]) != k.key(),
    {
        if has_key_of(pool[p], k) {
            return Some(p);
        }
    }
    None
}

fn position_of_routine<'a>(pool: &Vec<&'a Routine>, r: &Routine) -> (res: Option<usize>)
    ensures
        match res {
            Some(p) => p < pool.len() && rkey(pool@[p as int]) == rkey(r),
            None => !has_rkey(pool@, rkey(r)),
        },
{
    for p in 0..pool.len()
        invariant
            forall|q: int| 0 <= q < p ==> #[trigger] rkey(pool@[q]) != rkey(r),
    {
        if same_rkey(pool[p], r) {
            return Some(p);
        }
    }
    None
}

/// The dependency edges among the routines of `pool`.
fn dependency_edges<'a>(s: &Vec<&'a Routine>, pool: &Vec<&'a Routine>) -> (edges: Vec<(usize, usize)>)
    requires
        pool@ == pool_of(s@),
    ensures
        edges_complete(s@, pool@, edges@),
{
    proof {
        lemma_pool_keys(s@);
    }
    let mut edges: Vec<(usize, usize)> = Vec::new();
    for i in 0..s.len()
        invariant
            pool@ == pool_of(s@),
            forall|m: int|
                0 <= m < edges@.len() ==> (#[trigger] edges@[m]).0 < pool@.len() && edges@[m].1
                    < pool@.len() && depends_on(
                    s@,
                    rkey(pool@[edges@[m].0 as int]),
                    rkey(pool@[edges@[m].1 as int]),
                ),
            forall|i2: int, j2: int, p: int, t: int|
                0 <= i2 < i && 0 <= j2 < s@[i2].dependencies@.len() && 0 <= p < pool@.len() && 0
                    <= t < pool@.len() && rkey(#[trigger] pool@[p]) == rkey(s@[i2]) && rkey(
                    #[trigger] pool@[t],
                ) == (#[trigger] s@[i2].dependencies@[j2]).key() ==> exists|m: int|
                    0 <= m < edges@.len() && edges@[m] == (p as usize, t as usize),
    {
        let r = s[i];
        match position_of_routine(pool, r) {
            Some(p) => {
                for j in 0..r.dependencies.len()
                    invariant
                        pool@ == pool_of(s@),
                        i < s@.len(),
                        r == s@[i as int],
                        p < pool@.len(),
                        rkey(pool@[p as int]) == rkey(r),
                        forall|m: int|
                            0 <= m < edges@.len() ==> (#[trigger] edges@[m]).0 < pool@.len()
                                && edges@[m].1 < pool@.len() && depends_on(
                                s@,
                                rkey(pool@[edges@[m].0 as int]),
                                rkey(pool@[edges@[m].1 as int]),
                            ),
                        forall|i2: int, j2: int, p2: int, t: int|
                            0 <= i2 < i && 0 <= j2 < s@[i2].dependencies@.len() && 0 <= p2
                                < pool@.len() && 0 <= t < pool@.len() && rkey(#[trigger] pool@[p2])
                                == rkey(s@[i2]) && rkey(#[trigger] pool@[t]) == (
                            #[trigger] s@[i2].dependencies@[j2]).key() ==> exists|m: int|
                                0 <= m < edges@.len() && edges@[m] == (p2 as usize, t as usize),
                        forall|j2: int, p2: int, t: int|
                            0 <= j2 < j && 0 <= p2 < pool@.len() && 0 <= t < pool@.len() && rkey(
                                #[trigger] pool@[p2],
                            ) == rkey(r) && rkey(#[trigger] pool@[t]) == (
                            #[trigger] r.dependencies@[j2]).key() ==> exists|m: int|
                                0 <= m < edges@.len() && edges@[m] == (p2 as usize, t as usize),
                {
                    match position_in_pool(pool, &r.dependencies[j]) {
                        Some(t) => {
                            let ghost before = edges@;
                            edges.push((p, t));
                            proof {
                                lemma_pool_keys(s@);
                                assert(0 <= i < s@.len() && rkey(s@[i as int]) == rkey(
                                    pool@[p as int],
                                ) && 0 <= j < s@[i as int].dependencies@.len() && s@[i as int].dependencies@[j as int].key()
                                    == r.dependencies@[j as int].key());
                                assert(depends_on(
                                    s@,
                                    rkey(pool@[p as int]),
                                    r.dependencies@[j as int].key(),
                                ));
                                assert forall|m: int|
                                    0 <= m < edges@.len() implies (#[trigger] edges@[m]).0
                                    < pool@.len() && edges@[m].1 < pool@.len() && depends_on(
                                    s@,
                                    rkey(pool@[edges@[m].0 as int]),
                                    rkey(pool@[edges@[m].1 as int]),
                                ) by {
                                    if m < before.len() {
                                        assert(edges@[m] == before[m]);
                                    }
                                }
                                assert forall|i2: int, j2: int, p2: int, t2: int|
                                    0 <= i2 < i && 0 <= j2 < s@[i2].dependencies@.len() && 0
                                        <= p2 < pool@.len() && 0 <= t2 < pool@.len() && rkey(
                                        #[trigger] pool@[p2],
                                    ) == rkey(s@[i2]) && rkey(#[trigger] pool@[t2]) == (
                                    #[trigger] s@[i2].dependencies@[j2]).key() implies exists|m: int|
                                    0 <= m < edges@.len() && edges@[m] == (
                                        p2 as usize,
                                        t2 as usize,
                                    ) by {
                                    let m = choose|m: int|
                                        0 <= m < before.len() && before[m] == (
                                            p2 as usize,
                                            t2 as usize,
                                        );
                                    assert(edges@[m] == before[m]);
                                }
                                assert forall|j2: int, p2: int, t2: int|
                                    0 <= j2 < j + 1 && 0 <= p2 < pool@.len() && 0 <= t2
                                        < pool@.len() && rkey(#[trigger] pool@[p2]) == rkey(r)
                                        && rkey(#[trigger] pool@[t2]) == (
                                    #[trigger] r.dependencies@[j2]).key() implies exists|m: int|
                                    0 <= m < edges@.len() && edges@[m] == (
                                        p2 as usize,
                                        t2 as usize,
                                    ) by {
                                    if j2 < j {
                                        let m = choose|m: int|
                                            0 <= m < before.len() && before[m] == (
                                                p2 as usize,
                                                t2 as usize,
                                            );
                                        assert(edges@[m] == before[m]);
                                    } else {
                                        if p2 != p {
                                            assert(rkey(pool@[p2]) == rkey(pool@[p as int]));
                                        }
                                        if t2 != t {
                                            assert(rkey(pool@[t2]) == rkey(pool@[t as int]));
                                        }
                                        assert(edges@[before.len() as int] == (
                                            p2 as usize,
                                            t2 as usize,
                                        ));
                                    }
                                }
                            }
                        },
                        None => {
                            proof {
                                assert forall|j2: int, p2: int, t2: int|
                                    0 <= j2 < j + 1 && 0 <= p2 < pool@.len() && 0 <= t2
                                        < pool@.len() && rkey(#[trigger] pool@[p2]) == rkey(r)
                                        && rkey(#[trigger] pool@[t2]) == (
                                    #[trigger] r.dependencies@[j2]).key() implies exists|m: int|
                                    0 <= m < edges@.len() && edges@[m] == (
                                        p2 as usize,
                                        t2 as usize,
                                    ) by {
                                    if j2 == j {
                                        assert(has_rkey(pool@, r.dependencies@[j as int].key()));
                                    }
                                }
                            }
                        },
                    }
                }
            },
            None => {
                proof {
                    assert(has_rkey(s@, rkey(r))) by {
                        assert(rkey(s@[i as int]) == rkey(r));
                    }
                }
            },
        }
    }
    proof {
        assert forall|p: int, t: int|
            0 <= p < pool@.len() && 0 <= t < pool@.len() && depends_on(
                s@,
                rkey(#[trigger] pool@[p]),
                rkey(#[trigger] pool@[t]),
            ) implies exists|m: int| 0 <= m < edges@.len() && edges@[m] == (p as usize, t as usize) by {
            let (i2, j2) = choose|i2: int, j2: int|
                0 <= i2 < s@.len() && rkey(s@[i2]) == rkey(pool@[p]) && 0 <= j2
                    < s@[i2].dependencies@.len() && #[trigger] s@[i2].dependencies@[j2].key()
                    == rkey(pool@[t]);
            assert(rkey(pool@[t]) == s@[i2].dependencies@[j2].key());
        }
    }
    edges
}

/// Whether the flags mark exactly the pool routines whose key was emitted.
pub open spec fn flags_match<'a>(pool: Seq<&'a Routine>, flags: Seq<bool>, e: Seq<&'a Routine>) -> bool {
    flags.len() == pool.len() && forall|q: int|
        0 <= q < pool.len() ==> flags[q] == has_rkey(e, rkey(#[trigger] pool[q]))
}

fn ready_at<'a>(
    Ghost(s): Ghost<Seq<&'a Routine>>,
    pool: &Vec<&'a Routine>,
    edges: &Vec<(usize, usize)>,
    flags: &Vec<bool>,
    Ghost(e): Ghost<Seq<&'a Routine>>,
    p: usize,
) -> (r: bool)
    requires
        pool@ == pool_of(s),
        edges_complete(s, pool@, edges@),
        flags_match(pool@, flags@, e),
        p < pool.len(),
    ensures
        r == is_ready(s, e)(pool@[p as int]),
{
    proof {
        lemma_pool_keys(s);
    }
    let ghost kp = rkey(pool@[p as int]);
    if flags[p] {
        return false;
    }
    for m in 0..edges.len()
        invariant
            pool@ == pool_of(s),
            edges_complete(s, pool@, edges@),
            flags_match(pool@, flags@, e),
            p < pool.len(),
            kp == rkey(pool@[p as int]),
            forall|m2: int| 0 <= m2 < m && (#[trigger] edges@[m2]).0 == p ==> flags@[edges@[m2].1 as int],
    {
        let (a, t) = edges[m];
        if a == p && !flags[t] {
            proof {
                lemma_pool_keys(s);
                assert(edges@[m as int] == (a, t));
                assert(depends_on(s, kp, rkey(pool@[t as int])));
                assert(has_rkey(s, rkey(pool@[t as int]))) by {
                    assert(has_rkey(pool@, rkey(pool@[t as int])));
                }
                assert(!has_rkey(e, rkey(pool@[t as int])));
                assert(!deps_done(s, e, kp));
            }
            return false;
        }
    }
    proof {
        assert forall|d: Seq<Seq<char>>| #[trigger] depends_on(s, kp, d) && has_rkey(s, d) implies has_rkey(e, d) by {
            assert(has_rkey(pool@, d));
            let t = choose|t: int| 0 <= t < pool@.len() && #[trigger] rkey(pool@[t]) == d;
            assert(depends_on(s, rkey(pool@[p as int]), rkey(pool@[t])));
            let m2 = choose|m2: int| 0 <= m2 < edges@.len() && edges@[m2] == (p, t as usize);
            assert(flags@[edges@[m2].1 as int]);
            assert(flags@[t]);
        }
    }
    true
}

fn pick_ready<'a>(
    Ghost(s): Ghost<Seq<&'a Routine>>,
    pool: &Vec<&'a Routine>,
    edges: &Vec<(usize, usize)>,
    flags: &Vec<bool>,
    Ghost(e): Ghost<Seq<&'a Routine>>,
) -> (r: Option<usize>)
    requires
        pool@ == pool_of(s),
        edges_complete(s, pool@, edges@),
        flags_match(pool@, flags@, e),
    ensures
        match r {
            Some(b) => b < pool.len() && min_where(pool@, is_ready(s, e)) == Some(pool@[b as int]),
            None => min_where(pool@, is_ready(s, e)) == None::<&'a Routine>,
        },
{
    let mut best: Option<usize> = None;
    for p in 0..pool.len()
        invariant
            pool@ == pool_of(s),
            edges_complete(s, pool@, edges@),
            flags_match(pool@, flags@, e),
            match best {
                Some(b) => b < p && min_where(pool@.take(p as int), is_ready(s, e)) == Some(
                    pool@[b as int],
                ),
                None => min_where(pool@.take(p as int), is_ready(s, e)) == None::<&'a Routine>,
            },
    {
        assert(pool@.take(p + 1).drop_last() == pool@.take(p as int));
        assert(pool@.take(p + 1).last() == pool@[p as int]);
        if ready_at(Ghost(s), pool, edges, flags, Ghost(e), p) {
            match best {
                None => {
                    best = Some(p);
                },
                Some(b) => {
                    if !rkey_le(pool[b], pool[p]) {
                        best = Some(p);
                    }
                },
            }
        }
    }
    assert(pool@.take(pool.len() as int) == pool@);
    best
}

fn pick_left<'a>(pool: &Vec<&'a Routine>, flags: &Vec<bool>, Ghost(e): Ghost<Seq<&'a Routine>>) -> (r: Option<usize>)
    requires
        flags_match(pool@, flags@, e),
    ensures
        match r {
            Some(b) => b < pool.len() && min_where(pool@, is_left(e)) == Some(pool@[b as int]),
            None => min_where(pool@, is_left(e)) == None::<&'a Routine>,
        },
{
    let mut best: Option<usize> = None;
    for p in 0..pool.len()
        invariant
            flags_match(pool@, flags@, e),
            match best {
                Some(b) => b < p && min_where(pool@.take(p as int), is_left(e)) == Some(
                    pool@[b as int],
                ),
                None => min_where(pool@.take(p as int), is_left(e)) == None::<&'a Routine>,
            },
    {
        assert(pool@.take(p + 1).drop_last() == pool@.take(p as int));
        assert(pool@.take(p + 1).last() == pool@[p as int]);
        if !flags[p] {
            match best {
                None => {
                    best = Some(p);
                },
                Some(b) => {
                    if !rkey_le(pool[b], pool[p]) {
                        best = Some(p);
                    }
                },
            }
        }
    }
    assert(pool@.take(pool.len() as int) == pool@);
    best
}

proof fn lemma_flags_push<'a>(s: Seq<&'a Routine>, pool: Seq<&'a Routine>, flags: Seq<bool>, e: Seq<&'a Routine>, b: int)
    requires
        pool == pool_of(s),
        flags_match(pool, flags, e),
        0 <= b < pool.len(),
    ensures
        flags_match(pool, flags.update(b, true), e.push(pool[b])),
{
    lemma_pool_keys(s);
    let e2 = e.push(pool[b]);
    assert forall|q: int| 0 <= q < pool.len() implies flags.update(b, true)[q] == has_rkey(e2, rkey(#[trigger] pool[q])) by {
        if q == b {
            assert(rkey(e2[e.len() as int]) == rkey(pool[b]));
        } else {
            assert(rkey(pool[q]) != rkey(pool[b]));
            if has_rkey(e, rkey(pool[q])) {
                let i = choose|i: int| 0 <= i < e.len() && #[trigger] rkey(e[i]) == rkey(pool[q]);
                assert(e2[i] == e[i]);
            }
            if has_rkey(e2, rkey(pool[q])) {
                let i = choose|i: int| 0 <= i < e2.len() && #[trigger] rkey(e2[i]) == rkey(pool[q]);
                if i < e.len() {
                    assert(e[i] == e2[i]);
                }
            }
        }
    }
}

/// `v` in reverse order.
pub fn reversed<T: Copy>(v: &Vec<T>) -> (r: Vec<T>)
    ensures
        r@ == v@.reverse(),
{
    let mut r: Vec<T> = Vec::new();
    let mut i = v.len();
    while i > 0
        invariant
            i <= v.len(),
            r@.len() == v.len() - i,
            forall|j: int| 0 <= j < r@.len() ==> r@[j] == v@[v.len() - 1 - j],
        decreases i,
    {
        i = i - 1;
        r.push(v[i]);
    }
    assert(r@ =~= v@.reverse());
    r
}

/// One routine per full key (the last given), each placed after the
/// routines among `routines` it depends on, ties broken by the smallest
/// key; routines caught in a dependency cycle follow by key. Reversed when
/// `reverse` holds, so that dependents come first.
pub fn topological_order<'a>(routines: Vec<&'a Routine>, reverse: bool) -> (r: Vec<&'a Routine>)
    ensures
        r@ == topological_spec(routines@, reverse),
{
    let ghost s = routines@;
    let pool = last_per_key(&routines);
    let edges = dependency_edges(&routines, &pool);
    let mut flags: Vec<bool> = Vec::new();
    for i in 0..pool.len()
        invariant
            flags@.len() == i,
            forall|q: int| 0 <= q < i ==> !flags@[q],
    {
        flags.push(false);
    }
    let mut emitted: Vec<&'a Routine> = Vec::new();
    assert(flags_match(pool@, flags@, emitted@));
    let mut n = pool.len();
    let mut ready_phase = true;
    let ghost target = dependency_order(s);
    while n > 0
        invariant
            pool@ == pool_of(s),
            edges_complete(s, pool@, edges@),
            flags_match(pool@, flags@, emitted@),
            target == if ready_phase {
                emit_ready(s, pool@, emitted@, n as nat)
            } else {
                finish_rest(pool@, emitted@, n as nat)
            },
        decreases n, if ready_phase { 1int } else { 0int },
    {
        if ready_phase {
            match pick_ready(Ghost(s), &pool, &edges, &flags, Ghost(emitted@)) {
                Some(b) => {
                    proof {
                        lemma_flags_push(s, pool@, flags@, emitted@, b as int);
                    }
                    emitted.push(pool[b]);
                    flags.set(b, true);
                    n = n - 1;
                },
                None => {
                    ready_phase = false;
                },
            }
        } else {
            match pick_left(&pool, &flags, Ghost(emitted@)) {
                Some(b) => {
                    proof {
                        lemma_flags_push(s, pool@, flags@, emitted@, b as int);
                    }
                    emitted.push(pool[b]);
                    flags.set(b, true);
                    n = n - 1;
                },
                None => {
                    n = 0;
                },
            }
        }
    }
    if reverse {
        reversed(&emitted)
    } else {
        emitted
    }
}

/// Whether no two routines of `s` share a full key.
pub open spec fn distinct_rkeys<'a>(s: Seq<&'a Routine>) -> bool {
    forall|i: int, j: int|
        0 <= i < s.len() && 0 <= j < s.len() && i != j ==> rkey(#[trigger] s[i]) != rkey(#[trigger] s[j])
}

/// Whether `rank` strictly lowers along every dependency among the routines
/// of `s`, so that their dependencies form no cycle.
pub open spec fn ranks_dependencies<'a>(s: Seq<&'a Routine>, rank: spec_fn(Seq<Seq<char>>) -> nat) -> bool {
    forall|k: Seq<Seq<char>>, d: Seq<Seq<char>>|
        #[trigger] depends_on(s, k, d) && has_rkey(s, d) ==> rank(d) < rank(k)
}

/// Whether every routine of `e` comes after each routine among `s` that it
/// depends on.
pub open spec fn dependencies_before<'a>(s: Seq<&'a Routine>, e: Seq<&'a Routine>) -> bool {
    forall|j: int, d: Seq<Seq<char>>|
        0 <= j < e.len() && #[trigger] depends_on(s, rkey(e[j]), d) && has_rkey(s, d) ==> exists|i: int|
            0 <= i < j && #[trigger] rkey(e[i]) == d
}

proof fn lemma_min_where<'a>(pool: Seq<&'a Routine>, pred: spec_fn(&'a Routine) -> bool)
    ensures
        match min_where(pool, pred) {
            Some(x) => pred(x) && exists|i: int| 0 <= i < pool.len() && pool[i] == x,
            None => forall|i: int| 0 <= i < pool.len() ==> !pred(#[trigger] pool[i]),
        },
    decreases pool.len(),
{
    if pool.len() > 0 {
        let init = pool.drop_last();
        lemma_min_where(init, pred);
        match min_where(init, pred) {
            Some(y) => {
                let i = choose|i: int| 0 <= i < init.len() && init[i] == y;
                assert(pool[i] == y);
            },
            None => {
                assert forall|i: int| 0 <= i < pool.len() - 1 implies !pred(#[trigger] pool[i]) by {
                    assert(pool[i] == init[i]);
                }
            },
        }
    }
}

/// The keys of `p`, as a set.
spec fn key_set<'a>(p: Seq<&'a Routine>) -> Set<Seq<Seq<char>>> {
    p.map_values(|r: &'a Routine| rkey(r)).to_set()
}

proof fn lemma_key_set<'a>(p: Seq<&'a Routine>)
    ensures
        forall|k: Seq<Seq<char>>| #[trigger] key_set(p).contains(k) == has_rkey(p, k),
        key_set(p).finite(),
        key_set(p).len() <= p.len(),
        distinct_rkeys(p) ==> key_set(p).len() == p.len(),
{
    let m = p.map_values(|r: &'a Routine| rkey(r));
    assert forall|k: Seq<Seq<char>>| #[trigger] key_set(p).contains(k) == has_rkey(p, k) by {
        if has_rkey(p, k) {
            let i = choose|i: int| 0 <= i < p.len() && #[trigger] rkey(p[i]) == k;
            assert(m[i] == k);
        }
        if m.contains(k) {
            let i = choose|i: int| 0 <= i < m.len() && m[i] == k;
            assert(rkey(p[i]) == k);
        }
    }
    vstd::seq_lib::seq_to_set_is_finite(m);
    m.lemma_cardinality_of_set();
    if distinct_rkeys(p) {
        assert(m.no_duplicates()) by {
            assert forall|i: int, j: int| 0 <= i < m.len() && 0 <= j < m.len() && i != j implies m[i] != m[j] by {
                assert(rkey(p[i]) != rkey(p[j]));
            }
        }
        m.unique_seq_to_set();
    }
}

/// Distinct keys of `a`, all found in `b`, are no more than `b` holds; and
/// as many as `b` holds when `b`'s keys are distinct too, then every key of
/// `b` is among them.
proof fn lemma_count_keys<'a>(a: Seq<&'a Routine>, b: Seq<&'a Routine>)
    requires
        distinct_rkeys(a),
        forall|i: int| 0 <= i < a.len() ==> has_rkey(b, rkey(#[trigger] a[i])),
    ensures
        a.len() <= b.len(),
        distinct_rkeys(b) && a.len() == b.len() ==> forall|k: Seq<Seq<char>>|
            #[trigger] has_rkey(b, k) ==> has_rkey(a, k),
{
    lemma_key_set(a);
    lemma_key_set(b);
    assert(key_set(a).subset_of(key_set(b))) by {
        assert forall|k: Seq<Seq<char>>| key_set(a).contains(k) implies key_set(b).contains(k) by {
            let i = choose|i: int| 0 <= i < a.len() && #[trigger] rkey(a[i]) == k;
        }
    }
    vstd::set_lib::lemma_len_subset(key_set(a), key_set(b));
    if distinct_rkeys(b) && a.len() == b.len() {
        vstd::set_lib::lemma_subset_equality(key_set(a), key_set(b));
        assert forall|k: Seq<Seq<char>>| #[trigger] has_rkey(b, k) implies has_rkey(a, k) by {
            assert(key_set(b).contains(k));
        }
    }
}

/// What an emission keeps: distinct keys, each the key of a pool routine.
pub open spec fn emission_ok<'a>(pool: Seq<&'a Routine>, e: Seq<&'a Routine>) -> bool {
    &&& distinct_rkeys(e)
    &&& forall|i: int| 0 <= i < e.len() ==> has_rkey(pool, rkey(#[trigger] e[i]))
}

proof fn lemma_emit_push<'a>(pool: Seq<&'a Routine>, e: Seq<&'a Routine>, r: &'a Routine)
    requires
        emission_ok(pool, e),
        !has_rkey(e, rkey(r)),
        exists|i: int| 0 <= i < pool.len() && pool[i] == r,
    ensures
        emission_ok(pool, e.push(r)),
{
    let e2 = e.push(r);
    let q = choose|i: int| 0 <= i < pool.len() && pool[i] == r;
    assert(rkey(pool[q]) == rkey(r));
    assert forall|i: int| 0 <= i < e2.len() implies has_rkey(pool, rkey(#[trigger] e2[i])) by {
        if i < e.len() {
            assert(e2[i] == e[i]);
        }
    }
    assert forall|i: int, j: int|
        0 <= i < e2.len() && 0 <= j < e2.len() && i != j implies rkey(#[trigger] e2[i]) != rkey(#[trigger] e2[j]) by {
        if i < e.len() && j < e.len() {
            assert(e2[i] == e[i] && e2[j] == e[j]);
        } else if i < e.len() {
            assert(e2[i] == e[i]);
        } else {
            assert(e2[j] == e[j]);
        }
    }
}

proof fn lemma_emission_complete<'a>(pool: Seq<&'a Routine>, e: Seq<&'a Routine>)
    requires
        distinct_rkeys(pool),
        emission_ok(pool, e),
        e.len() >= pool.len(),
    ensures
        forall|k: Seq<Seq<char>>| #[trigger] has_rkey(e, k) == has_rkey(pool, k),
{
    lemma_count_keys(e, pool);
    assert forall|k: Seq<Seq<char>>| #[trigger] has_rkey(e, k) implies has_rkey(pool, k) by {
        let i = choose|i: int| 0 <= i < e.len() && #[trigger] rkey(e[i]) == k;
    }
}

proof fn lemma_finish_rest_keys<'a>(pool: Seq<&'a Routine>, e: Seq<&'a Routine>, n: nat)
    requires
        distinct_rkeys(pool),
        emission_ok(pool, e),
        n + e.len() == pool.len(),
    ensures
        emission_ok(pool, finish_rest(pool, e, n)),
        forall|k: Seq<Seq<char>>| #[trigger] has_rkey(finish_rest(pool, e, n), k) == has_rkey(pool, k),
    decreases n,
{
    if n == 0 {
        lemma_emission_complete(pool, e);
    } else {
        lemma_min_where(pool, is_left(e));
        match min_where(pool, is_left(e)) {
            Some(r) => {
                lemma_emit_push(pool, e, r);
                lemma_finish_rest_keys(pool, e.push(r), (n - 1) as nat);
            },
            None => {
                assert forall|k: Seq<Seq<char>>| #[trigger] has_rkey(e, k) == has_rkey(pool, k) by {
                    if has_rkey(pool, k) {
                        let q = choose|q: int| 0 <= q < pool.len() && #[trigger] rkey(pool[q]) == k;
                        assert(!is_left(e)(pool[q]));
                    }
                    if has_rkey(e, k) {
                        let i = choose|i: int| 0 <= i < e.len() && #[trigger] rkey(e[i]) == k;
                    }
                }
            },
        }
    }
}

proof fn lemma_emit_ready_keys<'a>(s: Seq<&'a Routine>, pool: Seq<&'a Routine>, e: Seq<&'a Routine>, n: nat)
    requires
        distinct_rkeys(pool),
        emission_ok(pool, e),
        n + e.len() == pool.len(),
    ensures
        emission_ok(pool, emit_ready(s, pool, e, n)),
        forall|k: Seq<Seq<char>>| #[trigger] has_rkey(emit_ready(s, pool, e, n), k) == has_rkey(pool, k),
    decreases n,
{
    if n == 0 {
        lemma_emission_complete(pool, e);
    } else {
        lemma_min_where(pool, is_ready(s, e));
        match min_where(pool, is_ready(s, e)) {
            Some(r) => {
                lemma_emit_push(pool, e, r);
                lemma_emit_ready_keys(s, pool, e.push(r), (n - 1) as nat);
            },
            None => {
                lemma_finish_rest_keys(pool, e, n);
            },
        }
    }
}

/// The routine of `pool` not yet emitted whose rank is least.
proof fn lemma_least_rank_left<'a>(pool: Seq<&'a Routine>, e: Seq<&'a Routine>, rank: spec_fn(Seq<Seq<char>>) -> nat) -> (m: int)
    requires
        exists|q: int| 0 <= q < pool.len() && !has_rkey(e, rkey(#[trigger] pool[q])),
    ensures
        0 <= m < pool.len(),
        !has_rkey(e, rkey(pool[m])),
        forall|q: int| 0 <= q < pool.len() && !has_rkey(e, rkey(#[trigger] pool[q])) ==> rank(rkey(pool[m])) <= rank(rkey(pool[q])),
    decreases pool.len(),
{
    let init = pool.drop_last();
    let x = pool.last();
    if exists|q: int| 0 <= q < init.len() && !has_rkey(e, rkey(#[trigger] init[q])) {
        let m0 = lemma_least_rank_left(init, e, rank);
        assert(pool[m0] == init[m0]);
        let m = if !has_rkey(e, rkey(x)) && rank(rkey(x)) < rank(rkey(init[m0])) {
            pool.len() - 1
        } else {
            m0
        };
        assert forall|q: int| 0 <= q < pool.len() && !has_rkey(e, rkey(#[trigger] pool[q])) implies rank(rkey(pool[m])) <= rank(rkey(pool[q])) by {
            if q < pool.len() - 1 {
                assert(pool[q] == init[q]);
            }
        }
        m
    } else {
        assert forall|q: int| 0 <= q < pool.len() && !has_rkey(e, rkey(#[trigger] pool[q])) implies q == pool.len() - 1 by {
            if q < pool.len() - 1 {
                assert(pool[q] == init[q]);
            }
        }
        pool.len() - 1
    }
}

proof fn lemma_emit_ready_order<'a>(
    s: Seq<&'a Routine>,
    e: Seq<&'a Routine>,
    n: nat,
    rank: spec_fn(Seq<Seq<char>>) -> nat,
)
    requires
        ranks_dependencies(s, rank),
        emission_ok(pool_of(s), e),
        dependencies_before(s, e),
        n + e.len() == pool_of(s).len(),
    ensures
        dependencies_before(s, emit_ready(s, pool_of(s), e, n)),
    decreases n,
{
    let pool = pool_of(s);
    lemma_pool_keys(s);
    if n > 0 {
        lemma_min_where(pool, is_ready(s, e));
        match min_where(pool, is_ready(s, e)) {
            Some(r) => {
                lemma_emit_push(pool, e, r);
                let e2 = e.push(r);
                assert forall|j: int, d: Seq<Seq<char>>|
                    0 <= j < e2.len() && #[trigger] depends_on(s, rkey(e2[j]), d) && has_rkey(s, d) implies exists|i: int|
                        0 <= i < j && #[trigger] rkey(e2[i]) == d by {
                    if j < e.len() {
                        assert(e2[j] == e[j]);
                        let i = choose|i: int| 0 <= i < j && #[trigger] rkey(e[i]) == d;
                        assert(e2[i] == e[i]);
                    } else {
                        assert(e2[j] == r);
                        assert(deps_done(s, e, rkey(r)));
                        assert(has_rkey(e, d));
                        let i = choose|i: int| 0 <= i < e.len() && #[trigger] rkey(e[i]) == d;
                        assert(e2[i] == e[i]);
                    }
                }
                lemma_emit_ready_order(s, e2, (n - 1) as nat, rank);
            },
            None => {
                if !exists|q: int| 0 <= q < pool.len() && !has_rkey(e, rkey(#[trigger] pool[q])) {
                    assert forall|i: int| 0 <= i < pool.len() implies has_rkey(e, rkey(#[trigger] pool[i])) by {
                        assert(!(0 <= i < pool.len() && !has_rkey(e, rkey(pool[i]))));
                    }
                    lemma_count_keys(pool, e);
                }
                let m = lemma_least_rank_left(pool, e, rank);
                let x = pool[m];
                assert(deps_done(s, e, rkey(x))) by {
                    assert forall|d: Seq<Seq<char>>| #[trigger] depends_on(s, rkey(x), d) && has_rkey(s, d) implies has_rkey(e, d) by {
                        assert(rank(d) < rank(rkey(x)));
                        assert(has_rkey(pool, d));
                        let q = choose|q: int| 0 <= q < pool.len() && #[trigger] rkey(pool[q]) == d;
                        if !has_rkey(e, rkey(pool[q])) {
                            assert(rank(rkey(x)) <= rank(rkey(pool[q])));
                        }
                    }
                }
                assert(is_ready(s, e)(x));
            },
        }
    }
}

/// Ordering routines keeps one routine per full key: no two routines of the
/// result share a key, and a key occurs in the result exactly when it
/// occurs among the routines given.
pub proof fn lemma_topological_keys<'a>(s: Seq<&'a Routine>, reverse: bool)
    ensures
        distinct_rkeys(topological_spec(s, reverse)),
        forall|k: Seq<Seq<char>>| #[trigger] has_rkey(topological_spec(s, reverse), k) == has_rkey(s, k),
{
    let pool = pool_of(s);
    lemma_pool_keys(s);
    assert(emission_ok(pool, Seq::<&'a Routine>::empty()));
    lemma_emit_ready_keys(s, pool, Seq::empty(), pool.len());
    let out = dependency_order(s);
    if reverse {
        let r = out.reverse();
        assert forall|i: int, j: int|
            0 <= i < r.len() && 0 <= j < r.len() && i != j implies rkey(#[trigger] r[i]) != rkey(#[trigger] r[j]) by {
            assert(r[i] == out[out.len() - 1 - i] && r[j] == out[out.len() - 1 - j]);
        }
        assert forall|k: Seq<Seq<char>>| #[trigger] has_rkey(r, k) == has_rkey(out, k) by {
            if has_rkey(r, k) {
                let i = choose|i: int| 0 <= i < r.len() && #[trigger] rkey(r[i]) == k;
                assert(r[i] == out[out.len() - 1 - i]);
            }
            if has_rkey(out, k) {
                let i = choose|i: int| 0 <= i < out.len() && #[trigger] rkey(out[i]) == k;
                assert(r[out.len() - 1 - i] == out[i]);
            }
        }
    }
}

/// Where the dependencies among the routines form no cycle (some rank
/// lowers along each of them), the creation order puts every routine after
/// each routine among those given that it depends on, and the drop order
/// puts it before each of them.
pub proof fn lemma_topological_dependencies<'a>(s: Seq<&'a Routine>, rank: spec_fn(Seq<Seq<char>>) -> nat)
    requires
        ranks_dependencies(s, rank),
    ensures
        forall|i: int, j: int|
            0 <= i < j < topological_spec(s, false).len() ==> !depends_on(
                s,
                rkey(#[trigger] topological_spec(s, false)[i]),
                rkey(#[trigger] topological_spec(s, false)[j]),
            ),
        forall|i: int, j: int|
            0 <= i < j < topological_spec(s, true).len() ==> !depends_on(
                s,
                rkey(#[trigger] topological_spec(s, true)[j]),
                rkey(#[trigger] topological_spec(s, true)[i]),
            ),
{
    let pool = pool_of(s);
    lemma_pool_keys(s);
    assert(emission_ok(pool, Seq::<&'a Routine>::empty()));
    lemma_emit_ready_order(s, Seq::empty(), pool.len(), rank);
    lemma_topological_keys(s, false);
    let out = dependency_order(s);
    assert(out == topological_spec(s, false));
    assert forall|i: int, j: int| 0 <= i < j < out.len() implies !depends_on(s, rkey(#[trigger] out[i]), rkey(#[trigger] out[j])) by {
        if depends_on(s, rkey(out[i]), rkey(out[j])) {
            assert(has_rkey(out, rkey(out[j])));
            let m = choose|m: int| 0 <= m < i && #[trigger] rkey(out[m]) == rkey(out[j]);
        }
    }
    let r = out.reverse();
    assert(r == topological_spec(s, true));
    assert forall|i: int, j: int| 0 <= i < j < r.len() implies !depends_on(s, rkey(#[trigger] r[j]), rkey(#[trigger] r[i])) by {
        assert(r[i] == out[out.len() - 1 - i] && r[j] == out[out.len() - 1 - j]);
    }
}

impl Keyed for RoutineDependencyRow {
    open spec fn key(&self) -> Seq<Seq<char>> {
        seq![self.schema@, self.name@, self.identity_arguments@]
    }

    fn same_key(&self, other: &Self) -> (r: bool) {
        proof {
            lemma_triple_key_eq(
                self.schema@,
                self.name@,
                self.identity_arguments@,
                other.schema@,
                other.name@,
                other.identity_arguments@,
            );
        }
        self.schema == other.schema && self.name == other.name && self.identity_arguments
            == other.identity_arguments
    }

    fn key_before_eq(&self, other: &Self) -> (r: bool) {
        triple_le(
            self.schema.as_str(),
            self.name.as_str(),
            self.identity_arguments.as_str(),
            other.schema.as_str(),
            other.name.as_str(),
            other.identity_arguments.as_str(),
        )
    }
}

/// The keys of a sequence of keyed values.
pub open spec fn keys_of<'a, T: Keyed>(s: Seq<&'a T>) -> Seq<Seq<Seq<char>>> {
    s.map_values(|x: &'a T| x.key())
}

/// `s` with each run of equal neighbours collapsed to one element.
pub open spec fn dedup_adjacent(s: Seq<Seq<Seq<char>>>) -> Seq<Seq<Seq<char>>>
    decreases s.len(),
{
    if s.len() == 0 {
        Seq::empty()
    } else {
        let d = dedup_adjacent(s.drop_last());
        if d.len() > 0 && d.last() == s.last() {
            d
        } else {
            d.push(s.last())
        }
    }
}

/// The keys of a routine's dependencies.
pub open spec fn dependency_keys(r: &Routine) -> Seq<Seq<Seq<char>>> {
    r.dependencies@.map_values(|k: RoutineKey| k.key())
}

/// Whether two routines are equal field by field.
pub open spec fn same_routine(a: &Routine, b: &Routine) -> bool {
    &&& a.schema@ == b.schema@
    &&& a.name@ == b.name@
    &&& a.kind == b.kind
    &&& a.identity_arguments@ == b.identity_arguments@
    &&& a.definition@ == b.definition@
    &&& dependency_keys(a) == dependency_keys(b)
}

/// The keyword that names a routine kind in `DROP`: window functions are
/// dropped as functions.
pub open spec fn routine_kind_word(k: RoutineKind) -> Seq<char> {
    match k {
        RoutineKind::Function => "FUNCTION"@,
        RoutineKind::Procedure => "PROCEDURE"@,
        RoutineKind::Aggregate => "AGGREGATE"@,
        RoutineKind::Window => "FUNCTION"@,
    }
}

/// The routine's definition as a complete statement.
pub open spec fn routine_create_sql(r: &Routine) -> Seq<char> {
    terminated_statement(r.definition@)
}

/// `DROP <kind> "schema"."name"(<identity arguments>);` and a newline.
pub open spec fn routine_drop_sql(r: &Routine) -> Seq<char> {
    "DROP "@ + routine_kind_word(r.kind) + " "@ + qualified_spec(r.schema@, r.name@) + "("@
        + r.identity_arguments@ + ");\n"@
}

/// Two routines count as unchanged exactly when schema, name, kind,
/// identity arguments, definition and dependencies are all the same.
pub proof fn lemma_routine_same_fields(a: &Routine, b: &Routine)
    ensures
        same_routine(a, b) <==> (a.schema@ == b.schema@ && a.name@ == b.name@ && a.kind == b.kind
            && a.identity_arguments@ == b.identity_arguments@ && a.definition@ == b.definition@
            && dependency_keys(a) == dependency_keys(b)),
{
}

/// A routine is dropped with the statement of its kind: `DROP FUNCTION`
/// for functions and window functions, `DROP PROCEDURE` for procedures,
/// `DROP AGGREGATE` for aggregates; the statement names the routine with
/// its identity arguments in parentheses and ends the line.
pub proof fn lemma_routine_drop_keyword(r: &Routine)
    ensures
        r.kind == RoutineKind::Function ==> starts_with(routine_drop_sql(r), "DROP FUNCTION "@),
        r.kind == RoutineKind::Window ==> starts_with(routine_drop_sql(r), "DROP FUNCTION "@),
        r.kind == RoutineKind::Procedure ==> starts_with(routine_drop_sql(r), "DROP PROCEDURE "@),
        r.kind == RoutineKind::Aggregate ==> starts_with(routine_drop_sql(r), "DROP AGGREGATE "@),
        ends_with(
            routine_drop_sql(r),
            qualified_spec(r.schema@, r.name@) + "("@ + r.identity_arguments@ + ");\n"@,
        ),
{
    reveal_strlit("DROP ");
    reveal_strlit(" ");
    reveal_strlit("FUNCTION");
    reveal_strlit("PROCEDURE");
    reveal_strlit("AGGREGATE");
    reveal_strlit("DROP FUNCTION ");
    reveal_strlit("DROP PROCEDURE ");
    reveal_strlit("DROP AGGREGATE ");
    let head = "DROP "@ + routine_kind_word(r.kind) + " "@;
    let tail = qualified_spec(r.schema@, r.name@) + "("@ + r.identity_arguments@ + ");\n"@;
    let s = routine_drop_sql(r);
    assert(s =~= head + tail);
    assert(s.take(head.len() as int) =~= head);
    assert(s.skip(s.len() - tail.len()) =~= tail);
    match r.kind {
        RoutineKind::Function => assert(head =~= "DROP FUNCTION "@),
        RoutineKind::Window => assert(head =~= "DROP FUNCTION "@),
        RoutineKind::Procedure => assert(head =~= "DROP PROCEDURE "@),
        RoutineKind::Aggregate => assert(head =~= "DROP AGGREGATE "@),
    }
}

/// The routines to drop: those only in the old version, then the old side
/// of each changed pair.
pub open spec fn routines_to_drop<'a>(d: &Diff<'a, Routine>) -> Seq<&'a Routine> {
    d.a_only@ + changed_side(d.a_and_b@, false)
}

/// The routines to create: those only in the new version, then the new side
/// of each changed pair.
pub open spec fn routines_to_create<'a>(d: &Diff<'a, Routine>) -> Seq<&'a Routine> {
    d.b_only@ + changed_side(d.a_and_b@, true)
}

/// One side of each pair whose routines differ, in order.
pub open spec fn changed_side<'a>(p: Seq<(&'a Routine, &'a Routine)>, new_side: bool) -> Seq<&'a Routine>
    decreases p.len(),
{
    if p.len() == 0 {
        Seq::empty()
    } else {
        let rest = changed_side(p.drop_last(), new_side);
        if same_routine(p.last().0, p.last().1) {
            rest
        } else {
            rest.push(if new_side { p.last().1 } else { p.last().0 })
        }
    }
}

/// The statements for a matched routine collection: drops with dependents
/// first, then creations with dependencies first.
pub open spec fn routine_diff_sql<'a>(d: &Diff<'a, Routine>) -> Seq<(ChangeType, Seq<char>)> {
    topological_spec(routines_to_drop(d), true).map_values(
        |r: &'a Routine| (ChangeType::DropRoutine, routine_drop_sql(r)),
    ) + topological_spec(routines_to_create(d), false).map_values(
        |r: &'a Routine| (ChangeType::CreateRoutine, routine_create_sql(r)),
    )
}

fn same_keys(a: &Vec<RoutineKey>, b: &Vec<RoutineKey>) -> (r: bool)
    ensures
        r == (a@.map_values(|k: RoutineKey| k.key()) == b@.map_values(|k: RoutineKey| k.key())),
{
    if a.len() != b.len() {
        assert(a@.map_values(|k: RoutineKey| k.key()).len() != b@.map_values(|k: RoutineKey| k.key()).len());
        return false;
    }
    for i in 0..a.len()
        invariant
            a.len() == b.len(),
            forall|j: int| 0 <= j < i ==> #[trigger] a@[j].key() == b@[j].key(),
    {
        if !a[i].same_key(&b[i]) {
            assert(a@.map_values(|k: RoutineKey| k.key())[i as int] != b@.map_values(|k: RoutineKey| k.key())[i as int]);
            return false;
        }
    }
    assert(a@.map_values(|k: RoutineKey| k.key()) =~= b@.map_values(|k: RoutineKey| k.key()));
    true
}

impl Routine {
    /// The routine's full key.
    pub fn key(&self) -> (k: RoutineKey)
        ensures
            k.key() == rkey(self),
    {
        RoutineKey::new(self.schema.as_str(), self.name.as_str(), self.identity_arguments.as_str())
    }

    /// Whether `self` and `other` are equal field by field.
    pub fn same_as(&self, other: &Self) -> (r: bool)
        ensures
            r == same_routine(self, other),
    {
        self.schema == other.schema && self.name == other.name && self.kind == other.kind
            && self.identity_arguments == other.identity_arguments && self.definition
            == other.definition && same_keys(&self.dependencies, &other.dependencies)
    }

    /// The statement that creates this routine.
    pub fn create_sql(&self) -> (r: String)
        ensures
            r@ == routine_create_sql(self),
    {
        terminate_statement(self.definition.as_str())
    }

    /// The statement that drops this routine.
    pub fn drop_sql(&self) -> (r: String)
        ensures
            r@ == routine_drop_sql(self),
    {
        let thing = match self.kind {
            RoutineKind::Function => "FUNCTION",
            RoutineKind::Procedure => "PROCEDURE",
            RoutineKind::Aggregate => "AGGREGATE",
            RoutineKind::Window => "FUNCTION",
        };
        let mut s = string_of("DROP ");
        push_str(&mut s, thing);
        push_str(&mut s, " ");
        push_qualified(&mut s, self.schema.as_str(), self.name.as_str());
        push_str(&mut s, "(");
        push_str(&mut s, self.identity_arguments.as_str());
        push_str(&mut s, ");\n");
        s
    }

    /// `routines` in creation order: dependencies first.
    pub fn create_order<'a>(routines: Vec<&'a Routine>) -> (r: Vec<&'a Routine>)
        ensures
            r@ == topological_spec(routines@, false),
    {
        topological_order(routines, false)
    }

    /// `routines` in drop order: dependents first.
    pub fn drop_order<'a>(routines: Vec<&'a Routine>) -> (r: Vec<&'a Routine>)
        ensures
            r@ == topological_spec(routines@, true),
    {
        topological_order(routines, true)
    }

    /// A routine from its catalog row; the dependencies are sorted by key
    /// and duplicates removed.
    pub fn from_row(row: RoutineRow) -> (r: Routine)
        ensures
            r.schema@ == row.schema@,
            r.name@ == row.name@,
            r.kind == row.kind,
            r.identity_arguments@ == row.identity_arguments@,
            r.definition@ == row.definition@,
            dependency_keys(&r) == dedup_adjacent(keys_of(sort_by_key(refs_of(row.dependencies@)))),
    {
        let refs = refs(&row.dependencies);
        let sorted = sorted_by_key(refs);
        let ghost ks = keys_of(sorted@);
        let mut deps: Vec<RoutineKey> = Vec::new();
        for i in 0..sorted.len()
            invariant
                ks == keys_of(sorted@),
                deps@.map_values(|k: RoutineKey| k.key()) == dedup_adjacent(ks.take(i as int)),
        {
            let d = sorted[i];
            assert(ks.take(i + 1).drop_last() == ks.take(i as int));
            assert(ks.take(i + 1).last() == d.key());
            let ghost before = deps@;
            let dup = deps.len() > 0 && has_dep_key(&deps[deps.len() - 1], d);
            if !dup {
                deps.push(RoutineKey::new(d.schema.as_str(), d.name.as_str(), d.identity_arguments.as_str()));
                assert(deps@.map_values(|k: RoutineKey| k.key()) =~= before.map_values(|k: RoutineKey| k.key()).push(d.key()));
            } else {
                assert(before.map_values(|k: RoutineKey| k.key()).last() == before.last().key());
            }
        }
        assert(ks.take(sorted.len() as int) == ks);
        Routine {
            schema: row.schema,
            name: row.name,
            kind: row.kind,
            identity_arguments: row.identity_arguments,
            definition: row.definition,
            dependencies: deps,
        }
    }
}

fn has_dep_key(k: &RoutineKey, d: &RoutineDependencyRow) -> (r: bool)
    ensures
        r == (k.key() == d.key()),
{
    proof {
        lemma_triple_key_eq(k.schema@, k.name@, k.identity_arguments@, d.schema@, d.name@, d.identity_arguments@);
    }
    k.schema == d.schema && k.name == d.name && k.identity_arguments == d.identity_arguments
}

impl<'a> DiffSql for Diff<'a, Routine> {
    open spec fn sql_defined(&self) -> bool {
        true
    }

    /// Drops of removed and changed routines, dependents first, then
    /// creations of new and changed routines, dependencies first.
    fn sql(&self) -> (r: Vec<(ChangeType, String)>)
        ensures
            stmts_view(r@) == routine_diff_sql(self),
    {
        let mut drops: Vec<&'a Routine> = Vec::new();
        let mut creates: Vec<&'a Routine> = Vec::new();
        for i in 0..self.a_only.len()
            invariant
                drops@ == self.a_only@.take(i as int),
        {
            drops.push(self.a_only[i]);
            assert(drops@ =~= self.a_only@.take(i + 1));
        }
        for i in 0..self.b_only.len()
            invariant
                creates@ == self.b_only@.take(i as int),
        {
            creates.push(self.b_only[i]);
            assert(creates@ =~= self.b_only@.take(i + 1));
        }
        assert(self.a_only@.take(self.a_only.len() as int) == self.a_only@);
        assert(self.b_only@.take(self.b_only.len() as int) == self.b_only@);
        for i in 0..self.a_and_b.len()
            invariant
                drops@ == self.a_only@ + changed_side(self.a_and_b@.take(i as int), false),
                creates@ == self.b_only@ + changed_side(self.a_and_b@.take(i as int), true),
        {
            let (a, b) = self.a_and_b[i];
            assert(self.a_and_b@.take(i + 1).drop_last() == self.a_and_b@.take(i as int));
            assert(self.a_and_b@.take(i + 1).last() == (a, b));
            if !a.same_as(b) {
                drops.push(a);
                creates.push(b);
            }
        }
        assert(self.a_and_b@.take(self.a_and_b.len() as int) == self.a_and_b@);
        let ordered_drops = Routine::drop_order(drops);
        let ordered_creates = Routine::create_order(creates);
        let mut v: Vec<(ChangeType, String)> = Vec::new();
        for i in 0..ordered_drops.len()
            invariant
                stmts_view(v@) == ordered_drops@.take(i as int).map_values(
                    |r: &'a Routine| (ChangeType::DropRoutine, routine_drop_sql(r)),
                ),
        {
            push_stmt(&mut v, ChangeType::DropRoutine, ordered_drops[i].drop_sql());
            assert(ordered_drops@.take(i + 1).map_values(
                |r: &'a Routine| (ChangeType::DropRoutine, routine_drop_sql(r)),
            ) =~= ordered_drops@.take(i as int).map_values(
                |r: &'a Routine| (ChangeType::DropRoutine, routine_drop_sql(r)),
            ).push((ChangeType::DropRoutine, routine_drop_sql(ordered_drops@[i as int]))));
        }
        assert(ordered_drops@.take(ordered_drops.len() as int) == ordered_drops@);
        let ghost dropped = stmts_view(v@);
        for i in 0..ordered_creates.len()
            invariant
                stmts_view(v@) == dropped + ordered_creates@.take(i as int).map_values(
                    |r: &'a Routine| (ChangeType::CreateRoutine, routine_create_sql(r)),
                ),
        {
            push_stmt(&mut v, ChangeType::CreateRoutine, ordered_creates[i].create_sql());
            assert(ordered_creates@.take(i + 1).map_values(
                |r: &'a Routine| (ChangeType::CreateRoutine, routine_create_sql(r)),
            ) =~= ordered_creates@.take(i as int).map_values(
                |r: &'a Routine| (ChangeType::CreateRoutine, routine_create_sql(r)),
            ).push((ChangeType::CreateRoutine, routine_create_sql(ordered_creates@[i as int]))));
        }
        assert(ordered_creates@.take(ordered_creates.len() as int) == ordered_creates@);
        v
    }
}

} // verus!
