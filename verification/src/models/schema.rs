//! A schema's objects and the SQL that turns one version of it into
//! another.
use vstd::prelude::*;
use crate::collection::KeyMap;
use crate::diff::{
    ChangeType, Diff, DiffSql, SqlObject, change_rank, change_rank_count, changes_of, diff_sql_defined, render_diff, creates_of, diff, drops_of, extend_stmts,
    is_diff_of, lemma_diff_self, matched_pairs, only_in_a, stmts_view, unmatched_b,
};
use crate::models::constraint::Constraint;
use crate::models::domain::Domain;
use crate::models::enums::Enum;
use crate::models::extension::Extension;
use crate::models::index::Index;
use crate::models::routine::{Routine, routine_diff_sql, routines_to_create, routines_to_drop, topological_spec, routine_drop_sql, routine_create_sql, changed_side};
use crate::models::trigger::Trigger;
use crate::models::view;
use crate::order::{Keyed, distinct_keys, lemma_single_key_eq, lemma_sort_by_key_distinct, single_le, sort_by_key, sorted_by_key};
use crate::text::{copy_string, join_strings, join_with, string_of, views};

verus! {

/// A schema and its objects, each collection keyed as the catalog keys it.
#[derive(Debug, PartialEq, Eq)]
pub struct Schema {
    pub name: String,
    pub enums: KeyMap<String, Enum>,
    pub domains: KeyMap<String, Domain>,
    pub extensions: KeyMap<String, Extension>,
    pub indexes: KeyMap<String, Index>,
    pub views: KeyMap<String, view::View>,
    pub routines: KeyMap<(String, String), Routine>,
    pub triggers: KeyMap<(String, String), Trigger>,
    pub constraints: KeyMap<(String, String), Constraint>,
}

/// References to the values of a map, in entry order.
pub open spec fn values_of<'a, K: crate::collection::MapKey, V>(m: &'a KeyMap<K, V>) -> Seq<&'a V> {
    Seq::new(m.entries().len(), |i: int| &m.entries()[i].1)
}

/// The values of a map sorted by their key.
pub open spec fn sorted_values<'a, K: crate::collection::MapKey, V: Keyed>(m: &'a KeyMap<K, V>) -> Seq<&'a V> {
    sort_by_key(values_of(m))
}

/// The statements for two sorted collections matched by key.
pub open spec fn keyed_sql<'a, T: SqlObject>(a: Seq<&'a T>, b: Seq<&'a T>) -> Seq<(ChangeType, Seq<char>)> {
    drops_of(only_in_a(a, b)) + changes_of(matched_pairs(a, b)) + creates_of(unmatched_b(a, b))
}

/// Whether every changed pair of two collections can be rendered.
pub open spec fn keyed_defined<'a, T: SqlObject>(a: Seq<&'a T>, b: Seq<&'a T>) -> bool {
    forall|i: int|
        0 <= i < matched_pairs(a, b).len() ==> !(#[trigger] matched_pairs(a, b)[i]).0.same(
            matched_pairs(a, b)[i].1,
        ) ==> matched_pairs(a, b)[i].1.change_defined(matched_pairs(a, b)[i].0)
}

/// The routine statements for two sorted collections matched by key.
pub open spec fn routine_sql<'a>(a: Seq<&'a Routine>, b: Seq<&'a Routine>) -> Seq<(ChangeType, Seq<char>)> {
    topological_spec(only_in_a(a, b) + changed_side(matched_pairs(a, b), false), true).map_values(
        |r: &'a Routine| (ChangeType::DropRoutine, routine_drop_sql(r)),
    ) + topological_spec(unmatched_b(a, b) + changed_side(matched_pairs(a, b), true), false).map_values(
        |r: &'a Routine| (ChangeType::CreateRoutine, routine_create_sql(r)),
    )
}

/// The statements that turn schema `a` into schema `b`: triggers, enums,
/// domains, extensions, routines, indexes, constraints, in that order.
pub open spec fn schema_change_sql(a: &Schema, b: &Schema) -> Seq<(ChangeType, Seq<char>)> {
    keyed_sql(sorted_values(&a.triggers), sorted_values(&b.triggers)) + keyed_sql(
        sorted_values(&a.enums),
        sorted_values(&b.enums),
    ) + keyed_sql(sorted_values(&a.domains), sorted_values(&b.domains)) + keyed_sql(
        sorted_values(&a.extensions),
        sorted_values(&b.extensions),
    ) + routine_sql(sorted_values(&a.routines), sorted_values(&b.routines)) + keyed_sql(
        sorted_values(&a.indexes),
        sorted_values(&b.indexes),
    ) + keyed_sql(sorted_values(&a.constraints), sorted_values(&b.constraints))
}

/// Whether the change from schema `a` to schema `b` can be rendered.
pub open spec fn schema_change_defined(a: &Schema, b: &Schema) -> bool {
    keyed_defined(sorted_values(&a.triggers), sorted_values(&b.triggers)) && keyed_defined(
        sorted_values(&a.enums),
        sorted_values(&b.enums),
    ) && keyed_defined(sorted_values(&a.domains), sorted_values(&b.domains)) && keyed_defined(
        sorted_values(&a.extensions),
        sorted_values(&b.extensions),
    ) && keyed_defined(sorted_values(&a.indexes), sorted_values(&b.indexes)) && keyed_defined(
        sorted_values(&a.constraints),
        sorted_values(&b.constraints),
    )
}

fn sorted_values_of<'a, K: crate::collection::MapKey, V: Keyed>(m: &'a KeyMap<K, V>) -> (r: Vec<&'a V>)
    ensures
        r@ == sorted_values(m),
{
    let v = m.values();
    assert(v@ =~= values_of(m));
    sorted_by_key(v)
}

impl Keyed for Schema {
    open spec fn key(&self) -> Seq<Seq<char>> {
        seq![self.name@]
    }

    fn same_key(&self, other: &Self) -> (r: bool) {
        proof {
            lemma_single_key_eq(self.name@, other.name@);
        }
        self.name == other.name
    }

    fn key_before_eq(&self, other: &Self) -> (r: bool) {
        single_le(self.name.as_str(), other.name.as_str())
    }
}

impl Schema {
    /// An empty schema called `name`.
    pub fn new(name: &str) -> (s: Self)
        ensures
            s.name@ == name@,
            s.enums.entries().len() == 0,
            s.domains.entries().len() == 0,
            s.extensions.entries().len() == 0,
            s.indexes.entries().len() == 0,
            s.views.entries().len() == 0,
            s.routines.entries().len() == 0,
            s.triggers.entries().len() == 0,
            s.constraints.entries().len() == 0,
    {
        Schema {
            name: string_of(name),
            enums: KeyMap::new(),
            domains: KeyMap::new(),
            extensions: KeyMap::new(),
            indexes: KeyMap::new(),
            views: KeyMap::new(),
            routines: KeyMap::new(),
            triggers: KeyMap::new(),
            constraints: KeyMap::new(),
        }
    }

    /// Enums of both schemas, each sorted by name, matched by name.
    pub fn diff_enums<'a>(&'a self, other: &'a Self) -> (d: Diff<'a, Enum>)
        ensures
            is_diff_of(d, sorted_values(&self.enums), sorted_values(&other.enums)),
    {
        diff(sorted_values_of(&self.enums), sorted_values_of(&other.enums))
    }

    /// Domains of both schemas, each sorted by name, matched by name.
    pub fn diff_domains<'a>(&'a self, other: &'a Self) -> (d: Diff<'a, Domain>)
        ensures
            is_diff_of(d, sorted_values(&self.domains), sorted_values(&other.domains)),
    {
        diff(sorted_values_of(&self.domains), sorted_values_of(&other.domains))
    }

    /// Extensions of both schemas, each sorted by name, matched by name.
    pub fn diff_extensions<'a>(&'a self, other: &'a Self) -> (d: Diff<'a, Extension>)
        ensures
            is_diff_of(d, sorted_values(&self.extensions), sorted_values(&other.extensions)),
    {
        diff(sorted_values_of(&self.extensions), sorted_values_of(&other.extensions))
    }

    /// Indexes of both schemas, each sorted by name, matched by name.
    pub fn diff_indexes<'a>(&'a self, other: &'a Self) -> (d: Diff<'a, Index>)
        ensures
            is_diff_of(d, sorted_values(&self.indexes), sorted_values(&other.indexes)),
    {
        diff(sorted_values_of(&self.indexes), sorted_values_of(&other.indexes))
    }

    /// Constraints of both schemas, each sorted by (table, name), matched
    /// by (table, name).
    pub fn diff_constraints<'a>(&'a self, other: &'a Self) -> (d: Diff<'a, Constraint>)
        ensures
            is_diff_of(d, sorted_values(&self.constraints), sorted_values(&other.constraints)),
    {
        diff(sorted_values_of(&self.constraints), sorted_values_of(&other.constraints))
    }

    /// Routines of both schemas, each sorted by (name, identity arguments),
    /// matched by (name, identity arguments).
    pub fn diff_routines<'a>(&'a self, other: &'a Self) -> (d: Diff<'a, Routine>)
        ensures
            is_diff_of(d, sorted_values(&self.routines), sorted_values(&other.routines)),
    {
        diff(sorted_values_of(&self.routines), sorted_values_of(&other.routines))
    }

    /// Triggers of both schemas, each sorted by (table, name), matched by
    /// (table, name).
    pub fn diff_triggers<'a>(&'a self, other: &'a Self) -> (d: Diff<'a, Trigger>)
        ensures
            is_diff_of(d, sorted_values(&self.triggers), sorted_values(&other.triggers)),
    {
        diff(sorted_values_of(&self.triggers), sorted_values_of(&other.triggers))
    }
}

/// Whether the statements that turn schema `a` into schema `b` can be
/// rendered: every changed enum only gains labels at positions that exist
/// when each is added, or changes in a way that is only reported.
pub fn change_renderable(a: &Schema, b: &Schema) -> (r: bool)
    ensures
        r == schema_change_defined(a, b),
{
    let d = a.diff_enums(b);
    let ghost sa = sorted_values(&a.enums);
    let ghost sb = sorted_values(&b.enums);
    for i in 0..d.a_and_b.len()
        invariant
            is_diff_of(d, sa, sb),
            sa == sorted_values(&a.enums),
            sb == sorted_values(&b.enums),
            forall|k: int|
                0 <= k < i ==> !(#[trigger] matched_pairs(sa, sb)[k]).0.same(matched_pairs(sa, sb)[k].1)
                    ==> matched_pairs(sa, sb)[k].1.change_defined(matched_pairs(sa, sb)[k].0),
    {
        let (x, y) = d.a_and_b[i];
        assert(matched_pairs(sa, sb)[i as int] == (x, y));
        if !x.same_as(y) && !y.alter_renderable(x) {
            return false;
        }
    }
    true
}

/// The statements for each matched pair of schemas, in order.
pub open spec fn schema_pairs_sql<'a>(p: Seq<(&'a Schema, &'a Schema)>) -> Seq<(ChangeType, Seq<char>)>
    decreases p.len(),
{
    if p.len() == 0 {
        Seq::empty()
    } else {
        schema_pairs_sql(p.drop_last()) + schema_change_sql(p.last().0, p.last().1)
    }
}

fn keyed_stmts<'a, T: SqlObject>(d: &Diff<'a, T>, Ghost(a): Ghost<Seq<&'a T>>, Ghost(b): Ghost<Seq<&'a T>>) -> (r: Vec<(ChangeType, String)>)
    requires
        is_diff_of(*d, a, b),
        keyed_defined(a, b),
    ensures
        stmts_view(r@) == keyed_sql(a, b),
{
    assert(diff_sql_defined(d));
    render_diff(d)
}

/// The statements that turn schema `a` into schema `b`.
fn schema_change(a: &Schema, b: &Schema) -> (r: Vec<(ChangeType, String)>)
    requires
        schema_change_defined(a, b),
    ensures
        stmts_view(r@) == schema_change_sql(a, b),
{
    let mut v: Vec<(ChangeType, String)> = Vec::new();
    assert(stmts_view(v@) =~= Seq::<(ChangeType, Seq<char>)>::empty());
    let d = a.diff_triggers(b);
    extend_stmts(&mut v, keyed_stmts(&d, Ghost(sorted_values(&a.triggers)), Ghost(sorted_values(&b.triggers))));
    let d = a.diff_enums(b);
    extend_stmts(&mut v, keyed_stmts(&d, Ghost(sorted_values(&a.enums)), Ghost(sorted_values(&b.enums))));
    let d = a.diff_domains(b);
    extend_stmts(&mut v, keyed_stmts(&d, Ghost(sorted_values(&a.domains)), Ghost(sorted_values(&b.domains))));
    let d = a.diff_extensions(b);
    extend_stmts(&mut v, keyed_stmts(&d, Ghost(sorted_values(&a.extensions)), Ghost(sorted_values(&b.extensions))));
    let d = a.diff_routines(b);
    extend_stmts(&mut v, d.sql());
    let d = a.diff_indexes(b);
    extend_stmts(&mut v, keyed_stmts(&d, Ghost(sorted_values(&a.indexes)), Ghost(sorted_values(&b.indexes))));
    let d = a.diff_constraints(b);
    extend_stmts(&mut v, keyed_stmts(&d, Ghost(sorted_values(&a.constraints)), Ghost(sorted_values(&b.constraints))));
    assert(stmts_view(v@) =~= schema_change_sql(a, b));
    v
}

impl<'a> DiffSql for Diff<'a, Schema> {
    /// Schemas can only be changed, not created or dropped.
    open spec fn sql_defined(&self) -> bool {
        &&& self.a_only@.len() == 0
        &&& self.b_only@.len() == 0
        &&& forall|i: int|
            0 <= i < self.a_and_b@.len() ==> schema_change_defined(
                (#[trigger] self.a_and_b@[i]).0,
                self.a_and_b@[i].1,
            )
    }

    /// For each matched pair of schemas, the statements that turn the first
    /// into the second.
    fn sql(&self) -> (r: Vec<(ChangeType, String)>)
        ensures
            stmts_view(r@) == schema_pairs_sql(self.a_and_b@),
    {
        let mut v: Vec<(ChangeType, String)> = Vec::new();
        assert(stmts_view(v@) =~= Seq::<(ChangeType, Seq<char>)>::empty());
        for i in 0..self.a_and_b.len()
            invariant
                self.sql_defined(),
                stmts_view(v@) == schema_pairs_sql(self.a_and_b@.take(i as int)),
        {
            let (a, b) = self.a_and_b[i];
            assert(self.a_and_b@.take(i + 1).drop_last() == self.a_and_b@.take(i as int));
            assert(self.a_and_b@.take(i + 1).last() == (a, b));
            assert(schema_change_defined(a, b));
            extend_stmts(&mut v, schema_change(a, b));
        }
        assert(self.a_and_b@.take(self.a_and_b.len() as int) == self.a_and_b@);
        v
    }
}

/// The statements of `s` whose change has rank `r`, in order.
pub open spec fn with_rank(s: Seq<(ChangeType, Seq<char>)>, r: nat) -> Seq<(ChangeType, Seq<char>)>
    decreases s.len(),
{
    if s.len() == 0 {
        Seq::empty()
    } else if change_rank(s.last().0) == r {
        with_rank(s.drop_last(), r).push(s.last())
    } else {
        with_rank(s.drop_last(), r)
    }
}

/// The statements of `s` with rank below `n`, grouped by rank in
/// increasing order, each group in the order of `s`.
pub open spec fn by_rank(s: Seq<(ChangeType, Seq<char>)>, n: nat) -> Seq<(ChangeType, Seq<char>)>
    decreases n,
{
    if n == 0 {
        Seq::empty()
    } else {
        by_rank(s, (n - 1) as nat) + with_rank(s, (n - 1) as nat)
    }
}

proof fn lemma_rank_bound(c: ChangeType)
    ensures
        change_rank(c) < change_rank_count(),
{
}

/// The number of statements of `s` whose rank is below `n`.
spec fn count_below(s: Seq<(ChangeType, Seq<char>)>, n: nat) -> nat
    decreases s.len(),
{
    if s.len() == 0 {
        0
    } else {
        count_below(s.drop_last(), n) + if change_rank(s.last().0) < n {
            1nat
        } else {
            0nat
        }
    }
}

proof fn lemma_with_rank_facts(s: Seq<(ChangeType, Seq<char>)>, r: nat)
    ensures
        with_rank(s, r).len() + count_below(s, r) == count_below(s, r + 1),
        forall|i: int| 0 <= i < with_rank(s, r).len() ==> change_rank((#[trigger] with_rank(s, r)[i]).0) == r,
        forall|q: nat| #[trigger] with_rank(with_rank(s, r), q) == if q == r {
            with_rank(s, r)
        } else {
            Seq::empty()
        },
    decreases s.len(),
{
    if s.len() > 0 {
        lemma_with_rank_facts(s.drop_last(), r);
        let w0 = with_rank(s.drop_last(), r);
        assert forall|q: nat| #[trigger] with_rank(with_rank(s, r), q) == if q == r {
            with_rank(s, r)
        } else {
            Seq::empty()
        } by {
            if change_rank(s.last().0) == r {
                assert(with_rank(s, r).drop_last() == w0);
                assert(with_rank(w0, q) == with_rank(with_rank(s.drop_last(), r), q));
            }
        }
    } else {
        assert forall|q: nat| #[trigger] with_rank(with_rank(s, r), q) == if q == r {
            with_rank(s, r)
        } else {
            Seq::empty()
        } by {
            assert(with_rank(s, r).len() == 0);
        }
    }
}

proof fn lemma_with_rank_concat(a: Seq<(ChangeType, Seq<char>)>, b: Seq<(ChangeType, Seq<char>)>, r: nat)
    ensures
        with_rank(a + b, r) == with_rank(a, r) + with_rank(b, r),
    decreases b.len(),
{
    if b.len() == 0 {
        assert(a + b == a);
    } else {
        lemma_with_rank_concat(a, b.drop_last(), r);
        assert((a + b).drop_last() == a + b.drop_last());
        assert((a + b).last() == b.last());
    }
}

proof fn lemma_count_all(s: Seq<(ChangeType, Seq<char>)>)
    ensures
        count_below(s, change_rank_count()) == s.len(),
    decreases s.len(),
{
    if s.len() > 0 {
        lemma_count_all(s.drop_last());
        lemma_rank_bound(s.last().0);
    }
}

proof fn lemma_by_rank_facts(s: Seq<(ChangeType, Seq<char>)>, n: nat)
    ensures
        by_rank(s, n).len() == count_below(s, n),
        forall|i: int, j: int|
            0 <= i < j < by_rank(s, n).len() ==> change_rank((#[trigger] by_rank(s, n)[i]).0) <= change_rank(
                (#[trigger] by_rank(s, n)[j]).0,
            ),
        forall|i: int| 0 <= i < by_rank(s, n).len() ==> change_rank((#[trigger] by_rank(s, n)[i]).0) < n,
        forall|r: nat| #[trigger] with_rank(by_rank(s, n), r) == if r < n {
            with_rank(s, r)
        } else {
            Seq::empty()
        },
    decreases n,
{
    if n == 0 {
        assert forall|r: nat| #[trigger] with_rank(by_rank(s, n), r) == Seq::<(ChangeType, Seq<char>)>::empty() by {
            assert(by_rank(s, n).len() == 0);
        }
        assert(count_below(s, 0) == 0) by {
            lemma_count_zero(s);
        }
    } else {
        let m = (n - 1) as nat;
        lemma_by_rank_facts(s, m);
        lemma_with_rank_facts(s, m);
        let b = by_rank(s, m);
        let w = with_rank(s, m);
        assert(by_rank(s, n) == b + w);
        assert forall|i: int| 0 <= i < by_rank(s, n).len() implies change_rank((#[trigger] by_rank(s, n)[i]).0) < n by {
            if i >= b.len() {
                assert(by_rank(s, n)[i] == w[i - b.len()]);
            }
        }
        assert forall|i: int, j: int|
            0 <= i < j < by_rank(s, n).len() implies change_rank((#[trigger] by_rank(s, n)[i]).0) <= change_rank(
                (#[trigger] by_rank(s, n)[j]).0,
            ) by {
            if j < b.len() {
                assert(by_rank(s, n)[i] == b[i] && by_rank(s, n)[j] == b[j]);
            } else if i < b.len() {
                assert(by_rank(s, n)[i] == b[i] && by_rank(s, n)[j] == w[j - b.len()]);
            } else {
                assert(by_rank(s, n)[i] == w[i - b.len()] && by_rank(s, n)[j] == w[j - b.len()]);
            }
        }
        assert forall|r: nat| #[trigger] with_rank(by_rank(s, n), r) == if r < n {
            with_rank(s, r)
        } else {
            Seq::empty()
        } by {
            lemma_with_rank_concat(b, w, r);
            assert(with_rank(w, r) == if r == m {
                w
            } else {
                Seq::empty()
            });
            assert(with_rank(b, r) == if r < m {
                with_rank(s, r)
            } else {
                Seq::empty()
            });
            if r < m {
                assert(with_rank(s, r) + Seq::<(ChangeType, Seq<char>)>::empty() == with_rank(s, r));
            } else if r == m {
                assert(Seq::<(ChangeType, Seq<char>)>::empty() + w == w);
            } else {
                assert(Seq::<(ChangeType, Seq<char>)>::empty() + Seq::<(ChangeType, Seq<char>)>::empty() == Seq::<
                    (ChangeType, Seq<char>),
                >::empty());
            }
        }
    }
}

proof fn lemma_count_zero(s: Seq<(ChangeType, Seq<char>)>)
    ensures
        count_below(s, 0) == 0,
    decreases s.len(),
{
    if s.len() > 0 {
        lemma_count_zero(s.drop_last());
    }
}

/// Ordering statements by kind of change loses and adds none, puts them in
/// the order of their kinds, and keeps, within each kind, the order in
/// which they were given.
pub proof fn lemma_by_rank_stable_sort(s: Seq<(ChangeType, Seq<char>)>)
    ensures
        by_rank(s, change_rank_count()).len() == s.len(),
        forall|i: int, j: int|
            0 <= i < j < s.len() ==> change_rank((#[trigger] by_rank(s, change_rank_count())[i]).0)
                <= change_rank((#[trigger] by_rank(s, change_rank_count())[j]).0),
        forall|r: nat| #[trigger] with_rank(by_rank(s, change_rank_count()), r) == with_rank(s, r),
{
    lemma_by_rank_facts(s, change_rank_count());
    lemma_count_all(s);
    assert forall|r: nat| #[trigger] with_rank(by_rank(s, change_rank_count()), r) == with_rank(s, r) by {
        if r >= change_rank_count() {
            assert forall|i: int| 0 <= i < s.len() implies change_rank(s[i].0) != r by {
                lemma_rank_bound(s[i].0);
            }
            lemma_with_rank_none(s, r);
        }
    }
}

proof fn lemma_with_rank_none(s: Seq<(ChangeType, Seq<char>)>, r: nat)
    requires
        forall|i: int| 0 <= i < s.len() ==> change_rank(s[i].0) != r,
    ensures
        with_rank(s, r) == Seq::<(ChangeType, Seq<char>)>::empty(),
    decreases s.len(),
{
    if s.len() > 0 {
        assert forall|i: int| 0 <= i < s.drop_last().len() implies change_rank(s.drop_last()[i].0) != r by {
            assert(s.drop_last()[i] == s[i]);
        }
        lemma_with_rank_none(s.drop_last(), r);
    }
}

/// The statements ordered by kind of change (stably), as one script with a
/// newline between neighbouring statements.
pub open spec fn join_sql_spec(s: Seq<(ChangeType, Seq<char>)>) -> Seq<char> {
    join_with(
        by_rank(s, change_rank_count()).map_values(|e: (ChangeType, Seq<char>)| e.1),
        "\n"@,
    )
}

/// Orders the statements by kind of change, keeping the given order among
/// statements of the same kind, and joins them with newlines.
pub fn join_sql(v: Vec<(ChangeType, String)>) -> (r: String)
    ensures
        r@ == join_sql_spec(stmts_view(v@)),
{
    let ghost sv = stmts_view(v@);
    let mut texts: Vec<String> = Vec::new();
    let mut rank: u8 = 0;
    while rank < 37
        invariant
            rank <= 37,
            sv == stmts_view(v@),
            views(texts@) == by_rank(sv, rank as nat).map_values(|e: (ChangeType, Seq<char>)| e.1),
        decreases 37 - rank,
    {
        let ghost start = views(texts@);
        for i in 0..v.len()
            invariant
                rank < 37,
                sv == stmts_view(v@),
                views(texts@) == start + with_rank(sv.take(i as int), rank as nat).map_values(
                    |e: (ChangeType, Seq<char>)| e.1,
                ),
        {
            assert(sv.take(i + 1).drop_last() == sv.take(i as int));
            assert(sv.take(i + 1).last() == sv[i as int]);
            assert(sv[i as int] == (v@[i as int].0, v@[i as int].1@));
            if v[i].0.rank() == rank {
                let ghost before = texts@;
                texts.push(copy_string(&v[i].1));
                assert(views(texts@) =~= views(before).push(v@[i as int].1@));
                assert(with_rank(sv.take(i + 1), rank as nat).map_values(|e: (ChangeType, Seq<char>)| e.1)
                    =~= with_rank(sv.take(i as int), rank as nat).map_values(|e: (ChangeType, Seq<char>)| e.1).push(v@[i as int].1@));
            }
        }
        assert(sv.take(v.len() as int) == sv);
        assert(by_rank(sv, (rank + 1) as nat).map_values(|e: (ChangeType, Seq<char>)| e.1) =~= by_rank(sv, rank as nat).map_values(|e: (ChangeType, Seq<char>)| e.1) + with_rank(sv, rank as nat).map_values(|e: (ChangeType, Seq<char>)| e.1));
        rank = rank + 1;
    }
    proof {
        reveal_strlit("\n");
    }
    join_strings(&texts, "\n")
}

proof fn lemma_changes_of_self<'a, T: SqlObject>(s: Seq<&'a T>)
    ensures
        changes_of(s.map_values(|x: &'a T| (x, x))) == Seq::<(ChangeType, Seq<char>)>::empty(),
    decreases s.len(),
{
    if s.len() > 0 {
        let p = s.map_values(|x: &'a T| (x, x));
        assert(p.drop_last() =~= s.drop_last().map_values(|x: &'a T| (x, x)));
        lemma_changes_of_self(s.drop_last());
        s.last().lemma_same_refl();
    }
}

/// A collection with distinct keys matched against itself yields no
/// statements.
pub proof fn lemma_keyed_sql_self<'a, T: SqlObject>(s: Seq<&'a T>)
    requires
        distinct_keys(s),
    ensures
        keyed_sql(s, s) == Seq::<(ChangeType, Seq<char>)>::empty(),
        keyed_defined(s, s),
{
    lemma_diff_self(s);
    lemma_changes_of_self(s);
    assert(drops_of(Seq::<&'a T>::empty()) =~= Seq::<(ChangeType, Seq<char>)>::empty());
    assert(creates_of(Seq::<&'a T>::empty()) =~= Seq::<(ChangeType, Seq<char>)>::empty());
    assert forall|i: int|
        0 <= i < matched_pairs(s, s).len() && !(#[trigger] matched_pairs(s, s)[i]).0.same(
            matched_pairs(s, s)[i].1,
        ) implies matched_pairs(s, s)[i].1.change_defined(matched_pairs(s, s)[i].0) by {
        s[i].lemma_same_refl();
    }
}

proof fn lemma_changed_side_self<'a>(s: Seq<&'a Routine>, new_side: bool)
    ensures
        changed_side(s.map_values(|x: &'a Routine| (x, x)), new_side) == Seq::<&'a Routine>::empty(),
    decreases s.len(),
{
    if s.len() > 0 {
        let p = s.map_values(|x: &'a Routine| (x, x));
        assert(p.drop_last() =~= s.drop_last().map_values(|x: &'a Routine| (x, x)));
        lemma_changed_side_self(s.drop_last(), new_side);
    }
}

/// Routines with distinct keys matched against themselves yield no
/// statements.
pub proof fn lemma_routine_sql_self<'a>(s: Seq<&'a Routine>)
    requires
        distinct_keys(s),
    ensures
        routine_sql(s, s) == Seq::<(ChangeType, Seq<char>)>::empty(),
{
    lemma_diff_self(s);
    lemma_changed_side_self(s, false);
    lemma_changed_side_self(s, true);
    let e = Seq::<&'a Routine>::empty();
    assert(e + e =~= e);
    assert(crate::models::routine::pool_of(e) =~= e);
    assert(topological_spec(e, true) =~= e);
    assert(topological_spec(e, false) =~= e);
}

/// Whether the objects of every collection of `a` have distinct keys.
pub open spec fn schema_keys_distinct(a: &Schema) -> bool {
    &&& distinct_keys(values_of(&a.triggers))
    &&& distinct_keys(values_of(&a.enums))
    &&& distinct_keys(values_of(&a.domains))
    &&& distinct_keys(values_of(&a.extensions))
    &&& distinct_keys(values_of(&a.routines))
    &&& distinct_keys(values_of(&a.indexes))
    &&& distinct_keys(values_of(&a.constraints))
}

/// A schema whose collections have distinct keys, compared with itself,
/// needs no statement.
pub proof fn lemma_schema_self_change_empty(a: &Schema)
    requires
        schema_keys_distinct(a),
    ensures
        schema_change_defined(a, a),
        schema_change_sql(a, a) == Seq::<(ChangeType, Seq<char>)>::empty(),
{
    lemma_sort_by_key_distinct(values_of(&a.triggers));
    lemma_sort_by_key_distinct(values_of(&a.enums));
    lemma_sort_by_key_distinct(values_of(&a.domains));
    lemma_sort_by_key_distinct(values_of(&a.extensions));
    lemma_sort_by_key_distinct(values_of(&a.routines));
    lemma_sort_by_key_distinct(values_of(&a.indexes));
    lemma_sort_by_key_distinct(values_of(&a.constraints));
    lemma_keyed_sql_self(sorted_values(&a.triggers));
    lemma_keyed_sql_self(sorted_values(&a.enums));
    lemma_keyed_sql_self(sorted_values(&a.domains));
    lemma_keyed_sql_self(sorted_values(&a.extensions));
    lemma_routine_sql_self(sorted_values(&a.routines));
    lemma_keyed_sql_self(sorted_values(&a.indexes));
    lemma_keyed_sql_self(sorted_values(&a.constraints));
    let e = Seq::<(ChangeType, Seq<char>)>::empty();
    assert(e + e + e + e + e + e + e =~= e);
}

} // verus!
