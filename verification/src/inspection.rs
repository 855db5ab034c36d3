//! The inspected state of a database: its schemas.
use vstd::prelude::*;
use crate::collection::{KeyMap, MapKey, built_from, has_entry_key, keys_unique, last_of_key};
use crate::models::catalog::{
    SchemaRows, classes_readable, key_fn, lemma_kept_all, map_from_rows, rel_fn, schema_built_from,
};
use crate::models::equality::{entries_agree, lemma_entries_agree_refl};
use crate::diff::{Diff, diff, is_diff_of, lemma_diff_self, matched_pairs};
use crate::models::schema::{
    Schema, lemma_schema_self_change_empty, schema_change_defined, schema_keys_distinct,
    schema_pairs_sql, sorted_values, values_of,
};
use crate::order::{lemma_single_key_eq, distinct_keys, lemma_sort_by_key_distinct, lemma_sort_by_key_sorted, sorted_by_key};

verus! {

/// The schemas of a database, keyed by name.
#[derive(Debug, PartialEq, Eq)]
pub struct Inspection {
    pub schemas: KeyMap<String, Schema>,
}

impl Inspection {
    /// An inspection without schemas.
    pub fn empty() -> (i: Self)
        ensures
            i.schemas.entries().len() == 0,
    {
        Inspection { schemas: KeyMap::new() }
    }

    /// The inspection of the schemas read from the catalog, each given with
    /// its name and its rows: every schema is stored under its own name,
    /// built from its own rows, and every name given is present; where a
    /// name is given twice, the later rows win.
    pub fn from_rows(schemas: Vec<(String, SchemaRows)>) -> (i: Self)
        requires
            forall|j: int| 0 <= j < schemas@.len() ==> classes_readable((#[trigger] schemas@[j]).1.classes@),
        ensures
            keys_unique(i.schemas.entries()),
            forall|p: int|
                0 <= p < i.schemas.entries().len() ==> (#[trigger] i.schemas.entries()[p]).0@
                    == i.schemas.entries()[p].1.name@,
            forall|p: int|
                0 <= p < i.schemas.entries().len() ==> exists|j: int|
                    0 <= j < schemas@.len() && schemas@[j].0@ == (#[trigger] i.schemas.entries()[p]).0@
                        && schema_built_from(i.schemas.entries()[p].1, schemas@[j].0@, schemas@[j].1)
                        && forall|j2: int| j < j2 < schemas@.len() ==> #[trigger] schemas@[j2].0@ != schemas@[j].0@,
            forall|j: int|
                0 <= j < schemas@.len() ==> exists|p: int|
                    0 <= p < i.schemas.entries().len() && #[trigger] i.schemas.entries()[p].0@
                        == (#[trigger] schemas@[j]).0@,
    {
        let ghost rows = schemas@;
        let m = map_from_rows::<(String, SchemaRows), Schema>(schemas, "");
        let ghost e = m.entries();
        let ghost key = key_fn::<(String, SchemaRows), Schema>();
        let ghost rel = rel_fn::<(String, SchemaRows), Schema>(""@);
        proof {
            lemma_kept_all::<(String, SchemaRows), Schema>(rows);
            assert(built_from(e, rows, key, rel));
            assert forall|p: int| 0 <= p < e.len() implies exists|j: int|
                0 <= j < rows.len() && rows[j].0@ == (#[trigger] e[p]).0@ && schema_built_from(e[p].1, rows[j].0@, rows[j].1)
                    && forall|j2: int| j < j2 < rows.len() ==> #[trigger] rows[j2].0@ != rows[j].0@ by {
                let j = choose|j: int| #[trigger] last_of_key(rows, key, j) && key(rows[j]) == e[p].0.key_view() && rel(e[p].1, rows[j]);
                lemma_single_key_eq(rows[j].0@, e[p].0@);
                assert forall|j2: int| j < j2 < rows.len() implies #[trigger] rows[j2].0@ != rows[j].0@ by {
                    assert(key(rows[j2]) != key(rows[j]));
                }
            }
            assert forall|j: int| 0 <= j < rows.len() implies exists|p: int|
                0 <= p < e.len() && #[trigger] e[p].0@ == (#[trigger] rows[j]).0@ by {
                assert(has_entry_key(e, key(rows[j])));
                let p = choose|p: int| 0 <= p < e.len() && #[trigger] e[p].0.key_view() == key(rows[j]);
                lemma_single_key_eq(e[p].0@, rows[j].0@);
            }
        }
        Inspection { schemas: m }
    }

    /// Whether both inspections hold the same schemas, each with the same
    /// objects, in whatever order they were read.
    pub fn same_as(&self, other: &Self) -> (r: bool)
        ensures
            r == entries_agree(self.schemas.entries(), other.schemas.entries()),
    {
        self.schemas.agrees_with(&other.schemas)
    }

    /// Schemas of both inspections, each sorted by name, matched by name.
    pub fn diff<'a>(&'a self, other: &'a Self) -> (d: Diff<'a, Schema>)
        ensures
            is_diff_of(d, sorted_values(&self.schemas), sorted_values(&other.schemas)),
    {
        let a = self.schemas.values();
        let b = other.schemas.values();
        assert(a@ =~= values_of(&self.schemas));
        assert(b@ =~= values_of(&other.schemas));
        diff(sorted_by_key(a), sorted_by_key(b))
    }
}

/// An inspection is the same as itself.
pub proof fn lemma_inspection_same_as_refl(i: &Inspection)
    ensures
        entries_agree(i.schemas.entries(), i.schemas.entries()),
{
    lemma_entries_agree_refl(i.schemas.entries());
}

/// Whether the schemas of `i` have distinct names and each schema's
/// collections have distinct keys.
pub open spec fn inspection_keys_distinct(i: &Inspection) -> bool {
    &&& distinct_keys(values_of(&i.schemas))
    &&& forall|k: int| 0 <= k < values_of(&i.schemas).len() ==> schema_keys_distinct(#[trigger] values_of(&i.schemas)[k])
}

proof fn lemma_pairs_sql_self<'a>(s: Seq<&'a Schema>)
    requires
        forall|k: int| 0 <= k < s.len() ==> schema_keys_distinct(#[trigger] s[k]),
    ensures
        schema_pairs_sql(s.map_values(|x: &'a Schema| (x, x))) == Seq::<(crate::diff::ChangeType, Seq<char>)>::empty(),
        forall|k: int| 0 <= k < s.len() ==> schema_change_defined(#[trigger] s[k], s[k]),
    decreases s.len(),
{
    if s.len() > 0 {
        let p = s.map_values(|x: &'a Schema| (x, x));
        assert(p.drop_last() =~= s.drop_last().map_values(|x: &'a Schema| (x, x)));
        assert forall|k: int| 0 <= k < s.drop_last().len() implies schema_keys_distinct(#[trigger] s.drop_last()[k]) by {
            assert(s.drop_last()[k] == s[k]);
        }
        lemma_pairs_sql_self(s.drop_last());
        lemma_schema_self_change_empty(s.last());
        assert forall|k: int| 0 <= k < s.len() implies schema_change_defined(#[trigger] s[k], s[k]) by {
            if k < s.len() - 1 {
                assert(s.drop_last()[k] == s[k]);
            } else {
                lemma_schema_self_change_empty(s[k]);
            }
        }
    }
}

/// Diffing an inspection against itself (schema names distinct, and keys
/// distinct within each schema's collections) matches every schema with
/// itself, can always be rendered, and yields no statement.
pub proof fn lemma_inspection_self_diff_empty(i: &Inspection)
    requires
        inspection_keys_distinct(i),
    ensures
        ({
            let s = sorted_values(&i.schemas);
            &&& crate::diff::only_in_a(s, s).len() == 0
            &&& crate::diff::unmatched_b(s, s).len() == 0
            &&& forall|k: int| 0 <= k < matched_pairs(s, s).len() ==> schema_change_defined(
                (#[trigger] matched_pairs(s, s)[k]).0,
                matched_pairs(s, s)[k].1,
            )
            &&& schema_pairs_sql(matched_pairs(s, s)) == Seq::<(crate::diff::ChangeType, Seq<char>)>::empty()
        }),
{
    broadcast use vstd::seq_lib::group_seq_properties;
    let v = values_of(&i.schemas);
    let s = sorted_values(&i.schemas);
    lemma_sort_by_key_distinct(v);
    lemma_sort_by_key_sorted(v);
    lemma_diff_self(s);
    assert forall|k: int| 0 <= k < s.len() implies schema_keys_distinct(#[trigger] s[k]) by {
        assert(s.to_multiset().contains(s[k]));
        assert(v.to_multiset().contains(s[k]));
        assert(v.contains(s[k]));
        let m = choose|m: int| 0 <= m < v.len() && v[m] == s[k];
        assert(schema_keys_distinct(v[m]));
    }
    lemma_pairs_sql_self(s);
    assert forall|k: int| 0 <= k < matched_pairs(s, s).len() implies schema_change_defined(
        (#[trigger] matched_pairs(s, s)[k]).0,
        matched_pairs(s, s)[k].1,
    ) by {
        assert(matched_pairs(s, s)[k] == (s[k], s[k]));
    }
}

} // verus!
