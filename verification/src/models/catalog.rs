//! Building a schema's collections from the rows the catalog queries return.
use vstd::prelude::*;
use vstd::view::View as _;
use crate::collection::{KeyMap, MapKey, built_from, inserted, lemma_built_step};
use crate::models::constraint::{Constraint, ConstraintType};
use crate::models::domain::Domain;
use crate::models::enums::{Enum, labels_of};
use crate::models::extension::Extension;
use crate::models::index::Index;
use crate::models::routine::{Routine, dedup_adjacent, dependency_keys, keys_of};
use crate::models::domain::refs_of;
use crate::models::schema::Schema;
use crate::models::trigger::Trigger;
use crate::models::view::{View, is_view_kind};
use crate::order::sort_by_key;
use crate::rows::{Class, ConstraintRow, DomainRow, EnumRow, ExtensionRow, IndexRow, RoutineRow, TriggerRow};
use crate::text::{copy_string, opt_view, string_of, views};

verus! {

/// A schema object built from one catalog row, stored under a key taken
/// from that row.
pub trait RowModel<R>: Sized {
    type Key: MapKey;

    /// The key the object built from `row` is stored under.
    spec fn row_key(row: &R) -> Seq<Seq<char>>;

    /// Whether `row` yields an object at all.
    spec fn keeps(row: &R) -> bool;

    /// Whether `row` can be read.
    spec fn readable(row: &R) -> bool;

    /// Whether `self` is the object built from `row` in schema `schema`.
    spec fn of_row(&self, row: &R, schema: Seq<char>) -> bool;

    /// The object built from `row`, with its key; `None` for a row that
    /// yields none.
    fn build(row: R, schema: &str) -> (r: Option<(Self::Key, Self)>)
        requires
            Self::readable(&row),
        ensures
            match r {
                Some(p) => Self::keeps(&row) && p.0.key_view() == Self::row_key(&row) && p.1.of_row(
                    &row,
                    schema@,
                ),
                None => !Self::keeps(&row),
            },
    ;
}

/// The rows of `rows` that yield an object.
pub open spec fn kept<R, V: RowModel<R>>(rows: Seq<R>) -> Seq<R>
    decreases rows.len(),
{
    if rows.len() == 0 {
        Seq::empty()
    } else if V::keeps(&rows.last()) {
        kept::<R, V>(rows.drop_last()).push(rows.last())
    } else {
        kept::<R, V>(rows.drop_last())
    }
}

/// The key of a row, as a function.
pub open spec fn key_fn<R, V: RowModel<R>>() -> spec_fn(R) -> Seq<Seq<char>> {
    |r: R| V::row_key(&r)
}

/// Whether an object was built from a row in schema `schema`, as a function.
pub open spec fn rel_fn<R, V: RowModel<R>>(schema: Seq<char>) -> spec_fn(V, R) -> bool {
    |v: V, r: R| v.of_row(&r, schema)
}

/// The objects built from `rows`, each stored under its key; a later row
/// replaces the object of an earlier one with the same key.
pub fn map_from_rows<R, V: RowModel<R>>(rows: Vec<R>, schema: &str) -> (m: KeyMap<V::Key, V>)
    requires
        forall|i: int| 0 <= i < rows@.len() ==> V::readable(&#[trigger] rows@[i]),
    ensures
        m.wf(),
        built_from(m.entries(), kept::<R, V>(rows@), key_fn::<R, V>(), rel_fn::<R, V>(schema@)),
{
    let ghost all = rows@;
    let mut rows = rows;
    let mut m: KeyMap<V::Key, V> = KeyMap::new();
    let ghost mut done: int = 0;
    assert(all.take(0) =~= Seq::<R>::empty());
    while rows.len() > 0
        invariant
            0 <= done <= all.len(),
            rows@ == all.skip(done),
            forall|i: int| 0 <= i < all.len() ==> V::readable(&#[trigger] all[i]),
            m.wf(),
            built_from(m.entries(), kept::<R, V>(all.take(done)), key_fn::<R, V>(), rel_fn::<R, V>(schema@)),
        decreases rows.len(),
    {
        let row = rows.remove(0);
        proof {
            assert(row == all[done]);
            assert(all.take(done + 1).drop_last() == all.take(done));
            assert(all.take(done + 1).last() == all[done]);
        }
        match V::build(row, schema) {
            Some((k, v)) => {
                proof {
                    lemma_built_step(
                        m.entries(),
                        kept::<R, V>(all.take(done)),
                        key_fn::<R, V>(),
                        rel_fn::<R, V>(schema@),
                        k,
                        v,
                        all[done],
                    );
                }
                let ghost before = m.entries();
                m.insert(k, v);
                assert(m.entries() == inserted(before, k, v));
            },
            None => {},
        }
        proof {
            done = done + 1;
            assert(rows@ =~= all.skip(done));
        }
    }
    assert(all.take(done) =~= all);
    m
}

impl RowModel<EnumRow> for Enum {
    type Key = String;

    open spec fn row_key(row: &EnumRow) -> Seq<Seq<char>> {
        seq![row.name@]
    }

    open spec fn keeps(row: &EnumRow) -> bool {
        true
    }

    open spec fn readable(row: &EnumRow) -> bool {
        true
    }

    open spec fn of_row(&self, row: &EnumRow, schema: Seq<char>) -> bool {
        &&& self.schema@ == row.schema@
        &&& self.name@ == row.name@
        &&& labels_of(self) == views(row.labels@)
    }

    fn build(row: EnumRow, schema: &str) -> (r: Option<(String, Enum)>) {
        let e = Enum::from_row(row);
        Some((copy_string(&e.name), e))
    }
}

impl RowModel<DomainRow> for Domain {
    type Key = String;

    open spec fn row_key(row: &DomainRow) -> Seq<Seq<char>> {
        seq![row.name@]
    }

    open spec fn keeps(row: &DomainRow) -> bool {
        true
    }

    open spec fn readable(row: &DomainRow) -> bool {
        true
    }

    open spec fn of_row(&self, row: &DomainRow, schema: Seq<char>) -> bool {
        &&& self.schema@ == row.schema@
        &&& self.name@ == row.name@
        &&& self.base_type@ == row.base_type@
        &&& opt_view(self.default) == opt_view(row.default)
        &&& self.not_null == row.notnull
        &&& self.constraints@.len() == if row.constraint_names@.len() <= row.constraint_definitions@.len() {
            row.constraint_names@.len()
        } else {
            row.constraint_definitions@.len()
        }
        &&& forall|i: int|
            0 <= i < self.constraints@.len() ==> (#[trigger] self.constraints@[i]).name@
                == row.constraint_names@[i]@ && self.constraints@[i].definition@
                == row.constraint_definitions@[i]@
    }

    fn build(row: DomainRow, schema: &str) -> (r: Option<(String, Domain)>) {
        let d = Domain::from_row(row);
        Some((copy_string(&d.name), d))
    }
}

impl RowModel<ExtensionRow> for Extension {
    type Key = String;

    open spec fn row_key(row: &ExtensionRow) -> Seq<Seq<char>> {
        seq![row.name@]
    }

    open spec fn keeps(row: &ExtensionRow) -> bool {
        true
    }

    open spec fn readable(row: &ExtensionRow) -> bool {
        true
    }

    open spec fn of_row(&self, row: &ExtensionRow, schema: Seq<char>) -> bool {
        &&& self.schema@ == row.schema@
        &&& self.name@ == row.name@
        &&& self.version@ == row.version@
    }

    fn build(row: ExtensionRow, schema: &str) -> (r: Option<(String, Extension)>) {
        let e = Extension::from_row(row);
        Some((copy_string(&e.name), e))
    }
}

impl RowModel<IndexRow> for Index {
    type Key = String;

    open spec fn row_key(row: &IndexRow) -> Seq<Seq<char>> {
        seq![row.name@]
    }

    open spec fn keeps(row: &IndexRow) -> bool {
        true
    }

    open spec fn readable(row: &IndexRow) -> bool {
        true
    }

    open spec fn of_row(&self, row: &IndexRow, schema: Seq<char>) -> bool {
        &&& self.schema@ == row.schema@
        &&& self.table_name@ == row.table_name@
        &&& self.name@ == row.name@
        &&& self.definition@ == row.definition@
    }

    fn build(row: IndexRow, schema: &str) -> (r: Option<(String, Index)>) {
        let i = Index::from_row(row);
        Some((copy_string(&i.name), i))
    }
}

impl RowModel<Class> for View {
    type Key = String;

    open spec fn row_key(row: &Class) -> Seq<Seq<char>> {
        seq![row.name@]
    }

    /// Only views and materialized views become views; other relations are
    /// passed over.
    open spec fn keeps(row: &Class) -> bool {
        is_view_kind(row.relkind)
    }

    open spec fn readable(row: &Class) -> bool {
        is_view_kind(row.relkind) ==> row.viewdef.is_some()
    }

    open spec fn of_row(&self, row: &Class, schema: Seq<char>) -> bool {
        &&& self.schema@ == row.schema@
        &&& self.name@ == row.name@
        &&& self.kind == row.relkind
        &&& self.materialized == (row.relkind == crate::rows::Relkind::MaterializedView)
        &&& self.viewdef@ == row.viewdef->Some_0@
    }

    fn build(row: Class, schema: &str) -> (r: Option<(String, View)>) {
        let ghost g = row;
        match View::from_class(row) {
            Some(v) => {
                let k = copy_string(&v.name);
                assert(k.key_view() == Self::row_key(&g));
                assert(v.kind == g.relkind);
                assert(v.materialized == (g.relkind == crate::rows::Relkind::MaterializedView));
                assert(v.of_row(&g, schema@));
                Some((k, v))
            },
            None => None,
        }
    }
}

impl RowModel<ConstraintRow> for Constraint {
    type Key = (String, String);

    open spec fn row_key(row: &ConstraintRow) -> Seq<Seq<char>> {
        seq![row.table@, row.name@]
    }

    /// `NOT NULL` constraints are passed over.
    open spec fn keeps(row: &ConstraintRow) -> bool {
        row.constraint_type != ConstraintType::NotNull
    }

    open spec fn readable(row: &ConstraintRow) -> bool {
        true
    }

    open spec fn of_row(&self, row: &ConstraintRow, schema: Seq<char>) -> bool {
        &&& self.schema@ == schema
        &&& self.table@ == row.table@
        &&& self.name@ == row.name@
        &&& self.constraint_type == row.constraint_type
        &&& self.definition@ == row.def@
    }

    fn build(row: ConstraintRow, schema: &str) -> (r: Option<((String, String), Constraint)>) {
        match Constraint::from_row(schema, row) {
            Some(c) => Some(((copy_string(&c.table), copy_string(&c.name)), c)),
            None => None,
        }
    }
}

impl RowModel<RoutineRow> for Routine {
    type Key = (String, String);

    open spec fn row_key(row: &RoutineRow) -> Seq<Seq<char>> {
        seq![row.name@, row.identity_arguments@]
    }

    open spec fn keeps(row: &RoutineRow) -> bool {
        true
    }

    open spec fn readable(row: &RoutineRow) -> bool {
        true
    }

    open spec fn of_row(&self, row: &RoutineRow, schema: Seq<char>) -> bool {
        &&& self.schema@ == row.schema@
        &&& self.name@ == row.name@
        &&& self.kind == row.kind
        &&& self.identity_arguments@ == row.identity_arguments@
        &&& self.definition@ == row.definition@
        &&& dependency_keys(self) == dedup_adjacent(keys_of(sort_by_key(refs_of(row.dependencies@))))
    }

    fn build(row: RoutineRow, schema: &str) -> (r: Option<((String, String), Routine)>) {
        let r = Routine::from_row(row);
        Some(((copy_string(&r.name), copy_string(&r.identity_arguments)), r))
    }
}

impl RowModel<TriggerRow> for Trigger {
    type Key = (String, String);

    open spec fn row_key(row: &TriggerRow) -> Seq<Seq<char>> {
        seq![row.table_name@, row.name@]
    }

    open spec fn keeps(row: &TriggerRow) -> bool {
        true
    }

    open spec fn readable(row: &TriggerRow) -> bool {
        true
    }

    open spec fn of_row(&self, row: &TriggerRow, schema: Seq<char>) -> bool {
        &&& self.schema@ == row.schema@
        &&& self.table_name@ == row.table_name@
        &&& self.name@ == row.name@
        &&& self.enabled@ == row.enabled@
        &&& self.definition@ == row.definition@
    }

    fn build(row: TriggerRow, schema: &str) -> (r: Option<((String, String), Trigger)>) {
        let t = Trigger::from_row(row);
        Some(((copy_string(&t.table_name), copy_string(&t.name)), t))
    }
}

/// The catalog rows of one schema, as the inspection queries return them.
pub struct SchemaRows {
    pub enums: Vec<EnumRow>,
    pub domains: Vec<DomainRow>,
    pub extensions: Vec<ExtensionRow>,
    pub indexes: Vec<IndexRow>,
    pub classes: Vec<Class>,
    pub constraints: Vec<ConstraintRow>,
    pub routines: Vec<RoutineRow>,
    pub triggers: Vec<TriggerRow>,
}

/// Whether every view among the relations has a definition.
pub open spec fn classes_readable(classes: Seq<Class>) -> bool {
    forall|i: int| 0 <= i < classes.len() ==> <View as RowModel<Class>>::readable(&#[trigger] classes[i])
}

/// Whether `s` is the schema named `name` built from `rows`: each
/// collection holds, per key, the object of the last row with that key.
pub open spec fn schema_built_from(s: Schema, name: Seq<char>, rows: SchemaRows) -> bool {
    &&& s.name@ == name
    &&& built_from(s.enums.entries(), kept::<EnumRow, Enum>(rows.enums@), key_fn::<EnumRow, Enum>(), rel_fn::<EnumRow, Enum>(name))
    &&& built_from(s.domains.entries(), kept::<DomainRow, Domain>(rows.domains@), key_fn::<DomainRow, Domain>(), rel_fn::<DomainRow, Domain>(name))
    &&& built_from(s.extensions.entries(), kept::<ExtensionRow, Extension>(rows.extensions@), key_fn::<ExtensionRow, Extension>(), rel_fn::<ExtensionRow, Extension>(name))
    &&& built_from(s.indexes.entries(), kept::<IndexRow, Index>(rows.indexes@), key_fn::<IndexRow, Index>(), rel_fn::<IndexRow, Index>(name))
    &&& built_from(s.views.entries(), kept::<Class, View>(rows.classes@), key_fn::<Class, View>(), rel_fn::<Class, View>(name))
    &&& built_from(s.constraints.entries(), kept::<ConstraintRow, Constraint>(rows.constraints@), key_fn::<ConstraintRow, Constraint>(), rel_fn::<ConstraintRow, Constraint>(name))
    &&& built_from(s.routines.entries(), kept::<RoutineRow, Routine>(rows.routines@), key_fn::<RoutineRow, Routine>(), rel_fn::<RoutineRow, Routine>(name))
    &&& built_from(s.triggers.entries(), kept::<TriggerRow, Trigger>(rows.triggers@), key_fn::<TriggerRow, Trigger>(), rel_fn::<TriggerRow, Trigger>(name))
}

impl Schema {
    /// The schema named `name` with the objects its catalog rows describe:
    /// each collection holds, per key, the object of the last row with
    /// that key. Views and materialized views are taken from the relations;
    /// `NOT NULL` constraints are passed over.
    pub fn from_rows(name: &str, rows: SchemaRows) -> (s: Schema)
        requires
            classes_readable(rows.classes@),
        ensures
            schema_built_from(s, name@, rows),
    {
        Schema {
            name: string_of(name),
            enums: map_from_rows(rows.enums, name),
            domains: map_from_rows(rows.domains, name),
            extensions: map_from_rows(rows.extensions, name),
            indexes: map_from_rows(rows.indexes, name),
            views: map_from_rows(rows.classes, name),
            routines: map_from_rows(rows.routines, name),
            triggers: map_from_rows(rows.triggers, name),
            constraints: map_from_rows(rows.constraints, name),
        }
    }
}

/// A schema is built from its name and its catalog rows; it is stored
/// under its name.
impl RowModel<(String, SchemaRows)> for Schema {
    type Key = String;

    open spec fn row_key(row: &(String, SchemaRows)) -> Seq<Seq<char>> {
        seq![row.0@]
    }

    open spec fn keeps(row: &(String, SchemaRows)) -> bool {
        true
    }

    open spec fn readable(row: &(String, SchemaRows)) -> bool {
        classes_readable(row.1.classes@)
    }

    open spec fn of_row(&self, row: &(String, SchemaRows), database: Seq<char>) -> bool {
        schema_built_from(*self, row.0@, row.1)
    }

    fn build(row: (String, SchemaRows), database: &str) -> (r: Option<(String, Schema)>) {
        let (name, rows) = row;
        let s = Schema::from_rows(name.as_str(), rows);
        Some((name, s))
    }
}

/// Every row yields an object where every row is kept.
pub proof fn lemma_kept_all<R, V: RowModel<R>>(rows: Seq<R>)
    requires
        forall|i: int| 0 <= i < rows.len() ==> V::keeps(&#[trigger] rows[i]),
    ensures
        kept::<R, V>(rows) == rows,
    decreases rows.len(),
{
    if rows.len() > 0 {
        let d = rows.drop_last();
        assert forall|i: int| 0 <= i < d.len() implies V::keeps(&#[trigger] d[i]) by {
            assert(d[i] == rows[i]);
        }
        lemma_kept_all::<R, V>(d);
        assert(V::keeps(&rows[rows.len() - 1]));
        assert(d.push(rows.last()) =~= rows);
    }
}

} // verus!
