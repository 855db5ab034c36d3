//! Equality of schema objects field by field, and of keyed collections of
//! them regardless of the order of their entries.
use vstd::prelude::*;
use vstd::view::View as _;
use crate::collection::{KeyMap, MapKey};
use crate::diff::SqlObject;
use crate::models::constraint::Constraint;
use crate::models::domain::Domain;
use crate::models::enums::Enum;
use crate::models::extension::Extension;
use crate::models::index::Index;
use crate::models::routine::{Routine, same_routine};
use crate::models::schema::Schema;
use crate::models::trigger::Trigger;
use crate::models::view::View;
use crate::text::str_eq;

verus! {

/// Values compared field by field.
pub trait FieldEq: Sized {
    /// Whether `self` and `other` agree in every field.
    spec fn field_eq(&self, other: &Self) -> bool;

    /// Every value agrees with itself.
    proof fn lemma_field_eq_refl(&self)
        ensures
            self.field_eq(self),
    ;

    /// Whether `self` and `other` agree in every field.
    fn eq_fields(&self, other: &Self) -> (r: bool)
        ensures
            r == self.field_eq(other),
    ;
}

/// Whether two collections hold as many entries, and each entry of `a` has
/// an entry of `b` with its key and an equal value.
pub open spec fn entries_agree<K: MapKey, V: FieldEq>(a: Seq<(K, V)>, b: Seq<(K, V)>) -> bool {
    &&& a.len() == b.len()
    &&& forall|i: int| 0 <= i < a.len() ==> #[trigger] has_equal_entry(b, a[i])
}

/// Whether `b` has an entry with the key of `x` and a value equal to its.
pub open spec fn has_equal_entry<K: MapKey, V: FieldEq>(b: Seq<(K, V)>, x: (K, V)) -> bool {
    exists|j: int| 0 <= j < b.len() && #[trigger] b[j].0.key_view() == x.0.key_view() && x.1.field_eq(&b[j].1)
}

impl<K: MapKey, V: FieldEq> KeyMap<K, V> {
    /// Whether both maps hold the same keys with equal values, in whatever
    /// order.
    pub fn agrees_with(&self, other: &Self) -> (r: bool)
        ensures
            r == entries_agree(self.entries(), other.entries()),
    {
        let a = self.entry_refs();
        let b = other.entry_refs();
        if a.len() != b.len() {
            return false;
        }
        let mut i: usize = 0;
        while i < a.len()
            invariant
                i <= a@.len(),
                a@.len() == b@.len(),
                a@.len() == self.entries().len(),
                b@.len() == other.entries().len(),
                forall|k: int| 0 <= k < a@.len() ==> *a@[k] == self.entries()[k],
                forall|k: int| 0 <= k < b@.len() ==> *b@[k] == other.entries()[k],
                forall|k: int| 0 <= k < i ==> #[trigger] has_equal_entry(other.entries(), self.entries()[k]),
            decreases a.len() - i,
        {
            let (ka, va) = a[i];
            let mut found = false;
            let mut j: usize = 0;
            while j < b.len() && !found
                invariant
                    j <= b@.len(),
                    i < a@.len(),
                    a@.len() == self.entries().len(),
                    b@.len() == other.entries().len(),
                    forall|k: int| 0 <= k < b@.len() ==> *b@[k] == other.entries()[k],
                    (*ka, *va) == self.entries()[i as int],
                    found ==> has_equal_entry(other.entries(), self.entries()[i as int]),
                    !found ==> forall|k: int|
                        0 <= k < j ==> !(#[trigger] other.entries()[k].0.key_view() == ka.key_view() && va.field_eq(
                            &other.entries()[k].1,
                        )),
                decreases b.len() - j, if found { 0int } else { 1int },
            {
                let (kb, vb) = b[j];
                if kb.key_eq(ka) && va.eq_fields(vb) {
                    found = true;
                    assert(other.entries()[j as int].0.key_view() == ka.key_view());
                } else {
                    j = j + 1;
                }
            }
            if !found {
                proof {
                    assert(!has_equal_entry(other.entries(), self.entries()[i as int]));
                }
                return false;
            }
            i = i + 1;
        }
        true
    }
}

/// Every collection agrees with itself.
pub proof fn lemma_entries_agree_refl<K: MapKey, V: FieldEq>(e: Seq<(K, V)>)
    ensures
        entries_agree(e, e),
{
    assert forall|i: int| 0 <= i < e.len() implies #[trigger] has_equal_entry(e, e[i]) by {
        e[i].1.lemma_field_eq_refl();
        assert(e[i].0.key_view() == e[i].0.key_view());
    }
}

impl FieldEq for Enum {
    open spec fn field_eq(&self, other: &Self) -> bool {
        self.same(other)
    }

    proof fn lemma_field_eq_refl(&self) {
        self.lemma_same_refl();
    }

    fn eq_fields(&self, other: &Self) -> (r: bool) {
        self.same_as(other)
    }
}

impl FieldEq for Domain {
    open spec fn field_eq(&self, other: &Self) -> bool {
        self.same(other)
    }

    proof fn lemma_field_eq_refl(&self) {
        self.lemma_same_refl();
    }

    fn eq_fields(&self, other: &Self) -> (r: bool) {
        self.same_as(other)
    }
}

impl FieldEq for Extension {
    open spec fn field_eq(&self, other: &Self) -> bool {
        self.same(other)
    }

    proof fn lemma_field_eq_refl(&self) {
        self.lemma_same_refl();
    }

    fn eq_fields(&self, other: &Self) -> (r: bool) {
        self.same_as(other)
    }
}

impl FieldEq for Index {
    open spec fn field_eq(&self, other: &Self) -> bool {
        self.same(other)
    }

    proof fn lemma_field_eq_refl(&self) {
        self.lemma_same_refl();
    }

    fn eq_fields(&self, other: &Self) -> (r: bool) {
        self.same_as(other)
    }
}

impl FieldEq for Constraint {
    open spec fn field_eq(&self, other: &Self) -> bool {
        self.same(other)
    }

    proof fn lemma_field_eq_refl(&self) {
        self.lemma_same_refl();
    }

    fn eq_fields(&self, other: &Self) -> (r: bool) {
        self.same_as(other)
    }
}

impl FieldEq for Trigger {
    open spec fn field_eq(&self, other: &Self) -> bool {
        self.same(other)
    }

    proof fn lemma_field_eq_refl(&self) {
        self.lemma_same_refl();
    }

    fn eq_fields(&self, other: &Self) -> (r: bool) {
        self.same_as(other)
    }
}

impl FieldEq for Routine {
    open spec fn field_eq(&self, other: &Self) -> bool {
        same_routine(self, other)
    }

    proof fn lemma_field_eq_refl(&self) {
    }

    fn eq_fields(&self, other: &Self) -> (r: bool) {
        self.same_as(other)
    }
}

impl FieldEq for View {
    open spec fn field_eq(&self, other: &Self) -> bool {
        &&& self.schema@ == other.schema@
        &&& self.name@ == other.name@
        &&& self.kind == other.kind
        &&& self.materialized == other.materialized
        &&& self.viewdef@ == other.viewdef@
    }

    proof fn lemma_field_eq_refl(&self) {
    }

    fn eq_fields(&self, other: &Self) -> (r: bool) {
        str_eq(self.schema.as_str(), other.schema.as_str()) && str_eq(self.name.as_str(), other.name.as_str())
            && self.kind == other.kind && self.materialized == other.materialized && str_eq(
            self.viewdef.as_str(),
            other.viewdef.as_str(),
        )
    }
}

impl FieldEq for Schema {
    /// The same name, and every collection agreeing.
    open spec fn field_eq(&self, other: &Self) -> bool {
        &&& self.name@ == other.name@
        &&& entries_agree(self.enums.entries(), other.enums.entries())
        &&& entries_agree(self.domains.entries(), other.domains.entries())
        &&& entries_agree(self.extensions.entries(), other.extensions.entries())
        &&& entries_agree(self.indexes.entries(), other.indexes.entries())
        &&& entries_agree(self.views.entries(), other.views.entries())
        &&& entries_agree(self.routines.entries(), other.routines.entries())
        &&& entries_agree(self.triggers.entries(), other.triggers.entries())
        &&& entries_agree(self.constraints.entries(), other.constraints.entries())
    }

    proof fn lemma_field_eq_refl(&self) {
        lemma_entries_agree_refl(self.enums.entries());
        lemma_entries_agree_refl(self.domains.entries());
        lemma_entries_agree_refl(self.extensions.entries());
        lemma_entries_agree_refl(self.indexes.entries());
        lemma_entries_agree_refl(self.views.entries());
        lemma_entries_agree_refl(self.routines.entries());
        lemma_entries_agree_refl(self.triggers.entries());
        lemma_entries_agree_refl(self.constraints.entries());
    }

    fn eq_fields(&self, other: &Self) -> (r: bool) {
        str_eq(self.name.as_str(), other.name.as_str()) && self.enums.agrees_with(&other.enums)
            && self.domains.agrees_with(&other.domains) && self.extensions.agrees_with(&other.extensions)
            && self.indexes.agrees_with(&other.indexes) && self.views.agrees_with(&other.views)
            && self.routines.agrees_with(&other.routines) && self.triggers.agrees_with(&other.triggers)
            && self.constraints.agrees_with(&other.constraints)
    }
}

} // verus!
