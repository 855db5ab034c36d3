//! Views and materialized views.
use vstd::prelude::*;
use vstd::view::View as _;
use crate::rows::{Class, Relkind};
use crate::sql::{push_qualified, qualified_spec};
use crate::text::{push_str, string_of};

verus! {

/// A view or materialized view definition.
#[derive(Debug, PartialEq, Eq)]
pub struct View {
    /// Schema that owns the view.
    pub schema: String,
    /// View name.
    pub name: String,
    /// The relation kind the view was read as.
    pub kind: Relkind,
    /// Whether this definition describes a materialized view.
    pub materialized: bool,
    /// SQL body used to define the view.
    pub viewdef: String,
}

/// A relation that is not a view was given where a view was expected.
#[derive(Debug, PartialEq, Eq)]
pub struct InvalidRelkind(pub Relkind);

/// `CREATE OR REPLACE [MATERIALIZED ]VIEW "schema"."name" AS`, a newline,
/// the body, `;` and a newline.
pub open spec fn view_create_sql(v: &View) -> Seq<char> {
    "CREATE OR REPLACE "@ + (if v.materialized {
        "MATERIALIZED "@
    } else {
        Seq::<char>::empty()
    }) + "VIEW "@ + qualified_spec(v.schema@, v.name@) + " AS\n"@ + v.viewdef@ + ";\n"@
}

/// Whether a relation kind is a view kind.
pub open spec fn is_view_kind(k: Relkind) -> bool {
    k == Relkind::View || k == Relkind::MaterializedView
}

impl View {
    /// The relation kind the view was read as.
    pub fn kind(&self) -> (k: Relkind)
        ensures
            k == self.kind,
    {
        self.kind
    }

    /// The `CREATE OR REPLACE VIEW` statement for this view.
    pub fn create(&self) -> (r: String)
        ensures
            r@ == view_create_sql(self),
    {
        let mut s = string_of("CREATE OR REPLACE ");
        if self.materialized {
            push_str(&mut s, "MATERIALIZED ");
        }
        push_str(&mut s, "VIEW ");
        push_qualified(&mut s, self.schema.as_str(), self.name.as_str());
        push_str(&mut s, " AS\n");
        push_str(&mut s, self.viewdef.as_str());
        push_str(&mut s, ";\n");
        proof {
            if !self.materialized {
                assert("CREATE OR REPLACE "@ + Seq::<char>::empty() == "CREATE OR REPLACE "@);
            }
        }
        s
    }

    /// The view a relation describes, or `None` for a relation that is not
    /// a view.
    pub fn from_class(cls: Class) -> (r: Option<View>)
        requires
            is_view_kind(cls.relkind) ==> cls.viewdef.is_some(),
        ensures
            match r {
                Some(v) => {
                    &&& is_view_kind(cls.relkind)
                    &&& v.schema@ == cls.schema@
                    &&& v.name@ == cls.name@
                    &&& v.kind == cls.relkind
                    &&& v.materialized == (cls.relkind == Relkind::MaterializedView)
                    &&& v.viewdef@ == cls.viewdef->Some_0@
                },
                None => !is_view_kind(cls.relkind),
            },
    {
        match View::try_from(cls) {
            Ok(v) => Some(v),
            Err(_) => None,
        }
    }

    /// A view from a relation of a view kind; any other kind is refused.
    pub fn try_from(cls: Class) -> (r: Result<View, InvalidRelkind>)
        requires
            is_view_kind(cls.relkind) ==> cls.viewdef.is_some(),
        ensures
            match r {
                Ok(v) => {
                    &&& is_view_kind(cls.relkind)
                    &&& v.schema@ == cls.schema@
                    &&& v.name@ == cls.name@
                    &&& v.kind == cls.relkind
                    &&& v.materialized == (cls.relkind == Relkind::MaterializedView)
                    &&& v.viewdef@ == cls.viewdef->Some_0@
                },
                Err(e) => !is_view_kind(cls.relkind) && e.0 == cls.relkind,
            },
    {
        let materialized = match cls.relkind {
            Relkind::View => false,
            Relkind::MaterializedView => true,
            _ => {
                return Err(InvalidRelkind(cls.relkind));
            },
        };
        let viewdef = match cls.viewdef {
            Some(d) => d,
            None => {
                return Err(InvalidRelkind(cls.relkind));
            },
        };
        Ok(View { schema: cls.schema, name: cls.name, kind: cls.relkind, materialized, viewdef })
    }
}

} // verus!
