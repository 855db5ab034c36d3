//! Table triggers.
use vstd::prelude::*;
use crate::rows::TriggerRow;
use crate::diff::{
    ChangeType, Diff, DiffSql, SqlObject, diff_sql_defined, diff_sql_spec, push_stmt, render_diff,
    single_stmt, stmts_view,
};
use crate::order::{Keyed, lemma_pair_key_eq, pair_le};
use crate::sql::{push_ident, push_qualified, qualified_spec, quote_ident_spec};
use crate::text::{ends_with, push_str, starts_with, str_eq};

verus! {

/// A trigger, its definition and its firing state (`O` origin, `D`
/// disabled, `R` replica, `A` always).
#[derive(Debug, PartialEq, Eq)]
pub struct Trigger {
    pub schema: String,
    pub table_name: String,
    pub name: String,
    pub enabled: String,
    pub definition: String,
}

/// Whether two triggers are equal field by field.
pub open spec fn same_trigger(a: &Trigger, b: &Trigger) -> bool {
    a.schema@ == b.schema@ && a.table_name@ == b.table_name@ && a.name@ == b.name@
        && a.enabled@ == b.enabled@ && a.definition@ == b.definition@
}

/// `ALTER TABLE "schema"."table" <action> TRIGGER "name";` and a newline.
pub open spec fn trigger_state_sql(t: &Trigger, action: Seq<char>) -> Seq<char> {
    "ALTER TABLE "@ + qualified_spec(t.schema@, t.table_name@) + " "@ + action + " TRIGGER "@
        + quote_ident_spec(t.name@) + ";\n"@
}

/// The definition as a statement, followed by the statement that restores
/// the firing state when it is not the default.
pub open spec fn trigger_create_sql(t: &Trigger) -> Seq<char> {
    t.definition@ + ";\n"@ + if t.enabled@ == "D"@ {
        trigger_state_sql(t, "DISABLE"@)
    } else if t.enabled@ == "R"@ {
        trigger_state_sql(t, "ENABLE REPLICA"@)
    } else if t.enabled@ == "A"@ {
        trigger_state_sql(t, "ENABLE ALWAYS"@)
    } else {
        Seq::empty()
    }
}

/// Two triggers count as unchanged exactly when schema, table, name,
/// firing state and definition are all the same.
pub proof fn lemma_trigger_same_fields(a: &Trigger, b: &Trigger)
    ensures
        a.same(b) <==> (a.schema@ == b.schema@ && a.table_name@ == b.table_name@ && a.name@ == b.name@
            && a.enabled@ == b.enabled@ && a.definition@ == b.definition@),
{
}

/// A trigger is dropped by name from its table.
pub proof fn lemma_trigger_drop_form(t: &Trigger)
    ensures
        starts_with(trigger_drop_sql(t), "DROP TRIGGER "@ + quote_ident_spec(t.name@) + " ON "@),
        ends_with(trigger_drop_sql(t), qualified_spec(t.schema@, t.table_name@) + ";\n"@),
{
    let s = trigger_drop_sql(t);
    let h = "DROP TRIGGER "@ + quote_ident_spec(t.name@) + " ON "@;
    let e = qualified_spec(t.schema@, t.table_name@) + ";\n"@;
    assert(s =~= h + e);
    assert(s.take(h.len() as int) =~= h);
    assert(s.skip(s.len() - e.len()) =~= e);
}

/// A trigger is created by its definition; a trigger that is not in the
/// default firing state is then put in its state on its table: disabled
/// for `D`, enabled for replicas only for `R`, enabled always for `A`.
pub proof fn lemma_trigger_create_state(t: &Trigger)
    ensures
        starts_with(trigger_create_sql(t), t.definition@ + ";\n"@),
        t.enabled@ == "D"@ ==> ends_with(trigger_create_sql(t), " DISABLE TRIGGER "@ + quote_ident_spec(t.name@) + ";\n"@),
        t.enabled@ == "R"@ ==> ends_with(trigger_create_sql(t), " ENABLE REPLICA TRIGGER "@ + quote_ident_spec(t.name@) + ";\n"@),
        t.enabled@ == "A"@ ==> ends_with(trigger_create_sql(t), " ENABLE ALWAYS TRIGGER "@ + quote_ident_spec(t.name@) + ";\n"@),
        (t.enabled@ == "D"@ || t.enabled@ == "R"@ || t.enabled@ == "A"@) ==> starts_with(
            trigger_create_sql(t),
            t.definition@ + ";\n"@ + "ALTER TABLE "@ + qualified_spec(t.schema@, t.table_name@) + " "@,
        ),
        !(t.enabled@ == "D"@ || t.enabled@ == "R"@ || t.enabled@ == "A"@) ==> trigger_create_sql(t) == t.definition@ + ";\n"@,
{
    reveal_strlit("D");
    reveal_strlit("R");
    reveal_strlit("A");
    assert("R"@[0] != "D"@[0] && "A"@[0] != "D"@[0] && "A"@[0] != "R"@[0]);
    assert("R"@ != "D"@ && "A"@ != "D"@ && "A"@ != "R"@);
    reveal_strlit(" ");
    reveal_strlit(" TRIGGER ");
    reveal_strlit("DISABLE");
    reveal_strlit("ENABLE REPLICA");
    reveal_strlit("ENABLE ALWAYS");
    reveal_strlit(" DISABLE TRIGGER ");
    reveal_strlit(" ENABLE REPLICA TRIGGER ");
    reveal_strlit(" ENABLE ALWAYS TRIGGER ");
    let s = trigger_create_sql(t);
    let base = t.definition@ + ";\n"@;
    let at = "ALTER TABLE "@ + qualified_spec(t.schema@, t.table_name@) + " "@;
    let q = quote_ident_spec(t.name@) + ";\n"@;
    if t.enabled@ == "D"@ || t.enabled@ == "R"@ || t.enabled@ == "A"@ {
        let action = if t.enabled@ == "D"@ {
            "DISABLE"@
        } else if t.enabled@ == "R"@ {
            "ENABLE REPLICA"@
        } else {
            "ENABLE ALWAYS"@
        };
        let tail = " "@ + action + " TRIGGER "@ + q;
        assert(s =~= base + at + action + " TRIGGER "@ + q);
        assert(s =~= (base + at) + (action + " TRIGGER "@ + q));
        assert(s.take(base.len() as int) =~= base);
        assert(s.take((base + at).len() as int) =~= base + at);
        assert(s =~= (base + at.take(at.len() - 1)) + tail);
        assert(s.skip(s.len() - tail.len()) =~= tail);
        let head = t.definition@ + ";\n"@ + "ALTER TABLE "@ + qualified_spec(t.schema@, t.table_name@) + " "@;
        assert(head =~= base + at);
        assert(s.take(head.len() as int) =~= head);
        if t.enabled@ == "D"@ {
            assert(tail =~= " DISABLE TRIGGER "@ + quote_ident_spec(t.name@) + ";\n"@);
        } else if t.enabled@ == "R"@ {
            assert(tail =~= " ENABLE REPLICA TRIGGER "@ + quote_ident_spec(t.name@) + ";\n"@);
        } else {
            assert(tail =~= " ENABLE ALWAYS TRIGGER "@ + quote_ident_spec(t.name@) + ";\n"@);
        }
    } else {
        assert(s =~= base);
        assert(s.take(base.len() as int) =~= base);
    }
}

/// `DROP TRIGGER "name" ON "schema"."table";` and a newline.
pub open spec fn trigger_drop_sql(t: &Trigger) -> Seq<char> {
    "DROP TRIGGER "@ + quote_ident_spec(t.name@) + " ON "@ + qualified_spec(t.schema@, t.table_name@)
        + ";\n"@
}

impl Keyed for Trigger {
    open spec fn key(&self) -> Seq<Seq<char>> {
        seq![self.table_name@, self.name@]
    }

    fn same_key(&self, other: &Self) -> (r: bool) {
        proof {
            lemma_pair_key_eq(self.table_name@, self.name@, other.table_name@, other.name@);
        }
        self.table_name == other.table_name && self.name == other.name
    }

    fn key_before_eq(&self, other: &Self) -> (r: bool) {
        pair_le(
            self.table_name.as_str(),
            self.name.as_str(),
            other.table_name.as_str(),
            other.name.as_str(),
        )
    }
}

impl Trigger {
    fn push_state(&self, s: &mut String, action: &str)
        ensures
            final(s)@ == old(s)@ + trigger_state_sql(self, action@),
    {
        push_str(s, "ALTER TABLE ");
        push_qualified(s, self.schema.as_str(), self.table_name.as_str());
        push_str(s, " ");
        push_str(s, action);
        push_str(s, " TRIGGER ");
        push_ident(s, self.name.as_str());
        push_str(s, ";\n");
        assert(final(s)@ =~= old(s)@ + trigger_state_sql(self, action@));
    }

    /// The statements that create this trigger in its firing state.
    pub fn create_sql(&self) -> (r: String)
        ensures
            r@ == trigger_create_sql(self),
    {
        let mut sql = String::new();
        push_str(&mut sql, self.definition.as_str());
        push_str(&mut sql, ";\n");
        let ghost base = sql@;
        if str_eq(self.enabled.as_str(), "D") {
            self.push_state(&mut sql, "DISABLE");
        } else if str_eq(self.enabled.as_str(), "R") {
            self.push_state(&mut sql, "ENABLE REPLICA");
        } else if str_eq(self.enabled.as_str(), "A") {
            self.push_state(&mut sql, "ENABLE ALWAYS");
        } else {
            assert(sql@ =~= base + Seq::<char>::empty());
        }
        sql
    }

    /// The statement that drops this trigger.
    pub fn drop_sql(&self) -> (r: String)
        ensures
            r@ == trigger_drop_sql(self),
    {
        let mut s = String::new();
        push_str(&mut s, "DROP TRIGGER ");
        push_ident(&mut s, self.name.as_str());
        push_str(&mut s, " ON ");
        push_qualified(&mut s, self.schema.as_str(), self.table_name.as_str());
        push_str(&mut s, ";\n");
        s
    }
}

impl Trigger {
    /// A trigger from its catalog row.
    pub fn from_row(row: TriggerRow) -> (t: Trigger)
        ensures
            t.schema@ == row.schema@,
            t.table_name@ == row.table_name@,
            t.name@ == row.name@,
            t.enabled@ == row.enabled@,
            t.definition@ == row.definition@,
    {
        Trigger {
            schema: row.schema,
            table_name: row.table_name,
            name: row.name,
            enabled: row.enabled,
            definition: row.definition,
        }
    }
}

impl SqlObject for Trigger {
    open spec fn same(&self, other: &Self) -> bool {
        same_trigger(self, other)
    }

    open spec fn drop_view(&self) -> Seq<(ChangeType, Seq<char>)> {
        seq![(ChangeType::DropTrigger, trigger_drop_sql(self))]
    }

    /// A changed trigger is dropped and created again.
    open spec fn change_view(&self, previous: &Self) -> Seq<(ChangeType, Seq<char>)> {
        seq![
            (ChangeType::DropTrigger, trigger_drop_sql(previous)),
            (ChangeType::CreateTrigger, trigger_create_sql(self)),
        ]
    }

    open spec fn change_defined(&self, previous: &Self) -> bool {
        true
    }

    open spec fn create_view(&self) -> Seq<(ChangeType, Seq<char>)> {
        seq![(ChangeType::CreateTrigger, trigger_create_sql(self))]
    }

    proof fn lemma_same_refl(&self) {
    }

    fn same_as(&self, other: &Self) -> (r: bool) {
        self.schema == other.schema && self.table_name == other.table_name && self.name
            == other.name && self.enabled == other.enabled && self.definition == other.definition
    }

    fn drop_stmts(&self) -> (r: Vec<(ChangeType, String)>) {
        single_stmt(ChangeType::DropTrigger, self.drop_sql())
    }

    fn change_stmts(&self, previous: &Self) -> (r: Vec<(ChangeType, String)>) {
        let mut v = single_stmt(ChangeType::DropTrigger, previous.drop_sql());
        push_stmt(&mut v, ChangeType::CreateTrigger, self.create_sql());
        assert(stmts_view(v@) =~= self.change_view(previous));
        v
    }

    fn create_stmts(&self) -> (r: Vec<(ChangeType, String)>) {
        single_stmt(ChangeType::CreateTrigger, self.create_sql())
    }
}

impl<'a> DiffSql for Diff<'a, Trigger> {
    open spec fn sql_defined(&self) -> bool {
        diff_sql_defined(self)
    }

    /// Drops of removed triggers, drop-and-create of changed ones, creations
    /// of new ones.
    fn sql(&self) -> (r: Vec<(ChangeType, String)>)
        ensures
            stmts_view(r@) == diff_sql_spec(self),
    {
        render_diff(self)
    }
}

} // verus!
