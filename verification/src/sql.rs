//! SQL quoting and a small statement builder.
use vstd::prelude::*;
use crate::text::{join_with, push_char, push_escaped, quoted, string_of, views};

verus! {

/// `ident` as a quoted SQL identifier: wrapped in double quotes, with inner
/// double quotes doubled and nothing else escaped.
pub open spec fn quote_ident_spec(ident: Seq<char>) -> Seq<char> {
    quoted(ident, '"')
}

/// `value` as a quoted SQL string literal: wrapped in single quotes, with
/// inner single quotes doubled.
pub open spec fn quote_literal_spec(value: Seq<char>) -> Seq<char> {
    quoted(value, '\'')
}

/// Quotes `ident` as a SQL identifier.
pub fn quote_ident(ident: &str) -> (r: String)
    ensures
        r@ == quote_ident_spec(ident@),
{
    crate::text::quote_with(ident, '"')
}

/// Appends `ident` quoted as a SQL identifier to `out`.
pub fn push_ident(out: &mut String, ident: &str)
    ensures
        final(out)@ == old(out)@ + quote_ident_spec(ident@),
{
    push_char(out, '"');
    push_escaped(out, ident, '"');
    push_char(out, '"');
    assert(final(out)@ =~= old(out)@ + quote_ident_spec(ident@));
}

/// Appends `value` quoted as a SQL string literal to `out`.
pub fn push_literal(out: &mut String, value: &str)
    ensures
        final(out)@ == old(out)@ + quote_literal_spec(value@),
{
    push_char(out, '\'');
    push_escaped(out, value, '\'');
    push_char(out, '\'');
    assert(final(out)@ =~= old(out)@ + quote_literal_spec(value@));
}

/// Appends `schema` and `name`, each quoted, separated by a dot.
pub fn push_qualified(out: &mut String, schema: &str, name: &str)
    ensures
        final(out)@ == old(out)@ + qualified_spec(schema@, name@),
{
    push_ident(out, schema);
    push_char(out, '.');
    push_ident(out, name);
    assert(final(out)@ =~= old(out)@ + qualified_spec(schema@, name@));
}

/// `"schema"."name"`.
pub open spec fn qualified_spec(schema: Seq<char>, name: Seq<char>) -> Seq<char> {
    quote_ident_spec(schema) + seq!['.'] + quote_ident_spec(name)
}

/// A statement assembled from parts separated by single spaces.
#[derive(Debug, Default)]
pub struct StatementBuilder {
    parts: Vec<String>,
}

impl StatementBuilder {
    /// The parts added so far.
    pub closed spec fn parts_view(&self) -> Seq<Seq<char>> {
        views(self.parts@)
    }

    /// An empty statement.
    pub fn new() -> (b: Self)
        ensures
            b.parts_view() == Seq::<Seq<char>>::empty(),
    {
        let b = StatementBuilder { parts: Vec::new() };
        assert(b.parts_view() =~= Seq::<Seq<char>>::empty());
        b
    }

    /// Adds `s` as the next part.
    pub fn part(&mut self, s: &str)
        ensures
            final(self).parts_view() == old(self).parts_view().push(s@),
    {
        let ghost before = self.parts@;
        self.parts.push(string_of(s));
        assert(views(self.parts@) =~= views(before).push(s@));
    }

    /// Adds `s`, quoted as an identifier, as the next part.
    pub fn ident(&mut self, s: &str)
        ensures
            final(self).parts_view() == old(self).parts_view().push(quote_ident_spec(s@)),
    {
        let q = quote_ident(s);
        self.part(q.as_str());
    }

    /// The parts joined by single spaces.
    pub fn to_string(&self) -> (r: String)
        ensures
            r@ == join_with(self.parts_view(), seq![' ']),
    {
        proof {
            reveal_strlit(" ");
        }
        assert(" "@ =~= seq![' ']);
        crate::text::join_strings(&self.parts, " ")
    }
}

} // verus!
