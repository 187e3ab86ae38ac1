//! The boundary to the GraphQL grammar.
//!
//! A rebuilt standalone query is re-parsed and re-printed through the
//! grammar: only texts the grammar accepts produce output, and the
//! output is the grammar's own re-printing of them. Whether a text
//! parses, and what its canonical form is, are functions of the text
//! alone; both are named here and stated by the one trusted wrapper.

use vstd::prelude::*;

verus! {

/// Whether a text is a syntactically valid query document.
pub uninterp spec fn gql_parses(s: Seq<char>) -> bool;

/// The canonical re-printing of a valid query document text.
pub uninterp spec fn gql_canonical(s: Seq<char>) -> Seq<char>;

/// The grammar's re-printing of some text it accepts: the form of
/// every standalone query the flattener emits.
pub open spec fn canonical_form(q: Seq<char>) -> bool {
    exists|raw: Seq<char>| #[trigger] gql_parses(raw) && q == gql_canonical(raw)
}

/// Relies on `graphql_parser::parse_query`, which accepts exactly the
/// syntactically valid query documents, and on the display form of the
/// parsed document, which depends on the parsed text alone.
#[verifier::external_body]
pub fn canonicalize(s: &str) -> (r: Option<String>)
    ensures
        match r {
            Some(q) => gql_parses(s@) && q@ == gql_canonical(s@),
            None => !gql_parses(s@),
        },
{
    match graphql_parser::parse_query::<String>(s) {
        Ok(doc) => Some(format!("{}", doc)),
        Err(_) => None,
    }
}

} // verus!
