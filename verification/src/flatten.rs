//! The query flattener.
//!
//! `parse_document` walks every query operation of a document
//! depth-first, carrying the path of rendered segments from the
//! operation header down to the current selection, and emits one
//! standalone query per leaf field, in the depth-first left-to-right
//! order of the document. A fragment spread is resolved against the
//! document's fragment definitions afresh at every occurrence; an
//! unresolvable spread fails the walk, as does a spread of a fragment
//! that is already being expanded on the current path (such a document
//! could never be flattened). The flattener performs no network
//! activity: a failure here aborts before anything is executed.
//!
//! The whole walk is mirrored by the spec functions `flatten_selection`
//! / `flatten_selections` / `flatten_definitions`, which the exec
//! functions are proved to follow exactly.

use crate::ast::{Definition, Document, Field, FragmentDefinition, FragmentSpread, InlineFragment,
    Query, Selection};
use crate::gql::{canonical_form, canonicalize, gql_canonical, gql_parses};
use crate::render::{field_segment, field_segment_to_str, inline_segment, inline_segment_to_str,
    query_header, query_header_to_str, raw_query, raw_query_to_str, spread_segment,
    spread_segment_to_str, strs};
use vstd::prelude::*;

verus! {

/// Why flattening a document failed.
#[derive(Debug)]
pub enum FlattenError {
    /// A spread referenced this name, and no fragment defines it.
    FragmentNotFound(String),
    /// A spread referenced this fragment while it was already being
    /// expanded on the same path; such a reference can never be
    /// resolved to a finite query.
    FragmentCycle(String),
    /// A rebuilt standalone query (carried here) failed to re-parse;
    /// this indicates an internal invariant violation.
    Unparsable(String),
}

/// The spec-level form of a `FlattenError`.
pub enum FlatErr {
    FragmentNotFound(Seq<char>),
    FragmentCycle(Seq<char>),
    Unparsable(Seq<char>),
}

impl View for FlattenError {
    type V = FlatErr;

    open spec fn view(&self) -> FlatErr {
        match self {
            FlattenError::FragmentNotFound(n) => FlatErr::FragmentNotFound(n@),
            FlattenError::FragmentCycle(n) => FlatErr::FragmentCycle(n@),
            FlattenError::Unparsable(q) => FlatErr::Unparsable(q@),
        }
    }
}

impl FlattenError {
    /// A rendering of the error for reports.
    pub fn message(&self) -> (r: String)
        ensures
            self matches FlattenError::FragmentNotFound(n) ==> r@ == "cannot find fragment with name "@
                + n@,
            self matches FlattenError::FragmentCycle(n) ==> r@ == "fragment expansion cycles through "@
                + n@,
            self matches FlattenError::Unparsable(q) ==> r@
                == "rebuilt query failed to re-parse: "@ + q@,
    {
        let mut out = String::new();
        match self {
            FlattenError::FragmentNotFound(n) => {
                out.append("cannot find fragment with name ");
                out.append(n.as_str());
            },
            FlattenError::FragmentCycle(n) => {
                out.append("fragment expansion cycles through ");
                out.append(n.as_str());
            },
            FlattenError::Unparsable(q) => {
                out.append("rebuilt query failed to re-parse: ");
                out.append(q.as_str());
            },
        }
        proof {
            assert forall|p: Seq<char>| Seq::<char>::empty() + p =~= p by {}
        }
        out
    }
}

/// The names of all fragment definitions of a document.
pub open spec fn fragment_names(defs: Seq<Definition>) -> Set<Seq<char>>
    decreases defs.len(),
{
    if defs.len() == 0 {
        Set::empty()
    } else {
        let rest = fragment_names(defs.drop_last());
        match defs.last() {
            Definition::Fragment(f) => rest.insert(f.name@),
            _ => rest,
        }
    }
}

proof fn lemma_fragment_names_finite(defs: Seq<Definition>)
    ensures
        fragment_names(defs).finite(),
    decreases defs.len(),
{
    if defs.len() > 0 {
        lemma_fragment_names_finite(defs.drop_last());
    }
}

/// The fragment definition a name resolves to: the last definition
/// with that name (a later duplicate shadows an earlier one).
pub open spec fn lookup_fragment_spec(defs: Seq<Definition>, name: Seq<char>) -> Option<
    FragmentDefinition,
>
    decreases defs.len(),
{
    if defs.len() == 0 {
        None
    } else {
        match defs.last() {
            Definition::Fragment(f) => if f.name@ == name {
                Some(f)
            } else {
                lookup_fragment_spec(defs.drop_last(), name)
            },
            _ => lookup_fragment_spec(defs.drop_last(), name),
        }
    }
}

proof fn lemma_lookup_in_names(defs: Seq<Definition>, name: Seq<char>)
    requires
        lookup_fragment_spec(defs, name) is Some,
    ensures
        fragment_names(defs).contains(name),
    decreases defs.len(),
{
    if defs.len() > 0 {
        match defs.last() {
            Definition::Fragment(f) => {
                if f.name@ != name {
                    lemma_lookup_in_names(defs.drop_last(), name);
                }
            },
            _ => {
                lemma_lookup_in_names(defs.drop_last(), name);
            },
        }
    }
}

/// How many fragments of the document are not yet being expanded on
/// the current path; the first component of the walk's termination
/// measure.
pub open spec fn unvisited(defs: Seq<Definition>, visited: Set<Seq<char>>) -> nat {
    fragment_names(defs).difference(visited).len()
}

proof fn lemma_unvisited_decreases(defs: Seq<Definition>, visited: Set<Seq<char>>, name: Seq<char>)
    requires
        fragment_names(defs).contains(name),
        !visited.contains(name),
    ensures
        unvisited(defs, visited.insert(name)) < unvisited(defs, visited),
{
    lemma_fragment_names_finite(defs);
    fragment_names(defs).lemma_set_insert_diff_decreases(visited, name);
}

/// The standalone queries contributed by one selection, reached over
/// `path` while the fragments in `visited` are being expanded.
pub open spec fn flatten_selection(
    defs: Seq<Definition>,
    visited: Set<Seq<char>>,
    path: Seq<Seq<char>>,
    sel: Selection,
) -> Result<Seq<Seq<char>>, FlatErr>
    decreases unvisited(defs, visited), sel,
    via flatten_selection_decreases
{
    match sel {
        Selection::Field(f) => {
            let p2 = path.push(field_segment(f));
            if f.selection_set@.len() == 0 {
                let raw = raw_query(p2);
                if gql_parses(raw) {
                    Ok(seq![gql_canonical(raw)])
                } else {
                    Err(FlatErr::Unparsable(raw))
                }
            } else {
                flatten_selections(defs, visited, p2, f.selection_set@)
            }
        },
        Selection::FragmentSpread(sp) => match lookup_fragment_spec(defs, sp.fragment_name@) {
            None => Err(FlatErr::FragmentNotFound(sp.fragment_name@)),
            Some(fd) => {
                if visited.contains(sp.fragment_name@) {
                    Err(FlatErr::FragmentCycle(sp.fragment_name@))
                } else {
                    flatten_selections(
                        defs,
                        visited.insert(sp.fragment_name@),
                        path.push(spread_segment(fd)),
                        fd.selection_set@,
                    )
                }
            },
        },
        Selection::InlineFragment(inl) => flatten_selections(
            defs,
            visited,
            path.push(inline_segment(inl)),
            inl.selection_set@,
        ),
    }
}

/// The standalone queries contributed by the items of one selection
/// set, concatenated left to right.
pub open spec fn flatten_selections(
    defs: Seq<Definition>,
    visited: Set<Seq<char>>,
    path: Seq<Seq<char>>,
    sels: Seq<Selection>,
) -> Result<Seq<Seq<char>>, FlatErr>
    decreases unvisited(defs, visited), sels,
{
    if sels.len() == 0 {
        Ok(Seq::empty())
    } else {
        match flatten_selection(defs, visited, path, sels[0]) {
            Err(e) => Err(e),
            Ok(first) => match flatten_selections(defs, visited, path, sels.drop_first()) {
                Err(e) => Err(e),
                Ok(rest) => Ok(first + rest),
            },
        }
    }
}

#[via_fn]
proof fn flatten_selection_decreases(
    defs: Seq<Definition>,
    visited: Set<Seq<char>>,
    path: Seq<Seq<char>>,
    sel: Selection,
) {
    match sel {
        Selection::FragmentSpread(sp) => {
            match lookup_fragment_spec(defs, sp.fragment_name@) {
                Some(fd) => {
                    if !visited.contains(sp.fragment_name@) {
                        lemma_lookup_in_names(defs, sp.fragment_name@);
                        lemma_unvisited_decreases(defs, visited, sp.fragment_name@);
                    }
                },
                None => {},
            }
        },
        _ => {},
    }
}

/// The standalone queries of the whole document: for each query
/// operation, in order, the queries of its selection set under a path
/// holding only the operation header.
pub open spec fn flatten_definitions(defs: Seq<Definition>, i: int) -> Result<
    Seq<Seq<char>>,
    FlatErr,
>
    decreases defs.len() - i,
{
    if i < 0 || i >= defs.len() {
        Ok(Seq::empty())
    } else {
        let head = match defs[i] {
            Definition::Query(q) => flatten_selections(
                defs,
                Set::empty(),
                seq![query_header(q)],
                q.selection_set@,
            ),
            Definition::Fragment(_) => Ok(Seq::empty()),
        };
        match head {
            Err(e) => Err(e),
            Ok(first) => match flatten_definitions(defs, i + 1) {
                Err(e) => Err(e),
                Ok(rest) => Ok(first + rest),
            },
        }
    }
}

/// What flattening a document yields.
pub open spec fn flatten_document_spec(doc: Document) -> Result<Seq<Seq<char>>, FlatErr> {
    flatten_definitions(doc.definitions@, 0)
}

/// An accumulator joined with the outcome of the remaining walk.
pub open spec fn combine(acc: Seq<Seq<char>>, r: Result<Seq<Seq<char>>, FlatErr>) -> Result<
    Seq<Seq<char>>,
    FlatErr,
> {
    match r {
        Ok(qs) => Ok(acc + qs),
        Err(e) => Err(e),
    }
}

/// The names on the current expansion path.
pub open spec fn name_set(v: Seq<String>) -> Set<Seq<char>> {
    strs(v).to_set()
}

/// The walk only appends to the output: the old entries stay an
/// unchanged prefix, and every appended entry is the grammar's
/// re-printing of a text it accepted, whether the walk returns or
/// fails partway.
pub open spec fn appends_canonical(pre: Seq<Seq<char>>, post: Seq<Seq<char>>) -> bool {
    &&& pre.is_prefix_of(post)
    &&& forall|k: int| pre.len() <= k < post.len() ==> canonical_form(#[trigger] post[k])
}

proof fn lemma_appends_refl(a: Seq<Seq<char>>)
    ensures
        appends_canonical(a, a),
{
    assert(a.subrange(0, a.len() as int) =~= a);
}

proof fn lemma_appends_push(a: Seq<Seq<char>>, q: Seq<char>)
    requires
        canonical_form(q),
    ensures
        appends_canonical(a, a.push(q)),
{
    assert(a.push(q).subrange(0, a.len() as int) =~= a);
}

proof fn lemma_appends_trans(a: Seq<Seq<char>>, b: Seq<Seq<char>>, c: Seq<Seq<char>>)
    requires
        appends_canonical(a, b),
        appends_canonical(b, c),
    ensures
        appends_canonical(a, c),
{
    assert forall|i: int| 0 <= i < a.len() implies c.subrange(0, a.len() as int)[i] == a[i] by {
        assert(a[i] == b.subrange(0, a.len() as int)[i]);
        assert(b[i] == c.subrange(0, b.len() as int)[i]);
    }
    assert(c.subrange(0, a.len() as int) =~= a);
    assert forall|k: int| a.len() <= k < c.len() implies canonical_form(c[k]) by {
        if k < b.len() {
            assert(b[k] == c.subrange(0, b.len() as int)[k]);
        }
    }
}

/// Structural size of one selection; the second component of the
/// walk's termination measure.
pub open spec fn sel_size(sel: Selection) -> nat
    decreases sel,
{
    match sel {
        Selection::Field(f) => 1 + sels_size(f.selection_set@),
        Selection::FragmentSpread(_) => 1,
        Selection::InlineFragment(inl) => 1 + sels_size(inl.selection_set@),
    }
}

/// Structural size of a selection set.
pub open spec fn sels_size(sels: Seq<Selection>) -> nat
    decreases sels,
{
    if sels.len() == 0 {
        0
    } else {
        sel_size(sels[0]) + sels_size(sels.drop_first())
    }
}

proof fn lemma_sels_size_bound(sels: Seq<Selection>, i: int)
    requires
        0 <= i < sels.len(),
    ensures
        sel_size(sels[i]) <= sels_size(sels),
    decreases sels.len(),
{
    if i > 0 {
        lemma_sels_size_bound(sels.drop_first(), i - 1);
        assert(sels.drop_first()[i - 1] == sels[i]);
    }
}

fn clone_strings(v: &Vec<String>) -> (r: Vec<String>)
    ensures
        r@ == v@,
{
    let mut out: Vec<String> = Vec::new();
    let mut i: usize = 0;
    while i < v.len()
        invariant
            i <= v@.len(),
            out@ =~= v@.take(i as int),
        decreases v@.len() - i,
    {
        out.push(v[i].clone());
        i = i + 1;
    }
    proof {
        assert(v@.take(v@.len() as int) =~= v@);
    }
    out
}

fn contains_name(v: &Vec<String>, name: &String) -> (r: bool)
    ensures
        r == name_set(v@).contains(name@),
{
    let mut i: usize = 0;
    while i < v.len()
        invariant
            i <= v@.len(),
            forall|j: int| 0 <= j < i ==> strs(v@)[j] != name@,
        decreases v@.len() - i,
    {
        if v[i].eq(name) {
            proof {
                assert(strs(v@)[i as int] == name@);
            }
            return true;
        }
        i = i + 1;
    }
    proof {
        assert(!strs(v@).contains(name@));
    }
    false
}

/// Resolves a fragment name against the document's definitions; a
/// later definition shadows an earlier one of the same name.
pub fn lookup_fragment<'a>(defs: &'a Vec<Definition>, name: &String) -> (r: Option<
    &'a FragmentDefinition,
>)
    ensures
        match r {
            Some(f) => lookup_fragment_spec(defs@, name@) == Some(*f),
            None => lookup_fragment_spec(defs@, name@) is None,
        },
{
    let mut i: usize = defs.len();
    proof {
        assert(defs@.take(defs@.len() as int) =~= defs@);
    }
    while i > 0
        invariant
            i <= defs@.len(),
            lookup_fragment_spec(defs@, name@) == lookup_fragment_spec(
                defs@.take(i as int),
                name@,
            ),
        decreases i,
    {
        i = i - 1;
        proof {
            assert(defs@.take(i + 1).drop_last() =~= defs@.take(i as int));
            assert(defs@.take(i + 1).last() == defs@[i as int]);
        }
        match &defs[i] {
            Definition::Fragment(f) => {
                if f.name.eq(name) {
                    return Some(f);
                }
            },
            _ => {},
        }
    }
    proof {
        assert(defs@.take(0) =~= Seq::<Definition>::empty());
    }
    None
}

/// Serializes a path into its standalone query: the segments joined by
/// `" { "` with one closing brace per segment after the first, then
/// re-parsed and re-printed through the grammar into canonical form.
pub fn path_to_query(path: &Vec<String>) -> (r: Result<String, FlattenError>)
    requires
        path@.len() >= 1,
    ensures
        ({
            let raw = raw_query(strs(path@));
            match r {
                Ok(q) => gql_parses(raw) && q@ == gql_canonical(raw) && canonical_form(q@),
                Err(e) => !gql_parses(raw) && e@ == FlatErr::Unparsable(raw),
            }
        }),
{
    let joined = raw_query_to_str(path);
    match canonicalize(joined.as_str()) {
        Some(q) => Ok(q),
        None => Err(FlattenError::Unparsable(joined)),
    }
}

/// Walks one field selection: a leaf contributes the standalone query
/// of its full path; a field with children recurses into them.
pub fn handle_field(
    defs: &Vec<Definition>,
    visited: &Vec<String>,
    path: &Vec<String>,
    field: &Field,
    out: &mut Vec<String>,
) -> (r: Result<(), FlattenError>)
    ensures
        ({
            let fr = flatten_selection(
                defs@,
                name_set(visited@),
                strs(path@),
                Selection::Field(*field),
            );
            match r {
                Ok(_) => fr is Ok && strs(final(out)@) == strs(old(out)@) + fr->Ok_0,
                Err(e) => fr == Err::<Seq<Seq<char>>, FlatErr>(e@),
            }
        }),
        appends_canonical(strs(old(out)@), strs(final(out)@)),
    decreases unvisited(defs@, name_set(visited@)), sel_size(Selection::Field(*field)), 0int,
{
    let seg = field_segment_to_str(field);
    let mut p2 = clone_strings(path);
    p2.push(seg);
    proof {
        assert(strs(p2@) =~= strs(path@).push(field_segment(*field)));
    }
    if field.selection_set.len() == 0 {
        match path_to_query(&p2) {
            Ok(q) => {
                let ghost pre = out@;
                out.push(q);
                proof {
                    let fr = flatten_selection(
                        defs@,
                        name_set(visited@),
                        strs(path@),
                        Selection::Field(*field),
                    );
                    assert(strs(out@) =~= strs(pre) + fr->Ok_0);
                }
                Ok(())
            },
            Err(e) => Err(e),
        }
    } else {
        handle_selection_set(defs, visited, &p2, &field.selection_set, out)
    }
}

/// Walks a fragment spread: resolves the name, fails on an unknown or
/// already-expanding fragment, and otherwise recurses into the
/// fragment's selection set as if it were written at the spread site.
pub fn handle_fragment_spread(
    defs: &Vec<Definition>,
    visited: &Vec<String>,
    path: &Vec<String>,
    spread: &FragmentSpread,
    out: &mut Vec<String>,
) -> (r: Result<(), FlattenError>)
    ensures
        ({
            let fr = flatten_selection(
                defs@,
                name_set(visited@),
                strs(path@),
                Selection::FragmentSpread(*spread),
            );
            match r {
                Ok(_) => fr is Ok && strs(final(out)@) == strs(old(out)@) + fr->Ok_0,
                Err(e) => fr == Err::<Seq<Seq<char>>, FlatErr>(e@),
            }
        }),
        appends_canonical(strs(old(out)@), strs(final(out)@)),
        lookup_fragment_spec(defs@, spread.fragment_name@) is None ==> final(out)@ == old(out)@,
        lookup_fragment_spec(defs@, spread.fragment_name@) is Some && name_set(visited@).contains(
            spread.fragment_name@,
        ) ==> final(out)@ == old(out)@,
    decreases unvisited(defs@, name_set(visited@)), sel_size(Selection::FragmentSpread(*spread)), 0int,
{
    match lookup_fragment(defs, &spread.fragment_name) {
        None => Err(FlattenError::FragmentNotFound(spread.fragment_name.clone())),
        Some(fd) => {
            if contains_name(visited, &spread.fragment_name) {
                Err(FlattenError::FragmentCycle(spread.fragment_name.clone()))
            } else {
                let seg = spread_segment_to_str(fd);
                let mut p2 = clone_strings(path);
                p2.push(seg);
                let mut v2 = clone_strings(visited);
                v2.push(spread.fragment_name.clone());
                proof {
                    assert(strs(p2@) =~= strs(path@).push(spread_segment(*fd)));
                    assert(strs(v2@) =~= strs(visited@).push(spread.fragment_name@));
                    assert forall|a: Seq<char>|
                        strs(v2@).contains(a) <==> (strs(visited@).contains(a) || a
                            == spread.fragment_name@) by {
                        let w = strs(visited@);
                        if w.contains(a) {
                            let j = choose|j: int| 0 <= j < w.len() && w[j] == a;
                            assert(strs(v2@)[j] == a);
                        }
                        if a == spread.fragment_name@ {
                            assert(strs(v2@)[w.len() as int] == a);
                        }
                        if strs(v2@).contains(a) {
                            let j = choose|j: int| 0 <= j < strs(v2@).len() && strs(v2@)[j] == a;
                            if j < w.len() {
                                assert(w[j] == a);
                            }
                        }
                    }
                    assert(name_set(v2@) =~= name_set(visited@).insert(spread.fragment_name@));
                    lemma_lookup_in_names(defs@, spread.fragment_name@);
                    lemma_unvisited_decreases(
                        defs@,
                        name_set(visited@),
                        spread.fragment_name@,
                    );
                }
                handle_selection_set(defs, &v2, &p2, &fd.selection_set, out)
            }
        },
    }
}

/// Walks an inline fragment: appends its segment and recurses into its
/// selection set.
pub fn handle_inline_fragment(
    defs: &Vec<Definition>,
    visited: &Vec<String>,
    path: &Vec<String>,
    fragment: &InlineFragment,
    out: &mut Vec<String>,
) -> (r: Result<(), FlattenError>)
    ensures
        ({
            let fr = flatten_selection(
                defs@,
                name_set(visited@),
                strs(path@),
                Selection::InlineFragment(*fragment),
            );
            match r {
                Ok(_) => fr is Ok && strs(final(out)@) == strs(old(out)@) + fr->Ok_0,
                Err(e) => fr == Err::<Seq<Seq<char>>, FlatErr>(e@),
            }
        }),
        appends_canonical(strs(old(out)@), strs(final(out)@)),
    decreases unvisited(defs@, name_set(visited@)), sel_size(Selection::InlineFragment(*fragment)), 0int,
{
    let seg = inline_segment_to_str(fragment);
    let mut p2 = clone_strings(path);
    p2.push(seg);
    proof {
        assert(strs(p2@) =~= strs(path@).push(inline_segment(*fragment)));
    }
    handle_selection_set(defs, visited, &p2, &fragment.selection_set, out)
}

/// Walks the items of a selection set in order, appending the
/// standalone queries of every leaf below them to `out`.
pub fn handle_selection_set(
    defs: &Vec<Definition>,
    visited: &Vec<String>,
    path: &Vec<String>,
    ss: &Vec<Selection>,
    out: &mut Vec<String>,
) -> (r: Result<(), FlattenError>)
    ensures
        ({
            let fr = flatten_selections(defs@, name_set(visited@), strs(path@), ss@);
            match r {
                Ok(_) => fr is Ok && strs(final(out)@) == strs(old(out)@) + fr->Ok_0,
                Err(e) => fr == Err::<Seq<Seq<char>>, FlatErr>(e@),
            }
        }),
        appends_canonical(strs(old(out)@), strs(final(out)@)),
    decreases unvisited(defs@, name_set(visited@)), sels_size(ss@), 1int,
{
    let ghost dv = defs@;
    let ghost vv = name_set(visited@);
    let ghost pv = strs(path@);
    let mut i: usize = 0;
    proof {
        assert(ss@.skip(0) =~= ss@);
        lemma_appends_refl(strs(out@));
    }
    while i < ss.len()
        invariant
            i <= ss@.len(),
            dv == defs@,
            vv == name_set(visited@),
            pv == strs(path@),
            combine(strs(out@), flatten_selections(dv, vv, pv, ss@.skip(i as int))) == combine(
                strs(old(out)@),
                flatten_selections(dv, vv, pv, ss@),
            ),
            appends_canonical(strs(old(out)@), strs(out@)),
        decreases ss@.len() - i,
    {
        let ghost pre = out@;
        let ghost rem = ss@.skip(i as int);
        proof {
            assert(rem[0] == ss@[i as int]);
            assert(rem.drop_first() =~= ss@.skip(i as int + 1));
        }
        let step = match &ss[i] {
            Selection::Field(f) => {
                proof {
                    lemma_sels_size_bound(ss@, i as int);
                }
                handle_field(defs, visited, path, f, out)
            },
            Selection::FragmentSpread(sp) => {
                proof {
                    lemma_sels_size_bound(ss@, i as int);
                }
                handle_fragment_spread(defs, visited, path, sp, out)
            },
            Selection::InlineFragment(inl) => {
                proof {
                    lemma_sels_size_bound(ss@, i as int);
                }
                handle_inline_fragment(defs, visited, path, inl, out)
            },
        };
        match step {
            Ok(_) => {},
            Err(e) => {
                proof {
                    let sr = flatten_selection(dv, vv, pv, ss@[i as int]);
                    assert(flatten_selections(dv, vv, pv, rem) == Err::<
                        Seq<Seq<char>>,
                        FlatErr,
                    >(e@));
                    lemma_appends_trans(strs(old(out)@), strs(pre), strs(out@));
                }
                return Err(e);
            },
        }
        i = i + 1;
        proof {
            let sr = flatten_selection(dv, vv, pv, rem[0]);
            let after = flatten_selections(dv, vv, pv, ss@.skip(i as int));
            assert(sr is Ok);
            assert(strs(out@) == strs(pre) + sr->Ok_0);
            match after {
                Ok(rest) => {
                    assert((strs(pre) + sr->Ok_0) + rest =~= strs(pre) + (sr->Ok_0 + rest));
                },
                Err(_) => {},
            }
            lemma_appends_trans(strs(old(out)@), strs(pre), strs(out@));
        }
    }
    proof {
        assert(ss@.skip(ss@.len() as int) =~= Seq::<Selection>::empty());
        assert(strs(out@) + Seq::<Seq<char>>::empty() =~= strs(out@));
    }
    Ok(())
}

/// Walks one query operation: its selection set under a path holding
/// only the rendered operation header.
pub fn handle_query(defs: &Vec<Definition>, query: &Query, out: &mut Vec<String>) -> (r: Result<
    (),
    FlattenError,
>)
    ensures
        ({
            let fr = flatten_selections(
                defs@,
                Set::empty(),
                seq![query_header(*query)],
                query.selection_set@,
            );
            match r {
                Ok(_) => fr is Ok && strs(final(out)@) == strs(old(out)@) + fr->Ok_0,
                Err(e) => fr == Err::<Seq<Seq<char>>, FlatErr>(e@),
            }
        }),
        appends_canonical(strs(old(out)@), strs(final(out)@)),
{
    let header = query_header_to_str(query);
    let mut path: Vec<String> = Vec::new();
    path.push(header);
    let visited: Vec<String> = Vec::new();
    proof {
        assert(strs(path@) =~= seq![query_header(*query)]);
        assert(name_set(visited@) =~= Set::<Seq<char>>::empty());
    }
    handle_selection_set(defs, &visited, &path, &query.selection_set, out)
}

/// Flattens a document into its standalone queries, one per leaf field,
/// in the depth-first left-to-right order of the document.
pub fn parse_document(doc: &Document) -> (r: Result<Vec<String>, FlattenError>)
    ensures
        ({
            let fr = flatten_document_spec(*doc);
            match r {
                Ok(qs) => fr is Ok && strs(qs@) == fr->Ok_0 && (forall|k: int|
                    0 <= k < qs@.len() ==> canonical_form(#[trigger] strs(qs@)[k])),
                Err(e) => fr == Err::<Seq<Seq<char>>, FlatErr>(e@),
            }
        }),
{
    let ghost dv = doc.definitions@;
    let mut out: Vec<String> = Vec::new();
    let mut i: usize = 0;
    proof {
        assert(strs(out@) =~= Seq::<Seq<char>>::empty());
        lemma_appends_refl(strs(out@));
    }
    while i < doc.definitions.len()
        invariant
            i <= dv.len(),
            dv == doc.definitions@,
            combine(strs(out@), flatten_definitions(dv, i as int)) == flatten_definitions(dv, 0),
            appends_canonical(Seq::<Seq<char>>::empty(), strs(out@)),
        decreases dv.len() - i,
    {
        let ghost pre = out@;
        let step = match &doc.definitions[i] {
            Definition::Query(q) => handle_query(&doc.definitions, q, &mut out),
            Definition::Fragment(_) => Ok(()),
        };
        proof {
            lemma_appends_trans(Seq::<Seq<char>>::empty(), strs(pre), strs(out@));
        }
        match step {
            Ok(_) => {},
            Err(e) => {
                proof {
                    assert(flatten_definitions(dv, i as int) == Err::<Seq<Seq<char>>, FlatErr>(
                        e@,
                    ));
                }
                return Err(e);
            },
        }
        i = i + 1;
        proof {
            let head = match dv[i - 1] {
                Definition::Query(q) => flatten_selections(
                    dv,
                    Set::empty(),
                    seq![query_header(q)],
                    q.selection_set@,
                ),
                Definition::Fragment(_) => Ok::<Seq<Seq<char>>, FlatErr>(Seq::empty()),
            };
            assert(head is Ok);
            if dv[i - 1] is Fragment {
                assert(strs(out@) =~= strs(pre) + head->Ok_0);
            }
            assert(strs(out@) == strs(pre) + head->Ok_0);
            match flatten_definitions(dv, i as int) {
                Ok(rest) => {
                    assert((strs(pre) + head->Ok_0) + rest =~= strs(pre) + (head->Ok_0 + rest));
                },
                Err(_) => {},
            }
        }
    }
    proof {
        assert(strs(out@) + Seq::<Seq<char>>::empty() =~= strs(out@));
    }
    Ok(out)
}


/// Whether a selection contains no fragment spread anywhere below it.
pub open spec fn spread_free(sel: Selection) -> bool
    decreases sel,
{
    match sel {
        Selection::Field(f) => spread_free_all(f.selection_set@),
        Selection::FragmentSpread(_) => false,
        Selection::InlineFragment(inl) => spread_free_all(inl.selection_set@),
    }
}

/// Whether no selection of the set contains a fragment spread.
pub open spec fn spread_free_all(sels: Seq<Selection>) -> bool
    decreases sels,
{
    forall|i: int| 0 <= i < sels.len() ==> spread_free(#[trigger] sels[i])
}

/// The number of leaf fields of one selection.
pub open spec fn leaf_count(sel: Selection) -> nat
    decreases sel,
{
    match sel {
        Selection::Field(f) => if f.selection_set@.len() == 0 {
            1
        } else {
            leaf_count_all(f.selection_set@)
        },
        Selection::FragmentSpread(_) => 0,
        Selection::InlineFragment(inl) => leaf_count_all(inl.selection_set@),
    }
}

/// The number of leaf fields of a selection set.
pub open spec fn leaf_count_all(sels: Seq<Selection>) -> nat
    decreases sels,
{
    if sels.len() == 0 {
        0
    } else {
        leaf_count(sels[0]) + leaf_count_all(sels.drop_first())
    }
}

/// Whether no query operation of the document contains a fragment
/// spread.
pub open spec fn document_spread_free(doc: Document) -> bool {
    forall|i: int|
        0 <= i < doc.definitions@.len() ==> (match #[trigger] doc.definitions@[i] {
            Definition::Query(q) => spread_free_all(q.selection_set@),
            Definition::Fragment(_) => true,
        })
}

/// The number of leaf fields of the query operations of a document,
/// from definition `i` on.
pub open spec fn defs_leaf_count(defs: Seq<Definition>, i: int) -> nat
    decreases defs.len() - i,
{
    if i < 0 || i >= defs.len() {
        0
    } else {
        (match defs[i] {
            Definition::Query(q) => leaf_count_all(q.selection_set@),
            Definition::Fragment(_) => 0,
        }) + defs_leaf_count(defs, i + 1)
    }
}

/// The number of leaf fields of the query operations of a document.
pub open spec fn document_leaf_count(doc: Document) -> nat {
    defs_leaf_count(doc.definitions@, 0)
}

proof fn lemma_flatten_count_sel(
    defs: Seq<Definition>,
    visited: Set<Seq<char>>,
    path: Seq<Seq<char>>,
    sel: Selection,
)
    requires
        spread_free(sel),
        flatten_selection(defs, visited, path, sel) is Ok,
    ensures
        flatten_selection(defs, visited, path, sel)->Ok_0.len() == leaf_count(sel),
    decreases sel,
{
    match sel {
        Selection::Field(f) => {
            if f.selection_set@.len() > 0 {
                lemma_flatten_count_sels(
                    defs,
                    visited,
                    path.push(field_segment(f)),
                    f.selection_set@,
                );
            }
        },
        Selection::FragmentSpread(_) => {},
        Selection::InlineFragment(inl) => {
            lemma_flatten_count_sels(
                defs,
                visited,
                path.push(inline_segment(inl)),
                inl.selection_set@,
            );
        },
    }
}

proof fn lemma_flatten_count_sels(
    defs: Seq<Definition>,
    visited: Set<Seq<char>>,
    path: Seq<Seq<char>>,
    sels: Seq<Selection>,
)
    requires
        spread_free_all(sels),
        flatten_selections(defs, visited, path, sels) is Ok,
    ensures
        flatten_selections(defs, visited, path, sels)->Ok_0.len() == leaf_count_all(sels),
    decreases sels,
{
    if sels.len() > 0 {
        lemma_flatten_count_sel(defs, visited, path, sels[0]);
        assert(spread_free_all(sels.drop_first())) by {
            assert(forall|i: int|
                0 <= i < sels.drop_first().len() ==> #[trigger] sels.drop_first()[i] == sels[i
                    + 1]);
        }
        lemma_flatten_count_sels(defs, visited, path, sels.drop_first());
    }
}

proof fn lemma_flatten_defs_count(defs: Seq<Definition>, i: int)
    requires
        forall|j: int|
            0 <= j < defs.len() ==> (match #[trigger] defs[j] {
                Definition::Query(q) => spread_free_all(q.selection_set@),
                Definition::Fragment(_) => true,
            }),
        flatten_definitions(defs, i) is Ok,
    ensures
        flatten_definitions(defs, i)->Ok_0.len() == defs_leaf_count(defs, i),
    decreases defs.len() - i,
{
    if 0 <= i < defs.len() {
        match defs[i] {
            Definition::Query(q) => {
                lemma_flatten_count_sels(
                    defs,
                    Set::empty(),
                    seq![query_header(q)],
                    q.selection_set@,
                );
            },
            Definition::Fragment(_) => {},
        }
        lemma_flatten_defs_count(defs, i + 1);
    }
}

/// Counting law: flattening a document whose query operations contain
/// no fragment spreads yields exactly one standalone query per leaf
/// field of the document.
pub proof fn lemma_flatten_document_count(doc: Document)
    requires
        document_spread_free(doc),
        flatten_document_spec(doc) is Ok,
    ensures
        flatten_document_spec(doc)->Ok_0.len() == document_leaf_count(doc),
{
    lemma_flatten_defs_count(doc.definitions@, 0);
}

/// Inlining law: a resolvable, non-cyclic fragment spread contributes
/// exactly what the fragment's selection set contributes when written
/// inline at the spread site, under the spread's rendered segment.
pub proof fn lemma_spread_inlines(
    defs: Seq<Definition>,
    visited: Set<Seq<char>>,
    path: Seq<Seq<char>>,
    sp: FragmentSpread,
    fd: FragmentDefinition,
)
    requires
        lookup_fragment_spec(defs, sp.fragment_name@) == Some(fd),
        !visited.contains(sp.fragment_name@),
    ensures
        flatten_selection(defs, visited, path, Selection::FragmentSpread(sp))
            == flatten_selections(
            defs,
            visited.insert(sp.fragment_name@),
            path.push(spread_segment(fd)),
            fd.selection_set@,
        ),
{
}

/// Failure law: a spread of a name that no fragment defines fails
/// flattening with exactly that name; the flattener performs no
/// network activity, so the failure precedes any execution.
pub proof fn lemma_unknown_fragment_fails(
    defs: Seq<Definition>,
    visited: Set<Seq<char>>,
    path: Seq<Seq<char>>,
    sp: FragmentSpread,
)
    requires
        lookup_fragment_spec(defs, sp.fragment_name@) is None,
    ensures
        flatten_selection(defs, visited, path, Selection::FragmentSpread(sp)) == Err::<
            Seq<Seq<char>>,
            FlatErr,
        >(FlatErr::FragmentNotFound(sp.fragment_name@)),
{
}


proof fn lemma_sel_queries_canonical(
    defs: Seq<Definition>,
    visited: Set<Seq<char>>,
    path: Seq<Seq<char>>,
    sel: Selection,
    k: int,
)
    requires
        flatten_selection(defs, visited, path, sel) is Ok,
        0 <= k < flatten_selection(defs, visited, path, sel)->Ok_0.len(),
    ensures
        canonical_form(flatten_selection(defs, visited, path, sel)->Ok_0[k]),
    decreases unvisited(defs, visited), sel_size(sel), 0int,
{
    match sel {
        Selection::Field(f) => {
            let p2 = path.push(field_segment(f));
            if f.selection_set@.len() == 0 {
                assert(gql_parses(raw_query(p2)));
            } else {
                lemma_sels_queries_canonical(defs, visited, p2, f.selection_set@, k);
            }
        },
        Selection::FragmentSpread(sp) => {
            let fd = lookup_fragment_spec(defs, sp.fragment_name@)->Some_0;
            lemma_lookup_in_names(defs, sp.fragment_name@);
            lemma_unvisited_decreases(defs, visited, sp.fragment_name@);
            lemma_sels_queries_canonical(
                defs,
                visited.insert(sp.fragment_name@),
                path.push(spread_segment(fd)),
                fd.selection_set@,
                k,
            );
        },
        Selection::InlineFragment(inl) => {
            lemma_sels_queries_canonical(
                defs,
                visited,
                path.push(inline_segment(inl)),
                inl.selection_set@,
                k,
            );
        },
    }
}

proof fn lemma_sels_queries_canonical(
    defs: Seq<Definition>,
    visited: Set<Seq<char>>,
    path: Seq<Seq<char>>,
    sels: Seq<Selection>,
    k: int,
)
    requires
        flatten_selections(defs, visited, path, sels) is Ok,
        0 <= k < flatten_selections(defs, visited, path, sels)->Ok_0.len(),
    ensures
        canonical_form(flatten_selections(defs, visited, path, sels)->Ok_0[k]),
    decreases unvisited(defs, visited), sels_size(sels), 1int,
{
    if sels.len() > 0 {
        let first = flatten_selection(defs, visited, path, sels[0])->Ok_0;
        lemma_sels_size_bound(sels, 0);
        if k < first.len() {
            lemma_sel_queries_canonical(defs, visited, path, sels[0], k);
        } else {
            lemma_sels_queries_canonical(defs, visited, path, sels.drop_first(), k - first.len());
        }
    }
}

proof fn lemma_defs_queries_canonical(defs: Seq<Definition>, i: int, k: int)
    requires
        flatten_definitions(defs, i) is Ok,
        0 <= k < flatten_definitions(defs, i)->Ok_0.len(),
    ensures
        canonical_form(flatten_definitions(defs, i)->Ok_0[k]),
    decreases defs.len() - i,
{
    if 0 <= i < defs.len() {
        let first = match defs[i] {
            Definition::Query(q) => flatten_selections(
                defs,
                Set::empty(),
                seq![query_header(q)],
                q.selection_set@,
            )->Ok_0,
            Definition::Fragment(_) => Seq::<Seq<char>>::empty(),
        };
        if k < first.len() {
            match defs[i] {
                Definition::Query(q) => {
                    lemma_sels_queries_canonical(
                        defs,
                        Set::empty(),
                        seq![query_header(q)],
                        q.selection_set@,
                        k,
                    );
                },
                Definition::Fragment(_) => {},
            }
        } else {
            lemma_defs_queries_canonical(defs, i + 1, k - first.len());
        }
    }
}

/// Validity law: every standalone query of a flattened document is the
/// grammar's canonical re-printing of a rebuilt path text that the
/// grammar accepted.
pub proof fn lemma_flatten_queries_canonical(doc: Document, k: int)
    requires
        flatten_document_spec(doc) is Ok,
        0 <= k < flatten_document_spec(doc)->Ok_0.len(),
    ensures
        canonical_form(flatten_document_spec(doc)->Ok_0[k]),
{
    lemma_defs_queries_canonical(doc.definitions@, 0, k);
}

} // verus!


