//! Rendering of path segments.
//!
//! A path is a sequence of rendered segment strings from the operation
//! root down to the current selection. These functions render one
//! segment per selection kind, and the joins that combine argument,
//! directive, and variable-definition lists.

use crate::ast::{Argument, Field, FragmentDefinition, InlineFragment, Query};
use vstd::prelude::*;
use vstd::string::StringExecFns;

verus! {

/// The views of a sequence of strings.
pub open spec fn strs(parts: Seq<String>) -> Seq<Seq<char>> {
    Seq::new(parts.len(), |i: int| parts[i]@)
}

/// `parts` joined by `sep`, with no leading or trailing separator.
pub open spec fn join_with(parts: Seq<Seq<char>>, sep: Seq<char>) -> Seq<char>
    decreases parts.len(),
{
    if parts.len() == 0 {
        Seq::empty()
    } else if parts.len() == 1 {
        parts[0]
    } else {
        join_with(parts.drop_last(), sep) + sep + parts.last()
    }
}

proof fn lemma_join_step(parts: Seq<Seq<char>>, sep: Seq<char>, i: int)
    requires
        1 <= i <= parts.len(),
    ensures
        i == 1 ==> join_with(parts.take(i), sep) == parts[0],
        i > 1 ==> join_with(parts.take(i), sep) == join_with(parts.take(i - 1), sep) + sep
            + parts[i - 1],
{
    assert(parts.take(i).len() == i);
    if i == 1 {
        assert(parts.take(1)[0] == parts[0]);
    } else {
        assert(parts.take(i).drop_last() =~= parts.take(i - 1));
        assert(parts.take(i).last() == parts[i - 1]);
    }
}

/// Joins the strings of `parts` with the separator `sep`.
pub fn join_strings(parts: &Vec<String>, sep: &str) -> (r: String)
    ensures
        r@ == join_with(strs(parts@), sep@),
{
    let mut out = String::new();
    let mut i: usize = 0;
    while i < parts.len()
        invariant
            i <= parts@.len(),
            out@ == join_with(strs(parts@).take(i as int), sep@),
        decreases parts@.len() - i,
    {
        if i > 0 {
            out.append(sep);
        }
        out.append(parts[i].as_str());
        i = i + 1;
        proof {
            lemma_join_step(strs(parts@), sep@, i as int);
            if i == 1 {
                assert(Seq::<char>::empty() + strs(parts@)[0] =~= strs(parts@)[0]);
            }
        }
    }
    proof {
        assert(strs(parts@).take(parts@.len() as int) =~= strs(parts@));
    }
    out
}

/// The rendering `name: value` of one argument.
pub open spec fn argument_str(a: Argument) -> Seq<char> {
    a.name@ + ": "@ + a.value@
}

/// The renderings of a list of arguments, in declaration order.
pub open spec fn argument_strs(args: Seq<Argument>) -> Seq<Seq<char>> {
    Seq::new(args.len(), |i: int| argument_str(args[i]))
}

/// The rendered argument list of a field: empty when there are no
/// arguments, else the comma-joined `name: value` pairs in parentheses.
pub open spec fn arguments_str(args: Seq<Argument>) -> Seq<char> {
    if args.len() == 0 {
        Seq::empty()
    } else {
        "("@ + join_with(argument_strs(args), ", "@) + ")"@
    }
}

/// Renders the argument list of a field.
pub fn arguments_to_str(args: &Vec<Argument>) -> (r: String)
    ensures
        r@ == arguments_str(args@),
{
    if args.len() == 0 {
        String::new()
    } else {
        let mut out = String::from_str("(");
        let mut i: usize = 0;
        while i < args.len()
            invariant
                i <= args@.len(),
                out@ == "("@ + join_with(argument_strs(args@).take(i as int), ", "@),
            decreases args@.len() - i,
        {
            if i > 0 {
                out.append(", ");
            }
            out.append(args[i].name.as_str());
            out.append(": ");
            out.append(args[i].value.as_str());
            i = i + 1;
            proof {
                lemma_join_step(argument_strs(args@), ", "@, i as int);
            }
        }
        out.append(")");
        proof {
            assert(argument_strs(args@).take(args@.len() as int) =~= argument_strs(args@));
        }
        out
    }
}

/// The rendered directive list: the directive strings joined by spaces,
/// in declaration order.
pub open spec fn directives_str(dirs: Seq<String>) -> Seq<char> {
    join_with(strs(dirs), " "@)
}

/// Renders the directive list of a selection or an operation.
pub fn directives_to_str(dirs: &Vec<String>) -> (r: String)
    ensures
        r@ == directives_str(dirs@),
{
    join_strings(dirs, " ")
}

/// The rendered variable-definition list: the definitions joined by
/// `, `, in declaration order.
pub open spec fn variable_definitions_str(defs: Seq<String>) -> Seq<char> {
    join_with(strs(defs), ", "@)
}

/// Renders the variable-definition list of an operation.
pub fn variable_definitions_to_str(defs: &Vec<String>) -> (r: String)
    ensures
        r@ == variable_definitions_str(defs@),
{
    join_strings(defs, ", ")
}

/// The path segment of a field:
/// `[alias: ]name[(arg: value, …)] [@directive …]`.
pub open spec fn field_segment(f: Field) -> Seq<char> {
    (match f.alias {
        Some(a) => a@ + ": "@,
        None => Seq::<char>::empty(),
    }) + f.name@ + arguments_str(f.arguments@) + " "@ + directives_str(f.directives@)
}

/// Renders the path segment of a field.
pub fn field_segment_to_str(f: &Field) -> (r: String)
    ensures
        r@ == field_segment(*f),
{
    let mut out = String::new();
    match &f.alias {
        Some(a) => {
            out.append(a.as_str());
            out.append(": ");
        },
        None => {},
    }
    out.append(f.name.as_str());
    let args = arguments_to_str(&f.arguments);
    out.append(args.as_str());
    out.append(" ");
    let dirs = directives_to_str(&f.directives);
    out.append(dirs.as_str());
    proof {
        if f.alias is None {
            assert(Seq::<char>::empty() + f.name@ =~= f.name@);
        }
    }
    out
}

/// The path segment of a fragment spread, rendered from the definition
/// it resolves to: `... on <type> [@directive …]`. The directives are
/// those of the fragment definition.
pub open spec fn spread_segment(fd: FragmentDefinition) -> Seq<char> {
    "... on "@ + fd.type_condition@ + " "@ + directives_str(fd.directives@)
}

/// Renders the path segment of a fragment spread.
pub fn spread_segment_to_str(fd: &FragmentDefinition) -> (r: String)
    ensures
        r@ == spread_segment(*fd),
{
    let mut out = String::from_str("... on ");
    out.append(fd.type_condition.as_str());
    out.append(" ");
    let dirs = directives_to_str(&fd.directives);
    out.append(dirs.as_str());
    out
}

/// The path segment of an inline fragment:
/// `... [on <type>] [@directive …]`.
pub open spec fn inline_segment(inl: InlineFragment) -> Seq<char> {
    "..."@ + (match inl.type_condition {
        Some(c) => " on "@ + c@,
        None => Seq::<char>::empty(),
    }) + " "@ + directives_str(inl.directives@)
}

/// Renders the path segment of an inline fragment.
pub fn inline_segment_to_str(inl: &InlineFragment) -> (r: String)
    ensures
        r@ == inline_segment(*inl),
{
    let mut out = String::from_str("...");
    match &inl.type_condition {
        Some(c) => {
            out.append(" on ");
            out.append(c.as_str());
        },
        None => {},
    }
    out.append(" ");
    let dirs = directives_to_str(&inl.directives);
    out.append(dirs.as_str());
    proof {
        if inl.type_condition is None {
            assert("..."@ + Seq::<char>::empty() =~= "..."@);
        }
    }
    out
}

/// The root path segment of a query operation: `query `, the operation
/// name if present, the parenthesized variable-definition list when it
/// is non-empty, a space, and the space-joined directives.
pub open spec fn query_header(q: Query) -> Seq<char> {
    "query "@ + (match q.name {
        Some(n) => n@,
        None => Seq::<char>::empty(),
    }) + (if q.variable_definitions@.len() == 0 {
        Seq::<char>::empty()
    } else {
        "("@ + variable_definitions_str(q.variable_definitions@) + ")"@
    }) + " "@ + directives_str(q.directives@)
}

/// Renders the root path segment of a query operation.
pub fn query_header_to_str(q: &Query) -> (r: String)
    ensures
        r@ == query_header(*q),
{
    let mut out = String::from_str("query ");
    match &q.name {
        Some(n) => out.append(n.as_str()),
        None => {},
    }
    if q.variable_definitions.len() > 0 {
        out.append("(");
        let defs = variable_definitions_to_str(&q.variable_definitions);
        out.append(defs.as_str());
        out.append(")");
    }
    out.append(" ");
    let dirs = directives_to_str(&q.directives);
    out.append(dirs.as_str());
    proof {
        let name_part: Seq<char> = match &q.name {
            Some(n) => n@,
            None => Seq::<char>::empty(),
        };
        if q.name is None {
            assert("query "@ + name_part =~= "query "@);
        }
        if q.variable_definitions@.len() == 0 {
            assert(("query "@ + name_part) + Seq::<char>::empty() =~= "query "@ + name_part);
        }
    }
    out
}

/// The number of closing braces after the joined path: one per segment
/// after the first, joined by single spaces.
pub open spec fn closers(k: nat) -> Seq<char>
    decreases k,
{
    if k == 0 {
        Seq::<char>::empty()
    } else if k == 1 {
        "}"@
    } else {
        closers((k - 1) as nat) + " }"@
    }
}

/// The standalone query text rebuilt from a path: the segments joined
/// by `" { "`, then one closing brace per segment after the first.
pub open spec fn raw_query(path: Seq<Seq<char>>) -> Seq<char> {
    if path.len() == 0 {
        Seq::<char>::empty()
    } else {
        join_with(path, " { "@) + closers((path.len() - 1) as nat)
    }
}

/// Rebuilds the standalone query text of a path.
pub fn raw_query_to_str(path: &Vec<String>) -> (r: String)
    requires
        path@.len() >= 1,
    ensures
        r@ == raw_query(strs(path@)),
{
    let mut out = join_strings(path, " { ");
    let mut k: usize = 0;
    proof {
        assert(out@ + Seq::<char>::empty() =~= out@);
    }
    while k < path.len() - 1
        invariant
            path@.len() >= 1,
            k <= path@.len() - 1,
            out@ == join_with(strs(path@), " { "@) + closers(k as nat),
        decreases path@.len() - 1 - k,
    {
        if k == 0 {
            out.append("}");
        } else {
            out.append(" }");
        }
        k = k + 1;
    }
    out
}

} // verus!
