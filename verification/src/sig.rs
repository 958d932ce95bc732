//! The signature formatter: normalized type names, dotted capability
//! paths with collapsed generic arguments, and printed function
//! signatures.  Pure text construction, shared by the model builder
//! and the renderer.
use vstd::prelude::*;

use crate::decl::PathNode;
use crate::decl::PathSegmentNode;
use crate::decl::TypeNode;
use crate::model::seq_view;
use crate::model::FunctionInfo;
use crate::model::FunctionV;
use crate::model::ParameterV;

verus! {

/// The first `n` parts joined with the separator.
pub open spec fn joined_prefix(parts: Seq<Seq<char>>, sep: Seq<char>, n: int) -> Seq<char>
    decreases n,
{
    if n <= 0 {
        Seq::empty()
    } else if n == 1 {
        parts[0]
    } else {
        joined_prefix(parts, sep, n - 1) + sep + parts[n - 1]
    }
}

/// All parts joined with the separator; empty input gives the empty
/// sequence.
pub open spec fn joined(parts: Seq<Seq<char>>, sep: Seq<char>) -> Seq<char> {
    joined_prefix(parts, sep, parts.len() as int)
}

/// Joins strings with a separator.
pub fn join_strings(parts: &Vec<String>, sep: &str) -> (r: String)
    ensures
        r@ == joined(seq_view(parts@), sep@),
{
    let mut out = String::new();
    let mut i: usize = 0;
    while i < parts.len()
        invariant
            i <= parts@.len(),
            out@ == joined_prefix(seq_view(parts@), sep@, i as int),
        decreases parts@.len() - i,
    {
        if i > 0 {
            out.append(sep);
        }
        out.append(parts[i].as_str());
        i = i + 1;
    }
    out
}

/// The normalized textual form of a declared type: references are
/// unwrapped to their pointee, tuples are a parenthesized
/// comma-joined list, slices a bracketed element, and every other
/// shape its literal form.
pub open spec fn type_name_spec(t: TypeNode) -> Seq<char>
    decreases t, 0int,
{
    match t {
        TypeNode::Path(s) => s@,
        TypeNode::Reference(inner) => type_name_spec(*inner),
        TypeNode::Tuple(elems) => "("@ + tuple_names_prefix(elems@, elems@.len() as int) + ")"@,
        TypeNode::Slice(inner) => "["@ + type_name_spec(*inner) + "]"@,
        TypeNode::Other(s) => s@,
    }
}

/// The names of the first `n` tuple elements, comma-joined.
pub open spec fn tuple_names_prefix(ts: Seq<TypeNode>, n: int) -> Seq<char>
    decreases ts, n,
{
    if n <= 0 {
        Seq::empty()
    } else if n > ts.len() {
        tuple_names_prefix(ts, ts.len() as int)
    } else if n == 1 {
        type_name_spec(ts[0])
    } else {
        tuple_names_prefix(ts, n - 1) + ", "@ + type_name_spec(ts[n - 1])
    }
}

/// Builds the normalized name of a declared type.
pub fn get_type_name(t: &TypeNode) -> (r: String)
    ensures
        r@ == type_name_spec(*t),
    decreases *t, 1int,
{
    match t {
        TypeNode::Path(s) => s.clone(),
        TypeNode::Reference(inner) => get_type_name(inner),
        TypeNode::Tuple(elems) => {
            let mut out = String::new();
            out.append("(");
            let mut i: usize = 0;
            while i < elems.len()
                invariant
                    i <= elems@.len(),
                    (*t) is Tuple,
                    (*t)->Tuple_0 == *elems,
                    out@ == "("@ + tuple_names_prefix(elems@, i as int),
                decreases elems@.len() - i,
            {
                if i > 0 {
                    out.append(", ");
                }
                proof {
                    assert((*t)->Tuple_0 == *elems);
                    assert(decreases_to!(*t => (*t)->Tuple_0));
                    assert(decreases_to!(*elems => elems@));
                    assert(decreases_to!(elems@ => elems@[i as int]));
                    assert(decreases_to!(*t => elems@[i as int]));
                }
                let part = get_type_name(&elems[i]);
                out.append(part.as_str());
                i = i + 1;
            }
            out.append(")");
            out
        },
        TypeNode::Slice(inner) => {
            let mut out = String::new();
            out.append("[");
            let part = get_type_name(inner);
            out.append(part.as_str());
            out.append("]");
            out
        },
        TypeNode::Other(s) => s.clone(),
    }
}

/// One path segment's printed form: its name, with any generic
/// argument list collapsed to a literal `<...>` marker.
pub open spec fn seg_name_spec(s: PathSegmentNode) -> Seq<char> {
    if s.has_args {
        s.name@ + "<...>"@
    } else {
        s.name@
    }
}

/// A path's printed form: segment names joined with `::`.
pub open spec fn path_name_spec(p: PathNode) -> Seq<char> {
    joined(p.segments@.map_values(|s: PathSegmentNode| seg_name_spec(s)), "::"@)
}

/// Formats a dotted capability/trait path.
pub fn format_path(p: &PathNode) -> (r: String)
    ensures
        r@ == path_name_spec(*p),
{
    let ghost parts = p.segments@.map_values(|s: PathSegmentNode| seg_name_spec(s));
    let mut out = String::new();
    let mut i: usize = 0;
    while i < p.segments.len()
        invariant
            i <= p.segments@.len(),
            parts == p.segments@.map_values(|s: PathSegmentNode| seg_name_spec(s)),
            out@ == joined_prefix(parts, "::"@, i as int),
        decreases p.segments@.len() - i,
    {
        if i > 0 {
            out.append("::");
        }
        out.append(p.segments[i].name.as_str());
        if p.segments[i].has_args {
            out.append("<...>");
        }
        i = i + 1;
    }
    out
}

/// One rendered parameter: `name: type`.
pub open spec fn param_entry(p: ParameterV) -> Seq<char> {
    p.name + ": "@ + p.param_type
}

/// A rendered signature: `name(p1: t1, p2: t2, ...) -> returnType`,
/// the return arrow always present.
pub open spec fn sig_of(f: FunctionV) -> Seq<char> {
    f.name + "("@ + joined(f.parameters.map_values(|p: ParameterV| param_entry(p)), ", "@) + ")"@
        + " -> "@ + f.return_type
}

/// Formats a function signature with its parameters and return type.
pub fn format_function_signature(function: &FunctionInfo) -> (r: String)
    ensures
        r@ == sig_of(function@),
{
    let ghost parts = function@.parameters.map_values(|p: ParameterV| param_entry(p));
    let mut out = String::new();
    out.append(function.name.as_str());
    out.append("(");
    let mut i: usize = 0;
    while i < function.parameters.len()
        invariant
            i <= function.parameters@.len(),
            parts == function@.parameters.map_values(|p: ParameterV| param_entry(p)),
            parts.len() == function.parameters@.len(),
            out@ == function.name@ + "("@ + joined_prefix(parts, ", "@, i as int),
        decreases function.parameters@.len() - i,
    {
        if i > 0 {
            out.append(", ");
        }
        out.append(function.parameters[i].name.as_str());
        out.append(": ");
        out.append(function.parameters[i].param_type.as_str());
        proof {
            assert(parts[i as int] == param_entry(function.parameters@[i as int]@));
        }
        i = i + 1;
    }
    out.append(")");
    out.append(" -> ");
    out.append(function.return_type.as_str());
    out
}

} // verus!
