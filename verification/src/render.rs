//! The diagram renderer: turns the finished model into diagram text
//! with nested packages, visibility filtering, inferred relations and
//! module composition arrows.  The whole output is pinned to the spec
//! functions in this module, so rendering is a pure function of the
//! model and the options.
use vstd::prelude::*;

use crate::model::seq_view;
use crate::model::FunctionInfo;
use crate::model::FunctionV;
use crate::model::MemberV;
use crate::model::ModuleV;
use crate::model::StructV;
use crate::model::TraitV;
use crate::sig::format_function_signature;
use crate::sig::sig_of;
use crate::smap::entries_view;
use crate::smap::lemma_lookup_present;
use crate::smap::lemma_lower_bound_absent;
use crate::smap::lookup;
use crate::smap::lower_bound;
use crate::text::contains_seq;
use crate::text::dot_to_underscore;
use crate::text::ends_with;
use crate::text::indent;
use crate::text::indent_seq;
use crate::text::package_ident;
use crate::text::path_ident;
use crate::text::str_contains;
use crate::text::str_ends_with;
use crate::text::str_eq;

verus! {

/// Rendering options.
pub struct PrintOptions {
    /// Emit the relation pass's arrows.
    pub relations: bool,
    /// Color token for packages and module-function classes.
    pub module_color: String,
    /// Color token for interfaces.
    pub trait_color: String,
    /// Render private functions too.
    pub functions_private: bool,
}

/// Mathematical image of `PrintOptions`.
pub struct OptV {
    pub relations: bool,
    pub module_color: Seq<char>,
    pub trait_color: Seq<char>,
    pub functions_private: bool,
}

impl View for PrintOptions {
    type V = OptV;

    open spec fn view(&self) -> OptV {
        OptV {
            relations: self.relations,
            module_color: self.module_color@,
            trait_color: self.trait_color@,
            functions_private: self.functions_private,
        }
    }
}

/// A module is a rendering entry point when its qualified name carries
/// the library-root or program-entry marker suffix.
pub open spec fn is_root(key: Seq<char>) -> bool {
    ends_with(key, "__lib"@) || ends_with(key, "__main"@)
}

/// Builds the qualified module name a crate's entry file is analyzed
/// under: the crate name's stem with the program-entry marker for a
/// binary entry file, the library-root marker otherwise.  The result
/// is always a root module name.
pub fn root_module_name(crate_name: &str, binary_entry: bool) -> (r: String)
    ensures
        binary_entry ==> r@ == crate::text::dash_to_underscore(crate_name@) + "__main"@,
        !binary_entry ==> r@ == crate::text::dash_to_underscore(crate_name@) + "__lib"@,
        is_root(r@),
{
    let mut out = crate::text::crate_ident(crate_name);
    let ghost stem = crate::text::dash_to_underscore(crate_name@);
    if binary_entry {
        out.append("__main");
        proof {
            assert((stem + "__main"@).skip(stem.len() as int) =~= "__main"@);
            assert(ends_with(out@, "__main"@));
        }
    } else {
        out.append("__lib");
        proof {
            assert((stem + "__lib"@).skip(stem.len() as int) =~= "__lib"@);
            assert(ends_with(out@, "__lib"@));
        }
    }
    out
}

/// The set of module names a visited-list stands for.
pub open spec fn vset(s: Seq<String>) -> Set<Seq<char>> {
    s.map_values(|x: String| x@).to_set()
}

/// The set of module names the model holds entries for.
pub open spec fn key_set(m: Seq<(Seq<char>, ModuleV)>) -> Set<Seq<char>> {
    m.map_values(|e: (Seq<char>, ModuleV)| e.0).to_set()
}

/// A name is in the key set exactly when lookup finds it.
pub proof fn lemma_key_set_lookup(m: Seq<(Seq<char>, ModuleV)>, k: Seq<char>)
    ensures
        key_set(m).contains(k) <==> (lookup(m, k) is Some),
    decreases m.len(),
{
    let mapped = m.map_values(|e: (Seq<char>, ModuleV)| e.0);
    assert(key_set(m).contains(k) <==> mapped.contains(k));
    if m.len() == 0 {
        assert(!mapped.contains(k)) by {
            if mapped.contains(k) {
                let i = choose|i: int| 0 <= i < mapped.len() && mapped[i] == k;
            }
        }
    } else {
        lemma_key_set_lookup(m.drop_first(), k);
        let mapped_t = m.drop_first().map_values(|e: (Seq<char>, ModuleV)| e.0);
        assert(mapped_t =~= mapped.drop_first());
        if m[0].0 == k {
            assert(mapped[0] == k);
            assert(mapped.contains(k));
        } else {
            assert(mapped.contains(k) <==> mapped_t.contains(k)) by {
                if mapped.contains(k) {
                    let i = choose|i: int| 0 <= i < mapped.len() && mapped[i] == k;
                    assert(i != 0);
                    assert(mapped_t[i - 1] == k);
                    assert(mapped_t.contains(k));
                }
                if mapped_t.contains(k) {
                    let i = choose|i: int| 0 <= i < mapped_t.len() && mapped_t[i] == k;
                    assert(mapped[i + 1] == k);
                    assert(mapped.contains(k));
                }
            }
        }
    }
}

/// The rendered line for one function: its description as a preceding
/// comment when present, then a `+`/`-` visibility prefix and the
/// formatted signature.
pub open spec fn fn_entry_spec(ind: Seq<char>, f: FunctionV) -> Seq<char> {
    (if f.description.len() == 0 {
        Seq::empty()
    } else {
        ind + "    // "@ + f.description + "\n"@
    }) + ind + "    "@ + (if f.public {
        "+"@
    } else {
        "-"@
    }) + " "@ + sig_of(f) + "\n"@
}

/// The first `n` functions rendered under the visibility policy: a
/// function appears exactly when it is public or private functions
/// were asked for.
pub open spec fn fns_prefix_spec(
    ind: Seq<char>,
    fs: Seq<FunctionV>,
    private_ok: bool,
    n: int,
) -> Seq<char>
    decreases n,
{
    if n <= 0 {
        Seq::empty()
    } else {
        fns_prefix_spec(ind, fs, private_ok, n - 1) + (if fs[n - 1].public || private_ok {
            fn_entry_spec(ind, fs[n - 1])
        } else {
            Seq::empty()
        })
    }
}

/// A whole function list rendered under the visibility policy.
pub open spec fn fns_spec(ind: Seq<char>, fs: Seq<FunctionV>, private_ok: bool) -> Seq<char> {
    fns_prefix_spec(ind, fs, private_ok, fs.len() as int)
}

/// The first `n` names as subsection lines.
pub open spec fn name_lines_prefix(ind: Seq<char>, xs: Seq<Seq<char>>, n: int) -> Seq<char>
    decreases n,
{
    if n <= 0 {
        Seq::empty()
    } else {
        name_lines_prefix(ind, xs, n - 1) + ind + "    "@ + xs[n - 1] + "\n"@
    }
}

/// The first `n` members as `name: type` lines.
pub open spec fn member_lines_prefix(ind: Seq<char>, ms: Seq<MemberV>, n: int) -> Seq<char>
    decreases n,
{
    if n <= 0 {
        Seq::empty()
    } else {
        member_lines_prefix(ind, ms, n - 1) + ind + "    "@ + ms[n - 1].name + ": "@ + ms[n
            - 1].member_type + "\n"@
    }
}

/// One struct's class block: stereotype header, description, derive,
/// implements and member subsections when non-empty, and the filtered
/// function subsection.
pub open spec fn struct_block_spec(
    ind: Seq<char>,
    pkg: Seq<char>,
    name: Seq<char>,
    s: StructV,
    opt: OptV,
) -> Seq<char> {
    ind + "  class "@ + pkg + "::"@ + name + " as \""@ + name + "\" <<struct>> {\n"@ + (if s.description.len()
        == 0 {
        Seq::empty()
    } else {
        ind + "    ' "@ + s.description + "\n"@
    }) + (if s.derives.len() == 0 {
        Seq::empty()
    } else {
        ind + "    .. Derives ..\n"@ + name_lines_prefix(ind, s.derives, s.derives.len() as int)
    }) + (if s.impl_traits.len() == 0 {
        Seq::empty()
    } else {
        ind + "    .. Implements ..\n"@ + name_lines_prefix(
            ind,
            s.impl_traits,
            s.impl_traits.len() as int,
        )
    }) + (if s.members.len() == 0 {
        Seq::empty()
    } else {
        ind + "    .. Members ..\n"@ + member_lines_prefix(ind, s.members, s.members.len() as int)
    }) + (if s.functions.len() == 0 {
        Seq::empty()
    } else {
        ind + "    .. Functions ..\n"@ + fns_spec(ind, s.functions, opt.functions_private)
    }) + ind + "  }\n"@
}

/// The first `n` struct entries as class blocks.
pub open spec fn structs_prefix_spec(
    ind: Seq<char>,
    pkg: Seq<char>,
    ss: Seq<(Seq<char>, StructV)>,
    opt: OptV,
    n: int,
) -> Seq<char>
    decreases n,
{
    if n <= 0 {
        Seq::empty()
    } else {
        structs_prefix_spec(ind, pkg, ss, opt, n - 1) + struct_block_spec(
            ind,
            pkg,
            ss[n - 1].0,
            ss[n - 1].1,
            opt,
        )
    }
}

/// One trait's interface block.
pub open spec fn trait_block_spec(ind: Seq<char>, pkg: Seq<char>, t: TraitV, opt: OptV) -> Seq<
    char,
> {
    ind + "  interface "@ + pkg + "::"@ + t.name + " as \""@ + t.name + "\" "@ + opt.trait_color
        + " {\n"@ + (if t.functions.len() == 0 {
        Seq::empty()
    } else {
        ind + "    .. Functions ..\n"@ + fns_spec(ind, t.functions, opt.functions_private)
    }) + ind + "  }\n"@
}

/// The first `n` traits as interface blocks.
pub open spec fn traits_prefix_spec(
    ind: Seq<char>,
    pkg: Seq<char>,
    ts: Seq<TraitV>,
    opt: OptV,
    n: int,
) -> Seq<char>
    decreases n,
{
    if n <= 0 {
        Seq::empty()
    } else {
        traits_prefix_spec(ind, pkg, ts, opt, n - 1) + trait_block_spec(ind, pkg, ts[n - 1], opt)
    }
}

/// Some function in the list is public.
pub open spec fn has_public(fs: Seq<FunctionV>) -> bool {
    exists|i: int| 0 <= i < fs.len() && (#[trigger] fs[i]).public
}

/// The synthetic class for a module's free functions: emitted only
/// when the module has a public function or private functions were
/// asked for.
pub open spec fn mod_fns_spec(ind: Seq<char>, pkg: Seq<char>, fs: Seq<FunctionV>, opt: OptV) -> Seq<
    char,
> {
    if fs.len() > 0 && (has_public(fs) || opt.functions_private) {
        ind + "  class "@ + pkg + "_mod <<mod>> "@ + opt.module_color + " {\n"@ + ind
            + "    .. Module functions ..\n"@ + fns_spec(ind, fs, opt.functions_private) + ind
            + "  }\n"@
    } else {
        Seq::empty()
    }
}

/// What one emitted module adds to the output: its package block with
/// nested submodule packages, and the visited set afterwards.  A
/// module with no entry, or one already visited, adds nothing: the
/// visited set breaks submodule cycles and keeps every package emitted
/// at most once.
pub open spec fn emit_module_spec(
    m: Seq<(Seq<char>, ModuleV)>,
    key: Seq<char>,
    level: nat,
    visited: Set<Seq<char>>,
    opt: OptV,
) -> (Seq<char>, Set<Seq<char>>)
    decreases key_set(m).difference(visited).len(), 1int, 0int,
    via emit_module_spec_dec
{
    if lookup(m, key) is Some && !visited.contains(key) {
        let info = lookup(m, key)->Some_0;
        let visited1 = visited.insert(key);
        let ind = indent_seq(level);
        let pkg = dot_to_underscore(key);
        let header = ind + "package "@ + pkg + " "@ + opt.module_color + " {\n"@;
        let desc = if info.description.len() == 0 {
            Seq::<char>::empty()
        } else {
            ind + "  ' "@ + info.description + "\n"@
        };
        let body = structs_prefix_spec(ind, pkg, info.structs, opt, info.structs.len() as int)
            + traits_prefix_spec(ind, pkg, info.traits, opt, info.traits.len() as int)
            + mod_fns_spec(ind, pkg, info.functions, opt);
        let children = emit_children_prefix(
            m,
            info.submodules,
            info.submodules.len() as int,
            (level + 1) as nat,
            visited1,
            opt,
        );
        (header + desc + body + children.0 + ind + "}\n"@, children.1)
    } else {
        (Seq::empty(), visited)
    }
}

/// The first `n` submodules of a module emitted in order, threading
/// the visited set left to right.
pub open spec fn emit_children_prefix(
    m: Seq<(Seq<char>, ModuleV)>,
    subs: Seq<Seq<char>>,
    n: int,
    level: nat,
    visited: Set<Seq<char>>,
    opt: OptV,
) -> (Seq<char>, Set<Seq<char>>)
    decreases key_set(m).difference(visited).len(), 2int, n,
    via emit_children_prefix_dec
{
    if n <= 0 {
        (Seq::empty(), visited)
    } else {
        let prev = emit_children_prefix(m, subs, n - 1, level, visited, opt);
        let seen = visited.union(prev.1);
        if lookup(m, subs[n - 1]) is Some && !seen.contains(subs[n - 1]) {
            let sub = emit_module_spec(m, subs[n - 1], level, seen, opt);
            (prev.0 + sub.0, seen.union(sub.1))
        } else {
            (prev.0, seen)
        }
    }
}

/// The visited set only ever grows along the threading.
proof fn lemma_diff_shrinks(ks: Set<Seq<char>>, a: Set<Seq<char>>, b: Set<Seq<char>>)
    requires
        ks.finite(),
        a.subset_of(b),
    ensures
        ks.difference(b).len() <= ks.difference(a).len(),
        ks.difference(b).subset_of(ks.difference(a)),
        ks.difference(a).finite(),
{
    vstd::set::axiom_set_difference_finite(ks, a);
    vstd::set_lib::lemma_len_subset(ks.difference(b), ks.difference(a));
}

#[via_fn]
proof fn emit_module_spec_dec(
    m: Seq<(Seq<char>, ModuleV)>,
    key: Seq<char>,
    level: nat,
    visited: Set<Seq<char>>,
    opt: OptV,
) {
    vstd::seq_lib::seq_to_set_is_finite(m.map_values(|e: (Seq<char>, ModuleV)| e.0));
    if lookup(m, key) is Some && !visited.contains(key) {
        lemma_key_set_lookup(m, key);
        key_set(m).lemma_set_insert_diff_decreases(visited, key);
    }
}

#[via_fn]
proof fn emit_children_prefix_dec(
    m: Seq<(Seq<char>, ModuleV)>,
    subs: Seq<Seq<char>>,
    n: int,
    level: nat,
    visited: Set<Seq<char>>,
    opt: OptV,
) {
    let ks = key_set(m);
    vstd::seq_lib::seq_to_set_is_finite(m.map_values(|e: (Seq<char>, ModuleV)| e.0));
    assert forall|b: Set<Seq<char>>| #![trigger ks.difference(b)]
        visited.subset_of(b) implies ks.difference(b).len() <= ks.difference(visited).len() by {
        lemma_diff_shrinks(ks, visited, b);
    }
}

/// The first `n` model entries emitted as root packages: only modules
/// whose name carries a root marker suffix are entry points, and each
/// module is emitted at most once across all roots.
pub open spec fn emit_roots_prefix(
    m: Seq<(Seq<char>, ModuleV)>,
    n: int,
    visited: Set<Seq<char>>,
    opt: OptV,
) -> (Seq<char>, Set<Seq<char>>)
    decreases key_set(m).difference(visited).len(), 2int, n,
    via emit_roots_prefix_dec
{
    if n <= 0 {
        (Seq::empty(), visited)
    } else {
        let prev = emit_roots_prefix(m, n - 1, visited, opt);
        let seen = visited.union(prev.1);
        if 0 <= n - 1 < m.len() && is_root(m[n - 1].0) && !seen.contains(m[n - 1].0) {
            let sub = emit_module_spec(m, m[n - 1].0, 0, seen, opt);
            (prev.0 + sub.0, seen.union(sub.1))
        } else {
            (prev.0, seen)
        }
    }
}

#[via_fn]
proof fn emit_roots_prefix_dec(
    m: Seq<(Seq<char>, ModuleV)>,
    n: int,
    visited: Set<Seq<char>>,
    opt: OptV,
) {
    let ks = key_set(m);
    vstd::seq_lib::seq_to_set_is_finite(m.map_values(|e: (Seq<char>, ModuleV)| e.0));
    assert forall|b: Set<Seq<char>>| #![trigger ks.difference(b)]
        visited.subset_of(b) implies ks.difference(b).len() <= ks.difference(visited).len() by {
        lemma_diff_shrinks(ks, visited, b);
    }
}

/// One relation arrow per sibling struct whose name occurs in the
/// member's rewritten type name: a textual containment test, not type
/// resolution, kept exactly as stated because changing the matching
/// rule changes output for existing consumers.
pub open spec fn rel_targets_prefix(
    pkg: Seq<char>,
    sname: Seq<char>,
    mt: Seq<char>,
    ss: Seq<(Seq<char>, StructV)>,
    n: int,
) -> Seq<char>
    decreases n,
{
    if n <= 0 {
        Seq::empty()
    } else {
        rel_targets_prefix(pkg, sname, mt, ss, n - 1) + (if contains_seq(mt, ss[n - 1].0) {
            pkg + "::"@ + sname + " --> "@ + pkg + "::"@ + ss[n - 1].0 + "\n"@
        } else {
            Seq::empty()
        })
    }
}

/// The arrows of one struct's first `n` members.
pub open spec fn rel_members_prefix(
    pkg: Seq<char>,
    sname: Seq<char>,
    ms: Seq<MemberV>,
    ss: Seq<(Seq<char>, StructV)>,
    n: int,
) -> Seq<char>
    decreases n,
{
    if n <= 0 {
        Seq::empty()
    } else {
        rel_members_prefix(pkg, sname, ms, ss, n - 1) + rel_targets_prefix(
            pkg,
            sname,
            crate::text::colons_to_underscore(ms[n - 1].member_type),
            ss,
            ss.len() as int,
        )
    }
}

/// The arrows of a module's first `n` structs.
pub open spec fn rel_structs_prefix(
    pkg: Seq<char>,
    ss: Seq<(Seq<char>, StructV)>,
    n: int,
) -> Seq<char>
    decreases n,
{
    if n <= 0 {
        Seq::empty()
    } else {
        rel_structs_prefix(pkg, ss, n - 1) + rel_members_prefix(
            pkg,
            ss[n - 1].0,
            ss[n - 1].1.members,
            ss,
            ss[n - 1].1.members.len() as int,
        )
    }
}

/// The relation pass over the first `n` modules of the model.
pub open spec fn rel_modules_prefix(m: Seq<(Seq<char>, ModuleV)>, n: int) -> Seq<char>
    decreases n,
{
    if n <= 0 {
        Seq::empty()
    } else {
        rel_modules_prefix(m, n - 1) + rel_structs_prefix(
            dot_to_underscore(m[n - 1].0),
            m[n - 1].1.structs,
            m[n - 1].1.structs.len() as int,
        )
    }
}

/// The composition arrows of one module's first `n` submodule links:
/// one arrow per link whose submodule has an entry.
pub open spec fn comp_subs_prefix(
    m: Seq<(Seq<char>, ModuleV)>,
    key: Seq<char>,
    subs: Seq<Seq<char>>,
    n: int,
) -> Seq<char>
    decreases n,
{
    if n <= 0 {
        Seq::empty()
    } else {
        comp_subs_prefix(m, key, subs, n - 1) + (if lookup(m, subs[n - 1]) is Some {
            dot_to_underscore(key) + " --> "@ + dot_to_underscore(subs[n - 1]) + "\n"@
        } else {
            Seq::empty()
        })
    }
}

/// The composition arrows of the first `n` modules: only emitted
/// modules contribute arrows.
pub open spec fn comp_modules_prefix(
    m: Seq<(Seq<char>, ModuleV)>,
    emitted: Set<Seq<char>>,
    n: int,
) -> Seq<char>
    decreases n,
{
    if n <= 0 {
        Seq::empty()
    } else {
        comp_modules_prefix(m, emitted, n - 1) + (if emitted.contains(m[n - 1].0) {
            comp_subs_prefix(m, m[n - 1].0, m[n - 1].1.submodules, m[n - 1].1.submodules.len() as int)
        } else {
            Seq::empty()
        })
    }
}

/// The whole diagram: open marker and layout directives, the root
/// package trees, the relation arrows when asked for, the composition
/// arrows, and the close marker.
pub open spec fn render_uml_spec(m: Seq<(Seq<char>, ModuleV)>, opt: OptV) -> Seq<char> {
    let roots = emit_roots_prefix(m, m.len() as int, Set::empty(), opt);
    "@startuml\n"@ + "left to right direction\nskinparam lineType ortho\n"@ + roots.0 + (
    if opt.relations {
        rel_modules_prefix(m, m.len() as int)
    } else {
        Seq::<char>::empty()
    }) + comp_modules_prefix(m, roots.1, m.len() as int) + "@enduml\n"@
}

/// Renders a function list into the output under the visibility
/// policy.
#[verifier::rlimit(100)]
pub fn print_functions(
    uml_content: &mut String,
    indent: &String,
    functions: &Vec<FunctionInfo>,
    opt: &PrintOptions,
)
    ensures
        final(uml_content)@ == old(uml_content)@ + fns_spec(
            indent@,
            seq_view(functions@),
            opt.functions_private,
        ),
{
    let mut i: usize = 0;
    proof {
        assert(old(uml_content)@ + fns_prefix_spec(
            indent@,
            seq_view(functions@),
            opt.functions_private,
            0,
        ) =~= old(uml_content)@);
    }
    while i < functions.len()
        invariant
            i <= functions@.len(),
            uml_content@ == old(uml_content)@ + fns_prefix_spec(
                indent@,
                seq_view(functions@),
                opt.functions_private,
                i as int,
            ),
        decreases functions@.len() - i,
    {
        let ghost pre = uml_content@;
        let ghost fv = seq_view(functions@)[i as int];
        let f = &functions[i];
        proof {
            assert(fv == f@);
        }
        if !opt.functions_private && !f.public {
            proof {
                assert(fns_prefix_spec(
                    indent@,
                    seq_view(functions@),
                    opt.functions_private,
                    i + 1,
                ) =~= fns_prefix_spec(indent@, seq_view(functions@), opt.functions_private, i as int));
            }
            i = i + 1;
            continue ;
        }
        if !f.description.as_str().is_empty() {
            uml_content.append(indent.as_str());
            uml_content.append("    // ");
            uml_content.append(f.description.as_str());
            uml_content.append("\n");
        }
        proof {
            assert(uml_content@ =~= pre + (if fv.description.len() == 0 {
                Seq::<char>::empty()
            } else {
                indent@ + "    // "@ + fv.description + "\n"@
            }));
        }
        let ghost mid = uml_content@;
        let fn_signature = format_function_signature(f);
        uml_content.append(indent.as_str());
        uml_content.append("    ");
        if f.public {
            uml_content.append("+");
        } else {
            uml_content.append("-");
        }
        uml_content.append(" ");
        uml_content.append(fn_signature.as_str());
        uml_content.append("\n");
        proof {
            assert(uml_content@ =~= mid + (indent@ + "    "@ + (if fv.public {
                "+"@
            } else {
                "-"@
            }) + " "@ + sig_of(fv) + "\n"@));
            assert(uml_content@ =~= pre + fn_entry_spec(indent@, fv));
            assert(uml_content@ =~= old(uml_content)@ + fns_prefix_spec(
                indent@,
                seq_view(functions@),
                opt.functions_private,
                i + 1,
            ));
        }
        i = i + 1;
    }
    proof {
        assert(uml_content@ == old(uml_content)@ + fns_spec(
            indent@,
            seq_view(functions@),
            opt.functions_private,
        ));
    }
}

/// Emits a subsection of plain name lines.
fn print_name_lines(out: &mut String, ind: &String, xs: &Vec<String>)
    ensures
        final(out)@ == old(out)@ + name_lines_prefix(ind@, seq_view(xs@), xs@.len() as int),
{
    let mut i: usize = 0;
    proof {
        assert(out@ =~= old(out)@ + name_lines_prefix(ind@, seq_view(xs@), 0));
    }
    while i < xs.len()
        invariant
            i <= xs@.len(),
            out@ == old(out)@ + name_lines_prefix(ind@, seq_view(xs@), i as int),
        decreases xs@.len() - i,
    {
        let ghost pre = out@;
        out.append(ind.as_str());
        out.append("    ");
        out.append(xs[i].as_str());
        out.append("\n");
        proof {
            assert(seq_view(xs@)[i as int] == xs@[i as int]@);
            assert(out@ =~= pre + (ind@ + "    "@ + seq_view(xs@)[i as int] + "\n"@));
            assert(out@ =~= old(out)@ + name_lines_prefix(ind@, seq_view(xs@), i + 1));
        }
        i = i + 1;
    }
}

/// Emits the `name: type` lines of a member subsection.
fn print_member_lines(out: &mut String, ind: &String, ms: &Vec<crate::model::MemberInfo>)
    ensures
        final(out)@ == old(out)@ + member_lines_prefix(ind@, seq_view(ms@), ms@.len() as int),
{
    let mut i: usize = 0;
    proof {
        assert(out@ =~= old(out)@ + member_lines_prefix(ind@, seq_view(ms@), 0));
    }
    while i < ms.len()
        invariant
            i <= ms@.len(),
            out@ == old(out)@ + member_lines_prefix(ind@, seq_view(ms@), i as int),
        decreases ms@.len() - i,
    {
        let ghost pre = out@;
        out.append(ind.as_str());
        out.append("    ");
        out.append(ms[i].name.as_str());
        out.append(": ");
        out.append(ms[i].member_type.as_str());
        out.append("\n");
        proof {
            assert(seq_view(ms@)[i as int] == ms@[i as int]@);
            assert(out@ =~= pre + (ind@ + "    "@ + seq_view(ms@)[i as int].name + ": "@
                + seq_view(ms@)[i as int].member_type + "\n"@));
            assert(out@ =~= old(out)@ + member_lines_prefix(ind@, seq_view(ms@), i + 1));
        }
        i = i + 1;
    }
}

/// Appends two pieces; the addition is grouped for the callers.
fn append2(out: &mut String, a: &str, b: &str)
    ensures
        final(out)@ == old(out)@ + (a@ + b@),
{
    out.append(a);
    out.append(b);
    proof {
        vstd::seq_lib::lemma_concat_associative(old(out)@, a@, b@);
    }
}

/// Appends four pieces; the addition is grouped for the callers.
fn append4(out: &mut String, a: &str, b: &str, c: &str, d: &str)
    ensures
        final(out)@ == old(out)@ + (a@ + b@ + c@ + d@),
{
    out.append(a);
    out.append(b);
    out.append(c);
    out.append(d);
    proof {
        vstd::seq_lib::lemma_concat_associative(old(out)@, a@, b@);
        vstd::seq_lib::lemma_concat_associative(old(out)@, a@ + b@, c@);
        vstd::seq_lib::lemma_concat_associative(old(out)@, a@ + b@ + c@, d@);
    }
}

/// Appends six pieces; the addition is grouped for the callers.
fn append6(out: &mut String, a: &str, b: &str, c: &str, d: &str, e: &str, f: &str)
    ensures
        final(out)@ == old(out)@ + (a@ + b@ + c@ + d@ + e@ + f@),
{
    out.append(a);
    out.append(b);
    out.append(c);
    out.append(d);
    out.append(e);
    out.append(f);
    proof {
        vstd::seq_lib::lemma_concat_associative(old(out)@, a@, b@);
        vstd::seq_lib::lemma_concat_associative(old(out)@, a@ + b@, c@);
        vstd::seq_lib::lemma_concat_associative(old(out)@, a@ + b@ + c@, d@);
        vstd::seq_lib::lemma_concat_associative(old(out)@, a@ + b@ + c@ + d@, e@);
        vstd::seq_lib::lemma_concat_associative(old(out)@, a@ + b@ + c@ + d@ + e@, f@);
    }
}

/// Appends eight pieces; the addition is grouped for the callers.
fn append8(
    out: &mut String,
    a: &str,
    b: &str,
    c: &str,
    d: &str,
    e: &str,
    f: &str,
    g: &str,
    h: &str,
)
    ensures
        final(out)@ == old(out)@ + (a@ + b@ + c@ + d@ + e@ + f@ + g@ + h@),
{
    out.append(a);
    out.append(b);
    out.append(c);
    out.append(d);
    out.append(e);
    out.append(f);
    out.append(g);
    out.append(h);
    proof {
        vstd::seq_lib::lemma_concat_associative(old(out)@, a@, b@);
        vstd::seq_lib::lemma_concat_associative(old(out)@, a@ + b@, c@);
        vstd::seq_lib::lemma_concat_associative(old(out)@, a@ + b@ + c@, d@);
        vstd::seq_lib::lemma_concat_associative(old(out)@, a@ + b@ + c@ + d@, e@);
        vstd::seq_lib::lemma_concat_associative(old(out)@, a@ + b@ + c@ + d@ + e@, f@);
        vstd::seq_lib::lemma_concat_associative(old(out)@, a@ + b@ + c@ + d@ + e@ + f@, g@);
        vstd::seq_lib::lemma_concat_associative(old(out)@, a@ + b@ + c@ + d@ + e@ + f@ + g@, h@);
    }
}

/// Appending nothing changes nothing.
proof fn lemma_add_empty(a: Seq<char>)
    ensures
        a + Seq::<char>::empty() == a,
{
    assert(a + Seq::<char>::empty() =~= a);
}

/// Emits one struct's class block.
fn print_struct_block(
    out: &mut String,
    ind: &String,
    pkg: &String,
    name: &String,
    s: &crate::model::StructInfo,
    opt: &PrintOptions,
)
    ensures
        final(out)@ == old(out)@ + struct_block_spec(ind@, pkg@, name@, s@, opt@),
{
    let ghost g0 = out@;
    append8(
        out,
        ind.as_str(),
        "  class ",
        pkg.as_str(),
        "::",
        name.as_str(),
        " as \"",
        name.as_str(),
        "\" <<struct>> {\n",
    );
    let ghost p1 = ind@ + "  class "@ + pkg@ + "::"@ + name@ + " as \""@ + name@
        + "\" <<struct>> {\n"@;
    proof {
        assert(out@ == g0 + p1);
    }
    if !s.description.as_str().is_empty() {
        append4(out, ind.as_str(), "    ' ", s.description.as_str(), "\n");
    }
    let ghost dsec = if s@.description.len() == 0 {
        Seq::<char>::empty()
    } else {
        ind@ + "    ' "@ + s@.description + "\n"@
    };
    let ghost p2 = p1 + dsec;
    proof {
        if s@.description.len() == 0 {
            lemma_add_empty(p1);
        } else {
            vstd::seq_lib::lemma_concat_associative(g0, p1, dsec);
        }
        assert(out@ == g0 + p2);
    }
    if !s.derives.is_empty() {
        append2(out, ind.as_str(), "    .. Derives ..\n");
        print_name_lines(out, ind, &s.derives);
    }
    let ghost dersec = if s@.derives.len() == 0 {
        Seq::<char>::empty()
    } else {
        ind@ + "    .. Derives ..\n"@ + name_lines_prefix(ind@, s@.derives, s@.derives.len() as int)
    };
    let ghost p3 = p2 + dersec;
    proof {
        assert(seq_view(s.derives@).len() == s.derives@.len());
        if s@.derives.len() == 0 {
            lemma_add_empty(p2);
        } else {
            let hd = ind@ + "    .. Derives ..\n"@;
            let nl = name_lines_prefix(ind@, s@.derives, s@.derives.len() as int);
            vstd::seq_lib::lemma_concat_associative(g0 + p2, hd, nl);
            vstd::seq_lib::lemma_concat_associative(g0, p2, hd + nl);
        }
        assert(out@ == g0 + p3);
    }
    if !s.impl_traits.is_empty() {
        append2(out, ind.as_str(), "    .. Implements ..\n");
        print_name_lines(out, ind, &s.impl_traits);
    }
    let ghost impsec = if s@.impl_traits.len() == 0 {
        Seq::<char>::empty()
    } else {
        ind@ + "    .. Implements ..\n"@ + name_lines_prefix(
            ind@,
            s@.impl_traits,
            s@.impl_traits.len() as int,
        )
    };
    let ghost p4 = p3 + impsec;
    proof {
        assert(seq_view(s.impl_traits@).len() == s.impl_traits@.len());
        if s@.impl_traits.len() == 0 {
            lemma_add_empty(p3);
        } else {
            let hd = ind@ + "    .. Implements ..\n"@;
            let nl = name_lines_prefix(ind@, s@.impl_traits, s@.impl_traits.len() as int);
            vstd::seq_lib::lemma_concat_associative(g0 + p3, hd, nl);
            vstd::seq_lib::lemma_concat_associative(g0, p3, hd + nl);
        }
        assert(out@ == g0 + p4);
    }
    if !s.members.is_empty() {
        append2(out, ind.as_str(), "    .. Members ..\n");
        print_member_lines(out, ind, &s.members);
    }
    let ghost memsec = if s@.members.len() == 0 {
        Seq::<char>::empty()
    } else {
        ind@ + "    .. Members ..\n"@ + member_lines_prefix(ind@, s@.members, s@.members.len() as int)
    };
    let ghost p5 = p4 + memsec;
    proof {
        assert(seq_view(s.members@).len() == s.members@.len());
        if s@.members.len() == 0 {
            lemma_add_empty(p4);
        } else {
            let hd = ind@ + "    .. Members ..\n"@;
            let nl = member_lines_prefix(ind@, s@.members, s@.members.len() as int);
            vstd::seq_lib::lemma_concat_associative(g0 + p4, hd, nl);
            vstd::seq_lib::lemma_concat_associative(g0, p4, hd + nl);
        }
        assert(out@ == g0 + p5);
    }
    if !s.functions.is_empty() {
        append2(out, ind.as_str(), "    .. Functions ..\n");
        print_functions(out, ind, &s.functions, opt);
    }
    let ghost funsec = if s@.functions.len() == 0 {
        Seq::<char>::empty()
    } else {
        ind@ + "    .. Functions ..\n"@ + fns_spec(ind@, s@.functions, opt.functions_private)
    };
    let ghost p6 = p5 + funsec;
    proof {
        assert(seq_view(s.functions@).len() == s.functions@.len());
        if s@.functions.len() == 0 {
            lemma_add_empty(p5);
        } else {
            let hd = ind@ + "    .. Functions ..\n"@;
            let nl = fns_spec(ind@, s@.functions, opt.functions_private);
            vstd::seq_lib::lemma_concat_associative(g0 + p5, hd, nl);
            vstd::seq_lib::lemma_concat_associative(g0, p5, hd + nl);
        }
        assert(out@ == g0 + p6);
    }
    out.append(ind.as_str());
    out.append("  }\n");
    proof {
        vstd::seq_lib::lemma_concat_associative(g0, p6, ind@);
        vstd::seq_lib::lemma_concat_associative(g0, p6 + ind@, "  }\n"@);
        assert(out@ == g0 + (p6 + ind@ + "  }\n"@));
        assert(p6 + ind@ + "  }\n"@ == struct_block_spec(ind@, pkg@, name@, s@, opt@));
    }
}

/// Emits one trait's interface block.
#[verifier::rlimit(50)]
fn print_trait_block(
    out: &mut String,
    ind: &String,
    pkg: &String,
    t: &crate::model::TraitInfo,
    opt: &PrintOptions,
)
    ensures
        final(out)@ == old(out)@ + trait_block_spec(ind@, pkg@, t@, opt@),
{
    out.append(ind.as_str());
    out.append("  interface ");
    out.append(pkg.as_str());
    out.append("::");
    out.append(t.name.as_str());
    out.append(" as \"");
    out.append(t.name.as_str());
    out.append("\" ");
    out.append(opt.trait_color.as_str());
    out.append(" {\n");
    let ghost after_header = out@;
    proof {
        assert(after_header =~= old(out)@ + (ind@ + "  interface "@ + pkg@ + "::"@ + t@.name
            + " as \""@ + t@.name + "\" "@ + opt@.trait_color + " {\n"@));
    }
    if !t.functions.is_empty() {
        out.append(ind.as_str());
        out.append("    .. Functions ..\n");
        print_functions(out, ind, &t.functions, opt);
    }
    let ghost after_fns = out@;
    proof {
        assert(seq_view(t.functions@).len() == t.functions@.len());
        assert(after_fns =~= after_header + (if t@.functions.len() == 0 {
            Seq::<char>::empty()
        } else {
            ind@ + "    .. Functions ..\n"@ + fns_spec(ind@, t@.functions, opt.functions_private)
        }));
    }
    out.append(ind.as_str());
    out.append("  }\n");
    proof {
        assert(out@ =~= old(out)@ + trait_block_spec(ind@, pkg@, t@, opt@));
    }
}

/// Emits the synthetic class carrying a module's free functions, when
/// the visibility policy admits any.
#[verifier::rlimit(50)]
fn print_mod_fns(
    out: &mut String,
    ind: &String,
    pkg: &String,
    functions: &Vec<FunctionInfo>,
    opt: &PrintOptions,
)
    ensures
        final(out)@ == old(out)@ + mod_fns_spec(ind@, pkg@, seq_view(functions@), opt@),
{
    proof {
        assert(seq_view(functions@).len() == functions@.len());
    }
    if !functions.is_empty() {
        let any_public = has_public_fn(functions);
        if any_public || opt.functions_private {
            out.append(ind.as_str());
            out.append("  class ");
            out.append(pkg.as_str());
            out.append("_mod <<mod>> ");
            out.append(opt.module_color.as_str());
            out.append(" {\n");
            out.append(ind.as_str());
            out.append("    .. Module functions ..\n");
            let ghost mid = out@;
            proof {
                assert(mid =~= old(out)@ + (ind@ + "  class "@ + pkg@ + "_mod <<mod>> "@
                    + opt@.module_color + " {\n"@ + ind@ + "    .. Module functions ..\n"@));
            }
            print_functions(out, ind, functions, opt);
            out.append(ind.as_str());
            out.append("  }\n");
            proof {
                assert(out@ =~= old(out)@ + mod_fns_spec(ind@, pkg@, seq_view(functions@), opt@));
            }
        }
    }
}

/// Whether any function in the list is public.
pub fn has_public_fn(functions: &Vec<FunctionInfo>) -> (r: bool)
    ensures
        r == has_public(seq_view(functions@)),
{
    let mut i: usize = 0;
    while i < functions.len()
        invariant
            i <= functions@.len(),
            forall|j: int| 0 <= j < i ==> !(#[trigger] seq_view(functions@)[j]).public,
        decreases functions@.len() - i,
    {
        if functions[i].public {
            proof {
                assert(seq_view(functions@)[i as int].public);
            }
            return true;
        }
        i = i + 1;
    }
    false
}

/// The threaded visited set never loses members.
proof fn lemma_children_visited_super(
    m: Seq<(Seq<char>, ModuleV)>,
    subs: Seq<Seq<char>>,
    n: int,
    level: nat,
    visited: Set<Seq<char>>,
    opt: OptV,
)
    ensures
        visited.subset_of(emit_children_prefix(m, subs, n, level, visited, opt).1),
{
    if n <= 0 {
    } else {
        let prev = emit_children_prefix(m, subs, n - 1, level, visited, opt);
        let seen = visited.union(prev.1);
        assert(visited.subset_of(seen));
    }
}

/// Emits one module as a nested package block, with the cycle guard:
/// the module is marked visited first, and only unvisited submodules
/// with entries are recursed into.
#[verifier::rlimit(100)]
pub fn add_module_to_uml(
    uml_content: &mut String,
    module_name: &String,
    info: &crate::model::ModuleInfo,
    visitor: &crate::model::ModulesVisitor,
    level: usize,
    opt: &PrintOptions,
    visited: &mut Vec<String>,
)
    requires
        visitor.wf(),
        lookup(visitor@, module_name@) == Some(info@),
        !vset(old(visited)@).contains(module_name@),
        level + key_set(visitor@).difference(vset(old(visited)@)).len() <= usize::MAX,
    ensures
        final(uml_content)@ == old(uml_content)@ + emit_module_spec(
            visitor@,
            module_name@,
            level as nat,
            vset(old(visited)@),
            opt@,
        ).0,
        vset(final(visited)@) == vset(old(visited)@).union(
            emit_module_spec(visitor@, module_name@, level as nat, vset(old(visited)@), opt@).1,
        ),
    decreases key_set(visitor@).difference(vset(old(visited)@)).len(),
{
    let ghost m = visitor@;
    let ghost v0 = vset(old(visited)@);
    let ghost v1 = v0.insert(module_name@);
    proof {
        lemma_key_set_lookup(m, module_name@);
        vstd::seq_lib::seq_to_set_is_finite(m.map_values(|e: (Seq<char>, ModuleV)| e.0));
        vstd::set::axiom_set_difference_finite(key_set(m), v0);
    }
    visited.push(module_name.clone());
    proof {
        let om = old(visited)@.map_values(|x: String| x@);
        assert(visited@.map_values(|x: String| x@) =~= om + seq![module_name@]);
        Seq::lemma_to_set_insert_commutes(om, module_name@);
        assert(vset(visited@) =~= v1);
    }
    let ghost g0 = uml_content@;
    let ind = indent(level);
    let pkg = package_ident(module_name.as_str());
    append6(
        uml_content,
        ind.as_str(),
        "package ",
        pkg.as_str(),
        " ",
        opt.module_color.as_str(),
        " {\n",
    );
    let ghost header = indent_seq(level as nat) + "package "@ + dot_to_underscore(module_name@)
        + " "@ + opt@.module_color + " {\n"@;
    proof {
        assert(uml_content@ == g0 + header);
    }
    if !info.description.as_str().is_empty() {
        append4(uml_content, ind.as_str(), "  ' ", info.description.as_str(), "\n");
    }
    let ghost desc = if info@.description.len() == 0 {
        Seq::<char>::empty()
    } else {
        indent_seq(level as nat) + "  ' "@ + info@.description + "\n"@
    };
    let ghost p2 = header + desc;
    proof {
        if info@.description.len() == 0 {
            lemma_add_empty(header);
        } else {
            vstd::seq_lib::lemma_concat_associative(g0, header, desc);
        }
        assert(uml_content@ == g0 + p2);
    }
    let ghost bs = uml_content@;
    let mut i: usize = 0;
    proof {
        lemma_add_empty(bs);
        assert(uml_content@ == bs + structs_prefix_spec(
            indent_seq(level as nat),
            dot_to_underscore(module_name@),
            info@.structs,
            opt@,
            0,
        ));
    }
    while i < info.structs.len()
        invariant
            i <= info.structs@.len(),
            uml_content@ == bs + structs_prefix_spec(
                indent_seq(level as nat),
                dot_to_underscore(module_name@),
                entries_view(info.structs@),
                opt@,
                i as int,
            ),
            ind@ == indent_seq(level as nat),
            pkg@ == dot_to_underscore(module_name@),
        decreases info.structs@.len() - i,
    {
        let ghost pre = uml_content@;
        print_struct_block(
            uml_content,
            &ind,
            &pkg,
            &info.structs[i].0,
            &info.structs[i].1,
            opt,
        );
        proof {
            assert(entries_view(info.structs@)[i as int] == (info.structs@[i as int].0@, info.structs@[i as int].1@));
            vstd::seq_lib::lemma_concat_associative(
                bs,
                structs_prefix_spec(
                    indent_seq(level as nat),
                    dot_to_underscore(module_name@),
                    entries_view(info.structs@),
                    opt@,
                    i as int,
                ),
                struct_block_spec(
                    indent_seq(level as nat),
                    dot_to_underscore(module_name@),
                    entries_view(info.structs@)[i as int].0,
                    entries_view(info.structs@)[i as int].1,
                    opt@,
                ),
            );
        }
        i = i + 1;
    }
    let ghost q1 = structs_prefix_spec(
        indent_seq(level as nat),
        dot_to_underscore(module_name@),
        info@.structs,
        opt@,
        info@.structs.len() as int,
    );
    proof {
        assert(entries_view(info.structs@).len() == info.structs@.len());
        assert(uml_content@ == bs + q1);
    }
    let mut j: usize = 0;
    let ghost bt = uml_content@;
    proof {
        lemma_add_empty(bt);
    }
    while j < info.traits.len()
        invariant
            j <= info.traits@.len(),
            uml_content@ == bt + traits_prefix_spec(
                indent_seq(level as nat),
                dot_to_underscore(module_name@),
                seq_view(info.traits@),
                opt@,
                j as int,
            ),
            ind@ == indent_seq(level as nat),
            pkg@ == dot_to_underscore(module_name@),
        decreases info.traits@.len() - j,
    {
        print_trait_block(uml_content, &ind, &pkg, &info.traits[j], opt);
        proof {
            assert(seq_view(info.traits@)[j as int] == info.traits@[j as int]@);
            vstd::seq_lib::lemma_concat_associative(
                bt,
                traits_prefix_spec(
                    indent_seq(level as nat),
                    dot_to_underscore(module_name@),
                    seq_view(info.traits@),
                    opt@,
                    j as int,
                ),
                trait_block_spec(
                    indent_seq(level as nat),
                    dot_to_underscore(module_name@),
                    seq_view(info.traits@)[j as int],
                    opt@,
                ),
            );
        }
        j = j + 1;
    }
    let ghost q2 = q1 + traits_prefix_spec(
        indent_seq(level as nat),
        dot_to_underscore(module_name@),
        info@.traits,
        opt@,
        info@.traits.len() as int,
    );
    proof {
        assert(seq_view(info.traits@).len() == info.traits@.len());
        vstd::seq_lib::lemma_concat_associative(
            bs,
            q1,
            traits_prefix_spec(
                indent_seq(level as nat),
                dot_to_underscore(module_name@),
                info@.traits,
                opt@,
                info@.traits.len() as int,
            ),
        );
        assert(uml_content@ == bs + q2);
    }
    print_mod_fns(uml_content, &ind, &pkg, &info.functions, opt);
    let ghost q3 = q2 + mod_fns_spec(
        indent_seq(level as nat),
        dot_to_underscore(module_name@),
        info@.functions,
        opt@,
    );
    proof {
        vstd::seq_lib::lemma_concat_associative(
            bs,
            q2,
            mod_fns_spec(
                indent_seq(level as nat),
                dot_to_underscore(module_name@),
                info@.functions,
                opt@,
            ),
        );
        assert(uml_content@ == bs + q3);
        vstd::seq_lib::lemma_concat_associative(g0, p2, q3);
        assert(uml_content@ == g0 + (p2 + q3));
    }
    let ghost p3 = p2 + q3;
    let ghost bc = uml_content@;
    let mut k: usize = 0;
    proof {
        lemma_add_empty(bc);
        assert(emit_children_prefix(
            m,
            info@.submodules,
            0,
            (level + 1) as nat,
            v1,
            opt@,
        ).1 == v1);
        assert(vset(visited@) =~= v1.union(v1));
        assert(level + 1 + key_set(m).difference(vset(visited@)).len() <= usize::MAX) by {
            assert(v0.subset_of(vset(visited@)));
            lemma_diff_shrinks(key_set(m), v0, vset(visited@));
            assert(key_set(m).difference(v0).contains(module_name@));
            assert(!key_set(m).difference(vset(visited@)).contains(module_name@));
            key_set(m).difference(vset(visited@)).lemma_subset_not_in_lt(
                key_set(m).difference(v0),
                module_name@,
            );
        }
    }
    while k < info.submodules.len()
        invariant
            k <= info.submodules@.len(),
            visitor.wf(),
            m == visitor@,
            v0 == vset(old(visited)@),
            v1 == v0.insert(module_name@),
            key_set(m).contains(module_name@),
            !v0.contains(module_name@),
            ind@ == indent_seq(level as nat),
            level + 1 + key_set(m).difference(vset(visited@)).len() <= usize::MAX,
            uml_content@ == bc + emit_children_prefix(
                m,
                seq_view(info.submodules@),
                k as int,
                (level + 1) as nat,
                v1,
                opt@,
            ).0,
            vset(visited@) == v1.union(
                emit_children_prefix(
                    m,
                    seq_view(info.submodules@),
                    k as int,
                    (level + 1) as nat,
                    v1,
                    opt@,
                ).1,
            ),
        decreases info.submodules@.len() - k,
    {
        let ghost ch = emit_children_prefix(
            m,
            seq_view(info.submodules@),
            k as int,
            (level + 1) as nat,
            v1,
            opt@,
        );
        let ghost seen = v1.union(ch.1);
        proof {
            assert(seq_view(info.submodules@)[k as int] == info.submodules@[k as int]@);
            lemma_children_visited_super(
                m,
                seq_view(info.submodules@),
                k as int,
                (level + 1) as nat,
                v1,
                opt@,
            );
        }
        let sub = &info.submodules[k];
        let pos = lower_bound(&visitor.module_map, sub.as_str());
        let present = pos < visitor.module_map.len() && str_eq(
            visitor.module_map[pos].0.as_str(),
            sub.as_str(),
        );
        if present && !visited_contains(visited, sub.as_str()) {
            proof {
                lemma_lookup_present(m, sub@, pos as int);
                assert(lookup(m, sub@) == Some(m[pos as int].1));
                assert(m[pos as int].0 == sub@);
                lemma_key_set_lookup(m, sub@);
                vstd::seq_lib::seq_to_set_is_finite(m.map_values(|e: (Seq<char>, ModuleV)| e.0));
                vstd::set::axiom_set_difference_finite(key_set(m), v0);
                assert(v1.subset_of(vset(visited@)));
                assert(v0.subset_of(vset(visited@)));
                assert(key_set(m).difference(vset(visited@)).subset_of(
                    key_set(m).difference(v0),
                ));
                assert(key_set(m).difference(v0).contains(module_name@));
                assert(!key_set(m).difference(vset(visited@)).contains(module_name@));
                key_set(m).difference(vset(visited@)).lemma_subset_not_in_lt(
                    key_set(m).difference(v0),
                    module_name@,
                );
            }
            let ghost vpre = vset(visited@);
            let ghost gpre = uml_content@;
            add_module_to_uml(
                uml_content,
                &visitor.module_map[pos].0,
                &visitor.module_map[pos].1,
                visitor,
                level + 1,
                opt,
                visited,
            );
            proof {
                let se = emit_module_spec(m, sub@, (level + 1) as nat, seen, opt@);
                assert(vpre == seen);
                assert(visitor.module_map@[pos as int].0@ == sub@);
                assert(visitor.module_map@[pos as int].1@ == m[pos as int].1);
                assert(uml_content@ == gpre + se.0);
                vstd::seq_lib::lemma_concat_associative(bc, ch.0, se.0);
                assert(emit_children_prefix(
                    m,
                    seq_view(info.submodules@),
                    k + 1,
                    (level + 1) as nat,
                    v1,
                    opt@,
                ) == (ch.0 + se.0, seen.union(se.1)));
                assert(uml_content@ == bc + emit_children_prefix(
                    m,
                    seq_view(info.submodules@),
                    k + 1,
                    (level + 1) as nat,
                    v1,
                    opt@,
                ).0);
                assert(vset(visited@) == vpre.union(se.1));
                assert(vset(visited@) =~= v1.union(seen.union(se.1)));
                lemma_diff_shrinks(key_set(m), vpre, vset(visited@));
            }
        } else {
            proof {
                if !present {
                    lemma_lower_bound_absent(m, sub@, pos as int);
                    assert(lookup(m, sub@) is None);
                } else {
                    assert(seen.contains(sub@));
                }
                assert(emit_children_prefix(
                    m,
                    seq_view(info.submodules@),
                    k + 1,
                    (level + 1) as nat,
                    v1,
                    opt@,
                ) == (ch.0, seen));
                assert(vset(visited@) =~= v1.union(seen));
                lemma_diff_shrinks(key_set(m), v1.union(ch.1), vset(visited@));
            }
        }
        k = k + 1;
    }
    let ghost chfull = emit_children_prefix(
        m,
        info@.submodules,
        info@.submodules.len() as int,
        (level + 1) as nat,
        v1,
        opt@,
    );
    proof {
        assert(seq_view(info.submodules@).len() == info.submodules@.len());
        assert(uml_content@ == bc + chfull.0);
        vstd::seq_lib::lemma_concat_associative(g0, p3, chfull.0);
        assert(uml_content@ == g0 + (p3 + chfull.0));
    }
    uml_content.append(ind.as_str());
    uml_content.append("}\n");
    proof {
        let p4 = p3 + chfull.0;
        vstd::seq_lib::lemma_concat_associative(g0, p4, ind@);
        vstd::seq_lib::lemma_concat_associative(g0, p4 + ind@, "}\n"@);
        assert(uml_content@ == g0 + (p4 + ind@ + "}\n"@));
        let e = emit_module_spec(m, module_name@, level as nat, v0, opt@);
        assert(e.0 == p4 + ind@ + "}\n"@);
        assert(e.1 == chfull.1);
        lemma_children_visited_super(
            m,
            info@.submodules,
            info@.submodules.len() as int,
            (level + 1) as nat,
            v1,
            opt@,
        );
        assert(vset(visited@) =~= v0.union(chfull.1));
    }
}

/// A rendered prefix reads only the entries before `n`.
proof fn lemma_fns_prefix_agree(
    ind: Seq<char>,
    fs1: Seq<FunctionV>,
    fs2: Seq<FunctionV>,
    private_ok: bool,
    n: int,
)
    requires
        n <= fs1.len(),
        n <= fs2.len(),
        forall|i: int| 0 <= i < n ==> fs1[i] == fs2[i],
    ensures
        fns_prefix_spec(ind, fs1, private_ok, n) == fns_prefix_spec(ind, fs2, private_ok, n),
    decreases n,
{
    if n > 0 {
        lemma_fns_prefix_agree(ind, fs1, fs2, private_ok, n - 1);
    }
}

/// Visibility filtering: a function list renders to exactly what its
/// restriction to the functions the policy admits renders to — a
/// function appears in the output if and only if it is public or
/// private functions were asked for.
pub proof fn lemma_visibility_filtering(ind: Seq<char>, fs: Seq<FunctionV>, private_ok: bool)
    ensures
        fns_spec(ind, fs, private_ok) == fns_spec(
            ind,
            fs.filter(|f: FunctionV| f.public || private_ok),
            private_ok,
        ),
    decreases fs.len(),
{
    reveal(Seq::filter);
    let pred = |f: FunctionV| f.public || private_ok;
    if fs.len() == 0 {
    } else {
        let fs0 = fs.drop_last();
        let last = fs.last();
        lemma_visibility_filtering(ind, fs0, private_ok);
        lemma_fns_prefix_agree(ind, fs, fs0, private_ok, fs.len() - 1);
        let f0 = fs0.filter(pred);
        if pred(last) {
            assert(fs.filter(pred) == f0.push(last));
            lemma_fns_prefix_agree(ind, f0.push(last), f0, private_ok, f0.len() as int);
            assert(fns_prefix_spec(ind, f0.push(last), private_ok, f0.len() as int + 1)
                == fns_prefix_spec(ind, f0.push(last), private_ok, f0.len() as int) + fn_entry_spec(
                ind,
                f0.push(last)[f0.len() as int],
            ));
            assert(fns_spec(ind, fs, private_ok) == fns_prefix_spec(ind, fs0, private_ok, fs0.len() as int)
                + fn_entry_spec(ind, last));
        } else {
            assert(fs.filter(pred) == f0);
            assert(fns_spec(ind, fs, private_ok) == fns_prefix_spec(
                ind,
                fs0,
                private_ok,
                fs0.len() as int,
            ) + Seq::<char>::empty());
            lemma_add_empty(fns_prefix_spec(ind, fs0, private_ok, fs0.len() as int));
        }
    }
}

/// Determinism: the rendered output is a function of the model's and
/// the options' mathematical values alone, so two renders of equal
/// models under equal options are byte-identical.
pub proof fn lemma_render_deterministic(
    v1: &crate::model::ModulesVisitor,
    v2: &crate::model::ModulesVisitor,
    o1: &PrintOptions,
    o2: &PrintOptions,
)
    requires
        v1@ == v2@,
        o1@ == o2@,
    ensures
        render_uml_spec(v1@, o1@) == render_uml_spec(v2@, o2@),
{
}

/// The `j`-th submodule name of the entry under `k`.
pub open spec fn sub_of(m: Seq<(Seq<char>, ModuleV)>, k: Seq<char>, j: int) -> Seq<char> {
    (lookup(m, k)->Some_0).submodules[j]
}

/// A set of module names closed under the renderer's reachability: it
/// holds every root that the model has an entry for, and for each
/// member with an entry, every submodule of that entry that itself
/// has an entry.
pub open spec fn root_closed(m: Seq<(Seq<char>, ModuleV)>, r: Set<Seq<char>>) -> bool {
    (forall|i: int| 0 <= i < m.len() && is_root((#[trigger] m[i]).0) ==> r.contains(m[i].0))
        && (forall|k: Seq<char>, j: int|
        r.contains(k) && lookup(m, k) is Some && 0 <= j < (lookup(m, k)->Some_0).submodules.len()
            && lookup(m, #[trigger] sub_of(m, k, j)) is Some ==> r.contains(sub_of(m, k, j)))
}

/// What one emitted module marks visited stays within the closure.
proof fn lemma_emit_module_reaches(
    m: Seq<(Seq<char>, ModuleV)>,
    key: Seq<char>,
    level: nat,
    visited: Set<Seq<char>>,
    opt: OptV,
    r: Set<Seq<char>>,
)
    requires
        root_closed(m, r),
        r.contains(key),
    ensures
        emit_module_spec(m, key, level, visited, opt).1.subset_of(visited.union(r)),
    decreases key_set(m).difference(visited).len(), 1int, 0int,
{
    if lookup(m, key) is Some && !visited.contains(key) {
        let info = lookup(m, key)->Some_0;
        let visited1 = visited.insert(key);
        lemma_key_set_lookup(m, key);
        vstd::seq_lib::seq_to_set_is_finite(m.map_values(|e: (Seq<char>, ModuleV)| e.0));
        key_set(m).lemma_set_insert_diff_decreases(visited, key);
        assert forall|j: int|
            0 <= j < info.submodules.len() && lookup(m, #[trigger] info.submodules[j]) is Some
            implies r.contains(info.submodules[j]) by {
            assert(sub_of(m, key, j) == info.submodules[j]);
        }
        lemma_emit_children_reach(
            m,
            info.submodules,
            info.submodules.len() as int,
            (level + 1) as nat,
            visited1,
            opt,
            r,
        );
        assert(emit_module_spec(m, key, level, visited, opt).1 == emit_children_prefix(
            m,
            info.submodules,
            info.submodules.len() as int,
            (level + 1) as nat,
            visited1,
            opt,
        ).1);
        assert(visited1.union(r).subset_of(visited.union(r)));
    }
}

/// What a submodule fold marks visited stays within the closure.
proof fn lemma_emit_children_reach(
    m: Seq<(Seq<char>, ModuleV)>,
    subs: Seq<Seq<char>>,
    n: int,
    level: nat,
    visited: Set<Seq<char>>,
    opt: OptV,
    r: Set<Seq<char>>,
)
    requires
        root_closed(m, r),
        n <= subs.len(),
        forall|j: int|
            0 <= j < subs.len() && lookup(m, #[trigger] subs[j]) is Some ==> r.contains(subs[j]),
    ensures
        emit_children_prefix(m, subs, n, level, visited, opt).1.subset_of(visited.union(r)),
    decreases key_set(m).difference(visited).len(), 2int, n,
{
    if n <= 0 {
    } else {
        lemma_emit_children_reach(m, subs, n - 1, level, visited, opt, r);
        let prev = emit_children_prefix(m, subs, n - 1, level, visited, opt);
        let seen = visited.union(prev.1);
        assert(seen.subset_of(visited.union(r)));
        if lookup(m, subs[n - 1]) is Some && !seen.contains(subs[n - 1]) {
            vstd::seq_lib::seq_to_set_is_finite(m.map_values(|e: (Seq<char>, ModuleV)| e.0));
            lemma_diff_shrinks(key_set(m), visited, seen);
            lemma_emit_module_reaches(m, subs[n - 1], level, seen, opt, r);
            let sub = emit_module_spec(m, subs[n - 1], level, seen, opt);
            assert(sub.1.subset_of(seen.union(r)));
            assert(seen.union(sub.1).subset_of(visited.union(r)));
        }
    }
}

/// Unreachable module omission: whatever the root pass marks visited
/// lies in every set closed under root-reachability.  A package block
/// is produced for a module exactly when the pass marks it visited, and
/// composition arrows come only from visited modules, so a module
/// entry with no root-reachable path is never emitted.
pub proof fn lemma_unreachable_modules_not_emitted(
    m: Seq<(Seq<char>, ModuleV)>,
    opt: OptV,
    r: Set<Seq<char>>,
)
    requires
        root_closed(m, r),
    ensures
        emit_roots_prefix(m, m.len() as int, Set::empty(), opt).1.subset_of(r),
{
    lemma_emit_roots_reach(m, m.len() as int, Set::empty(), opt, r);
    assert(Set::<Seq<char>>::empty().union(r) =~= r);
}

/// What the root fold marks visited stays within the closure.
proof fn lemma_emit_roots_reach(
    m: Seq<(Seq<char>, ModuleV)>,
    n: int,
    visited: Set<Seq<char>>,
    opt: OptV,
    r: Set<Seq<char>>,
)
    requires
        root_closed(m, r),
    ensures
        emit_roots_prefix(m, n, visited, opt).1.subset_of(visited.union(r)),
    decreases key_set(m).difference(visited).len(), 2int, n,
{
    if n <= 0 {
    } else {
        lemma_emit_roots_reach(m, n - 1, visited, opt, r);
        let prev = emit_roots_prefix(m, n - 1, visited, opt);
        let seen = visited.union(prev.1);
        assert(seen.subset_of(visited.union(r)));
        if 0 <= n - 1 < m.len() && is_root(m[n - 1].0) && !seen.contains(m[n - 1].0) {
            assert(r.contains(m[n - 1].0));
            vstd::seq_lib::seq_to_set_is_finite(m.map_values(|e: (Seq<char>, ModuleV)| e.0));
            lemma_diff_shrinks(key_set(m), visited, seen);
            lemma_emit_module_reaches(m, m[n - 1].0, 0, seen, opt, r);
            let sub = emit_module_spec(m, m[n - 1].0, 0, seen, opt);
            assert(sub.1.subset_of(seen.union(r)));
            assert(seen.union(sub.1).subset_of(visited.union(r)));
        }
    }
}

/// The keys of the package blocks one module's emission opens, in
/// emission order.  Its guards and visited-set threading are the same
/// expressions as in `emit_module_spec`, so the emission opens a
/// package block exactly when this sequence gains the block's key.
pub open spec fn blocks_of_module(
    m: Seq<(Seq<char>, ModuleV)>,
    key: Seq<char>,
    level: nat,
    visited: Set<Seq<char>>,
    opt: OptV,
) -> Seq<Seq<char>>
    decreases key_set(m).difference(visited).len(), 1int, 0int,
    via blocks_of_module_dec
{
    if lookup(m, key) is Some && !visited.contains(key) {
        let info = lookup(m, key)->Some_0;
        seq![key] + blocks_of_children(
            m,
            info.submodules,
            info.submodules.len() as int,
            (level + 1) as nat,
            visited.insert(key),
            opt,
        )
    } else {
        Seq::empty()
    }
}

/// The block keys of the first `n` submodules of a module.
pub open spec fn blocks_of_children(
    m: Seq<(Seq<char>, ModuleV)>,
    subs: Seq<Seq<char>>,
    n: int,
    level: nat,
    visited: Set<Seq<char>>,
    opt: OptV,
) -> Seq<Seq<char>>
    decreases key_set(m).difference(visited).len(), 2int, n,
    via blocks_of_children_dec
{
    if n <= 0 {
        Seq::empty()
    } else {
        let prev = blocks_of_children(m, subs, n - 1, level, visited, opt);
        let seen = visited.union(emit_children_prefix(m, subs, n - 1, level, visited, opt).1);
        if lookup(m, subs[n - 1]) is Some && !seen.contains(subs[n - 1]) {
            prev + blocks_of_module(m, subs[n - 1], level, seen, opt)
        } else {
            prev
        }
    }
}

/// The block keys of the first `n` root entries.
pub open spec fn blocks_of_roots(
    m: Seq<(Seq<char>, ModuleV)>,
    n: int,
    visited: Set<Seq<char>>,
    opt: OptV,
) -> Seq<Seq<char>>
    decreases key_set(m).difference(visited).len(), 2int, n,
    via blocks_of_roots_dec
{
    if n <= 0 {
        Seq::empty()
    } else {
        let prev = blocks_of_roots(m, n - 1, visited, opt);
        let seen = visited.union(emit_roots_prefix(m, n - 1, visited, opt).1);
        if 0 <= n - 1 < m.len() && is_root(m[n - 1].0) && !seen.contains(m[n - 1].0) {
            prev + blocks_of_module(m, m[n - 1].0, 0, seen, opt)
        } else {
            prev
        }
    }
}

#[via_fn]
proof fn blocks_of_module_dec(
    m: Seq<(Seq<char>, ModuleV)>,
    key: Seq<char>,
    level: nat,
    visited: Set<Seq<char>>,
    opt: OptV,
) {
    vstd::seq_lib::seq_to_set_is_finite(m.map_values(|e: (Seq<char>, ModuleV)| e.0));
    if lookup(m, key) is Some && !visited.contains(key) {
        lemma_key_set_lookup(m, key);
        key_set(m).lemma_set_insert_diff_decreases(visited, key);
    }
}

#[via_fn]
proof fn blocks_of_children_dec(
    m: Seq<(Seq<char>, ModuleV)>,
    subs: Seq<Seq<char>>,
    n: int,
    level: nat,
    visited: Set<Seq<char>>,
    opt: OptV,
) {
    let ks = key_set(m);
    vstd::seq_lib::seq_to_set_is_finite(m.map_values(|e: (Seq<char>, ModuleV)| e.0));
    assert forall|b: Set<Seq<char>>| #![trigger ks.difference(b)]
        visited.subset_of(b) implies ks.difference(b).len() <= ks.difference(visited).len() by {
        lemma_diff_shrinks(ks, visited, b);
    }
}

#[via_fn]
proof fn blocks_of_roots_dec(
    m: Seq<(Seq<char>, ModuleV)>,
    n: int,
    visited: Set<Seq<char>>,
    opt: OptV,
) {
    let ks = key_set(m);
    vstd::seq_lib::seq_to_set_is_finite(m.map_values(|e: (Seq<char>, ModuleV)| e.0));
    assert forall|b: Set<Seq<char>>| #![trigger ks.difference(b)]
        visited.subset_of(b) implies ks.difference(b).len() <= ks.difference(visited).len() by {
        lemma_diff_shrinks(ks, visited, b);
    }
}

/// An empty name sequence has an empty set.
proof fn lemma_empty_names_to_set(s: Seq<Seq<char>>)
    requires
        s.len() == 0,
    ensures
        s.to_set() =~= Set::<Seq<char>>::empty(),
{
    assert forall|x: Seq<char>| !(#[trigger] s.to_set().contains(x)) by {
        assert(!s.contains(x));
    }
}

/// Concatenation of name sequences unions their sets.
proof fn lemma_names_to_set_concat(a: Seq<Seq<char>>, b: Seq<Seq<char>>)
    ensures
        (a + b).to_set() =~= a.to_set().union(b.to_set()),
{
    assert forall|x: Seq<char>| #[trigger] (a + b).contains(x) implies a.contains(x) || b.contains(
        x,
    ) by {
        let i = choose|i: int| 0 <= i < (a + b).len() && (a + b)[i] == x;
        if i < a.len() {
            assert(a[i] == x);
        } else {
            assert(b[i - a.len()] == x);
        }
    }
    assert forall|x: Seq<char>| a.contains(x) || b.contains(x) implies #[trigger] (a + b).contains(
        x,
    ) by {
        if a.contains(x) {
            let i = choose|i: int| 0 <= i < a.len() && a[i] == x;
            assert((a + b)[i] == x);
        } else {
            let i = choose|i: int| 0 <= i < b.len() && b[i] == x;
            assert((a + b)[a.len() + i] == x);
        }
    }
}

/// Concatenation of duplicate-free, disjoint name sequences is
/// duplicate-free.
proof fn lemma_no_dup_concat(a: Seq<Seq<char>>, b: Seq<Seq<char>>)
    requires
        a.no_duplicates(),
        b.no_duplicates(),
        a.disjoint(b),
    ensures
        (a + b).no_duplicates(),
{
    assert forall|i: int, j: int|
        0 <= i < (a + b).len() && 0 <= j < (a + b).len() && i != j implies (a + b)[i] != (a
        + b)[j] by {
        if i < a.len() && j < a.len() {
            assert(a[i] != a[j]);
        } else if i >= a.len() && j >= a.len() {
            assert(b[i - a.len()] != b[j - a.len()]);
        } else if i < a.len() {
            assert(a[i] != b[j - a.len()]);
        } else {
            assert(a[j] != b[i - a.len()]);
        }
    }
}

/// The visited set after one module's emission is the set before it
/// plus exactly the keys of the blocks the emission opened.
proof fn lemma_blocks_module_visited(
    m: Seq<(Seq<char>, ModuleV)>,
    key: Seq<char>,
    level: nat,
    visited: Set<Seq<char>>,
    opt: OptV,
)
    ensures
        emit_module_spec(m, key, level, visited, opt).1 == visited.union(
            blocks_of_module(m, key, level, visited, opt).to_set(),
        ),
    decreases key_set(m).difference(visited).len(), 1int, 0int,
{
    if lookup(m, key) is Some && !visited.contains(key) {
        let info = lookup(m, key)->Some_0;
        let visited1 = visited.insert(key);
        lemma_key_set_lookup(m, key);
        vstd::seq_lib::seq_to_set_is_finite(m.map_values(|e: (Seq<char>, ModuleV)| e.0));
        key_set(m).lemma_set_insert_diff_decreases(visited, key);
        lemma_blocks_children_visited(
            m,
            info.submodules,
            info.submodules.len() as int,
            (level + 1) as nat,
            visited1,
            opt,
        );
        let cb = blocks_of_children(
            m,
            info.submodules,
            info.submodules.len() as int,
            (level + 1) as nat,
            visited1,
            opt,
        );
        lemma_names_to_set_concat(seq![key], cb);
        assert(seq![key].to_set() =~= Set::<Seq<char>>::empty().insert(key)) by {
            assert(seq![key][0] == key);
            assert(seq![key].contains(key));
            assert forall|x: Seq<char>| #[trigger] seq![key].contains(x) implies x == key by {
                let i = choose|i: int| 0 <= i < seq![key].len() && seq![key][i] == x;
            }
        }
        assert(emit_module_spec(m, key, level, visited, opt).1 =~= visited.union(
            (seq![key] + cb).to_set(),
        ));
    } else {
        lemma_empty_names_to_set(blocks_of_module(m, key, level, visited, opt));
        assert(emit_module_spec(m, key, level, visited, opt).1 =~= visited.union(
            blocks_of_module(m, key, level, visited, opt).to_set(),
        ));
    }
}

/// The visited set after a submodule fold is the set before it plus
/// exactly the keys of the blocks the fold opened.
proof fn lemma_blocks_children_visited(
    m: Seq<(Seq<char>, ModuleV)>,
    subs: Seq<Seq<char>>,
    n: int,
    level: nat,
    visited: Set<Seq<char>>,
    opt: OptV,
)
    ensures
        emit_children_prefix(m, subs, n, level, visited, opt).1 == visited.union(
            blocks_of_children(m, subs, n, level, visited, opt).to_set(),
        ),
    decreases key_set(m).difference(visited).len(), 2int, n,
{
    if n <= 0 {
        lemma_empty_names_to_set(blocks_of_children(m, subs, n, level, visited, opt));
        assert(emit_children_prefix(m, subs, n, level, visited, opt).1 =~= visited.union(
            blocks_of_children(m, subs, n, level, visited, opt).to_set(),
        ));
    } else {
        lemma_blocks_children_visited(m, subs, n - 1, level, visited, opt);
        let prev = emit_children_prefix(m, subs, n - 1, level, visited, opt);
        let prev_blocks = blocks_of_children(m, subs, n - 1, level, visited, opt);
        let seen = visited.union(prev.1);
        assert(seen =~= visited.union(prev_blocks.to_set()));
        if lookup(m, subs[n - 1]) is Some && !seen.contains(subs[n - 1]) {
            vstd::seq_lib::seq_to_set_is_finite(m.map_values(|e: (Seq<char>, ModuleV)| e.0));
            lemma_diff_shrinks(key_set(m), visited, seen);
            lemma_blocks_module_visited(m, subs[n - 1], level, seen, opt);
            let sub_blocks = blocks_of_module(m, subs[n - 1], level, seen, opt);
            lemma_names_to_set_concat(prev_blocks, sub_blocks);
            assert(emit_children_prefix(m, subs, n, level, visited, opt).1 =~= visited.union(
                (prev_blocks + sub_blocks).to_set(),
            ));
        } else {
            assert(emit_children_prefix(m, subs, n, level, visited, opt).1 =~= visited.union(
                prev_blocks.to_set(),
            ));
        }
    }
}

/// The visited set after the root pass is the set before it plus
/// exactly the keys of the blocks the pass opened.
proof fn lemma_blocks_roots_visited(
    m: Seq<(Seq<char>, ModuleV)>,
    n: int,
    visited: Set<Seq<char>>,
    opt: OptV,
)
    ensures
        emit_roots_prefix(m, n, visited, opt).1 == visited.union(
            blocks_of_roots(m, n, visited, opt).to_set(),
        ),
    decreases key_set(m).difference(visited).len(), 2int, n,
{
    if n <= 0 {
        lemma_empty_names_to_set(blocks_of_roots(m, n, visited, opt));
        assert(emit_roots_prefix(m, n, visited, opt).1 =~= visited.union(
            blocks_of_roots(m, n, visited, opt).to_set(),
        ));
    } else {
        lemma_blocks_roots_visited(m, n - 1, visited, opt);
        let prev = emit_roots_prefix(m, n - 1, visited, opt);
        let prev_blocks = blocks_of_roots(m, n - 1, visited, opt);
        let seen = visited.union(prev.1);
        assert(seen =~= visited.union(prev_blocks.to_set()));
        if 0 <= n - 1 < m.len() && is_root(m[n - 1].0) && !seen.contains(m[n - 1].0) {
            vstd::seq_lib::seq_to_set_is_finite(m.map_values(|e: (Seq<char>, ModuleV)| e.0));
            lemma_diff_shrinks(key_set(m), visited, seen);
            lemma_blocks_module_visited(m, m[n - 1].0, 0, seen, opt);
            let sub_blocks = blocks_of_module(m, m[n - 1].0, 0, seen, opt);
            lemma_names_to_set_concat(prev_blocks, sub_blocks);
            assert(emit_roots_prefix(m, n, visited, opt).1 =~= visited.union(
                (prev_blocks + sub_blocks).to_set(),
            ));
        } else {
            assert(emit_roots_prefix(m, n, visited, opt).1 =~= visited.union(
                prev_blocks.to_set(),
            ));
        }
    }
}

/// One module's emission opens no block twice and none for an
/// already-visited module.
proof fn lemma_blocks_module_distinct(
    m: Seq<(Seq<char>, ModuleV)>,
    key: Seq<char>,
    level: nat,
    visited: Set<Seq<char>>,
    opt: OptV,
)
    ensures
        blocks_of_module(m, key, level, visited, opt).no_duplicates(),
        forall|i: int|
            0 <= i < blocks_of_module(m, key, level, visited, opt).len() ==> !visited.contains(
                #[trigger] blocks_of_module(m, key, level, visited, opt)[i],
            ),
    decreases key_set(m).difference(visited).len(), 1int, 0int,
{
    if lookup(m, key) is Some && !visited.contains(key) {
        let info = lookup(m, key)->Some_0;
        let visited1 = visited.insert(key);
        lemma_key_set_lookup(m, key);
        vstd::seq_lib::seq_to_set_is_finite(m.map_values(|e: (Seq<char>, ModuleV)| e.0));
        key_set(m).lemma_set_insert_diff_decreases(visited, key);
        lemma_blocks_children_distinct(
            m,
            info.submodules,
            info.submodules.len() as int,
            (level + 1) as nat,
            visited1,
            opt,
        );
        let cb = blocks_of_children(
            m,
            info.submodules,
            info.submodules.len() as int,
            (level + 1) as nat,
            visited1,
            opt,
        );
        assert(seq![key].disjoint(cb)) by {
            assert forall|i: int, j: int|
                0 <= i < seq![key].len() && 0 <= j < cb.len() implies seq![key][i] != cb[j] by {
                assert(!visited1.contains(cb[j]));
            }
        }
        lemma_no_dup_concat(seq![key], cb);
        let blocks = blocks_of_module(m, key, level, visited, opt);
        assert forall|i: int| 0 <= i < blocks.len() implies !visited.contains(
            #[trigger] blocks[i],
        ) by {
            if i == 0 {
            } else {
                assert(blocks[i] == cb[i - 1]);
                assert(!visited1.contains(cb[i - 1]));
            }
        }
    }
}

/// A submodule fold opens no block twice and none for an
/// already-visited module.
proof fn lemma_blocks_children_distinct(
    m: Seq<(Seq<char>, ModuleV)>,
    subs: Seq<Seq<char>>,
    n: int,
    level: nat,
    visited: Set<Seq<char>>,
    opt: OptV,
)
    ensures
        blocks_of_children(m, subs, n, level, visited, opt).no_duplicates(),
        forall|i: int|
            0 <= i < blocks_of_children(m, subs, n, level, visited, opt).len() ==> !visited.contains(
                #[trigger] blocks_of_children(m, subs, n, level, visited, opt)[i],
            ),
    decreases key_set(m).difference(visited).len(), 2int, n,
{
    if n <= 0 {
    } else {
        lemma_blocks_children_distinct(m, subs, n - 1, level, visited, opt);
        lemma_blocks_children_visited(m, subs, n - 1, level, visited, opt);
        let prev_blocks = blocks_of_children(m, subs, n - 1, level, visited, opt);
        let seen = visited.union(emit_children_prefix(m, subs, n - 1, level, visited, opt).1);
        assert(seen =~= visited.union(prev_blocks.to_set()));
        if lookup(m, subs[n - 1]) is Some && !seen.contains(subs[n - 1]) {
            vstd::seq_lib::seq_to_set_is_finite(m.map_values(|e: (Seq<char>, ModuleV)| e.0));
            lemma_diff_shrinks(key_set(m), visited, seen);
            lemma_blocks_module_distinct(m, subs[n - 1], level, seen, opt);
            let sub_blocks = blocks_of_module(m, subs[n - 1], level, seen, opt);
            assert(prev_blocks.disjoint(sub_blocks)) by {
                assert forall|i: int, j: int|
                    0 <= i < prev_blocks.len() && 0 <= j < sub_blocks.len() implies prev_blocks[i]
                    != sub_blocks[j] by {
                    assert(prev_blocks.contains(prev_blocks[i]));
                    assert(seen.contains(prev_blocks[i]));
                    assert(!seen.contains(sub_blocks[j]));
                }
            }
            lemma_no_dup_concat(prev_blocks, sub_blocks);
            let blocks = blocks_of_children(m, subs, n, level, visited, opt);
            assert forall|i: int| 0 <= i < blocks.len() implies !visited.contains(
                #[trigger] blocks[i],
            ) by {
                if i < prev_blocks.len() {
                    assert(blocks[i] == prev_blocks[i]);
                } else {
                    assert(blocks[i] == sub_blocks[i - prev_blocks.len()]);
                    assert(!seen.contains(sub_blocks[i - prev_blocks.len()]));
                }
            }
        }
    }
}

/// Cycle safety: across the whole root pass, every module's package
/// block is opened at most once — the sequence of keys whose blocks
/// the pass opens, in emission order, has no duplicates, whatever
/// submodule cycles the model holds; and the visited set the pass
/// ends with holds exactly those keys.
pub proof fn lemma_package_emitted_at_most_once(m: Seq<(Seq<char>, ModuleV)>, opt: OptV)
    ensures
        blocks_of_roots(m, m.len() as int, Set::empty(), opt).no_duplicates(),
        emit_roots_prefix(m, m.len() as int, Set::empty(), opt).1 == blocks_of_roots(
            m,
            m.len() as int,
            Set::empty(),
            opt,
        ).to_set(),
{
    lemma_blocks_roots_distinct(m, m.len() as int, Set::empty(), opt);
    lemma_blocks_roots_visited(m, m.len() as int, Set::empty(), opt);
    assert(Set::<Seq<char>>::empty().union(
        blocks_of_roots(m, m.len() as int, Set::empty(), opt).to_set(),
    ) =~= blocks_of_roots(m, m.len() as int, Set::empty(), opt).to_set());
}

/// The root pass opens no block twice and none for an
/// already-visited module.
proof fn lemma_blocks_roots_distinct(
    m: Seq<(Seq<char>, ModuleV)>,
    n: int,
    visited: Set<Seq<char>>,
    opt: OptV,
)
    ensures
        blocks_of_roots(m, n, visited, opt).no_duplicates(),
        forall|i: int|
            0 <= i < blocks_of_roots(m, n, visited, opt).len() ==> !visited.contains(
                #[trigger] blocks_of_roots(m, n, visited, opt)[i],
            ),
    decreases key_set(m).difference(visited).len(), 2int, n,
{
    if n <= 0 {
    } else {
        lemma_blocks_roots_distinct(m, n - 1, visited, opt);
        lemma_blocks_roots_visited(m, n - 1, visited, opt);
        let prev_blocks = blocks_of_roots(m, n - 1, visited, opt);
        let seen = visited.union(emit_roots_prefix(m, n - 1, visited, opt).1);
        assert(seen =~= visited.union(prev_blocks.to_set()));
        if 0 <= n - 1 < m.len() && is_root(m[n - 1].0) && !seen.contains(m[n - 1].0) {
            vstd::seq_lib::seq_to_set_is_finite(m.map_values(|e: (Seq<char>, ModuleV)| e.0));
            lemma_diff_shrinks(key_set(m), visited, seen);
            lemma_blocks_module_distinct(m, m[n - 1].0, 0, seen, opt);
            let sub_blocks = blocks_of_module(m, m[n - 1].0, 0, seen, opt);
            assert(prev_blocks.disjoint(sub_blocks)) by {
                assert forall|i: int, j: int|
                    0 <= i < prev_blocks.len() && 0 <= j < sub_blocks.len() implies prev_blocks[i]
                    != sub_blocks[j] by {
                    assert(prev_blocks.contains(prev_blocks[i]));
                    assert(seen.contains(prev_blocks[i]));
                    assert(!seen.contains(sub_blocks[j]));
                }
            }
            lemma_no_dup_concat(prev_blocks, sub_blocks);
            let blocks = blocks_of_roots(m, n, visited, opt);
            assert forall|i: int| 0 <= i < blocks.len() implies !visited.contains(
                #[trigger] blocks[i],
            ) by {
                if i < prev_blocks.len() {
                    assert(blocks[i] == prev_blocks[i]);
                } else {
                    assert(blocks[i] == sub_blocks[i - prev_blocks.len()]);
                    assert(!seen.contains(sub_blocks[i - prev_blocks.len()]));
                }
            }
        }
    }
}

/// Emits the relation arrows: for every struct member, an arrow to
/// each struct of the same module whose name occurs in the member's
/// rewritten type name.
pub fn add_relations(uml_content: &mut String, visitor: &crate::model::ModulesVisitor)
    ensures
        final(uml_content)@ == old(uml_content)@ + rel_modules_prefix(
            visitor@,
            visitor@.len() as int,
        ),
{
    let ghost m = visitor@;
    let mut i: usize = 0;
    proof {
        lemma_add_empty(uml_content@);
    }
    while i < visitor.module_map.len()
        invariant
            i <= visitor.module_map@.len(),
            m == visitor@,
            m.len() == visitor.module_map@.len(),
            uml_content@ == old(uml_content)@ + rel_modules_prefix(m, i as int),
        decreases visitor.module_map@.len() - i,
    {
        let pkg = package_ident(visitor.module_map[i].0.as_str());
        let info = &visitor.module_map[i].1;
        let ghost ss = entries_view(info.structs@);
        let ghost bm = uml_content@;
        proof {
            assert(m[i as int] == (visitor.module_map@[i as int].0@, visitor.module_map@[i as int].1@));
            assert(m[i as int].1.structs == ss);
            lemma_add_empty(bm);
        }
        let mut j: usize = 0;
        while j < info.structs.len()
            invariant
                j <= info.structs@.len(),
                ss == entries_view(info.structs@),
                ss.len() == info.structs@.len(),
                pkg@ == dot_to_underscore(m[i as int].0),
                uml_content@ == bm + rel_structs_prefix(pkg@, ss, j as int),
            decreases info.structs@.len() - j,
        {
            let sname = &info.structs[j].0;
            let sinfo = &info.structs[j].1;
            let ghost bs = uml_content@;
            proof {
                assert(ss[j as int] == (info.structs@[j as int].0@, info.structs@[j as int].1@));
                lemma_add_empty(bs);
            }
            let mut x: usize = 0;
            while x < sinfo.members.len()
                invariant
                    x <= sinfo.members@.len(),
                    ss == entries_view(info.structs@),
                    ss.len() == info.structs@.len(),
                    pkg@ == dot_to_underscore(m[i as int].0),
                    sname@ == ss[j as int].0,
                    sinfo@ == ss[j as int].1,
                    uml_content@ == bs + rel_members_prefix(
                        pkg@,
                        ss[j as int].0,
                        ss[j as int].1.members,
                        ss,
                        x as int,
                    ),
                decreases sinfo.members@.len() - x,
            {
                let mt = path_ident(sinfo.members[x].member_type.as_str());
                let ghost bx = uml_content@;
                proof {
                    assert(seq_view(sinfo.members@)[x as int] == sinfo.members@[x as int]@);
                    assert(ss[j as int].1.members[x as int] == sinfo.members@[x as int]@);
                    lemma_add_empty(bx);
                }
                let mut y: usize = 0;
                while y < info.structs.len()
                    invariant
                        y <= info.structs@.len(),
                        ss == entries_view(info.structs@),
                        ss.len() == info.structs@.len(),
                        pkg@ == dot_to_underscore(m[i as int].0),
                        sname@ == ss[j as int].0,
                        mt@ == crate::text::colons_to_underscore(
                            ss[j as int].1.members[x as int].member_type,
                        ),
                        uml_content@ == bx + rel_targets_prefix(
                            pkg@,
                            ss[j as int].0,
                            mt@,
                            ss,
                            y as int,
                        ),
                    decreases info.structs@.len() - y,
                {
                    proof {
                        assert(ss[y as int] == (info.structs@[y as int].0@, info.structs@[y as int].1@));
                    }
                    if str_contains(mt.as_str(), info.structs[y].0.as_str()) {
                        append8(
                            uml_content,
                            pkg.as_str(),
                            "::",
                            sname.as_str(),
                            " --> ",
                            pkg.as_str(),
                            "::",
                            info.structs[y].0.as_str(),
                            "\n",
                        );
                        proof {
                            vstd::seq_lib::lemma_concat_associative(
                                bx,
                                rel_targets_prefix(pkg@, ss[j as int].0, mt@, ss, y as int),
                                pkg@ + "::"@ + ss[j as int].0 + " --> "@ + pkg@ + "::"@
                                    + ss[y as int].0 + "\n"@,
                            );
                        }
                    } else {
                        proof {
                            lemma_add_empty(
                                rel_targets_prefix(pkg@, ss[j as int].0, mt@, ss, y as int),
                            );
                        }
                    }
                    y = y + 1;
                }
                proof {
                    vstd::seq_lib::lemma_concat_associative(
                        bs,
                        rel_members_prefix(pkg@, ss[j as int].0, ss[j as int].1.members, ss, x as int),
                        rel_targets_prefix(pkg@, ss[j as int].0, mt@, ss, ss.len() as int),
                    );
                }
                x = x + 1;
            }
            proof {
                assert(seq_view(sinfo.members@).len() == sinfo.members@.len());
                vstd::seq_lib::lemma_concat_associative(
                    bm,
                    rel_structs_prefix(pkg@, ss, j as int),
                    rel_members_prefix(
                        pkg@,
                        ss[j as int].0,
                        ss[j as int].1.members,
                        ss,
                        ss[j as int].1.members.len() as int,
                    ),
                );
            }
            j = j + 1;
        }
        proof {
            vstd::seq_lib::lemma_concat_associative(
                old(uml_content)@,
                rel_modules_prefix(m, i as int),
                rel_structs_prefix(pkg@, ss, ss.len() as int),
            );
        }
        i = i + 1;
    }
}

/// Emits the composition arrows: one per submodule link of an emitted
/// module whose submodule has an entry.
fn add_compositions(
    uml_content: &mut String,
    visitor: &crate::model::ModulesVisitor,
    visited: &Vec<String>,
)
    requires
        visitor.wf(),
    ensures
        final(uml_content)@ == old(uml_content)@ + comp_modules_prefix(
            visitor@,
            vset(visited@),
            visitor@.len() as int,
        ),
{
    let ghost m = visitor@;
    let ghost em = vset(visited@);
    let mut i: usize = 0;
    proof {
        lemma_add_empty(uml_content@);
    }
    while i < visitor.module_map.len()
        invariant
            i <= visitor.module_map@.len(),
            m == visitor@,
            em == vset(visited@),
            visitor.wf(),
            m.len() == visitor.module_map@.len(),
            uml_content@ == old(uml_content)@ + comp_modules_prefix(m, em, i as int),
        decreases visitor.module_map@.len() - i,
    {
        let key = &visitor.module_map[i].0;
        let info = &visitor.module_map[i].1;
        proof {
            assert(m[i as int] == (visitor.module_map@[i as int].0@, visitor.module_map@[i as int].1@));
        }
        if visited_contains(visited, key.as_str()) {
            let pkg = package_ident(key.as_str());
            let ghost bm = uml_content@;
            proof {
                lemma_add_empty(bm);
            }
            let mut j: usize = 0;
            while j < info.submodules.len()
                invariant
                    j <= info.submodules@.len(),
                    m == visitor@,
                    visitor.wf(),
                    pkg@ == dot_to_underscore(m[i as int].0),
                    seq_view(info.submodules@) == m[i as int].1.submodules,
                    uml_content@ == bm + comp_subs_prefix(
                        m,
                        m[i as int].0,
                        m[i as int].1.submodules,
                        j as int,
                    ),
                decreases info.submodules@.len() - j,
            {
                let sub = &info.submodules[j];
                proof {
                    assert(seq_view(info.submodules@)[j as int] == info.submodules@[j as int]@);
                }
                let pos = lower_bound(&visitor.module_map, sub.as_str());
                let present = pos < visitor.module_map.len() && str_eq(
                    visitor.module_map[pos].0.as_str(),
                    sub.as_str(),
                );
                if present {
                    proof {
                        lemma_lookup_present(m, sub@, pos as int);
                    }
                    let subpkg = package_ident(sub.as_str());
                    append4(uml_content, pkg.as_str(), " --> ", subpkg.as_str(), "\n");
                    proof {
                        vstd::seq_lib::lemma_concat_associative(
                            bm,
                            comp_subs_prefix(m, m[i as int].0, m[i as int].1.submodules, j as int),
                            dot_to_underscore(m[i as int].0) + " --> "@ + dot_to_underscore(
                                m[i as int].1.submodules[j as int],
                            ) + "\n"@,
                        );
                    }
                } else {
                    proof {
                        lemma_lower_bound_absent(m, sub@, pos as int);
                        lemma_add_empty(
                            comp_subs_prefix(m, m[i as int].0, m[i as int].1.submodules, j as int),
                        );
                    }
                }
                j = j + 1;
            }
            proof {
                assert(seq_view(info.submodules@).len() == info.submodules@.len());
                vstd::seq_lib::lemma_concat_associative(
                    old(uml_content)@,
                    comp_modules_prefix(m, em, i as int),
                    comp_subs_prefix(
                        m,
                        m[i as int].0,
                        m[i as int].1.submodules,
                        m[i as int].1.submodules.len() as int,
                    ),
                );
            }
        } else {
            proof {
                lemma_add_empty(comp_modules_prefix(m, em, i as int));
            }
        }
        i = i + 1;
    }
}

/// Renders the whole diagram for the finished model: deterministic,
/// byte for byte, for a given model and options.
#[verifier::rlimit(100)]
pub fn print_uml(visitor: &crate::model::ModulesVisitor, opt: &PrintOptions) -> (r: String)
    requires
        visitor.wf(),
    ensures
        r@ == render_uml_spec(visitor@, opt@),
{
    let ghost m = visitor@;
    let mut uml_content = String::new();
    uml_content.append("@startuml\n");
    uml_content.append("left to right direction\nskinparam lineType ortho\n");
    let ghost gopen = "@startuml\n"@ + "left to right direction\nskinparam lineType ortho\n"@;
    proof {
        assert(uml_content@ =~= gopen);
    }
    let mut visited: Vec<String> = Vec::new();
    proof {
        assert(visited@.map_values(|x: String| x@) =~= Seq::<Seq<char>>::empty());
        assert(vset(visited@) =~= Set::<Seq<char>>::empty());
        lemma_add_empty(gopen);
        assert(vset(visited@) =~= Set::<Seq<char>>::empty().union(
            emit_roots_prefix(m, 0, Set::empty(), opt@).1,
        ));
    }
    let mut i: usize = 0;
    while i < visitor.module_map.len()
        invariant
            i <= visitor.module_map@.len(),
            m == visitor@,
            visitor.wf(),
            m.len() == visitor.module_map@.len(),
            uml_content@ == gopen + emit_roots_prefix(m, i as int, Set::empty(), opt@).0,
            vset(visited@) == Set::<Seq<char>>::empty().union(
                emit_roots_prefix(m, i as int, Set::empty(), opt@).1,
            ),
        decreases visitor.module_map@.len() - i,
    {
        let ghost prev = emit_roots_prefix(m, i as int, Set::empty(), opt@);
        let ghost seen = Set::<Seq<char>>::empty().union(prev.1);
        let key = &visitor.module_map[i].0;
        proof {
            assert(m[i as int] == (visitor.module_map@[i as int].0@, visitor.module_map@[i as int].1@));
        }
        let root = str_ends_with(key.as_str(), "__lib") || str_ends_with(key.as_str(), "__main");
        if root && !visited_contains(&visited, key.as_str()) {
            proof {
                lemma_lookup_present(m, key@, i as int);
                vstd::seq_lib::seq_to_set_is_finite(m.map_values(|e: (Seq<char>, ModuleV)| e.0));
                vstd::set::axiom_set_difference_finite(key_set(m), vset(visited@));
                m.map_values(|e: (Seq<char>, ModuleV)| e.0).lemma_cardinality_of_set();
                vstd::set_lib::lemma_len_subset(
                    key_set(m).difference(vset(visited@)),
                    key_set(m),
                );
            }
            let ghost vpre = vset(visited@);
            let ghost gpre = uml_content@;
            add_module_to_uml(
                &mut uml_content,
                key,
                &visitor.module_map[i].1,
                visitor,
                0,
                opt,
                &mut visited,
            );
            proof {
                let se = emit_module_spec(m, m[i as int].0, 0, seen, opt@);
                assert(vpre == seen);
                assert(uml_content@ == gpre + se.0);
                vstd::seq_lib::lemma_concat_associative(gopen, prev.0, se.0);
                assert(emit_roots_prefix(m, i + 1, Set::empty(), opt@) == (
                    prev.0 + se.0,
                    seen.union(se.1),
                ));
                assert(vset(visited@) == vpre.union(se.1));
                assert(vset(visited@) =~= Set::<Seq<char>>::empty().union(seen.union(se.1)));
            }
        } else {
            proof {
                assert(emit_roots_prefix(m, i + 1, Set::empty(), opt@) == (prev.0, seen)) by {
                    if root {
                        assert(seen.contains(m[i as int].0));
                    }
                }
                assert(vset(visited@) =~= Set::<Seq<char>>::empty().union(seen));
            }
        }
        i = i + 1;
    }
    let ghost roots = emit_roots_prefix(m, m.len() as int, Set::empty(), opt@);
    let ghost p1 = gopen + roots.0;
    if opt.relations {
        add_relations(&mut uml_content, visitor);
    }
    let ghost rels = if opt@.relations {
        rel_modules_prefix(m, m.len() as int)
    } else {
        Seq::<char>::empty()
    };
    let ghost p2 = p1 + rels;
    proof {
        if opt@.relations {
            vstd::seq_lib::lemma_concat_associative(gopen, roots.0, rels);
        } else {
            lemma_add_empty(p1);
        }
        assert(uml_content@ == p2);
    }
    proof {
        assert(vset(visited@) =~= roots.1) by {
            assert(vset(visited@) == Set::<Seq<char>>::empty().union(roots.1));
        }
    }
    add_compositions(&mut uml_content, visitor, &visited);
    let ghost comps = comp_modules_prefix(m, roots.1, m.len() as int);
    let ghost p3 = p2 + comps;
    proof {
        assert(uml_content@ == p2 + comp_modules_prefix(m, vset(visited@), m.len() as int));
        assert(comp_modules_prefix(m, vset(visited@), m.len() as int) == comps);
        assert(uml_content@ == p3);
    }
    uml_content.append("@enduml\n");
    proof {
        assert(uml_content@ == p3 + "@enduml\n"@);
        assert(uml_content@ == render_uml_spec(m, opt@));
    }
    uml_content
}

/// Whether a module name is already on the visited list.
pub fn visited_contains(visited: &Vec<String>, key: &str) -> (r: bool)
    ensures
        r == vset(visited@).contains(key@),
{
    let mut i: usize = 0;
    let ghost mapped = visited@.map_values(|x: String| x@);
    while i < visited.len()
        invariant
            i <= visited@.len(),
            mapped == visited@.map_values(|x: String| x@),
            forall|j: int| 0 <= j < i ==> (#[trigger] mapped[j]) != key@,
        decreases visited@.len() - i,
    {
        if str_eq(visited[i].as_str(), key) {
            proof {
                assert(mapped[i as int] == key@);
                assert(mapped.contains(key@));
            }
            return true;
        }
        i = i + 1;
    }
    proof {
        if mapped.contains(key@) {
            let j = choose|j: int| 0 <= j < mapped.len() && mapped[j] == key@;
        }
    }
    false
}

} // verus!
