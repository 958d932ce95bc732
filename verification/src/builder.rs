//! The model builder: consumes declaration nodes for a module and
//! updates the shared model.  Each visitation rule is stated as a pure
//! transformation of the model's view; the builder never fails on
//! input it does not recognize.
use vstd::prelude::*;

use crate::decl::Decl;
use crate::decl::EnumDecl;
use crate::decl::FnDecl;
use crate::decl::FnNode;
use crate::decl::ImplDecl;
use crate::decl::MemberNode;
use crate::decl::ModDecl;
use crate::decl::ParamNode;
use crate::decl::PathNode;
use crate::decl::StructDecl;
use crate::decl::TraitDecl;
use crate::decl::TypeNode;
use crate::model::empty_module;
use crate::model::empty_struct;
use crate::model::seq_view;
use crate::model::EnumV;
use crate::model::FunctionInfo;
use crate::model::FunctionV;
use crate::model::MemberInfo;
use crate::model::MemberV;
use crate::model::ModuleV;
use crate::model::ParameterInfo;
use crate::model::ParameterV;
use crate::model::StructV;
use crate::model::TraitV;
use crate::sig::format_path;
use crate::sig::get_type_name;
use crate::sig::join_strings;
use crate::sig::joined;
use crate::sig::path_name_spec;
use crate::sig::type_name_spec;
use crate::model::lemma_seq_view_push;
use crate::model::map_wf;
use crate::model::module_wf;
use crate::model::EnumInfo;
use crate::model::ModuleInfo;
use crate::model::ModulesVisitor;
use crate::model::StructInfo;
use crate::model::TraitInfo;
use crate::smap::entries_view;
use crate::smap::lemma_lookup_present;
use crate::smap::lemma_lookup_upsert;
use crate::smap::lemma_lower_bound_absent;
use crate::smap::lemma_upsert_upsert_same;
use crate::smap::lower_bound;
use crate::smap::sorted_by_key;
use crate::text::lex_lt;
use crate::text::str_eq;
use crate::smap::lemma_lookup_or_value;
use crate::smap::lemma_upsert_values;
use crate::smap::lookup;
use crate::smap::lookup_or;
use crate::smap::put_entry;
use crate::smap::take_entry;
use crate::smap::upsert;
use crate::smap::TakenEntry;

verus! {

/// The description a node gets: the literal text of its documentation
/// annotations, concatenated with single spaces, in source order.
pub open spec fn docs_of(docs: Seq<String>) -> Seq<char> {
    joined(seq_view(docs), " "@)
}

/// The derived-capability names of a declaration: each derive argument
/// path, formatted by the path-naming rule.
pub open spec fn derive_names(ps: Seq<PathNode>) -> Seq<Seq<char>> {
    ps.map_values(|p: PathNode| path_name_spec(p))
}

/// The recorded image of a declared field; an unnamed field gets the
/// placeholder name.
pub open spec fn member_of(m: MemberNode) -> MemberV {
    MemberV {
        name: match m.name {
            Some(n) => n@,
            None => "<unnamed>"@,
        },
        member_type: type_name_spec(m.ty),
    }
}

/// The recorded images of a field list, in declaration order.
pub open spec fn members_of(ms: Seq<MemberNode>) -> Seq<MemberV> {
    ms.map_values(|m: MemberNode| member_of(m))
}

/// The recorded image of a parameter.
pub open spec fn param_of(p: ParamNode) -> ParameterV {
    ParameterV { name: p.name@, param_type: type_name_spec(p.ty) }
}

/// The recorded images of a parameter list, in declaration order.
pub open spec fn params_of(ps: Seq<ParamNode>) -> Seq<ParameterV> {
    ps.map_values(|p: ParamNode| param_of(p))
}

/// The recorded return-type name: the unit type's name when none was
/// declared.
pub open spec fn return_name(r: Option<TypeNode>) -> Seq<char> {
    match r {
        Some(t) => type_name_spec(t),
        None => "()"@,
    }
}

/// The recorded image of a function, with its own visibility marker.
pub open spec fn fn_of(f: FnNode) -> FunctionV {
    FunctionV {
        name: f.name@,
        parameters: params_of(f.params@),
        public: f.public,
        return_type: return_name(f.ret),
        description: docs_of(f.docs@),
    }
}

/// The recorded image of a function whose visibility is forced to
/// public: trait-level functions and trait-implementation methods.
pub open spec fn fn_public_of(f: FnNode) -> FunctionV {
    FunctionV {
        name: f.name@,
        parameters: params_of(f.params@),
        public: true,
        return_type: return_name(f.ret),
        description: docs_of(f.docs@),
    }
}

/// What a struct declaration records: fresh derive, member and
/// description data; implemented traits and functions start empty.
pub open spec fn struct_of(node: StructDecl) -> StructV {
    StructV {
        derives: derive_names(node.derives@),
        impl_traits: Seq::empty(),
        functions: Seq::empty(),
        members: members_of(node.members@),
        description: docs_of(node.docs@),
    }
}

/// What an enum declaration records.
pub open spec fn enum_of(node: EnumDecl) -> EnumV {
    EnumV {
        variants: seq_view(node.variants@),
        derives: derive_names(node.derives@),
        impl_traits: Seq::empty(),
        description: docs_of(node.docs@),
    }
}

/// What a trait declaration records; trait functions are implicitly
/// public.
pub open spec fn trait_of(node: TraitDecl) -> TraitV {
    TraitV {
        name: node.name@,
        functions: node.functions@.map_values(|f: FnNode| fn_public_of(f)),
        description: docs_of(node.docs@),
    }
}

/// Joins a node's documentation annotations into its description.
pub fn extract_doc_comment(docs: &Vec<String>) -> (r: String)
    ensures
        r@ == docs_of(docs@),
{
    join_strings(docs, " ")
}

/// Formats the derive argument paths of a declaration.
pub fn extract_derives(paths: &Vec<PathNode>) -> (r: Vec<String>)
    ensures
        seq_view(r@) == derive_names(paths@),
{
    let mut out: Vec<String> = Vec::new();
    let mut i: usize = 0;
    while i < paths.len()
        invariant
            i <= paths@.len(),
            seq_view(out@).len() == i,
            forall|j: int| 0 <= j < i ==> seq_view(out@)[j] == derive_names(paths@)[j],
        decreases paths@.len() - i,
    {
        let s = format_path(&paths[i]);
        out.push(s);
        i = i + 1;
    }
    proof {
        assert(seq_view(out@) =~= derive_names(paths@));
    }
    out
}

/// Records a field list; unnamed fields get the placeholder name.
pub fn extract_struct_members(members: &Vec<MemberNode>) -> (r: Vec<MemberInfo>)
    ensures
        seq_view(r@) == members_of(members@),
{
    let mut out: Vec<MemberInfo> = Vec::new();
    let mut i: usize = 0;
    while i < members.len()
        invariant
            i <= members@.len(),
            seq_view(out@).len() == i,
            forall|j: int| 0 <= j < i ==> seq_view(out@)[j] == members_of(members@)[j],
        decreases members@.len() - i,
    {
        let name: String = match &members[i].name {
            Some(n) => n.clone(),
            None => {
                let mut s = String::new();
                s.append("<unnamed>");
                s
            },
        };
        let member_type = get_type_name(&members[i].ty);
        out.push(MemberInfo { name, member_type });
        i = i + 1;
    }
    proof {
        assert(seq_view(out@) =~= members_of(members@));
    }
    out
}

/// Records a parameter list.
pub fn extract_function_params(params: &Vec<ParamNode>) -> (r: Vec<ParameterInfo>)
    ensures
        seq_view(r@) == params_of(params@),
{
    let mut out: Vec<ParameterInfo> = Vec::new();
    let mut i: usize = 0;
    while i < params.len()
        invariant
            i <= params@.len(),
            seq_view(out@).len() == i,
            forall|j: int| 0 <= j < i ==> seq_view(out@)[j] == params_of(params@)[j],
        decreases params@.len() - i,
    {
        let name = params[i].name.clone();
        let param_type = get_type_name(&params[i].ty);
        out.push(ParameterInfo { name, param_type });
        i = i + 1;
    }
    proof {
        assert(seq_view(out@) =~= params_of(params@));
    }
    out
}

/// Copies a list of names.
pub fn clone_strings(v: &Vec<String>) -> (r: Vec<String>)
    ensures
        seq_view(r@) == seq_view(v@),
{
    let mut out: Vec<String> = Vec::new();
    let mut i: usize = 0;
    while i < v.len()
        invariant
            i <= v@.len(),
            seq_view(out@).len() == i,
            forall|j: int| 0 <= j < i ==> seq_view(out@)[j] == seq_view(v@)[j],
        decreases v@.len() - i,
    {
        out.push(v[i].clone());
        i = i + 1;
    }
    proof {
        assert(seq_view(out@) =~= seq_view(v@));
    }
    out
}

/// Records a function, forcing it public when a trait contract makes
/// its visibility public regardless of the marker.
pub fn make_function_info(f: &FnNode, force_public: bool) -> (r: FunctionInfo)
    ensures
        force_public ==> r@ == fn_public_of(*f),
        !force_public ==> r@ == fn_of(*f),
{
    let name = f.name.clone();
    let parameters = extract_function_params(&f.params);
    let public = if force_public {
        true
    } else {
        f.public
    };
    let return_type: String = match &f.ret {
        Some(t) => get_type_name(t),
        None => {
            let mut s = String::new();
            s.append("()");
            s
        },
    };
    let description = extract_doc_comment(&f.docs);
    FunctionInfo { name, parameters, public, return_type, description }
}

/// A struct declaration inserts or overwrites the struct entry.
pub open spec fn module_with_struct(m: ModuleV, node: StructDecl) -> ModuleV {
    ModuleV { structs: upsert(m.structs, node.name@, struct_of(node)), ..m }
}

/// An enum declaration inserts or overwrites the enum entry.
pub open spec fn module_with_enum(m: ModuleV, node: EnumDecl) -> ModuleV {
    ModuleV { enums: upsert(m.enums, node.name@, enum_of(node)), ..m }
}

/// A trait declaration appends a trait entry; traits are not
/// deduplicated by name.
pub open spec fn module_with_trait(m: ModuleV, node: TraitDecl) -> ModuleV {
    ModuleV { traits: m.traits.push(trait_of(node)), ..m }
}

/// A submodule marker appends the submodule's name and overwrites the
/// module's own description with the marker's doc comment (last
/// writer wins).
pub open spec fn module_with_mod(m: ModuleV, node: ModDecl) -> ModuleV {
    ModuleV { submodules: m.submodules.push(node.name@), description: docs_of(node.docs@), ..m }
}

/// A function appended to a struct's owned functions.
pub open spec fn struct_with_fn(s: StructV, f: FunctionV) -> StructV {
    StructV { functions: s.functions.push(f), ..s }
}

/// A free function declaration appends to the module's function list;
/// one with a method receiver naming a struct also lands in that
/// struct's function list, creating the entry if need be.
pub open spec fn module_with_fn(m: ModuleV, node: FnDecl) -> ModuleV {
    ModuleV {
        functions: m.functions.push(fn_of(node.func)),
        structs: match node.receiver {
            Some(rn) => upsert(
                m.structs,
                rn@,
                struct_with_fn(lookup_or(m.structs, rn@, empty_struct()), fn_of(node.func)),
            ),
            None => m.structs,
        },
        ..m
    }
}

/// What an implementation block adds to its target struct: the trait's
/// formatted name if it implements one, and its methods — forced
/// public under a trait, keeping their own marker otherwise.
pub open spec fn impl_into_struct(s: StructV, node: ImplDecl) -> StructV {
    match node.trait_path {
        Some(p) => StructV {
            impl_traits: s.impl_traits.push(path_name_spec(p)),
            functions: s.functions + node.methods@.map_values(|f: FnNode| fn_public_of(f)),
            ..s
        },
        None => StructV {
            functions: s.functions + node.methods@.map_values(|f: FnNode| fn_of(f)),
            ..s
        },
    }
}

/// An implementation block whose target is a simple name merges into
/// that struct's entry, creating it retroactively when absent; any
/// other target is silently skipped.
pub open spec fn module_with_impl(m: ModuleV, node: ImplDecl) -> ModuleV {
    match node.target {
        Some(tn) => ModuleV {
            structs: upsert(
                m.structs,
                tn@,
                impl_into_struct(lookup_or(m.structs, tn@, empty_struct()), node),
            ),
            ..m
        },
        None => m,
    }
}

/// One declaration node's effect on the whole model.
pub open spec fn apply_decl(m: Seq<(Seq<char>, ModuleV)>, key: Seq<char>, d: Decl) -> Seq<
    (Seq<char>, ModuleV),
> {
    match d {
        Decl::Struct(node) => upsert(
            m,
            key,
            module_with_struct(lookup_or(m, key, empty_module()), node),
        ),
        Decl::Enum(node) => upsert(m, key, module_with_enum(lookup_or(m, key, empty_module()), node)),
        Decl::Trait(node) => upsert(
            m,
            key,
            module_with_trait(lookup_or(m, key, empty_module()), node),
        ),
        Decl::Fn(node) => upsert(m, key, module_with_fn(lookup_or(m, key, empty_module()), node)),
        Decl::Impl(node) => if node.target is Some {
            upsert(m, key, module_with_impl(lookup_or(m, key, empty_module()), node))
        } else {
            m
        },
        Decl::Mod(node) => upsert(m, key, module_with_mod(lookup_or(m, key, empty_module()), node)),
    }
}

/// The module-value predicate the model maintains.
pub open spec fn wf_value() -> spec_fn(ModuleV) -> bool {
    |mv: ModuleV| module_wf(mv)
}

impl ModulesVisitor {
    /// Detaches the entry for `module`, fresh and empty when absent.
    fn take_module(&mut self, module: &String) -> (r: TakenEntry<ModuleInfo>)
        requires
            old(self).wf(),
        ensures
            r.key@ == module@,
            r.value@ == lookup_or(old(self)@, module@, empty_module()),
            module_wf(r.value@),
            sorted_by_key(final(self)@),
            r.pos <= final(self).module_map@.len(),
            forall|i: int| 0 <= i < r.pos ==> lex_lt((#[trigger] final(self)@[i]).0, module@),
            r.pos < final(self)@.len() ==> lex_lt(module@, final(self)@[r.pos as int].0),
            lookup(old(self)@, module@) is Some ==> r.pos < old(self)@.len() && final(self)@
                == old(self)@.remove(r.pos as int) && old(self)@[r.pos as int].0 == module@,
            lookup(old(self)@, module@) is None ==> final(self)@ == old(self)@,
            forall|i: int|
                0 <= i < final(self)@.len() ==> module_wf((#[trigger] final(self)@[i]).1),
    {
        let ghost m0 = self@;
        let r = take_entry(&mut self.module_map, module.as_str(), ModuleInfo::empty());
        proof {
            lemma_lookup_or_value(m0, module@, empty_module(), wf_value());
            assert(wf_value()(r.value@));
            assert forall|i: int| 0 <= i < self@.len() implies module_wf(
                (#[trigger] self@[i]).1,
            ) by {
                let j = choose|j: int|
                    0 <= j < old(self).module_map@.len() && self.module_map@[i]
                        == old(self).module_map@[j];
                assert(m0[j] == (old(self).module_map@[j].0@, old(self).module_map@[j].1@));
                assert(self@[i] == m0[j]);
            }
        }
        r
    }

    /// Puts a module entry back; the model becomes exactly the
    /// insert-or-overwrite of that entry.
    fn put_module(&mut self, r: TakenEntry<ModuleInfo>, Ghost(m0): Ghost<Seq<(Seq<char>, ModuleV)>>)
        requires
            sorted_by_key(m0),
            forall|i: int| 0 <= i < m0.len() ==> module_wf((#[trigger] m0[i]).1),
            module_wf(r.value@),
            sorted_by_key(old(self)@),
            r.pos <= old(self).module_map@.len(),
            forall|i: int| 0 <= i < r.pos ==> lex_lt((#[trigger] old(self)@[i]).0, r.key@),
            r.pos < old(self)@.len() ==> lex_lt(r.key@, old(self)@[r.pos as int].0),
            lookup(m0, r.key@) is Some ==> r.pos < m0.len() && old(self)@ == m0.remove(
                r.pos as int,
            ) && m0[r.pos as int].0 == r.key@,
            lookup(m0, r.key@) is None ==> old(self)@ == m0,
        ensures
            final(self)@ == upsert(m0, r.key@, r.value@),
            final(self).wf(),
    {
        let ghost k = r.key@;
        let ghost v = r.value@;
        put_entry(&mut self.module_map, r, Ghost(m0));
        proof {
            lemma_upsert_values(m0, k, v, wf_value());
        }
    }

    /// Struct declaration: insert or overwrite the struct entry of the
    /// current module, capturing derives, members and description.
    pub fn visit_item_struct(&mut self, module: &String, node: &StructDecl)
        requires
            old(self).wf(),
        ensures
            final(self)@ == upsert(
                old(self)@,
                module@,
                module_with_struct(lookup_or(old(self)@, module@, empty_module()), *node),
            ),
            final(self).wf(),
    {
        let ghost m0 = self@;
        let mut tm = self.take_module(module);
        let ghost mv0 = tm.value@;
        let derives = extract_derives(&node.derives);
        let members = extract_struct_members(&node.members);
        let description = extract_doc_comment(&node.docs);
        let new_struct = StructInfo {
            derives,
            impl_traits: Vec::new(),
            functions: Vec::new(),
            members,
            description,
        };
        proof {
            assert(seq_view(new_struct.impl_traits@) =~= Seq::<Seq<char>>::empty());
            assert(seq_view(new_struct.functions@) =~= Seq::<FunctionV>::empty());
            assert(new_struct@ == struct_of(*node));
        }
        let ghost ss0 = entries_view(tm.value.structs@);
        let ts = take_entry(&mut tm.value.structs, node.name.as_str(), StructInfo::empty());
        let pos = ts.pos;
        let key = ts.key;
        put_entry(&mut tm.value.structs, TakenEntry { pos, key, value: new_struct }, Ghost(ss0));
        proof {
            assert(tm.value@ == module_with_struct(mv0, *node));
        }
        self.put_module(tm, Ghost(m0));
    }

    /// Enum declaration: insert or overwrite the enum entry, capturing
    /// variants, derives and description.
    pub fn visit_item_enum(&mut self, module: &String, node: &EnumDecl)
        requires
            old(self).wf(),
        ensures
            final(self)@ == upsert(
                old(self)@,
                module@,
                module_with_enum(lookup_or(old(self)@, module@, empty_module()), *node),
            ),
            final(self).wf(),
    {
        let ghost m0 = self@;
        let mut tm = self.take_module(module);
        let ghost mv0 = tm.value@;
        let variants = clone_strings(&node.variants);
        let derives = extract_derives(&node.derives);
        let description = extract_doc_comment(&node.docs);
        let new_enum = EnumInfo { variants, derives, impl_traits: Vec::new(), description };
        proof {
            assert(seq_view(new_enum.impl_traits@) =~= Seq::<Seq<char>>::empty());
            assert(new_enum@ == enum_of(*node));
        }
        let ghost es0 = entries_view(tm.value.enums@);
        let te = take_entry(&mut tm.value.enums, node.name.as_str(), EnumInfo::empty());
        let pos = te.pos;
        let key = te.key;
        put_entry(&mut tm.value.enums, TakenEntry { pos, key, value: new_enum }, Ghost(es0));
        proof {
            assert(tm.value@ == module_with_enum(mv0, *node));
        }
        self.put_module(tm, Ghost(m0));
    }

    /// Trait declaration: append a trait entry; its functions are
    /// implicitly public.
    pub fn visit_item_trait(&mut self, module: &String, node: &TraitDecl)
        requires
            old(self).wf(),
        ensures
            final(self)@ == upsert(
                old(self)@,
                module@,
                module_with_trait(lookup_or(old(self)@, module@, empty_module()), *node),
            ),
            final(self).wf(),
    {
        let ghost m0 = self@;
        let mut tm = self.take_module(module);
        let ghost mv0 = tm.value@;
        let name = node.name.clone();
        let mut functions: Vec<FunctionInfo> = Vec::new();
        let mut i: usize = 0;
        while i < node.functions.len()
            invariant
                i <= node.functions@.len(),
                seq_view(functions@).len() == i,
                forall|j: int|
                    0 <= j < i ==> seq_view(functions@)[j] == fn_public_of(
                        #[trigger] node.functions@[j],
                    ),
            decreases node.functions@.len() - i,
        {
            let fi = make_function_info(&node.functions[i], true);
            functions.push(fi);
            i = i + 1;
        }
        let description = extract_doc_comment(&node.docs);
        let trait_info = TraitInfo { name, functions, description };
        proof {
            assert(seq_view(trait_info.functions@) =~= node.functions@.map_values(
                |f: FnNode| fn_public_of(f),
            ));
            assert(trait_info@ == trait_of(*node));
            lemma_seq_view_push(tm.value.traits@, trait_info);
        }
        tm.value.traits.push(trait_info);
        proof {
            assert(tm.value@ == module_with_trait(mv0, *node));
        }
        self.put_module(tm, Ghost(m0));
    }

    /// Submodule marker: append the submodule name and overwrite the
    /// module's description with the marker's doc comment.
    pub fn visit_item_mod(&mut self, module: &String, node: &ModDecl)
        requires
            old(self).wf(),
        ensures
            final(self)@ == upsert(
                old(self)@,
                module@,
                module_with_mod(lookup_or(old(self)@, module@, empty_module()), *node),
            ),
            final(self).wf(),
    {
        let ghost m0 = self@;
        let mut tm = self.take_module(module);
        let ghost mv0 = tm.value@;
        proof {
            lemma_seq_view_push(tm.value.submodules@, node.name);
        }
        tm.value.submodules.push(node.name.clone());
        let d = extract_doc_comment(&node.docs);
        tm.value.description = d;
        proof {
            assert(seq_view(tm.value.submodules@) =~= mv0.submodules.push(node.name@));
            assert(tm.value@ == module_with_mod(mv0, *node));
        }
        self.put_module(tm, Ghost(m0));
    }

    /// Free function declaration: append to the module's functions;
    /// with a method receiver naming a struct, also to that struct's.
    pub fn visit_item_fn(&mut self, module: &String, node: &FnDecl)
        requires
            old(self).wf(),
        ensures
            final(self)@ == upsert(
                old(self)@,
                module@,
                module_with_fn(lookup_or(old(self)@, module@, empty_module()), *node),
            ),
            final(self).wf(),
    {
        let ghost m0 = self@;
        let mut tm = self.take_module(module);
        let ghost mv0 = tm.value@;
        let fi = make_function_info(&node.func, false);
        proof {
            lemma_seq_view_push(tm.value.functions@, fi);
        }
        tm.value.functions.push(fi);
        match &node.receiver {
            Some(rn) => {
                let ghost ss0 = entries_view(tm.value.structs@);
                let mut ts = take_entry(&mut tm.value.structs, rn.as_str(), StructInfo::empty());
                let ghost sv0 = ts.value@;
                let f2 = make_function_info(&node.func, false);
                proof {
                    lemma_seq_view_push(ts.value.functions@, f2);
                }
                ts.value.functions.push(f2);
                proof {
                    assert(ts.value@ == struct_with_fn(sv0, fn_of(node.func)));
                }
                put_entry(&mut tm.value.structs, ts, Ghost(ss0));
            },
            None => {},
        }
        proof {
            assert(seq_view(tm.value.functions@) =~= mv0.functions.push(fn_of(node.func)));
            assert(tm.value@ == module_with_fn(mv0, *node));
        }
        self.put_module(tm, Ghost(m0));
    }

    /// Implementation block: merge trait name and methods into the
    /// target struct's entry, creating it retroactively when absent.
    /// A target that is not a simple name is silently skipped.
    pub fn visit_item_impl(&mut self, module: &String, node: &ImplDecl)
        requires
            old(self).wf(),
        ensures
            node.target is Some ==> final(self)@ == upsert(
                old(self)@,
                module@,
                module_with_impl(lookup_or(old(self)@, module@, empty_module()), *node),
            ),
            node.target is None ==> final(self)@ == old(self)@,
            final(self).wf(),
    {
        match &node.target {
            None => {},
            Some(tname) => {
                let ghost m0 = self@;
                let trait_name: Option<String> = match &node.trait_path {
                    Some(p) => Some(format_path(p)),
                    None => None,
                };
                let is_trait: bool = match &trait_name {
                    Some(_) => true,
                    None => false,
                };
                let mut new_fns: Vec<FunctionInfo> = Vec::new();
                let mut i: usize = 0;
                while i < node.methods.len()
                    invariant
                        i <= node.methods@.len(),
                        is_trait == (node.trait_path is Some),
                        seq_view(new_fns@).len() == i,
                        forall|j: int|
                            0 <= j < i ==> seq_view(new_fns@)[j] == (if is_trait {
                                fn_public_of(#[trigger] node.methods@[j])
                            } else {
                                fn_of(node.methods@[j])
                            }),
                    decreases node.methods@.len() - i,
                {
                    let fi = make_function_info(&node.methods[i], is_trait);
                    new_fns.push(fi);
                    i = i + 1;
                }
                let mut tm = self.take_module(module);
                let ghost mv0 = tm.value@;
                let ghost ss0 = entries_view(tm.value.structs@);
                let mut ts = take_entry(&mut tm.value.structs, tname.as_str(), StructInfo::empty());
                let ghost sv0 = ts.value@;
                match trait_name {
                    Some(tn) => {
                        proof {
                            lemma_seq_view_push(ts.value.impl_traits@, tn);
                        }
                        ts.value.impl_traits.push(tn);
                    },
                    None => {},
                }
                let ghost fns_mid = ts.value.functions@;
                let ghost added = new_fns@;
                ts.value.functions.append(&mut new_fns);
                proof {
                    assert(ts.value.functions@ == fns_mid + added);
                    assert(seq_view(fns_mid + added) =~= seq_view(fns_mid) + seq_view(added));
                }
                proof {
                    assert(seq_view(ts.value.functions@) =~= sv0.functions
                        + node.methods@.map_values(
                        |f: FnNode| if node.trait_path is Some {
                            fn_public_of(f)
                        } else {
                            fn_of(f)
                        },
                    ));
                    if node.trait_path is Some {
                        assert(node.methods@.map_values(
                            |f: FnNode| if node.trait_path is Some {
                                fn_public_of(f)
                            } else {
                                fn_of(f)
                            },
                        ) =~= node.methods@.map_values(|f: FnNode| fn_public_of(f)));
                    } else {
                        assert(node.methods@.map_values(
                            |f: FnNode| if node.trait_path is Some {
                                fn_public_of(f)
                            } else {
                                fn_of(f)
                            },
                        ) =~= node.methods@.map_values(|f: FnNode| fn_of(f)));
                    }
                    assert(ts.value@ == impl_into_struct(sv0, *node));
                }
                put_entry(&mut tm.value.structs, ts, Ghost(ss0));
                proof {
                    assert(tm.value@ == module_with_impl(mv0, *node));
                }
                self.put_module(tm, Ghost(m0));
            },
        }
    }

    /// Dispatches one declaration node to its visitation rule.
    pub fn visit_decl(&mut self, module: &String, d: &Decl)
        requires
            old(self).wf(),
        ensures
            final(self)@ == apply_decl(old(self)@, module@, *d),
            final(self).wf(),
    {
        match d {
            Decl::Struct(node) => self.visit_item_struct(module, node),
            Decl::Enum(node) => self.visit_item_enum(module, node),
            Decl::Trait(node) => self.visit_item_trait(module, node),
            Decl::Fn(node) => self.visit_item_fn(module, node),
            Decl::Impl(node) => self.visit_item_impl(module, node),
            Decl::Mod(node) => self.visit_item_mod(module, node),
        }
    }
}

/// The first `n` declaration nodes applied in order.
pub open spec fn apply_decls_prefix(
    m: Seq<(Seq<char>, ModuleV)>,
    key: Seq<char>,
    ds: Seq<Decl>,
    n: int,
) -> Seq<(Seq<char>, ModuleV)>
    decreases n,
{
    if n <= 0 {
        m
    } else {
        apply_decl(apply_decls_prefix(m, key, ds, n - 1), key, ds[n - 1])
    }
}

/// A whole file's declaration nodes applied in order.
pub open spec fn apply_decls(
    m: Seq<(Seq<char>, ModuleV)>,
    key: Seq<char>,
    ds: Seq<Decl>,
) -> Seq<(Seq<char>, ModuleV)> {
    apply_decls_prefix(m, key, ds, ds.len() as int)
}

/// Processes a file's declaration nodes under the qualified module
/// name the file represents, and reports back the submodule names the
/// module's entry now carries, so the caller can resolve and recurse
/// into them.
pub fn analyze_file(decls: &Vec<Decl>, module_name: &String, visitor: &mut ModulesVisitor) -> (subs:
    Vec<String>)
    requires
        old(visitor).wf(),
    ensures
        final(visitor)@ == apply_decls(old(visitor)@, module_name@, decls@),
        final(visitor).wf(),
        seq_view(subs@) == lookup_or(final(visitor)@, module_name@, empty_module()).submodules,
{
    let mut i: usize = 0;
    while i < decls.len()
        invariant
            visitor.wf(),
            i <= decls@.len(),
            visitor@ == apply_decls_prefix(old(visitor)@, module_name@, decls@, i as int),
        decreases decls@.len() - i,
    {
        visitor.visit_decl(module_name, &decls[i]);
        i = i + 1;
    }
    let pos = lower_bound(&visitor.module_map, module_name.as_str());
    if pos < visitor.module_map.len() && str_eq(
        visitor.module_map[pos].0.as_str(),
        module_name.as_str(),
    ) {
        proof {
            lemma_lookup_present(visitor@, module_name@, pos as int);
        }
        clone_strings(&visitor.module_map[pos].1.submodules)
    } else {
        proof {
            lemma_lower_bound_absent(visitor@, module_name@, pos as int);
        }
        let subs: Vec<String> = Vec::new();
        proof {
            assert(seq_view(subs@) =~= Seq::<Seq<char>>::empty());
        }
        subs
    }
}

/// Processing the same struct declaration twice for the same module
/// key leaves exactly the model that processing it once leaves: the
/// struct entry is overwritten, not duplicated.
pub proof fn lemma_struct_redeclaration_idempotent(
    m: Seq<(Seq<char>, ModuleV)>,
    key: Seq<char>,
    node: StructDecl,
)
    requires
        map_wf(m),
    ensures
        apply_decl(apply_decl(m, key, Decl::Struct(node)), key, Decl::Struct(node)) == apply_decl(
            m,
            key,
            Decl::Struct(node),
        ),
{
    let mv0 = lookup_or(m, key, empty_module());
    let v1 = module_with_struct(mv0, node);
    let m1 = upsert(m, key, v1);
    lemma_lookup_upsert(m, key, v1, key);
    assert(lookup_or(m1, key, empty_module()) == v1);
    let v2 = module_with_struct(v1, node);
    lemma_upsert_upsert_same(mv0.structs, node.name@, struct_of(node), struct_of(node));
    assert(v2 == v1);
    lemma_upsert_upsert_same(m, key, v1, v2);
}

} // verus!

