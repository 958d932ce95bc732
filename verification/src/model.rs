//! The declaration model: a single in-memory description of every
//! module seen so far, keyed by qualified module name.  Name-keyed
//! containers are kept sorted by key so that iteration is
//! deterministic; everything else keeps insertion order.
use vstd::prelude::*;

use crate::smap::entries_view;
use crate::smap::sorted_by_key;

verus! {

/// View of a sequence of viewable values.
pub open spec fn seq_view<T: View>(s: Seq<T>) -> Seq<T::V> {
    s.map_values(|x: T| x@)
}

/// Appending to a vector appends its element's view to the sequence of
/// views.
pub proof fn lemma_seq_view_push<T: View>(s: Seq<T>, x: T)
    ensures
        seq_view(s.push(x)) =~= seq_view(s).push(x@),
{
}

/// A function parameter: name and normalized type name.
pub struct ParameterInfo {
    pub name: String,
    pub param_type: String,
}

/// Mathematical image of a `ParameterInfo`.
pub struct ParameterV {
    pub name: Seq<char>,
    pub param_type: Seq<char>,
}

impl View for ParameterInfo {
    type V = ParameterV;

    open spec fn view(&self) -> ParameterV {
        ParameterV { name: self.name@, param_type: self.param_type@ }
    }
}

/// A struct field: name (or the placeholder for unnamed fields) and
/// normalized type name.
pub struct MemberInfo {
    pub name: String,
    pub member_type: String,
}

/// Mathematical image of a `MemberInfo`.
pub struct MemberV {
    pub name: Seq<char>,
    pub member_type: Seq<char>,
}

impl View for MemberInfo {
    type V = MemberV;

    open spec fn view(&self) -> MemberV {
        MemberV { name: self.name@, member_type: self.member_type@ }
    }
}

/// A callable member: free function, method, or trait function.
pub struct FunctionInfo {
    pub name: String,
    pub parameters: Vec<ParameterInfo>,
    pub public: bool,
    pub return_type: String,
    pub description: String,
}

/// Mathematical image of a `FunctionInfo`.
pub struct FunctionV {
    pub name: Seq<char>,
    pub parameters: Seq<ParameterV>,
    pub public: bool,
    pub return_type: Seq<char>,
    pub description: Seq<char>,
}

impl View for FunctionInfo {
    type V = FunctionV;

    open spec fn view(&self) -> FunctionV {
        FunctionV {
            name: self.name@,
            parameters: seq_view(self.parameters@),
            public: self.public,
            return_type: self.return_type@,
            description: self.description@,
        }
    }
}

/// A declared trait with its function signatures.
pub struct TraitInfo {
    pub name: String,
    pub functions: Vec<FunctionInfo>,
    pub description: String,
}

/// Mathematical image of a `TraitInfo`.
pub struct TraitV {
    pub name: Seq<char>,
    pub functions: Seq<FunctionV>,
    pub description: Seq<char>,
}

impl View for TraitInfo {
    type V = TraitV;

    open spec fn view(&self) -> TraitV {
        TraitV {
            name: self.name@,
            functions: seq_view(self.functions@),
            description: self.description@,
        }
    }
}

/// A declared struct: derives, implemented traits, owned functions and
/// members, all in encounter order.
pub struct StructInfo {
    pub derives: Vec<String>,
    pub impl_traits: Vec<String>,
    pub functions: Vec<FunctionInfo>,
    pub members: Vec<MemberInfo>,
    pub description: String,
}

/// Mathematical image of a `StructInfo`.
pub struct StructV {
    pub derives: Seq<Seq<char>>,
    pub impl_traits: Seq<Seq<char>>,
    pub functions: Seq<FunctionV>,
    pub members: Seq<MemberV>,
    pub description: Seq<char>,
}

impl View for StructInfo {
    type V = StructV;

    open spec fn view(&self) -> StructV {
        StructV {
            derives: seq_view(self.derives@),
            impl_traits: seq_view(self.impl_traits@),
            functions: seq_view(self.functions@),
            members: seq_view(self.members@),
            description: self.description@,
        }
    }
}

/// The value of a struct entry before anything was recorded in it.
pub open spec fn empty_struct() -> StructV {
    StructV {
        derives: Seq::empty(),
        impl_traits: Seq::empty(),
        functions: Seq::empty(),
        members: Seq::empty(),
        description: Seq::empty(),
    }
}

impl StructInfo {
    /// A struct entry with nothing recorded yet, as an implementation
    /// block creates one retroactively.
    pub fn empty() -> (r: StructInfo)
        ensures
            r@ == empty_struct(),
    {
        let r = StructInfo {
            derives: Vec::new(),
            impl_traits: Vec::new(),
            functions: Vec::new(),
            members: Vec::new(),
            description: String::new(),
        };
        proof {
            assert(seq_view(r.derives@) =~= Seq::<Seq<char>>::empty());
            assert(seq_view(r.impl_traits@) =~= Seq::<Seq<char>>::empty());
            assert(seq_view(r.functions@) =~= Seq::<FunctionV>::empty());
            assert(seq_view(r.members@) =~= Seq::<MemberV>::empty());
        }
        r
    }
}

/// A declared enum: its variant names, derives and implemented traits.
pub struct EnumInfo {
    pub variants: Vec<String>,
    pub derives: Vec<String>,
    pub impl_traits: Vec<String>,
    pub description: String,
}

/// Mathematical image of an `EnumInfo`.
pub struct EnumV {
    pub variants: Seq<Seq<char>>,
    pub derives: Seq<Seq<char>>,
    pub impl_traits: Seq<Seq<char>>,
    pub description: Seq<char>,
}

impl View for EnumInfo {
    type V = EnumV;

    open spec fn view(&self) -> EnumV {
        EnumV {
            variants: seq_view(self.variants@),
            derives: seq_view(self.derives@),
            impl_traits: seq_view(self.impl_traits@),
            description: self.description@,
        }
    }
}

/// The value of an enum entry before anything was recorded in it.
pub open spec fn empty_enum() -> EnumV {
    EnumV {
        variants: Seq::empty(),
        derives: Seq::empty(),
        impl_traits: Seq::empty(),
        description: Seq::empty(),
    }
}

impl EnumInfo {
    /// An enum entry with nothing recorded yet.
    pub fn empty() -> (r: EnumInfo)
        ensures
            r@ == empty_enum(),
    {
        let r = EnumInfo {
            variants: Vec::new(),
            derives: Vec::new(),
            impl_traits: Vec::new(),
            description: String::new(),
        };
        proof {
            assert(seq_view(r.variants@) =~= Seq::<Seq<char>>::empty());
            assert(seq_view(r.derives@) =~= Seq::<Seq<char>>::empty());
            assert(seq_view(r.impl_traits@) =~= Seq::<Seq<char>>::empty());
        }
        r
    }
}

/// Everything recorded about one module.  `structs` and `enums` are
/// keyed by name and sorted; `traits`, `submodules` and `functions`
/// keep insertion order.
pub struct ModuleInfo {
    pub structs: Vec<(String, StructInfo)>,
    pub enums: Vec<(String, EnumInfo)>,
    pub traits: Vec<TraitInfo>,
    pub submodules: Vec<String>,
    pub functions: Vec<FunctionInfo>,
    pub description: String,
}

/// Mathematical image of a `ModuleInfo`.
pub struct ModuleV {
    pub structs: Seq<(Seq<char>, StructV)>,
    pub enums: Seq<(Seq<char>, EnumV)>,
    pub traits: Seq<TraitV>,
    pub submodules: Seq<Seq<char>>,
    pub functions: Seq<FunctionV>,
    pub description: Seq<char>,
}

impl View for ModuleInfo {
    type V = ModuleV;

    open spec fn view(&self) -> ModuleV {
        ModuleV {
            structs: entries_view(self.structs@),
            enums: entries_view(self.enums@),
            traits: seq_view(self.traits@),
            submodules: seq_view(self.submodules@),
            functions: seq_view(self.functions@),
            description: self.description@,
        }
    }
}

/// The value of a module entry before anything was recorded in it.
pub open spec fn empty_module() -> ModuleV {
    ModuleV {
        structs: Seq::empty(),
        enums: Seq::empty(),
        traits: Seq::empty(),
        submodules: Seq::empty(),
        functions: Seq::empty(),
        description: Seq::empty(),
    }
}

impl ModuleInfo {
    /// A module entry with nothing recorded yet.
    pub fn empty() -> (r: ModuleInfo)
        ensures
            r@ == empty_module(),
    {
        let r = ModuleInfo {
            structs: Vec::new(),
            enums: Vec::new(),
            traits: Vec::new(),
            submodules: Vec::new(),
            functions: Vec::new(),
            description: String::new(),
        };
        proof {
            assert(entries_view(r.structs@) =~= Seq::<(Seq<char>, StructV)>::empty());
            assert(entries_view(r.enums@) =~= Seq::<(Seq<char>, EnumV)>::empty());
            assert(seq_view(r.traits@) =~= Seq::<TraitV>::empty());
            assert(seq_view(r.submodules@) =~= Seq::<Seq<char>>::empty());
            assert(seq_view(r.functions@) =~= Seq::<FunctionV>::empty());
        }
        r
    }
}

/// A module is well formed when its name-keyed containers are sorted.
pub open spec fn module_wf(m: ModuleV) -> bool {
    sorted_by_key(m.structs) && sorted_by_key(m.enums)
}

/// The whole model is well formed when the module map is sorted and
/// every module is.
pub open spec fn map_wf(s: Seq<(Seq<char>, ModuleV)>) -> bool {
    sorted_by_key(s) && forall|i: int| 0 <= i < s.len() ==> module_wf((#[trigger] s[i]).1)
}

/// The shared model: every module seen so far, keyed by qualified
/// module name.
pub struct ModulesVisitor {
    pub module_map: Vec<(String, ModuleInfo)>,
}

impl View for ModulesVisitor {
    type V = Seq<(Seq<char>, ModuleV)>;

    open spec fn view(&self) -> Seq<(Seq<char>, ModuleV)> {
        entries_view(self.module_map@)
    }
}

impl ModulesVisitor {
    pub open spec fn wf(&self) -> bool {
        map_wf(self@)
    }

    /// An empty model.
    pub fn new() -> (r: ModulesVisitor)
        ensures
            r@ == Seq::<(Seq<char>, ModuleV)>::empty(),
            r.wf(),
    {
        let r = ModulesVisitor { module_map: Vec::new() };
        proof {
            assert(entries_view(r.module_map@) =~= Seq::<(Seq<char>, ModuleV)>::empty());
        }
        r
    }
}

} // verus!
