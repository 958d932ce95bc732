//! The closed vocabulary of declaration nodes the model builder
//! consumes.  An external parser reduces each source file to a sequence
//! of these nodes; the builder recognizes nothing else.  Unsupported
//! shapes never reach the builder as nodes, or reach it with the parts
//! it reads left empty, and are silently skipped.
use vstd::prelude::*;

verus! {

/// A declared type, reduced to the shapes the type-name normalization
/// distinguishes: plain paths, references, tuples, slices, and a
/// catch-all literal rendering for everything else.
pub enum TypeNode {
    /// A path type, carried as its literal printed form.
    Path(String),
    /// A reference; only the pointee matters.
    Reference(Box<TypeNode>),
    /// A tuple of element types.
    Tuple(Vec<TypeNode>),
    /// A slice of an element type.
    Slice(Box<TypeNode>),
    /// Any other shape, carried as its literal printed form.
    Other(String),
}

/// One segment of a dotted capability/trait path.
pub struct PathSegmentNode {
    pub name: String,
    /// The segment carries a generic-argument list.
    pub has_args: bool,
}

/// A capability or trait path, as a derive argument or an implemented
/// trait names one.
pub struct PathNode {
    pub segments: Vec<PathSegmentNode>,
}

/// A typed, named function parameter.  Parameters of any other shape
/// are dropped by the parser and never appear.
pub struct ParamNode {
    pub name: String,
    pub ty: TypeNode,
}

/// A declared field; `name` is `None` for an unnamed field.
pub struct MemberNode {
    pub name: Option<String>,
    pub ty: TypeNode,
}

/// A function signature with its documentation: free functions,
/// methods of implementation blocks, and trait-level functions all
/// take this shape.
pub struct FnNode {
    pub name: String,
    pub docs: Vec<String>,
    pub public: bool,
    pub params: Vec<ParamNode>,
    /// `None` stands for the unit return type.
    pub ret: Option<TypeNode>,
}

/// A struct declaration.
pub struct StructDecl {
    pub name: String,
    pub docs: Vec<String>,
    /// The argument paths of its derive-style attributes, in order.
    pub derives: Vec<PathNode>,
    pub members: Vec<MemberNode>,
}

/// An enum declaration.
pub struct EnumDecl {
    pub name: String,
    pub docs: Vec<String>,
    pub derives: Vec<PathNode>,
    pub variants: Vec<String>,
}

/// A trait declaration with its function signatures.
pub struct TraitDecl {
    pub name: String,
    pub docs: Vec<String>,
    pub functions: Vec<FnNode>,
}

/// A free function declaration; `receiver` names the declared type of a
/// method receiver when the function has one that resolves to a simple
/// name.
pub struct FnDecl {
    pub func: FnNode,
    pub receiver: Option<String>,
}

/// An implementation block.  `target` is the simple name of the type
/// the block is for, when the type is a simple name at all; `trait_path`
/// is the implemented trait, if the block implements one.
pub struct ImplDecl {
    pub target: Option<String>,
    pub trait_path: Option<PathNode>,
    pub methods: Vec<FnNode>,
}

/// A submodule marker with the doc comment attached to it.
pub struct ModDecl {
    pub name: String,
    pub docs: Vec<String>,
}

/// One declaration node, as the builder dispatches on it.
pub enum Decl {
    Struct(StructDecl),
    Enum(EnumDecl),
    Trait(TraitDecl),
    Fn(FnDecl),
    Impl(ImplDecl),
    Mod(ModDecl),
}

} // verus!
