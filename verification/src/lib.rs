//! Builds a structural model of a source tree's modules, types and
//! callable members from a stream of declaration nodes, and renders
//! the finished model as a nested package/class diagram.
//!
//! An external parser reduces each source file to the declaration
//! nodes of [`decl`]; the model builder in [`builder`] folds them into
//! the name-keyed model of [`model`], and the renderer in [`render`]
//! turns the finished model into diagram text.  The signature
//! formatter in [`sig`] and the character-sequence utilities in
//! [`text`] and [`smap`] serve both.
pub mod text;
pub mod smap;
pub mod decl;
pub mod model;
pub mod sig;
pub mod builder;
pub mod render;
