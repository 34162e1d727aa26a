//! A mutable, shareable tree of typed parameter values.
//!
//! The tree is held in an arena: every node lives in one slot, and a handle
//! names a slot, so any number of handles may alias one node and a mutation
//! through one is observed through all.  Struct nodes are indexed by 40-bit
//! hash keys whose display form is resolved through a label registry.  The
//! whole tree converts losslessly to and from an immutable shape that a
//! binary codec consumes.

pub mod arena;
pub mod convert;
pub mod errors;
pub mod hash;
pub mod iter;
pub mod labels;
pub mod laws;
pub mod render;
pub mod text;
pub mod tree;
pub mod value;
