//! Core of a desktop editor for a static-site project: a frontmatter
//! document codec with a proved round-trip law, a registry that supervises
//! spawned generator processes, and a content-entity layer over the codec.

pub mod error;
pub mod hexo;
pub mod markdown;
pub mod meta;
pub mod text;

use vstd::prelude::*;

verus! {

} // verus!
