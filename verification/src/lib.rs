use vstd::prelude::*;

pub mod ast;
pub mod css;
pub mod plugins;
pub mod refs;
pub mod registry;
pub mod runner;
pub mod text;
pub mod pattern;
pub mod walk;

verus! {
} // verus!
