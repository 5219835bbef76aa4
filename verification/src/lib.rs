use vstd::prelude::*;

pub mod app;
pub mod config;
pub mod extract;
pub mod minify;
pub mod order;
pub mod paths;
pub mod scan;
pub mod text;
pub mod tree;
pub mod tree_text;

verus! {

} // verus!
