use vstd::prelude::*;

pub mod json;
pub mod text;
pub mod types;
pub mod table;
pub mod sys;
pub mod registry;
pub mod builder;
pub mod plugin;
pub mod client;

verus! {
} // verus!
