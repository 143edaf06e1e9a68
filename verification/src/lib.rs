use vstd::prelude::*;

pub mod associativity;
pub mod backend;
pub mod builtins;
pub mod compile;
pub mod environment;
pub mod error;
pub mod exprstmt;
pub mod frontend;
pub mod indexing;
pub mod located;
pub mod middle;
pub mod printing;
pub mod text;

verus! {

} // verus!
