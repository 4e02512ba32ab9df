use vstd::prelude::*;

pub mod config;
pub mod text;
pub mod replace;
pub mod num;
pub mod pattern;
pub mod err;
pub mod condition;
pub mod op;
pub mod sort;
pub mod trim;
pub mod reg;
pub mod gen;
pub mod pipeline;
pub mod grammar;
pub mod command;
pub mod args;
pub mod pipe;
pub mod stream;

verus! {

} // verus!
