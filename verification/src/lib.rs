use vstd::prelude::*;

pub mod bot;
pub mod commands;
pub mod text;
pub mod text_facts;
pub mod utility;
pub mod parse;
pub mod parser;

verus! {
} // verus!
