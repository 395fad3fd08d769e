//! A small stack machine: a compiler from classified symbols to an
//! instruction list, a label resolver, and an interpreter whose decisions are
//! verified while floating-point work and I/O are delegated to its driver.
use vstd::prelude::*;

pub mod error;
pub mod program;
pub mod stackfk_vm;
pub mod tokenizer;
pub mod text;

verus! {

} // verus!
