//! A two-pass assembler for a small 8-bit accumulator machine.
//!
//! The first pass (`parser`) reads source lines, sorts each into a category,
//! classifies its operands, and records each label with the address it
//! stands at. The second pass (`code`) turns each instruction into one or two
//! opcode bytes, written as upper-case hexadecimal text, one line each.
use vstd::prelude::*;

pub mod text;
pub mod instruction;
pub mod symbols;
pub mod parser;
pub mod code;
pub mod pipeline;
pub mod laws;

verus! {

} // verus!
