use vstd::prelude::*;
use crate::code::{assemble, spec_assemble, EncodeError};
use crate::parser::{line_bytes, parse, spec_pass, ParseError};
use crate::symbols::SymbolTable;

verus! {

/// Why a source could not be assembled.
#[derive(Debug, Clone, Copy, PartialEq, Eq, Structural)]
pub enum AsmError {
    Parse(ParseError),
    Encode(EncodeError),
}

/// Both passes over `lines`, starting from an empty table.
pub open spec fn spec_assemble_source(lines: Seq<Seq<u8>>) -> Result<Seq<u8>, AsmError> {
    match spec_pass(lines, Map::empty()) {
        Err(e) => Err(AsmError::Parse(e)),
        Ok(st) => match spec_assemble(st.prog, st.symbols) {
            Ok(out) => Ok(out),
            Err(e) => Err(AsmError::Encode(e)),
        },
    }
}

/// Assembles a whole source into its output text. Nothing is produced unless
/// every line is taken in and every instruction encoded.
pub fn assemble_source(lines: &Vec<String>) -> (r: Result<Vec<u8>, AsmError>)
    ensures
        match spec_assemble_source(line_bytes(lines@)) {
            Ok(out) => r is Ok && r->Ok_0@ == out,
            Err(e) => r == Err::<Vec<u8>, AsmError>(e),
        },
{
    let mut symbol_table = SymbolTable::new();
    match parse(lines, &mut symbol_table) {
        Ok(prog) => match assemble(&prog, &symbol_table) {
            Ok(out) => Ok(out),
            Err(e) => Err(AsmError::Encode(e)),
        },
        Err(e) => Err(AsmError::Parse(e)),
    }
}

} // verus!
