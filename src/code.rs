use vstd::prelude::*;
use crate::instruction::{Instruction, InstructionKind, InstructionView, OperandA, OperandAView, OperandB};
use crate::parser::views;
use crate::symbols::SymbolTable;
use crate::text::bytes_of;

verus! {

/// Why an instruction could not be encoded.
#[derive(Debug, Clone, Copy, PartialEq, Eq, Structural)]
pub enum EncodeError {
    /// The mnemonic is not in its category's table.
    UnknownMnemonic,
    /// A branch names a label that the table does not hold.
    MissingSymbol,
    /// The operands do not fit the category.
    Malformed,
}

/// Base opcodes of data transfer, arithmetic and logic:
/// `LD` 60, `ST` 70, `ADD` B0, `ADC` 90, `SUB` A0, `SBC` 80, `CMP` F0,
/// `AND` E0, `OR` D0, `EOR` C0.
pub open spec fn spec_mal_base(m: Seq<u8>) -> Option<u8> {
    if m == seq![0x4Cu8, 0x44] {
        Some(0x60u8)
    } else if m == seq![0x53u8, 0x54] {
        Some(0x70u8)
    } else if m == seq![0x41u8, 0x44, 0x44] {
        Some(0xB0u8)
    } else if m == seq![0x41u8, 0x44, 0x43] {
        Some(0x90u8)
    } else if m == seq![0x53u8, 0x55, 0x42] {
        Some(0xA0u8)
    } else if m == seq![0x53u8, 0x42, 0x43] {
        Some(0x80u8)
    } else if m == seq![0x43u8, 0x4D, 0x50] {
        Some(0xF0u8)
    } else if m == seq![0x41u8, 0x4E, 0x44] {
        Some(0xE0u8)
    } else if m == seq![0x4Fu8, 0x52] {
        Some(0xD0u8)
    } else if m == seq![0x45u8, 0x4F, 0x52] {
        Some(0xC0u8)
    } else {
        None
    }
}

/// Control opcodes: `NOP` 00, `HLT` 0F, `OUT` 10, `IN` 1F, `RCF` 20, `SCF` 2F.
pub open spec fn spec_ctrl_code(m: Seq<u8>) -> Option<u8> {
    if m == seq![0x4Eu8, 0x4F, 0x50] {
        Some(0x00u8)
    } else if m == seq![0x48u8, 0x4C, 0x54] {
        Some(0x0Fu8)
    } else if m == seq![0x4Fu8, 0x55, 0x54] {
        Some(0x10u8)
    } else if m == seq![0x49u8, 0x4E] {
        Some(0x1Fu8)
    } else if m == seq![0x52u8, 0x43, 0x46] {
        Some(0x20u8)
    } else if m == seq![0x53u8, 0x43, 0x46] {
        Some(0x2Fu8)
    } else {
        None
    }
}

/// Shift modes: `RA` 0, `LA` 1, `RL` 2, `LL` 3.
pub open spec fn spec_shift_mode(m: Seq<u8>) -> Option<u8> {
    if m == seq![0x52u8, 0x41] {
        Some(0u8)
    } else if m == seq![0x4Cu8, 0x41] {
        Some(1u8)
    } else if m == seq![0x52u8, 0x4C] {
        Some(2u8)
    } else if m == seq![0x4Cu8, 0x4C] {
        Some(3u8)
    } else {
        None
    }
}

/// Branch conditions: `A` 0, `NZ` 1, `ZP` 2, `P` 3, `NI` 4, `NC` 5, `GE` 6,
/// `GT` 7, `VF` 8, `Z` 9, `N` A, `ZN` B, `NO` C, `C` D, `LT` E, `LE` F.
pub open spec fn spec_branch_cond(m: Seq<u8>) -> Option<u8> {
    if m == seq![0x41u8] {
        Some(0x0u8)
    } else if m == seq![0x4Eu8, 0x5A] {
        Some(0x1u8)
    } else if m == seq![0x5Au8, 0x50] {
        Some(0x2u8)
    } else if m == seq![0x50u8] {
        Some(0x3u8)
    } else if m == seq![0x4Eu8, 0x49] {
        Some(0x4u8)
    } else if m == seq![0x4Eu8, 0x43] {
        Some(0x5u8)
    } else if m == seq![0x47u8, 0x45] {
        Some(0x6u8)
    } else if m == seq![0x47u8, 0x54] {
        Some(0x7u8)
    } else if m == seq![0x56u8, 0x46] {
        Some(0x8u8)
    } else if m == seq![0x5Au8] {
        Some(0x9u8)
    } else if m == seq![0x4Eu8] {
        Some(0xAu8)
    } else if m == seq![0x5Au8, 0x4E] {
        Some(0xBu8)
    } else if m == seq![0x4Eu8, 0x4F] {
        Some(0xCu8)
    } else if m == seq![0x43u8] {
        Some(0xDu8)
    } else if m == seq![0x4Cu8, 0x54] {
        Some(0xEu8)
    } else if m == seq![0x4Cu8, 0x45] {
        Some(0xFu8)
    } else {
        None
    }
}

fn is1(m: &[u8], a: u8) -> (r: bool)
    ensures
        r == (m@ == seq![a]),
{
    let r = m.len() == 1 && m[0] == a;
    if r {
        assert(m@ =~= seq![a]);
    }
    r
}

fn is2(m: &[u8], a: u8, b: u8) -> (r: bool)
    ensures
        r == (m@ == seq![a, b]),
{
    let r = m.len() == 2 && m[0] == a && m[1] == b;
    if r {
        assert(m@ =~= seq![a, b]);
    }
    r
}

fn is3(m: &[u8], a: u8, b: u8, c: u8) -> (r: bool)
    ensures
        r == (m@ == seq![a, b, c]),
{
    let r = m.len() == 3 && m[0] == a && m[1] == b && m[2] == c;
    if r {
        assert(m@ =~= seq![a, b, c]);
    }
    r
}

fn mal_base(m: &[u8]) -> (r: Option<u8>)
    ensures
        r == spec_mal_base(m@),
{
    if is2(m, 0x4C, 0x44) {
        Some(0x60)
    } else if is2(m, 0x53, 0x54) {
        Some(0x70)
    } else if is3(m, 0x41, 0x44, 0x44) {
        Some(0xB0)
    } else if is3(m, 0x41, 0x44, 0x43) {
        Some(0x90)
    } else if is3(m, 0x53, 0x55, 0x42) {
        Some(0xA0)
    } else if is3(m, 0x53, 0x42, 0x43) {
        Some(0x80)
    } else if is3(m, 0x43, 0x4D, 0x50) {
        Some(0xF0)
    } else if is3(m, 0x41, 0x4E, 0x44) {
        Some(0xE0)
    } else if is2(m, 0x4F, 0x52) {
        Some(0xD0)
    } else if is3(m, 0x45, 0x4F, 0x52) {
        Some(0xC0)
    } else {
        None
    }
}

fn ctrl_code(m: &[u8]) -> (r: Option<u8>)
    ensures
        r == spec_ctrl_code(m@),
{
    if is3(m, 0x4E, 0x4F, 0x50) {
        Some(0x00)
    } else if is3(m, 0x48, 0x4C, 0x54) {
        Some(0x0F)
    } else if is3(m, 0x4F, 0x55, 0x54) {
        Some(0x10)
    } else if is2(m, 0x49, 0x4E) {
        Some(0x1F)
    } else if is3(m, 0x52, 0x43, 0x46) {
        Some(0x20)
    } else if is3(m, 0x53, 0x43, 0x46) {
        Some(0x2F)
    } else {
        None
    }
}

fn shift_mode(m: &[u8]) -> (r: Option<u8>)
    ensures
        r == spec_shift_mode(m@),
{
    if is2(m, 0x52, 0x41) {
        Some(0)
    } else if is2(m, 0x4C, 0x41) {
        Some(1)
    } else if is2(m, 0x52, 0x4C) {
        Some(2)
    } else if is2(m, 0x4C, 0x4C) {
        Some(3)
    } else {
        None
    }
}

fn branch_cond(m: &[u8]) -> (r: Option<u8>)
    ensures
        r == spec_branch_cond(m@),
{
    if is1(m, 0x41) {
        Some(0x0)
    } else if is2(m, 0x4E, 0x5A) {
        Some(0x1)
    } else if is2(m, 0x5A, 0x50) {
        Some(0x2)
    } else if is1(m, 0x50) {
        Some(0x3)
    } else if is2(m, 0x4E, 0x49) {
        Some(0x4)
    } else if is2(m, 0x4E, 0x43) {
        Some(0x5)
    } else if is2(m, 0x47, 0x45) {
        Some(0x6)
    } else if is2(m, 0x47, 0x54) {
        Some(0x7)
    } else if is2(m, 0x56, 0x46) {
        Some(0x8)
    } else if is1(m, 0x5A) {
        Some(0x9)
    } else if is1(m, 0x4E) {
        Some(0xA)
    } else if is2(m, 0x5A, 0x4E) {
        Some(0xB)
    } else if is2(m, 0x4E, 0x4F) {
        Some(0xC)
    } else if is1(m, 0x43) {
        Some(0xD)
    } else if is2(m, 0x4C, 0x54) {
        Some(0xE)
    } else if is2(m, 0x4C, 0x45) {
        Some(0xF)
    } else {
        None
    }
}

/// What an index-register operand A adds to an opcode.
pub open spec fn a_delta(a: Option<OperandAView>) -> nat {
    if a == Some(OperandAView::IX) {
        8
    } else {
        0
    }
}

/// What each operand-B form adds to an opcode.
pub open spec fn b_delta(b: OperandB) -> nat {
    match b {
        OperandB::ACC => 0,
        OperandB::IX => 1,
        OperandB::IMMD(_) => 2,
        OperandB::ABS_PRG(_) => 4,
        OperandB::ABS_DT(_) => 5,
        OperandB::IX_PRG(_) => 6,
        OperandB::IX_DT(_) => 7,
    }
}

/// The data or address byte that an operand-B form carries.
pub open spec fn b_byte(b: OperandB) -> Option<u8> {
    match b {
        OperandB::ACC => None,
        OperandB::IX => None,
        OperandB::IMMD(d) => Some(d),
        OperandB::ABS_PRG(d) => Some(d),
        OperandB::ABS_DT(d) => Some(d),
        OperandB::IX_PRG(d) => Some(d),
        OperandB::IX_DT(d) => Some(d),
    }
}

/// The opcode, then the operand's byte if it carries one.
pub open spec fn with_byte(op: u8, d: Option<u8>) -> Seq<u8> {
    match d {
        Some(x) => seq![op, x],
        None => seq![op],
    }
}

pub open spec fn spec_form_mal(iv: InstructionView) -> Result<Seq<u8>, EncodeError> {
    match spec_mal_base(iv.inst) {
        None => Err(EncodeError::UnknownMnemonic),
        Some(base) => match iv.opr_b {
            Some(b) => Ok(with_byte((base + a_delta(iv.opr_a) + b_delta(b)) as u8, b_byte(b))),
            None => Err(EncodeError::Malformed),
        },
    }
}

pub open spec fn spec_form_ctrl(iv: InstructionView) -> Result<Seq<u8>, EncodeError> {
    match spec_ctrl_code(iv.inst) {
        Some(c) => Ok(seq![c]),
        None => Err(EncodeError::UnknownMnemonic),
    }
}

/// 40, plus 4 for a rotate (`R`), plus the mode in the second and third
/// letters, plus 8 for the index register.
pub open spec fn spec_form_shift(iv: InstructionView) -> Result<Seq<u8>, EncodeError> {
    if iv.inst.len() < 3 {
        Err(EncodeError::UnknownMnemonic)
    } else {
        match spec_shift_mode(iv.inst.subrange(1, 3)) {
            Some(m) => Ok(
                seq![(0x40 + (if iv.inst[0] == 0x52 { 4nat } else { 0nat }) + m + a_delta(iv.opr_a)) as u8],
            ),
            None => Err(EncodeError::UnknownMnemonic),
        }
    }
}

/// 30 plus the condition after the `B`, then the target address.
pub open spec fn spec_form_branch(iv: InstructionView, symbols: Map<Seq<u8>, u8>) -> Result<
    Seq<u8>,
    EncodeError,
> {
    if iv.inst.len() < 1 {
        Err(EncodeError::UnknownMnemonic)
    } else {
        match spec_branch_cond(iv.inst.subrange(1, iv.inst.len() as int)) {
            None => Err(EncodeError::UnknownMnemonic),
            Some(c) => match iv.opr_a {
                Some(OperandAView::Dest(d)) => Ok(seq![(0x30 + c) as u8, d]),
                Some(OperandAView::Symbol(s)) => if symbols.contains_key(s) {
                    Ok(seq![(0x30 + c) as u8, symbols[s]])
                } else {
                    Err(EncodeError::MissingSymbol)
                },
                _ => Err(EncodeError::Malformed),
            },
        }
    }
}

/// The bytes of one instruction.
pub open spec fn spec_code(iv: InstructionView, symbols: Map<Seq<u8>, u8>) -> Result<
    Seq<u8>,
    EncodeError,
> {
    match iv.kind {
        InstructionKind::MAL => spec_form_mal(iv),
        InstructionKind::Ctrl => spec_form_ctrl(iv),
        InstructionKind::Shift => spec_form_shift(iv),
        InstructionKind::Branch => spec_form_branch(iv, symbols),
        InstructionKind::Unknown => Err(EncodeError::Malformed),
    }
}

/// An upper-case hexadecimal digit.
pub open spec fn hex_char(v: nat) -> u8 {
    if v < 10 {
        (0x30 + v) as u8
    } else {
        (0x37 + v) as u8
    }
}

/// Two upper-case hexadecimal digits.
pub open spec fn byte_text(x: u8) -> Seq<u8> {
    seq![hex_char(x as nat / 16), hex_char(x as nat % 16)]
}

/// One output line: the bytes in hexadecimal, a space between, a newline after.
pub open spec fn line_text(code: Seq<u8>) -> Seq<u8> {
    if code.len() == 1 {
        byte_text(code[0]) + seq![0x0Au8]
    } else {
        byte_text(code[0]) + seq![0x20u8] + byte_text(code[1]) + seq![0x0Au8]
    }
}

/// The second pass over `prog`: the text of each instruction in order, or the
/// first error.
pub open spec fn spec_assemble(prog: Seq<InstructionView>, symbols: Map<Seq<u8>, u8>) -> Result<
    Seq<u8>,
    EncodeError,
>
    decreases prog.len(),
{
    if prog.len() == 0 {
        Ok(seq![])
    } else {
        match spec_assemble(prog.drop_last(), symbols) {
            Ok(out) => match spec_code(prog.last(), symbols) {
                Ok(c) => Ok(out + line_text(c)),
                Err(e) => Err(e),
            },
            Err(e) => Err(e),
        }
    }
}

/// `r` holds the bytes that `s` holds.
pub open spec fn same_result(r: Result<Vec<u8>, EncodeError>, s: Result<Seq<u8>, EncodeError>) -> bool {
    match s {
        Ok(c) => r is Ok && r->Ok_0@ == c,
        Err(e) => r == Err::<Vec<u8>, EncodeError>(e),
    }
}

fn form_mal(instrct: &Instruction) -> (r: Result<Vec<u8>, EncodeError>)
    ensures
        same_result(r, spec_form_mal(instrct@)),
{
    let m = instrct.inst.as_str().as_bytes();
    let base = match mal_base(m) {
        Some(b) => b,
        None => return Err(EncodeError::UnknownMnemonic),
    };
    let a: u8 = match &instrct.opr_a {
        Some(OperandA::IX) => 8,
        _ => 0,
    };
    let b = match instrct.opr_b {
        Some(b) => b,
        None => return Err(EncodeError::Malformed),
    };
    assert(base as nat >= 0x60 && base as nat <= 0xF0);
    let op = match b {
        OperandB::ACC => base + a,
        OperandB::IX => base + a + 1,
        OperandB::IMMD(_) => base + a + 2,
        OperandB::ABS_PRG(_) => base + a + 4,
        OperandB::ABS_DT(_) => base + a + 5,
        OperandB::IX_PRG(_) => base + a + 6,
        OperandB::IX_DT(_) => base + a + 7,
    };
    let mut v: Vec<u8> = Vec::new();
    v.push(op);
    match b {
        OperandB::IMMD(d) => v.push(d),
        OperandB::ABS_PRG(d) => v.push(d),
        OperandB::ABS_DT(d) => v.push(d),
        OperandB::IX_PRG(d) => v.push(d),
        OperandB::IX_DT(d) => v.push(d),
        _ => {},
    }
    proof {
        match b_byte(b) {
            Some(x) => assert(v@ =~= seq![op, x]),
            None => assert(v@ =~= seq![op]),
        }
    }
    Ok(v)
}

fn form_ctrl(instrct: &Instruction) -> (r: Result<Vec<u8>, EncodeError>)
    ensures
        same_result(r, spec_form_ctrl(instrct@)),
{
    match ctrl_code(instrct.inst.as_str().as_bytes()) {
        Some(c) => {
            let v = vec![c];
            assert(v@ =~= seq![c]);
            Ok(v)
        },
        None => Err(EncodeError::UnknownMnemonic),
    }
}

fn form_shift(instrct: &Instruction) -> (r: Result<Vec<u8>, EncodeError>)
    ensures
        same_result(r, spec_form_shift(instrct@)),
{
    let m = instrct.inst.as_str().as_bytes();
    if m.len() < 3 {
        return Err(EncodeError::UnknownMnemonic);
    }
    let mode = match shift_mode(&m[1..3]) {
        Some(x) => x,
        None => return Err(EncodeError::UnknownMnemonic),
    };
    let mut base: u8 = 0x40;
    if m[0] == 0x52 {
        base = base + 4;
    }
    base = base + mode;
    if let Some(OperandA::IX) = &instrct.opr_a {
        base = base + 8;
    }
    let v = vec![base];
    assert(v@ =~= seq![base]);
    Ok(v)
}

fn form_branch(instrct: &Instruction, symbol_table: &SymbolTable) -> (r: Result<Vec<u8>, EncodeError>)
    requires
        symbol_table.well_formed(),
    ensures
        same_result(r, spec_form_branch(instrct@, symbol_table@)),
{
    let m = instrct.inst.as_str().as_bytes();
    if m.len() < 1 {
        return Err(EncodeError::UnknownMnemonic);
    }
    let cond = match branch_cond(&m[1..m.len()]) {
        Some(c) => c,
        None => return Err(EncodeError::UnknownMnemonic),
    };
    let op = 0x30 + cond;
    let addr = match &instrct.opr_a {
        Some(OperandA::Dest(d)) => *d,
        Some(OperandA::Symbol(s)) => match symbol_table.get(s) {
            Some(a) => a,
            None => return Err(EncodeError::MissingSymbol),
        },
        _ => return Err(EncodeError::Malformed),
    };
    let v = vec![op, addr];
    assert(v@ =~= seq![op, addr]);
    Ok(v)
}

fn hex_char_exec(v: u8) -> (r: u8)
    requires
        v < 16,
    ensures
        r == hex_char(v as nat),
{
    if v < 10 {
        0x30 + v
    } else {
        0x37 + v
    }
}

fn push_byte_text(out: &mut Vec<u8>, x: u8)
    ensures
        final(out)@ == old(out)@ + byte_text(x),
{
    out.push(hex_char_exec(x / 16));
    out.push(hex_char_exec(x % 16));
    assert(final(out)@ =~= old(out)@ + byte_text(x));
}

/// Appends the text of one instruction's bytes.
fn push_line(out: &mut Vec<u8>, code: &Vec<u8>)
    requires
        1 <= code@.len() <= 2,
    ensures
        final(out)@ == old(out)@ + line_text(code@),
{
    push_byte_text(out, code[0]);
    if code.len() == 2 {
        out.push(0x20);
        push_byte_text(out, code[1]);
    }
    out.push(0x0A);
    assert(final(out)@ =~= old(out)@ + line_text(code@));
}

/// The bytes of one instruction.
pub fn code_of(instrct: &Instruction, symbol_table: &SymbolTable) -> (r: Result<Vec<u8>, EncodeError>)
    requires
        symbol_table.well_formed(),
    ensures
        same_result(r, spec_code(instrct@, symbol_table@)),
        r is Ok ==> 1 <= r->Ok_0@.len() <= 2,
{
    match instrct.kind {
        InstructionKind::MAL => form_mal(instrct),
        InstructionKind::Ctrl => form_ctrl(instrct),
        InstructionKind::Shift => form_shift(instrct),
        InstructionKind::Branch => form_branch(instrct, symbol_table),
        InstructionKind::Unknown => Err(EncodeError::Malformed),
    }
}

/// The second pass: the text of each instruction, one line each, in order.
/// The first instruction that cannot be encoded ends the pass with an error.
pub fn assemble(prog: &Vec<Instruction>, symbol_table: &SymbolTable) -> (r: Result<
    Vec<u8>,
    EncodeError,
>)
    requires
        symbol_table.well_formed(),
    ensures
        same_result(r, spec_assemble(views(prog@), symbol_table@)),
{
    let ghost ivs = views(prog@);
    let mut out: Vec<u8> = Vec::new();
    let mut i: usize = 0;
    assert(ivs.take(0) =~= seq![]);
    while i < prog.len()
        invariant
            0 <= i <= prog@.len(),
            ivs == views(prog@),
            symbol_table.well_formed(),
            spec_assemble(ivs.take(i as int), symbol_table@) == Ok::<Seq<u8>, EncodeError>(out@),
        decreases prog@.len() - i,
    {
        assert(ivs.take(i + 1).drop_last() =~= ivs.take(i as int));
        assert(ivs.take(i + 1).last() == prog@[i as int]@);
        match code_of(&prog[i], symbol_table) {
            Ok(code) => {
                push_line(&mut out, &code);
            },
            Err(e) => {
                proof {
                    lemma_assemble_error_persists(ivs, symbol_table@, i + 1);
                }
                return Err(e);
            },
        }
        i = i + 1;
    }
    assert(ivs.take(i as int) =~= ivs);
    Ok(out)
}

/// Once the second pass fails on a prefix, it fails on the whole with the
/// same error.
pub proof fn lemma_assemble_error_persists(
    prog: Seq<InstructionView>,
    symbols: Map<Seq<u8>, u8>,
    k: int,
)
    requires
        0 <= k <= prog.len(),
        spec_assemble(prog.take(k), symbols) is Err,
    ensures
        spec_assemble(prog, symbols) == spec_assemble(prog.take(k), symbols),
    decreases prog.len() - k,
{
    if k < prog.len() {
        assert(prog.take(k + 1).drop_last() =~= prog.take(k));
        lemma_assemble_error_persists(prog, symbols, k + 1);
    } else {
        assert(prog.take(k) =~= prog);
    }
}

} // verus!
