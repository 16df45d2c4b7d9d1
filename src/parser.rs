use vstd::prelude::*;
use vstd::string::StringSliceAdditionalSpecFns;
use crate::instruction::{
    view_opr_a, Instruction, InstructionKind, InstructionView, OperandA, OperandAView, OperandB,
};
use crate::symbols::SymbolTable;
use crate::text::{
    all_upper, ascii_cut, bytes_of, find_space, first_space, hex_literal, hex_literal_value,
    is_hex_literal, text_between, upper_word,
};

verus! {

/// `ACC`
pub open spec fn acc_word() -> Seq<u8> {
    seq![0x41u8, 0x43u8, 0x43u8]
}

/// `IX`
pub open spec fn ix_word() -> Seq<u8> {
    seq![0x49u8, 0x58u8]
}

/// `IX+`
pub open spec fn ix_plus() -> Seq<u8> {
    seq![0x49u8, 0x58u8, 0x2Bu8]
}

pub open spec fn is_register_word(s: Seq<u8>) -> bool {
    s == acc_word() || s == ix_word()
}

/// A mnemonic of two or three upper-case letters.
pub open spec fn is_word(s: Seq<u8>) -> bool {
    2 <= s.len() <= 3 && all_upper(s)
}

/// `open`, then anything, then `close`.
pub open spec fn enclosed(s: Seq<u8>, open: u8, close: u8) -> bool {
    s.len() >= 2 && s[0] == open && s[s.len() - 1] == close
}

pub open spec fn inner(s: Seq<u8>) -> Seq<u8> {
    s.subrange(1, s.len() - 1)
}

/// `IX+hh`
pub open spec fn is_indexed(s: Seq<u8>) -> bool {
    s.len() >= 3 && s.subrange(0, 3) == ix_plus() && is_hex_literal(s.subrange(3, s.len() as int))
}

pub open spec fn offset_value(s: Seq<u8>) -> u8 {
    hex_literal_value(s.subrange(3, s.len() as int)) as u8
}

/// The operand-B form a token stands for, tried in order: registers,
/// `[IX+hh]`, `(IX+hh)`, `[hh]`, `(hh)`, `hh`.
pub open spec fn spec_operand_b(s: Seq<u8>) -> Option<OperandB> {
    if s == acc_word() {
        Some(OperandB::ACC)
    } else if s == ix_word() {
        Some(OperandB::IX)
    } else if enclosed(s, 0x5B, 0x5D) && is_indexed(inner(s)) {
        Some(OperandB::IX_PRG(offset_value(inner(s))))
    } else if enclosed(s, 0x28, 0x29) && is_indexed(inner(s)) {
        Some(OperandB::IX_DT(offset_value(inner(s))))
    } else if enclosed(s, 0x5B, 0x5D) && is_hex_literal(inner(s)) {
        Some(OperandB::ABS_PRG(hex_literal_value(inner(s)) as u8))
    } else if enclosed(s, 0x28, 0x29) && is_hex_literal(inner(s)) {
        Some(OperandB::ABS_DT(hex_literal_value(inner(s)) as u8))
    } else if is_hex_literal(s) {
        Some(OperandB::IMMD(hex_literal_value(s) as u8))
    } else {
        None
    }
}

/// The operand-A form a token stands for, tried in order: registers,
/// an address literal, a label.
pub open spec fn spec_operand_a(s: Seq<u8>) -> Option<OperandAView> {
    if s == acc_word() {
        Some(OperandAView::ACC)
    } else if s == ix_word() {
        Some(OperandAView::IX)
    } else if is_hex_literal(s) {
        Some(OperandAView::Dest(hex_literal_value(s) as u8))
    } else if all_upper(s) {
        Some(OperandAView::Symbol(s))
    } else {
        None
    }
}

fn is_acc(t: &[u8]) -> (r: bool)
    ensures
        r == (t@ == acc_word()),
{
    let r = t.len() == 3 && t[0] == 0x41 && t[1] == 0x43 && t[2] == 0x43;
    if r {
        assert(t@ =~= acc_word());
    }
    r
}

fn is_ix(t: &[u8]) -> (r: bool)
    ensures
        r == (t@ == ix_word()),
{
    let r = t.len() == 2 && t[0] == 0x49 && t[1] == 0x58;
    if r {
        assert(t@ =~= ix_word());
    }
    r
}

fn is_word_exec(t: &[u8]) -> (r: bool)
    ensures
        r == is_word(t@),
{
    2 <= t.len() && t.len() <= 3 && upper_word(t)
}

/// Classifies the operand-A token that stands in `line` between byte offsets `i` and `j`.
pub fn discern_opr_a(line: &str, i: usize, j: usize) -> (r: Option<OperandA>)
    requires
        i <= j,
        ascii_cut(line.spec_bytes(), j as int),
    ensures
        view_opr_a(r) == spec_operand_a(line.spec_bytes().subrange(i as int, j as int)),
{
    let b = line.as_bytes();
    let t = &b[i..j];
    if is_acc(t) {
        Some(OperandA::ACC)
    } else if is_ix(t) {
        Some(OperandA::IX)
    } else {
        match hex_literal(t) {
            Some(v) => Some(OperandA::Dest(v)),
            None => {
                if upper_word(t) {
                    assert(t@[0] == b@[i as int]);
                    Some(OperandA::Symbol(text_between(line, i, j)))
                } else {
                    None
                }
            },
        }
    }
}

/// Classifies an operand-B token.
pub fn discern_opr_b(t: &[u8]) -> (r: Option<OperandB>)
    ensures
        r == spec_operand_b(t@),
{
    if is_acc(t) {
        return Some(OperandB::ACC);
    }
    if is_ix(t) {
        return Some(OperandB::IX);
    }
    let n = t.len();
    if n >= 2 {
        let bracket = t[0] == 0x5B && t[n - 1] == 0x5D;
        let paren = t[0] == 0x28 && t[n - 1] == 0x29;
        if bracket || paren {
            let body = &t[1..n - 1];
            assert(body@ == inner(t@));
            if body.len() >= 3 && body[0] == 0x49 && body[1] == 0x58 && body[2] == 0x2B {
                assert(body@.subrange(0, 3) =~= ix_plus());
                let off = &body[3..body.len()];
                match hex_literal(off) {
                    Some(v) => {
                        return Some(
                            if bracket {
                                OperandB::IX_PRG(v)
                            } else {
                                OperandB::IX_DT(v)
                            },
                        );
                    },
                    None => {},
                }
            } else {
                assert(!is_indexed(body@)) by {
                    if body@.len() >= 3 && body@.subrange(0, 3) == ix_plus() {
                        assert(body@[0] == body@.subrange(0, 3)[0]);
                        assert(body@[1] == body@.subrange(0, 3)[1]);
                        assert(body@[2] == body@.subrange(0, 3)[2]);
                    }
                }
            }
            match hex_literal(body) {
                Some(v) => {
                    return Some(
                        if bracket {
                            OperandB::ABS_PRG(v)
                        } else {
                            OperandB::ABS_DT(v)
                        },
                    );
                },
                None => {},
            }
        }
    }
    match hex_literal(t) {
        Some(v) => Some(OperandB::IMMD(v)),
        None => None,
    }
}

/// Why a line could not be taken in.
#[derive(Debug, Clone, Copy, PartialEq, Eq, Structural)]
pub enum LineError {
    /// The line fits no category.
    UnknownInstruction,
    /// The line fits a category, but an operand does not fit it.
    UnrecognizedOperand,
    /// The instruction would reach past the last address.
    AddressOverflow,
}

/// A branch mnemonic: `B` and a condition of one or two letters.
pub open spec fn is_branch_word(s: Seq<u8>) -> bool {
    is_word(s) && s[0] == 0x42
}

/// `S` (shift) or `R` (rotate), then `RA`, `LA`, `RL` or `LL`.
pub open spec fn is_shift_word(s: Seq<u8>) -> bool {
    &&& s.len() == 3
    &&& (s[0] == 0x53 || s[0] == 0x52)
    &&& (s[1] == 0x52 || s[1] == 0x4C)
    &&& (s[2] == 0x41 || s[2] == 0x4C)
}

pub open spec fn make_view(
    kind: InstructionKind,
    inst: Seq<u8>,
    opr_a: Option<OperandAView>,
    opr_b: Option<OperandB>,
) -> InstructionView {
    InstructionView { kind, inst, opr_a, opr_b }
}

/// What one non-label line is, read as up to three tokens split at spaces:
/// `MNEMONIC REG OPERAND`, then `Bxx TARGET`, then `SHIFT REG`, then `MNEMONIC`.
pub open spec fn spec_discern(l: Seq<u8>) -> Result<InstructionView, LineError> {
    let p = first_space(l, 0);
    let t1 = l.subrange(0, p);
    if p == l.len() {
        if is_word(l) {
            Ok(make_view(InstructionKind::Ctrl, l, None, None))
        } else {
            Err(LineError::UnknownInstruction)
        }
    } else {
        let q = first_space(l, p + 1);
        let t2 = l.subrange(p + 1, q);
        if q == l.len() {
            if is_branch_word(t1) && (is_hex_literal(t2) || all_upper(t2)) {
                if is_register_word(t2) {
                    Err(LineError::UnrecognizedOperand)
                } else {
                    Ok(make_view(InstructionKind::Branch, t1, spec_operand_a(t2), None))
                }
            } else if is_shift_word(t1) && is_register_word(t2) {
                Ok(make_view(InstructionKind::Shift, t1, spec_operand_a(t2), None))
            } else {
                Err(LineError::UnknownInstruction)
            }
        } else {
            let t3 = l.subrange(q + 1, l.len() as int);
            if is_word(t1) && is_register_word(t2) && spec_operand_b(t3) is Some {
                Ok(make_view(InstructionKind::MAL, t1, spec_operand_a(t2), spec_operand_b(t3)))
            } else {
                Err(LineError::UnknownInstruction)
            }
        }
    }
}

/// Bytes that an operand-B form takes: one for a register, two otherwise.
pub open spec fn width_b(b: Option<OperandB>) -> nat {
    match b {
        Some(OperandB::ACC) => 1,
        Some(OperandB::IX) => 1,
        _ => 2,
    }
}

/// Bytes that an instruction takes in the program.
pub open spec fn spec_width(iv: InstructionView) -> nat {
    match iv.kind {
        InstructionKind::MAL => width_b(iv.opr_b),
        InstructionKind::Branch => 2,
        _ => 1,
    }
}

/// What taking a non-label line in does, with the program counter at `pc`.
pub open spec fn spec_discern_at(l: Seq<u8>, pc: u8) -> Result<InstructionView, LineError> {
    match spec_discern(l) {
        Ok(iv) => if pc + spec_width(iv) <= 255 {
            Ok(iv)
        } else {
            Err(LineError::AddressOverflow)
        },
        Err(e) => Err(e),
    }
}

/// Advances `pc` by `w` unless that passes the last address.
fn advance(pc: &mut u8, w: u8) -> (ok: bool)
    ensures
        ok == (old(pc) + w <= 255),
        ok ==> *final(pc) == old(pc) + w,
        !ok ==> *final(pc) == *old(pc),
{
    if *pc > 255 - w {
        false
    } else {
        *pc = *pc + w;
        true
    }
}

/// Takes in one non-label line and advances the program counter by the
/// width of the instruction.
pub fn discern(line: &str, pc: &mut u8) -> (r: Result<Instruction, LineError>)
    ensures
        match spec_discern_at(line.spec_bytes(), *old(pc)) {
            Ok(iv) => r is Ok && r->Ok_0@ == iv && *final(pc) == *old(pc) + spec_width(iv),
            Err(e) => r == Err::<Instruction, LineError>(e) && *final(pc) == *old(pc),
        },
        r is Ok ==> r->Ok_0@.well_formed(),
{
    let b = line.as_bytes();
    let ghost l = line.spec_bytes();
    let n = b.len();
    let p = find_space(b, 0);
    if p == n {
        assert(b@.subrange(0, p as int) =~= b@);
        if is_word_exec(b) {
            if !advance(pc, 1) {
                return Err(LineError::AddressOverflow);
            }
            let r = Instruction::new(InstructionKind::Ctrl, line, None, None);
            return Ok(r);
        }
        return Err(LineError::UnknownInstruction);
    }
    let t1 = &b[0..p];
    let q = find_space(b, p + 1);
    let t2 = &b[p + 1..q];
    if q == n {
        let t1_word = is_word_exec(t1);
        if t1_word && t1[0] == 0x42 && (hex_literal(t2).is_some() || upper_word(t2)) {
            assert(t1@[0] == l[0]);
            let target = discern_opr_a(line, p + 1, q);
            match target {
                Some(OperandA::ACC) => Err(LineError::UnrecognizedOperand),
                Some(OperandA::IX) => Err(LineError::UnrecognizedOperand),
                None => Err(LineError::UnrecognizedOperand),
                Some(a) => {
                    if !advance(pc, 2) {
                        return Err(LineError::AddressOverflow);
                    }
                    let inst = text_between(line, 0, p);
                    Ok(Instruction { kind: InstructionKind::Branch, inst, opr_a: Some(a), opr_b: None })
                },
            }
        } else if t1.len() == 3 && (t1[0] == 0x53 || t1[0] == 0x52) && (t1[1] == 0x52 || t1[1] == 0x4C)
            && (t1[2] == 0x41 || t1[2] == 0x4C) && (is_acc(t2) || is_ix(t2)) {
            assert(t1@[0] == l[0]);
            let a = discern_opr_a(line, p + 1, q);
            if !advance(pc, 1) {
                return Err(LineError::AddressOverflow);
            }
            let inst = text_between(line, 0, p);
            Ok(Instruction { kind: InstructionKind::Shift, inst, opr_a: a, opr_b: None })
        } else {
            Err(LineError::UnknownInstruction)
        }
    } else {
        assert(b@[q as int] == 0x20);
        let t3 = &b[q + 1..n];
        if is_word_exec(t1) && (is_acc(t2) || is_ix(t2)) {
            match discern_opr_b(t3) {
                Some(ob) => {
                    assert(t1@[0] == l[0]);
                    let a = discern_opr_a(line, p + 1, q);
                    let w: u8 = match ob {
                        OperandB::ACC => 1,
                        OperandB::IX => 1,
                        _ => 2,
                    };
                    if !advance(pc, w) {
                        return Err(LineError::AddressOverflow);
                    }
                    let inst = text_between(line, 0, p);
                    Ok(Instruction { kind: InstructionKind::MAL, inst, opr_a: a, opr_b: Some(ob) })
                },
                None => Err(LineError::UnknownInstruction),
            }
        } else {
            Err(LineError::UnknownInstruction)
        }
    }
}

/// Where a pass over the source stopped, and why.
#[derive(Debug, Clone, Copy, PartialEq, Eq, Structural)]
pub struct ParseError {
    /// The index of the line, counted from zero.
    pub line: usize,
    pub reason: LineError,
}

/// A label declaration: upper-case letters and a colon.
pub open spec fn is_label(l: Seq<u8>) -> bool {
    l.len() >= 2 && l[l.len() - 1] == 0x3A && all_upper(l.subrange(0, l.len() - 1))
}

pub open spec fn label_name(l: Seq<u8>) -> Seq<u8> {
    l.subrange(0, l.len() - 1)
}

/// The state of the first pass after some lines.
pub ghost struct Pass {
    pub prog: Seq<InstructionView>,
    pub symbols: Map<Seq<u8>, u8>,
    pub pc: u8,
}

/// Takes in line number `n`, `l`.
pub open spec fn spec_step(st: Pass, l: Seq<u8>, n: int) -> Result<Pass, ParseError> {
    if is_label(l) {
        Ok(Pass { symbols: st.symbols.insert(label_name(l), st.pc), ..st })
    } else {
        match spec_discern_at(l, st.pc) {
            Ok(iv) => Ok(
                Pass { prog: st.prog.push(iv), pc: (st.pc + spec_width(iv)) as u8, ..st },
            ),
            Err(e) => Err(ParseError { line: n as usize, reason: e }),
        }
    }
}

/// The first pass over `lines`, starting from the table `symbols`.
pub open spec fn spec_pass(lines: Seq<Seq<u8>>, symbols: Map<Seq<u8>, u8>) -> Result<
    Pass,
    ParseError,
>
    decreases lines.len(),
{
    if lines.len() == 0 {
        Ok(Pass { prog: seq![], symbols, pc: 0 })
    } else {
        match spec_pass(lines.drop_last(), symbols) {
            Ok(st) => spec_step(st, lines.last(), lines.len() - 1),
            Err(e) => Err(e),
        }
    }
}

/// The bytes of each line.
pub open spec fn line_bytes(lines: Seq<String>) -> Seq<Seq<u8>> {
    lines.map_values(|s: String| bytes_of(&s))
}

/// The view of each instruction.
pub open spec fn views(prog: Seq<Instruction>) -> Seq<InstructionView> {
    prog.map_values(|i: Instruction| i@)
}

/// The first pass: reads the source lines in order, records each label with
/// the address it stands at, and collects the instructions. The first line
/// that cannot be taken in ends the pass with an error.
pub fn parse(lines: &Vec<String>, symbol_table: &mut SymbolTable) -> (r: Result<
    Vec<Instruction>,
    ParseError,
>)
    requires
        old(symbol_table).well_formed(),
    ensures
        final(symbol_table).well_formed(),
        match spec_pass(line_bytes(lines@), old(symbol_table)@) {
            Ok(st) => r is Ok && views(r->Ok_0@) == st.prog && final(symbol_table)@ == st.symbols,
            Err(e) => r == Err::<Vec<Instruction>, ParseError>(e),
        },
        r is Ok ==> forall|k: int|
            0 <= k < r->Ok_0@.len() ==> (#[trigger] r->Ok_0@[k])@.well_formed(),
{
    let ghost init = symbol_table@;
    let ghost all = line_bytes(lines@);
    let mut prog: Vec<Instruction> = Vec::new();
    let mut pc: u8 = 0;
    let mut i: usize = 0;
    assert(all.take(0) =~= seq![]);
    assert(views(prog@) =~= seq![]);
    while i < lines.len()
        invariant
            0 <= i <= lines@.len(),
            all == line_bytes(lines@),
            init == old(symbol_table)@,
            symbol_table.well_formed(),
            forall|k: int| 0 <= k < prog@.len() ==> (#[trigger] prog@[k])@.well_formed(),
            spec_pass(all.take(i as int), init) == Ok::<Pass, ParseError>(
                Pass { prog: views(prog@), symbols: symbol_table@, pc },
            ),
        decreases lines@.len() - i,
    {
        let line = lines[i].as_str();
        let b = line.as_bytes();
        let n = b.len();
        proof {
            assert(all.take(i + 1).drop_last() =~= all.take(i as int));
            assert(all.take(i + 1).last() == line.spec_bytes());
        }
        let ghost st = Pass { prog: views(prog@), symbols: symbol_table@, pc };
        let label = n >= 2 && b[n - 1] == 0x3A && upper_word(&b[0..n - 1]);
        proof {
            assert(all.take(i + 1).len() == i + 1);
            assert(spec_pass(all.take(i + 1), init) == spec_step(st, line.spec_bytes(), i as int));
        }
        if label {
            assert(b@.subrange(0, n - 1)[0] == b@[0]);
            let name = text_between(line, 0, n - 1);
            assert(bytes_of(&name) == label_name(line.spec_bytes()));
            symbol_table.insert(name, pc);
        } else {
            match discern(line, &mut pc) {
                Ok(instr) => {
                    prog.push(instr);
                    assert(views(prog@) =~= st.prog.push(prog@.last()@));
                },
                Err(e) => {
                    assert(spec_pass(all.take(i + 1), init) == Err::<Pass, ParseError>(
                        ParseError { line: i, reason: e },
                    ));
                    proof {
                        lemma_pass_error_persists(all, init, i as int + 1);
                    }
                    return Err(ParseError { line: i, reason: e });
                },
            }
        }
        i = i + 1;
    }
    assert(all.take(i as int) =~= all);
    Ok(prog)
}

/// Once the pass fails on a prefix of the lines, it fails on the whole
/// with the same error.
pub proof fn lemma_pass_error_persists(lines: Seq<Seq<u8>>, symbols: Map<Seq<u8>, u8>, k: int)
    requires
        0 <= k <= lines.len(),
        spec_pass(lines.take(k), symbols) is Err,
    ensures
        spec_pass(lines, symbols) == spec_pass(lines.take(k), symbols),
    decreases lines.len() - k,
{
    if k < lines.len() {
        assert(lines.take(k + 1).drop_last() =~= lines.take(k));
        lemma_pass_error_persists(lines, symbols, k + 1);
    } else {
        assert(lines.take(k) =~= lines);
    }
}

} // verus!
