use vstd::prelude::*;

verus! {

/// The category an assembly line falls into.
#[derive(Debug, Clone, Copy, PartialEq, Eq, Structural)]
pub enum InstructionKind {
    /// Data transfer, arithmetic and logic: `LD ACC 3F`.
    MAL,
    /// Control: `HLT`.
    Ctrl,
    /// Shift and rotate: `SRA ACC`.
    Shift,
    /// Branch: `BNZ LOOP`.
    Branch,
    /// A line that fits no category.
    Unknown,
}

pub type InstrctKind = InstructionKind;

/// The first operand: a register, or the target of a branch.
#[derive(Debug, PartialEq, Eq)]
pub enum OperandA {
    /// The accumulator.
    ACC,
    /// The index register.
    IX,
    /// A branch target written as an address.
    Dest(u8),
    /// A branch target written as a label.
    Symbol(String),
}

/// What an [`OperandA`] denotes, with label text as bytes.
pub ghost enum OperandAView {
    ACC,
    IX,
    Dest(u8),
    Symbol(Seq<u8>),
}

impl View for OperandA {
    type V = OperandAView;

    open spec fn view(&self) -> OperandAView {
        match self {
            OperandA::ACC => OperandAView::ACC,
            OperandA::IX => OperandAView::IX,
            OperandA::Dest(d) => OperandAView::Dest(*d),
            OperandA::Symbol(s) => OperandAView::Symbol(crate::text::bytes_of(s)),
        }
    }
}

/// The second operand of a data transfer, arithmetic or logic instruction.
#[allow(non_camel_case_types)]
#[derive(Debug, Clone, Copy, PartialEq, Eq, Structural)]
pub enum OperandB {
    /// The accumulator.
    ACC,
    /// The index register.
    IX,
    /// An immediate byte: `3F`.
    IMMD(u8),
    /// An absolute address in the program region: `[3F]`.
    ABS_PRG(u8),
    /// An absolute address in the data region: `(3F)`.
    ABS_DT(u8),
    /// An address relative to the index register, program region: `[IX+3F]`.
    IX_PRG(u8),
    /// An address relative to the index register, data region: `(IX+3F)`.
    IX_DT(u8),
}

/// One parsed source line.
#[derive(Debug)]
pub struct Instruction {
    pub kind: InstructionKind,
    pub inst: String,
    pub opr_a: Option<OperandA>,
    pub opr_b: Option<OperandB>,
}

pub type Instrct = Instruction;

/// An [`Instruction`] with its text as bytes.
pub ghost struct InstructionView {
    pub kind: InstructionKind,
    pub inst: Seq<u8>,
    pub opr_a: Option<OperandAView>,
    pub opr_b: Option<OperandB>,
}

pub open spec fn view_opr_a(a: Option<OperandA>) -> Option<OperandAView> {
    match a {
        Some(x) => Some(x@),
        None => None,
    }
}

pub open spec fn is_register(a: Option<OperandAView>) -> bool {
    a == Some(OperandAView::ACC) || a == Some(OperandAView::IX)
}

pub open spec fn is_target(a: Option<OperandAView>) -> bool {
    match a {
        Some(OperandAView::Dest(_)) => true,
        Some(OperandAView::Symbol(_)) => true,
        _ => false,
    }
}

impl InstructionView {
    /// The operands that each category carries.
    pub open spec fn well_formed(self) -> bool {
        match self.kind {
            InstructionKind::MAL => is_register(self.opr_a) && self.opr_b is Some,
            InstructionKind::Ctrl => self.opr_a is None && self.opr_b is None,
            InstructionKind::Shift => is_register(self.opr_a) && self.opr_b is None,
            InstructionKind::Branch => is_target(self.opr_a) && self.opr_b is None,
            InstructionKind::Unknown => false,
        }
    }
}

impl View for Instruction {
    type V = InstructionView;

    open spec fn view(&self) -> InstructionView {
        InstructionView {
            kind: self.kind,
            inst: crate::text::bytes_of(&self.inst),
            opr_a: view_opr_a(self.opr_a),
            opr_b: self.opr_b,
        }
    }
}

impl Instruction {
    pub fn new(
        kind: InstructionKind,
        inst: &str,
        opr_a: Option<OperandA>,
        opr_b: Option<OperandB>,
    ) -> (r: Instruction)
        ensures
            r.kind == kind,
            r.inst@ == inst@,
            r.opr_a == opr_a,
            r.opr_b == opr_b,
    {
        Instruction { kind, inst: inst.to_owned(), opr_a, opr_b }
    }
}

} // verus!
