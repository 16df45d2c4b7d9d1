use vstd::prelude::*;
use crate::code::{
    b_byte, b_delta, line_text, spec_assemble, spec_code, spec_form_mal, spec_mal_base, with_byte,
    EncodeError,
};
use crate::instruction::{InstructionKind, InstructionView, OperandAView, OperandB};
use crate::parser::{
    acc_word, is_label, is_word, lemma_pass_error_persists, make_view, spec_discern, spec_pass,
    spec_step, spec_width, LineError, Pass, ParseError,
};
use crate::pipeline::{spec_assemble_source, AsmError};
use crate::text::{is_space, lemma_first_space_at};

verus! {

/// Total width in bytes of a run of instructions.
pub open spec fn total_width(prog: Seq<InstructionView>) -> nat
    decreases prog.len(),
{
    if prog.len() == 0 {
        0
    } else {
        total_width(prog.drop_last()) + spec_width(prog.last())
    }
}

/// The program counter after the first pass is the sum of the widths of the
/// instructions taken in, so a label stands at the address just past the
/// instructions before it.
pub proof fn lemma_pc_is_total_width(lines: Seq<Seq<u8>>, symbols: Map<Seq<u8>, u8>)
    requires
        spec_pass(lines, symbols) is Ok,
    ensures
        spec_pass(lines, symbols)->Ok_0.pc == total_width(spec_pass(lines, symbols)->Ok_0.prog),
    decreases lines.len(),
{
    if lines.len() > 0 {
        lemma_pc_is_total_width(lines.drop_last(), symbols);
        let st = spec_pass(lines.drop_last(), symbols)->Ok_0;
        let l = lines.last();
        if !is_label(l) {
            let iv = spec_discern(l)->Ok_0;
            assert(st.prog.push(iv).drop_last() =~= st.prog);
        }
    }
}

/// A line that is no label and fits no instruction form stops the run:
/// no output is produced at all.
pub proof fn lemma_malformed_line_aborts(lines: Seq<Seq<u8>>, i: int)
    requires
        0 <= i < lines.len(),
        !is_label(lines[i]),
        spec_discern(lines[i]) is Err,
    ensures
        spec_assemble_source(lines) is Err,
        spec_pass(lines, Map::empty()) is Err,
{
    let symbols = Map::<Seq<u8>, u8>::empty();
    let pre = lines.take(i + 1);
    assert(pre.drop_last() =~= lines.take(i));
    assert(pre.last() == lines[i]);
    assert(spec_pass(pre, symbols) is Err);
    lemma_pass_error_persists(lines, symbols, i + 1);
}

/// Running the whole pipeline twice on the same source, each time from an
/// empty table, gives the same output or the same error.
pub proof fn lemma_assemble_source_repeatable(first: Seq<Seq<u8>>, second: Seq<Seq<u8>>)
    requires
        first == second,
    ensures
        spec_assemble_source(first) == spec_assemble_source(second),
{
}

/// An index register as operand A adds exactly 8 to the opcode, and changes
/// nothing else.
pub proof fn lemma_index_register_adds_eight(m: Seq<u8>, b: OperandB)
    requires
        spec_mal_base(m) is Some,
    ensures
        ({
            let with_acc = spec_form_mal(make_view(InstructionKind::MAL, m, Some(OperandAView::ACC), Some(b)));
            let with_ix = spec_form_mal(make_view(InstructionKind::MAL, m, Some(OperandAView::IX), Some(b)));
            &&& with_acc is Ok
            &&& with_ix is Ok
            &&& with_ix->Ok_0[0] == with_acc->Ok_0[0] + 8
            &&& with_ix->Ok_0.len() == with_acc->Ok_0.len()
            &&& with_ix->Ok_0.drop_first() == with_acc->Ok_0.drop_first()
        }),
{
    let base = spec_mal_base(m)->Some_0;
    assert(0x60 <= base <= 0xF0);
    let acc = with_byte((base + 0 + b_delta(b)) as u8, b_byte(b));
    let ix = with_byte((base + 8 + b_delta(b)) as u8, b_byte(b));
    assert(acc.drop_first() =~= ix.drop_first());
}

/// Each operand-B form adds its own amount, below 8, to the opcode of the
/// register form `ACC`, and brings its byte after the opcode if it has one.
pub proof fn lemma_operand_b_delta(m: Seq<u8>, a: OperandAView, b: OperandB)
    requires
        spec_mal_base(m) is Some,
        a == OperandAView::ACC || a == OperandAView::IX,
    ensures
        ({
            let reg = spec_form_mal(make_view(InstructionKind::MAL, m, Some(a), Some(OperandB::ACC)));
            let other = spec_form_mal(make_view(InstructionKind::MAL, m, Some(a), Some(b)));
            &&& reg is Ok && other is Ok
            &&& reg->Ok_0.len() == 1
            &&& other->Ok_0[0] == reg->Ok_0[0] + b_delta(b)
            &&& b_delta(b) < 8
            &&& match b_byte(b) {
                Some(d) => other->Ok_0 == seq![other->Ok_0[0], d],
                None => other->Ok_0.len() == 1,
            }
        }),
{
    let base = spec_mal_base(m)->Some_0;
    assert(0x60 <= base <= 0xF0);
}

/// The source line `MNEMONIC ACC ACC`.
pub open spec fn register_pair_line(m: Seq<u8>) -> Seq<u8> {
    m + seq![0x20u8] + acc_word() + seq![0x20u8] + acc_word()
}

/// For every data transfer, arithmetic or logic mnemonic, the one-line source
/// `MNEMONIC ACC ACC` assembles to its base opcode alone, with no operand byte.
pub proof fn lemma_register_pair_encodes_base(m: Seq<u8>)
    requires
        spec_mal_base(m) is Some,
    ensures
        spec_assemble_source(seq![register_pair_line(m)]) == Ok::<Seq<u8>, AsmError>(
            line_text(seq![spec_mal_base(m)->Some_0]),
        ),
{
    let l = register_pair_line(m);
    let n = m.len() as int;
    let base = spec_mal_base(m)->Some_0;
    assert(is_word(m));
    assert forall|k: int| 0 <= k < n implies !is_space(#[trigger] l[k]) by {
        assert(l[k] == m[k]);
    }
    lemma_first_space_at(l, 0, n);
    assert(l.subrange(0, n) =~= m);
    assert forall|k: int| n + 1 <= k < n + 4 implies !is_space(#[trigger] l[k]) by {
        assert(l[k] == acc_word()[k - n - 1]);
    }
    lemma_first_space_at(l, n + 1, n + 4);
    assert(l.subrange(n + 1, n + 4) =~= acc_word());
    assert(l.subrange(n + 5, l.len() as int) =~= acc_word());
    let iv = make_view(InstructionKind::MAL, m, Some(OperandAView::ACC), Some(OperandB::ACC));
    assert(spec_discern(l) == Ok::<InstructionView, LineError>(iv));
    assert(!is_label(l));
    let lines = seq![l];
    assert(lines.drop_last() =~= Seq::<Seq<u8>>::empty());
    assert(lines.last() == l);
    let init = Pass { prog: seq![], symbols: Map::empty(), pc: 0 };
    assert(spec_pass(lines.drop_last(), Map::empty()) == Ok::<Pass, ParseError>(init));
    assert(spec_width(iv) == 1);
    assert(spec_step(init, l, 0) is Ok);
    let st = spec_pass(lines, Map::empty())->Ok_0;
    assert(st.prog == init.prog.push(iv));
    assert(st.prog =~= seq![iv]);
    assert(st.prog.drop_last() =~= Seq::<InstructionView>::empty());
    assert(spec_form_mal(iv) == Ok::<Seq<u8>, EncodeError>(seq![base]));
    assert(st.prog.last() == iv);
    assert(spec_assemble(st.prog.drop_last(), st.symbols) == Ok::<Seq<u8>, EncodeError>(seq![]));
    assert(spec_code(iv, st.symbols) == Ok::<Seq<u8>, EncodeError>(seq![base]));
    assert(Seq::<u8>::empty() + line_text(seq![base]) =~= line_text(seq![base]));
    assert(spec_assemble(st.prog, st.symbols) == Ok::<Seq<u8>, EncodeError>(line_text(seq![base])));
}

/// An instruction that carries the operands its category asks for never
/// fails to encode for want of one.
pub proof fn lemma_well_formed_not_malformed(iv: InstructionView, symbols: Map<Seq<u8>, u8>)
    requires
        iv.well_formed(),
    ensures
        spec_code(iv, symbols) != Err::<Seq<u8>, EncodeError>(EncodeError::Malformed),
{
}

} // verus!
