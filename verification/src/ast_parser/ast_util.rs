use vstd::prelude::*;

use super::symbol_table::{slot_offset, StackAllocCounter, SymbolTable, SymbolTableModel, VarStack};
use crate::asm_generator::asm_helpers::INSTRUCTION;
use crate::asm_generator::code_generator::{emit1, emit2, Generator, Instruction, LineModel};
use crate::errors::compiler_errors::{CompilerErrorModel, CompilerErrors};

verus! {

/// Pushes `reg` onto the machine stack and binds `name` to the new slot.
pub fn push_reg_to_stack(
    name: &str,
    var_stack: &mut VarStack,
    stack_alloc: &mut StackAllocCounter,
    gen: &mut Generator,
    reg: &str,
)
    requires
        slot_offset(old(stack_alloc)@) <= usize::MAX,
    ensures
        final(var_stack)@ == old(var_stack)@.insert(name@, slot_offset(old(stack_alloc)@) as usize),
        final(stack_alloc)@ == old(stack_alloc)@ + 1,
        final(gen)@ == old(gen)@.add_inst(INSTRUCTION::PUSH, seq![reg@]),
{
    var_stack.add(String::from_str(name), stack_alloc);
    emit1(gen, INSTRUCTION::PUSH, reg);
}

/// Pops the top of the machine stack into `reg`, after checking that `name` is
/// bound; fails (emitting nothing) if it is not.
pub fn pop_stack_to_reg(name: &str, reg: &str, var_stack: &mut VarStack, gen: &mut Generator) -> (r:
    Result<(), CompilerErrors>)
    ensures
        final(var_stack)@ == old(var_stack)@,
        old(var_stack)@.contains_key(name@) ==> r is Ok && final(gen)@ == old(gen)@.add_inst(
            INSTRUCTION::POP,
            seq![reg@],
        ),
        !old(var_stack)@.contains_key(name@) ==> (r matches Err(e) && e@
            == CompilerErrorModel::MissingVar(name@)) && final(gen)@ == old(gen)@,
{
    var_stack.get_stack_address(name)?;
    emit1(gen, INSTRUCTION::POP, reg);
    Ok(())
}

/// Pushes `reg` onto the machine stack in a slot that no name is bound to.
pub fn make_anonyomus_stack_alloc(reg: &str, scope: &mut SymbolTable, gen: &mut Generator)
    requires
        slot_offset(old(scope)@.allocs) <= usize::MAX,
    ensures
        final(scope)@ == (SymbolTableModel { allocs: old(scope)@.allocs + 1, ..old(scope)@ }),
        final(gen)@ == old(gen)@.add_inst(INSTRUCTION::PUSH, seq![reg@]),
{
    scope.stack_alloc.alloc_slot();
    emit1(gen, INSTRUCTION::PUSH, reg);
}

/// Pops the top slot, which no name is bound to, into `reg`.
pub fn pop_anoynomus_stack(reg: &str, scope: &mut SymbolTable, gen: &mut Generator)
    requires
        old(scope)@.allocs > 0,
    ensures
        final(scope)@ == (SymbolTableModel { allocs: (old(scope)@.allocs - 1) as nat, ..old(scope)@ }),
        final(gen)@ == old(gen)@.add_inst(INSTRUCTION::POP, seq![reg@]),
{
    emit1(gen, INSTRUCTION::POP, reg);
    scope.stack_alloc.free();
}

/// The instruction that moves `rsp` by 8 when an odd number of slots is in use
/// (so that calls see a 16-byte aligned stack), or nothing.
pub open spec fn alignment_fix(allocs: nat, op: INSTRUCTION) -> Seq<LineModel> {
    if allocs % 2 == 0 {
        Seq::empty()
    } else {
        seq![LineModel::Instruction(op, seq!["rsp"@, "8"@])]
    }
}

/// `body` wrapped so that it runs on a 16-byte aligned stack.
pub open spec fn aligned(allocs: nat, body: Seq<LineModel>) -> Seq<LineModel> {
    alignment_fix(allocs, INSTRUCTION::SUB) + body + alignment_fix(allocs, INSTRUCTION::ADD)
}

pub open spec fn instructions_view(v: Seq<Instruction>) -> Seq<LineModel> {
    v.map_values(|i: Instruction| LineModel::Instruction(i@.0, i@.1))
}

/// Emits `body` so that it runs on a 16-byte aligned stack.
pub fn with_aligned_stack(symbol_table: &SymbolTable, gen: &mut Generator, body: Vec<Instruction>)
    ensures
        final(gen)@ == old(gen)@.add_lines(aligned(symbol_table@.allocs, instructions_view(body@))),
{
    align_stack(symbol_table, gen);
    let ghost mid = gen@;
    let ghost bv = instructions_view(body@);
    let mut body = body;
    let ghost n = body@.len();
    while body.len() > 0
        invariant
            bv.len() == n,
            body@.len() <= n,
            instructions_view(body@) == bv.skip(n - body@.len()),
            gen@ == mid.add_lines(bv.take(n - body@.len())),
        decreases body@.len(),
    {
        let ghost k = n - body@.len();
        let ghost ob = body@;
        let inst = body.remove(0);
        proof {
            assert(instructions_view(ob)[0] == bv.skip(k)[0]);
            assert(LineModel::Instruction(inst@.0, inst@.1) == bv[k]);
            assert(bv.take(k + 1) =~= bv.take(k).push(bv[k]));
            assert forall|j: int| 0 <= j < body@.len() implies instructions_view(body@)[j] == bv.skip(k + 1)[j] by {
                assert(body@[j] == ob[j + 1]);
                assert(instructions_view(ob)[j + 1] == bv.skip(k)[j + 1]);
            }
            assert(instructions_view(body@) =~= bv.skip(k + 1));
        }
        gen.add_inst(inst);
        proof {
            assert(gen@.text =~= mid.add_lines(bv.take(k + 1)).text);
        }
    }
    proof {
        assert(bv.take(n as int) =~= bv);
    }
    unalign_stack(symbol_table, gen);
}

fn align_stack(scope: &SymbolTable, gen: &mut Generator)
    ensures
        final(gen)@ == old(gen)@.add_lines(alignment_fix(scope@.allocs, INSTRUCTION::SUB)),
{
    let is_aligned = scope.get_stack_allocs() % 2 == 0;
    if !is_aligned {
        emit2(gen, INSTRUCTION::SUB, "rsp", "8");
    }
    proof {
        assert(gen@ =~= old(gen)@.add_lines(alignment_fix(scope@.allocs, INSTRUCTION::SUB)));
    }
}

fn unalign_stack(scope: &SymbolTable, gen: &mut Generator)
    ensures
        final(gen)@ == old(gen)@.add_lines(alignment_fix(scope@.allocs, INSTRUCTION::ADD)),
{
    let is_aligned = scope.get_stack_allocs() % 2 == 0;
    if !is_aligned {
        emit2(gen, INSTRUCTION::ADD, "rsp", "8");
    }
    proof {
        assert(gen@ =~= old(gen)@.add_lines(alignment_fix(scope@.allocs, INSTRUCTION::ADD)));
    }
}

} // verus!
