use vstd::prelude::*;

use super::asm_helpers::INSTRUCTION;
use super::code_generator::{emit1, emit2, Generator, Instruction, LineModel};
use crate::ast_parser::ast_util::{aligned, instructions_view, push_reg_to_stack, with_aligned_stack};
use crate::ast_parser::symbol_table::{slot_offset, StackAllocCounter, SymbolTable, VarStack};
use crate::ast_parser::code_laws::lemma_spill_binds_each_parameter;
use crate::errors::compiler_errors::{CompilerErrorModel, CompilerErrors};
use crate::text::{decimal, push_decimal};

verus! {

/// An argument of a call, and where its value comes from.
#[derive(Clone)]
pub enum Args<'a> {
    /// An integer constant.
    Int(u32),
    /// A label or register whose value (an address) is passed as is.
    StrPtr(&'a str),
    /// A floating-point register.
    FloatReg(&'a str),
    /// A floating-point value in the stack slot at this offset.
    FloatStack(usize),
    /// An integer in the stack slot at this offset.
    IntStack(usize),
    /// An integer register.
    IntReg(&'a str),
}

/// The mathematical model of an [`Args`] value.
pub enum ArgModel {
    Int(u32),
    StrPtr(Seq<char>),
    FloatReg(Seq<char>),
    FloatStack(usize),
    IntStack(usize),
    IntReg(Seq<char>),
}

impl<'a> View for Args<'a> {
    type V = ArgModel;

    open spec fn view(&self) -> ArgModel {
        match self {
            Args::Int(i) => ArgModel::Int(*i),
            Args::StrPtr(s) => ArgModel::StrPtr(s@),
            Args::FloatReg(s) => ArgModel::FloatReg(s@),
            Args::FloatStack(o) => ArgModel::FloatStack(*o),
            Args::IntStack(o) => ArgModel::IntStack(*o),
            Args::IntReg(s) => ArgModel::IntReg(s@),
        }
    }
}

/// The registers that carry integer arguments, in order.
pub const INT_REGISTERS: [&'static str; 6] = ["RDI", "RSI", "RDX", "RCX", "R82", "R9"];

/// The registers that carry floating-point arguments, in order.
pub const FLOAT_REGISTERS: [&'static str; 8] = [
    "XMM0",
    "XMM1",
    "XMM2",
    "XMM3",
    "XMM4",
    "XMM5",
    "XMM6",
    "XMM7",
];

/// The lines that move the first `n` floating-point argument registers into
/// new stack slots.
pub open spec fn spill_lines(n: nat) -> Seq<LineModel>
    decreases n,
{
    if n == 0 {
        Seq::empty()
    } else {
        spill_lines((n - 1) as nat) + seq![
            LineModel::Instruction(INSTRUCTION::MOVQ, seq!["rdx"@, FLOAT_REGISTERS[n - 1]@]),
            LineModel::Instruction(INSTRUCTION::PUSH, seq!["rdx"@]),
        ]
    }
}

/// `m` with each of `names` bound to the slot it gets when the slots are
/// allocated in order after `allocs` slots.
pub open spec fn spill_bindings(m: Map<Seq<char>, usize>, names: Seq<Seq<char>>, allocs: nat) -> Map<Seq<char>, usize>
    decreases names.len(),
{
    if names.len() == 0 {
        m
    } else {
        spill_bindings(m, names.drop_last(), allocs).insert(
            names.last(),
            slot_offset((allocs + names.len() - 1) as nat) as usize,
        )
    }
}

/// How many arguments fit in the floating-point argument registers.
pub open spec fn spilled_count(n: nat) -> nat {
    if n <= 8 {
        n
    } else {
        8
    }
}

/// Stores the floating-point argument registers of a function's parameters
/// `args` into new stack slots, binding each parameter to its slot; fails when
/// there are more parameters than registers (after storing those that fit).
pub fn push_values_from_arg_reg_into_stack(
    args: &[&str],
    gen: &mut Generator,
    stack: &mut VarStack,
    stack_alloc: &mut StackAllocCounter,
) -> (r: Result<(), CompilerErrors>)
    requires
        slot_offset(old(stack_alloc)@ + 8) <= usize::MAX,
    ensures
        ({
            let names = args@.map_values(|a: &str| a@);
            let k = spilled_count(args@.len());
            &&& final(gen)@ == old(gen)@.add_lines(spill_lines(k))
            &&& final(stack)@ == spill_bindings(old(stack)@, names.take(k as int), old(stack_alloc)@)
            &&& final(stack_alloc)@ == old(stack_alloc)@ + k
        }),
        r is Ok <==> args@.len() <= 8,
        r matches Err(e) ==> e@ == CompilerErrorModel::OutOfRegisters,
        // Each stored parameter (unless a later one has its name) is bound to
        // the slot that its register was pushed into.
        forall|i: int|
            0 <= i < spilled_count(args@.len()) && (forall|j: int|
                i < j < spilled_count(args@.len()) ==> args@[j]@ != args@[i]@) ==> {
                &&& #[trigger] final(stack)@.contains_key(args@[i]@)
                &&& final(stack)@[args@[i]@] == slot_offset((old(stack_alloc)@ + i) as nat) as usize
            },
{
    let ghost names = args@.map_values(|a: &str| a@);
    let mut i: usize = 0;
    proof {
        assert(names.take(0) =~= Seq::<Seq<char>>::empty());
        assert(old(gen)@.add_lines(spill_lines(0)) =~= old(gen)@);
    }
    while i < args.len()
        invariant
            i <= args@.len(),
            i <= 8,
            names == args@.map_values(|a: &str| a@),
            gen@ == old(gen)@.add_lines(spill_lines(i as nat)),
            stack@ == spill_bindings(old(stack)@, names.take(i as int), old(stack_alloc)@),
            stack_alloc@ == old(stack_alloc)@ + i,
            slot_offset(old(stack_alloc)@ + 8) <= usize::MAX,
        decreases args@.len() - i,
    {
        if i >= 8 {
            proof {
                lemma_spill_binds_each_parameter(old(stack)@, names.take(i as int), old(stack_alloc)@);
                assert forall|a: int|
                    0 <= a < i && (forall|j: int| a < j < i ==> args@[j]@ != args@[a]@) implies {
                        &&& #[trigger] stack@.contains_key(args@[a]@)
                        &&& stack@[args@[a]@] == slot_offset((old(stack_alloc)@ + a) as nat) as usize
                    } by {
                    let t = names.take(i as int);
                    assert(t[a] == args@[a]@);
                    assert forall|j: int| a < j < t.len() implies t[j] != t[a] by {
                        assert(t[j] == args@[j]@);
                    }
                    assert(spill_bindings(old(stack)@, t, old(stack_alloc)@).contains_key(t[a]));
                }
            }
            return Err(CompilerErrors::OutOfRegisters());
        }
        let reg = FLOAT_REGISTERS[i];
        emit2(gen, INSTRUCTION::MOVQ, "rdx", reg);
        push_reg_to_stack(args[i], stack, stack_alloc, gen, "rdx");
        proof {
            assert(names.take(i + 1).drop_last() =~= names.take(i as int));
            assert(gen@ =~= old(gen)@.add_lines(spill_lines((i + 1) as nat)));
        }
        i = i + 1;
    }
    proof {
        lemma_spill_binds_each_parameter(old(stack)@, names.take(i as int), old(stack_alloc)@);
        assert forall|a: int|
            0 <= a < i && (forall|j: int| a < j < i ==> args@[j]@ != args@[a]@) implies {
                &&& #[trigger] stack@.contains_key(args@[a]@)
                &&& stack@[args@[a]@] == slot_offset((old(stack_alloc)@ + a) as nat) as usize
            } by {
            let t = names.take(i as int);
            assert(t[a] == args@[a]@);
            assert forall|j: int| a < j < t.len() implies t[j] != t[a] by {
                assert(t[j] == args@[j]@);
            }
            assert(spill_bindings(old(stack)@, t, old(stack_alloc)@).contains_key(t[a]));
        }
        assert(names.take(args@.len() as int) =~= names);
    }
    Ok(())
}

/// The operand that addresses the stack slot at `offset` below the frame base.
pub open spec fn stack_ref(offset: nat) -> Seq<char> {
    "[rbp-"@ + decimal(offset) + "]"@
}

/// Appends the operand that addresses the stack slot at `offset`.
pub fn push_stack_ref(out: &mut String, offset: usize)
    ensures
        final(out)@ == old(out)@ + stack_ref(offset as nat),
{
    out.append("[rbp-");
    push_decimal(out, offset);
    out.append("]");
}

/// The operand `[rbp-offset]` as a string.
pub fn stack_ref_string(offset: usize) -> (s: String)
    ensures
        s@ == stack_ref(offset as nat),
{
    let mut s = String::new();
    push_stack_ref(&mut s, offset);
    s
}

pub open spec fn is_float_arg(a: ArgModel) -> bool {
    a is FloatReg || a is FloatStack
}

/// The instruction that loads an argument into its register.
pub open spec fn arg_op(a: ArgModel) -> INSTRUCTION {
    match a {
        ArgModel::FloatReg(_) => INSTRUCTION::MOVAPD,
        ArgModel::FloatStack(_) => INSTRUCTION::MOVQ,
        _ => INSTRUCTION::MOV,
    }
}

/// The source operand of that instruction.
pub open spec fn arg_source(a: ArgModel) -> Seq<char> {
    match a {
        ArgModel::Int(i) => decimal(i as nat),
        ArgModel::StrPtr(s) => s,
        ArgModel::FloatReg(s) => s,
        ArgModel::FloatStack(o) => stack_ref(o as nat),
        ArgModel::IntStack(o) => stack_ref(o as nat),
        ArgModel::IntReg(s) => s,
    }
}

/// The lines that load `args` into registers when `ni` integer and `nf`
/// floating-point registers are already taken, and the number of
/// floating-point registers in use afterwards; `None` when the registers of
/// one kind run out (the lines are then those emitted before that happened).
pub open spec fn load_args(args: Seq<ArgModel>, ni: nat, nf: nat) -> (Seq<LineModel>, Option<nat>)
    decreases args.len(),
{
    if args.len() == 0 {
        (Seq::empty(), Some(nf))
    } else {
        let a = args[0];
        if is_float_arg(a) {
            if nf >= 8 {
                (Seq::empty(), None)
            } else {
                let l = LineModel::Instruction(arg_op(a), seq![FLOAT_REGISTERS[nf as int]@, arg_source(a)]);
                let rest = load_args(args.drop_first(), ni, nf + 1);
                (seq![l] + rest.0, rest.1)
            }
        } else {
            if ni >= 6 {
                (Seq::empty(), None)
            } else {
                let l = LineModel::Instruction(arg_op(a), seq![INT_REGISTERS[ni as int]@, arg_source(a)]);
                let rest = load_args(args.drop_first(), ni + 1, nf);
                (seq![l] + rest.0, rest.1)
            }
        }
    }
}

/// The lines of a call of `fn_name` with `args` when `allocs` slots are in use:
/// the arguments are loaded, `RAX` gets the number of floating-point registers
/// used, and the call runs on an aligned stack. The flag is false when the
/// registers ran out (the call is then not emitted).
pub open spec fn call_lines(fn_name: Seq<char>, args: Seq<ArgModel>, allocs: nat) -> (Seq<LineModel>, bool) {
    let (loads, r) = load_args(args, 0, 0);
    match r {
        None => (loads, false),
        Some(nf) => (
            loads + seq![LineModel::Instruction(INSTRUCTION::MOV, seq!["RAX"@, decimal(nf)])]
                + aligned(allocs, seq![LineModel::Instruction(INSTRUCTION::CALL, seq![fn_name])]),
            true,
        ),
    }
}

/// The number of arguments that go in integer registers.
pub open spec fn int_arg_count(args: Seq<ArgModel>) -> nat
    decreases args.len(),
{
    if args.len() == 0 {
        0
    } else {
        (if is_float_arg(args[0]) { 0nat } else { 1nat }) + int_arg_count(args.drop_first())
    }
}

/// The number of arguments that go in floating-point registers.
pub open spec fn float_arg_count(args: Seq<ArgModel>) -> nat
    decreases args.len(),
{
    if args.len() == 0 {
        0
    } else {
        (if is_float_arg(args[0]) { 1nat } else { 0nat }) + float_arg_count(args.drop_first())
    }
}

proof fn lemma_load_args_registers(args: Seq<ArgModel>, ni: nat, nf: nat)
    requires
        ni <= 6,
        nf <= 8,
    ensures
        load_args(args, ni, nf).1 is Some <==> ni + int_arg_count(args) <= 6 && nf + float_arg_count(args) <= 8,
        load_args(args, ni, nf).1 matches Some(k) ==> k == nf + float_arg_count(args) && load_args(args, ni, nf).0.len() == args.len(),
    decreases args.len(),
{
    if args.len() > 0 {
        let a = args[0];
        if is_float_arg(a) {
            if nf < 8 {
                lemma_load_args_registers(args.drop_first(), ni, nf + 1);
            }
        } else {
            if ni < 6 {
                lemma_load_args_registers(args.drop_first(), ni + 1, nf);
            }
        }
    }
}

/// A call can be emitted exactly when its integer arguments fit in the six
/// integer argument registers and its floating-point arguments in the eight
/// SSE registers; it then loads one register per argument, tells the callee in
/// `RAX` how many SSE registers it used, and makes the call.
pub proof fn lemma_call_with_registers(fn_name: Seq<char>, args: Seq<ArgModel>, allocs: nat)
    ensures
        call_lines(fn_name, args, allocs).1 <==> int_arg_count(args) <= 6 && float_arg_count(args) <= 8,
        call_lines(fn_name, args, allocs).1 ==> call_lines(fn_name, args, allocs).0[args.len() as int]
            == LineModel::Instruction(INSTRUCTION::MOV, seq!["RAX"@, decimal(float_arg_count(args))]),
        call_lines(fn_name, args, allocs).1 ==> aligned(allocs, seq![LineModel::Instruction(INSTRUCTION::CALL, seq![fn_name])]).is_suffix_of(call_lines(fn_name, args, allocs).0),
{
    lemma_load_args_registers(args, 0, 0);
    let (loads, r) = load_args(args, 0, 0);
    if let Some(nf) = r {
        let body = aligned(allocs, seq![LineModel::Instruction(INSTRUCTION::CALL, seq![fn_name])]);
        let all = loads + seq![LineModel::Instruction(INSTRUCTION::MOV, seq!["RAX"@, decimal(nf)])] + body;
        assert(all.subrange(all.len() - body.len(), all.len() as int) =~= body);
    }
}

pub open spec fn args_view(args: Seq<Args>) -> Seq<ArgModel> {
    args.map_values(|a: Args| a@)
}

/// Emits a call of `fn_name` with `args` following the System V calling
/// convention: each argument is loaded into the next free register of its kind.
pub fn call_with(fn_name: &str, args: &[Args], gen: &mut Generator, scope: &SymbolTable) -> (r: Result<
    (),
    CompilerErrors,
>)
    ensures
        final(gen)@ == old(gen)@.add_lines(call_lines(fn_name@, args_view(args@), scope@.allocs).0),
        r is Ok <==> call_lines(fn_name@, args_view(args@), scope@.allocs).1,
        r matches Err(e) ==> e@ == CompilerErrorModel::OutOfRegisters,
{
    let ghost av = args_view(args@);
    let ghost start = gen@;
    let mut ni: usize = 0;
    let mut nf: usize = 0;
    let mut i: usize = 0;
    proof {
        assert(av.skip(0) =~= av);
        assert(gen@.text + Seq::<LineModel>::empty() =~= gen@.text);
    }
    while i < args.len()
        invariant
            i <= args@.len(),
            av == args_view(args@),
            start == old(gen)@,
            ni <= 6,
            nf <= 8,
            ({
                let whole = load_args(av, 0, 0);
                let rest = load_args(av.skip(i as int), ni as nat, nf as nat);
                &&& gen@.text + rest.0 == start.text + whole.0
                &&& rest.1 == whole.1
                &&& gen@ == (crate::asm_generator::code_generator::GeneratorModel { text: gen@.text, ..start })
            }),
        decreases args@.len() - i,
    {
        let ghost rest_before = av.skip(i as int);
        proof {
            assert(rest_before[0] == args@[i as int]@);
            assert(rest_before.drop_first() =~= av.skip(i + 1));
        }
        let a = &args[i];
        let is_float = match a {
            Args::FloatReg(_) => true,
            Args::FloatStack(_) => true,
            _ => false,
        };
        if (is_float && nf >= 8) || (!is_float && ni >= 6) {
            proof {
                assert(is_float == is_float_arg(rest_before[0]));
                let rest = load_args(rest_before, ni as nat, nf as nat);
                assert(rest.0 =~= Seq::<LineModel>::empty());
                assert(rest.1 is None);
                assert(gen@.text =~= gen@.text + rest.0);
                let whole = load_args(av, 0, 0);
                assert(whole.1 is None);
                assert(call_lines(fn_name@, av, scope@.allocs).0 == whole.0);
                assert(gen@.text + rest.0 == start.text + whole.0);
                assert(start == old(gen)@);
                assert(gen@.text =~= old(gen)@.text + whole.0);
                assert(gen@ =~= old(gen)@.add_lines(call_lines(fn_name@, av, scope@.allocs).0));
            }
            return Err(CompilerErrors::OutOfRegisters());
        }
        match a {
            Args::Int(v) => {
                let mut src = String::new();
                push_decimal(&mut src, *v as usize);
                emit2(gen, INSTRUCTION::MOV, INT_REGISTERS[ni], src.as_str());
                ni = ni + 1;
            },
            Args::StrPtr(s) => {
                emit2(gen, INSTRUCTION::MOV, INT_REGISTERS[ni], s);
                ni = ni + 1;
            },
            Args::FloatReg(s) => {
                emit2(gen, INSTRUCTION::MOVAPD, FLOAT_REGISTERS[nf], s);
                nf = nf + 1;
            },
            Args::FloatStack(o) => {
                let src = stack_ref_string(*o);
                emit2(gen, INSTRUCTION::MOVQ, FLOAT_REGISTERS[nf], src.as_str());
                nf = nf + 1;
            },
            Args::IntStack(o) => {
                let src = stack_ref_string(*o);
                emit2(gen, INSTRUCTION::MOV, INT_REGISTERS[ni], src.as_str());
                ni = ni + 1;
            },
            Args::IntReg(s) => {
                emit2(gen, INSTRUCTION::MOV, INT_REGISTERS[ni], s);
                ni = ni + 1;
            },
        }
        i = i + 1;
    }
    let mut count = String::new();
    push_decimal(&mut count, nf);
    emit2(gen, INSTRUCTION::MOV, "RAX", count.as_str());
    let call = Instruction::from(INSTRUCTION::CALL, &[fn_name]);
    assert(call@.1 =~= seq![fn_name@]);
    let mut body: Vec<Instruction> = Vec::new();
    body.push(call);
    proof {
        assert(av.skip(args@.len() as int) =~= Seq::<ArgModel>::empty());
        assert(instructions_view(body@) =~= seq![LineModel::Instruction(INSTRUCTION::CALL, seq![fn_name@])]);
    }
    with_aligned_stack(scope, gen, body);
    proof {
        assert(gen@ =~= old(gen)@.add_lines(call_lines(fn_name@, av, scope@.allocs).0));
    }
    Ok(())
}

} // verus!
