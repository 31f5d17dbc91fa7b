use vstd::prelude::*;

use crate::asm_generator::asm_helpers::INSTRUCTION;
use crate::asm_generator::calling_convention_imp::{
    arg_op, call_lines, load_args, spill_bindings, stack_ref, ArgModel,
};
use crate::asm_generator::code_generator::LineModel;
use crate::ast_parser::ast_util::{aligned, alignment_fix};
use crate::ast_parser::symbol_table::slot_offset;
use crate::ast_parser::{
    args_code, assignment_code, base64_url_no_pad, call_code, call_effect, call_free, emit,
    expression_code, lemma_args_code_pushes_temps, operator_instruction, pop_temps, push_reg,
    stack_args, temp_name, value_code, CodegenState,
};
use crate::ast_types::{Assignment, Expression, Function, Value};
use crate::text::trim_char;

verus! {

/// How many of `lines` are instructions `op`.
pub open spec fn count_op(lines: Seq<LineModel>, op: INSTRUCTION) -> nat
    decreases lines.len(),
{
    if lines.len() == 0 {
        0
    } else {
        count_op(lines.drop_last(), op) + match lines.last() {
            LineModel::Instruction(o, _) => if o == op {
                1nat
            } else {
                0nat
            },
            LineModel::Label(_) => 0nat,
        }
    }
}

/// Whether `lines` neither push onto nor pop off the machine stack.
pub open spec fn stack_neutral(lines: Seq<LineModel>) -> bool {
    count_op(lines, INSTRUCTION::PUSH) == 0 && count_op(lines, INSTRUCTION::POP) == 0
}

proof fn lemma_count_concat(a: Seq<LineModel>, b: Seq<LineModel>, op: INSTRUCTION)
    ensures
        count_op(a + b, op) == count_op(a, op) + count_op(b, op),
    decreases b.len(),
{
    if b.len() == 0 {
        assert(a + b =~= a);
    } else {
        lemma_count_concat(a, b.drop_last(), op);
        assert((a + b).drop_last() =~= a + b.drop_last());
        assert((a + b).last() == b.last());
    }
}

proof fn lemma_neutral_concat(a: Seq<LineModel>, b: Seq<LineModel>)
    ensures
        stack_neutral(a) && stack_neutral(b) ==> stack_neutral(a + b),
        count_op(a + b, INSTRUCTION::PUSH) == count_op(a, INSTRUCTION::PUSH) + count_op(b, INSTRUCTION::PUSH),
        count_op(a + b, INSTRUCTION::POP) == count_op(a, INSTRUCTION::POP) + count_op(b, INSTRUCTION::POP),
{
    lemma_count_concat(a, b, INSTRUCTION::PUSH);
    lemma_count_concat(a, b, INSTRUCTION::POP);
}

proof fn lemma_count_one(l: LineModel, op: INSTRUCTION)
    ensures
        count_op(seq![l], op) == (match l {
            LineModel::Instruction(o, _) => if o == op {
                1nat
            } else {
                0nat
            },
            LineModel::Label(_) => 0nat,
        }),
{
    assert(seq![l].drop_last() =~= Seq::<LineModel>::empty());
    assert(count_op(Seq::<LineModel>::empty(), op) == 0);
    assert(seq![l].last() == l);
}

/// The lines that a value's code adds: no push and no pop.
proof fn lemma_value_lines(v: Value, st: CodegenState) -> (d: Seq<LineModel>)
    ensures
        value_code(v, st) matches Ok((st2, _)) ==> st2.0.text == st.0.text + d && stack_neutral(d),
{
    match v {
        Value::Varname(x) => {
            let d = seq![LineModel::Instruction(INSTRUCTION::MOVQ, seq!["xmm0"@, stack_ref(st.1.visible[x.value@] as nat)])];
            lemma_count_one(d[0], INSTRUCTION::PUSH);
            lemma_count_one(d[0], INSTRUCTION::POP);
            assert(seq![d[0]] =~= d);
            d
        },
        Value::Number(_) => {
            let a = seq![v_line_mov(v)];
            let b = seq![LineModel::Instruction(INSTRUCTION::MOVQ, seq!["xmm0"@, "rdx"@])];
            lemma_count_one(a[0], INSTRUCTION::PUSH);
            lemma_count_one(a[0], INSTRUCTION::POP);
            lemma_count_one(b[0], INSTRUCTION::PUSH);
            lemma_count_one(b[0], INSTRUCTION::POP);
            assert(seq![a[0]] =~= a);
            assert(seq![b[0]] =~= b);
            lemma_neutral_concat(a, b);
            a + b
        },
        Value::String(sv) => {
            let d = seq![LineModel::Instruction(
                INSTRUCTION::MOV,
                seq!["rdx"@, base64_url_no_pad(trim_char(sv.value@, '"'))],
            )];
            lemma_count_one(d[0], INSTRUCTION::PUSH);
            lemma_count_one(d[0], INSTRUCTION::POP);
            assert(seq![d[0]] =~= d);
            d
        },
    }
}

/// The first line of a number's code.
spec fn v_line_mov(v: Value) -> LineModel {
    match v {
        Value::Number(n) => LineModel::Instruction(
            INSTRUCTION::MOV,
            seq!["rdx"@, crate::ast_parser::float_literal(n.value@)],
        ),
        _ => LineModel::Label(Seq::empty()),
    }
}


/// The lines that the code of an expression without calls adds: no push and no pop.
proof fn lemma_call_free_lines(e: Expression, st: CodegenState) -> (d: Seq<LineModel>)
    requires
        call_free(e),
    ensures
        expression_code(e, st) matches Ok((st2, _)) ==> st2.0.text == st.0.text + d && stack_neutral(d),
    decreases e,
{
    match e {
        Expression::Value(v) => lemma_value_lines(v, st),
        Expression::Complex(c) => {
            if c.expression@.len() == 0 {
                Seq::empty()
            } else {
                let d1 = lemma_call_free_lines(c.expression@[0], st);
                match expression_code(c.expression@[0], st) {
                    Ok((st1, _)) => {
                        let mv = LineModel::Instruction(INSTRUCTION::MOVSD, seq!["xmm1"@, "xmm0"@]);
                        let st2 = emit(st1, INSTRUCTION::MOVSD, seq!["xmm1"@, "xmm0"@]);
                        let d2 = lemma_value_lines(c.value, st2);
                        let op = LineModel::Instruction(
                            operator_instruction(c.opperator.value@),
                            seq!["xmm0"@, "xmm1"@],
                        );
                        lemma_count_one(mv, INSTRUCTION::PUSH);
                        lemma_count_one(mv, INSTRUCTION::POP);
                        lemma_count_one(op, INSTRUCTION::PUSH);
                        lemma_count_one(op, INSTRUCTION::POP);
                        lemma_neutral_concat(d1, seq![mv]);
                        lemma_neutral_concat(d1 + seq![mv], d2);
                        lemma_neutral_concat(d1 + seq![mv] + d2, seq![op]);
                        if let Ok((st3, _)) = value_code(c.value, st2) {
                            assert(st2.0.text =~= st.0.text + (d1 + seq![mv]));
                            assert(st3.0.text =~= st.0.text + (d1 + seq![mv] + d2));
                            assert(st3.0.text.push(op) =~= st.0.text + (d1 + seq![mv] + d2 + seq![op]));
                        }
                        d1 + seq![mv] + d2 + seq![op]
                    },
                    Err(_) => Seq::empty(),
                }
            }
        },
        Expression::Function(_) => Seq::empty(),
    }
}

/// The lines that evaluating arguments without calls adds: one push per
/// argument and no pop.
proof fn lemma_args_lines(args: Seq<Expression>, st: CodegenState, pushed: Seq<(Seq<char>, usize)>) -> (d: Seq<LineModel>)
    requires
        forall|i: int| 0 <= i < args.len() ==> call_free(#[trigger] args[i]),
    ensures
        args_code(args, st, pushed) matches Ok((st2, _)) ==> {
            &&& st2.0.text == st.0.text + d
            &&& count_op(d, INSTRUCTION::PUSH) == args.len()
            &&& count_op(d, INSTRUCTION::POP) == 0
        },
    decreases args,
{
    if args.len() == 0 {
        assert(st.0.text + Seq::<LineModel>::empty() =~= st.0.text);
        Seq::empty()
    } else {
        assert(call_free(args[0]));
        let d1 = lemma_call_free_lines(args[0], st);
        match expression_code(args[0], st) {
            Ok((st1, _)) => {
                let st2 = emit(st1, INSTRUCTION::MOVQ, seq!["rdx"@, "xmm0"@]);
                let tmp = temp_name(pushed.len());
                let off = slot_offset(st2.1.allocs) as usize;
                let st3 = push_reg(st2, tmp, "rdx"@, false);
                let rest = args.drop_first();
                assert forall|i: int| 0 <= i < rest.len() implies call_free(#[trigger] rest[i]) by {
                    assert(rest[i] == args[i + 1]);
                }
                let d3 = lemma_args_lines(rest, st3, pushed.push((tmp, off)));
                let mv = LineModel::Instruction(INSTRUCTION::MOVQ, seq!["rdx"@, "xmm0"@]);
                let pu = LineModel::Instruction(INSTRUCTION::PUSH, seq!["rdx"@]);
                lemma_count_one(mv, INSTRUCTION::PUSH);
                lemma_count_one(mv, INSTRUCTION::POP);
                lemma_count_one(pu, INSTRUCTION::PUSH);
                lemma_count_one(pu, INSTRUCTION::POP);
                lemma_neutral_concat(d1, seq![mv]);
                lemma_neutral_concat(d1 + seq![mv], seq![pu]);
                lemma_neutral_concat(d1 + seq![mv] + seq![pu], d3);
                assert(st3.0.text =~= st.0.text + (d1 + seq![mv] + seq![pu]));
                if let Ok((st4, _)) = args_code(rest, st3, pushed.push((tmp, off))) {
                    assert(args_code(args, st, pushed) == args_code(rest, st3, pushed.push((tmp, off))));
                    assert(st4.0.text =~= st.0.text + (d1 + seq![mv] + seq![pu] + d3));
                }
                d1 + seq![mv] + seq![pu] + d3
            },
            Err(_) => Seq::empty(),
        }
    }
}

/// Popping the temporaries adds one `POP` per temporary and no push.
proof fn lemma_pop_lines(pushed: Seq<(Seq<char>, usize)>, st: CodegenState) -> (d: Seq<LineModel>)
    ensures
        pop_temps(pushed, st).0.text == st.0.text + d,
        count_op(d, INSTRUCTION::POP) == pushed.len(),
        count_op(d, INSTRUCTION::PUSH) == 0,
    decreases pushed.len(),
{
    if pushed.len() == 0 {
        assert(st.0.text + Seq::<LineModel>::empty() =~= st.0.text);
        Seq::empty()
    } else {
        let name = pushed[0].0;
        let s = st.1;
        let s1 = if s.hidden.contains_key(name) {
            crate::ast_parser::symbol_table::SymbolTableModel { hidden: s.hidden.remove(name), allocs: (s.allocs - 1) as nat, ..s }
        } else {
            s
        };
        let po = LineModel::Instruction(INSTRUCTION::POP, seq!["rdx"@]);
        let st1 = (st.0.add_inst(INSTRUCTION::POP, seq!["rdx"@]), s1);
        let d1 = lemma_pop_lines(pushed.drop_first(), st1);
        lemma_count_one(po, INSTRUCTION::PUSH);
        lemma_count_one(po, INSTRUCTION::POP);
        lemma_neutral_concat(seq![po], d1);
        assert(pop_temps(pushed, st) == pop_temps(pushed.drop_first(), st1));
        assert(pop_temps(pushed, st).0.text =~= st.0.text + (seq![po] + d1));
        seq![po] + d1
    }
}

proof fn lemma_load_args_neutral(args: Seq<ArgModel>, ni: nat, nf: nat)
    ensures
        stack_neutral(load_args(args, ni, nf).0),
    decreases args.len(),
{
    assert(count_op(Seq::<LineModel>::empty(), INSTRUCTION::PUSH) == 0);
    assert(count_op(Seq::<LineModel>::empty(), INSTRUCTION::POP) == 0);
    if args.len() > 0 {
        let a = args[0];
        if crate::asm_generator::calling_convention_imp::is_float_arg(a) {
            if nf < 8 {
                let l = LineModel::Instruction(
                    arg_op(a),
                    seq![crate::asm_generator::calling_convention_imp::FLOAT_REGISTERS[nf as int]@, crate::asm_generator::calling_convention_imp::arg_source(a)],
                );
                lemma_load_args_neutral(args.drop_first(), ni, nf + 1);
                lemma_count_one(l, INSTRUCTION::PUSH);
                lemma_count_one(l, INSTRUCTION::POP);
                lemma_neutral_concat(seq![l], load_args(args.drop_first(), ni, nf + 1).0);
            }
        } else {
            if ni < 6 {
                let l = LineModel::Instruction(
                    arg_op(a),
                    seq![crate::asm_generator::calling_convention_imp::INT_REGISTERS[ni as int]@, crate::asm_generator::calling_convention_imp::arg_source(a)],
                );
                lemma_load_args_neutral(args.drop_first(), ni + 1, nf);
                lemma_count_one(l, INSTRUCTION::PUSH);
                lemma_count_one(l, INSTRUCTION::POP);
                lemma_neutral_concat(seq![l], load_args(args.drop_first(), ni + 1, nf).0);
            }
        }
    }
}

proof fn lemma_fix_neutral(allocs: nat, op: INSTRUCTION)
    requires
        op != INSTRUCTION::PUSH,
        op != INSTRUCTION::POP,
    ensures
        stack_neutral(alignment_fix(allocs, op)),
        op != INSTRUCTION::CALL ==> count_op(alignment_fix(allocs, op), INSTRUCTION::CALL) == 0,
{
    if allocs % 2 != 0 {
        let l = LineModel::Instruction(op, seq!["rsp"@, "8"@]);
        assert(alignment_fix(allocs, op) == seq![l]);
        lemma_count_one(l, INSTRUCTION::PUSH);
        lemma_count_one(l, INSTRUCTION::POP);
        lemma_count_one(l, INSTRUCTION::CALL);
    } else {
        assert(alignment_fix(allocs, op) == Seq::<LineModel>::empty());
        assert(count_op(Seq::<LineModel>::empty(), INSTRUCTION::PUSH) == 0);
        assert(count_op(Seq::<LineModel>::empty(), INSTRUCTION::POP) == 0);
        assert(count_op(Seq::<LineModel>::empty(), INSTRUCTION::CALL) == 0);
    }
}

/// A call of a known function whose arguments make no calls pushes one slot per
/// argument, calls the function, and only after the `CALL` pops: exactly one
/// `POP` per argument, so the machine stack is as deep after the call as before.
pub proof fn lemma_call_pops_what_it_pushes(f: Function, st: CodegenState)
    requires
        f.name.value@ != "print"@,
        f.name.value@ != "anim"@,
        forall|i: int| 0 <= i < f.args@.len() ==> call_free(#[trigger] f.args@[i]),
    ensures
        call_code(f, st) matches Ok(st2) ==> ({
            let body = st2.0.text.skip(st.0.text.len() as int);
            &&& st.0.text.is_prefix_of(st2.0.text)
            &&& count_op(body, INSTRUCTION::PUSH) == f.args@.len()
            &&& count_op(body, INSTRUCTION::POP) == f.args@.len()
            &&& exists|k: int|
                0 <= k < body.len() && body[k] == LineModel::Instruction(INSTRUCTION::CALL, seq![f.name.value@])
                    && count_op(#[trigger] body.take(k), INSTRUCTION::POP) == 0
        }),
{
    let name = f.name.value@;
    let args = f.args@;
    if let Ok(st2) = call_code(f, st) {
        assert(st.1.functions.contains_key(name));
        let dA = lemma_args_lines(args, st, Seq::empty());
        lemma_args_code_pushes_temps(args, st, Seq::empty());
        let (st1, pushed) = args_code(args, st, Seq::empty())->Ok_0;
        let (loads, r) = load_args(stack_args(pushed), 0, 0);
        let nf = r->Some_0;
        let fix_sub = alignment_fix(st1.1.allocs, INSTRUCTION::SUB);
        let fix_add = alignment_fix(st1.1.allocs, INSTRUCTION::ADD);
        let call = LineModel::Instruction(INSTRUCTION::CALL, seq![name]);
        let rax = LineModel::Instruction(INSTRUCTION::MOV, seq!["RAX"@, crate::text::decimal(nf)]);
        let lines = call_lines(name, stack_args(pushed), st1.1.allocs).0;
        assert(lines == loads + seq![rax] + (fix_sub + seq![call] + fix_add));
        let stc = (st1.0.add_lines(lines), st1.1);
        assert(call_effect(st1, name, stack_args(pushed)) == Ok::<CodegenState, crate::errors::compiler_errors::CompilerErrorModel>(stc));
        let dP = lemma_pop_lines(pushed, stc);
        let mv = LineModel::Instruction(INSTRUCTION::MOVQ, seq!["rdx"@, "xmm0"@]);
        let before = dA + loads + seq![rax] + fix_sub;
        let body = before + seq![call] + fix_add + dP + seq![mv];
        assert(st2 == emit(pop_temps(pushed, stc), INSTRUCTION::MOVQ, seq!["rdx"@, "xmm0"@]));
        assert(st2.0.text =~= st.0.text + body);
        assert(st2.0.text.skip(st.0.text.len() as int) =~= body);
        assert(st.0.text =~= st2.0.text.subrange(0, st.0.text.len() as int));
        // Counts.
        lemma_load_args_neutral(stack_args(pushed), 0, 0);
        lemma_fix_neutral(st1.1.allocs, INSTRUCTION::SUB);
        lemma_fix_neutral(st1.1.allocs, INSTRUCTION::ADD);
        lemma_count_one(rax, INSTRUCTION::PUSH);
        lemma_count_one(rax, INSTRUCTION::POP);
        lemma_count_one(call, INSTRUCTION::PUSH);
        lemma_count_one(call, INSTRUCTION::POP);
        lemma_count_one(mv, INSTRUCTION::PUSH);
        lemma_count_one(mv, INSTRUCTION::POP);
        lemma_neutral_concat(dA, loads);
        lemma_neutral_concat(dA + loads, seq![rax]);
        lemma_neutral_concat(dA + loads + seq![rax], fix_sub);
        lemma_neutral_concat(before, seq![call]);
        lemma_neutral_concat(before + seq![call], fix_add);
        lemma_neutral_concat(before + seq![call] + fix_add, dP);
        lemma_neutral_concat(before + seq![call] + fix_add + dP, seq![mv]);
        let k = before.len() as int;
        assert(body.take(k) =~= before);
        assert(body[k] == call);
    }
}

/// Whether an expression's value is a floating-point number (left in `xmm0`):
/// every expression but a string, or a compound whose value is a string.
pub open spec fn gives_float(e: Expression) -> bool {
    match e {
        Expression::Value(Value::String(_)) => false,
        Expression::Complex(c) => !(c.value is String),
        _ => true,
    }
}

/// Assigning a value stores `rdx` into the variable's slot as the last step,
/// and the step before it puts the value in `rdx`: for a string literal, the
/// address of the literal's data (nothing writes `rdx` in between); for a
/// floating-point value, the value moved from `xmm0`.
pub proof fn lemma_assignment_stores_the_value(a: Assignment, st: CodegenState)
    ensures
        assignment_code(a, st) matches Ok(st2) ==> ({
            let x = a.varname.value@;
            let n = st2.0.text.len();
            &&& n >= st.0.text.len() + 1
            &&& st2.0.text[n - 1] == LineModel::Instruction(
                INSTRUCTION::MOV,
                seq![stack_ref(st.1.visible[x] as nat), "rdx"@],
            )
            &&& (a.expression matches Expression::Value(Value::String(sv)) ==> n >= st.0.text.len() + 2
                && st2.0.text[n - 2] == LineModel::Instruction(
                INSTRUCTION::MOV,
                seq!["rdx"@, base64_url_no_pad(trim_char(sv.value@, '"'))],
            ))
            &&& (gives_float(a.expression) ==> n >= st.0.text.len() + 2 && st2.0.text[n - 2]
                == LineModel::Instruction(INSTRUCTION::MOVQ, seq!["rdx"@, "xmm0"@]))
        }),
{
    if let Ok(st2) = assignment_code(a, st) {
        let x = a.varname.value@;
        let (st1, t) = expression_code(a.expression, st)->Ok_0;
        crate::ast_parser::lemma_expression_code_extends(a.expression, st);
        assert(st1.1.visible == st.1.visible);
        let stm = if t == crate::ast_parser::VarType::Float {
            emit(st1, INSTRUCTION::MOVQ, seq!["rdx"@, "xmm0"@])
        } else {
            st1
        };
        assert(st2 == emit(stm, INSTRUCTION::MOV, seq![stack_ref(st1.1.visible[x] as nat), "rdx"@]));
        assert(st.0.text.len() <= st1.0.text.len());
        match a.expression {
            Expression::Value(v) => {
                assert(expression_code(a.expression, st) == value_code(v, st));
                match v {
                    Value::String(sv) => {
                        assert(t == crate::ast_parser::VarType::String);
                        assert(stm == st1);
                    },
                    _ => {
                        assert(t == crate::ast_parser::VarType::Float);
                    },
                }
            },
            Expression::Complex(c) => {
                let (sa, _) = expression_code(c.expression@[0], st)->Ok_0;
                let sb = emit(sa, INSTRUCTION::MOVSD, seq!["xmm1"@, "xmm0"@]);
                let (_, tv) = value_code(c.value, sb)->Ok_0;
                assert(t == tv);
                if !(c.value is String) {
                    assert(t == crate::ast_parser::VarType::Float);
                }
            },
            Expression::Function(_) => {
                assert(t == crate::ast_parser::VarType::Float);
            },
        }
    }
}

/// Spilling parameters binds each one, unless a later parameter has the same
/// name, to the slot that its register is pushed into: the `i`-th parameter to
/// the `i`-th new slot. Names that are not parameters keep their bindings.
pub proof fn lemma_spill_binds_each_parameter(m: Map<Seq<char>, usize>, names: Seq<Seq<char>>, allocs: nat)
    ensures
        forall|i: int|
            0 <= i < names.len() && (forall|j: int| i < j < names.len() ==> names[j] != names[i]) ==> {
                &&& #[trigger] spill_bindings(m, names, allocs).contains_key(names[i])
                &&& spill_bindings(m, names, allocs)[names[i]] == slot_offset((allocs + i) as nat) as usize
            },
        forall|x: Seq<char>|
            !names.contains(x) ==> (#[trigger] spill_bindings(m, names, allocs).contains_key(x)
                <==> m.contains_key(x)),
        forall|x: Seq<char>|
            !names.contains(x) && m.contains_key(x) ==> #[trigger] spill_bindings(m, names, allocs)[x]
                == m[x],
    decreases names.len(),
{
    if names.len() > 0 {
        let init = names.drop_last();
        let last = names.last();
        let r0 = spill_bindings(m, init, allocs);
        let r = spill_bindings(m, names, allocs);
        lemma_spill_binds_each_parameter(m, init, allocs);
        assert(r == r0.insert(last, slot_offset((allocs + names.len() - 1) as nat) as usize));
        assert forall|i: int|
            0 <= i < names.len() && (forall|j: int| i < j < names.len() ==> names[j] != names[i]) implies {
                &&& #[trigger] spill_bindings(m, names, allocs).contains_key(names[i])
                &&& spill_bindings(m, names, allocs)[names[i]] == slot_offset((allocs + i) as nat) as usize
            } by {
            if i < names.len() - 1 {
                assert(names[names.len() - 1] != names[i]);
                assert(init[i] == names[i]);
                assert forall|j: int| i < j < init.len() implies init[j] != init[i] by {
                    assert(init[j] == names[j]);
                }
                assert(r0.contains_key(init[i]));
            }
        }
        assert forall|x: Seq<char>| !names.contains(x) implies (#[trigger] spill_bindings(m, names, allocs).contains_key(x)
            <==> m.contains_key(x)) && (m.contains_key(x) ==> spill_bindings(m, names, allocs)[x] == m[x]) by {
            if init.contains(x) {
                let j = choose|j: int| 0 <= j < init.len() && init[j] == x;
                assert(names[j] == x);
                assert(names.contains(x));
            }
            assert(names[names.len() - 1] == last);
            if last == x {
                assert(names.contains(x));
            }
            assert(r0.contains_key(x) == m.contains_key(x));
            if m.contains_key(x) {
                assert(r0[x] == m[x]);
            }
        }
    } else {
        assert(spill_bindings(m, names, allocs) == m);
    }
}

} // verus!
