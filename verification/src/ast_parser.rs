use vstd::prelude::*;

use crate::asm_generator::asm_helpers::INSTRUCTION;
use crate::asm_generator::calling_convention_imp::{
    args_view, call_lines, call_with, spill_bindings, spill_lines, spilled_count, stack_ref,
    stack_ref_string, ArgModel, Args,
};
use crate::asm_generator::code_generator::{
    emit1, emit2, Data, DataModel, Generator, GeneratorModel, LineModel,
};
use crate::asm_generator::asm_helpers::{animation_code, gen_animation};
use crate::asm_generator::code_generator::Instruction;
use crate::ast_parser::ast_functions::{end_stack_frame, start_stack_frame};
use crate::ast_parser::ast_util::{aligned, instructions_view, push_reg_to_stack, with_aligned_stack};
use crate::ast_parser::symbol_table::{
    add_binding, anim_stack_push, distinct_slots, lemma_add_keeps_slots_distinct, slot_offset,
    AnimPair, FunctionType, SymbolTable, SymbolTableModel,
};
use crate::ast_types::{
    Assignment, ComplexExpression, Expression, File, FnDeclaration, Function, Line, Operator,
    Value, VarDeclaration,
};
use crate::errors::compiler_errors::{CompilerErrorModel, CompilerErrors};
use crate::text::{decimal, lemma_decimal_injective, push_decimal, str_equals, trim_char, trim_matches_char};
use base64::Engine;

pub mod ast_functions;
pub mod checks;
pub mod code_laws;
pub mod ast_util;
pub mod symbol_table;

verus! {

/// What an expression leaves behind: a floating-point value in `xmm0`, or the
/// address of a string in `rdx`.
#[derive(Clone, Copy, Debug, PartialEq, Eq, Structural)]
pub enum VarType {
    Float,
    String,
}

/// The generator and the symbol table between two steps of code generation.
pub type CodegenState = (GeneratorModel, SymbolTableModel);

/// The name under which the bytes of a string literal are stored in the data
/// section: the URL-safe Base64 encoding, without padding, of the UTF-8 bytes of
/// `text`.
pub uninterp spec fn base64_url_no_pad(text: Seq<char>) -> Seq<char>;

/// `base64::engine::general_purpose::URL_SAFE_NO_PAD.encode`: the URL-safe Base64
/// encoding, without padding, of the UTF-8 bytes of `text`; the contract names
/// the result and says nothing more about it.
#[verifier::external_body]
fn encode_data_name(text: &str) -> (name: String)
    ensures
        name@ == base64_url_no_pad(text@),
{
    base64::engine::general_purpose::URL_SAFE_NO_PAD.encode(text)
}

/// The most stack slots (plus pending animations) that a program may need.
pub open spec fn alloc_limit() -> nat {
    0x1000_0000
}

/// The slots in use plus the pending animations.
pub open spec fn stack_load(s: SymbolTableModel) -> nat {
    s.allocs + s.anim.len()
}

pub open spec fn emit(st: CodegenState, op: INSTRUCTION, args: Seq<Seq<char>>) -> CodegenState {
    (st.0.add_inst(op, args), st.1)
}

/// `reg` pushed onto the machine stack and `name` bound to the new slot, in the
/// visible (program) or hidden (compiler) stack.
pub open spec fn push_reg(st: CodegenState, name: Seq<char>, reg: Seq<char>, visible: bool) -> CodegenState {
    let s = st.1;
    let off = slot_offset(s.allocs) as usize;
    let s2 = if visible {
        SymbolTableModel { visible: s.visible.insert(name, off), allocs: s.allocs + 1, ..s }
    } else {
        SymbolTableModel { hidden: s.hidden.insert(name, off), allocs: s.allocs + 1, ..s }
    };
    (st.0.add_inst(INSTRUCTION::PUSH, seq![reg]), s2)
}

/// Whether `b` binds the same program variables, knows the same functions and
/// holds the same animation snapshots as `a`.
pub open spec fn keeps_names(a: SymbolTableModel, b: SymbolTableModel) -> bool {
    &&& b.visible == a.visible
    &&& b.functions == a.functions
    &&& b.anim_saved == a.anim_saved
}

/// The effect of a call emitted with `call_with`.
pub open spec fn call_effect(st: CodegenState, fn_name: Seq<char>, args: Seq<ArgModel>) -> Result<
    CodegenState,
    CompilerErrorModel,
> {
    let (lines, ok) = call_lines(fn_name, args, st.1.allocs);
    if ok {
        Ok((st.0.add_lines(lines), st.1))
    } else {
        Err(CompilerErrorModel::OutOfRegisters)
    }
}

pub open spec fn is_operator(op: Seq<char>) -> bool {
    op == "+"@ || op == "-"@ || op == "*"@ || op == "/"@
}

/// The SSE instruction of an arithmetic operator.
pub open spec fn operator_instruction(op: Seq<char>) -> INSTRUCTION {
    if op == "+"@ {
        INSTRUCTION::ADDSD
    } else if op == "-"@ {
        INSTRUCTION::SUBSD
    } else if op == "*"@ {
        INSTRUCTION::MULSD
    } else {
        INSTRUCTION::DIVSD
    }
}

/// Whether an expression is a bare name (as the arguments of `anim` must be).
pub open spec fn is_name(e: Expression) -> bool {
    e matches Expression::Value(Value::Varname(_))
}

/// The name of a bare-name expression.
pub open spec fn name_of(e: Expression) -> Seq<char> {
    match e {
        Expression::Value(Value::Varname(v)) => v.value@,
        _ => Seq::empty(),
    }
}

/// The operand of a number literal: NASM's `__float64__` of its text.
pub open spec fn float_literal(text: Seq<char>) -> Seq<char> {
    " __float64__("@ + text + ")"@
}

/// The data definition named `name` that holds a string literal's contents
/// (quotes removed), zero-terminated.
pub open spec fn string_entry(contents: Seq<char>, name: Seq<char>) -> DataModel {
    DataModel { name, kind: "db"@, args: seq!["'"@ + contents + "',0x0"@] }
}

/// The data definition of a string literal's contents (quotes removed), named
/// by their Base64 encoding.
pub open spec fn string_data(contents: Seq<char>) -> DataModel {
    string_entry(contents, base64_url_no_pad(contents))
}

/// The code of a string literal with `contents` (quotes removed) once its data
/// entry is named `data_name`: the contents are defined in the data section
/// under that name, and the address goes to `rdx`.
pub fn string_literal_code(contents: &str, data_name: &str, gen: &mut Generator)
    ensures
        final(gen)@ == old(gen)@.add_data(string_entry(contents@, data_name@)).add_inst(
            INSTRUCTION::MOV,
            seq!["rdx"@, data_name@],
        ),
{
    let mut text = String::from_str("'");
    text.append(contents);
    text.append("',0x0");
    let d = Data::from(data_name, "db", &[text.as_str()]);
    proof {
        assert(d@.args =~= seq![text@]);
        assert(d@ =~= string_entry(contents@, data_name@));
    }
    gen.add_data(d);
    emit2(gen, INSTRUCTION::MOV, "rdx", data_name);
}

/// The code of a value: the value ends up in `xmm0` (numbers and variables) or
/// its address in `rdx` (strings).
pub open spec fn value_code(v: Value, st: CodegenState) -> Result<(CodegenState, VarType), CompilerErrorModel> {
    match v {
        Value::Number(n) => Ok((
            emit(
                emit(st, INSTRUCTION::MOV, seq!["rdx"@, float_literal(n.value@)]),
                INSTRUCTION::MOVQ,
                seq!["xmm0"@, "rdx"@],
            ),
            VarType::Float,
        )),
        Value::Varname(x) => if st.1.visible.contains_key(x.value@) {
            Ok((
                emit(
                    st,
                    INSTRUCTION::MOVQ,
                    seq!["xmm0"@, stack_ref(st.1.visible[x.value@] as nat)],
                ),
                VarType::Float,
            ))
        } else {
            Err(CompilerErrorModel::MissingVar(x.value@))
        },
        Value::String(sv) => {
            let contents = trim_char(sv.value@, '"');
            let d = string_data(contents);
            Ok((
                emit((st.0.add_data(d), st.1), INSTRUCTION::MOV, seq!["rdx"@, d.name]),
                VarType::String,
            ))
        },
    }
}

/// The code of an expression, with the value left as `value_code` leaves it.
/// A compound `v op e` evaluates `e` first, keeps it in `xmm1`, evaluates `v`
/// into `xmm0`, and combines them into `xmm0`.
/// A compound without a sub-expression has no code (generation stops there;
/// `wf_expression` leaves it out): the `OutOfRegisters` given for it is only a
/// placeholder that no verified function returns.
pub open spec fn expression_code(e: Expression, st: CodegenState) -> Result<(CodegenState, VarType), CompilerErrorModel>
    decreases e,
{
    match e {
        Expression::Value(v) => value_code(v, st),
        Expression::Complex(c) => if c.expression@.len() == 0 {
            Err(CompilerErrorModel::OutOfRegisters)
        } else {
            match expression_code(c.expression@[0], st) {
                Err(err) => Err(err),
                Ok((st1, _)) => {
                    let st2 = emit(st1, INSTRUCTION::MOVSD, seq!["xmm1"@, "xmm0"@]);
                    match value_code(c.value, st2) {
                        Err(err) => Err(err),
                        Ok((st3, t)) => Ok((
                            emit(
                                st3,
                                operator_instruction(c.opperator.value@),
                                seq!["xmm0"@, "xmm1"@],
                            ),
                            t,
                        )),
                    }
                },
            }
        },
        Expression::Function(f) => match call_code(f, st) {
            Err(err) => Err(err),
            Ok(st1) => Ok((st1, VarType::Float)),
        },
    }
}

/// The hidden name of the temporary that holds the `k`-th argument of a call.
pub open spec fn temp_name(k: nat) -> Seq<char> {
    "__"@ + decimal(k)
}

/// The code that evaluates each argument, pushes its value onto the stack and
/// binds it to a hidden temporary `__i`; `pushed` collects each temporary with
/// its slot.
pub open spec fn args_code(
    args: Seq<Expression>,
    st: CodegenState,
    pushed: Seq<(Seq<char>, usize)>,
) -> Result<(CodegenState, Seq<(Seq<char>, usize)>), CompilerErrorModel>
    decreases args,
{
    if args.len() == 0 {
        Ok((st, pushed))
    } else {
        match expression_code(args[0], st) {
            Err(err) => Err(err),
            Ok((st1, _)) => {
                let st2 = emit(st1, INSTRUCTION::MOVQ, seq!["rdx"@, "xmm0"@]);
                let tmp = temp_name(pushed.len());
                let off = slot_offset(st2.1.allocs) as usize;
                args_code(args.drop_first(), push_reg(st2, tmp, "rdx"@, false), pushed.push((tmp, off)))
            },
        }
    }
}

/// Pops each pushed temporary off the stack and out of the hidden stack.
pub open spec fn pop_temps(pushed: Seq<(Seq<char>, usize)>, st: CodegenState) -> CodegenState
    decreases pushed.len(),
{
    if pushed.len() == 0 {
        st
    } else {
        let name = pushed[0].0;
        let s = st.1;
        let s1 = if s.hidden.contains_key(name) {
            SymbolTableModel { hidden: s.hidden.remove(name), allocs: (s.allocs - 1) as nat, ..s }
        } else {
            s
        };
        pop_temps(pushed.drop_first(), (st.0.add_inst(INSTRUCTION::POP, seq!["rdx"@]), s1))
    }
}

/// The arguments of a call: the stack slots of the pushed temporaries.
pub open spec fn stack_args(pushed: Seq<(Seq<char>, usize)>) -> Seq<ArgModel> {
    pushed.map_values(|p: (Seq<char>, usize)| ArgModel::FloatStack(p.1))
}

/// The code of a call.
/// - `print(e)` evaluates `e` and calls `printf` with the format string and `xmm0`;
/// - `anim(xy)` and `anim(xy, shape)` emit nothing and record the animation, the
///   functions being known;
/// - any other known function gets its arguments evaluated onto the stack, is
///   called with them in registers, and has its result copied to `rdx`.
/// A `print` without an argument has no code (generation stops there; `wf_call`
/// leaves it out): the `OutOfRegisters` given for it is only a placeholder that
/// no verified function returns.
pub open spec fn call_code(f: Function, st: CodegenState) -> Result<CodegenState, CompilerErrorModel>
    decreases f,
{
    let name = f.name.value@;
    if name == "print"@ {
        if f.args@.len() == 0 {
            Err(CompilerErrorModel::OutOfRegisters)
        } else {
            match expression_code(f.args@[0], st) {
                Err(err) => Err(err),
                Ok((st1, _)) => call_effect(
                    st1,
                    "printf"@,
                    seq![ArgModel::StrPtr("print_fmt_str"@), ArgModel::FloatReg("xmm0"@)],
                ),
            }
        }
    } else if name == "anim"@ {
        if f.args@.len() != 1 && f.args@.len() != 2 {
            Err(CompilerErrorModel::WrongArgs("anim"@, "1 or 2"@))
        } else {
            let xy = name_of(f.args@[0]);
            let shape = if f.args@.len() == 2 {
                Some(name_of(f.args@[1]))
            } else {
                None
            };
            if !st.1.functions.contains_key(xy) {
                Err(CompilerErrorModel::MissingFunction(xy))
            } else if shape matches Some(sh) && !st.1.functions.contains_key(sh) {
                Err(CompilerErrorModel::MissingFunction(shape->0))
            } else {
                Ok((st.0, SymbolTableModel { anim: st.1.anim.push((xy, shape)), ..st.1 }))
            }
        }
    } else if !st.1.functions.contains_key(name) {
        Err(CompilerErrorModel::MissingFunction(name))
    } else {
        match args_code(f.args@, st, Seq::empty()) {
            Err(err) => Err(err),
            Ok((st1, pushed)) => match call_effect(st1, name, stack_args(pushed)) {
                Err(err) => Err(err),
                Ok(st2) => Ok(emit(pop_temps(pushed, st2), INSTRUCTION::MOVQ, seq!["rdx"@, "xmm0"@])),
            },
        }
    }
}

/// The code of `name = e;`: `e` is evaluated and stored in the variable's slot.
pub open spec fn assignment_code(a: Assignment, st: CodegenState) -> Result<CodegenState, CompilerErrorModel> {
    match expression_code(a.expression, st) {
        Err(err) => Err(err),
        Ok((st1, t)) => {
            let x = a.varname.value@;
            if !st1.1.visible.contains_key(x) {
                Err(CompilerErrorModel::MissingVar(x))
            } else {
                let st2 = if t == VarType::Float {
                    emit(st1, INSTRUCTION::MOVQ, seq!["rdx"@, "xmm0"@])
                } else {
                    st1
                };
                Ok(emit(st2, INSTRUCTION::MOV, seq![stack_ref(st1.1.visible[x] as nat), "rdx"@]))
            }
        },
    }
}

/// The code of `var name = e;`: `e` is evaluated and pushed into a new slot
/// that `name` is bound to.
pub open spec fn declaration_code(d: VarDeclaration, st: CodegenState) -> Result<CodegenState, CompilerErrorModel> {
    match expression_code(d.value, st) {
        Err(err) => Err(err),
        Ok((st1, _)) => Ok(
            push_reg(emit(st1, INSTRUCTION::MOVQ, seq!["rdx"@, "xmm0"@]), d.name.value@, "rdx"@, true),
        ),
    }
}

/// The code of one line.
pub open spec fn line_code(l: Line, st: CodegenState) -> Result<CodegenState, CompilerErrorModel>
    decreases l, 0nat,
{
    match l {
        Line::Assignment(a) => assignment_code(a, st),
        Line::Decleration(d) => declaration_code(d, st),
        Line::FnDeclaration(fd) => fn_declaration_code(fd, st),
        Line::Expression(e) => match expression_code(e, st) {
            Err(err) => Err(err),
            Ok((st1, _)) => Ok(st1),
        },
    }
}

/// The code of lines, one after the other, stopping at the first error.
pub open spec fn lines_code(ls: Seq<Line>, st: CodegenState) -> Result<CodegenState, CompilerErrorModel>
    decreases ls, 0nat,
{
    if ls.len() == 0 {
        Ok(st)
    } else {
        match line_code(ls[0], st) {
            Err(err) => Err(err),
            Ok(st1) => lines_code(ls.drop_first(), st1),
        }
    }
}

/// The frame set-up: save `rbp` and make it the frame base.
pub open spec fn frame_start(g: GeneratorModel) -> GeneratorModel {
    g.add_inst(INSTRUCTION::PUSH, seq!["rbp"@]).add_inst(INSTRUCTION::MOV, seq!["rbp"@, "rsp"@])
}

/// The frame tear-down and return.
pub open spec fn frame_end(g: GeneratorModel) -> GeneratorModel {
    g.add_inst(INSTRUCTION::MOV, seq!["rsp"@, "rbp"@]).add_inst(INSTRUCTION::POP, seq!["rbp"@]).add_inst(
        INSTRUCTION::RET,
        seq![""@],
    )
}

/// The variables that a function of kind `t` has besides its parameters: `x`
/// and `y` for a position callback, `tex` for a shape callback, each starting at 0.
pub open spec fn fn_prologue(st: CodegenState, t: FunctionType) -> CodegenState {
    match t {
        FunctionType::XY => {
            let st1 = push_reg(emit(st, INSTRUCTION::MOV, seq!["rdi"@, "0"@]), "x"@, "rdi"@, true);
            push_reg(emit(st1, INSTRUCTION::MOV, seq!["rdi"@, "0"@]), "y"@, "rdi"@, true)
        },
        FunctionType::SHAPE => push_reg(emit(st, INSTRUCTION::MOV, seq!["rdi"@, "0"@]), "tex"@, "rdi"@, true),
        FunctionType::NORMAL => st,
    }
}

/// How a function of kind `t` returns its variables: a position callback
/// converts `x` to an integer in `rdi` and `y` in `rsi`, a shape callback
/// returns `tex` in `rdi`.
pub open spec fn fn_epilogue(st: CodegenState, t: FunctionType) -> Result<GeneratorModel, CompilerErrorModel> {
    let v = st.1.visible;
    match t {
        FunctionType::XY => if !v.contains_key("x"@) {
            Err(CompilerErrorModel::MissingVar("x"@))
        } else if !v.contains_key("y"@) {
            Err(CompilerErrorModel::MissingVar("y"@))
        } else {
            Ok(
                st.0.add_inst(INSTRUCTION::MOVQ, seq!["xmm0"@, stack_ref(v["x"@] as nat)]).add_inst(
                    INSTRUCTION::CVTSD2SI,
                    seq!["rdi"@, "xmm0"@],
                ).add_inst(INSTRUCTION::MOVQ, seq!["xmm0"@, stack_ref(v["y"@] as nat)]).add_inst(
                    INSTRUCTION::CVTSD2SI,
                    seq!["rsi"@, "xmm0"@],
                ),
            )
        },
        FunctionType::SHAPE => if !v.contains_key("tex"@) {
            Err(CompilerErrorModel::MissingVar("tex"@))
        } else {
            Ok(st.0.add_inst(INSTRUCTION::MOV, seq!["rdi"@, stack_ref(v["tex"@] as nat)]))
        },
        FunctionType::NORMAL => Ok(st.0),
    }
}

pub open spec fn param_names(fd: FnDeclaration) -> Seq<Seq<char>> {
    fd.args@.map_values(|v: crate::ast_types::Varname| v.value@)
}

/// The generator of a function of kind `t`, compiled in a frame of its own: its
/// label, the frame set-up, the parameters stored from their registers, the
/// prologue of its kind, the body, the epilogue of its kind, the tear-down.
pub open spec fn fn_generator_code(fd: FnDeclaration, t: FunctionType) -> Result<GeneratorModel, CompilerErrorModel>
    decreases fd, 1nat,
{
    let names = param_names(fd);
    if names.len() > 8 {
        Err(CompilerErrorModel::OutOfRegisters)
    } else {
        let g0 = frame_start(GeneratorModel::empty().add_line(LineModel::Label(fd.name.value@)));
        let s0 = SymbolTableModel::initial();
        let st1 = (
            g0.add_lines(spill_lines(names.len())),
            SymbolTableModel { visible: spill_bindings(s0.visible, names, 0), allocs: names.len(), ..s0 },
        );
        match lines_code(fd.lines@, fn_prologue(st1, t)) {
            Err(err) => Err(err),
            Ok(st3) => match fn_epilogue(st3, t) {
                Err(err) => Err(err),
                Ok(g4) => Ok(frame_end(g4)),
            },
        }
    }
}

/// The code of a function declaration: its kind comes from the symbol table,
/// and its generator is appended to the function section.
pub open spec fn fn_declaration_code(fd: FnDeclaration, st: CodegenState) -> Result<CodegenState, CompilerErrorModel>
    decreases fd, 2nat,
{
    let name = fd.name.value@;
    if !st.1.functions.contains_key(name) {
        Err(CompilerErrorModel::MissingFunction(name))
    } else {
        match fn_generator_code(fd, st.1.functions[name]) {
            Err(err) => Err(err),
            Ok(fg) => Ok((st.0.append(fg), st.1)),
        }
    }
}

/// A function declaration leaves the enclosing frame as it was (its variables,
/// slots, functions and animations, its main text and its data): the function's
/// code only joins the function section.
pub proof fn lemma_fn_declaration_keeps_frame(fd: FnDeclaration, st: CodegenState)
    ensures
        fn_declaration_code(fd, st) matches Ok(st2) ==> {
            &&& st2.1 == st.1
            &&& st2.0.text == st.0.text
            &&& st2.0.data == st.0.data
            &&& st.0.fns.is_prefix_of(st2.0.fns)
        },
{
    if let Ok(st2) = fn_declaration_code(fd, st) {
        let fg = fn_generator_code(fd, st.1.functions[fd.name.value@])->Ok_0;
        assert(st2.0.fns == st.0.fns + fg.text);
        assert(st.0.fns =~= st2.0.fns.subrange(0, st.0.fns.len() as int));
    }
}

pub open spec fn wf_line(l: Line) -> bool
    decreases l,
{
    match l {
        Line::Assignment(a) => wf_expression(a.expression),
        Line::Decleration(d) => wf_expression(d.value),
        Line::FnDeclaration(fd) => wf_lines(fd.lines@),
        Line::Expression(e) => wf_expression(e),
    }
}

pub open spec fn wf_lines(ls: Seq<Line>) -> bool
    decreases ls,
{
    ls.len() == 0 || (wf_line(ls[0]) && wf_lines(ls.drop_first()))
}

/// A bound on how much a line can add to the stack load.
pub open spec fn line_size(l: Line) -> nat
    decreases l,
{
    match l {
        Line::Assignment(a) => expression_size(a.expression) + 1,
        Line::Decleration(d) => expression_size(d.value) + 1,
        Line::FnDeclaration(fd) => 12 + lines_size(fd.lines@),
        Line::Expression(e) => expression_size(e),
    }
}

pub open spec fn lines_size(ls: Seq<Line>) -> nat
    decreases ls,
{
    if ls.len() == 0 {
        0
    } else {
        line_size(ls[0]) + lines_size(ls.drop_first())
    }
}

/// Whether code generation can run on an expression without a panic: every
/// compound has its sub-expression and a known operator, every `print` an
/// argument, every `anim` with one or two arguments bare names.
pub open spec fn wf_expression(e: Expression) -> bool
    decreases e,
{
    match e {
        Expression::Value(_) => true,
        Expression::Complex(c) => c.expression@.len() >= 1 && is_operator(c.opperator.value@)
            && wf_expression(c.expression@[0]),
        Expression::Function(f) => wf_call(f),
    }
}

pub open spec fn wf_call(f: Function) -> bool
    decreases f,
{
    let name = f.name.value@;
    if name == "print"@ {
        f.args@.len() >= 1 && wf_expression(f.args@[0])
    } else if name == "anim"@ {
        (f.args@.len() == 1 || f.args@.len() == 2) ==> is_name(f.args@[0]) && (f.args@.len() == 2
            ==> is_name(f.args@[1]))
    } else {
        wf_args(f.args@)
    }
}

pub open spec fn wf_args(args: Seq<Expression>) -> bool
    decreases args,
{
    args.len() == 0 || (wf_expression(args[0]) && wf_args(args.drop_first()))
}

/// A bound on how much an expression can add to the stack load.
pub open spec fn expression_size(e: Expression) -> nat
    decreases e,
{
    match e {
        Expression::Value(_) => 1,
        Expression::Complex(c) => if c.expression@.len() > 0 {
            1 + expression_size(c.expression@[0])
        } else {
            1
        },
        Expression::Function(f) => call_size(f),
    }
}

pub open spec fn call_size(f: Function) -> nat
    decreases f,
{
    2 + args_size(f.args@)
}

pub open spec fn args_size(args: Seq<Expression>) -> nat
    decreases args,
{
    if args.len() == 0 {
        0
    } else {
        expression_size(args[0]) + 1 + args_size(args.drop_first())
    }
}

/// The operator's instruction applied to `lhs` and `rhs`.
fn op_to_instr(op: &Operator, gen: &mut Generator, lhs: &str, rhs: &str)
    requires
        is_operator(op.value@),
    ensures
        final(gen)@ == old(gen)@.add_inst(operator_instruction(op.value@), seq![lhs@, rhs@]),
{
    if str_equals(op.value.as_str(), "+") {
        emit2(gen, INSTRUCTION::ADDSD, lhs, rhs);
    } else if str_equals(op.value.as_str(), "-") {
        emit2(gen, INSTRUCTION::SUBSD, lhs, rhs);
    } else if str_equals(op.value.as_str(), "*") {
        emit2(gen, INSTRUCTION::MULSD, lhs, rhs);
    } else {
        emit2(gen, INSTRUCTION::DIVSD, lhs, rhs);
    }
}

fn parse_value(value: &Value, gen: &mut Generator, scope: &mut SymbolTable) -> (r: Result<VarType, CompilerErrors>)
    ensures
        match value_code(*value, (old(gen)@, old(scope)@)) {
            Ok((st, t)) => r == Ok::<VarType, CompilerErrors>(t) && final(gen)@ == st.0 && final(scope)@ == st.1,
            Err(e) => r matches Err(x) && x@ == e && final(gen)@ == old(gen)@ && final(scope)@ == old(scope)@,
        },
{
    match value {
        Value::Number(num) => {
            let mut literal = String::from_str(" __float64__(");
            literal.append(num.value.as_str());
            literal.append(")");
            emit2(gen, INSTRUCTION::MOV, "rdx", literal.as_str());
            emit2(gen, INSTRUCTION::MOVQ, "xmm0", "rdx");
            Ok(VarType::Float)
        },
        Value::Varname(varname) => {
            let offset = scope.visible_stack.get_stack_address(varname.value.as_str())?;
            let operand = stack_ref_string(offset);
            emit2(gen, INSTRUCTION::MOVQ, "xmm0", operand.as_str());
            Ok(VarType::Float)
        },
        Value::String(str) => {
            let str_literal = trim_matches_char(str.value.as_str(), '"');
            let data_name = encode_data_name(str_literal.as_str());
            string_literal_code(str_literal.as_str(), data_name.as_str(), gen);
            Ok(VarType::String)
        },
    }
}

/// The name of a bare-name argument.
fn fn_name_from_arg<'a>(arg: &'a Expression) -> (r: &'a str)
    requires
        is_name(*arg),
    ensures
        r@ == name_of(*arg),
{
    match arg {
        Expression::Value(Value::Varname(fn_name)) => fn_name.value.as_str(),
        _ => {
            proof {
                assert(false);
            }
            ""
        },
    }
}

/// The code of an expression: its value ends up in `xmm0` (or, for a string, its
/// address in `rdx`).
fn parse_expression(expression: &Expression, gen: &mut Generator, scope: &mut SymbolTable) -> (r: Result<VarType, CompilerErrors>)
    requires
        wf_expression(*expression),
        old(scope)@.wf(),
        stack_load(old(scope)@) + expression_size(*expression) <= alloc_limit(),
    ensures
        match expression_code(*expression, (old(gen)@, old(scope)@)) {
            Ok((st, t)) => r == Ok::<VarType, CompilerErrors>(t) && final(gen)@ == st.0 && final(scope)@ == st.1,
            Err(e) => r matches Err(x) && x@ == e,
        },
        r is Ok ==> final(scope)@.wf() && stack_load(final(scope)@) <= stack_load(old(scope)@)
            + expression_size(*expression),
        keeps_names(old(scope)@, final(scope)@),
    decreases expression,
{
    match expression {
        Expression::Value(value) => parse_value(value, gen, scope),
        Expression::Complex(complex) => {
            // The parser is not greedy: for `1+2+3` the value is 1 and the
            // expression is `2+3`, which is evaluated first.
            parse_expression(&complex.expression[0], gen, scope)?;
            emit2(gen, INSTRUCTION::MOVSD, "xmm1", "xmm0");
            let value_type = parse_value(&complex.value, gen, scope)?;
            op_to_instr(&complex.opperator, gen, "xmm0", "xmm1");
            Ok(value_type)
        },
        Expression::Function(function) => {
            parse_fn_call(function, gen, scope)?;
            Ok(VarType::Float)
        },
    }
}

/// The code of a call (see `call_code`).
fn parse_fn_call(fn_call: &Function, gen: &mut Generator, scope: &mut SymbolTable) -> (r: Result<(), CompilerErrors>)
    requires
        wf_call(*fn_call),
        old(scope)@.wf(),
        stack_load(old(scope)@) + call_size(*fn_call) <= alloc_limit(),
    ensures
        match call_code(*fn_call, (old(gen)@, old(scope)@)) {
            Ok(st) => r is Ok && final(gen)@ == st.0 && final(scope)@ == st.1,
            Err(e) => r matches Err(x) && x@ == e,
        },
        r is Ok ==> final(scope)@.wf() && stack_load(final(scope)@) <= stack_load(old(scope)@)
            + call_size(*fn_call),
        // `anim` fails, and a call of an unknown function fails, before any code.
        r is Err && fn_call.name.value@ == "anim"@ ==> final(gen)@ == old(gen)@ && final(scope)@
            == old(scope)@,
        fn_call.name.value@ != "print"@ && fn_call.name.value@ != "anim"@
            && !old(scope)@.functions.contains_key(fn_call.name.value@) ==> final(gen)@ == old(gen)@
            && final(scope)@ == old(scope)@,
        keeps_names(old(scope)@, final(scope)@),
    decreases fn_call,
{
    proof {
        reveal_strlit("print");
        reveal_strlit("anim");
        assert("print"@.len() != "anim"@.len());
    }
    let name = fn_call.name.value.as_str();
    if str_equals(name, "print") {
        parse_expression(&fn_call.args[0], gen, scope)?;
        let args = [Args::StrPtr("print_fmt_str"), Args::FloatReg("xmm0")];
        proof {
            assert(args_view(args@) =~= seq![ArgModel::StrPtr("print_fmt_str"@), ArgModel::FloatReg("xmm0"@)]);
        }
        call_with("printf", &args, gen, scope)?;
        Ok(())
    } else if str_equals(name, "anim") {
        if fn_call.args.len() != 1 && fn_call.args.len() != 2 {
            return Err(CompilerErrors::WrongArgs(String::from_str("anim"), String::from_str("1 or 2")));
        }
        let xy_name = fn_name_from_arg(&fn_call.args[0]);
        if !scope.functions.contains_key(xy_name) {
            return Err(CompilerErrors::missing_function(xy_name));
        }
        let shape = if fn_call.args.len() == 2 {
            let shape_fn = fn_name_from_arg(&fn_call.args[1]);
            if !scope.functions.contains_key(shape_fn) {
                return Err(CompilerErrors::missing_function(shape_fn));
            }
            Some(String::from_str(shape_fn))
        } else {
            None
        };
        anim_stack_push(&mut scope.anim_stack, AnimPair { xy: String::from_str(xy_name), shape });
        Ok(())
    } else {
        // The function must be in scope.
        if !scope.functions.contains_key(name) {
            return Err(CompilerErrors::missing_function(name));
        }
        let ghost st0: CodegenState = (gen@, scope@);
        let ghost fa = fn_call.args@;
        // Evaluate the arguments and push each onto the stack.
        let mut args: Vec<Args> = Vec::new();
        let mut names: Vec<String> = Vec::new();
        let ghost mut pushed: Seq<(Seq<char>, usize)> = Seq::empty();
        let mut i: usize = 0;
        proof {
            assert(fa.skip(0) =~= fa);
        }
        while i < fn_call.args.len()
            invariant
                fa == fn_call.args@,
                st0 == (old(gen)@, old(scope)@),
                fn_call.name.value@ != "print"@,
                fn_call.name.value@ != "anim"@,
                old(scope)@.functions.contains_key(fn_call.name.value@),
                wf_args(fa),
                i <= fa.len(),
                names@.len() == i,
                pushed.len() == i,
                forall|j: int| 0 <= j < i ==> #[trigger] names@[j]@ == pushed[j].0,
                keeps_names(old(scope)@, scope@),
                args_view(args@) == stack_args(pushed),
                args_code(fa, st0, Seq::empty()) == args_code(fa.skip(i as int), (gen@, scope@), pushed),
                wf_args(fa.skip(i as int)),
                scope@.wf(),
                stack_load(scope@) + args_size(fa.skip(i as int)) <= stack_load(st0.1) + args_size(fa),
                stack_load(st0.1) + call_size(*fn_call) <= alloc_limit(),
                call_size(*fn_call) == 2 + args_size(fa),
            decreases fa.len() - i,
        {
            let ghost rest = fa.skip(i as int);
            proof {
                assert(rest[0] == fa[i as int]);
                assert(rest.drop_first() =~= fa.skip(i + 1));
            }
            let ghost before = (gen@, scope@);
            match parse_expression(&fn_call.args[i], gen, scope) {
                Ok(_) => {},
                Err(e) => {
                    proof {
                        assert(expression_code(rest[0], before) is Err);
                        assert(args_code(rest, before, pushed) == Err::<(CodegenState, Seq<(Seq<char>, usize)>), CompilerErrorModel>(e@));
                    }
                    return Err(e);
                },
            }
            emit2(gen, INSTRUCTION::MOVQ, "rdx", "xmm0");
            let mut tmp_arg_name = String::from_str("__");
            push_decimal(&mut tmp_arg_name, names.len());
            let ghost off = slot_offset(scope@.allocs) as usize;
            push_reg_to_stack(
                tmp_arg_name.as_str(),
                &mut scope.hidden_stack,
                &mut scope.stack_alloc,
                gen,
                "rdx",
            );
            let offset = match scope.hidden_stack.get_stack_address(tmp_arg_name.as_str()) {
                Ok(o) => o,
                Err(e) => {
                    proof {
                        assert(false);
                    }
                    return Err(e);
                },
            };
            proof {
                assert(offset == off);
                assert(stack_args(pushed.push((tmp_arg_name@, off))) =~= stack_args(pushed).push(ArgModel::FloatStack(off)));
                let h = scope@.hidden;
                vstd::set_lib::lemma_set_insert_finite_iff(old(scope)@.hidden.dom(), tmp_arg_name@);
            }
            args.push(Args::FloatStack(offset));
            names.push(tmp_arg_name);
            proof {
                pushed = pushed.push((names@[i as int]@, off));
            }
            i = i + 1;
        }
        proof {
            assert(fa.skip(i as int) =~= Seq::<Expression>::empty());
        }
        let ghost st1 = (gen@, scope@);
        call_with(name, args.as_slice(), gen, scope)?;
        // Remove the arguments from the stack.
        let ghost st2 = (gen@, scope@);
        let mut j: usize = 0;
        proof {
            assert(pushed.skip(0) =~= pushed);
        }
        while j < names.len()
            invariant
                j <= names@.len(),
                names@.len() == pushed.len(),
                forall|k: int| 0 <= k < pushed.len() ==> #[trigger] names@[k]@ == pushed[k].0,
                pop_temps(pushed, st2) == pop_temps(pushed.skip(j as int), (gen@, scope@)),
                keeps_names(old(scope)@, scope@),
                scope@.wf(),
                stack_load(scope@) <= stack_load(st2.1),
            decreases names@.len() - j,
        {
            proof {
                assert(pushed.skip(j as int)[0] == pushed[j as int]);
                assert(pushed.skip(j as int).drop_first() =~= pushed.skip(j + 1));
                if scope@.hidden.contains_key(names@[j as int]@) {
                    assert(scope@.hidden.dom().contains(names@[j as int]@));
                }
            }
            let _ = scope.hidden_stack.remove(names[j].as_str(), &mut scope.stack_alloc);
            emit1(gen, INSTRUCTION::POP, "rdx");
            j = j + 1;
        }
        proof {
            assert(pushed.skip(j as int) =~= Seq::<(Seq<char>, usize)>::empty());
        }
        // The result goes to rdx.
        emit2(gen, INSTRUCTION::MOVQ, "rdx", "xmm0");
        Ok(())
    }
}

fn parse_assignment(assignment: &Assignment, gen: &mut Generator, scope: &mut SymbolTable) -> (r: Result<(), CompilerErrors>)
    requires
        wf_expression(assignment.expression),
        old(scope)@.wf(),
        stack_load(old(scope)@) + expression_size(assignment.expression) + 1 <= alloc_limit(),
    ensures
        match assignment_code(*assignment, (old(gen)@, old(scope)@)) {
            Ok(st) => r is Ok && final(gen)@ == st.0 && final(scope)@ == st.1,
            Err(e) => r matches Err(x) && x@ == e,
        },
        r is Ok ==> final(scope)@.wf() && stack_load(final(scope)@) <= stack_load(old(scope)@)
            + expression_size(assignment.expression) + 1,
        keeps_names(old(scope)@, final(scope)@),
{
    let value_type = parse_expression(&assignment.expression, gen, scope)?;
    let offset = scope.visible_stack.get_stack_address(assignment.varname.value.as_str())?;
    match value_type {
        VarType::Float => {
            emit2(gen, INSTRUCTION::MOVQ, "rdx", "xmm0");
        },
        _ => {},
    }
    let target = stack_ref_string(offset);
    emit2(gen, INSTRUCTION::MOV, target.as_str(), "rdx");
    Ok(())
}

fn parse_declaration(dec: &VarDeclaration, gen: &mut Generator, scope: &mut SymbolTable) -> (r: Result<(), CompilerErrors>)
    requires
        wf_expression(dec.value),
        old(scope)@.wf(),
        stack_load(old(scope)@) + expression_size(dec.value) + 1 <= alloc_limit(),
    ensures
        match declaration_code(*dec, (old(gen)@, old(scope)@)) {
            Ok(st) => r is Ok && final(gen)@ == st.0 && final(scope)@ == st.1,
            Err(e) => r matches Err(x) && x@ == e,
        },
        r is Ok ==> final(scope)@.wf() && stack_load(final(scope)@) <= stack_load(old(scope)@)
            + expression_size(dec.value) + 1,
        r is Err ==> keeps_names(old(scope)@, final(scope)@),
        final(scope)@.functions == old(scope)@.functions,
        final(scope)@.anim_saved == old(scope)@.anim_saved,
{
    parse_expression(&dec.value, gen, scope)?;  // result in xmm0
    emit2(gen, INSTRUCTION::MOVQ, "rdx", "xmm0");
    push_reg_to_stack(
        dec.name.value.as_str(),
        &mut scope.visible_stack,
        &mut scope.stack_alloc,
        gen,
        "rdx",
    );
    Ok(())
}

/// The code of one line (see `line_code`).
pub fn parse_line(line: &Line, generator: &mut Generator, scope: &mut SymbolTable) -> (r: Result<(), CompilerErrors>)
    requires
        wf_line(*line),
        old(scope)@.wf(),
        stack_load(old(scope)@) + line_size(*line) <= alloc_limit(),
    ensures
        match line_code(*line, (old(generator)@, old(scope)@)) {
            Ok(st) => r is Ok && final(generator)@ == st.0 && final(scope)@ == st.1,
            Err(e) => r matches Err(x) && x@ == e,
        },
        r is Ok ==> final(scope)@.wf() && stack_load(final(scope)@) <= stack_load(old(scope)@)
            + line_size(*line),
        r is Err ==> keeps_names(old(scope)@, final(scope)@),
        final(scope)@.functions == old(scope)@.functions,
        final(scope)@.anim_saved == old(scope)@.anim_saved,
        r is Ok && line_flat(*line) && distinct_slots(old(scope)@) && no_temps(old(scope)@.hidden)
            ==> distinct_slots(final(scope)@) && no_temps(final(scope)@.hidden),
    decreases line, 0nat,
{
    proof {
        if line_flat(*line) && distinct_slots(old(scope)@) && no_temps(old(scope)@.hidden) {
            lemma_flat_line_keeps_slots_distinct(*line, (old(generator)@, old(scope)@));
        }
    }
    match line {
        Line::Assignment(assignment) => parse_assignment(assignment, generator, scope),
        Line::Decleration(decleration) => parse_declaration(decleration, generator, scope),
        Line::FnDeclaration(fn_decleration) => ast_functions::parse_fn_declaration(
            fn_decleration,
            generator,
            scope,
        ),
        Line::Expression(expression) => {
            parse_expression(expression, generator, scope)?;
            Ok(())
        },
    }
}

/// Whether every top-level `anim` call names its position callback as its first
/// argument, and its shape callback as its second one if it has more (the
/// symbol table is filled from them before compiling).
pub open spec fn anims_named(lines: Seq<Line>) -> bool {
    forall|i: int|
        0 <= i < lines.len() ==> match #[trigger] lines[i] {
            Line::Expression(Expression::Function(call)) => call.name.value@ == "anim"@ ==> {
                &&& call.args@.len() >= 1
                &&& is_name(call.args@[0])
                &&& call.args@.len() >= 2 ==> is_name(call.args@[1])
            },
            _ => true,
        }
}

/// The function table once an `anim` call's position callback (and shape
/// callback, if it names one) are recorded.
pub open spec fn anim_callbacks(call: Function, fns: Map<Seq<char>, FunctionType>) -> Map<Seq<char>, FunctionType> {
    let fns1 = fns.insert(name_of(call.args@[0]), FunctionType::XY);
    if call.args@.len() >= 2 {
        fns1.insert(name_of(call.args@[1]), FunctionType::SHAPE)
    } else {
        fns1
    }
}

/// The function table after the top-level lines are scanned: a declared
/// function is normal unless already known, and the functions that an `anim`
/// call names become its position and shape callbacks.
pub open spec fn populate(lines: Seq<Line>, fns: Map<Seq<char>, FunctionType>) -> Map<Seq<char>, FunctionType>
    decreases lines.len(),
{
    if lines.len() == 0 {
        fns
    } else {
        let fns1 = match lines[0] {
            Line::Expression(Expression::Function(call)) => if call.name.value@ == "anim"@ {
                anim_callbacks(call, fns)
            } else {
                fns
            },
            Line::FnDeclaration(fd) => if fns.contains_key(fd.name.value@) {
                fns
            } else {
                fns.insert(fd.name.value@, FunctionType::NORMAL)
            },
            _ => fns,
        };
        populate(lines.drop_first(), fns1)
    }
}

/// Scanning the top-level lines forgets no function and makes every declared
/// function known.
pub proof fn lemma_populate_knows_declared(lines: Seq<Line>, fns: Map<Seq<char>, FunctionType>)
    ensures
        fns.dom().subset_of(populate(lines, fns).dom()),
        forall|i: int|
            0 <= i < lines.len() ==> (#[trigger] lines[i] matches Line::FnDeclaration(fd)
                ==> populate(lines, fns).contains_key(fd.name.value@)),
    decreases lines.len(),
{
    if lines.len() > 0 {
        let fns1 = match lines[0] {
            Line::Expression(Expression::Function(call)) => if call.name.value@ == "anim"@ {
                anim_callbacks(call, fns)
            } else {
                fns
            },
            Line::FnDeclaration(fd) => if fns.contains_key(fd.name.value@) {
                fns
            } else {
                fns.insert(fd.name.value@, FunctionType::NORMAL)
            },
            _ => fns,
        };
        let rest = lines.drop_first();
        lemma_populate_knows_declared(rest, fns1);
        assert(populate(lines, fns) == populate(rest, fns1));
        assert forall|i: int|
            0 <= i < lines.len() implies (#[trigger] lines[i] matches Line::FnDeclaration(fd)
                ==> populate(lines, fns).contains_key(fd.name.value@)) by {
            if i > 0 {
                assert(lines[i] == rest[i - 1]);
            }
        }
    }
}

/// A variable that is read after its declaration is loaded from the slot that
/// the declaration pushed its value into.
pub proof fn lemma_declared_variable_reads_its_slot(d: VarDeclaration, st: CodegenState)
    ensures
        declaration_code(d, st) matches Ok(st2) ==> {
            let x = d.name.value@;
            let slot = (st2.1.allocs - 1) as nat;
            &&& st2.1.visible.contains_key(x)
            &&& st2.1.visible[x] == slot_offset(slot) as usize
            &&& value_code(Value::Varname(d.name), st2) == Ok::<(CodegenState, VarType), CompilerErrorModel>(
                (emit(st2, INSTRUCTION::MOVQ, seq!["xmm0"@, stack_ref(st2.1.visible[x] as nat)]), VarType::Float),
            )
        },
{
}

/// Records the kind of every function that the program declares or animates.
pub fn populate_symbols(ast: &File, symbols: &mut SymbolTable)
    requires
        anims_named(ast.lines@),
    ensures
        final(symbols)@ == (SymbolTableModel { functions: populate(ast.lines@, old(symbols)@.functions), ..old(symbols)@ }),
{
    let ghost ls = ast.lines@;
    let mut i: usize = 0;
    proof {
        assert(ls.skip(0) =~= ls);
    }
    while i < ast.lines.len()
        invariant
            ls == ast.lines@,
            anims_named(ls),
            i <= ls.len(),
            populate(ls, old(symbols)@.functions) == populate(ls.skip(i as int), symbols@.functions),
            symbols@ == (SymbolTableModel { functions: symbols@.functions, ..old(symbols)@ }),
        decreases ls.len() - i,
    {
        proof {
            assert(ls.skip(i as int)[0] == ls[i as int]);
            assert(ls.skip(i as int).drop_first() =~= ls.skip(i + 1));
        }
        match &ast.lines[i] {
            Line::Expression(exp) => {
                match exp {
                    Expression::Function(call) => {
                        if str_equals(call.name.value.as_str(), "anim") {
                            let xy_fn = fn_name_from_arg(&call.args[0]);
                            symbols.functions.insert(String::from_str(xy_fn), FunctionType::XY);
                            if call.args.len() >= 2 {
                                let shape_fn = fn_name_from_arg(&call.args[1]);
                                symbols.functions.insert(String::from_str(shape_fn), FunctionType::SHAPE);
                            }
                        }
                    },
                    _ => {},
                }
            },
            Line::FnDeclaration(fn_decl) => {
                // Normal function by default; `anim` overrides the kind.
                if !symbols.functions.contains_key(fn_decl.name.value.as_str()) {
                    symbols.functions.insert(
                        String::from_str(fn_decl.name.value.as_str()),
                        FunctionType::NORMAL,
                    );
                }
            },
            _ => {},
        }
        i = i + 1;
    }
    proof {
        assert(ls.skip(i as int) =~= Seq::<Line>::empty());
        assert(symbols@ =~= (SymbolTableModel { functions: populate(ls, old(symbols)@.functions), ..old(symbols)@ }));
    }
}

/// `st2` follows `st` by code that only appends to the main text and data and
/// leaves the program's variables, the functions and the function section alone.
pub open spec fn extends(st: CodegenState, st2: CodegenState) -> bool {
    &&& st.0.text.is_prefix_of(st2.0.text)
    &&& st.0.data.is_prefix_of(st2.0.data)
    &&& st2.0.fns == st.0.fns
    &&& st2.0.bss == st.0.bss
    &&& st2.1.visible == st.1.visible
    &&& st2.1.functions == st.1.functions
    &&& st2.1.anim_saved == st.1.anim_saved
}

proof fn lemma_extends_refl(st: CodegenState)
    ensures
        extends(st, st),
{
    assert(st.0.text =~= st.0.text.subrange(0, st.0.text.len() as int));
    assert(st.0.data =~= st.0.data.subrange(0, st.0.data.len() as int));
}

proof fn lemma_extends_trans(a: CodegenState, b: CodegenState, c: CodegenState)
    requires
        extends(a, b),
        extends(b, c),
    ensures
        extends(a, c),
{
    assert(a.0.text =~= c.0.text.subrange(0, a.0.text.len() as int)) by {
        assert forall|i: int| 0 <= i < a.0.text.len() implies a.0.text[i] == c.0.text[i] by {
            assert(a.0.text[i] == b.0.text.subrange(0, a.0.text.len() as int)[i]);
            assert(b.0.text[i] == c.0.text.subrange(0, b.0.text.len() as int)[i]);
        }
    }
    assert(a.0.data =~= c.0.data.subrange(0, a.0.data.len() as int)) by {
        assert forall|i: int| 0 <= i < a.0.data.len() implies a.0.data[i] == c.0.data[i] by {
            assert(a.0.data[i] == b.0.data.subrange(0, a.0.data.len() as int)[i]);
            assert(b.0.data[i] == c.0.data.subrange(0, b.0.data.len() as int)[i]);
        }
    }
}

proof fn lemma_add_lines_extends(st: CodegenState, ls: Seq<LineModel>)
    ensures
        extends(st, (st.0.add_lines(ls), st.1)),
{
    assert(st.0.text =~= (st.0.text + ls).subrange(0, st.0.text.len() as int));
    assert(st.0.data =~= st.0.data.subrange(0, st.0.data.len() as int));
}

proof fn lemma_emit_extends(st: CodegenState, op: INSTRUCTION, args: Seq<Seq<char>>)
    ensures
        extends(st, emit(st, op, args)),
{
    assert(st.0.text =~= st.0.text.push(LineModel::Instruction(op, args)).subrange(0, st.0.text.len() as int));
    assert(st.0.data =~= st.0.data.subrange(0, st.0.data.len() as int));
}

proof fn lemma_call_effect_extends(st: CodegenState, f: Seq<char>, args: Seq<ArgModel>)
    ensures
        call_effect(st, f, args) matches Ok(st2) ==> extends(st, st2),
{
    let (lines, ok) = call_lines(f, args, st.1.allocs);
    lemma_add_lines_extends(st, lines);
}

proof fn lemma_push_hidden_extends(st: CodegenState, name: Seq<char>, reg: Seq<char>)
    ensures
        extends(st, push_reg(st, name, reg, false)),
{
    lemma_emit_extends(st, INSTRUCTION::PUSH, seq![reg]);
}

proof fn lemma_pop_temps_extends(pushed: Seq<(Seq<char>, usize)>, st: CodegenState)
    ensures
        extends(st, pop_temps(pushed, st)),
    decreases pushed.len(),
{
    if pushed.len() == 0 {
        lemma_extends_refl(st);
    } else {
        let name = pushed[0].0;
        let s = st.1;
        let s1 = if s.hidden.contains_key(name) {
            SymbolTableModel { hidden: s.hidden.remove(name), allocs: (s.allocs - 1) as nat, ..s }
        } else {
            s
        };
        let next = (st.0.add_inst(INSTRUCTION::POP, seq!["rdx"@]), s1);
        lemma_emit_extends(st, INSTRUCTION::POP, seq!["rdx"@]);
        lemma_pop_temps_extends(pushed.drop_first(), next);
        lemma_extends_trans(st, next, pop_temps(pushed.drop_first(), next));
    }
}

proof fn lemma_value_code_extends(v: Value, st: CodegenState)
    ensures
        value_code(v, st) matches Ok((st2, _)) ==> extends(st, st2),
{
    match v {
        Value::Number(n) => {
            let st1 = emit(st, INSTRUCTION::MOV, seq!["rdx"@, float_literal(n.value@)]);
            lemma_emit_extends(st, INSTRUCTION::MOV, seq!["rdx"@, float_literal(n.value@)]);
            lemma_emit_extends(st1, INSTRUCTION::MOVQ, seq!["xmm0"@, "rdx"@]);
            lemma_extends_trans(st, st1, emit(st1, INSTRUCTION::MOVQ, seq!["xmm0"@, "rdx"@]));
        },
        Value::Varname(x) => {
            if st.1.visible.contains_key(x.value@) {
                lemma_emit_extends(st, INSTRUCTION::MOVQ, seq!["xmm0"@, stack_ref(st.1.visible[x.value@] as nat)]);
            }
        },
        Value::String(sv) => {
            let d = string_data(trim_char(sv.value@, '"'));
            let st1 = (st.0.add_data(d), st.1);
            assert(st.0.text =~= st1.0.text.subrange(0, st.0.text.len() as int));
            assert(st.0.data =~= st1.0.data.subrange(0, st.0.data.len() as int));
            lemma_emit_extends(st1, INSTRUCTION::MOV, seq!["rdx"@, d.name]);
            lemma_extends_trans(st, st1, emit(st1, INSTRUCTION::MOV, seq!["rdx"@, d.name]));
        },
    }
}

/// Evaluating an expression binds no program variable, declares no function,
/// and only appends code to the main text and definitions to the data section.
pub proof fn lemma_expression_code_extends(e: Expression, st: CodegenState)
    ensures
        expression_code(e, st) matches Ok((st2, _)) ==> extends(st, st2),
    decreases e,
{
    match e {
        Expression::Value(v) => lemma_value_code_extends(v, st),
        Expression::Complex(c) => {
            if c.expression@.len() > 0 {
                lemma_expression_code_extends(c.expression@[0], st);
                if let Ok((st1, _)) = expression_code(c.expression@[0], st) {
                    let st2 = emit(st1, INSTRUCTION::MOVSD, seq!["xmm1"@, "xmm0"@]);
                    lemma_emit_extends(st1, INSTRUCTION::MOVSD, seq!["xmm1"@, "xmm0"@]);
                    lemma_extends_trans(st, st1, st2);
                    lemma_value_code_extends(c.value, st2);
                    if let Ok((st3, t)) = value_code(c.value, st2) {
                        lemma_extends_trans(st, st2, st3);
                        let op = operator_instruction(c.opperator.value@);
                        lemma_emit_extends(st3, op, seq!["xmm0"@, "xmm1"@]);
                        lemma_extends_trans(st, st3, emit(st3, op, seq!["xmm0"@, "xmm1"@]));
                    }
                }
            }
        },
        Expression::Function(f) => lemma_call_code_extends(f, st),
    }
}

/// A call (other than `anim`, which records a pending animation) binds no
/// program variable and only appends code.
pub proof fn lemma_call_code_extends(f: Function, st: CodegenState)
    ensures
        call_code(f, st) matches Ok(st2) ==> f.name.value@ != "anim"@ ==> extends(st, st2),
        call_code(f, st) matches Ok(st2) ==> f.name.value@ == "anim"@ ==> st2.0 == st.0
            && st2.1 == (SymbolTableModel { anim: st2.1.anim, ..st.1 }),
    decreases f,
{
    reveal_strlit("print");
    reveal_strlit("anim");
    let name = f.name.value@;
    if name == "print"@ {
        assert("print"@ != "anim"@) by {
            assert("print"@[0] != "anim"@[0]);
        }
        if f.args@.len() > 0 {
            lemma_expression_code_extends(f.args@[0], st);
            if let Ok((st1, _)) = expression_code(f.args@[0], st) {
                let args = seq![ArgModel::StrPtr("print_fmt_str"@), ArgModel::FloatReg("xmm0"@)];
                lemma_call_effect_extends(st1, "printf"@, args);
                if let Ok(st2) = call_effect(st1, "printf"@, args) {
                    lemma_extends_trans(st, st1, st2);
                }
            }
        }
    } else if name == "anim"@ {
    } else if st.1.functions.contains_key(name) {
        lemma_args_code_extends(f.args@, st, Seq::empty());
        if let Ok((st1, pushed)) = args_code(f.args@, st, Seq::empty()) {
            lemma_call_effect_extends(st1, name, stack_args(pushed));
            if let Ok(st2) = call_effect(st1, name, stack_args(pushed)) {
                lemma_extends_trans(st, st1, st2);
                let st3 = pop_temps(pushed, st2);
                lemma_pop_temps_extends(pushed, st2);
                lemma_extends_trans(st, st2, st3);
                lemma_emit_extends(st3, INSTRUCTION::MOVQ, seq!["rdx"@, "xmm0"@]);
                lemma_extends_trans(st, st3, emit(st3, INSTRUCTION::MOVQ, seq!["rdx"@, "xmm0"@]));
            }
        }
    }
}

proof fn lemma_args_code_extends(args: Seq<Expression>, st: CodegenState, pushed: Seq<(Seq<char>, usize)>)
    ensures
        args_code(args, st, pushed) matches Ok((st2, _)) ==> extends(st, st2),
    decreases args,
{
    if args.len() == 0 {
        lemma_extends_refl(st);
    } else {
        lemma_expression_code_extends(args[0], st);
        if let Ok((st1, _)) = expression_code(args[0], st) {
            let st2 = emit(st1, INSTRUCTION::MOVQ, seq!["rdx"@, "xmm0"@]);
            lemma_emit_extends(st1, INSTRUCTION::MOVQ, seq!["rdx"@, "xmm0"@]);
            lemma_extends_trans(st, st1, st2);
            let tmp = temp_name(pushed.len());
            let off = slot_offset(st2.1.allocs) as usize;
            let st3 = push_reg(st2, tmp, "rdx"@, false);
            lemma_push_hidden_extends(st2, tmp, "rdx"@);
            lemma_extends_trans(st, st2, st3);
            lemma_args_code_extends(args.drop_first(), st3, pushed.push((tmp, off)));
            if let Ok((st4, _)) = args_code(args.drop_first(), st3, pushed.push((tmp, off))) {
                lemma_extends_trans(st, st3, st4);
            }
        }
    }
}

/// Whether evaluating `e` makes no call.
pub open spec fn call_free(e: Expression) -> bool
    decreases e,
{
    match e {
        Expression::Value(_) => true,
        Expression::Complex(c) => c.expression@.len() > 0 ==> call_free(c.expression@[0]),
        Expression::Function(_) => false,
    }
}

/// The temporaries `from`, ..., `from + n - 1`.
pub open spec fn temp_names(from: nat, n: nat) -> Set<Seq<char>> {
    Set::new(|x: Seq<char>| exists|k: nat| from <= k < from + n && x == #[trigger] temp_name(k))
}

/// `h` with the temporaries `from`, ..., `from + n - 1` bound, in order, to the
/// slots allocated after `allocs` slots.
pub open spec fn add_temps(h: Map<Seq<char>, usize>, from: nat, n: nat, allocs: nat) -> Map<Seq<char>, usize>
    decreases n,
{
    if n == 0 {
        h
    } else {
        add_temps(h.insert(temp_name(from), slot_offset(allocs) as usize), from + 1, (n - 1) as nat, allocs + 1)
    }
}

proof fn lemma_temp_name_injective(a: nat, b: nat)
    ensures
        temp_name(a) == temp_name(b) ==> a == b,
{
    if temp_name(a) == temp_name(b) {
        reveal_strlit("__");
        assert(decimal(a) =~= temp_name(a).subrange(2, temp_name(a).len() as int));
        assert(decimal(b) =~= temp_name(b).subrange(2, temp_name(b).len() as int));
        lemma_decimal_injective(a, b);
    }
}

/// Evaluating an expression that makes no call leaves the symbol table alone.
proof fn lemma_call_free_keeps_symbols(e: Expression, st: CodegenState)
    ensures
        call_free(e) ==> (expression_code(e, st) matches Ok((st1, _)) ==> st1.1 == st.1),
    decreases e,
{
    if let Expression::Complex(c) = e {
        if c.expression@.len() > 0 {
            lemma_call_free_keeps_symbols(c.expression@[0], st);
        }
    }
}

proof fn lemma_add_temps_dom(h: Map<Seq<char>, usize>, from: nat, n: nat, allocs: nat)
    ensures
        add_temps(h, from, n, allocs).dom() == h.dom() + temp_names(from, n),
        forall|x: Seq<char>| #![trigger add_temps(h, from, n, allocs)[x]]
            h.contains_key(x) && !temp_names(from, n).contains(x) ==> add_temps(h, from, n, allocs)[x] == h[x],
    decreases n,
{
    if n == 0 {
        assert(temp_names(from, n) =~= Set::<Seq<char>>::empty());
        assert(h.dom() + temp_names(from, n) =~= h.dom());
    } else {
        let h1 = h.insert(temp_name(from), slot_offset(allocs) as usize);
        lemma_add_temps_dom(h1, from + 1, (n - 1) as nat, allocs + 1);
        assert forall|x: Seq<char>| temp_names(from, n).contains(x) <==> (x == temp_name(from)
            || temp_names(from + 1, (n - 1) as nat).contains(x)) by {
            if temp_names(from, n).contains(x) {
                let k = choose|k: nat| from <= k < from + n && x == #[trigger] temp_name(k);
                if k != from {
                    assert(from + 1 <= k < from + 1 + (n - 1) && x == temp_name(k));
                }
            }
            if x == temp_name(from) {
                assert(from <= from < from + n && x == temp_name(from));
            }
            if temp_names(from + 1, (n - 1) as nat).contains(x) {
                let k = choose|k: nat| from + 1 <= k < from + 1 + (n - 1) && x == #[trigger] temp_name(k);
                assert(from <= k < from + n && x == temp_name(k));
            }
        }
        assert(add_temps(h, from, n, allocs).dom() =~= h.dom() + temp_names(from, n));
    }
}

/// Evaluating arguments that make no call pushes one temporary per argument.
proof fn lemma_args_code_pushes_temps(args: Seq<Expression>, st: CodegenState, pushed: Seq<(Seq<char>, usize)>)
    requires
        forall|i: int| 0 <= i < args.len() ==> call_free(#[trigger] args[i]),
    ensures
        args_code(args, st, pushed) matches Ok((st1, p1)) ==> {
            &&& p1.len() == pushed.len() + args.len()
            &&& forall|k: int| 0 <= k < pushed.len() ==> #[trigger] p1[k] == pushed[k]
            &&& forall|k: int| pushed.len() <= k < p1.len() ==> (#[trigger] p1[k]).0 == temp_name(k as nat)
            &&& st1.1 == (SymbolTableModel {
                hidden: add_temps(st.1.hidden, pushed.len(), args.len(), st.1.allocs),
                allocs: st.1.allocs + args.len(),
                ..st.1
            })
        },
    decreases args,
{
    if args.len() == 0 {
        assert(st.1 =~= SymbolTableModel { hidden: add_temps(st.1.hidden, pushed.len(), 0, st.1.allocs), allocs: st.1.allocs, ..st.1 });
    } else {
        assert(call_free(args[0]));
        lemma_call_free_keeps_symbols(args[0], st);
        if let Ok((st1, _)) = expression_code(args[0], st) {
            let st2 = emit(st1, INSTRUCTION::MOVQ, seq!["rdx"@, "xmm0"@]);
            let tmp = temp_name(pushed.len());
            let off = slot_offset(st2.1.allocs) as usize;
            let st3 = push_reg(st2, tmp, "rdx"@, false);
            let rest = args.drop_first();
            assert forall|i: int| 0 <= i < rest.len() implies call_free(#[trigger] rest[i]) by {
                assert(rest[i] == args[i + 1]);
            }
            lemma_args_code_pushes_temps(rest, st3, pushed.push((tmp, off)));
            if let Ok((st4, p4)) = args_code(rest, st3, pushed.push((tmp, off))) {
                assert(args_code(args, st, pushed) == Ok::<(CodegenState, Seq<(Seq<char>, usize)>), CompilerErrorModel>((st4, p4)));
                assert forall|k: int| pushed.len() <= k < p4.len() implies (#[trigger] p4[k]).0 == temp_name(k as nat) by {
                    if k == pushed.len() {
                        assert(p4[k] == pushed.push((tmp, off))[k]);
                    }
                }
                assert forall|k: int| 0 <= k < pushed.len() implies #[trigger] p4[k] == pushed[k] by {
                    assert(p4[k] == pushed.push((tmp, off))[k]);
                }
            }
        }
    }
}

/// Popping temporaries that are all bound, under distinct names, forgets them
/// and frees their slots.
proof fn lemma_pop_temps_forgets(pushed: Seq<(Seq<char>, usize)>, st: CodegenState, from: nat)
    requires
        forall|k: int| 0 <= k < pushed.len() ==> (#[trigger] pushed[k]).0 == temp_name((from + k) as nat),
        forall|k: nat| from <= k < from + pushed.len() ==> st.1.hidden.contains_key(#[trigger] temp_name(k)),
        st.1.allocs >= pushed.len(),
    ensures
        pop_temps(pushed, st).1 == (SymbolTableModel {
            hidden: st.1.hidden.remove_keys(temp_names(from, pushed.len())),
            allocs: (st.1.allocs - pushed.len()) as nat,
            ..st.1
        }),
    decreases pushed.len(),
{
    let n = pushed.len();
    if n == 0 {
        assert(st.1.hidden.remove_keys(temp_names(from, 0)) =~= st.1.hidden);
        assert(pop_temps(pushed, st).1 =~= SymbolTableModel {
            hidden: st.1.hidden.remove_keys(temp_names(from, pushed.len())),
            allocs: (st.1.allocs - pushed.len()) as nat,
            ..st.1
        });
    } else {
        let name = pushed[0].0;
        assert(name == temp_name(from));
        assert(st.1.hidden.contains_key(temp_name(from)));
        let s = st.1;
        let s1 = SymbolTableModel { hidden: s.hidden.remove(name), allocs: (s.allocs - 1) as nat, ..s };
        let st1 = (st.0.add_inst(INSTRUCTION::POP, seq!["rdx"@]), s1);
        let rest = pushed.drop_first();
        assert forall|k: int| 0 <= k < rest.len() implies (#[trigger] rest[k]).0 == temp_name((from + 1 + k) as nat) by {
            assert(rest[k] == pushed[k + 1]);
        }
        assert forall|k: nat| from + 1 <= k < from + 1 + rest.len() implies s1.hidden.contains_key(#[trigger] temp_name(k)) by {
            lemma_temp_name_injective(k, from);
            assert(st.1.hidden.contains_key(temp_name(k)));
        }
        lemma_pop_temps_forgets(rest, st1, from + 1);
        assert(pop_temps(pushed, st) == pop_temps(rest, st1));
        assert forall|x: Seq<char>| temp_names(from, n).contains(x) <==> (x == temp_name(from)
            || temp_names(from + 1, (n - 1) as nat).contains(x)) by {
            if temp_names(from, n).contains(x) {
                let k = choose|k: nat| from <= k < from + n && x == #[trigger] temp_name(k);
                if k != from {
                    assert(from + 1 <= k < from + 1 + (n - 1) && x == temp_name(k));
                }
            }
            if x == temp_name(from) {
                assert(from <= from < from + n && x == temp_name(from));
            }
            if temp_names(from + 1, (n - 1) as nat).contains(x) {
                let k = choose|k: nat| from + 1 <= k < from + 1 + (n - 1) && x == #[trigger] temp_name(k);
                assert(from <= k < from + n && x == temp_name(k));
            }
        }
        assert(s1.hidden.remove_keys(temp_names(from + 1, (n - 1) as nat)) =~= s.hidden.remove_keys(
            temp_names(from, n),
        ));
    }
}

/// A call whose arguments make no calls leaves the stack as it found it: every
/// temporary that it pushes is popped and forgotten again, so the slot count,
/// the hidden names and the variables are as before (where no temporary name
/// was bound already).
pub proof fn lemma_call_restores_stack(f: Function, st: CodegenState)
    requires
        forall|i: int| 0 <= i < f.args@.len() ==> call_free(#[trigger] f.args@[i]),
        forall|k: nat| k < f.args@.len() ==> !st.1.hidden.contains_key(#[trigger] temp_name(k)),
    ensures
        call_code(f, st) matches Ok(st2) ==> {
            &&& st2.1.allocs == st.1.allocs
            &&& st2.1.hidden == st.1.hidden
            &&& st2.1.visible == st.1.visible
        },
{
    let name = f.name.value@;
    let args = f.args@;
    if name == "print"@ {
        if args.len() > 0 {
            lemma_call_free_keeps_symbols(args[0], st);
        }
    } else if name != "anim"@ && st.1.functions.contains_key(name) {
        lemma_args_code_pushes_temps(args, st, Seq::empty());
        if let Ok((st1, pushed)) = args_code(args, st, Seq::empty()) {
            if let Ok(st2) = call_effect(st1, name, stack_args(pushed)) {
                let n = args.len();
                let h = st.1.hidden;
                lemma_add_temps_dom(h, 0, n, st.1.allocs);
                assert forall|k: nat| 0 <= k < 0 + pushed.len() implies st2.1.hidden.contains_key(#[trigger] temp_name(k)) by {
                    assert(temp_names(0, n).contains(temp_name(k)));
                }
                assert forall|k: int| 0 <= k < pushed.len() implies (#[trigger] pushed[k]).0 == temp_name((0 + k) as nat) by {
                }
                lemma_pop_temps_forgets(pushed, st2, 0);
                let hh = add_temps(h, 0, n, st.1.allocs);
                assert(hh.remove_keys(temp_names(0, n)) =~= h) by {
                    assert forall|x: Seq<char>| h.contains_key(x) implies !temp_names(0, n).contains(x) by {
                        if temp_names(0, n).contains(x) {
                            let k = choose|k: nat| 0 <= k < 0 + n && x == #[trigger] temp_name(k);
                        }
                    }
                }
            }
        }
    }
}

/// Whether every call in `e` has arguments that make no call (the argument of
/// a `print` may itself be such a call).
pub open spec fn calls_flat(e: Expression) -> bool
    decreases e,
{
    match e {
        Expression::Value(_) => true,
        Expression::Complex(c) => c.expression@.len() > 0 ==> calls_flat(c.expression@[0]),
        Expression::Function(f) => if f.name.value@ == "print"@ {
            f.args@.len() > 0 ==> calls_flat(f.args@[0])
        } else if f.name.value@ == "anim"@ {
            true
        } else {
            forall|i: int| 0 <= i < f.args@.len() ==> call_free(#[trigger] f.args@[i])
        },
    }
}

/// Whether the expressions of a line are `calls_flat` (a function declaration's
/// body is compiled with a table of its own).
pub open spec fn line_flat(l: Line) -> bool {
    match l {
        Line::Assignment(a) => calls_flat(a.expression),
        Line::Decleration(d) => calls_flat(d.value),
        Line::FnDeclaration(_) => true,
        Line::Expression(e) => calls_flat(e),
    }
}

pub open spec fn lines_flat(ls: Seq<Line>) -> bool {
    forall|i: int| 0 <= i < ls.len() ==> line_flat(#[trigger] ls[i])
}

/// Whether no call temporary is bound in `h`.
pub open spec fn no_temps(h: Map<Seq<char>, usize>) -> bool {
    forall|k: nat| !h.contains_key(#[trigger] temp_name(k))
}

proof fn lemma_value_code_keeps_table(v: Value, st: CodegenState)
    ensures
        value_code(v, st) matches Ok((st2, _)) ==> st2.1 == st.1,
{
}

/// Evaluating a `calls_flat` expression leaves the slots, the temporaries and
/// the variables as they were.
proof fn lemma_flat_expression_keeps_slots(e: Expression, st: CodegenState)
    requires
        calls_flat(e),
        no_temps(st.1.hidden),
    ensures
        expression_code(e, st) matches Ok((st2, _)) ==> {
            &&& st2.1.allocs == st.1.allocs
            &&& st2.1.hidden == st.1.hidden
            &&& st2.1.visible == st.1.visible
        },
    decreases e,
{
    reveal_strlit("print");
    reveal_strlit("anim");
    match e {
        Expression::Value(v) => {
            lemma_value_code_keeps_table(v, st);
        },
        Expression::Complex(c) => {
            if c.expression@.len() > 0 {
                lemma_flat_expression_keeps_slots(c.expression@[0], st);
                if let Ok((st1, _)) = expression_code(c.expression@[0], st) {
                    lemma_value_code_keeps_table(c.value, emit(st1, INSTRUCTION::MOVSD, seq!["xmm1"@, "xmm0"@]));
                }
            }
        },
        Expression::Function(f) => {
            if f.name.value@ == "print"@ {
                if f.args@.len() > 0 {
                    lemma_flat_expression_keeps_slots(f.args@[0], st);
                }
            } else if f.name.value@ != "anim"@ {
                lemma_call_restores_stack(f, st);
            }
            assert(expression_code(e, st) == match call_code(f, st) {
                Err(err) => Err(err),
                Ok(st1) => Ok((st1, VarType::Float)),
            });
        },
    }
}

/// Compiling one `line_flat` line keeps every bound name in a slot of its own
/// and binds no temporary.
pub proof fn lemma_flat_line_keeps_slots_distinct(l: Line, st: CodegenState)
    requires
        line_flat(l),
        distinct_slots(st.1),
        no_temps(st.1.hidden),
        st.1.allocs + line_size(l) <= alloc_limit(),
    ensures
        line_code(l, st) matches Ok(st2) ==> {
            &&& distinct_slots(st2.1)
            &&& no_temps(st2.1.hidden)
            &&& st2.1.allocs <= st.1.allocs + line_size(l)
        },
{
    match l {
        Line::Assignment(a) => {
            lemma_flat_expression_keeps_slots(a.expression, st);
        },
        Line::Decleration(d) => {
            lemma_flat_expression_keeps_slots(d.value, st);
            if let Ok((st1, _)) = expression_code(d.value, st) {
                let st2 = emit(st1, INSTRUCTION::MOVQ, seq!["rdx"@, "xmm0"@]);
                assert(slot_offset(st2.1.allocs) <= usize::MAX);
                lemma_add_keeps_slots_distinct(st2.1, d.name.value@, true);
                assert(push_reg(st2, d.name.value@, "rdx"@, true).1 == add_binding(st2.1, d.name.value@, true));
            }
        },
        Line::FnDeclaration(fd) => {
            lemma_fn_declaration_keeps_frame(fd, st);
        },
        Line::Expression(e) => {
            lemma_flat_expression_keeps_slots(e, st);
        },
    }
}

/// Compiling `line_flat` lines keeps every bound name in a slot of its own:
/// the variables and the call temporaries share the table's one slot counter,
/// and no two of them ever share a slot.
pub proof fn lemma_flat_lines_keep_slots_distinct(ls: Seq<Line>, st: CodegenState)
    requires
        lines_flat(ls),
        distinct_slots(st.1),
        no_temps(st.1.hidden),
        st.1.allocs + lines_size(ls) <= alloc_limit(),
    ensures
        lines_code(ls, st) matches Ok(st2) ==> {
            &&& distinct_slots(st2.1)
            &&& no_temps(st2.1.hidden)
            &&& st2.1.allocs <= st.1.allocs + lines_size(ls)
        },
    decreases ls.len(),
{
    if ls.len() > 0 {
        assert(line_flat(ls[0]));
        lemma_flat_line_keeps_slots_distinct(ls[0], st);
        if let Ok(st1) = line_code(ls[0], st) {
            let rest = ls.drop_first();
            assert forall|i: int| 0 <= i < rest.len() implies line_flat(#[trigger] rest[i]) by {
                assert(rest[i] == ls[i + 1]);
            }
            lemma_flat_lines_keep_slots_distinct(rest, st1);
        }
    }
}

/// In a program whose lines are `line_flat`, the main frame's table keeps
/// every variable and temporary in a slot of its own through all the lines.
pub proof fn lemma_program_slots_distinct(ast: File, g: GeneratorModel)
    requires
        lines_flat(ast.lines@),
        lines_size(ast.lines@) <= alloc_limit(),
    ensures
        lines_code(ast.lines@, (frame_start(g), program_symbols(ast))) matches Ok(st2) ==> distinct_slots(
            st2.1,
        ),
{
    lemma_flat_lines_keep_slots_distinct(ast.lines@, (frame_start(g), program_symbols(ast)));
}

/// The lines that flush the C library's output buffers.
pub open spec fn flush_lines() -> Seq<LineModel> {
    seq![
        LineModel::Instruction(INSTRUCTION::MOV, seq!["rdi"@, "0"@]),
        LineModel::Instruction(INSTRUCTION::MOV, seq!["rax"@, "0"@]),
        LineModel::Instruction(INSTRUCTION::CALL, seq!["fflush"@]),
    ]
}

/// The symbol table of the main program before its lines are compiled.
pub open spec fn program_symbols(ast: File) -> SymbolTableModel {
    let s0 = SymbolTableModel::initial();
    SymbolTableModel { functions: populate(ast.lines@, s0.functions), ..s0 }
}

/// The code of a whole program appended to `g`: the main frame is set up, the
/// lines are compiled in order, the output is flushed, the animations run, and
/// the frame is torn down.
pub open spec fn program_code(ast: File, g: GeneratorModel) -> Result<GeneratorModel, CompilerErrorModel> {
    match lines_code(ast.lines@, (frame_start(g), program_symbols(ast))) {
        Err(e) => Err(e),
        Ok(st2) => {
            let st3 = (st2.0.add_lines(aligned(st2.1.allocs, flush_lines())), st2.1);
            match animation_code(st3) {
                Err(e) => Err(e),
                Ok(st4) => Ok(frame_end(st4.0)),
            }
        },
    }
}

/// Whether a program can be compiled without a panic and within the stack
/// slots that can be addressed.
pub open spec fn compilable(ast: File) -> bool {
    &&& wf_lines(ast.lines@)
    &&& anims_named(ast.lines@)
    &&& 2 * lines_size(ast.lines@) + 2 <= alloc_limit()
}

/// Compiles a whole program into `generator` (see `program_code`).
pub fn generate_from_ast(ast: File, generator: &mut Generator) -> (r: Result<(), CompilerErrors>)
    requires
        compilable(ast),
    ensures
        match program_code(ast, old(generator)@) {
            Ok(g) => r is Ok && final(generator)@ == g,
            Err(e) => r matches Err(x) && x@ == e,
        },
{
    let mut scope = SymbolTable::new();
    populate_symbols(&ast, &mut scope);

    // Set up the stack frame.
    start_stack_frame(generator, &mut scope);

    let ghost ls = ast.lines@;
    let ghost st0: CodegenState = (generator@, scope@);
    assert(st0 == (frame_start(old(generator)@), program_symbols(ast)));
    let mut i: usize = 0;
    proof {
        assert(ls.skip(0) =~= ls);
    }
    while i < ast.lines.len()
        invariant
            ls == ast.lines@,
            i <= ls.len(),
            st0 == (frame_start(old(generator)@), program_symbols(ast)),
            lines_code(ls, st0) == lines_code(ls.skip(i as int), (generator@, scope@)),
            wf_lines(ls.skip(i as int)),
            scope@.wf(),
            stack_load(scope@) + lines_size(ls.skip(i as int)) <= lines_size(ls),
            2 * lines_size(ls) + 2 <= alloc_limit(),
        decreases ls.len() - i,
    {
        let ghost rest = ls.skip(i as int);
        proof {
            assert(rest[0] == ls[i as int]);
            assert(rest.drop_first() =~= ls.skip(i + 1));
        }
        let ghost before: CodegenState = (generator@, scope@);
        match parse_line(&ast.lines[i], generator, &mut scope) {
            Ok(_) => {},
            Err(e) => {
                proof {
                    assert(lines_code(rest, before) == Err::<CodegenState, CompilerErrorModel>(e@));
                }
                return Err(e);
            },
        }
        i = i + 1;
    }
    proof {
        assert(ls.skip(i as int) =~= Seq::<Line>::empty());
    }

    // Flush the output before the program exits.
    let mut flush: Vec<Instruction> = Vec::new();
    flush.push(Instruction::from(INSTRUCTION::MOV, &["rdi", "0"]));
    flush.push(Instruction::from(INSTRUCTION::MOV, &["rax", "0"]));
    flush.push(Instruction::from(INSTRUCTION::CALL, &["fflush"]));
    proof {
        assert(flush@[0]@.1 =~= seq!["rdi"@, "0"@]);
        assert(flush@[1]@.1 =~= seq!["rax"@, "0"@]);
        assert(flush@[2]@.1 =~= seq!["fflush"@]);
        assert(instructions_view(flush@) =~= flush_lines());
    }
    with_aligned_stack(&scope, generator, flush);

    gen_animation(generator, &mut scope)?;
    // Tear down the stack frame.
    end_stack_frame(generator, &mut scope);

    Ok(())
}

} // verus!
