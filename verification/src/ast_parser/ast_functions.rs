use vstd::prelude::*;

use super::{
    fn_declaration_code, fn_generator_code, frame_end, frame_start, lines_code, lines_size,
    param_names, parse_line, stack_load, wf_lines, alloc_limit, CodegenState,
};
use crate::asm_generator::asm_helpers::INSTRUCTION;
use crate::asm_generator::calling_convention_imp::{
    push_values_from_arg_reg_into_stack, spill_bindings, spill_lines, stack_ref_string,
};
use crate::asm_generator::code_generator::{emit1, emit2, Generator, Label};
use crate::ast_parser::ast_util::push_reg_to_stack;
use crate::ast_parser::symbol_table::{FunctionType, SymbolTable, SymbolTableModel};
use crate::ast_types::FnDeclaration;
use crate::errors::compiler_errors::{CompilerErrorModel, CompilerErrors};

verus! {

/// Compiles a function declaration according to the kind of function that the
/// symbol table says it is (see `fn_declaration_code`).
pub fn parse_fn_declaration(
    fn_decleration: &FnDeclaration,
    generator: &mut Generator,
    scope: &mut SymbolTable,
) -> (r: Result<(), CompilerErrors>)
    requires
        wf_lines(fn_decleration.lines@),
        12 + lines_size(fn_decleration.lines@) <= alloc_limit(),
    ensures
        match fn_declaration_code(*fn_decleration, (old(generator)@, old(scope)@)) {
            Ok(st) => r is Ok && final(generator)@ == st.0 && final(scope)@ == st.1,
            Err(e) => r matches Err(x) && x@ == e && final(generator)@ == old(generator)@,
        },
        final(scope)@ == old(scope)@,
    decreases fn_decleration, 3nat,
{
    let fn_type = match scope.functions.get(fn_decleration.name.value.as_str()) {
        Some(t) => t,
        None => {
            return Err(CompilerErrors::missing_function(fn_decleration.name.value.as_str()));
        },
    };
    match fn_type {
        FunctionType::XY => parse_xy_decleration(fn_decleration, generator),
        FunctionType::NORMAL => parse_normal_fn_declaration(fn_decleration, generator),
        FunctionType::SHAPE => parse_shape_function(fn_decleration, generator),
    }
}

fn parse_shape_function(fn_dec: &FnDeclaration, gen: &mut Generator) -> (r: Result<(), CompilerErrors>)
    requires
        wf_lines(fn_dec.lines@),
        12 + lines_size(fn_dec.lines@) <= alloc_limit(),
    ensures
        match fn_generator_code(*fn_dec, FunctionType::SHAPE) {
            Ok(fg) => r is Ok && final(gen)@ == old(gen)@.append(fg),
            Err(e) => r matches Err(x) && x@ == e && final(gen)@ == old(gen)@,
        },
    decreases fn_dec, 2nat,
{
    let mut fn_generator = Generator::new();
    let mut fn_scope: SymbolTable = SymbolTable::new();

    fn_generator.add_label(Label::from(fn_dec.name.value.as_str()));
    start_stack_frame(&mut fn_generator, &mut fn_scope);
    push_args_to_stack(fn_dec, &mut fn_generator, &mut fn_scope)?;

    emit2(&mut fn_generator, INSTRUCTION::MOV, "rdi", "0");
    push_reg_to_stack(
        "tex",
        &mut fn_scope.visible_stack,
        &mut fn_scope.stack_alloc,
        &mut fn_generator,
        "rdi",
    );

    generate_code_for_fn_body(fn_dec, &mut fn_generator, &mut fn_scope)?;

    let tex_offset = fn_scope.visible_stack.get_stack_address("tex")?;
    let tex = stack_ref_string(tex_offset);
    emit2(&mut fn_generator, INSTRUCTION::MOV, "rdi", tex.as_str());

    end_stack_frame(&mut fn_generator, &mut fn_scope);
    gen.append(&mut fn_generator);
    Ok(())
}

fn parse_xy_decleration(fn_dec: &FnDeclaration, gen: &mut Generator) -> (r: Result<(), CompilerErrors>)
    requires
        wf_lines(fn_dec.lines@),
        12 + lines_size(fn_dec.lines@) <= alloc_limit(),
    ensures
        match fn_generator_code(*fn_dec, FunctionType::XY) {
            Ok(fg) => r is Ok && final(gen)@ == old(gen)@.append(fg),
            Err(e) => r matches Err(x) && x@ == e && final(gen)@ == old(gen)@,
        },
    decreases fn_dec, 2nat,
{
    let mut fn_generator = Generator::new();
    let mut fn_scope: SymbolTable = SymbolTable::new();

    fn_generator.add_label(Label::from(fn_dec.name.value.as_str()));
    start_stack_frame(&mut fn_generator, &mut fn_scope);
    push_args_to_stack(fn_dec, &mut fn_generator, &mut fn_scope)?;

    emit2(&mut fn_generator, INSTRUCTION::MOV, "rdi", "0");
    push_reg_to_stack(
        "x",
        &mut fn_scope.visible_stack,
        &mut fn_scope.stack_alloc,
        &mut fn_generator,
        "rdi",
    );

    emit2(&mut fn_generator, INSTRUCTION::MOV, "rdi", "0");
    push_reg_to_stack(
        "y",
        &mut fn_scope.visible_stack,
        &mut fn_scope.stack_alloc,
        &mut fn_generator,
        "rdi",
    );

    generate_code_for_fn_body(fn_dec, &mut fn_generator, &mut fn_scope)?;

    let x_offset = fn_scope.visible_stack.get_stack_address("x")?;
    let y_offset = fn_scope.visible_stack.get_stack_address("y")?;

    let x = stack_ref_string(x_offset);
    emit2(&mut fn_generator, INSTRUCTION::MOVQ, "xmm0", x.as_str());
    emit2(&mut fn_generator, INSTRUCTION::CVTSD2SI, "rdi", "xmm0");

    let y = stack_ref_string(y_offset);
    emit2(&mut fn_generator, INSTRUCTION::MOVQ, "xmm0", y.as_str());
    emit2(&mut fn_generator, INSTRUCTION::CVTSD2SI, "rsi", "xmm0");

    end_stack_frame(&mut fn_generator, &mut fn_scope);
    gen.append(&mut fn_generator);
    Ok(())
}

fn parse_normal_fn_declaration(fn_dec: &FnDeclaration, gen: &mut Generator) -> (r: Result<(), CompilerErrors>)
    requires
        wf_lines(fn_dec.lines@),
        12 + lines_size(fn_dec.lines@) <= alloc_limit(),
    ensures
        match fn_generator_code(*fn_dec, FunctionType::NORMAL) {
            Ok(fg) => r is Ok && final(gen)@ == old(gen)@.append(fg),
            Err(e) => r matches Err(x) && x@ == e && final(gen)@ == old(gen)@,
        },
    decreases fn_dec, 2nat,
{
    let mut fn_generator = Generator::new();
    let mut fn_scope: SymbolTable = SymbolTable::new();

    fn_generator.add_label(Label::from(fn_dec.name.value.as_str()));
    start_stack_frame(&mut fn_generator, &mut fn_scope);
    push_args_to_stack(fn_dec, &mut fn_generator, &mut fn_scope)?;
    generate_code_for_fn_body(fn_dec, &mut fn_generator, &mut fn_scope)?;
    end_stack_frame(&mut fn_generator, &mut fn_scope);
    gen.append(&mut fn_generator);
    Ok(())
}

/// Saves the caller's frame base and starts a new frame.
pub fn start_stack_frame(fn_generator: &mut Generator, _scope: &mut SymbolTable)
    ensures
        final(fn_generator)@ == frame_start(old(fn_generator)@),
        final(_scope)@ == old(_scope)@,
{
    emit1(fn_generator, INSTRUCTION::PUSH, "rbp");
    emit2(fn_generator, INSTRUCTION::MOV, "rbp", "rsp");
}

/// Restores the caller's frame and returns.
pub fn end_stack_frame(fn_generator: &mut Generator, _scope: &mut SymbolTable)
    ensures
        final(fn_generator)@ == frame_end(old(fn_generator)@),
        final(_scope)@ == old(_scope)@,
{
    emit2(fn_generator, INSTRUCTION::MOV, "rsp", "rbp");
    emit1(fn_generator, INSTRUCTION::POP, "rbp");
    emit1(fn_generator, INSTRUCTION::RET, "");
}

/// Stores the parameters, which arrive in the floating-point argument
/// registers, into stack slots bound to their names.
fn push_args_to_stack(fn_dec: &FnDeclaration, fn_generator: &mut Generator, fn_scope: &mut SymbolTable) -> (r: Result<(), CompilerErrors>)
    requires
        old(fn_scope)@.allocs == 0,
    ensures
        ({
            let names = param_names(*fn_dec);
            names.len() <= 8 ==> {
                &&& r is Ok
                &&& final(fn_generator)@ == old(fn_generator)@.add_lines(spill_lines(names.len()))
                &&& final(fn_scope)@ == (SymbolTableModel {
                    visible: spill_bindings(old(fn_scope)@.visible, names, 0),
                    allocs: names.len(),
                    ..old(fn_scope)@
                })
            }
        }),
        param_names(*fn_dec).len() > 8 ==> (r matches Err(x) && x@ == CompilerErrorModel::OutOfRegisters),
{
    let mut varnames: Vec<&str> = Vec::new();
    let mut i: usize = 0;
    while i < fn_dec.args.len()
        invariant
            i <= fn_dec.args@.len(),
            varnames@.len() == i,
            forall|j: int| 0 <= j < i ==> #[trigger] varnames@[j]@ == fn_dec.args@[j].value@,
        decreases fn_dec.args@.len() - i,
    {
        varnames.push(fn_dec.args[i].value.as_str());
        i = i + 1;
    }
    let ghost names = param_names(*fn_dec);
    proof {
        assert(varnames@.map_values(|a: &str| a@) =~= names);
        assert(names.take(names.len() as int) =~= names);
    }
    push_values_from_arg_reg_into_stack(
        varnames.as_slice(),
        fn_generator,
        &mut fn_scope.visible_stack,
        &mut fn_scope.stack_alloc,
    )?;
    proof {
        assert(fn_scope@ =~= (SymbolTableModel {
            visible: spill_bindings(old(fn_scope)@.visible, names, 0),
            allocs: names.len(),
            ..old(fn_scope)@
        }));
    }
    Ok(())
}

/// Compiles the body of a function, line by line.
fn generate_code_for_fn_body(fn_dec: &FnDeclaration, fn_generator: &mut Generator, fn_scope: &mut SymbolTable) -> (r: Result<(), CompilerErrors>)
    requires
        wf_lines(fn_dec.lines@),
        old(fn_scope)@.wf(),
        stack_load(old(fn_scope)@) + lines_size(fn_dec.lines@) <= alloc_limit(),
    ensures
        match lines_code(fn_dec.lines@, (old(fn_generator)@, old(fn_scope)@)) {
            Ok(st) => r is Ok && final(fn_generator)@ == st.0 && final(fn_scope)@ == st.1,
            Err(e) => r matches Err(x) && x@ == e,
        },
    decreases fn_dec, 1nat,
{
    let ghost ls = fn_dec.lines@;
    let ghost st0: CodegenState = (fn_generator@, fn_scope@);
    let mut i: usize = 0;
    proof {
        assert(ls.skip(0) =~= ls);
    }
    while i < fn_dec.lines.len()
        invariant
            ls == fn_dec.lines@,
            st0 == (old(fn_generator)@, old(fn_scope)@),
            i <= ls.len(),
            lines_code(ls, st0) == lines_code(ls.skip(i as int), (fn_generator@, fn_scope@)),
            wf_lines(ls.skip(i as int)),
            fn_scope@.wf(),
            stack_load(fn_scope@) + lines_size(ls.skip(i as int)) <= alloc_limit(),
        decreases ls.len() - i,
    {
        let ghost rest = ls.skip(i as int);
        proof {
            assert(rest[0] == ls[i as int]);
            assert(rest.drop_first() =~= ls.skip(i + 1));
        }
        let ghost before: CodegenState = (fn_generator@, fn_scope@);
        match parse_line(&fn_dec.lines[i], fn_generator, fn_scope) {
            Ok(_) => {},
            Err(e) => {
                proof {
                    assert(lines_code(rest, before) == Err::<CodegenState, CompilerErrorModel>(e@));
                }
                return Err(e);
            },
        }
        i = i + 1;
    }
    proof {
        assert(ls.skip(i as int) =~= Seq::<crate::ast_types::Line>::empty());
    }
    Ok(())
}

} // verus!
