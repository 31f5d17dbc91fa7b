use pufferfish::asm_generator::asm_helpers::INSTRUCTION;
use pufferfish::asm_generator::calling_convention_imp::{call_with, stack_ref_string, Args};
use pufferfish::asm_generator::code_generator::{Data, Generator, Instruction, Label};
use pufferfish::ast_parser::generate_from_ast;
use pufferfish::ast_parser::symbol_table::SymbolTable;
use pufferfish::ast_types::{
    Assignment, ComplexExpression, Expression, File, FnDeclaration, Function, Line, Number,
    Operator, StringVal, Value, VarDeclaration, Varname,
};
use pufferfish::errors::compiler_errors::CompilerErrors;

fn name(s: &str) -> Varname {
    Varname { value: s.to_string() }
}

fn num(s: &str) -> Expression {
    Expression::Value(Value::Number(Number { value: s.to_string() }))
}

fn var(s: &str) -> Expression {
    Expression::Value(Value::Varname(name(s)))
}

fn string(s: &str) -> Expression {
    Expression::Value(Value::String(StringVal { value: s.to_string() }))
}

fn call(f: &str, args: Vec<Expression>) -> Expression {
    Expression::Function(Function { name: name(f), args })
}

fn decl(n: &str, e: Expression) -> Line {
    Line::Decleration(VarDeclaration { name: name(n), value: e })
}

fn stmt(e: Expression) -> Line {
    Line::Expression(e)
}

fn func(n: &str, args: &[&str], lines: Vec<Line>) -> Line {
    Line::FnDeclaration(FnDeclaration {
        name: name(n),
        args: args.iter().map(|a| name(a)).collect(),
        lines,
    })
}

fn compile(lines: Vec<Line>) -> Result<String, CompilerErrors> {
    let mut g = Generator::new();
    generate_from_ast(File { lines }, &mut g)?;
    Ok(g.generate())
}

const EXTERNS: &str = "extern draw_shape\nextern create_window\nextern destroy_window\nextern blit\nextern clear\nextern printf\nextern fflush\nextern cos\nextern sin\n";

const TAIL: &str = "MOV eax,1\nMOV ebx,0\nINT 0x80\n";

const DATA: &str = "\nsegment .data\nprint_fmt_str db `%.2f\\n\\0`,0\n\nsegment .bss\n";

#[test]
fn instruction_rendering() {
    let i = Instruction::from(INSTRUCTION::MOV, &["rdx", "xmm0"]);
    assert_eq!(i.to_string(), "MOV rdx,xmm0");
    let r = Instruction::from(INSTRUCTION::RET, &[""]);
    assert_eq!(r.to_string(), "RET ");
    assert_eq!(Label::from("anim_loop").to_string(), "anim_loop:");
    assert_eq!(Data::from("msg", "db", &["'hi'", "0x0"]).to_string(), "msg db 'hi',0x0");
    assert_eq!(INSTRUCTION::CVTSD2SI.to_string(), "CVTSD2SI");
}

#[test]
fn stack_operand_rendering() {
    assert_eq!(stack_ref_string(8), "[rbp-8]");
    assert_eq!(stack_ref_string(0), "[rbp-0]");
    assert_eq!(stack_ref_string(1234), "[rbp-1234]");
}

#[test]
fn empty_program() {
    let out = compile(vec![]).unwrap();
    let expected = format!(
        "{}section .text\n    global main\nmain:\nPUSH rbp\nMOV rbp,rsp\nMOV rdi,0\nMOV rax,0\nCALL fflush\nMOV rsp,rbp\nPOP rbp\nRET \n{}{}",
        EXTERNS, TAIL, DATA
    );
    assert_eq!(out, expected);
}

#[test]
fn declaration_and_print() {
    let out = compile(vec![decl("i", num("10.0")), stmt(call("print", vec![var("i")]))]).unwrap();
    let expected = format!(
        "{}section .text\n    global main\nmain:\nPUSH rbp\nMOV rbp,rsp\n\
MOV rdx, __float64__(10.0)\nMOVQ xmm0,rdx\nMOVQ rdx,xmm0\nPUSH rdx\n\
MOVQ xmm0,[rbp-8]\nMOV RDI,print_fmt_str\nMOVAPD XMM0,xmm0\nMOV RAX,1\nSUB rsp,8\nCALL printf\nADD rsp,8\n\
SUB rsp,8\nMOV rdi,0\nMOV rax,0\nCALL fflush\nADD rsp,8\n\
MOV rsp,rbp\nPOP rbp\nRET \n{}{}",
        EXTERNS, TAIL, DATA
    );
    assert_eq!(out, expected);
}

#[test]
fn compound_expression_evaluates_right_first() {
    // print(i + 1.0) with i declared
    let e = Expression::Complex(ComplexExpression {
        value: Value::Varname(name("i")),
        opperator: Operator { value: "+".to_string() },
        expression: vec![num("1.0")],
    });
    let out = compile(vec![decl("i", num("2.0")), stmt(call("print", vec![e]))]).unwrap();
    assert!(out.contains(
        "MOV rdx, __float64__(1.0)\nMOVQ xmm0,rdx\nMOVSD xmm1,xmm0\nMOVQ xmm0,[rbp-8]\nADDSD xmm0,xmm1\n"
    ));
}

#[test]
fn operators_map_to_sse_instructions() {
    for (op, inst) in [("+", "ADDSD"), ("-", "SUBSD"), ("*", "MULSD"), ("/", "DIVSD")] {
        let e = Expression::Complex(ComplexExpression {
            value: Value::Number(Number { value: "1.0".to_string() }),
            opperator: Operator { value: op.to_string() },
            expression: vec![num("2.0")],
        });
        let out = compile(vec![stmt(call("print", vec![e]))]).unwrap();
        assert!(out.contains(&format!("{} xmm0,xmm1\n", inst)));
    }
}

#[test]
fn assignment_stores_into_the_slot() {
    let out = compile(vec![
        decl("n", num("1.0")),
        Line::Assignment(Assignment { varname: name("n"), expression: num("5.0") }),
    ])
    .unwrap();
    assert!(out.contains("MOV rdx, __float64__(5.0)\nMOVQ xmm0,rdx\nMOVQ rdx,xmm0\nMOV [rbp-8],rdx\n"));
}

#[test]
fn string_literal_goes_to_data_section() {
    let out = compile(vec![stmt(string("\"hi\""))]).unwrap();
    // "hi" in URL-safe Base64 without padding is "aGk".
    assert!(out.contains("MOV rdx,aGk\n"));
    assert!(out.contains("segment .data\naGk db 'hi',0x0\nprint_fmt_str db"));
}

#[test]
fn string_literal_quotes_are_trimmed() {
    let out = compile(vec![stmt(string("\"\"a b\"\""))]).unwrap();
    // "a b" in URL-safe Base64 without padding is "YSBi".
    assert!(out.contains("YSBi db 'a b',0x0\n"));
}

#[test]
fn function_declaration_and_call() {
    let out = compile(vec![
        func("test", &["f"], vec![stmt(call("print", vec![var("f")]))]),
        stmt(call("test", vec![num("1.0")])),
    ])
    .unwrap();
    // The call: the argument is pushed into a hidden slot, loaded into XMM0, popped.
    assert!(out.contains(
        "MOV rdx, __float64__(1.0)\nMOVQ xmm0,rdx\nMOVQ rdx,xmm0\nPUSH rdx\nMOVQ XMM0,[rbp-8]\nMOV RAX,1\nSUB rsp,8\nCALL test\nADD rsp,8\nPOP rdx\nMOVQ rdx,xmm0\n"
    ));
    // The function body comes after the exit sequence.
    let tail_at = out.find(TAIL).unwrap();
    let fn_at = out.find("test:\nPUSH rbp\nMOV rbp,rsp\nMOVQ rdx,XMM0\nPUSH rdx\nMOVQ xmm0,[rbp-8]\n").unwrap();
    assert!(fn_at > tail_at);
}

#[test]
fn external_function_call() {
    let out = compile(vec![stmt(call("print", vec![call("sin", vec![num("0.0")])]))]).unwrap();
    assert!(out.contains("CALL sin\n"));
    assert!(out.contains("CALL printf\n"));
}

#[test]
fn missing_variable_is_reported() {
    let err = compile(vec![stmt(call("print", vec![var("x")]))]).unwrap_err();
    assert!(matches!(&err, CompilerErrors::MissingVar(v) if v == "x"));
    assert_eq!(err.message(), "The variable `x` is not defined");
}

#[test]
fn missing_function_is_reported() {
    let err = compile(vec![stmt(call("foo", vec![num("1.0")]))]).unwrap_err();
    assert!(matches!(&err, CompilerErrors::MissingFunction(f) if f == "foo"));
    assert_eq!(err.message(), "The function `foo` is not defined");
}

#[test]
fn anim_with_wrong_arguments_is_reported() {
    let err = compile(vec![
        func("f", &["t"], vec![]),
        stmt(call("anim", vec![var("f"), var("f"), var("f")])),
    ])
    .unwrap_err();
    assert!(matches!(&err, CompilerErrors::WrongArgs(f, n) if f == "anim" && n == "1 or 2"));
    assert_eq!(err.message(), "The function `anim` expects 1 or 2 arguments");
}

#[test]
fn too_many_parameters_is_reported() {
    let params = ["a", "b", "c", "d", "e", "f", "g", "h", "i"];
    let err = compile(vec![func("big", &params, vec![])]).unwrap_err();
    assert!(matches!(err, CompilerErrors::OutOfRegisters()));
    assert_eq!(err.message(), "Compiler impl limitation - ran out of registers");
}

#[test]
fn too_many_call_arguments_is_reported() {
    let args: Vec<Expression> = (0..9).map(|_| num("1.0")).collect();
    let err = compile(vec![func("g", &[], vec![]), stmt(call("g", args))]).unwrap_err();
    assert!(matches!(err, CompilerErrors::OutOfRegisters()));
}

#[test]
fn call_with_uses_registers_in_order() {
    let mut g = Generator::new();
    let scope = SymbolTable::new();
    call_with(
        "f",
        &[Args::Int(7), Args::FloatReg("xmm3"), Args::StrPtr("lbl"), Args::IntStack(16), Args::FloatStack(24), Args::IntReg("rax")],
        &mut g,
        &scope,
    )
    .unwrap();
    let out = g.generate();
    assert!(out.contains(
        "MOV RDI,7\nMOVAPD XMM0,xmm3\nMOV RSI,lbl\nMOV RDX,[rbp-16]\nMOVQ XMM1,[rbp-24]\nMOV RCX,rax\nMOV RAX,2\nCALL f\n"
    ));
}

#[test]
fn call_with_seven_integer_arguments_fails() {
    let mut g = Generator::new();
    let scope = SymbolTable::new();
    let args: Vec<Args> = (0..7).map(|i| Args::Int(i)).collect();
    let r = call_with("f", &args, &mut g, &scope);
    assert!(matches!(r, Err(CompilerErrors::OutOfRegisters())));
    let six: Vec<Args> = (0..6).map(|i| Args::Int(i)).collect();
    let mut g2 = Generator::new();
    assert!(call_with("f", &six, &mut g2, &scope).is_ok());
}

#[test]
fn animation_program() {
    let out = compile(vec![
        func("xy", &["f"], vec![Line::Assignment(Assignment { varname: name("x"), expression: var("f") })]),
        func("shape", &["f"], vec![]),
        stmt(call("anim", vec![var("xy"), var("shape")])),
    ])
    .unwrap();
    assert!(out.contains("CALL create_window\n"));
    assert!(out.contains("MOV RDI,1\nMOV RAX,0\nCALL shape\nMOV RDI,rdi\nMOV RAX,0\nCALL loadImageTex\nPUSH rax\n"));
    assert!(out.contains("MOV rcx,500\nPUSH rcx\nanim_loop:\nMOV rcx,[rsp]\nMOV rdi,500\nSUB rdi,rcx\nCVTSI2SD xmm0,rdi\nMOVQ rdi,xmm0\n"));
    assert!(out.contains("MOV RDI,rdi\nMOV RSI,rsi\nMOV RDX,[rbp-8]\nMOV RAX,0\nCALL draw_shape\n"));
    assert!(out.contains("CALL blit\n"));
    assert!(out.contains("POP rcx\nDEC rcx\nPUSH rcx\nJNZ anim_loop\nPOP rcx\n"));
    assert!(out.contains("CALL destroy_window\n"));
    // The position callback returns x and y as integers; the shape callback its texture.
    assert!(out.contains("CVTSD2SI rdi,xmm0\nMOVQ xmm0,[rbp-24]\nCVTSD2SI rsi,xmm0\n"));
    assert!(out.contains("shape:\nPUSH rbp\nMOV rbp,rsp\nMOVQ rdx,XMM0\nPUSH rdx\nMOV rdi,0\nPUSH rdi\nMOV rdi,[rbp-16]\nMOV rsp,rbp\nPOP rbp\nRET \n"));
}

#[test]
fn anim_with_unknown_function_is_reported() {
    // Inside a function body only the C library functions are known.
    let err = compile(vec![func("f", &["t"], vec![stmt(call("anim", vec![var("a"), var("b")]))])])
        .unwrap_err();
    assert!(matches!(&err, CompilerErrors::MissingFunction(f) if f == "a"));
}

#[test]
fn top_level_anim_declares_its_callbacks() {
    // The callbacks named by a top-level anim call are known even if they are
    // never declared.
    let out = compile(vec![stmt(call("anim", vec![var("p"), var("q")]))]).unwrap();
    assert!(out.contains("CALL q\n"));
    assert!(out.contains("CALL p\n"));
}
