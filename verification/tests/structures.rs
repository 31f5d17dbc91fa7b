use pufferfish::asm_generator::asm_helpers::gen_animation;
use pufferfish::asm_generator::code_generator::Generator;
use pufferfish::ast_parser::{generate_from_ast, string_literal_code};
use pufferfish::ast_parser::populate_symbols;
use pufferfish::ast_parser::symbol_table::{
    AnimPair, FunctionType, StackAllocCounter, SymbolMap, SymbolTable, VarStack,
};
use pufferfish::ast_types::PuffParser;
use pufferfish::code_generator;
use pufferfish::errors::compiler_errors::CompilerErrors;
use pufferfish::text::{push_decimal, push_joined, str_equals, trim_matches_char};

fn compile_src(src: &str) -> String {
    let file = PuffParser::parse(src).expect("the source parses");
    let mut g = Generator::new();
    generate_from_ast(file, &mut g).expect("the program compiles");
    g.generate()
}

fn main_text(out: &str) -> String {
    let start = out.find("main:\n").unwrap();
    let end = out.find("MOV eax,1\n").unwrap();
    out[start..end].to_string()
}

#[test]
fn stack_alloc_counter_hands_out_consecutive_slots() {
    let mut c = StackAllocCounter::new();
    assert_eq!(c.get(), 0);
    assert_eq!(c.alloc_slot(), 8);
    assert_eq!(c.alloc_slot(), 16);
    assert_eq!(c.get(), 2);
    c.free();
    assert_eq!(c.get(), 1);
    assert_eq!(c.alloc_slot(), 16);
}

#[test]
fn var_stack_remove_undoes_add() {
    let mut counter = StackAllocCounter::new();
    let mut vars = VarStack::new();
    vars.add("a".to_string(), &mut counter);
    assert_eq!(vars.get_stack_address("a").unwrap(), 8);
    vars.add("b".to_string(), &mut counter);
    assert_eq!(vars.get_stack_address("b").unwrap(), 16);
    // `a` keeps its slot.
    assert_eq!(vars.get_stack_address("a").unwrap(), 8);
    assert_eq!(counter.get(), 2);
    vars.remove("b", &mut counter).unwrap();
    assert_eq!(counter.get(), 1);
    assert!(matches!(vars.get_stack_address("b"), Err(CompilerErrors::MissingVar(n)) if n == "b"));
    assert_eq!(vars.get_stack_address("a").unwrap(), 8);
}

#[test]
fn var_stack_remove_of_an_unknown_name_fails() {
    let mut counter = StackAllocCounter::new();
    let mut vars = VarStack::new();
    vars.add("a".to_string(), &mut counter);
    let r = vars.remove("zz", &mut counter);
    assert!(matches!(r, Err(CompilerErrors::MissingVar(n)) if n == "zz"));
    assert_eq!(counter.get(), 1);
    assert_eq!(vars.get_stack_address("a").unwrap(), 8);
}

#[test]
fn var_stack_rebinding_shadows() {
    let mut counter = StackAllocCounter::new();
    let mut vars = VarStack::new();
    vars.add("n".to_string(), &mut counter);
    vars.add("n".to_string(), &mut counter);
    assert_eq!(vars.get_stack_address("n").unwrap(), 16);
}

#[test]
fn symbol_map_insert_get_remove() {
    let mut m: SymbolMap<u32> = SymbolMap::new();
    assert_eq!(m.get("x"), None);
    m.insert("x".to_string(), 1);
    m.insert("y".to_string(), 2);
    m.insert("x".to_string(), 3);
    assert_eq!(m.get("x"), Some(3));
    assert_eq!(m.get("y"), Some(2));
    assert!(m.contains_key("y"));
    m.remove("x");
    assert!(!m.contains_key("x"));
    assert_eq!(m.get("y"), Some(2));
}

#[test]
fn a_new_symbol_table_knows_the_c_functions() {
    let t = SymbolTable::new();
    assert_eq!(t.get_stack_allocs(), 0);
    assert_eq!(t.functions.get("sin"), Some(FunctionType::NORMAL));
    assert_eq!(t.functions.get("cos"), Some(FunctionType::NORMAL));
    assert_eq!(t.functions.get("print"), None);
    assert_eq!(t.anim_stack.len(), 0);
}

#[test]
fn populate_records_declarations_and_anim_callbacks() {
    let file = PuffParser::parse("fn f(a) {}; fn p(t) {}; fn q(t) {}; anim(p, q); fn p(t) {};").unwrap();
    let mut t = SymbolTable::new();
    populate_symbols(&file, &mut t);
    assert_eq!(t.functions.get("f"), Some(FunctionType::NORMAL));
    assert_eq!(t.functions.get("p"), Some(FunctionType::XY));
    assert_eq!(t.functions.get("q"), Some(FunctionType::SHAPE));
    assert_eq!(t.functions.get("sin"), Some(FunctionType::NORMAL));
    assert_eq!(t.get_stack_allocs(), 0);
}

#[test]
fn animation_uses_every_pending_pair() {
    let mut g = Generator::new();
    let mut t = SymbolTable::new();
    t.functions.insert("p".to_string(), FunctionType::XY);
    t.functions.insert("q".to_string(), FunctionType::SHAPE);
    t.anim_stack.push(AnimPair { xy: "p".to_string(), shape: Some("q".to_string()) });
    t.anim_stack.push(AnimPair { xy: "p".to_string(), shape: Some("q".to_string()) });
    gen_animation(&mut g, &mut t).unwrap();
    // Nothing is pending afterwards, and one slot holds each texture.
    assert_eq!(t.anim_stack.len(), 0);
    assert_eq!(t.get_stack_allocs(), 2);
    let out = g.generate();
    assert_eq!(out.matches("CALL loadImageTex\n").count(), 2);
    assert_eq!(out.matches("CALL draw_shape\n").count(), 2);
    // Each texture slot is named after the pair's position in the stack; with
    // three slots in use the stack is realigned around each call.
    assert!(out.contains("MOV RDX,[rbp-8]\nMOV RAX,0\nSUB rsp,8\nCALL draw_shape\nADD rsp,8\n"));
    assert!(out.contains("MOV RDX,[rbp-16]\nMOV RAX,0\nSUB rsp,8\nCALL draw_shape\nADD rsp,8\n"));
}

#[test]
fn animation_without_a_shape_callback_loads_texture_zero() {
    let mut g = Generator::new();
    let mut t = SymbolTable::new();
    t.functions.insert("p".to_string(), FunctionType::XY);
    t.anim_stack.push(AnimPair { xy: "p".to_string(), shape: None });
    gen_animation(&mut g, &mut t).unwrap();
    assert_eq!(t.anim_stack.len(), 0);
    assert_eq!(t.get_stack_allocs(), 1);
    let out = g.generate();
    assert!(out.contains("MOV rdi,0\nMOV RDI,rdi\nMOV RAX,0\nCALL loadImageTex\nPUSH rax\n"));
    assert_eq!(out.matches("MOV RDI,1\n").count(), 0);
}

#[test]
fn animation_without_pending_pairs_emits_nothing() {
    let mut g = Generator::new();
    let mut t = SymbolTable::new();
    gen_animation(&mut g, &mut t).unwrap();
    assert_eq!(main_text(&g.generate()), "main:\n");
}

#[test]
fn a_call_gives_back_its_temporaries() {
    // After the call, the declaration takes the first slot again.
    let out = compile_src("fn g(a, b) {}; g(1.0, 2.0); var x = 3.0; print(x);");
    assert!(main_text(&out).contains("MOVQ xmm0,[rbp-8]\nMOV RDI,print_fmt_str\n"));
}

#[test]
fn a_call_in_a_later_argument_keeps_a_slot_counted() {
    // The inner call reuses the outer call's first temporary name, so one slot
    // stays counted after the outer call.
    let out = compile_src("fn g(a) {}; fn f(a, b) {}; f(1.0, g(2.0)); var x = 3.0; print(x);");
    assert!(main_text(&out).contains("MOVQ xmm0,[rbp-16]\nMOV RDI,print_fmt_str\n"));
}

#[test]
fn code_is_only_ever_appended() {
    let one = main_text(&compile_src("var a = 1.0;"));
    let two = main_text(&compile_src("var a = 1.0; print(a + 2.0);"));
    // The flush sequence closes the main text; everything before it is kept.
    let prefix = &one[..one.find("SUB rsp,8\nMOV rdi,0\n").unwrap()];
    assert!(two.starts_with(prefix));
    assert!(two.len() > one.len());
}

#[test]
fn decimal_rendering() {
    for (n, text) in [(0usize, "0"), (7, "7"), (10, "10"), (1234, "1234"), (500, "500")] {
        let mut s = String::from("x");
        push_decimal(&mut s, n);
        assert_eq!(s, format!("x{}", text));
    }
}

#[test]
fn trimming_a_character() {
    assert_eq!(trim_matches_char("\"\"a\"b\"", '"'), "a\"b");
    assert_eq!(trim_matches_char("\"\"\"", '"'), "");
    assert_eq!(trim_matches_char("abc", '"'), "abc");
    assert_eq!(trim_matches_char("", '"'), "");
}

#[test]
fn string_helpers() {
    assert!(str_equals("print", "print"));
    assert!(!str_equals("print", "prin"));
    let mut out = String::from(">");
    push_joined(&mut out, &vec!["a".to_string(), "b".to_string(), "c".to_string()], ", ");
    assert_eq!(out, ">a, b, c");
    let mut empty = String::new();
    push_joined(&mut empty, &vec![], ",");
    assert_eq!(empty, "");
}

#[test]
fn plain_generator_renders_its_text_section() {
    let mut g = code_generator::Generator::new();
    g.add_inst(code_generator::Instruction {
        instruction: "mov".to_string(),
        args: vec!["eax,".to_string(), "1".to_string()],
    });
    g.add_inst(code_generator::Instruction { instruction: "int".to_string(), args: vec!["0x80".to_string()] });
    assert_eq!(g.generate(), "section .text\n    global _start\n_start:\nmov eax, 1\nint 0x80\n");
    let i = code_generator::Instruction { instruction: "ret".to_string(), args: vec![] };
    assert_eq!(i.to_string(), "ret ");
}

#[test]
fn string_literal_code_defines_and_loads_the_entry() {
    let mut g = Generator::new();
    string_literal_code("a b", "YSBi", &mut g);
    let out = g.generate();
    assert!(out.contains("main:\nMOV rdx,YSBi\n"));
    assert!(out.contains("segment .data\nYSBi db 'a b',0x0\n"));
}

#[test]
fn variables_and_temporaries_get_slots_of_their_own() {
    let out = compile_src("fn g(a) {}; var a = 1.0; g(a); var b = 2.0; print(a); print(b);");
    let main = main_text(&out);
    // The call's temporary takes the second slot while it lives; `b` gets it after.
    assert!(main.contains("MOVQ rdx,xmm0\nPUSH rdx\nMOVQ XMM0,[rbp-16]\n"));
    assert!(main.contains("MOVQ xmm0,[rbp-8]\nMOV RDI,print_fmt_str\n"));
    assert!(main.contains("MOVQ xmm0,[rbp-16]\nMOV RDI,print_fmt_str\n"));
}
