use pufferfish::asm_generator::code_generator::Generator;
use pufferfish::ast_parser::checks::is_compilable;
use pufferfish::ast_parser::generate_from_ast;
use pufferfish::ast_types::{Expression, File, Line, PuffParser, Value};
use pufferfish::errors::compiler_errors::CompilerErrors;

fn show_value(v: &Value) -> String {
    match v {
        Value::Number(n) => format!("num:{}", n.value),
        Value::Varname(n) => format!("var:{}", n.value),
        Value::String(s) => format!("str:{}", s.value),
    }
}

fn show_expr(e: &Expression) -> String {
    match e {
        Expression::Value(v) => show_value(v),
        Expression::Complex(c) => {
            let rest: Vec<String> = c.expression.iter().map(show_expr).collect();
            format!("({} {} [{}])", show_value(&c.value), c.opperator.value, rest.join(","))
        }
        Expression::Function(f) => {
            let args: Vec<String> = f.args.iter().map(show_expr).collect();
            format!("{}({})", f.name.value, args.join(","))
        }
    }
}

fn show_line(l: &Line) -> String {
    match l {
        Line::Assignment(a) => format!("{} = {}", a.varname.value, show_expr(&a.expression)),
        Line::Decleration(d) => format!("var {} = {}", d.name.value, show_expr(&d.value)),
        Line::FnDeclaration(fd) => {
            let params: Vec<String> = fd.args.iter().map(|a| a.value.clone()).collect();
            let body: Vec<String> = fd.lines.iter().map(show_line).collect();
            format!("fn {}({}) {{{}}}", fd.name.value, params.join(","), body.join("; "))
        }
        Line::Expression(e) => show_expr(e),
    }
}

fn parsed(src: &str) -> Vec<String> {
    let file = PuffParser::parse(src).expect("the source parses");
    file.lines.iter().map(show_line).collect()
}

fn compile_src(src: &str) -> Result<String, CompilerErrors> {
    let file = PuffParser::parse(src).expect("the source parses");
    assert!(is_compilable(&file));
    let mut g = Generator::new();
    generate_from_ast(file, &mut g)?;
    Ok(g.generate())
}

fn count(haystack: &str, needle: &str) -> usize {
    haystack.matches(needle).count()
}

/// The programs print with two decimals (`31.00`); what they print at run time
/// needs the assembled program, so these tests check the format and the code.
fn prints_two_decimals(out: &str) {
    assert!(out.contains("print_fmt_str db `%.2f\\n\\0`,0\n"));
}

#[test]
fn expression_test() {
    let input = "
    var i = 10.0;
    var j = 20.0;
    print(i + j + 1.0);
    print(i*j);
    print(j-1.0);
    print(1.0/2.0);
  ";
    assert_eq!(
        parsed(input),
        vec![
            "var i = num:10.0",
            "var j = num:20.0",
            "print((var:i + [(var:j + [num:1.0])]))",
            "print((var:i * [var:j]))",
            "print((var:j - [num:1.0]))",
            "print((num:1.0 / [num:2.0]))",
        ]
    );
    let out = compile_src(input).unwrap();
    prints_two_decimals(&out);
    assert_eq!(count(&out, "CALL printf\n"), 4);
    assert!(out.contains("ADDSD xmm0,xmm1\n"));
    assert!(out.contains("MULSD xmm0,xmm1\n"));
    assert!(out.contains("SUBSD xmm0,xmm1\n"));
    assert!(out.contains("DIVSD xmm0,xmm1\n"));
}

#[test]
fn function_function_test() {
    let input = "
        fn test(f){
            print(f);
        };

        test(1.0);
        test(20.0);";
    assert_eq!(
        parsed(input),
        vec!["fn test(f) {print(var:f)}", "test(num:1.0)", "test(num:20.0)"]
    );
    let out = compile_src(input).unwrap();
    prints_two_decimals(&out);
    assert_eq!(count(&out, "CALL test\n"), 2);
    assert!(out.contains(" __float64__(1.0)\n"));
    assert!(out.contains(" __float64__(20.0)\n"));
    assert!(out.contains("test:\nPUSH rbp\nMOV rbp,rsp\n"));
}

#[test]
fn function_stack_test() {
    let input = "    
        var n = 9.0;

        fn test(f){
            var n = 100.0;
            var m = 200.0;
            print(m);
            print(n);
        };

        test(1.0);
        print(n);
    ";
    assert_eq!(
        parsed(input),
        vec![
            "var n = num:9.0",
            "fn test(f) {var n = num:100.0; var m = num:200.0; print(var:m); print(var:n)}",
            "test(num:1.0)",
            "print(var:n)",
        ]
    );
    let out = compile_src(input).unwrap();
    prints_two_decimals(&out);
    // Inside the function: f is at [rbp-8], n at [rbp-16], m at [rbp-24].
    let body = &out[out.find("test:\n").unwrap()..];
    assert!(body.contains("MOVQ xmm0,[rbp-24]\nMOV RDI,print_fmt_str\n"));
    assert!(body.contains("MOVQ xmm0,[rbp-16]\nMOV RDI,print_fmt_str\n"));
    // At the top level n is at [rbp-8].
    let main = &out[..out.find("test:\n").unwrap()];
    assert!(main.contains("MOVQ xmm0,[rbp-8]\nMOV RDI,print_fmt_str\n"));
}

#[test]
fn function_multi_arg() {
    let input = "
        fn test(f1, f2) { 
            print(f1);
            print(f2);
        };
        test(10.0, 20.0);
    ";
    assert_eq!(
        parsed(input),
        vec!["fn test(f1,f2) {print(var:f1); print(var:f2)}", "test(num:10.0,num:20.0)"]
    );
    let out = compile_src(input).unwrap();
    prints_two_decimals(&out);
    // Both arguments go through XMM0 and XMM1.
    assert!(out.contains("MOVQ XMM0,[rbp-8]\nMOVQ XMM1,[rbp-16]\nMOV RAX,2\n"));
    assert!(out.contains("test:\nPUSH rbp\nMOV rbp,rsp\nMOVQ rdx,XMM0\nPUSH rdx\nMOVQ rdx,XMM1\nPUSH rdx\n"));
}

#[test]
fn extrnal_fn_calling() {
    let input = "print(sin(0.0));";
    assert_eq!(parsed(input), vec!["print(sin(num:0.0))"]);
    let out = compile_src(input).unwrap();
    prints_two_decimals(&out);
    assert!(out.contains("CALL sin\n"));
    assert!(out.contains("extern sin\n"));
}

#[test]
fn vars_test() {
    let input = "
        var n1 = 111.0;
        var n2 = 222.0;

        print(n1);
        print(n2);
    ";
    assert_eq!(
        parsed(input),
        vec!["var n1 = num:111.0", "var n2 = num:222.0", "print(var:n1)", "print(var:n2)"]
    );
    let out = compile_src(input).unwrap();
    prints_two_decimals(&out);
    assert!(out.contains(" __float64__(111.0)\n"));
    assert!(out.contains(" __float64__(222.0)\n"));
    assert_eq!(count(&out, "CALL printf\n"), 2);
}

#[test]
fn operators_group_to_the_right() {
    assert_eq!(parsed("1+2*3;"), vec!["(num:1 + [(num:2 * [num:3])])"]);
}

#[test]
fn values_of_each_kind() {
    assert_eq!(
        parsed("x; 12; 3.25; \"a b\"; _y2;"),
        vec!["var:x", "num:12", "num:3.25", "str:\"a b\"", "var:_y2"]
    );
}

#[test]
fn number_without_fraction_digits_stops_at_the_dot() {
    // `1.` is not a number with a fraction, so the `.` is left over.
    assert!(PuffParser::parse("1.;").is_none());
}

#[test]
fn calls_with_no_and_nested_arguments() {
    assert_eq!(parsed("f();"), vec!["f()"]);
    assert_eq!(parsed("f(g(1), 2 + x);"), vec!["f(g(num:1),(num:2 + [var:x]))"]);
}

#[test]
fn keywords_need_a_boundary() {
    assert_eq!(parsed("varx = 3;"), vec!["varx = num:3"]);
    assert_eq!(parsed("var x = 3;"), vec!["var x = num:3"]);
    assert_eq!(parsed("fnx(1);"), vec!["fnx(num:1)"]);
    assert_eq!(parsed("var = 3;"), vec!["var = num:3"]);
}

#[test]
fn declarations_with_no_parameters_and_empty_bodies() {
    assert_eq!(parsed("fn f() {};"), vec!["fn f() {}"]);
}

#[test]
fn the_readme_example_parses() {
    let src = "fn falling(f){
  x = 315;
  y = f;
};

anim(falling);
";
    assert_eq!(parsed(src), vec!["fn falling(f) {x = num:315; y = var:f}", "anim(var:falling)"]);
    // `anim` with a position callback alone animates with texture 0.
    let out = compile_src(src).unwrap();
    assert!(out.contains("falling:\nPUSH rbp\nMOV rbp,rsp\n"));
    assert!(out.contains("CALL create_window\n"));
    assert!(out.contains("MOV rdi,0\nMOV RDI,rdi\nMOV RAX,0\nCALL loadImageTex\n"));
    assert!(out.contains("CALL falling\n"));
    assert!(out.contains("CALL draw_shape\n"));
}

#[test]
fn anim_needs_a_callback() {
    let file = PuffParser::parse("fn f(t) {}; anim();").unwrap();
    assert!(!is_compilable(&file));
    let err = compile_src("fn f(t) { anim(); };").unwrap_err();
    assert!(matches!(&err, CompilerErrors::WrongArgs(f, n) if f == "anim" && n == "1 or 2"));
}

#[test]
fn anim_with_an_unknown_callback_fails() {
    let err = compile_src("fn f(t) { anim(g); };").unwrap_err();
    assert!(matches!(&err, CompilerErrors::MissingFunction(f) if f == "g"));
}

#[test]
fn text_that_is_not_a_program_is_refused() {
    assert!(PuffParser::parse("print(1)").is_none());
    assert!(PuffParser::parse("var x 3;").is_none());
    assert!(PuffParser::parse("f(1,);").is_none());
    assert!(PuffParser::parse("fn f(a,) {};").is_none());
    assert!(PuffParser::parse("\"open;").is_none());
    assert!(PuffParser::parse("x; )").is_none());
}

#[test]
fn empty_and_blank_programs() {
    assert_eq!(PuffParser::parse("").unwrap().lines.len(), 0);
    assert_eq!(PuffParser::parse(" \n\t ").unwrap().lines.len(), 0);
}

#[test]
fn compilable_programs_and_the_others() {
    let ok = PuffParser::parse("var x = 1.0; print(x);").unwrap();
    assert!(is_compilable(&ok));
    // `print` needs an argument.
    let no_arg = PuffParser::parse("print();").unwrap();
    assert!(!is_compilable(&no_arg));
    // An anim call inside a function body must name its callbacks.
    let bad_anim = PuffParser::parse("fn f(t) { anim(1, 2); };").unwrap();
    assert!(!is_compilable(&bad_anim));
    let file = File { lines: vec![] };
    assert!(is_compilable(&file));
}

#[test]
fn undeclared_variable_in_a_parsed_program() {
    let err = compile_src("print(y);").unwrap_err();
    assert_eq!(err.message(), "The variable `y` is not defined");
}
