use vstd::prelude::*;

use crate::ast_parser::{
    alloc_limit, anims_named, args_size, call_size, compilable, expression_size, is_name,
    is_operator, line_size, lines_size, wf_args, wf_call, wf_expression, wf_line, wf_lines,
};
use crate::ast_types::{Expression, File, Function, Line, Value};
use crate::text::str_equals;

verus! {

/// The bound on the stack load that code generation works within.
pub const ALLOC_LIMIT: usize = 0x1000_0000;

fn operator_known(op: &str) -> (b: bool)
    ensures
        b == is_operator(op@),
{
    str_equals(op, "+") || str_equals(op, "-") || str_equals(op, "*") || str_equals(op, "/")
}

fn is_bare_name(e: &Expression) -> (b: bool)
    ensures
        b == is_name(*e),
{
    match e {
        Expression::Value(Value::Varname(_)) => true,
        _ => false,
    }
}

/// Whether code generation can run on `e` (see `wf_expression`).
pub fn expression_ok(e: &Expression) -> (b: bool)
    ensures
        b == wf_expression(*e),
    decreases e,
{
    match e {
        Expression::Value(_) => true,
        Expression::Complex(c) => {
            c.expression.len() >= 1 && operator_known(c.opperator.value.as_str())
                && expression_ok(&c.expression[0])
        },
        Expression::Function(f) => call_ok(f),
    }
}

/// Whether code generation can run on the call `f` (see `wf_call`).
pub fn call_ok(f: &Function) -> (b: bool)
    ensures
        b == wf_call(*f),
    decreases f,
{
    let name = f.name.value.as_str();
    if str_equals(name, "print") {
        f.args.len() >= 1 && expression_ok(&f.args[0])
    } else if str_equals(name, "anim") {
        let n = f.args.len();
        (n != 1 && n != 2) || (is_bare_name(&f.args[0]) && (n == 1 || is_bare_name(&f.args[1])))
    } else {
        let ghost fa = f.args@;
        let mut i: usize = 0;
        proof {
            assert(fa.skip(0) =~= fa);
        }
        while i < f.args.len()
            invariant
                fa == f.args@,
                f.name.value@ != "print"@,
                f.name.value@ != "anim"@,
                i <= fa.len(),
                wf_args(fa) == wf_args(fa.skip(i as int)),
            decreases fa.len() - i,
        {
            proof {
                assert(fa.skip(i as int)[0] == fa[i as int]);
                assert(fa.skip(i as int).drop_first() =~= fa.skip(i + 1));
            }
            if !expression_ok(&f.args[i]) {
                return false;
            }
            i = i + 1;
        }
        proof {
            assert(fa.skip(i as int) =~= Seq::<Expression>::empty());
        }
        true
    }
}

/// The size of `e` (see `expression_size`) where it is within the limit.
pub fn expression_size_within(e: &Expression) -> (r: Option<usize>)
    ensures
        match r {
            Some(n) => n == expression_size(*e) && n <= alloc_limit(),
            None => expression_size(*e) > alloc_limit(),
        },
    decreases e,
{
    match e {
        Expression::Value(_) => Some(1),
        Expression::Complex(c) => {
            if c.expression.len() > 0 {
                match expression_size_within(&c.expression[0]) {
                    Some(n) => {
                        if n < ALLOC_LIMIT {
                            Some(n + 1)
                        } else {
                            None
                        }
                    },
                    None => None,
                }
            } else {
                Some(1)
            }
        },
        Expression::Function(f) => call_size_within(f),
    }
}

/// The size of the call `f` (see `call_size`) where it is within the limit.
pub fn call_size_within(f: &Function) -> (r: Option<usize>)
    ensures
        match r {
            Some(n) => n == call_size(*f) && n <= alloc_limit(),
            None => call_size(*f) > alloc_limit(),
        },
    decreases f,
{
    let ghost fa = f.args@;
    let mut total: usize = 2;
    let mut i: usize = 0;
    proof {
        assert(fa.skip(0) =~= fa);
    }
    while i < f.args.len()
        invariant
            fa == f.args@,
            i <= fa.len(),
            call_size(*f) == total + args_size(fa.skip(i as int)),
            total <= alloc_limit(),
        decreases fa.len() - i,
    {
        proof {
            assert(fa.skip(i as int)[0] == fa[i as int]);
            assert(fa.skip(i as int).drop_first() =~= fa.skip(i + 1));
        }
        match expression_size_within(&f.args[i]) {
            Some(n) => {
                if n >= ALLOC_LIMIT - total {
                    return None;
                }
                total = total + n + 1;
            },
            None => {
                return None;
            },
        }
        i = i + 1;
    }
    proof {
        assert(fa.skip(i as int) =~= Seq::<Expression>::empty());
    }
    Some(total)
}

/// The size of `e` where code generation can run on it within the limit.
fn checked_expression(e: &Expression) -> (r: Option<usize>)
    ensures
        match r {
            Some(n) => wf_expression(*e) && n == expression_size(*e) && n <= alloc_limit(),
            None => !(wf_expression(*e) && expression_size(*e) <= alloc_limit()),
        },
{
    if expression_ok(e) {
        expression_size_within(e)
    } else {
        None
    }
}

/// The size of `l` (see `line_size`) where code generation can run on it
/// within the limit.
pub fn line_within(l: &Line) -> (r: Option<usize>)
    ensures
        match r {
            Some(n) => wf_line(*l) && n == line_size(*l) && n <= alloc_limit(),
            None => !(wf_line(*l) && line_size(*l) <= alloc_limit()),
        },
    decreases l,
{
    match l {
        Line::Assignment(a) => match checked_expression(&a.expression) {
            Some(n) => {
                if n < ALLOC_LIMIT {
                    Some(n + 1)
                } else {
                    None
                }
            },
            None => None,
        },
        Line::Decleration(d) => match checked_expression(&d.value) {
            Some(n) => {
                if n < ALLOC_LIMIT {
                    Some(n + 1)
                } else {
                    None
                }
            },
            None => None,
        },
        Line::FnDeclaration(fd) => match lines_within(&fd.lines) {
            Some(n) => {
                if n <= ALLOC_LIMIT - 12 {
                    Some(n + 12)
                } else {
                    None
                }
            },
            None => None,
        },
        Line::Expression(e) => checked_expression(e),
    }
}

/// The size of `ls` (see `lines_size`) where code generation can run on every
/// line within the limit.
pub fn lines_within(ls: &Vec<Line>) -> (r: Option<usize>)
    ensures
        match r {
            Some(n) => wf_lines(ls@) && n == lines_size(ls@) && n <= alloc_limit(),
            None => !(wf_lines(ls@) && lines_size(ls@) <= alloc_limit()),
        },
    decreases ls,
{
    let ghost s = ls@;
    let mut total: usize = 0;
    let mut i: usize = 0;
    proof {
        assert(s.skip(0) =~= s);
    }
    while i < ls.len()
        invariant
            s == ls@,
            i <= s.len(),
            wf_lines(s) == wf_lines(s.skip(i as int)),
            lines_size(s) == total + lines_size(s.skip(i as int)),
            total <= alloc_limit(),
        decreases s.len() - i,
    {
        proof {
            assert(s.skip(i as int)[0] == s[i as int]);
            assert(s.skip(i as int).drop_first() =~= s.skip(i + 1));
        }
        match line_within(&ls[i]) {
            Some(n) => {
                if n > ALLOC_LIMIT - total {
                    return None;
                }
                total = total + n;
            },
            None => {
                return None;
            },
        }
        i = i + 1;
    }
    proof {
        assert(s.skip(i as int) =~= Seq::<Line>::empty());
    }
    Some(total)
}

fn anims_named_check(lines: &Vec<Line>) -> (b: bool)
    ensures
        b == anims_named(lines@),
{
    let mut i: usize = 0;
    while i < lines.len()
        invariant
            i <= lines@.len(),
            anims_named(lines@.take(i as int)),
        decreases lines@.len() - i,
    {
        let ok = match &lines[i] {
            Line::Expression(Expression::Function(call)) => {
                !str_equals(call.name.value.as_str(), "anim") || (call.args.len() >= 1
                    && is_bare_name(&call.args[0]) && (call.args.len() < 2 || is_bare_name(
                    &call.args[1],
                )))
            },
            _ => true,
        };
        if !ok {
            proof {
                assert(!anims_named(lines@)) by {
                    let j = i as int;
                    assert(0 <= j < lines@.len());
                }
            }
            return false;
        }
        proof {
            assert forall|j: int| 0 <= j < i + 1 implies match #[trigger] lines@.take(i + 1)[j] {
                Line::Expression(Expression::Function(call)) => call.name.value@ == "anim"@ ==> {
                    &&& call.args@.len() >= 1
                    &&& is_name(call.args@[0])
                    &&& call.args@.len() >= 2 ==> is_name(call.args@[1])
                },
                _ => true,
            } by {
                if j < i {
                    assert(lines@.take(i + 1)[j] == lines@.take(i as int)[j]);
                }
            }
        }
        i = i + 1;
    }
    proof {
        assert(lines@.take(i as int) =~= lines@);
    }
    true
}

/// Whether `generate_from_ast` can run on `ast` (see `compilable`).
pub fn is_compilable(ast: &File) -> (b: bool)
    ensures
        b == compilable(*ast),
{
    if !anims_named_check(&ast.lines) {
        return false;
    }
    match lines_within(&ast.lines) {
        Some(n) => n <= (ALLOC_LIMIT - 2) / 2,
        None => false,
    }
}

} // verus!
