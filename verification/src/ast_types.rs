use vstd::prelude::*;

pub mod grammar;

use crate::ast_types::grammar::{file_at, parse_program};

verus! {

/// The parser of the language's source text (the grammar is in [`grammar`]).
pub struct PuffParser;

impl PuffParser {
    /// Parses a whole program: `None` exactly where the text is not one.
    pub fn parse(text: &str) -> (r: Option<File>)
        ensures
            match file_at(text@) {
                Some(ls) => r matches Some(f) && lines_ast(f.lines@) == ls,
                None => r is None,
            },
    {
        match parse_program(text) {
            Some(lines) => Some(File { lines }),
            None => None,
        }
    }
}

/// A number literal, as written in the source.
#[derive(Debug)]
pub struct Number {
    pub value: String,
}

/// A variable or function name.
#[derive(Debug)]
pub struct Varname {
    pub value: String,
}

/// `name = expression;`
#[derive(Debug)]
pub struct Assignment {
    pub varname: Varname,
    pub expression: Expression,
}

/// A string literal, as written in the source (with its quotes).
#[derive(Debug)]
pub struct StringVal {
    pub value: String,
}

#[derive(Debug)]
pub enum Value {
    Number(Number),
    Varname(Varname),
    String(StringVal),
}

/// One of `+`, `-`, `*`, `/`.
#[derive(Debug)]
pub struct Operator {
    pub value: String,
}

/// `value operator expression`; the operator applies to the value and the
/// value of the first expression.
#[derive(Debug)]
pub struct ComplexExpression {
    pub value: Value,
    pub opperator: Operator,
    pub expression: Vec<Expression>,
}

#[derive(Debug)]
pub enum Expression {
    Value(Value),
    Complex(ComplexExpression),
    Function(Function),
}

/// `var name = value;`
#[derive(Debug)]
pub struct VarDeclaration {
    pub name: Varname,
    pub value: Expression,
}

/// `fn name(args) { lines };`
#[derive(Debug)]
pub struct FnDeclaration {
    pub name: Varname,
    pub args: Vec<Varname>,
    pub lines: Vec<Line>,
}

/// A call: `name(args)`.
#[derive(Debug)]
pub struct Function {
    pub name: Varname,
    pub args: Vec<Expression>,
}

#[derive(Debug)]
pub enum Line {
    Assignment(Assignment),
    Decleration(VarDeclaration),
    FnDeclaration(FnDeclaration),
    Expression(Expression),
}

/// A whole program.
#[derive(Debug)]
pub struct File {
    pub lines: Vec<Line>,
}

/// The mathematical model of a [`Value`]: each kind with its source text.
pub enum ValueAst {
    Number(Seq<char>),
    Varname(Seq<char>),
    String(Seq<char>),
}

/// The mathematical model of an [`Expression`].
pub enum ExprAst {
    Value(ValueAst),
    /// The value, the operator, the right-hand expressions.
    Complex(ValueAst, Seq<char>, Seq<ExprAst>),
    /// The called name and the arguments.
    Function(Seq<char>, Seq<ExprAst>),
}

/// The mathematical model of a [`Line`].
pub enum LineAst {
    Assignment(Seq<char>, ExprAst),
    Decleration(Seq<char>, ExprAst),
    /// The name, the parameters, the body.
    FnDeclaration(Seq<char>, Seq<Seq<char>>, Seq<LineAst>),
    Expression(ExprAst),
}

pub open spec fn value_ast(v: Value) -> ValueAst {
    match v {
        Value::Number(n) => ValueAst::Number(n.value@),
        Value::Varname(n) => ValueAst::Varname(n.value@),
        Value::String(n) => ValueAst::String(n.value@),
    }
}

pub open spec fn expr_ast(e: Expression) -> ExprAst
    decreases e,
{
    match e {
        Expression::Value(v) => ExprAst::Value(value_ast(v)),
        Expression::Complex(c) => ExprAst::Complex(
            value_ast(c.value),
            c.opperator.value@,
            exprs_ast(c.expression@),
        ),
        Expression::Function(f) => ExprAst::Function(f.name.value@, exprs_ast(f.args@)),
    }
}

pub open spec fn exprs_ast(es: Seq<Expression>) -> Seq<ExprAst>
    decreases es,
{
    if es.len() == 0 {
        Seq::empty()
    } else {
        seq![expr_ast(es[0])] + exprs_ast(es.drop_first())
    }
}

pub open spec fn names_ast(ns: Seq<Varname>) -> Seq<Seq<char>> {
    ns.map_values(|n: Varname| n.value@)
}

pub open spec fn line_ast(l: Line) -> LineAst
    decreases l,
{
    match l {
        Line::Assignment(a) => LineAst::Assignment(a.varname.value@, expr_ast(a.expression)),
        Line::Decleration(d) => LineAst::Decleration(d.name.value@, expr_ast(d.value)),
        Line::FnDeclaration(fd) => LineAst::FnDeclaration(
            fd.name.value@,
            names_ast(fd.args@),
            lines_ast(fd.lines@),
        ),
        Line::Expression(e) => LineAst::Expression(expr_ast(e)),
    }
}

pub open spec fn lines_ast(ls: Seq<Line>) -> Seq<LineAst>
    decreases ls,
{
    if ls.len() == 0 {
        Seq::empty()
    } else {
        seq![line_ast(ls[0])] + lines_ast(ls.drop_first())
    }
}

} // verus!
