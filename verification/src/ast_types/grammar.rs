use vstd::prelude::*;

use crate::ast_types::{
    exprs_ast, expr_ast, line_ast, lines_ast, names_ast, value_ast, Assignment, ComplexExpression,
    ExprAst, Expression, FnDeclaration, Function, Line, LineAst, Number, Operator, StringVal, Value,
    ValueAst, VarDeclaration, Varname,
};

verus! {

pub open spec fn is_ws(c: char) -> bool {
    c == ' ' || c == '\t' || c == '\n' || c == '\r'
}

pub open spec fn is_digit(c: char) -> bool {
    '0' <= c && c <= '9'
}

pub open spec fn is_alpha(c: char) -> bool {
    ('a' <= c && c <= 'z') || ('A' <= c && c <= 'Z')
}

pub open spec fn is_name_start(c: char) -> bool {
    is_alpha(c) || c == '_'
}

pub open spec fn is_name_char(c: char) -> bool {
    is_alpha(c) || is_digit(c) || c == '_'
}

pub open spec fn is_operator_char(c: char) -> bool {
    c == '+' || c == '-' || c == '*' || c == '/'
}

/// The position after the whitespace that starts at `i`.
pub open spec fn skip_ws(s: Seq<char>, i: int) -> int
    decreases s.len() - i,
{
    if 0 <= i < s.len() && is_ws(s[i]) {
        skip_ws(s, i + 1)
    } else {
        i
    }
}

/// The position after the digits that start at `i`.
pub open spec fn digits_end(s: Seq<char>, i: int) -> int
    decreases s.len() - i,
{
    if 0 <= i < s.len() && is_digit(s[i]) {
        digits_end(s, i + 1)
    } else {
        i
    }
}

/// The position after the name characters that start at `i`.
pub open spec fn name_end(s: Seq<char>, i: int) -> int
    decreases s.len() - i,
{
    if 0 <= i < s.len() && is_name_char(s[i]) {
        name_end(s, i + 1)
    } else {
        i
    }
}

/// The position of the first double quote at or after `i` (the end if none).
pub open spec fn quote_end(s: Seq<char>, i: int) -> int
    decreases s.len() - i,
{
    if 0 <= i < s.len() && s[i] != '"' {
        quote_end(s, i + 1)
    } else {
        i
    }
}

/// The fixed token `t` after optional whitespace: the position after it.
pub open spec fn token(s: Seq<char>, i: int, t: Seq<char>) -> Option<int> {
    let j = skip_ws(s, i);
    if j + t.len() <= s.len() && s.subrange(j, j + t.len()) == t {
        Some(j + t.len())
    } else {
        None
    }
}

/// The keyword `t` after optional whitespace, not followed by a name
/// character: the position after it.
pub open spec fn keyword(s: Seq<char>, i: int, t: Seq<char>) -> Option<int> {
    match token(s, i, t) {
        Some(j) => if 0 <= j < s.len() && is_name_char(s[j]) {
            None
        } else {
            Some(j)
        },
        None => None,
    }
}

/// A name: a letter or `_`, then letters, digits and `_`.
pub open spec fn varname_at(s: Seq<char>, i: int) -> Option<(Seq<char>, int)> {
    let j = skip_ws(s, i);
    if 0 <= j < s.len() && is_name_start(s[j]) {
        let k = name_end(s, j + 1);
        Some((s.subrange(j, k), k))
    } else {
        None
    }
}

/// A number: digits, optionally followed by `.` and digits.
pub open spec fn number_at(s: Seq<char>, i: int) -> Option<(Seq<char>, int)> {
    let j = skip_ws(s, i);
    let k = digits_end(s, j);
    if k == j {
        None
    } else if 0 <= k < s.len() && s[k] == '.' && digits_end(s, k + 1) > k + 1 {
        let m = digits_end(s, k + 1);
        Some((s.subrange(j, m), m))
    } else {
        Some((s.subrange(j, k), k))
    }
}

/// A string: a double quote, any characters but a double quote, a double
/// quote (the text keeps both quotes).
pub open spec fn string_at(s: Seq<char>, i: int) -> Option<(Seq<char>, int)> {
    let j = skip_ws(s, i);
    if 0 <= j < s.len() && s[j] == '"' {
        let k = quote_end(s, j + 1);
        if k < s.len() {
            Some((s.subrange(j, k + 1), k + 1))
        } else {
            None
        }
    } else {
        None
    }
}

/// A value: a number, else a string, else a name.
pub open spec fn value_at(s: Seq<char>, i: int) -> Option<(ValueAst, int)> {
    match number_at(s, i) {
        Some((t, j)) => Some((ValueAst::Number(t), j)),
        None => match string_at(s, i) {
            Some((t, j)) => Some((ValueAst::String(t), j)),
            None => match varname_at(s, i) {
                Some((t, j)) => Some((ValueAst::Varname(t), j)),
                None => None,
            },
        },
    }
}

/// One of `+`, `-`, `*`, `/`.
pub open spec fn operator_at(s: Seq<char>, i: int) -> Option<(Seq<char>, int)> {
    let j = skip_ws(s, i);
    if 0 <= j < s.len() && is_operator_char(s[j]) {
        Some((seq![s[j]], j + 1))
    } else {
        None
    }
}

/// `value operator expression`
pub open spec fn complex_at(s: Seq<char>, i: int) -> Option<(ExprAst, int)>
    decreases s.len() - i, 0nat,
{
    match value_at(s, i) {
        Some((v, j)) => match operator_at(s, j) {
            Some((o, k)) => if i < k <= s.len() {
                match expression_at(s, k) {
                    Some((e, m)) => Some((ExprAst::Complex(v, o, seq![e]), m)),
                    None => None,
                }
            } else {
                None
            },
            None => None,
        },
        None => None,
    }
}

/// `name(args)`
pub open spec fn call_at(s: Seq<char>, i: int) -> Option<(ExprAst, int)>
    decreases s.len() - i, 0nat,
{
    match varname_at(s, i) {
        Some((n, j)) => match token(s, j, "("@) {
            Some(k) => if i < k <= s.len() {
                match args_at(s, k) {
                    Some((args, m)) => Some((ExprAst::Function(n, args), m)),
                    None => None,
                }
            } else {
                None
            },
            None => None,
        },
        None => None,
    }
}

/// An expression: `value operator expression`, else a call `name(args)`,
/// else a value.
pub open spec fn expression_at(s: Seq<char>, i: int) -> Option<(ExprAst, int)>
    decreases s.len() - i, 1nat,
{
    match complex_at(s, i) {
        Some(r) => Some(r),
        None => match call_at(s, i) {
            Some(r) => Some(r),
            None => match value_at(s, i) {
                Some((v, j)) => Some((ExprAst::Value(v), j)),
                None => None,
            },
        },
    }
}

/// The arguments of a call after its `(`: optionally an expression followed by
/// more `, expression`, then `)`.
pub open spec fn args_at(s: Seq<char>, i: int) -> Option<(Seq<ExprAst>, int)>
    decreases s.len() - i, 2nat,
{
    match expression_at(s, i) {
        None => match token(s, i, ")"@) {
            Some(m) => Some((Seq::empty(), m)),
            None => None,
        },
        Some((e, j)) => if i < j <= s.len() {
            more_args_at(s, j, seq![e])
        } else {
            None
        },
    }
}

/// The rest of an argument list: more `, expression`, then `)`.
pub open spec fn more_args_at(s: Seq<char>, i: int, acc: Seq<ExprAst>) -> Option<(Seq<ExprAst>, int)>
    decreases s.len() - i, 0nat,
{
    let next = match token(s, i, ","@) {
        Some(j) => if i < j <= s.len() {
            match expression_at(s, j) {
                Some((e, k)) => Some((e, k)),
                None => None,
            }
        } else {
            None
        },
        None => None,
    };
    match next {
        Some((e, k)) => if i < k <= s.len() {
            more_args_at(s, k, acc.push(e))
        } else {
            None
        },
        None => match token(s, i, ")"@) {
            Some(m) => Some((acc, m)),
            None => None,
        },
    }
}

/// The parameters of a declaration after its `(`: optionally a name followed
/// by more `, name`, then `)`.
pub open spec fn params_at(s: Seq<char>, i: int) -> Option<(Seq<Seq<char>>, int)> {
    match varname_at(s, i) {
        None => match token(s, i, ")"@) {
            Some(m) => Some((Seq::empty(), m)),
            None => None,
        },
        Some((n, j)) => more_params_at(s, j, seq![n]),
    }
}

/// The rest of a parameter list: more `, name`, then `)`.
pub open spec fn more_params_at(s: Seq<char>, i: int, acc: Seq<Seq<char>>) -> Option<(Seq<Seq<char>>, int)>
    decreases s.len() - i,
{
    let next = match token(s, i, ","@) {
        Some(j) => varname_at(s, j),
        None => None,
    };
    match next {
        Some((n, k)) => if i < k <= s.len() {
            more_params_at(s, k, acc.push(n))
        } else {
            None
        },
        None => match token(s, i, ")"@) {
            Some(m) => Some((acc, m)),
            None => None,
        },
    }
}

/// `var name = expression` (`var` as a keyword)
pub open spec fn var_declaration_at(s: Seq<char>, i: int) -> Option<(LineAst, int)> {
    match keyword(s, i, "var"@) {
        Some(j) => match varname_at(s, j) {
            Some((n, k)) => match token(s, k, "="@) {
                Some(m) => match expression_at(s, m) {
                    Some((e, p)) => Some((LineAst::Decleration(n, e), p)),
                    None => None,
                },
                None => None,
            },
            None => None,
        },
        None => None,
    }
}

/// `name = expression`
pub open spec fn assignment_at(s: Seq<char>, i: int) -> Option<(LineAst, int)> {
    match varname_at(s, i) {
        Some((n, k)) => match token(s, k, "="@) {
            Some(m) => match expression_at(s, m) {
                Some((e, p)) => Some((LineAst::Assignment(n, e), p)),
                None => None,
            },
            None => None,
        },
        None => None,
    }
}

/// `fn name(params) { lines }` (`fn` as a keyword)
pub open spec fn fn_declaration_at(s: Seq<char>, i: int) -> Option<(LineAst, int)>
    decreases s.len() - i, 0nat,
{
    match keyword(s, i, "fn"@) {
        Some(j) => match varname_at(s, j) {
            Some((n, k)) => match token(s, k, "("@) {
                Some(m) => match params_at(s, m) {
                    Some((ps, p)) => match token(s, p, "{"@) {
                        Some(q) => if i < q <= s.len() {
                            let (ls, r) = lines_at(s, q, Seq::empty());
                            match token(s, r, "}"@) {
                                Some(t) => Some((LineAst::FnDeclaration(n, ps, ls), t)),
                                None => None,
                            }
                        } else {
                            None
                        },
                        None => None,
                    },
                    None => None,
                },
                None => None,
            },
            None => None,
        },
        None => None,
    }
}

/// A line: a function declaration, else a variable declaration, else an
/// assignment, else an expression; then `;`.
pub open spec fn line_at(s: Seq<char>, i: int) -> Option<(LineAst, int)>
    decreases s.len() - i, 1nat,
{
    let body = match fn_declaration_at(s, i) {
        Some(r) => Some(r),
        None => match var_declaration_at(s, i) {
            Some(r) => Some(r),
            None => match assignment_at(s, i) {
                Some(r) => Some(r),
                None => match expression_at(s, i) {
                    Some((e, j)) => Some((LineAst::Expression(e), j)),
                    None => None,
                },
            },
        },
    };
    match body {
        Some((l, j)) => match token(s, j, ";"@) {
            Some(k) => Some((l, k)),
            None => None,
        },
        None => None,
    }
}

/// As many lines as follow `i`, appended to `acc`, and the position after them.
pub open spec fn lines_at(s: Seq<char>, i: int, acc: Seq<LineAst>) -> (Seq<LineAst>, int)
    decreases s.len() - i, 2nat,
{
    match line_at(s, i) {
        Some((l, j)) => if i < j <= s.len() {
            lines_at(s, j, acc.push(l))
        } else {
            (acc, i)
        },
        None => (acc, i),
    }
}

/// A whole program: lines, then nothing but whitespace.
pub open spec fn file_at(s: Seq<char>) -> Option<Seq<LineAst>> {
    let (ls, j) = lines_at(s, 0, Seq::empty());
    if skip_ws(s, j) == s.len() {
        Some(ls)
    } else {
        None
    }
}

fn is_ws_char(c: char) -> (b: bool)
    ensures
        b == is_ws(c),
{
    c == ' ' || c == '\t' || c == '\n' || c == '\r'
}

fn is_digit_char(c: char) -> (b: bool)
    ensures
        b == is_digit(c),
{
    '0' <= c && c <= '9'
}

fn is_name_start_char(c: char) -> (b: bool)
    ensures
        b == is_name_start(c),
{
    ('a' <= c && c <= 'z') || ('A' <= c && c <= 'Z') || c == '_'
}

fn is_name_char_exec(c: char) -> (b: bool)
    ensures
        b == is_name_char(c),
{
    ('a' <= c && c <= 'z') || ('A' <= c && c <= 'Z') || ('0' <= c && c <= '9') || c == '_'
}

fn skip_whitespace(s: &Vec<char>, i: usize) -> (j: usize)
    requires
        i <= s@.len(),
    ensures
        j as int == skip_ws(s@, i as int),
        i <= j <= s@.len(),
{
    let mut j = i;
    while j < s.len() && is_ws_char(s[j])
        invariant
            i <= j <= s@.len(),
            skip_ws(s@, i as int) == skip_ws(s@, j as int),
        decreases s@.len() - j,
    {
        j = j + 1;
    }
    j
}

fn digit_run_end(s: &Vec<char>, i: usize) -> (j: usize)
    requires
        i <= s@.len(),
    ensures
        j as int == digits_end(s@, i as int),
        i <= j <= s@.len(),
{
    let mut j = i;
    while j < s.len() && is_digit_char(s[j])
        invariant
            i <= j <= s@.len(),
            digits_end(s@, i as int) == digits_end(s@, j as int),
        decreases s@.len() - j,
    {
        j = j + 1;
    }
    j
}

fn name_run_end(s: &Vec<char>, i: usize) -> (j: usize)
    requires
        i <= s@.len(),
    ensures
        j as int == name_end(s@, i as int),
        i <= j <= s@.len(),
{
    let mut j = i;
    while j < s.len() && is_name_char_exec(s[j])
        invariant
            i <= j <= s@.len(),
            name_end(s@, i as int) == name_end(s@, j as int),
        decreases s@.len() - j,
    {
        j = j + 1;
    }
    j
}

fn quote_run_end(s: &Vec<char>, i: usize) -> (j: usize)
    requires
        i <= s@.len(),
    ensures
        j as int == quote_end(s@, i as int),
        i <= j <= s@.len(),
{
    let mut j = i;
    while j < s.len() && s[j] != '"'
        invariant
            i <= j <= s@.len(),
            quote_end(s@, i as int) == quote_end(s@, j as int),
        decreases s@.len() - j,
    {
        j = j + 1;
    }
    j
}

fn match_token(s: &Vec<char>, i: usize, t: &str) -> (r: Option<usize>)
    requires
        i <= s@.len(),
    ensures
        match token(s@, i as int, t@) {
            Some(k) => r matches Some(m) && m == k && i <= k <= s@.len(),
            None => r is None,
        },
{
    let j = skip_whitespace(s, i);
    let n = t.unicode_len();
    if n > s.len() - j {
        return None;
    }
    let mut k: usize = 0;
    while k < n
        invariant
            k <= n,
            n == t@.len(),
            j <= s@.len(),
            s@.len() <= usize::MAX,
            j + n <= s@.len(),
            j as int == skip_ws(s@, i as int),
            forall|m: int| 0 <= m < k ==> s@[j + m] == t@[m],
        decreases n - k,
    {
        if s[j + k] != t.get_char(k) {
            proof {
                assert(s@.subrange(j as int, (j + n) as int)[k as int] != t@[k as int]);
            }
            return None;
        }
        k = k + 1;
    }
    proof {
        assert(s@.subrange(j as int, (j + n) as int) =~= t@);
    }
    Some(j + n)
}

fn match_keyword(s: &Vec<char>, i: usize, t: &str) -> (r: Option<usize>)
    requires
        i <= s@.len(),
    ensures
        match keyword(s@, i as int, t@) {
            Some(k) => r matches Some(m) && m == k && i <= k <= s@.len(),
            None => r is None,
        },
{
    match match_token(s, i, t) {
        Some(j) => {
            if j < s.len() && is_name_char_exec(s[j]) {
                None
            } else {
                Some(j)
            }
        },
        None => None,
    }
}

/// The characters of `text`, for constant-time access.
pub fn chars_of(text: &str) -> (v: Vec<char>)
    ensures
        v@ == text@,
{
    let n = text.unicode_len();
    let mut v: Vec<char> = Vec::new();
    let mut i: usize = 0;
    while i < n
        invariant
            n == text@.len(),
            i <= n,
            v@ == text@.take(i as int),
        decreases n - i,
    {
        v.push(text.get_char(i));
        proof {
            assert(text@.take(i + 1) =~= text@.take(i as int).push(text@[i as int]));
        }
        i = i + 1;
    }
    proof {
        assert(text@.take(n as int) =~= text@);
    }
    v
}

fn text_between(text: &str, j: usize, k: usize) -> (r: String)
    requires
        j <= k <= text@.len(),
    ensures
        r@ == text@.subrange(j as int, k as int),
{
    String::from_str(text.substring_char(j, k))
}

fn parse_varname(text: &str, s: &Vec<char>, i: usize) -> (r: Option<(String, usize)>)
    requires
        s@ == text@,
        i <= s@.len(),
    ensures
        match varname_at(s@, i as int) {
            Some((t, k)) => r matches Some((x, m)) && x@ == t && m == k && i <= k <= s@.len(),
            None => r is None,
        },
{
    let j = skip_whitespace(s, i);
    if j < s.len() && is_name_start_char(s[j]) {
        let k = name_run_end(s, j + 1);
        Some((text_between(text, j, k), k))
    } else {
        None
    }
}

fn parse_number(text: &str, s: &Vec<char>, i: usize) -> (r: Option<(String, usize)>)
    requires
        s@ == text@,
        i <= s@.len(),
    ensures
        match number_at(s@, i as int) {
            Some((t, k)) => r matches Some((x, m)) && x@ == t && m == k && i <= k <= s@.len(),
            None => r is None,
        },
{
    let j = skip_whitespace(s, i);
    let k = digit_run_end(s, j);
    if k == j {
        None
    } else if k < s.len() && s[k] == '.' && digit_run_end(s, k + 1) > k + 1 {
        let m = digit_run_end(s, k + 1);
        Some((text_between(text, j, m), m))
    } else {
        Some((text_between(text, j, k), k))
    }
}

fn parse_string(text: &str, s: &Vec<char>, i: usize) -> (r: Option<(String, usize)>)
    requires
        s@ == text@,
        i <= s@.len(),
    ensures
        match string_at(s@, i as int) {
            Some((t, k)) => r matches Some((x, m)) && x@ == t && m == k && i <= k <= s@.len(),
            None => r is None,
        },
{
    let j = skip_whitespace(s, i);
    if j < s.len() && s[j] == '"' {
        let k = quote_run_end(s, j + 1);
        if k < s.len() {
            Some((text_between(text, j, k + 1), k + 1))
        } else {
            None
        }
    } else {
        None
    }
}

fn parse_value(text: &str, s: &Vec<char>, i: usize) -> (r: Option<(Value, usize)>)
    requires
        s@ == text@,
        i <= s@.len(),
    ensures
        match value_at(s@, i as int) {
            Some((v, k)) => r matches Some((x, m)) && value_ast(x) == v && m == k && i <= k <= s@.len(),
            None => r is None,
        },
{
    match parse_number(text, s, i) {
        Some((t, j)) => Some((Value::Number(Number { value: t }), j)),
        None => match parse_string(text, s, i) {
            Some((t, j)) => Some((Value::String(StringVal { value: t }), j)),
            None => match parse_varname(text, s, i) {
                Some((t, j)) => Some((Value::Varname(Varname { value: t }), j)),
                None => None,
            },
        },
    }
}

fn parse_operator(text: &str, s: &Vec<char>, i: usize) -> (r: Option<(String, usize)>)
    requires
        s@ == text@,
        i <= s@.len(),
    ensures
        match operator_at(s@, i as int) {
            Some((t, k)) => r matches Some((x, m)) && x@ == t && m == k && i <= k <= s@.len(),
            None => r is None,
        },
{
    let j = skip_whitespace(s, i);
    if j < s.len() && (s[j] == '+' || s[j] == '-' || s[j] == '*' || s[j] == '/') {
        let t = text_between(text, j, j + 1);
        proof {
            assert(t@ =~= seq![s@[j as int]]);
        }
        Some((t, j + 1))
    } else {
        None
    }
}

proof fn lemma_exprs_ast_push(v: Seq<Expression>, e: Expression)
    ensures
        exprs_ast(v.push(e)) == exprs_ast(v).push(expr_ast(e)),
    decreases v.len(),
{
    if v.len() == 0 {
        let w = v.push(e);
        assert(w.drop_first() =~= Seq::<Expression>::empty());
        assert(exprs_ast(w.drop_first()) == Seq::<ExprAst>::empty());
        assert(w[0] == e);
        assert(exprs_ast(w) == seq![expr_ast(w[0])] + exprs_ast(w.drop_first()));
        assert(exprs_ast(w) =~= seq![expr_ast(e)]);
        assert(exprs_ast(v) =~= Seq::<ExprAst>::empty());
    } else {
        lemma_exprs_ast_push(v.drop_first(), e);
        assert(v.push(e).drop_first() =~= v.drop_first().push(e));
        assert(exprs_ast(v.push(e)) =~= exprs_ast(v).push(expr_ast(e)));
    }
}

proof fn lemma_exprs_ast_single(e: Expression)
    ensures
        exprs_ast(seq![e]) == seq![expr_ast(e)],
{
    lemma_exprs_ast_push(Seq::empty(), e);
    assert(Seq::<Expression>::empty().push(e) =~= seq![e]);
}

fn parse_complex_at(text: &str, s: &Vec<char>, i: usize) -> (r: Option<(Expression, usize)>)
    requires
        s@ == text@,
        i <= s@.len(),
    ensures
        match complex_at(s@, i as int) {
            Some((e, k)) => r matches Some((x, m)) && expr_ast(x) == e && m == k && i <= k <= s@.len(),
            None => r is None,
        },
    decreases s@.len() - i, 0nat,
{
    match parse_value(text, s, i) {
        Some((v, j)) => match parse_operator(text, s, j) {
            Some((o, k)) => {
                if i < k && k <= s.len() {
                    match parse_expression_at(text, s, k) {
                        Some((e, m)) => {
                            let args = vec![e];
                            proof {
                                assert(args@ =~= seq![e]);
                                lemma_exprs_ast_single(e);
                            }
                            let c = ComplexExpression { value: v, opperator: Operator { value: o }, expression: args };
                            Some((Expression::Complex(c), m))
                        },
                        None => None,
                    }
                } else {
                    None
                }
            },
            None => None,
        },
        None => None,
    }
}

fn parse_call_at(text: &str, s: &Vec<char>, i: usize) -> (r: Option<(Expression, usize)>)
    requires
        s@ == text@,
        i <= s@.len(),
    ensures
        match call_at(s@, i as int) {
            Some((e, k)) => r matches Some((x, m)) && expr_ast(x) == e && m == k && i <= k <= s@.len(),
            None => r is None,
        },
    decreases s@.len() - i, 0nat,
{
    match parse_varname(text, s, i) {
        Some((n, j)) => match match_token(s, j, "(") {
            Some(k) => {
                if i < k && k <= s.len() {
                    match parse_args_at(text, s, k) {
                        Some((args, m)) => {
                            let r = Expression::Function(Function { name: Varname { value: n }, args });
                            Some((r, m))
                        },
                        None => None,
                    }
                } else {
                    None
                }
            },
            None => None,
        },
        None => None,
    }
}

/// Parses an expression at `i` (see `expression_at`).
fn parse_expression_at(text: &str, s: &Vec<char>, i: usize) -> (r: Option<(Expression, usize)>)
    requires
        s@ == text@,
        i <= s@.len(),
    ensures
        match expression_at(s@, i as int) {
            Some((e, k)) => r matches Some((x, m)) && expr_ast(x) == e && m == k && i <= k <= s@.len(),
            None => r is None,
        },
    decreases s@.len() - i, 1nat,
{
    match parse_complex_at(text, s, i) {
        Some(r) => Some(r),
        None => match parse_call_at(text, s, i) {
            Some(r) => Some(r),
            None => match parse_value(text, s, i) {
                Some((v, j)) => Some((Expression::Value(v), j)),
                None => None,
            },
        },
    }
}

/// Parses the arguments of a call after its `(` (see `args_at`).
fn parse_args_at(text: &str, s: &Vec<char>, i: usize) -> (r: Option<(Vec<Expression>, usize)>)
    requires
        s@ == text@,
        i <= s@.len(),
    ensures
        match args_at(s@, i as int) {
            Some((a, k)) => r matches Some((x, m)) && exprs_ast(x@) == a && m == k && i <= k <= s@.len(),
            None => r is None,
        },
    decreases s@.len() - i, 2nat,
{
    match parse_expression_at(text, s, i) {
        None => match match_token(s, i, ")") {
            Some(m) => {
                let v: Vec<Expression> = Vec::new();
                proof {
                    assert(exprs_ast(v@) =~= Seq::<ExprAst>::empty());
                }
                Some((v, m))
            },
            None => None,
        },
        Some((e, j)) => {
            if i < j && j <= s.len() {
                let mut acc: Vec<Expression> = Vec::new();
                acc.push(e);
                proof {
                    assert(acc@ =~= seq![e]);
                    lemma_exprs_ast_single(e);
                }
                let mut p = j;
                loop
                    invariant
                        s@ == text@,
                        i < p <= s@.len(),
                        args_at(s@, i as int) == more_args_at(s@, p as int, exprs_ast(acc@)),
                    decreases s@.len() - p,
                {
                    let next = match match_token(s, p, ",") {
                        Some(q) => {
                            if p < q && q <= s.len() {
                                parse_expression_at(text, s, q)
                            } else {
                                None
                            }
                        },
                        None => None,
                    };
                    match next {
                        Some((e2, k)) => {
                            if p < k && k <= s.len() {
                                proof {
                                    lemma_exprs_ast_push(acc@, e2);
                                }
                                acc.push(e2);
                                p = k;
                            } else {
                                return None;
                            }
                        },
                        None => {
                            assert(more_args_at(s@, p as int, exprs_ast(acc@)) == (match token(s@, p as int, ")"@) {
                                Some(m) => Some((exprs_ast(acc@), m)),
                                None => None,
                            }));
                            return match match_token(s, p, ")") {
                                Some(m) => Some((acc, m)),
                                None => None,
                            };
                        },
                    }
                }
            } else {
                None
            }
        },
    }
}


proof fn lemma_lines_ast_push(v: Seq<Line>, l: Line)
    ensures
        lines_ast(v.push(l)) == lines_ast(v).push(line_ast(l)),
    decreases v.len(),
{
    if v.len() == 0 {
        let w = v.push(l);
        assert(w.drop_first() =~= Seq::<Line>::empty());
        assert(lines_ast(w.drop_first()) == Seq::<LineAst>::empty());
        assert(w[0] == l);
        assert(lines_ast(w) == seq![line_ast(w[0])] + lines_ast(w.drop_first()));
        assert(lines_ast(w) =~= seq![line_ast(l)]);
        assert(lines_ast(v) =~= Seq::<LineAst>::empty());
    } else {
        lemma_lines_ast_push(v.drop_first(), l);
        assert(v.push(l).drop_first() =~= v.drop_first().push(l));
        assert(lines_ast(v.push(l)) =~= lines_ast(v).push(line_ast(l)));
    }
}

/// Parses the parameters of a declaration after its `(` (see `params_at`).
fn parse_params_at(text: &str, s: &Vec<char>, i: usize) -> (r: Option<(Vec<Varname>, usize)>)
    requires
        s@ == text@,
        i <= s@.len(),
    ensures
        match params_at(s@, i as int) {
            Some((ps, k)) => r matches Some((x, m)) && names_ast(x@) == ps && m == k && i <= k <= s@.len(),
            None => r is None,
        },
{
    match parse_varname(text, s, i) {
        None => match match_token(s, i, ")") {
            Some(m) => {
                let v: Vec<Varname> = Vec::new();
                proof {
                    assert(names_ast(v@) =~= Seq::<Seq<char>>::empty());
                }
                Some((v, m))
            },
            None => None,
        },
        Some((n, j)) => {
            let mut acc: Vec<Varname> = Vec::new();
            acc.push(Varname { value: n });
            proof {
                assert(names_ast(acc@) =~= seq![n@]);
            }
            let mut p = j;
            loop
                invariant
                    s@ == text@,
                    i <= p <= s@.len(),
                    params_at(s@, i as int) == more_params_at(s@, p as int, names_ast(acc@)),
                decreases s@.len() - p,
            {
                let next = match match_token(s, p, ",") {
                    Some(q) => parse_varname(text, s, q),
                    None => None,
                };
                match next {
                    Some((n2, k)) => {
                        if p < k && k <= s.len() {
                            let ghost before = acc@;
                            acc.push(Varname { value: n2 });
                            proof {
                                assert(names_ast(acc@) =~= names_ast(before).push(n2@));
                            }
                            p = k;
                        } else {
                            return None;
                        }
                    },
                    None => {
                        return match match_token(s, p, ")") {
                            Some(m) => Some((acc, m)),
                            None => None,
                        };
                    },
                }
            }
        },
    }
}

/// Parses `var name = expression` at `i` (see `var_declaration_at`).
fn parse_var_declaration_at(text: &str, s: &Vec<char>, i: usize) -> (r: Option<(Line, usize)>)
    requires
        s@ == text@,
        i <= s@.len(),
    ensures
        match var_declaration_at(s@, i as int) {
            Some((l, k)) => r matches Some((x, m)) && line_ast(x) == l && m == k && i <= k <= s@.len(),
            None => r is None,
        },
{
    match match_keyword(s, i, "var") {
        Some(j) => match parse_varname(text, s, j) {
            Some((n, k)) => match match_token(s, k, "=") {
                Some(m) => match parse_expression_at(text, s, m) {
                    Some((e, p)) => {
                        let d = VarDeclaration { name: Varname { value: n }, value: e };
                        Some((Line::Decleration(d), p))
                    },
                    None => None,
                },
                None => None,
            },
            None => None,
        },
        None => None,
    }
}

/// Parses `name = expression` at `i` (see `assignment_at`).
fn parse_assignment_at(text: &str, s: &Vec<char>, i: usize) -> (r: Option<(Line, usize)>)
    requires
        s@ == text@,
        i <= s@.len(),
    ensures
        match assignment_at(s@, i as int) {
            Some((l, k)) => r matches Some((x, m)) && line_ast(x) == l && m == k && i <= k <= s@.len(),
            None => r is None,
        },
{
    match parse_varname(text, s, i) {
        Some((n, k)) => match match_token(s, k, "=") {
            Some(m) => match parse_expression_at(text, s, m) {
                Some((e, p)) => {
                    let a = Assignment { varname: Varname { value: n }, expression: e };
                    Some((Line::Assignment(a), p))
                },
                None => None,
            },
            None => None,
        },
        None => None,
    }
}

/// Parses `fn name(params) { lines }` at `i` (see `fn_declaration_at`).
fn parse_fn_declaration_at(text: &str, s: &Vec<char>, i: usize) -> (r: Option<(Line, usize)>)
    requires
        s@ == text@,
        i <= s@.len(),
    ensures
        match fn_declaration_at(s@, i as int) {
            Some((l, k)) => r matches Some((x, m)) && line_ast(x) == l && m == k && i <= k <= s@.len(),
            None => r is None,
        },
    decreases s@.len() - i, 0nat,
{
    match match_keyword(s, i, "fn") {
        Some(j) => match parse_varname(text, s, j) {
            Some((n, k)) => match match_token(s, k, "(") {
                Some(m) => match parse_params_at(text, s, m) {
                    Some((ps, p)) => match match_token(s, p, "{") {
                        Some(q) => {
                            if i < q && q <= s.len() {
                                let (ls, e) = parse_lines_at(text, s, q);
                                match match_token(s, e, "}") {
                                    Some(t) => {
                                        let d = FnDeclaration { name: Varname { value: n }, args: ps, lines: ls };
                                        Some((Line::FnDeclaration(d), t))
                                    },
                                    None => None,
                                }
                            } else {
                                None
                            }
                        },
                        None => None,
                    },
                    None => None,
                },
                None => None,
            },
            None => None,
        },
        None => None,
    }
}

/// Parses one line at `i`, with its `;` (see `line_at`).
fn parse_line_at(text: &str, s: &Vec<char>, i: usize) -> (r: Option<(Line, usize)>)
    requires
        s@ == text@,
        i <= s@.len(),
    ensures
        match line_at(s@, i as int) {
            Some((l, k)) => r matches Some((x, m)) && line_ast(x) == l && m == k && i <= k <= s@.len(),
            None => r is None,
        },
    decreases s@.len() - i, 1nat,
{
    let body = match parse_fn_declaration_at(text, s, i) {
        Some(r) => Some(r),
        None => match parse_var_declaration_at(text, s, i) {
            Some(r) => Some(r),
            None => match parse_assignment_at(text, s, i) {
                Some(r) => Some(r),
                None => match parse_expression_at(text, s, i) {
                    Some((e, j)) => Some((Line::Expression(e), j)),
                    None => None,
                },
            },
        },
    };
    match body {
        Some((l, j)) => match match_token(s, j, ";") {
            Some(k) => Some((l, k)),
            None => None,
        },
        None => None,
    }
}

/// Parses as many lines as follow `i` (see `lines_at`).
fn parse_lines_at(text: &str, s: &Vec<char>, i: usize) -> (r: (Vec<Line>, usize))
    requires
        s@ == text@,
        i <= s@.len(),
    ensures
        lines_at(s@, i as int, Seq::empty()) == (lines_ast(r.0@), r.1 as int),
        i <= r.1 <= s@.len(),
    decreases s@.len() - i, 2nat,
{
    let mut acc: Vec<Line> = Vec::new();
    let mut p = i;
    proof {
        assert(lines_ast(acc@) =~= Seq::<LineAst>::empty());
    }
    loop
        invariant
            s@ == text@,
            i <= p <= s@.len(),
            lines_at(s@, i as int, Seq::empty()) == lines_at(s@, p as int, lines_ast(acc@)),
        decreases s@.len() - p,
    {
        match parse_line_at(text, s, p) {
            Some((l, j)) => {
                if p < j && j <= s.len() {
                    proof {
                        lemma_lines_ast_push(acc@, l);
                    }
                    acc.push(l);
                    p = j;
                } else {
                    return (acc, p);
                }
            },
            None => {
                return (acc, p);
            },
        }
    }
}

/// Parses a whole program (see `file_at`): `None` where the text is not one.
pub fn parse_program(text: &str) -> (r: Option<Vec<Line>>)
    ensures
        match file_at(text@) {
            Some(ls) => r matches Some(x) && lines_ast(x@) == ls,
            None => r is None,
        },
{
    let s = chars_of(text);
    let (ls, j) = parse_lines_at(text, &s, 0);
    if skip_whitespace(&s, j) == s.len() {
        Some(ls)
    } else {
        None
    }
}

} // verus!
