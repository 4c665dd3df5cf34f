use vstd::prelude::*;
use crate::ast::{self, Expr, ExprV, models};
use crate::parser::{
    Action, Combinator, ForwardParser, Grammar, Parsed, Parser, Tree, any_of, any_of_spec,
    chars_of_str, choice, choice_of, lemma_any_of, parse_spec, pchar, pstring, run, run_many, trees,
    whitespace_chars,
};
use crate::vm::view_names;
use crate::parser::MAX_RULE_DEPTH;

verus! {

/// The labels that the grammar puts on its results, one for each kind of
/// expression, and one for a function.
pub const TAG_INT: u32 = 0;
pub const TAG_SYMBOL: u32 = 1;
pub const TAG_STR: u32 = 2;
pub const TAG_BOOL: u32 = 3;
pub const TAG_ADD: u32 = 4;
pub const TAG_SUBTRACT: u32 = 5;
pub const TAG_MULTIPLY: u32 = 6;
pub const TAG_DIVIDE: u32 = 7;
pub const TAG_MODULUS: u32 = 8;
pub const TAG_EQUALS: u32 = 9;
pub const TAG_LESS_THAN: u32 = 10;
pub const TAG_GREATER_THAN: u32 = 11;
pub const TAG_AND: u32 = 12;
pub const TAG_WHILE: u32 = 13;
pub const TAG_IF: u32 = 14;
pub const TAG_CALL: u32 = 15;
pub const TAG_RETURN: u32 = 16;
pub const TAG_ASSIGN: u32 = 17;
pub const TAG_FUNCTION: u32 = 18;

pub open spec fn digit_chars() -> Seq<char> {
    "0123456789"@
}

pub open spec fn letter_chars() -> Seq<char> {
    "abcdefghijklmnopqrstuvwxyzABCDEFGHIJKLMNOPQRSTUVWXYZ"@
}

pub open spec fn then_spec(a: Combinator, b: Combinator) -> Combinator {
    Combinator::Then(Box::new(a), Box::new(b))
}

pub open spec fn map_spec(p: Combinator, a: Action) -> Combinator {
    Combinator::Mapped(Box::new(p), a)
}

pub open spec fn left_spec(a: Combinator, b: Combinator) -> Combinator {
    map_spec(then_spec(a, b), Action::First)
}

pub open spec fn right_spec(a: Combinator, b: Combinator) -> Combinator {
    map_spec(then_spec(a, b), Action::Second)
}

pub open spec fn between_spec(p: Combinator, l: Combinator, r: Combinator) -> Combinator {
    right_spec(l, left_spec(p, r))
}

pub open spec fn ws_spec(p: Combinator) -> Combinator {
    left_spec(p, Combinator::Many(Box::new(any_of_spec(whitespace_chars()))))
}

pub open spec fn ws1_spec(p: Combinator) -> Combinator {
    left_spec(p, Combinator::Many1(Box::new(any_of_spec(whitespace_chars()))))
}

pub open spec fn int_spec() -> Combinator {
    map_spec(
        then_spec(
            Combinator::Optional(Box::new(Combinator::Char('-'))),
            Combinator::Many1(Box::new(any_of_spec(digit_chars()))),
        ),
        Action::Tag(TAG_INT),
    )
}

pub open spec fn string_ident_spec() -> Combinator {
    ws_spec(map_spec(Combinator::Many1(Box::new(any_of_spec(letter_chars()))), Action::Collect))
}

pub open spec fn string_symbol_spec() -> Combinator {
    map_spec(
        map_spec(Combinator::Many1(Box::new(any_of_spec(letter_chars()))), Action::Collect),
        Action::Tag(TAG_SYMBOL),
    )
}

pub open spec fn bool_spec() -> Combinator {
    map_spec(
        Combinator::Or(
            Box::new(map_spec(Combinator::Text("true"), Action::Bool(true))),
            Box::new(map_spec(Combinator::Text("false"), Action::Bool(false))),
        ),
        Action::Tag(TAG_BOOL),
    )
}

/// `( expr op expr )`, with whitespace after each token.
pub open spec fn operands_spec(op: Combinator, expr: Combinator) -> Combinator {
    left_spec(
        then_spec(left_spec(right_spec(ws_spec(Combinator::Char('(')), expr), ws_spec(op)), expr),
        ws_spec(Combinator::Char(')')),
    )
}

pub open spec fn math_spec(symbol: char, expr: Combinator) -> Combinator {
    operands_spec(Combinator::Char(symbol), expr)
}

pub open spec fn comparison_spec(symbol: &'static str, expr: Combinator) -> Combinator {
    operands_spec(Combinator::Text(symbol), expr)
}

pub open spec fn while_spec(expr: Combinator, body: Combinator) -> Combinator {
    map_spec(then_spec(right_spec(ws1_spec(Combinator::Text("while")), expr), body), Action::Tag(TAG_WHILE))
}

pub open spec fn condition_spec(expr: Combinator, body: Combinator) -> Combinator {
    map_spec(
        then_spec(
            left_spec(then_spec(right_spec(ws1_spec(Combinator::Text("if")), expr), body), ws_spec(Combinator::Text("else"))),
            body,
        ),
        Action::Tag(TAG_IF),
    )
}

pub open spec fn function_call_spec(expr: Combinator) -> Combinator {
    map_spec(
        then_spec(ws_spec(string_ident_spec()), between_spec(expr, Combinator::Char('('), Combinator::Char(')'))),
        Action::Tag(TAG_CALL),
    )
}

pub open spec fn return_spec(expr: Combinator) -> Combinator {
    map_spec(right_spec(ws1_spec(Combinator::Text("return")), expr), Action::Tag(TAG_RETURN))
}

pub open spec fn assign_spec(expr: Combinator) -> Combinator {
    ws_spec(
        map_spec(
            then_spec(left_spec(string_ident_spec(), ws_spec(Combinator::Char('='))), expr),
            Action::Tag(TAG_ASSIGN),
        ),
    )
}

pub open spec fn quoted_string_spec() -> Combinator {
    map_spec(between_spec(string_ident_spec(), Combinator::Char('"'), Combinator::Char('"')), Action::Tag(TAG_STR))
}

/// An expression, with `expr` and `body` standing for the expression and
/// body rules: the alternatives in order, then whitespace.
pub open spec fn expr_spec(expr: Combinator, body: Combinator) -> Combinator {
    ws_spec(
        choice_of(
            seq![
                map_spec(comparison_spec("==", expr), Action::Tag(TAG_EQUALS)),
                map_spec(comparison_spec("<", expr), Action::Tag(TAG_LESS_THAN)),
                map_spec(comparison_spec(">", expr), Action::Tag(TAG_GREATER_THAN)),
                map_spec(comparison_spec("&&", expr), Action::Tag(TAG_AND)),
                while_spec(expr, body),
                condition_spec(expr, body),
                assign_spec(expr),
                int_spec(),
                bool_spec(),
                return_spec(expr),
                function_call_spec(expr),
                string_symbol_spec(),
                quoted_string_spec(),
                map_spec(math_spec('+', expr), Action::Tag(TAG_ADD)),
                map_spec(math_spec('-', expr), Action::Tag(TAG_SUBTRACT)),
                map_spec(math_spec('*', expr), Action::Tag(TAG_MULTIPLY)),
                map_spec(math_spec('/', expr), Action::Tag(TAG_DIVIDE)),
                map_spec(math_spec('%', expr), Action::Tag(TAG_MODULUS)),
            ],
        ),
    )
}

/// `{`, one expression or more, `}`, with whitespace after the braces.
pub open spec fn body_content_spec(expr: Combinator) -> Combinator {
    ws_spec(between_spec(Combinator::Many1(Box::new(expr)), ws_spec(Combinator::Char('{')), Combinator::Char('}')))
}

/// The rules that `body` adds to a table of `base` rules.
pub open spec fn body_rules(base: nat) -> Seq<Option<Combinator>> {
    let b = Combinator::Rule(base as usize);
    let e = Combinator::Rule((base + 1) as usize);
    seq![Some(body_content_spec(e)), Some(expr_spec(e, b))]
}

/// `function NAME ( PARAMS ) BODY`, with `body` standing for the body rule.
pub open spec fn function_spec(body: Combinator) -> Combinator {
    map_spec(
        then_spec(
            ws_spec(
                then_spec(
                    ws_spec(right_spec(ws1_spec(Combinator::Text("function")), string_ident_spec())),
                    between_spec(
                        Combinator::Many(Box::new(string_ident_spec())),
                        ws_spec(Combinator::Char('(')),
                        Combinator::Char(')'),
                    ),
                ),
            ),
            body,
        ),
        Action::Tag(TAG_FUNCTION),
    )
}

/// The parser of a decimal digit.
fn digit() -> (r: Combinator)
    ensures
        r == any_of_spec(digit_chars()),
{
    let cs = chars_of_str("0123456789");
    any_of(cs.as_slice())
}

/// The parser of an ASCII letter.
fn letter() -> (r: Combinator)
    ensures
        r == any_of_spec(letter_chars()),
{
    let cs = chars_of_str("abcdefghijklmnopqrstuvwxyzABCDEFGHIJKLMNOPQRSTUVWXYZ");
    any_of(cs.as_slice())
}

/// An integer literal: an optional `-`, then decimal digits.
pub fn int_literal() -> (r: Combinator)
    ensures
        r == int_spec(),
{
    let number_parser = pchar('-').optional().and_then(digit().many1());
    number_parser.map(Action::Tag(TAG_INT))
}

/// A name of letters as text, then whitespace.
pub fn string_ident() -> (r: Combinator)
    ensures
        r == string_ident_spec(),
{
    letter().many1().map(Action::Collect).ws()
}

/// A name of letters, as a symbol.
pub fn string_symbol() -> (r: Combinator)
    ensures
        r == string_symbol_spec(),
{
    letter().many1().map(Action::Collect).map(Action::Tag(TAG_SYMBOL))
}

/// `true` or `false`.
pub fn bool() -> (r: Combinator)
    ensures
        r == bool_spec(),
{
    let true_ = pstring("true").map(Action::Bool(true));
    let false_ = pstring("false").map(Action::Bool(false));
    true_.or(false_).map(Action::Tag(TAG_BOOL))
}

fn operands(op: Combinator, expr: ForwardParser) -> (r: Combinator)
    ensures
        r == operands_spec(op, Combinator::Rule(expr.key)),
{
    let lparen = pchar('(').ws();
    let rparen = pchar(')').ws();
    let operator = op.ws();
    lparen.right(expr.as_rc()).left(operator).and_then(expr.as_rc()).left(rparen)
}

/// `( expr symbol expr )`: the pair of operands.
pub fn math(symbol: char, expr: ForwardParser) -> (r: Combinator)
    ensures
        r == math_spec(symbol, Combinator::Rule(expr.key)),
{
    operands(pchar(symbol), expr)
}

/// `( expr + expr )`.
pub fn add(expr: ForwardParser) -> (r: Combinator)
    ensures
        r == map_spec(math_spec('+', Combinator::Rule(expr.key)), Action::Tag(TAG_ADD)),
{
    math('+', expr).map(Action::Tag(TAG_ADD))
}

/// `( expr - expr )`.
pub fn subtract(expr: ForwardParser) -> (r: Combinator)
    ensures
        r == map_spec(math_spec('-', Combinator::Rule(expr.key)), Action::Tag(TAG_SUBTRACT)),
{
    math('-', expr).map(Action::Tag(TAG_SUBTRACT))
}

/// `( expr * expr )`.
pub fn multiply(expr: ForwardParser) -> (r: Combinator)
    ensures
        r == map_spec(math_spec('*', Combinator::Rule(expr.key)), Action::Tag(TAG_MULTIPLY)),
{
    math('*', expr).map(Action::Tag(TAG_MULTIPLY))
}

/// `( expr / expr )`.
pub fn divide(expr: ForwardParser) -> (r: Combinator)
    ensures
        r == map_spec(math_spec('/', Combinator::Rule(expr.key)), Action::Tag(TAG_DIVIDE)),
{
    math('/', expr).map(Action::Tag(TAG_DIVIDE))
}

/// `( expr % expr )`.
pub fn modulus(expr: ForwardParser) -> (r: Combinator)
    ensures
        r == map_spec(math_spec('%', Combinator::Rule(expr.key)), Action::Tag(TAG_MODULUS)),
{
    math('%', expr).map(Action::Tag(TAG_MODULUS))
}

/// `( expr symbol expr )` for a comparison symbol: the pair of operands.
pub fn comparison(symbol: &'static str, expr: ForwardParser) -> (r: Combinator)
    ensures
        r == comparison_spec(symbol, Combinator::Rule(expr.key)),
{
    operands(pstring(symbol), expr)
}

/// `( expr == expr )`.
pub fn equals(expr: ForwardParser) -> (r: Combinator)
    ensures
        r == map_spec(comparison_spec("==", Combinator::Rule(expr.key)), Action::Tag(TAG_EQUALS)),
{
    comparison("==", expr).map(Action::Tag(TAG_EQUALS))
}

/// `( expr < expr )`.
pub fn lt(expr: ForwardParser) -> (r: Combinator)
    ensures
        r == map_spec(comparison_spec("<", Combinator::Rule(expr.key)), Action::Tag(TAG_LESS_THAN)),
{
    comparison("<", expr).map(Action::Tag(TAG_LESS_THAN))
}

/// `( expr > expr )`.
pub fn gt(expr: ForwardParser) -> (r: Combinator)
    ensures
        r == map_spec(comparison_spec(">", Combinator::Rule(expr.key)), Action::Tag(TAG_GREATER_THAN)),
{
    comparison(">", expr).map(Action::Tag(TAG_GREATER_THAN))
}

/// `( expr && expr )`.
pub fn and(expr: ForwardParser) -> (r: Combinator)
    ensures
        r == map_spec(comparison_spec("&&", Combinator::Rule(expr.key)), Action::Tag(TAG_AND)),
{
    comparison("&&", expr).map(Action::Tag(TAG_AND))
}

/// `while COND BODY`.
pub fn while_loop(expr: ForwardParser, body: ForwardParser) -> (r: Combinator)
    ensures
        r == while_spec(Combinator::Rule(expr.key), Combinator::Rule(body.key)),
{
    let while_ = pstring("while").ws1();
    while_.right(expr.as_rc()).and_then(body.as_rc()).map(Action::Tag(TAG_WHILE))
}

/// `if COND BODY else BODY`.
pub fn condition(expr: ForwardParser, body: ForwardParser) -> (r: Combinator)
    ensures
        r == condition_spec(Combinator::Rule(expr.key), Combinator::Rule(body.key)),
{
    let if_ = pstring("if").ws1();
    if_.right(expr.as_rc()).and_then(body.as_rc()).left(pstring("else").ws()).and_then(body.as_rc()).map(
        Action::Tag(TAG_IF),
    )
}

/// `NAME(EXPR)`: a call with one argument.
pub fn function_call(expr: ForwardParser) -> (r: Combinator)
    ensures
        r == function_call_spec(Combinator::Rule(expr.key)),
{
    let function_name = string_ident().ws();
    let parameters = expr.as_rc().between(pchar('('), pchar(')'));
    function_name.and_then(parameters).map(Action::Tag(TAG_CALL))
}

/// Adds the expression and body rules to `grammar` and returns the parser of
/// a body: `{`, one expression or more, `}`. The expression rule refers to
/// itself and to the body rule, which is how conditionals, loops and nested
/// operands are parsed.
pub fn body(grammar: &mut Grammar) -> (r: Combinator)
    ensures
        final(grammar).rules@ == old(grammar).rules@ + body_rules(old(grammar).rules@.len()),
        r == Combinator::Rule(old(grammar).rules@.len() as usize),
{
    let ghost base = grammar.rules@;
    let body = grammar.forward();
    let expr = grammar.forward();
    let quoted_string = string_ident().between(pchar('"'), pchar('"')).map(Action::Tag(TAG_STR));
    let return_ = pstring("return").ws1().right(expr.as_rc()).map(Action::Tag(TAG_RETURN));
    let assign = {
        let ident = string_ident();
        let equal = pchar('=').ws();
        let name = ident.left(equal);
        name.and_then(expr.as_rc()).map(Action::Tag(TAG_ASSIGN)).ws()
    };
    let parsers = vec![
        equals(expr),
        lt(expr),
        gt(expr),
        and(expr),
        while_loop(expr, body),
        condition(expr, body),
        assign,
        int_literal(),
        bool(),
        return_,
        function_call(expr),
        string_symbol(),
        quoted_string,
        crate::lang_parser::add(expr),
        subtract(expr),
        multiply(expr),
        divide(expr),
        modulus(expr),
    ];
    let expr_def = choice(parsers).ws();
    let body_content = expr.as_rc().many1().between(pchar('{').ws(), pchar('}')).ws();
    grammar.set_implementation(&expr, expr_def);
    grammar.set_implementation(&body, body_content);
    assert(grammar.rules@ =~= base + body_rules(base.len()));
    Combinator::Rule(body.key)
}

/// `function NAME ( PARAMS ) BODY`, adding the body rules to `grammar`.
pub fn function(grammar: &mut Grammar) -> (r: Combinator)
    ensures
        final(grammar).rules@ == old(grammar).rules@ + body_rules(old(grammar).rules@.len()),
        r == function_spec(Combinator::Rule(old(grammar).rules@.len() as usize)),
{
    let name = pstring("function").ws1().right(string_ident()).ws().and_then(
        string_ident().many().between(pchar('(').ws(), pchar(')')),
    ).ws();
    name.and_then(body(grammar)).map(Action::Tag(TAG_FUNCTION))
}

/// One function or more, adding the body rules to `grammar`.
pub fn module(grammar: &mut Grammar) -> (r: Combinator)
    ensures
        final(grammar).rules@ == old(grammar).rules@ + body_rules(old(grammar).rules@.len()),
        r == Combinator::Many1(Box::new(function_spec(Combinator::Rule(old(grammar).rules@.len() as usize)))),
{
    function(grammar).many1()
}

/// The value of a digit character; zero for anything else.
pub open spec fn digit_value(t: Tree) -> int {
    match t {
        Tree::Char(c) => if 48 <= (c as u32) <= 57 {
            (c as u32) - 48
        } else {
            0
        },
        _ => 0,
    }
}

/// The decimal value of a sequence of digits.
pub open spec fn digits_value(ds: Seq<Tree>) -> int
    decreases ds.len(),
{
    if ds.len() == 0 {
        0
    } else {
        digits_value(ds.drop_last()) * 10 + digit_value(ds.last())
    }
}

/// The integer of an optional sign and digits: the digits' value, negated
/// when the sign is there, if it fits in 32 bits.
pub open spec fn int_of_tree(t: Tree) -> Option<i32> {
    match t {
        Tree::Pair(sign, ds) => match *ds {
            Tree::List(ds) => {
                let v = digits_value(ds);
                let signed = if *sign matches Tree::Maybe(Some(_)) {
                    -v
                } else {
                    v
                };
                if i32::MIN <= signed <= i32::MAX {
                    Some(signed as i32)
                } else {
                    None
                }
            },
            _ => None,
        },
        _ => None,
    }
}

/// The two-operand expression labelled `k`.
pub open spec fn binary_of(k: u32, l: ExprV, r: ExprV) -> Option<ExprV> {
    let (a, b) = (Box::new(l), Box::new(r));
    if k == TAG_ADD {
        Some(ExprV::Add(a, b))
    } else if k == TAG_SUBTRACT {
        Some(ExprV::Subtract(a, b))
    } else if k == TAG_MULTIPLY {
        Some(ExprV::Multiply(a, b))
    } else if k == TAG_DIVIDE {
        Some(ExprV::Divide(a, b))
    } else if k == TAG_MODULUS {
        Some(ExprV::Modulus(a, b))
    } else if k == TAG_EQUALS {
        Some(ExprV::Equals(a, b))
    } else if k == TAG_LESS_THAN {
        Some(ExprV::LessThan(a, b))
    } else if k == TAG_GREATER_THAN {
        Some(ExprV::GreaterThan(a, b))
    } else if k == TAG_AND {
        Some(ExprV::And(a, b))
    } else {
        None
    }
}

/// The expression that the grammar's result `t` stands for, or `None` when
/// `t` has no such shape or holds an integer that does not fit in 32 bits.
pub open spec fn expr_of_tree(t: Tree) -> Option<ExprV>
    decreases t, 0nat,
{
    match t {
        Tree::Tagged(k, x) => if k == TAG_INT {
            match int_of_tree(*x) {
                Some(i) => Some(ExprV::Int(i)),
                None => None,
            }
        } else if k == TAG_SYMBOL {
            match *x {
                Tree::Text(s) => Some(ExprV::Symbol(s)),
                _ => None,
            }
        } else if k == TAG_STR {
            match *x {
                Tree::Text(s) => Some(ExprV::Str(s)),
                _ => None,
            }
        } else if k == TAG_BOOL {
            match *x {
                Tree::Bool(b) => Some(ExprV::Bool(b)),
                _ => None,
            }
        } else if k == TAG_RETURN {
            match expr_of_tree(*x) {
                Some(e) => Some(ExprV::Return(Box::new(e))),
                None => None,
            }
        } else if k == TAG_ASSIGN {
            match *x {
                Tree::Pair(n, v) => match (*n, expr_of_tree(*v)) {
                    (Tree::Text(name), Some(e)) => Some(ExprV::Ident(name, Box::new(e))),
                    _ => None,
                },
                _ => None,
            }
        } else if k == TAG_CALL {
            match *x {
                Tree::Pair(n, a) => match (*n, expr_of_tree(*a)) {
                    (Tree::Text(name), Some(e)) => Some(ExprV::Call(name, seq![e])),
                    _ => None,
                },
                _ => None,
            }
        } else if k == TAG_WHILE {
            match *x {
                Tree::Pair(c, b) => match (expr_of_tree(*c), *b) {
                    (Some(ce), Tree::List(bs)) => match exprs_of_trees(bs, bs.len()) {
                        Some(be) => Some(ExprV::While(Box::new(ce), be)),
                        None => None,
                    },
                    _ => None,
                },
                _ => None,
            }
        } else if k == TAG_IF {
            match *x {
                Tree::Pair(ct, f) => match (*ct, *f) {
                    (Tree::Pair(c, t), Tree::List(fs)) => match (expr_of_tree(*c), *t) {
                        (Some(ce), Tree::List(ts)) => match (exprs_of_trees(ts, ts.len()), exprs_of_trees(fs, fs.len())) {
                            (Some(te), Some(fe)) => Some(ExprV::If(Box::new(ce), te, fe)),
                            _ => None,
                        },
                        _ => None,
                    },
                    _ => None,
                },
                _ => None,
            }
        } else {
            match *x {
                Tree::Pair(l, r) => match (expr_of_tree(*l), expr_of_tree(*r)) {
                    (Some(le), Some(re)) => binary_of(k, le, re),
                    _ => None,
                },
                _ => None,
            }
        },
        _ => None,
    }
}

/// The expressions of the first `n` results of `ts`, if each stands for one.
pub open spec fn exprs_of_trees(ts: Seq<Tree>, n: nat) -> Option<Seq<ExprV>>
    decreases ts, n,
{
    if n == 0 || n > ts.len() {
        Some(seq![])
    } else {
        match (exprs_of_trees(ts, (n - 1) as nat), expr_of_tree(ts[n - 1])) {
            (Some(xs), Some(x)) => Some(xs.push(x)),
            _ => None,
        }
    }
}

pub open spec fn model_of(r: Option<Expr>) -> Option<ExprV> {
    match r {
        Some(e) => Some(e.model()),
        None => None,
    }
}

pub open spec fn models_of(r: Option<Vec<Expr>>) -> Option<Seq<ExprV>> {
    match r {
        Some(v) => Some(models(v@)),
        None => None,
    }
}

pub proof fn lemma_digits_value_bounds(ds: Seq<Tree>, k: int)
    requires
        0 <= k <= ds.len(),
    ensures
        0 <= digits_value(ds.subrange(0, k)) <= digits_value(ds),
    decreases ds.len(),
{
    if k < ds.len() {
        lemma_digits_value_bounds(ds.drop_last(), k);
        assert(ds.drop_last().subrange(0, k) =~= ds.subrange(0, k));
        let v = digits_value(ds.drop_last());
        assert(v * 10 >= v) by (nonlinear_arith)
            requires
                v >= 0,
        ;
    } else {
        assert(ds.subrange(0, k) =~= ds);
        if ds.len() > 0 {
            lemma_digits_value_bounds(ds.drop_last(), 0);
            let v = digits_value(ds.drop_last());
            assert(v * 10 >= 0) by (nonlinear_arith)
                requires
                    v >= 0,
            ;
        }
    }
}

/// The value of the digits `v`, or `None` when it exceeds 2^31.
fn digits_of(v: &Vec<Parsed>) -> (r: Option<i64>)
    ensures
        r matches Some(a) ==> a == digits_value(trees(v@)) && 0 <= a <= 2147483648,
        r is None ==> digits_value(trees(v@)) > 2147483648,
{
    let ghost ts = trees(v@);
    let mut acc: i64 = 0;
    let mut i: usize = 0;
    assert(ts.subrange(0, 0) =~= Seq::<Tree>::empty());
    while i < v.len()
        invariant
            i <= v@.len(),
            ts == trees(v@),
            acc == digits_value(ts.subrange(0, i as int)),
            0 <= acc <= 2147483648,
        decreases v@.len() - i,
    {
        let d: i64 = match &v[i] {
            Parsed::Char(c) => {
                let u = *c as u32;
                if 48 <= u && u <= 57 {
                    (u - 48) as i64
                } else {
                    0
                }
            },
            _ => 0,
        };
        assert(ts.subrange(0, i + 1).drop_last() =~= ts.subrange(0, i as int));
        assert(ts.subrange(0, i + 1).last() == v@[i as int].tree());
        assert(digits_value(ts.subrange(0, i + 1)) == acc * 10 + d);
        let next = acc * 10 + d;
        if next > 2147483648 {
            proof {
                lemma_digits_value_bounds(ts, i + 1);
            }
            return None;
        }
        acc = next;
        i = i + 1;
    }
    assert(ts.subrange(0, i as int) =~= ts);
    Some(acc)
}

/// The integer of a sign and digits, as `int_of_tree` says.
fn int_of(p: &Parsed) -> (r: Option<i32>)
    ensures
        r == int_of_tree(p.tree()),
{
    match p {
        Parsed::Pair(sign, ds) => match &**ds {
            Parsed::List(v) => {
                let negative = match &**sign {
                    Parsed::Maybe(Some(_)) => true,
                    _ => false,
                };
                assert(ds.tree() == Tree::List(trees(v@)));
                assert(p.tree() == Tree::Pair(Box::new(sign.tree()), Box::new(Tree::List(trees(v@)))));
                assert(negative == (sign.tree() matches Tree::Maybe(Some(_))));
                match digits_of(v) {
                    Some(acc) => {
                        let signed = if negative {
                            -acc
                        } else {
                            acc
                        };
                        if -2147483648 <= signed && signed <= 2147483647 {
                            Some(signed as i32)
                        } else {
                            None
                        }
                    },
                    None => None,
                }
            },
            _ => None,
        },
        _ => None,
    }
}

fn text_of(p: &Parsed) -> (r: Option<String>)
    ensures
        r matches Some(s) ==> p.tree() == Tree::Text(s@),
        r is None ==> !(p.tree() is Text),
{
    match p {
        Parsed::Text(s) => Some(s.clone()),
        _ => None,
    }
}

fn binary_expr(k: u32, l: Expr, r: Expr) -> (e: Option<Expr>)
    ensures
        model_of(e) == binary_of(k, l.model(), r.model()),
{
    let (a, b) = (Box::new(l), Box::new(r));
    if k == TAG_ADD {
        Some(Expr::Add(a, b))
    } else if k == TAG_SUBTRACT {
        Some(Expr::Subtract(a, b))
    } else if k == TAG_MULTIPLY {
        Some(Expr::Multiply(a, b))
    } else if k == TAG_DIVIDE {
        Some(Expr::Divide(a, b))
    } else if k == TAG_MODULUS {
        Some(Expr::Modulus(a, b))
    } else if k == TAG_EQUALS {
        Some(Expr::Equals(a, b))
    } else if k == TAG_LESS_THAN {
        Some(Expr::LessThan(a, b))
    } else if k == TAG_GREATER_THAN {
        Some(Expr::GreaterThan(a, b))
    } else if k == TAG_AND {
        Some(Expr::And(a, b))
    } else {
        None
    }
}

/// The expression that the grammar's result `p` stands for, as
/// `expr_of_tree` says.
pub fn expr_of(p: &Parsed) -> (r: Option<Expr>)
    ensures
        model_of(r) == expr_of_tree(p.tree()),
    decreases p, 0nat,
{
    match p {
        Parsed::Tagged(k, x) => {
            let k = *k;
            if k == TAG_INT {
                match int_of(x) {
                    Some(i) => Some(Expr::Int(i)),
                    None => None,
                }
            } else if k == TAG_SYMBOL {
                match text_of(x) {
                    Some(s) => Some(Expr::Symbol(s)),
                    None => None,
                }
            } else if k == TAG_STR {
                match text_of(x) {
                    Some(s) => Some(Expr::Str(s)),
                    None => None,
                }
            } else if k == TAG_BOOL {
                match &**x {
                    Parsed::Bool(b) => Some(Expr::Bool(*b)),
                    _ => None,
                }
            } else if k == TAG_RETURN {
                match expr_of(x) {
                    Some(e) => Some(Expr::Return(Box::new(e))),
                    None => None,
                }
            } else if k == TAG_ASSIGN || k == TAG_CALL {
                named_of(k, x)
            } else if k == TAG_WHILE {
                while_of(x)
            } else if k == TAG_IF {
                if_of(x)
            } else {
                binary_node_of(k, x)
            }
        },
        _ => None,
    }
}

/// An assignment or a call: a name and one expression.
fn named_of(k: u32, x: &Parsed) -> (r: Option<Expr>)
    requires
        k == TAG_ASSIGN || k == TAG_CALL,
    ensures
        model_of(r) == expr_of_tree(Tree::Tagged(k, Box::new(x.tree()))),
    decreases x, 1nat,
{
    match x {
        Parsed::Pair(n, v) => match (text_of(n), expr_of(v)) {
            (Some(name), Some(e)) => {
                if k == TAG_ASSIGN {
                    Some(Expr::Ident(name, Box::new(e)))
                } else {
                    let args = vec![e];
                    assert(models(args@) =~= seq![e.model()]);
                    Some(Expr::Call(name, args))
                }
            },
            _ => None,
        },
        _ => None,
    }
}

fn while_of(x: &Parsed) -> (r: Option<Expr>)
    ensures
        model_of(r) == expr_of_tree(Tree::Tagged(TAG_WHILE, Box::new(x.tree()))),
    decreases x, 1nat,
{
    match x {
        Parsed::Pair(c, b) => match (expr_of(c), &**b) {
            (Some(ce), Parsed::List(bs)) => {
                assert(trees(bs@).len() == bs@.len());
                assert(b.tree() == Tree::List(trees(bs@)));
                assert(x.tree() == Tree::Pair(Box::new(c.tree()), Box::new(b.tree())));
                match exprs_of(bs) {
                    Some(be) => Some(Expr::While(Box::new(ce), be)),
                    None => None,
                }
            },
            _ => None,
        },
        _ => None,
    }
}

fn if_of(x: &Parsed) -> (r: Option<Expr>)
    ensures
        model_of(r) == expr_of_tree(Tree::Tagged(TAG_IF, Box::new(x.tree()))),
    decreases x, 1nat,
{
    match x {
        Parsed::Pair(ct, f) => match (&**ct, &**f) {
            (Parsed::Pair(c, t), Parsed::List(fs)) => match (expr_of(c), &**t) {
                (Some(ce), Parsed::List(ts)) => {
                    assert(trees(ts@).len() == ts@.len());
                    assert(trees(fs@).len() == fs@.len());
                    assert(t.tree() == Tree::List(trees(ts@)));
                    assert(f.tree() == Tree::List(trees(fs@)));
                    assert(ct.tree() == Tree::Pair(Box::new(c.tree()), Box::new(t.tree())));
                    assert(x.tree() == Tree::Pair(Box::new(ct.tree()), Box::new(f.tree())));
                    match (exprs_of(ts), exprs_of(fs)) {
                        (Some(te), Some(fe)) => Some(Expr::If(Box::new(ce), te, fe)),
                        _ => None,
                    }
                },
                _ => None,
            },
            _ => None,
        },
        _ => None,
    }
}

fn binary_node_of(k: u32, x: &Parsed) -> (r: Option<Expr>)
    requires
        k != TAG_INT && k != TAG_SYMBOL && k != TAG_STR && k != TAG_BOOL && k != TAG_RETURN
            && k != TAG_ASSIGN && k != TAG_CALL && k != TAG_WHILE && k != TAG_IF,
    ensures
        model_of(r) == expr_of_tree(Tree::Tagged(k, Box::new(x.tree()))),
    decreases x, 1nat,
{
    match x {
        Parsed::Pair(l, r) => match (expr_of(l), expr_of(r)) {
            (Some(le), Some(re)) => binary_expr(k, le, re),
            _ => None,
        },
        _ => None,
    }
}

/// The expressions of the results `v`, if each stands for one.
pub fn exprs_of(v: &Vec<Parsed>) -> (r: Option<Vec<Expr>>)
    ensures
        models_of(r) == exprs_of_trees(trees(v@), v@.len()),
    decreases v, 0nat,
{
    let ghost ts = trees(v@);
    let mut out: Vec<Expr> = Vec::new();
    let mut i: usize = 0;
    assert(models(out@) =~= Seq::<ExprV>::empty());
    while i < v.len()
        invariant
            i <= v@.len(),
            ts == trees(v@),
            exprs_of_trees(ts, i as nat) == Some(models(out@)),
        decreases v@.len() - i,
    {
        match expr_of(&v[i]) {
            Some(e) => {
                let ghost before = out@;
                out.push(e);
                assert(models(out@) =~= models(before).push(e.model()));
                i = i + 1;
            },
            None => {
                proof {
                    lemma_exprs_fail_later(ts, (i + 1) as nat, ts.len());
                }
                return None;
            },
        }
    }
    Some(out)
}

pub proof fn lemma_exprs_fail_later(ts: Seq<Tree>, i: nat, n: nat)
    requires
        0 < i <= n <= ts.len(),
        exprs_of_trees(ts, i) is None,
    ensures
        exprs_of_trees(ts, n) is None,
    decreases n,
{
    if n > i {
        lemma_exprs_fail_later(ts, i, (n - 1) as nat);
    }
}

/// A function as its name, its parameter names and its body.
pub type FunctionV = (Seq<char>, Seq<Seq<char>>, Seq<ExprV>);

pub open spec fn function_model(f: ast::Function) -> FunctionV {
    (f.name@, view_names(f.params@), models(f.body@))
}

pub open spec fn functions_model(fs: Seq<ast::Function>) -> Seq<FunctionV> {
    Seq::new(fs.len(), |i: int| function_model(fs[i]))
}

/// The texts of the first `n` results of `ts`, if each is a text.
pub open spec fn texts_of_trees(ts: Seq<Tree>, n: nat) -> Option<Seq<Seq<char>>>
    decreases n,
{
    if n == 0 || n > ts.len() {
        Some(seq![])
    } else {
        match (texts_of_trees(ts, (n - 1) as nat), ts[n - 1]) {
            (Some(xs), Tree::Text(x)) => Some(xs.push(x)),
            _ => None,
        }
    }
}

/// The function that the grammar's result `t` stands for.
pub open spec fn function_of_tree(t: Tree) -> Option<FunctionV> {
    match t {
        Tree::Tagged(k, x) => if k == TAG_FUNCTION {
            match *x {
                Tree::Pair(head, b) => match (*head, *b) {
                    (Tree::Pair(n, ps), Tree::List(bs)) => match (*n, *ps) {
                        (Tree::Text(name), Tree::List(pts)) => match (
                            texts_of_trees(pts, pts.len()),
                            exprs_of_trees(bs, bs.len()),
                        ) {
                            (Some(params), Some(body)) => Some((name, params, body)),
                            _ => None,
                        },
                        _ => None,
                    },
                    _ => None,
                },
                _ => None,
            }
        } else {
            None
        },
        _ => None,
    }
}

/// The functions of the first `n` results of `ts`, if each stands for one.
pub open spec fn functions_of_trees(ts: Seq<Tree>, n: nat) -> Option<Seq<FunctionV>>
    decreases n,
{
    if n == 0 || n > ts.len() {
        Some(seq![])
    } else {
        match (functions_of_trees(ts, (n - 1) as nat), function_of_tree(ts[n - 1])) {
            (Some(xs), Some(x)) => Some(xs.push(x)),
            _ => None,
        }
    }
}

/// The functions of a module that the grammar's result `t` stands for.
pub open spec fn module_of_tree(t: Tree) -> Option<Seq<FunctionV>> {
    match t {
        Tree::List(fts) => functions_of_trees(fts, fts.len()),
        _ => None,
    }
}

/// The parser of a whole source text: one function or more.
pub open spec fn module_parser() -> Combinator {
    Combinator::Many1(Box::new(function_spec(Combinator::Rule(0))))
}

pub proof fn lemma_texts_fail_later(ts: Seq<Tree>, i: nat, n: nat)
    requires
        0 < i <= n <= ts.len(),
        texts_of_trees(ts, i) is None,
    ensures
        texts_of_trees(ts, n) is None,
    decreases n,
{
    if n > i {
        lemma_texts_fail_later(ts, i, (n - 1) as nat);
    }
}

pub proof fn lemma_functions_fail_later(ts: Seq<Tree>, i: nat, n: nat)
    requires
        0 < i <= n <= ts.len(),
        functions_of_trees(ts, i) is None,
    ensures
        functions_of_trees(ts, n) is None,
    decreases n,
{
    if n > i {
        lemma_functions_fail_later(ts, i, (n - 1) as nat);
    }
}

/// The texts of the results `v`, if each is a text.
fn texts_of(v: &Vec<Parsed>) -> (r: Option<Vec<String>>)
    ensures
        r matches Some(xs) ==> texts_of_trees(trees(v@), v@.len()) == Some(view_names(xs@)),
        r is None ==> texts_of_trees(trees(v@), v@.len()) is None,
{
    let ghost ts = trees(v@);
    let mut out: Vec<String> = Vec::new();
    let mut i: usize = 0;
    assert(view_names(out@) =~= Seq::<Seq<char>>::empty());
    while i < v.len()
        invariant
            i <= v@.len(),
            ts == trees(v@),
            texts_of_trees(ts, i as nat) == Some(view_names(out@)),
        decreases v@.len() - i,
    {
        match text_of(&v[i]) {
            Some(x) => {
                let ghost before = out@;
                out.push(x);
                assert(view_names(out@) =~= view_names(before).push(x@));
                i = i + 1;
            },
            None => {
                proof {
                    lemma_texts_fail_later(ts, (i + 1) as nat, ts.len());
                }
                return None;
            },
        }
    }
    Some(out)
}

/// The function that the grammar's result `p` stands for.
pub fn function_of(p: &Parsed) -> (r: Option<ast::Function>)
    ensures
        r matches Some(f) ==> function_of_tree(p.tree()) == Some(function_model(f)),
        r is None ==> function_of_tree(p.tree()) is None,
{
    match p {
        Parsed::Tagged(k, x) => {
            if *k != TAG_FUNCTION {
                return None;
            }
            match &**x {
                Parsed::Pair(head, b) => match (&**head, &**b) {
                    (Parsed::Pair(n, ps), Parsed::List(bs)) => match (text_of(n), &**ps) {
                        (Some(name), Parsed::List(pts)) => {
                            assert(trees(bs@).len() == bs@.len());
                            assert(trees(pts@).len() == pts@.len());
                            assert(ps.tree() == Tree::List(trees(pts@)));
                            assert(b.tree() == Tree::List(trees(bs@)));
                            assert(head.tree() == Tree::Pair(Box::new(n.tree()), Box::new(ps.tree())));
                            assert(x.tree() == Tree::Pair(Box::new(head.tree()), Box::new(b.tree())));
                            match (texts_of(pts), exprs_of(bs)) {
                                (Some(params), Some(body)) => Some(ast::Function { name, params, body }),
                                _ => None,
                            }
                        },
                        _ => None,
                    },
                    _ => None,
                },
                _ => None,
            }
        },
        _ => None,
    }
}

/// The functions of the results `v`, if each stands for one.
fn functions_of(v: &Vec<Parsed>) -> (r: Option<Vec<ast::Function>>)
    ensures
        r matches Some(fs) ==> functions_of_trees(trees(v@), v@.len()) == Some(functions_model(fs@)),
        r is None ==> functions_of_trees(trees(v@), v@.len()) is None,
{
    let ghost ts = trees(v@);
    let mut out: Vec<ast::Function> = Vec::new();
    let mut i: usize = 0;
    assert(functions_model(out@) =~= Seq::<FunctionV>::empty());
    while i < v.len()
        invariant
            i <= v@.len(),
            ts == trees(v@),
            functions_of_trees(ts, i as nat) == Some(functions_model(out@)),
        decreases v@.len() - i,
    {
        match function_of(&v[i]) {
            Some(f) => {
                let ghost before = out@;
                let ghost fm = function_model(f);
                out.push(f);
                assert(functions_model(out@) =~= functions_model(before).push(fm));
                i = i + 1;
            },
            None => {
                proof {
                    lemma_functions_fail_later(ts, (i + 1) as nat, ts.len());
                }
                return None;
            },
        }
    }
    Some(out)
}

/// Parses a whole source text into its functions: what is left of the text
/// after the last function is returned beside them. Fails when the grammar
/// does not match, or when an integer literal does not fit in 32 bits.
pub fn parse_module(source: &str) -> (r: Result<(ast::Module, &str), ()>)
    ensures
        r matches Ok((m, rest)) ==> parse_spec(body_rules(0), module_parser(), source@) matches Some((t, left))
            && left == rest@ && module_of_tree(t) == Some(functions_model(m.functions@)),
        r is Err ==> match parse_spec(body_rules(0), module_parser(), source@) {
            Some((t, _)) => module_of_tree(t) is None,
            None => true,
        },
{
    let mut grammar = Grammar::new();
    let parser = module(&mut grammar);
    assert(grammar.rules@ =~= body_rules(0));
    match grammar.parse(&parser, source) {
        Ok((t, rest)) => match &t {
            Parsed::List(v) => {
                assert(trees(v@).len() == v@.len());
                match functions_of(v) {
                    Some(functions) => Ok((ast::Module { functions }, rest)),
                    None => Err(()),
                }
            },
            _ => Err(()),
        },
        Err(_) => Err(()),
    }
}

/// The results for the characters `d`, one each.
pub open spec fn char_trees(d: Seq<char>) -> Seq<Tree>
    decreases d.len(),
{
    if d.len() == 0 {
        seq![]
    } else {
        seq![Tree::Char(d[0])] + char_trees(d.drop_first())
    }
}

/// Every character of `d` is a decimal digit.
pub open spec fn all_digits(d: Seq<char>) -> bool {
    forall|i: int| 0 <= i < d.len() ==> digit_chars().contains(#[trigger] d[i])
}

/// What the integer grammar gives for the digits `d`, with a `-` before
/// them or not.
pub open spec fn int_tree(negative: bool, d: Seq<char>) -> Tree {
    let sign = if negative {
        Tree::Maybe(Some(Box::new(Tree::Char('-'))))
    } else {
        Tree::Maybe(None)
    };
    Tree::Tagged(TAG_INT, Box::new(Tree::Pair(Box::new(sign), Box::new(Tree::List(char_trees(d))))))
}

/// Repeating the digit parser from `pos` takes exactly the run of digits
/// that ends at `end`.
pub proof fn lemma_digit_run(rules: Seq<Option<Combinator>>, s: Seq<char>, pos: nat, end: nat, fuel: nat)
    requires
        pos <= end <= s.len(),
        all_digits(s.subrange(pos as int, end as int)),
        end == s.len() || !digit_chars().contains(s[end as int]),
    ensures
        run_many(rules, any_of_spec(digit_chars()), s, pos, fuel) == (char_trees(s.subrange(pos as int, end as int)), end),
    decreases end - pos,
{
    lemma_any_of(rules, digit_chars(), s, pos, fuel);
    if pos == end {
        assert(char_trees(s.subrange(pos as int, end as int)) =~= Seq::<Tree>::empty());
    } else {
        let run_of = s.subrange(pos as int, end as int);
        assert(run_of[0] == s[pos as int]);
        let tail = s.subrange((pos + 1) as int, end as int);
        assert forall|i: int| 0 <= i < tail.len() implies digit_chars().contains(#[trigger] tail[i]) by {
            assert(tail[i] == run_of[i + 1]);
        }
        lemma_digit_run(rules, s, pos + 1, end, fuel);
        assert(run_of.drop_first() =~= tail);
    }
}

/// The integer grammar on `s` when digits `d` stand at `start`, after an
/// optional `-`, and what follows them is not a digit.
proof fn lemma_int_run(rules: Seq<Option<Combinator>>, s: Seq<char>, negative: bool, d: Seq<char>, fuel: nat)
    requires
        d.len() > 0,
        all_digits(d),
        s.len() >= d.len() + (if negative { 1int } else { 0int }),
        negative ==> s[0] == '-',
        s.subrange(if negative { 1int } else { 0int }, d.len() + (if negative { 1int } else { 0int })) == d,
        ({
            let end = d.len() + (if negative { 1int } else { 0int });
            end == s.len() || !digit_chars().contains(s[end])
        }),
    ensures
        run(rules, int_spec(), s, 0, fuel) == Some((int_tree(negative, d), (d.len() + (if negative { 1int } else { 0int })) as nat)),
{
    reveal_strlit("0123456789");
    let start: nat = if negative { 1 } else { 0 };
    let end: nat = d.len() + start;
    let minus = Combinator::Char('-');
    let opt = Combinator::Optional(Box::new(minus));
    let digit = any_of_spec(digit_chars());
    let many1 = Combinator::Many1(Box::new(digit));
    assert(d[0] == s[start as int]);
    assert(digit_chars().contains(d[0]));
    let sign = if negative {
        Tree::Maybe(Some(Box::new(Tree::Char('-'))))
    } else {
        assert(s[0] != '-');
        Tree::Maybe(None)
    };
    assert(run(rules, minus, s, 0, fuel) == if negative {
        Some((Tree::Char('-'), 1nat))
    } else {
        None::<(Tree, nat)>
    });
    assert(run(rules, opt, s, 0, fuel) == Some((sign, start)));
    lemma_any_of(rules, digit_chars(), s, start, fuel);
    let tail = s.subrange((start + 1) as int, end as int);
    assert forall|i: int| 0 <= i < tail.len() implies digit_chars().contains(#[trigger] tail[i]) by {
        assert(tail[i] == d[i + 1]);
    }
    lemma_digit_run(rules, s, start + 1, end, fuel);
    assert(d.drop_first() =~= tail);
    assert(run(rules, many1, s, start, fuel) == Some((Tree::List(char_trees(d)), end)));
    assert(run(rules, then_spec(opt, many1), s, 0, fuel) == Some((
        Tree::Pair(Box::new(sign), Box::new(Tree::List(char_trees(d)))),
        end,
    )));
}

/// The sign of an integer literal is a pure prefix: digits `d` followed by
/// text `r` that does not start with a digit parse as the value `v` of `d`,
/// consuming exactly `d`; with a `-` before them they parse as `-v`,
/// consuming that one character more.
pub proof fn lemma_int_literal_sign_prefix(rules: Seq<Option<Combinator>>, d: Seq<char>, r: Seq<char>)
    requires
        d.len() > 0,
        all_digits(d),
        r.len() == 0 || !digit_chars().contains(r[0]),
        digits_value(char_trees(d)) <= i32::MAX,
    ensures
        parse_spec(rules, int_spec(), d + r) == Some((int_tree(false, d), r)),
        parse_spec(rules, int_spec(), seq!['-'] + d + r) == Some((int_tree(true, d), r)),
        expr_of_tree(int_tree(false, d)) == Some(ExprV::Int(digits_value(char_trees(d)) as i32)),
        expr_of_tree(int_tree(true, d)) == Some(ExprV::Int((-digits_value(char_trees(d))) as i32)),
{
    let fuel = MAX_RULE_DEPTH as nat;
    let s = d + r;
    let t = seq!['-'] + d + r;
    assert(s.subrange(0, d.len() as int) =~= d);
    assert(t.subrange(1, (d.len() + 1) as int) =~= d);
    if r.len() > 0 {
        assert(s[d.len() as int] == r[0]);
        assert(t[(d.len() + 1) as int] == r[0]);
    }
    lemma_int_run(rules, s, false, d, fuel);
    lemma_int_run(rules, t, true, d, fuel);
    assert(s.subrange(d.len() as int, s.len() as int) =~= r);
    assert(t.subrange((d.len() + 1) as int, t.len() as int) =~= r);
    lemma_digits_value_bounds(char_trees(d), 0);
    assert(char_trees(d).subrange(0, 0) =~= Seq::<Tree>::empty());
}

} // verus!


