use parser_combinator::ast::{Function as AstFunction, Module as AstModule};
use parser_combinator::lang_parser::{expr_of, int_literal};
use parser_combinator::{
    emit, emit_body, emit_module, forward, parse_module, pchar, EmitError, Expr, Grammar,
    Instruction, Parsed, Parser, Program, Values,
};

fn run_source(source: &str) -> Result<Option<Values>, parser_combinator::EvalError> {
    let (module, rest) = parse_module(source).expect("source parses");
    assert_eq!(rest, "");
    let module = emit_module(&module).expect("module has main");
    let program = Program::new(module);
    let main = program.main().expect("main exists");
    program.eval(main, Vec::new())
}

fn num(i: i32) -> Box<Expr> {
    Box::new(Expr::Int(i))
}

fn sym(s: &str) -> Box<Expr> {
    Box::new(Expr::Symbol(s.to_string()))
}

#[test]
fn emit_assign() {
    let expr = Expr::Ident("x".to_string(), Box::new(Expr::Int(1)));
    let result = emit(&expr);

    let expected = vec![
        Instruction::Push(Values::Int(1)),
        Instruction::StoreLocal("x".to_string()),
    ];

    assert_eq!(result, expected);
}

#[test]
fn integer_literal_round_trip() {
    let (tree, rest) = int_literal().parse("-123456789").unwrap();
    assert_eq!(rest, "");
    let expr = expr_of(&tree);
    assert_eq!(expr, Some(Expr::Int(-123456789)));
    if let Some(Expr::Int(n)) = expr {
        assert_eq!(n.to_string(), "-123456789");
    }
    let (positive, _) = int_literal().parse("123456789").unwrap();
    assert_eq!(expr_of(&positive), Some(Expr::Int(123456789)));
}

#[test]
fn integer_literal_out_of_range_is_refused() {
    let (tree, _) = int_literal().parse("99999999999").unwrap();
    assert_eq!(expr_of(&tree), None);
    let (tree, _) = int_literal().parse("2147483647").unwrap();
    assert_eq!(expr_of(&tree), Some(Expr::Int(2147483647)));
}

#[test]
fn conditional_takes_the_true_branch() {
    let result = run_source("function main() { return if (1 == 1) { 10 } else { 20 } }");
    assert_eq!(result, Ok(Some(Values::Int(10))));
}

#[test]
fn conditional_takes_the_false_branch() {
    let result = run_source("function main() { return if (1 == 2) { 10 } else { 20 } }");
    assert_eq!(result, Ok(Some(Values::Int(20))));
}

#[test]
fn loop_counts_to_a_thousand() {
    let result = run_source("function main() { i = 0 while (i < 1000) { i = (i + 1) } return i }");
    assert_eq!(result, Ok(Some(Values::Int(1000))));
}

#[test]
fn call_binds_arguments_in_declared_order() {
    let f = AstFunction {
        name: "f".to_string(),
        params: vec!["a".to_string(), "b".to_string()],
        body: vec![Expr::Return(Box::new(Expr::Subtract(sym("a"), sym("b"))))],
    };
    let main = AstFunction {
        name: "main".to_string(),
        params: Vec::new(),
        body: vec![Expr::Return(Box::new(Expr::Call(
            "f".to_string(),
            vec![Expr::Int(10), Expr::Int(3)],
        )))],
    };
    let module = emit_module(&AstModule { functions: vec![f, main] }).unwrap();
    let program = Program::new(module);
    let main = program.main().unwrap();
    assert_eq!(program.eval(main, Vec::new()), Ok(Some(Values::Int(7))));
}

#[test]
fn call_with_one_argument_from_source() {
    let result = run_source(
        "function double(x) { return (x * 2) } function main() { return double(21) }",
    );
    assert_eq!(result, Ok(Some(Values::Int(42))));
}

#[test]
fn emission_is_idempotent() {
    let tree = Expr::While(
        Box::new(Expr::LessThan(sym("i"), num(3))),
        vec![
            Expr::If(
                Box::new(Expr::Equals(sym("i"), num(1))),
                vec![Expr::Ident("j".to_string(), num(5))],
                vec![Expr::Ident("j".to_string(), num(6))],
            ),
            Expr::Ident("i".to_string(), Box::new(Expr::Add(sym("i"), num(1)))),
        ],
    );
    assert_eq!(emit(&tree), emit(&tree));
}

#[test]
fn conditional_layout_and_relocation() {
    let cond = Expr::If(Box::new(Expr::Bool(true)), vec![Expr::Int(1)], vec![Expr::Int(2)]);
    let expected = vec![
        Instruction::Push(Values::Bool(true)),
        Instruction::Push(Values::Bool(true)),
        Instruction::JumpNotEqual(5),
        Instruction::Push(Values::Int(1)),
        Instruction::JumpUnconditional(6),
        Instruction::Push(Values::Int(2)),
    ];
    assert_eq!(emit(&cond), expected);
    let body = emit_body(&vec![Expr::Int(0), cond]);
    assert_eq!(body[3], Instruction::JumpNotEqual(6));
    assert_eq!(body[5], Instruction::JumpUnconditional(7));
}

#[test]
fn loop_jumps_back_to_its_start() {
    let body = emit_body(&vec![
        Expr::Int(0),
        Expr::While(Box::new(Expr::Bool(false)), vec![Expr::Int(1)]),
    ]);
    assert_eq!(body.last(), Some(&Instruction::JumpUnconditional(1)));
    assert_eq!(body[3], Instruction::JumpNotEqual(6));
}

#[test]
fn module_without_main_is_refused() {
    let helper = AstFunction { name: "helper".to_string(), params: Vec::new(), body: vec![Expr::Int(1)] };
    assert_eq!(emit_module(&AstModule { functions: vec![helper] }).err(), Some(EmitError::MissingMain));
}

#[test]
fn later_definition_shadows_earlier() {
    let result = run_source("function main() { return 1 } function main() { return 2 }");
    assert_eq!(result, Ok(Some(Values::Int(2))));
}

#[test]
fn parse_module_refuses_bad_source() {
    assert!(parse_module("function main( { 1 }").is_err());
    assert!(parse_module("").is_err());
}

#[test]
fn forward_parser_allows_recursion() {
    let mut grammar = Grammar::new();
    let nested = forward(&mut grammar);
    let definition = pchar('(').right(nested.as_rc()).left(pchar(')')).or(pchar('x'));
    assert!(grammar.set_implementation(&nested, definition));
    assert_eq!(grammar.parse(&nested.as_rc(), "((x))!"), Ok((Parsed::Char('x'), "!")));
    assert!(!grammar.set_implementation(&nested, pchar('y')));
}

#[test]
fn unbound_forward_parser_fails_when_used() {
    let mut grammar = Grammar::new();
    let slot = forward(&mut grammar);
    assert_eq!(grammar.parse(&slot.as_rc(), "x"), Err(()));
    assert_eq!(slot.parse(&grammar, "x"), Err(()));
}

#[test]
fn bound_forward_parser_parses_like_its_definition() {
    let mut grammar = Grammar::new();
    let slot = forward(&mut grammar);
    assert_eq!(slot.parse(&grammar, "a"), Err(()));
    assert!(grammar.set_implementation(&slot, pchar('a')));
    assert_eq!(slot.parse(&grammar, "a"), Ok((Parsed::Char('a'), "")));
    assert_eq!(pchar('a').parse("a"), Ok((Parsed::Char('a'), "")));
    let pair = slot.as_rc().and_then(slot.as_rc());
    assert_eq!(
        grammar.parse(&pair, "aab"),
        Ok((Parsed::Pair(Box::new(Parsed::Char('a')), Box::new(Parsed::Char('a'))), "b"))
    );
}

#[test]
fn strings_and_booleans_from_source() {
    let result = run_source("function main() { x = \"hello\" return (x + x) }");
    assert_eq!(result, Ok(Some(Values::String("hellohello".to_string()))));
    let result = run_source("function main() { return (true && false) }");
    assert_eq!(result, Ok(Some(Values::Bool(false))));
}

#[test]
fn sign_is_a_pure_prefix() {
    let (tree, rest) = int_literal().parse("42abc").unwrap();
    assert_eq!(rest, "abc");
    assert_eq!(expr_of(&tree), Some(Expr::Int(42)));
    let (tree, rest) = int_literal().parse("-42abc").unwrap();
    assert_eq!(rest, "abc");
    assert_eq!(expr_of(&tree), Some(Expr::Int(-42)));
}

#[test]
fn loop_counts_to_other_bounds() {
    for n in [0, 1, 7, 250] {
        let source = format!("function main() {{ i = 0 while (i < {}) {{ i = (i + 1) }} return i }}", n);
        assert_eq!(run_source(&source), Ok(Some(Values::Int(n))));
    }
}
