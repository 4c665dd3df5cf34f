use parser_combinator::{EvalError, Function, Instruction, Module, Program, Types, Values};

fn run(instructions: Vec<Instruction>) -> Result<Option<Values>, EvalError> {
    let function = Function::new(Vec::default(), instructions);
    let program = Program::new(Module::default());
    program.eval(&function, Vec::new())
}

#[test]
fn add_2_integers() {
    let instructions = vec![
        Instruction::Push(Values::Int(1)),
        Instruction::Push(Values::Int(2)),
        Instruction::Add,
        Instruction::Ret,
    ];

    let function = Function::new(Vec::default(), instructions);
    let program = Program::new(Module::default());

    let result = program.eval(&function, Vec::new());

    assert_eq!(result, Ok(Some(Values::Int(3))));
}

#[test]
fn add_2_strings() {
    let instructions = vec![
        Instruction::Push(Values::String("hello".to_string())),
        Instruction::Push(Values::String("hello".to_string())),
        Instruction::Add,
        Instruction::Ret,
    ];

    let function = Function::new(Vec::default(), instructions);
    let program = Program::new(Module::default());

    let result = program.eval(&function, Vec::new());
    assert_eq!(result, Ok(Some(Values::String("hellohello".to_string()))));
}

#[test]
fn immediate_no_return() {
    let instructions = vec![Instruction::Ret];

    let function = Function::new(Vec::default(), instructions);
    let program = Program::new(Module::default());

    let result = program.eval(&function, Vec::new());

    assert_eq!(result, Ok(None));
}

#[test]
fn call_method() {
    let div_instructions = vec![
        Instruction::LoadLocal("param1".to_string()),
        Instruction::LoadLocal("param2".to_string()),
        Instruction::Div,
        Instruction::Ret,
    ];

    let div = Function::new(vec!["param1".to_string(), "param2".to_string()], div_instructions);

    let call_instructions = vec![
        Instruction::Push(Values::Int(10)),
        Instruction::Push(Values::Int(2)),
        Instruction::Call("div".to_string()),
        Instruction::Ret,
    ];
    let call_div = Function::new(Vec::default(), call_instructions);

    let functions = vec![("div".to_string(), div)];
    let module = Module::new(functions);
    let program = Program::new(module);

    let result = program.eval(&call_div, Vec::new());

    assert_eq!(result, Ok(Some(Values::Int(5))));
}

#[test]
fn integer_results_without_return_are_none() {
    let result = run(vec![
        Instruction::Push(Values::Int(1)),
        Instruction::Push(Values::Int(2)),
        Instruction::Add,
    ]);
    assert_eq!(result, Ok(None));
}

#[test]
fn arithmetic_formulas() {
    let cases = vec![
        (Instruction::Sub, 7, 10, -3),
        (Instruction::Mul, 6, -7, -42),
        (Instruction::Div, -7, 2, -3),
        (Instruction::Mod, -7, 2, -1),
        (Instruction::Mod, 7, -2, 1),
    ];
    for (op, l, r, expected) in cases {
        let result = run(vec![
            Instruction::Push(Values::Int(l)),
            Instruction::Push(Values::Int(r)),
            op,
            Instruction::Ret,
        ]);
        assert_eq!(result, Ok(Some(Values::Int(expected))));
    }
}

#[test]
fn comparisons_and_logic() {
    let cases = vec![
        (Instruction::Lt, Values::Int(1), Values::Int(2), true),
        (Instruction::Lte, Values::Int(2), Values::Int(2), true),
        (Instruction::Gt, Values::Int(1), Values::Int(2), false),
        (Instruction::Gte, Values::Int(1), Values::Int(2), false),
        (Instruction::And, Values::Bool(true), Values::Bool(false), false),
        (Instruction::Or, Values::Bool(true), Values::Bool(false), true),
        (Instruction::Equal, Values::Int(1), Values::Bool(true), false),
        (Instruction::NotEqual, Values::Int(1), Values::Bool(true), true),
        (Instruction::Equal, Values::String("a".to_string()), Values::String("a".to_string()), true),
    ];
    for (op, l, r, expected) in cases {
        let result = run(vec![Instruction::Push(l), Instruction::Push(r), op, Instruction::Ret]);
        assert_eq!(result, Ok(Some(Values::Bool(expected))));
    }
}

#[test]
fn each_error_has_an_input() {
    assert_eq!(run(vec![Instruction::Add]), Err(EvalError::StackUnderflow));
    assert_eq!(run(vec![Instruction::LoadLocal("x".to_string())]), Err(EvalError::UnboundLocal));
    assert_eq!(run(vec![Instruction::Call("nowhere".to_string())]), Err(EvalError::UnknownFunction));
    assert_eq!(
        run(vec![Instruction::Push(Values::Bool(true)), Instruction::Push(Values::String("s".to_string())), Instruction::Add]),
        Err(EvalError::TypeMismatch)
    );
    assert_eq!(
        run(vec![Instruction::Push(Values::Int(i32::MAX)), Instruction::Push(Values::Int(1)), Instruction::Add]),
        Err(EvalError::Overflow)
    );
    assert_eq!(
        run(vec![Instruction::Push(Values::Int(i32::MIN)), Instruction::Push(Values::Int(-1)), Instruction::Div]),
        Err(EvalError::Overflow)
    );
    assert_eq!(
        run(vec![Instruction::Push(Values::Int(1)), Instruction::Push(Values::Int(0)), Instruction::Mod]),
        Err(EvalError::DivisionByZero)
    );
    let spin = Function::new(Vec::new(), vec![Instruction::JumpUnconditional(0)]);
    let program = Program::new(Module::default());
    let mut printed = Vec::new();
    assert_eq!(program.eval_with_output(&spin, Vec::new(), &mut printed, 1000), Err(EvalError::StepLimit));
}

#[test]
fn print_is_an_intrinsic() {
    let function = Function::new(
        Vec::new(),
        vec![
            Instruction::Push(Values::Int(4)),
            Instruction::Call("print".to_string()),
            Instruction::Push(Values::Int(5)),
            Instruction::Ret,
        ],
    );
    let program = Program::new(Module::default());
    let mut printed = Vec::new();
    let result = program.eval_with_output(&function, Vec::new(), &mut printed, 100);
    assert_eq!(result, Ok(Some(Values::Int(5))));
    assert_eq!(printed, vec![Values::Int(4)]);
}

#[test]
fn conditional_jumps_pop_and_compare() {
    let function = Function::new(
        Vec::new(),
        vec![
            Instruction::Push(Values::Int(1)),
            Instruction::Push(Values::Int(1)),
            Instruction::JumpEqual(5),
            Instruction::Push(Values::Int(0)),
            Instruction::Ret,
            Instruction::Push(Values::Int(9)),
            Instruction::Ret,
        ],
    );
    let program = Program::new(Module::default());
    assert_eq!(program.eval(&function, Vec::new()), Ok(Some(Values::Int(9))));
}

#[test]
fn parameters_seed_the_locals() {
    let function = Function::new(vec!["a".to_string()], vec![Instruction::LoadLocal("a".to_string()), Instruction::Ret]);
    let program = Program::new(Module::default());
    assert_eq!(
        program.eval(&function, vec![("a".to_string(), Values::Int(11))]),
        Ok(Some(Values::Int(11)))
    );
}

#[test]
fn value_kinds() {
    assert_eq!(Values::Int(1).value_type(), Types::Int);
    assert_eq!(Values::Bool(true).value_type(), Types::Bool);
    assert_eq!(Values::String("s".to_string()).value_type(), Types::String);
}

#[test]
fn main_is_found_by_name() {
    let module = Module::new(vec![("main".to_string(), Function::new(Vec::new(), vec![Instruction::Ret]))]);
    let program = Program::new(module);
    assert!(program.main().is_some());
    assert!(Program::new(Module::default()).main().is_none());
}
