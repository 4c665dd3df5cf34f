use vstd::prelude::*;
use vstd::string::StringExecFns;

verus! {

/// A runtime scalar.
#[derive(Debug, Clone, PartialEq)]
pub enum Values {
    Int(i32),
    Bool(bool),
    String(String),
}

/// The mathematical value of a runtime scalar.
pub enum Val {
    Int(i32),
    Bool(bool),
    Text(Seq<char>),
}

impl View for Values {
    type V = Val;

    open spec fn view(&self) -> Val {
        match self {
            Values::Int(i) => Val::Int(*i),
            Values::Bool(b) => Val::Bool(*b),
            Values::String(s) => Val::Text(s@),
        }
    }
}

/// The kind of a runtime scalar.
#[derive(Debug, Clone, Copy, PartialEq, Eq, Structural)]
pub enum Types {
    Int,
    Bool,
    String,
}

impl Values {
    /// The kind of this value.
    pub fn value_type(&self) -> (r: Types)
        ensures
            r == (match self {
                Values::Int(_) => Types::Int,
                Values::Bool(_) => Types::Bool,
                Values::String(_) => Types::String,
            }),
    {
        match self {
            Values::Int(_) => Types::Int,
            Values::Bool(_) => Types::Bool,
            Values::String(_) => Types::String,
        }
    }

    /// A copy of this value.
    pub fn copy_value(&self) -> (r: Values)
        ensures
            r == *self,
    {
        match self {
            Values::Int(i) => Values::Int(*i),
            Values::Bool(b) => Values::Bool(*b),
            Values::String(s) => Values::String(s.clone()),
        }
    }
}

/// Value equality: equal kinds and equal contents; values of different kinds
/// are never equal.
pub fn values_equal(a: &Values, b: &Values) -> (r: bool)
    ensures
        r == (a@ == b@),
{
    match (a, b) {
        (Values::Int(x), Values::Int(y)) => *x == *y,
        (Values::Bool(x), Values::Bool(y)) => *x == *y,
        (Values::String(x), Values::String(y)) => *x == *y,
        _ => false,
    }
}

/// One bytecode instruction. Jump targets are absolute instruction indices.
#[derive(Debug, Clone, PartialEq)]
pub enum Instruction {
    Nop,
    StoreLocal(String),
    LoadLocal(String),
    Push(Values),
    Add,
    Sub,
    Mul,
    Div,
    Mod,
    Equal,
    NotEqual,
    Gt,
    Gte,
    Lt,
    Lte,
    And,
    Or,
    Ret,
    JumpEqual(usize),
    JumpNotEqual(usize),
    JumpUnconditional(usize),
    Call(String),
}

/// Why an evaluation stopped without a result.
#[derive(Debug, Clone, Copy, PartialEq, Eq, Structural)]
pub enum EvalError {
    /// An operand was expected and the operand stack was empty.
    StackUnderflow,
    /// A local was loaded that was never stored or bound.
    UnboundLocal,
    /// A call named a function that the program does not hold.
    UnknownFunction,
    /// The operands' kinds do not fit the operation.
    TypeMismatch,
    /// An integer result does not fit in 32 bits.
    Overflow,
    /// An integer division or remainder by zero.
    DivisionByZero,
    /// The step budget ran out.
    StepLimit,
}

/// A function: parameter names and its instructions.
#[derive(Debug)]
pub struct Function {
    pub parameters: Vec<String>,
    pub instructions: Vec<Instruction>,
}

impl Function {
    pub fn new(parameters: Vec<String>, instructions: Vec<Instruction>) -> (r: Self)
        ensures
            r.parameters == parameters,
            r.instructions == instructions,
    {
        Function { parameters, instructions }
    }
}

/// Functions by name. A name is looked up first match first: the names are
/// meant to be unique (`names_unique`), and where two entries share a name
/// the earlier one is called and the later one is shadowed.
#[derive(Debug)]
pub struct Module {
    pub functions: Vec<(String, Function)>,
}

impl Module {
    pub fn new(functions: Vec<(String, Function)>) -> (r: Self)
        ensures
            r.functions == functions,
    {
        Module { functions }
    }
}

impl Default for Module {
    fn default() -> (r: Self)
        ensures
            r.functions@.len() == 0,
    {
        Module { functions: Vec::new() }
    }
}

/// The number of instructions that one evaluation may execute, calls included.
pub const STEP_LIMIT: u64 = 0xffff_ffff_ffff_ffff;

pub open spec fn view_values(s: Seq<Values>) -> Seq<Val> {
    s.map_values(|v: Values| v@)
}

pub open spec fn view_names(s: Seq<String>) -> Seq<Seq<char>> {
    s.map_values(|p: String| p@)
}

pub open spec fn view_locals(s: Seq<(String, Values)>) -> Seq<(Seq<char>, Val)> {
    s.map_values(|p: (String, Values)| (p.0@, p.1@))
}

pub open spec fn view_result(r: Result<Option<Values>, EvalError>) -> Result<Option<Val>, EvalError> {
    match r {
        Ok(Some(v)) => Ok(Some(v@)),
        Ok(None) => Ok(None),
        Err(e) => Err(e),
    }
}

/// The index of the binding of `name`, searching from the most recent one.
pub open spec fn local_index(locals: Seq<(Seq<char>, Val)>, name: Seq<char>) -> Option<int>
    decreases locals.len(),
{
    if locals.len() == 0 {
        None
    } else if locals.last().0 == name {
        Some(locals.len() - 1)
    } else {
        local_index(locals.drop_last(), name)
    }
}

pub proof fn lemma_local_index_bounds(locals: Seq<(Seq<char>, Val)>, name: Seq<char>)
    ensures
        local_index(locals, name) matches Some(i) ==> 0 <= i < locals.len() && locals[i].0 == name,
    decreases locals.len(),
{
    if locals.len() > 0 && locals.last().0 != name {
        lemma_local_index_bounds(locals.drop_last(), name);
    }
}

/// Binds `name` to `v`: replaces an existing binding, else adds one.
pub open spec fn store_local(locals: Seq<(Seq<char>, Val)>, name: Seq<char>, v: Val) -> Seq<(Seq<char>, Val)> {
    match local_index(locals, name) {
        Some(i) => locals.update(i, (name, v)),
        None => locals.push((name, v)),
    }
}

/// The locals of a fresh call: each parameter bound to its argument, in order.
pub open spec fn bind_params(params: Seq<Seq<char>>, args: Seq<Val>) -> Seq<(Seq<char>, Val)>
    decreases params.len(),
{
    if params.len() == 0 || args.len() == 0 {
        seq![]
    } else {
        store_local(bind_params(params.drop_last(), args.drop_last()), params.last(), args.last())
    }
}

/// No two entries of `funcs` share a name.
pub open spec fn names_unique(funcs: Seq<(String, Function)>) -> bool {
    forall|i: int, j: int| 0 <= i < j < funcs.len() ==> (#[trigger] funcs[i]).0@ != (#[trigger] funcs[j]).0@
}

/// With unique names, looking a function's name up finds that function.
pub proof fn lemma_unique_lookup(funcs: Seq<(String, Function)>, i: int)
    requires
        names_unique(funcs),
        0 <= i < funcs.len(),
    ensures
        function_index(funcs, funcs[i].0@) == Some(i),
    decreases funcs.len(),
{
    if i > 0 {
        let rest = funcs.drop_first();
        assert(funcs[0].0@ != funcs[i].0@);
        assert forall|a: int, b: int| 0 <= a < b < rest.len() implies (#[trigger] rest[a]).0@ != (#[trigger] rest[b]).0@ by {
            assert(rest[a] == funcs[a + 1] && rest[b] == funcs[b + 1]);
        }
        assert(rest[i - 1] == funcs[i]);
        lemma_unique_lookup(rest, i - 1);
    }
}

/// The index of the first function named `name`.
pub open spec fn function_index(funcs: Seq<(String, Function)>, name: Seq<char>) -> Option<int>
    decreases funcs.len(),
{
    if funcs.len() == 0 {
        None
    } else if funcs[0].0@ == name {
        Some(0)
    } else {
        match function_index(funcs.drop_first(), name) {
            Some(i) => Some(i + 1),
            None => None,
        }
    }
}

pub open spec fn fits_i32(x: int) -> bool {
    i32::MIN <= x <= i32::MAX
}

pub open spec fn int_result(x: int) -> Result<Val, EvalError> {
    if fits_i32(x) {
        Ok(Val::Int(x as i32))
    } else {
        Err(EvalError::Overflow)
    }
}

/// Division truncating toward zero, as Rust's integer division does.
pub open spec fn trunc_div(a: int, b: int) -> int {
    let q = (if a >= 0 { a } else { -a }) / (if b >= 0 { b } else { -b });
    if (a >= 0) == (b >= 0) {
        q
    } else {
        -q
    }
}

/// Remainder whose sign follows the dividend, as Rust's `%` does.
pub open spec fn trunc_rem(a: int, b: int) -> int {
    let m = if b >= 0 { b } else { -b };
    if a >= 0 {
        a % m
    } else {
        -((-a) % m)
    }
}

/// The result of a two-operand instruction on `left` and `right`.
pub open spec fn binary_result(op: Instruction, left: Val, right: Val) -> Result<Val, EvalError> {
    match op {
        Instruction::Add => match (left, right) {
            (Val::Int(a), Val::Int(b)) => int_result(a + b),
            (Val::Text(a), Val::Text(b)) => Ok(Val::Text(a + b)),
            _ => Err(EvalError::TypeMismatch),
        },
        Instruction::Sub => match (left, right) {
            (Val::Int(a), Val::Int(b)) => int_result(a - b),
            _ => Err(EvalError::TypeMismatch),
        },
        Instruction::Mul => match (left, right) {
            (Val::Int(a), Val::Int(b)) => int_result(a * b),
            _ => Err(EvalError::TypeMismatch),
        },
        Instruction::Div => match (left, right) {
            (Val::Int(a), Val::Int(b)) => if b == 0 {
                Err(EvalError::DivisionByZero)
            } else {
                int_result(trunc_div(a as int, b as int))
            },
            _ => Err(EvalError::TypeMismatch),
        },
        Instruction::Mod => match (left, right) {
            (Val::Int(a), Val::Int(b)) => if b == 0 {
                Err(EvalError::DivisionByZero)
            } else if a == i32::MIN && b == -1 {
                Err(EvalError::Overflow)
            } else {
                int_result(trunc_rem(a as int, b as int))
            },
            _ => Err(EvalError::TypeMismatch),
        },
        Instruction::Lt => match (left, right) {
            (Val::Int(a), Val::Int(b)) => Ok(Val::Bool(a < b)),
            _ => Err(EvalError::TypeMismatch),
        },
        Instruction::Lte => match (left, right) {
            (Val::Int(a), Val::Int(b)) => Ok(Val::Bool(a <= b)),
            _ => Err(EvalError::TypeMismatch),
        },
        Instruction::Gt => match (left, right) {
            (Val::Int(a), Val::Int(b)) => Ok(Val::Bool(a > b)),
            _ => Err(EvalError::TypeMismatch),
        },
        Instruction::Gte => match (left, right) {
            (Val::Int(a), Val::Int(b)) => Ok(Val::Bool(a >= b)),
            _ => Err(EvalError::TypeMismatch),
        },
        Instruction::And => match (left, right) {
            (Val::Bool(a), Val::Bool(b)) => Ok(Val::Bool(a && b)),
            _ => Err(EvalError::TypeMismatch),
        },
        Instruction::Or => match (left, right) {
            (Val::Bool(a), Val::Bool(b)) => Ok(Val::Bool(a || b)),
            _ => Err(EvalError::TypeMismatch),
        },
        Instruction::Equal => Ok(Val::Bool(left == right)),
        Instruction::NotEqual => Ok(Val::Bool(left != right)),
        _ => Err(EvalError::TypeMismatch),
    }
}

pub open spec fn is_binary(op: Instruction) -> bool {
    match op {
        Instruction::Add | Instruction::Sub | Instruction::Mul | Instruction::Div
        | Instruction::Mod | Instruction::Lt | Instruction::Lte | Instruction::Gt
        | Instruction::Gte | Instruction::And | Instruction::Or | Instruction::Equal
        | Instruction::NotEqual => true,
        _ => false,
    }
}

pub open spec fn smaller(a: nat, b: nat) -> nat {
    if a < b {
        a
    } else {
        b
    }
}

/// What running `code` from instruction `ip` does, with `stack` and `locals` as
/// the current frame, `out` as what was printed so far and `fuel` steps left:
/// the result, everything printed by then, and the steps left.
pub open spec fn run(
    funcs: Seq<(String, Function)>,
    code: Seq<Instruction>,
    stack: Seq<Val>,
    locals: Seq<(Seq<char>, Val)>,
    out: Seq<Val>,
    ip: int,
    fuel: nat,
) -> (Result<Option<Val>, EvalError>, Seq<Val>, nat)
    decreases fuel,
{
    if fuel == 0 {
        (Err(EvalError::StepLimit), out, 0)
    } else if ip < 0 || ip >= code.len() {
        (Ok(None), out, fuel)
    } else {
        let f = (fuel - 1) as nat;
        let n = stack.len();
        let op = code[ip];
        match op {
            Instruction::Nop => run(funcs, code, stack, locals, out, ip + 1, f),
            Instruction::Push(v) => run(funcs, code, stack.push(v@), locals, out, ip + 1, f),
            Instruction::StoreLocal(name) => if n == 0 {
                (Err(EvalError::StackUnderflow), out, f)
            } else {
                run(
                    funcs,
                    code,
                    stack.drop_last(),
                    store_local(locals, name@, stack.last()),
                    out,
                    ip + 1,
                    f,
                )
            },
            Instruction::LoadLocal(name) => match local_index(locals, name@) {
                Some(i) => run(funcs, code, stack.push(locals[i].1), locals, out, ip + 1, f),
                None => (Err(EvalError::UnboundLocal), out, f),
            },
            Instruction::Ret => (
                Ok(
                    if n == 0 {
                        None
                    } else {
                        Some(stack.last())
                    },
                ),
                out,
                f,
            ),
            Instruction::JumpUnconditional(t) => run(funcs, code, stack, locals, out, t as int, f),
            Instruction::JumpEqual(t) => if n < 2 {
                (Err(EvalError::StackUnderflow), out, f)
            } else {
                let rest = stack.subrange(0, n - 2);
                if stack[n - 2] == stack[n - 1] {
                    run(funcs, code, rest, locals, out, t as int, f)
                } else {
                    run(funcs, code, rest, locals, out, ip + 1, f)
                }
            },
            Instruction::JumpNotEqual(t) => if n < 2 {
                (Err(EvalError::StackUnderflow), out, f)
            } else {
                let rest = stack.subrange(0, n - 2);
                if stack[n - 2] != stack[n - 1] {
                    run(funcs, code, rest, locals, out, t as int, f)
                } else {
                    run(funcs, code, rest, locals, out, ip + 1, f)
                }
            },
            Instruction::Call(name) => if name@ == "print"@ {
                if n == 0 {
                    (Err(EvalError::StackUnderflow), out, f)
                } else {
                    run(funcs, code, stack.drop_last(), locals, out.push(stack.last()), ip + 1, f)
                }
            } else {
                match function_index(funcs, name@) {
                    None => (Err(EvalError::UnknownFunction), out, f),
                    Some(k) => {
                        let callee = funcs[k].1;
                        let m = callee.parameters@.len();
                        if n < m {
                            (Err(EvalError::StackUnderflow), out, f)
                        } else {
                            let params = view_names(callee.parameters@);
                            let args = stack.subrange(n - m, n as int);
                            let sub = run(
                                funcs,
                                callee.instructions@,
                                seq![],
                                bind_params(params, args),
                                out,
                                0,
                                f,
                            );
                            match sub.0 {
                                Err(e) => (Err(e), sub.1, sub.2),
                                Ok(rv) => {
                                    let base = stack.subrange(0, n - m);
                                    let stack2 = match rv {
                                        Some(v) => base.push(v),
                                        None => base,
                                    };
                                    run(funcs, code, stack2, locals, sub.1, ip + 1, smaller(sub.2, f))
                                },
                            }
                        }
                    },
                }
            },
            _ => if n < 2 {
                (Err(EvalError::StackUnderflow), out, f)
            } else {
                match binary_result(op, stack[n - 2], stack[n - 1]) {
                    Ok(v) => run(funcs, code, stack.subrange(0, n - 2).push(v), locals, out, ip + 1, f),
                    Err(e) => (Err(e), out, f),
                }
            },
        }
    }
}

pub open spec fn view_binary(r: Result<Values, EvalError>) -> Result<Val, EvalError> {
    match r {
        Ok(v) => Ok(v@),
        Err(e) => Err(e),
    }
}

fn int_value(r: Option<i32>) -> (v: Result<Values, EvalError>)
    ensures
        r matches Some(x) ==> v == Ok::<Values, EvalError>(Values::Int(x)),
        r is None ==> v == Err::<Values, EvalError>(EvalError::Overflow),
{
    match r {
        Some(x) => Ok(Values::Int(x)),
        None => Err(EvalError::Overflow),
    }
}

fn add_values(left: Values, right: Values) -> (r: Result<Values, EvalError>)
    ensures
        view_binary(r) == binary_result(Instruction::Add, left@, right@),
{
    match (left, right) {
        (Values::Int(a), Values::Int(b)) => int_value(a.checked_add(b)),
        (Values::String(a), Values::String(b)) => Ok(Values::String(a.concat(b.as_str()))),
        _ => Err(EvalError::TypeMismatch),
    }
}

fn sub_values(left: Values, right: Values) -> (r: Result<Values, EvalError>)
    ensures
        view_binary(r) == binary_result(Instruction::Sub, left@, right@),
{
    match (left, right) {
        (Values::Int(a), Values::Int(b)) => int_value(a.checked_sub(b)),
        _ => Err(EvalError::TypeMismatch),
    }
}

fn mul_values(left: Values, right: Values) -> (r: Result<Values, EvalError>)
    ensures
        view_binary(r) == binary_result(Instruction::Mul, left@, right@),
{
    match (left, right) {
        (Values::Int(a), Values::Int(b)) => int_value(a.checked_mul(b)),
        _ => Err(EvalError::TypeMismatch),
    }
}

fn div_values(left: Values, right: Values) -> (r: Result<Values, EvalError>)
    ensures
        view_binary(r) == binary_result(Instruction::Div, left@, right@),
{
    match (left, right) {
        (Values::Int(a), Values::Int(b)) => if b == 0 {
            Err(EvalError::DivisionByZero)
        } else {
            int_value(a.checked_div(b))
        },
        _ => Err(EvalError::TypeMismatch),
    }
}

fn rem_values(left: Values, right: Values) -> (r: Result<Values, EvalError>)
    ensures
        view_binary(r) == binary_result(Instruction::Mod, left@, right@),
{
    match (left, right) {
        (Values::Int(a), Values::Int(b)) => if b == 0 {
            Err(EvalError::DivisionByZero)
        } else {
            int_value(a.checked_rem(b))
        },
        _ => Err(EvalError::TypeMismatch),
    }
}

fn compare_values(op: &Instruction, left: Values, right: Values) -> (r: Result<Values, EvalError>)
    requires
        *op is Lt || *op is Lte || *op is Gt || *op is Gte,
    ensures
        view_binary(r) == binary_result(*op, left@, right@),
{
    match (left, right) {
        (Values::Int(a), Values::Int(b)) => {
            let c = match op {
                Instruction::Lt => a < b,
                Instruction::Lte => a <= b,
                Instruction::Gt => a > b,
                _ => a >= b,
            };
            Ok(Values::Bool(c))
        },
        _ => Err(EvalError::TypeMismatch),
    }
}

fn logic_values(op: &Instruction, left: Values, right: Values) -> (r: Result<Values, EvalError>)
    requires
        *op is And || *op is Or,
    ensures
        view_binary(r) == binary_result(*op, left@, right@),
{
    match (left, right) {
        (Values::Bool(a), Values::Bool(b)) => {
            let c = match op {
                Instruction::And => a && b,
                _ => a || b,
            };
            Ok(Values::Bool(c))
        },
        _ => Err(EvalError::TypeMismatch),
    }
}

/// Applies a two-operand instruction.
fn apply_binary(op: &Instruction, left: Values, right: Values) -> (r: Result<Values, EvalError>)
    requires
        is_binary(*op),
    ensures
        view_binary(r) == binary_result(*op, left@, right@),
{
    match op {
        Instruction::Add => add_values(left, right),
        Instruction::Sub => sub_values(left, right),
        Instruction::Mul => mul_values(left, right),
        Instruction::Div => div_values(left, right),
        Instruction::Mod => rem_values(left, right),
        Instruction::Equal => Ok(Values::Bool(values_equal(&left, &right))),
        Instruction::NotEqual => Ok(Values::Bool(!values_equal(&left, &right))),
        Instruction::And | Instruction::Or => logic_values(op, left, right),
        _ => compare_values(op, left, right),
    }
}

/// The operand stack and the locals of one call.
struct StackFrame {
    stack: Vec<Values>,
    locals: Vec<(String, Values)>,
}

impl StackFrame {
    fn new(params: Vec<(String, Values)>) -> (r: StackFrame)
        ensures
            r.stack@.len() == 0,
            r.locals == params,
    {
        StackFrame { stack: Vec::new(), locals: params }
    }

    fn find_local(&self, name: &String) -> (r: Option<usize>)
        ensures
            r matches Some(i) ==> local_index(view_locals(self.locals@), name@) == Some(i as int)
                && i < self.locals@.len(),
            r is None ==> local_index(view_locals(self.locals@), name@) is None,
    {
        let ghost all = view_locals(self.locals@);
        let mut i: usize = self.locals.len();
        assert(all.subrange(0, i as int) =~= all);
        while i > 0
            invariant
                i <= self.locals@.len(),
                all == view_locals(self.locals@),
                local_index(all, name@) == local_index(all.subrange(0, i as int), name@),
            decreases i,
        {
            let ghost part = all.subrange(0, i as int);
            assert(part.drop_last() =~= all.subrange(0, i - 1));
            if self.locals[i - 1].0 == *name {
                return Some(i - 1);
            }
            i = i - 1;
        }
        assert(all.subrange(0, 0) =~= Seq::<(Seq<char>, Val)>::empty());
        None
    }

    fn store(&mut self, name: &String, v: Values)
        ensures
            view_locals(final(self).locals@) == store_local(view_locals(old(self).locals@), name@, v@),
            final(self).stack == old(self).stack,
    {
        proof {
            lemma_local_index_bounds(view_locals(self.locals@), name@);
        }
        match self.find_local(name) {
            Some(i) => {
                self.locals.set(i, (name.clone(), v));
                assert(view_locals(self.locals@) =~= store_local(view_locals(old(self).locals@), name@, v@));
            },
            None => {
                self.locals.push((name.clone(), v));
                assert(view_locals(self.locals@) =~= store_local(view_locals(old(self).locals@), name@, v@));
            },
        }
    }
}

/// A module ready to run.
pub struct Program {
    pub functions: Vec<(String, Function)>,
}

impl Program {
    pub fn new(module: Module) -> (r: Program)
        ensures
            r.functions == module.functions,
    {
        Program { functions: module.functions }
    }

    fn find_function(&self, name: &String) -> (r: Option<usize>)
        ensures
            r matches Some(i) ==> function_index(self.functions@, name@) == Some(i as int) && i < self.functions@.len(),
            r is None ==> function_index(self.functions@, name@) is None,
    {
        let mut i: usize = 0;
        assert(self.functions@.subrange(0, self.functions@.len() as int) =~= self.functions@);
        while i < self.functions.len()
            invariant
                i <= self.functions@.len(),
                function_index(self.functions@, name@) == match function_index(self.functions@.subrange(i as int, self.functions@.len() as int), name@) {
                    Some(k) => Some(k + i),
                    None => None::<int>,
                },
            decreases self.functions@.len() - i,
        {
            let ghost rest = self.functions@.subrange(i as int, self.functions@.len() as int);
            assert(rest.drop_first() =~= self.functions@.subrange(i + 1, self.functions@.len() as int));
            if self.functions[i].0 == *name {
                return Some(i);
            }
            i = i + 1;
        }
        None
    }

    /// The function named `main`, the entry point, if the program has one.
    pub fn main(&self) -> (r: Option<&Function>)
        ensures
            r is Some <==> function_index(self.functions@, "main"@) is Some,
            r matches Some(f) ==> *f == self.functions@[function_index(self.functions@, "main"@)->0].1,
    {
        let main_name = String::from_str("main");
        match self.find_function(&main_name) {
            Some(i) => Some(&self.functions[i].1),
            None => None,
        }
    }

    /// Evaluates `function` with `params` as its initial locals and returns
    /// what its `Ret` popped, `None` when it returned nothing, or the error
    /// that stopped it. Values that it prints are dropped.
    pub fn eval(&self, function: &Function, params: Vec<(String, Values)>) -> (r: Result<Option<Values>, EvalError>)
        ensures
            view_result(r) == run(
                self.functions@,
                function.instructions@,
                seq![],
                view_locals(params@),
                seq![],
                0,
                STEP_LIMIT as nat,
            ).0,
    {
        let mut printed: Vec<Values> = Vec::new();
        let r = self.eval_with_output(function, params, &mut printed, STEP_LIMIT);
        assert(view_values(Seq::<Values>::empty()) =~= Seq::<Val>::empty());
        r
    }

    /// Evaluates `function` as `eval` does, within `steps` executed
    /// instructions, and appends what the `print` intrinsic prints to `output`.
    pub fn eval_with_output(
        &self,
        function: &Function,
        params: Vec<(String, Values)>,
        output: &mut Vec<Values>,
        steps: u64,
    ) -> (r: Result<Option<Values>, EvalError>)
        ensures
            ({
                let s = run(
                    self.functions@,
                    function.instructions@,
                    seq![],
                    view_locals(params@),
                    view_values(old(output)@),
                    0,
                    steps as nat,
                );
                view_result(r) == s.0 && view_values(final(output)@) == s.1
            }),
    {
        let (r, _) = self.run_code(&function.instructions, params, output, steps);
        r
    }

    fn run_code(
        &self,
        code: &Vec<Instruction>,
        params: Vec<(String, Values)>,
        output: &mut Vec<Values>,
        fuel: u64,
    ) -> (r: (Result<Option<Values>, EvalError>, u64))
        ensures
            ({
                let s = run(
                    self.functions@,
                    code@,
                    seq![],
                    view_locals(params@),
                    view_values(old(output)@),
                    0,
                    fuel as nat,
                );
                view_result(r.0) == s.0 && view_values(final(output)@) == s.1 && r.1 == s.2
            }),
            r.1 <= fuel,
        decreases fuel,
    {
        let ghost funcs = self.functions@;
        let ghost locals0 = view_locals(params@);
        let ghost start = run(funcs, code@, seq![], locals0, view_values(output@), 0, fuel as nat);
        let mut frame = StackFrame::new(params);
        let mut ip: usize = 0;
        let mut left: u64 = fuel;
        assert(view_values(frame.stack@) =~= Seq::<Val>::empty());
        loop
            invariant
                funcs == self.functions@,
                left <= fuel,
                locals0 == view_locals(params@),
                start == run(funcs, code@, seq![], locals0, view_values(old(output)@), 0, fuel as nat),
                start == run(
                    funcs,
                    code@,
                    view_values(frame.stack@),
                    view_locals(frame.locals@),
                    view_values(output@),
                    ip as int,
                    left as nat,
                ),
            decreases left,
        {
            if left == 0 {
                return (Err(EvalError::StepLimit), 0);
            }
            if ip >= code.len() {
                return (Ok(None), left);
            }
            left = left - 1;
            let ghost stack0 = view_values(frame.stack@);
            let n = frame.stack.len();
            match &code[ip] {
                Instruction::Nop => {
                    ip = ip + 1;
                },
                Instruction::Push(v) => {
                    frame.stack.push(v.copy_value());
                    assert(view_values(frame.stack@) =~= stack0.push(v@));
                    ip = ip + 1;
                },
                Instruction::StoreLocal(name) => {
                    match frame.stack.pop() {
                        None => {
                            return (Err(EvalError::StackUnderflow), left);
                        },
                        Some(v) => {
                            assert(view_values(frame.stack@) =~= stack0.drop_last());
                            frame.store(name, v);
                            ip = ip + 1;
                        },
                    }
                },
                Instruction::LoadLocal(name) => {
                    match frame.find_local(name) {
                        None => {
                            return (Err(EvalError::UnboundLocal), left);
                        },
                        Some(i) => {
                            let v = frame.locals[i].1.copy_value();
                            frame.stack.push(v);
                            assert(view_values(frame.stack@) =~= stack0.push(view_locals(frame.locals@)[i as int].1));
                            ip = ip + 1;
                        },
                    }
                },
                Instruction::Ret => {
                    let v = frame.stack.pop();
                    return (Ok(v), left);
                },
                Instruction::JumpUnconditional(t) => {
                    ip = *t;
                },
                Instruction::JumpEqual(t) => {
                    if n < 2 {
                        return (Err(EvalError::StackUnderflow), left);
                    }
                    let rhs = frame.stack.pop().unwrap();
                    let lhs = frame.stack.pop().unwrap();
                    assert(view_values(frame.stack@) =~= stack0.subrange(0, n - 2));
                    if values_equal(&lhs, &rhs) {
                        ip = *t;
                    } else {
                        ip = ip + 1;
                    }
                },
                Instruction::JumpNotEqual(t) => {
                    if n < 2 {
                        return (Err(EvalError::StackUnderflow), left);
                    }
                    let rhs = frame.stack.pop().unwrap();
                    let lhs = frame.stack.pop().unwrap();
                    assert(view_values(frame.stack@) =~= stack0.subrange(0, n - 2));
                    if !values_equal(&lhs, &rhs) {
                        ip = *t;
                    } else {
                        ip = ip + 1;
                    }
                },
                Instruction::Call(name) => {
                    let print_name = String::from_str("print");
                    if *name == print_name {
                        match frame.stack.pop() {
                            None => {
                                return (Err(EvalError::StackUnderflow), left);
                            },
                            Some(v) => {
                                assert(view_values(frame.stack@) =~= stack0.drop_last());
                                let ghost out0 = view_values(output@);
                                output.push(v);
                                assert(view_values(output@) =~= out0.push(stack0.last()));
                                ip = ip + 1;
                            },
                        }
                    } else {
                        match self.find_function(name) {
                            None => {
                                return (Err(EvalError::UnknownFunction), left);
                            },
                            Some(k) => {
                                let callee = &self.functions[k].1;
                                let m = callee.parameters.len();
                                if n < m {
                                    return (Err(EvalError::StackUnderflow), left);
                                }
                                let args = frame.stack.split_off(n - m);
                                assert(view_values(args@) =~= stack0.subrange(n - m, n as int));
                                assert(view_values(frame.stack@) =~= stack0.subrange(0, n - m));
                                let locals = bind_arguments(&callee.parameters, args);
                                let (sub, rest) = self.run_code(&callee.instructions, locals, output, left);
                                match sub {
                                    Err(e) => {
                                        return (Err(e), rest);
                                    },
                                    Ok(rv) => {
                                        let ghost base = view_values(frame.stack@);
                                        match rv {
                                            Some(v) => {
                                                frame.stack.push(v);
                                                assert(view_values(frame.stack@) =~= base.push(v@));
                                            },
                                            None => {},
                                        }
                                        left = rest;
                                        ip = ip + 1;
                                    },
                                }
                            },
                        }
                    }
                },
                _ => {
                    if n < 2 {
                        return (Err(EvalError::StackUnderflow), left);
                    }
                    let rhs = frame.stack.pop().unwrap();
                    let lhs = frame.stack.pop().unwrap();
                    let ghost base = view_values(frame.stack@);
                    assert(base =~= stack0.subrange(0, n - 2));
                    match apply_binary(&code[ip], lhs, rhs) {
                        Ok(v) => {
                            frame.stack.push(v);
                            assert(view_values(frame.stack@) =~= base.push(v@));
                            ip = ip + 1;
                        },
                        Err(e) => {
                            return (Err(e), left);
                        },
                    }
                },
            }
        }
    }
}

/// The locals of a fresh call: each parameter bound to its argument.
fn bind_arguments(parameters: &Vec<String>, args: Vec<Values>) -> (r: Vec<(String, Values)>)
    requires
        parameters@.len() == args@.len(),
    ensures
        view_locals(r@) == bind_params(view_names(parameters@), view_values(args@)),
{
    let ghost params = view_names(parameters@);
    let ghost vals = view_values(args@);
    let mut frame = StackFrame::new(Vec::new());
    let mut i: usize = 0;
    assert(view_locals(frame.locals@) =~= bind_params(params.take(0), vals.take(0)));
    while i < parameters.len()
        invariant
            i <= parameters@.len(),
            parameters@.len() == args@.len(),
            params == view_names(parameters@),
            vals == view_values(args@),
            view_locals(frame.locals@) == bind_params(params.take(i as int), vals.take(i as int)),
        decreases parameters@.len() - i,
    {
        let v = args[i].copy_value();
        assert(params.take(i + 1).drop_last() =~= params.take(i as int));
        assert(vals.take(i + 1).drop_last() =~= vals.take(i as int));
        frame.store(&parameters[i], v);
        i = i + 1;
    }
    assert(params.take(i as int) =~= params);
    assert(vals.take(i as int) =~= vals);
    frame.locals
}

} // verus!
