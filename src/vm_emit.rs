use vstd::prelude::*;
use crate::ast::{self, Expr};
use crate::vm::{Function, Instruction, Module, Values, names_unique};

verus! {

/// The instructions that a conditional or a loop adds around its parts: the
/// pushed `true`, the conditional jump and the unconditional jump.
pub const BRANCH_OVERHEAD: usize = 3;

/// The target of a jump instruction.
pub open spec fn jump_target(i: Instruction) -> Option<usize> {
    match i {
        Instruction::JumpEqual(t) => Some(t),
        Instruction::JumpNotEqual(t) => Some(t),
        Instruction::JumpUnconditional(t) => Some(t),
        _ => None,
    }
}

/// Every jump in `code` targets an index no greater than `bound`.
pub open spec fn targets_within(code: Seq<Instruction>, bound: nat) -> bool {
    forall|k: int| 0 <= k < code.len() ==> (#[trigger] jump_target(code[k]) matches Some(t) ==> t <= bound)
}

/// `i` moved `base` instructions further: a jump target grows by `base`.
pub open spec fn relocate(i: Instruction, base: int) -> Instruction {
    match i {
        Instruction::JumpEqual(t) => Instruction::JumpEqual((t + base) as usize),
        Instruction::JumpNotEqual(t) => Instruction::JumpNotEqual((t + base) as usize),
        Instruction::JumpUnconditional(t) => Instruction::JumpUnconditional((t + base) as usize),
        _ => i,
    }
}

/// Every instruction of `code` moved `base` instructions further.
pub open spec fn relocated(code: Seq<Instruction>, base: int) -> Seq<Instruction> {
    code.map_values(|i: Instruction| relocate(i, base))
}

/// `b` placed after `a`, with the jumps of `b` relocated to its new start.
pub open spec fn join(a: Seq<Instruction>, b: Seq<Instruction>) -> Seq<Instruction> {
    a + relocated(b, a.len() as int)
}

/// The code of a conditional: the pushed `true`, the condition, a jump to the
/// false branch when they differ, the true branch, a jump past the false
/// branch, the false branch.
pub open spec fn if_code(cs: Seq<Instruction>, ts: Seq<Instruction>, fs: Seq<Instruction>) -> Seq<Instruction> {
    let else_start = cs.len() + ts.len() + BRANCH_OVERHEAD;
    join(
        join(
            join(seq![Instruction::Push(Values::Bool(true))], cs).push(
                Instruction::JumpNotEqual(else_start as usize),
            ),
            ts,
        ).push(Instruction::JumpUnconditional((else_start + fs.len()) as usize)),
        fs,
    )
}

/// The code of a loop: as a conditional without a false branch, whose last
/// jump goes back to the start.
pub open spec fn while_code(cs: Seq<Instruction>, bs: Seq<Instruction>) -> Seq<Instruction> {
    join(
        join(seq![Instruction::Push(Values::Bool(true))], cs).push(
            Instruction::JumpNotEqual((cs.len() + bs.len() + BRANCH_OVERHEAD) as usize),
        ),
        bs,
    ).push(Instruction::JumpUnconditional(0))
}

/// The code of a two-operand expression.
pub open spec fn binary_code(l: Seq<Instruction>, r: Seq<Instruction>, op: Instruction) -> Seq<Instruction> {
    join(l, r).push(op)
}

/// The code emitted for `e`, with its jumps relative to its own start.
pub open spec fn emitted(e: Expr) -> Seq<Instruction>
    decreases e, 0nat,
{
    match e {
        Expr::Int(i) => seq![Instruction::Push(Values::Int(i))],
        Expr::Str(s) => seq![Instruction::Push(Values::String(s))],
        Expr::Bool(b) => seq![Instruction::Push(Values::Bool(b))],
        Expr::Symbol(s) => seq![Instruction::LoadLocal(s)],
        Expr::Ident(s, x) => emitted(*x).push(Instruction::StoreLocal(s)),
        Expr::Return(x) => emitted(*x).push(Instruction::Ret),
        Expr::Call(name, args) => emitted_seq(args@, args@.len()).push(Instruction::Call(name)),
        Expr::Add(l, r) => binary_code(emitted(*l), emitted(*r), Instruction::Add),
        Expr::Subtract(l, r) => binary_code(emitted(*l), emitted(*r), Instruction::Sub),
        Expr::Multiply(l, r) => binary_code(emitted(*l), emitted(*r), Instruction::Mul),
        Expr::Divide(l, r) => binary_code(emitted(*l), emitted(*r), Instruction::Div),
        Expr::Modulus(l, r) => binary_code(emitted(*l), emitted(*r), Instruction::Mod),
        Expr::Equals(l, r) => binary_code(emitted(*l), emitted(*r), Instruction::Equal),
        Expr::LessThan(l, r) => binary_code(emitted(*l), emitted(*r), Instruction::Lt),
        Expr::GreaterThan(l, r) => binary_code(emitted(*l), emitted(*r), Instruction::Gt),
        Expr::And(l, r) => binary_code(emitted(*l), emitted(*r), Instruction::And),
        Expr::If(c, t, f) => if_code(
            emitted(*c),
            emitted_seq(t@, t@.len()),
            emitted_seq(f@, f@.len()),
        ),
        Expr::While(c, b) => while_code(emitted(*c), emitted_seq(b@, b@.len())),
    }
}

/// The code of the first `n` expressions of `es`, one after another.
pub open spec fn emitted_seq(es: Seq<Expr>, n: nat) -> Seq<Instruction>
    decreases es, n,
{
    if n == 0 || n > es.len() {
        seq![]
    } else {
        join(emitted_seq(es, (n - 1) as nat), emitted(es[n - 1]))
    }
}

/// The code of a body: its expressions, one after another.
pub open spec fn emitted_body(es: Seq<Expr>) -> Seq<Instruction> {
    emitted_seq(es, es.len())
}

pub proof fn lemma_join(a: Seq<Instruction>, b: Seq<Instruction>, bound: nat)
    requires
        a.len() + b.len() <= usize::MAX,
        a.len() + b.len() <= bound,
        targets_within(a, bound),
        targets_within(b, b.len()),
    ensures
        join(a, b).len() == a.len() + b.len(),
        targets_within(join(a, b), bound),
{
    let j = join(a, b);
    assert forall|k: int| 0 <= k < j.len() implies (#[trigger] jump_target(j[k]) matches Some(t) ==> t <= bound) by {
        if k >= a.len() {
            assert(j[k] == relocate(b[k - a.len()], a.len() as int));
            assert(jump_target(b[k - a.len()]) matches Some(t) ==> t <= b.len());
        } else {
            assert(j[k] == a[k]);
        }
    }
}

pub proof fn lemma_push(a: Seq<Instruction>, x: Instruction, bound: nat)
    requires
        targets_within(a, bound),
        jump_target(x) matches Some(t) ==> t <= bound,
    ensures
        targets_within(a.push(x), bound),
{
    assert forall|k: int| 0 <= k < a.push(x).len() implies (#[trigger] jump_target(a.push(x)[k]) matches Some(t) ==> t <= bound) by {
        if k < a.len() {
            assert(a.push(x)[k] == a[k]);
        }
    }
}

pub proof fn lemma_widen(a: Seq<Instruction>, bound: nat, wider: nat)
    requires
        targets_within(a, bound),
        bound <= wider,
    ensures
        targets_within(a, wider),
{
}

pub proof fn lemma_if_code(cs: Seq<Instruction>, ts: Seq<Instruction>, fs: Seq<Instruction>)
    requires
        cs.len() + ts.len() + fs.len() + BRANCH_OVERHEAD <= usize::MAX,
        targets_within(cs, cs.len()),
        targets_within(ts, ts.len()),
        targets_within(fs, fs.len()),
    ensures
        if_code(cs, ts, fs).len() == cs.len() + ts.len() + fs.len() + BRANCH_OVERHEAD,
        targets_within(if_code(cs, ts, fs), if_code(cs, ts, fs).len()),
{
    let total = cs.len() + ts.len() + fs.len() + 3;
    let p = seq![Instruction::Push(Values::Bool(true))];
    assert(targets_within(p, total));
    lemma_join(p, cs, total);
    let a = join(p, cs);
    lemma_push(a, Instruction::JumpNotEqual((cs.len() + ts.len() + 3) as usize), total);
    let b = a.push(Instruction::JumpNotEqual((cs.len() + ts.len() + 3) as usize));
    lemma_join(b, ts, total);
    let c = join(b, ts);
    lemma_push(c, Instruction::JumpUnconditional((cs.len() + ts.len() + 3 + fs.len()) as usize), total);
    let d = c.push(Instruction::JumpUnconditional((cs.len() + ts.len() + 3 + fs.len()) as usize));
    lemma_join(d, fs, total);
}

pub proof fn lemma_while_code(cs: Seq<Instruction>, bs: Seq<Instruction>)
    requires
        cs.len() + bs.len() + BRANCH_OVERHEAD <= usize::MAX,
        targets_within(cs, cs.len()),
        targets_within(bs, bs.len()),
    ensures
        while_code(cs, bs).len() == cs.len() + bs.len() + BRANCH_OVERHEAD,
        targets_within(while_code(cs, bs), while_code(cs, bs).len()),
{
    let total = cs.len() + bs.len() + 3;
    let p = seq![Instruction::Push(Values::Bool(true))];
    assert(targets_within(p, total));
    lemma_join(p, cs, total);
    let a = join(p, cs);
    lemma_push(a, Instruction::JumpNotEqual((cs.len() + bs.len() + 3) as usize), total);
    let b = a.push(Instruction::JumpNotEqual((cs.len() + bs.len() + 3) as usize));
    lemma_join(b, bs, total);
    let c = join(b, bs);
    lemma_push(c, Instruction::JumpUnconditional(0), total);
}

pub proof fn lemma_binary_lengths(l: Seq<Instruction>, r: Seq<Instruction>, op: Instruction)
    ensures
        binary_code(l, r, op).len() == l.len() + r.len() + 1,
{
}

pub proof fn lemma_binary_code(l: Seq<Instruction>, r: Seq<Instruction>, op: Instruction)
    requires
        l.len() + r.len() + 1 <= usize::MAX,
        targets_within(l, l.len()),
        targets_within(r, r.len()),
        jump_target(op) is None,
    ensures
        binary_code(l, r, op).len() == l.len() + r.len() + 1,
        targets_within(binary_code(l, r, op), binary_code(l, r, op).len()),
{
    lemma_join(l, r, l.len() + r.len() + 1);
    lemma_push(join(l, r), op, l.len() + r.len() + 1);
}

/// Emitted code jumps only within itself or to the index just past its end.
pub proof fn lemma_emitted_targets(e: Expr)
    requires
        emitted(e).len() <= usize::MAX,
    ensures
        targets_within(emitted(e), emitted(e).len()),
    decreases e, 0nat,
{
    match e {
        Expr::Int(_) | Expr::Str(_) | Expr::Bool(_) | Expr::Symbol(_) => {},
        Expr::Ident(_, x) | Expr::Return(x) => {
            lemma_emitted_targets(*x);
            let c = emitted(*x);
            lemma_widen(c, c.len(), c.len() + 1);
            lemma_push(c, emitted(e).last(), c.len() + 1);
            assert(emitted(e) == c.push(emitted(e).last()));
        },
        Expr::Call(_, args) => {
            lemma_emitted_seq_targets(args@, args@.len());
            let c = emitted_seq(args@, args@.len());
            lemma_widen(c, c.len(), c.len() + 1);
            lemma_push(c, emitted(e).last(), c.len() + 1);
            assert(emitted(e) == c.push(emitted(e).last()));
        },
        Expr::Add(l, r) | Expr::Subtract(l, r) | Expr::Multiply(l, r) | Expr::Divide(l, r)
        | Expr::Modulus(l, r) | Expr::Equals(l, r) | Expr::LessThan(l, r)
        | Expr::GreaterThan(l, r) | Expr::And(l, r) => {
            lemma_emitted_targets(*l);
            lemma_emitted_targets(*r);
            lemma_binary_code(emitted(*l), emitted(*r), emitted(e).last());
        },
        Expr::If(c, t, f) => {
            lemma_emitted_targets(*c);
            lemma_emitted_seq_targets(t@, t@.len());
            lemma_emitted_seq_targets(f@, f@.len());
            lemma_if_code(emitted(*c), emitted_seq(t@, t@.len()), emitted_seq(f@, f@.len()));
        },
        Expr::While(c, b) => {
            lemma_emitted_targets(*c);
            lemma_emitted_seq_targets(b@, b@.len());
            lemma_while_code(emitted(*c), emitted_seq(b@, b@.len()));
        },
    }
}

pub proof fn lemma_emitted_seq_targets(es: Seq<Expr>, n: nat)
    requires
        emitted_seq(es, n).len() <= usize::MAX,
    ensures
        targets_within(emitted_seq(es, n), emitted_seq(es, n).len()),
    decreases es, n,
{
    if n == 0 || n > es.len() {
    } else {
        lemma_emitted_seq_targets(es, (n - 1) as nat);
        lemma_emitted_targets(es[n - 1]);
        lemma_join(emitted_seq(es, (n - 1) as nat), emitted(es[n - 1]), emitted_seq(es, n).len());
    }
}

pub proof fn lemma_emitted_seq_grows(es: Seq<Expr>, i: nat, n: nat)
    requires
        i <= n <= es.len(),
    ensures
        emitted_seq(es, i).len() <= emitted_seq(es, n).len(),
        n > 0 ==> emitted_seq(es, n).len() == emitted_seq(es, (n - 1) as nat).len() + emitted(es[n - 1]).len(),
    decreases n,
{
    if n > 0 {
        if i < n {
            lemma_emitted_seq_grows(es, i, (n - 1) as nat);
        }
    }
}

fn copy_instruction(i: &Instruction) -> (r: Instruction)
    ensures
        r == *i,
{
    match i {
        Instruction::Nop => Instruction::Nop,
        Instruction::StoreLocal(s) => Instruction::StoreLocal(s.clone()),
        Instruction::LoadLocal(s) => Instruction::LoadLocal(s.clone()),
        Instruction::Push(v) => Instruction::Push(v.copy_value()),
        Instruction::Add => Instruction::Add,
        Instruction::Sub => Instruction::Sub,
        Instruction::Mul => Instruction::Mul,
        Instruction::Div => Instruction::Div,
        Instruction::Mod => Instruction::Mod,
        Instruction::Equal => Instruction::Equal,
        Instruction::NotEqual => Instruction::NotEqual,
        Instruction::Gt => Instruction::Gt,
        Instruction::Gte => Instruction::Gte,
        Instruction::Lt => Instruction::Lt,
        Instruction::Lte => Instruction::Lte,
        Instruction::And => Instruction::And,
        Instruction::Or => Instruction::Or,
        Instruction::Ret => Instruction::Ret,
        Instruction::JumpEqual(t) => Instruction::JumpEqual(*t),
        Instruction::JumpNotEqual(t) => Instruction::JumpNotEqual(*t),
        Instruction::JumpUnconditional(t) => Instruction::JumpUnconditional(*t),
        Instruction::Call(s) => Instruction::Call(s.clone()),
    }
}

/// Appends `instructions_to_add` to `instructions`, adding the current length
/// of `instructions` to each jump target of the appended code.
pub fn append(instructions: &mut Vec<Instruction>, instructions_to_add: &Vec<Instruction>)
    requires
        old(instructions)@.len() + instructions_to_add@.len() <= usize::MAX,
        targets_within(instructions_to_add@, instructions_to_add@.len()),
    ensures
        final(instructions)@ == join(old(instructions)@, instructions_to_add@),
{
    let base_offset = instructions.len();
    let ghost add = instructions_to_add@;
    let mut i: usize = 0;
    while i < instructions_to_add.len()
        invariant
            base_offset == old(instructions)@.len(),
            base_offset + add.len() <= usize::MAX,
            add == instructions_to_add@,
            targets_within(add, add.len()),
            i <= add.len(),
            instructions@ == old(instructions)@ + relocated(add.subrange(0, i as int), base_offset as int),
        decreases add.len() - i,
    {
        let ghost before = instructions@;
        assert(jump_target(add[i as int]) matches Some(t) ==> t <= add.len());
        let new_instruction = match &instructions_to_add[i] {
            Instruction::JumpEqual(offset) => Instruction::JumpEqual(base_offset + *offset),
            Instruction::JumpNotEqual(offset) => Instruction::JumpNotEqual(base_offset + *offset),
            Instruction::JumpUnconditional(offset) => Instruction::JumpUnconditional(base_offset + *offset),
            other => copy_instruction(other),
        };
        instructions.push(new_instruction);
        assert(relocated(add.subrange(0, i + 1), base_offset as int) =~= relocated(
            add.subrange(0, i as int),
            base_offset as int,
        ).push(relocate(add[i as int], base_offset as int)));
        i = i + 1;
    }
    assert(add.subrange(0, i as int) =~= add);
}

/// The code of `expr`, with its jumps relative to its own start.
pub fn emit(expr: &Expr) -> (r: Vec<Instruction>)
    requires
        emitted(*expr).len() <= usize::MAX,
    ensures
        r@ == emitted(*expr),
    decreases expr, 1nat,
{
    match expr {
        Expr::Int(i) => vec![Instruction::Push(Values::Int(*i))],
        Expr::Str(s) => vec![Instruction::Push(Values::String(s.clone()))],
        Expr::Bool(b) => vec![Instruction::Push(Values::Bool(*b))],
        Expr::Symbol(s) => vec![Instruction::LoadLocal(s.clone())],
        Expr::Ident(s, x) => {
            let mut instructions = emit(x);
            instructions.push(Instruction::StoreLocal(s.clone()));
            instructions
        },
        Expr::Return(x) => {
            let mut instructions = emit(x);
            instructions.push(Instruction::Ret);
            instructions
        },
        Expr::Call(function_name, args) => {
            let mut instructions = emit_body(args);
            instructions.push(Instruction::Call(function_name.clone()));
            instructions
        },
        Expr::Add(..) | Expr::Subtract(..) | Expr::Multiply(..) | Expr::Divide(..)
        | Expr::Modulus(..) | Expr::Equals(..) | Expr::LessThan(..) | Expr::GreaterThan(..)
        | Expr::And(..) => emit_binary(expr),
        Expr::If(cond, body, else_) => {
            let ghost cs = emitted(**cond);
            let ghost ts = emitted_body(body@);
            let ghost fs = emitted_body(else_@);
            proof {
                lemma_emitted_targets(**cond);
                lemma_emitted_seq_targets(body@, body@.len());
                lemma_emitted_seq_targets(else_@, else_@.len());
                lemma_if_code(cs, ts, fs);
            }
            let body = emit_body(body);
            let else_ = emit_body(else_);
            let mut instructions = vec![Instruction::Push(Values::Bool(true))];
            let cond = emit(cond);
            append(&mut instructions, &cond);
            let else_start = cond.len() + body.len() + BRANCH_OVERHEAD;
            instructions.push(Instruction::JumpNotEqual(else_start));
            append(&mut instructions, &body);
            instructions.push(Instruction::JumpUnconditional(else_start + else_.len()));
            append(&mut instructions, &else_);
            instructions
        },
        Expr::While(cond, body) => {
            let ghost cs = emitted(**cond);
            let ghost bs = emitted_body(body@);
            proof {
                lemma_emitted_targets(**cond);
                lemma_emitted_seq_targets(body@, body@.len());
                lemma_while_code(cs, bs);
            }
            let body = emit_body(body);
            let mut instructions = vec![Instruction::Push(Values::Bool(true))];
            let cond = emit(cond);
            append(&mut instructions, &cond);
            instructions.push(Instruction::JumpNotEqual(cond.len() + body.len() + BRANCH_OVERHEAD));
            append(&mut instructions, &body);
            instructions.push(Instruction::JumpUnconditional(0));
            instructions
        },
    }
}

/// Whether `e` is a two-operand expression.
pub open spec fn is_binary_expr(e: Expr) -> bool {
    match e {
        Expr::Add(..) | Expr::Subtract(..) | Expr::Multiply(..) | Expr::Divide(..)
        | Expr::Modulus(..) | Expr::Equals(..) | Expr::LessThan(..) | Expr::GreaterThan(..)
        | Expr::And(..) => true,
        _ => false,
    }
}

fn emit_binary(expr: &Expr) -> (out: Vec<Instruction>)
    requires
        is_binary_expr(*expr),
        emitted(*expr).len() <= usize::MAX,
    ensures
        out@ == emitted(*expr),
    decreases expr, 0nat,
{
    let (l, r, op) = match expr {
        Expr::Add(l, r) => (l, r, Instruction::Add),
        Expr::Subtract(l, r) => (l, r, Instruction::Sub),
        Expr::Multiply(l, r) => (l, r, Instruction::Mul),
        Expr::Divide(l, r) => (l, r, Instruction::Div),
        Expr::Modulus(l, r) => (l, r, Instruction::Mod),
        Expr::Equals(l, r) => (l, r, Instruction::Equal),
        Expr::LessThan(l, r) => (l, r, Instruction::Lt),
        Expr::GreaterThan(l, r) => (l, r, Instruction::Gt),
        Expr::And(l, r) => (l, r, Instruction::And),
        _ => {
            return Vec::new();
        },
    };
    proof {
        lemma_binary_lengths(emitted(**l), emitted(**r), op);
        lemma_emitted_targets(**l);
        lemma_emitted_targets(**r);
        lemma_binary_code(emitted(**l), emitted(**r), op);
    }
    let mut instructions = emit(l);
    let rhs = emit(r);
    append(&mut instructions, &rhs);
    instructions.push(op);
    instructions
}

/// The code of a body: its expressions one after another, each relocated to
/// its place.
pub fn emit_body(exprs: &Vec<Expr>) -> (r: Vec<Instruction>)
    requires
        emitted_body(exprs@).len() <= usize::MAX,
    ensures
        r@ == emitted_body(exprs@),
    decreases exprs, 1nat,
{
    let mut instructions: Vec<Instruction> = Vec::new();
    let mut i: usize = 0;
    while i < exprs.len()
        invariant
            i <= exprs@.len(),
            emitted_body(exprs@).len() <= usize::MAX,
            instructions@ == emitted_seq(exprs@, i as nat),
        decreases exprs@.len() - i,
    {
        proof {
            lemma_emitted_seq_grows(exprs@, (i + 1) as nat, exprs@.len());
            lemma_emitted_seq_grows(exprs@, i as nat, (i + 1) as nat);
            lemma_emitted_targets(exprs@[i as int]);
        }
        let instructions_to_add = emit(&exprs[i]);
        append(&mut instructions, &instructions_to_add);
        i = i + 1;
    }
    instructions
}

/// Emitting is a function of the tree alone: two emissions of equal trees
/// give the same instructions, with the same jump targets.
pub proof fn lemma_emission_idempotent(e1: Expr, e2: Expr, first: Seq<Instruction>, second: Seq<Instruction>)
    requires
        e1 == e2,
        first == emitted(e1),
        second == emitted(e2),
    ensures
        first == second,
{
}

/// `g` is what emission makes of `f`.
pub open spec fn emitted_function(f: ast::Function, g: Function) -> bool {
    g.parameters@ == f.params@ && g.instructions@ == emitted_body(f.body@)
}

/// No two functions of `fs` share a name.
pub open spec fn function_names_unique(fs: Seq<ast::Function>) -> bool {
    forall|i: int, j: int| 0 <= i < j < fs.len() ==> (#[trigger] fs[i]).name@ != (#[trigger] fs[j]).name@
}

/// Whether `fs` holds a function named `main`.
pub open spec fn has_main(fs: Seq<ast::Function>) -> bool {
    exists|i: int| 0 <= i < fs.len() && (#[trigger] fs[i]).name@ == "main"@
}

/// Why a module could not be emitted.
#[derive(Debug, Clone, Copy, PartialEq, Eq, Structural)]
pub enum EmitError {
    /// No function is named `main`, the entry point.
    MissingMain,
}

fn copy_names(names: &Vec<String>) -> (r: Vec<String>)
    ensures
        r@ == names@,
{
    let mut r: Vec<String> = Vec::new();
    let mut i: usize = 0;
    while i < names.len()
        invariant
            i <= names@.len(),
            r@ == names@.subrange(0, i as int),
        decreases names@.len() - i,
    {
        r.push(names[i].clone());
        assert(r@ =~= names@.subrange(0, i + 1));
        i = i + 1;
    }
    assert(names@.subrange(0, i as int) =~= names@);
    r
}

/// The executable function of `function`: its parameters and its emitted body.
pub fn emit_function(function: &ast::Function) -> (r: Function)
    requires
        emitted_body(function.body@).len() <= usize::MAX,
    ensures
        emitted_function(*function, r),
{
    let body = emit_body(&function.body);
    Function::new(copy_names(&function.params), body)
}

/// Emits every function of `module`, each on its own: jump targets are local
/// to their function. The functions come last-defined first, so that a later
/// definition of a name shadows an earlier one. A module without a function
/// named `main` is refused. Unique names in the source give unique names in
/// the result.
pub fn emit_module(module: &ast::Module) -> (r: Result<Module, EmitError>)
    requires
        forall|i: int| 0 <= i < module.functions@.len() ==> (#[trigger] emitted_body(module.functions@[i].body@)).len() <= usize::MAX,
    ensures
        r is Err <==> !has_main(module.functions@),
        r matches Ok(m) ==> (function_names_unique(module.functions@) ==> names_unique(m.functions@)),
        r matches Ok(m) ==> {
            let fs = module.functions@;
            &&& m.functions@.len() == fs.len()
            &&& forall|k: int| 0 <= k < fs.len() ==> {
                &&& (#[trigger] m.functions@[k]).0@ == fs[fs.len() - 1 - k].name@
                &&& emitted_function(fs[fs.len() - 1 - k], m.functions@[k].1)
            }
        },
{
    let ghost fs = module.functions@;
    let n = module.functions.len();
    let main_name = String::from_str("main");
    let mut found = false;
    let mut functions: Vec<(String, Function)> = Vec::new();
    let mut i: usize = n;
    while i > 0
        invariant
            n == fs.len(),
            fs == module.functions@,
            i <= n,
            main_name@ == "main"@,
            forall|j: int| 0 <= j < n ==> (#[trigger] emitted_body(fs[j].body@)).len() <= usize::MAX,
            found <==> exists|j: int| i <= j < n && (#[trigger] fs[j]).name@ == "main"@,
            functions@.len() == n - i,
            forall|k: int| 0 <= k < n - i ==> {
                &&& (#[trigger] functions@[k]).0@ == fs[n - 1 - k].name@
                &&& emitted_function(fs[n - 1 - k], functions@[k].1)
            },
        decreases i,
    {
        let f = &module.functions[i - 1];
        if f.name == main_name {
            found = true;
        }
        let g = emit_function(f);
        functions.push((f.name.clone(), g));
        i = i - 1;
    }
    proof {
        if function_names_unique(fs) {
            assert forall|a: int, b: int| 0 <= a < b < functions@.len() implies (#[trigger] functions@[a]).0@
                != (#[trigger] functions@[b]).0@ by {
                assert(functions@[a].0@ == fs[n - 1 - a].name@);
                assert(functions@[b].0@ == fs[n - 1 - b].name@);
                assert(fs[n - 1 - b].name@ != fs[n - 1 - a].name@);
            }
        }
    }
    if found {
        Ok(Module::new(functions))
    } else {
        Err(EmitError::MissingMain)
    }
}

} // verus!


