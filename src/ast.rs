use vstd::prelude::*;

verus! {

/// An expression of the language. Each node owns its sub-expressions.
#[derive(Debug, PartialEq, Eq, Hash)]
pub enum Expr {
    Int(i32),
    Str(String),
    Bool(bool),
    Symbol(String),
    Ident(String, Box<Expr>),
    Call(String, Vec<Expr>),
    Return(Box<Expr>),
    Add(Box<Expr>, Box<Expr>),
    Subtract(Box<Expr>, Box<Expr>),
    Multiply(Box<Expr>, Box<Expr>),
    Divide(Box<Expr>, Box<Expr>),
    Modulus(Box<Expr>, Box<Expr>),
    If(Box<Expr>, Vec<Expr>, Vec<Expr>),
    Equals(Box<Expr>, Box<Expr>),
    LessThan(Box<Expr>, Box<Expr>),
    GreaterThan(Box<Expr>, Box<Expr>),
    While(Box<Expr>, Vec<Expr>),
    And(Box<Expr>, Box<Expr>),
}

/// The mathematical value of an expression.
pub enum ExprV {
    Int(i32),
    Str(Seq<char>),
    Bool(bool),
    Symbol(Seq<char>),
    Ident(Seq<char>, Box<ExprV>),
    Call(Seq<char>, Seq<ExprV>),
    Return(Box<ExprV>),
    Add(Box<ExprV>, Box<ExprV>),
    Subtract(Box<ExprV>, Box<ExprV>),
    Multiply(Box<ExprV>, Box<ExprV>),
    Divide(Box<ExprV>, Box<ExprV>),
    Modulus(Box<ExprV>, Box<ExprV>),
    If(Box<ExprV>, Seq<ExprV>, Seq<ExprV>),
    Equals(Box<ExprV>, Box<ExprV>),
    LessThan(Box<ExprV>, Box<ExprV>),
    GreaterThan(Box<ExprV>, Box<ExprV>),
    While(Box<ExprV>, Seq<ExprV>),
    And(Box<ExprV>, Box<ExprV>),
}

impl Expr {
    /// The mathematical value of this expression.
    pub open spec fn model(&self) -> ExprV
        decreases self,
    {
        match self {
            Expr::Int(i) => ExprV::Int(*i),
            Expr::Str(s) => ExprV::Str(s@),
            Expr::Bool(b) => ExprV::Bool(*b),
            Expr::Symbol(s) => ExprV::Symbol(s@),
            Expr::Ident(s, x) => ExprV::Ident(s@, Box::new(x.model())),
            Expr::Call(s, xs) => ExprV::Call(s@, models(xs@)),
            Expr::Return(x) => ExprV::Return(Box::new(x.model())),
            Expr::Add(a, b) => ExprV::Add(Box::new(a.model()), Box::new(b.model())),
            Expr::Subtract(a, b) => ExprV::Subtract(Box::new(a.model()), Box::new(b.model())),
            Expr::Multiply(a, b) => ExprV::Multiply(Box::new(a.model()), Box::new(b.model())),
            Expr::Divide(a, b) => ExprV::Divide(Box::new(a.model()), Box::new(b.model())),
            Expr::Modulus(a, b) => ExprV::Modulus(Box::new(a.model()), Box::new(b.model())),
            Expr::If(c, t, f) => ExprV::If(Box::new(c.model()), models(t@), models(f@)),
            Expr::Equals(a, b) => ExprV::Equals(Box::new(a.model()), Box::new(b.model())),
            Expr::LessThan(a, b) => ExprV::LessThan(Box::new(a.model()), Box::new(b.model())),
            Expr::GreaterThan(a, b) => ExprV::GreaterThan(Box::new(a.model()), Box::new(b.model())),
            Expr::While(c, xs) => ExprV::While(Box::new(c.model()), models(xs@)),
            Expr::And(a, b) => ExprV::And(Box::new(a.model()), Box::new(b.model())),
        }
    }
}

/// The values of a sequence of expressions.
pub open spec fn models(xs: Seq<Expr>) -> Seq<ExprV>
    decreases xs,
{
    Seq::new(
        xs.len(),
        |i: int|
            if 0 <= i < xs.len() {
                xs[i].model()
            } else {
                ExprV::Bool(false)
            },
    )
}

/// A function of the language: its name, parameter names and body.
#[derive(Debug)]
pub struct Function {
    pub name: String,
    pub params: Vec<String>,
    pub body: Vec<Expr>,
}

/// The functions of one source text.
#[derive(Debug)]
pub struct Module {
    pub functions: Vec<Function>,
}

} // verus!
