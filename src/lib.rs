//! A small language toolchain: a parser-combinator engine, a grammar built on
//! it, a bytecode emitter with jump relocation, and a stack virtual machine.

pub mod ast;
pub mod lang_parser;
pub mod parser;
pub mod vm;
pub mod vm_emit;

pub use ast::Expr;
pub use lang_parser::{body, parse_module};
pub use parser::{
    Action, Combinator, ForwardParser, Grammar, Parsed, Parser, and_then, any_of, choice, forward,
    pchar, pstring,
};
pub use vm::{EvalError, Function, Instruction, Module, Program, Types, Values};
pub use vm_emit::{EmitError, emit, emit_body, emit_function, emit_module};
