//! The parsed source tree the resolver consumes. The parser that produces
//! it is an external collaborator; this is only its output contract.

use vstd::prelude::*;

use crate::error::Location;
use crate::hir::{AsmStatement, BinaryOperator, UnaryOperator};

verus! {

/// A source type annotation.
#[derive(Copy, Clone, Eq, PartialEq, Structural, Debug)]
pub enum AstType {
    I32,
    I64,
    F32,
    F64,
    Bool,
}

/// A literal of the source language. A float literal carries the IEEE bit
/// patterns of both machine widths, as the scanner computed them.
pub enum AstValue {
    Integer { val: u64 },
    Float { bits32: u32, bits64: u64 },
    Boolean { val: bool },
    Str { value: String },
}

/// A source expression.
pub enum Expression {
    Literal { value: AstValue, loc: Location },
    Variable { ident: String, loc: Location },
    Binary {
        expr_left: Box<Expression>,
        binop: BinaryOperator,
        expr_right: Box<Expression>,
        loc: Location,
    },
    Unary { unop: UnaryOperator, expr: Box<Expression>, loc: Location },
    CallDirect { ident: String, args: Vec<Expression>, loc: Location },
    CallIndirect { loc: Location },
}

/// A source statement.
pub enum Statement {
    LetStmt { ident: String, t: Option<AstType>, expr: Expression, loc: Location },
    AssignStmt { ident: String, expr: Expression, loc: Location },
    ExprStmt { expr: Expression },
    ReturnStmt { expr: Option<Expression>, loc: Location },
    IfStmt { expr: Expression, block: Block, else_block: Option<Block>, loc: Location },
    WhileStmt { expr: Expression, block: Block, loc: Location },
}

/// A block of source statements.
pub struct Block {
    pub stmts: Vec<Statement>,
}

/// A parameter declaration: its name and its declared type.
pub struct Parameter {
    pub ident: String,
    pub t: AstType,
    pub loc: Location,
}

/// A source function body: Zephyr code or inline assembly.
pub enum Body {
    Zephyr(Block),
    Asm(Vec<AsmStatement>),
}

/// A source function.
pub struct Function {
    pub ident: String,
    pub params: Vec<Parameter>,
    pub result: Option<AstType>,
    pub body: Body,
    pub is_pub: bool,
    pub exposed: Option<String>,
    pub loc: Location,
}

/// A parsed program: its functions, in source order.
pub struct Program {
    pub funs: Vec<Function>,
}

} // verus!
