//! The name-resolved, typed tree that sits between the resolver and the
//! lowering pass, together with the program types handed between passes.

use vstd::prelude::*;

use crate::error::Location;
use crate::mir::Value as MirValue;
use crate::store::{FunId, NameId, Store, TypeVarId};
use crate::types::{ConstraintStore, Type, TypeStore, TypeVarStore};

verus! {

/// A bound name: its spelling, where it was bound, and its type variable.
pub struct Name {
    pub ident: String,
    pub loc: Location,
    pub t_id: TypeVarId,
}

/// The store of bound names of a module.
pub type NameStore = Store<NameId, Name>;

/// A resolved occurrence of a name.
#[derive(Copy, Clone)]
pub struct Variable {
    pub n_id: NameId,
    pub t_id: TypeVarId,
    pub loc: Location,
}

/// A literal value, tagged with its type variable. A float literal carries
/// the IEEE bit patterns of both machine widths; inference picks one.
#[derive(Copy, Clone)]
pub enum Value {
    Integer { val: u64, t_id: TypeVarId, loc: Location },
    Float { bits32: u32, bits64: u64, t_id: TypeVarId, loc: Location },
    Boolean { val: bool, t_id: TypeVarId, loc: Location },
}

/// A binary operator of the source language.
#[derive(Copy, Clone, Eq, PartialEq, Structural)]
pub enum BinaryOperator {
    Plus,
    Minus,
    Multiply,
    Divide,
    Remainder,
    Equal,
    NotEqual,
    Less,
    Greater,
    LessEqual,
    GreaterEqual,
    And,
    Or,
}

/// A unary operator of the source language.
#[derive(Copy, Clone, Eq, PartialEq, Structural)]
pub enum UnaryOperator {
    Minus,
    Not,
}

/// A typed expression.
pub enum Expression {
    Literal { value: Value },
    Variable { var: Variable },
    Function { fun_id: FunId, loc: Location },
    Binary {
        expr_left: Box<Expression>,
        binop: BinaryOperator,
        expr_right: Box<Expression>,
        t_id: TypeVarId,
        op_t_id: TypeVarId,
        loc: Location,
    },
    Unary { unop: UnaryOperator, expr: Box<Expression>, t_id: TypeVarId, loc: Location },
    CallDirect { fun_id: FunId, args: Vec<Expression>, t_id: TypeVarId, loc: Location },
    CallIndirect { t_id: TypeVarId, loc: Location },
}

/// A typed statement.
pub enum Statement {
    AssignStmt { var: Variable, expr: Expression },
    LetStmt { var: Variable, expr: Expression },
    ExprStmt { expr: Expression },
    ReturnStmt { expr: Option<Expression>, loc: Location },
    WhileStmt { expr: Expression, block: Block },
    IfStmt { expr: Expression, block: Block, else_block: Option<Block> },
}

/// A block of typed statements.
pub struct Block {
    pub stmts: Vec<Statement>,
}

/// A control statement of an inline assembly body.
#[derive(Copy, Clone, Eq, PartialEq, Structural)]
pub enum AsmControl {
    Return,
}

/// A parametric statement of an inline assembly body.
#[derive(Copy, Clone, Eq, PartialEq, Structural)]
pub enum AsmParametric {
    Drop,
}

/// One statement of an inline assembly body.
#[derive(Copy, Clone)]
pub enum AsmStatement {
    Const { val: MirValue, loc: Location },
    Control { cntrl: AsmControl, loc: Location },
    Parametric { param: AsmParametric, loc: Location },
}

/// A function body: Zephyr code or inline assembly.
pub enum Body {
    Zephyr(Block),
    Asm(Vec<AsmStatement>),
}

/// A resolved function.
pub struct Function {
    pub ident: String,
    pub params: Vec<Variable>,
    pub locals: Vec<NameId>,
    pub body: Body,
    pub is_pub: bool,
    pub exposed: Option<String>,
    pub loc: Location,
    pub n_id: NameId,
    pub fun_id: FunId,
}

/// What a module exports under one symbol: the kind of entity, its
/// visibility, its resolved signature and the id the producing module gave
/// it.
pub enum DeclKind {
    Function,
    Type,
}

/// A declaration visible to other modules.
pub struct Declaration {
    pub kind: DeclKind,
    pub is_pub: bool,
    pub t: Type,
    pub fun_id: FunId,
}

/// What the name resolver hands to the type checker.
pub struct ResolvedProgram {
    pub funs: Vec<Function>,
    pub names: NameStore,
    pub types: TypeVarStore,
    pub constraints: ConstraintStore,
}

/// What the type checker hands to the asm validator and the lowering pass.
pub struct TypedProgram {
    pub funs: Vec<Function>,
    pub names: NameStore,
    pub types: TypeStore,
    pub pub_decls: Vec<(String, Declaration)>,
}

} // verus!
