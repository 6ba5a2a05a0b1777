//! The stack-machine intermediate representation the compiler emits:
//! functions whose bodies are nested labeled blocks of straight-line
//! statements, with branches that target enclosing block ids.

use vstd::prelude::*;

use crate::hir::Declaration;
use crate::store::{FunId, NameId};

verus! {

broadcast use vstd::std_specs::vec::axiom_vec_index_decreases,
    vstd::std_specs::vec::axiom_vec_decreases_to_view, vstd::seq::axiom_seq_index_decreases,
    vstd::seq::axiom_seq_subrange_decreases;

/// A local slot of a function; the name ids of the resolver serve as local
/// ids.
pub type LocalId = NameId;

/// The label of a block, loop or if: the target space of branches.
pub type BasicBlockId = u64;

/// A machine type of the stack machine.
#[derive(Copy, Clone, Debug, Eq, PartialEq, Structural)]
pub enum Type {
    I32,
    I64,
    F32,
    F64,
}

/// A constant of one of the four machine types. The float constants carry
/// their IEEE 754 bit patterns, so that no floating-point arithmetic is
/// involved in carrying them around.
#[derive(Copy, Clone, Debug, Eq, PartialEq, Structural)]
pub enum Value {
    I32(i32),
    I64(i64),
    F32(u32),
    F64(u64),
}

/// A unary operator.
#[derive(Copy, Clone, Debug, Eq, PartialEq, Structural)]
pub enum Unop {
    I32Neg,
    I64Neg,
    F32Neg,
    F64Neg,
}

/// A binary operator.
#[derive(Copy, Clone, Debug, Eq, PartialEq, Structural)]
pub enum Binop {
    I32Xor,
    I32Add,
    I32Sub,
    I32Mul,
    I32Div,
    I32Rem,
    I64Add,
    I64Sub,
    I64Mul,
    I64Div,
    I64Rem,
    F32Add,
    F32Sub,
    F32Mul,
    F32Div,
    F64Add,
    F64Sub,
    F64Mul,
    F64Div,
}

/// A comparison operator.
#[derive(Copy, Clone, Debug, Eq, PartialEq, Structural)]
pub enum Relop {
    I32Eq,
    I32Ne,
    I32Lt,
    I32Gt,
    I32Le,
    I32Ge,
    I64Eq,
    I64Ne,
    I64Lt,
    I64Gt,
    I64Le,
    I64Ge,
    F32Eq,
    F32Ne,
    F32Lt,
    F32Gt,
    F32Le,
    F32Ge,
    F64Eq,
    F64Ne,
    F64Lt,
    F64Gt,
    F64Le,
    F64Ge,
}

/// A parametric instruction.
#[derive(Copy, Clone, Debug, Eq, PartialEq, Structural)]
pub enum Parametric {
    Drop,
}

/// A control instruction: return, or a jump to an enclosing block id.
#[derive(Copy, Clone, Debug, Eq, PartialEq, Structural)]
pub enum Control {
    Return,
    Br(BasicBlockId),
    BrIf(BasicBlockId),
}

/// A call instruction.
#[derive(Copy, Clone, Debug, Eq, PartialEq, Structural)]
pub enum Call {
    Direct(FunId),
}

/// A structured block: a plain labeled block, a loop, or an if-else. The id
/// labels the block as a branch target; `t` is the block's result type, if
/// it leaves a value on the stack.
pub enum Block {
    Block { id: BasicBlockId, stmts: Vec<Statement>, t: Option<Type> },
    Loop { id: BasicBlockId, stmts: Vec<Statement>, t: Option<Type> },
    If { id: BasicBlockId, then_stmts: Vec<Statement>, else_stmts: Vec<Statement>, t: Option<Type> },
}

/// One statement of a block body.
pub enum Statement {
    SetLocal { l_id: LocalId },
    GetLocal { l_id: LocalId },
    Const { val: Value },
    Block { block: Box<Block> },
    Unop { unop: Unop },
    Binop { binop: Binop },
    Relop { relop: Relop },
    Call { call: Call },
    Parametric { param: Parametric },
    Control { cntrl: Control },
}

/// A local declaration: its id and its machine type.
#[derive(Copy, Clone, Debug, Eq, PartialEq, Structural)]
pub struct Local {
    pub id: LocalId,
    pub t: Type,
}

/// The mathematical value of a `Block`.
#[verifier::ext_equal]
pub enum BlockV {
    Block { id: BasicBlockId, stmts: Seq<StmtV>, t: Option<Type> },
    Loop { id: BasicBlockId, stmts: Seq<StmtV>, t: Option<Type> },
    If { id: BasicBlockId, then_stmts: Seq<StmtV>, else_stmts: Seq<StmtV>, t: Option<Type> },
}

/// The mathematical value of a `Statement`.
#[verifier::ext_equal]
pub enum StmtV {
    SetLocal { l_id: LocalId },
    GetLocal { l_id: LocalId },
    Const { val: Value },
    Block { block: BlockV },
    Unop { unop: Unop },
    Binop { binop: Binop },
    Relop { relop: Relop },
    Call { call: Call },
    Parametric { param: Parametric },
    Control { cntrl: Control },
}

/// The views of a list of statements, element by element.
pub open spec fn stmt_views(s: Seq<Statement>) -> Seq<StmtV>
    decreases s,
{
    if s.len() == 0 {
        Seq::empty()
    } else {
        stmt_views(s.drop_last()).push(s.last()@)
    }
}

/// `stmt_views` takes each statement to its view, in place.
pub proof fn lemma_stmt_views(s: Seq<Statement>)
    ensures
        stmt_views(s).len() == s.len(),
        forall|i: int| 0 <= i < s.len() ==> stmt_views(s)[i] == (#[trigger] s[i])@,
    decreases s,
{
    if s.len() > 0 {
        lemma_stmt_views(s.drop_last());
        assert(stmt_views(s) == stmt_views(s.drop_last()).push(s.last()@));
        assert forall|i: int| 0 <= i < s.len()
            implies stmt_views(s)[i] == (#[trigger] s[i])@ by {
            if i < s.len() - 1 {
                assert(s.drop_last()[i] == s[i]);
            } else {
                assert(s[i] == s.last());
            }
        }
    }
}

impl View for Block {
    type V = BlockV;

    open spec fn view(&self) -> BlockV
        decreases self,
    {
        match self {
            Block::Block { id, stmts, t } => BlockV::Block {
                id: *id,
                stmts: stmt_views(stmts@),
                t: *t,
            },
            Block::Loop { id, stmts, t } => BlockV::Loop {
                id: *id,
                stmts: stmt_views(stmts@),
                t: *t,
            },
            Block::If { id, then_stmts, else_stmts, t } => BlockV::If {
                id: *id,
                then_stmts: stmt_views(then_stmts@),
                else_stmts: stmt_views(else_stmts@),
                t: *t,
            },
        }
    }
}

impl View for Statement {
    type V = StmtV;

    open spec fn view(&self) -> StmtV
        decreases self,
    {
        match self {
            Statement::SetLocal { l_id } => StmtV::SetLocal { l_id: *l_id },
            Statement::GetLocal { l_id } => StmtV::GetLocal { l_id: *l_id },
            Statement::Const { val } => StmtV::Const { val: *val },
            Statement::Block { block } => StmtV::Block { block: (**block)@ },
            Statement::Unop { unop } => StmtV::Unop { unop: *unop },
            Statement::Binop { binop } => StmtV::Binop { binop: *binop },
            Statement::Relop { relop } => StmtV::Relop { relop: *relop },
            Statement::Call { call } => StmtV::Call { call: *call },
            Statement::Parametric { param } => StmtV::Parametric { param: *param },
            Statement::Control { cntrl } => StmtV::Control { cntrl: *cntrl },
        }
    }
}

/// A function of the emitted program: its id, its source identifier, its
/// parameters as local ids, its signature, its local declarations, and its
/// body as one top-level block.
pub struct Function {
    pub ident: String,
    pub params: Vec<LocalId>,
    pub param_types: Vec<Type>,
    pub ret_types: Vec<Type>,
    pub locals: Vec<Local>,
    pub body: Block,
    pub is_pub: bool,
    pub exposed: Option<String>,
    pub fun_id: FunId,
}

/// The emitted program: its functions, and the declarations it surfaces to
/// downstream modules keyed by source identifier.
pub struct Program {
    pub funs: Vec<Function>,
    pub pub_decls: Vec<(String, Declaration)>,
}

/// The mathematical value of a `Function`.
#[verifier::ext_equal]
pub struct FunctionV {
    pub ident: Seq<char>,
    pub params: Seq<LocalId>,
    pub param_types: Seq<Type>,
    pub ret_types: Seq<Type>,
    pub locals: Seq<Local>,
    pub body: BlockV,
    pub is_pub: bool,
    pub exposed: Option<Seq<char>>,
    pub fun_id: FunId,
}

impl View for Function {
    type V = FunctionV;

    open spec fn view(&self) -> FunctionV {
        FunctionV {
            ident: self.ident@,
            params: self.params@,
            param_types: self.param_types@,
            ret_types: self.ret_types@,
            locals: self.locals@,
            body: self.body@,
            is_pub: self.is_pub,
            exposed: match self.exposed {
                Some(ref s) => Some(s@),
                None => None,
            },
            fun_id: self.fun_id,
        }
    }
}

} // verus!
