//! Lowering of the typed tree into the stack-machine representation.
//!
//! Expressions are lowered by pushing their values on a virtual stack, left
//! operand before right operand; structured control flow becomes labeled
//! blocks whose branches target enclosing block ids. The whole translation
//! is mirrored by specification functions, so that the emitted statements
//! are pinned down exactly.

use vstd::prelude::*;
use vstd::string::StringExecFns;

use crate::error::{DiagV, ErrorHandler};
use crate::hir::{
    AsmControl, AsmParametric, AsmStatement, BinaryOperator, Block as NameBlock, Body as NameBody,
    Expression as Expr, Function as NameFun, NameStore, Statement as S, TypedProgram,
    UnaryOperator as ASTUnop, Value as V,
};
use crate::mir::{
    BasicBlockId, Binop, Block, BlockV, Call, Control, Function, FunctionV, Local, Parametric,
    Program, Relop, Statement, StmtV, Type, Unop, Value,
};
use crate::store::{Id, Identifier, NameId, TypeVarId};
use crate::types::{Type as ASTType, TypeStore, TypeV};

verus! {

broadcast use vstd::std_specs::vec::axiom_vec_index_decreases,
    vstd::std_specs::vec::axiom_vec_decreases_to_view, vstd::seq::axiom_seq_index_decreases,
    vstd::seq::axiom_seq_subrange_decreases;

/// How a source binary operator lowers: to an arithmetic instruction, a
/// comparison, or short-circuit control flow.
#[derive(Copy, Clone)]
pub enum FromBinop {
    Binop(Binop),
    Relop(Relop),
    Logical(Logical),
}

/// A short-circuit logical operator.
#[derive(Copy, Clone, Eq, PartialEq, Structural)]
pub enum Logical {
    And,
    Or,
}

/// The machine type a resolved concrete type lowers to: booleans become
/// 32-bit integers; placeholders, poisoned, unit and function types have no
/// machine representation.
pub open spec fn machine_type_of(t: TypeV) -> Option<Type> {
    match t {
        TypeV::I32 => Some(Type::I32),
        TypeV::I64 => Some(Type::I64),
        TypeV::F32 => Some(Type::F32),
        TypeV::F64 => Some(Type::F64),
        TypeV::Bool => Some(Type::I32),
        _ => None,
    }
}

/// The machine type of the type variable `t_id`, if it resolved to one.
pub open spec fn lookup_type(ts: TypeStore, t_id: TypeVarId) -> Option<Type> {
    if ts.contains_id(t_id.id_spec()) {
        machine_type_of(ts.spec_get(t_id.id_spec())@)
    } else {
        None
    }
}

/// The lowering of a source operator at a machine type: the operator
/// dispatch matrix. Remainder is integer-only; comparisons exist at every
/// type; the logical operators do not dispatch by type.
pub open spec fn get_binop_spec(binop: BinaryOperator, t: Type) -> Option<FromBinop> {
    match t {
        Type::I32 => match binop {
            BinaryOperator::Plus => Some(FromBinop::Binop(Binop::I32Add)),
            BinaryOperator::Minus => Some(FromBinop::Binop(Binop::I32Sub)),
            BinaryOperator::Multiply => Some(FromBinop::Binop(Binop::I32Mul)),
            BinaryOperator::Divide => Some(FromBinop::Binop(Binop::I32Div)),
            BinaryOperator::Remainder => Some(FromBinop::Binop(Binop::I32Rem)),
            BinaryOperator::Equal => Some(FromBinop::Relop(Relop::I32Eq)),
            BinaryOperator::NotEqual => Some(FromBinop::Relop(Relop::I32Ne)),
            BinaryOperator::Less => Some(FromBinop::Relop(Relop::I32Lt)),
            BinaryOperator::Greater => Some(FromBinop::Relop(Relop::I32Gt)),
            BinaryOperator::LessEqual => Some(FromBinop::Relop(Relop::I32Le)),
            BinaryOperator::GreaterEqual => Some(FromBinop::Relop(Relop::I32Ge)),
            BinaryOperator::And => Some(FromBinop::Logical(Logical::And)),
            BinaryOperator::Or => Some(FromBinop::Logical(Logical::Or)),
        },
        Type::I64 => match binop {
            BinaryOperator::Plus => Some(FromBinop::Binop(Binop::I64Add)),
            BinaryOperator::Minus => Some(FromBinop::Binop(Binop::I64Sub)),
            BinaryOperator::Multiply => Some(FromBinop::Binop(Binop::I64Mul)),
            BinaryOperator::Divide => Some(FromBinop::Binop(Binop::I64Div)),
            BinaryOperator::Remainder => Some(FromBinop::Binop(Binop::I64Rem)),
            BinaryOperator::Equal => Some(FromBinop::Relop(Relop::I64Eq)),
            BinaryOperator::NotEqual => Some(FromBinop::Relop(Relop::I64Ne)),
            BinaryOperator::Less => Some(FromBinop::Relop(Relop::I64Lt)),
            BinaryOperator::Greater => Some(FromBinop::Relop(Relop::I64Gt)),
            BinaryOperator::LessEqual => Some(FromBinop::Relop(Relop::I64Le)),
            BinaryOperator::GreaterEqual => Some(FromBinop::Relop(Relop::I64Ge)),
            _ => None,
        },
        Type::F32 => match binop {
            BinaryOperator::Plus => Some(FromBinop::Binop(Binop::F32Add)),
            BinaryOperator::Minus => Some(FromBinop::Binop(Binop::F32Sub)),
            BinaryOperator::Multiply => Some(FromBinop::Binop(Binop::F32Mul)),
            BinaryOperator::Divide => Some(FromBinop::Binop(Binop::F32Div)),
            BinaryOperator::Equal => Some(FromBinop::Relop(Relop::F32Eq)),
            BinaryOperator::NotEqual => Some(FromBinop::Relop(Relop::F32Ne)),
            BinaryOperator::Less => Some(FromBinop::Relop(Relop::F32Lt)),
            BinaryOperator::Greater => Some(FromBinop::Relop(Relop::F32Gt)),
            BinaryOperator::LessEqual => Some(FromBinop::Relop(Relop::F32Le)),
            BinaryOperator::GreaterEqual => Some(FromBinop::Relop(Relop::F32Ge)),
            _ => None,
        },
        Type::F64 => match binop {
            BinaryOperator::Plus => Some(FromBinop::Binop(Binop::F64Add)),
            BinaryOperator::Minus => Some(FromBinop::Binop(Binop::F64Sub)),
            BinaryOperator::Multiply => Some(FromBinop::Binop(Binop::F64Mul)),
            BinaryOperator::Divide => Some(FromBinop::Binop(Binop::F64Div)),
            BinaryOperator::Equal => Some(FromBinop::Relop(Relop::F64Eq)),
            BinaryOperator::NotEqual => Some(FromBinop::Relop(Relop::F64Ne)),
            BinaryOperator::Less => Some(FromBinop::Relop(Relop::F64Lt)),
            BinaryOperator::Greater => Some(FromBinop::Relop(Relop::F64Gt)),
            BinaryOperator::LessEqual => Some(FromBinop::Relop(Relop::F64Le)),
            BinaryOperator::GreaterEqual => Some(FromBinop::Relop(Relop::F64Ge)),
            _ => None,
        },
    }
}

/// The lowering state: the name and type stores of the checked program, and
/// the monotonic counter that labels basic blocks.
pub struct State {
    pub names: NameStore,
    pub types: TypeStore,
    pub bb_id: BasicBlockId,
}

/// The basic-block counter after one fresh id was handed out.
pub open spec fn next_bb(bb: BasicBlockId) -> BasicBlockId {
    if bb == BasicBlockId::MAX {
        0
    } else {
        (bb + 1) as BasicBlockId
    }
}

impl State {
    /// Creates a lowering state over the given stores, with the counter at
    /// zero.
    pub fn new(names: NameStore, types: TypeStore) -> (r: State)
        ensures
            r.names == names,
            r.types == types,
            r.bb_id == 0,
    {
        State { names, types, bb_id: 0 }
    }

    /// Returns a fresh basic-block id and advances the counter.
    pub fn fresh_bb_id(&mut self) -> (id: BasicBlockId)
        ensures
            id == old(self).bb_id,
            final(self).bb_id == next_bb(old(self).bb_id),
            final(self).names == old(self).names,
            final(self).types == old(self).types,
    {
        let id = self.bb_id;
        if id == BasicBlockId::MAX {
            self.bb_id = 0;
        } else {
            self.bb_id = id + 1;
        }
        id
    }
}

/// The statement a literal lowers to: booleans encode as 32-bit 1 or 0;
/// integer literals must fit the machine type inference chose for them.
pub open spec fn lower_value(v: V, ts: TypeStore) -> Option<StmtV> {
    match v {
        V::Integer { val, t_id, .. } => match lookup_type(ts, t_id) {
            Some(Type::I32) => if val <= 0x7fff_ffff {
                Some(StmtV::Const { val: Value::I32(val as i32) })
            } else {
                None
            },
            Some(Type::I64) => if val <= 0x7fff_ffff_ffff_ffff {
                Some(StmtV::Const { val: Value::I64(val as i64) })
            } else {
                None
            },
            _ => None,
        },
        V::Float { bits32, bits64, t_id, .. } => match lookup_type(ts, t_id) {
            Some(Type::F32) => Some(StmtV::Const { val: Value::F32(bits32) }),
            Some(Type::F64) => Some(StmtV::Const { val: Value::F64(bits64) }),
            _ => None,
        },
        V::Boolean { val, .. } => Some(
            StmtV::Const { val: Value::I32(if val { 1 } else { 0 }) },
        ),
    }
}

/// The statements an expression lowers to, and the basic-block counter
/// afterwards. Pushes the expression's value on the virtual stack: operands
/// left before right, arguments in source order; short-circuit operators
/// become an if-else block over the left operand. `None` is a lowering
/// error.
pub open spec fn lower_expr(e: Expr, ts: TypeStore, bb: u64) -> (Option<Seq<StmtV>>, u64)
    decreases e,
{
    match e {
        Expr::Literal { value } => (
            match lower_value(value, ts) {
                Some(s) => Some(seq![s]),
                None => None,
            },
            bb,
        ),
        Expr::Variable { var } => (Some(seq![StmtV::GetLocal { l_id: var.n_id }]), bb),
        Expr::Function { .. } => (None, bb),
        Expr::Binary { expr_left, binop, expr_right, op_t_id, .. } => match lookup_type(
            ts,
            op_t_id,
        ) {
            None => (None, bb),
            Some(t) => match get_binop_spec(binop, t) {
                None => (None, bb),
                Some(FromBinop::Binop(b)) => {
                    let (o1, bb1) = lower_expr(*expr_left, ts, bb);
                    match o1 {
                        None => (None, bb1),
                        Some(s1) => {
                            let (o2, bb2) = lower_expr(*expr_right, ts, bb1);
                            match o2 {
                                None => (None, bb2),
                                Some(s2) => (
                                    Some(s1 + s2 + seq![StmtV::Binop { binop: b }]),
                                    bb2,
                                ),
                            }
                        },
                    }
                },
                Some(FromBinop::Relop(r)) => {
                    let (o1, bb1) = lower_expr(*expr_left, ts, bb);
                    match o1 {
                        None => (None, bb1),
                        Some(s1) => {
                            let (o2, bb2) = lower_expr(*expr_right, ts, bb1);
                            match o2 {
                                None => (None, bb2),
                                Some(s2) => (
                                    Some(s1 + s2 + seq![StmtV::Relop { relop: r }]),
                                    bb2,
                                ),
                            }
                        },
                    }
                },
                Some(FromBinop::Logical(l)) => {
                    let if_id = bb;
                    let (o2, bb1) = lower_expr(*expr_right, ts, next_bb(bb));
                    match o2 {
                        None => (None, bb1),
                        Some(sr) => {
                            let (o1, bb2) = lower_expr(*expr_left, ts, bb1);
                            match o1 {
                                None => (None, bb2),
                                Some(sl) => {
                                    let ifb = match l {
                                        Logical::And => BlockV::If {
                                            id: if_id,
                                            then_stmts: sr,
                                            else_stmts: seq![
                                                StmtV::Const { val: Value::I32(0) },
                                            ],
                                            t: Some(Type::I32),
                                        },
                                        Logical::Or => BlockV::If {
                                            id: if_id,
                                            then_stmts: seq![
                                                StmtV::Const { val: Value::I32(1) },
                                            ],
                                            else_stmts: sr,
                                            t: Some(Type::I32),
                                        },
                                    };
                                    (Some(sl + seq![StmtV::Block { block: ifb }]), bb2)
                                },
                            }
                        },
                    }
                },
            },
        },
        Expr::Unary { unop, expr, t_id, .. } => match lookup_type(ts, t_id) {
            None => (None, bb),
            Some(t) => {
                let prefix = match unop {
                    ASTUnop::Minus => match t {
                        Type::I32 => seq![StmtV::Const { val: Value::I32(0) }],
                        Type::I64 => seq![StmtV::Const { val: Value::I64(0) }],
                        _ => Seq::<StmtV>::empty(),
                    },
                    ASTUnop::Not => match t {
                        Type::I32 => seq![StmtV::Const { val: Value::I32(1) }],
                        _ => Seq::<StmtV>::empty(),
                    },
                };
                let (o, bb1) = lower_expr(*expr, ts, bb);
                match o {
                    None => (None, bb1),
                    Some(s) => {
                        let opst = match unop {
                            ASTUnop::Minus => match t {
                                Type::I32 => StmtV::Binop { binop: Binop::I32Sub },
                                Type::I64 => StmtV::Binop { binop: Binop::I64Sub },
                                Type::F32 => StmtV::Unop { unop: Unop::F32Neg },
                                Type::F64 => StmtV::Unop { unop: Unop::F64Neg },
                            },
                            ASTUnop::Not => StmtV::Binop { binop: Binop::I32Xor },
                        };
                        (Some(prefix + s + seq![opst]), bb1)
                    },
                }
            },
        },
        Expr::CallDirect { fun_id, args, .. } => {
            let (o, bb1) = lower_args(args@, ts, bb);
            match o {
                None => (None, bb1),
                Some(s) => (Some(s + seq![StmtV::Call { call: Call::Direct(fun_id) }]), bb1),
            }
        },
        Expr::CallIndirect { .. } => (Some(Seq::empty()), bb),
    }
}

/// The statements a list of arguments lowers to, left to right.
pub open spec fn lower_args(args: Seq<Expr>, ts: TypeStore, bb: u64) -> (
    Option<Seq<StmtV>>,
    u64,
)
    decreases args,
{
    if args.len() == 0 {
        (Some(Seq::empty()), bb)
    } else {
        let (o1, bb1) = lower_args(args.drop_last(), ts, bb);
        match o1 {
            None => (None, bb1),
            Some(s1) => {
                let (o2, bb2) = lower_expr(args.last(), ts, bb1);
                match o2 {
                    None => (None, bb2),
                    Some(s2) => (Some(s1 + s2), bb2),
                }
            },
        }
    }
}

/// The statements one source statement lowers to. A while loop becomes an
/// outer labeled block around a loop whose body tests the condition,
/// branches out of the outer block when it is false, and jumps back to the
/// loop head at the end.
pub open spec fn lower_stmt(st: S, ts: TypeStore, bb: u64) -> (Option<Seq<StmtV>>, u64)
    decreases st,
{
    match st {
        S::AssignStmt { var, expr } => {
            let (o, bb1) = lower_expr(expr, ts, bb);
            match o {
                None => (None, bb1),
                Some(s) => (Some(s + seq![StmtV::SetLocal { l_id: var.n_id }]), bb1),
            }
        },
        S::LetStmt { var, expr } => {
            let (o, bb1) = lower_expr(expr, ts, bb);
            match o {
                None => (None, bb1),
                Some(s) => (Some(s + seq![StmtV::SetLocal { l_id: var.n_id }]), bb1),
            }
        },
        S::ExprStmt { expr } => {
            let (o, bb1) = lower_expr(expr, ts, bb);
            match o {
                None => (None, bb1),
                Some(s) => (
                    Some(s + seq![StmtV::Parametric { param: Parametric::Drop }]),
                    bb1,
                ),
            }
        },
        S::ReturnStmt { expr, .. } => match expr {
            Some(e) => {
                let (o, bb1) = lower_expr(e, ts, bb);
                match o {
                    None => (None, bb1),
                    Some(s) => (
                        Some(s + seq![StmtV::Control { cntrl: Control::Return }]),
                        bb1,
                    ),
                }
            },
            None => (Some(seq![StmtV::Control { cntrl: Control::Return }]), bb),
        },
        S::WhileStmt { expr, block } => {
            let block_id = bb;
            let loop_id = next_bb(bb);
            let (oc, bb1) = lower_expr(expr, ts, next_bb(next_bb(bb)));
            match oc {
                None => (None, bb1),
                Some(cond) => {
                    let (ob, bb2) = lower_stmts(block.stmts@, ts, bb1);
                    match ob {
                        None => (None, bb2),
                        Some(body) => {
                            let loop_stmts = cond + seq![
                                StmtV::Const { val: Value::I32(1) },
                                StmtV::Binop { binop: Binop::I32Xor },
                                StmtV::Control { cntrl: Control::BrIf(block_id) },
                            ] + body + seq![StmtV::Control { cntrl: Control::Br(loop_id) }];
                            let loopv = BlockV::Loop { id: loop_id, stmts: loop_stmts, t: None };
                            let blockv = BlockV::Block {
                                id: block_id,
                                stmts: seq![StmtV::Block { block: loopv }],
                                t: None,
                            };
                            (Some(seq![StmtV::Block { block: blockv }]), bb2)
                        },
                    }
                },
            }
        },
        S::IfStmt { expr, block, else_block } => {
            let (oc, bb1) = lower_expr(expr, ts, bb);
            match oc {
                None => (None, bb1),
                Some(cond) => {
                    let if_id = bb1;
                    let (ot, bb3) = lower_stmts(block.stmts@, ts, next_bb(bb1));
                    match ot {
                        None => (None, bb3),
                        Some(thn) => {
                            let (oe, bb4) = match else_block {
                                Some(eb) => lower_stmts(eb.stmts@, ts, bb3),
                                None => (Some(Seq::<StmtV>::empty()), bb3),
                            };
                            match oe {
                                None => (None, bb4),
                                Some(els) => (
                                    Some(
                                        cond + seq![
                                            StmtV::Block {
                                                block: BlockV::If {
                                                    id: if_id,
                                                    then_stmts: thn,
                                                    else_stmts: els,
                                                    t: None,
                                                },
                                            },
                                        ],
                                    ),
                                    bb4,
                                ),
                            }
                        },
                    }
                },
            }
        },
    }
}

/// The statements a block body lowers to, in source order.
pub open spec fn lower_stmts(stmts: Seq<S>, ts: TypeStore, bb: u64) -> (Option<Seq<StmtV>>, u64)
    decreases stmts,
{
    if stmts.len() == 0 {
        (Some(Seq::empty()), bb)
    } else {
        let (o1, bb1) = lower_stmts(stmts.drop_last(), ts, bb);
        match o1 {
            None => (None, bb1),
            Some(s1) => {
                let (o2, bb2) = lower_stmt(stmts.last(), ts, bb1);
                match o2 {
                    None => (None, bb2),
                    Some(s2) => (Some(s1 + s2), bb2),
                }
            },
        }
    }
}

/// The statement an inline assembly statement lowers to, one to one.
pub open spec fn lower_asm_stmt(st: AsmStatement) -> StmtV {
    match st {
        AsmStatement::Const { val, .. } => StmtV::Const { val },
        AsmStatement::Control { cntrl, .. } => match cntrl {
            AsmControl::Return => StmtV::Control { cntrl: Control::Return },
        },
        AsmStatement::Parametric { param, .. } => match param {
            AsmParametric::Drop => StmtV::Parametric { param: Parametric::Drop },
        },
    }
}

/// The statements an inline assembly body lowers to.
pub open spec fn lower_asm(stmts: Seq<AsmStatement>) -> Seq<StmtV>
    decreases stmts,
{
    if stmts.len() == 0 {
        Seq::empty()
    } else {
        lower_asm(stmts.drop_last()).push(lower_asm_stmt(stmts.last()))
    }
}

/// The machine local a bound name declares, if its type resolved.
pub open spec fn local_of(n: NameId, names: NameStore, ts: TypeStore) -> Option<Local> {
    if !names.contains_id(n.id_spec()) {
        None
    } else {
        match lookup_type(ts, names.spec_get(n.id_spec()).t_id) {
            Some(t) => Some(Local { id: n, t }),
            None => None,
        }
    }
}

/// The machine locals of a function's let-bound names, in order.
pub open spec fn locals_of(locals: Seq<NameId>, names: NameStore, ts: TypeStore) -> Option<
    Seq<Local>,
>
    decreases locals,
{
    if locals.len() == 0 {
        Some(Seq::empty())
    } else {
        match locals_of(locals.drop_last(), names, ts) {
            None => None,
            Some(rest) => match local_of(locals.last(), names, ts) {
                None => None,
                Some(l) => Some(rest.push(l)),
            },
        }
    }
}

/// The machine types of a list of resolved types, if all convert.
pub open spec fn machine_types_of(list: Seq<TypeV>) -> Option<Seq<Type>>
    decreases list,
{
    if list.len() == 0 {
        Some(Seq::empty())
    } else {
        match machine_types_of(list.drop_last()) {
            None => None,
            Some(rest) => match machine_type_of(list.last()) {
                None => None,
                Some(t) => Some(rest.push(t)),
            },
        }
    }
}

/// The machine signature of a function: the converted parameter and return
/// types of its resolved function type. A function whose name did not
/// resolve to a function type keeps an empty signature, so that the walk
/// can go on.
pub open spec fn fun_signature(f: NameFun, names: NameStore, ts: TypeStore) -> Option<
    (Seq<Type>, Seq<Type>),
> {
    if !names.contains_id(f.n_id.id_spec()) {
        None
    } else {
        let t_id = names.spec_get(f.n_id.id_spec()).t_id;
        if !ts.contains_id(t_id.id_spec()) {
            None
        } else {
            match ts.spec_get(t_id.id_spec())@ {
                TypeV::Fun(ps, rs) => match machine_types_of(ps) {
                    None => None,
                    Some(p) => match machine_types_of(rs) {
                        None => None,
                        Some(r) => Some((p, r)),
                    },
                },
                _ => Some((Seq::empty(), Seq::empty())),
            }
        }
    }
}

/// The function a typed function lowers to: its signature, its parameters
/// as local ids, its local declarations, and its body wrapped in one
/// top-level labeled block.
pub open spec fn lower_fun(f: NameFun, names: NameStore, ts: TypeStore, bb: u64) -> (
    Option<FunctionV>,
    u64,
) {
    match fun_signature(f, names, ts) {
        None => (None, bb),
        Some((param_t, ret_t)) => match locals_of(f.locals@, names, ts) {
            None => (None, bb),
            Some(locals) => {
                let params = f.params@.map_values(|p: crate::hir::Variable| p.n_id);
                let exposed = match f.exposed {
                    Some(s) => Some(s@),
                    None => None,
                };
                match f.body {
                    NameBody::Zephyr(block) => {
                        let id = bb;
                        let (ob, bb1) = lower_stmts(block.stmts@, ts, next_bb(bb));
                        match ob {
                            None => (None, bb1),
                            Some(body_stmts) => (
                                Some(
                                    FunctionV {
                                        ident: f.ident@,
                                        params,
                                        param_types: param_t,
                                        ret_types: ret_t,
                                        locals,
                                        body: BlockV::Block { id, stmts: body_stmts, t: None },
                                        is_pub: f.is_pub,
                                        exposed,
                                        fun_id: f.fun_id,
                                    },
                                ),
                                bb1,
                            ),
                        }
                    },
                    NameBody::Asm(stmts) => (
                        Some(
                            FunctionV {
                                ident: f.ident@,
                                params,
                                param_types: param_t,
                                ret_types: ret_t,
                                locals,
                                body: BlockV::Block {
                                    id: bb,
                                    stmts: lower_asm(stmts@),
                                    t: None,
                                },
                                is_pub: f.is_pub,
                                exposed,
                                fun_id: f.fun_id,
                            },
                        ),
                        next_bb(bb),
                    ),
                }
            },
        },
    }
}

/// The functions a program lowers to, in order; a function whose lowering
/// fails is reported and left out.
pub open spec fn lower_funs(funs: Seq<NameFun>, names: NameStore, ts: TypeStore, bb: u64) -> (
    Seq<FunctionV>,
    u64,
)
    decreases funs,
{
    if funs.len() == 0 {
        (Seq::empty(), bb)
    } else {
        let (rest, bb1) = lower_funs(funs.drop_last(), names, ts, bb);
        let (of, bb2) = lower_fun(funs.last(), names, ts, bb1);
        match of {
            Some(fv) => (rest.push(fv), bb2),
            None => (rest, bb2),
        }
    }
}

/// Maps a resolved concrete type to its machine type.
fn convert_type(t: &ASTType) -> (r: Result<Type, String>)
    ensures
        match r {
            Ok(mt) => machine_type_of(t@) == Some(mt),
            Err(_) => machine_type_of(t@) is None,
        },
{
    match t {
        ASTType::I32 => Ok(Type::I32),
        ASTType::I64 => Ok(Type::I64),
        ASTType::F32 => Ok(Type::F32),
        ASTType::F64 => Ok(Type::F64),
        ASTType::Bool => Ok(Type::I32),
        ASTType::Any | ASTType::Bug | ASTType::Unit => Err(
            String::from_str("Invalid type in MIR generation"),
        ),
        ASTType::Fun(_, _) => Err(
            String::from_str("Function as a value are not yet implemented"),
        ),
    }
}

/// Looks up the machine type of the type variable `t_id`.
fn get_type(t_id: TypeVarId, s: &State) -> (r: Result<Type, String>)
    requires
        s.types.wf(),
    ensures
        match r {
            Ok(mt) => lookup_type(s.types, t_id) == Some(mt),
            Err(_) => lookup_type(s.types, t_id) is None,
        },
{
    match s.types.get(t_id) {
        Some(t) => convert_type(t),
        None => Err(String::from_str("Missing type in MIR generation")),
    }
}

/// Chooses the machine instruction for a source operator at the operand
/// type, following the dispatch matrix.
fn get_binop(binop: BinaryOperator, t: Type) -> (r: Result<FromBinop, String>)
    ensures
        match r {
            Ok(fb) => get_binop_spec(binop, t) == Some(fb),
            Err(_) => get_binop_spec(binop, t) is None,
        },
{
    match t {
        Type::I32 => match binop {
            BinaryOperator::Plus => Ok(FromBinop::Binop(Binop::I32Add)),
            BinaryOperator::Minus => Ok(FromBinop::Binop(Binop::I32Sub)),
            BinaryOperator::Multiply => Ok(FromBinop::Binop(Binop::I32Mul)),
            BinaryOperator::Divide => Ok(FromBinop::Binop(Binop::I32Div)),
            BinaryOperator::Remainder => Ok(FromBinop::Binop(Binop::I32Rem)),
            BinaryOperator::Equal => Ok(FromBinop::Relop(Relop::I32Eq)),
            BinaryOperator::NotEqual => Ok(FromBinop::Relop(Relop::I32Ne)),
            BinaryOperator::Less => Ok(FromBinop::Relop(Relop::I32Lt)),
            BinaryOperator::Greater => Ok(FromBinop::Relop(Relop::I32Gt)),
            BinaryOperator::LessEqual => Ok(FromBinop::Relop(Relop::I32Le)),
            BinaryOperator::GreaterEqual => Ok(FromBinop::Relop(Relop::I32Ge)),
            BinaryOperator::And => Ok(FromBinop::Logical(Logical::And)),
            BinaryOperator::Or => Ok(FromBinop::Logical(Logical::Or)),
        },
        Type::I64 => match binop {
            BinaryOperator::Plus => Ok(FromBinop::Binop(Binop::I64Add)),
            BinaryOperator::Minus => Ok(FromBinop::Binop(Binop::I64Sub)),
            BinaryOperator::Multiply => Ok(FromBinop::Binop(Binop::I64Mul)),
            BinaryOperator::Divide => Ok(FromBinop::Binop(Binop::I64Div)),
            BinaryOperator::Remainder => Ok(FromBinop::Binop(Binop::I64Rem)),
            BinaryOperator::Equal => Ok(FromBinop::Relop(Relop::I64Eq)),
            BinaryOperator::NotEqual => Ok(FromBinop::Relop(Relop::I64Ne)),
            BinaryOperator::Less => Ok(FromBinop::Relop(Relop::I64Lt)),
            BinaryOperator::Greater => Ok(FromBinop::Relop(Relop::I64Gt)),
            BinaryOperator::LessEqual => Ok(FromBinop::Relop(Relop::I64Le)),
            BinaryOperator::GreaterEqual => Ok(FromBinop::Relop(Relop::I64Ge)),
            _ => Err(String::from_str("Bad binary operator for i64")),
        },
        Type::F32 => match binop {
            BinaryOperator::Plus => Ok(FromBinop::Binop(Binop::F32Add)),
            BinaryOperator::Minus => Ok(FromBinop::Binop(Binop::F32Sub)),
            BinaryOperator::Multiply => Ok(FromBinop::Binop(Binop::F32Mul)),
            BinaryOperator::Divide => Ok(FromBinop::Binop(Binop::F32Div)),
            BinaryOperator::Equal => Ok(FromBinop::Relop(Relop::F32Eq)),
            BinaryOperator::NotEqual => Ok(FromBinop::Relop(Relop::F32Ne)),
            BinaryOperator::Less => Ok(FromBinop::Relop(Relop::F32Lt)),
            BinaryOperator::Greater => Ok(FromBinop::Relop(Relop::F32Gt)),
            BinaryOperator::LessEqual => Ok(FromBinop::Relop(Relop::F32Le)),
            BinaryOperator::GreaterEqual => Ok(FromBinop::Relop(Relop::F32Ge)),
            _ => Err(String::from_str("Bad binary operator for f32")),
        },
        Type::F64 => match binop {
            BinaryOperator::Plus => Ok(FromBinop::Binop(Binop::F64Add)),
            BinaryOperator::Minus => Ok(FromBinop::Binop(Binop::F64Sub)),
            BinaryOperator::Multiply => Ok(FromBinop::Binop(Binop::F64Mul)),
            BinaryOperator::Divide => Ok(FromBinop::Binop(Binop::F64Div)),
            BinaryOperator::Equal => Ok(FromBinop::Relop(Relop::F64Eq)),
            BinaryOperator::NotEqual => Ok(FromBinop::Relop(Relop::F64Ne)),
            BinaryOperator::Less => Ok(FromBinop::Relop(Relop::F64Lt)),
            BinaryOperator::Greater => Ok(FromBinop::Relop(Relop::F64Gt)),
            BinaryOperator::LessEqual => Ok(FromBinop::Relop(Relop::F64Le)),
            BinaryOperator::GreaterEqual => Ok(FromBinop::Relop(Relop::F64Ge)),
            _ => Err(String::from_str("Bad binary operator for f64")),
        },
    }
}

/// Appends one statement, at the view level a push.
fn push_stmt(stmts: &mut Vec<Statement>, st: Statement)
    ensures
        crate::mir::stmt_views(final(stmts)@) == crate::mir::stmt_views(old(stmts)@).push(st@),
{
    let ghost v0 = stmts@;
    let ghost sv = st@;
    stmts.push(st);
    proof {
        assert(stmts@.drop_last() =~= v0);
        assert(crate::mir::stmt_views(stmts@) == crate::mir::stmt_views(v0).push(sv));
    }
}

/// The views of the statements lowered so far.
pub open spec fn views(stmts: Seq<Statement>) -> Seq<StmtV> {
    crate::mir::stmt_views(stmts)
}

/// One sequence begins with another.
proof fn lemma_prefix_chain2<A>(a: Seq<A>, b: Seq<A>, c: Seq<A>)
    requires
        a.is_prefix_of(b),
        b.is_prefix_of(c),
    ensures
        a.is_prefix_of(c),
{
    crate::type_check::lemma_prefix_trans(a, b, c);
}

/// What a sequence was extended to, it is a prefix of.
proof fn lemma_append_prefix<A>(a: Seq<A>, b: Seq<A>)
    ensures
        a.is_prefix_of(a + b),
{
    assert((a + b).subrange(0, a.len() as int) =~= a);
}

/// A sequence is a prefix of itself.
proof fn lemma_prefix_refl<A>(a: Seq<A>)
    ensures
        a.is_prefix_of(a),
{
    assert(a.subrange(0, a.len() as int) =~= a);
}

/// Once a prefix of the arguments fails to lower, the whole list fails at
/// the same point, with the same counter.
proof fn lemma_args_error(args: Seq<Expr>, ts: TypeStore, bb: u64, n: int)
    requires
        0 <= n <= args.len(),
        lower_args(args.take(n), ts, bb).0 is None,
    ensures
        lower_args(args, ts, bb) == lower_args(args.take(n), ts, bb),
    decreases args.len() - n,
{
    if n < args.len() {
        assert(args.take(n + 1).drop_last() =~= args.take(n));
        lemma_args_error(args, ts, bb, n + 1);
    } else {
        assert(args.take(n) =~= args);
    }
}

/// A prefix of the diagnostics is a prefix of their values.
proof fn lemma_diag_views_prefix(
    a: Seq<crate::error::Diagnostic>,
    b: Seq<crate::error::Diagnostic>,
)
    requires
        a.is_prefix_of(b),
    ensures
        crate::error::diag_views(a).is_prefix_of(crate::error::diag_views(b)),
{
    crate::error::lemma_diag_views(a);
    crate::error::lemma_diag_views(b);
    assert(crate::error::diag_views(b).subrange(0, a.len() as int)
        =~= crate::error::diag_views(a)) by {
        assert forall|i: int| 0 <= i < a.len()
            implies crate::error::diag_views(b).subrange(0, a.len() as int)[i]
                == crate::error::diag_views(a)[i] by {
            assert(a[i] == b.subrange(0, a.len() as int)[i]);
        }
    }
}

/// The lowering pass, owning the error sink it reports to.
pub struct MIRProducer {
    pub err: ErrorHandler,
}

impl MIRProducer {
    /// Creates a lowering pass around the given error sink.
    pub fn new(error_handler: ErrorHandler) -> (r: MIRProducer)
        ensures
            r.err == error_handler,
    {
        MIRProducer { err: error_handler }
    }

    /// Pushes the statements that execute the given expression.
    #[verifier::rlimit(100)]
    #[verifier::loop_isolation(false)]
    fn reduce_expr(&mut self, expression: &Expr, stmts: &mut Vec<Statement>, s: &mut State) -> (r:
        Result<(), String>)
        requires
            old(s).types.wf(),
        ensures
            final(s).names == old(s).names,
            final(s).types == old(s).types,
            final(s).bb_id == lower_expr(*expression, old(s).types, old(s).bb_id).1,
            match r {
                Ok(_) => lower_expr(*expression, old(s).types, old(s).bb_id).0 matches Some(sv)
                    && views(final(stmts)@) == views(old(stmts)@) + sv,
                Err(_) => lower_expr(*expression, old(s).types, old(s).bb_id).0 is None
                    && views(old(stmts)@).is_prefix_of(views(final(stmts)@)),
            },
            (*expression) matches Expr::Function { .. } ==> final(stmts)@ == old(stmts)@
                && *final(s) == *old(s) && *final(self) == *old(self),
            (*expression) matches Expr::CallIndirect { loc: l, .. } ==> final(self).err.dv()
                == old(self).err.dv().push(
                DiagV {
                    loc: Some(l),
                    message: "Indirect call are not yet supported"@,
                    internal: false,
                },
            ),
            (match *expression {
                Expr::Unary { unop: ASTUnop::Not, t_id, loc: l, .. } => lookup_type(
                    old(s).types,
                    t_id,
                ) matches Some(t) && t != Type::I32 ==> old(self).err.dv().push(
                    DiagV {
                        loc: Some(l),
                        message: "Not applied to something else than a boolean"@,
                        internal: true,
                    },
                ).is_prefix_of(final(self).err.dv()),
                _ => true,
            }),
            old(self).err.diags().is_prefix_of(final(self).err.diags()),
        decreases *expression,
    {
        let ghost sv0 = views(stmts@);
        let ghost ts = s.types;
        let ghost bb0 = s.bb_id;
        proof {
            lemma_prefix_refl(sv0);
            lemma_prefix_refl(self.err.diags());
        }
        match expression {
            Expr::Literal { value } => {
                match value {
                    V::Integer { val, t_id, .. } => {
                        let t = match get_type(*t_id, s) {
                            Ok(t) => t,
                            Err(e) => {
                                return Err(e);
                            },
                        };
                        match t {
                            Type::I32 => {
                                if *val <= 0x7fff_ffff {
                                    push_stmt(
                                        stmts,
                                        Statement::Const { val: Value::I32(*val as i32) },
                                    );
                                    proof {
                                        assert(views(stmts@) =~= sv0 + seq![
                                            StmtV::Const { val: Value::I32(*val as i32) },
                                        ]);
                                    }
                                    Ok(())
                                } else {
                                    Err(String::from_str("Integer constant out of range"))
                                }
                            },
                            Type::I64 => {
                                if *val <= 0x7fff_ffff_ffff_ffff {
                                    push_stmt(
                                        stmts,
                                        Statement::Const { val: Value::I64(*val as i64) },
                                    );
                                    proof {
                                        assert(views(stmts@) =~= sv0 + seq![
                                            StmtV::Const { val: Value::I64(*val as i64) },
                                        ]);
                                    }
                                    Ok(())
                                } else {
                                    Err(String::from_str("Integer constant out of range"))
                                }
                            },
                            _ => Err(String::from_str("Integer constant of non integer type.")),
                        }
                    },
                    V::Float { bits32, bits64, t_id, .. } => {
                        let t = match get_type(*t_id, s) {
                            Ok(t) => t,
                            Err(e) => {
                                return Err(e);
                            },
                        };
                        match t {
                            Type::F32 => {
                                push_stmt(stmts, Statement::Const { val: Value::F32(*bits32) });
                                proof {
                                    assert(views(stmts@) =~= sv0 + seq![
                                        StmtV::Const { val: Value::F32(*bits32) },
                                    ]);
                                }
                                Ok(())
                            },
                            Type::F64 => {
                                push_stmt(stmts, Statement::Const { val: Value::F64(*bits64) });
                                proof {
                                    assert(views(stmts@) =~= sv0 + seq![
                                        StmtV::Const { val: Value::F64(*bits64) },
                                    ]);
                                }
                                Ok(())
                            },
                            _ => Err(String::from_str("Float constant of non float type.")),
                        }
                    },
                    V::Boolean { val, .. } => {
                        push_stmt(
                            stmts,
                            Statement::Const { val: Value::I32(if *val { 1 } else { 0 }) },
                        );
                        proof {
                            assert(views(stmts@) =~= sv0 + seq![
                                StmtV::Const { val: Value::I32(if *val { 1 } else { 0 }) },
                            ]);
                        }
                        Ok(())
                    },
                }
            },
            Expr::Variable { var } => {
                push_stmt(stmts, Statement::GetLocal { l_id: var.n_id });
                proof {
                    assert(views(stmts@) =~= sv0 + seq![StmtV::GetLocal { l_id: var.n_id }]);
                }
                Ok(())
            },
            Expr::Function { .. } => Err(
                String::from_str("Function as expression are not yet supported."),
            ),
            Expr::Binary { expr_left, binop, expr_right, op_t_id, .. } => {
                let t = match get_type(*op_t_id, s) {
                    Ok(t) => t,
                    Err(e) => {
                        return Err(e);
                    },
                };
                let from_binop = match get_binop(*binop, t) {
                    Ok(fb) => fb,
                    Err(e) => {
                        return Err(e);
                    },
                };
                let ghost m1 = lower_expr(**expr_left, ts, bb0);
                match from_binop {
                    FromBinop::Binop(b) => {
                        match self.reduce_expr(&**expr_left, stmts, s) {
                            Ok(_) => {},
                            Err(e) => {
                                return Err(e);
                            },
                        }
                        let ghost m2 = lower_expr(**expr_right, ts, m1.1);
                        let ghost svm = views(stmts@);
                        let ghost em = self.err.diags();
                        match self.reduce_expr(&**expr_right, stmts, s) {
                            Ok(_) => {},
                            Err(e) => {
                                proof {
                                    lemma_append_prefix(sv0, m1.0.unwrap());
                                    lemma_prefix_chain2(sv0, svm, views(stmts@));
                                    lemma_prefix_chain2(
                                        old(self).err.diags(),
                                        em,
                                        self.err.diags(),
                                    );
                                }
                                return Err(e);
                            },
                        }
                        push_stmt(stmts, Statement::Binop { binop: b });
                        proof {
                            lemma_prefix_chain2(old(self).err.diags(), em, self.err.diags());
                            assert(views(stmts@) =~= sv0 + (m1.0.unwrap() + m2.0.unwrap()
                                + seq![StmtV::Binop { binop: b }]));
                        }
                        Ok(())
                    },
                    FromBinop::Relop(rel) => {
                        match self.reduce_expr(&**expr_left, stmts, s) {
                            Ok(_) => {},
                            Err(e) => {
                                return Err(e);
                            },
                        }
                        let ghost m2 = lower_expr(**expr_right, ts, m1.1);
                        let ghost svm = views(stmts@);
                        let ghost em = self.err.diags();
                        match self.reduce_expr(&**expr_right, stmts, s) {
                            Ok(_) => {},
                            Err(e) => {
                                proof {
                                    lemma_append_prefix(sv0, m1.0.unwrap());
                                    lemma_prefix_chain2(sv0, svm, views(stmts@));
                                    lemma_prefix_chain2(
                                        old(self).err.diags(),
                                        em,
                                        self.err.diags(),
                                    );
                                }
                                return Err(e);
                            },
                        }
                        push_stmt(stmts, Statement::Relop { relop: rel });
                        proof {
                            lemma_prefix_chain2(old(self).err.diags(), em, self.err.diags());
                            assert(views(stmts@) =~= sv0 + (m1.0.unwrap() + m2.0.unwrap()
                                + seq![StmtV::Relop { relop: rel }]));
                        }
                        Ok(())
                    },
                    FromBinop::Logical(l) => {
                        let if_id = s.fresh_bb_id();
                        let ghost m2 = lower_expr(**expr_right, ts, next_bb(bb0));
                        let mut branch_stmts: Vec<Statement> = Vec::new();
                        proof {
                            assert(views(branch_stmts@) =~= Seq::<StmtV>::empty());
                        }
                        let ghost eb = self.err.diags();
                        match self.reduce_expr(&**expr_right, &mut branch_stmts, s) {
                            Ok(_) => {},
                            Err(e) => {
                                proof {
                                    lemma_prefix_chain2(
                                        old(self).err.diags(),
                                        eb,
                                        self.err.diags(),
                                    );
                                    lemma_prefix_refl(views(stmts@));
                                }
                                return Err(e);
                            },
                        }
                        proof {
                            assert(views(branch_stmts@) =~= Seq::<StmtV>::empty()
                                + m2.0.unwrap());
                            assert(views(branch_stmts@) == m2.0.unwrap());
                        }
                        let if_block = match l {
                            Logical::And => {
                                let mut else_stmts: Vec<Statement> = Vec::new();
                                proof {
                                    assert(views(else_stmts@) =~= Seq::<StmtV>::empty());
                                }
                                push_stmt(&mut else_stmts, Statement::Const {
                                    val: Value::I32(0),
                                });
                                proof {
                                    assert(views(else_stmts@) =~= seq![
                                        StmtV::Const { val: Value::I32(0) },
                                    ]);
                                }
                                Block::If {
                                    id: if_id,
                                    then_stmts: branch_stmts,
                                    else_stmts,
                                    t: Some(Type::I32),
                                }
                            },
                            Logical::Or => {
                                let mut then_stmts: Vec<Statement> = Vec::new();
                                proof {
                                    assert(views(then_stmts@) =~= Seq::<StmtV>::empty());
                                }
                                push_stmt(&mut then_stmts, Statement::Const {
                                    val: Value::I32(1),
                                });
                                proof {
                                    assert(views(then_stmts@) =~= seq![
                                        StmtV::Const { val: Value::I32(1) },
                                    ]);
                                }
                                Block::If {
                                    id: if_id,
                                    then_stmts,
                                    else_stmts: branch_stmts,
                                    t: Some(Type::I32),
                                }
                            },
                        };
                        let ghost ifbv = if_block@;
                        let ghost m3 = lower_expr(**expr_left, ts, m2.1);
                        let ghost em = self.err.diags();
                        match self.reduce_expr(&**expr_left, stmts, s) {
                            Ok(_) => {},
                            Err(e) => {
                                proof {
                                    lemma_prefix_chain2(
                                        old(self).err.diags(),
                                        em,
                                        self.err.diags(),
                                    );
                                }
                                return Err(e);
                            },
                        }
                        push_stmt(stmts, Statement::Block { block: Box::new(if_block) });
                        proof {
                            lemma_prefix_chain2(old(self).err.diags(), em, self.err.diags());
                            assert(views(stmts@) =~= sv0 + (m3.0.unwrap()
                                + seq![StmtV::Block { block: ifbv }]));
                        }
                        Ok(())
                    },
                }
            },
            Expr::Unary { unop, expr, t_id, loc } => {
                let t = match get_type(*t_id, s) {
                    Ok(t) => t,
                    Err(e) => {
                        return Err(e);
                    },
                };
                match unop {
                    ASTUnop::Minus => {
                        match t {
                            Type::I32 => {
                                push_stmt(stmts, Statement::Const { val: Value::I32(0) });
                            },
                            Type::I64 => {
                                push_stmt(stmts, Statement::Const { val: Value::I64(0) });
                            },
                            _ => {},
                        }
                    },
                    ASTUnop::Not => {
                        match t {
                            Type::I32 => {
                                push_stmt(stmts, Statement::Const { val: Value::I32(1) });
                            },
                            _ => {
                                self.err.report_internal(
                                    *loc,
                                    String::from_str(
                                        "Not applied to something else than a boolean",
                                    ),
                                );
                            },
                        }
                    },
                }
                let ghost svp = views(stmts@);
                let ghost m = lower_expr(**expr, ts, bb0);
                let ghost em = self.err.diags();
                match self.reduce_expr(&**expr, stmts, s) {
                    Ok(_) => {},
                    Err(e) => {
                        proof {
                            lemma_prefix_chain2(old(self).err.diags(), em, self.err.diags());
                            lemma_diag_views_prefix(em, self.err.diags());
                            lemma_append_prefix(sv0, svp.skip(sv0.len() as int));
                            assert(sv0 + svp.skip(sv0.len() as int) =~= svp);
                            lemma_prefix_chain2(sv0, svp, views(stmts@));
                        }
                        return Err(e);
                    },
                }
                let stmt = match unop {
                    ASTUnop::Minus => match t {
                        Type::I32 => Statement::Binop { binop: Binop::I32Sub },
                        Type::I64 => Statement::Binop { binop: Binop::I64Sub },
                        Type::F32 => Statement::Unop { unop: Unop::F32Neg },
                        Type::F64 => Statement::Unop { unop: Unop::F64Neg },
                    },
                    ASTUnop::Not => Statement::Binop { binop: Binop::I32Xor },
                };
                let ghost stv = stmt@;
                push_stmt(stmts, stmt);
                proof {
                    lemma_prefix_chain2(old(self).err.diags(), em, self.err.diags());
                    lemma_diag_views_prefix(em, self.err.diags());
                    assert(views(stmts@) =~= sv0 + (svp.skip(sv0.len() as int) + m.0.unwrap()
                        + seq![stv]));
                    assert(svp.skip(sv0.len() as int) =~= svp.subrange(
                        sv0.len() as int,
                        svp.len() as int,
                    ));
                }
                Ok(())
            },
            Expr::CallDirect { fun_id, args, .. } => {
                let n = args.len();
                let mut i: usize = 0;
                let ghost mut acc: Seq<StmtV> = Seq::empty();
                proof {
                    assert(args@.take(0) =~= Seq::<Expr>::empty());
                    assert(views(stmts@) =~= sv0 + acc);
                }
                while i < n
                    invariant
                        i <= n,
                        n == args@.len(),
                        s.types.wf(),
                        s.types == ts,
                        s.names == old(s).names,
                        lower_args(args@.take(i as int), ts, bb0) == (Some(acc), s.bb_id),
                        views(stmts@) == sv0 + acc,
                        old(self).err.diags().is_prefix_of(self.err.diags()),
                    decreases n - i,
                {
                    let ghost m = lower_expr(args@[i as int], ts, s.bb_id);
                    let ghost eb = self.err.diags();
                    match self.reduce_expr(&args[i], stmts, s) {
                        Ok(_) => {},
                        Err(e) => {
                            proof {
                                assert(args@.take(i as int + 1).drop_last()
                                    =~= args@.take(i as int));
                                assert(args@.take(i as int + 1).last() == args@[i as int]);
                                lemma_prefix_chain2(old(self).err.diags(), eb,
                                    self.err.diags());
                                assert(lower_args(args@.take(i as int + 1), ts, bb0)
                                    == (None::<Seq<StmtV>>, s.bb_id));
                                lemma_args_error(args@, ts, bb0, i as int + 1);
                                lemma_append_prefix(sv0, acc);
                                lemma_prefix_chain2(sv0, sv0 + acc, views(stmts@));
                            }
                            return Err(e);
                        },
                    }
                    proof {
                        assert(args@.take(i as int + 1).drop_last() =~= args@.take(i as int));
                        assert(args@.take(i as int + 1).last() == args@[i as int]);
                        lemma_prefix_chain2(old(self).err.diags(), eb, self.err.diags());
                        assert(views(stmts@) =~= sv0 + (acc + m.0.unwrap()));
                        acc = acc + m.0.unwrap();
                    }
                    i = i + 1;
                }
                proof {
                    assert(args@.take(n as int) =~= args@);
                }
                push_stmt(stmts, Statement::Call { call: Call::Direct(*fun_id) });
                proof {
                    assert(views(stmts@) =~= sv0 + (acc + seq![
                        StmtV::Call { call: Call::Direct(*fun_id) },
                    ]));
                }
                Ok(())
            },
            Expr::CallIndirect { loc, .. } => {
                self.err.report(*loc, String::from_str("Indirect call are not yet supported"));
                proof {
                    assert(views(stmts@) =~= sv0 + Seq::<StmtV>::empty());
                }
                Ok(())
            },
        }
    }

    /// Pushes the statements that execute one source statement.
    #[verifier::rlimit(100)]
    #[verifier::loop_isolation(false)]
    fn reduce_stmt(&mut self, statement: &S, stmts: &mut Vec<Statement>, s: &mut State) -> (r:
        Result<(), String>)
        requires
            old(s).types.wf(),
        ensures
            final(s).names == old(s).names,
            final(s).types == old(s).types,
            final(s).bb_id == lower_stmt(*statement, old(s).types, old(s).bb_id).1,
            match r {
                Ok(_) => lower_stmt(*statement, old(s).types, old(s).bb_id).0 matches Some(sv)
                    && views(final(stmts)@) == views(old(stmts)@) + sv,
                Err(_) => lower_stmt(*statement, old(s).types, old(s).bb_id).0 is None
                    && views(old(stmts)@).is_prefix_of(views(final(stmts)@)),
            },
            old(self).err.diags().is_prefix_of(final(self).err.diags()),
        decreases *statement,
    {
        let ghost sv0 = views(stmts@);
        let ghost ts = s.types;
        let ghost bb0 = s.bb_id;
        proof {
            lemma_prefix_refl(sv0);
            lemma_prefix_refl(self.err.diags());
        }
        match statement {
            S::AssignStmt { var, expr } => {
                match self.reduce_expr(expr, stmts, s) {
                    Ok(_) => {},
                    Err(e) => {
                        return Err(e);
                    },
                }
                push_stmt(stmts, Statement::SetLocal { l_id: var.n_id });
                proof {
                    let ghost m = lower_expr(*expr, ts, bb0);
                    assert(views(stmts@) =~= sv0 + (m.0.unwrap() + seq![
                        StmtV::SetLocal { l_id: var.n_id },
                    ]));
                }
                Ok(())
            },
            S::LetStmt { var, expr } => {
                match self.reduce_expr(expr, stmts, s) {
                    Ok(_) => {},
                    Err(e) => {
                        return Err(e);
                    },
                }
                push_stmt(stmts, Statement::SetLocal { l_id: var.n_id });
                proof {
                    let ghost m = lower_expr(*expr, ts, bb0);
                    assert(views(stmts@) =~= sv0 + (m.0.unwrap() + seq![
                        StmtV::SetLocal { l_id: var.n_id },
                    ]));
                }
                Ok(())
            },
            S::ExprStmt { expr } => {
                match self.reduce_expr(expr, stmts, s) {
                    Ok(_) => {},
                    Err(e) => {
                        return Err(e);
                    },
                }
                push_stmt(stmts, Statement::Parametric { param: Parametric::Drop });
                proof {
                    let ghost m = lower_expr(*expr, ts, bb0);
                    assert(views(stmts@) =~= sv0 + (m.0.unwrap() + seq![
                        StmtV::Parametric { param: Parametric::Drop },
                    ]));
                }
                Ok(())
            },
            S::ReturnStmt { expr, .. } => {
                match expr {
                    Some(e) => {
                        match self.reduce_expr(e, stmts, s) {
                            Ok(_) => {},
                            Err(err) => {
                                return Err(err);
                            },
                        }
                        push_stmt(stmts, Statement::Control { cntrl: Control::Return });
                        proof {
                            let ghost m = lower_expr(*e, ts, bb0);
                            assert(views(stmts@) =~= sv0 + (m.0.unwrap() + seq![
                                StmtV::Control { cntrl: Control::Return },
                            ]));
                        }
                        Ok(())
                    },
                    None => {
                        push_stmt(stmts, Statement::Control { cntrl: Control::Return });
                        proof {
                            assert(views(stmts@) =~= sv0 + seq![
                                StmtV::Control { cntrl: Control::Return },
                            ]);
                        }
                        Ok(())
                    },
                }
            },
            S::WhileStmt { expr, block } => {
                let block_id = s.fresh_bb_id();
                let loop_id = s.fresh_bb_id();
                let mut loop_stmts: Vec<Statement> = Vec::new();
                proof {
                    assert(views(loop_stmts@) =~= Seq::<StmtV>::empty());
                }
                let ghost mc = lower_expr(*expr, ts, next_bb(next_bb(bb0)));
                match self.reduce_expr(expr, &mut loop_stmts, s) {
                    Ok(_) => {},
                    Err(e) => {
                        return Err(e);
                    },
                }
                proof {
                    assert(views(loop_stmts@) =~= Seq::<StmtV>::empty() + mc.0.unwrap());
                    assert(views(loop_stmts@) == mc.0.unwrap());
                }
                push_stmt(&mut loop_stmts, Statement::Const { val: Value::I32(1) });
                push_stmt(&mut loop_stmts, Statement::Binop { binop: Binop::I32Xor });
                push_stmt(&mut loop_stmts, Statement::Control {
                    cntrl: Control::BrIf(block_id),
                });
                let ghost mb = lower_stmts(block.stmts@, ts, mc.1);
                let ghost svh = views(loop_stmts@);
                let ghost em = self.err.diags();
                match self.reduce_block_rec(block, &mut loop_stmts, s) {
                    Ok(_) => {},
                    Err(e) => {
                        proof {
                            lemma_prefix_chain2(old(self).err.diags(), em, self.err.diags());
                        }
                        return Err(e);
                    },
                }
                push_stmt(&mut loop_stmts, Statement::Control { cntrl: Control::Br(loop_id) });
                proof {
                    lemma_prefix_chain2(old(self).err.diags(), em, self.err.diags());
                    assert(views(loop_stmts@) =~= mc.0.unwrap() + seq![
                        StmtV::Const { val: Value::I32(1) },
                        StmtV::Binop { binop: Binop::I32Xor },
                        StmtV::Control { cntrl: Control::BrIf(block_id) },
                    ] + mb.0.unwrap() + seq![StmtV::Control { cntrl: Control::Br(loop_id) }]);
                }
                let loop_block = Block::Loop { id: loop_id, stmts: loop_stmts, t: None };
                let ghost lbv = loop_block@;
                let mut wrap: Vec<Statement> = Vec::new();
                push_stmt(&mut wrap, Statement::Block { block: Box::new(loop_block) });
                let block_block = Block::Block { id: block_id, stmts: wrap, t: None };
                let ghost bbv = block_block@;
                push_stmt(stmts, Statement::Block { block: Box::new(block_block) });
                proof {
                    assert(bbv->Block_stmts =~= Seq::<StmtV>::empty().push(
                        StmtV::Block { block: lbv },
                    ));
                    assert(views(stmts@) =~= sv0 + seq![StmtV::Block { block: bbv }]);
                }
                Ok(())
            },
            S::IfStmt { expr, block, else_block } => {
                match self.reduce_expr(expr, stmts, s) {
                    Ok(_) => {},
                    Err(e) => {
                        return Err(e);
                    },
                }
                let ghost mc = lower_expr(*expr, ts, bb0);
                let if_id = s.fresh_bb_id();
                let mut then_stmts: Vec<Statement> = Vec::new();
                proof {
                    assert(views(then_stmts@) =~= Seq::<StmtV>::empty());
                }
                let ghost mt = lower_stmts(block.stmts@, ts, next_bb(mc.1));
                let ghost em = self.err.diags();
                match self.reduce_block_rec(block, &mut then_stmts, s) {
                    Ok(_) => {},
                    Err(e) => {
                        proof {
                            lemma_prefix_chain2(old(self).err.diags(), em, self.err.diags());
                            lemma_append_prefix(sv0, mc.0.unwrap());
                        }
                        return Err(e);
                    },
                }
                proof {
                    assert(views(then_stmts@) =~= Seq::<StmtV>::empty() + mt.0.unwrap());
                    assert(views(then_stmts@) == mt.0.unwrap());
                }
                let mut else_stmts: Vec<Statement> = Vec::new();
                proof {
                    assert(views(else_stmts@) =~= Seq::<StmtV>::empty());
                }
                let ghost me = match else_block {
                    Some(eb) => lower_stmts(eb.stmts@, ts, mt.1),
                    None => (Some(Seq::<StmtV>::empty()), mt.1),
                };
                let ghost em2 = self.err.diags();
                match else_block {
                    Some(eb) => {
                        match self.reduce_block_rec(eb, &mut else_stmts, s) {
                            Ok(_) => {},
                            Err(e) => {
                                proof {
                                    lemma_prefix_chain2(old(self).err.diags(), em2,
                                        self.err.diags());
                                    lemma_append_prefix(sv0, mc.0.unwrap());
                                }
                                return Err(e);
                            },
                        }
                        proof {
                            assert(views(else_stmts@) =~= Seq::<StmtV>::empty()
                                + me.0.unwrap());
                        }
                    },
                    None => {},
                }
                proof {
                    assert(views(else_stmts@) == me.0.unwrap());
                }
                let if_block = Block::If { id: if_id, then_stmts, else_stmts, t: None };
                let ghost ibv = if_block@;
                push_stmt(stmts, Statement::Block { block: Box::new(if_block) });
                proof {
                    lemma_prefix_chain2(old(self).err.diags(), em2, self.err.diags());
                    assert(views(stmts@) =~= sv0 + (mc.0.unwrap() + seq![
                        StmtV::Block { block: ibv },
                    ]));
                }
                Ok(())
            },
        }
    }

    /// Pushes the statements of a source block, in order.
    #[verifier::rlimit(100)]
    #[verifier::loop_isolation(false)]
    fn reduce_block_rec(
        &mut self,
        block: &NameBlock,
        stmts: &mut Vec<Statement>,
        s: &mut State,
    ) -> (r: Result<(), String>)
        requires
            old(s).types.wf(),
        ensures
            final(s).names == old(s).names,
            final(s).types == old(s).types,
            final(s).bb_id == lower_stmts(block.stmts@, old(s).types, old(s).bb_id).1,
            match r {
                Ok(_) => lower_stmts(block.stmts@, old(s).types, old(s).bb_id).0
                    matches Some(sv) && views(final(stmts)@) == views(old(stmts)@) + sv,
                Err(_) => lower_stmts(block.stmts@, old(s).types, old(s).bb_id).0 is None
                    && views(old(stmts)@).is_prefix_of(views(final(stmts)@)),
            },
            old(self).err.diags().is_prefix_of(final(self).err.diags()),
        decreases *block,
    {
        let ghost sv0 = views(stmts@);
        let ghost ts = s.types;
        let ghost bb0 = s.bb_id;
        let n = block.stmts.len();
        let mut i: usize = 0;
        let ghost mut acc: Seq<StmtV> = Seq::empty();
        proof {
            lemma_prefix_refl(self.err.diags());
            assert(block.stmts@.take(0) =~= Seq::<S>::empty());
            assert(views(stmts@) =~= sv0 + acc);
        }
        while i < n
            invariant
                i <= n,
                n == block.stmts@.len(),
                s.types == ts,
                s.names == old(s).names,
                lower_stmts(block.stmts@.take(i as int), ts, bb0) == (Some(acc), s.bb_id),
                views(stmts@) == sv0 + acc,
                old(self).err.diags().is_prefix_of(self.err.diags()),
            decreases n - i,
        {
            let ghost m = lower_stmt(block.stmts@[i as int], ts, s.bb_id);
            let ghost eb = self.err.diags();
            match self.reduce_stmt(&block.stmts[i], stmts, s) {
                Ok(_) => {},
                Err(e) => {
                    proof {
                        assert(block.stmts@.take(i as int + 1).drop_last()
                            =~= block.stmts@.take(i as int));
                        assert(block.stmts@.take(i as int + 1).last()
                            == block.stmts@[i as int]);
                        lemma_prefix_chain2(old(self).err.diags(), eb, self.err.diags());
                        lemma_stmts_error(block.stmts@, ts, bb0, i as int + 1);
                        lemma_append_prefix(sv0, acc);
                        lemma_prefix_chain2(sv0, sv0 + acc, views(stmts@));
                    }
                    return Err(e);
                },
            }
            proof {
                assert(block.stmts@.take(i as int + 1).drop_last()
                    =~= block.stmts@.take(i as int));
                assert(block.stmts@.take(i as int + 1).last() == block.stmts@[i as int]);
                lemma_prefix_chain2(old(self).err.diags(), eb, self.err.diags());
                assert(views(stmts@) =~= sv0 + (acc + m.0.unwrap()));
                acc = acc + m.0.unwrap();
            }
            i = i + 1;
        }
        proof {
            assert(block.stmts@.take(n as int) =~= block.stmts@);
        }
        Ok(())
    }

    /// Lowers one source block into a fresh labeled block.
    fn reduce_block(&mut self, block: &NameBlock, s: &mut State) -> (r: Result<Block, String>)
        requires
            old(s).types.wf(),
        ensures
            final(s).names == old(s).names,
            final(s).types == old(s).types,
            final(s).bb_id == lower_stmts(
                block.stmts@,
                old(s).types,
                next_bb(old(s).bb_id),
            ).1,
            match r {
                Ok(b) => lower_stmts(block.stmts@, old(s).types, next_bb(old(s).bb_id)).0
                    matches Some(sv) && b@ == (BlockV::Block {
                    id: old(s).bb_id,
                    stmts: sv,
                    t: None,
                }),
                Err(_) => lower_stmts(block.stmts@, old(s).types, next_bb(old(s).bb_id)).0
                    is None,
            },
            old(self).err.diags().is_prefix_of(final(self).err.diags()),
    {
        let id = s.fresh_bb_id();
        let mut body: Vec<Statement> = Vec::new();
        proof {
            assert(views(body@) =~= Seq::<StmtV>::empty());
        }
        let ghost m = lower_stmts(block.stmts@, s.types, s.bb_id);
        match self.reduce_block_rec(block, &mut body, s) {
            Ok(_) => {},
            Err(e) => {
                return Err(e);
            },
        }
        proof {
            assert(views(body@) =~= Seq::<StmtV>::empty() + m.0.unwrap());
            assert(views(body@) == m.0.unwrap());
        }
        Ok(Block::Block { id, stmts: body, t: None })
    }

    /// Collects the machine locals declared by a function's let-bound names.
    #[verifier::loop_isolation(false)]
    fn get_locals(&mut self, fun: &NameFun, s: &State) -> (r: Result<Vec<Local>, String>)
        requires
            s.names.wf(),
            s.types.wf(),
        ensures
            *final(self) == *old(self),
            match r {
                Ok(ls) => locals_of(fun.locals@, s.names, s.types) == Some(ls@),
                Err(_) => locals_of(fun.locals@, s.names, s.types) is None,
            },
    {
        let mut locals: Vec<Local> = Vec::new();
        let n = fun.locals.len();
        let mut i: usize = 0;
        proof {
            assert(fun.locals@.take(0) =~= Seq::<NameId>::empty());
            assert(locals@ =~= Seq::<Local>::empty());
        }
        while i < n
            invariant
                i <= n,
                n == fun.locals@.len(),
                locals_of(fun.locals@.take(i as int), s.names, s.types) == Some(locals@),
            decreases n - i,
        {
            let ghost ls0 = locals@;
            let local_name = fun.locals[i];
            let t_id = match s.names.get(local_name) {
                Some(name) => name.t_id,
                None => {
                    proof {
                        assert(fun.locals@.take(i as int + 1).drop_last()
                            =~= fun.locals@.take(i as int));
                        assert(fun.locals@.take(i as int + 1).last()
                            == fun.locals@[i as int]);
                        lemma_locals_error(fun.locals@, s.names, s.types, i as int + 1);
                    }
                    return Err(String::from_str("Unknown local name"));
                },
            };
            match get_type(t_id, s) {
                Ok(t) => {
                    locals.push(Local { id: local_name, t });
                    proof {
                        assert(fun.locals@.take(i as int + 1).drop_last()
                            =~= fun.locals@.take(i as int));
                        assert(fun.locals@.take(i as int + 1).last()
                            == fun.locals@[i as int]);
                        assert(locals@ == ls0.push(Local { id: local_name, t }));
                    }
                },
                Err(_) => {
                    proof {
                        assert(fun.locals@.take(i as int + 1).drop_last()
                            =~= fun.locals@.take(i as int));
                        assert(fun.locals@.take(i as int + 1).last()
                            == fun.locals@[i as int]);
                        lemma_locals_error(fun.locals@, s.names, s.types, i as int + 1);
                    }
                    return Err(String::from_str("Invalid local type"));
                },
            }
            i = i + 1;
        }
        proof {
            assert(fun.locals@.take(n as int) =~= fun.locals@);
        }
        Ok(locals)
    }

    /// Lowers one inline assembly statement, one to one.
    fn reduce_asm_statement(&mut self, stmt: &AsmStatement, _s: &mut State) -> (r: Result<
        Statement,
        String,
    >)
        ensures
            *final(self) == *old(self),
            *final(_s) == *old(_s),
            r matches Ok(st) && st@ == lower_asm_stmt(*stmt),
    {
        match stmt {
            AsmStatement::Const { val, .. } => Ok(Statement::Const { val: *val }),
            AsmStatement::Control { cntrl, .. } => match cntrl {
                AsmControl::Return => Ok(Statement::Control { cntrl: Control::Return }),
            },
            AsmStatement::Parametric { param, .. } => match param {
                AsmParametric::Drop => Ok(Statement::Parametric { param: Parametric::Drop }),
            },
        }
    }

    /// Lowers an inline assembly body, one statement at a time.
    #[verifier::loop_isolation(false)]
    fn reduce_asm_statements(&mut self, stmts: &Vec<AsmStatement>, s: &mut State) -> (r: Result<
        Vec<Statement>,
        String,
    >)
        ensures
            *final(s) == *old(s),
            *final(self) == *old(self),
            r matches Ok(v) && views(v@) == lower_asm(stmts@),
    {
        let mut reduced_stmts: Vec<Statement> = Vec::new();
        let n = stmts.len();
        let mut i: usize = 0;
        proof {
            assert(stmts@.take(0) =~= Seq::<AsmStatement>::empty());
            assert(views(reduced_stmts@) =~= lower_asm(stmts@.take(0)));
        }
        while i < n
            invariant
                i <= n,
                n == stmts@.len(),
                views(reduced_stmts@) == lower_asm(stmts@.take(i as int)),
                *s == *old(s),
                *self == *old(self),
            decreases n - i,
        {
            match self.reduce_asm_statement(&stmts[i], s) {
                Ok(st) => {
                    push_stmt(&mut reduced_stmts, st);
                    proof {
                        assert(stmts@.take(i as int + 1).drop_last()
                            =~= stmts@.take(i as int));
                        assert(stmts@.take(i as int + 1).last() == stmts@[i as int]);
                    }
                },
                Err(e) => {
                    return Err(e);
                },
            }
            i = i + 1;
        }
        proof {
            assert(stmts@.take(n as int) =~= stmts@);
        }
        Ok(reduced_stmts)
    }

    /// Lowers one typed function: its signature, parameter list, locals and
    /// body.
    #[verifier::rlimit(100)]
    #[verifier::loop_isolation(false)]
    fn reduce_fun(&mut self, fun: &NameFun, s: &mut State) -> (r: Result<Function, String>)
        requires
            old(s).names.wf(),
            old(s).types.wf(),
        ensures
            final(s).names == old(s).names,
            final(s).types == old(s).types,
            final(s).bb_id == lower_fun(*fun, old(s).names, old(s).types, old(s).bb_id).1,
            match r {
                Ok(f) => lower_fun(*fun, old(s).names, old(s).types, old(s).bb_id).0
                    == Some(f@),
                Err(_) => lower_fun(*fun, old(s).names, old(s).types, old(s).bb_id).0
                    is None,
            },
            ({
                let kf = fun.n_id.id_spec();
                old(s).names.contains_id(kf) && {
                    let t_id = old(s).names.spec_get(kf).t_id;
                    old(s).types.contains_id(t_id.id_spec()) && !(old(s).types.spec_get(
                        t_id.id_spec(),
                    )@ is Fun)
                }
            }) ==> old(self).err.dv().push(
                DiagV {
                    loc: Some(fun.loc),
                    message: "Function does not have function type"@,
                    internal: true,
                },
            ).is_prefix_of(final(self).err.dv()),
            old(self).err.diags().is_prefix_of(final(self).err.diags()),
    {
        proof {
            lemma_prefix_refl(self.err.diags());
        }
        let ghost names0 = s.names;
        let ghost ts = s.types;
        let ghost bb0 = s.bb_id;
        let t_id = match s.names.get(fun.n_id) {
            Some(name) => name.t_id,
            None => {
                return Err(String::from_str("Function without a bound name"));
            },
        };
        let (param_t, ret_t) = match s.types.get(t_id) {
            Some(t) => match t {
                ASTType::Fun(params, rets) => {
                    proof {
                        crate::types::lemma_views_of(params@);
                        crate::types::lemma_views_of(rets@);
                        assert(s.types.spec_get(t_id.id_spec())@ == TypeV::Fun(
                            crate::types::views_of(params@),
                            crate::types::views_of(rets@),
                        ));
                    }
                    let p = match convert_list(params) {
                        Ok(p) => p,
                        Err(e) => {
                            return Err(e);
                        },
                    };
                    let rt = match convert_list(rets) {
                        Ok(rt) => rt,
                        Err(e) => {
                            return Err(e);
                        },
                    };
                    (p, rt)
                },
                _ => {
                    self.err.report_internal(
                        fun.loc,
                        String::from_str("Function does not have function type"),
                    );
                    proof {
                        assert(old(self).err.diags().is_prefix_of(self.err.diags())) by {
                            assert(self.err.diags().subrange(
                                0,
                                old(self).err.diags().len() as int,
                            ) =~= old(self).err.diags());
                        }
                    }
                    (Vec::new(), Vec::new())
                },
            },
            None => {
                return Err(String::from_str("Function signature was not resolved"));
            },
        };
        proof {
            assert(old(self).err.diags().is_prefix_of(self.err.diags()));
        }
        let ghost em = self.err.diags();
        let mut params_ids: Vec<NameId> = Vec::new();
        proof {
            lemma_prefix_refl(em);
        }
        let np = fun.params.len();
        let mut i: usize = 0;
        while i < np
            invariant
                i <= np,
                np == fun.params@.len(),
                params_ids@ == fun.params@.take(i as int).map_values(
                    |p: crate::hir::Variable| p.n_id,
                ),
            decreases np - i,
        {
            let ghost pv0 = params_ids@;
            params_ids.push(fun.params[i].n_id);
            proof {
                assert(params_ids@ =~= fun.params@.take(i as int + 1).map_values(
                    |p: crate::hir::Variable| p.n_id,
                ));
            }
            i = i + 1;
        }
        proof {
            assert(fun.params@.take(np as int) =~= fun.params@);
        }
        let locals = match self.get_locals(fun, s) {
            Ok(ls) => ls,
            Err(e) => {
                proof {
                    lemma_diag_views_prefix(em, self.err.diags());
                }
                return Err(e);
            },
        };
        let block = match &fun.body {
            NameBody::Zephyr(block) => {
                let ghost em2 = self.err.diags();
                match self.reduce_block(block, s) {
                    Ok(b) => {
                        proof {
                            lemma_prefix_chain2(old(self).err.diags(), em2,
                                self.err.diags());
                            lemma_prefix_chain2(em, em2, self.err.diags());
                            lemma_diag_views_prefix(em, self.err.diags());
                        }
                        b
                    },
                    Err(e) => {
                        proof {
                            lemma_prefix_chain2(old(self).err.diags(), em2,
                                self.err.diags());
                            lemma_prefix_chain2(em, em2, self.err.diags());
                            lemma_diag_views_prefix(em, self.err.diags());
                        }
                        return Err(e);
                    },
                }
            },
            NameBody::Asm(asm_stmts) => {
                let id = s.fresh_bb_id();
                let st = match self.reduce_asm_statements(asm_stmts, s) {
                    Ok(st) => st,
                    Err(e) => {
                        proof {
                            lemma_diag_views_prefix(em, self.err.diags());
                        }
                        return Err(e);
                    },
                };
                proof {
                    lemma_diag_views_prefix(em, self.err.diags());
                }
                Block::Block { id, stmts: st, t: None }
            },
        };
        let exposed = match &fun.exposed {
            Some(e) => Some(e.clone()),
            None => None,
        };
        let f = Function {
            ident: fun.ident.clone(),
            params: params_ids,
            param_types: param_t,
            ret_types: ret_t,
            locals,
            body: block,
            is_pub: fun.is_pub,
            exposed,
            fun_id: fun.fun_id,
        };
        proof {
            assert(lower_fun(*fun, names0, ts, bb0).0 == Some(f@));
        }
        Ok(f)
    }

    /// Lowers a checked program to the stack-machine representation. A
    /// function whose lowering fails is reported to the sink and left out;
    /// the exported declarations are carried through.
    #[verifier::loop_isolation(false)]
    pub fn reduce(&mut self, prog: TypedProgram) -> (r: Program)
        requires
            prog.names.wf(),
            prog.types.wf(),
        ensures
            fun_views(r.funs@) == lower_funs(prog.funs@, prog.names, prog.types, 0).0,
            r.pub_decls == prog.pub_decls,
            forall|i: int| 0 <= i < r.funs@.len() ==> block_targets_ok(
                ((#[trigger] r.funs@[i])@).body,
                Set::empty(),
            ),
            final(self).err.diags() == old(self).err.diags() ==> r.funs@.len()
                == prog.funs@.len(),
            old(self).err.diags().is_prefix_of(final(self).err.diags()),
    {
        let TypedProgram { funs, names, types, pub_decls } = prog;
        let mut state = State::new(names, types);
        let mut out: Vec<Function> = Vec::new();
        let n = funs.len();
        let mut i: usize = 0;
        proof {
            lemma_prefix_refl(self.err.diags());
            assert(funs@.take(0) =~= Seq::<NameFun>::empty());
            assert(fun_views(out@) =~= lower_funs(funs@.take(0), names, types, 0).0);
        }
        while i < n
            invariant
                i <= n,
                n == funs@.len(),
                state.names == names,
                state.types == types,
                (fun_views(out@), state.bb_id) == lower_funs(funs@.take(i as int), names,
                    types, 0),
                old(self).err.diags().is_prefix_of(self.err.diags()),
                self.err.diags() == old(self).err.diags() ==> out@.len() == i,
            decreases n - i,
        {
            let ghost eb = self.err.diags();
            let ghost out0 = out@;
            match self.reduce_fun(&funs[i], &mut state) {
                Ok(f) => {
                    out.push(f);
                    proof {
                        assert(funs@.take(i as int + 1).drop_last() =~= funs@.take(i as int));
                        assert(funs@.take(i as int + 1).last() == funs@[i as int]);
                        assert(out@.drop_last() =~= out0);
                        lemma_prefix_chain2(old(self).err.diags(), eb, self.err.diags());
                    }
                },
                Err(e) => {
                    self.err.report_internal_no_loc(e);
                    proof {
                        assert(funs@.take(i as int + 1).drop_last() =~= funs@.take(i as int));
                        assert(funs@.take(i as int + 1).last() == funs@[i as int]);
                        lemma_prefix_chain2(old(self).err.diags(), eb, self.err.diags());
                        assert(self.err.diags() != old(self).err.diags()) by {
                            assert(old(self).err.diags().len() <= eb.len());
                            assert(eb.len() < self.err.diags().len());
                        }
                    }
                },
            }
            i = i + 1;
        }
        proof {
            assert(funs@.take(n as int) =~= funs@);
            lemma_program_lowering_ok(funs@, names, types, 0);
            lemma_fun_views(out@);
            assert forall|i: int| 0 <= i < out@.len() implies block_targets_ok(
                ((#[trigger] out@[i])@).body,
                Set::empty(),
            ) by {
                assert(fun_views(out@)[i] == out@[i]@);
            }
        }
        Program { funs: out, pub_decls }
    }
}

/// Every branch in a statement targets one of the labels of the blocks
/// enclosing it.
pub open spec fn stmt_targets_ok(st: StmtV, labels: Set<BasicBlockId>) -> bool
    decreases st,
{
    match st {
        StmtV::Control { cntrl } => match cntrl {
            Control::Br(id) => labels.contains(id),
            Control::BrIf(id) => labels.contains(id),
            Control::Return => true,
        },
        StmtV::Block { block } => block_targets_ok(block, labels),
        _ => true,
    }
}

/// Every branch in a list of statements targets an enclosing label.
pub open spec fn stmts_targets_ok(stmts: Seq<StmtV>, labels: Set<BasicBlockId>) -> bool
    decreases stmts,
{
    if stmts.len() == 0 {
        true
    } else {
        stmts_targets_ok(stmts.drop_last(), labels) && stmt_targets_ok(stmts.last(), labels)
    }
}

/// Every branch in a block targets the label of an enclosing `Block` or
/// `Loop`: those two open a branch target, an `If` does not.
pub open spec fn block_targets_ok(b: BlockV, labels: Set<BasicBlockId>) -> bool
    decreases b,
{
    match b {
        BlockV::Block { id, stmts, .. } => stmts_targets_ok(stmts, labels.insert(id)),
        BlockV::Loop { id, stmts, .. } => stmts_targets_ok(stmts, labels.insert(id)),
        BlockV::If { then_stmts, else_stmts, .. } => stmts_targets_ok(then_stmts, labels)
            && stmts_targets_ok(else_stmts, labels),
    }
}

/// Every local a statement reads or writes is one of the given ids.
pub open spec fn stmt_locals_ok(st: StmtV, ids: Set<NameId>) -> bool
    decreases st,
{
    match st {
        StmtV::GetLocal { l_id } => ids.contains(l_id),
        StmtV::SetLocal { l_id } => ids.contains(l_id),
        StmtV::Block { block } => block_locals_ok(block, ids),
        _ => true,
    }
}

/// Every local a list of statements touches is one of the given ids.
pub open spec fn stmts_locals_ok(stmts: Seq<StmtV>, ids: Set<NameId>) -> bool
    decreases stmts,
{
    if stmts.len() == 0 {
        true
    } else {
        stmts_locals_ok(stmts.drop_last(), ids) && stmt_locals_ok(stmts.last(), ids)
    }
}

/// Every local a block touches is one of the given ids.
pub open spec fn block_locals_ok(b: BlockV, ids: Set<NameId>) -> bool
    decreases b,
{
    match b {
        BlockV::Block { stmts, .. } => stmts_locals_ok(stmts, ids),
        BlockV::Loop { stmts, .. } => stmts_locals_ok(stmts, ids),
        BlockV::If { then_stmts, else_stmts, .. } => stmts_locals_ok(then_stmts, ids)
            && stmts_locals_ok(else_stmts, ids),
    }
}

/// Every name an expression reads is one of the given ids.
pub open spec fn expr_scoped(e: Expr, ids: Set<NameId>) -> bool
    decreases e,
{
    match e {
        Expr::Literal { .. } => true,
        Expr::Variable { var } => ids.contains(var.n_id),
        Expr::Function { .. } => true,
        Expr::Binary { expr_left, expr_right, .. } => expr_scoped(*expr_left, ids)
            && expr_scoped(*expr_right, ids),
        Expr::Unary { expr, .. } => expr_scoped(*expr, ids),
        Expr::CallDirect { args, .. } => args_scoped(args@, ids),
        Expr::CallIndirect { .. } => true,
    }
}

/// Every name a list of expressions reads is one of the given ids.
pub open spec fn args_scoped(args: Seq<Expr>, ids: Set<NameId>) -> bool
    decreases args,
{
    if args.len() == 0 {
        true
    } else {
        args_scoped(args.drop_last(), ids) && expr_scoped(args.last(), ids)
    }
}

/// Every name a statement reads or writes is one of the given ids.
pub open spec fn hir_stmt_scoped(st: S, ids: Set<NameId>) -> bool
    decreases st,
{
    match st {
        S::AssignStmt { var, expr } => ids.contains(var.n_id) && expr_scoped(expr, ids),
        S::LetStmt { var, expr } => ids.contains(var.n_id) && expr_scoped(expr, ids),
        S::ExprStmt { expr } => expr_scoped(expr, ids),
        S::ReturnStmt { expr, .. } => match expr {
            Some(e) => expr_scoped(e, ids),
            None => true,
        },
        S::WhileStmt { expr, block } => expr_scoped(expr, ids) && hir_stmts_scoped(
            block.stmts@,
            ids,
        ),
        S::IfStmt { expr, block, else_block } => expr_scoped(expr, ids) && hir_stmts_scoped(
            block.stmts@,
            ids,
        ) && match else_block {
            Some(eb) => hir_stmts_scoped(eb.stmts@, ids),
            None => true,
        },
    }
}

/// Every name a list of statements touches is one of the given ids.
pub open spec fn hir_stmts_scoped(stmts: Seq<S>, ids: Set<NameId>) -> bool
    decreases stmts,
{
    if stmts.len() == 0 {
        true
    } else {
        hir_stmts_scoped(stmts.drop_last(), ids) && hir_stmt_scoped(stmts.last(), ids)
    }
}

/// The local ids a function declares: its parameters and its let-bound
/// locals.
pub open spec fn fun_local_ids(f: NameFun) -> Set<NameId> {
    f.params@.map_values(|p: crate::hir::Variable| p.n_id).to_set().union(
        f.locals@.to_set(),
    )
}

/// Concatenation preserves both structural statement facts.
proof fn lemma_stmts_ok_concat(a: Seq<StmtV>, b: Seq<StmtV>, labels: Set<BasicBlockId>, ids: Set<
    NameId,
>)
    ensures
        stmts_targets_ok(a, labels) && stmts_targets_ok(b, labels) ==> stmts_targets_ok(
            a + b,
            labels,
        ),
        stmts_locals_ok(a, ids) && stmts_locals_ok(b, ids) ==> stmts_locals_ok(a + b, ids),
    decreases b,
{
    if b.len() == 0 {
        assert(a + b =~= a);
    } else {
        lemma_stmts_ok_concat(a, b.drop_last(), labels, ids);
        assert((a + b).drop_last() =~= a + b.drop_last());
        assert((a + b).last() == b.last());
    }
}

/// The statements an expression lowers to only branch to enclosing labels,
/// and only touch names the expression reads.
pub proof fn lemma_expr_lowering_ok(
    e: Expr,
    ts: TypeStore,
    bb: u64,
    labels: Set<BasicBlockId>,
    ids: Set<NameId>,
)
    ensures
        ({
            let (o, _) = lower_expr(e, ts, bb);
            o matches Some(sv) ==> stmts_targets_ok(sv, labels) && (expr_scoped(e, ids)
                ==> stmts_locals_ok(sv, ids))
        }),
    decreases e,
{
    reveal_with_fuel(stmts_targets_ok, 5);
    reveal_with_fuel(stmts_locals_ok, 5);
    let (o, _) = lower_expr(e, ts, bb);
    if o is Some {
        let sv = o.unwrap();
        match e {
            Expr::Literal { .. } => {
                assert(sv.drop_last() =~= Seq::<StmtV>::empty());
            },
            Expr::Variable { var } => {
                assert(sv.drop_last() =~= Seq::<StmtV>::empty());
            },
            Expr::Function { .. } => {},
            Expr::Binary { expr_left, binop, expr_right, op_t_id, .. } => {
                let t = lookup_type(ts, op_t_id).unwrap();
                match get_binop_spec(binop, t).unwrap() {
                    FromBinop::Binop(b) => {
                        let (o1, bb1) = lower_expr(*expr_left, ts, bb);
                        let (o2, _) = lower_expr(*expr_right, ts, bb1);
                        lemma_expr_lowering_ok(*expr_left, ts, bb, labels, ids);
                        lemma_expr_lowering_ok(*expr_right, ts, bb1, labels, ids);
                        let tail = seq![StmtV::Binop { binop: b }];
                        assert(stmts_targets_ok(tail, labels) && stmts_locals_ok(tail, ids))
                            by {
                            assert(tail.drop_last() =~= Seq::<StmtV>::empty());
                        }
                        lemma_stmts_ok_concat(o1.unwrap(), o2.unwrap(), labels, ids);
                        lemma_stmts_ok_concat(o1.unwrap() + o2.unwrap(), tail, labels, ids);
                    },
                    FromBinop::Relop(rl) => {
                        let (o1, bb1) = lower_expr(*expr_left, ts, bb);
                        let (o2, _) = lower_expr(*expr_right, ts, bb1);
                        lemma_expr_lowering_ok(*expr_left, ts, bb, labels, ids);
                        lemma_expr_lowering_ok(*expr_right, ts, bb1, labels, ids);
                        let tail = seq![StmtV::Relop { relop: rl }];
                        assert(stmts_targets_ok(tail, labels) && stmts_locals_ok(tail, ids))
                            by {
                            assert(tail.drop_last() =~= Seq::<StmtV>::empty());
                        }
                        lemma_stmts_ok_concat(o1.unwrap(), o2.unwrap(), labels, ids);
                        lemma_stmts_ok_concat(o1.unwrap() + o2.unwrap(), tail, labels, ids);
                    },
                    FromBinop::Logical(l) => {
                        let if_id = bb;
                        let (o2, bb1) = lower_expr(*expr_right, ts, next_bb(bb));
                        let (o1, _) = lower_expr(*expr_left, ts, bb1);
                        lemma_expr_lowering_ok(*expr_right, ts, next_bb(bb), labels, ids);
                        lemma_expr_lowering_ok(*expr_left, ts, bb1, labels, ids);
                        let single = seq![StmtV::Const { val: Value::I32(0) }];
                        let single1 = seq![StmtV::Const { val: Value::I32(1) }];
                        assert(stmts_targets_ok(single, labels) && stmts_locals_ok(single,
                            ids)) by {
                            assert(single.drop_last() =~= Seq::<StmtV>::empty());
                        }
                        assert(stmts_targets_ok(single1, labels) && stmts_locals_ok(
                            single1, ids)) by {
                            assert(single1.drop_last() =~= Seq::<StmtV>::empty());
                        }
                        let ifb = match l {
                            Logical::And => BlockV::If {
                                id: if_id,
                                then_stmts: o2.unwrap(),
                                else_stmts: single,
                                t: Some(Type::I32),
                            },
                            Logical::Or => BlockV::If {
                                id: if_id,
                                then_stmts: single1,
                                else_stmts: o2.unwrap(),
                                t: Some(Type::I32),
                            },
                        };
                        let tail = seq![StmtV::Block { block: ifb }];
                        assert(stmts_targets_ok(tail, labels) && (expr_scoped(e, ids)
                            ==> stmts_locals_ok(tail, ids))) by {
                            assert(tail.drop_last() =~= Seq::<StmtV>::empty());
                        }
                        lemma_stmts_ok_concat(o1.unwrap(), tail, labels, ids);
                    },
                }
            },
            Expr::Unary { unop, expr, t_id, .. } => {
                let t = lookup_type(ts, t_id).unwrap();
                let (oi, _) = lower_expr(*expr, ts, bb);
                lemma_expr_lowering_ok(*expr, ts, bb, labels, ids);
                let prefix = match unop {
                    ASTUnop::Minus => match t {
                        Type::I32 => seq![StmtV::Const { val: Value::I32(0) }],
                        Type::I64 => seq![StmtV::Const { val: Value::I64(0) }],
                        _ => Seq::<StmtV>::empty(),
                    },
                    ASTUnop::Not => match t {
                        Type::I32 => seq![StmtV::Const { val: Value::I32(1) }],
                        _ => Seq::<StmtV>::empty(),
                    },
                };
                assert(stmts_targets_ok(prefix, labels) && stmts_locals_ok(prefix, ids)) by {
                    if prefix.len() > 0 {
                        assert(prefix.drop_last() =~= Seq::<StmtV>::empty());
                    }
                }
                let opst = match unop {
                    ASTUnop::Minus => match t {
                        Type::I32 => StmtV::Binop { binop: Binop::I32Sub },
                        Type::I64 => StmtV::Binop { binop: Binop::I64Sub },
                        Type::F32 => StmtV::Unop { unop: Unop::F32Neg },
                        Type::F64 => StmtV::Unop { unop: Unop::F64Neg },
                    },
                    ASTUnop::Not => StmtV::Binop { binop: Binop::I32Xor },
                };
                let tail = seq![opst];
                assert(stmts_targets_ok(tail, labels) && stmts_locals_ok(tail, ids)) by {
                    assert(tail.drop_last() =~= Seq::<StmtV>::empty());
                }
                lemma_stmts_ok_concat(prefix, oi.unwrap(), labels, ids);
                lemma_stmts_ok_concat(prefix + oi.unwrap(), tail, labels, ids);
            },
            Expr::CallDirect { fun_id, args, .. } => {
                let (oa, _) = lower_args(args@, ts, bb);
                lemma_args_lowering_ok(args@, ts, bb, labels, ids);
                let tail = seq![StmtV::Call { call: Call::Direct(fun_id) }];
                assert(stmts_targets_ok(tail, labels) && stmts_locals_ok(tail, ids)) by {
                    assert(tail.drop_last() =~= Seq::<StmtV>::empty());
                }
                lemma_stmts_ok_concat(oa.unwrap(), tail, labels, ids);
            },
            Expr::CallIndirect { .. } => {},
        }
    }
}

/// The statements an argument list lowers to only branch to enclosing
/// labels and only touch names the arguments read.
pub proof fn lemma_args_lowering_ok(
    args: Seq<Expr>,
    ts: TypeStore,
    bb: u64,
    labels: Set<BasicBlockId>,
    ids: Set<NameId>,
)
    ensures
        ({
            let (o, _) = lower_args(args, ts, bb);
            o matches Some(sv) ==> stmts_targets_ok(sv, labels) && (args_scoped(args, ids)
                ==> stmts_locals_ok(sv, ids))
        }),
    decreases args,
{
    reveal_with_fuel(stmts_targets_ok, 5);
    reveal_with_fuel(stmts_locals_ok, 5);
    let (o, _) = lower_args(args, ts, bb);
    if o is Some && args.len() > 0 {
        let (o1, bb1) = lower_args(args.drop_last(), ts, bb);
        let (o2, _) = lower_expr(args.last(), ts, bb1);
        lemma_args_lowering_ok(args.drop_last(), ts, bb, labels, ids);
        lemma_expr_lowering_ok(args.last(), ts, bb1, labels, ids);
        lemma_stmts_ok_concat(o1.unwrap(), o2.unwrap(), labels, ids);
    }
}

/// The statements one source statement lowers to only branch to enclosing
/// labels and only touch names it declares or reads.
#[verifier::rlimit(100)]
#[verifier::spinoff_prover]
pub proof fn lemma_stmt_lowering_ok(
    st: S,
    ts: TypeStore,
    bb: u64,
    labels: Set<BasicBlockId>,
    ids: Set<NameId>,
)
    ensures
        ({
            let (o, _) = lower_stmt(st, ts, bb);
            o matches Some(sv) ==> stmts_targets_ok(sv, labels) && (hir_stmt_scoped(st, ids)
                ==> stmts_locals_ok(sv, ids))
        }),
    decreases st,
{
    reveal_with_fuel(stmts_targets_ok, 5);
    reveal_with_fuel(stmts_locals_ok, 5);
    let (o, _) = lower_stmt(st, ts, bb);
    if o is Some {
        match st {
            S::AssignStmt { var, expr } => {
                let (oe, _) = lower_expr(expr, ts, bb);
                lemma_expr_lowering_ok(expr, ts, bb, labels, ids);
                let tail = seq![StmtV::SetLocal { l_id: var.n_id }];
                assert(stmts_targets_ok(tail, labels) && (ids.contains(var.n_id)
                    ==> stmts_locals_ok(tail, ids))) by {
                    assert(tail.drop_last() =~= Seq::<StmtV>::empty());
                }
                lemma_stmts_ok_concat(oe.unwrap(), tail, labels, ids);
            },
            S::LetStmt { var, expr } => {
                let (oe, _) = lower_expr(expr, ts, bb);
                lemma_expr_lowering_ok(expr, ts, bb, labels, ids);
                let tail = seq![StmtV::SetLocal { l_id: var.n_id }];
                assert(stmts_targets_ok(tail, labels) && (ids.contains(var.n_id)
                    ==> stmts_locals_ok(tail, ids))) by {
                    assert(tail.drop_last() =~= Seq::<StmtV>::empty());
                }
                lemma_stmts_ok_concat(oe.unwrap(), tail, labels, ids);
            },
            S::ExprStmt { expr } => {
                let (oe, _) = lower_expr(expr, ts, bb);
                lemma_expr_lowering_ok(expr, ts, bb, labels, ids);
                let tail = seq![StmtV::Parametric { param: Parametric::Drop }];
                assert(stmts_targets_ok(tail, labels) && stmts_locals_ok(tail, ids)) by {
                    assert(tail.drop_last() =~= Seq::<StmtV>::empty());
                }
                lemma_stmts_ok_concat(oe.unwrap(), tail, labels, ids);
            },
            S::ReturnStmt { expr, .. } => {
                let tail = seq![StmtV::Control { cntrl: Control::Return }];
                assert(stmts_targets_ok(tail, labels) && stmts_locals_ok(tail, ids)) by {
                    assert(tail.drop_last() =~= Seq::<StmtV>::empty());
                }
                match expr {
                    Some(ex) => {
                        let (oe, _) = lower_expr(ex, ts, bb);
                        lemma_expr_lowering_ok(ex, ts, bb, labels, ids);
                        lemma_stmts_ok_concat(oe.unwrap(), tail, labels, ids);
                    },
                    None => {},
                }
            },
            S::WhileStmt { expr, block } => {
                let block_id = bb;
                let loop_id = next_bb(bb);
                let inner = labels.insert(block_id).insert(loop_id);
                let (oc, bb1) = lower_expr(expr, ts, next_bb(next_bb(bb)));
                let (ob, _) = lower_stmts(block.stmts@, ts, bb1);
                lemma_expr_lowering_ok(expr, ts, next_bb(next_bb(bb)), inner, ids);
                lemma_stmts_lowering_ok(block.stmts@, ts, bb1, inner, ids);
                let mid = seq![
                    StmtV::Const { val: Value::I32(1) },
                    StmtV::Binop { binop: Binop::I32Xor },
                    StmtV::Control { cntrl: Control::BrIf(block_id) },
                ];
                assert(stmts_targets_ok(mid, inner) && stmts_locals_ok(mid, ids)) by {
                    assert(mid.drop_last().drop_last().drop_last() =~= Seq::<StmtV>::empty());
                }
                let tail = seq![StmtV::Control { cntrl: Control::Br(loop_id) }];
                assert(stmts_targets_ok(tail, inner) && stmts_locals_ok(tail, ids)) by {
                    assert(tail.drop_last() =~= Seq::<StmtV>::empty());
                }
                lemma_stmts_ok_concat(oc.unwrap(), mid, inner, ids);
                lemma_stmts_ok_concat(oc.unwrap() + mid, ob.unwrap(), inner, ids);
                lemma_stmts_ok_concat(oc.unwrap() + mid + ob.unwrap(), tail, inner, ids);
                let loop_stmts = oc.unwrap() + mid + ob.unwrap() + tail;
                let loopv = BlockV::Loop { id: loop_id, stmts: loop_stmts, t: None };
                let wrap = seq![StmtV::Block { block: loopv }];
                assert(labels.insert(block_id).insert(loop_id) =~= inner);
                assert(stmts_targets_ok(wrap, labels.insert(block_id))
                    && (hir_stmt_scoped(st, ids) ==> stmts_locals_ok(wrap, ids))) by {
                    assert(wrap.drop_last() =~= Seq::<StmtV>::empty());
                }
                let blockv = BlockV::Block { id: block_id, stmts: wrap, t: None };
                let out = seq![StmtV::Block { block: blockv }];
                assert(stmts_targets_ok(out, labels) && (hir_stmt_scoped(st, ids)
                    ==> stmts_locals_ok(out, ids))) by {
                    assert(out.drop_last() =~= Seq::<StmtV>::empty());
                }
            },
            S::IfStmt { expr, block, else_block } => {
                let (oc, bb1) = lower_expr(expr, ts, bb);
                let if_id = bb1;
                let (ot, bb3) = lower_stmts(block.stmts@, ts, next_bb(bb1));
                lemma_expr_lowering_ok(expr, ts, bb, labels, ids);
                lemma_stmts_lowering_ok(block.stmts@, ts, next_bb(bb1), labels, ids);
                let els = match else_block {
                    Some(eb) => {
                        lemma_stmts_lowering_ok(eb.stmts@, ts, bb3, labels, ids);
                        lower_stmts(eb.stmts@, ts, bb3).0.unwrap()
                    },
                    None => Seq::<StmtV>::empty(),
                };
                let ifv = BlockV::If {
                    id: if_id,
                    then_stmts: ot.unwrap(),
                    else_stmts: els,
                    t: None,
                };
                let tail = seq![StmtV::Block { block: ifv }];
                assert(stmts_targets_ok(tail, labels) && (hir_stmt_scoped(st, ids)
                    ==> stmts_locals_ok(tail, ids))) by {
                    assert(tail.drop_last() =~= Seq::<StmtV>::empty());
                }
                lemma_stmts_ok_concat(oc.unwrap(), tail, labels, ids);
            },
        }
    }
}

/// The statements a block body lowers to only branch to enclosing labels
/// and only touch names it declares or reads.
pub proof fn lemma_stmts_lowering_ok(
    stmts: Seq<S>,
    ts: TypeStore,
    bb: u64,
    labels: Set<BasicBlockId>,
    ids: Set<NameId>,
)
    ensures
        ({
            let (o, _) = lower_stmts(stmts, ts, bb);
            o matches Some(sv) ==> stmts_targets_ok(sv, labels) && (hir_stmts_scoped(
                stmts,
                ids,
            ) ==> stmts_locals_ok(sv, ids))
        }),
    decreases stmts,
{
    reveal_with_fuel(stmts_targets_ok, 5);
    reveal_with_fuel(stmts_locals_ok, 5);
    let (o, _) = lower_stmts(stmts, ts, bb);
    if o is Some && stmts.len() > 0 {
        let (o1, bb1) = lower_stmts(stmts.drop_last(), ts, bb);
        let (o2, _) = lower_stmt(stmts.last(), ts, bb1);
        lemma_stmts_lowering_ok(stmts.drop_last(), ts, bb, labels, ids);
        lemma_stmt_lowering_ok(stmts.last(), ts, bb1, labels, ids);
        lemma_stmts_ok_concat(o1.unwrap(), o2.unwrap(), labels, ids);
    }
}

/// An inline assembly body contains no branch and touches no local.
pub proof fn lemma_asm_lowering_ok(
    stmts: Seq<AsmStatement>,
    labels: Set<BasicBlockId>,
    ids: Set<NameId>,
)
    ensures
        stmts_targets_ok(lower_asm(stmts), labels),
        stmts_locals_ok(lower_asm(stmts), ids),
    decreases stmts,
{
    reveal_with_fuel(stmts_targets_ok, 3);
    reveal_with_fuel(stmts_locals_ok, 3);
    if stmts.len() > 0 {
        lemma_asm_lowering_ok(stmts.drop_last(), labels, ids);
        let stv = lower_asm_stmt(stmts.last());
        assert(stmt_targets_ok(stv, labels) && stmt_locals_ok(stv, ids)) by {
            match stmts.last() {
                AsmStatement::Const { .. } => {},
                AsmStatement::Control { .. } => {},
                AsmStatement::Parametric { .. } => {},
            }
        }
        assert(lower_asm(stmts).drop_last() == lower_asm(stmts.drop_last()));
        assert(lower_asm(stmts).last() == stv);
    }
}

/// Every `Br` and `BrIf` in the body of a lowered function targets the
/// label of an enclosing `Block` or `Loop`, and every local read or written
/// by a `GetLocal` or `SetLocal` is a parameter or declared local of the
/// function, provided the source function only read names it declared.
pub proof fn lemma_fun_lowering_ok(f: NameFun, names: NameStore, ts: TypeStore, bb: u64)
    ensures
        ({
            let (o, _) = lower_fun(f, names, ts, bb);
            o matches Some(fv) ==> block_targets_ok(fv.body, Set::empty())
                && (fun_body_scoped(f) ==> block_locals_ok(fv.body, fun_local_ids(f)))
        }),
{
    let (o, _) = lower_fun(f, names, ts, bb);
    if o is Some {
        let fv = o.unwrap();
        let ids = fun_local_ids(f);
        match f.body {
            NameBody::Zephyr(block) => {
                lemma_stmts_lowering_ok(
                    block.stmts@,
                    ts,
                    next_bb(bb),
                    Set::empty().insert(bb),
                    ids,
                );
            },
            NameBody::Asm(stmts) => {
                lemma_asm_lowering_ok(stmts@, Set::empty().insert(bb), ids);
            },
        }
    }
}

/// Lowering preserves the evaluation order of side-effectful
/// sub-expressions: an arithmetic or comparison operation lowers to the
/// left operand's statements, then the right operand's, then one
/// instruction.
pub proof fn lemma_eval_order_binary(e: Expr, ts: TypeStore, bb: u64)
    requires
        e is Binary,
        lower_expr(e, ts, bb).0 is Some,
        !(get_binop_spec(e->Binary_binop, lookup_type(ts, e->Binary_op_t_id).unwrap())
            matches Some(FromBinop::Logical(_))),
    ensures
        ({
            let (o1, bb1) = lower_expr(*e->Binary_expr_left, ts, bb);
            let (o2, _) = lower_expr(*e->Binary_expr_right, ts, bb1);
            &&& o1 is Some
            &&& o2 is Some
            &&& exists|instr: StmtV| lower_expr(e, ts, bb).0 == Some(
                o1.unwrap() + o2.unwrap() + seq![instr],
            )
        }),
{
    let (o1, bb1) = lower_expr(*e->Binary_expr_left, ts, bb);
    let (o2, _) = lower_expr(*e->Binary_expr_right, ts, bb1);
    match get_binop_spec(e->Binary_binop, lookup_type(ts, e->Binary_op_t_id).unwrap()) {
        Some(FromBinop::Binop(b)) => {
            assert(lower_expr(e, ts, bb).0 == Some(o1.unwrap() + o2.unwrap() + seq![
                StmtV::Binop { binop: b },
            ]));
        },
        Some(FromBinop::Relop(r)) => {
            assert(lower_expr(e, ts, bb).0 == Some(o1.unwrap() + o2.unwrap() + seq![
                StmtV::Relop { relop: r },
            ]));
        },
        _ => {},
    }
}

/// Lowering preserves the evaluation order of call arguments: the
/// statements of every argument follow the statements of all arguments to
/// its left.
pub proof fn lemma_eval_order_args(args: Seq<Expr>, ts: TypeStore, bb: u64)
    requires
        args.len() > 0,
        lower_args(args, ts, bb).0 is Some,
    ensures
        ({
            let (op, bbp) = lower_args(args.drop_last(), ts, bb);
            let (ol, _) = lower_expr(args.last(), ts, bbp);
            &&& op is Some
            &&& ol is Some
            &&& lower_args(args, ts, bb).0 == Some(op.unwrap() + ol.unwrap())
        }),
{
}

/// Every function of an emitted program keeps both structural rules: its
/// branches only target enclosing labels, and — when the source function
/// only read names it declared — its body only touches the function's own
/// parameters and locals.
pub proof fn lemma_program_lowering_ok(
    funs: Seq<NameFun>,
    names: NameStore,
    ts: TypeStore,
    bb: u64,
)
    ensures
        ({
            let (fvs, _) = lower_funs(funs, names, ts, bb);
            forall|i: int| 0 <= i < fvs.len() ==> {
                &&& block_targets_ok((#[trigger] fvs[i]).body, Set::empty())
                &&& exists|j: int, b2: u64| 0 <= j < funs.len() && (#[trigger] lower_fun(
                    funs[j],
                    names,
                    ts,
                    b2,
                )).0 == Some(fvs[i]) && (fun_body_scoped(funs[j]) ==> block_locals_ok(
                    fvs[i].body,
                    fun_local_ids(funs[j]),
                ))
            }
        }),
    decreases funs,
{
    if funs.len() > 0 {
        let (rest, bb1) = lower_funs(funs.drop_last(), names, ts, bb);
        let (of, _) = lower_fun(funs.last(), names, ts, bb1);
        lemma_program_lowering_ok(funs.drop_last(), names, ts, bb);
        lemma_fun_lowering_ok(funs.last(), names, ts, bb1);
        let (fvs, _) = lower_funs(funs, names, ts, bb);
        assert forall|i: int| 0 <= i < fvs.len() implies {
            &&& block_targets_ok((#[trigger] fvs[i]).body, Set::empty())
            &&& exists|j: int, b2: u64| 0 <= j < funs.len() && (#[trigger] lower_fun(
                funs[j],
                names,
                ts,
                b2,
            )).0 == Some(fvs[i]) && (fun_body_scoped(funs[j]) ==> block_locals_ok(
                fvs[i].body,
                fun_local_ids(funs[j]),
            ))
        } by {
            if i < rest.len() {
                assert(fvs[i] == rest[i]);
                let (j, b2) = choose|j: int, b2: u64| 0 <= j < funs.drop_last().len()
                    && (#[trigger] lower_fun(funs.drop_last()[j], names, ts, b2)).0
                        == Some(rest[i]) && (fun_body_scoped(funs.drop_last()[j])
                        ==> block_locals_ok(rest[i].body, fun_local_ids(funs.drop_last()[j])));
                assert(funs.drop_last()[j] == funs[j]);
                assert((#[trigger] lower_fun(funs[j], names, ts, b2)).0 == Some(fvs[i]));
            } else {
                assert(of == Some(fvs[i]));
                assert(funs[funs.len() - 1] == funs.last());
                assert((#[trigger] lower_fun(funs[funs.len() - 1], names, ts, bb1)).0
                    == Some(fvs[i]));
            }
        }
    }
}

/// Every name the body of a function reads or writes is one the function
/// declares: a parameter or a listed local.
pub open spec fn fun_body_scoped(f: NameFun) -> bool {
    match f.body {
        NameBody::Zephyr(block) => hir_stmts_scoped(block.stmts@, fun_local_ids(f)),
        NameBody::Asm(_) => true,
    }
}

/// The views of a list of lowered functions, element by element.
pub open spec fn fun_views(s: Seq<Function>) -> Seq<FunctionV>
    decreases s,
{
    if s.len() == 0 {
        Seq::empty()
    } else {
        fun_views(s.drop_last()).push(s.last()@)
    }
}

/// `fun_views` takes each function to its view, in place.
pub proof fn lemma_fun_views(s: Seq<Function>)
    ensures
        fun_views(s).len() == s.len(),
        forall|i: int| 0 <= i < s.len() ==> fun_views(s)[i] == (#[trigger] s[i])@,
    decreases s,
{
    if s.len() > 0 {
        lemma_fun_views(s.drop_last());
        assert forall|i: int| 0 <= i < s.len()
            implies fun_views(s)[i] == (#[trigger] s[i])@ by {
            if i < s.len() - 1 {
                assert(s.drop_last()[i] == s[i]);
            } else {
                assert(s[i] == s.last());
            }
        }
    }
}

/// Maps a list of resolved types to machine types, failing on the first
/// type that has no machine representation.
fn convert_list(v: &Vec<ASTType>) -> (r: Result<Vec<Type>, String>)
    ensures
        match r {
            Ok(ts) => machine_types_of(crate::types::views_of(v@)) == Some(ts@),
            Err(_) => machine_types_of(crate::types::views_of(v@)) is None,
        },
{
    let mut out: Vec<Type> = Vec::new();
    let n = v.len();
    let mut i: usize = 0;
    proof {
        crate::types::lemma_views_of(v@);
        assert(crate::types::views_of(v@).take(0) =~= Seq::<TypeV>::empty());
        assert(out@ =~= Seq::<Type>::empty());
    }
    while i < n
        invariant
            i <= n,
            n == v@.len(),
            crate::types::views_of(v@).len() == n,
            forall|j: int| 0 <= j < n ==> crate::types::views_of(v@)[j]
                == (#[trigger] v@[j])@,
            machine_types_of(crate::types::views_of(v@).take(i as int)) == Some(out@),
        decreases n - i,
    {
        let ghost vs = crate::types::views_of(v@);
        let ghost out0 = out@;
        match convert_type(&v[i]) {
            Ok(t) => {
                out.push(t);
                proof {
                    assert(vs.take(i as int + 1).drop_last() =~= vs.take(i as int));
                    assert(vs.take(i as int + 1).last() == vs[i as int]);
                    assert(out@ == out0.push(t));
                }
            },
            Err(e) => {
                proof {
                    assert(vs.take(i as int + 1).drop_last() =~= vs.take(i as int));
                    assert(vs.take(i as int + 1).last() == vs[i as int]);
                    assert(machine_types_of(vs.take(i as int + 1)) is None);
                    lemma_types_error(vs, i as int + 1);
                }
                return Err(e);
            },
        }
        i = i + 1;
    }
    proof {
        assert(crate::types::views_of(v@).take(n as int) =~= crate::types::views_of(v@));
    }
    Ok(out)
}

/// Once a prefix of a type list fails to convert, the whole list fails.
proof fn lemma_types_error(list: Seq<TypeV>, n: int)
    requires
        0 <= n <= list.len(),
        machine_types_of(list.take(n)) is None,
    ensures
        machine_types_of(list) is None,
    decreases list.len() - n,
{
    if n < list.len() {
        assert(list.take(n + 1).drop_last() =~= list.take(n));
        lemma_types_error(list, n + 1);
    } else {
        assert(list.take(n) =~= list);
    }
}

/// Once a prefix of the locals fails, the whole list fails.
proof fn lemma_locals_error(locals: Seq<NameId>, names: NameStore, ts: TypeStore, n: int)
    requires
        0 <= n <= locals.len(),
        locals_of(locals.take(n), names, ts) is None,
    ensures
        locals_of(locals, names, ts) is None,
    decreases locals.len() - n,
{
    if n < locals.len() {
        assert(locals.take(n + 1).drop_last() =~= locals.take(n));
        lemma_locals_error(locals, names, ts, n + 1);
    } else {
        assert(locals.take(n) =~= locals);
    }
}

/// Once a prefix of the statements fails to lower, the whole list fails at
/// the same point, with the same counter.
proof fn lemma_stmts_error(stmts: Seq<S>, ts: TypeStore, bb: u64, n: int)
    requires
        0 <= n <= stmts.len(),
        lower_stmts(stmts.take(n), ts, bb).0 is None,
    ensures
        lower_stmts(stmts, ts, bb) == lower_stmts(stmts.take(n), ts, bb),
    decreases stmts.len() - n,
{
    if n < stmts.len() {
        assert(stmts.take(n + 1).drop_last() =~= stmts.take(n));
        lemma_stmts_error(stmts, ts, bb, n + 1);
    } else {
        assert(stmts.take(n) =~= stmts);
    }
}

} // verus!
