//! Name resolution: walks the parsed tree, binds every identifier to the
//! declaration in scope, introduces a fresh type variable for every
//! declaration and expression position, and records the constraints the
//! type checker will solve.
//!
//! Scoping is lexical, innermost first: function scope within module scope
//! within the imported namespace.

use vstd::prelude::*;
use vstd::string::StringExecFns;

use crate::ast;
use crate::error::{ErrorHandler, Location};
use crate::hir::{
    Block, Body, Declaration, Expression, Function, Name, NameStore, ResolvedProgram, Statement,
    Value, Variable,
};
use crate::store::{FunId, Id, Identifier, ModId, NameId, Store, TypeVarId};
use crate::type_check::{state_of, tvs_of, wf_tvs};
use crate::types::{
    cand_contains, integer_candidates, integer_cands, singleton_candidates, views_of,
    ConstraintStore, Type,
    TypeConstraint, TypeV, TypeVar, TypeVarStore, TypeVarV,
};

verus! {

/// The stores the resolver builds are well-formed: unique identifiers and
/// candidate lists the solver accepts.
pub open spec fn stores_ok(names: NameStore, types: TypeVarStore) -> bool {
    &&& names.wf()
    &&& types.wf()
    &&& wf_tvs(state_of(types))
}

/// Every entry the first store holds, the second holds unchanged: the
/// resolver only ever adds.
pub open spec fn names_preserved(a: NameStore, b: NameStore) -> bool {
    forall|k: Id| #[trigger] a.contains_id(k) ==> b.contains_id(k) && b.spec_get(k)
        == a.spec_get(k)
}

/// Every type variable the first store holds, the second holds unchanged.
pub open spec fn tvs_preserved(a: TypeVarStore, b: TypeVarStore) -> bool {
    forall|k: Id| #[trigger] a.contains_id(k) ==> b.contains_id(k) && b.spec_get(k)
        == a.spec_get(k)
}

/// The concrete type a source annotation denotes.
pub open spec fn ast_type_view(t: ast::AstType) -> TypeV {
    match t {
        ast::AstType::I32 => TypeV::I32,
        ast::AstType::I64 => TypeV::I64,
        ast::AstType::F32 => TypeV::F32,
        ast::AstType::F64 => TypeV::F64,
        ast::AstType::Bool => TypeV::Bool,
    }
}

/// The declared parameter types of a source function, in order.
pub open spec fn param_type_views(ps: Seq<ast::Parameter>) -> Seq<TypeV>
    decreases ps,
{
    if ps.len() == 0 {
        Seq::empty()
    } else {
        param_type_views(ps.drop_last()).push(ast_type_view(ps.last().t))
    }
}

/// The declared signature of a source function: its parameter types and its
/// result type, with no result declaring no return values.
pub open spec fn declared_sig(af: ast::Function) -> TypeV {
    TypeV::Fun(
        param_type_views(af.params@),
        match af.result {
            Some(t) => seq![ast_type_view(t)],
            None => Seq::empty(),
        },
    )
}

/// Creates a type variable with the given candidate list; fails when the
/// store has run out of identifiers.
fn fresh_tv(
    err: &mut ErrorHandler,
    types: &mut TypeVarStore,
    loc: Location,
    cands: Vec<Type>,
) -> (r: Result<TypeVarId, ()>)
    requires
        old(types).wf(),
        wf_tvs(state_of(*old(types))),
        cand_contains(views_of(cands@), TypeV::Any) ==> views_of(cands@) == seq![TypeV::Any],
        cands@.len() <= 4,
    ensures
        final(types).wf(),
        wf_tvs(state_of(*final(types))),
        final(types).mod_id_spec() == old(types).mod_id_spec(),
        tvs_preserved(*old(types), *final(types)),
        old(err).diags().is_prefix_of(final(err).diags()),
        r matches Ok(id) ==> {
            &&& *final(err) == *old(err)
            &&& final(types).contains_id(id.id_spec())
            &&& !old(types).contains_id(id.id_spec())
            &&& final(types).spec_get(id.id_spec())@ == (TypeVarV {
                loc,
                types: views_of(cands@),
            })
        },
        r is Err ==> old(err).diags().len() < final(err).diags().len() && *final(types)
            == *old(types),
{
    proof {
        crate::type_check::lemma_append_empty(err.diags());
    }
    if types.counter() == u32::MAX {
        err.report_internal_no_loc(String::from_str("Identifier space exhausted"));
        proof {
            crate::type_check::lemma_push_as_append(
                old(err).diags(),
                err.diags().last(),
            );
        }
        return Err(());
    }
    let tv = TypeVar { loc, types: cands };
    let ghost tvv = tv@;
    let ghost kvs0 = types.kvs();
    let id = types.add(tv);
    proof {
        crate::type_check::lemma_tvs_of(kvs0);
        crate::type_check::lemma_tvs_of(types.kvs());
        let s0 = tvs_of(kvs0);
        let s1 = tvs_of(types.kvs());
        assert(s1 =~= s0.push((id.id_spec(), tvv))) by {
            assert forall|j: int| 0 <= j < s1.len()
                implies s1[j] == s0.push((id.id_spec(), tvv))[j] by {
                if j < s0.len() {
                    assert(types.kvs()[j] == kvs0[j]);
                } else {
                    assert(types.kvs()[j] == (id.id_spec(), tv));
                }
            }
        }
        assert(crate::store::distinct_keys(s1)) by {
            assert forall|a: int, b: int| 0 <= a < b < s1.len()
                implies (#[trigger] s1[a]).0 != (#[trigger] s1[b]).0 by {
                if b < s0.len() {
                } else {
                    assert(s1[b].0 == id.id_spec());
                    assert(s1[a].0 == kvs0[a].0);
                    if kvs0[a].0 == id.id_spec() {
                        assert((#[trigger] kvs0[a]).0 == id.id_spec());
                        assert(old(types).contains_id(id.id_spec()));
                    }
                }
            }
        }
        assert forall|j: int| 0 <= j < s1.len() implies {
            let ts = (#[trigger] s1[j]).1.types;
            &&& (cand_contains(ts, TypeV::Any) ==> ts == seq![TypeV::Any])
            &&& ts.len() <= 4
        } by {
            if j < s0.len() {
                assert(s1[j] == s0[j]);
            } else {
                assert(s1[j].1 == tvv);
                crate::types::lemma_views_of(tv.types@);
            }
        }
        assert(tvs_preserved(*old(types), *types)) by {
            assert forall|k: Id| #[trigger] old(types).contains_id(k)
                implies types.contains_id(k) && types.spec_get(k)
                    == old(types).spec_get(k) by {}
        }
    }
    Ok(id)
}

/// Binds a fresh name id to the given spelling and type variable; fails
/// when the store has run out of identifiers.
fn fresh_name(
    err: &mut ErrorHandler,
    names: &mut NameStore,
    ident: String,
    loc: Location,
    t_id: TypeVarId,
) -> (r: Result<NameId, ()>)
    requires
        old(names).wf(),
    ensures
        final(names).wf(),
        final(names).mod_id_spec() == old(names).mod_id_spec(),
        names_preserved(*old(names), *final(names)),
        old(err).diags().is_prefix_of(final(err).diags()),
        r matches Ok(id) ==> {
            &&& *final(err) == *old(err)
            &&& final(names).contains_id(id.id_spec())
            &&& !old(names).contains_id(id.id_spec())
            &&& final(names).spec_get(id.id_spec()) == (Name { ident, loc, t_id })
        },
        r is Err ==> old(err).diags().len() < final(err).diags().len() && *final(names)
            == *old(names),
{
    proof {
        crate::type_check::lemma_append_empty(err.diags());
    }
    if names.counter() == u32::MAX {
        err.report_internal_no_loc(String::from_str("Identifier space exhausted"));
        proof {
            crate::type_check::lemma_push_as_append(old(err).diags(), err.diags().last());
        }
        return Err(());
    }
    let id = names.add(Name { ident, loc, t_id });
    proof {
        assert(names_preserved(*old(names), *names)) by {
            assert forall|k: Id| #[trigger] old(names).contains_id(k)
                implies names.contains_id(k) && names.spec_get(k)
                    == old(names).spec_get(k) by {}
        }
    }
    Ok(id)
}

/// The concrete type a source annotation denotes.
fn ast_to_type(t: ast::AstType) -> (r: Type)
    ensures
        r@ == ast_type_view(t),
        r@ != TypeV::Any,
{
    match t {
        ast::AstType::I32 => Type::I32,
        ast::AstType::I64 => Type::I64,
        ast::AstType::F32 => Type::F32,
        ast::AstType::F64 => Type::F64,
        ast::AstType::Bool => Type::Bool,
    }
}

/// The type variable an expression's value carries, used by the constraints
/// recorded about it. A function used as a value carries none.
pub open spec fn expr_tv(he: Expression) -> Option<TypeVarId> {
    match he {
        Expression::Literal { value } => match value {
            Value::Integer { t_id, .. } => Some(t_id),
            Value::Float { t_id, .. } => Some(t_id),
            Value::Boolean { t_id, .. } => Some(t_id),
        },
        Expression::Variable { var } => Some(var.t_id),
        Expression::Function { .. } => None,
        Expression::Binary { t_id, .. } => Some(t_id),
        Expression::Unary { t_id, .. } => Some(t_id),
        Expression::CallDirect { t_id, .. } => Some(t_id),
        Expression::CallIndirect { t_id, .. } => Some(t_id),
    }
}

/// The constraint list records this constraint.
pub open spec fn has_constraint(cs: Seq<TypeConstraint>, c: TypeConstraint) -> bool {
    exists|i: int| 0 <= i < cs.len() && cs[i] == c
}

/// True for the comparison operators, which yield booleans.
pub open spec fn is_cmp(op: crate::hir::BinaryOperator) -> bool {
    op is Equal || op is NotEqual || op is Less || op is Greater || op is LessEqual
        || op is GreaterEqual
}

/// True for the short-circuit logical operators.
pub open spec fn is_logic(op: crate::hir::BinaryOperator) -> bool {
    op is And || op is Or
}

/// The candidate set that narrows an operator's operands: booleans for the
/// logical operators, integers for remainder, every numeric type otherwise.
pub open spec fn op_cands_of(op: crate::hir::BinaryOperator) -> Seq<TypeV> {
    if is_logic(op) {
        seq![TypeV::Bool]
    } else if op is Remainder {
        integer_cands()
    } else {
        seq![TypeV::I32, TypeV::I64, TypeV::F32, TypeV::F64]
    }
}

/// The store binds this type variable to exactly this candidate list.
pub open spec fn tv_holds(types: TypeVarStore, tv: TypeVarId, cands: Seq<TypeV>) -> bool {
    types.contains_id(tv.id_spec()) && types.spec_get(tv.id_spec())@.types == cands
}

/// One resolved expression corresponds to its source expression: the same
/// shape, literal values and operators, sub-expressions in the same places,
/// the candidate sets the typing rules prescribe, and the constraints each
/// construct records present in the list.
pub open spec fn corresponds_expr(
    he: Expression,
    ae: ast::Expression,
    cs: Seq<TypeConstraint>,
    types: TypeVarStore,
    itv: TypeVarId,
) -> bool
    decreases ae,
{
    match ae {
        ast::Expression::Literal { value: av, loc } => match (he, av) {
            (
                Expression::Literal { value: Value::Integer { val, t_id, .. } },
                ast::AstValue::Integer { val: a },
            ) => val == a && tv_holds(types, t_id, integer_cands()) && has_constraint(
                cs,
                TypeConstraint::Included(t_id, itv, loc),
            ),
            (
                Expression::Literal { value: Value::Float { bits32, bits64, t_id, .. } },
                ast::AstValue::Float { bits32: a32, bits64: a64 },
            ) => bits32 == a32 && bits64 == a64 && tv_holds(
                types,
                t_id,
                crate::types::float_cands(),
            ),
            (
                Expression::Literal { value: Value::Boolean { val, t_id, .. } },
                ast::AstValue::Boolean { val: a },
            ) => val == a && tv_holds(types, t_id, seq![TypeV::Bool]),
            _ => false,
        },
        ast::Expression::Variable { loc, .. } => match he {
            Expression::Variable { var } => tv_holds(types, var.t_id, seq![TypeV::Any])
                && exists|d: TypeVarId| has_constraint(
                cs,
                TypeConstraint::Equality(var.t_id, d, loc),
            ),
            Expression::Function { .. } => true,
            _ => false,
        },
        ast::Expression::Binary { expr_left: al, binop: aop, expr_right: ar, loc } => match he {
            Expression::Binary { expr_left: hl, binop: hop, expr_right: hr, t_id, op_t_id, .. } => {
                &&& hop == aop
                &&& corresponds_expr(*hl, *al, cs, types, itv)
                &&& corresponds_expr(*hr, *ar, cs, types, itv)
                &&& (match (expr_tv(*hl), expr_tv(*hr)) {
                    (Some(lt), Some(rt)) => has_constraint(
                        cs,
                        TypeConstraint::Equality(lt, rt, loc),
                    ),
                    _ => true,
                })
                &&& (expr_tv(*hl) matches Some(lt) ==> has_constraint(
                    cs,
                    TypeConstraint::Equality(op_t_id, lt, loc),
                ) && (!is_cmp(aop) && !is_logic(aop) ==> has_constraint(
                    cs,
                    TypeConstraint::Equality(t_id, lt, loc),
                )))
                &&& tv_holds(types, op_t_id, op_cands_of(aop))
                &&& tv_holds(
                    types,
                    t_id,
                    if is_cmp(aop) || is_logic(aop) {
                        seq![TypeV::Bool]
                    } else {
                        seq![TypeV::Any]
                    },
                )
            },
            _ => false,
        },
        ast::Expression::Unary { unop: au, expr: ai, loc } => match he {
            Expression::Unary { unop: hu, expr: hi, t_id, .. } => {
                &&& hu == au
                &&& corresponds_expr(*hi, *ai, cs, types, itv)
                &&& (expr_tv(*hi) matches Some(it) ==> has_constraint(
                    cs,
                    TypeConstraint::Equality(t_id, it, loc),
                ))
                &&& tv_holds(
                    types,
                    t_id,
                    match au {
                        crate::hir::UnaryOperator::Minus => seq![
                            TypeV::I32,
                            TypeV::I64,
                            TypeV::F32,
                            TypeV::F64,
                        ],
                        crate::hir::UnaryOperator::Not => seq![TypeV::Bool],
                    },
                )
            },
            _ => false,
        },
        ast::Expression::CallDirect { args: aargs, loc, .. } => match he {
            Expression::CallDirect { args: hargs, t_id, .. } => {
                &&& corresponds_args(hargs@, aargs@, loc, cs, types, itv)
                &&& exists|f: TypeVarId| has_constraint(
                    cs,
                    TypeConstraint::Return(f, t_id, loc),
                )
            },
            _ => false,
        },
        ast::Expression::CallIndirect { .. } => he is CallIndirect,
    }
}

/// Resolved call arguments correspond to the source arguments, pairwise and
/// in order, and each is tied by an equality, recorded at the call's
/// location, to a type variable holding a declared parameter type.
pub open spec fn corresponds_args(
    hargs: Seq<Expression>,
    aargs: Seq<ast::Expression>,
    loc: Location,
    cs: Seq<TypeConstraint>,
    types: TypeVarStore,
    itv: TypeVarId,
) -> bool
    decreases aargs,
{
    &&& hargs.len() == aargs.len()
    &&& if aargs.len() == 0 {
        true
    } else {
        &&& corresponds_args(hargs.drop_last(), aargs.drop_last(), loc, cs, types, itv)
        &&& corresponds_expr(hargs.last(), aargs.last(), cs, types, itv)
        &&& (expr_tv(hargs.last()) matches Some(t) ==> arg_tied(t, cs, loc))
    }
}

/// Pointwise correspondence of resolved argument lists, against every
/// extension of the given constraint list and store.
pub open spec fn exprs_correspond_from(
    hargs: Seq<Expression>,
    aargs: Seq<ast::Expression>,
    cs: Seq<TypeConstraint>,
    types: TypeVarStore,
    itv: TypeVarId,
) -> bool {
    forall|j: int, cs2: Seq<TypeConstraint>, types2: TypeVarStore|
        0 <= j < hargs.len() && cs.is_prefix_of(cs2) && tvs_preserved(types, types2)
            ==> #[trigger] corresponds_expr(hargs[j], aargs[j], cs2, types2, itv)
}

/// The constraint list ties this type variable by an equality recorded at
/// the given location.
pub open spec fn arg_tied(arg_tv: TypeVarId, cs: Seq<TypeConstraint>, loc: Location) -> bool {
    exists|p: TypeVarId| has_constraint(cs, TypeConstraint::Equality(arg_tv, p, loc))
}

/// The first k arguments' type variables each have an equality, recorded
/// at the call's location, in the constraint list.
pub open spec fn arg_ties_upto(
    arg_tvs: Seq<TypeVarId>,
    k: int,
    cs: Seq<TypeConstraint>,
    loc: Location,
) -> bool {
    forall|j: int| 0 <= j < k ==> arg_tied(#[trigger] arg_tvs[j], cs, loc)
}

/// Extending the constraint list with the next argument's equality extends
/// the tie prefix by one.
proof fn lemma_arg_ties_step(
    arg_tvs: Seq<TypeVarId>,
    k: int,
    cs: Seq<TypeConstraint>,
    cs2: Seq<TypeConstraint>,
    p: TypeVarId,
    loc: Location,
)
    requires
        arg_ties_upto(arg_tvs, k, cs, loc),
        cs.is_prefix_of(cs2),
        0 <= k < arg_tvs.len(),
        has_constraint(cs2, TypeConstraint::Equality(arg_tvs[k], p, loc)),
    ensures
        arg_ties_upto(arg_tvs, k + 1, cs2, loc),
{
    assert forall|j: int| 0 <= j < k + 1 implies arg_tied(#[trigger] arg_tvs[j], cs2, loc) by {
        if j < k {
            let q = choose|q: TypeVarId| has_constraint(
                cs,
                TypeConstraint::Equality(arg_tvs[j], q, loc),
            );
            lemma_has_constraint_mono(cs, cs2, TypeConstraint::Equality(arg_tvs[j], q, loc));
        }
    }
}

/// Pointwise correspondence assembles into the ordered relation.
proof fn lemma_assemble_args(
    hargs: Seq<Expression>,
    aargs: Seq<ast::Expression>,
    loc: Location,
    cs2: Seq<TypeConstraint>,
    types2: TypeVarStore,
    itv: TypeVarId,
)
    requires
        hargs.len() == aargs.len(),
        forall|j: int| 0 <= j < hargs.len() ==> corresponds_expr(
            #[trigger] hargs[j],
            aargs[j],
            cs2,
            types2,
            itv,
        ),
        forall|j: int| 0 <= j < hargs.len() ==> (expr_tv(#[trigger] hargs[j]) matches Some(
            t,
        ) ==> arg_tied(t, cs2, loc)),
    ensures
        corresponds_args(hargs, aargs, loc, cs2, types2, itv),
    decreases aargs,
{
    if aargs.len() > 0 {
        assert forall|j: int| 0 <= j < hargs.drop_last().len()
            implies corresponds_expr(
            #[trigger] hargs.drop_last()[j],
            aargs.drop_last()[j],
            cs2,
            types2,
            itv,
        ) && (expr_tv(hargs.drop_last()[j]) matches Some(t) ==> arg_tied(t, cs2, loc)) by {
            assert(hargs.drop_last()[j] == hargs[j]);
            assert(aargs.drop_last()[j] == aargs[j]);
        }
        lemma_assemble_args(hargs.drop_last(), aargs.drop_last(), loc, cs2, types2, itv);
        assert(hargs.last() == hargs[hargs.len() - 1]);
    }
}

/// One resolved statement corresponds to its source statement: the same
/// construct over corresponding parts, with the constraints the typing
/// rules prescribe recorded.
pub open spec fn corresponds_stmt(
    hs: Statement,
    st: ast::Statement,
    cs: Seq<TypeConstraint>,
    types: TypeVarStore,
    itv: TypeVarId,
) -> bool
    decreases st,
{
    match st {
        ast::Statement::LetStmt { t, expr: aex, loc, .. } => match hs {
            Statement::LetStmt { var, expr: hex } => {
                &&& corresponds_expr(hex, aex, cs, types, itv)
                &&& (expr_tv(hex) matches Some(et) ==> has_constraint(
                    cs,
                    TypeConstraint::Equality(var.t_id, et, loc),
                ))
                &&& tv_holds(
                    types,
                    var.t_id,
                    match t {
                        Some(at) => seq![ast_type_view(at)],
                        None => seq![TypeV::Any],
                    },
                )
            },
            _ => false,
        },
        ast::Statement::AssignStmt { expr: aex, loc, .. } => match hs {
            Statement::AssignStmt { var, expr: hex } => {
                &&& corresponds_expr(hex, aex, cs, types, itv)
                &&& exists|d: TypeVarId| has_constraint(
                    cs,
                    TypeConstraint::Equality(var.t_id, d, loc),
                )
                &&& (expr_tv(hex) matches Some(et) ==> has_constraint(
                    cs,
                    TypeConstraint::Equality(var.t_id, et, loc),
                ))
            },
            _ => false,
        },
        ast::Statement::ExprStmt { expr: aex } => match hs {
            Statement::ExprStmt { expr: hex } => corresponds_expr(hex, aex, cs, types, itv),
            _ => false,
        },
        ast::Statement::ReturnStmt { expr: aex, loc } => match (hs, aex) {
            (Statement::ReturnStmt { expr: Some(hex), .. }, Some(ax)) => {
                &&& corresponds_expr(hex, ax, cs, types, itv)
                &&& (expr_tv(hex) matches Some(et) ==> exists|rt: TypeVarId| has_constraint(
                    cs,
                    TypeConstraint::Equality(et, rt, loc),
                ))
            },
            (Statement::ReturnStmt { expr: None, .. }, None) => true,
            _ => false,
        },
        ast::Statement::IfStmt { expr: aex, block: ab, else_block: aeb, loc } => match hs {
            Statement::IfStmt { expr: hex, block: hb, else_block: heb } => {
                &&& corresponds_expr(hex, aex, cs, types, itv)
                &&& (expr_tv(hex) matches Some(ct) ==> exists|b: TypeVarId| has_constraint(
                    cs,
                    TypeConstraint::Equality(ct, b, loc),
                ) && tv_holds(types, b, seq![TypeV::Bool]))
                &&& corresponds_stmts(hb.stmts@, ab.stmts@, cs, types, itv)
                &&& (match (heb, aeb) {
                    (Some(h), Some(a)) => corresponds_stmts(h.stmts@, a.stmts@, cs, types,
                        itv),
                    (None, None) => true,
                    _ => false,
                })
            },
            _ => false,
        },
        ast::Statement::WhileStmt { expr: aex, block: ab, loc } => match hs {
            Statement::WhileStmt { expr: hex, block: hb } => {
                &&& corresponds_expr(hex, aex, cs, types, itv)
                &&& (expr_tv(hex) matches Some(ct) ==> exists|b: TypeVarId| has_constraint(
                    cs,
                    TypeConstraint::Equality(ct, b, loc),
                ) && tv_holds(types, b, seq![TypeV::Bool]))
                &&& corresponds_stmts(hb.stmts@, ab.stmts@, cs, types, itv)
            },
            _ => false,
        },
    }
}

/// Resolved statements correspond to the source statements, in order.
pub open spec fn corresponds_stmts(
    hs: Seq<Statement>,
    sts: Seq<ast::Statement>,
    cs: Seq<TypeConstraint>,
    types: TypeVarStore,
    itv: TypeVarId,
) -> bool
    decreases sts,
{
    &&& hs.len() == sts.len()
    &&& if sts.len() == 0 {
        true
    } else {
        &&& corresponds_stmts(hs.drop_last(), sts.drop_last(), cs, types, itv)
        &&& corresponds_stmt(hs.last(), sts.last(), cs, types, itv)
    }
}

/// A resolved body corresponds to its source body: Zephyr statements in
/// order, assembly carried over unchanged.
pub open spec fn corresponds_body(
    hb: Body,
    ab: ast::Body,
    cs: Seq<TypeConstraint>,
    types: TypeVarStore,
    itv: TypeVarId,
) -> bool {
    match (hb, ab) {
        (Body::Zephyr(h), ast::Body::Zephyr(a)) => corresponds_stmts(h.stmts@, a.stmts@, cs,
            types, itv),
        (Body::Asm(h), ast::Body::Asm(a)) => h@ == a@,
        _ => false,
    }
}

/// A recorded constraint stays recorded when the list grows.
proof fn lemma_has_constraint_mono(
    a: Seq<TypeConstraint>,
    b: Seq<TypeConstraint>,
    c: TypeConstraint,
)
    requires
        a.is_prefix_of(b),
        has_constraint(a, c),
    ensures
        has_constraint(b, c),
{
    let i = choose|i: int| 0 <= i < a.len() && a[i] == c;
    assert(a[i] == b.subrange(0, a.len() as int)[i]);
    assert(b[i] == c);
}

/// A bound candidate list survives into every preserving store.
proof fn lemma_tv_holds_mono(
    types: TypeVarStore,
    types2: TypeVarStore,
    tv: TypeVarId,
    cands: Seq<TypeV>,
)
    requires
        tv_holds(types, tv, cands),
        tvs_preserved(types, types2),
    ensures
        tv_holds(types2, tv, cands),
{
}

proof fn lemma_tvs_preserved_trans(a: TypeVarStore, b: TypeVarStore, c: TypeVarStore)
    requires
        tvs_preserved(a, b),
        tvs_preserved(b, c),
    ensures
        tvs_preserved(a, c),
{
    assert forall|k: Id| #[trigger] a.contains_id(k) implies c.contains_id(k) && c.spec_get(
        k,
    ) == a.spec_get(k) by {
        assert(b.contains_id(k));
    }
}

proof fn lemma_prefix_push(s: Seq<TypeConstraint>, x: TypeConstraint)
    ensures
        s.is_prefix_of(s.push(x)),
{
    assert(s.push(x).subrange(0, s.len() as int) =~= s);
}

/// The body of a resolved function corresponds to its source body against
/// every extension of the given constraint list and type-variable store:
/// later resolution only appends, so the correspondence survives it.
pub open spec fn body_resolves_from(
    hf: Function,
    af: ast::Function,
    cs: Seq<TypeConstraint>,
    types: TypeVarStore,
    itv: TypeVarId,
) -> bool {
    forall|cs2: Seq<TypeConstraint>, types2: TypeVarStore|
        cs.is_prefix_of(cs2) && tvs_preserved(types, types2)
            ==> #[trigger] corresponds_body(hf.body, af.body, cs2, types2, itv)
}

/// Pointwise correspondence of resolved statement lists, against every
/// extension of the given constraint list and store.
pub open spec fn stmts_correspond_from(
    hs: Seq<Statement>,
    sts: Seq<ast::Statement>,
    cs: Seq<TypeConstraint>,
    types: TypeVarStore,
    itv: TypeVarId,
) -> bool {
    forall|j: int, cs2: Seq<TypeConstraint>, types2: TypeVarStore|
        0 <= j < hs.len() && cs.is_prefix_of(cs2) && tvs_preserved(types, types2)
            ==> #[trigger] corresponds_stmt(hs[j], sts[j], cs2, types2, itv)
}

/// Pointwise correspondence assembles into the ordered relation.
proof fn lemma_assemble_stmts(
    hs: Seq<Statement>,
    sts: Seq<ast::Statement>,
    cs2: Seq<TypeConstraint>,
    types2: TypeVarStore,
    itv: TypeVarId,
)
    requires
        hs.len() == sts.len(),
        forall|j: int| 0 <= j < hs.len() ==> corresponds_stmt(
            #[trigger] hs[j],
            sts[j],
            cs2,
            types2,
            itv,
        ),
    ensures
        corresponds_stmts(hs, sts, cs2, types2, itv),
    decreases sts,
{
    if sts.len() > 0 {
        assert forall|j: int| 0 <= j < hs.drop_last().len()
            implies corresponds_stmt(
            #[trigger] hs.drop_last()[j],
            sts.drop_last()[j],
            cs2,
            types2,
            itv,
        ) by {
            assert(hs.drop_last()[j] == hs[j]);
            assert(sts.drop_last()[j] == sts[j]);
        }
        lemma_assemble_stmts(hs.drop_last(), sts.drop_last(), cs2, types2, itv);
        assert(hs.last() == hs[hs.len() - 1]);
    }
}

/// Pointwise body correspondence of the resolved functions, against every
/// extension of the given constraint list and store.
pub open spec fn bodies_correspond_from(
    hfs: Seq<Function>,
    afs: Seq<ast::Function>,
    cs: Seq<TypeConstraint>,
    types: TypeVarStore,
    itv: TypeVarId,
) -> bool {
    forall|j: int, cs2: Seq<TypeConstraint>, types2: TypeVarStore|
        0 <= j < hfs.len() && cs.is_prefix_of(cs2) && tvs_preserved(types, types2)
            ==> #[trigger] corresponds_body(hfs[j].body, afs[j].body, cs2, types2, itv)
}

/// One table entry corresponds to one source function: its name id is bound
/// to the function's spelling, and the bound type variable holds exactly the
/// declared signature as its single candidate.
pub open spec fn table_entry_matches(
    e: (String, FunId, NameId, TypeVarId, Vec<Type>, Vec<Type>),
    af: ast::Function,
    names: NameStore,
    types: TypeVarStore,
) -> bool {
    &&& names.contains_id(e.2.id_spec())
    &&& names.spec_get(e.2.id_spec()).ident@ == af.ident@
    &&& names.spec_get(e.2.id_spec()).t_id == e.3
    &&& types.contains_id(e.3.id_spec())
    &&& types.spec_get(e.3.id_spec())@.types == seq![declared_sig(af)]
}

/// One resolved function corresponds to its source function: the same
/// spelling, parameter count, visibility, exposure and location; its name id
/// is bound to the spelling, and the bound type variable holds exactly the
/// declared signature as its single candidate.
pub open spec fn resolves_decl(
    hf: Function,
    af: ast::Function,
    names: NameStore,
    types: TypeVarStore,
) -> bool {
    &&& hf.ident@ == af.ident@
    &&& hf.params@.len() == af.params@.len()
    &&& hf.is_pub == af.is_pub
    &&& hf.loc == af.loc
    &&& (match (hf.exposed, af.exposed) {
        (Some(a), Some(b)) => a@ == b@,
        (None, None) => true,
        _ => false,
    })
    &&& names.contains_id(hf.n_id.id_spec())
    &&& names.spec_get(hf.n_id.id_spec()).ident@ == af.ident@
    &&& types.contains_id(names.spec_get(hf.n_id.id_spec()).t_id.id_spec())
    &&& types.spec_get(names.spec_get(hf.n_id.id_spec()).t_id.id_spec())@.types
        == seq![declared_sig(af)]
}

/// A resolved function resolves from a source function: it keeps the
/// declaration (spelling, arity, visibility, signature, bound name), and its
/// body corresponds to the source body construct by construct, with the
/// constraints each construct records present in the recorded list.
pub open spec fn resolves_fun(
    hf: Function,
    af: ast::Function,
    names: NameStore,
    types: TypeVarStore,
    cs: Seq<TypeConstraint>,
    itv: TypeVarId,
) -> bool {
    &&& resolves_decl(hf, af, names, types)
    &&& corresponds_body(hf.body, af.body, cs, types, itv)
}

/// A stack of lexical scopes, innermost last: each binds spellings to the
/// name and type variable of the declaration.
type Scopes = Vec<Vec<(String, NameId, TypeVarId)>>;

/// The functions in scope, spelled as a caller writes them: name and type
/// ids, and the declared parameter types for checking call arguments.
type FunTable = Vec<(String, FunId, NameId, TypeVarId, Vec<Type>, Vec<Type>)>;

/// Every name bound in the scope stack is one of the given ids.
pub open spec fn scopes_bound(scopes: Seq<Vec<(String, NameId, TypeVarId)>>, ids: Set<NameId>)
    -> bool {
    forall|l: int, i: int| 0 <= l < scopes.len() && 0 <= i < scopes[l]@.len()
        ==> ids.contains((#[trigger] scopes[l]@[i]).1)
}

/// Every id in the list is one of the given ids.
pub open spec fn all_in(ns: Seq<NameId>, ids: Set<NameId>) -> bool {
    forall|j: int| 0 <= j < ns.len() ==> ids.contains(#[trigger] ns[j])
}

/// The declaration in scope for a spelling, innermost scope first.
#[verifier::loop_isolation(false)]
fn find_in_scopes(scopes: &Scopes, ident: &String) -> (r: Option<(NameId, TypeVarId)>)
    ensures
        r matches Some(p) ==> forall|ids: Set<NameId>|
            #[trigger] scopes_bound(scopes@, ids) ==> ids.contains(p.0),
{
    let mut level = scopes.len();
    while level > 0
        invariant
            level <= scopes@.len(),
        decreases level,
    {
        level = level - 1;
        let scope = &scopes[level];
        let n = scope.len();
        let mut i: usize = 0;
        while i < n
            invariant
                i <= n,
                n == scope@.len(),
            decreases n - i,
        {
            if scope[i].0 == *ident {
                proof {
                    assert forall|ids: Set<NameId>| #[trigger] scopes_bound(scopes@, ids)
                        implies ids.contains(scope@[i as int].1) by {
                        assert(ids.contains((scopes@[level as int]@[i as int]).1));
                    }
                }
                return Some((scope[i].1, scope[i].2));
            }
            i = i + 1;
        }
    }
    None
}

/// True when the innermost scope already binds the spelling.
fn declared_in_current(scopes: &Scopes, ident: &String) -> (r: bool) {
    if scopes.len() == 0 {
        return false;
    }
    let scope = &scopes[scopes.len() - 1];
    let n = scope.len();
    let mut i: usize = 0;
    while i < n
        invariant
            i <= n,
            n == scope@.len(),
        decreases n - i,
    {
        if scope[i].0 == *ident {
            return true;
        }
        i = i + 1;
    }
    false
}

/// The table entry of the function the spelling names, if any.
fn find_in_table(fun_table: &FunTable, ident: &String) -> (r: Option<usize>)
    ensures
        r matches Some(i) ==> i < fun_table@.len(),
{
    let n = fun_table.len();
    let mut i: usize = 0;
    while i < n
        invariant
            i <= n,
            n == fun_table@.len(),
        decreases n - i,
    {
        if fun_table[i].0 == *ident {
            return Some(i);
        }
        i = i + 1;
    }
    None
}

/// A sequence is a prefix of itself.
proof fn lemma_prefix_of_refl<A>(s: Seq<A>)
    ensures
        s.is_prefix_of(s),
{
    assert(s.subrange(0, s.len() as int) =~= s);
}

/// What holds of every element of a list holds of every element of its
/// prefixes.
proof fn lemma_all_in_prefix(a: Seq<NameId>, b: Seq<NameId>, ids: Set<NameId>)
    requires
        a.is_prefix_of(b),
        all_in(b, ids),
    ensures
        all_in(a, ids),
{
    assert forall|j: int| 0 <= j < a.len() implies ids.contains(#[trigger] a[j]) by {
        assert(a[j] == b.subrange(0, a.len() as int)[j]);
    }
}

/// The name resolver, owning the error sink it reports to.
pub struct NameResolver {
    pub err: ErrorHandler,
}

impl NameResolver {
    /// Creates a resolver around the given error sink.
    pub fn new(error_handler: ErrorHandler) -> (r: NameResolver)
        ensures
            r.err == error_handler,
    {
        NameResolver { err: error_handler }
    }

    /// Resolves one expression: binds its identifiers, gives every position
    /// a fresh type variable, and records the constraints it imposes.
    #[verifier::loop_isolation(false)]
    fn resolve_expr(
        &mut self,
        e: &ast::Expression,
        scopes: &Scopes,
        integer_tv: TypeVarId,
        fun_table: &FunTable,
        names: &mut NameStore,
        types: &mut TypeVarStore,
        constraints: &mut ConstraintStore,
    ) -> (r: Result<(Expression, TypeVarId), ()>)
        requires
            stores_ok(*old(names), *old(types)),
        ensures
            stores_ok(*final(names), *final(types)),
            final(names).mod_id_spec() == old(names).mod_id_spec(),
            final(types).mod_id_spec() == old(types).mod_id_spec(),
            names_preserved(*old(names), *final(names)),
            tvs_preserved(*old(types), *final(types)),
            old(constraints)@.is_prefix_of(final(constraints)@),
            old(self).err.diags().is_prefix_of(final(self).err.diags()),
            r is Err ==> old(self).err.diags().len() < final(self).err.diags().len(),
            r matches Ok(p) ==> forall|ids: Set<NameId>|
                #[trigger] scopes_bound(scopes@, ids)
                    ==> crate::ast_to_mir::expr_scoped(p.0, ids),
            r matches Ok(p) ==> {
                &&& (!(p.0 is Function) ==> expr_tv(p.0) == Some(p.1))
                &&& forall|cs2: Seq<TypeConstraint>, types2: TypeVarStore|
                    final(constraints)@.is_prefix_of(cs2) && tvs_preserved(
                        *final(types),
                        types2,
                    ) ==> #[trigger] corresponds_expr(p.0, *e, cs2, types2, integer_tv)
            },
        decreases *e,
    {
        match e {
            ast::Expression::Literal { value, loc } => {
                match value {
                    ast::AstValue::Integer { val } => {
                        let tv = match fresh_tv(&mut self.err, types, *loc, integer_candidates()) {
                            Ok(tv) => tv,
                            Err(_) => {
                                return Err(());
                            },
                        };
                        constraints.push(TypeConstraint::Included(tv, integer_tv, *loc));
                        let hv = Value::Integer { val: *val, t_id: tv, loc: *loc };
                        let he = Expression::Literal { value: hv };
                        proof {
                            let hev = he;
                            let cfin = constraints@;
                            let c = TypeConstraint::Included(tv, integer_tv, *loc);
                            assert(cfin[cfin.len() - 1] == c);
                            assert(has_constraint(cfin, c));
                            assert forall|cs2: Seq<TypeConstraint>, types2: TypeVarStore|
                                cfin.is_prefix_of(cs2) && tvs_preserved(*types, types2)
                                implies #[trigger] corresponds_expr(hev, *e, cs2, types2,
                                    integer_tv) by {
                                lemma_has_constraint_mono(cfin, cs2, c);
                                lemma_tv_holds_mono(*types, types2, tv, integer_cands());
                            }
                        }
                        Ok((he, tv))
                    },
                    ast::AstValue::Float { bits32, bits64 } => {
                        let tv = match fresh_tv(&mut self.err, types, *loc, crate::types::float_candidates()) {
                            Ok(tv) => tv,
                            Err(_) => {
                                return Err(());
                            },
                        };
                        let hv = Value::Float {
                            bits32: *bits32,
                            bits64: *bits64,
                            t_id: tv,
                            loc: *loc,
                        };
                        let he = Expression::Literal { value: hv };
                        proof {
                            let hev = he;
                            assert forall|cs2: Seq<TypeConstraint>, types2: TypeVarStore|
                                constraints@.is_prefix_of(cs2) && tvs_preserved(*types,
                                    types2)
                                implies #[trigger] corresponds_expr(hev, *e, cs2, types2,
                                    integer_tv) by {
                                lemma_tv_holds_mono(*types, types2, tv,
                                    crate::types::float_cands());
                            }
                        }
                        Ok((he, tv))
                    },
                    ast::AstValue::Boolean { val } => {
                        let tv = match fresh_tv(
                            &mut self.err,
                            types,
                            *loc,
                            singleton_candidates(Type::Bool),
                        ) {
                            Ok(tv) => tv,
                            Err(_) => {
                                return Err(());
                            },
                        };
                        let hv = Value::Boolean { val: *val, t_id: tv, loc: *loc };
                        let he = Expression::Literal { value: hv };
                        proof {
                            let hev = he;
                            assert forall|cs2: Seq<TypeConstraint>, types2: TypeVarStore|
                                constraints@.is_prefix_of(cs2) && tvs_preserved(*types,
                                    types2)
                                implies #[trigger] corresponds_expr(hev, *e, cs2, types2,
                                    integer_tv) by {
                                lemma_tv_holds_mono(*types, types2, tv, seq![TypeV::Bool]);
                            }
                        }
                        Ok((he, tv))
                    },
                    ast::AstValue::Str { .. } => {
                        self.err.report(
                            *loc,
                            String::from_str("String literals are not supported"),
                        );
                        Err(())
                    },
                }
            },
            ast::Expression::Variable { ident, loc } => {
                match find_in_scopes(scopes, ident) {
                    Some((n_id, decl_tv)) => {
                        let tv = match fresh_tv(
                            &mut self.err,
                            types,
                            *loc,
                            singleton_candidates(Type::Any),
                        ) {
                            Ok(tv) => tv,
                            Err(_) => {
                                return Err(());
                            },
                        };
                        constraints.push(TypeConstraint::Equality(tv, decl_tv, *loc));
                        let he = Expression::Variable {
                            var: Variable { n_id, t_id: tv, loc: *loc },
                        };
                        proof {
                            let hev = he;
                            let cfin = constraints@;
                            let c = TypeConstraint::Equality(tv, decl_tv, *loc);
                            assert(cfin[cfin.len() - 1] == c);
                            assert(has_constraint(cfin, c));
                            assert forall|cs2: Seq<TypeConstraint>, types2: TypeVarStore|
                                cfin.is_prefix_of(cs2) && tvs_preserved(*types, types2)
                                implies #[trigger] corresponds_expr(hev, *e, cs2, types2,
                                    integer_tv) by {
                                lemma_has_constraint_mono(cfin, cs2, c);
                                lemma_tv_holds_mono(*types, types2, tv, seq![TypeV::Any]);
                            }
                        }
                        Ok((he, tv))
                    },
                    None => {
                        match find_in_table(fun_table, ident) {
                            Some(idx) => {
                                let he = Expression::Function {
                                    fun_id: fun_table[idx].1,
                                    loc: *loc,
                                };
                                proof {
                                    let hev = he;
                                    assert forall|
                                        cs2: Seq<TypeConstraint>,
                                        types2: TypeVarStore,
                                    |
                                        constraints@.is_prefix_of(cs2) && tvs_preserved(
                                            *types,
                                            types2,
                                        )
                                        implies #[trigger] corresponds_expr(hev, *e, cs2,
                                            types2, integer_tv) by {}
                                }
                                Ok((he, fun_table[idx].3))
                            },
                            None => {
                                self.err.report(
                                    *loc,
                                    String::from_str("Unknown identifier"),
                                );
                                Err(())
                            },
                        }
                    },
                }
            },
            ast::Expression::Binary { expr_left, binop, expr_right, loc } => {
                let (le, ltv) = match self.resolve_expr(
                    &**expr_left,
                    scopes,
                    integer_tv,
                    fun_table,
                    names,
                    types,
                    constraints,
                ) {
                    Ok(p) => p,
                    Err(_) => {
                        return Err(());
                    },
                };
                let ghost cl = constraints@;
                let ghost tl = *types;
                let (re, rtv) = match self.resolve_expr(
                    &**expr_right,
                    scopes,
                    integer_tv,
                    fun_table,
                    names,
                    types,
                    constraints,
                ) {
                    Ok(p) => p,
                    Err(_) => {
                        return Err(());
                    },
                };
                let ghost cr = constraints@;
                let ghost tr = *types;
                constraints.push(TypeConstraint::Equality(ltv, rtv, *loc));
                proof {
                    lemma_prefix_push(cr, TypeConstraint::Equality(ltv, rtv, *loc));
                }
                let cmp_op = matches!(
                    binop,
                    crate::hir::BinaryOperator::Equal | crate::hir::BinaryOperator::NotEqual
                        | crate::hir::BinaryOperator::Less | crate::hir::BinaryOperator::Greater
                        | crate::hir::BinaryOperator::LessEqual
                        | crate::hir::BinaryOperator::GreaterEqual
                );
                let logic_op = matches!(
                    binop,
                    crate::hir::BinaryOperator::And | crate::hir::BinaryOperator::Or
                );
                let op_cands = if logic_op {
                    singleton_candidates(Type::Bool)
                } else if matches!(binop, crate::hir::BinaryOperator::Remainder) {
                    integer_candidates()
                } else {
                    crate::types::numeric_candidates()
                };
                let ghost c1 = constraints@;
                proof {
                    assert(cmp_op == is_cmp(*binop));
                    assert(logic_op == is_logic(*binop));
                    assert(views_of(op_cands@) == op_cands_of(*binop));
                }
                let op_tv = match fresh_tv(&mut self.err, types, *loc, op_cands) {
                    Ok(tv) => tv,
                    Err(_) => {
                        return Err(());
                    },
                };
                let ghost t1 = *types;
                constraints.push(TypeConstraint::Equality(op_tv, ltv, *loc));
                proof {
                    lemma_prefix_push(c1, TypeConstraint::Equality(op_tv, ltv, *loc));
                }
                let t_cands = if cmp_op || logic_op {
                    singleton_candidates(Type::Bool)
                } else {
                    singleton_candidates(Type::Any)
                };
                let ghost c2 = constraints@;
                proof {
                    assert(views_of(t_cands@) == if is_cmp(*binop) || is_logic(*binop) {
                        seq![TypeV::Bool]
                    } else {
                        seq![TypeV::Any]
                    });
                }
                let tv = match fresh_tv(&mut self.err, types, *loc, t_cands) {
                    Ok(tv) => tv,
                    Err(_) => {
                        return Err(());
                    },
                };
                if !(cmp_op || logic_op) {
                    constraints.push(TypeConstraint::Equality(tv, ltv, *loc));
                    proof {
                        lemma_prefix_push(c2, TypeConstraint::Equality(tv, ltv, *loc));
                    }
                }
                let he = Expression::Binary {
                    expr_left: Box::new(le),
                    binop: *binop,
                    expr_right: Box::new(re),
                    t_id: tv,
                    op_t_id: op_tv,
                    loc: *loc,
                };
                proof {
                    let hev = he;
                    let cfin = constraints@;
                    let tfin = *types;
                    let e1 = TypeConstraint::Equality(ltv, rtv, *loc);
                    let e2 = TypeConstraint::Equality(op_tv, ltv, *loc);
                    let e3 = TypeConstraint::Equality(tv, ltv, *loc);
                    assert(c1[cr.len() as int] == e1);
                    assert(c2[c1.len() as int] == e2);
                    crate::type_check::lemma_prefix_trans(cr, c1, c2);
                    if !(is_cmp(*binop) || is_logic(*binop)) {
                        assert(cfin[c2.len() as int] == e3);
                        crate::type_check::lemma_prefix_trans(cr, c2, cfin);
                        crate::type_check::lemma_prefix_trans(c1, c2, cfin);
                        assert(has_constraint(cfin, e3));
                    } else {
                        assert(cfin == c2);
                    }
                    assert(cfin[cr.len() as int] == e1);
                    assert(cfin[c1.len() as int] == e2);
                    assert(has_constraint(cfin, e1));
                    assert(has_constraint(cfin, e2));
                    crate::type_check::lemma_prefix_trans(cl, cr, cfin);
                    lemma_tvs_preserved_trans(tl, tr, tfin);
                    lemma_tv_holds_mono(t1, tfin, op_tv, op_cands_of(*binop));
                    assert forall|cs2: Seq<TypeConstraint>, types2: TypeVarStore|
                        cfin.is_prefix_of(cs2) && tvs_preserved(tfin, types2)
                        implies #[trigger] corresponds_expr(hev, *e, cs2, types2,
                            integer_tv) by {
                        crate::type_check::lemma_prefix_trans(cl, cfin, cs2);
                        crate::type_check::lemma_prefix_trans(cr, cfin, cs2);
                        lemma_tvs_preserved_trans(tl, tfin, types2);
                        lemma_tvs_preserved_trans(tr, tfin, types2);
                        assert(corresponds_expr(le, **expr_left, cs2, types2, integer_tv));
                        assert(corresponds_expr(re, **expr_right, cs2, types2, integer_tv));
                        lemma_has_constraint_mono(cfin, cs2, e1);
                        lemma_has_constraint_mono(cfin, cs2, e2);
                        if !(is_cmp(*binop) || is_logic(*binop)) {
                            lemma_has_constraint_mono(cfin, cs2, e3);
                        }
                        lemma_tv_holds_mono(tfin, types2, op_tv, op_cands_of(*binop));
                        lemma_tv_holds_mono(
                            tfin,
                            types2,
                            tv,
                            if is_cmp(*binop) || is_logic(*binop) {
                                seq![TypeV::Bool]
                            } else {
                                seq![TypeV::Any]
                            },
                        );
                    }
                }
                Ok((he, tv))
            },
            ast::Expression::Unary { unop, expr, loc } => {
                let (ie, itv) = match self.resolve_expr(
                    &**expr,
                    scopes,
                    integer_tv,
                    fun_table,
                    names,
                    types,
                    constraints,
                ) {
                    Ok(p) => p,
                    Err(_) => {
                        return Err(());
                    },
                };
                let ghost ci = constraints@;
                let ghost ti = *types;
                let ghost ucands = match *unop {
                    crate::hir::UnaryOperator::Minus => seq![
                        TypeV::I32,
                        TypeV::I64,
                        TypeV::F32,
                        TypeV::F64,
                    ],
                    crate::hir::UnaryOperator::Not => seq![TypeV::Bool],
                };
                let cands = match unop {
                    crate::hir::UnaryOperator::Minus => crate::types::numeric_candidates(),
                    crate::hir::UnaryOperator::Not => singleton_candidates(Type::Bool),
                };
                proof {
                    assert(views_of(cands@) == ucands);
                }
                let tv = match fresh_tv(&mut self.err, types, *loc, cands) {
                    Ok(tv) => tv,
                    Err(_) => {
                        return Err(());
                    },
                };
                constraints.push(TypeConstraint::Equality(tv, itv, *loc));
                let he = Expression::Unary {
                    unop: *unop,
                    expr: Box::new(ie),
                    t_id: tv,
                    loc: *loc,
                };
                proof {
                    let hev = he;
                    let cfin = constraints@;
                    let tfin = *types;
                    let e1 = TypeConstraint::Equality(tv, itv, *loc);
                    lemma_prefix_push(ci, e1);
                    assert(cfin[ci.len() as int] == e1);
                    assert(has_constraint(cfin, e1));
                    assert forall|cs2: Seq<TypeConstraint>, types2: TypeVarStore|
                        cfin.is_prefix_of(cs2) && tvs_preserved(tfin, types2)
                        implies #[trigger] corresponds_expr(hev, *e, cs2, types2,
                            integer_tv) by {
                        crate::type_check::lemma_prefix_trans(ci, cfin, cs2);
                        lemma_tvs_preserved_trans(ti, tfin, types2);
                        assert(corresponds_expr(ie, **expr, cs2, types2, integer_tv));
                        lemma_has_constraint_mono(cfin, cs2, e1);
                        lemma_tv_holds_mono(tfin, types2, tv, ucands);
                    }
                }
                Ok((he, tv))
            },
            ast::Expression::CallDirect { ident, args, loc } => {
                let idx = match find_in_table(fun_table, ident) {
                    Some(idx) => idx,
                    None => {
                        self.err.report(*loc, String::from_str("Unknown function"));
                        return Err(());
                    },
                };
                let fun_id = fun_table[idx].1;
                let fn_tv = fun_table[idx].3;
                let mut h_args: Vec<Expression> = Vec::new();
                let mut arg_tvs: Vec<TypeVarId> = Vec::new();
                let n = args.len();
                let mut i: usize = 0;
                while i < n
                    invariant
                        i <= n,
                        n == args@.len(),
                        arg_tvs@.len() == i,
                        h_args@.len() == i,
                        stores_ok(*names, *types),
                        names.mod_id_spec() == old(names).mod_id_spec(),
                        types.mod_id_spec() == old(types).mod_id_spec(),
                        names_preserved(*old(names), *names),
                        tvs_preserved(*old(types), *types),
                        old(constraints)@.is_prefix_of(constraints@),
                        old(self).err.diags().is_prefix_of(self.err.diags()),
                        forall|ids: Set<NameId>| #[trigger] scopes_bound(scopes@, ids)
                            ==> crate::ast_to_mir::args_scoped(h_args@, ids),
                        exprs_correspond_from(
                            h_args@,
                            args@.subrange(0, i as int),
                            constraints@,
                            *types,
                            integer_tv,
                        ),
                        forall|j: int| 0 <= j < i ==> (!((#[trigger] h_args@[j]) is Function)
                            ==> expr_tv(h_args@[j]) == Some(arg_tvs@[j])),
                    decreases n - i,
                {
                    let ghost h0 = h_args@;
                    let ghost c_prev = constraints@;
                    let ghost t_prev = *types;
                    match self.resolve_expr(
                        &args[i],
                        scopes,
                        integer_tv,
                        fun_table,
                        names,
                        types,
                        constraints,
                    ) {
                        Ok((ae, atv)) => {
                            let ghost aev = ae;
                            h_args.push(ae);
                            arg_tvs.push(atv);
                            proof {
                                assert forall|ids: Set<NameId>|
                                    #[trigger] scopes_bound(scopes@, ids)
                                    implies crate::ast_to_mir::args_scoped(h_args@, ids) by {
                                    assert(h_args@.drop_last() =~= h0);
                                    assert(crate::ast_to_mir::expr_scoped(aev, ids));
                                }
                                assert forall|
                                    j: int,
                                    cs2: Seq<TypeConstraint>,
                                    types2: TypeVarStore,
                                |
                                    0 <= j < h_args@.len() && constraints@.is_prefix_of(cs2)
                                        && tvs_preserved(*types, types2)
                                    implies #[trigger] corresponds_expr(
                                    h_args@[j],
                                    args@.subrange(0, i + 1 as int)[j],
                                    cs2,
                                    types2,
                                    integer_tv,
                                ) by {
                                    crate::type_check::lemma_prefix_trans(
                                        c_prev,
                                        constraints@,
                                        cs2,
                                    );
                                    lemma_tvs_preserved_trans(t_prev, *types, types2);
                                    if j < i {
                                        assert(h_args@[j] == h0[j]);
                                        assert(args@.subrange(0, i + 1 as int)[j]
                                            == args@.subrange(0, i as int)[j]);
                                        assert(corresponds_expr(
                                            h0[j],
                                            args@.subrange(0, i as int)[j],
                                            cs2,
                                            types2,
                                            integer_tv,
                                        ));
                                    } else {
                                        assert(h_args@[j] == aev);
                                        assert(args@.subrange(0, i + 1 as int)[j]
                                            == args@[i as int]);
                                        assert(corresponds_expr(
                                            aev,
                                            args@[i as int],
                                            cs2,
                                            types2,
                                            integer_tv,
                                        ));
                                    }
                                }
                                assert(exprs_correspond_from(
                                    h_args@,
                                    args@.subrange(0, i + 1 as int),
                                    constraints@,
                                    *types,
                                    integer_tv,
                                ));
                            }
                        },
                        Err(_) => {
                            return Err(());
                        },
                    }
                    i = i + 1;
                }
                let ghost ca = constraints@;
                let ghost ta = *types;
                proof {
                    assert(args@.subrange(0, n as int) =~= args@);
                    lemma_prefix_of_refl(ca);
                }
                if args.len() != fun_table[idx].4.len() {
                    self.err.report(
                        *loc,
                        String::from_str("Wrong number of arguments"),
                    );
                    return Err(());
                }
                let na = arg_tvs.len();
                let mut j: usize = 0;
                while j < na
                    invariant
                        j <= na,
                        na == arg_tvs@.len(),
                        na <= fun_table@[idx as int].4@.len(),
                        idx < fun_table@.len(),
                        stores_ok(*names, *types),
                        names.mod_id_spec() == old(names).mod_id_spec(),
                        types.mod_id_spec() == old(types).mod_id_spec(),
                        names_preserved(*old(names), *names),
                        tvs_preserved(*old(types), *types),
                        old(constraints)@.is_prefix_of(constraints@),
                        ca.is_prefix_of(constraints@),
                        tvs_preserved(ta, *types),
                        old(self).err.diags().is_prefix_of(self.err.diags()),
                        arg_ties_upto(arg_tvs@, j as int, constraints@, *loc),
                    decreases na - j,
                {
                    let ghost cj = constraints@;
                    let ghost tj = *types;
                    let pt = fun_table[idx].4[j].duplicate();
                    let ptv = match fresh_tv(&mut self.err, types, *loc, singleton_candidates(pt)) {
                        Ok(tv) => tv,
                        Err(_) => {
                            return Err(());
                        },
                    };
                    constraints.push(TypeConstraint::Equality(arg_tvs[j], ptv, *loc));
                    proof {
                        lemma_prefix_push(cj, TypeConstraint::Equality(arg_tvs@[j as int], ptv, *loc));
                        crate::type_check::lemma_prefix_trans(ca, cj, constraints@);
                        lemma_tvs_preserved_trans(ta, tj, *types);
                        assert(constraints@[cj.len() as int]
                            == TypeConstraint::Equality(arg_tvs@[j as int], ptv, *loc));
                        assert(has_constraint(
                            constraints@,
                            TypeConstraint::Equality(arg_tvs@[j as int], ptv, *loc),
                        ));
                        lemma_arg_ties_step(arg_tvs@, j as int, cj, constraints@, ptv, *loc);
                    }
                    j = j + 1;
                }
                let call_t = if fun_table[idx].5.len() == 1 {
                    fun_table[idx].5[0].duplicate()
                } else {
                    Type::Unit
                };
                let ghost t2x = *types;
                let tv = match fresh_tv(&mut self.err, types, *loc, singleton_candidates(call_t)) {
                    Ok(tv) => tv,
                    Err(_) => {
                        return Err(());
                    },
                };
                let ghost c3 = constraints@;
                constraints.push(TypeConstraint::Return(fn_tv, tv, *loc));
                let he = Expression::CallDirect { fun_id, args: h_args, t_id: tv, loc: *loc };
                proof {
                    let hev = he;
                    let cfin = constraints@;
                    let tfin = *types;
                    let rc = TypeConstraint::Return(fn_tv, tv, *loc);
                    lemma_prefix_push(c3, rc);
                    assert(cfin[c3.len() as int] == rc);
                    assert(has_constraint(cfin, rc));
                    crate::type_check::lemma_prefix_trans(ca, c3, cfin);
                    lemma_tvs_preserved_trans(ta, t2x, tfin);
                    assert forall|cs2: Seq<TypeConstraint>, types2: TypeVarStore|
                        cfin.is_prefix_of(cs2) && tvs_preserved(tfin, types2)
                        implies #[trigger] corresponds_expr(hev, *e, cs2, types2,
                            integer_tv) by {
                        crate::type_check::lemma_prefix_trans(ca, cfin, cs2);
                        lemma_tvs_preserved_trans(ta, tfin, types2);
                        assert forall|k: int| 0 <= k < h_args@.len()
                            implies corresponds_expr(
                            #[trigger] h_args@[k],
                            args@[k],
                            cs2,
                            types2,
                            integer_tv,
                        ) by {
                            assert(corresponds_expr(
                                h_args@[k],
                                args@.subrange(0, n as int)[k],
                                cs2,
                                types2,
                                integer_tv,
                            ));
                        }
                        assert forall|k: int| 0 <= k < h_args@.len()
                            implies (expr_tv(#[trigger] h_args@[k]) matches Some(t)
                                ==> arg_tied(t, cs2, *loc)) by {
                            match expr_tv(h_args@[k]) {
                                Some(t) => {
                                    assert(!(h_args@[k] is Function));
                                    assert(t == arg_tvs@[k]);
                                    assert(arg_tied(arg_tvs@[k], c3, *loc));
                                    let p = choose|p: TypeVarId| has_constraint(
                                        c3,
                                        TypeConstraint::Equality(arg_tvs@[k], p, *loc),
                                    );
                                    crate::type_check::lemma_prefix_trans(c3, cfin, cs2);
                                    lemma_has_constraint_mono(
                                        c3,
                                        cs2,
                                        TypeConstraint::Equality(arg_tvs@[k], p, *loc),
                                    );
                                },
                                None => {},
                            }
                        }
                        lemma_assemble_args(h_args@, args@, *loc, cs2, types2, integer_tv);
                        lemma_has_constraint_mono(cfin, cs2, rc);
                    }
                }
                Ok((he, tv))
            },
            ast::Expression::CallIndirect { loc } => {
                let tv = match fresh_tv(&mut self.err, types, *loc, singleton_candidates(Type::Any)) {
                    Ok(tv) => tv,
                    Err(_) => {
                        return Err(());
                    },
                };
                let he = Expression::CallIndirect { t_id: tv, loc: *loc };
                proof {
                    let hev = he;
                    assert forall|cs2: Seq<TypeConstraint>, types2: TypeVarStore|
                        constraints@.is_prefix_of(cs2) && tvs_preserved(*types, types2)
                        implies #[trigger] corresponds_expr(hev, *e, cs2, types2,
                            integer_tv) by {}
                }
                Ok((he, tv))
            },
        }
    }

    /// Resolves one statement. Declarations bind in the innermost scope;
    /// duplicate declarations in one scope are rejected.
    #[verifier::loop_isolation(false)]
    fn resolve_stmt(
        &mut self,
        st: &ast::Statement,
        scopes: &mut Scopes,
        locals: &mut Vec<NameId>,
        ret_tv: TypeVarId,
        integer_tv: TypeVarId,
        fun_table: &FunTable,
        names: &mut NameStore,
        types: &mut TypeVarStore,
        constraints: &mut ConstraintStore,
    ) -> (r: Result<Statement, ()>)
        requires
            stores_ok(*old(names), *old(types)),
            old(scopes)@.len() > 0,
        ensures
            stores_ok(*final(names), *final(types)),
            final(names).mod_id_spec() == old(names).mod_id_spec(),
            final(types).mod_id_spec() == old(types).mod_id_spec(),
            names_preserved(*old(names), *final(names)),
            tvs_preserved(*old(types), *final(types)),
            old(self).err.diags().is_prefix_of(final(self).err.diags()),
            r is Err ==> old(self).err.diags().len() < final(self).err.diags().len(),
            old(locals)@.is_prefix_of(final(locals)@),
            final(scopes)@.len() == old(scopes)@.len(),
            forall|l: int| 0 <= l < old(scopes)@.len() - 1
                ==> final(scopes)@[l] == old(scopes)@[l],
            forall|ids: Set<NameId>| #[trigger] scopes_bound(old(scopes)@, ids)
                && all_in(final(locals)@, ids) ==> scopes_bound(final(scopes)@, ids),
            r matches Ok(hs) ==> forall|ids: Set<NameId>|
                #[trigger] scopes_bound(old(scopes)@, ids) && all_in(final(locals)@, ids)
                    ==> crate::ast_to_mir::hir_stmt_scoped(hs, ids),
            old(constraints)@.is_prefix_of(final(constraints)@),
            r matches Ok(hs) ==> forall|cs2: Seq<TypeConstraint>, types2: TypeVarStore|
                final(constraints)@.is_prefix_of(cs2) && tvs_preserved(*final(types), types2)
                    ==> #[trigger] corresponds_stmt(hs, *st, cs2, types2, integer_tv),
        decreases *st,
    {
        proof {
            lemma_prefix_of_refl(locals@);
            lemma_prefix_of_refl(constraints@);
        }
        match st {
            ast::Statement::LetStmt { ident, t, expr, loc } => {
                let (he, etv) = match self.resolve_expr(
                    expr,
                    scopes,
                    integer_tv,
                    fun_table,
                    names,
                    types,
                    constraints,
                ) {
                    Ok(p) => p,
                    Err(_) => {
                        return Err(());
                    },
                };
                let ghost ce = constraints@;
                let ghost te = *types;
                if declared_in_current(scopes, ident) {
                    self.err.report(
                        *loc,
                        String::from_str("Duplicate declaration in the same scope"),
                    );
                    return Err(());
                }
                let ghost dcands = match *t {
                    Some(at) => seq![ast_type_view(at)],
                    None => seq![TypeV::Any],
                };
                let cands = match t {
                    Some(at) => singleton_candidates(ast_to_type(*at)),
                    None => singleton_candidates(Type::Any),
                };
                proof {
                    assert(views_of(cands@) == dcands);
                }
                let decl_tv = match fresh_tv(&mut self.err, types, *loc, cands) {
                    Ok(tv) => tv,
                    Err(_) => {
                        return Err(());
                    },
                };
                constraints.push(TypeConstraint::Equality(decl_tv, etv, *loc));
                proof {
                    lemma_prefix_push(ce, TypeConstraint::Equality(decl_tv, etv, *loc));
                }
                let n_id = match fresh_name(&mut self.err, names, ident.clone(), *loc, decl_tv) {
                    Ok(n) => n,
                    Err(_) => {
                        return Err(());
                    },
                };
                let ghost scopes0 = scopes@;
                let ghost locals0 = locals@;
                let level = scopes.len() - 1;
                let scope = &mut scopes[level];
                scope.push((ident.clone(), n_id, decl_tv));
                locals.push(n_id);
                proof {
                    assert(locals@.drop_last() =~= locals0);
                    assert(old(locals)@.is_prefix_of(locals@)) by {
                        assert(locals@.subrange(0, old(locals)@.len() as int)
                            =~= old(locals)@);
                    }
                    assert forall|ids: Set<NameId>|
                        #[trigger] scopes_bound(old(scopes)@, ids)
                        && all_in(locals@, ids) implies scopes_bound(scopes@, ids) by {
                        assert(ids.contains(locals@[locals@.len() - 1]));
                        assert forall|l: int, i: int| 0 <= l < scopes@.len()
                            && 0 <= i < scopes@[l]@.len()
                            implies ids.contains((#[trigger] scopes@[l]@[i]).1) by {
                            if l == level as int && i == scopes@[l]@.len() - 1 {
                                assert(scopes@[l]@[i].1 == n_id);
                            } else {
                                assert(scopes@[l]@[i] == old(scopes)@[l]@[i]);
                            }
                        }
                    }
                }
                let hs = Statement::LetStmt {
                    var: Variable { n_id, t_id: decl_tv, loc: *loc },
                    expr: he,
                };
                proof {
                    let ghost hsv = hs;
                    assert forall|ids: Set<NameId>|
                        #[trigger] scopes_bound(old(scopes)@, ids) && all_in(locals@, ids)
                        implies crate::ast_to_mir::hir_stmt_scoped(hsv, ids) by {
                        assert(ids.contains(locals@[locals@.len() - 1]));
                    }
                    let cfin = constraints@;
                    let tfin = *types;
                    let e1 = TypeConstraint::Equality(decl_tv, etv, *loc);
                    assert(cfin[ce.len() as int] == e1);
                    assert(has_constraint(cfin, e1));
                    assert forall|cs2: Seq<TypeConstraint>, types2: TypeVarStore|
                        cfin.is_prefix_of(cs2) && tvs_preserved(tfin, types2)
                        implies #[trigger] corresponds_stmt(hsv, *st, cs2, types2,
                            integer_tv) by {
                        crate::type_check::lemma_prefix_trans(ce, cfin, cs2);
                        lemma_tvs_preserved_trans(te, tfin, types2);
                        assert(corresponds_expr(he, *expr, cs2, types2, integer_tv));
                        lemma_has_constraint_mono(cfin, cs2, e1);
                        lemma_tv_holds_mono(tfin, types2, decl_tv, dcands);
                    }
                }
                Ok(hs)
            },
            ast::Statement::AssignStmt { ident, expr, loc } => {
                let (he, etv) = match self.resolve_expr(
                    expr,
                    scopes,
                    integer_tv,
                    fun_table,
                    names,
                    types,
                    constraints,
                ) {
                    Ok(p) => p,
                    Err(_) => {
                        return Err(());
                    },
                };
                let ghost ce = constraints@;
                let ghost te = *types;
                let (n_id, decl_tv) = match find_in_scopes(scopes, ident) {
                    Some(p) => p,
                    None => {
                        self.err.report(*loc, String::from_str("Unknown identifier"));
                        return Err(());
                    },
                };
                let occ_tv = match fresh_tv(&mut self.err, types, *loc, singleton_candidates(Type::Any)) {
                    Ok(tv) => tv,
                    Err(_) => {
                        return Err(());
                    },
                };
                constraints.push(TypeConstraint::Equality(occ_tv, decl_tv, *loc));
                let ghost c1 = constraints@;
                constraints.push(TypeConstraint::Equality(occ_tv, etv, *loc));
                let hs = Statement::AssignStmt {
                    var: Variable { n_id, t_id: occ_tv, loc: *loc },
                    expr: he,
                };
                proof {
                    let ghost hsv = hs;
                    assert forall|ids: Set<NameId>|
                        #[trigger] scopes_bound(old(scopes)@, ids) && all_in(locals@, ids)
                        implies crate::ast_to_mir::hir_stmt_scoped(hsv, ids) by {
                        assert(ids.contains(n_id));
                    }
                    let cfin = constraints@;
                    let tfin = *types;
                    let e1 = TypeConstraint::Equality(occ_tv, decl_tv, *loc);
                    let e2 = TypeConstraint::Equality(occ_tv, etv, *loc);
                    lemma_prefix_push(ce, e1);
                    lemma_prefix_push(c1, e2);
                    crate::type_check::lemma_prefix_trans(ce, c1, cfin);
                    assert(cfin[ce.len() as int] == e1);
                    assert(cfin[c1.len() as int] == e2);
                    assert(has_constraint(cfin, e1));
                    assert(has_constraint(cfin, e2));
                    assert forall|cs2: Seq<TypeConstraint>, types2: TypeVarStore|
                        cfin.is_prefix_of(cs2) && tvs_preserved(tfin, types2)
                        implies #[trigger] corresponds_stmt(hsv, *st, cs2, types2,
                            integer_tv) by {
                        crate::type_check::lemma_prefix_trans(ce, cfin, cs2);
                        lemma_tvs_preserved_trans(te, tfin, types2);
                        assert(corresponds_expr(he, *expr, cs2, types2, integer_tv));
                        lemma_has_constraint_mono(cfin, cs2, e1);
                        lemma_has_constraint_mono(cfin, cs2, e2);
                    }
                }
                Ok(hs)
            },
            ast::Statement::ExprStmt { expr } => {
                let (he, _) = match self.resolve_expr(
                    expr,
                    scopes,
                    integer_tv,
                    fun_table,
                    names,
                    types,
                    constraints,
                ) {
                    Ok(p) => p,
                    Err(_) => {
                        return Err(());
                    },
                };
                let hs = Statement::ExprStmt { expr: he };
                proof {
                    let ghost hsv = hs;
                    assert forall|ids: Set<NameId>|
                        #[trigger] scopes_bound(old(scopes)@, ids) && all_in(locals@, ids)
                        implies crate::ast_to_mir::hir_stmt_scoped(hsv, ids) by {}
                    assert forall|cs2: Seq<TypeConstraint>, types2: TypeVarStore|
                        constraints@.is_prefix_of(cs2) && tvs_preserved(*types, types2)
                        implies #[trigger] corresponds_stmt(hsv, *st, cs2, types2,
                            integer_tv) by {
                        assert(corresponds_expr(he, *expr, cs2, types2, integer_tv));
                    }
                }
                Ok(hs)
            },
            ast::Statement::ReturnStmt { expr, loc } => {
                match expr {
                    Some(e) => {
                        let (he, etv) = match self.resolve_expr(
                            e,
                            scopes,
                            integer_tv,
                            fun_table,
                            names,
                            types,
                            constraints,
                        ) {
                            Ok(p) => p,
                            Err(_) => {
                                return Err(());
                            },
                        };
                        let ghost ce = constraints@;
                        constraints.push(TypeConstraint::Equality(etv, ret_tv, *loc));
                        let hs = Statement::ReturnStmt { expr: Some(he), loc: *loc };
                        proof {
                            let ghost hsv = hs;
                            assert forall|ids: Set<NameId>|
                                #[trigger] scopes_bound(old(scopes)@, ids)
                                && all_in(locals@, ids)
                                implies crate::ast_to_mir::hir_stmt_scoped(hsv, ids) by {}
                            let cfin = constraints@;
                            let tfin = *types;
                            let e1 = TypeConstraint::Equality(etv, ret_tv, *loc);
                            lemma_prefix_push(ce, e1);
                            assert(cfin[ce.len() as int] == e1);
                            assert(has_constraint(cfin, e1));
                            assert forall|cs2: Seq<TypeConstraint>, types2: TypeVarStore|
                                cfin.is_prefix_of(cs2) && tvs_preserved(tfin, types2)
                                implies #[trigger] corresponds_stmt(hsv, *st, cs2, types2,
                                    integer_tv) by {
                                crate::type_check::lemma_prefix_trans(ce, cfin, cs2);
                                assert(corresponds_expr(he, *e, cs2, types2, integer_tv));
                                lemma_has_constraint_mono(cfin, cs2, e1);
                            }
                        }
                        Ok(hs)
                    },
                    None => Ok(Statement::ReturnStmt { expr: None, loc: *loc }),
                }
            },
            ast::Statement::IfStmt { expr, block, else_block, loc } => {
                let (he, etv) = match self.resolve_expr(
                    expr,
                    scopes,
                    integer_tv,
                    fun_table,
                    names,
                    types,
                    constraints,
                ) {
                    Ok(p) => p,
                    Err(_) => {
                        return Err(());
                    },
                };
                let ghost ce = constraints@;
                let ghost te = *types;
                let bool_tv = match fresh_tv(&mut self.err, types, *loc, singleton_candidates(Type::Bool)) {
                    Ok(tv) => tv,
                    Err(_) => {
                        return Err(());
                    },
                };
                let ghost tb0 = *types;
                constraints.push(TypeConstraint::Equality(etv, bool_tv, *loc));
                proof {
                    lemma_prefix_push(ce, TypeConstraint::Equality(etv, bool_tv, *loc));
                }
                let ghost c0 = constraints@;
                let ghost locals_a = locals@;
                let hb = match self.resolve_block(
                    block,
                    scopes,
                    locals,
                    ret_tv,
                    integer_tv,
                    fun_table,
                    names,
                    types,
                    constraints,
                ) {
                    Ok(b) => b,
                    Err(_) => {
                        return Err(());
                    },
                };
                let ghost locals_b = locals@;
                let ghost cb1 = constraints@;
                let ghost tb1 = *types;
                let ghost hbv = hb;
                let heb = match else_block {
                    Some(eb) => {
                        match self.resolve_block(
                            eb,
                            scopes,
                            locals,
                            ret_tv,
                            integer_tv,
                            fun_table,
                            names,
                            types,
                            constraints,
                        ) {
                            Ok(b) => Some(b),
                            Err(_) => {
                                proof {
                                    crate::type_check::lemma_prefix_trans(locals_a,
                                        locals_b, locals@);
                                }
                                return Err(());
                            },
                        }
                    },
                    None => None,
                };
                let ghost hebv = heb;
                proof {
                    crate::type_check::lemma_prefix_trans(locals_a, locals_b, locals@);
                    assert forall|ids: Set<NameId>|
                        #[trigger] scopes_bound(old(scopes)@, ids) && all_in(locals@, ids)
                        implies crate::ast_to_mir::hir_stmt_scoped(
                            Statement::IfStmt { expr: he, block: hbv, else_block: hebv },
                            ids,
                        ) by {
                        lemma_all_in_prefix(locals_b, locals@, ids);
                        assert(crate::ast_to_mir::hir_stmts_scoped(hbv.stmts@, ids));
                        match hebv {
                            Some(ebv) => {
                                assert(crate::ast_to_mir::hir_stmts_scoped(ebv.stmts@,
                                    ids));
                            },
                            None => {},
                        }
                    }
                    let hsv = Statement::IfStmt { expr: he, block: hbv, else_block: hebv };
                    let cfin = constraints@;
                    let tfin = *types;
                    let e1 = TypeConstraint::Equality(etv, bool_tv, *loc);
                    assert(c0[ce.len() as int] == e1);
                    lemma_prefix_of_refl(cfin);
                    crate::type_check::lemma_prefix_trans(ce, c0, cb1);
                    crate::type_check::lemma_prefix_trans(c0, cb1, cfin);
                    crate::type_check::lemma_prefix_trans(ce, cb1, cfin);
                    assert(cfin[ce.len() as int] == e1);
                    assert(has_constraint(cfin, e1));
                    lemma_tvs_preserved_trans(tb0, tb1, tfin);
                    lemma_tvs_preserved_trans(te, tb0, tfin);
                    assert(tv_holds(tb0, bool_tv, seq![TypeV::Bool]));
                    lemma_tv_holds_mono(tb0, tfin, bool_tv, seq![TypeV::Bool]);
                    assert forall|cs2: Seq<TypeConstraint>, types2: TypeVarStore|
                        cfin.is_prefix_of(cs2) && tvs_preserved(tfin, types2)
                        implies #[trigger] corresponds_stmt(hsv, *st, cs2, types2,
                            integer_tv) by {
                        crate::type_check::lemma_prefix_trans(ce, cfin, cs2);
                        crate::type_check::lemma_prefix_trans(cb1, cfin, cs2);
                        lemma_tvs_preserved_trans(te, tfin, types2);
                        lemma_tvs_preserved_trans(tb1, tfin, types2);
                        assert(corresponds_expr(he, *expr, cs2, types2, integer_tv));
                        lemma_has_constraint_mono(cfin, cs2, e1);
                        lemma_tv_holds_mono(tfin, types2, bool_tv, seq![TypeV::Bool]);
                        assert(corresponds_stmts(hbv.stmts@, block.stmts@, cs2, types2,
                            integer_tv));
                        match (hebv, *else_block) {
                            (Some(h), Some(a)) => {
                                assert(corresponds_stmts(h.stmts@, a.stmts@, cs2, types2,
                                    integer_tv));
                            },
                            _ => {},
                        }
                    }
                }
                Ok(Statement::IfStmt { expr: he, block: hb, else_block: heb })
            },
            ast::Statement::WhileStmt { expr, block, loc } => {
                let (he, etv) = match self.resolve_expr(
                    expr,
                    scopes,
                    integer_tv,
                    fun_table,
                    names,
                    types,
                    constraints,
                ) {
                    Ok(p) => p,
                    Err(_) => {
                        return Err(());
                    },
                };
                let ghost ce = constraints@;
                let ghost te = *types;
                let bool_tv = match fresh_tv(&mut self.err, types, *loc, singleton_candidates(Type::Bool)) {
                    Ok(tv) => tv,
                    Err(_) => {
                        return Err(());
                    },
                };
                let ghost tb0 = *types;
                constraints.push(TypeConstraint::Equality(etv, bool_tv, *loc));
                proof {
                    lemma_prefix_push(ce, TypeConstraint::Equality(etv, bool_tv, *loc));
                }
                let ghost c0 = constraints@;
                let ghost locals_mid = locals@;
                let hb = match self.resolve_block(
                    block,
                    scopes,
                    locals,
                    ret_tv,
                    integer_tv,
                    fun_table,
                    names,
                    types,
                    constraints,
                ) {
                    Ok(b) => b,
                    Err(_) => {
                        return Err(());
                    },
                };
                let ghost hbv = hb;
                proof {
                    assert forall|ids: Set<NameId>|
                        #[trigger] scopes_bound(old(scopes)@, ids) && all_in(locals@, ids)
                        implies crate::ast_to_mir::hir_stmt_scoped(
                            Statement::WhileStmt { expr: he, block: hbv },
                            ids,
                        ) by {
                        assert(crate::ast_to_mir::hir_stmts_scoped(hbv.stmts@, ids));
                    }
                    let hsv = Statement::WhileStmt { expr: he, block: hbv };
                    let cfin = constraints@;
                    let tfin = *types;
                    let e1 = TypeConstraint::Equality(etv, bool_tv, *loc);
                    assert(c0[ce.len() as int] == e1);
                    crate::type_check::lemma_prefix_trans(ce, c0, cfin);
                    assert(cfin[ce.len() as int] == e1);
                    assert(has_constraint(cfin, e1));
                    lemma_tvs_preserved_trans(te, tb0, tfin);
                    assert(tv_holds(tb0, bool_tv, seq![TypeV::Bool]));
                    lemma_tv_holds_mono(tb0, tfin, bool_tv, seq![TypeV::Bool]);
                    assert forall|cs2: Seq<TypeConstraint>, types2: TypeVarStore|
                        cfin.is_prefix_of(cs2) && tvs_preserved(tfin, types2)
                        implies #[trigger] corresponds_stmt(hsv, *st, cs2, types2,
                            integer_tv) by {
                        crate::type_check::lemma_prefix_trans(ce, cfin, cs2);
                        lemma_tvs_preserved_trans(te, tfin, types2);
                        assert(corresponds_expr(he, *expr, cs2, types2, integer_tv));
                        lemma_has_constraint_mono(cfin, cs2, e1);
                        lemma_tv_holds_mono(tfin, types2, bool_tv, seq![TypeV::Bool]);
                        assert(corresponds_stmts(hbv.stmts@, block.stmts@, cs2, types2,
                            integer_tv));
                    }
                }
                Ok(Statement::WhileStmt { expr: he, block: hb })
            },
        }
    }

    /// Resolves a block: its statements see a fresh innermost scope, which
    /// closes with the block; the names it bound stay in the locals list.
    #[verifier::loop_isolation(false)]
    fn resolve_block(
        &mut self,
        block: &ast::Block,
        scopes: &mut Scopes,
        locals: &mut Vec<NameId>,
        ret_tv: TypeVarId,
        integer_tv: TypeVarId,
        fun_table: &FunTable,
        names: &mut NameStore,
        types: &mut TypeVarStore,
        constraints: &mut ConstraintStore,
    ) -> (r: Result<Block, ()>)
        requires
            stores_ok(*old(names), *old(types)),
        ensures
            stores_ok(*final(names), *final(types)),
            final(names).mod_id_spec() == old(names).mod_id_spec(),
            final(types).mod_id_spec() == old(types).mod_id_spec(),
            names_preserved(*old(names), *final(names)),
            tvs_preserved(*old(types), *final(types)),
            old(self).err.diags().is_prefix_of(final(self).err.diags()),
            r is Err ==> old(self).err.diags().len() < final(self).err.diags().len(),
            final(scopes)@ == old(scopes)@,
            old(locals)@.is_prefix_of(final(locals)@),
            r matches Ok(hb) ==> forall|ids: Set<NameId>|
                #[trigger] scopes_bound(old(scopes)@, ids) && all_in(final(locals)@, ids)
                    ==> crate::ast_to_mir::hir_stmts_scoped(hb.stmts@, ids),
            old(constraints)@.is_prefix_of(final(constraints)@),
            r matches Ok(hb) ==> forall|cs2: Seq<TypeConstraint>, types2: TypeVarStore|
                final(constraints)@.is_prefix_of(cs2) && tvs_preserved(*final(types), types2)
                    ==> #[trigger] corresponds_stmts(
                    hb.stmts@,
                    block.stmts@,
                    cs2,
                    types2,
                    integer_tv,
                ),
        decreases *block,
    {
        let ghost scopes_in = scopes@;
        scopes.push(Vec::new());
        let ghost scopes0 = scopes@;
        let ghost locals0 = locals@;
        let mut stmts: Vec<Statement> = Vec::new();
        let n = block.stmts.len();
        let mut i: usize = 0;
        proof {
            lemma_prefix_of_refl(locals@);
            lemma_prefix_of_refl(constraints@);
            assert forall|ids: Set<NameId>| #[trigger] scopes_bound(scopes_in, ids)
                && all_in(locals@, ids) implies scopes_bound(scopes@, ids) by {
                assert forall|l: int, i2: int| 0 <= l < scopes@.len()
                    && 0 <= i2 < scopes@[l]@.len()
                    implies ids.contains((#[trigger] scopes@[l]@[i2]).1) by {
                    assert(l < scopes_in.len());
                    assert(scopes@[l] == scopes_in[l]);
                }
            }
        }
        while i < n
            invariant
                i <= n,
                n == block.stmts@.len(),
                stores_ok(*names, *types),
                names.mod_id_spec() == old(names).mod_id_spec(),
                types.mod_id_spec() == old(types).mod_id_spec(),
                names_preserved(*old(names), *names),
                tvs_preserved(*old(types), *types),
                old(self).err.diags().is_prefix_of(self.err.diags()),
                scopes@.len() == scopes0.len(),
                scopes0.len() == scopes_in.len() + 1,
                forall|l: int| 0 <= l < scopes_in.len() ==> scopes@[l] == scopes_in[l],
                locals0.is_prefix_of(locals@),
                forall|ids: Set<NameId>| #[trigger] scopes_bound(scopes_in, ids)
                    && all_in(locals@, ids) ==> scopes_bound(scopes@, ids),
                forall|ids: Set<NameId>| #[trigger] scopes_bound(scopes_in, ids)
                    && all_in(locals@, ids)
                    ==> crate::ast_to_mir::hir_stmts_scoped(stmts@, ids),
                stmts@.len() == i,
                old(constraints)@.is_prefix_of(constraints@),
                stmts_correspond_from(
                    stmts@,
                    block.stmts@.subrange(0, i as int),
                    constraints@,
                    *types,
                    integer_tv,
                ),
            decreases n - i,
        {
            let ghost scopes_pre = scopes@;
            let ghost locals_pre = locals@;
            let ghost stmts0 = stmts@;
            let ghost c_pre = constraints@;
            let ghost t_pre = *types;
            match self.resolve_stmt(
                &block.stmts[i],
                scopes,
                locals,
                ret_tv,
                integer_tv,
                fun_table,
                names,
                types,
                constraints,
            ) {
                Ok(hs) => {
                    let ghost hsv = hs;
                    stmts.push(hs);
                    proof {
                        crate::type_check::lemma_prefix_trans(locals0, locals_pre, locals@);
                        crate::type_check::lemma_prefix_trans(
                            old(constraints)@,
                            c_pre,
                            constraints@,
                        );
                        assert(stmts@.drop_last() =~= stmts0);
                        assert forall|ids: Set<NameId>|
                            #[trigger] scopes_bound(scopes_in, ids) && all_in(locals@, ids)
                            implies scopes_bound(scopes@, ids)
                                && crate::ast_to_mir::hir_stmts_scoped(stmts@, ids) by {
                            lemma_all_in_prefix(locals_pre, locals@, ids);
                            assert(scopes_bound(scopes_pre, ids));
                            assert(crate::ast_to_mir::hir_stmt_scoped(hsv, ids));
                        }
                        assert forall|
                            j: int,
                            cs2: Seq<TypeConstraint>,
                            types2: TypeVarStore,
                        |
                            0 <= j < stmts@.len() && constraints@.is_prefix_of(cs2)
                                && tvs_preserved(*types, types2)
                            implies #[trigger] corresponds_stmt(
                            stmts@[j],
                            block.stmts@.subrange(0, i + 1 as int)[j],
                            cs2,
                            types2,
                            integer_tv,
                        ) by {
                            crate::type_check::lemma_prefix_trans(c_pre, constraints@, cs2);
                            lemma_tvs_preserved_trans(t_pre, *types, types2);
                            if j < i {
                                assert(stmts@[j] == stmts0[j]);
                                assert(block.stmts@.subrange(0, i + 1 as int)[j]
                                    == block.stmts@.subrange(0, i as int)[j]);
                                assert(corresponds_stmt(
                                    stmts0[j],
                                    block.stmts@.subrange(0, i as int)[j],
                                    cs2,
                                    types2,
                                    integer_tv,
                                ));
                            } else {
                                assert(stmts@[j] == hsv);
                                assert(block.stmts@.subrange(0, i + 1 as int)[j]
                                    == block.stmts@[i as int]);
                                assert(corresponds_stmt(
                                    hsv,
                                    block.stmts@[i as int],
                                    cs2,
                                    types2,
                                    integer_tv,
                                ));
                            }
                        }
                        assert(stmts_correspond_from(
                            stmts@,
                            block.stmts@.subrange(0, i + 1 as int),
                            constraints@,
                            *types,
                            integer_tv,
                        ));
                    }
                },
                Err(_) => {
                    let _ = scopes.pop();
                    proof {
                        assert(scopes@ =~= scopes_in);
                        crate::type_check::lemma_prefix_trans(locals0, locals_pre,
                            locals@);
                        crate::type_check::lemma_prefix_trans(
                            old(constraints)@,
                            c_pre,
                            constraints@,
                        );
                    }
                    return Err(());
                },
            }
            i = i + 1;
        }
        let _ = scopes.pop();
        proof {
            assert(scopes@ =~= scopes_in);
            assert(block.stmts@.subrange(0, n as int) =~= block.stmts@);
            let hb = Block { stmts };
            assert forall|cs2: Seq<TypeConstraint>, types2: TypeVarStore|
                constraints@.is_prefix_of(cs2) && tvs_preserved(*types, types2)
                implies #[trigger] corresponds_stmts(
                hb.stmts@,
                block.stmts@,
                cs2,
                types2,
                integer_tv,
            ) by {
                assert forall|j: int| 0 <= j < hb.stmts@.len()
                    implies corresponds_stmt(
                    #[trigger] hb.stmts@[j],
                    block.stmts@[j],
                    cs2,
                    types2,
                    integer_tv,
                ) by {
                    assert(corresponds_stmt(
                        stmts@[j],
                        block.stmts@.subrange(0, n as int)[j],
                        cs2,
                        types2,
                        integer_tv,
                    ));
                }
                lemma_assemble_stmts(hb.stmts@, block.stmts@, cs2, types2, integer_tv);
            }
        }
        Ok(Block { stmts })
    }

    /// Resolves one function: binds its parameters in a fresh function
    /// scope, resolves its body, and collects its locals.
    fn resolve_fun(
        &mut self,
        fun: &ast::Function,
        idx: usize,
        integer_tv: TypeVarId,
        fun_table: &FunTable,
        names: &mut NameStore,
        types: &mut TypeVarStore,
        constraints: &mut ConstraintStore,
    ) -> (r: Result<Function, ()>)
        requires
            stores_ok(*old(names), *old(types)),
            idx < fun_table@.len(),
        ensures
            stores_ok(*final(names), *final(types)),
            final(names).mod_id_spec() == old(names).mod_id_spec(),
            final(types).mod_id_spec() == old(types).mod_id_spec(),
            names_preserved(*old(names), *final(names)),
            tvs_preserved(*old(types), *final(types)),
            old(self).err.diags().is_prefix_of(final(self).err.diags()),
            r is Err ==> old(self).err.diags().len() < final(self).err.diags().len(),
            r matches Ok(hf) ==> crate::ast_to_mir::fun_body_scoped(hf)
                && hf.n_id == fun_table@[idx as int].2 && hf.fun_id == fun_table@[idx as int].1
                && hf.ident@ == fun.ident@ && hf.params@.len() == fun.params@.len()
                && hf.is_pub == fun.is_pub && hf.loc == fun.loc
                && (match (hf.exposed, fun.exposed) {
                (Some(a), Some(b)) => a@ == b@,
                (None, None) => true,
                _ => false,
            }),
            old(constraints)@.is_prefix_of(final(constraints)@),
            r matches Ok(hf) ==> body_resolves_from(
                hf,
                *fun,
                final(constraints)@,
                *final(types),
                integer_tv,
            ),
    {
        proof {
            lemma_prefix_of_refl(constraints@);
        }
        let n_id = fun_table[idx].2;
        let fun_id = fun_table[idx].1;
        let ret_t = match fun.result {
            Some(at) => ast_to_type(at),
            None => Type::Unit,
        };
        let ret_tv = match fresh_tv(&mut self.err, types, fun.loc, singleton_candidates(ret_t)) {
            Ok(tv) => tv,
            Err(_) => {
                return Err(());
            },
        };
        let mut scopes: Scopes = Vec::new();
        scopes.push(Vec::new());
        let mut params: Vec<Variable> = Vec::new();
        let np = fun.params.len();
        let mut i: usize = 0;
        while i < np
            invariant
                i <= np,
                np == fun.params@.len(),
                stores_ok(*names, *types),
                names.mod_id_spec() == old(names).mod_id_spec(),
                types.mod_id_spec() == old(types).mod_id_spec(),
                names_preserved(*old(names), *names),
                tvs_preserved(*old(types), *types),
                old(self).err.diags().is_prefix_of(self.err.diags()),
                scopes@.len() == 1,
                params@.len() == i,
                scopes@[0]@.len() == i,
                forall|j: int| 0 <= j < i
                    ==> (#[trigger] scopes@[0]@[j]).1 == params@[j].n_id,
            decreases np - i,
        {
            let p = &fun.params[i];
            if declared_in_current(&scopes, &p.ident) {
                self.err.report(
                    p.loc,
                    String::from_str("Duplicate declaration in the same scope"),
                );
                return Err(());
            }
            let ptv = match fresh_tv(
                &mut self.err,
                types,
                p.loc,
                singleton_candidates(ast_to_type(p.t)),
            ) {
                Ok(tv) => tv,
                Err(_) => {
                    return Err(());
                },
            };
            let pn = match fresh_name(&mut self.err, names, p.ident.clone(), p.loc, ptv) {
                Ok(n) => n,
                Err(_) => {
                    return Err(());
                },
            };
            let scope = &mut scopes[0];
            scope.push((p.ident.clone(), pn, ptv));
            params.push(Variable { n_id: pn, t_id: ptv, loc: p.loc });
            i = i + 1;
        }
        let mut locals: Vec<NameId> = Vec::new();
        let ghost scopes_call = scopes@;
        let ghost params_v = params@;
        let body = match &fun.body {
            ast::Body::Zephyr(block) => {
                let hb = match self.resolve_block(
                    block,
                    &mut scopes,
                    &mut locals,
                    ret_tv,
                    integer_tv,
                    fun_table,
                    names,
                    types,
                    constraints,
                ) {
                    Ok(b) => b,
                    Err(_) => {
                        return Err(());
                    },
                };
                proof {
                    let ids = params_v.map_values(|p: Variable| p.n_id).to_set().union(
                        locals@.to_set(),
                    );
                    assert(scopes_bound(scopes_call, ids)) by {
                        assert forall|l: int, i2: int| 0 <= l < scopes_call.len()
                            && 0 <= i2 < scopes_call[l]@.len()
                            implies ids.contains((#[trigger] scopes_call[l]@[i2]).1) by {
                            assert(l == 0);
                            assert(scopes_call[0]@[i2].1 == params_v[i2].n_id);
                            assert(params_v.map_values(|p: Variable| p.n_id)[i2]
                                == params_v[i2].n_id);
                            assert(params_v.map_values(|p: Variable| p.n_id).contains(
                                params_v[i2].n_id,
                            ));
                        }
                    }
                    assert(all_in(locals@, ids)) by {
                        assert forall|j: int| 0 <= j < locals@.len()
                            implies ids.contains(#[trigger] locals@[j]) by {
                            assert(locals@.contains(locals@[j]));
                        }
                    }
                    assert(crate::ast_to_mir::hir_stmts_scoped(hb.stmts@, ids));
                }
                Body::Zephyr(hb)
            },
            ast::Body::Asm(asm_stmts) => {
                let mut copied: Vec<crate::hir::AsmStatement> = Vec::new();
                let na = asm_stmts.len();
                let mut j: usize = 0;
                while j < na
                    invariant
                        j <= na,
                        na == asm_stmts@.len(),
                        copied@ == asm_stmts@.subrange(0, j as int),
                    decreases na - j,
                {
                    copied.push(asm_stmts[j]);
                    proof {
                        assert(copied@ =~= asm_stmts@.subrange(0, j + 1 as int));
                    }
                    j = j + 1;
                }
                proof {
                    assert(copied@ =~= asm_stmts@);
                }
                Body::Asm(copied)
            },
        };
        let exposed = match &fun.exposed {
            Some(e) => Some(e.clone()),
            None => None,
        };
        let hf = Function {
            ident: fun.ident.clone(),
            params,
            locals,
            body,
            is_pub: fun.is_pub,
            exposed,
            loc: fun.loc,
            n_id,
            fun_id,
        };
        proof {
            assert(crate::ast_to_mir::fun_body_scoped(hf)) by {
                match hf.body {
                    Body::Zephyr(hb) => {
                        assert(crate::ast_to_mir::fun_local_ids(hf)
                            =~= params_v.map_values(|p: Variable| p.n_id).to_set().union(
                            hf.locals@.to_set(),
                        ));
                    },
                    Body::Asm(_) => {},
                }
            }
            let hfv = hf;
            assert forall|cs2: Seq<TypeConstraint>, types2: TypeVarStore|
                constraints@.is_prefix_of(cs2) && tvs_preserved(*types, types2)
                implies #[trigger] corresponds_body(hfv.body, fun.body, cs2, types2,
                    integer_tv) by {
                match (hfv.body, fun.body) {
                    (Body::Zephyr(hb), ast::Body::Zephyr(ab)) => {
                        assert(corresponds_stmts(hb.stmts@, ab.stmts@, cs2, types2,
                            integer_tv));
                    },
                    _ => {},
                }
            }
        }
        Ok(hf)
    }

    /// Resolves a parsed program against the already-compiled namespace:
    /// every function of the module and every imported declaration becomes
    /// callable; each function body is bound and constrained. The resulting
    /// stores are well-formed and the solver accepts their candidate lists.
    #[verifier::loop_isolation(false)]
    pub fn resolve(
        &mut self,
        ast_program: ast::Program,
        namespace: Vec<(String, Vec<(String, Declaration)>)>,
        mod_id: ModId,
    ) -> (r: ResolvedProgram)
        ensures
            r.names.wf(),
            r.types.wf(),
            wf_tvs(state_of(r.types)),
            r.names.mod_id_spec() == mod_id,
            r.types.mod_id_spec() == mod_id,
            forall|i: int| 0 <= i < r.funs@.len()
                ==> crate::ast_to_mir::fun_body_scoped(#[trigger] r.funs@[i]),
            old(self).err.diags().is_prefix_of(final(self).err.diags()),
            final(self).err.diags() == old(self).err.diags() ==> {
                &&& r.funs@.len() == ast_program.funs@.len()
                &&& exists|itv: TypeVarId|
                    {
                        &&& #[trigger] tv_holds(r.types, itv, integer_cands())
                        &&& forall|i: int| 0 <= i < r.funs@.len() ==> resolves_fun(
                            #[trigger] r.funs@[i],
                            ast_program.funs@[i],
                            r.names,
                            r.types,
                            r.constraints@,
                            itv,
                        )
                    }
            },
    {
        proof {
            crate::type_check::lemma_append_empty(self.err.diags());
        }
        let ast::Program { funs } = ast_program;
        let mut names: NameStore = Store::new(mod_id);
        let mut types: TypeVarStore = Store::new(mod_id);
        let mut fun_ids: Store<FunId, bool> = Store::new(mod_id);
        let mut constraints: ConstraintStore = Vec::new();
        proof {
            crate::type_check::lemma_tvs_of(types.kvs());
            assert(state_of(types) =~= Seq::<(crate::store::Id, crate::types::TypeVarV)>::empty());
        }
        // The canonical integer type variable: integer literals are narrowed
        // against it, and its candidate set is the defaulting reference.
        let zero_loc = Location { pos: 0, len: 0, f_id: crate::resolver::FileId(0) };
        let integer_tv = match fresh_tv(&mut self.err, &mut types, zero_loc, integer_candidates()) {
            Ok(tv) => tv,
            Err(_) => TypeVarId::new(0),
        };
        let mut fun_table: FunTable = Vec::new();
        let nf = funs.len();
        let mut i: usize = 0;
        while i < nf
            invariant
                i <= nf,
                nf == funs@.len(),
                stores_ok(names, types),
                names.mod_id_spec() == mod_id,
                types.mod_id_spec() == mod_id,
                fun_ids.wf(),
                fun_table@.len() == i,
                old(self).err.diags().is_prefix_of(self.err.diags()),
                forall|j: int| 0 <= j < i ==> table_entry_matches(
                    #[trigger] fun_table@[j],
                    funs@[j],
                    names,
                    types,
                ),
                self.err.diags() == old(self).err.diags() ==> tv_holds(
                    types,
                    integer_tv,
                    integer_cands(),
                ),
            decreases nf - i,
        {
            let ghost d_pre = self.err.diags();
            let ghost t_pass1 = types;
            let f = &funs[i];
            let mut param_types: Vec<Type> = Vec::new();
            let npp = f.params.len();
            let mut j: usize = 0;
            proof {
                assert(f.params@.take(0) =~= Seq::<ast::Parameter>::empty());
                crate::types::lemma_views_of(param_types@);
                assert(views_of(param_types@) =~= param_type_views(f.params@.take(0)));
            }
            while j < npp
                invariant
                    j <= npp,
                    npp == f.params@.len(),
                    views_of(param_types@) == param_type_views(f.params@.take(j as int)),
                decreases npp - j,
            {
                let ghost pt0 = param_types@;
                param_types.push(ast_to_type(f.params[j].t));
                proof {
                    assert(f.params@.take(j as int + 1).drop_last()
                        =~= f.params@.take(j as int));
                    assert(f.params@.take(j as int + 1).last() == f.params@[j as int]);
                    assert(param_types@.drop_last() =~= pt0);
                    assert(views_of(param_types@) == views_of(pt0).push(
                        param_types@.last()@,
                    ));
                }
                j = j + 1;
            }
            proof {
                assert(f.params@.take(npp as int) =~= f.params@);
            }
            let mut param_types2: Vec<Type> = Type::duplicate_list(&param_types);
            let mut ret_types: Vec<Type> = Vec::new();
            match f.result {
                Some(at) => {
                    ret_types.push(ast_to_type(at));
                    proof {
                        crate::types::lemma_views_of(ret_types@);
                        assert(views_of(ret_types@) =~= seq![
                            ast_type_view(f.result.unwrap()),
                        ]);
                    }
                },
                None => {
                    proof {
                        crate::types::lemma_views_of(ret_types@);
                        assert(views_of(ret_types@) =~= Seq::<TypeV>::empty());
                    }
                },
            }
            let ret_types2: Vec<Type> = Type::duplicate_list(&ret_types);
            let fun_t = Type::Fun(param_types, ret_types);
            proof {
                assert(fun_t@ is Fun);
                assert(fun_t@ == declared_sig(funs@[i as int]));
            }
            let tv = match fresh_tv(&mut self.err, &mut types, f.loc, singleton_candidates(fun_t)) {
                Ok(tv) => tv,
                Err(_) => {
                    return ResolvedProgram {
                        funs: Vec::new(),
                        names,
                        types,
                        constraints,
                    };
                },
            };
            let n_id = match fresh_name(&mut self.err, &mut names, f.ident.clone(), f.loc, tv) {
                Ok(n) => n,
                Err(_) => {
                    return ResolvedProgram {
                        funs: Vec::new(),
                        names,
                        types,
                        constraints,
                    };
                },
            };
            proof {
                assert(names.spec_get(n_id.id_spec()).ident@ == funs@[i as int].ident@);
                assert(names.spec_get(n_id.id_spec()).t_id == tv);
                assert(types.spec_get(tv.id_spec())@.types
                    == seq![declared_sig(funs@[i as int])]);
            }
            match find_in_table(&fun_table, &f.ident) {
                Some(_) => {
                    self.err.report(
                        f.loc,
                        String::from_str("Duplicate function declaration"),
                    );
                },
                None => {},
            }
            if fun_ids.counter() == u32::MAX {
                self.err.report_internal_no_loc(
                    String::from_str("Identifier space exhausted"),
                );
                return ResolvedProgram { funs: Vec::new(), names, types, constraints };
            }
            let fun_id = fun_ids.add(true);
            let ghost table0 = fun_table@;
            fun_table.push((f.ident.clone(), fun_id, n_id, tv, param_types2, ret_types2));
            proof {
                assert(fun_table@.drop_last() =~= table0);
                crate::type_check::lemma_prefix_trans(
                    old(self).err.diags(),
                    d_pre,
                    self.err.diags(),
                );
                assert forall|j: int| 0 <= j < i as int + 1 implies table_entry_matches(
                    #[trigger] fun_table@[j],
                    funs@[j],
                    names,
                    types,
                ) by {
                    if j < i as int {
                        assert(fun_table@[j] == table0[j]);
                    } else {
                        assert(fun_table@[j] == fun_table@.last());
                    }
                }
                if self.err.diags() == old(self).err.diags() {
                    lemma_tv_holds_mono(t_pass1, types, integer_tv, integer_cands());
                }
            }
            i = i + 1;
        }
        // Imported declarations become callable as alias.symbol.
        let nn = namespace.len();
        let mut m: usize = 0;
        while m < nn
            invariant
                m <= nn,
                nn == namespace@.len(),
                nf <= fun_table@.len(),
                stores_ok(names, types),
                names.mod_id_spec() == mod_id,
                types.mod_id_spec() == mod_id,
                old(self).err.diags().is_prefix_of(self.err.diags()),
                forall|j: int| 0 <= j < nf ==> table_entry_matches(
                    #[trigger] fun_table@[j],
                    funs@[j],
                    names,
                    types,
                ),
                self.err.diags() == old(self).err.diags() ==> tv_holds(
                    types,
                    integer_tv,
                    integer_cands(),
                ),
            decreases nn - m,
        {
            let module = &namespace[m];
            let ns = module.1.len();
            let mut k: usize = 0;
            while k < ns
                invariant
                    k <= ns,
                    ns == module.1@.len(),
                    nf <= fun_table@.len(),
                    stores_ok(names, types),
                    names.mod_id_spec() == mod_id,
                    types.mod_id_spec() == mod_id,
                    old(self).err.diags().is_prefix_of(self.err.diags()),
                    forall|j: int| 0 <= j < nf ==> table_entry_matches(
                        #[trigger] fun_table@[j],
                        funs@[j],
                        names,
                        types,
                    ),
                    self.err.diags() == old(self).err.diags() ==> tv_holds(
                        types,
                        integer_tv,
                        integer_cands(),
                    ),
                decreases ns - k,
            {
                let ghost d_pre = self.err.diags();
                let ghost names_pre = names;
                let ghost types_pre = types;
                let entry = &module.1[k];
                let decl = &entry.1;
                match decl.kind {
                    crate::hir::DeclKind::Function => {
                        let mut full = module.0.clone();
                        full.append(".");
                        full.append(entry.0.as_str());
                        let (sig_params, sig_rets, is_fun_t) = match &decl.t {
                            Type::Fun(ps, rs) => (
                                Type::duplicate_list(ps),
                                Type::duplicate_list(rs),
                                true,
                            ),
                            _ => (Vec::new(), Vec::new(), false),
                        };
                        if is_fun_t {
                            let tv = match fresh_tv(
                                &mut self.err,
                                &mut types,
                                zero_loc,
                                singleton_candidates(decl.t.duplicate()),
                            ) {
                                Ok(tv) => tv,
                                Err(_) => {
                                    proof {
                                        crate::type_check::lemma_prefix_trans(
                                            old(self).err.diags(),
                                            d_pre,
                                            self.err.diags(),
                                        );
                                    }
                                    return ResolvedProgram {
                                        funs: Vec::new(),
                                        names,
                                        types,
                                        constraints,
                                    };
                                },
                            };
                            let n_id = match fresh_name(&mut self.err, &mut names, full.clone(), zero_loc, tv) {
                                Ok(n) => n,
                                Err(_) => {
                                    proof {
                                        crate::type_check::lemma_prefix_trans(
                                            old(self).err.diags(),
                                            d_pre,
                                            self.err.diags(),
                                        );
                                    }
                                    return ResolvedProgram {
                                        funs: Vec::new(),
                                        names,
                                        types,
                                        constraints,
                                    };
                                },
                            };
                            let ghost table0 = fun_table@;
                            fun_table.push((full, decl.fun_id, n_id, tv, sig_params, sig_rets));
                            proof {
                                assert(fun_table@.drop_last() =~= table0);
                                assert forall|j: int| 0 <= j < nf
                                    implies table_entry_matches(
                                    #[trigger] fun_table@[j],
                                    funs@[j],
                                    names,
                                    types,
                                ) by {
                                    assert(fun_table@[j] == table0[j]);
                                    assert(table_entry_matches(table0[j], funs@[j],
                                        names_pre, types_pre));
                                }
                            }
                        }
                    },
                    crate::hir::DeclKind::Type => {},
                }
                proof {
                    crate::type_check::lemma_prefix_trans(
                        old(self).err.diags(),
                        d_pre,
                        self.err.diags(),
                    );
                    if self.err.diags() == old(self).err.diags() {
                        lemma_tv_holds_mono(types_pre, types, integer_tv, integer_cands());
                    }
                }
                k = k + 1;
            }
            m = m + 1;
        }
        // Per-function resolution; a function that fails is reported and
        // produces no output, the others go on.
        let mut out_funs: Vec<Function> = Vec::new();
        let mut i2: usize = 0;
        while i2 < nf
            invariant
                i2 <= nf,
                nf == funs@.len(),
                nf <= fun_table@.len(),
                stores_ok(names, types),
                names.mod_id_spec() == mod_id,
                types.mod_id_spec() == mod_id,
                old(self).err.diags().is_prefix_of(self.err.diags()),
                forall|j: int| 0 <= j < nf ==> table_entry_matches(
                    #[trigger] fun_table@[j],
                    funs@[j],
                    names,
                    types,
                ),
                forall|j: int| 0 <= j < out_funs@.len()
                    ==> crate::ast_to_mir::fun_body_scoped(#[trigger] out_funs@[j]),
                self.err.diags() == old(self).err.diags() ==> {
                    &&& out_funs@.len() == i2
                    &&& tv_holds(types, integer_tv, integer_cands())
                    &&& forall|j: int| 0 <= j < out_funs@.len() ==> resolves_decl(
                        #[trigger] out_funs@[j],
                        funs@[j],
                        names,
                        types,
                    )
                    &&& bodies_correspond_from(
                        out_funs@,
                        funs@,
                        constraints@,
                        types,
                        integer_tv,
                    )
                },
            decreases nf - i2,
        {
            let ghost out0 = out_funs@;
            let ghost d_pre = self.err.diags();
            let ghost names_pre = names;
            let ghost types_pre = types;
            let ghost c_pre = constraints@;
            match self.resolve_fun(
                &funs[i2],
                i2,
                integer_tv,
                &fun_table,
                &mut names,
                &mut types,
                &mut constraints,
            ) {
                Ok(hf) => {
                    let ghost hfv = hf;
                    out_funs.push(hf);
                    proof {
                        assert(out_funs@.drop_last() =~= out0);
                        crate::type_check::lemma_prefix_trans(
                            old(self).err.diags(),
                            d_pre,
                            self.err.diags(),
                        );
                        assert forall|j: int| 0 <= j < out_funs@.len()
                            implies crate::ast_to_mir::fun_body_scoped(
                            #[trigger] out_funs@[j],
                        ) by {
                            if j < out0.len() {
                                assert(out_funs@[j] == out0[j]);
                            }
                        }
                        assert forall|j: int| 0 <= j < nf implies table_entry_matches(
                            #[trigger] fun_table@[j],
                            funs@[j],
                            names,
                            types,
                        ) by {
                            assert(table_entry_matches(fun_table@[j], funs@[j], names_pre,
                                types_pre));
                        }
                        if self.err.diags() == old(self).err.diags() {
                            assert(d_pre == old(self).err.diags());
                            assert forall|j: int| 0 <= j < out_funs@.len()
                                implies resolves_decl(
                                #[trigger] out_funs@[j],
                                funs@[j],
                                names,
                                types,
                            ) by {
                                if j < out0.len() {
                                    assert(out_funs@[j] == out0[j]);
                                    assert(resolves_decl(out0[j], funs@[j], names_pre,
                                        types_pre));
                                } else {
                                    assert(out_funs@[j] == hfv);
                                    assert(table_entry_matches(fun_table@[i2 as int],
                                        funs@[i2 as int], names, types));
                                }
                            }
                            lemma_tv_holds_mono(types_pre, types, integer_tv,
                                integer_cands());
                            assert forall|
                                j: int,
                                cs2: Seq<TypeConstraint>,
                                types2: TypeVarStore,
                            |
                                0 <= j < out_funs@.len() && constraints@.is_prefix_of(cs2)
                                    && tvs_preserved(types, types2)
                                implies #[trigger] corresponds_body(
                                out_funs@[j].body,
                                funs@[j].body,
                                cs2,
                                types2,
                                integer_tv,
                            ) by {
                                crate::type_check::lemma_prefix_trans(c_pre, constraints@,
                                    cs2);
                                lemma_tvs_preserved_trans(types_pre, types, types2);
                                if j < out0.len() {
                                    assert(out_funs@[j] == out0[j]);
                                    assert(corresponds_body(out0[j].body, funs@[j].body,
                                        cs2, types2, integer_tv));
                                } else {
                                    assert(out_funs@[j] == hfv);
                                    assert(corresponds_body(hfv.body, funs@[j].body, cs2,
                                        types2, integer_tv));
                                }
                            }
                            assert(bodies_correspond_from(out_funs@, funs@, constraints@,
                                types, integer_tv));
                        }
                    }
                },
                Err(_) => {
                    proof {
                        crate::type_check::lemma_prefix_trans(
                            old(self).err.diags(),
                            d_pre,
                            self.err.diags(),
                        );
                        assert(self.err.diags() != old(self).err.diags()) by {
                            assert(old(self).err.diags().len() <= d_pre.len());
                            assert(d_pre.len() < self.err.diags().len());
                        }
                        assert forall|j: int| 0 <= j < nf implies table_entry_matches(
                            #[trigger] fun_table@[j],
                            funs@[j],
                            names,
                            types,
                        ) by {
                            assert(table_entry_matches(fun_table@[j], funs@[j], names_pre,
                                types_pre));
                        }
                    }
                },
            }
            i2 = i2 + 1;
        }
        let ghost g_out = out_funs@;
        let ghost g_names = names;
        let ghost g_types = types;
        let ghost g_cs = constraints@;
        let r = ResolvedProgram { funs: out_funs, names, types, constraints };
        proof {
            if self.err.diags() == old(self).err.diags() {
                assert(r.funs@.len() == funs@.len());
                lemma_prefix_of_refl(g_cs);
                assert(tv_holds(r.types, integer_tv, integer_cands()));
                assert forall|i3: int| 0 <= i3 < r.funs@.len() implies resolves_fun(
                    #[trigger] r.funs@[i3],
                    funs@[i3],
                    r.names,
                    r.types,
                    r.constraints@,
                    integer_tv,
                ) by {
                    assert(r.funs@[i3] == g_out[i3]);
                    assert(resolves_decl(g_out[i3], funs@[i3], g_names, g_types));
                    assert(corresponds_body(g_out[i3].body, funs@[i3].body, g_cs, g_types,
                        integer_tv));
                }
            }
        }
        r
    }
}


} // verus!
