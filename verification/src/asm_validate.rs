//! Validation of inline assembly bodies: every statement must be
//! well-formed in the context of the enclosing function's signature, and
//! the virtual stack must hold exactly the declared return values at every
//! return and at the end of the body.

use vstd::prelude::*;
use vstd::string::StringExecFns;

use crate::ast_to_mir::machine_type_of;
use crate::error::{DiagV, ErrorHandler};
use crate::hir::{AsmStatement, Body, Function, NameStore, TypedProgram};
use crate::mir::{Type, Value};
use crate::store::Identifier;
use crate::types::{TypeStore, TypeV};

verus! {

/// The machine type of a constant.
pub open spec fn value_type(v: Value) -> Type {
    match v {
        Value::I32(_) => Type::I32,
        Value::I64(_) => Type::I64,
        Value::F32(_) => Type::F32,
        Value::F64(_) => Type::F64,
    }
}

/// What one assembly statement does to the virtual stack: a constant
/// pushes its type, a drop pops, a return demands that the stack holds
/// exactly the declared return values. `None` is a violation.
pub open spec fn asm_step(stack: Seq<Type>, st: AsmStatement, rets: Seq<Type>) -> Option<
    Seq<Type>,
> {
    match st {
        AsmStatement::Const { val, .. } => Some(stack.push(value_type(val))),
        AsmStatement::Parametric { .. } => if stack.len() > 0 {
            Some(stack.drop_last())
        } else {
            None
        },
        AsmStatement::Control { .. } => if stack == rets {
            Some(stack)
        } else {
            None
        },
    }
}

/// The virtual stack after an assembly body, if its discipline held.
pub open spec fn asm_stack(stmts: Seq<AsmStatement>, rets: Seq<Type>) -> Option<Seq<Type>>
    decreases stmts,
{
    if stmts.len() == 0 {
        Some(Seq::empty())
    } else {
        match asm_stack(stmts.drop_last(), rets) {
            None => None,
            Some(stack) => asm_step(stack, stmts.last(), rets),
        }
    }
}

/// A well-formed assembly body: every step keeps the stack discipline and
/// the body ends with exactly the declared return values on the stack.
pub open spec fn asm_valid(stmts: Seq<AsmStatement>, rets: Seq<Type>) -> bool {
    match asm_stack(stmts, rets) {
        Some(stack) => stack == rets,
        None => false,
    }
}

/// The machine types of a declared return list, with unit skipped; a type
/// without a machine representation has no assembly interface.
pub open spec fn asm_rets_of(list: Seq<TypeV>) -> Option<Seq<Type>>
    decreases list,
{
    if list.len() == 0 {
        Some(Seq::empty())
    } else {
        match asm_rets_of(list.drop_last()) {
            None => None,
            Some(rest) => match list.last() {
                TypeV::Unit => Some(rest),
                _ => match machine_type_of(list.last()) {
                    Some(t) => Some(rest.push(t)),
                    None => None,
                },
            },
        }
    }
}

/// The machine returns of a function's resolved signature, when its name
/// resolved to a function type.
pub open spec fn fun_rets(f: Function, names: NameStore, types: TypeStore) -> Option<Seq<Type>> {
    if !names.contains_id(f.n_id.id_spec()) {
        None
    } else {
        let t_id = names.spec_get(f.n_id.id_spec()).t_id;
        if !types.contains_id(t_id.id_spec()) {
            None
        } else {
            match types.spec_get(t_id.id_spec())@ {
                TypeV::Fun(_, rs) => asm_rets_of(rs),
                _ => None,
            }
        }
    }
}

/// The diagnostics assembly validation raises, in function order: one
/// report per assembly body that breaks the stack discipline of its
/// signature, and one internal report per assembly body whose signature did
/// not resolve.
pub open spec fn asm_diags(funs: Seq<Function>, names: NameStore, types: TypeStore) -> Seq<DiagV>
    decreases funs,
{
    if funs.len() == 0 {
        Seq::empty()
    } else {
        asm_diags(funs.drop_last(), names, types) + {
            let f = funs.last();
            match f.body {
                Body::Zephyr(_) => Seq::<DiagV>::empty(),
                Body::Asm(stmts) => match fun_rets(f, names, types) {
                    Some(rets) => if asm_valid(stmts@, rets) {
                        Seq::<DiagV>::empty()
                    } else {
                        seq![
                            DiagV {
                                loc: Some(f.loc),
                                message: "Inline assembly breaks the stack discipline"@,
                                internal: false,
                            },
                        ]
                    },
                    None => seq![
                        DiagV {
                            loc: Some(f.loc),
                            message: "Assembly function without a resolved signature"@,
                            internal: true,
                        },
                    ],
                },
            }
        }
    }
}

/// Checks one assembly body against the declared return types.
#[verifier::loop_isolation(false)]
pub fn validate_fun_asm(stmts: &Vec<AsmStatement>, rets: &Vec<Type>) -> (ok: bool)
    ensures
        ok == asm_valid(stmts@, rets@),
{
    let mut stack: Vec<Type> = Vec::new();
    let n = stmts.len();
    let mut i: usize = 0;
    proof {
        assert(stmts@.take(0) =~= Seq::<AsmStatement>::empty());
        assert(stack@ =~= Seq::<Type>::empty());
    }
    while i < n
        invariant
            i <= n,
            n == stmts@.len(),
            asm_stack(stmts@.take(i as int), rets@) == Some(stack@),
        decreases n - i,
    {
        let ghost stack0 = stack@;
        proof {
            assert(stmts@.take(i as int + 1).drop_last() =~= stmts@.take(i as int));
            assert(stmts@.take(i as int + 1).last() == stmts@[i as int]);
        }
        match &stmts[i] {
            AsmStatement::Const { val, .. } => {
                let t = match val {
                    Value::I32(_) => Type::I32,
                    Value::I64(_) => Type::I64,
                    Value::F32(_) => Type::F32,
                    Value::F64(_) => Type::F64,
                };
                stack.push(t);
            },
            AsmStatement::Parametric { .. } => {
                if stack.len() == 0 {
                    proof {
                        lemma_asm_stack_stuck(stmts@, rets@, i as int + 1);
                    }
                    return false;
                }
                let _ = stack.pop();
            },
            AsmStatement::Control { .. } => {
                if !stacks_equal(&stack, rets) {
                    proof {
                        lemma_asm_stack_stuck(stmts@, rets@, i as int + 1);
                    }
                    return false;
                }
            },
        }
        i = i + 1;
    }
    proof {
        assert(stmts@.take(n as int) =~= stmts@);
    }
    stacks_equal(&stack, rets)
}

/// Element-wise equality of two stacks of machine types.
fn stacks_equal(a: &Vec<Type>, b: &Vec<Type>) -> (r: bool)
    ensures
        r == (a@ == b@),
{
    if a.len() != b.len() {
        return false;
    }
    let n = a.len();
    let mut i: usize = 0;
    while i < n
        invariant
            i <= n,
            n == a@.len(),
            n == b@.len(),
            forall|j: int| 0 <= j < i ==> a@[j] == b@[j],
        decreases n - i,
    {
        if !(matches!((a[i], b[i]),
            (Type::I32, Type::I32) | (Type::I64, Type::I64) | (Type::F32, Type::F32)
            | (Type::F64, Type::F64))) {
            return false;
        }
        i = i + 1;
    }
    proof {
        assert(a@ =~= b@);
    }
    true
}

/// Once the discipline is broken, the whole body is invalid.
proof fn lemma_asm_stack_stuck(stmts: Seq<AsmStatement>, rets: Seq<Type>, n: int)
    requires
        0 <= n <= stmts.len(),
        asm_stack(stmts.take(n), rets) is None,
    ensures
        asm_stack(stmts, rets) is None,
    decreases stmts.len() - n,
{
    if n < stmts.len() {
        assert(stmts.take(n + 1).drop_last() =~= stmts.take(n));
        lemma_asm_stack_stuck(stmts, rets, n + 1);
    } else {
        assert(stmts.take(n) =~= stmts);
    }
}

/// The validator: checks every assembly-bodied function of the program
/// against its resolved signature and reports the violations; it rewrites
/// nothing.
pub struct AsmValidator {
    pub err: ErrorHandler,
}

impl AsmValidator {
    /// Creates a validator around the given error sink.
    pub fn new(error_handler: ErrorHandler) -> (r: AsmValidator)
        ensures
            r.err == error_handler,
    {
        AsmValidator { err: error_handler }
    }

    /// Walks the checked program and reports, at the function's location,
    /// every assembly body that does not keep the stack discipline of its
    /// signature, and every assembly body whose signature did not resolve;
    /// it rewrites nothing and reports nothing else.
    #[verifier::loop_isolation(false)]
    pub fn validate_asm(&mut self, prog: &TypedProgram)
        requires
            prog.names.wf(),
            prog.types.wf(),
        ensures
            final(self).err.dv() == old(self).err.dv() + asm_diags(
                prog.funs@,
                prog.names,
                prog.types,
            ),
            old(self).err.diags().is_prefix_of(final(self).err.diags()),
    {
        let ghost dv0 = self.err.dv();
        let ghost d0 = self.err.diags();
        let n = prog.funs.len();
        let mut i: usize = 0;
        proof {
            assert(prog.funs@.take(0) =~= Seq::<Function>::empty());
            assert(self.err.dv() =~= dv0 + asm_diags(prog.funs@.take(0), prog.names,
                prog.types));
            assert(d0.subrange(0, d0.len() as int) =~= d0);
        }
        while i < n
            invariant
                i <= n,
                n == prog.funs@.len(),
                self.err.dv() == dv0 + asm_diags(prog.funs@.take(i as int), prog.names,
                    prog.types),
                d0.is_prefix_of(self.err.diags()),
            decreases n - i,
        {
            let ghost d_before = self.err.diags();
            let f = &prog.funs[i];
            proof {
                assert(prog.funs@.take(i as int + 1).drop_last()
                    =~= prog.funs@.take(i as int));
                assert(prog.funs@.take(i as int + 1).last() == prog.funs@[i as int]);
            }
            match &f.body {
                Body::Asm(stmts) => {
                    let rets_opt = self.fun_ret_types(f, prog);
                    match rets_opt {
                        Some(rets) => {
                            if !validate_fun_asm(stmts, &rets) {
                                self.err.report(
                                    f.loc,
                                    String::from_str(
                                        "Inline assembly breaks the stack discipline",
                                    ),
                                );
                                proof {
                                    assert(self.err.dv() =~= dv0 + asm_diags(
                                        prog.funs@.take(i as int + 1),
                                        prog.names,
                                        prog.types,
                                    ));
                                }
                            } else {
                                proof {
                                    assert(self.err.dv() =~= dv0 + asm_diags(
                                        prog.funs@.take(i as int + 1),
                                        prog.names,
                                        prog.types,
                                    ));
                                }
                            }
                        },
                        None => {
                            self.err.report_internal(
                                f.loc,
                                String::from_str(
                                    "Assembly function without a resolved signature",
                                ),
                            );
                            proof {
                                assert(self.err.dv() =~= dv0 + asm_diags(
                                    prog.funs@.take(i as int + 1),
                                    prog.names,
                                    prog.types,
                                ));
                            }
                        },
                    }
                },
                Body::Zephyr(_) => {
                    proof {
                        assert(self.err.dv() =~= dv0 + asm_diags(
                            prog.funs@.take(i as int + 1),
                            prog.names,
                            prog.types,
                        ));
                    }
                },
            }
            proof {
                crate::type_check::lemma_prefix_trans(d0, d_before, self.err.diags());
            }
            i = i + 1;
        }
        proof {
            assert(prog.funs@.take(n as int) =~= prog.funs@);
        }
    }

    /// The machine return types of a function, from its resolved signature.
    #[verifier::loop_isolation(false)]
    fn fun_ret_types(&mut self, f: &Function, prog: &TypedProgram) -> (r: Option<Vec<Type>>)
        requires
            prog.names.wf(),
            prog.types.wf(),
        ensures
            *final(self) == *old(self),
            match r {
                Some(v) => fun_rets(*f, prog.names, prog.types) == Some(v@),
                None => fun_rets(*f, prog.names, prog.types) is None,
            },
    {
        let t_id = match prog.names.get(f.n_id) {
            Some(name) => name.t_id,
            None => {
                return None;
            },
        };
        match prog.types.get(t_id) {
            Some(t) => match t {
                crate::types::Type::Fun(params, rets) => {
                    proof {
                        crate::types::lemma_views_of(params@);
                        crate::types::lemma_views_of(rets@);
                        assert(prog.types.spec_get(t_id.id_spec())@ == TypeV::Fun(
                            crate::types::views_of(params@),
                            crate::types::views_of(rets@),
                        ));
                    }
                    let ghost rsv = crate::types::views_of(rets@);
                    let mut out: Vec<Type> = Vec::new();
                    let nr = rets.len();
                    let mut j: usize = 0;
                    proof {
                        assert(rsv.take(0) =~= Seq::<TypeV>::empty());
                        assert(out@ =~= Seq::<Type>::empty());
                    }
                    while j < nr
                        invariant
                            j <= nr,
                            nr == rets@.len(),
                            rsv.len() == nr,
                            forall|m: int| 0 <= m < nr ==> rsv[m] == (#[trigger] rets@[m])@,
                            asm_rets_of(rsv.take(j as int)) == Some(out@),
                        decreases nr - j,
                    {
                        proof {
                            assert(rsv.take(j as int + 1).drop_last()
                                =~= rsv.take(j as int));
                            assert(rsv.take(j as int + 1).last() == rsv[j as int]);
                        }
                        let ghost out0 = out@;
                        match rets[j] {
                            crate::types::Type::I32 => out.push(Type::I32),
                            crate::types::Type::I64 => out.push(Type::I64),
                            crate::types::Type::F32 => out.push(Type::F32),
                            crate::types::Type::F64 => out.push(Type::F64),
                            crate::types::Type::Bool => out.push(Type::I32),
                            crate::types::Type::Unit => {},
                            _ => {
                                proof {
                                    lemma_asm_rets_stuck(rsv, j as int + 1);
                                }
                                return None;
                            },
                        }
                        proof {
                            assert(asm_rets_of(rsv.take(j as int + 1)) == Some(out@));
                        }
                        j = j + 1;
                    }
                    proof {
                        assert(rsv.take(nr as int) =~= rsv);
                    }
                    Some(out)
                },
                _ => None,
            },
            None => None,
        }
    }
}

/// Once one return type has no machine representation, the signature has no
/// assembly interface.
proof fn lemma_asm_rets_stuck(list: Seq<TypeV>, n: int)
    requires
        0 <= n <= list.len(),
        asm_rets_of(list.take(n)) is None,
    ensures
        asm_rets_of(list) is None,
    decreases list.len() - n,
{
    if n < list.len() {
        assert(list.take(n + 1).drop_last() =~= list.take(n));
        lemma_asm_rets_stuck(list, n + 1);
    } else {
        assert(list.take(n) =~= list);
    }
}

} // verus!
