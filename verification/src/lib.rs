//! Compiler middle-end for the Zephyr language: module-scoped identifier
//! stores, name resolution, constraint-based type inference, inline-assembly
//! validation, and lowering of the typed tree into a stack-machine
//! intermediate representation with labeled blocks and explicit branch
//! targets.

pub mod asm_validate;
pub mod ast;
pub mod ast_to_mir;
pub mod error;
pub mod hir;
pub mod mir;
pub mod name_resolve;
pub mod printer;
pub mod resolver;
pub mod store;
pub mod type_check;
pub mod types;

use vstd::prelude::*;

use crate::error::ErrorHandler;
use crate::hir::Declaration;
use crate::store::ModId;

verus! {

/// What ties the emitted program to the checked program it was lowered
/// from: the functions are its lowering, the exported declarations are
/// carried through and sound and complete for its public functions, and
/// every checked function only read names it declared.
pub open spec fn lowered_from(p: mir::Program, typed: hir::TypedProgram) -> bool {
    &&& ast_to_mir::fun_views(p.funs@) == ast_to_mir::lower_funs(
        typed.funs@,
        typed.names,
        typed.types,
        0,
    ).0
    &&& p.pub_decls == typed.pub_decls
    &&& type_check::decls_ok(typed.pub_decls@, typed.funs@, typed.names, typed.types)
    &&& type_check::decls_complete(typed.pub_decls@, typed.funs@, typed.names, typed.types)
    &&& forall|i: int| 0 <= i < typed.funs@.len() ==> ast_to_mir::fun_body_scoped(
        #[trigger] typed.funs@[i],
    )
}

/// What ties the checked program to the resolved program it was checked
/// from: functions and names pass through, and the resolved types are the
/// defaulted fixed point of the resolver's constraints.
pub open spec fn checked_from(typed: hir::TypedProgram, resolved: hir::ResolvedProgram) -> bool {
    &&& typed.funs == resolved.funs
    &&& typed.names == resolved.names
    &&& exists|fixed: Seq<(store::Id, types::TypeVarV)>|
        {
            &&& #[trigger] type_check::reaches_fixed(
                resolved.constraints@,
                type_check::state_of(resolved.types),
                fixed,
            )
            &&& forall|k: store::Id| typed.types.contains_id(k) <==> (
            store::contains_key_from(fixed, 0, k) && type_check::default_of(
                type_check::tv_at(fixed, k).types,
            ) is Some)
            &&& forall|k: store::Id| #[trigger] typed.types.contains_id(k) ==> Some(
                typed.types.spec_get(k)@,
            ) == type_check::default_of(type_check::tv_at(fixed, k).types)
        }
}

/// What ties the resolved program to the source program, when resolution
/// reported nothing: one function per source function, under its own
/// spelling, arity, visibility and declared signature, whose body
/// corresponds to the source body construct by construct, with the
/// constraints each construct records present in the recorded list; the
/// witnessed type variable is the one integer literals are narrowed
/// against, and it holds the integer candidates.
pub open spec fn resolved_from(resolved: hir::ResolvedProgram, ast_program: ast::Program) -> bool {
    &&& resolved.funs@.len() == ast_program.funs@.len()
    &&& exists|itv: store::TypeVarId|
        {
            &&& #[trigger] name_resolve::tv_holds(resolved.types, itv, types::integer_cands())
            &&& forall|i: int| 0 <= i < resolved.funs@.len() ==> name_resolve::resolves_fun(
                #[trigger] resolved.funs@[i],
                ast_program.funs@[i],
                resolved.names,
                resolved.types,
                resolved.constraints@,
                itv,
            )
        }
}

/// Two diagnostic lists that are both empty are the same list.
proof fn lemma_empty_diags_equal(a: Seq<error::Diagnostic>, b: Seq<error::Diagnostic>)
    requires
        a.len() == 0,
        b.len() == 0,
    ensures
        a == b,
{
    assert(a =~= b);
}

/// Runs the whole pipeline on a parsed program: name resolution, type
/// checking, assembly validation and lowering. Between passes the error
/// sink decides continuation: the pipeline aborts before the next pass as
/// soon as an error was reported, and no partial program is ever handed
/// out. The sink is returned beside the result so the driver can print the
/// diagnostics.
pub fn to_hir(
    ast_program: ast::Program,
    namespace: Vec<(String, Vec<(String, Declaration)>)>,
    error_handler: ErrorHandler,
    mod_id: ModId,
) -> (r: (Option<mir::Program>, ErrorHandler))
    ensures
        r.0 is None ==> r.1.has_error_spec(),
        r.0 is Some ==> !r.1.has_error_spec(),
        error_handler.diags().is_prefix_of(r.1.diags()),
        r.0 matches Some(p) ==> exists|typed: hir::TypedProgram|
            #[trigger] lowered_from(p, typed),
        r.0 is Some ==> exists|
            resolved: hir::ResolvedProgram,
            typed: hir::TypedProgram,
        |
            {
                &&& #[trigger] checked_from(typed, resolved)
                &&& lowered_from(r.0.unwrap(), typed)
                &&& resolved_from(resolved, ast_program)
            },
        r.0 matches Some(p) ==> forall|i: int| 0 <= i < p.funs@.len()
            ==> ast_to_mir::block_targets_ok(((#[trigger] p.funs@[i])@).body, Set::empty()),
{
    let mut name_resolver = name_resolve::NameResolver::new(error_handler);
    let program = name_resolver.resolve(ast_program, namespace, mod_id);
    let err = name_resolver.err;
    let ghost g_resolved_diags = err.diags();
    if err.has_error() {
        return (None, err);
    }
    let ghost g_resolved = program;
    let mut type_checker = type_check::TypeChecker { error_handler: err };
    let typed_program = type_checker.check(program);
    let err = type_checker.error_handler;
    let ghost g_checked_diags = err.diags();
    proof {
        type_check::lemma_prefix_trans(
            error_handler.diags(),
            g_resolved_diags,
            g_checked_diags,
        );
    }
    if err.has_error() {
        return (None, err);
    }
    let mut asm_validator = asm_validate::AsmValidator::new(err);
    asm_validator.validate_asm(&typed_program);
    let err = asm_validator.err;
    let ghost g_asm_diags = err.diags();
    proof {
        type_check::lemma_prefix_trans(error_handler.diags(), g_checked_diags, g_asm_diags);
    }
    if err.has_error() {
        return (None, err);
    }
    let ghost g_typed = typed_program;
    let mut mir_producer = ast_to_mir::MIRProducer::new(err);
    let mir = mir_producer.reduce(typed_program);
    let err = mir_producer.err;
    proof {
        type_check::lemma_prefix_trans(error_handler.diags(), g_asm_diags, err.diags());
    }
    if err.has_error() {
        return (None, err);
    }
    proof {
        assert(lowered_from(mir, g_typed));
        assert(error_handler.diags().len() == 0) by {
            assert(g_resolved_diags.len() == 0);
        }
        assert(resolved_from(g_resolved, ast_program)) by {
            lemma_empty_diags_equal(error_handler.diags(), g_resolved_diags);
        }
        assert(checked_from(g_typed, g_resolved));
    }
    (Some(mir), err)
}

} // verus!
