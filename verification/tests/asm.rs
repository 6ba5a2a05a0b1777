//! Tests of inline assembly validation: the stack discipline against the
//! function's declared returns.

use zephyr_lang::asm_validate::validate_fun_asm;
use zephyr_lang::error::Location;
use zephyr_lang::hir::{AsmControl, AsmParametric, AsmStatement};
use zephyr_lang::mir::{Type, Value};
use zephyr_lang::resolver::FileId;

fn loc() -> Location {
    Location { pos: 0, len: 0, f_id: FileId(0) }
}

fn konst(v: Value) -> AsmStatement {
    AsmStatement::Const { val: v, loc: loc() }
}

fn ret() -> AsmStatement {
    AsmStatement::Control { cntrl: AsmControl::Return, loc: loc() }
}

fn drop_one() -> AsmStatement {
    AsmStatement::Parametric { param: AsmParametric::Drop, loc: loc() }
}

#[test]
fn balanced_body_is_accepted() {
    let stmts = vec![konst(Value::I32(1)), ret()];
    assert!(validate_fun_asm(&stmts, &vec![Type::I32]));
}

#[test]
fn drop_balances_an_extra_value() {
    let stmts = vec![konst(Value::I32(1)), konst(Value::I64(2)), drop_one()];
    assert!(validate_fun_asm(&stmts, &vec![Type::I32]));
}

#[test]
fn underflowing_drop_is_rejected() {
    let stmts = vec![drop_one()];
    assert!(!validate_fun_asm(&stmts, &vec![]));
}

#[test]
fn return_with_wrong_stack_is_rejected() {
    // A return with an f64 on the stack where an i32 is declared.
    let stmts = vec![konst(Value::F64(0)), ret()];
    assert!(!validate_fun_asm(&stmts, &vec![Type::I32]));
}

#[test]
fn leftover_values_at_the_end_are_rejected() {
    let stmts = vec![konst(Value::I32(1)), konst(Value::I32(2))];
    assert!(!validate_fun_asm(&stmts, &vec![Type::I32]));
}

#[test]
fn empty_body_with_no_returns_is_accepted() {
    let stmts: Vec<AsmStatement> = vec![];
    assert!(validate_fun_asm(&stmts, &vec![]));
}
