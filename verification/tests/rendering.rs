//! Tests of the debug renderer, including the mnemonic of negation, which
//! renders as `neg`.

use zephyr_lang::mir::{Binop, Control, Parametric, Relop, Statement, Type, Unop, Value};
use zephyr_lang::printer::u64_text;
use zephyr_lang::store::{Identifier, NameId};

#[test]
fn negation_renders_as_neg() {
    assert_eq!(Unop::I32Neg.text(), "i32.neg");
    assert_eq!(Unop::I64Neg.text(), "i64.neg");
    assert_eq!(Unop::F32Neg.text(), "f32.neg");
    assert_eq!(Unop::F64Neg.text(), "f64.neg");
}

#[test]
fn comparison_mnemonics() {
    assert_eq!(Relop::I32Ne.text(), "i32.ne");
    assert_eq!(Relop::I64Lt.text(), "i64.lt");
    assert_eq!(Relop::F64Ge.text(), "f64.ge");
}

#[test]
fn binop_mnemonics() {
    assert_eq!(Binop::I32Xor.text(), "i32.xor");
    assert_eq!(Binop::I64Rem.text(), "i64.rem");
    assert_eq!(Binop::F32Mul.text(), "f32.mul");
}

#[test]
fn numbers_render_in_decimal() {
    assert_eq!(u64_text(0), "0");
    assert_eq!(u64_text(7), "7");
    assert_eq!(u64_text(12345), "12345");
    assert_eq!(u64_text(18446744073709551615), "18446744073709551615");
}

#[test]
fn statements_render_with_their_operands() {
    assert_eq!(Statement::GetLocal { l_id: NameId::new(3) }.render(), "get _3");
    assert_eq!(Statement::SetLocal { l_id: NameId::new(4) }.render(), "set _4");
    assert_eq!(Statement::Const { val: Value::I32(-5) }.render(), "i32 -5");
    assert_eq!(Statement::Const { val: Value::I64(12) }.render(), "i64 12");
    assert_eq!(Statement::Control { cntrl: Control::Br(2) }.render(), "br 2");
    assert_eq!(Statement::Control { cntrl: Control::BrIf(9) }.render(), "br_if 9");
    assert_eq!(Statement::Parametric { param: Parametric::Drop }.render(), "drop");
    assert_eq!(Statement::Unop { unop: Unop::F32Neg }.render(), "f32.neg");
}

#[test]
fn type_names() {
    assert_eq!(Type::I32.text(), "i32");
    assert_eq!(Type::F64.text(), "f64");
}
