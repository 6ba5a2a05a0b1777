//! End-to-end tests: source-level trees through name resolution, type
//! checking and lowering, down to the emitted stack-machine program.

use zephyr_lang::ast::{
    AstType, AstValue, Block as AstBlock, Body as AstBody, Expression as AstExpr,
    Function as AstFunction, Parameter, Program as AstProgram, Statement as AstStmt,
};
use zephyr_lang::error::{ErrorHandler, Location};
use zephyr_lang::hir::{BinaryOperator, Declaration};
use zephyr_lang::mir::{Binop, Block, Control, Program, Relop, Statement, Type, Value};
use zephyr_lang::resolver::FileId;
use zephyr_lang::store::{Identifier, NameId};
use zephyr_lang::to_hir;

fn loc() -> Location {
    Location { pos: 0, len: 0, f_id: FileId(0) }
}

fn int_lit(v: u64) -> AstExpr {
    AstExpr::Literal { value: AstValue::Integer { val: v }, loc: loc() }
}

fn var(name: &str) -> AstExpr {
    AstExpr::Variable { ident: String::from(name), loc: loc() }
}

fn binary(l: AstExpr, op: BinaryOperator, r: AstExpr) -> AstExpr {
    AstExpr::Binary {
        expr_left: Box::new(l),
        binop: op,
        expr_right: Box::new(r),
        loc: loc(),
    }
}

fn param(name: &str, t: AstType) -> Parameter {
    Parameter { ident: String::from(name), t, loc: loc() }
}

fn fun(name: &str, params: Vec<Parameter>, result: Option<AstType>, stmts: Vec<AstStmt>)
    -> AstFunction {
    AstFunction {
        ident: String::from(name),
        params,
        result,
        body: AstBody::Zephyr(AstBlock { stmts }),
        is_pub: true,
        exposed: None,
        loc: loc(),
    }
}

fn compile(funs: Vec<AstFunction>) -> Program {
    let namespace: Vec<(String, Vec<(String, Declaration)>)> = Vec::new();
    let (prog, err) = to_hir(AstProgram { funs }, namespace, ErrorHandler::new(), 1);
    match prog {
        Some(p) => p,
        None => {
            let mut err = err;
            for d in err.take_diagnostics() {
                println!("diagnostic: {}", d.message);
            }
            panic!("pipeline failed");
        },
    }
}

fn compile_should_fail(funs: Vec<AstFunction>) {
    let namespace: Vec<(String, Vec<(String, Declaration)>)> = Vec::new();
    let (prog, _) = to_hir(AstProgram { funs }, namespace, ErrorHandler::new(), 1);
    assert!(prog.is_none());
}

fn body_stmts(p: &Program) -> &Vec<Statement> {
    match &p.funs[0].body {
        Block::Block { stmts, .. } => stmts,
        _ => panic!("function body is not a block"),
    }
}

#[test]
fn add_two_integers() {
    let p = compile(vec![fun(
        "add",
        vec![param("a", AstType::I32), param("b", AstType::I32)],
        Some(AstType::I32),
        vec![AstStmt::ReturnStmt {
            expr: Some(binary(var("a"), BinaryOperator::Plus, var("b"))),
            loc: loc(),
        }],
    )]);
    assert_eq!(p.funs.len(), 1);
    let f = &p.funs[0];
    assert_eq!(f.params.len(), 2);
    assert_eq!(f.param_types, vec![Type::I32, Type::I32]);
    assert_eq!(f.ret_types, vec![Type::I32]);
    let stmts = body_stmts(&p);
    assert_eq!(stmts.len(), 4);
    assert!(matches!(&stmts[0], Statement::GetLocal { l_id } if *l_id == f.params[0]));
    assert!(matches!(&stmts[1], Statement::GetLocal { l_id } if *l_id == f.params[1]));
    assert!(matches!(&stmts[2], Statement::Binop { binop: Binop::I32Add }));
    assert!(matches!(&stmts[3], Statement::Control { cntrl: Control::Return }));
}

#[test]
fn let_binding_keeps_declared_type() {
    let p = compile(vec![fun(
        "iden",
        vec![param("x", AstType::I64)],
        Some(AstType::I64),
        vec![
            AstStmt::LetStmt {
                ident: String::from("y"),
                t: Some(AstType::I64),
                expr: var("x"),
                loc: loc(),
            },
            AstStmt::ReturnStmt { expr: Some(var("y")), loc: loc() },
        ],
    )]);
    let f = &p.funs[0];
    assert_eq!(f.locals.len(), 1);
    assert_eq!(f.locals[0].t, Type::I64);
    let y = f.locals[0].id;
    let x = f.params[0];
    let stmts = body_stmts(&p);
    assert_eq!(stmts.len(), 4);
    assert!(matches!(&stmts[0], Statement::GetLocal { l_id } if *l_id == x));
    assert!(matches!(&stmts[1], Statement::SetLocal { l_id } if *l_id == y));
    assert!(matches!(&stmts[2], Statement::GetLocal { l_id } if *l_id == y));
    assert!(matches!(&stmts[3], Statement::Control { cntrl: Control::Return }));
}

#[test]
fn if_else_lowers_to_labeled_if() {
    let p = compile(vec![fun(
        "m",
        vec![param("x", AstType::I32), param("y", AstType::I32)],
        Some(AstType::I32),
        vec![AstStmt::IfStmt {
            expr: binary(var("x"), BinaryOperator::Less, var("y")),
            block: AstBlock {
                stmts: vec![AstStmt::ReturnStmt { expr: Some(int_lit(1)), loc: loc() }],
            },
            else_block: Some(AstBlock {
                stmts: vec![AstStmt::ReturnStmt { expr: Some(int_lit(0)), loc: loc() }],
            }),
            loc: loc(),
        }],
    )]);
    let f = &p.funs[0];
    let x = f.params[0];
    let y = f.params[1];
    let stmts = body_stmts(&p);
    assert_eq!(stmts.len(), 4);
    assert!(matches!(&stmts[0], Statement::GetLocal { l_id } if *l_id == x));
    assert!(matches!(&stmts[1], Statement::GetLocal { l_id } if *l_id == y));
    assert!(matches!(&stmts[2], Statement::Relop { relop: Relop::I32Lt }));
    match &stmts[3] {
        Statement::Block { block } => match &**block {
            Block::If { then_stmts, else_stmts, t, .. } => {
                assert!(t.is_none());
                assert_eq!(then_stmts.len(), 2);
                assert!(matches!(&then_stmts[0], Statement::Const { val: Value::I32(1) }));
                assert!(matches!(&then_stmts[1], Statement::Control { cntrl: Control::Return }));
                assert_eq!(else_stmts.len(), 2);
                assert!(matches!(&else_stmts[0], Statement::Const { val: Value::I32(0) }));
                assert!(matches!(&else_stmts[1], Statement::Control { cntrl: Control::Return }));
            },
            _ => panic!("expected an if block"),
        },
        _ => panic!("expected a nested block"),
    }
}

#[test]
fn while_loop_lowers_to_block_around_loop() {
    let p = compile(vec![fun(
        "s",
        vec![param("n", AstType::I32)],
        Some(AstType::I32),
        vec![
            AstStmt::LetStmt {
                ident: String::from("i"),
                t: Some(AstType::I32),
                expr: int_lit(0),
                loc: loc(),
            },
            AstStmt::WhileStmt {
                expr: binary(var("i"), BinaryOperator::Less, var("n")),
                block: AstBlock {
                    stmts: vec![AstStmt::AssignStmt {
                        ident: String::from("i"),
                        expr: binary(var("i"), BinaryOperator::Plus, int_lit(1)),
                        loc: loc(),
                    }],
                },
                loc: loc(),
            },
            AstStmt::ReturnStmt { expr: Some(var("i")), loc: loc() },
        ],
    )]);
    let f = &p.funs[0];
    let n = f.params[0];
    let i = f.locals[0].id;
    let stmts = body_stmts(&p);
    // let i = 0; the loop construct; return i
    assert_eq!(stmts.len(), 5);
    assert!(matches!(&stmts[0], Statement::Const { val: Value::I32(0) }));
    assert!(matches!(&stmts[1], Statement::SetLocal { l_id } if *l_id == i));
    let (outer_id, inner) = match &stmts[2] {
        Statement::Block { block } => match &**block {
            Block::Block { id, stmts, .. } => {
                assert_eq!(stmts.len(), 1);
                (*id, &stmts[0])
            },
            _ => panic!("expected the outer block"),
        },
        _ => panic!("expected a nested block"),
    };
    match inner {
        Statement::Block { block } => match &**block {
            Block::Loop { id: loop_id, stmts: ls, .. } => {
                // i < n; invert; branch out; body; back edge
                assert_eq!(ls.len(), 11);
                assert!(matches!(&ls[0], Statement::GetLocal { l_id } if *l_id == i));
                assert!(matches!(&ls[1], Statement::GetLocal { l_id } if *l_id == n));
                assert!(matches!(&ls[2], Statement::Relop { relop: Relop::I32Lt }));
                assert!(matches!(&ls[3], Statement::Const { val: Value::I32(1) }));
                assert!(matches!(&ls[4], Statement::Binop { binop: Binop::I32Xor }));
                assert!(
                    matches!(&ls[5], Statement::Control { cntrl: Control::BrIf(t) } if *t == outer_id)
                );
                assert!(matches!(&ls[6], Statement::GetLocal { l_id } if *l_id == i));
                assert!(matches!(&ls[7], Statement::Const { val: Value::I32(1) }));
                assert!(matches!(&ls[8], Statement::Binop { binop: Binop::I32Add }));
                assert!(matches!(&ls[9], Statement::SetLocal { l_id } if *l_id == i));
                assert!(
                    matches!(&ls[10], Statement::Control { cntrl: Control::Br(t) } if *t == *loop_id)
                );
            },
            _ => panic!("expected the loop"),
        },
        _ => panic!("expected the loop wrapper"),
    }
}

#[test]
fn short_circuit_and_lowers_to_if() {
    let p = compile(vec![fun(
        "sc",
        vec![param("a", AstType::Bool), param("b", AstType::Bool)],
        Some(AstType::Bool),
        vec![AstStmt::ReturnStmt {
            expr: Some(binary(var("a"), BinaryOperator::And, var("b"))),
            loc: loc(),
        }],
    )]);
    let f = &p.funs[0];
    let a = f.params[0];
    let b = f.params[1];
    let stmts = body_stmts(&p);
    assert_eq!(stmts.len(), 3);
    assert!(matches!(&stmts[0], Statement::GetLocal { l_id } if *l_id == a));
    match &stmts[1] {
        Statement::Block { block } => match &**block {
            Block::If { then_stmts, else_stmts, t, .. } => {
                assert_eq!(*t, Some(Type::I32));
                assert_eq!(then_stmts.len(), 1);
                assert!(matches!(&then_stmts[0], Statement::GetLocal { l_id } if *l_id == b));
                assert_eq!(else_stmts.len(), 1);
                assert!(matches!(&else_stmts[0], Statement::Const { val: Value::I32(0) }));
            },
            _ => panic!("expected an if block"),
        },
        _ => panic!("expected a nested block"),
    }
    assert!(matches!(&stmts[2], Statement::Control { cntrl: Control::Return }));
}

#[test]
fn integer_literal_narrows_to_declared_use() {
    // let x = 1; let y: i32 = x  =>  x is i32
    let p = compile(vec![fun(
        "f",
        vec![],
        None,
        vec![
            AstStmt::LetStmt {
                ident: String::from("x"),
                t: None,
                expr: int_lit(1),
                loc: loc(),
            },
            AstStmt::LetStmt {
                ident: String::from("y"),
                t: Some(AstType::I32),
                expr: var("x"),
                loc: loc(),
            },
        ],
    )]);
    let f = &p.funs[0];
    assert_eq!(f.locals.len(), 2);
    assert_eq!(f.locals[0].t, Type::I32);
    assert_eq!(f.locals[1].t, Type::I32);
}

#[test]
fn integer_literal_defaults_to_i64() {
    // let x = 1  =>  x defaults to i64
    let p = compile(vec![fun(
        "f",
        vec![],
        None,
        vec![AstStmt::LetStmt {
            ident: String::from("x"),
            t: None,
            expr: int_lit(1),
            loc: loc(),
        }],
    )]);
    let f = &p.funs[0];
    assert_eq!(f.locals.len(), 1);
    assert_eq!(f.locals[0].t, Type::I64);
}

#[test]
fn call_threads_arguments_in_order() {
    let callee = fun(
        "add",
        vec![param("a", AstType::I32), param("b", AstType::I32)],
        Some(AstType::I32),
        vec![AstStmt::ReturnStmt {
            expr: Some(binary(var("a"), BinaryOperator::Plus, var("b"))),
            loc: loc(),
        }],
    );
    let caller = fun(
        "calls",
        vec![param("x", AstType::I32)],
        Some(AstType::I32),
        vec![AstStmt::ReturnStmt {
            expr: Some(AstExpr::CallDirect {
                ident: String::from("add"),
                args: vec![var("x"), int_lit(2)],
                loc: loc(),
            }),
            loc: loc(),
        }],
    );
    let p = compile(vec![callee, caller]);
    assert_eq!(p.funs.len(), 2);
    let f = &p.funs[1];
    let x = f.params[0];
    let add_id = p.funs[0].fun_id;
    let stmts = match &f.body {
        Block::Block { stmts, .. } => stmts,
        _ => panic!("function body is not a block"),
    };
    assert_eq!(stmts.len(), 4);
    assert!(matches!(&stmts[0], Statement::GetLocal { l_id } if *l_id == x));
    assert!(matches!(&stmts[1], Statement::Const { val: Value::I32(2) }));
    match &stmts[2] {
        Statement::Call { call: zephyr_lang::mir::Call::Direct(id) } => assert_eq!(*id, add_id),
        _ => panic!("expected the call"),
    }
    assert!(matches!(&stmts[3], Statement::Control { cntrl: Control::Return }));
}

#[test]
fn public_functions_are_exported() {
    let p = compile(vec![fun(
        "add",
        vec![param("a", AstType::I32)],
        Some(AstType::I32),
        vec![AstStmt::ReturnStmt { expr: Some(var("a")), loc: loc() }],
    )]);
    assert_eq!(p.pub_decls.len(), 1);
    assert_eq!(p.pub_decls[0].0, "add");
    assert!(p.pub_decls[0].1.is_pub);
    assert_eq!(p.pub_decls[0].1.fun_id, p.funs[0].fun_id);
}

#[test]
fn unknown_identifier_is_rejected() {
    compile_should_fail(vec![fun(
        "f",
        vec![],
        Some(AstType::I32),
        vec![AstStmt::ReturnStmt { expr: Some(var("nope")), loc: loc() }],
    )]);
}

#[test]
fn wrong_return_type_is_rejected() {
    // a bool returned from a function declared to return i32
    compile_should_fail(vec![fun(
        "f",
        vec![param("a", AstType::Bool)],
        Some(AstType::I32),
        vec![AstStmt::ReturnStmt { expr: Some(var("a")), loc: loc() }],
    )]);
}

#[test]
fn wrong_argument_count_is_rejected() {
    let callee = fun(
        "g",
        vec![param("a", AstType::I32)],
        Some(AstType::I32),
        vec![AstStmt::ReturnStmt { expr: Some(var("a")), loc: loc() }],
    );
    let caller = fun(
        "f",
        vec![],
        Some(AstType::I32),
        vec![AstStmt::ReturnStmt {
            expr: Some(AstExpr::CallDirect { ident: String::from("g"), args: vec![], loc: loc() }),
            loc: loc(),
        }],
    );
    compile_should_fail(vec![callee, caller]);
}

#[test]
fn duplicate_declaration_is_rejected() {
    compile_should_fail(vec![fun(
        "f",
        vec![],
        None,
        vec![
            AstStmt::LetStmt {
                ident: String::from("x"),
                t: None,
                expr: int_lit(1),
                loc: loc(),
            },
            AstStmt::LetStmt {
                ident: String::from("x"),
                t: None,
                expr: int_lit(2),
                loc: loc(),
            },
        ],
    )]);
}

#[test]
fn every_branch_targets_an_enclosing_block() {
    // A nested program: the only branches are the ones the while lowering
    // creates, and they target the labels of the blocks around them.
    let p = compile(vec![fun(
        "s",
        vec![param("n", AstType::I32)],
        Some(AstType::I32),
        vec![
            AstStmt::LetStmt {
                ident: String::from("i"),
                t: Some(AstType::I32),
                expr: int_lit(0),
                loc: loc(),
            },
            AstStmt::WhileStmt {
                expr: binary(var("i"), BinaryOperator::Less, var("n")),
                block: AstBlock {
                    stmts: vec![AstStmt::AssignStmt {
                        ident: String::from("i"),
                        expr: binary(var("i"), BinaryOperator::Plus, int_lit(1)),
                        loc: loc(),
                    }],
                },
                loc: loc(),
            },
            AstStmt::ReturnStmt { expr: Some(var("i")), loc: loc() },
        ],
    )]);
    let mut labels: Vec<u64> = Vec::new();
    check_branch_targets_block(&p.funs[0].body, &mut labels);
}

fn check_branch_targets(stmts: &[Statement], labels: &mut Vec<u64>) {
    for st in stmts {
        match st {
            Statement::Control { cntrl: Control::Br(t) }
            | Statement::Control { cntrl: Control::BrIf(t) } => {
                assert!(labels.contains(t));
            },
            Statement::Block { block } => check_branch_targets_block(block, labels),
            _ => {},
        }
    }
}

fn check_branch_targets_block(b: &Block, labels: &mut Vec<u64>) {
    match b {
        Block::Block { id, stmts, .. } | Block::Loop { id, stmts, .. } => {
            labels.push(*id);
            check_branch_targets(stmts, labels);
            labels.pop();
        },
        Block::If { then_stmts, else_stmts, .. } => {
            // An if opens no branch target: only blocks and loops do.
            check_branch_targets(then_stmts, labels);
            check_branch_targets(else_stmts, labels);
        },
    }
}

#[test]
fn every_local_reference_is_declared() {
    let p = compile(vec![fun(
        "s",
        vec![param("n", AstType::I32)],
        Some(AstType::I32),
        vec![
            AstStmt::LetStmt {
                ident: String::from("i"),
                t: Some(AstType::I32),
                expr: int_lit(0),
                loc: loc(),
            },
            AstStmt::ReturnStmt { expr: Some(var("i")), loc: loc() },
        ],
    )]);
    let f = &p.funs[0];
    let mut ids: Vec<NameId> = f.params.clone();
    for l in &f.locals {
        ids.push(l.id);
    }
    check_local_refs_block(&f.body, &ids);
}

fn check_local_refs(stmts: &[Statement], ids: &Vec<NameId>) {
    for st in stmts {
        match st {
            Statement::GetLocal { l_id } | Statement::SetLocal { l_id } => {
                assert!(ids.contains(l_id));
            },
            Statement::Block { block } => check_local_refs_block(block, ids),
            _ => {},
        }
    }
}

fn check_local_refs_block(b: &Block, ids: &Vec<NameId>) {
    match b {
        Block::Block { stmts, .. } | Block::Loop { stmts, .. } => check_local_refs(stmts, ids),
        Block::If { then_stmts, else_stmts, .. } => {
            check_local_refs(then_stmts, ids);
            check_local_refs(else_stmts, ids);
        },
    }
}

#[test]
fn oversized_integer_literal_is_rejected() {
    // 3000000000 does not fit an i32, so lowering refuses the function.
    compile_should_fail(vec![fun(
        "f",
        vec![],
        None,
        vec![AstStmt::LetStmt {
            ident: String::from("x"),
            t: Some(AstType::I32),
            expr: int_lit(3000000000),
            loc: loc(),
        }],
    )]);
}

#[test]
fn float_literal_lowers_to_its_bit_pattern() {
    let one_half_f32: u32 = 0x3f000000;
    let one_half_f64: u64 = 0x3fe0000000000000;
    let p = compile(vec![fun(
        "f",
        vec![],
        None,
        vec![AstStmt::LetStmt {
            ident: String::from("x"),
            t: Some(AstType::F32),
            expr: AstExpr::Literal {
                value: AstValue::Float { bits32: one_half_f32, bits64: one_half_f64 },
                loc: loc(),
            },
            loc: loc(),
        }],
    )]);
    let f = &p.funs[0];
    assert_eq!(f.locals[0].t, Type::F32);
    let stmts = body_stmts(&p);
    assert!(matches!(&stmts[0], Statement::Const { val: Value::F32(b) } if *b == one_half_f32));
}

#[test]
fn ambiguous_float_literal_is_rejected() {
    // Only the canonical integer set has a default; a float literal that
    // nothing narrows stays ambiguous and is reported.
    let one_half_f32: u32 = 0x3f000000;
    let one_half_f64: u64 = 0x3fe0000000000000;
    compile_should_fail(vec![fun(
        "f",
        vec![],
        None,
        vec![AstStmt::LetStmt {
            ident: String::from("x"),
            t: None,
            expr: AstExpr::Literal {
                value: AstValue::Float { bits32: one_half_f32, bits64: one_half_f64 },
                loc: loc(),
            },
            loc: loc(),
        }],
    )]);
}
