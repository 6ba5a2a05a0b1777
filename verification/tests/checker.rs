//! Tests of the constraint solver on hand-built stores and constraints.

use zephyr_lang::error::Location;
use zephyr_lang::hir::{NameStore, ResolvedProgram};
use zephyr_lang::resolver::FileId;
use zephyr_lang::store::Store;
use zephyr_lang::type_check::TypeChecker;
use zephyr_lang::types::{Type, TypeConstraint, TypeVar, TypeVarStore};

fn loc() -> Location {
    Location { pos: 0, len: 0, f_id: FileId(0) }
}

fn integer_list() -> Vec<Type> {
    vec![Type::I32, Type::I64]
}

#[test]
fn equality_intersects_both_sides() {
    let mut tvs: TypeVarStore = Store::new(1);
    let a = tvs.add(TypeVar { loc: loc(), types: integer_list() });
    let b = tvs.add(TypeVar { loc: loc(), types: vec![Type::I32] });
    let names: NameStore = Store::new(1);
    let prog = ResolvedProgram {
        funs: vec![],
        names,
        types: tvs,
        constraints: vec![TypeConstraint::Equality(a, b, loc())],
    };
    let mut checker = TypeChecker::new();
    let typed = checker.check(prog);
    assert!(!checker.error_handler.has_error());
    // Both type variables resolve to i32.
    let ta = typed.types.get(a).expect("a resolved");
    let tb = typed.types.get(b).expect("b resolved");
    assert!(ta.type_eq(&Type::I32));
    assert!(tb.type_eq(&Type::I32));
}

#[test]
fn placeholder_takes_the_other_side() {
    let mut tvs: TypeVarStore = Store::new(1);
    let a = tvs.add(TypeVar { loc: loc(), types: vec![Type::Any] });
    let b = tvs.add(TypeVar { loc: loc(), types: vec![Type::F64] });
    let names: NameStore = Store::new(1);
    let prog = ResolvedProgram {
        funs: vec![],
        names,
        types: tvs,
        constraints: vec![TypeConstraint::Equality(a, b, loc())],
    };
    let mut checker = TypeChecker::new();
    let typed = checker.check(prog);
    assert!(!checker.error_handler.has_error());
    assert!(typed.types.get(a).expect("a resolved").type_eq(&Type::F64));
}

#[test]
fn ambiguous_integers_default_to_i64() {
    let mut tvs: TypeVarStore = Store::new(1);
    let a = tvs.add(TypeVar { loc: loc(), types: integer_list() });
    let names: NameStore = Store::new(1);
    let prog = ResolvedProgram { funs: vec![], names, types: tvs, constraints: vec![] };
    let mut checker = TypeChecker::new();
    let typed = checker.check(prog);
    assert!(!checker.error_handler.has_error());
    assert!(typed.types.get(a).expect("a resolved").type_eq(&Type::I64));
}

#[test]
fn unsatisfiable_constraint_is_reported() {
    let mut tvs: TypeVarStore = Store::new(1);
    let a = tvs.add(TypeVar { loc: loc(), types: vec![Type::I32] });
    let b = tvs.add(TypeVar { loc: loc(), types: vec![Type::F64] });
    let names: NameStore = Store::new(1);
    let prog = ResolvedProgram {
        funs: vec![],
        names,
        types: tvs,
        constraints: vec![TypeConstraint::Equality(a, b, loc())],
    };
    let mut checker = TypeChecker::new();
    let typed = checker.check(prog);
    assert!(checker.error_handler.has_error());
    // Neither side survives into the resolved store.
    assert!(typed.types.get(a).is_none());
    assert!(typed.types.get(b).is_none());
}

#[test]
fn inclusion_narrows_only_the_first_side() {
    let mut tvs: TypeVarStore = Store::new(1);
    let a = tvs.add(TypeVar { loc: loc(), types: integer_list() });
    let b = tvs.add(TypeVar { loc: loc(), types: vec![Type::I32] });
    let names: NameStore = Store::new(1);
    let prog = ResolvedProgram {
        funs: vec![],
        names,
        types: tvs,
        constraints: vec![TypeConstraint::Included(a, b, loc())],
    };
    let mut checker = TypeChecker::new();
    let typed = checker.check(prog);
    assert!(!checker.error_handler.has_error());
    assert!(typed.types.get(a).expect("a resolved").type_eq(&Type::I32));
    assert!(typed.types.get(b).expect("b untouched").type_eq(&Type::I32));
}

#[test]
fn return_constraint_narrows_to_the_return_type() {
    let mut tvs: TypeVarStore = Store::new(1);
    let f = tvs.add(TypeVar {
        loc: loc(),
        types: vec![Type::Fun(vec![Type::I32], vec![Type::I64])],
    });
    let r = tvs.add(TypeVar { loc: loc(), types: integer_list() });
    let names: NameStore = Store::new(1);
    let prog = ResolvedProgram {
        funs: vec![],
        names,
        types: tvs,
        constraints: vec![TypeConstraint::Return(f, r, loc())],
    };
    let mut checker = TypeChecker::new();
    let typed = checker.check(prog);
    assert!(!checker.error_handler.has_error());
    assert!(typed.types.get(r).expect("r resolved").type_eq(&Type::I64));
}

#[test]
fn return_of_wrong_type_is_reported() {
    let mut tvs: TypeVarStore = Store::new(1);
    let f = tvs.add(TypeVar {
        loc: loc(),
        types: vec![Type::Fun(vec![], vec![Type::F32])],
    });
    let r = tvs.add(TypeVar { loc: loc(), types: integer_list() });
    let names: NameStore = Store::new(1);
    let prog = ResolvedProgram {
        funs: vec![],
        names,
        types: tvs,
        constraints: vec![TypeConstraint::Return(f, r, loc())],
    };
    let mut checker = TypeChecker::new();
    let _ = checker.check(prog);
    assert!(checker.error_handler.has_error());
}

#[test]
fn chained_equalities_reach_a_fixed_point() {
    // a = b, b = c, c declared i32: all collapse to i32 over several sweeps.
    let mut tvs: TypeVarStore = Store::new(1);
    let a = tvs.add(TypeVar { loc: loc(), types: vec![Type::Any] });
    let b = tvs.add(TypeVar { loc: loc(), types: integer_list() });
    let c = tvs.add(TypeVar { loc: loc(), types: vec![Type::I32] });
    let names: NameStore = Store::new(1);
    let prog = ResolvedProgram {
        funs: vec![],
        names,
        types: tvs,
        constraints: vec![
            TypeConstraint::Equality(a, b, loc()),
            TypeConstraint::Equality(b, c, loc()),
        ],
    };
    let mut checker = TypeChecker::new();
    let typed = checker.check(prog);
    assert!(!checker.error_handler.has_error());
    assert!(typed.types.get(a).expect("a").type_eq(&Type::I32));
    assert!(typed.types.get(b).expect("b").type_eq(&Type::I32));
    assert!(typed.types.get(c).expect("c").type_eq(&Type::I32));
}

#[test]
fn resolved_store_is_a_fixed_point() {
    // Solve a chain once, then feed the resolved singletons back in under
    // the same identifiers and constraints: one more run changes nothing
    // and reports nothing.
    let constraints = |a, b, c| {
        vec![
            TypeConstraint::Equality(a, b, loc()),
            TypeConstraint::Equality(b, c, loc()),
        ]
    };
    let mut tvs: TypeVarStore = Store::new(1);
    let a = tvs.add(TypeVar { loc: loc(), types: vec![Type::Any] });
    let b = tvs.add(TypeVar { loc: loc(), types: integer_list() });
    let c = tvs.add(TypeVar { loc: loc(), types: vec![Type::I32] });
    let names: NameStore = Store::new(1);
    let prog = ResolvedProgram { funs: vec![], names, types: tvs, constraints: constraints(a, b, c) };
    let mut checker = TypeChecker::new();
    let typed = checker.check(prog);
    assert!(!checker.error_handler.has_error());

    let mut tvs2: TypeVarStore = Store::new(1);
    let a2 = tvs2.add(TypeVar {
        loc: loc(),
        types: vec![typed.types.get(a).expect("a").duplicate()],
    });
    let b2 = tvs2.add(TypeVar {
        loc: loc(),
        types: vec![typed.types.get(b).expect("b").duplicate()],
    });
    let c2 = tvs2.add(TypeVar {
        loc: loc(),
        types: vec![typed.types.get(c).expect("c").duplicate()],
    });
    assert_eq!(a, a2);
    assert_eq!(b, b2);
    assert_eq!(c, c2);
    let names2: NameStore = Store::new(1);
    let prog2 = ResolvedProgram {
        funs: vec![],
        names: names2,
        types: tvs2,
        constraints: constraints(a, b, c),
    };
    let mut checker2 = TypeChecker::new();
    let typed2 = checker2.check(prog2);
    assert!(!checker2.error_handler.has_error());
    assert!(typed2.types.get(a).expect("a").type_eq(typed.types.get(a).expect("a")));
    assert!(typed2.types.get(b).expect("b").type_eq(typed.types.get(b).expect("b")));
    assert!(typed2.types.get(c).expect("c").type_eq(typed.types.get(c).expect("c")));
}

#[test]
fn unsatisfiable_intersection_is_reported_at_the_constraint() {
    // Two disjoint non-empty candidate sets: the intersection empties, and
    // the report carries the constraint's own location.
    let cloc = Location { pos: 7, len: 3, f_id: FileId(2) };
    let mut tvs: TypeVarStore = Store::new(1);
    let a = tvs.add(TypeVar { loc: loc(), types: vec![Type::I32] });
    let b = tvs.add(TypeVar { loc: loc(), types: vec![Type::F64] });
    let names: NameStore = Store::new(1);
    let prog = ResolvedProgram {
        funs: vec![],
        names,
        types: tvs,
        constraints: vec![TypeConstraint::Equality(a, b, cloc)],
    };
    let mut checker = TypeChecker::new();
    let _ = checker.check(prog);
    let diags = checker.error_handler.take_diagnostics();
    assert!(diags.iter().any(|d| d.message == "Unsatisfiable type constraint"
        && d.loc == Some(cloc)));
}

#[test]
fn defaulting_reports_carry_the_type_variable_location() {
    // An ambiguous non-integer list is reported at the tv's own location.
    let tv_loc = Location { pos: 11, len: 1, f_id: FileId(3) };
    let mut tvs: TypeVarStore = Store::new(1);
    let _ = tvs.add(TypeVar { loc: tv_loc, types: vec![Type::F32, Type::F64] });
    let names: NameStore = Store::new(1);
    let prog = ResolvedProgram { funs: vec![], names, types: tvs, constraints: vec![] };
    let mut checker = TypeChecker::new();
    let _ = checker.check(prog);
    let diags = checker.error_handler.take_diagnostics();
    assert!(diags.iter().any(|d| d.message == "Could not infer type" && d.loc == Some(tv_loc)));
}
