//! The constraint solver: fixed-point iteration that narrows the candidate
//! sets of all type variables until they are singletons, then defaults
//! ambiguous integer literals and builds the store of resolved types.
//!
//! Every constraint can only remove candidates, so a weight over all
//! candidate lists decreases with every step that makes progress, and the
//! iteration reaches a fixed point.

use vstd::prelude::*;
use vstd::string::StringExecFns;

use crate::error::Location;
use crate::hir::{DeclKind, Declaration, ResolvedProgram, TypedProgram};
use crate::error::{DiagV, ErrorHandler};
use crate::store::{contains_key_from, distinct_keys, key_index, lemma_key_index, Id, Identifier, TypeVarId};
use crate::types::{
    cand_contains, cand_inter, integer_cands, views_of, ConstraintStore, Type, TypeConstraint,
    TypeV, TypeVar, TypeVarStore, TypeVarV,
};

verus! {

/// The mathematical state of a type-variable store: its entries, each the
/// raw identifier and the type variable's value.
pub open spec fn tvs_of(kvs: Seq<(Id, TypeVar)>) -> Seq<(Id, TypeVarV)>
    decreases kvs,
{
    if kvs.len() == 0 {
        Seq::empty()
    } else {
        tvs_of(kvs.drop_last()).push((kvs.last().0, kvs.last().1@))
    }
}

/// `tvs_of` takes each entry to its view, in place.
pub proof fn lemma_tvs_of(kvs: Seq<(Id, TypeVar)>)
    ensures
        tvs_of(kvs).len() == kvs.len(),
        forall|i: int| 0 <= i < kvs.len() ==> tvs_of(kvs)[i]
            == ((#[trigger] kvs[i]).0, kvs[i].1@),
    decreases kvs,
{
    if kvs.len() > 0 {
        lemma_tvs_of(kvs.drop_last());
        assert(tvs_of(kvs) == tvs_of(kvs.drop_last()).push((kvs.last().0, kvs.last().1@)));
        assert forall|i: int| 0 <= i < kvs.len()
            implies tvs_of(kvs)[i] == ((#[trigger] kvs[i]).0, kvs[i].1@) by {
            if i < kvs.len() - 1 {
                assert(kvs.drop_last()[i] == kvs[i]);
            } else {
                assert(kvs[i] == kvs.last());
            }
        }
    }
}

/// The value of the type variable stored under `k`.
pub open spec fn tv_at(s: Seq<(Id, TypeVarV)>, k: Id) -> TypeVarV {
    s[key_index(s, k)].1
}

/// The state with the candidate list under `k` replaced by `types`.
pub open spec fn set_types(s: Seq<(Id, TypeVarV)>, k: Id, types: Seq<TypeV>) -> Seq<
    (Id, TypeVarV),
> {
    s.update(key_index(s, k), (k, TypeVarV { loc: tv_at(s, k).loc, types }))
}

/// The weight of one candidate list: the placeholder list counts more than
/// any concrete list can, so replacing it always shrinks the weight.
pub open spec fn tv_weight(tv: TypeVarV) -> nat {
    if tv.types.len() > 0 && tv.types[0] == TypeV::Any {
        5
    } else {
        tv.types.len()
    }
}

/// The total weight of a state.
pub open spec fn state_weight(s: Seq<(Id, TypeVarV)>) -> nat
    decreases s,
{
    if s.len() == 0 {
        0
    } else {
        state_weight(s.drop_last()) + tv_weight(s.last().1)
    }
}

/// The total number of candidates over all type variables of a state.
pub open spec fn cand_count(s: Seq<(Id, TypeVarV)>) -> nat
    decreases s,
{
    if s.len() == 0 {
        0
    } else {
        cand_count(s.drop_last()) + s.last().1.types.len()
    }
}

/// A well-formed solver state: identifiers are distinct, the placeholder
/// `Any` only ever stands alone, and no candidate list is longer than the
/// four-element numeric set, the largest one the resolver creates.
pub open spec fn wf_tvs(s: Seq<(Id, TypeVarV)>) -> bool {
    &&& distinct_keys(s)
    &&& forall|i: int| 0 <= i < s.len() ==> {
        let ts = (#[trigger] s[i]).1.types;
        &&& (cand_contains(ts, TypeV::Any) ==> ts == seq![TypeV::Any])
        &&& ts.len() <= 4
    }
}

/// What an equality constraint does to a state: both candidate lists become
/// their intersection, except that a lone placeholder takes the other side's
/// list. The second component tells whether the state changed.
pub open spec fn eq_apply(s: Seq<(Id, TypeVarV)>, a: Id, b: Id) -> (Seq<(Id, TypeVarV)>, bool) {
    if !contains_key_from(s, 0, a) || !contains_key_from(s, 0, b) {
        (s, false)
    } else {
        let t1 = tv_at(s, a).types;
        let t2 = tv_at(s, b).types;
        if t1.len() > 0 && t1[0] == TypeV::Any {
            if t2.len() > 0 && t2[0] == TypeV::Any {
                (s, false)
            } else {
                (set_types(s, a, t2), true)
            }
        } else if t2.len() > 0 && t2[0] == TypeV::Any {
            (set_types(s, b, t1), true)
        } else if t1.len() == 0 || t2.len() == 0 {
            (s, false)
        } else {
            let r1 = cand_inter(t1, t2);
            let r2 = cand_inter(t2, t1);
            if r1.len() < t1.len() || r2.len() < t2.len() {
                (set_types(set_types(s, a, r1), b, r2), true)
            } else {
                (s, false)
            }
        }
    }
}

/// What an inclusion constraint does to a state: the first candidate list
/// is narrowed to its intersection with the second; the second is left
/// untouched. A lone placeholder takes the other side's list.
pub open spec fn incl_apply(s: Seq<(Id, TypeVarV)>, a: Id, b: Id) -> (Seq<(Id, TypeVarV)>, bool) {
    if !contains_key_from(s, 0, a) || !contains_key_from(s, 0, b) {
        (s, false)
    } else {
        let t1 = tv_at(s, a).types;
        let t2 = tv_at(s, b).types;
        if t1.len() > 0 && t1[0] == TypeV::Any {
            if t2.len() > 0 && t2[0] == TypeV::Any {
                (s, false)
            } else {
                (set_types(s, a, t2), true)
            }
        } else {
            let r1 = cand_inter(t1, t2);
            if r1.len() < t1.len() {
                (set_types(s, a, r1), true)
            } else {
                (s, false)
            }
        }
    }
}

/// What a return constraint does to a state: when the function side is a
/// resolved function type with one return type that the value side still
/// admits, the value side becomes exactly that type.
pub open spec fn ret_apply(s: Seq<(Id, TypeVarV)>, f: Id, r: Id) -> (Seq<(Id, TypeVarV)>, bool) {
    if !contains_key_from(s, 0, f) || !contains_key_from(s, 0, r) {
        (s, false)
    } else {
        let tf = tv_at(s, f).types;
        let tr = tv_at(s, r).types;
        if tf.len() != 1 {
            (s, false)
        } else if !(tf[0] is Fun) {
            (s, false)
        } else if tf[0]->Fun_1.len() != 1 {
            (s, false)
        } else {
            let rt = tf[0]->Fun_1[0];
            if cand_contains(tr, rt) {
                if tr.len() > 1 {
                    (set_types(s, r, seq![rt]), true)
                } else {
                    (s, false)
                }
            } else {
                (s, false)
            }
        }
    }
}

/// What one constraint does to a state.
pub open spec fn constr_apply(c: TypeConstraint, s: Seq<(Id, TypeVarV)>) -> (
    Seq<(Id, TypeVarV)>,
    bool,
) {
    match c {
        TypeConstraint::Equality(a, b, _) => eq_apply(s, a.id_spec(), b.id_spec()),
        TypeConstraint::Included(a, b, _) => incl_apply(s, a.id_spec(), b.id_spec()),
        TypeConstraint::Return(f, r, _) => ret_apply(s, f.id_spec(), r.id_spec()),
    }
}

/// One sweep over the first `n` constraints, in emission order: the state
/// after them, and whether any of them made progress.
pub open spec fn sweep_prefix(cs: Seq<TypeConstraint>, s: Seq<(Id, TypeVarV)>, n: int) -> (
    Seq<(Id, TypeVarV)>,
    bool,
)
    decreases n,
{
    if n <= 0 {
        (s, false)
    } else {
        let prev = sweep_prefix(cs, s, n - 1);
        let step = constr_apply(cs[n - 1], prev.0);
        (step.0, prev.1 || step.1)
    }
}

/// One sweep over all constraints.
pub open spec fn sweep(cs: Seq<TypeConstraint>, s: Seq<(Id, TypeVarV)>) -> (
    Seq<(Id, TypeVarV)>,
    bool,
) {
    sweep_prefix(cs, s, cs.len() as int)
}

/// The state after `n` whole sweeps.
pub open spec fn sweep_n(cs: Seq<TypeConstraint>, s: Seq<(Id, TypeVarV)>, n: nat) -> Seq<
    (Id, TypeVarV),
>
    decreases n,
{
    if n == 0 {
        s
    } else {
        sweep(cs, sweep_n(cs, s, (n - 1) as nat)).0
    }
}

/// The diagnostics one sweep over the first `n` constraints raises, in
/// emission order, each against the state the constraint saw.
pub open spec fn sweep_prefix_diags(
    cs: Seq<TypeConstraint>,
    s: Seq<(Id, TypeVarV)>,
    n: int,
) -> Seq<DiagV>
    decreases n,
{
    if n <= 0 {
        Seq::empty()
    } else {
        sweep_prefix_diags(cs, s, n - 1) + constr_diags(cs[n - 1], sweep_prefix(cs, s, n - 1).0)
    }
}

/// The diagnostics one whole sweep raises.
pub open spec fn sweep_diags(cs: Seq<TypeConstraint>, s: Seq<(Id, TypeVarV)>) -> Seq<DiagV> {
    sweep_prefix_diags(cs, s, cs.len() as int)
}

/// The diagnostics `n` whole sweeps raise.
pub open spec fn solve_diags(cs: Seq<TypeConstraint>, s: Seq<(Id, TypeVarV)>, n: nat) -> Seq<
    DiagV,
>
    decreases n,
{
    if n == 0 {
        Seq::empty()
    } else {
        solve_diags(cs, s, (n - 1) as nat) + sweep_diags(cs, sweep_n(cs, s, (n - 1) as nat))
    }
}

/// The diagnostics the declaration-export pass raises, in function order:
/// one internal report per public function whose name or signature did not
/// resolve.
pub open spec fn export_diags(
    funs: Seq<crate::hir::Function>,
    names: crate::hir::NameStore,
    types: crate::types::TypeStore,
) -> Seq<DiagV>
    decreases funs,
{
    if funs.len() == 0 {
        Seq::empty()
    } else {
        export_diags(funs.drop_last(), names, types) + {
            let f = funs.last();
            if !f.is_pub {
                Seq::<DiagV>::empty()
            } else if !names.contains_id(f.n_id.id_spec()) {
                seq![
                    DiagV {
                        loc: None,
                        message: "Public function without a bound name"@,
                        internal: true,
                    },
                ]
            } else if !types.contains_id(names.spec_get(f.n_id.id_spec()).t_id.id_spec()) {
                seq![
                    DiagV {
                        loc: None,
                        message: "Public function without a resolved signature"@,
                        internal: true,
                    },
                ]
            } else {
                Seq::<DiagV>::empty()
            }
        }
    }
}

/// The concrete type a finished candidate list resolves to: its only
/// element, or the integer default `I64` for the canonical integer set; no
/// type at all otherwise.
pub open spec fn default_of(types: Seq<TypeV>) -> Option<TypeV> {
    if types.len() == 1 {
        Some(types[0])
    } else if types == integer_cands() {
        Some(TypeV::I64)
    } else {
        None
    }
}

/// The diagnostics an equality constraint raises: an internal report for an
/// unknown type variable, the inference failure when a side was already
/// empty, and the unsatisfiable-constraint report, at the constraint's
/// location, when the intersection of two non-empty sides comes out empty.
pub open spec fn eq_diags(s: Seq<(Id, TypeVarV)>, a: Id, b: Id, cloc: Location) -> Seq<DiagV> {
    if !contains_key_from(s, 0, a) || !contains_key_from(s, 0, b) {
        seq![
            DiagV {
                loc: None,
                message: "Equality constraint on an unknown type variable"@,
                internal: true,
            },
        ]
    } else {
        let t1 = tv_at(s, a).types;
        let t2 = tv_at(s, b).types;
        if t1.len() > 0 && t1[0] == TypeV::Any {
            Seq::empty()
        } else if t2.len() > 0 && t2[0] == TypeV::Any {
            Seq::empty()
        } else if t1.len() == 0 || t2.len() == 0 {
            seq![
                DiagV {
                    loc: Some(tv_at(s, a).loc),
                    message: "Could not infer a type satisfying constraints"@,
                    internal: false,
                },
            ]
        } else if cand_inter(t1, t2).len() == 0 {
            seq![
                DiagV {
                    loc: Some(cloc),
                    message: "Unsatisfiable type constraint"@,
                    internal: false,
                },
            ]
        } else {
            Seq::empty()
        }
    }
}

/// The diagnostics an inclusion constraint raises: only the internal report
/// for an unknown type variable.
pub open spec fn incl_diags(s: Seq<(Id, TypeVarV)>, a: Id, b: Id) -> Seq<DiagV> {
    if !contains_key_from(s, 0, a) || !contains_key_from(s, 0, b) {
        seq![
            DiagV {
                loc: None,
                message: "Inclusion constraint on an unknown type variable"@,
                internal: true,
            },
        ]
    } else {
        Seq::empty()
    }
}

/// The diagnostics a return constraint raises: internal reports for a
/// malformed function side, and the wrong-return-type report at the value
/// side's location.
pub open spec fn ret_diags(s: Seq<(Id, TypeVarV)>, f: Id, r: Id) -> Seq<DiagV> {
    if !contains_key_from(s, 0, f) || !contains_key_from(s, 0, r) {
        seq![
            DiagV {
                loc: None,
                message: "Return constraint on an unknown type variable"@,
                internal: true,
            },
        ]
    } else {
        let tf = tv_at(s, f).types;
        let tr = tv_at(s, r).types;
        if tf.len() != 1 {
            seq![
                DiagV {
                    loc: Some(tv_at(s, f).loc),
                    message: "Return type constraint with ambiguous fun type"@,
                    internal: true,
                },
            ]
        } else if !(tf[0] is Fun) {
            seq![
                DiagV {
                    loc: Some(tv_at(s, f).loc),
                    message: "Return type constraint used on a non function type"@,
                    internal: true,
                },
            ]
        } else if tf[0]->Fun_1.len() != 1 {
            seq![
                DiagV {
                    loc: Some(tv_at(s, f).loc),
                    message: "Function returning multiple values are not yet supported"@,
                    internal: true,
                },
            ]
        } else if cand_contains(tr, tf[0]->Fun_1[0]) {
            Seq::empty()
        } else {
            seq![
                DiagV {
                    loc: Some(tv_at(s, r).loc),
                    message: "Return value has wrong type"@,
                    internal: false,
                },
            ]
        }
    }
}

/// The diagnostics one constraint raises.
pub open spec fn constr_diags(c: TypeConstraint, s: Seq<(Id, TypeVarV)>) -> Seq<DiagV> {
    match c {
        TypeConstraint::Equality(a, b, l) => eq_diags(s, a.id_spec(), b.id_spec(), l),
        TypeConstraint::Included(a, b, _) => incl_diags(s, a.id_spec(), b.id_spec()),
        TypeConstraint::Return(f, r, _) => ret_diags(s, f.id_spec(), r.id_spec()),
    }
}

/// The diagnostics the defaulting pass raises, in entry order: one report at
/// the type variable's own location for every candidate list that neither
/// is a singleton nor defaults.
pub open spec fn defaulting_diags(s: Seq<(Id, TypeVarV)>) -> Seq<DiagV>
    decreases s,
{
    if s.len() == 0 {
        Seq::empty()
    } else {
        defaulting_diags(s.drop_last()) + {
            let tv = s.last().1;
            if default_of(tv.types) is Some {
                Seq::<DiagV>::empty()
            } else if tv.types.len() == 0 {
                seq![
                    DiagV {
                        loc: Some(tv.loc),
                        message: "Could not find a type satisfying constraint"@,
                        internal: false,
                    },
                ]
            } else {
                seq![
                    DiagV {
                        loc: Some(tv.loc),
                        message: "Could not infer type"@,
                        internal: false,
                    },
                ]
            }
        }
    }
}

/// Updating one entry exchanges its weight for the new one.
pub proof fn lemma_weight_update(s: Seq<(Id, TypeVarV)>, i: int, p: (Id, TypeVarV))
    requires
        0 <= i < s.len(),
    ensures
        state_weight(s.update(i, p)) + tv_weight(s[i].1) == state_weight(s) + tv_weight(p.1),
        cand_count(s.update(i, p)) + s[i].1.types.len() == cand_count(s) + p.1.types.len(),
    decreases s,
{
    let s2 = s.update(i, p);
    if i == s.len() - 1 {
        assert(s2.drop_last() =~= s.drop_last());
        assert(s2.last() == p);
    } else {
        assert(s2.drop_last() =~= s.drop_last().update(i, p));
        assert(s2.last() == s.last());
        lemma_weight_update(s.drop_last(), i, p);
        assert(s.drop_last()[i] == s[i]);
    }
}

/// How `set_types` changes a well-formed state: only the one entry's list.
pub proof fn lemma_set_types(s: Seq<(Id, TypeVarV)>, k: Id, types: Seq<TypeV>)
    requires
        distinct_keys(s),
        contains_key_from(s, 0, k),
    ensures
        ({
            let s2 = set_types(s, k, types);
            &&& s2.len() == s.len()
            &&& forall|j: int| 0 <= j < s.len() ==> (#[trigger] s2[j]).0 == s[j].0
            &&& distinct_keys(s2)
            &&& forall|k2: Id| contains_key_from(s2, 0, k2) <==> contains_key_from(s, 0, k2)
            &&& tv_at(s2, k).types == types
            &&& tv_at(s2, k).loc == tv_at(s, k).loc
            &&& forall|k2: Id| k2 != k && contains_key_from(s, 0, k2)
                ==> #[trigger] tv_at(s2, k2) == tv_at(s, k2)
            &&& state_weight(s2) + tv_weight(s[key_index(s, k)].1) == state_weight(s)
                + tv_weight(tv_at(s2, k))
            &&& cand_count(s2) + s[key_index(s, k)].1.types.len() == cand_count(s) + types.len()
        }),
{
    let i = key_index(s, k);
    assert(0 <= i < s.len() && s[i].0 == k);
    let p = (k, TypeVarV { loc: tv_at(s, k).loc, types });
    let s2 = s.update(i, p);
    assert(forall|j: int| 0 <= j < s.len() && j != i ==> (#[trigger] s2[j]) == s[j]);
    assert(s2[i] == p);
    assert(distinct_keys(s2)) by {
        assert forall|a: int, b: int| 0 <= a < b < s2.len()
            implies (#[trigger] s2[a]).0 != (#[trigger] s2[b]).0 by {
            assert(s2[a].0 == s[a].0 && s2[b].0 == s[b].0);
        }
    }
    assert forall|k2: Id| contains_key_from(s2, 0, k2) <==> contains_key_from(s, 0, k2) by {
        if contains_key_from(s2, 0, k2) {
            let j = choose|j: int| 0 <= j < s2.len() && (#[trigger] s2[j]).0 == k2;
            assert((#[trigger] s[j]).0 == k2);
        }
        if contains_key_from(s, 0, k2) {
            let j = choose|j: int| 0 <= j < s.len() && (#[trigger] s[j]).0 == k2;
            assert((#[trigger] s2[j]).0 == k2);
        }
    }
    assert(tv_at(s2, k).types == types) by {
        lemma_key_index(s2, i);
    }
    assert forall|k2: Id| k2 != k && contains_key_from(s, 0, k2)
        implies #[trigger] tv_at(s2, k2) == tv_at(s, k2) by {
        let j = choose|j: int| 0 <= j < s.len() && (#[trigger] s[j]).0 == k2;
        lemma_key_index(s, j);
        assert(s2[j].0 == k2);
        lemma_key_index(s2, j);
        assert(j != i);
    }
    lemma_weight_update(s, i, p);
    assert(tv_at(s2, k) == p.1) by {
        lemma_key_index(s2, i);
    }
}

/// True when no candidate list still holds the placeholder.
pub open spec fn any_free(s: Seq<(Id, TypeVarV)>) -> bool {
    forall|i: int| 0 <= i < s.len()
        ==> !cand_contains((#[trigger] s[i]).1.types, TypeV::Any)
}

/// One constraint application on a well-formed state keeps it well-formed,
/// strictly shrinks the state's weight when it reports progress, and leaves
/// the state untouched when it does not. On a state free of the placeholder
/// it never increases the total number of candidates, and keeps it free.
pub proof fn lemma_constr_apply(c: TypeConstraint, s: Seq<(Id, TypeVarV)>)
    requires
        wf_tvs(s),
    ensures
        ({
            let (s2, p) = constr_apply(c, s);
            &&& wf_tvs(s2)
            &&& (p ==> state_weight(s2) < state_weight(s))
            &&& (!p ==> s2 == s)
            &&& (any_free(s) ==> any_free(s2) && cand_count(s2) <= cand_count(s))
        }),
{
    broadcast use vstd::seq_lib::group_filter_ensures;

    match c {
        TypeConstraint::Equality(a0, b0, _) => {
            let a = a0.id_spec();
            let b = b0.id_spec();
            if contains_key_from(s, 0, a) && contains_key_from(s, 0, b) {
                let ia = key_index(s, a);
                let ib = key_index(s, b);
                assert(0 <= ia < s.len() && s[ia].0 == a);
                assert(0 <= ib < s.len() && s[ib].0 == b);
                let t1 = tv_at(s, a).types;
                let t2 = tv_at(s, b).types;
                assert(tv_at(s, a) == s[ia].1) by { lemma_key_index(s, ia); }
                assert(tv_at(s, b) == s[ib].1) by { lemma_key_index(s, ib); }
                if t1.len() > 0 && t1[0] == TypeV::Any {
                    if !(t2.len() > 0 && t2[0] == TypeV::Any) {
                        assert(cand_contains(t1, TypeV::Any));
                        assert(t1 == seq![TypeV::Any]);
                        assert(!cand_contains(t2, TypeV::Any)) by {
                            if cand_contains(t2, TypeV::Any) {
                                assert(t2 == seq![TypeV::Any]);
                            }
                        }
                        lemma_set_types(s, a, t2);
                        let s2 = set_types(s, a, t2);
                        lemma_wf_after_set(s, a, t2);
                        assert(tv_weight(s[ia].1) == 5);
                        assert(tv_weight(tv_at(s2, a)) == t2.len());
                    }
                } else if t2.len() > 0 && t2[0] == TypeV::Any {
                    assert(cand_contains(t2, TypeV::Any));
                    assert(t2 == seq![TypeV::Any]);
                    assert(!cand_contains(t1, TypeV::Any)) by {
                        if cand_contains(t1, TypeV::Any) {
                            assert(t1 == seq![TypeV::Any]);
                        }
                    }
                    lemma_set_types(s, b, t1);
                    let s2 = set_types(s, b, t1);
                    lemma_wf_after_set(s, b, t1);
                    assert(tv_weight(s[ib].1) == 5);
                    assert(tv_weight(tv_at(s2, b)) == t1.len());
                    assert(t1.len() < 5);
                } else if t1.len() == 0 || t2.len() == 0 {
                } else {
                    let r1 = cand_inter(t1, t2);
                    let r2 = cand_inter(t2, t1);
                    assert(t1.len() <= 4 && t2.len() <= 4);
                    assert(!cand_contains(t1, TypeV::Any)) by {
                        if cand_contains(t1, TypeV::Any) {
                            assert(t1 == seq![TypeV::Any]);
                        }
                    }
                    assert(!cand_contains(t2, TypeV::Any)) by {
                        if cand_contains(t2, TypeV::Any) {
                            assert(t2 == seq![TypeV::Any]);
                        }
                    }
                    lemma_inter_wf(t1, t2);
                    lemma_inter_wf(t2, t1);
                    if r1.len() < t1.len() || r2.len() < t2.len() {
                        lemma_set_types(s, a, r1);
                        let s1 = set_types(s, a, r1);
                        lemma_wf_after_set(s, a, r1);
                        assert(contains_key_from(s1, 0, b));
                        lemma_set_types(s1, b, r2);
                        let s2 = set_types(s1, b, r2);
                        lemma_wf_after_set(s1, b, r2);
                        if a == b {
                            assert(tv_at(s1, b).types == r1);
                            assert(tv_weight(s1[key_index(s1, b)].1) == r1.len()) by {
                                lemma_any_free_weight(s1, b);
                            }
                        } else {
                            assert(tv_at(s1, b).types == t2);
                        }
                        lemma_any_free_weight(s, a);
                        lemma_any_free_weight(s, b);
                        lemma_any_free_weight(s1, b);
                    }
                }
            }
        },
        TypeConstraint::Included(a0, b0, _) => {
            let a = a0.id_spec();
            let b = b0.id_spec();
            if contains_key_from(s, 0, a) && contains_key_from(s, 0, b) {
                let ia = key_index(s, a);
                assert(0 <= ia < s.len() && s[ia].0 == a);
                let t1 = tv_at(s, a).types;
                let t2 = tv_at(s, b).types;
                assert(tv_at(s, a) == s[ia].1) by { lemma_key_index(s, ia); }
                if t1.len() > 0 && t1[0] == TypeV::Any {
                    if !(t2.len() > 0 && t2[0] == TypeV::Any) {
                        assert(cand_contains(t1, TypeV::Any));
                        assert(t1 == seq![TypeV::Any]);
                        assert(!cand_contains(t2, TypeV::Any)) by {
                            if cand_contains(t2, TypeV::Any) {
                                let ib = key_index(s, b);
                                assert(0 <= ib < s.len() && s[ib].0 == b);
                                assert(tv_at(s, b) == s[ib].1) by { lemma_key_index(s, ib); }
                                assert(t2 == seq![TypeV::Any]);
                            }
                        }
                        lemma_set_types(s, a, t2);
                        lemma_wf_after_set(s, a, t2);
                        assert(tv_weight(s[ia].1) == 5);
                        assert(tv_weight(tv_at(set_types(s, a, t2), a)) == t2.len());
                    }
                } else {
                    let r1 = cand_inter(t1, t2);
                    assert(!cand_contains(t1, TypeV::Any)) by {
                        if cand_contains(t1, TypeV::Any) {
                            assert(t1 == seq![TypeV::Any]);
                        }
                    }
                    lemma_inter_wf(t1, t2);
                    if r1.len() < t1.len() {
                        lemma_set_types(s, a, r1);
                        lemma_wf_after_set(s, a, r1);
                        lemma_any_free_weight(s, a);
                    }
                }
            }
        },
        TypeConstraint::Return(f0, r0, _) => {
            let f = f0.id_spec();
            let r = r0.id_spec();
            if contains_key_from(s, 0, f) && contains_key_from(s, 0, r) {
                let ir = key_index(s, r);
                assert(0 <= ir < s.len() && s[ir].0 == r);
                let tf = tv_at(s, f).types;
                let tr = tv_at(s, r).types;
                assert(tv_at(s, r) == s[ir].1) by { lemma_key_index(s, ir); }
                if tf.len() == 1 && tf[0] is Fun && tf[0]->Fun_1.len() == 1 {
                    let rt = tf[0]->Fun_1[0];
                    if cand_contains(tr, rt) && tr.len() > 1 {
                        assert(rt != TypeV::Any) by {
                            if rt == TypeV::Any {
                                assert(cand_contains(tr, TypeV::Any));
                                assert(tr == seq![TypeV::Any]);
                            }
                        }
                        assert(!cand_contains(seq![rt], TypeV::Any)) by {
                            if cand_contains(seq![rt], TypeV::Any) {
                                let j = choose|j: int| 0 <= j < 1 && seq![rt][j] == TypeV::Any;
                            }
                        }
                        lemma_set_types(s, r, seq![rt]);
                        lemma_wf_after_set(s, r, seq![rt]);
                        lemma_any_free_weight(s, r);
                        assert(tv_weight(tv_at(set_types(s, r, seq![rt]), r)) == 1);
                    }
                }
            }
        },
    }
}

/// A list that does not begin with the placeholder and is well-formed holds
/// it nowhere, so its weight is its length.
proof fn lemma_any_free_weight(s: Seq<(Id, TypeVarV)>, k: Id)
    requires
        wf_tvs(s),
        contains_key_from(s, 0, k),
        !(tv_at(s, k).types.len() > 0 && tv_at(s, k).types[0] == TypeV::Any),
    ensures
        tv_weight(s[key_index(s, k)].1) == tv_at(s, k).types.len(),
        !cand_contains(tv_at(s, k).types, TypeV::Any),
{
    let i = key_index(s, k);
    assert(0 <= i < s.len() && s[i].0 == k);
    if cand_contains(s[i].1.types, TypeV::Any) {
        assert(s[i].1.types == seq![TypeV::Any]);
    }
}

/// Every element a filter keeps stands in the source list.
proof fn lemma_filter_from(s: Seq<TypeV>, pred: spec_fn(TypeV) -> bool)
    ensures
        forall|j: int| 0 <= j < s.filter(pred).len()
            ==> cand_contains(s, #[trigger] s.filter(pred)[j]),
    decreases s.len(),
{
    reveal(Seq::filter);
    if s.len() > 0 {
        lemma_filter_from(s.drop_last(), pred);
        let f0 = s.drop_last().filter(pred);
        assert forall|j: int| 0 <= j < s.filter(pred).len()
            implies cand_contains(s, #[trigger] s.filter(pred)[j]) by {
            if j < f0.len() {
                assert(s.filter(pred)[j] == f0[j]);
                let i = choose|i: int| 0 <= i < s.drop_last().len()
                    && s.drop_last()[i] == f0[j];
                assert(s[i] == f0[j]);
            } else {
                assert(s.filter(pred)[j] == s.last());
                assert(s[s.len() - 1] == s.last());
            }
        }
    }
}

/// An intersection of a short placeholder-less list with anything is again
/// short and placeholder-less.
proof fn lemma_inter_wf(t1: Seq<TypeV>, t2: Seq<TypeV>)
    requires
        t1.len() <= 4,
        !cand_contains(t1, TypeV::Any),
    ensures
        cand_inter(t1, t2).len() <= t1.len(),
        cand_inter(t1, t2).len() <= 4,
        !cand_contains(cand_inter(t1, t2), TypeV::Any),
{
    broadcast use vstd::seq_lib::group_filter_ensures;

    let pred = |t: TypeV| cand_contains(t2, t);
    assert(t1.filter(pred).len() <= t1.len());
    lemma_filter_from(t1, pred);
    if cand_contains(cand_inter(t1, t2), TypeV::Any) {
        let j = choose|j: int| 0 <= j < cand_inter(t1, t2).len()
            && cand_inter(t1, t2)[j] == TypeV::Any;
        assert(cand_contains(t1, t1.filter(pred)[j]));
    }
}

/// After `set_types` with a list that keeps the placeholder rule and the
/// length bound, the state is still well-formed.
proof fn lemma_wf_after_set(s: Seq<(Id, TypeVarV)>, k: Id, types: Seq<TypeV>)
    requires
        wf_tvs(s),
        contains_key_from(s, 0, k),
        cand_contains(types, TypeV::Any) ==> types == seq![TypeV::Any],
        types.len() <= 4,
    ensures
        wf_tvs(set_types(s, k, types)),
        any_free(s) && !cand_contains(types, TypeV::Any) ==> any_free(set_types(s, k, types)),
{
    lemma_set_types(s, k, types);
    let s2 = set_types(s, k, types);
    let i = key_index(s, k);
    assert(0 <= i < s.len() && s[i].0 == k);
    assert forall|j: int| 0 <= j < s2.len() implies {
        let ts = (#[trigger] s2[j]).1.types;
        &&& (cand_contains(ts, TypeV::Any) ==> ts == seq![TypeV::Any])
        &&& ts.len() <= 4
    } by {
        if j != i {
            assert(s2[j] == s[j]);
        } else {
            assert(s2[j].1.types == types);
        }
    }
    if any_free(s) && !cand_contains(types, TypeV::Any) {
        assert forall|j: int| 0 <= j < s2.len()
            implies !cand_contains((#[trigger] s2[j]).1.types, TypeV::Any) by {
            if j != i {
                assert(s2[j] == s[j]);
            }
        }
    }
}

/// The solver state held by a type-variable store.
pub open spec fn state_of(store: TypeVarStore) -> Seq<(Id, TypeVarV)> {
    tvs_of(store.kvs())
}

/// The solver state mirrors the store entry for entry: same keys, same
/// indices, same lookups.
proof fn lemma_state_keys(kvs: Seq<(Id, TypeVar)>, k: Id)
    requires
        distinct_keys(kvs),
    ensures
        distinct_keys(tvs_of(kvs)),
        contains_key_from(tvs_of(kvs), 0, k) <==> contains_key_from(kvs, 0, k),
        contains_key_from(kvs, 0, k) ==> key_index(tvs_of(kvs), k) == key_index(kvs, k)
            && tv_at(tvs_of(kvs), k) == kvs[key_index(kvs, k)].1@,
{
    lemma_tvs_of(kvs);
    let s = tvs_of(kvs);
    assert(distinct_keys(s)) by {
        assert forall|i: int, j: int| 0 <= i < j < s.len()
            implies (#[trigger] s[i]).0 != (#[trigger] s[j]).0 by {
            assert(s[i].0 == kvs[i].0 && s[j].0 == kvs[j].0);
        }
    }
    if contains_key_from(s, 0, k) {
        let i = choose|i: int| 0 <= i < s.len() && (#[trigger] s[i]).0 == k;
        assert((#[trigger] kvs[i]).0 == k);
    }
    if contains_key_from(kvs, 0, k) {
        let i = choose|i: int| 0 <= i < kvs.len() && (#[trigger] kvs[i]).0 == k;
        assert((#[trigger] s[i]).0 == k);
        lemma_key_index(kvs, i);
        lemma_key_index(s, i);
    }
}

/// A store's `contains_id` is containment in its entry sequence.
proof fn lemma_contains_bridge(store: TypeVarStore, k: Id)
    ensures
        store.contains_id(k) <==> contains_key_from(store.kvs(), 0, k),
{
    if store.contains_id(k) {
        let i = choose|i: int| 0 <= i < store.kvs().len() && (#[trigger] store.kvs()[i]).0 == k;
        assert(contains_key_from(store.kvs(), 0, k));
    }
    if contains_key_from(store.kvs(), 0, k) {
        let i = choose|i: int| 0 <= i < store.kvs().len() && (#[trigger] store.kvs()[i]).0 == k;
        assert(store.contains_id(k));
    }
}

/// Replaces the candidate list of the type variable `id`, keeping its
/// location.
fn set_tv_types(store: &mut TypeVarStore, id: TypeVarId, loc: Location, types: Vec<Type>)
    requires
        old(store).wf(),
        contains_key_from(state_of(*old(store)), 0, id.id_spec()),
        loc == tv_at(state_of(*old(store)), id.id_spec()).loc,
    ensures
        final(store).wf(),
        final(store).mod_id_spec() == old(store).mod_id_spec(),
        final(store).counter_spec() == old(store).counter_spec(),
        final(store).merged() == old(store).merged(),
        state_of(*final(store)) == set_types(
            state_of(*old(store)),
            id.id_spec(),
            views_of(types@),
        ),
{
    let ghost kvs0 = store.kvs();
    let ghost s0 = state_of(*old(store));
    let ghost k = id.id_spec();
    proof {
        lemma_state_keys(kvs0, k);
        lemma_contains_bridge(*store, k);
    }
    let item = TypeVar { loc, types };
    let ghost itemv = item@;
    let r = store.replace(id, item);
    proof {
        assert(r is Some);
        let i = key_index(kvs0, k);
        assert(store.kvs() == kvs0.update(i, (k, item)));
        lemma_tvs_of(kvs0);
        lemma_tvs_of(store.kvs());
        assert(state_of(*store) =~= s0.update(i, (k, itemv))) by {
            assert forall|j: int| 0 <= j < kvs0.len()
                implies state_of(*store)[j] == s0.update(i, (k, itemv))[j] by {
                if j != i {
                    assert(kvs0.update(i, (k, item))[j] == kvs0[j]);
                } else {
                    assert(kvs0.update(i, (k, item))[j] == (k, item));
                }
            }
        }
        assert(key_index(s0, k) == i);
        assert(tv_at(s0, k) == kvs0[i].1@);
        assert(itemv == (TypeVarV { loc: tv_at(s0, k).loc, types: views_of(types@) }));
    }
}

/// The intersection of two candidate lists, in the first list's order.
fn intersect(a: &Vec<Type>, b: &Vec<Type>) -> (r: Vec<Type>)
    ensures
        views_of(r@) == cand_inter(views_of(a@), views_of(b@)),
{
    let mut out: Vec<Type> = Vec::new();
    let n = a.len();
    let mut i: usize = 0;
    proof {
        assert(a@.take(0) =~= Seq::<Type>::empty());
        assert(views_of(out@) =~= cand_inter(views_of(a@.take(0)), views_of(b@)));
    }
    while i < n
        invariant
            i <= n,
            n == a@.len(),
            views_of(out@) == cand_inter(views_of(a@.take(i as int)), views_of(b@)),
        decreases n - i,
    {
        let ghost out0 = out@;
        let keep = crate::types::contains_type(b, &a[i]);
        if keep {
            out.push(a[i].duplicate());
        }
        proof {
            let pred = |t: TypeV| cand_contains(views_of(b@), t);
            let p0 = views_of(a@.take(i as int));
            let p1 = views_of(a@.take(i + 1));
            assert(a@.take(i + 1).drop_last() =~= a@.take(i as int));
            assert(a@.take(i + 1).last() == a@[i as int]);
            assert(p1 == p0.push(a@[i as int]@));
            assert(p1.drop_last() =~= p0);
            assert(p1.last() == a@[i as int]@);
            reveal(Seq::filter);
            assert(p1.filter(pred) == if pred(a@[i as int]@) {
                p0.filter(pred).push(a@[i as int]@)
            } else {
                p0.filter(pred)
            });
            if keep {
                assert(views_of(out@) =~= views_of(out0).push(a@[i as int]@)) by {
                    assert(out@.drop_last() =~= out0);
                }
            }
            assert(views_of(out@) == cand_inter(views_of(a@.take(i + 1)), views_of(b@)));
        }
        i = i + 1;
    }
    proof {
        assert(a@.take(n as int) =~= a@);
    }
    out
}

/// A partial sweep keeps the state well-formed, never increases its weight,
/// shrinks it strictly when it reports progress, and leaves the state
/// untouched when it does not. On a placeholder-free state it never
/// increases the total number of candidates.
pub proof fn lemma_sweep_prefix(cs: Seq<TypeConstraint>, s: Seq<(Id, TypeVarV)>, n: int)
    requires
        wf_tvs(s),
    ensures
        ({
            let (s2, p) = sweep_prefix(cs, s, n);
            &&& wf_tvs(s2)
            &&& state_weight(s2) <= state_weight(s)
            &&& (p ==> state_weight(s2) < state_weight(s))
            &&& (!p ==> s2 == s)
            &&& (any_free(s) ==> any_free(s2) && cand_count(s2) <= cand_count(s))
        }),
    decreases n,
{
    if n > 0 {
        lemma_sweep_prefix(cs, s, n - 1);
        let prev = sweep_prefix(cs, s, n - 1);
        lemma_constr_apply(cs[n - 1], prev.0);
    }
}

/// For every sweep that made no progress, the state is unchanged and one
/// more sweep still makes no progress: the solver is at a fixed point.
pub proof fn lemma_fixed_point(cs: Seq<TypeConstraint>, s: Seq<(Id, TypeVarV)>)
    requires
        wf_tvs(s),
        sweep(cs, s).1 == false,
    ensures
        sweep(cs, s).0 == s,
        sweep(cs, sweep(cs, s).0).1 == false,
{
    lemma_sweep_prefix(cs, s, cs.len() as int);
}

/// Candidate-count monovariance: on a state in which no candidate list
/// still holds the placeholder, a sweep never increases the total number of
/// candidates over all type variables, and introduces no placeholder.
pub proof fn lemma_candidate_monovariance(cs: Seq<TypeConstraint>, s: Seq<(Id, TypeVarV)>)
    requires
        wf_tvs(s),
        any_free(s),
    ensures
        cand_count(sweep(cs, s).0) <= cand_count(s),
        any_free(sweep(cs, s).0),
        wf_tvs(sweep(cs, s).0),
{
    lemma_sweep_prefix(cs, s, cs.len() as int);
}

/// One sequence is the beginning of another, and extending the longer one
/// keeps that.
pub proof fn lemma_prefix_trans<A>(a: Seq<A>, b: Seq<A>, c: Seq<A>)
    requires
        a.is_prefix_of(b),
        b.is_prefix_of(c),
    ensures
        a.is_prefix_of(c),
{
    assert(c.subrange(0, a.len() as int) =~= b.subrange(0, a.len() as int)) by {
        assert forall|i: int| 0 <= i < a.len()
            implies c.subrange(0, a.len() as int)[i] == b.subrange(0, a.len() as int)[i] by {
            assert(b[i] == b.subrange(0, b.len() as int)[i]);
            assert(c.subrange(0, b.len() as int)[i] == c[i]);
        }
    }
    assert(b.subrange(0, a.len() as int) =~= a) by {
        assert forall|i: int| 0 <= i < a.len()
            implies b.subrange(0, a.len() as int)[i] == a[i] by {
            assert(b.subrange(0, b.len() as int)[i] == b[i]);
        }
    }
}

/// One new element is an append of its singleton.
pub proof fn lemma_push_as_append<A>(a: Seq<A>, d: A)
    ensures
        a.push(d) == a + seq![d],
        a.is_prefix_of(a.push(d)),
{
    assert(a.push(d) =~= a + seq![d]);
    assert(a.push(d).subrange(0, a.len() as int) =~= a);
}

/// Appending nothing changes nothing.
pub proof fn lemma_append_empty<A>(a: Seq<A>)
    ensures
        a == a + Seq::<A>::empty(),
        a.is_prefix_of(a),
{
    assert(a + Seq::<A>::empty() =~= a);
    assert(a.subrange(0, a.len() as int) =~= a);
}

/// The state reachable from `s0` by whole sweeps on which one more sweep
/// makes no progress: where the solver stops.
pub open spec fn reaches_fixed(
    cs: Seq<TypeConstraint>,
    s0: Seq<(Id, TypeVarV)>,
    s: Seq<(Id, TypeVarV)>,
) -> bool {
    &&& exists|n: nat| s == sweep_n(cs, s0, n)
    &&& sweep(cs, s).1 == false
}

/// One exported declaration stands for one public function: the same
/// spelling, the same function id, and the function's resolved signature.
pub open spec fn pub_decl_for(
    entry: (String, Declaration),
    f: crate::hir::Function,
    names: crate::hir::NameStore,
    types: crate::types::TypeStore,
) -> bool {
    &&& f.is_pub
    &&& entry.0@ == f.ident@
    &&& entry.1.fun_id == f.fun_id
    &&& entry.1.is_pub
    &&& entry.1.kind is Function
    &&& names.contains_id(f.n_id.id_spec())
    &&& types.contains_id(names.spec_get(f.n_id.id_spec()).t_id.id_spec())
    &&& entry.1.t@ == types.spec_get(names.spec_get(f.n_id.id_spec()).t_id.id_spec())@
}

/// Every public function whose name and signature resolved has an exported
/// entry under its own identifier.
pub open spec fn decls_complete(
    decls: Seq<(String, Declaration)>,
    funs: Seq<crate::hir::Function>,
    names: crate::hir::NameStore,
    types: crate::types::TypeStore,
) -> bool {
    forall|j: int| 0 <= j < funs.len() && (#[trigger] funs[j]).is_pub
        && names.contains_id(funs[j].n_id.id_spec())
        && types.contains_id(names.spec_get(funs[j].n_id.id_spec()).t_id.id_spec())
        ==> exists|e: int| 0 <= e < decls.len()
            && (#[trigger] decls[e]).1.fun_id == funs[j].fun_id
            && decls[e].0@ == funs[j].ident@
}

/// Every exported declaration stands for some public function of the list.
pub open spec fn decls_ok(
    decls: Seq<(String, Declaration)>,
    funs: Seq<crate::hir::Function>,
    names: crate::hir::NameStore,
    types: crate::types::TypeStore,
) -> bool {
    forall|e: int| 0 <= e < decls.len() ==> exists|j: int|
        0 <= j < funs.len() && pub_decl_for(#[trigger] decls[e], #[trigger] funs[j], names, types)
}

/// Exporting the entry for the function at index `i` keeps the export list
/// complete one function further.
proof fn lemma_decls_complete_step(
    decls0: Seq<(String, Declaration)>,
    decls1: Seq<(String, Declaration)>,
    funs: Seq<crate::hir::Function>,
    names: crate::hir::NameStore,
    types: crate::types::TypeStore,
    i: int,
)
    requires
        0 <= i < funs.len(),
        decls_complete(decls0, funs.take(i), names, types),
        decls1.len() == decls0.len() + 1,
        decls1.drop_last() == decls0,
        decls1.last().1.fun_id == funs[i].fun_id,
        decls1.last().0@ == funs[i].ident@,
    ensures
        decls_complete(decls1, funs.take(i + 1), names, types),
{
    let pre = funs.take(i);
    let now = funs.take(i + 1);
    assert forall|j: int| 0 <= j < now.len() && (#[trigger] now[j]).is_pub
        && names.contains_id(now[j].n_id.id_spec())
        && types.contains_id(names.spec_get(now[j].n_id.id_spec()).t_id.id_spec())
        implies exists|e: int| 0 <= e < decls1.len()
            && (#[trigger] decls1[e]).1.fun_id == now[j].fun_id
            && decls1[e].0@ == now[j].ident@ by {
        assert(now[j] == funs[j]);
        if j < i {
            assert(pre[j] == funs[j]);
            let e = choose|e: int| 0 <= e < decls0.len()
                && (#[trigger] decls0[e]).1.fun_id == pre[j].fun_id
                && decls0[e].0@ == pre[j].ident@;
            assert((#[trigger] decls1[e]) == decls0[e]);
        } else {
            assert((#[trigger] decls1[decls1.len() - 1]) == decls1.last());
        }
    }
}

/// Skipping a function that is private, unbound or unresolved keeps the
/// export list complete one function further.
proof fn lemma_decls_complete_skip(
    decls: Seq<(String, Declaration)>,
    funs: Seq<crate::hir::Function>,
    names: crate::hir::NameStore,
    types: crate::types::TypeStore,
    i: int,
)
    requires
        0 <= i < funs.len(),
        decls_complete(decls, funs.take(i), names, types),
        !funs[i].is_pub || !names.contains_id(funs[i].n_id.id_spec())
            || !types.contains_id(names.spec_get(funs[i].n_id.id_spec()).t_id.id_spec()),
    ensures
        decls_complete(decls, funs.take(i + 1), names, types),
{
    let pre = funs.take(i);
    let now = funs.take(i + 1);
    assert forall|j: int| 0 <= j < now.len() && (#[trigger] now[j]).is_pub
        && names.contains_id(now[j].n_id.id_spec())
        && types.contains_id(names.spec_get(now[j].n_id.id_spec()).t_id.id_spec())
        implies exists|e: int| 0 <= e < decls.len()
            && (#[trigger] decls[e]).1.fun_id == now[j].fun_id
            && decls[e].0@ == now[j].ident@ by {
        assert(now[j] == funs[j]);
        assert(j < i);
        assert(pre[j] == funs[j]);
        let e = choose|e: int| 0 <= e < decls.len()
            && (#[trigger] decls[e]).1.fun_id == pre[j].fun_id
            && decls[e].0@ == pre[j].ident@;
        assert((#[trigger] decls[e]).1.fun_id == now[j].fun_id);
    }
}

/// The concrete type a finished type variable defaults to, if any.
fn default_type(tv: &TypeVar) -> (rr: Option<Type>)
    ensures
        match rr {
            Some(t) => default_of(tv@.types) == Some(t@),
            None => default_of(tv@.types) is None,
        },
{
    if tv.types.len() == 1 {
        let t = tv.types[0].duplicate();
        proof {
            crate::types::lemma_views_of(tv.types@);
            assert(t@ == views_of(tv.types@)[0]);
            assert(default_of(tv@.types) == Some(t@));
        }
        Some(t)
    } else if is_integer_set(&tv.types) {
        proof {
            assert(default_of(tv@.types) == Some(TypeV::I64));
        }
        Some(Type::I64)
    } else {
        proof {
            crate::types::lemma_views_of(tv.types@);
            assert(default_of(tv@.types) is None);
        }
        None
    }
}

/// True exactly when the list is the canonical integer candidate list.
fn is_integer_set(v: &Vec<Type>) -> (r: bool)
    ensures
        r == (views_of(v@) == integer_cands()),
{
    proof {
        crate::types::lemma_views_of(v@);
    }
    if v.len() != 2 {
        proof {
            assert(views_of(v@).len() != 2);
        }
        return false;
    }
    let a = v[0].type_eq(&Type::I32);
    let b = v[1].type_eq(&Type::I64);
    proof {
        if a && b {
            assert(views_of(v@) =~= integer_cands());
        } else {
            assert(views_of(v@) != integer_cands()) by {
                if views_of(v@) == integer_cands() {
                    assert(views_of(v@)[0] == TypeV::I32 && views_of(v@)[1] == TypeV::I64);
                }
            }
        }
    }
    a && b
}

/// The constraint solver, owning the error sink it reports to.
pub struct TypeChecker {
    pub error_handler: ErrorHandler,
}

impl TypeChecker {
    /// Creates a checker with an empty error sink.
    pub fn new() -> (r: TypeChecker)
        ensures
            r.error_handler.diags() == Seq::<crate::error::Diagnostic>::empty(),
    {
        TypeChecker { error_handler: ErrorHandler::new() }
    }

    /// Applies an equality constraint: both candidate lists become their
    /// intersection; a lone placeholder takes the other list. Returns true
    /// exactly when a list shrank.
    fn constr_equality(
        &mut self,
        t_id_1: TypeVarId,
        t_id_2: TypeVarId,
        loc: Location,
        store: &mut TypeVarStore,
    ) -> (progress: bool)
        requires
            old(store).wf(),
        ensures
            final(store).wf(),
            final(store).mod_id_spec() == old(store).mod_id_spec(),
            final(store).counter_spec() == old(store).counter_spec(),
            final(store).merged() == old(store).merged(),
            (state_of(*final(store)), progress) == eq_apply(
                state_of(*old(store)),
                t_id_1.id_spec(),
                t_id_2.id_spec(),
            ),
            final(self).error_handler.dv() == old(self).error_handler.dv() + eq_diags(
                state_of(*old(store)),
                t_id_1.id_spec(),
                t_id_2.id_spec(),
                loc,
            ),
            old(self).error_handler.diags().is_prefix_of(final(self).error_handler.diags()),
    {
        let ghost s0 = state_of(*old(store));
        let ghost ka = t_id_1.id_spec();
        let ghost kb = t_id_2.id_spec();
        proof {
            lemma_state_keys(store.kvs(), ka);
            lemma_state_keys(store.kvs(), kb);
            lemma_contains_bridge(*store, ka);
            lemma_contains_bridge(*store, kb);
            crate::types::lemma_views_of(Seq::<Type>::empty());
        }
        let ghost dv0 = self.error_handler.dv();
        let tv1 = match store.get(t_id_1) {
            Some(t) => t,
            None => {
                self.error_handler.report_internal_no_loc(
                    String::from_str("Equality constraint on an unknown type variable"),
                );
                proof {
                    lemma_push_as_append(dv0, self.error_handler.dv().last());
                }
                return false;
            },
        };
        let tv2 = match store.get(t_id_2) {
            Some(t) => t,
            None => {
                self.error_handler.report_internal_no_loc(
                    String::from_str("Equality constraint on an unknown type variable"),
                );
                proof {
                    lemma_push_as_append(dv0, self.error_handler.dv().last());
                }
                return false;
            },
        };
        proof {
            assert(tv1@ == tv_at(s0, ka));
            assert(tv2@ == tv_at(s0, kb));
            crate::types::lemma_views_of(tv1.types@);
            crate::types::lemma_views_of(tv2.types@);
        }
        let any1 = tv1.types.len() > 0 && matches!(tv1.types[0], Type::Any);
        let any2 = tv2.types.len() > 0 && matches!(tv2.types[0], Type::Any);
        proof {
            assert(any1 == (tv_at(s0, ka).types.len() > 0
                && tv_at(s0, ka).types[0] == TypeV::Any));
            assert(any2 == (tv_at(s0, kb).types.len() > 0
                && tv_at(s0, kb).types[0] == TypeV::Any));
        }
        if any1 {
            if any2 {
                proof {
                    lemma_append_empty(dv0);
                }
                return false;
            }
            let newlist = Type::duplicate_list(&tv2.types);
            let tv_loc = tv1.loc;
            proof {
                assert(views_of(newlist@) == tv_at(s0, kb).types);
                assert(eq_apply(s0, ka, kb) == (set_types(s0, ka, tv_at(s0, kb).types), true));
            }
            set_tv_types(store, t_id_1, tv_loc, newlist);
            proof {
                assert(state_of(*store) == set_types(s0, ka, tv_at(s0, kb).types));
                lemma_append_empty(dv0);
            }
            return true;
        } else if any2 {
            let newlist = Type::duplicate_list(&tv1.types);
            let tv_loc = tv2.loc;
            proof {
                assert(views_of(newlist@) == tv_at(s0, ka).types);
                assert(eq_apply(s0, ka, kb) == (set_types(s0, kb, tv_at(s0, ka).types), true));
            }
            set_tv_types(store, t_id_2, tv_loc, newlist);
            proof {
                assert(state_of(*store) == set_types(s0, kb, tv_at(s0, ka).types));
                lemma_append_empty(dv0);
            }
            return true;
        }
        if tv1.types.len() == 0 || tv2.types.len() == 0 {
            let tv_loc = tv1.loc;
            self.error_handler.report(
                tv_loc,
                String::from_str("Could not infer a type satisfying constraints"),
            );
            proof {
                lemma_push_as_append(dv0, self.error_handler.dv().last());
            }
            return false;
        }
        let inter1 = intersect(&tv1.types, &tv2.types);
        let inter2 = intersect(&tv2.types, &tv1.types);
        proof {
            crate::types::lemma_views_of(inter1@);
            crate::types::lemma_views_of(inter2@);
            assert(views_of(inter1@) == cand_inter(tv_at(s0, ka).types, tv_at(s0, kb).types));
            assert(views_of(inter2@) == cand_inter(tv_at(s0, kb).types, tv_at(s0, ka).types));
        }
        let progress = inter1.len() < tv1.types.len() || inter2.len() < tv2.types.len();
        proof {
            assert(progress == (cand_inter(tv_at(s0, ka).types, tv_at(s0, kb).types).len()
                < tv_at(s0, ka).types.len()
                || cand_inter(tv_at(s0, kb).types, tv_at(s0, ka).types).len()
                    < tv_at(s0, kb).types.len()));
        }
        if inter1.len() == 0 {
            self.error_handler.report(
                loc,
                String::from_str("Unsatisfiable type constraint"),
            );
            proof {
                lemma_push_as_append(dv0, self.error_handler.dv().last());
            }
        } else {
            proof {
                lemma_append_empty(dv0);
            }
        }
        if progress {
            let loc1 = tv1.loc;
            let loc2 = tv2.loc;
            let ghost s1 = set_types(s0, ka, views_of(inter1@));
            set_tv_types(store, t_id_1, loc1, inter1);
            proof {
                lemma_set_types(s0, ka, views_of(inter1@));
                if ka == kb {
                    assert(tv_at(s1, kb).loc == loc2);
                } else {
                    assert(tv_at(s1, kb) == tv_at(s0, kb));
                }
            }
            set_tv_types(store, t_id_2, loc2, inter2);
            proof {
                assert(state_of(*store) == set_types(s1, kb, views_of(inter2@)));
            }
            return true;
        }
        false
    }

    /// Applies an inclusion constraint: the first candidate list is narrowed
    /// to its intersection with the second, which stays untouched. Returns
    /// true exactly when the first list shrank.
    fn constr_included(
        &mut self,
        t_id_1: TypeVarId,
        t_id_2: TypeVarId,
        store: &mut TypeVarStore,
    ) -> (progress: bool)
        requires
            old(store).wf(),
        ensures
            final(store).wf(),
            final(store).mod_id_spec() == old(store).mod_id_spec(),
            final(store).counter_spec() == old(store).counter_spec(),
            final(store).merged() == old(store).merged(),
            (state_of(*final(store)), progress) == incl_apply(
                state_of(*old(store)),
                t_id_1.id_spec(),
                t_id_2.id_spec(),
            ),
            final(self).error_handler.dv() == old(self).error_handler.dv() + incl_diags(
                state_of(*old(store)),
                t_id_1.id_spec(),
                t_id_2.id_spec(),
            ),
            old(self).error_handler.diags().is_prefix_of(final(self).error_handler.diags()),
    {
        let ghost s0 = state_of(*old(store));
        let ghost ka = t_id_1.id_spec();
        let ghost kb = t_id_2.id_spec();
        let ghost dv0 = self.error_handler.dv();
        proof {
            lemma_state_keys(store.kvs(), ka);
            lemma_state_keys(store.kvs(), kb);
            lemma_contains_bridge(*store, ka);
            lemma_contains_bridge(*store, kb);
            lemma_append_empty(dv0);
        }
        let tv1 = match store.get(t_id_1) {
            Some(t) => t,
            None => {
                self.error_handler.report_internal_no_loc(
                    String::from_str("Inclusion constraint on an unknown type variable"),
                );
                proof {
                    lemma_push_as_append(dv0, self.error_handler.dv().last());
                }
                return false;
            },
        };
        let tv2 = match store.get(t_id_2) {
            Some(t) => t,
            None => {
                self.error_handler.report_internal_no_loc(
                    String::from_str("Inclusion constraint on an unknown type variable"),
                );
                proof {
                    lemma_push_as_append(dv0, self.error_handler.dv().last());
                }
                return false;
            },
        };
        proof {
            assert(tv1@ == tv_at(s0, ka));
            assert(tv2@ == tv_at(s0, kb));
            crate::types::lemma_views_of(tv1.types@);
            crate::types::lemma_views_of(tv2.types@);
        }
        let any1 = tv1.types.len() > 0 && matches!(tv1.types[0], Type::Any);
        let any2 = tv2.types.len() > 0 && matches!(tv2.types[0], Type::Any);
        if any1 {
            if any2 {
                proof {
                    lemma_append_empty(dv0);
                }
                return false;
            }
            let newlist = Type::duplicate_list(&tv2.types);
            let loc = tv1.loc;
            set_tv_types(store, t_id_1, loc, newlist);
            return true;
        }
        let inter1 = intersect(&tv1.types, &tv2.types);
        proof {
            crate::types::lemma_views_of(inter1@);
            assert(views_of(inter1@) == cand_inter(tv_at(s0, ka).types, tv_at(s0, kb).types));
        }
        if inter1.len() < tv1.types.len() {
            let loc = tv1.loc;
            set_tv_types(store, t_id_1, loc, inter1);
            return true;
        }
        false
    }

    /// Applies a return constraint: the function side must be a resolved
    /// function type with exactly one return type; the value side is
    /// narrowed to that type. Returns true exactly when it shrank.
    fn constr_return(
        &mut self,
        t_id_fun: TypeVarId,
        t_id: TypeVarId,
        store: &mut TypeVarStore,
    ) -> (progress: bool)
        requires
            old(store).wf(),
        ensures
            final(store).wf(),
            final(store).mod_id_spec() == old(store).mod_id_spec(),
            final(store).counter_spec() == old(store).counter_spec(),
            final(store).merged() == old(store).merged(),
            (state_of(*final(store)), progress) == ret_apply(
                state_of(*old(store)),
                t_id_fun.id_spec(),
                t_id.id_spec(),
            ),
            final(self).error_handler.dv() == old(self).error_handler.dv() + ret_diags(
                state_of(*old(store)),
                t_id_fun.id_spec(),
                t_id.id_spec(),
            ),
            old(self).error_handler.diags().is_prefix_of(final(self).error_handler.diags()),
    {
        let ghost s0 = state_of(*old(store));
        let ghost kf = t_id_fun.id_spec();
        let ghost kr = t_id.id_spec();
        let ghost dv0 = self.error_handler.dv();
        proof {
            lemma_state_keys(store.kvs(), kf);
            lemma_state_keys(store.kvs(), kr);
            lemma_contains_bridge(*store, kf);
            lemma_contains_bridge(*store, kr);
            lemma_append_empty(dv0);
        }
        let tv_fun = match store.get(t_id_fun) {
            Some(t) => t,
            None => {
                self.error_handler.report_internal_no_loc(
                    String::from_str("Return constraint on an unknown type variable"),
                );
                proof {
                    lemma_push_as_append(dv0, self.error_handler.dv().last());
                }
                return false;
            },
        };
        let tv_ret = match store.get(t_id) {
            Some(t) => t,
            None => {
                self.error_handler.report_internal_no_loc(
                    String::from_str("Return constraint on an unknown type variable"),
                );
                proof {
                    lemma_push_as_append(dv0, self.error_handler.dv().last());
                }
                return false;
            },
        };
        proof {
            assert(tv_fun@ == tv_at(s0, kf));
            assert(tv_ret@ == tv_at(s0, kr));
            crate::types::lemma_views_of(tv_fun.types@);
            crate::types::lemma_views_of(tv_ret.types@);
        }
        if tv_fun.types.len() != 1 {
            let loc = tv_fun.loc;
            self.error_handler.report_internal(
                loc,
                String::from_str("Return type constraint with ambiguous fun type"),
            );
            proof {
                lemma_push_as_append(dv0, self.error_handler.dv().last());
            }
            return false;
        }
        match &tv_fun.types[0] {
            Type::Fun(params, rets) => {
                proof {
                    crate::types::lemma_views_of(rets@);
                    assert(tv_at(s0, kf).types[0] == TypeV::Fun(
                        views_of(params@),
                        views_of(rets@),
                    ));
                }
                if rets.len() != 1 {
                    let loc = tv_fun.loc;
                    self.error_handler.report_internal(
                        loc,
                        String::from_str("Function returning multiple values are not yet supported"),
                    );
                    proof {
                        lemma_push_as_append(dv0, self.error_handler.dv().last());
                    }
                    return false;
                }
                let rt = &rets[0];
                proof {
                    assert(rt@ == tv_at(s0, kf).types[0]->Fun_1[0]);
                }
                if crate::types::contains_type(&tv_ret.types, rt) {
                    if tv_ret.types.len() > 1 {
                        let mut newlist: Vec<Type> = Vec::new();
                        newlist.push(rt.duplicate());
                        let loc = tv_ret.loc;
                        proof {
                            crate::types::lemma_views_of(newlist@);
                            assert(views_of(newlist@) =~= seq![rt@]);
                        }
                        set_tv_types(store, t_id, loc, newlist);
                        return true;
                    }
                    return false;
                }
                let loc = tv_ret.loc;
                self.error_handler.report(
                    loc,
                    String::from_str("Return value has wrong type"),
                );
                proof {
                    lemma_push_as_append(dv0, self.error_handler.dv().last());
                }
                false
            },
            _ => {
                let loc = tv_fun.loc;
                self.error_handler.report_internal(
                    loc,
                    String::from_str("Return type constraint used on a non function type"),
                );
                proof {
                    lemma_push_as_append(dv0, self.error_handler.dv().last());
                }
                false
            },
        }
    }

    /// Runs the solver to a fixed point, then defaults what is left and
    /// builds the store of resolved types, with the same identifiers the
    /// type-variable store used. Functions, names and the counter are
    /// carried through unchanged.
    #[verifier::rlimit(100)]
    #[verifier::spinoff_prover]
    pub fn check(&mut self, prog: ResolvedProgram) -> (r: TypedProgram)
        requires
            prog.types.wf(),
            prog.names.wf(),
            wf_tvs(state_of(prog.types)),
        ensures
            r.funs == prog.funs,
            r.names == prog.names,
            r.types.wf(),
            r.types.mod_id_spec() == prog.types.mod_id_spec(),
            r.types.counter_spec() == prog.types.counter_spec(),
            exists|fixed: Seq<(Id, TypeVarV)>|
                {
                    &&& #[trigger] reaches_fixed(prog.constraints@, state_of(prog.types), fixed)
                    &&& forall|k: Id| r.types.contains_id(k) <==> (contains_key_from(fixed, 0, k)
                        && default_of(tv_at(fixed, k).types) is Some)
                    &&& forall|k: Id| #[trigger] r.types.contains_id(k)
                        ==> Some(r.types.spec_get(k)@) == default_of(tv_at(fixed, k).types)
                },
            decls_ok(r.pub_decls@, prog.funs@, prog.names, r.types),
            decls_complete(r.pub_decls@, prog.funs@, prog.names, r.types),
            exists|n: nat|
                {
                    &&& sweep(
                        prog.constraints@,
                        #[trigger] sweep_n(prog.constraints@, state_of(prog.types), n),
                    ).1 == false
                    &&& final(self).error_handler.dv() == old(self).error_handler.dv()
                        + solve_diags(prog.constraints@, state_of(prog.types), n)
                        + defaulting_diags(sweep_n(prog.constraints@, state_of(prog.types), n))
                        + export_diags(prog.funs@, prog.names, r.types)
                },
            old(self).error_handler.diags().is_prefix_of(final(self).error_handler.diags()),
    {
        let ResolvedProgram { funs, names, types, constraints } = prog;
        let mut type_vars = types;
        let ghost s_init = state_of(type_vars);
        let ghost cs = constraints@;
        let ghost mut iters: nat = 0nat;
        let ghost err0 = self.error_handler.diags();
        let ghost dv0 = self.error_handler.dv();
        let mut making_progress = true;
        proof {
            assert(state_of(type_vars) == sweep_n(cs, s_init, 0nat));
            assert(self.error_handler.dv() =~= dv0 + solve_diags(cs, s_init, 0nat));
        }
        while making_progress
            invariant
                type_vars.wf(),
                wf_tvs(state_of(type_vars)),
                type_vars.mod_id_spec() == prog.types.mod_id_spec(),
                type_vars.counter_spec() == prog.types.counter_spec(),
                constraints@ == cs,
                state_of(type_vars) == sweep_n(cs, s_init, iters),
                !making_progress ==> sweep(cs, state_of(type_vars)).1 == false,
                err0.is_prefix_of(self.error_handler.diags()),
                self.error_handler.dv() == dv0 + solve_diags(cs, s_init, iters),
            decreases state_weight(state_of(type_vars)) + (if making_progress {
                1nat
            } else {
                0nat
            }),
        {
            let ghost s_start = state_of(type_vars);
            let ghost dv_sweep = self.error_handler.dv();
            making_progress = false;
            let n = constraints.len();
            let mut i: usize = 0;
            proof {
                assert(sweep_prefix(cs, s_start, 0) == (s_start, false));
                assert(self.error_handler.dv() =~= dv_sweep + sweep_prefix_diags(
                    cs,
                    s_start,
                    0,
                ));
            }
            while i < n
                invariant
                    i <= n,
                    n == cs.len(),
                    constraints@ == cs,
                    type_vars.wf(),
                    wf_tvs(s_start),
                    type_vars.mod_id_spec() == prog.types.mod_id_spec(),
                    type_vars.counter_spec() == prog.types.counter_spec(),
                    (state_of(type_vars), making_progress) == sweep_prefix(
                        cs,
                        s_start,
                        i as int,
                    ),
                    err0.is_prefix_of(self.error_handler.diags()),
                    self.error_handler.dv() == dv_sweep + sweep_prefix_diags(
                        cs,
                        s_start,
                        i as int,
                    ),
                decreases n - i,
            {
                let ghost e_before = self.error_handler.diags();
                let ghost dv_before = self.error_handler.dv();
                let c = constraints[i];
                let progress = self.apply_constr(&c, &mut type_vars);
                making_progress = progress || making_progress;
                proof {
                    lemma_prefix_trans(err0, e_before, self.error_handler.diags());
                    assert(self.error_handler.dv() =~= dv_sweep + sweep_prefix_diags(
                        cs,
                        s_start,
                        i as int + 1,
                    ));
                }
                i = i + 1;
            }
            proof {
                lemma_sweep_prefix(cs, s_start, cs.len() as int);
                assert(self.error_handler.dv() =~= dv0 + solve_diags(cs, s_init, iters)
                    + sweep_diags(cs, sweep_n(cs, s_init, iters)));
                iters = iters + 1;
                assert(state_of(type_vars) == sweep_n(cs, s_init, iters));
                assert(self.error_handler.dv() =~= dv0 + solve_diags(cs, s_init, iters));
            }
        }
        let ghost fixed = state_of(type_vars);
        proof {
            assert(reaches_fixed(cs, s_init, fixed));
        }
        let ghost e_mid = self.error_handler.diags();
        let store = self.build_store(type_vars);
        proof {
            lemma_prefix_trans(err0, e_mid, self.error_handler.diags());
        }
        let ghost e_mid2 = self.error_handler.diags();
        let ghost dv_exp = self.error_handler.dv();
        let mut pub_decls: Vec<(String, Declaration)> = Vec::new();
        let nfuns = funs.len();
        let mut i: usize = 0;
        proof {
            assert(funs@.take(0) =~= Seq::<crate::hir::Function>::empty());
            assert(self.error_handler.dv() =~= dv_exp + export_diags(
                funs@.take(0),
                names,
                store,
            ));
        }
        while i < nfuns
            invariant
                i <= nfuns,
                nfuns == funs@.len(),
                names.wf(),
                store.wf(),
                decls_ok(pub_decls@, funs@, names, store),
                decls_complete(pub_decls@, funs@.take(i as int), names, store),
                e_mid2.is_prefix_of(self.error_handler.diags()),
                self.error_handler.dv() == dv_exp + export_diags(
                    funs@.take(i as int),
                    names,
                    store,
                ),
            decreases nfuns - i,
        {
            let ghost e_before = self.error_handler.diags();
            let f = &funs[i];
            proof {
                assert(funs@.take(i as int + 1).drop_last() =~= funs@.take(i as int));
                assert(funs@.take(i as int + 1).last() == funs@[i as int]);
            }
            if f.is_pub {
                match names.get(f.n_id) {
                    Some(name) => {
                        match store.get(name.t_id) {
                            Some(t) => {
                                let ident = f.ident.clone();
                                let d = Declaration {
                                    kind: DeclKind::Function,
                                    is_pub: true,
                                    t: t.duplicate(),
                                    fun_id: f.fun_id,
                                };
                                let ghost entry_j = i as int;
                                let ghost decls0 = pub_decls@;
                                pub_decls.push((ident, d));
                                proof {
                                    assert(pub_decls@.drop_last() =~= decls0);
                                    assert(pub_decls@.last().1.fun_id
                                        == funs@[i as int].fun_id);
                                    assert(pub_decls@.last().0@ == funs@[i as int].ident@);
                                    lemma_decls_complete_step(
                                        decls0,
                                        pub_decls@,
                                        funs@,
                                        names,
                                        store,
                                        i as int,
                                    );
                                    assert(pub_decl_for(
                                        pub_decls@.last(),
                                        funs@[entry_j],
                                        names,
                                        store,
                                    ));
                                    assert forall|e: int| 0 <= e < pub_decls@.len()
                                        implies exists|j: int| 0 <= j < funs@.len()
                                            && pub_decl_for(
                                            #[trigger] pub_decls@[e],
                                            #[trigger] funs@[j],
                                            names,
                                            store,
                                        ) by {
                                        if e < decls0.len() {
                                            assert(pub_decls@[e] == decls0[e]);
                                            assert(exists|j: int| 0 <= j < funs@.len()
                                                && pub_decl_for(
                                                #[trigger] decls0[e],
                                                #[trigger] funs@[j],
                                                names,
                                                store,
                                            ));
                                            let j = choose|j: int| 0 <= j < funs@.len()
                                                && pub_decl_for(
                                                decls0[e],
                                                #[trigger] funs@[j],
                                                names,
                                                store,
                                            );
                                            assert(pub_decl_for(pub_decls@[e],
                                                (#[trigger] funs@[j]), names, store));
                                        } else {
                                            assert(pub_decls@[e] == pub_decls@.last());
                                            assert(pub_decl_for(
                                                pub_decls@[e],
                                                #[trigger] funs@[entry_j],
                                                names,
                                                store,
                                            ));
                                        }
                                    }
                                    assert(decls_ok(pub_decls@, funs@, names, store));
                                    assert(self.error_handler.dv() =~= dv_exp
                                        + export_diags(funs@.take(i as int + 1), names,
                                        store));
                                }
                            },
                            None => {
                                self.error_handler.report_internal_no_loc(
                                    String::from_str(
                                        "Public function without a resolved signature",
                                    ),
                                );
                                proof {
                                    lemma_decls_complete_skip(pub_decls@, funs@, names,
                                        store, i as int);
                                    assert(self.error_handler.dv() =~= dv_exp
                                        + export_diags(funs@.take(i as int + 1), names,
                                        store));
                                }
                            },
                        }
                    },
                    None => {
                        self.error_handler.report_internal_no_loc(
                            String::from_str("Public function without a bound name"),
                        );
                        proof {
                            lemma_decls_complete_skip(pub_decls@, funs@, names, store,
                                i as int);
                            assert(self.error_handler.dv() =~= dv_exp + export_diags(
                                funs@.take(i as int + 1),
                                names,
                                store,
                            ));
                        }
                    },
                }
            } else {
                proof {
                    lemma_decls_complete_skip(pub_decls@, funs@, names, store, i as int);
                    assert(self.error_handler.dv() =~= dv_exp + export_diags(
                        funs@.take(i as int + 1),
                        names,
                        store,
                    ));
                }
            }
            proof {
                lemma_prefix_trans(e_mid2, e_before, self.error_handler.diags());
            }
            i = i + 1;
        }
        proof {
            lemma_prefix_trans(err0, e_mid2, self.error_handler.diags());
        }
        proof {
            assert(funs@.take(nfuns as int) =~= funs@);
        }
        let ghost g_decls = pub_decls@;
        let ghost g_funs = funs@;
        let ghost g_names = names;
        let ghost g_store = store;
        let r = TypedProgram { funs, names, types: store, pub_decls };
        proof {
            assert(decls_ok(g_decls, g_funs, g_names, g_store));
            assert(r.pub_decls@ == g_decls && r.types == g_store);
            assert(prog.funs@ == g_funs && prog.names == g_names);
            assert(decls_ok(r.pub_decls@, prog.funs@, prog.names, r.types));
            assert(decls_complete(g_decls, g_funs, g_names, g_store));
            assert(decls_complete(r.pub_decls@, prog.funs@, prog.names, r.types));
            assert(reaches_fixed(prog.constraints@, state_of(prog.types), fixed));
            assert forall|k: Id| r.types.contains_id(k)
                implies contains_key_from(fixed, 0, k)
                    && default_of(tv_at(fixed, k).types) is Some by {}
            assert forall|k: Id|
                contains_key_from(fixed, 0, k) && default_of(tv_at(fixed, k).types) is Some
                implies r.types.contains_id(k) by {}
            assert forall|k: Id| #[trigger] r.types.contains_id(k)
                implies Some(r.types.spec_get(k)@) == default_of(tv_at(fixed, k).types) by {}
        }
        r
    }

    /// Defaults every finished candidate list and builds the store of
    /// resolved types via `transmute`, keeping identifiers and counter; a
    /// type variable whose list cannot be defaulted is reported and
    /// dropped.
    fn build_store(&mut self, var_store: TypeVarStore) -> (r: crate::types::TypeStore)
        requires
            var_store.wf(),
        ensures
            r.wf(),
            r.mod_id_spec() == var_store.mod_id_spec(),
            r.counter_spec() == var_store.counter_spec(),
            forall|k: Id| r.contains_id(k) <==> (var_store.contains_id(k) && default_of(
                var_store.spec_get(k)@.types,
            ) is Some),
            forall|k: Id| #[trigger] r.contains_id(k) ==> Some(r.spec_get(k)@) == default_of(
                var_store.spec_get(k)@.types,
            ),
            forall|k: Id| contains_key_from(state_of(var_store), 0, k)
                <==> var_store.contains_id(k),
            forall|k: Id| #[trigger] var_store.contains_id(k)
                ==> tv_at(state_of(var_store), k) == var_store.spec_get(k)@,
            final(self).error_handler.dv() == old(self).error_handler.dv()
                + defaulting_diags(state_of(var_store)),
            old(self).error_handler.diags().is_prefix_of(final(self).error_handler.diags()),
    {
        proof {
            assert forall|k: Id| true implies (contains_key_from(state_of(var_store), 0, k)
                <==> var_store.contains_id(k)) by {
                lemma_state_keys(var_store.kvs(), k);
                lemma_contains_bridge(var_store, k);
            }
            assert forall|k: Id| #[trigger] var_store.contains_id(k)
                implies tv_at(state_of(var_store), k) == var_store.spec_get(k)@ by {
                lemma_state_keys(var_store.kvs(), k);
                lemma_contains_bridge(var_store, k);
            }
        }
        let ghost e0 = self.error_handler.diags();
        let ghost dv0 = self.error_handler.dv();
        let ghost tvs = state_of(var_store);
        let entries = var_store.iter();
        let n = entries.len();
        let mut i: usize = 0;
        proof {
            lemma_tvs_of(var_store.kvs());
            assert(tvs.take(0) =~= Seq::<(Id, TypeVarV)>::empty());
            assert(self.error_handler.dv() =~= dv0 + defaulting_diags(tvs.take(0)));
        }
        while i < n
            invariant
                i <= n,
                n == entries@.len(),
                n == tvs.len(),
                forall|j: int| 0 <= j < n ==> ((#[trigger] entries@[j]).0.id_spec(),
                    entries@[j].1@) == tvs[j],
                e0.is_prefix_of(self.error_handler.diags()),
                self.error_handler.dv() == dv0 + defaulting_diags(tvs.take(i as int)),
            decreases n - i,
        {
            let ghost e_before = self.error_handler.diags();
            let ghost dv_before = self.error_handler.dv();
            let tv = &entries[i].1;
            proof {
                assert(tvs.take(i as int + 1).drop_last() =~= tvs.take(i as int));
                assert(tvs.take(i as int + 1).last() == tvs[i as int]);
                crate::types::lemma_views_of(tv.types@);
            }
            if tv.types.len() == 1 {
                proof {
                    assert(self.error_handler.dv() =~= dv0 + defaulting_diags(
                        tvs.take(i as int + 1),
                    ));
                }
            } else if is_integer_set(&tv.types) {
                proof {
                    assert(self.error_handler.dv() =~= dv0 + defaulting_diags(
                        tvs.take(i as int + 1),
                    ));
                }
            } else if tv.types.len() == 0 {
                let loc = tv.loc;
                self.error_handler.report(
                    loc,
                    String::from_str("Could not find a type satisfying constraint"),
                );
                proof {
                    assert(self.error_handler.dv() =~= dv0 + defaulting_diags(
                        tvs.take(i as int + 1),
                    ));
                }
            } else {
                let loc = tv.loc;
                self.error_handler.report(loc, String::from_str("Could not infer type"));
                proof {
                    assert(self.error_handler.dv() =~= dv0 + defaulting_diags(
                        tvs.take(i as int + 1),
                    ));
                }
            }
            proof {
                lemma_prefix_trans(e0, e_before, self.error_handler.diags());
            }
            i = i + 1;
        }
        proof {
            assert(tvs.take(n as int) =~= tvs);
        }
        let f = |tv: TypeVar| -> (rr: Option<Type>)
            ensures
                match rr {
                    Some(t) => default_of(tv@.types) == Some(t@),
                    None => default_of(tv@.types) is None,
                },
            {
                default_type(&tv)
            };
        let r = var_store.transmute(f);
        proof {
            assert forall|k: Id| #[trigger] r.contains_id(k)
                implies var_store.contains_id(k) && default_of(var_store.spec_get(k)@.types)
                    is Some && Some(r.spec_get(k)@) == default_of(
                    var_store.spec_get(k)@.types,
                ) by {
                assert(call_ensures(f, (var_store.spec_get(k),), Some(r.spec_get(k))));
            }
            assert forall|k: Id|
                var_store.contains_id(k) && default_of(
                    (#[trigger] var_store.spec_get(k))@.types,
                ) is Some implies r.contains_id(k) by {
                if !r.contains_id(k) {
                    assert(call_ensures(f, (var_store.spec_get(k),), None::<Type>));
                }
            }
        }
        r
    }

    /// Applies one constraint to the store; returns true when it removed
    /// candidates, that is, when the solver made progress.
    fn apply_constr(&mut self, constr: &TypeConstraint, store: &mut TypeVarStore) -> (progress:
        bool)
        requires
            old(store).wf(),
        ensures
            final(store).wf(),
            final(store).mod_id_spec() == old(store).mod_id_spec(),
            final(store).counter_spec() == old(store).counter_spec(),
            final(store).merged() == old(store).merged(),
            (state_of(*final(store)), progress) == constr_apply(*constr, state_of(*old(store))),
            final(self).error_handler.dv() == old(self).error_handler.dv() + constr_diags(
                *constr,
                state_of(*old(store)),
            ),
            old(self).error_handler.diags().is_prefix_of(final(self).error_handler.diags()),
    {
        match constr {
            TypeConstraint::Equality(t_id_1, t_id_2, loc) => {
                self.constr_equality(*t_id_1, *t_id_2, *loc, store)
            },
            TypeConstraint::Included(t_id_1, t_id_2, _) => {
                self.constr_included(*t_id_1, *t_id_2, store)
            },
            TypeConstraint::Return(t_id_fun, t_id, _) => {
                self.constr_return(*t_id_fun, *t_id, store)
            },
        }
    }
}

} // verus!
