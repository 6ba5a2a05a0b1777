//! The data model of type inference: concrete types, type variables with
//! candidate sets, and the constraints the solver consumes.
//!
//! A type variable holds the list of concrete types it may still resolve to.
//! Candidate lists are created in variant order and only ever narrowed by
//! taking ordered sub-lists, so set operations stay simple. A singleton list
//! denotes a resolved type.

use vstd::prelude::*;

use crate::error::Location;
use crate::store::{Store, TypeVarId};

verus! {

broadcast use vstd::std_specs::vec::axiom_vec_index_decreases,
    vstd::std_specs::vec::axiom_vec_decreases_to_view, vstd::seq::axiom_seq_index_decreases,
    vstd::seq::axiom_seq_subrange_decreases;

/// A concrete type. `Any` is the placeholder of a polymorphic value during
/// inference; `Bug` marks a type poisoned by an earlier error.
pub enum Type {
    Any,
    Bug,
    Unit,
    Bool,
    I32,
    I64,
    F32,
    F64,
    Fun(Vec<Type>, Vec<Type>),
}

/// The mathematical value of a `Type`: the same tree over ghost sequences.
#[verifier::ext_equal]
pub enum TypeV {
    Any,
    Bug,
    Unit,
    Bool,
    I32,
    I64,
    F32,
    F64,
    Fun(Seq<TypeV>, Seq<TypeV>),
}

impl View for Type {
    type V = TypeV;

    open spec fn view(&self) -> TypeV
        decreases self,
    {
        match self {
            Type::Any => TypeV::Any,
            Type::Bug => TypeV::Bug,
            Type::Unit => TypeV::Unit,
            Type::Bool => TypeV::Bool,
            Type::I32 => TypeV::I32,
            Type::I64 => TypeV::I64,
            Type::F32 => TypeV::F32,
            Type::F64 => TypeV::F64,
            Type::Fun(params, rets) => TypeV::Fun(views_of(params@), views_of(rets@)),
        }
    }
}

/// The views of a list of concrete types, element by element.
pub open spec fn views_of(v: Seq<Type>) -> Seq<TypeV>
    decreases v,
{
    if v.len() == 0 {
        Seq::empty()
    } else {
        views_of(v.drop_last()).push(v.last()@)
    }
}

/// `views_of` takes each element to its view, in place.
pub proof fn lemma_views_of(v: Seq<Type>)
    ensures
        views_of(v).len() == v.len(),
        forall|i: int| 0 <= i < v.len() ==> views_of(v)[i] == (#[trigger] v[i])@,
    decreases v,
{
    if v.len() > 0 {
        lemma_views_of(v.drop_last());
        assert(views_of(v) == views_of(v.drop_last()).push(v.last()@));
        assert forall|i: int| 0 <= i < v.len()
            implies views_of(v)[i] == (#[trigger] v[i])@ by {
            if i < v.len() - 1 {
                assert(views_of(v)[i] == views_of(v.drop_last())[i]);
                assert(v.drop_last()[i] == v[i]);
            } else {
                assert(views_of(v)[i] == v.last()@);
                assert(v[i] == v.last());
            }
        }
    }
}

/// True when `s` holds the type `t`.
pub open spec fn cand_contains(s: Seq<TypeV>, t: TypeV) -> bool {
    exists|i: int| 0 <= i < s.len() && s[i] == t
}

/// The candidates of `a` that also stand in `b`, in `a`'s order: the
/// intersection of the two candidate sets.
pub open spec fn cand_inter(a: Seq<TypeV>, b: Seq<TypeV>) -> Seq<TypeV> {
    a.filter(|t: TypeV| cand_contains(b, t))
}

/// The canonical candidate set of an integer literal.
pub open spec fn integer_cands() -> Seq<TypeV> {
    seq![TypeV::I32, TypeV::I64]
}

/// The canonical candidate set of a float literal.
pub open spec fn float_cands() -> Seq<TypeV> {
    seq![TypeV::F32, TypeV::F64]
}

impl Type {
    /// Structural equality of two types.
    pub fn type_eq(&self, other: &Type) -> (r: bool)
        ensures
            r == (self@ == other@),
        decreases self,
    {
        match (self, other) {
            (Type::Any, Type::Any) => true,
            (Type::Bug, Type::Bug) => true,
            (Type::Unit, Type::Unit) => true,
            (Type::Bool, Type::Bool) => true,
            (Type::I32, Type::I32) => true,
            (Type::I64, Type::I64) => true,
            (Type::F32, Type::F32) => true,
            (Type::F64, Type::F64) => true,
            (Type::Fun(p1, r1), Type::Fun(p2, r2)) => {
                let pe = Self::type_lists_eq(p1, p2);
                let re = Self::type_lists_eq(r1, r2);
                proof {
                    assert(self@ == TypeV::Fun(views_of(p1@), views_of(r1@)));
                    assert(other@ == TypeV::Fun(views_of(p2@), views_of(r2@)));
                }
                pe && re
            },
            _ => {
                proof {
                    assert(self@ != other@);
                }
                false
            },
        }
    }

    /// Structural equality of two lists of types.
    fn type_lists_eq(a: &Vec<Type>, b: &Vec<Type>) -> (r: bool)
        ensures
            r == (views_of(a@) == views_of(b@)),
        decreases a,
    {
        proof {
            lemma_views_of(a@);
            lemma_views_of(b@);
        }
        if a.len() != b.len() {
            proof {
                assert(views_of(a@).len() != views_of(b@).len());
            }
            return false;
        }
        let n = a.len();
        let mut i: usize = 0;
        while i < n
            invariant
                i <= n,
                n == a@.len(),
                n == b@.len(),
                forall|j: int| 0 <= j < i ==> views_of(a@)[j] == views_of(b@)[j],
            decreases n - i,
        {
            proof {
                lemma_views_of(a@);
                lemma_views_of(b@);
            }
            if !a[i].type_eq(&b[i]) {
                proof {
                    assert(views_of(a@)[i as int] != views_of(b@)[i as int]);
                }
                return false;
            }
            i = i + 1;
        }
        proof {
            lemma_views_of(a@);
            lemma_views_of(b@);
            assert(views_of(a@) =~= views_of(b@));
        }
        true
    }

    /// A copy of this type with the same mathematical value.
    pub fn duplicate(&self) -> (r: Type)
        ensures
            r@ == self@,
        decreases self,
    {
        match self {
            Type::Any => Type::Any,
            Type::Bug => Type::Bug,
            Type::Unit => Type::Unit,
            Type::Bool => Type::Bool,
            Type::I32 => Type::I32,
            Type::I64 => Type::I64,
            Type::F32 => Type::F32,
            Type::F64 => Type::F64,
            Type::Fun(params, rets) => {
                let p = Self::duplicate_list(params);
                let r = Self::duplicate_list(rets);
                proof {
                    assert((Type::Fun(p, r))@ == TypeV::Fun(views_of(p@), views_of(r@)));
                    assert(self@ == TypeV::Fun(views_of(params@), views_of(rets@)));
                }
                Type::Fun(p, r)
            },
        }
    }

    /// A copy of a list of types with the same mathematical values.
    pub fn duplicate_list(v: &Vec<Type>) -> (r: Vec<Type>)
        ensures
            views_of(r@) == views_of(v@),
        decreases v,
    {
        let n = v.len();
        let mut out: Vec<Type> = Vec::new();
        let mut i: usize = 0;
        while i < n
            invariant
                i <= n,
                n == v@.len(),
                out@.len() == i,
                forall|j: int| 0 <= j < i ==> views_of(out@)[j] == views_of(v@)[j],
            decreases n - i,
        {
            let ghost out0 = out@;
            let d = v[i].duplicate();
            out.push(d);
            proof {
                lemma_views_of(out0);
                lemma_views_of(out@);
                lemma_views_of(v@);
                assert(out@ == out0.push(d));
                assert forall|j: int| 0 <= j < i + 1
                    implies views_of(out@)[j] == views_of(v@)[j] by {
                    if j < i {
                        assert(out@[j] == out0[j]);
                    } else {
                        assert(out@[j] == d);
                    }
                }
            }
            i = i + 1;
        }
        proof {
            lemma_views_of(out@);
            lemma_views_of(v@);
            assert(views_of(out@) =~= views_of(v@));
        }
        out
    }
}

/// True when `v` holds a type with the value `t`.
pub fn contains_type(v: &Vec<Type>, t: &Type) -> (r: bool)
    ensures
        r == cand_contains(views_of(v@), t@),
{
    let n = v.len();
    let mut i: usize = 0;
    while i < n
        invariant
            i <= n,
            n == v@.len(),
            forall|j: int| 0 <= j < i ==> views_of(v@)[j] != t@,
        decreases n - i,
    {
        proof {
            lemma_views_of(v@);
        }
        if v[i].type_eq(t) {
            proof {
                assert(views_of(v@)[i as int] == t@);
                assert(cand_contains(views_of(v@), t@));
            }
            return true;
        }
        i = i + 1;
    }
    proof {
        lemma_views_of(v@);
        if cand_contains(views_of(v@), t@) {
            let j = choose|j: int| 0 <= j < views_of(v@).len() && views_of(v@)[j] == t@;
        }
    }
    false
}

/// A type variable: the source location that introduced it and the candidate
/// list of concrete types it may still resolve to.
pub struct TypeVar {
    pub loc: Location,
    pub types: Vec<Type>,
}

/// The mathematical value of a type variable.
#[verifier::ext_equal]
pub struct TypeVarV {
    pub loc: Location,
    pub types: Seq<TypeV>,
}

impl View for TypeVar {
    type V = TypeVarV;

    open spec fn view(&self) -> TypeVarV {
        TypeVarV { loc: self.loc, types: views_of(self.types@) }
    }
}

/// A constraint between type variables, carrying the location responsible.
///
/// `Equality` forces both sides to one concrete type; `Included` narrows its
/// first side to candidates of the second without touching the second;
/// `Return` forces the second side to the unique return type of the function
/// type at the first.
#[derive(Copy, Clone)]
pub enum TypeConstraint {
    Equality(TypeVarId, TypeVarId, Location),
    Included(TypeVarId, TypeVarId, Location),
    Return(TypeVarId, TypeVarId, Location),
}

/// The constraints of a program, in emission order.
pub type ConstraintStore = Vec<TypeConstraint>;

/// The store of type variables built by the resolver.
pub type TypeVarStore = Store<TypeVarId, TypeVar>;

/// The store of resolved concrete types built by the checker.
pub type TypeStore = Store<TypeVarId, Type>;

/// The canonical candidate list of an integer literal.
pub fn integer_candidates() -> (r: Vec<Type>)
    ensures
        views_of(r@) == integer_cands(),
        r@.len() == 2,
{
    let mut v: Vec<Type> = Vec::new();
    v.push(Type::I32);
    v.push(Type::I64);
    proof {
        lemma_views_of(v@);
        assert(v@.len() == 2);
        assert(v@[0] == Type::I32 && v@[1] == Type::I64);
        assert(views_of(v@)[0] == TypeV::I32 && views_of(v@)[1] == TypeV::I64);
        assert(integer_cands().len() == 2 && integer_cands()[0] == TypeV::I32
            && integer_cands()[1] == TypeV::I64);
        assert(views_of(v@) =~= integer_cands());
    }
    v
}

/// The candidate list of every numeric type: what an arithmetic operand
/// may be.
pub fn numeric_candidates() -> (r: Vec<Type>)
    ensures
        views_of(r@) == seq![TypeV::I32, TypeV::I64, TypeV::F32, TypeV::F64],
        !cand_contains(views_of(r@), TypeV::Any),
        r@.len() == 4,
{
    let mut v: Vec<Type> = Vec::new();
    v.push(Type::I32);
    v.push(Type::I64);
    v.push(Type::F32);
    v.push(Type::F64);
    proof {
        lemma_views_of(v@);
        assert(v@.len() == 4);
        assert(v@[0] == Type::I32 && v@[1] == Type::I64 && v@[2] == Type::F32
            && v@[3] == Type::F64);
        assert(views_of(v@)[0] == TypeV::I32 && views_of(v@)[1] == TypeV::I64
            && views_of(v@)[2] == TypeV::F32 && views_of(v@)[3] == TypeV::F64);
        assert(views_of(v@) =~= seq![TypeV::I32, TypeV::I64, TypeV::F32, TypeV::F64]);
        assert(!cand_contains(views_of(v@), TypeV::Any)) by {
            if cand_contains(views_of(v@), TypeV::Any) {
                let j = choose|j: int| 0 <= j < views_of(v@).len()
                    && views_of(v@)[j] == TypeV::Any;
            }
        }
    }
    v
}

/// The candidate list holding only the given type.
pub fn singleton_candidates(t: Type) -> (r: Vec<Type>)
    ensures
        views_of(r@) == seq![t@],
        r@.len() == 1,
        t@ != TypeV::Any ==> !cand_contains(views_of(r@), TypeV::Any),
        t@ == TypeV::Any ==> views_of(r@) == seq![TypeV::Any],
{
    let ghost tv = t@;
    let mut v: Vec<Type> = Vec::new();
    v.push(t);
    proof {
        lemma_views_of(v@);
        assert(views_of(v@) =~= seq![tv]);
        if tv != TypeV::Any {
            if cand_contains(views_of(v@), TypeV::Any) {
                let j = choose|j: int| 0 <= j < views_of(v@).len()
                    && views_of(v@)[j] == TypeV::Any;
            }
        }
    }
    v
}

/// The canonical candidate list of a float literal.
pub fn float_candidates() -> (r: Vec<Type>)
    ensures
        views_of(r@) == float_cands(),
        r@.len() == 2,
{
    let mut v: Vec<Type> = Vec::new();
    v.push(Type::F32);
    v.push(Type::F64);
    proof {
        lemma_views_of(v@);
        assert(v@.len() == 2);
        assert(v@[0] == Type::F32 && v@[1] == Type::F64);
        assert(views_of(v@)[0] == TypeV::F32 && views_of(v@)[1] == TypeV::F64);
        assert(float_cands().len() == 2 && float_cands()[0] == TypeV::F32
            && float_cands()[1] == TypeV::F64);
        assert(views_of(v@) =~= float_cands());
    }
    v
}

} // verus!
