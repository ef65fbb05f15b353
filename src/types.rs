//! Type terms of the language.
use vstd::prelude::*;
use crate::strings::Symbol;

verus! {

/// A type term. Terms own their sub-terms and compare structurally; the
/// fields of a tuple keep their order.
#[derive(Debug)]
pub enum Type {
    /// `()`
    Unit,
    /// A signed machine integer.
    Int,
    /// An unsigned machine integer.
    UInt,
    Bool,
    Tuple(Vec<(Option<Symbol>, Type)>),
    Array { ty: Box<Type>, len: Option<usize> },
    /// A function from `input` to `output`.
    Expression { input: Box<Type>, output: Box<Type> },
    /// A named type, left for a later pass to resolve.
    Checked(Symbol),
}

/// Structural equality of type terms: same variant, equal components, and for
/// tuples the same fields in the same order.
pub open spec fn type_equal(a: Type, b: Type) -> bool
    decreases a,
{
    match (a, b) {
        (Type::Unit, Type::Unit) => true,
        (Type::Int, Type::Int) => true,
        (Type::UInt, Type::UInt) => true,
        (Type::Bool, Type::Bool) => true,
        (Type::Tuple(fa), Type::Tuple(fb)) => {
            &&& fa@.len() == fb@.len()
            &&& forall|k: int|
                0 <= k < fa@.len() ==> {
                    &&& (#[trigger] fa@[k]).0 == fb@[k].0
                    &&& type_equal(fa@[k].1, fb@[k].1)
                }
        },
        (Type::Array { ty: ta, len: la }, Type::Array { ty: tb, len: lb }) => {
            la == lb && type_equal(*ta, *tb)
        },
        (Type::Expression { input: ia, output: oa }, Type::Expression { input: ib, output: ob }) => {
            type_equal(*ia, *ib) && type_equal(*oa, *ob)
        },
        (Type::Checked(sa), Type::Checked(sb)) => sa == sb,
        _ => false,
    }
}

/// Structural equality of two type terms.
fn type_eq(a: &Type, b: &Type) -> (r: bool)
    ensures
        r == type_equal(*a, *b),
    decreases a,
{
    match (a, b) {
        (Type::Unit, Type::Unit) => true,
        (Type::Int, Type::Int) => true,
        (Type::UInt, Type::UInt) => true,
        (Type::Bool, Type::Bool) => true,
        (Type::Tuple(fa), Type::Tuple(fb)) => {
            if fa.len() != fb.len() {
                return false;
            }
            let mut i: usize = 0;
            while i < fa.len()
                invariant
                    *a == Type::Tuple(*fa),
                    *b == Type::Tuple(*fb),
                    fa@.len() == fb@.len(),
                    0 <= i <= fa@.len(),
                    forall|k: int|
                        0 <= k < i ==> {
                            &&& (#[trigger] fa@[k]).0 == fb@[k].0
                            &&& type_equal(fa@[k].1, fb@[k].1)
                        },
                decreases fa@.len() - i,
            {
                proof {
                    assert(*a == Type::Tuple(*fa));
                    vstd::std_specs::vec::axiom_vec_index_decreases(*fa, i as int);
                    assert(decreases_to!(*a => (*a)->Tuple_0));
                    assert(decreases_to!(fa[i as int] => fa[i as int].1));
                    assert(decreases_to!(*a => fa[i as int].1));
                }
                if fa[i].0 != fb[i].0 || !type_eq(&fa[i].1, &fb[i].1) {
                    assert(fa@[i as int] == fa[i as int]);
                    return false;
                }
                i = i + 1;
            }
            true
        },
        (Type::Array { ty: ta, len: la }, Type::Array { ty: tb, len: lb }) => {
            *la == *lb && type_eq(ta, tb)
        },
        (Type::Expression { input: ia, output: oa }, Type::Expression { input: ib, output: ob }) => {
            type_eq(ia, ib) && type_eq(oa, ob)
        },
        (Type::Checked(sa), Type::Checked(sb)) => *sa == *sb,
        _ => false,
    }
}

/// Every type term is equal to itself.
pub proof fn lemma_type_equal_reflexive(t: Type)
    ensures
        type_equal(t, t),
    decreases t,
{
    match t {
        Type::Tuple(fs) => {
            assert forall|k: int| 0 <= k < fs@.len() implies type_equal(
                (#[trigger] fs@[k]).1,
                fs@[k].1,
            ) by {
                assert(decreases_to!(t => t->Tuple_0));
                vstd::std_specs::vec::axiom_vec_index_decreases(fs, k);
                assert(decreases_to!(fs[k] => fs[k].1));
                lemma_type_equal_reflexive(fs@[k].1);
            }
        },
        Type::Array { ty, len } => {
            lemma_type_equal_reflexive(*ty);
        },
        Type::Expression { input, output } => {
            lemma_type_equal_reflexive(*input);
            lemma_type_equal_reflexive(*output);
        },
        _ => {},
    }
}

/// Tuple types with the same fields, in the same order, under the same names
/// and of the same types, are equal; the order of the fields is part of the
/// type, so two tuples whose fields differ at some position are not.
pub proof fn lemma_tuple_equality(fa: Vec<(Option<Symbol>, Type)>, fb: Vec<(Option<Symbol>, Type)>)
    ensures
        fa@ == fb@ ==> type_equal(Type::Tuple(fa), Type::Tuple(fb)),
        forall|k: int|
            0 <= k < fa@.len() && k < fb@.len() && fa@[k].0 != fb@[k].0 ==> !type_equal(
                Type::Tuple(fa),
                Type::Tuple(fb),
            ),
{
    if fa@ == fb@ {
        assert forall|k: int| 0 <= k < fa@.len() implies type_equal(
            (#[trigger] fa@[k]).1,
            fb@[k].1,
        ) by {
            lemma_type_equal_reflexive(fa@[k].1);
        }
    }
}

impl PartialEq for Type {
    fn eq(&self, other: &Type) -> (r: bool)
        ensures
            r == type_equal(*self, *other),
    {
        type_eq(self, other)
    }
}

impl vstd::std_specs::cmp::PartialEqSpecImpl for Type {
    open spec fn obeys_eq_spec() -> bool {
        true
    }

    open spec fn eq_spec(&self, other: &Type) -> bool {
        type_equal(*self, *other)
    }
}

} // verus!
