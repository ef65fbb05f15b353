//! Binary operators and their static classification.
use vstd::prelude::*;

verus! {

/// A binary operator of the language.
#[derive(Debug, Clone, Copy, PartialEq, Eq, Hash, Structural)]
pub enum Operator {
    Exp,
    Add,
    Sub,
    Mul,
    Div,
    Rem,
    Shr,
    Shl,
    BitXor,
    BitAnd,
    BitOr,
    Eq,
    NotEq,
    Greater,
    GreaterEq,
    Less,
    LessEq,
    Or,
    Xor,
    And,
    Clow,
    Cerm,
    Assign,
}

/// Arithmetic operators: exponentiation, the four operations, remainder,
/// shifts and the bitwise operators.
pub open spec fn arithmetic(op: Operator) -> bool {
    match op {
        Operator::Exp | Operator::Add | Operator::Sub | Operator::Mul | Operator::Div
        | Operator::Rem | Operator::Shr | Operator::Shl | Operator::BitXor
        | Operator::BitAnd | Operator::BitOr => true,
        _ => false,
    }
}

/// Comparison operators, whose result is a boolean.
pub open spec fn comparison(op: Operator) -> bool {
    match op {
        Operator::Eq | Operator::NotEq | Operator::Greater | Operator::GreaterEq
        | Operator::Less | Operator::LessEq => true,
        _ => false,
    }
}

/// Logical operators: the comparisons together with `or`, `xor` and `and`.
pub open spec fn logical(op: Operator) -> bool {
    comparison(op) || op == Operator::Or || op == Operator::Xor || op == Operator::And
}

impl Operator {
    pub fn is_arithmetic(&self) -> (r: bool)
        ensures
            r == arithmetic(*self),
    {
        match self {
            Operator::Exp | Operator::Add | Operator::Sub | Operator::Mul | Operator::Div
            | Operator::Rem | Operator::Shr | Operator::Shl | Operator::BitXor
            | Operator::BitAnd | Operator::BitOr => true,
            _ => false,
        }
    }

    pub fn is_boolean(&self) -> (r: bool)
        ensures
            r == comparison(*self),
    {
        match self {
            Operator::Eq | Operator::NotEq | Operator::Greater | Operator::GreaterEq
            | Operator::Less | Operator::LessEq => true,
            _ => false,
        }
    }

    pub fn is_logical(&self) -> (r: bool)
        ensures
            r == logical(*self),
    {
        match self {
            Operator::Eq | Operator::NotEq | Operator::Greater | Operator::GreaterEq
            | Operator::Less | Operator::LessEq | Operator::Or | Operator::Xor
            | Operator::And => true,
            _ => false,
        }
    }
}

} // verus!
