use vstd::prelude::*;

verus! {

/// A surface expression, as the parser hands it over.
#[derive(Debug)]
pub enum Expr {
    /// The `[T]` annotation form: the identity function at type `T`.
    Id(Ty),
    Int(i32),
    /// A bare identifier: a mutable-variable reference.
    Var(String),
    /// `lhs = rhs`, right-associative.
    Assign(Box<Expr>, Box<Expr>),
    /// A call `f(a, b, ...)`.
    Call(Box<Expr>, Vec<Expr>),
    /// A binary arithmetic operation.
    Bin(Box<Expr>, BinOp, Box<Expr>),
}

#[derive(Debug, Clone, Copy, PartialEq, Eq, Structural)]
pub enum BinOp {
    Add,
    Sub,
    Mul,
    Div,
    Rem,
}

/// A surface type annotation: `Int`, or `(T1, T2, ...) Tret`.
#[derive(Debug)]
pub enum Ty {
    Int,
    Func { args: Vec<Ty>, ret: Box<Ty> },
}

} // verus!
