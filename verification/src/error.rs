use vstd::prelude::*;

verus! {

/// The failure categories of the language. Every fallible operation of the
/// crate reports one of these; no function of the library panics.
#[derive(Clone, Copy, PartialEq, Eq, Structural, Debug)]
pub enum Error {
    /// Malformed token stream or grammar violation.
    Syntax,
    /// An integer literal does not fit in 32 bits.
    IntegerOverflow,
    /// A non-variable, non-assignment expression was used as an assignment
    /// target.
    NotLvalue,
    /// A call chain was attached to an expression that is not a function.
    NotFunction,
    /// An operand's type is incompatible with the shape expected at a call
    /// site, or a value of the wrong shape reached a primitive.
    TypeMismatch,
    /// A call's argument count differs from the callee's declared parameter
    /// count.
    ArityMismatch,
    /// A storage cell was read before any assignment to it.
    UninitializedRead,
    /// Division or remainder by zero, or an arithmetic result outside the
    /// 32-bit range.
    ArithmeticFault,
    /// A walk of the type cells exceeded the arena's depth budget: the cells
    /// alias or contain one another in a cycle.
    CyclicType,
}

} // verus!
