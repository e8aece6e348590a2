//! The rounding arithmetic that the machine is given from outside.
//!
//! The machine asks for one operation at a time, by a tag and two operand
//! patterns, and is handed the pattern of the result. An operation of one
//! operand takes it first and ignores the second. Nothing is assumed of the
//! results: what the machine guarantees, it guarantees for whatever comes
//! back.

use vstd::prelude::*;

verus! {

/// An operation of the arithmetic.
#[derive(Debug, Copy, Clone, PartialEq, Eq, Hash, Structural)]
pub enum FloatOp {
    /// The sum of the two operands.
    Add,
    /// The first operand less the second.
    Sub,
    /// The product of the two operands.
    Mul,
    /// The first operand divided by the second.
    Div,
    /// The remainder of the first operand divided by the second.
    Rem,
    /// The first operand raised to the second.
    Pow,
    /// The principal square root of the first operand.
    Sqrt,
    /// The greatest whole number not above the first operand.
    Floor,
    /// The least whole number not below the first operand.
    Ceil,
    /// The whole number nearest to the first operand, halves away from zero.
    Round,
}

/// Whether the arithmetic answers every request.
pub open spec fn total<F: Fn(FloatOp, u64, u64) -> u64>(fpu: &F) -> bool {
    forall|op: FloatOp, x: u64, y: u64| call_requires(*fpu, (op, x, y))
}

/// Whether `r` is a result that the arithmetic may give for `op` on `x` and
/// `y`.
pub open spec fn computes<F: Fn(FloatOp, u64, u64) -> u64>(
    fpu: &F,
    op: FloatOp,
    x: u64,
    y: u64,
    r: u64,
) -> bool {
    call_ensures(*fpu, (op, x, y), r)
}

/// Whether the arithmetic gives one result for each request.
pub open spec fn deterministic<F: Fn(FloatOp, u64, u64) -> u64>(fpu: &F) -> bool {
    forall|op: FloatOp, x: u64, y: u64, r1: u64, r2: u64|
        #![trigger computes(fpu, op, x, y, r1), computes(fpu, op, x, y, r2)]
        computes(fpu, op, x, y, r1) && computes(fpu, op, x, y, r2) ==> r1 == r2
}

/// Arithmetic whose every result is the value of one function of the
/// request gives one result for each request.
pub proof fn functional_is_deterministic<F: Fn(FloatOp, u64, u64) -> u64>(
    fpu: &F,
    value: spec_fn(FloatOp, u64, u64) -> u64,
)
    requires
        forall|op: FloatOp, x: u64, y: u64, r: u64|
            #[trigger] computes(fpu, op, x, y, r) ==> r == value(op, x, y),
    ensures
        deterministic(fpu),
{
}

} // verus!
