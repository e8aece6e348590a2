//! A verified solver core for the "four fours" puzzle.
//!
//! Partial expressions are states of a small stack machine; a depth-bounded
//! backtracking search tries every operator of a closed catalog, and a table
//! with one slot per target keeps the best derivation found so far. Operands
//! are IEEE-754 double-precision values held by their bit patterns; rounding
//! arithmetic is supplied by the caller as a function of an operation tag and
//! two bit patterns, while every guard and rule is decided here.

pub mod action;
pub mod arith;
pub mod explore;
pub mod expr;
pub mod laws;
pub mod machine;
pub mod number;
pub mod registry;
pub mod search;
pub mod stack;

pub use action::Action;
pub use arith::FloatOp;
pub use explore::explore;
pub use expr::Expression;
pub use machine::State;
pub use number::{factorial, strict_f64_to_i64};
pub use registry::Registry;
pub use search::Search;
