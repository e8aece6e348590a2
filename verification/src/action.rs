//! The operator catalog: the closed set of actions, their arities, their
//! rendering classes, and the table of adjacent pairs that are never tried.

use vstd::prelude::*;

verus! {

/// One operator of the catalog.
#[derive(Debug, Copy, Clone, PartialEq, Eq, Hash, Structural)]
pub enum Action {
    Add,
    Sub,
    Mul,
    Div,
    Modulo,
    SquareRoot,
    FourthRoot,
    Push4,
    Power,
    Floor,
    Ceiling,
    Abs,
    Negate,
    Factorial,
}

/// The number of operators in the catalog.
pub const CATALOG_LEN: usize = 14;

/// The catalog in the order in which the search tries it: the digit first,
/// then the binary operators, then the rest.
pub open spec fn catalog() -> Seq<Action> {
    seq![
        Action::Push4,
        Action::Add,
        Action::Sub,
        Action::Mul,
        Action::Div,
        Action::Modulo,
        Action::Power,
        Action::Floor,
        Action::Ceiling,
        Action::Abs,
        Action::Negate,
        Action::SquareRoot,
        Action::FourthRoot,
        Action::Factorial,
    ]
}

/// The place of an action in the catalog.
pub open spec fn position(a: Action) -> int {
    match a {
        Action::Push4 => 0,
        Action::Add => 1,
        Action::Sub => 2,
        Action::Mul => 3,
        Action::Div => 4,
        Action::Modulo => 5,
        Action::Power => 6,
        Action::Floor => 7,
        Action::Ceiling => 8,
        Action::Abs => 9,
        Action::Negate => 10,
        Action::SquareRoot => 11,
        Action::FourthRoot => 12,
        Action::Factorial => 13,
    }
}

/// The number of operands an action takes off the stack.
pub open spec fn arity_of(a: Action) -> nat {
    match a {
        Action::Push4 => 0,
        Action::SquareRoot | Action::Floor | Action::Ceiling | Action::Abs | Action::Negate
        | Action::Factorial => 1,
        Action::Add | Action::Sub | Action::Mul | Action::Div | Action::Modulo | Action::Power
        | Action::FourthRoot => 2,
    }
}

/// Whether operands of `a` may be exchanged without changing the value.
pub open spec fn is_commutative(a: Action) -> bool {
    a == Action::Add || a == Action::Mul
}

/// Whether an expression headed by `a` is written without delimiters of its
/// own, so that it needs parentheses when it stands as an operand.
pub open spec fn is_unbracketed(a: Action) -> bool {
    match a {
        Action::Add | Action::Sub | Action::Mul | Action::Div | Action::Modulo
        | Action::Factorial | Action::Power | Action::Negate => true,
        Action::SquareRoot | Action::FourthRoot | Action::Push4 | Action::Floor
        | Action::Ceiling | Action::Abs => false,
    }
}

/// Whether `next` directly after `prev` is redundant whatever the operands:
/// it would change nothing, or only undo `prev`.
pub open spec fn is_pruned(prev: Action, next: Action) -> bool {
    match (prev, next) {
        (Action::Abs, Action::Abs) => true,
        (Action::SquareRoot, Action::Abs) => true,
        (Action::FourthRoot, Action::Abs) => true,
        (Action::Floor, Action::Floor) => true,
        (Action::Floor, Action::Ceiling) => true,
        (Action::Ceiling, Action::Floor) => true,
        (Action::Ceiling, Action::Ceiling) => true,
        (Action::Negate, Action::Abs) => true,
        (Action::Abs, Action::Negate) => true,
        _ => false,
    }
}

impl Action {
    /// The catalog, in the order in which the search tries it.
    pub const VALUES: [Action; 14] = [
        Action::Push4,
        Action::Add,
        Action::Sub,
        Action::Mul,
        Action::Div,
        Action::Modulo,
        Action::Power,
        Action::Floor,
        Action::Ceiling,
        Action::Abs,
        Action::Negate,
        Action::SquareRoot,
        Action::FourthRoot,
        Action::Factorial,
    ];

    /// The number of operands this action takes off the stack.
    pub fn arity(&self) -> (n: usize)
        ensures
            n == arity_of(*self),
    {
        match self {
            Action::Push4 => 0,
            Action::SquareRoot | Action::Floor | Action::Ceiling | Action::Abs | Action::Negate
            | Action::Factorial => 1,
            Action::Add | Action::Sub | Action::Mul | Action::Div | Action::Modulo
            | Action::Power | Action::FourthRoot => 2,
        }
    }

    /// Whether the action is commutative.
    pub fn communative(&self) -> (b: bool)
        ensures
            b == is_commutative(*self),
    {
        match self {
            Action::Add | Action::Mul => true,
            _ => false,
        }
    }

    /// Whether an expression headed by this action needs parentheses around
    /// it when it stands as an operand.
    pub fn needs_parens_around(&self) -> (b: bool)
        ensures
            b == is_unbracketed(*self),
    {
        match self {
            Action::Add | Action::Sub | Action::Mul | Action::Div | Action::Modulo
            | Action::Factorial | Action::Power | Action::Negate => true,
            Action::SquareRoot | Action::FourthRoot | Action::Push4 | Action::Floor
            | Action::Ceiling | Action::Abs => false,
        }
    }

    /// Whether this action is skipped directly after `prev`.
    pub fn pruned_after(&self, prev: Action) -> (b: bool)
        ensures
            b == is_pruned(prev, *self),
    {
        match (prev, *self) {
            (Action::Abs, Action::Abs) => true,
            (Action::SquareRoot, Action::Abs) => true,
            (Action::FourthRoot, Action::Abs) => true,
            (Action::Floor, Action::Floor) => true,
            (Action::Floor, Action::Ceiling) => true,
            (Action::Ceiling, Action::Floor) => true,
            (Action::Ceiling, Action::Ceiling) => true,
            (Action::Negate, Action::Abs) => true,
            (Action::Abs, Action::Negate) => true,
            _ => false,
        }
    }
}

/// The catalog holds every action, and holds it once, at its position.
pub proof fn catalog_lists_each_action_once(a: Action)
    ensures
        Action::VALUES@ == catalog(),
        catalog().len() == CATALOG_LEN,
        0 <= position(a) < catalog().len(),
        catalog()[position(a)] == a,
        forall|i: int| 0 <= i < catalog().len() ==> position(#[trigger] catalog()[i]) == i,
{
    assert(Action::VALUES@ =~= catalog());
}

} // verus!
