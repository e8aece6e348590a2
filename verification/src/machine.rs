//! The stack machine: a state is a count of the fours used so far and a stack
//! of operands, and an action takes a state to the next one.
//!
//! Where two operands are taken, the one on top of the stack is the
//! right-hand operand and the one below it the left-hand operand: on a stack
//! that ends in `x, y`, subtraction gives `x - y`, division `x / y`, and
//! power `x` raised to `y`. The fourth root takes its radicand from the top
//! and wants a literal four below it.

use crate::action::{arity_of, Action};
use crate::arith::{computes, deterministic, total, FloatOp};
use crate::number::{
    abs, denotes, eq, exact_num, factorial, factorial_grows, factorial_of, lt, magnitude, neg,
    negated, num_eq, num_lt, pattern_is_unique, strict_f64_to_i64, strict_integer, FOUR, QUARTER,
    THOUSANDTH, ZERO,
};
use crate::stack::{
    stack_clone, stack_eq, stack_get, stack_items, stack_len, stack_new, stack_pop, stack_push,
    Stack, MAX_STACK_DEPTH,
};
use vstd::prelude::*;
use vstd::std_specs::cmp::PartialEqSpecImpl;

verus! {

/// The number of fours that a derivation uses.
pub const FOURS: usize = 4;

/// A state of the machine.
#[derive(Debug)]
pub struct State {
    fours_used: usize,
    stack: Stack,
}

/// What a state holds.
pub struct StateView {
    /// The number of fours pushed so far.
    pub fours_used: nat,
    /// The operands on the stack, bottom first.
    pub stack: Seq<u64>,
}

impl View for State {
    type V = StateView;

    closed spec fn view(&self) -> StateView {
        StateView { fours_used: self.fours_used as nat, stack: stack_items(self.stack) }
    }
}

/// The state before any action: no four used, nothing on the stack.
pub open spec fn initial() -> StateView {
    StateView { fours_used: 0, stack: Seq::empty() }
}

/// Whether a state ends a derivation: every four used, one operand left.
pub open spec fn is_complete(s: StateView) -> bool {
    s.fours_used == FOURS && s.stack.len() == 1
}

impl State {
    /// A state never holds more operands than four fours can put on its
    /// stack.
    #[verifier::type_invariant]
    spec fn within_depth(self) -> bool {
        stack_items(self.stack).len() <= MAX_STACK_DEPTH
    }

    /// The state before any action.
    pub fn new() -> (s: State)
        ensures
            s@ == initial(),
    {
        State { fours_used: 0, stack: stack_new() }
    }

    /// The number of fours pushed so far.
    pub fn fours_used(&self) -> (n: usize)
        ensures
            n == self@.fours_used,
    {
        self.fours_used
    }

    /// The number of operands on the stack: four at most.
    pub fn depth(&self) -> (n: usize)
        ensures
            n == self@.stack.len(),
            n <= MAX_STACK_DEPTH,
    {
        proof {
            use_type_invariant(self);
        }
        stack_len(&self.stack)
    }

    /// The operand at index `i`, counted from the bottom of the stack.
    pub fn operand(&self, i: usize) -> (v: u64)
        requires
            i < self@.stack.len(),
        ensures
            v == self@.stack[i as int],
    {
        stack_get(&self.stack, i)
    }

    /// Puts an operand on top of the stack.
    pub fn push(&mut self, value: u64)
        requires
            old(self)@.stack.len() < MAX_STACK_DEPTH,
        ensures
            final(self)@.stack == old(self)@.stack.push(value),
            final(self)@.fours_used == old(self)@.fours_used,
    {
        stack_push(&mut self.stack, value);
    }

    /// Takes the top operand off the stack, or returns `None` and changes
    /// nothing where the stack is empty.
    pub fn pop(&mut self) -> (r: Option<u64>)
        ensures
            final(self)@.fours_used == old(self)@.fours_used,
            old(self)@.stack.len() == 0 ==> r.is_none() && final(self)@ == old(self)@,
            old(self)@.stack.len() > 0 ==> r == Some(old(self)@.stack.last()),
            old(self)@.stack.len() > 0 ==> final(self)@.stack == old(self)@.stack.drop_last(),
    {
        proof {
            use_type_invariant(&*self);
        }
        stack_pop(&mut self.stack)
    }

    /// Whether the state ends a derivation.
    pub fn is_done(&self) -> (b: bool)
        ensures
            b == is_complete(self@),
    {
        self.fours_used == FOURS && stack_len(&self.stack) == 1
    }
}

impl Clone for State {
    fn clone(&self) -> (s: State)
        ensures
            s@ == self@,
    {
        proof {
            use_type_invariant(self);
        }
        State { fours_used: self.fours_used, stack: stack_clone(&self.stack) }
    }
}

impl PartialEq for State {
    fn eq(&self, other: &State) -> (b: bool) {
        self.fours_used == other.fours_used && stack_eq(&self.stack, &other.stack)
    }
}

impl PartialEqSpecImpl for State {
    open spec fn obeys_eq_spec() -> bool {
        true
    }

    open spec fn eq_spec(&self, other: &State) -> bool {
        self@ == other@
    }
}

/// The operand on top of the stack: the right-hand operand.
pub open spec fn top(s: StateView) -> u64 {
    s.stack[s.stack.len() - 1]
}

/// The operand below the top of the stack: the left-hand operand.
pub open spec fn below(s: StateView) -> u64 {
    s.stack[s.stack.len() - 2]
}

/// Whether a difference is less than a thousandth in absolute value.
pub open spec fn is_slight(diff: u64) -> bool {
    num_lt(magnitude(diff), THOUSANDTH)
}

/// Whether the arithmetic may find `x` within a thousandth of the whole
/// number nearest to it.
pub open spec fn may_be_whole<F: Fn(FloatOp, u64, u64) -> u64>(fpu: &F, x: u64) -> bool {
    exists|c: u64, d: u64|
        computes(fpu, FloatOp::Round, x, ZERO, c) && computes(fpu, FloatOp::Sub, c, x, d)
            && is_slight(d)
}

/// Whether the arithmetic may find `x` a thousandth or more away from the
/// whole number nearest to it.
pub open spec fn may_be_fractional<F: Fn(FloatOp, u64, u64) -> u64>(fpu: &F, x: u64) -> bool {
    exists|c: u64, d: u64|
        computes(fpu, FloatOp::Round, x, ZERO, c) && computes(fpu, FloatOp::Sub, c, x, d)
            && !is_slight(d)
}

/// The factorial that the operand `x` asks for: that of the integer it
/// denotes, where it denotes one that is not negative and whose factorial
/// fits in an `i64`.
pub open spec fn factorial_asked(x: u64) -> Option<nat> {
    match strict_integer(x) {
        Some(i) => if i >= 0 && factorial_of(i as nat) <= i64::MAX {
            Some(factorial_of(i as nat))
        } else {
            None
        },
        None => None,
    }
}

/// The guard of an action, as far as it is decided without rounding
/// arithmetic: enough operands, a four left to push, a divisor that is not
/// zero, a radicand in the domain of its root, a negative operand for the
/// absolute value, an operand that has a factorial which a double can hold.
pub open spec fn admits(a: Action, s: StateView) -> bool {
    &&& s.stack.len() >= arity_of(a)
    &&& match a {
        Action::Push4 => s.fours_used < FOURS,
        Action::Add | Action::Sub | Action::Mul | Action::Power => true,
        Action::Div | Action::Modulo => !num_eq(top(s), ZERO),
        Action::SquareRoot => num_lt(ZERO, top(s)),
        Action::FourthRoot => num_eq(below(s), FOUR) && !num_lt(top(s), ZERO),
        Action::Floor | Action::Ceiling => true,
        Action::Abs => num_lt(top(s), ZERO),
        Action::Negate => true,
        Action::Factorial => factorial_asked(top(s)) matches Some(f) && exists|x: u64|
            denotes(x, f as int),
    }
}

/// Whether `v` is a value that the action may give in state `s`.
pub open spec fn yields<F: Fn(FloatOp, u64, u64) -> u64>(
    fpu: &F,
    a: Action,
    s: StateView,
    v: u64,
) -> bool {
    match a {
        Action::Push4 => v == FOUR,
        Action::Add => computes(fpu, FloatOp::Add, below(s), top(s), v),
        Action::Sub => computes(fpu, FloatOp::Sub, below(s), top(s), v),
        Action::Mul => computes(fpu, FloatOp::Mul, below(s), top(s), v),
        Action::Div => computes(fpu, FloatOp::Div, below(s), top(s), v),
        Action::Modulo => computes(fpu, FloatOp::Rem, below(s), top(s), v),
        Action::Power => computes(fpu, FloatOp::Pow, below(s), top(s), v),
        Action::SquareRoot => computes(fpu, FloatOp::Sqrt, top(s), ZERO, v),
        Action::FourthRoot => computes(fpu, FloatOp::Pow, top(s), QUARTER, v),
        Action::Floor => may_be_fractional(fpu, top(s)) && computes(
            fpu,
            FloatOp::Floor,
            top(s),
            ZERO,
            v,
        ),
        Action::Ceiling => may_be_fractional(fpu, top(s)) && computes(
            fpu,
            FloatOp::Ceil,
            top(s),
            ZERO,
            v,
        ),
        Action::Abs => v == magnitude(top(s)),
        Action::Negate => v == negated(top(s)),
        Action::Factorial => factorial_asked(top(s)) matches Some(f) && denotes(v, f as int),
    }
}

/// The state that an action leaves before its value is pushed: its operands
/// are off the stack, and a pushed four is counted.
pub open spec fn remainder(a: Action, s: StateView) -> StateView {
    StateView {
        fours_used: if a == Action::Push4 {
            s.fours_used + 1
        } else {
            s.fours_used
        },
        stack: s.stack.subrange(0, s.stack.len() - arity_of(a)),
    }
}

/// The state after an action that gave the value `v`.
pub open spec fn successor(a: Action, s: StateView, v: u64) -> StateView {
    StateView { fours_used: remainder(a, s).fours_used, stack: remainder(a, s).stack.push(v) }
}

/// With arithmetic that gives one result for each request, an operand is
/// not found both near a whole number and away from it.
pub proof fn whole_or_fractional<F: Fn(FloatOp, u64, u64) -> u64>(fpu: &F, x: u64)
    requires
        deterministic(fpu),
    ensures
        !(may_be_whole(fpu, x) && may_be_fractional(fpu, x)),
{
    if may_be_whole(fpu, x) && may_be_fractional(fpu, x) {
        let (c1, d1) = choose|c: u64, d: u64|
            computes(fpu, FloatOp::Round, x, ZERO, c) && computes(fpu, FloatOp::Sub, c, x, d)
                && is_slight(d);
        let (c2, d2) = choose|c: u64, d: u64|
            computes(fpu, FloatOp::Round, x, ZERO, c) && computes(fpu, FloatOp::Sub, c, x, d)
                && !is_slight(d);
        assert(c1 == c2);
        assert(d1 == d2);
    }
}

/// With arithmetic that gives one result for each request, an action gives
/// one value in a state.
pub proof fn yields_one_value<F: Fn(FloatOp, u64, u64) -> u64>(
    fpu: &F,
    a: Action,
    s: StateView,
    v: u64,
    w: u64,
)
    requires
        deterministic(fpu),
        yields(fpu, a, s, v),
        yields(fpu, a, s, w),
    ensures
        v == w,
{
    if a == Action::Factorial {
        let f = factorial_asked(top(s))->0;
        let i = strict_integer(top(s))->0;
        factorial_grows(0, i as nat);
        pattern_is_unique(v, w, f as int);
    }
}

/// Whether a difference, as the arithmetic gave it, is less than a
/// thousandth in absolute value.
pub fn near_whole(diff: u64) -> (b: bool)
    ensures
        b == is_slight(diff),
{
    lt(abs(diff), THOUSANDTH)
}

/// The operand that holds the factorial which `x` asks for, or `None` where
/// `x` asks for none or no double holds it.
pub fn factorial_num(x: u64) -> (r: Option<u64>)
    ensures
        match r {
            Some(v) => factorial_asked(x) matches Some(f) && denotes(v, f as int),
            None => !(factorial_asked(x) matches Some(f) && exists|y: u64| denotes(y, f as int)),
        },
{
    match strict_f64_to_i64(x) {
        Some(i) => match factorial(i) {
            Some(f) => exact_num(f),
            None => None,
        },
        None => None,
    }
}

impl State {
    /// A copy of the state with its top `count` operands taken off.
    fn without(&self, count: usize) -> (t: State)
        requires
            count <= 2,
            count <= self@.stack.len(),
        ensures
            t@.fours_used == self@.fours_used,
            t@.stack == self@.stack.subrange(0, self@.stack.len() - count),
    {
        let mut t = self.clone();
        if count >= 1 {
            let _ = t.pop();
        }
        if count >= 2 {
            let _ = t.pop();
        }
        t
    }
}

impl Action {
    /// Applies the action to a state. `None` says that the guard rejected
    /// it; otherwise the result is the state without the operands taken (and
    /// with a pushed four counted), the action, and the value, which is not
    /// yet on the stack. The state given is never changed.
    pub fn apply<F: Fn(FloatOp, u64, u64) -> u64>(&self, s: &State, fpu: &F) -> (r: Option<
        (State, Action, u64),
    >)
        requires
            total(fpu),
        ensures
            !admits(*self, s@) ==> r.is_none(),
            admits(*self, s@) && *self != Action::Floor && *self != Action::Ceiling
                ==> r.is_some(),
            admits(*self, s@) && r.is_none() ==> may_be_whole(fpu, top(s@)),
            r matches Some((t, a, v)) ==> a == *self && admits(*self, s@) && t@ == remainder(
                *self,
                s@,
            ) && yields(fpu, *self, s@, v),
    {
        let n = s.depth();
        if n < self.arity() {
            return None;
        }
        match self {
            Action::Push4 => {
                if s.fours_used < FOURS {
                    let mut t = s.clone();
                    proof {
                        use_type_invariant(&t);
                    }
                    t.fours_used = t.fours_used + 1;
                    assert(t@.stack == s@.stack.subrange(0, s@.stack.len() as int));
                    Some((t, *self, FOUR))
                } else {
                    None
                }
            },
            Action::Add => {
                let v = fpu(FloatOp::Add, s.operand(n - 2), s.operand(n - 1));
                Some((s.without(2), *self, v))
            },
            Action::Sub => {
                let v = fpu(FloatOp::Sub, s.operand(n - 2), s.operand(n - 1));
                Some((s.without(2), *self, v))
            },
            Action::Mul => {
                let v = fpu(FloatOp::Mul, s.operand(n - 2), s.operand(n - 1));
                Some((s.without(2), *self, v))
            },
            Action::Power => {
                let v = fpu(FloatOp::Pow, s.operand(n - 2), s.operand(n - 1));
                Some((s.without(2), *self, v))
            },
            Action::Div => {
                if eq(s.operand(n - 1), ZERO) {
                    None
                } else {
                    let v = fpu(FloatOp::Div, s.operand(n - 2), s.operand(n - 1));
                    Some((s.without(2), *self, v))
                }
            },
            Action::Modulo => {
                if eq(s.operand(n - 1), ZERO) {
                    None
                } else {
                    let v = fpu(FloatOp::Rem, s.operand(n - 2), s.operand(n - 1));
                    Some((s.without(2), *self, v))
                }
            },
            Action::SquareRoot => {
                if lt(ZERO, s.operand(n - 1)) {
                    let v = fpu(FloatOp::Sqrt, s.operand(n - 1), ZERO);
                    Some((s.without(1), *self, v))
                } else {
                    None
                }
            },
            Action::FourthRoot => {
                if eq(s.operand(n - 2), FOUR) && !lt(s.operand(n - 1), ZERO) {
                    let v = fpu(FloatOp::Pow, s.operand(n - 1), QUARTER);
                    Some((s.without(2), *self, v))
                } else {
                    None
                }
            },
            Action::Floor => {
                let x = s.operand(n - 1);
                let closest = fpu(FloatOp::Round, x, ZERO);
                let diff = fpu(FloatOp::Sub, closest, x);
                assert(computes(fpu, FloatOp::Round, x, ZERO, closest) && computes(
                    fpu,
                    FloatOp::Sub,
                    closest,
                    x,
                    diff,
                ));
                if near_whole(diff) {
                    None
                } else {
                    let v = fpu(FloatOp::Floor, x, ZERO);
                    Some((s.without(1), *self, v))
                }
            },
            Action::Ceiling => {
                let x = s.operand(n - 1);
                let closest = fpu(FloatOp::Round, x, ZERO);
                let diff = fpu(FloatOp::Sub, closest, x);
                assert(computes(fpu, FloatOp::Round, x, ZERO, closest) && computes(
                    fpu,
                    FloatOp::Sub,
                    closest,
                    x,
                    diff,
                ));
                if near_whole(diff) {
                    None
                } else {
                    let v = fpu(FloatOp::Ceil, x, ZERO);
                    Some((s.without(1), *self, v))
                }
            },
            Action::Abs => {
                let x = s.operand(n - 1);
                if lt(x, ZERO) {
                    Some((s.without(1), *self, abs(x)))
                } else {
                    None
                }
            },
            Action::Negate => {
                let x = s.operand(n - 1);
                Some((s.without(1), *self, neg(x)))
            },
            Action::Factorial => {
                match factorial_num(s.operand(n - 1)) {
                    Some(v) => Some((s.without(1), *self, v)),
                    None => None,
                }
            },
        }
    }
}

} // verus!
