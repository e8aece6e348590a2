//! The search path: the derivation that the search stands on, one frame for
//! each action taken, with the state that the action led to and the value it
//! gave.

use crate::action::{arity_of, is_pruned, Action};
use crate::arith::{total, FloatOp};
use crate::expr::{
    balanced, build, exact_children_is_well_formed, expression_of, has_exact_children, node,
    view_of_node, well_formed, Expression,
};
use crate::machine::{
    admits, initial, is_complete, may_be_whole, successor, top, yields, State, StateView, FOURS,
};
use crate::number::{is_finite, is_finite_num};
use std::collections::VecDeque;
use vstd::prelude::*;

verus! {

/// The greatest number of actions in a path.
pub const MAX_SEARCH_DEPTH: usize = 11;

/// A path of the search.
#[derive(Debug)]
pub struct Search {
    path: VecDeque<(State, Action, u64)>,
}

/// What a frame of a path holds.
pub struct Step {
    /// The state that the action led to, with its value on the stack.
    pub state: StateView,
    /// The action taken.
    pub action: Action,
    /// The value that the action gave.
    pub result: u64,
}

impl View for Search {
    type V = Seq<Step>;

    closed spec fn view(&self) -> Seq<Step> {
        Seq::new(
            self.path@.len(),
            |i: int|
                Step {
                    state: self.path@[i].0@,
                    action: self.path@[i].1,
                    result: self.path@[i].2,
                },
        )
    }
}

/// The state in which the action of frame `i` was taken; for `i` the length
/// of the path, the state that the path has reached.
pub open spec fn before(path: Seq<Step>, i: int) -> StateView {
    if i <= 0 {
        initial()
    } else {
        path[i - 1].state
    }
}

/// The state that a path has reached.
pub open spec fn reached(path: Seq<Step>) -> StateView {
    before(path, path.len() as int)
}

/// The actions of a path, in order.
pub open spec fn actions_of(path: Seq<Step>) -> Seq<Action> {
    Seq::new(path.len(), |i: int| path[i].action)
}

/// Whether frame `i` follows from the frame before it by the rules of the
/// machine: the guard of the action admitted it, its value is finite, the
/// state is the successor, the action is not one that is pruned after the
/// one before, and the stack holds no more operands than fours were pushed.
pub open spec fn step_legal(path: Seq<Step>, i: int) -> bool {
    &&& admits(path[i].action, before(path, i))
    &&& is_finite_num(path[i].result)
    &&& path[i].state == successor(path[i].action, before(path, i), path[i].result)
    &&& i > 0 ==> !is_pruned(path[i - 1].action, path[i].action)
    &&& path[i].state.stack.len() <= path[i].state.fours_used <= FOURS
}

/// Whether every frame of a path follows from the one before it.
pub open spec fn legal(path: Seq<Step>) -> bool {
    forall|i: int| 0 <= i < path.len() ==> #[trigger] step_legal(path, i)
}

/// Whether every value of a path is one that the arithmetic may give.
pub open spec fn derived<F: Fn(FloatOp, u64, u64) -> u64>(fpu: &F, path: Seq<Step>) -> bool {
    forall|i: int|
        0 <= i < path.len() ==> #[trigger] yields(
            fpu,
            path[i].action,
            before(path, i),
            path[i].result,
        )
}

impl Search {
    /// The empty path.
    pub fn new() -> (s: Search)
        ensures
            s@ == Seq::<Step>::empty(),
    {
        let s = Search { path: VecDeque::new() };
        assert(s@ =~= Seq::<Step>::empty());
        s
    }

    /// The number of actions taken.
    pub fn len(&self) -> (n: usize)
        ensures
            n == self@.len(),
    {
        self.path.len()
    }

    /// The state that the path has reached.
    pub fn state(&self) -> (s: State)
        ensures
            s@ == reached(self@),
    {
        let n = self.path.len();
        if n == 0 {
            State::new()
        } else {
            self.path[n - 1].0.clone()
        }
    }

    /// Whether the path has used every four and left one operand.
    pub fn is_done(&self) -> (b: bool)
        ensures
            b == is_complete(reached(self@)),
    {
        let n = self.path.len();
        if n == 0 {
            false
        } else {
            self.path[n - 1].0.is_done()
        }
    }

    /// The action taken last, if any.
    pub fn last_action(&self) -> (a: Option<Action>)
        ensures
            a == if self@.len() == 0 {
                None
            } else {
                Some(self@.last().action)
            },
    {
        let n = self.path.len();
        if n == 0 {
            None
        } else {
            Some(self.path[n - 1].1)
        }
    }

    /// The value that the last action gave, if any.
    pub fn last_result(&self) -> (v: Option<u64>)
        ensures
            v == if self@.len() == 0 {
                None
            } else {
                Some(self@.last().result)
            },
    {
        let n = self.path.len();
        if n == 0 {
            None
        } else {
            Some(self.path[n - 1].2)
        }
    }

    /// The actions of the path, in order.
    pub fn actions(&self) -> (v: Vec<Action>)
        ensures
            v@ == actions_of(self@),
    {
        let mut v: Vec<Action> = Vec::new();
        let n = self.path.len();
        let mut i: usize = 0;
        while i < n
            invariant
                n == self.path@.len(),
                i <= n,
                v@.len() == i,
                forall|j: int| 0 <= j < i ==> v@[j] == self@[j].action,
            decreases n - i,
        {
            v.push(self.path[i].1);
            i = i + 1;
        }
        assert(v@ =~= actions_of(self@));
        v
    }
}

/// Along a legal path the construction stack of the expression builder is
/// as deep as the operand stack of the machine.
pub proof fn builder_follows_machine(path: Seq<Step>, k: int)
    requires
        legal(path),
        0 <= k <= path.len(),
    ensures
        build(actions_of(path).take(k)).len() == before(path, k).stack.len(),
    decreases k,
{
    let acts = actions_of(path);
    if k > 0 {
        builder_follows_machine(path, k - 1);
        assert(acts.take(k).drop_last() =~= acts.take(k - 1));
        assert(acts.take(k).last() == path[k - 1].action);
        assert(step_legal(path, k - 1));
    }
}

/// The actions of a legal path are balanced.
pub proof fn legal_is_balanced(path: Seq<Step>)
    requires
        legal(path),
    ensures
        balanced(actions_of(path)),
        build(actions_of(path)).len() == reached(path).stack.len(),
{
    let acts = actions_of(path);
    assert forall|k: int| 0 <= k < acts.len() implies (#[trigger] build(acts.take(k))).len()
        >= arity_of(acts[k]) by {
        builder_follows_machine(path, k);
        assert(step_legal(path, k));
    }
    builder_follows_machine(path, path.len() as int);
    assert(acts.take(path.len() as int) =~= acts);
}

impl Search {
    /// Tries to take one more action. The action is taken where it is not
    /// pruned after the one before, its guard admits it, and its value is
    /// finite; a frame is then added to the path. Otherwise the path is left
    /// as it was.
    pub fn advance<F: Fn(FloatOp, u64, u64) -> u64>(&mut self, a: Action, fpu: &F) -> (taken:
        bool)
        requires
            total(fpu),
            legal(old(self)@),
        ensures
            legal(final(self)@),
            derived(fpu, old(self)@) ==> derived(fpu, final(self)@),
            !taken ==> final(self)@ == old(self)@,
            taken ==> final(self)@.len() == old(self)@.len() + 1,
            taken ==> final(self)@.drop_last() == old(self)@,
            taken ==> final(self)@.last().action == a,
            taken ==> final(self)@.last().state == successor(
                a,
                reached(old(self)@),
                final(self)@.last().result,
            ),
            taken ==> is_finite_num(final(self)@.last().result),
            taken ==> yields(fpu, a, reached(old(self)@), final(self)@.last().result),
            old(self)@.len() > 0 && is_pruned(old(self)@.last().action, a) ==> !taken,
            !admits(a, reached(old(self)@)) ==> !taken,
            !taken ==> (old(self)@.len() > 0 && is_pruned(old(self)@.last().action, a)) || !admits(
                a,
                reached(old(self)@),
            ) || ((a == Action::Floor || a == Action::Ceiling) && may_be_whole(
                fpu,
                top(reached(old(self)@)),
            )) || exists|v: u64| yields(fpu, a, reached(old(self)@), v) && !is_finite_num(v),
    {
        let state = self.state();
        match self.last_action() {
            Some(last) => {
                if a.pruned_after(last) {
                    return false;
                }
            },
            None => {},
        }
        let ghost path = self@;
        proof {
            if path.len() > 0 {
                assert(step_legal(path, path.len() - 1));
            }
        }
        match a.apply(&state, fpu) {
            None => false,
            Some((mut next, taken_action, result)) => {
                if !is_finite(result) {
                    return false;
                }
                // An action that left the state as it was would be an anomaly:
                // every admitted action takes an operand off or counts a four.
                if state == next {
                    return false;
                }
                next.push(result);
                self.path.push_back((next, taken_action, result));
                proof {
                    let grown = self@;
                    assert(grown.drop_last() =~= path);
                    assert forall|i: int| 0 <= i < grown.len() implies #[trigger] step_legal(
                        grown,
                        i,
                    ) by {
                        if i < path.len() {
                            assert(step_legal(path, i));
                            assert(grown[i] == path[i]);
                            assert(before(grown, i) == before(path, i));
                        } else {
                            assert(before(grown, i) == reached(path));
                        }
                    }
                    if derived(fpu, path) {
                        assert forall|i: int| 0 <= i < grown.len() implies #[trigger] yields(
                            fpu,
                            grown[i].action,
                            before(grown, i),
                            grown[i].result,
                        ) by {
                            if i < path.len() {
                                assert(grown[i] == path[i]);
                                assert(before(grown, i) == before(path, i));
                            } else {
                                assert(before(grown, i) == reached(path));
                            }
                        }
                    }
                }
                true
            },
        }
    }

    /// Takes the last action back. An empty path is left as it is.
    pub fn retreat(&mut self)
        ensures
            old(self)@.len() > 0 ==> final(self)@ == old(self)@.drop_last(),
            old(self)@.len() == 0 ==> final(self)@ == old(self)@,
            legal(old(self)@) ==> legal(final(self)@),
    {
        let ghost path = self@;
        let _ = self.path.pop_back();
        proof {
            let rest = self@;
            if path.len() > 0 {
                assert(rest =~= path.drop_last());
            } else {
                assert(rest =~= path);
            }
            if legal(path) {
                assert forall|i: int| 0 <= i < rest.len() implies #[trigger] step_legal(
                    rest,
                    i,
                ) by {
                    assert(step_legal(path, i));
                    assert(before(rest, i) == before(path, i));
                }
            }
        }
    }
}

impl Search {
    /// The expression tree of a path that has left one operand: the actions
    /// are replayed on a stack of trees, where each takes the trees of its
    /// operands off and puts its node there.
    pub fn make_expression(&self) -> (e: Expression)
        requires
            legal(self@),
            reached(self@).stack.len() == 1,
        ensures
            e@ == expression_of(actions_of(self@)),
            well_formed(e@),
            has_exact_children(e),
    {
        let mut stack: VecDeque<Expression> = VecDeque::new();
        let n = self.path.len();
        let ghost acts = actions_of(self@);
        let mut i: usize = 0;
        while i < n
            invariant
                n == self@.len(),
                n == self.path@.len(),
                acts == actions_of(self@),
                legal(self@),
                i <= n,
                stack@.len() == build(acts.take(i as int)).len(),
                forall|j: int|
                    0 <= j < stack@.len() ==> (#[trigger] stack@[j])@ == build(
                        acts.take(i as int),
                    )[j],
                forall|j: int| 0 <= j < stack@.len() ==> well_formed((#[trigger] stack@[j])@),
            decreases n - i,
        {
            let a = self.path[i].1;
            let ghost trees = build(acts.take(i as int));
            proof {
                builder_follows_machine(self@, i as int);
                assert(step_legal(self@, i as int));
                assert(acts.take(i + 1).drop_last() =~= acts.take(i as int));
                assert(acts.take(i + 1).last() == a);
            }
            let mut args: Vec<Expression> = Vec::new();
            let arity = a.arity();
            let ghost held = stack@;
            if arity == 2 {
                let right = stack.pop_back().unwrap();
                let left = stack.pop_back().unwrap();
                args.push(left);
                args.push(right);
                assert(args@[0] == held[held.len() - 2] && args@[1] == held[held.len() - 1]);
            } else if arity == 1 {
                let only = stack.pop_back().unwrap();
                args.push(only);
                assert(args@[0] == held[held.len() - 1]);
            }
            assert(stack@ =~= held.subrange(0, held.len() - arity));
            let made = Expression { action: a, args };
            proof {
                view_of_node(made);
                let want = node(a, trees);
                assert(made@.args.len() == want.args.len());
                assert forall|k: int| 0 <= k < want.args.len() implies made@.args[k]
                    == want.args[k] by {
                    assert(want.args[k] == trees[trees.len() - arity + k]);
                    assert(held[held.len() - arity + k]@ == trees[trees.len() - arity + k]);
                }
                assert(made@.args =~= want.args);
                assert(made@.action == want.action);
                assert(made@ == want);
                assert forall|k: int| 0 <= k < made@.args.len() implies well_formed(
                    #[trigger] made@.args[k],
                ) by {}
            }
            stack.push_back(made);
            i = i + 1;
        }
        proof {
            legal_is_balanced(self@);
            assert(acts.take(n as int) =~= acts);
            exact_children_is_well_formed(stack@[0]);
        }
        stack.pop_back().unwrap()
    }
}

impl Clone for Search {
    fn clone(&self) -> (s: Search)
        ensures
            s@ == self@,
    {
        let mut path: VecDeque<(State, Action, u64)> = VecDeque::new();
        let n = self.path.len();
        let mut i: usize = 0;
        while i < n
            invariant
                n == self.path@.len(),
                i <= n,
                path@.len() == i,
                forall|j: int|
                    0 <= j < i ==> (#[trigger] path@[j]).0@ == self.path@[j].0@ && path@[j].1
                        == self.path@[j].1 && path@[j].2 == self.path@[j].2,
            decreases n - i,
        {
            let frame = &self.path[i];
            path.push_back((frame.0.clone(), frame.1, frame.2));
            i = i + 1;
        }
        let s = Search { path };
        assert(s@ =~= self@);
        s
    }
}

} // verus!
