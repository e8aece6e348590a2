//! What holds of every derivation that the registry accepts, stated over
//! the models of the machine, the path and the table.

use crate::action::{arity_of, is_pruned, Action};
use crate::arith::FloatOp;
use crate::expr::{build, expression_of, node, Tree};
use crate::machine::{
    admits, initial, remainder, successor, top, yields, StateView, FOURS,
};
use crate::number::{num_eq, ZERO};
use crate::registry::{aims_at, candidate, settle, slot_sound, sound, Entry};
use crate::search::{
    actions_of, before, builder_follows_machine, derived, legal, reached, step_legal, Step,
};
use vstd::prelude::*;

verus! {

/// The values of a path, in order.
pub open spec fn results_of(path: Seq<Step>) -> Seq<u64> {
    Seq::new(path.len(), |i: int| path[i].result)
}

/// The state that the machine reaches from its initial state when it takes
/// the actions in order and is given the values in order; `None` where the
/// guard of an action rejects it.
pub open spec fn run(actions: Seq<Action>, results: Seq<u64>) -> Option<StateView>
    decreases actions.len(),
{
    if actions.len() == 0 {
        Some(initial())
    } else {
        match run(actions.drop_last(), results.drop_last()) {
            Some(s) => if admits(actions.last(), s) {
                Some(successor(actions.last(), s, results.last()))
            } else {
                None
            },
            None => None,
        }
    }
}

/// The number of fours that a sequence of actions pushes.
pub open spec fn fours_in(actions: Seq<Action>) -> nat
    decreases actions.len(),
{
    if actions.len() == 0 {
        0
    } else {
        fours_in(actions.drop_last()) + if actions.last() == Action::Push4 {
            1nat
        } else {
            0nat
        }
    }
}

/// The depth of the stack after a sequence of actions, each of which takes
/// its operands and leaves one value.
pub open spec fn depth_after(actions: Seq<Action>) -> int
    decreases actions.len(),
{
    if actions.len() == 0 {
        0
    } else {
        depth_after(actions.drop_last()) + 1 - arity_of(actions.last())
    }
}

/// The machine, run again on the actions and values of the first `k` frames
/// of a legal path, reaches the state recorded there; that state has
/// counted the fours pushed, and its stack is as deep as the actions leave
/// it.
pub proof fn legal_path_replays(path: Seq<Step>, k: int)
    requires
        legal(path),
        0 <= k <= path.len(),
    ensures
        run(actions_of(path).take(k), results_of(path).take(k)) == Some(before(path, k)),
        before(path, k).fours_used == fours_in(actions_of(path).take(k)),
        before(path, k).stack.len() == depth_after(actions_of(path).take(k)),
    decreases k,
{
    let acts = actions_of(path);
    let vals = results_of(path);
    if k > 0 {
        legal_path_replays(path, k - 1);
        assert(acts.take(k).drop_last() =~= acts.take(k - 1));
        assert(vals.take(k).drop_last() =~= vals.take(k - 1));
        assert(acts.take(k).last() == path[k - 1].action);
        assert(vals.take(k).last() == path[k - 1].result);
        assert(step_legal(path, k - 1));
    }
}

/// An action that the guard admits never leaves the state as it was: it
/// takes an operand off the stack or counts a four.
pub proof fn admitted_action_changes_state(a: Action, s: StateView)
    requires
        admits(a, s),
    ensures
        remainder(a, s) != s,
{
    if a != Action::Push4 {
        assert(remainder(a, s).stack.len() < s.stack.len());
    }
}

/// The derivation in a slot, run again from the initial state, uses every
/// four and leaves one operand on the stack: its last value, which the
/// arithmetic may place in that slot. Each of its values is one that the
/// arithmetic may give.
pub proof fn accepted_derivation_replays<F: Fn(FloatOp, u64, u64) -> u64>(
    fpu: &F,
    table: Seq<Option<Entry>>,
    t: int,
)
    requires
        sound(fpu, table),
        0 <= t < table.len(),
        table[t].is_some(),
    ensures
        ({
            let path = table[t]->0.path;
            let value = path.last().result;
            &&& run(actions_of(path), results_of(path)) == Some(
                (StateView { fours_used: FOURS as nat, stack: seq![value] }),
            )
            &&& derived(fpu, path)
            &&& aims_at(fpu, value, table.len(), t as nat)
        }),
{
    let path = table[t]->0.path;
    assert(slot_sound(fpu, table, t));
    legal_path_replays(path, path.len() as int);
    assert(actions_of(path).take(path.len() as int) =~= actions_of(path));
    assert(results_of(path).take(path.len() as int) =~= results_of(path));
    assert(step_legal(path, path.len() - 1));
    assert(reached(path).stack =~= seq![path.last().result]);
}

/// No action of an accepted derivation is one that is pruned after the
/// action before it.
pub proof fn accepted_derivation_has_no_pruned_pair<F: Fn(FloatOp, u64, u64) -> u64>(
    fpu: &F,
    table: Seq<Option<Entry>>,
    t: int,
    i: int,
)
    requires
        sound(fpu, table),
        0 <= t < table.len(),
        table[t].is_some(),
        0 < i < table[t]->0.path.len(),
    ensures
        !is_pruned(table[t]->0.path[i - 1].action, table[t]->0.path[i].action),
{
    assert(slot_sound(fpu, table, t));
    assert(step_legal(table[t]->0.path, i));
}

/// An accepted derivation pushes exactly four fours.
pub proof fn accepted_derivation_uses_four_fours<F: Fn(FloatOp, u64, u64) -> u64>(
    fpu: &F,
    table: Seq<Option<Entry>>,
    t: int,
)
    requires
        sound(fpu, table),
        0 <= t < table.len(),
        table[t].is_some(),
    ensures
        fours_in(actions_of(table[t]->0.path)) == FOURS,
        depth_after(actions_of(table[t]->0.path)) == 1,
{
    let path = table[t]->0.path;
    assert(slot_sound(fpu, table, t));
    legal_path_replays(path, path.len() as int);
    assert(actions_of(path).take(path.len() as int) =~= actions_of(path));
}

/// Every division and every remainder of an accepted derivation was taken
/// with a divisor other than zero on top of the stack.
pub proof fn accepted_derivation_never_divides_by_zero<F: Fn(FloatOp, u64, u64) -> u64>(
    fpu: &F,
    table: Seq<Option<Entry>>,
    t: int,
    i: int,
)
    requires
        sound(fpu, table),
        0 <= t < table.len(),
        table[t].is_some(),
        0 <= i < table[t]->0.path.len(),
        table[t]->0.path[i].action == Action::Div || table[t]->0.path[i].action
            == Action::Modulo,
    ensures
        !num_eq(top(before(table[t]->0.path, i)), ZERO),
{
    assert(slot_sound(fpu, table, t));
    assert(step_legal(table[t]->0.path, i));
}

/// Of two derivations with paths of one length that are offered to an empty
/// slot one after the other, the slot keeps the second where its text is
/// shorter, and the first otherwise: of equals the first one stays.
pub proof fn ties_go_to_the_shorter_text_then_to_the_first(first: Entry, second: Entry)
    requires
        first.path.len() == second.path.len(),
    ensures
        settle(settle(None, first), second) == if second.text.len() < first.text.len() {
            Some(second)
        } else {
            Some(first)
        },
{
}

/// A shorter path wins whatever the texts are, and a longer one never does.
pub proof fn shorter_path_wins(held: Entry, offered: Entry)
    ensures
        offered.path.len() < held.path.len() ==> settle(Some(held), offered) == Some(offered),
        offered.path.len() > held.path.len() ==> settle(Some(held), offered) == Some(held),
{
}

/// Paths with the same actions have the same expression and the same text.
pub proof fn same_actions_same_expression(p: Seq<Step>, q: Seq<Step>)
    requires
        actions_of(p) == actions_of(q),
    ensures
        expression_of(actions_of(p)) == expression_of(actions_of(q)),
        candidate(p).text == candidate(q).text,
{
}

/// The number of nodes of a tree.
pub open spec fn nodes(t: Tree) -> nat
    decreases t, 1nat,
{
    1 + nodes_in(t.args)
}

/// The number of nodes of the trees of a sequence.
pub open spec fn nodes_in(trees: Seq<Tree>) -> nat
    decreases trees, 0nat,
{
    if trees.len() == 0 {
        0
    } else {
        nodes_in(trees.drop_last()) + nodes(trees.last())
    }
}

/// The nodes of two sequences of trees, put end to end, add up.
pub proof fn nodes_add_up(front: Seq<Tree>, back: Seq<Tree>)
    ensures
        nodes_in(front + back) == nodes_in(front) + nodes_in(back),
    decreases back.len(),
{
    if back.len() == 0 {
        assert(front + back =~= front);
    } else {
        nodes_add_up(front, back.drop_last());
        assert((front + back).drop_last() =~= front + back.drop_last());
        assert((front + back).last() == back.last());
    }
}

/// The trees that the builder holds after the first `k` actions of a legal
/// path have one node for each of those actions.
pub proof fn builder_makes_a_node_for_each_action(path: Seq<Step>, k: int)
    requires
        legal(path),
        0 <= k <= path.len(),
    ensures
        nodes_in(build(actions_of(path).take(k))) == k,
    decreases k,
{
    let acts = actions_of(path);
    if k > 0 {
        builder_makes_a_node_for_each_action(path, k - 1);
        builder_follows_machine(path, k - 1);
        assert(acts.take(k).drop_last() =~= acts.take(k - 1));
        assert(acts.take(k).last() == path[k - 1].action);
        assert(step_legal(path, k - 1));
        let held = build(acts.take(k - 1));
        let a = path[k - 1].action;
        let kept = held.subrange(0, held.len() - arity_of(a));
        let taken = held.subrange(held.len() - arity_of(a), held.len() as int);
        assert(held =~= kept + taken);
        nodes_add_up(kept, taken);
        let made = kept.push(node(a, held));
        assert(build(acts.take(k)) == made);
        assert(made.drop_last() =~= kept);
        assert(made.last() == node(a, held));
        assert(node(a, held).args == taken);
        assert(nodes(node(a, held)) == 1 + nodes_in(taken));
        assert(nodes_in(made) == nodes_in(made.drop_last()) + nodes(made.last()));
    } else {
        assert(acts.take(0).len() == 0);
    }
}

/// The expression of a legal path that has left one operand has one node for
/// each action of the path.
pub proof fn expression_has_a_node_for_each_action(path: Seq<Step>)
    requires
        legal(path),
        reached(path).stack.len() == 1,
    ensures
        nodes(expression_of(actions_of(path))) == path.len(),
{
    let acts = actions_of(path);
    builder_makes_a_node_for_each_action(path, path.len() as int);
    builder_follows_machine(path, path.len() as int);
    assert(acts.take(path.len() as int) =~= acts);
    let trees = build(acts);
    assert(trees.drop_last() =~= Seq::<Tree>::empty());
    assert(trees.last() == trees[0]);
    assert(nodes_in(trees.drop_last()) == 0);
    assert(nodes_in(trees) == nodes_in(trees.drop_last()) + nodes(trees.last()));
}

/// The state that holds the given operands and nothing else.
pub open spec fn holding(operands: Seq<u64>) -> StateView {
    StateView { fours_used: 0, stack: operands }
}

/// Holds of every operand. It stands in `evaluates_to` beside each value
/// taken for a child, so that a proof names that value by asserting it.
pub open spec fn chosen(x: u64) -> bool {
    true
}

/// Whether `v` is a value that the arithmetic may give for a tree: the value
/// that the action of its root may give on values of its children, the first
/// child's as the left-hand operand and the second child's as the right-hand
/// one.
pub open spec fn evaluates_to<F: Fn(FloatOp, u64, u64) -> u64>(fpu: &F, t: Tree, v: u64) -> bool
    decreases t,
{
    if t.args.len() != arity_of(t.action) {
        false
    } else if t.args.len() == 0 {
        yields(fpu, t.action, holding(Seq::empty()), v)
    } else if t.args.len() == 1 {
        exists|x: u64|
            #![trigger chosen(x)]
            chosen(x) && evaluates_to(fpu, t.args[0], x) && yields(
                fpu,
                t.action,
                holding(seq![x]),
                v,
            )
    } else {
        exists|x: u64, y: u64|
            #![trigger chosen(x), chosen(y)]
            chosen(x) && chosen(y) && evaluates_to(fpu, t.args[0], x) && evaluates_to(
                fpu,
                t.args[1],
                y,
            ) && yields(fpu, t.action, holding(seq![x, y]), v)
    }
}

/// What an action may give depends on the operands it takes and on nothing
/// else in the state.
pub proof fn yields_by_operands<F: Fn(FloatOp, u64, u64) -> u64>(
    fpu: &F,
    a: Action,
    s: StateView,
    v: u64,
)
    requires
        s.stack.len() >= arity_of(a),
    ensures
        yields(fpu, a, s, v) == yields(
            fpu,
            a,
            holding(s.stack.subrange(s.stack.len() - arity_of(a), s.stack.len() as int)),
            v,
        ),
{
}

/// After the first `k` actions of a legal path whose values the arithmetic
/// may give, each tree that the builder holds evaluates to the operand at
/// its place on the stack.
pub proof fn builder_trees_evaluate_to_the_stack<F: Fn(FloatOp, u64, u64) -> u64>(
    fpu: &F,
    path: Seq<Step>,
    k: int,
    j: int,
)
    requires
        legal(path),
        derived(fpu, path),
        0 <= k <= path.len(),
        0 <= j < before(path, k).stack.len(),
    ensures
        build(actions_of(path).take(k)).len() == before(path, k).stack.len(),
        evaluates_to(fpu, build(actions_of(path).take(k))[j], before(path, k).stack[j]),
    decreases k,
{
    let acts = actions_of(path);
    builder_follows_machine(path, k);
    if k > 0 {
        builder_follows_machine(path, k - 1);
        assert(acts.take(k).drop_last() =~= acts.take(k - 1));
        assert(acts.take(k).last() == path[k - 1].action);
        assert(step_legal(path, k - 1));
        assert(yields(fpu, path[k - 1].action, before(path, k - 1), path[k - 1].result));
        let held = build(acts.take(k - 1));
        let s = before(path, k - 1);
        let a = path[k - 1].action;
        let r = path[k - 1].result;
        let n = held.len() as int;
        let base = n - arity_of(a);
        let made = node(a, held);
        assert(build(acts.take(k)) == held.subrange(0, base).push(made));
        assert(before(path, k).stack == s.stack.subrange(0, base).push(r));
        if j < base {
            builder_trees_evaluate_to_the_stack(fpu, path, k - 1, j);
            assert(build(acts.take(k))[j] == held[j]);
            assert(before(path, k).stack[j] == s.stack[j]);
        } else {
            yields_by_operands(fpu, a, s, r);
            assert(build(acts.take(k))[j] == made);
            assert(before(path, k).stack[j] == r);
            assert(made.args.len() == arity_of(a));
            if arity_of(a) == 0 {
                assert(s.stack.subrange(n, n) =~= Seq::<u64>::empty());
                assert(yields(fpu, a, holding(Seq::empty()), r));
                assert(evaluates_to(fpu, made, r));
            } else if arity_of(a) == 1 {
                builder_trees_evaluate_to_the_stack(fpu, path, k - 1, n - 1);
                assert(made.args[0] == held[n - 1]);
                assert(s.stack.subrange(n - 1, n) =~= seq![s.stack[n - 1]]);
                assert(evaluates_to(fpu, made.args[0], s.stack[n - 1]));
                assert(yields(fpu, a, holding(seq![s.stack[n - 1]]), r));
                assert(chosen(s.stack[n - 1]));
                assert(evaluates_to(fpu, made, r));
            } else {
                builder_trees_evaluate_to_the_stack(fpu, path, k - 1, n - 2);
                builder_trees_evaluate_to_the_stack(fpu, path, k - 1, n - 1);
                assert(made.args[0] == held[n - 2]);
                assert(made.args[1] == held[n - 1]);
                assert(s.stack.subrange(n - 2, n) =~= seq![s.stack[n - 2], s.stack[n - 1]]);
                assert(evaluates_to(fpu, made.args[0], s.stack[n - 2]));
                assert(evaluates_to(fpu, made.args[1], s.stack[n - 1]));
                assert(yields(fpu, a, holding(seq![s.stack[n - 2], s.stack[n - 1]]), r));
                assert(chosen(s.stack[n - 2]) && chosen(s.stack[n - 1]));
                assert(evaluates_to(fpu, made, r));
            }
        }
    }
}

/// The expression of a derivation denotes its value: the tree of a legal
/// path that has left one operand, with values that the arithmetic may give,
/// evaluates to the last value of the path.
pub proof fn expression_evaluates_to_the_value<F: Fn(FloatOp, u64, u64) -> u64>(
    fpu: &F,
    path: Seq<Step>,
)
    requires
        legal(path),
        derived(fpu, path),
        reached(path).stack.len() == 1,
    ensures
        path.len() > 0,
        evaluates_to(fpu, expression_of(actions_of(path)), path.last().result),
{
    let acts = actions_of(path);
    builder_trees_evaluate_to_the_stack(fpu, path, path.len() as int, 0);
    assert(acts.take(path.len() as int) =~= acts);
    assert(step_legal(path, path.len() - 1));
}

} // verus!
