//! The backtracking search: from the path it is given, it tries every action
//! of the catalog in order, offers each complete derivation to the registry,
//! goes deeper while the path is short enough, and takes each action back
//! before it tries the next.

use crate::action::{catalog_lists_each_action_once, is_pruned, position, Action, CATALOG_LEN};
use crate::arith::{deterministic, total, FloatOp};
use crate::machine::{
    admits, is_complete, may_be_whole, successor, top, whole_or_fractional, yields,
    yields_one_value,
};
use crate::number::is_finite_num;
use crate::registry::{
    aims_at, candidate, offered, prefers, settle, sound, value_has_one_place, Entry, Registry,
};
use crate::search::{
    before, derived, legal, reached, step_legal, Search, Step, MAX_SEARCH_DEPTH,
};
use vstd::prelude::*;

verus! {

/// Whether the search from the path `from` reaches the complete derivation
/// `p`: it is legal, its values are ones that the arithmetic may give, it
/// goes on from `from` by at least one action, none of its states on the way
/// is complete, and it is within the depth allowed, or one action beyond
/// `from`.
pub open spec fn in_reach<F: Fn(FloatOp, u64, u64) -> u64>(
    fpu: &F,
    from: Seq<Step>,
    p: Seq<Step>,
) -> bool {
    &&& legal(p)
    &&& derived(fpu, p)
    &&& is_complete(reached(p))
    &&& from.len() < p.len()
    &&& p.take(from.len() as int) == from
    &&& p.len() <= MAX_SEARCH_DEPTH || p.len() == from.len() + 1
    &&& forall|j: int| from.len() < j < p.len() ==> !is_complete(#[trigger] before(p, j))
}

/// Whether what a slot holds after a search from `path` is what it held
/// before, or a better derivation that the search reaches.
pub open spec fn improved_from<F: Fn(FloatOp, u64, u64) -> u64>(
    fpu: &F,
    path: Seq<Step>,
    before: Option<Entry>,
    after: Option<Entry>,
) -> bool {
    after == before || (after matches Some(e) && prefers(e.path.len(), e.text.len(), before)
        && in_reach(fpu, path, e.path))
}

/// Whether a table after a search from `path` has the slots it had before,
/// each holding what it held or a better derivation that the search reaches.
pub open spec fn advanced_from<F: Fn(FloatOp, u64, u64) -> u64>(
    fpu: &F,
    path: Seq<Step>,
    before: Seq<Option<Entry>>,
    after: Seq<Option<Entry>>,
) -> bool {
    &&& after.len() == before.len()
    &&& forall|t: int|
        0 <= t < before.len() ==> improved_from(fpu, path, before[t], #[trigger] after[t])
}

/// Whether the table holds, in each slot that the arithmetic may place the
/// derivation `p` in, a derivation that `p` is not better than.
pub open spec fn covered<F: Fn(FloatOp, u64, u64) -> u64>(
    fpu: &F,
    table: Seq<Option<Entry>>,
    p: Seq<Step>,
) -> bool {
    forall|t: int|
        0 <= t < table.len() && #[trigger] aims_at(fpu, p.last().result, table.len(), t as nat)
            ==> table[t].is_some() && !prefers(p.len(), candidate(p).text.len(), table[t])
}

/// Whether the derivation `p` is as good as what a slot holds: a path as
/// long, a text as long.
pub open spec fn ties(p: Seq<Step>, e: Entry) -> bool {
    p.len() == e.path.len() && candidate(p).text.len() == e.text.len()
}

/// Whether the search comes to the path `q` no later than to the path `p`,
/// both going the same way up to frame `from`: they are one path, or where
/// they part, the action of `q` stands earlier in the catalog.
pub open spec fn precedes(q: Seq<Step>, p: Seq<Step>, from: int) -> bool {
    q == p || exists|k: int|
        from <= k < q.len() && k < p.len() && #[trigger] q.take(k) == p.take(k) && position(
            q[k].action,
        ) < position(p[k].action)
}

/// Whether each slot that the arithmetic may place the derivation `p` in,
/// where it holds a derivation that `p` is as good as, holds what it held
/// before the search from `from`, or one that the search came to no later
/// than to `p`.
pub open spec fn first_among_ties<F: Fn(FloatOp, u64, u64) -> u64>(
    fpu: &F,
    before: Seq<Option<Entry>>,
    after: Seq<Option<Entry>>,
    from: Seq<Step>,
    p: Seq<Step>,
) -> bool {
    forall|t: int|
        0 <= t < after.len() && #[trigger] aims_at(fpu, p.last().result, after.len(), t as nat)
            && after[t].is_some() && ties(p, after[t]->0) ==> after[t] == before[t] || precedes(
            after[t]->0.path,
            p,
            from.len() as int,
        )
}

/// Whether each slot holds what it held before, or a derivation that goes on
/// from `path` with one of the first `i` actions of the catalog.
pub open spec fn visited(
    path: Seq<Step>,
    before: Seq<Option<Entry>>,
    after: Seq<Option<Entry>>,
    i: int,
) -> bool {
    forall|t: int|
        0 <= t < after.len() ==> #[trigger] after[t] == before[t] || (after[t].is_some()
            && path.len() < after[t]->0.path.len() && position(
            after[t]->0.path[path.len() as int].action,
        ) < i)
}

/// Whether each slot holds what it held before, or a derivation that goes on
/// from `longer`.
pub open spec fn grown_through(
    longer: Seq<Step>,
    before: Seq<Option<Entry>>,
    after: Seq<Option<Entry>>,
) -> bool {
    forall|t: int|
        0 <= t < after.len() ==> #[trigger] after[t] == before[t] || (after[t].is_some()
            && longer.len() <= after[t]->0.path.len() && after[t]->0.path.take(
            longer.len() as int,
        ) == longer)
}

/// Improvements follow one another: what improves on an improvement improves
/// on what came first.
pub proof fn improvements_compose<F: Fn(FloatOp, u64, u64) -> u64>(
    fpu: &F,
    path: Seq<Step>,
    first: Seq<Option<Entry>>,
    second: Seq<Option<Entry>>,
    third: Seq<Option<Entry>>,
)
    requires
        advanced_from(fpu, path, first, second),
        advanced_from(fpu, path, second, third),
    ensures
        advanced_from(fpu, path, first, third),
{
    assert forall|t: int| 0 <= t < first.len() implies improved_from(
        fpu,
        path,
        first[t],
        #[trigger] third[t],
    ) by {
        assert(improved_from(fpu, path, first[t], second[t]));
        assert(improved_from(fpu, path, second[t], third[t]));
    }
}

/// What the search reaches from a path with one more frame, whose state is
/// not complete and which is short enough to be searched from, it reaches
/// from the path without that frame.
proof fn reach_ascends<F: Fn(FloatOp, u64, u64) -> u64>(
    fpu: &F,
    path: Seq<Step>,
    longer: Seq<Step>,
    q: Seq<Step>,
)
    requires
        longer.len() == path.len() + 1,
        longer.take(path.len() as int) == path,
        !is_complete(reached(longer)),
        longer.len() < MAX_SEARCH_DEPTH,
        in_reach(fpu, longer, q),
    ensures
        in_reach(fpu, path, q),
        q.take(longer.len() as int) == longer,
{
    let n = path.len() as int;
    assert(q.take(n) =~= q.take(n + 1).take(n));
    assert forall|j: int| n < j < q.len() implies !is_complete(#[trigger] before(q, j)) by {
        if j == n + 1 {
            assert(q.take(n + 1)[n] == q[n]);
            assert(before(q, j) == reached(longer));
        }
    }
}

/// A table that a deeper search has improved is improved for the search
/// that went deeper, by derivations that go on from the deeper path.
proof fn deeper_improves<F: Fn(FloatOp, u64, u64) -> u64>(
    fpu: &F,
    path: Seq<Step>,
    longer: Seq<Step>,
    held: Seq<Option<Entry>>,
    after: Seq<Option<Entry>>,
)
    requires
        longer.len() == path.len() + 1,
        longer.take(path.len() as int) == path,
        !is_complete(reached(longer)),
        longer.len() < MAX_SEARCH_DEPTH,
        advanced_from(fpu, longer, held, after),
    ensures
        advanced_from(fpu, path, held, after),
        grown_through(longer, held, after),
{
    assert forall|t: int| 0 <= t < held.len() implies improved_from(
        fpu,
        path,
        held[t],
        #[trigger] after[t],
    ) && (after[t] == held[t] || (after[t].is_some() && longer.len() <= after[t]->0.path.len()
        && after[t]->0.path.take(longer.len() as int) == longer)) by {
        assert(improved_from(fpu, longer, held[t], after[t]));
        if after[t] != held[t] {
            reach_ascends(fpu, path, longer, after[t]->0.path);
        }
    }
}

/// A table that was offered a complete derivation one frame longer than the
/// path is improved for the search from the path, by that derivation if by
/// any.
proof fn offer_improves<F: Fn(FloatOp, u64, u64) -> u64>(
    fpu: &F,
    path: Seq<Step>,
    longer: Seq<Step>,
    held: Seq<Option<Entry>>,
    after: Seq<Option<Entry>>,
    accepted: bool,
)
    requires
        longer.len() == path.len() + 1,
        longer.take(path.len() as int) == path,
        legal(longer),
        derived(fpu, longer),
        is_complete(reached(longer)),
        after.len() == held.len(),
        !accepted ==> after == held,
        offered(fpu, held, after, longer, accepted),
    ensures
        advanced_from(fpu, path, held, after),
        grown_through(longer, held, after),
{
    assert(in_reach(fpu, path, longer));
    assert(longer.take(longer.len() as int) =~= longer);
    if accepted {
        let t = choose|t: int|
            0 <= t < held.len() && aims_at(fpu, longer.last().result, held.len(), t as nat)
                && accepted == prefers(
                longer.len(),
                candidate(longer).text.len(),
                #[trigger] held[t],
            ) && after == held.update(t, settle(held[t], candidate(longer)));
        assert forall|u: int| 0 <= u < held.len() implies improved_from(
            fpu,
            path,
            held[u],
            #[trigger] after[u],
        ) && (after[u] == held[u] || (after[u].is_some() && longer.len()
            <= after[u]->0.path.len() && after[u]->0.path.take(longer.len() as int) == longer)) by {
            if u != t {
                assert(after[u] == held[u]);
            }
        }
    }
}

/// Once the search has gone through the action at place `i` of the catalog,
/// what the slots have taken goes on from the path with one of the first
/// `i + 1` actions.
proof fn visited_grows(
    path: Seq<Step>,
    longer: Seq<Step>,
    table: Seq<Option<Entry>>,
    held: Seq<Option<Entry>>,
    after: Seq<Option<Entry>>,
    i: int,
)
    requires
        longer.len() == path.len() + 1,
        position(longer[path.len() as int].action) == i,
        after.len() == held.len(),
        visited(path, table, held, i),
        grown_through(longer, held, after),
    ensures
        visited(path, table, after, i + 1),
{
    let n = path.len() as int;
    assert forall|t: int| 0 <= t < after.len() implies #[trigger] after[t] == table[t] || (
    after[t].is_some() && path.len() < after[t]->0.path.len() && position(
        after[t]->0.path[n].action,
    ) < i + 1) by {
        if after[t] == held[t] {
            assert(held[t] == table[t] || (held[t].is_some() && path.len()
                < held[t]->0.path.len() && position(held[t]->0.path[n].action) < i));
        } else {
            let q = after[t]->0.path;
            assert(q.take(n + 1)[n] == q[n]);
        }
    }
}

/// A derivation stays covered, and stays first among ties, while the slots
/// of the table only improve.
proof fn covered_persists<F: Fn(FloatOp, u64, u64) -> u64>(
    fpu: &F,
    path: Seq<Step>,
    table: Seq<Option<Entry>>,
    held: Seq<Option<Entry>>,
    after: Seq<Option<Entry>>,
    p: Seq<Step>,
)
    requires
        covered(fpu, held, p),
        first_among_ties(fpu, table, held, path, p),
        advanced_from(fpu, path, held, after),
    ensures
        covered(fpu, after, p),
        first_among_ties(fpu, table, after, path, p),
{
    assert forall|t: int|
        0 <= t < after.len() && #[trigger] aims_at(
            fpu,
            p.last().result,
            after.len(),
            t as nat,
        ) implies after[t].is_some() && !prefers(p.len(), candidate(p).text.len(), after[t]) && (
    ties(p, after[t]->0) ==> after[t] == table[t] || precedes(
        after[t]->0.path,
        p,
        path.len() as int,
    )) by {
        assert(improved_from(fpu, path, held[t], after[t]));
    }
}

/// With arithmetic that gives one result for each request, the first action
/// of a derivation in reach is taken when it is tried.
proof fn step_in_reach_is_taken<F: Fn(FloatOp, u64, u64) -> u64>(
    fpu: &F,
    path: Seq<Step>,
    p: Seq<Step>,
)
    requires
        deterministic(fpu),
        in_reach(fpu, path, p),
    ensures
        ({
            let a = p[path.len() as int].action;
            let s = reached(path);
            &&& !(path.len() > 0 && is_pruned(path.last().action, a))
            &&& admits(a, s)
            &&& !((a == Action::Floor || a == Action::Ceiling) && may_be_whole(fpu, top(s)))
            &&& forall|v: u64| yields(fpu, a, s, v) ==> is_finite_num(v)
        }),
{
    let n = path.len() as int;
    let a = p[n].action;
    let s = reached(path);
    assert(step_legal(p, n));
    assert(yields(fpu, p[n].action, before(p, n), p[n].result));
    if n > 0 {
        assert(p.take(n)[n - 1] == p[n - 1]);
    }
    assert(before(p, n) == s);
    whole_or_fractional(fpu, top(s));
    assert forall|v: u64| yields(fpu, a, s, v) implies is_finite_num(v) by {
        yields_one_value(fpu, a, s, v, p[n].result);
    }
}

/// With arithmetic that gives one result for each request, the frame that
/// the first action of a derivation in reach adds to the path is the frame of
/// that derivation.
proof fn taken_step_is_the_step<F: Fn(FloatOp, u64, u64) -> u64>(
    fpu: &F,
    path: Seq<Step>,
    longer: Seq<Step>,
    p: Seq<Step>,
)
    requires
        deterministic(fpu),
        in_reach(fpu, path, p),
        longer.len() == path.len() + 1,
        longer.drop_last() == path,
        longer.last().action == p[path.len() as int].action,
        yields(fpu, longer.last().action, reached(path), longer.last().result),
        longer.last().state == successor(
            longer.last().action,
            reached(path),
            longer.last().result,
        ),
    ensures
        longer == p.take(path.len() as int + 1),
{
    let n = path.len() as int;
    assert(step_legal(p, n));
    assert(yields(fpu, p[n].action, before(p, n), p[n].result));
    if n > 0 {
        assert(p.take(n)[n - 1] == p[n - 1]);
    }
    assert(before(p, n) == reached(path));
    yields_one_value(fpu, p[n].action, reached(path), longer.last().result, p[n].result);
    assert forall|k: int| 0 <= k < n + 1 implies longer[k] == p.take(n + 1)[k] by {
        if k < n {
            assert(longer[k] == longer.drop_last()[k]);
            assert(p.take(n)[k] == p[k]);
        }
    }
    assert(longer =~= p.take(n + 1));
}

/// A derivation in reach whose first frame does not complete it is in reach
/// of the path with that frame, which is short enough to be searched from.
proof fn reach_descends<F: Fn(FloatOp, u64, u64) -> u64>(
    fpu: &F,
    path: Seq<Step>,
    longer: Seq<Step>,
    p: Seq<Step>,
)
    requires
        in_reach(fpu, path, p),
        longer == p.take(path.len() as int + 1),
        !is_complete(reached(longer)),
    ensures
        in_reach(fpu, longer, p),
        longer.len() < MAX_SEARCH_DEPTH,
{
    let n = path.len() as int;
    assert(reached(longer) == before(p, n + 1));
    if p.len() == n + 1 {
        assert(before(p, n + 1) == reached(p));
    }
}

/// A derivation in reach whose first frame completes it is that frame's
/// path.
proof fn reach_ends<F: Fn(FloatOp, u64, u64) -> u64>(
    fpu: &F,
    path: Seq<Step>,
    longer: Seq<Step>,
    p: Seq<Step>,
)
    requires
        in_reach(fpu, path, p),
        longer == p.take(path.len() as int + 1),
        is_complete(reached(longer)),
    ensures
        longer == p,
{
    let n = path.len() as int;
    assert(reached(longer) == before(p, n + 1));
    if p.len() > n + 1 {
        assert(!is_complete(before(p, n + 1)));
    }
    assert(p.take(p.len() as int) =~= p);
}

/// What a slot held before the search went through the action at place `i`
/// and holds unchanged, it held before the search, or took from a path that
/// the search came to before any path that goes on with that action.
proof fn held_precedes<F: Fn(FloatOp, u64, u64) -> u64>(
    fpu: &F,
    path: Seq<Step>,
    table: Seq<Option<Entry>>,
    held: Seq<Option<Entry>>,
    p: Seq<Step>,
    t: int,
)
    requires
        advanced_from(fpu, path, table, held),
        visited(path, table, held, position(p[path.len() as int].action)),
        path.len() < p.len(),
        p.take(path.len() as int) == path,
        0 <= t < held.len(),
        held[t].is_some(),
    ensures
        held[t] == table[t] || precedes(held[t]->0.path, p, path.len() as int),
{
    let n = path.len() as int;
    assert(held[t] == table[t] || (held[t].is_some() && path.len() < held[t]->0.path.len()
        && position(held[t]->0.path[n].action) < position(p[n].action)));
    assert(improved_from(fpu, path, table[t], held[t]));
    if held[t] != table[t] {
        let q = held[t]->0.path;
        assert(q.take(n) == p.take(n));
    }
}

/// With arithmetic that gives one result for each request, a complete
/// derivation one frame longer than the path is covered once it was offered,
/// and is first among ties.
proof fn offered_is_covered<F: Fn(FloatOp, u64, u64) -> u64>(
    fpu: &F,
    path: Seq<Step>,
    table: Seq<Option<Entry>>,
    held: Seq<Option<Entry>>,
    after: Seq<Option<Entry>>,
    p: Seq<Step>,
    accepted: bool,
)
    requires
        deterministic(fpu),
        advanced_from(fpu, path, table, held),
        visited(path, table, held, position(p[path.len() as int].action)),
        path.len() < p.len(),
        p.take(path.len() as int) == path,
        after.len() == held.len(),
        !accepted ==> after == held,
        offered(fpu, held, after, p, accepted),
    ensures
        covered(fpu, after, p),
        first_among_ties(fpu, table, after, path, p),
{
    assert forall|u: int|
        0 <= u < after.len() && #[trigger] aims_at(
            fpu,
            p.last().result,
            after.len(),
            u as nat,
        ) implies after[u].is_some() && !prefers(p.len(), candidate(p).text.len(), after[u]) && (
    ties(p, after[u]->0) ==> after[u] == table[u] || precedes(
        after[u]->0.path,
        p,
        path.len() as int,
    )) by {
        value_has_one_place(fpu, p.last().result, held.len(), u as nat, u as nat);
        let t = choose|t: int|
            0 <= t < held.len() && aims_at(fpu, p.last().result, held.len(), t as nat)
                && accepted == prefers(p.len(), candidate(p).text.len(), #[trigger] held[t])
                && after == held.update(t, settle(held[t], candidate(p)));
        value_has_one_place(fpu, p.last().result, held.len(), t as nat, u as nat);
        if !accepted {
            held_precedes(fpu, path, table, held, p, u);
        }
    }
}

/// With arithmetic that gives one result for each request, a derivation
/// that a deeper search has left first among ties is first among ties for
/// the search that went deeper.
proof fn descended_is_first<F: Fn(FloatOp, u64, u64) -> u64>(
    fpu: &F,
    path: Seq<Step>,
    longer: Seq<Step>,
    table: Seq<Option<Entry>>,
    held: Seq<Option<Entry>>,
    after: Seq<Option<Entry>>,
    p: Seq<Step>,
)
    requires
        advanced_from(fpu, path, table, held),
        visited(path, table, held, position(p[path.len() as int].action)),
        path.len() < p.len(),
        p.take(path.len() as int) == path,
        longer.len() == path.len() + 1,
        after.len() == held.len(),
        covered(fpu, after, p),
        first_among_ties(fpu, held, after, longer, p),
    ensures
        first_among_ties(fpu, table, after, path, p),
{
    assert forall|t: int|
        0 <= t < after.len() && #[trigger] aims_at(
            fpu,
            p.last().result,
            after.len(),
            t as nat,
        ) && after[t].is_some() && ties(p, after[t]->0) implies after[t] == table[t] || precedes(
        after[t]->0.path,
        p,
        path.len() as int,
    ) by {
        if after[t] == held[t] {
            held_precedes(fpu, path, table, held, p, t);
        }
    }
}

/// Searches from the path given and leaves it as it was. Every complete
/// derivation that is reached within the depth allowed is offered to the
/// registry, whose slots keep what they held or take something better that
/// the search reaches. With arithmetic that gives one result for each
/// request, no derivation in reach is better than what its slot holds
/// afterwards, and of those as good, the slot holds what it held before or
/// the one that the search came to first.
pub fn explore<F: Fn(FloatOp, u64, u64) -> u64>(
    search: &mut Search,
    found: &mut Registry,
    fpu: &F,
)
    requires
        total(fpu),
        legal(old(search)@),
        derived(fpu, old(search)@),
        old(search)@.len() <= MAX_SEARCH_DEPTH,
        sound(fpu, old(found)@),
    ensures
        final(search)@ == old(search)@,
        sound(fpu, final(found)@),
        advanced_from(fpu, old(search)@, old(found)@, final(found)@),
        deterministic(fpu) ==> forall|p: Seq<Step>| #[trigger]
            in_reach(fpu, old(search)@, p) ==> covered(fpu, final(found)@, p)
                && first_among_ties(fpu, old(found)@, final(found)@, old(search)@, p),
    decreases MAX_SEARCH_DEPTH - old(search)@.len(),
{
    let ghost path = search@;
    let ghost table = found@;
    let mut i: usize = 0;
    while i < CATALOG_LEN
        invariant
            total(fpu),
            i <= CATALOG_LEN,
            search@ == path,
            path == old(search)@,
            legal(path),
            derived(fpu, path),
            path.len() <= MAX_SEARCH_DEPTH,
            sound(fpu, found@),
            advanced_from(fpu, path, table, found@),
            visited(path, table, found@, i as int),
            deterministic(fpu) ==> forall|p: Seq<Step>| #[trigger]
                in_reach(fpu, path, p) && position(p[path.len() as int].action) < i ==> covered(
                    fpu,
                    found@,
                    p,
                ) && first_among_ties(fpu, table, found@, path, p),
        decreases CATALOG_LEN - i,
    {
        let a = Action::VALUES[i];
        let ghost held = found@;
        let taken = search.advance(a, fpu);
        let ghost longer = search@;
        let mut done = false;
        let mut accepted = false;
        if taken {
            assert(longer.take(path.len() as int) =~= path);
            done = search.is_done();
            if done {
                accepted = found.offer(search, fpu);
                proof {
                    offer_improves(fpu, path, longer, held, found@, accepted);
                }
            } else if search.len() < MAX_SEARCH_DEPTH {
                explore(search, found, fpu);
                proof {
                    deeper_improves(fpu, path, longer, held, found@);
                }
            } else {
                assert(grown_through(longer, held, found@));
                assert(advanced_from(fpu, path, held, found@));
            }
            proof {
                catalog_lists_each_action_once(a);
                improvements_compose(fpu, path, table, held, found@);
                visited_grows(path, longer, table, held, found@, i as int);
            }
            search.retreat();
        }
        proof {
            catalog_lists_each_action_once(a);
            if deterministic(fpu) {
                assert forall|p: Seq<Step>| #[trigger]
                    in_reach(fpu, path, p) && position(p[path.len() as int].action) < i
                        + 1 implies covered(fpu, found@, p) && first_among_ties(
                    fpu,
                    table,
                    found@,
                    path,
                    p,
                ) by {
                    if position(p[path.len() as int].action) < i {
                        if taken {
                            covered_persists(fpu, path, table, held, found@, p);
                        }
                    } else {
                        catalog_lists_each_action_once(p[path.len() as int].action);
                        assert(p[path.len() as int].action == a);
                        step_in_reach_is_taken(fpu, path, p);
                        taken_step_is_the_step(fpu, path, longer, p);
                        if done {
                            reach_ends(fpu, path, longer, p);
                            offered_is_covered(fpu, path, table, held, found@, p, accepted);
                        } else {
                            reach_descends(fpu, path, longer, p);
                            descended_is_first(fpu, path, longer, table, held, found@, p);
                        }
                    }
                }
            }
        }
        i = i + 1;
    }
    proof {
        if deterministic(fpu) {
            assert forall|p: Seq<Step>| #[trigger] in_reach(fpu, path, p) implies covered(
                fpu,
                found@,
                p,
            ) && first_among_ties(fpu, table, found@, path, p) by {
                catalog_lists_each_action_once(p[path.len() as int].action);
            }
        }
    }
}

} // verus!
