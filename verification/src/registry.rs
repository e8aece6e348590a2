//! The registry of results: one slot for each target, holding the best
//! derivation found for it so far.
//!
//! A derivation is better than another where its path is shorter, or as long
//! and its text shorter. A slot is filled or replaced only by a derivation
//! that is better than what it holds, so of equals the first one stays.

use crate::arith::{computes, deterministic, total, FloatOp};
use crate::expr::{expression_of, text_of};
use crate::machine::is_complete;
use crate::number::{
    abs, integer_value, is_integral, le, lt, magnitude, num_le, num_lt, strict_f64_to_i64,
    strict_integer_is_exact, TEN_MILLIONTH, ZERO,
};
use crate::search::{actions_of, derived, legal, reached, Search, Step};
use vstd::prelude::*;
use vstd::string::StrSliceExecFns;

verus! {

/// A derivation that the registry holds, with its text.
#[derive(Debug)]
pub struct Slot {
    search: Search,
    rendered: String,
}

/// What a slot holds.
pub struct Entry {
    /// The path of the derivation.
    pub path: Seq<Step>,
    /// The text of its expression.
    pub text: Seq<char>,
}

impl View for Slot {
    type V = Entry;

    closed spec fn view(&self) -> Entry {
        Entry { path: self.search@, text: self.rendered@ }
    }
}

impl Slot {
    /// The path of the derivation.
    pub fn search(&self) -> (s: &Search)
        ensures
            s@ == self@.path,
    {
        &self.search
    }

    /// The text of its expression.
    pub fn rendered(&self) -> (s: &String)
        ensures
            s@ == self@.text,
    {
        &self.rendered
    }
}

/// The registry.
#[derive(Debug)]
pub struct Registry {
    slots: Vec<Option<Slot>>,
}

impl View for Registry {
    type V = Seq<Option<Entry>>;

    closed spec fn view(&self) -> Seq<Option<Entry>> {
        Seq::new(
            self.slots@.len(),
            |i: int|
                match self.slots@[i] {
                    Some(slot) => Some(slot@),
                    None => None,
                },
        )
    }
}

/// Whether a difference is less than a ten-millionth in absolute value.
pub open spec fn is_trifling(diff: u64) -> bool {
    num_lt(magnitude(diff), TEN_MILLIONTH)
}

/// The slot that a value belongs to, given the whole number nearest to it
/// and its difference from that number: the whole number itself, where it is
/// not negative, the difference is less than a ten-millionth, and the table
/// has a slot of that index. No table has a slot that an `i64` cannot index.
pub open spec fn slot_of(closest: u64, diff: u64, slots: nat) -> Option<nat> {
    if is_integral(closest) && num_le(ZERO, closest) && is_trifling(diff) && 0 <= integer_value(
        closest,
    ) < slots && integer_value(closest) < i64::MAX {
        Some(integer_value(closest) as nat)
    } else {
        None
    }
}

/// Whether the arithmetic may place the value `v` in slot `t` of a table of
/// `slots` slots.
pub open spec fn aims_at<F: Fn(FloatOp, u64, u64) -> u64>(
    fpu: &F,
    v: u64,
    slots: nat,
    t: nat,
) -> bool {
    exists|c: u64, d: u64|
        computes(fpu, FloatOp::Round, v, ZERO, c) && computes(fpu, FloatOp::Sub, v, c, d)
            && slot_of(c, d, slots) == Some(t)
}

/// Whether the arithmetic may place the value `v` in no slot.
pub open spec fn may_miss<F: Fn(FloatOp, u64, u64) -> u64>(fpu: &F, v: u64, slots: nat) -> bool {
    exists|c: u64, d: u64|
        computes(fpu, FloatOp::Round, v, ZERO, c) && computes(fpu, FloatOp::Sub, v, c, d)
            && slot_of(c, d, slots).is_none()
}

/// With arithmetic that gives one result for each request, a value belongs
/// to one slot or to none.
pub proof fn value_has_one_place<F: Fn(FloatOp, u64, u64) -> u64>(
    fpu: &F,
    v: u64,
    slots: nat,
    t: nat,
    u: nat,
)
    requires
        deterministic(fpu),
        aims_at(fpu, v, slots, t),
    ensures
        !may_miss(fpu, v, slots),
        aims_at(fpu, v, slots, u) ==> t == u,
{
    let (c1, d1) = choose|c: u64, d: u64|
        computes(fpu, FloatOp::Round, v, ZERO, c) && computes(fpu, FloatOp::Sub, v, c, d)
            && slot_of(c, d, slots) == Some(t);
    if may_miss(fpu, v, slots) {
        let (c2, d2) = choose|c: u64, d: u64|
            computes(fpu, FloatOp::Round, v, ZERO, c) && computes(fpu, FloatOp::Sub, v, c, d)
                && slot_of(c, d, slots).is_none();
        assert(c1 == c2);
        assert(d1 == d2);
    }
    if aims_at(fpu, v, slots, u) {
        let (c3, d3) = choose|c: u64, d: u64|
            computes(fpu, FloatOp::Round, v, ZERO, c) && computes(fpu, FloatOp::Sub, v, c, d)
                && slot_of(c, d, slots) == Some(u);
        assert(c1 == c3);
        assert(d1 == d3);
    }
}

/// Whether a derivation of `len` actions and a text of `width` characters is
/// better than what a slot holds.
pub open spec fn prefers(len: nat, width: nat, held: Option<Entry>) -> bool {
    match held {
        None => true,
        Some(e) => len < e.path.len() || (len == e.path.len() && width < e.text.len()),
    }
}

/// What a slot holds after a derivation was offered to it.
pub open spec fn settle(held: Option<Entry>, given: Entry) -> Option<Entry> {
    if prefers(given.path.len(), given.text.len(), held) {
        Some(given)
    } else {
        held
    }
}

/// What a slot holds once it has accepted the derivation of a path.
pub open spec fn candidate(path: Seq<Step>) -> Entry {
    Entry { path, text: text_of(expression_of(actions_of(path))) }
}

/// What an offer of the complete derivation `p` does to a table: where the
/// arithmetic places its value in no slot, nothing; else the slot that it
/// aims at settles, and the offer is accepted where the slot prefers it.
pub open spec fn offered<F: Fn(FloatOp, u64, u64) -> u64>(
    fpu: &F,
    held: Seq<Option<Entry>>,
    after: Seq<Option<Entry>>,
    p: Seq<Step>,
    accepted: bool,
) -> bool {
    (!accepted && after == held && may_miss(fpu, p.last().result, held.len())) || exists|t: int|
        0 <= t < held.len() && aims_at(fpu, p.last().result, held.len(), t as nat) && accepted
            == prefers(p.len(), candidate(p).text.len(), #[trigger] held[t]) && after
            == held.update(t, settle(held[t], candidate(p)))
}

/// Whether slot `t` holds what a slot may hold: a legal path of values that
/// the arithmetic may give, which has used every four and left one operand,
/// which the arithmetic may place in that slot, with the text of its
/// expression.
pub open spec fn slot_sound<F: Fn(FloatOp, u64, u64) -> u64>(
    fpu: &F,
    table: Seq<Option<Entry>>,
    t: int,
) -> bool {
    table[t] matches Some(e) ==> {
        &&& legal(e.path)
        &&& derived(fpu, e.path)
        &&& is_complete(reached(e.path))
        &&& e.path.len() > 0
        &&& aims_at(fpu, e.path.last().result, table.len(), t as nat)
        &&& e.text == text_of(expression_of(actions_of(e.path)))
    }
}

/// Whether every slot holds what a slot may hold.
pub open spec fn sound<F: Fn(FloatOp, u64, u64) -> u64>(
    fpu: &F,
    table: Seq<Option<Entry>>,
) -> bool {
    forall|t: int| 0 <= t < table.len() ==> #[trigger] slot_sound(fpu, table, t)
}

/// The slot that a value belongs to, given the whole number nearest to it
/// and its difference from that number, in a table of `slots` slots.
pub fn target_index(closest: u64, diff: u64, slots: usize) -> (r: Option<usize>)
    ensures
        match r {
            Some(t) => slot_of(closest, diff, slots as nat) == Some(t as nat),
            None => slot_of(closest, diff, slots as nat).is_none(),
        },
{
    if le(ZERO, closest) && lt(abs(diff), TEN_MILLIONTH) {
        match strict_f64_to_i64(closest) {
            Some(i) => {
                proof {
                    strict_integer_is_exact(closest);
                }
                if 0 <= i && i < i64::MAX && (i as u64) < (slots as u64) {
                    Some(i as usize)
                } else {
                    None
                }
            },
            None => None,
        }
    } else {
        None
    }
}

impl Registry {
    /// A registry of `size` empty slots, for the targets from zero up.
    pub fn new(size: usize) -> (r: Registry)
        ensures
            r@.len() == size,
            forall|t: int| 0 <= t < size ==> r@[t].is_none(),
    {
        let mut slots: Vec<Option<Slot>> = Vec::new();
        let mut i: usize = 0;
        while i < size
            invariant
                i <= size,
                slots@.len() == i,
                forall|t: int| 0 <= t < i ==> slots@[t].is_none(),
            decreases size - i,
        {
            slots.push(None);
            i = i + 1;
        }
        Registry { slots }
    }

    /// The number of slots.
    pub fn len(&self) -> (n: usize)
        ensures
            n == self@.len(),
    {
        self.slots.len()
    }

    /// What slot `t` holds; `None` where it is empty or the table has no
    /// such slot.
    pub fn get(&self, t: usize) -> (r: Option<&Slot>)
        ensures
            match r {
                Some(slot) => t < self@.len() && self@[t as int] == Some(slot@),
                None => t >= self@.len() || self@[t as int].is_none(),
            },
    {
        if t < self.slots.len() {
            self.slots[t].as_ref()
        } else {
            None
        }
    }

    /// The slot that the arithmetic places a value in, if any.
    pub fn target_of<F: Fn(FloatOp, u64, u64) -> u64>(&self, value: u64, fpu: &F) -> (r: Option<
        usize,
    >)
        requires
            total(fpu),
        ensures
            match r {
                Some(t) => t < self@.len() && aims_at(fpu, value, self@.len(), t as nat),
                None => may_miss(fpu, value, self@.len()),
            },
    {
        let closest = fpu(FloatOp::Round, value, ZERO);
        let diff = fpu(FloatOp::Sub, value, closest);
        assert(computes(fpu, FloatOp::Round, value, ZERO, closest) && computes(
            fpu,
            FloatOp::Sub,
            value,
            closest,
            diff,
        ));
        target_index(closest, diff, self.slots.len())
    }
}

impl Registry {
    /// Offers a derivation to the slot that the arithmetic places its value
    /// in. A derivation that is not complete is turned away. The slot takes
    /// a complete one where it is empty or holds a worse one; otherwise, and
    /// where the value belongs to no slot, nothing changes.
    pub fn offer<F: Fn(FloatOp, u64, u64) -> u64>(&mut self, search: &Search, fpu: &F) -> (accepted:
        bool)
        requires
            total(fpu),
            sound(fpu, old(self)@),
            legal(search@),
            derived(fpu, search@),
        ensures
            sound(fpu, final(self)@),
            final(self)@.len() == old(self)@.len(),
            !accepted ==> final(self)@ == old(self)@,
            !is_complete(reached(search@)) ==> !accepted,
            is_complete(reached(search@)) ==> offered(
                fpu,
                old(self)@,
                final(self)@,
                search@,
                accepted,
            ),
    {
        let ghost table = self@;
        if !search.is_done() {
            return false;
        }
        let value = match search.last_result() {
            Some(v) => v,
            None => {
                return false;
            },
        };
        let t = match self.target_of(value, fpu) {
            Some(t) => t,
            None => {
                return false;
            },
        };
        let len = search.len();
        let held_len: Option<usize> = match &self.slots[t] {
            Some(slot) => Some(slot.search.len()),
            None => None,
        };
        let longer = match held_len {
            Some(n) => len > n,
            None => false,
        };
        if longer {
            assert(!prefers(search@.len(), candidate(search@).text.len(), table[t as int]));
            assert(self@ =~= table.update(t as int, settle(table[t as int], candidate(search@))));
            return false;
        }
        let rendered = search.make_expression().render();
        let width = rendered.as_str().unicode_len();
        let better = match &self.slots[t] {
            Some(slot) => len < slot.search.len() || width < slot.rendered.as_str().unicode_len(),
            None => true,
        };
        if !better {
            assert(!prefers(search@.len(), candidate(search@).text.len(), table[t as int]));
            assert(self@ =~= table.update(t as int, settle(table[t as int], candidate(search@))));
            return false;
        }
        assert(prefers(search@.len(), candidate(search@).text.len(), table[t as int]));
        self.slots.set(t, Some(Slot { search: search.clone(), rendered }));
        proof {
            let after = self@;
            assert(after =~= table.update(t as int, Some(candidate(search@))));
            assert forall|u: int| 0 <= u < after.len() implies #[trigger] slot_sound(
                fpu,
                after,
                u,
            ) by {
                if u != t {
                    assert(slot_sound(fpu, table, u));
                }
            }
        }
        true
    }
}

} // verus!
