//! The operand stack: a small vector that keeps its first four operands
//! inline, which is all that four digits can ever put on it.

use smallvec::SmallVec;
use vstd::prelude::*;

verus! {

/// The number of operands the stack holds without leaving its inline buffer.
pub const MAX_STACK_DEPTH: usize = 4;

/// A stack of operands. Its buffer belongs to `smallvec` and is not
/// inspected here: what it holds is named by `stack_items`, and every access
/// goes through the functions of this module.
#[derive(Debug)]
#[verifier::external_body]
pub struct Stack {
    items: SmallVec<[u64; 4]>,
}

/// The operands that a stack holds, bottom first.
pub uninterp spec fn stack_items(s: Stack) -> Seq<u64>;

/// `SmallVec::new`: an empty vector.
#[verifier::external_body]
pub(crate) fn stack_new() -> (s: Stack)
    ensures
        stack_items(s) == Seq::<u64>::empty(),
{
    Stack { items: SmallVec::new() }
}

/// `SmallVec::len`: the number of items held.
#[verifier::external_body]
pub(crate) fn stack_len(s: &Stack) -> (n: usize)
    ensures
        n == stack_items(*s).len(),
{
    s.items.len()
}

/// Indexing a `SmallVec`, which indexes the slice of its items. Out of
/// bounds it panics, so the index must be in bounds.
#[verifier::external_body]
pub(crate) fn stack_get(s: &Stack, i: usize) -> (v: u64)
    requires
        i < stack_items(*s).len(),
    ensures
        v == stack_items(*s)[i as int],
{
    s.items[i]
}

/// `SmallVec::push`: appends the item. With fewer than four items held the
/// vector stays in its inline buffer, so nothing is allocated and the call
/// cannot fail.
#[verifier::external_body]
pub(crate) fn stack_push(s: &mut Stack, v: u64)
    requires
        stack_items(*old(s)).len() < MAX_STACK_DEPTH,
    ensures
        stack_items(*final(s)) == stack_items(*old(s)).push(v),
    no_unwind
{
    s.items.push(v)
}

/// `SmallVec::pop`: removes the last item and returns it, or returns `None`
/// and changes nothing where the vector is empty.
#[verifier::external_body]
pub(crate) fn stack_pop(s: &mut Stack) -> (r: Option<u64>)
    ensures
        stack_items(*old(s)).len() == 0 ==> r.is_none() && stack_items(*final(s)) == stack_items(
            *old(s),
        ),
        stack_items(*old(s)).len() > 0 ==> r == Some(stack_items(*old(s)).last()) && stack_items(
            *final(s),
        ) == stack_items(*old(s)).drop_last(),
    no_unwind
{
    s.items.pop()
}

/// `Clone::clone` of a `SmallVec`: a vector of the same items in the same
/// order. Up to four items are copied into the inline buffer of the new
/// vector, so nothing is allocated and the call cannot fail.
#[verifier::external_body]
pub(crate) fn stack_clone(s: &Stack) -> (r: Stack)
    requires
        stack_items(*s).len() <= MAX_STACK_DEPTH,
    ensures
        stack_items(r) == stack_items(*s),
{
    Stack { items: s.items.clone() }
}

/// `PartialEq::eq` of two `SmallVec`s, which compares their slices: equal
/// lengths and equal items at every index.
#[verifier::external_body]
pub(crate) fn stack_eq(a: &Stack, b: &Stack) -> (r: bool)
    ensures
        r == (stack_items(*a) == stack_items(*b)),
{
    a.items == b.items
}

} // verus!
