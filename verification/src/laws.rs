//! What holds of a ring over any sequence of pushes and pops.
//!
//! `Ring::push` and `Ring::pop` change what a ring holds by `after_push` and
//! `after_pop`. Replaying a sequence of operations from an empty ring through
//! those two functions gives what the ring holds at the end, the values whose
//! push was accepted, and the values that pops handed out, in that order.

use vstd::prelude::*;

use crate::ring::{after_pop, after_push, pop_result, push_result, Ring};

verus! {

/// One operation on a ring: offer a value, or take one.
pub enum Op<T> {
    Push(T),
    Pop,
}

/// What a ring of `cap` slots, empty at first, holds after `ops`.
pub open spec fn contents<T>(cap: nat, ops: Seq<Op<T>>) -> Seq<T>
    decreases ops.len(),
{
    if ops.len() == 0 {
        Seq::empty()
    } else {
        let before = contents(cap, ops.drop_last());
        match ops.last() {
            Op::Push(v) => after_push(before, cap, v),
            Op::Pop => after_pop(before),
        }
    }
}

/// The values whose push was accepted during `ops`, in order.
pub open spec fn accepted<T>(cap: nat, ops: Seq<Op<T>>) -> Seq<T>
    decreases ops.len(),
{
    if ops.len() == 0 {
        Seq::empty()
    } else {
        let earlier = accepted(cap, ops.drop_last());
        match ops.last() {
            Op::Push(v) => if contents(cap, ops.drop_last()).len() < cap {
                earlier.push(v)
            } else {
                earlier
            },
            Op::Pop => earlier,
        }
    }
}

/// The values handed out by the pops of `ops`, in order.
pub open spec fn delivered<T>(cap: nat, ops: Seq<Op<T>>) -> Seq<T>
    decreases ops.len(),
{
    if ops.len() == 0 {
        Seq::empty()
    } else {
        let earlier = delivered(cap, ops.drop_last());
        let before = contents(cap, ops.drop_last());
        match ops.last() {
            Op::Push(_) => earlier,
            Op::Pop => if before.len() > 0 {
                earlier.push(before[0])
            } else {
                earlier
            },
        }
    }
}

/// The sequence of operations that pushes `items` one after another.
pub open spec fn pushes<T>(items: Seq<T>) -> Seq<Op<T>> {
    Seq::new(items.len(), |i: int| Op::Push(items[i]))
}

/// First in, first out, nothing lost and nothing duplicated: what the pops
/// handed out, followed by what is still held, is exactly what was accepted,
/// in the order it was pushed.
pub proof fn law_fifo<T>(cap: nat, ops: Seq<Op<T>>)
    ensures
        delivered(cap, ops) + contents(cap, ops) == accepted(cap, ops),
    decreases ops.len(),
{
    if ops.len() > 0 {
        let prev = ops.drop_last();
        law_fifo(cap, prev);
        let before = contents(cap, prev);
        match ops.last() {
            Op::Push(v) => {
                if before.len() < cap {
                    assert(delivered(cap, prev) + before.push(v) =~= (delivered(cap, prev)
                        + before).push(v));
                }
            },
            Op::Pop => {
                if before.len() > 0 {
                    assert(delivered(cap, prev).push(before[0]) + before.drop_first() =~= delivered(
                        cap,
                        prev,
                    ) + before);
                }
            },
        }
    }
}

/// A ring never holds more than its `cap` slots.
pub proof fn law_bounded<T>(cap: nat, ops: Seq<Op<T>>)
    ensures
        contents(cap, ops).len() <= cap,
    decreases ops.len(),
{
    if ops.len() > 0 {
        law_bounded(cap, ops.drop_last());
    }
}

/// Every one of the `cap` slots is usable: into an empty ring, up to `cap`
/// pushes in a row are all accepted and all held.
pub proof fn law_every_slot_usable<T>(cap: nat, items: Seq<T>)
    requires
        items.len() <= cap,
    ensures
        accepted(cap, pushes(items)) == items,
        contents(cap, pushes(items)) == items,
    decreases items.len(),
{
    if items.len() > 0 {
        let prev = items.drop_last();
        law_every_slot_usable(cap, prev);
        assert(pushes(items).drop_last() =~= pushes(prev));
        assert(prev.push(items.last()) =~= items);
    } else {
        assert(pushes(items) =~= Seq::<Op<T>>::empty());
    }
}

/// Once all `cap` slots are taken, a push is refused and changes nothing.
pub proof fn law_full_refuses<T>(cap: nat, ops: Seq<Op<T>>, v: T)
    requires
        contents(cap, ops).len() == cap,
    ensures
        contents(cap, ops.push(Op::Push(v))) == contents(cap, ops),
        accepted(cap, ops.push(Op::Push(v))) == accepted(cap, ops),
{
    assert(ops.push(Op::Push(v)).drop_last() =~= ops);
}

/// A pop from an empty ring hands out nothing and changes nothing.
pub proof fn law_empty_yields_nothing<T>(cap: nat, ops: Seq<Op<T>>)
    requires
        contents(cap, ops).len() == 0,
    ensures
        contents(cap, ops.push(Op::Pop)) == contents(cap, ops),
        delivered(cap, ops.push(Op::Pop)) == delivered(cap, ops),
{
    assert(ops.push(Op::Pop).drop_last() =~= ops);
}

/// The index layout never shows: two rings holding the same items with the
/// same number of slots answer a push, and a pop, alike and hold the same
/// items afterwards, whatever the distance between their two indices. Call
/// by call, the padded and the unpadded channel therefore behave alike.
pub proof fn law_layout_irrelevant<T>(a: Ring<T>, b: Ring<T>, v: T)
    requires
        a@ == b@,
        a.cap() == b.cap(),
    ensures
        push_result(a@, a.cap(), v) == push_result(b@, b.cap(), v),
        after_push(a@, a.cap(), v) == after_push(b@, b.cap(), v),
        pop_result(a@) == pop_result(b@),
        after_pop(a@) == after_pop(b@),
{
}

/// What a ring answers to one operation.
pub enum Answer<T> {
    Pushed(Result<(), T>),
    Popped(Option<T>),
}

/// What a ring of `cap` slots holding `s` holds after `ops`, and what it
/// answers to them, call by call: each push answers as `Ring::push` and
/// each pop as `Ring::pop`.
pub open spec fn replay<T>(s: Seq<T>, cap: nat, ops: Seq<Op<T>>) -> (Seq<T>, Seq<Answer<T>>)
    decreases ops.len(),
{
    if ops.len() == 0 {
        (s, Seq::empty())
    } else {
        let (before, answers) = replay(s, cap, ops.drop_last());
        match ops.last() {
            Op::Push(v) => (
                after_push(before, cap, v),
                answers.push(Answer::Pushed(push_result(before, cap, v))),
            ),
            Op::Pop => (after_pop(before), answers.push(Answer::Popped(pop_result(before)))),
        }
    }
}

/// Replaying from an empty ring leaves it holding `contents`.
pub proof fn law_replay_holds_contents<T>(cap: nat, ops: Seq<Op<T>>)
    ensures
        replay(Seq::empty(), cap, ops).0 == contents(cap, ops),
    decreases ops.len(),
{
    if ops.len() > 0 {
        law_replay_holds_contents(cap, ops.drop_last());
    }
}

/// The index layout never shows over a whole run either: two rings holding
/// the same items with the same number of slots, whatever the distance
/// between their indices, answer any sequence of pushes and pops alike,
/// call by call, and end holding the same items. A padded and an unpadded
/// channel of one capacity start from such rings (empty, with that many
/// slots), so they behave alike.
pub proof fn law_layout_irrelevant_over_runs<T>(a: Ring<T>, b: Ring<T>, ops: Seq<Op<T>>)
    requires
        a@ == b@,
        a.cap() == b.cap(),
    ensures
        replay(a@, a.cap(), ops) == replay(b@, b.cap(), ops),
{
}

} // verus!
