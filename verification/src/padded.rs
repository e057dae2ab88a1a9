//! Padded variant: the producer's index and the consumer's index sit a full
//! 128-byte line apart in the ring's index block.
//!
//! 128 rather than 64: on x86_64 the adjacent-line prefetcher makes 128 bytes
//! the effective destructive interference range.

use std::sync::{Arc, Mutex};
use vstd::prelude::*;

use crate::ring::{after_pop, after_push, is_power_of_two, pop_result, push_result, Ring};
use crate::shared::{locked, new_mutex, share, try_lock};

verus! {

/// Bytes between `head` and `tail` in the index block.
pub const LINE_BYTES: usize = 128;

/// Words of the index block per line: the distance between `head` and `tail`.
fn line_stride() -> (r: usize)
    ensures
        r * vstd::layout::size_of::<usize>() == LINE_BYTES,
        1 <= r < usize::MAX,
{
    let word = core::mem::size_of::<usize>();
    assert(word == 4 || word == 8);
    LINE_BYTES / word
}

/// The empty ring a padded channel starts from: `capacity` slots, with
/// `head` and `tail` a line's worth of bytes apart in the index block.
pub fn new_ring<T>(capacity: usize) -> (r: Ring<T>)
    requires
        is_power_of_two(capacity),
    ensures
        r@ == Seq::<T>::empty(),
        r.cap() == capacity,
        r.stride() * vstd::layout::size_of::<usize>() == LINE_BYTES,
{
    Ring::new(capacity, line_stride())
}

/// Creates a bounded SPSC channel with `capacity` slots, all usable.
///
/// Indices grow without bound and are masked on access, so full and empty
/// are told apart by `head - tail` and no slot is sacrificed. `capacity`
/// must be a nonzero power of two. The ring sits behind a mutex that each
/// `push` or `pop` tries, never waits for, and holds for one ring step.
pub fn channel<T>(capacity: usize) -> (r: (Producer<T>, Consumer<T>))
    requires
        is_power_of_two(capacity),
    ensures
        r.0.connected_to(&r.1),
        r.0.capacity() == capacity,
        r.1.capacity() == capacity,
        r.0.seen() == Seq::<T>::empty(),
        r.1.seen() == Seq::<T>::empty(),
{
    let shared = Arc::new(new_mutex(new_ring(capacity)));
    let other = share(&shared);
    (
        Producer { ring: other, cap: capacity, seen: Ghost(Seq::empty()) },
        Consumer { ring: shared, cap: capacity, seen: Ghost(Seq::empty()) },
    )
}

/// The write end. Not clonable; `push` takes `&mut self`, so there is exactly
/// one producer.
#[verifier::reject_recursive_types(T)]
pub struct Producer<T> {
    /// The ring shared with the consumer.
    ring: Arc<Mutex<Ring<T>>>,
    /// The number of slots the channel was made with.
    cap: usize,
    /// What the channel held right after this handle's latest step.
    seen: Ghost<Seq<T>>,
}

/// The read end. Not clonable; `pop` takes `&mut self`, so there is exactly
/// one consumer.
#[verifier::reject_recursive_types(T)]
pub struct Consumer<T> {
    /// The ring shared with the producer.
    ring: Arc<Mutex<Ring<T>>>,
    /// The number of slots the channel was made with.
    cap: usize,
    /// What the channel held right after this handle's latest step.
    seen: Ghost<Seq<T>>,
}

impl<T> Producer<T> {
    /// Number of slots of the channel this handle writes to.
    pub closed spec fn capacity(&self) -> nat {
        self.cap as nat
    }

    /// What the channel held, oldest first, right after this handle's latest
    /// `push` that reached the ring (empty for a new channel).
    pub closed spec fn seen(&self) -> Seq<T> {
        self.seen@
    }

    /// The ring this handle shares with the other end of its channel.
    pub closed spec fn shared_ring(&self) -> Arc<Mutex<Ring<T>>> {
        self.ring
    }

    /// This producer and `consumer` are the two ends of one channel.
    pub open spec fn connected_to(&self, consumer: &Consumer<T>) -> bool {
        self.shared_ring() == consumer.shared_ring()
    }

    /// Attempts to push, returning `Err(value)` if the buffer is full.
    ///
    /// The push never waits. If the consumer holds the ring's lock at that
    /// moment, `value` is handed back in `Err` as if the ring were full, and
    /// nothing changes. Otherwise, under the lock, the ring goes by
    /// `Ring::push` from some contents `s` of at most `capacity()` items to
    /// `after_push(s, capacity(), value)`: `value` joins the back if there
    /// was room, and only then is the result `Ok`. `seen()` is then what the
    /// channel holds after that step.
    pub fn push(&mut self, value: T) -> (r: Result<(), T>)
        ensures
            final(self).shared_ring() == old(self).shared_ring(),
            final(self).capacity() == old(self).capacity(),
            (r == Err::<(), T>(value) && final(self).seen() == old(self).seen()) || exists|
                s: Seq<T>,
            |
                {
                    &&& s.len() <= old(self).capacity()
                    &&& final(self).seen() == #[trigger] after_push(
                        s,
                        old(self).capacity(),
                        value,
                    )
                    &&& r == push_result(s, old(self).capacity(), value)
                },
    {
        match try_lock(&*self.ring) {
            Some(mut guard) => {
                let ring = locked(&mut guard);
                if ring.capacity() != self.cap {
                    return Err(value);
                }
                let ghost before = ring@;
                let r = ring.push(value);
                self.seen = Ghost(ring@);
                assert(after_push(before, self.capacity(), value) == self.seen());
                r
            },
            None => Err(value),
        }
    }
}

impl<T> Consumer<T> {
    /// Number of slots of the channel this handle reads from.
    pub closed spec fn capacity(&self) -> nat {
        self.cap as nat
    }

    /// What the channel held, oldest first, right after this handle's latest
    /// `pop` that reached the ring (empty for a new channel).
    pub closed spec fn seen(&self) -> Seq<T> {
        self.seen@
    }

    /// The ring this handle shares with the other end of its channel.
    pub closed spec fn shared_ring(&self) -> Arc<Mutex<Ring<T>>> {
        self.ring
    }

    /// Attempts to pop, returning `None` if the buffer is empty.
    ///
    /// The pop never waits. If the producer holds the ring's lock at that
    /// moment, the result is `None` as if the ring were empty, and nothing
    /// changes. Otherwise, under the lock, the ring goes by `Ring::pop` from
    /// some contents `s` of at most `capacity()` items to `after_pop(s)`: the
    /// result is the oldest item of `s`, or `None` when `s` was empty.
    /// `seen()` is then what the channel holds after that step.
    pub fn pop(&mut self) -> (r: Option<T>)
        ensures
            final(self).shared_ring() == old(self).shared_ring(),
            final(self).capacity() == old(self).capacity(),
            (r is None && final(self).seen() == old(self).seen()) || exists|s: Seq<T>|
                {
                    &&& s.len() <= old(self).capacity()
                    &&& final(self).seen() == #[trigger] after_pop(s)
                    &&& r == pop_result(s)
                },
    {
        match try_lock(&*self.ring) {
            Some(mut guard) => {
                let ring = locked(&mut guard);
                if ring.capacity() != self.cap {
                    return None;
                }
                let ghost before = ring@;
                let r = ring.pop();
                self.seen = Ghost(ring@);
                assert(after_pop(before) == self.seen());
                r
            },
            None => None,
        }
    }
}

} // verus!
