//! The ring shared by a producer and a consumer: a bounded FIFO of `cap`
//! slots addressed by two free-running indices.
//!
//! `head` is the next slot to write and `tail` the next slot to read. Both
//! grow without bound, wrapping at `usize::MAX`, and are masked with
//! `cap - 1` on access. The number of items held is `head - tail` in
//! wrapping arithmetic, so the ring is empty when `head == tail`, full when
//! `head - tail == cap`, and every one of the `cap` slots is usable.
//!
//! The two indices live in one index block, `stride` words apart: `head` in
//! word `0` and `tail` in word `stride`. The padded channel spreads them a
//! cache line apart, the unpadded one keeps them adjacent.

use vstd::prelude::*;
use vstd::arithmetic::div_mod::{
    lemma_add_mod_noop, lemma_fundamental_div_mod, lemma_mod_bound, lemma_mod_multiples_basic,
    lemma_mod_multiples_vanish, lemma_mod_self_0, lemma_small_mod,
};
use vstd::arithmetic::power2::{
    pow2, lemma_pow2_adds, lemma_pow2_pos, lemma_pow2_unfold,
};
use vstd::bits::{low_bits_mask, lemma_usize_low_bits_mask_is_mod};
use vstd::wrapping::usize_specs::wrapping_sub;

verus! {

/// Number of values a `usize` index takes; wrapping arithmetic on the
/// indices is arithmetic modulo this number.
pub open spec fn index_modulus() -> int {
    usize::MAX as int + 1
}

/// `n` is a power of two that a `usize` can hold (so in particular nonzero).
pub open spec fn is_power_of_two(n: usize) -> bool {
    exists|k: nat| k < usize::BITS && n == pow2(k)
}

/// What a ring of `cap` slots holding `s` holds after `v` is offered to it:
/// `v` joins the back unless all `cap` slots are taken.
pub open spec fn after_push<T>(s: Seq<T>, cap: nat, v: T) -> Seq<T> {
    if s.len() < cap {
        s.push(v)
    } else {
        s
    }
}

/// What a ring holding `s` holds after a pop: the front item leaves, if any.
pub open spec fn after_pop<T>(s: Seq<T>) -> Seq<T> {
    if s.len() > 0 {
        s.drop_first()
    } else {
        s
    }
}

/// What a push offered `v` answers when the ring has `cap` slots and holds
/// `s`: `Ok` if there was room, else `v` handed back.
pub open spec fn push_result<T>(s: Seq<T>, cap: nat, v: T) -> Result<(), T> {
    if s.len() < cap {
        Ok(())
    } else {
        Err(v)
    }
}

/// What a pop answers when the ring holds `s`: its oldest item, if any.
pub open spec fn pop_result<T>(s: Seq<T>) -> Option<T> {
    if s.len() > 0 {
        Some(s[0])
    } else {
        None
    }
}

/// The storage of a ring: `cap` slots and the index block, with the ring
/// invariant stated separately as `wf`.
struct RingState<T> {
    indices: Vec<usize>,
    stride: usize,
    buffer: Vec<Option<T>>,
    cap: usize,
    cap_log2: Ghost<nat>,
}

impl<T> RingState<T> {
    /// Next index to write (word `0` of the index block).
    spec fn head(&self) -> usize {
        self.indices@[0]
    }

    /// Next index to read (word `stride` of the index block).
    spec fn tail(&self) -> usize {
        self.indices@[self.stride as int]
    }

    /// Number of slots.
    spec fn cap(&self) -> nat {
        self.cap as nat
    }

    /// Distance, in words, between `head` and `tail` in the index block.
    spec fn stride(&self) -> nat {
        self.stride as nat
    }

    /// Number of items held: `head - tail` in wrapping arithmetic.
    spec fn held(&self) -> nat {
        wrapping_sub(self.head(), self.tail()) as nat
    }

    /// Buffer position of the `i`-th item counted from `tail`.
    spec fn slot(&self, i: int) -> int {
        (self.tail() + i) % (self.cap as int)
    }

    /// The ring invariant: `cap` is a power of two, at most `cap` items are
    /// held, and exactly the `held()` slots from `tail` on are occupied.
    spec fn wf(&self) -> bool {
        &&& self.cap_log2@ < usize::BITS
        &&& self.cap == pow2(self.cap_log2@)
        &&& self.buffer@.len() == self.cap
        &&& 1 <= self.stride
        &&& self.stride * vstd::layout::size_of::<usize>() <= usize::MAX
        &&& self.indices@.len() == self.stride + 1
        &&& self.held() <= self.cap
        &&& forall|i: int|
            0 <= i < self.cap ==> (#[trigger] self.buffer@[self.slot(i)] is Some <==> i
                < self.held())
    }
}

impl<T> RingState<T> {
    /// An empty ring of `capacity` slots whose index words are `stride` apart.
    fn new(capacity: usize, stride: usize) -> (r: RingState<T>)
        requires
            is_power_of_two(capacity),
            1 <= stride < usize::MAX,
            stride * vstd::layout::size_of::<usize>() <= usize::MAX,
        ensures
            r.wf(),
            r@ == Seq::<T>::empty(),
            r.cap() == capacity,
            r.stride() == stride,
    {
        let ghost k = choose|k: nat| k < usize::BITS && capacity == pow2(k);
        let mut indices: Vec<usize> = Vec::new();
        let mut i: usize = 0;
        while i <= stride
            invariant
                i <= stride + 1,
                stride < usize::MAX,
                indices@.len() == i,
                forall|j: int| 0 <= j < i ==> indices@[j] == 0,
            decreases stride + 1 - i,
        {
            indices.push(0);
            i = i + 1;
        }
        let mut buffer: Vec<Option<T>> = Vec::new();
        let mut n: usize = 0;
        while n < capacity
            invariant
                n <= capacity,
                buffer@.len() == n,
                forall|j: int| 0 <= j < n ==> buffer@[j] is None,
            decreases capacity - n,
        {
            buffer.push(None);
            n = n + 1;
        }
        let r = RingState { indices, stride, buffer, cap: capacity, cap_log2: Ghost(k) };
        proof {
            lemma_power_divides_modulus(k);
            assert(r.head() == 0 && r.tail() == 0);
            assert(r.held() == 0);
            assert forall|i: int| 0 <= i < r.cap implies (#[trigger] r.buffer@[r.slot(i)] is Some
                <==> i < r.held()) by {
                lemma_small_mod(i as nat, capacity as nat);
            }
            assert(r@ =~= Seq::<T>::empty());
        }
        r
    }

    /// Writes `value` at `head` and advances `head`, unless the ring is full,
    /// in which case `value` is handed back in `Err` and nothing changes.
    fn push(&mut self, value: T) -> (r: Result<(), T>)
        requires
            old(self).wf(),
        ensures
            final(self).wf(),
            final(self).cap() == old(self).cap(),
            final(self).stride() == old(self).stride(),
            old(self)@.len() <= old(self).cap(),
            final(self)@ == after_push(old(self)@, old(self).cap(), value),
            r == push_result(old(self)@, old(self).cap(), value),
    {
        let head = self.indices[0];
        let tail = self.indices[self.stride];
        if head.wrapping_sub(tail) == self.cap {
            return Err(value);
        }
        let ghost pre = *self;
        let ghost cap = self.cap as int;
        let ghost held = pre.held() as int;
        proof {
            lemma_mask_is_mod(head, self.cap_log2@);
            lemma_power_divides_modulus(self.cap_log2@);
            if head < tail {
                lemma_mod_wrap(head as int, 1, cap);
            }
            assert(head as int % cap == pre.slot(held));
            lemma_mod_bound(tail + held, cap);
        }
        let idx = head & (self.cap - 1);
        let mut item = Some(value);
        self.buffer.set_and_swap(idx, &mut item);
        self.indices.set(0, head.wrapping_add(1));
        proof {
            assert(self.tail() == pre.tail());
            assert(self.held() == held + 1);
            assert forall|i: int| 0 <= i < cap implies (#[trigger] self.buffer@[self.slot(i)] is Some
                <==> i < self.held()) by {
                assert(self.slot(i) == pre.slot(i));
                if i != held {
                    lemma_slots_distinct(tail as int, i, held, cap);
                    assert(pre.buffer@[pre.slot(i)] is Some <==> i < held);
                }
            }
            assert forall|i: int| 0 <= i < held implies self@[i] == pre@[i] by {
                assert(self.slot(i) == pre.slot(i));
                lemma_slots_distinct(tail as int, i, held, cap);
            }
            assert(self@ =~= pre@.push(value));
        }
        Ok(())
    }

    /// Takes the item at `tail` and advances `tail`, or returns `None` when
    /// the ring is empty.
    fn pop(&mut self) -> (r: Option<T>)
        requires
            old(self).wf(),
        ensures
            final(self).wf(),
            final(self).cap() == old(self).cap(),
            final(self).stride() == old(self).stride(),
            old(self)@.len() <= old(self).cap(),
            final(self)@ == after_pop(old(self)@),
            r == (if old(self)@.len() > 0 {
                Some(old(self)@[0])
            } else {
                None
            }),
    {
        let tail = self.indices[self.stride];
        let head = self.indices[0];
        if head == tail {
            return None;
        }
        let ghost pre = *self;
        let ghost cap = self.cap as int;
        let ghost held = pre.held() as int;
        proof {
            lemma_mask_is_mod(tail, self.cap_log2@);
            lemma_power_divides_modulus(self.cap_log2@);
            assert(tail as int % cap == pre.slot(0));
        }
        let idx = tail & (self.cap - 1);
        let mut item: Option<T> = None;
        self.buffer.set_and_swap(idx, &mut item);
        self.indices.set(self.stride, tail.wrapping_add(1));
        proof {
            assert(self.head() == pre.head());
            assert(self.held() == held - 1);
            assert forall|i: int| 0 <= i < cap implies self.slot(i) == pre.slot(i + 1) by {
                if tail == usize::MAX {
                    lemma_mod_wrap(tail + 1 + i, -1, cap);
                }
            }
            assert(pre.slot(cap) == pre.slot(0)) by {
                lemma_mod_multiples_vanish(1, tail as int, cap);
            }
            assert forall|i: int| 0 <= i < cap implies (#[trigger] self.buffer@[self.slot(i)] is Some
                <==> i < self.held()) by {
                if i + 1 < cap {
                    lemma_slots_distinct(tail as int, i + 1, 0, cap);
                    assert(pre.buffer@[pre.slot(i + 1)] is Some <==> i + 1 < held);
                }
            }
            assert forall|i: int| 0 <= i < held - 1 implies self@[i] == pre@[i + 1] by {
                assert(self.slot(i) == pre.slot(i + 1));
                lemma_slots_distinct(tail as int, i + 1, 0, cap);
            }
            assert(self@ =~= pre@.drop_first());
            assert(pre.buffer@[pre.slot(0)] is Some);
        }
        item
    }
}

impl<T> View for RingState<T> {
    type V = Seq<T>;

    /// The items held, oldest first.
    closed spec fn view(&self) -> Seq<T> {
        Seq::new(self.held(), |i: int| self.buffer@[self.slot(i)]->0)
    }
}

/// A bounded ring of `cap` slots with free-running `head` and `tail` indices.
///
/// Every `Ring` is well formed. While one of its own methods runs, its
/// storage is briefly detached; a detached ring holds nothing and has no
/// slots.
pub struct Ring<T> {
    state: Option<RingState<T>>,
}

impl<T> Ring<T> {
    #[verifier::type_invariant]
    spec fn inv(&self) -> bool {
        self.state matches Some(st) ==> st.wf()
    }

    /// Number of slots.
    pub closed spec fn cap(&self) -> nat {
        match self.state {
            Some(st) => st.cap(),
            None => 0,
        }
    }

    /// Distance, in words, between `head` and `tail` in the index block.
    pub closed spec fn stride(&self) -> nat {
        match self.state {
            Some(st) => st.stride(),
            None => 0,
        }
    }

    /// An empty ring of `capacity` slots whose index words are `stride` apart.
    pub fn new(capacity: usize, stride: usize) -> (r: Ring<T>)
        requires
            is_power_of_two(capacity),
            1 <= stride < usize::MAX,
            stride * vstd::layout::size_of::<usize>() <= usize::MAX,
        ensures
            r@ == Seq::<T>::empty(),
            r.cap() == capacity,
            r.stride() == stride,
    {
        Ring { state: Some(RingState::new(capacity, stride)) }
    }

    /// Number of slots.
    pub fn capacity(&self) -> (r: usize)
        ensures
            r == self.cap(),
    {
        match &self.state {
            Some(st) => st.cap,
            None => 0,
        }
    }

    /// Byte offsets of `head` and of `tail` within the ring's index block:
    /// `head` is word `0` and `tail` word `stride`. The block itself is only
    /// word-aligned, so two indices a line's worth of bytes apart never
    /// share a line-aligned block of that size.
    pub fn index_offsets(&self) -> (r: (usize, usize))
        ensures
            r.0 == 0,
            r.1 == self.stride() * vstd::layout::size_of::<usize>(),
    {
        proof {
            use_type_invariant(self);
        }
        match &self.state {
            Some(st) => (0, st.stride * core::mem::size_of::<usize>()),
            None => (0, 0),
        }
    }

    /// Writes `value` at `head` and advances `head`, unless the ring is full,
    /// in which case `value` is handed back in `Err` and nothing changes.
    pub fn push(&mut self, value: T) -> (r: Result<(), T>)
        ensures
            final(self).cap() == old(self).cap(),
            final(self).stride() == old(self).stride(),
            old(self)@.len() <= old(self).cap(),
            final(self)@ == after_push(old(self)@, old(self).cap(), value),
            r == push_result(old(self)@, old(self).cap(), value),
    {
        proof {
            use_type_invariant(&*self);
        }
        let mut detached: Option<RingState<T>> = None;
        std::mem::swap(&mut detached, &mut self.state);
        match detached {
            Some(mut st) => {
                let r = st.push(value);
                self.state = Some(st);
                r
            },
            None => Err(value),
        }
    }

    /// Takes the item at `tail` and advances `tail`, or returns `None` when
    /// the ring is empty.
    pub fn pop(&mut self) -> (r: Option<T>)
        ensures
            final(self).cap() == old(self).cap(),
            final(self).stride() == old(self).stride(),
            old(self)@.len() <= old(self).cap(),
            final(self)@ == after_pop(old(self)@),
            r == pop_result(old(self)@),
    {
        proof {
            use_type_invariant(&*self);
        }
        let mut detached: Option<RingState<T>> = None;
        std::mem::swap(&mut detached, &mut self.state);
        match detached {
            Some(mut st) => {
                let r = st.pop();
                self.state = Some(st);
                r
            },
            None => None,
        }
    }
}

impl<T> View for Ring<T> {
    type V = Seq<T>;

    /// The items held, oldest first.
    closed spec fn view(&self) -> Seq<T> {
        match self.state {
            Some(st) => st@,
            None => Seq::empty(),
        }
    }
}

impl<T> Drop for Ring<T> {
    /// Drops the items still held, oldest first, as a run of pops would hand
    /// them out; the slots and the index block are freed after them, and the
    /// ring is left holding nothing.
    fn drop(&mut self)
        ensures
            final(self)@ == Seq::<T>::empty(),
            final(self).cap() == 0,
        opens_invariants none
        no_unwind
    {
        proof {
            use_type_invariant(&*self);
        }
        let mut detached: Option<RingState<T>> = None;
        std::mem::swap(&mut detached, &mut self.state);
        if let Some(mut st) = detached {
            let ghost start = st;
            let ghost items = st@;
            proof {
                lemma_pow2_pos(st.cap_log2@);
            }
            let head = read_word(&st.indices, 0);
            let tail = read_word(&st.indices, st.stride);
            let held: usize = if head >= tail {
                head - tail
            } else {
                usize::MAX - (tail - head) + 1
            };
            assert(held == start.held());
            let mut pos: usize = tail % st.cap;
            let mut k: usize = 0;
            let ghost mut dropped: Seq<T> = Seq::empty();
            while k < held
                invariant
                    start.wf(),
                    items == start@,
                    held == start.held(),
                    tail == start.tail(),
                    0 < st.cap,
                    st.cap == start.cap,
                    st.buffer@.len() == st.cap,
                    k <= held,
                    pos == start.slot(k as int),
                    dropped == items.subrange(0, k as int),
                    forall|j: int|
                        k <= j < held ==> #[trigger] st.buffer@[start.slot(j)]
                            == start.buffer@[start.slot(j)],
                decreases held - k,
            {
                let ghost before = st.buffer@;
                proof {
                    lemma_mod_bound(tail + k, st.cap as int);
                }
                let oldest = take_slot(&mut st.buffer, pos);
                proof {
                    assert(start.buffer@[start.slot(k as int)] is Some);
                    assert(oldest == Some(items[k as int]));
                    dropped = dropped.push(oldest->0);
                    assert(dropped =~= items.subrange(0, k + 1));
                    assert forall|j: int| k + 1 <= j < held implies #[trigger] st.buffer@[start.slot(
                        j,
                    )] == start.buffer@[start.slot(j)] by {
                        lemma_slots_distinct(tail as int, k as int, j, st.cap as int);
                        assert(before[start.slot(j)] == start.buffer@[start.slot(j)]);
                    }
                    lemma_next_slot(tail + k, st.cap as int);
                }
                pos = if pos + 1 == st.cap {
                    0
                } else {
                    pos + 1
                };
                k = k + 1;
                // `oldest` is dropped here, before the next item is taken.
            }
            assert(dropped == items);
        }
    }
}

/// The slot after position `a`: one further on, wrapping to `0` after the
/// last slot.
proof fn lemma_next_slot(a: int, cap: int)
    requires
        cap > 0,
    ensures
        (a + 1) % cap == if a % cap + 1 == cap {
            0
        } else {
            a % cap + 1
        },
{
    lemma_mod_bound(a, cap);
    lemma_add_mod_noop(a, 1, cap);
    if cap == 1 {
        lemma_mod_bound(a + 1, cap);
    } else {
        lemma_small_mod(1, cap as nat);
        if a % cap + 1 == cap {
            lemma_mod_self_0(cap);
        } else {
            lemma_small_mod((a % cap + 1) as nat, cap as nat);
        }
    }
}

/// The word at position `i` of `words`.
///
/// Calls std's `Vec` indexing (`Index::index`), which neither panics for an
/// index below the length nor touches anything but the vector.
#[verifier::external_body]
fn read_word(words: &Vec<usize>, i: usize) -> (r: usize)
    requires
        i < words@.len(),
    ensures
        r == words@[i as int],
    opens_invariants none
    no_unwind
{
    words[i]
}

/// Takes the item out of slot `i`, leaving the slot empty.
///
/// Calls std's `core::mem::take` on the slot (reached through `Vec`'s
/// `IndexMut::index_mut`), which neither panics for an index below the
/// length nor touches anything but the vector.
#[verifier::external_body]
fn take_slot<T>(slots: &mut Vec<Option<T>>, i: usize) -> (r: Option<T>)
    requires
        i < old(slots)@.len(),
    ensures
        r == old(slots)@[i as int],
        final(slots)@ == old(slots)@.update(i as int, None),
    opens_invariants none
    no_unwind
{
    core::mem::take(&mut slots[i])
}

/// `usize::MAX + 1` is a multiple of every power of two below it, and such
/// a power is at most half of it.
proof fn lemma_power_divides_modulus(k: nat)
    requires
        k < usize::BITS,
    ensures
        pow2(k) > 0,
        index_modulus() % (pow2(k) as int) == 0,
        2 * pow2(k) <= index_modulus(),
{
    vstd::layout::unsigned_int_max_values();
    let rest = (usize::BITS - k) as nat;
    lemma_pow2_adds(k, rest);
    assert(k + rest == usize::BITS as nat);
    lemma_pow2_pos(k);
    lemma_pow2_pos(rest);
    lemma_mod_multiples_basic(pow2(rest) as int, pow2(k) as int);
    assert(pow2(rest) as int * pow2(k) as int == pow2(k) * pow2(rest)) by (nonlinear_arith);
    lemma_pow2_unfold(rest);
    assert(pow2(rest) >= 2) by {
        lemma_pow2_pos((rest - 1) as nat);
    }
    assert(2 * pow2(k) <= pow2(k) * pow2(rest)) by (nonlinear_arith)
        requires
            pow2(rest) >= 2,
    ;
}

/// Adding a multiple of the index modulus does not move a position modulo a
/// divisor of that modulus.
proof fn lemma_mod_wrap(a: int, q: int, cap: int)
    requires
        cap > 0,
        index_modulus() % cap == 0,
    ensures
        (a + q * index_modulus()) % cap == a % cap,
{
    let m = index_modulus();
    lemma_fundamental_div_mod(m, cap);
    assert(q * m == cap * (q * (m / cap))) by (nonlinear_arith)
        requires
            m == cap * (m / cap) + m % cap,
            m % cap == 0,
    ;
    lemma_mod_multiples_vanish(q * (m / cap), a, cap);
}

/// Positions `a + i` and `a + j` fall in different slots when `i` and `j`
/// are distinct offsets below `cap`.
proof fn lemma_slots_distinct(a: int, i: int, j: int, cap: int)
    requires
        cap > 0,
        0 <= i < cap,
        0 <= j < cap,
        i != j,
    ensures
        (a + i) % cap != (a + j) % cap,
{
    lemma_fundamental_div_mod(a + i, cap);
    lemma_fundamental_div_mod(a + j, cap);
    lemma_mod_bound(a + i, cap);
    lemma_mod_bound(a + j, cap);
    if (a + i) % cap == (a + j) % cap {
        let qi = (a + i) / cap;
        let qj = (a + j) / cap;
        assert(i - j == cap * (qi - qj)) by (nonlinear_arith)
            requires
                a + i == cap * qi + (a + i) % cap,
                a + j == cap * qj + (a + j) % cap,
                (a + i) % cap == (a + j) % cap,
        ;
        assert(false) by (nonlinear_arith)
            requires
                i - j == cap * (qi - qj),
                0 <= i < cap,
                0 <= j < cap,
                i != j,
        ;
    }
}

/// Masking an index with `cap - 1` selects the slot `index % cap`.
proof fn lemma_mask_is_mod(x: usize, k: nat)
    requires
        k < usize::BITS,
    ensures
        pow2(k) > 0,
        x & ((pow2(k) - 1) as usize) == x % (pow2(k) as usize),
{
    lemma_power_divides_modulus(k);
    lemma_usize_low_bits_mask_is_mod(x, k);
    assert(low_bits_mask(k) == pow2(k) - 1);
}

} // verus!
