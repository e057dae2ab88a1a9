# spsc

A bounded single-producer single-consumer ring buffer, verified with Verus.

- `src/ring.rs`: the ring itself. Free-running `head` and `tail` indices,
  masked with `cap - 1` on access; the ring is empty when `head == tail` and
  full when `head - tail == cap` in wrapping arithmetic, so all `cap` slots
  are usable. `Ring::push` and `Ring::pop` are specified over the sequence of
  held items, oldest first.
  Every `Ring` is well formed by its type invariant; dropping a ring drops
  the items it still holds, oldest first.
- `src/laws.rs`: what holds over any sequence of pushes and pops (first in,
  first out; never more than `cap` items; every slot usable; a full ring
  refuses, an empty one yields nothing; the index layout never shows).
- `src/shared.rs`: the std mutex that owns the ring and is shared, through an
  `Arc`, by the two handles of a channel. A handle only tries the lock, so
  `push` and `pop` never wait; while the other end holds it, `push` refuses
  and `pop` finds nothing, as if the ring were full or empty.
- `src/padded.rs`, `src/unpadded.rs`: `channel(capacity) -> (Producer,
  Consumer)` in two layouts of the index block, a 128-byte line apart or
  adjacent. Nothing else differs. The index block is only word-aligned, and
  both ends take the same lock word on every call.
