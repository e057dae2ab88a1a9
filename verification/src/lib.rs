//! Bounded single-producer single-consumer ring buffer.
//!
//! Two deliberately near-identical variants:
//!
//! - [`padded`]: producer and consumer indices a cache line apart.
//! - [`unpadded`]: indices adjacent, sharing a line.
//!
//! Both expose `channel(capacity) -> (Producer, Consumer)`; the handles are
//! not clonable and their methods take `&mut self`, so there is exactly one
//! producer and one consumer per channel. The ring logic itself is in
//! [`ring`], with its laws in [`laws`]; the two handles share one ring
//! behind a mutex.

pub mod laws;
pub mod ring;
mod shared;

pub mod padded;
pub mod unpadded;
