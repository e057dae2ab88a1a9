//! What the two handles of a channel share: one ring behind a std mutex.
//!
//! A handle only ever tries the lock, so no call blocks. Every `Ring` is
//! well formed by its type invariant, so whatever ring a handle finds behind
//! the lock, its step on it is `Ring::push` or `Ring::pop`. The mutex owns
//! the ring; when the last handle goes, the
//! `Arc` drops the mutex and with it the ring and the items it still holds.

use std::sync::{Arc, Mutex, MutexGuard, TryLockError};
use vstd::prelude::*;

verus! {

#[verifier::external_type_specification]
#[verifier::external_body]
#[verifier::reject_recursive_types(T)]
pub struct ExMutex<T: ?Sized>(std::sync::Mutex<T>);

#[verifier::external_type_specification]
#[verifier::external_body]
#[verifier::reject_recursive_types(T)]
pub struct ExMutexGuard<'a, T: ?Sized + 'a>(std::sync::MutexGuard<'a, T>);

/// A new, unlocked mutex that owns `value`.
///
/// Calls std's `Mutex::new`. What the mutex holds is not modelled: every
/// later reader takes it as it finds it.
#[verifier::external_body]
pub(crate) fn new_mutex<V>(value: V) -> (r: Mutex<V>) {
    Mutex::new(value)
}

/// The lock on `mutex` if it can be had at once, else `None`.
///
/// Calls std's `Mutex::try_lock`, which never blocks: while another holder
/// (or the calling thread itself) has the lock it answers `WouldBlock`,
/// here `None`. A lock poisoned by a panic in another holder is entered all
/// the same (`PoisonError::into_inner`). Whether the lock is free is not
/// modelled, so nothing is claimed of the outcome.
#[verifier::external_body]
pub(crate) fn try_lock<V>(mutex: &Mutex<V>) -> (r: Option<MutexGuard<'_, V>>) {
    match mutex.try_lock() {
        Ok(guard) => Some(guard),
        Err(TryLockError::Poisoned(poisoned)) => Some(poisoned.into_inner()),
        Err(TryLockError::WouldBlock) => None,
    }
}

/// The value a held lock protects.
///
/// Calls std's `DerefMut::deref_mut` on the guard. Nothing is claimed of
/// the value, which another holder may have changed before this one.
#[verifier::external_body]
pub(crate) fn locked<'a, 'b, V>(guard: &'a mut MutexGuard<'b, V>) -> (r: &'a mut V) {
    &mut **guard
}

/// Another reference to the same shared value.
///
/// Calls std's `Arc::clone`; the contract claims what its documentation
/// states: the result points to the same allocation, so it views the same
/// value.
#[verifier::external_body]
pub(crate) fn share<V>(shared: &Arc<V>) -> (r: Arc<V>)
    ensures
        r == *shared,
{
    Arc::clone(shared)
}

} // verus!
