//! The lock that lets one home-directory archive job (save or restore) run at a time.

use vstd::prelude::*;

verus! {

#[verifier::external_type_specification]
#[verifier::external_body]
#[verifier::reject_recursive_types(T)]
pub struct ExMutex<T: ?Sized>(std::sync::Mutex<T>);

#[verifier::external_type_specification]
#[verifier::external_body]
#[verifier::reject_recursive_types(T)]
pub struct ExMutexGuard<'a, T: ?Sized + 'a>(std::sync::MutexGuard<'a, T>);

/// `Mutex::new`.
#[verifier::external_body]
fn new_lock() -> (m: std::sync::Mutex<()>) {
    std::sync::Mutex::new(())
}

/// `Mutex::try_lock`: the guard, or nothing where the lock is held (or was
/// poisoned). Which of the two comes back depends on the other threads.
#[verifier::external_body]
fn try_lock_now(m: &std::sync::Mutex<()>) -> (r: Option<std::sync::MutexGuard<'_, ()>>) {
    m.try_lock().ok()
}

pub struct SnapshotGate {
    inner: std::sync::Mutex<()>,
}

impl SnapshotGate {
    pub fn new() -> (g: SnapshotGate) {
        SnapshotGate { inner: new_lock() }
    }

    /// Takes the lock if no archive job holds it; the guard frees it when
    /// dropped.
    pub fn try_lock(&self) -> (r: Option<std::sync::MutexGuard<'_, ()>>) {
        try_lock_now(&self.inner)
    }
}

} // verus!
