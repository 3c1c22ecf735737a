//! The spin lock that guards the console: its types, and the two calls that
//! take the lock and reach the writer behind it.

use vstd::prelude::*;
use crate::vga_buffer::Writer;

verus! {

/// The spin lock of the `spin` crate. Nothing is known of what it guards
/// until it is locked.
#[verifier::external_type_specification]
#[verifier::external_body]
#[verifier::reject_recursive_types(T)]
#[verifier::reject_recursive_types(R)]
pub struct ExMutex<T: ?Sized, R>(spin::mutex::Mutex<T, R>);

/// The guard that `spin::mutex::Mutex::lock` hands out. The lock is held
/// for as long as the guard lives.
#[verifier::external_type_specification]
#[verifier::external_body]
#[verifier::reject_recursive_types(T)]
pub struct ExMutexGuard<'a, T: 'a + ?Sized>(spin::mutex::MutexGuard<'a, T>);

/// The strategy by which the lock waits: it spins.
#[verifier::external_type_specification]
#[verifier::external_body]
pub struct ExSpin(spin::relax::Spin);

/// `spin::mutex::Mutex::lock`: waits until the lock is free and takes it.
/// The call does not come back while another guard of the same lock lives.
/// Nothing is claimed of the writer that the guard gives access to: whoever
/// held the lock before may have written to it.
#[verifier::external_body]
pub(crate) fn lock_writer<'a>(
    console: &'a spin::mutex::Mutex<Writer, spin::relax::Spin>,
) -> (guard: spin::mutex::MutexGuard<'a, Writer>) {
    console.lock()
}

/// `DerefMut::deref_mut` of `spin::mutex::MutexGuard`: the writer that the
/// guard protects. Nothing is claimed of its state.
#[verifier::external_body]
pub(crate) fn held_writer<'a, 'b>(
    guard: &'b mut spin::mutex::MutexGuard<'a, Writer>,
) -> (writer: &'b mut Writer) {
    &mut **guard
}

} // verus!
