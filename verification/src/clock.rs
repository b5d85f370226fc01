//! Monotonic clock access.
//!
//! Timer capture must use a monotonic clock immune to wall-clock adjustment;
//! `instant::Instant` provides one (it is `std::time::Instant` on native
//! targets). A clock reading depends on when it happens, so nothing is
//! promised of the values here: the verified callers state what holds of
//! every outcome, and take explicit timestamps where an exact contract is
//! wanted.

use vstd::prelude::*;

verus! {

/// `instant::Instant`, declared so a clock origin can live in a profiler
/// field. Opaque: verification sees nothing inside a value of it.
#[verifier::external_type_specification]
#[verifier::external_body]
pub struct ExInstant(instant::Instant);

/// Relies on `instant::Instant::now` for an opaque monotonic-clock origin.
#[verifier::external_body]
pub(crate) fn instant_now() -> instant::Instant {
    instant::Instant::now()
}

/// Relies on `instant::Instant::elapsed` (saturating, never panicking) for
/// the monotonic time since `origin`, converted to whole microseconds.
#[verifier::external_body]
pub(crate) fn micros_since(origin: &instant::Instant) -> u64 {
    origin.elapsed().as_micros() as u64
}

} // verus!
