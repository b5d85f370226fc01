//! In-process instrumentation core.
//!
//! Instrumented code brackets named regions of a repeating update loop with
//! start/end events. The profiler infers the loop boundary from the first
//! name it ever sees, keeps a bounded cache of raw durations per region,
//! periodically resolves those caches into bounded rolling-average history
//! buffers, and publishes a call-tree snapshot of one whole loop iteration.
//! All durations are monotonic-clock microseconds.

use vstd::prelude::*;

pub mod bars;
pub mod clock;
pub mod function_profile;
pub mod laws;
pub mod profiler;
pub mod tree;

pub use bars::{GenericTreeBarThing, LoneBar};
pub use function_profile::FunctionProfile;
pub use profiler::{PerformanceProfiler, ProfileEntry, Settings};
pub use tree::{Tree, TreeNode};

verus! {

/// Process-wide stable identifier of a profiled region.
pub type StatString = &'static str;

/// Relies on `str`'s `PartialEq`: two string slices compare equal exactly
/// when their character sequences are equal.
#[verifier::external_body]
pub(crate) fn str_eq(a: &str, b: &str) -> (r: bool)
    ensures
        r == (a@ == b@),
{
    a == b
}

} // verus!
