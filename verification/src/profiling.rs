//! Profiling entry points for builds without an attached profiler: every
//! hook is a no-op, so the rest of the code can call them
//! unconditionally. `validate_cstr_contents` guards the zero-terminated
//! names handed to a profiler's C interface.

use vstd::prelude::*;

verus! {

/// Start-of-process profiler hook; nothing to do without a profiler.
pub fn startup_profiler() {
}

/// Frame boundary marker; nothing to do without a profiler.
pub fn tracy_frame() {
}

/// GPU profiling context creation; nothing to do without a profiler.
pub fn tracy_create_gpu_context(_name: &str) {
}

/// GPU timing collection; nothing to do without a profiler.
pub fn tracy_gpu_collect() {
}

/// Check that a byte string destined for a zero-terminated C name
/// carries no interior zero byte; the caller must not pass one.
pub fn validate_cstr_contents(bytes: &[u8])
    requires
        forall|i: int| 0 <= i < bytes@.len() ==> (#[trigger] bytes@[i]) != 0,
{
}

} // verus!
