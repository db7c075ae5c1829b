//! Scheduling orchestrator: chooses parallel or sequential frame encoding
//! from the frame count and the estimated decoded memory footprint.

use vstd::prelude::*;

verus! {

/// Memory threshold for parallel processing (512 MiB). Animations whose
/// estimated decoded footprint reaches this bound are encoded sequentially
/// to keep the peak working set predictable.
pub const PARALLEL_MEMORY_LIMIT: u64 = 512 * 1024 * 1024;

/// Estimated total decoded memory: full RGBA canvas per frame.
pub open spec fn spec_estimated_memory(w: int, h: int, frames: int) -> int {
    w * h * 4 * frames
}

/// The parallel path is taken only for multi-frame inputs whose estimate
/// stays strictly below the threshold; the boundary itself is sequential.
pub open spec fn spec_use_parallel(w: int, h: int, frames: int) -> bool {
    frames > 1 && spec_estimated_memory(w, h, frames) < PARALLEL_MEMORY_LIMIT as int
}

/// Decides between parallel and sequential frame encoding.
pub fn use_parallel(w: u16, h: u16, frame_count: usize) -> (r: bool)
    ensures
        r == spec_use_parallel(w as int, h as int, frame_count as int),
{
    proof {
        assert(0 <= w as int * h as int <= 0xffff * 0xffff
            && 0 <= w as int * h as int * 4 <= 0xffff * 0xffff * 4
            && w as int * h as int * 4 * (frame_count as int) < 0x100000000000000000000000000000000)
            by (nonlinear_arith)
            requires 0 <= w as int <= 0xffff && 0 <= h as int <= 0xffff
                && 0 <= frame_count as int && (frame_count as int) < 0x10000000000000000;
    }
    let est: u128 = (w as u128) * (h as u128) * 4 * (frame_count as u128);
    frame_count > 1 && est < (PARALLEL_MEMORY_LIMIT as u128)
}

/// A single-frame input always takes the sequential path, whatever the
/// canvas size.
pub proof fn lemma_single_frame_sequential(w: int, h: int)
    ensures
        !spec_use_parallel(w, h, 1),
{
}

} // verus!
