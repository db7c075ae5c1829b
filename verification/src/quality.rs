//! Quality-adaptive compression parameters derived from the user quality value.

use vstd::prelude::*;

verus! {

/// Numeric tuning derived from the quality tier.
///
/// `dithering_pct` is the dithering strength in hundredths (65 stands for a
/// dithering level of 0.65 handed to the quantizer). `lossy_tolerance` is the
/// per-channel RGB distance below which adjacent pixels are merged before
/// quantization; 0 disables the lossy pixel alignment entirely.
#[derive(Clone, Copy, PartialEq, Eq, Structural, Debug)]
pub struct QualityParams {
    pub dithering_pct: u8,
    pub lossy_tolerance: u8,
}

/// The three quality tiers: high quality dithers more and never merges
/// pixels; low quality dithers less and merges more aggressively.
pub open spec fn spec_quality_params(quality: u32) -> QualityParams {
    if quality >= 90 {
        QualityParams { dithering_pct: 65, lossy_tolerance: 0 }
    } else if quality >= 75 {
        QualityParams { dithering_pct: 45, lossy_tolerance: 2 }
    } else {
        QualityParams { dithering_pct: 25, lossy_tolerance: 4 }
    }
}

/// Maps a 0-100 quality value to its tier's parameters.
pub fn quality_params(quality: u32) -> (r: QualityParams)
    ensures
        r == spec_quality_params(quality),
{
    if quality >= 90 {
        QualityParams { dithering_pct: 65, lossy_tolerance: 0 }
    } else if quality >= 75 {
        QualityParams { dithering_pct: 45, lossy_tolerance: 2 }
    } else {
        QualityParams { dithering_pct: 25, lossy_tolerance: 4 }
    }
}

/// Adjacent quality tiers select different parameter pairs: 89 and 90 differ,
/// as do 74 and 75.
pub proof fn lemma_tier_boundaries()
    ensures
        spec_quality_params(89) != spec_quality_params(90),
        spec_quality_params(74) != spec_quality_params(75),
{
}

} // verus!
