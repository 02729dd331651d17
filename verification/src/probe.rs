//! The duration arithmetic of the prober.
//!
//! The container probe itself — the inspection of the assembled bytes'
//! headers for the default track's frame count and time base — runs
//! outside the engine, in the caller's ordinary code: a decoder library
//! can abort on hostile bytes, and an upload's assembled bytes are client
//! data, so the call must run where such an abort can be contained. The
//! caller hands the probe's findings back as plain values
//! (`Some((frames, numer, denom))`, or `None` when no track, time base,
//! or frame count was found), and everything after that point — the
//! duration formula and the finalization — is verified.

use vstd::prelude::*;

verus! {

/// The play duration in whole seconds of `frames` ticks of a
/// `numer`/`denom` time base: `frames * numer / denom` truncated toward
/// zero, saturating at `i64::MAX`.
pub open spec fn duration_secs_spec(frames: u64, numer: u32, denom: u32) -> i64
    recommends
        denom > 0,
{
    let q = (frames * numer) / (denom as int);
    if q > i64::MAX {
        i64::MAX
    } else {
        q as i64
    }
}

/// Compute the whole-second duration of `frames` ticks of a `numer`/`denom`
/// time base.
pub fn duration_seconds(frames: u64, numer: u32, denom: u32) -> (r: i64)
    requires
        denom > 0,
    ensures
        r == duration_secs_spec(frames, numer, denom),
{
    proof {
        assert((frames as int) * (numer as int) <= (u64::MAX as int) * (u32::MAX as int))
            by (nonlinear_arith)
            requires
                frames <= u64::MAX,
                numer <= u32::MAX,
        ;
    }
    let dividend: u128 = (frames as u128) * (numer as u128);
    let q: u128 = dividend / (denom as u128);
    if q > i64::MAX as u128 {
        i64::MAX
    } else {
        q as i64
    }
}

/// A probed duration is never negative.
pub proof fn lemma_duration_nonneg(frames: u64, numer: u32, denom: u32)
    requires
        denom > 0,
    ensures
        duration_secs_spec(frames, numer, denom) >= 0,
{
    vstd::arithmetic::div_mod::lemma_div_pos_is_pos((frames * numer) as int, denom as int);
}

} // verus!
