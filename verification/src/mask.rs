//! Missing-value policies.
//!
//! Variable samples are the bit patterns of IEEE 754 binary64 values. A
//! sample is "missing" when it is a NaN, which the bit pattern shows
//! exactly: exponent all ones and a non-zero fraction. The quality gate of
//! the period-mean ingest additionally masks samples equal to a sentinel
//! constant or whose companion observation count falls short of the full
//! window.

use vstd::prelude::*;

verus! {

/// The bit pattern of the canonical quiet NaN that masked samples are
/// recorded as.
pub const NAN_BITS: u64 = 0x7FF8_0000_0000_0000;

/// The bit pattern of the dataset's no-data marker, -999.9 in binary64.
pub const SENTINEL_MISSING_BITS: u64 = 0xC08F_3F33_3333_3333;

/// Observation count that marks a complete averaging window: 28 six-hour
/// periods per weekly mean.
pub const FULL_WINDOW_COUNT: i64 = 28;

/// Whether a binary64 bit pattern is a NaN: exponent all ones, fraction
/// non-zero. This is the NaN-aware missingness test; IEEE equality would
/// call a NaN unequal to itself.
pub open spec fn spec_is_nan(b: u64) -> bool {
    (b >> 52) & 0x7FF == 0x7FF && b & 0x000F_FFFF_FFFF_FFFF != 0
}

/// The canonical NaN is a NaN, and the sentinel is not.
pub proof fn lemma_mask_constants()
    ensures
        spec_is_nan(NAN_BITS),
        !spec_is_nan(SENTINEL_MISSING_BITS),
{
    assert((0x7FF8_0000_0000_0000u64 >> 52) & 0x7FF == 0x7FF
        && 0x7FF8_0000_0000_0000u64 & 0x000F_FFFF_FFFF_FFFF != 0) by (bit_vector);
    assert(!((0xC08F_3F33_3333_3333u64 >> 52) & 0x7FF == 0x7FF)) by (bit_vector);
}

/// Tests a sample's bit pattern for NaN.
pub fn is_nan_bits(b: u64) -> (r: bool)
    ensures
        r == spec_is_nan(b),
{
    (b >> 52) & 0x7FF == 0x7FF && b & 0x000F_FFFF_FFFF_FFFF != 0
}

/// The quality gate of the period-mean ingest: the sentinel no-data marker
/// and the observation count that stands for a complete window.
#[derive(Clone, Copy, Debug, PartialEq, Eq, Structural)]
pub struct QualityGate {
    pub sentinel_bits: u64,
    pub expected_count: i64,
}

/// Gate for a variable with a companion observation count: the sample
/// passes only when it differs from the sentinel and the count says the
/// whole window was present; everything else is recorded as NaN.
pub open spec fn spec_gate_counted(g: QualityGate, v: u64, n: i64) -> u64 {
    if v == g.sentinel_bits || n != g.expected_count {
        NAN_BITS
    } else {
        v
    }
}

/// Gate for a variable without a companion count: only the sentinel is
/// masked.
pub open spec fn spec_gate_plain(g: QualityGate, v: u64) -> u64 {
    if v == g.sentinel_bits {
        NAN_BITS
    } else {
        v
    }
}

/// Applies the counted quality gate to one sample. A sample equal to the
/// sentinel is recorded as NaN whatever its count; a sample with a short
/// count is recorded as NaN whatever its value.
pub fn gate_counted(g: &QualityGate, v: u64, n: i64) -> (r: u64)
    ensures
        r == spec_gate_counted(*g, v, n),
        v == g.sentinel_bits ==> r == NAN_BITS,
        n != g.expected_count ==> r == NAN_BITS,
        spec_is_nan(r) <==> (v == g.sentinel_bits || n != g.expected_count || spec_is_nan(v)),
{
    proof {
        lemma_mask_constants();
    }
    if v != g.sentinel_bits && n == g.expected_count {
        v
    } else {
        NAN_BITS
    }
}

/// Applies the plain quality gate to one sample.
pub fn gate_plain(g: &QualityGate, v: u64) -> (r: u64)
    ensures
        r == spec_gate_plain(*g, v),
        v == g.sentinel_bits ==> r == NAN_BITS,
        spec_is_nan(r) <==> (v == g.sentinel_bits || spec_is_nan(v)),
{
    proof {
        lemma_mask_constants();
    }
    if v != g.sentinel_bits {
        v
    } else {
        NAN_BITS
    }
}

} // verus!
