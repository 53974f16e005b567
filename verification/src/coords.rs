//! Fixed-point coordinates and longitude normalization.
//!
//! A coordinate is a count of micro-degrees (a millionth of a degree), held
//! in an `i64`. Source longitudes may arrive in [0, 360) degrees and must be
//! mapped onto (-180, 180] before any lookup or storage.

use vstd::prelude::*;

verus! {

/// 180 degrees in micro-degrees.
pub const HALF_TURN_MICRO: i64 = 180_000_000;

/// 360 degrees in micro-degrees.
pub const FULL_TURN_MICRO: i64 = 360_000_000;

/// What longitude normalization returns: longitudes at or below 180 degrees
/// pass unchanged, anything above is shifted down a full turn.
pub open spec fn spec_normalize_longitude(lon: int) -> int {
    if lon <= 180_000_000 {
        lon
    } else {
        lon - 360_000_000
    }
}

/// Maps a longitude in micro-degrees onto (-180, 180] degrees: values in
/// [0, 360) degrees land there exactly; values already at or below 180
/// degrees pass unchanged.
pub fn normalize_longitude(lon_micro: i64) -> (r: i64)
    ensures
        r == spec_normalize_longitude(lon_micro as int),
        0 <= lon_micro < FULL_TURN_MICRO ==> -HALF_TURN_MICRO < r <= HALF_TURN_MICRO,
{
    if lon_micro <= HALF_TURN_MICRO {
        lon_micro
    } else {
        lon_micro - FULL_TURN_MICRO
    }
}

/// Normalization is idempotent on every longitude whose first normalization
/// lands at or below 180 degrees, in particular on all of [0, 360) degrees.
pub proof fn lemma_normalize_longitude_idempotent(lon: int)
    requires
        lon <= 540_000_000,
    ensures
        spec_normalize_longitude(spec_normalize_longitude(lon)) == spec_normalize_longitude(lon),
{
}

} // verus!
