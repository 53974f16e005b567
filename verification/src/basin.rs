//! Basin classification against a fixed 1-degree lookup grid.
//!
//! The classification grid is a 2D array of integer basin identifiers whose
//! cell centers sit at half-integer degrees, with origin at -179.5 degrees
//! longitude and -77.5 degrees latitude. A continuous coordinate is
//! classified by the nearest of the four cell centers bracketing it; ties go
//! to the first corner in the fixed order bottom-left, top-left, top-right,
//! bottom-right.

use vstd::prelude::*;
use vstd::arithmetic::div_mod::{
    lemma_div_multiples_vanish_fancy, lemma_fundamental_div_mod,
    lemma_mod_division_less_than_divisor,
};
use crate::error::IngestError;

verus! {

/// Shifting a dividend by whole multiples of a micro-degree shifts its
/// quotient by as much.
proof fn lemma_micro_div_shift(a: int, k: int)
    ensures
        (a + k * 1_000_000) / 1_000_000 == a / 1_000_000 + k,
{
    let q = a / 1_000_000;
    let r = a % 1_000_000;
    lemma_fundamental_div_mod(a, 1_000_000);
    lemma_mod_division_less_than_divisor(a, 1_000_000);
    assert(a + k * 1_000_000 == 1_000_000 * (q + k) + r) by (nonlinear_arith)
        requires a == 1_000_000 * q + r,
    ;
    lemma_div_multiples_vanish_fancy(q + k, r, 1_000_000);
}

/// The nearest cell-center coordinate at or below `x`:
/// `floor(x - 0.5) + 0.5` in degrees, over micro-degrees.
pub open spec fn spec_corner_low(x: int) -> int {
    ((x - 500_000) / 1_000_000) * 1_000_000 + 500_000
}

/// The nearest cell-center coordinate at or above `x`:
/// `ceil(x - 0.5) + 0.5` in degrees, over micro-degrees.
pub open spec fn spec_corner_high(x: int) -> int {
    ((x + 499_999) / 1_000_000) * 1_000_000 + 500_000
}

/// The four cell centers bracketing a point, in the fixed enumeration
/// order: bottom-left, top-left, top-right, bottom-right.
pub open spec fn spec_corners(lon: int, lat: int) -> Seq<(int, int)> {
    seq![
        (spec_corner_low(lon), spec_corner_low(lat)),
        (spec_corner_low(lon), spec_corner_high(lat)),
        (spec_corner_high(lon), spec_corner_high(lat)),
        (spec_corner_high(lon), spec_corner_low(lat)),
    ]
}

/// Squared Euclidean distance from a point to a corner, in micro-degrees.
/// Squares order exactly as the distances themselves do.
pub open spec fn spec_dist2(lon: int, lat: int, c: (int, int)) -> int {
    (lon - c.0) * (lon - c.0) + (lat - c.1) * (lat - c.1)
}

/// The squared distances to the four bracketing corners, in enumeration
/// order.
pub open spec fn spec_corner_dists(lon: int, lat: int) -> Seq<int> {
    seq![
        spec_dist2(lon, lat, spec_corners(lon, lat)[0]),
        spec_dist2(lon, lat, spec_corners(lon, lat)[1]),
        spec_dist2(lon, lat, spec_corners(lon, lat)[2]),
        spec_dist2(lon, lat, spec_corners(lon, lat)[3]),
    ]
}

/// The index of the least element of the first `n` entries, the earliest
/// winning every tie: the running minimum is displaced only by a strictly
/// smaller entry.
pub open spec fn argmin_first(ds: Seq<int>, n: int) -> int
    recommends
        1 <= n <= ds.len(),
    decreases n,
{
    if n <= 1 {
        0
    } else {
        let b = argmin_first(ds, n - 1);
        if ds[n - 1] < ds[b] {
            n - 1
        } else {
            b
        }
    }
}

/// The grid row of a cell-center latitude: its offset from the -77.5 degree
/// origin, in whole degrees.
pub open spec fn spec_lat_index(c: int) -> int {
    (c + 77_500_000) / 1_000_000
}

/// The grid column of a cell-center longitude: its offset from the -179.5
/// degree origin, in whole degrees.
pub open spec fn spec_lon_index(c: int) -> int {
    (c + 179_500_000) / 1_000_000
}

/// What classification returns: the basin identifier stored at the nearest
/// bracketing corner's cell, or `IndexOutOfBounds` when that cell lies
/// outside the grid.
pub open spec fn spec_classify(grid: Seq<Seq<i32>>, lon: int, lat: int) -> Result<i32, IngestError> {
    let k = argmin_first(spec_corner_dists(lon, lat), 4);
    let c = spec_corners(lon, lat)[k];
    let li = spec_lat_index(c.1);
    let oi = spec_lon_index(c.0);
    if 0 <= li && li < grid.len() && 0 <= oi && oi < grid[li].len() {
        Ok(grid[li][oi])
    } else {
        Err(IngestError::IndexOutOfBounds { lon_micro: lon as i64, lat_micro: lat as i64 })
    }
}

/// Floor division of a micro-degree count by one degree.
fn floor_div_micro(a: i64) -> (q: i64)
    requires
        -1_500_000_000 <= a <= 1_500_000_000,
    ensures
        q == a as int / 1_000_000,
{
    let sh: u64 = (a + 2_000_000_000) as u64;
    let qs: u64 = sh / 1_000_000;
    proof {
        lemma_micro_div_shift(a as int, 2_000);
    }
    (qs as i64) - 2_000
}

/// The nearest cell-center coordinate at or below `x`.
fn corner_low(x: i64) -> (r: i64)
    requires
        -1_000_000_000 <= x <= 1_000_000_000,
    ensures
        r == spec_corner_low(x as int),
        x - 1_000_000 < r <= x,
{
    let q = floor_div_micro(x - 500_000);
    proof {
        lemma_fundamental_div_mod(x - 500_000, 1_000_000);
        lemma_mod_division_less_than_divisor(x - 500_000, 1_000_000);
    }
    q * 1_000_000 + 500_000
}

/// The nearest cell-center coordinate at or above `x`.
fn corner_high(x: i64) -> (r: i64)
    requires
        -1_000_000_000 <= x <= 1_000_000_000,
    ensures
        r == spec_corner_high(x as int),
        x <= r < x + 1_000_000,
{
    let q = floor_div_micro(x + 499_999);
    proof {
        lemma_fundamental_div_mod(x + 499_999, 1_000_000);
        lemma_mod_division_less_than_divisor(x + 499_999, 1_000_000);
    }
    q * 1_000_000 + 500_000
}

/// Squared distance from a point to a corner at most one degree away.
fn dist2(lon: i64, lat: i64, clon: i64, clat: i64) -> (d: i64)
    requires
        clon - 1_000_000 <= lon <= clon + 1_000_000,
        clat - 1_000_000 <= lat <= clat + 1_000_000,
        -2_000_000_000 <= clon <= 2_000_000_000,
        -2_000_000_000 <= clat <= 2_000_000_000,
    ensures
        d == spec_dist2(lon as int, lat as int, (clon as int, clat as int)),
{
    let dx = lon - clon;
    let dy = lat - clat;
    proof {
        assert(dx as int * dx as int <= 1_000_000_000_000 && dx as int * dx as int >= 0)
            by (nonlinear_arith)
            requires -1_000_000 <= dx as int <= 1_000_000,
        ;
        assert(dy as int * dy as int <= 1_000_000_000_000 && dy as int * dy as int >= 0)
            by (nonlinear_arith)
            requires -1_000_000 <= dy as int <= 1_000_000,
        ;
    }
    dx * dx + dy * dy
}

/// The classification grid: basin identifiers by (latitude row, longitude
/// column), all rows of one length, loaded once per run and immutable.
pub struct ClassificationGrid {
    basins: Vec<Vec<i32>>,
}

impl View for ClassificationGrid {
    type V = Seq<Seq<i32>>;

    closed spec fn view(&self) -> Seq<Seq<i32>> {
        self.basins.deep_view()
    }
}

/// All rows of one length.
pub open spec fn spec_rows_uniform(rows: Seq<Seq<i32>>) -> bool {
    forall|i: int| 0 <= i < rows.len() ==> #[trigger] rows[i].len() == rows[0].len()
}

impl ClassificationGrid {
    /// A well-formed grid is rectangular.
    pub open spec fn wf(&self) -> bool {
        spec_rows_uniform(self@)
    }

    /// Builds a grid from rows of basin identifiers; refuses ragged input.
    pub fn from_rows(rows: Vec<Vec<i32>>) -> (r: Option<ClassificationGrid>)
        ensures
            r is Some <==> spec_rows_uniform(rows.deep_view()),
            r matches Some(g) ==> g@ == rows.deep_view() && g.wf(),
    {
        let n = rows.len();
        let mut i: usize = 0;
        while i < n
            invariant
                i <= n,
                n == rows.len(),
                rows.deep_view().len() == n,
                forall|j: int| 0 <= j < rows@.len() ==> (#[trigger] rows.deep_view()[j]).len()
                    == rows@[j]@.len(),
                forall|j: int| 0 <= j < i ==> #[trigger] rows@[j]@.len() == rows.deep_view()[0].len(),
            decreases n - i,
        {
            if rows[i].len() != rows[0].len() {
                proof {
                    assert(rows.deep_view()[i as int].len() != rows.deep_view()[0].len());
                }
                return None;
            }
            i += 1;
        }
        Some(ClassificationGrid { basins: rows })
    }

    /// Number of latitude rows.
    pub fn n_lat(&self) -> (n: usize)
        ensures
            n == self@.len(),
    {
        self.basins.len()
    }

    /// Number of longitude columns.
    pub fn n_lon(&self) -> (n: usize)
        ensures
            self@.len() > 0 ==> n == self@[0].len(),
            self@.len() == 0 ==> n == 0,
    {
        if self.basins.len() == 0 {
            0
        } else {
            proof {
                assert(self@[0].len() == self.basins@[0]@.len());
            }
            self.basins[0].len()
        }
    }

    /// The basin identifier stored at a cell.
    pub fn basin_at(&self, lat_idx: usize, lon_idx: usize) -> (b: i32)
        requires
            lat_idx < self@.len(),
            lon_idx < self@[lat_idx as int].len(),
        ensures
            b == self@[lat_idx as int][lon_idx as int],
    {
        proof {
            assert(self@[lat_idx as int] == self.basins@[lat_idx as int]@);
        }
        self.basins[lat_idx][lon_idx]
    }

    /// Returns the basin identifier of the nearest classification cell
    /// center, ties to the first corner enumerated; `IndexOutOfBounds` when
    /// the nearest center's cell lies outside the grid — the grid does not
    /// cover the queried coordinate, and clamping would hide that.
    pub fn classify(&self, lon_micro: i64, lat_micro: i64) -> (r: Result<i32, IngestError>)
        requires
            -180_000_000 < lon_micro <= 180_000_000,
            -90_000_000 <= lat_micro <= 90_000_000,
        ensures
            r == spec_classify(self@, lon_micro as int, lat_micro as int),
    {
        let lon_lo = corner_low(lon_micro);
        let lon_hi = corner_high(lon_micro);
        let lat_lo = corner_low(lat_micro);
        let lat_hi = corner_high(lat_micro);

        // bottom-left, top-left, top-right, bottom-right
        let corner_lons: Vec<i64> = vec![lon_lo, lon_lo, lon_hi, lon_hi];
        let corner_lats: Vec<i64> = vec![lat_lo, lat_hi, lat_hi, lat_lo];
        let dists: Vec<i64> = vec![
            dist2(lon_micro, lat_micro, lon_lo, lat_lo),
            dist2(lon_micro, lat_micro, lon_lo, lat_hi),
            dist2(lon_micro, lat_micro, lon_hi, lat_hi),
            dist2(lon_micro, lat_micro, lon_hi, lat_lo),
        ];
        let ghost ds = spec_corner_dists(lon_micro as int, lat_micro as int);
        proof {
            assert(ds.len() == 4);
            assert(forall|j: int| 0 <= j < 4 ==> dists@[j] == ds[j]);
        }

        let mut bi: usize = 0;
        let mut i: usize = 1;
        while i < 4
            invariant
                1 <= i <= 4,
                bi < i,
                dists@.len() == 4,
                forall|j: int| 0 <= j < 4 ==> dists@[j] == ds[j],
                bi as int == argmin_first(ds, i as int),
            decreases 4 - i,
        {
            if dists[i] < dists[bi] {
                bi = i;
            }
            i += 1;
        }

        let sel_lon = corner_lons[bi];
        let sel_lat = corner_lats[bi];
        proof {
            assert((sel_lon as int, sel_lat as int)
                == spec_corners(lon_micro as int, lat_micro as int)[bi as int]);
        }

        let li = floor_div_micro(sel_lat + 77_500_000);
        let oi = floor_div_micro(sel_lon + 179_500_000);
        if li >= 0 && oi >= 0 {
            let liu = li as usize;
            let oiu = oi as usize;
            if liu < self.basins.len() {
                proof {
                    assert(self@[liu as int] == self.basins@[liu as int]@);
                }
                if oiu < self.basins[liu].len() {
                    return Ok(self.basins[liu][oiu]);
                }
            }
        }
        Err(IngestError::IndexOutOfBounds { lon_micro, lat_micro })
    }
}

/// The running minimum of the corner scan: the selected index holds a least
/// entry, and every earlier entry is strictly greater — the first of several
/// equal minima wins.
pub proof fn lemma_argmin_first_props(ds: Seq<int>, n: int)
    requires
        1 <= n <= ds.len(),
    ensures
        0 <= argmin_first(ds, n) < n,
        forall|i: int| 0 <= i < n ==> ds[argmin_first(ds, n)] <= #[trigger] ds[i],
        forall|i: int| 0 <= i < argmin_first(ds, n) ==> #[trigger] ds[i] > ds[argmin_first(ds, n)],
    decreases n,
{
    if n > 1 {
        lemma_argmin_first_props(ds, n - 1);
    }
}

/// Tie-break determinism: of two entries equal to the minimum, the scan
/// never selects the later one. For two corners equidistant from the point,
/// classification reads the first in enumeration order.
pub proof fn lemma_tie_break_first_wins(ds: Seq<int>, n: int, i: int, j: int)
    requires
        1 <= n <= ds.len(),
        0 <= i < j < n,
        ds[i] == ds[j],
        forall|k: int| 0 <= k < n ==> ds[i] <= ds[k],
    ensures
        argmin_first(ds, n) <= i,
        ds[argmin_first(ds, n)] == ds[i],
{
    lemma_argmin_first_props(ds, n);
}

/// At a cell center the point coincides with its first bracketing corner,
/// at distance zero, so classification returns that very cell's basin.
pub proof fn lemma_classify_at_cell_center(grid: Seq<Seq<i32>>, lon: int, lat: int)
    requires
        (lon - 500_000) % 1_000_000 == 0,
        (lat - 500_000) % 1_000_000 == 0,
        0 <= spec_lat_index(lat) < grid.len(),
        0 <= spec_lon_index(lon) < grid[spec_lat_index(lat)].len(),
    ensures
        spec_classify(grid, lon, lat)
            == Ok::<i32, IngestError>(grid[spec_lat_index(lat)][spec_lon_index(lon)]),
{
    let x = lon;
    let y = lat;
    lemma_aligned_corners(x);
    lemma_aligned_corners(y);
    let ds = spec_corner_dists(x, y);
    assert((x - x) * (x - x) + (y - y) * (y - y) == 0) by (nonlinear_arith);
    assert(spec_corners(x, y)[0] == (x, y));
    assert(spec_corners(x, y)[1] == (x, y));
    assert(spec_corners(x, y)[2] == (x, y));
    assert(spec_corners(x, y)[3] == (x, y));
    assert(ds[0] == 0 && ds[1] == 0 && ds[2] == 0 && ds[3] == 0);
    assert(argmin_first(ds, 1) == 0);
    assert(argmin_first(ds, 2) == 0);
    assert(argmin_first(ds, 3) == 0);
    assert(argmin_first(ds, 4) == 0);
}

/// On a coordinate aligned to a cell center, both bracketing centers are
/// the coordinate itself.
proof fn lemma_aligned_corners(x: int)
    requires
        (x - 500_000) % 1_000_000 == 0,
    ensures
        spec_corner_low(x) == x,
        spec_corner_high(x) == x,
{
    let a = x - 500_000;
    lemma_fundamental_div_mod(a, 1_000_000);
    let t = a / 1_000_000;
    assert(a == 1_000_000 * t);
    lemma_div_multiples_vanish_fancy(t, 999_999, 1_000_000);
    assert((1_000_000 * t + 999_999) / 1_000_000 == t);
    assert(x + 499_999 == 1_000_000 * t + 999_999);
}

} // verus!
