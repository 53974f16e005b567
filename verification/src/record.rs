//! Per-location records and batch assembly.
//!
//! For each spatial point of a working batch, in scan order (latitude
//! outer, longitude inner), the assembler normalizes the longitude,
//! classifies the basin, extracts the per-variable series under the active
//! policy, and emits one record per retained location. Dropped locations
//! are omitted, never emitted empty. Batch boundaries carry no meaning:
//! they only bound memory and write size.

use vstd::prelude::*;
use crate::basin::{spec_classify, ClassificationGrid};
use crate::coords::{normalize_longitude, spec_normalize_longitude};
use crate::error::IngestError;
use crate::fmt::{micro_to_string, spec_micro_string};
use crate::mask::QualityGate;
use crate::series::{
    extract_gated, extract_joint, spec_all_retained, spec_kept_times, spec_masked_at, VarSeries,
};
use crate::timefmt::{spec_timestamp_string, timestamp_string};

verus! {

/// The unit of output: a stable identity derived from the coordinates, the
/// basin identifier, the geolocation (GeoJSON point order: longitude then
/// latitude), and one aligned series per tracked variable, with a parallel
/// timestamp series where the ingest mode carries one. Never mutated after
/// creation.
pub struct LocationRecord {
    pub id: String,
    pub metadata: Vec<String>,
    pub basin: i32,
    pub lon_micro: i64,
    pub lat_micro: i64,
    pub data: Vec<Vec<u64>>,
    pub timeseries: Option<Vec<String>>,
}

/// The mathematical shadow of a record: text as character sequences,
/// coordinates as unbounded integers.
#[verifier::ext_equal]
pub ghost struct RecordModel {
    pub id: Seq<char>,
    pub metadata: Seq<Seq<char>>,
    pub basin: int,
    pub lon_micro: int,
    pub lat_micro: int,
    pub data: Seq<Seq<u64>>,
    pub timeseries: Option<Seq<Seq<char>>>,
}

impl View for LocationRecord {
    type V = RecordModel;

    open spec fn view(&self) -> RecordModel {
        RecordModel {
            id: self.id@,
            metadata: self.metadata.deep_view(),
            basin: self.basin as int,
            lon_micro: self.lon_micro as int,
            lat_micro: self.lat_micro as int,
            data: self.data.deep_view(),
            timeseries: match self.timeseries {
                Some(ts) => Some(ts.deep_view()),
                None => None,
            },
        }
    }
}

impl RecordModel {
    /// Every data series runs to the same length, and the timestamp
    /// series, where present, runs with them.
    pub open spec fn wf(&self) -> bool {
        &&& forall|j: int| 0 <= j < self.data.len()
            ==> (#[trigger] self.data[j]).len() == self.series_len()
        &&& self.timeseries matches Some(ts) ==> ts.len() == self.series_len()
    }

    /// The common length of the record's series.
    pub open spec fn series_len(&self) -> nat {
        if self.data.len() > 0 {
            self.data[0].len()
        } else {
            0
        }
    }
}

/// The record identity: normalized longitude and latitude in decimal
/// degrees, joined by an underscore. The text round-trips the pair
/// uniquely, so the identity is as unique as the coordinate pair itself.
pub open spec fn spec_record_id(lon: int, lat: int) -> Seq<char> {
    spec_micro_string(lon) + seq!['_'] + spec_micro_string(lat)
}

/// Identity uniqueness: two locations share an identity string only when
/// they are the same coordinate pair. The decimal text round-trips each
/// coordinate uniquely and never contains the underscore, so the join is
/// unambiguous; a batch whose cells normalize to distinct pairs emits
/// distinct identities.
pub proof fn lemma_record_id_injective(lon1: int, lat1: int, lon2: int, lat2: int)
    requires
        spec_record_id(lon1, lat1) == spec_record_id(lon2, lat2),
    ensures
        lon1 == lon2,
        lat1 == lat2,
{
    crate::fmt::lemma_micro_string_shape(lon1);
    crate::fmt::lemma_micro_string_shape(lon2);
    crate::fmt::lemma_micro_string_shape(lat1);
    crate::fmt::lemma_micro_string_shape(lat2);
    let s1 = spec_record_id(lon1, lat1);
    let s2 = spec_record_id(lon2, lat2);
    let l1 = spec_micro_string(lon1).len() as int;
    let l2 = spec_micro_string(lon2).len() as int;
    assert(s1[l1] == '_');
    assert(s2[l2] == '_');
    if l1 < l2 {
        assert(s2[l1] == spec_micro_string(lon2)[l1]);
        assert(false);
    }
    if l2 < l1 {
        assert(s1[l2] == spec_micro_string(lon1)[l2]);
        assert(false);
    }
    assert(spec_micro_string(lon1) =~= s1.take(l1));
    assert(spec_micro_string(lon2) =~= s2.take(l2));
    crate::fmt::lemma_micro_string_injective(lon1, lon2);
    assert(spec_micro_string(lat1) =~= s1.skip(l1 + 1));
    assert(spec_micro_string(lat2) =~= s2.skip(l2 + 1));
    crate::fmt::lemma_micro_string_injective(lat1, lat2);
}

/// Writes the identity of a location.
pub fn location_id(lon_micro: i64, lat_micro: i64) -> (s: String)
    requires
        lon_micro > i64::MIN,
        lat_micro > i64::MIN,
    ensures
        s@ == spec_record_id(lon_micro as int, lat_micro as int),
{
    let mut s = micro_to_string(lon_micro);
    proof {
        reveal_strlit("_");
    }
    s.append("_");
    s.append(micro_to_string(lat_micro).as_str());
    proof {
        assert(s@ =~= spec_record_id(lon_micro as int, lat_micro as int));
    }
    s
}

/// Clones the per-record metadata reference keys.
fn clone_strings(xs: &Vec<String>) -> (r: Vec<String>)
    ensures
        r.deep_view() == xs.deep_view(),
{
    let mut r: Vec<String> = Vec::new();
    let mut i: usize = 0;
    while i < xs.len()
        invariant
            i <= xs@.len(),
            r@.len() == i,
            forall|k: int| 0 <= k < i ==> #[trigger] r@[k]@ == xs@[k]@,
        decreases xs@.len() - i,
    {
        r.push(xs[i].clone());
        i += 1;
    }
    proof {
        assert(r.deep_view() =~= xs.deep_view());
    }
    r
}

/// The record of one retained location under the quality-gated policy: no
/// timestamp series, data gated per variable and timestep.
pub open spec fn spec_gated_record(
    g: QualityGate,
    metadata: Seq<Seq<char>>,
    lon: int,
    lat: int,
    vars: Seq<VarSeries>,
    basin: i32,
) -> RecordModel {
    RecordModel {
        id: spec_record_id(lon, lat),
        metadata: metadata,
        basin: basin as int,
        lon_micro: lon,
        lat_micro: lat,
        data: Seq::new(
            vars.len(),
            |j: int| Seq::new(vars[j].values@.len(), |t: int| spec_masked_at(g, vars[j], t)),
        ),
        timeseries: None,
    }
}

/// The records of the first `n` longitudes of one latitude row under the
/// quality-gated policy, in scan order: a location enters iff every
/// variable keeps a real sample; classification of a retained location
/// outside the grid aborts the row with its error.
pub open spec fn spec_assemble_gated(
    grid: Seq<Seq<i32>>,
    g: QualityGate,
    metadata: Seq<Seq<char>>,
    lat: i64,
    lons: Seq<i64>,
    vars_by_lon: Seq<Vec<VarSeries>>,
    n: int,
) -> Result<Seq<RecordModel>, IngestError>
    decreases n,
{
    if n <= 0 {
        Ok(Seq::empty())
    } else {
        match spec_assemble_gated(grid, g, metadata, lat, lons, vars_by_lon, n - 1) {
            Err(e) => Err(e),
            Ok(s) => {
                let lon = spec_normalize_longitude(lons[n - 1] as int);
                if spec_all_retained(g, vars_by_lon[n - 1]@) {
                    match spec_classify(grid, lon, lat as int) {
                        Err(e) => Err(e),
                        Ok(b) => Ok(
                            s.push(
                                spec_gated_record(
                                    g,
                                    metadata,
                                    lon,
                                    lat as int,
                                    vars_by_lon[n - 1]@,
                                    b,
                                ),
                            ),
                        ),
                    }
                } else {
                    Ok(s)
                }
            }
        }
    }
}

/// A row that has failed stays failed: assembly never recovers past an
/// error.
proof fn lemma_assemble_gated_error_persists(
    grid: Seq<Seq<i32>>,
    g: QualityGate,
    metadata: Seq<Seq<char>>,
    lat: i64,
    lons: Seq<i64>,
    vars_by_lon: Seq<Vec<VarSeries>>,
    m: int,
    n: int,
)
    requires
        0 <= m <= n,
        spec_assemble_gated(grid, g, metadata, lat, lons, vars_by_lon, m) is Err,
    ensures
        spec_assemble_gated(grid, g, metadata, lat, lons, vars_by_lon, n)
            == spec_assemble_gated(grid, g, metadata, lat, lons, vars_by_lon, m),
    decreases n - m,
{
    if n > m {
        lemma_assemble_gated_error_persists(grid, g, metadata, lat, lons, vars_by_lon, m, n - 1);
    }
}

/// Assembles one latitude row under the quality-gated policy. Emits, in
/// longitude order, one record per location whose every variable keeps at
/// least one real sample; locations failing the all-or-nothing gate are
/// omitted entirely. Every emitted record is well-formed: its data series
/// all share one length.
pub fn assemble_row_gated(
    grid: &ClassificationGrid,
    g: &QualityGate,
    metadata: &Vec<String>,
    lat_micro: i64,
    lons_micro: &Vec<i64>,
    vars_by_lon: &Vec<Vec<VarSeries>>,
) -> (r: Result<Vec<LocationRecord>, IngestError>)
    requires
        -90_000_000 <= lat_micro <= 90_000_000,
        lons_micro@.len() == vars_by_lon@.len(),
        forall|i: int| 0 <= i < lons_micro@.len()
            ==> -180_000_000 < #[trigger] lons_micro@[i] < 360_000_000,
        forall|i: int, j: int|
            0 <= i < vars_by_lon@.len() && 0 <= j < vars_by_lon@[i]@.len()
                ==> (#[trigger] vars_by_lon@[i]@[j]).wf(),
        forall|i: int, j: int|
            0 <= i < vars_by_lon@.len() && 0 <= j < vars_by_lon@[i]@.len()
                ==> (#[trigger] vars_by_lon@[i]@[j]).values@.len()
                    == vars_by_lon@[i]@[0].values@.len(),
    ensures
        ({
            let full = spec_assemble_gated(
                grid@,
                *g,
                metadata.deep_view(),
                lat_micro,
                lons_micro@,
                vars_by_lon@,
                lons_micro@.len() as int,
            );
            &&& (full matches Ok(s) ==> r matches Ok(recs)
                && recs@.map_values(|x: LocationRecord| x@) == s)
            &&& (full matches Err(e) ==> r == Err::<Vec<LocationRecord>, IngestError>(e))
        }),
        r matches Ok(recs) ==> forall|k: int| 0 <= k < recs@.len() ==> (#[trigger] recs@[k])@.wf(),
{
    let n = lons_micro.len();
    let ghost md = metadata.deep_view();
    let mut recs: Vec<LocationRecord> = Vec::new();
    let mut i: usize = 0;
    while i < n
        invariant
            i <= n,
            n == lons_micro@.len(),
            lons_micro@.len() == vars_by_lon@.len(),
            -90_000_000 <= lat_micro <= 90_000_000,
            md == metadata.deep_view(),
            forall|k: int| 0 <= k < lons_micro@.len()
                ==> -180_000_000 < #[trigger] lons_micro@[k] < 360_000_000,
            forall|k: int, j: int|
                0 <= k < vars_by_lon@.len() && 0 <= j < vars_by_lon@[k]@.len()
                    ==> (#[trigger] vars_by_lon@[k]@[j]).wf(),
            forall|k: int, j: int|
                0 <= k < vars_by_lon@.len() && 0 <= j < vars_by_lon@[k]@.len()
                    ==> (#[trigger] vars_by_lon@[k]@[j]).values@.len()
                        == vars_by_lon@[k]@[0].values@.len(),
            spec_assemble_gated(grid@, *g, md, lat_micro, lons_micro@, vars_by_lon@, i as int)
                is Ok,
            recs@.map_values(|x: LocationRecord| x@)
                == spec_assemble_gated(
                    grid@, *g, md, lat_micro, lons_micro@, vars_by_lon@, i as int,
                )->Ok_0,
            forall|k: int| 0 <= k < recs@.len() ==> (#[trigger] recs@[k])@.wf(),
        decreases n - i,
    {
        let ghost pfx = spec_assemble_gated(
            grid@, *g, md, lat_micro, lons_micro@, vars_by_lon@, i as int,
        );
        let lon_n = normalize_longitude(lons_micro[i]);
        match extract_gated(g, &vars_by_lon[i]) {
            None => {
                proof {
                    assert(spec_assemble_gated(
                        grid@, *g, md, lat_micro, lons_micro@, vars_by_lon@, i as int + 1,
                    ) == pfx);
                }
            }
            Some(data) => {
                match grid.classify(lon_n, lat_micro) {
                    Err(e) => {
                        proof {
                            assert(spec_assemble_gated(
                                grid@, *g, md, lat_micro, lons_micro@, vars_by_lon@, i as int + 1,
                            ) == Err::<Seq<RecordModel>, IngestError>(e));
                            lemma_assemble_gated_error_persists(
                                grid@, *g, md, lat_micro, lons_micro@, vars_by_lon@,
                                i as int + 1, n as int,
                            );
                        }
                        return Err(e);
                    }
                    Ok(b) => {
                        let id = location_id(lon_n, lat_micro);
                        let rec = LocationRecord {
                            id,
                            metadata: clone_strings(metadata),
                            basin: b,
                            lon_micro: lon_n,
                            lat_micro,
                            data,
                            timeseries: None,
                        };
                        proof {
                            let vars = vars_by_lon@[i as int]@;
                            let m = spec_gated_record(
                                *g, md, lon_n as int, lat_micro as int, vars, b,
                            );
                            assert forall|j: int| 0 <= j < vars.len()
                                implies #[trigger] rec@.data[j] =~= m.data[j] by {
                                assert(rec.data@[j].deep_view() =~= rec.data@[j]@);
                            }
                            assert(rec@ =~~= m);
                            assert(rec@.wf());
                        }
                        recs.push(rec);
                        proof {
                            assert(recs@.map_values(|x: LocationRecord| x@)
                                =~= pfx->Ok_0.push(recs@.last()@));
                        }
                    }
                }
            }
        }
        i += 1;
    }
    Ok(recs)
}

/// What the assembler does to a prefix never depends on the points beyond
/// it.
#[verifier::rlimit(60)]
proof fn lemma_assemble_gated_prefix(
    grid: Seq<Seq<i32>>,
    g: QualityGate,
    metadata: Seq<Seq<char>>,
    lat: i64,
    lons1: Seq<i64>,
    vars1: Seq<Vec<VarSeries>>,
    lons2: Seq<i64>,
    vars2: Seq<Vec<VarSeries>>,
    n: int,
)
    requires
        0 <= n <= lons1.len(),
        lons1.len() == vars1.len(),
    ensures
        spec_assemble_gated(grid, g, metadata, lat, lons1 + lons2, vars1 + vars2, n)
            == spec_assemble_gated(grid, g, metadata, lat, lons1, vars1, n),
    decreases n,
{
    if n > 0 {
        lemma_assemble_gated_prefix(grid, g, metadata, lat, lons1, vars1, lons2, vars2, n - 1);
        assert((lons1 + lons2)[n - 1] == lons1[n - 1]);
        assert((vars1 + vars2)[n - 1] == vars1[n - 1]);
    }
}

/// Batch boundaries carry no semantic meaning: splitting a row into two
/// longitude batches changes neither which locations are retained nor what
/// their records hold — the records of the whole are the records of the
/// first batch followed by those of the second, and an error in either
/// batch is the error of the whole.
pub proof fn lemma_assemble_gated_batching(
    grid: Seq<Seq<i32>>,
    g: QualityGate,
    metadata: Seq<Seq<char>>,
    lat: i64,
    lons1: Seq<i64>,
    vars1: Seq<Vec<VarSeries>>,
    lons2: Seq<i64>,
    vars2: Seq<Vec<VarSeries>>,
)
    requires
        lons1.len() == vars1.len(),
        lons2.len() == vars2.len(),
    ensures
        ({
            let whole = spec_assemble_gated(
                grid, g, metadata, lat, lons1 + lons2, vars1 + vars2,
                lons1.len() as int + lons2.len() as int,
            );
            let first = spec_assemble_gated(grid, g, metadata, lat, lons1, vars1, lons1.len() as int);
            let second = spec_assemble_gated(grid, g, metadata, lat, lons2, vars2, lons2.len() as int);
            &&& (first is Err ==> whole == first)
            &&& (first is Ok && second is Err ==> whole == second)
            &&& (first is Ok && second is Ok ==> whole == Ok::<Seq<RecordModel>, IngestError>(
                first->Ok_0 + second->Ok_0,
            ))
        }),
{
    lemma_assemble_gated_prefix(
        grid, g, metadata, lat, lons1, vars1, lons2, vars2, lons1.len() as int,
    );
    let first = spec_assemble_gated(grid, g, metadata, lat, lons1, vars1, lons1.len() as int);
    if first is Err {
        lemma_assemble_gated_error_persists(
            grid, g, metadata, lat, lons1 + lons2, vars1 + vars2,
            lons1.len() as int, lons1.len() as int + lons2.len() as int,
        );
    } else {
        lemma_assemble_gated_batching_step(
            grid, g, metadata, lat, lons1, vars1, lons2, vars2, lons2.len() as int,
        );
    }
}

/// The induction behind batching: walking `n` points of the second batch
/// atop the first batch's records mirrors walking them alone.
proof fn lemma_assemble_gated_batching_step(
    grid: Seq<Seq<i32>>,
    g: QualityGate,
    metadata: Seq<Seq<char>>,
    lat: i64,
    lons1: Seq<i64>,
    vars1: Seq<Vec<VarSeries>>,
    lons2: Seq<i64>,
    vars2: Seq<Vec<VarSeries>>,
    n: int,
)
    requires
        lons1.len() == vars1.len(),
        lons2.len() == vars2.len(),
        0 <= n <= lons2.len(),
        spec_assemble_gated(grid, g, metadata, lat, lons1, vars1, lons1.len() as int) is Ok,
    ensures
        ({
            let whole = spec_assemble_gated(
                grid, g, metadata, lat, lons1 + lons2, vars1 + vars2, lons1.len() as int + n,
            );
            let first = spec_assemble_gated(grid, g, metadata, lat, lons1, vars1, lons1.len() as int);
            let second = spec_assemble_gated(grid, g, metadata, lat, lons2, vars2, n);
            &&& (second is Err ==> whole == second)
            &&& (second is Ok ==> whole == Ok::<Seq<RecordModel>, IngestError>(
                first->Ok_0 + second->Ok_0,
            ))
        }),
    decreases n,
{
    if n == 0 {
        lemma_assemble_gated_prefix(
            grid, g, metadata, lat, lons1, vars1, lons2, vars2, lons1.len() as int,
        );
        let first = spec_assemble_gated(grid, g, metadata, lat, lons1, vars1, lons1.len() as int);
        assert(first->Ok_0 + Seq::<RecordModel>::empty() =~= first->Ok_0);
    } else {
        lemma_assemble_gated_batching_step(
            grid, g, metadata, lat, lons1, vars1, lons2, vars2, n - 1,
        );
        assert((lons1 + lons2)[lons1.len() as int + n - 1] == lons2[n - 1]);
        assert((vars1 + vars2)[lons1.len() as int + n - 1] == vars2[n - 1]);
        let first = spec_assemble_gated(grid, g, metadata, lat, lons1, vars1, lons1.len() as int);
        let prev = spec_assemble_gated(grid, g, metadata, lat, lons2, vars2, n - 1);
        let cur = spec_assemble_gated(grid, g, metadata, lat, lons2, vars2, n);
        if prev is Ok && cur is Ok && cur != prev {
            assert(first->Ok_0 + prev->Ok_0.push(cur->Ok_0.last())
                =~= (first->Ok_0 + prev->Ok_0).push(cur->Ok_0.last()));
        }
    }
}

/// The record of one retained location under the joint-NaN policy: data
/// filtered to the jointly kept timesteps, with the parallel ISO 8601
/// timestamp series.
pub open spec fn spec_joint_record(
    metadata: Seq<Seq<char>>,
    lon: int,
    lat: int,
    vars: Seq<Seq<u64>>,
    times: Seq<i64>,
    basin: i32,
) -> RecordModel {
    let kept = spec_kept_times(vars, times.len() as int);
    RecordModel {
        id: spec_record_id(lon, lat),
        metadata: metadata,
        basin: basin as int,
        lon_micro: lon,
        lat_micro: lat,
        data: Seq::new(vars.len(), |j: int| Seq::new(kept.len(), |k: int| vars[j][kept[k]])),
        timeseries: Some(
            Seq::new(kept.len(), |k: int| spec_timestamp_string(times[kept[k]] as int)),
        ),
    }
}

/// The records of the first `n` longitudes of one latitude row under the
/// joint-NaN policy, in scan order: a location enters iff at least one
/// timestep survives joint filtering.
pub open spec fn spec_assemble_joint(
    grid: Seq<Seq<i32>>,
    metadata: Seq<Seq<char>>,
    lat: i64,
    lons: Seq<i64>,
    vars_by_lon: Seq<Vec<Vec<u64>>>,
    times: Seq<i64>,
    n: int,
) -> Result<Seq<RecordModel>, IngestError>
    decreases n,
{
    if n <= 0 {
        Ok(Seq::empty())
    } else {
        match spec_assemble_joint(grid, metadata, lat, lons, vars_by_lon, times, n - 1) {
            Err(e) => Err(e),
            Ok(s) => {
                let lon = spec_normalize_longitude(lons[n - 1] as int);
                let vars = vars_by_lon[n - 1].deep_view();
                if spec_kept_times(vars, times.len() as int).len() > 0 {
                    match spec_classify(grid, lon, lat as int) {
                        Err(e) => Err(e),
                        Ok(b) => Ok(
                            s.push(spec_joint_record(metadata, lon, lat as int, vars, times, b)),
                        ),
                    }
                } else {
                    Ok(s)
                }
            }
        }
    }
}

/// A row that has failed stays failed, under the joint policy too.
proof fn lemma_assemble_joint_error_persists(
    grid: Seq<Seq<i32>>,
    metadata: Seq<Seq<char>>,
    lat: i64,
    lons: Seq<i64>,
    vars_by_lon: Seq<Vec<Vec<u64>>>,
    times: Seq<i64>,
    m: int,
    n: int,
)
    requires
        0 <= m <= n,
        spec_assemble_joint(grid, metadata, lat, lons, vars_by_lon, times, m) is Err,
    ensures
        spec_assemble_joint(grid, metadata, lat, lons, vars_by_lon, times, n)
            == spec_assemble_joint(grid, metadata, lat, lons, vars_by_lon, times, m),
    decreases n - m,
{
    if n > m {
        lemma_assemble_joint_error_persists(
            grid, metadata, lat, lons, vars_by_lon, times, m, n - 1,
        );
    }
}

/// What the joint assembler does to a prefix never depends on the points
/// beyond it.
#[verifier::rlimit(60)]
proof fn lemma_assemble_joint_prefix(
    grid: Seq<Seq<i32>>,
    metadata: Seq<Seq<char>>,
    lat: i64,
    lons1: Seq<i64>,
    vars1: Seq<Vec<Vec<u64>>>,
    lons2: Seq<i64>,
    vars2: Seq<Vec<Vec<u64>>>,
    times: Seq<i64>,
    n: int,
)
    requires
        0 <= n <= lons1.len(),
        lons1.len() == vars1.len(),
    ensures
        spec_assemble_joint(grid, metadata, lat, lons1 + lons2, vars1 + vars2, times, n)
            == spec_assemble_joint(grid, metadata, lat, lons1, vars1, times, n),
    decreases n,
{
    if n > 0 {
        lemma_assemble_joint_prefix(
            grid, metadata, lat, lons1, vars1, lons2, vars2, times, n - 1,
        );
        assert((lons1 + lons2)[n - 1] == lons1[n - 1]);
        assert((vars1 + vars2)[n - 1] == vars1[n - 1]);
    }
}

/// Batch boundaries carry no semantic meaning under the joint policy
/// either: the records of a row split into two longitude batches are the
/// records of the first batch followed by those of the second, and an
/// error in either batch is the error of the whole.
pub proof fn lemma_assemble_joint_batching(
    grid: Seq<Seq<i32>>,
    metadata: Seq<Seq<char>>,
    lat: i64,
    lons1: Seq<i64>,
    vars1: Seq<Vec<Vec<u64>>>,
    lons2: Seq<i64>,
    vars2: Seq<Vec<Vec<u64>>>,
    times: Seq<i64>,
)
    requires
        lons1.len() == vars1.len(),
        lons2.len() == vars2.len(),
    ensures
        ({
            let whole = spec_assemble_joint(
                grid, metadata, lat, lons1 + lons2, vars1 + vars2, times,
                lons1.len() as int + lons2.len() as int,
            );
            let first = spec_assemble_joint(
                grid, metadata, lat, lons1, vars1, times, lons1.len() as int,
            );
            let second = spec_assemble_joint(
                grid, metadata, lat, lons2, vars2, times, lons2.len() as int,
            );
            &&& (first is Err ==> whole == first)
            &&& (first is Ok && second is Err ==> whole == second)
            &&& (first is Ok && second is Ok ==> whole == Ok::<Seq<RecordModel>, IngestError>(
                first->Ok_0 + second->Ok_0,
            ))
        }),
{
    lemma_assemble_joint_prefix(
        grid, metadata, lat, lons1, vars1, lons2, vars2, times, lons1.len() as int,
    );
    let first = spec_assemble_joint(grid, metadata, lat, lons1, vars1, times, lons1.len() as int);
    if first is Err {
        lemma_assemble_joint_error_persists(
            grid, metadata, lat, lons1 + lons2, vars1 + vars2, times,
            lons1.len() as int, lons1.len() as int + lons2.len() as int,
        );
    } else {
        lemma_assemble_joint_batching_step(
            grid, metadata, lat, lons1, vars1, lons2, vars2, times, lons2.len() as int,
        );
    }
}

/// The induction behind joint batching.
proof fn lemma_assemble_joint_batching_step(
    grid: Seq<Seq<i32>>,
    metadata: Seq<Seq<char>>,
    lat: i64,
    lons1: Seq<i64>,
    vars1: Seq<Vec<Vec<u64>>>,
    lons2: Seq<i64>,
    vars2: Seq<Vec<Vec<u64>>>,
    times: Seq<i64>,
    n: int,
)
    requires
        lons1.len() == vars1.len(),
        lons2.len() == vars2.len(),
        0 <= n <= lons2.len(),
        spec_assemble_joint(grid, metadata, lat, lons1, vars1, times, lons1.len() as int) is Ok,
    ensures
        ({
            let whole = spec_assemble_joint(
                grid, metadata, lat, lons1 + lons2, vars1 + vars2, times, lons1.len() as int + n,
            );
            let first = spec_assemble_joint(
                grid, metadata, lat, lons1, vars1, times, lons1.len() as int,
            );
            let second = spec_assemble_joint(grid, metadata, lat, lons2, vars2, times, n);
            &&& (second is Err ==> whole == second)
            &&& (second is Ok ==> whole == Ok::<Seq<RecordModel>, IngestError>(
                first->Ok_0 + second->Ok_0,
            ))
        }),
    decreases n,
{
    if n == 0 {
        lemma_assemble_joint_prefix(
            grid, metadata, lat, lons1, vars1, lons2, vars2, times, lons1.len() as int,
        );
        let first = spec_assemble_joint(
            grid, metadata, lat, lons1, vars1, times, lons1.len() as int,
        );
        assert(first->Ok_0 + Seq::<RecordModel>::empty() =~= first->Ok_0);
    } else {
        lemma_assemble_joint_batching_step(
            grid, metadata, lat, lons1, vars1, lons2, vars2, times, n - 1,
        );
        assert((lons1 + lons2)[lons1.len() as int + n - 1] == lons2[n - 1]);
        assert((vars1 + vars2)[lons1.len() as int + n - 1] == vars2[n - 1]);
        let first = spec_assemble_joint(
            grid, metadata, lat, lons1, vars1, times, lons1.len() as int,
        );
        let prev = spec_assemble_joint(grid, metadata, lat, lons2, vars2, times, n - 1);
        let cur = spec_assemble_joint(grid, metadata, lat, lons2, vars2, times, n);
        if prev is Ok && cur is Ok && cur != prev {
            assert(first->Ok_0 + prev->Ok_0.push(cur->Ok_0.last())
                =~= (first->Ok_0 + prev->Ok_0).push(cur->Ok_0.last()));
        }
    }
}

/// Assembles one latitude row under the joint-NaN policy. Emits, in
/// longitude order, one record per location with at least one jointly kept
/// timestep; each record carries the parallel ISO 8601 timestamp series,
/// aligned index for index with every data series.
pub fn assemble_row_joint(
    grid: &ClassificationGrid,
    metadata: &Vec<String>,
    lat_micro: i64,
    lons_micro: &Vec<i64>,
    vars_by_lon: &Vec<Vec<Vec<u64>>>,
    times: &Vec<i64>,
) -> (r: Result<Vec<LocationRecord>, IngestError>)
    requires
        -90_000_000 <= lat_micro <= 90_000_000,
        lons_micro@.len() == vars_by_lon@.len(),
        forall|i: int| 0 <= i < lons_micro@.len()
            ==> -180_000_000 < #[trigger] lons_micro@[i] < 360_000_000,
        forall|i: int, j: int|
            0 <= i < vars_by_lon@.len() && 0 <= j < vars_by_lon@[i]@.len()
                ==> (#[trigger] vars_by_lon@[i]@[j])@.len() == times@.len(),
        forall|t: int| 0 <= t < times@.len() ==> 0 <= #[trigger] times@[t] <= 3_000_000,
    ensures
        ({
            let full = spec_assemble_joint(
                grid@,
                metadata.deep_view(),
                lat_micro,
                lons_micro@,
                vars_by_lon@,
                times@,
                lons_micro@.len() as int,
            );
            &&& (full matches Ok(s) ==> r matches Ok(recs)
                && recs@.map_values(|x: LocationRecord| x@) == s)
            &&& (full matches Err(e) ==> r == Err::<Vec<LocationRecord>, IngestError>(e))
        }),
        r matches Ok(recs) ==> forall|k: int| 0 <= k < recs@.len() ==> (#[trigger] recs@[k])@.wf(),
{
    let n = lons_micro.len();
    let ghost md = metadata.deep_view();
    let mut recs: Vec<LocationRecord> = Vec::new();
    let mut i: usize = 0;
    while i < n
        invariant
            i <= n,
            n == lons_micro@.len(),
            lons_micro@.len() == vars_by_lon@.len(),
            -90_000_000 <= lat_micro <= 90_000_000,
            md == metadata.deep_view(),
            forall|k: int| 0 <= k < lons_micro@.len()
                ==> -180_000_000 < #[trigger] lons_micro@[k] < 360_000_000,
            forall|k: int, j: int|
                0 <= k < vars_by_lon@.len() && 0 <= j < vars_by_lon@[k]@.len()
                    ==> (#[trigger] vars_by_lon@[k]@[j])@.len() == times@.len(),
            forall|t: int| 0 <= t < times@.len() ==> 0 <= #[trigger] times@[t] <= 3_000_000,
            spec_assemble_joint(grid@, md, lat_micro, lons_micro@, vars_by_lon@, times@, i as int)
                is Ok,
            recs@.map_values(|x: LocationRecord| x@)
                == spec_assemble_joint(
                    grid@, md, lat_micro, lons_micro@, vars_by_lon@, times@, i as int,
                )->Ok_0,
            forall|k: int| 0 <= k < recs@.len() ==> (#[trigger] recs@[k])@.wf(),
        decreases n - i,
    {
        let ghost pfx = spec_assemble_joint(
            grid@, md, lat_micro, lons_micro@, vars_by_lon@, times@, i as int,
        );
        let ghost vars = vars_by_lon@[i as int].deep_view();
        let ghost kept = spec_kept_times(vars, times@.len() as int);
        let lon_n = normalize_longitude(lons_micro[i]);
        match extract_joint(&vars_by_lon[i], times) {
            None => {
                proof {
                    assert(spec_assemble_joint(
                        grid@, md, lat_micro, lons_micro@, vars_by_lon@, times@, i as int + 1,
                    ) == pfx);
                }
            }
            Some((data, ts)) => {
                match grid.classify(lon_n, lat_micro) {
                    Err(e) => {
                        proof {
                            assert(spec_assemble_joint(
                                grid@, md, lat_micro, lons_micro@, vars_by_lon@, times@,
                                i as int + 1,
                            ) == Err::<Seq<RecordModel>, IngestError>(e));
                            lemma_assemble_joint_error_persists(
                                grid@, md, lat_micro, lons_micro@, vars_by_lon@, times@,
                                i as int + 1, n as int,
                            );
                        }
                        return Err(e);
                    }
                    Ok(b) => {
                        proof {
                            crate::series::lemma_kept_times_characterization(
                                vars, times@.len() as int,
                            );
                        }
                        let mut tstrings: Vec<String> = Vec::new();
                        let mut k: usize = 0;
                        while k < ts.len()
                            invariant
                                k <= ts@.len(),
                                ts@.len() == kept.len(),
                                forall|u: int| 0 <= u < kept.len()
                                    ==> 0 <= #[trigger] kept[u] < times@.len(),
                                forall|u: int| 0 <= u < kept.len()
                                    ==> #[trigger] ts@[u] == times@[kept[u]],
                                forall|t: int| 0 <= t < times@.len()
                                    ==> 0 <= #[trigger] times@[t] <= 3_000_000,
                                tstrings@.len() == k,
                                forall|u: int| 0 <= u < k
                                    ==> (#[trigger] tstrings@[u])@
                                        == spec_timestamp_string(ts@[u] as int),
                            decreases ts@.len() - k,
                        {
                            tstrings.push(timestamp_string(ts[k]));
                            k += 1;
                        }
                        let id = location_id(lon_n, lat_micro);
                        let rec = LocationRecord {
                            id,
                            metadata: clone_strings(metadata),
                            basin: b,
                            lon_micro: lon_n,
                            lat_micro,
                            data,
                            timeseries: Some(tstrings),
                        };
                        proof {
                            let m = spec_joint_record(
                                md, lon_n as int, lat_micro as int, vars, times@, b,
                            );
                            assert forall|j: int| 0 <= j < vars.len()
                                implies #[trigger] rec@.data[j] =~= m.data[j] by {
                                assert(rec.data@[j].deep_view() =~= rec.data@[j]@);
                                assert forall|u: int| 0 <= u < kept.len()
                                    implies #[trigger] rec.data@[j]@[u] == vars[j][kept[u]] by {
                                    assert(rec.data@[j]@[u] == vars_by_lon@[i as int]@[j]@[kept[u]]);
                                    assert(vars[j] =~= vars_by_lon@[i as int]@[j]@);
                                }
                            }
                            assert(rec@.timeseries->0 =~= m.timeseries->0);
                            assert(rec@ =~~= m);
                            assert(0 < kept.len());
                            assert(crate::series::spec_joint_keep(
                                vars,
                                spec_kept_times(vars, times@.len() as int)[0],
                            ));
                            assert(vars.len() > 0);
                            assert(rec@.data[0].len() == kept.len());
                            assert(rec@.timeseries->0.len() == kept.len());
                            assert(rec@.wf());
                        }
                        recs.push(rec);
                        proof {
                            assert(recs@.map_values(|x: LocationRecord| x@)
                                =~= pfx->Ok_0.push(recs@.last()@));
                        }
                    }
                }
            }
        }
        i += 1;
    }
    Ok(recs)
}

} // verus!
