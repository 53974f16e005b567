use grid_ingest::basin::ClassificationGrid;
use grid_ingest::error::{attribute_text, AttributeValue, IngestError};
use grid_ingest::mask::{QualityGate, FULL_WINDOW_COUNT, NAN_BITS, SENTINEL_MISSING_BITS};
use grid_ingest::record::{assemble_row_gated, assemble_row_joint};
use grid_ingest::series::VarSeries;
use grid_ingest::timefmt::{nowstring, timestamp_string};

fn gate() -> QualityGate {
    QualityGate { sentinel_bits: SENTINEL_MISSING_BITS, expected_count: FULL_WINDOW_COUNT }
}

fn wide_grid() -> ClassificationGrid {
    let mut rows: Vec<Vec<i32>> = Vec::new();
    for i in 0..156 {
        let mut row: Vec<i32> = Vec::new();
        for j in 0..360 {
            row.push((i * 1000 + j) as i32);
        }
        rows.push(row);
    }
    ClassificationGrid::from_rows(rows).unwrap()
}

#[test]
fn gated_row_emits_retained_locations_only() {
    let grid = wide_grid();
    let g = gate();
    let metadata = vec![String::from("ccmpwind")];
    // two longitudes at latitude -0.3: the first is fully covered, the
    // second has one wholly missing variable and is dropped
    let lons = vec![300_000i64, 359_750_000i64];
    let covered = vec![
        VarSeries { values: vec![1.0f64.to_bits(), 2.0f64.to_bits()], counts: Some(vec![28, 28]) },
        VarSeries { values: vec![3.0f64.to_bits(), 4.0f64.to_bits()], counts: None },
    ];
    let sparse = vec![
        VarSeries {
            values: vec![SENTINEL_MISSING_BITS, SENTINEL_MISSING_BITS],
            counts: Some(vec![28, 28]),
        },
        VarSeries { values: vec![3.0f64.to_bits(), 4.0f64.to_bits()], counts: None },
    ];
    let recs = assemble_row_gated(&grid, &g, &metadata, -300_000, &lons, &vec![covered, sparse])
        .unwrap();
    assert_eq!(recs.len(), 1);
    let rec = &recs[0];
    assert_eq!(rec.id, "0.3_-0.3");
    assert_eq!(rec.metadata, vec![String::from("ccmpwind")]);
    // nearest corner of (0.3, -0.3) is (0.5, -0.5): lat row 77, lon column 180
    assert_eq!(rec.basin, 77 * 1000 + 180);
    assert_eq!(rec.lon_micro, 300_000);
    assert_eq!(rec.lat_micro, -300_000);
    assert_eq!(rec.data.len(), 2);
    assert_eq!(rec.data[0], vec![1.0f64.to_bits(), 2.0f64.to_bits()]);
    assert_eq!(rec.data[1], vec![3.0f64.to_bits(), 4.0f64.to_bits()]);
    assert!(rec.timeseries.is_none());
}

#[test]
fn gated_row_normalizes_longitudes_for_identity_and_classification() {
    let grid = wide_grid();
    let g = gate();
    let metadata = vec![String::from("ccmpwind")];
    // source longitude 359.75 normalizes to -0.25
    let lons = vec![359_750_000i64];
    let vars = vec![VarSeries { values: vec![9.0f64.to_bits()], counts: Some(vec![28]) }];
    let recs =
        assemble_row_gated(&grid, &g, &metadata, -250_000, &lons, &vec![vars]).unwrap();
    assert_eq!(recs.len(), 1);
    assert_eq!(recs[0].id, "-0.25_-0.25");
    assert_eq!(recs[0].lon_micro, -250_000);
    // nearest corner of (-0.25, -0.25) is (-0.5, -0.5): row 77, column 179
    assert_eq!(recs[0].basin, 77 * 1000 + 179);
}

#[test]
fn gated_row_propagates_classification_error() {
    // a grid of one row cannot cover latitude 50
    let grid = ClassificationGrid::from_rows(vec![vec![1, 2, 3]]).unwrap();
    let g = gate();
    let metadata = vec![String::from("ccmpwind")];
    let lons = vec![100_000i64];
    let vars = vec![VarSeries { values: vec![1.0f64.to_bits()], counts: Some(vec![28]) }];
    let r = assemble_row_gated(&grid, &g, &metadata, 50_000_000, &lons, &vec![vars]);
    assert!(matches!(r, Err(IngestError::IndexOutOfBounds { .. })));
}

#[test]
fn joint_row_carries_aligned_timestamp_series() {
    let grid = wide_grid();
    let metadata = vec![String::from("rawwind")];
    let nan = f64::NAN.to_bits();
    let lons = vec![300_000i64, 500_000i64];
    // first location: timestep 1 is wholly NaN and vanishes; second
    // location: every timestep wholly NaN, so no record at all
    let first = vec![
        vec![1.0f64.to_bits(), nan, 2.0f64.to_bits()],
        vec![nan, nan, 3.0f64.to_bits()],
    ];
    let second = vec![vec![nan, nan, nan], vec![nan, nan, nan]];
    let times = vec![0i64, 31, 365];
    let recs = assemble_row_joint(
        &grid,
        &metadata,
        -300_000,
        &lons,
        &vec![first, second],
        &times,
    )
    .unwrap();
    assert_eq!(recs.len(), 1);
    let rec = &recs[0];
    assert_eq!(rec.id, "0.3_-0.3");
    assert_eq!(rec.basin, 77 * 1000 + 180);
    let ts = rec.timeseries.as_ref().unwrap();
    assert_eq!(
        ts,
        &vec![String::from("1993-01-01T00:00:00Z"), String::from("1994-01-01T00:00:00Z")]
    );
    // every data series runs to the same length as the timestamp series
    for d in &rec.data {
        assert_eq!(d.len(), ts.len());
    }
    assert_eq!(rec.data[0], vec![1.0f64.to_bits(), 2.0f64.to_bits()]);
    assert_eq!(rec.data[1], vec![nan, 3.0f64.to_bits()]);
}

#[test]
fn timestamps_from_epoch_days() {
    assert_eq!(timestamp_string(0), "1993-01-01T00:00:00Z");
    assert_eq!(timestamp_string(31), "1993-02-01T00:00:00Z");
    assert_eq!(timestamp_string(365), "1994-01-01T00:00:00Z");
    // 1996 is a leap year
    assert_eq!(timestamp_string(3 * 365 + 31 + 29), "1996-03-01T00:00:00Z");
}

#[test]
fn nowstring_has_iso8601_shape() {
    let s = nowstring();
    let b = s.as_bytes();
    assert_eq!(b.len(), 20);
    assert_eq!(b[4], b'-');
    assert_eq!(b[7], b'-');
    assert_eq!(b[10], b'T');
    assert_eq!(b[13], b':');
    assert_eq!(b[16], b':');
    assert_eq!(b[19], b'Z');
    // the run happens well after the dataset epoch
    assert!(&s[0..4] >= "2020");
}

#[test]
fn attribute_extraction() {
    let var = String::from("uwnd");
    let attr = String::from("units");
    let ok = attribute_text(&var, &attr, &AttributeValue::Text(String::from("m s-1")));
    assert_eq!(ok.unwrap(), "m s-1");
    let bad = attribute_text(&var, &attr, &AttributeValue::Other);
    match bad {
        Err(IngestError::MalformedAttribute { variable, attribute }) => {
            assert_eq!(variable, "uwnd");
            assert_eq!(attribute, "units");
        }
        _ => panic!("expected a malformed-attribute error"),
    }
}
