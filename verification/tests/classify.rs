use grid_ingest::basin::ClassificationGrid;
use grid_ingest::error::IngestError;

/// A grid with the full coverage of the classification dataset's shape:
/// rows from latitude -77.5 upward, columns from longitude -179.5 eastward,
/// each cell holding a distinct identifier derived from its indices.
fn indexed_grid(n_lat: usize, n_lon: usize) -> ClassificationGrid {
    let mut rows: Vec<Vec<i32>> = Vec::new();
    for i in 0..n_lat {
        let mut row: Vec<i32> = Vec::new();
        for j in 0..n_lon {
            row.push((i * 1000 + j) as i32);
        }
        rows.push(row);
    }
    ClassificationGrid::from_rows(rows).unwrap()
}

#[test]
fn from_rows_refuses_ragged_input() {
    let rows = vec![vec![1, 2, 3], vec![4, 5]];
    assert!(ClassificationGrid::from_rows(rows).is_none());
    let rows = vec![vec![1, 2], vec![3, 4]];
    assert!(ClassificationGrid::from_rows(rows).is_some());
}

#[test]
fn classify_at_exact_cell_center() {
    // (-0.5, -0.5) is itself a cell center: lat row 77, lon column 179
    let grid = indexed_grid(156, 360);
    let b = grid.classify(-500_000, -500_000).unwrap();
    assert_eq!(b, 77 * 1000 + 179);
}

#[test]
fn classify_nearest_corner_scenario() {
    // point (lon 0.3, lat -0.3): bracketing corners (-0.5,-0.5), (-0.5,0.5),
    // (0.5,0.5), (0.5,-0.5); nearest is (0.5,-0.5) at lat row 77, lon column 180
    let grid = indexed_grid(156, 360);
    let b = grid.classify(300_000, -300_000).unwrap();
    assert_eq!(b, 77 * 1000 + 180);
}

#[test]
fn classify_tie_breaks_to_first_corner() {
    // lon 0 sits exactly between the centers -0.5 and 0.5; with the latitude
    // aligned at -0.5, the bottom-left corner (-0.5, -0.5) is enumerated
    // first and must win the tie against (0.5, -0.5)
    let grid = indexed_grid(156, 360);
    let b = grid.classify(0, -500_000).unwrap();
    assert_eq!(b, 77 * 1000 + 179);
}

#[test]
fn classify_tie_above_and_below() {
    // latitude 0 sits exactly between the centers -0.5 and 0.5; the corner
    // below (bottom-left) is enumerated before the corner above (top-left)
    let grid = indexed_grid(156, 360);
    let b = grid.classify(-500_000, 0).unwrap();
    assert_eq!(b, 77 * 1000 + 179);
}

#[test]
fn classify_outside_grid_is_an_error() {
    // a 10 x 10 grid covers latitudes -77.5..-68.5 only
    let grid = indexed_grid(10, 10);
    let r = grid.classify(100_000_000, 50_000_000);
    assert!(matches!(
        r,
        Err(IngestError::IndexOutOfBounds { lon_micro: 100_000_000, lat_micro: 50_000_000 })
    ));
}

#[test]
fn classify_below_origin_is_an_error() {
    // latitude -80 lies south of the grid origin row
    let grid = indexed_grid(156, 360);
    let r = grid.classify(0, -80_000_000);
    assert!(matches!(r, Err(IngestError::IndexOutOfBounds { .. })));
}

#[test]
fn grid_accessors() {
    let grid = indexed_grid(3, 5);
    assert_eq!(grid.n_lat(), 3);
    assert_eq!(grid.n_lon(), 5);
    assert_eq!(grid.basin_at(2, 4), 2004);
}

#[test]
fn classify_tie_at_the_dateline() {
    // longitude 180 sits exactly between the centers 179.5 and 180.5; the
    // bottom-left corner at 179.5 (column 359) is enumerated first, so the
    // lookup stays inside a 360-column grid
    let grid = indexed_grid(156, 360);
    let b = grid.classify(180_000_000, -500_000).unwrap();
    assert_eq!(b, 77 * 1000 + 359);
}
