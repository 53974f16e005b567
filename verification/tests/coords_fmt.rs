use grid_ingest::coords::normalize_longitude;
use grid_ingest::fmt::{i64_to_string, iso8601_string, micro_to_string, u64_to_string};
use grid_ingest::record::location_id;

#[test]
fn normalize_source_longitude() {
    // 359.75 degrees normalizes to -0.25 degrees
    assert_eq!(normalize_longitude(359_750_000), -250_000);
}

#[test]
fn normalize_leaves_low_longitudes() {
    assert_eq!(normalize_longitude(0), 0);
    assert_eq!(normalize_longitude(180_000_000), 180_000_000);
    assert_eq!(normalize_longitude(-120_000_000), -120_000_000);
}

#[test]
fn normalize_wraps_high_longitudes() {
    assert_eq!(normalize_longitude(180_000_001), -179_999_999);
    assert_eq!(normalize_longitude(270_000_000), -90_000_000);
}

#[test]
fn normalize_is_idempotent_on_source_range() {
    let mut lon: i64 = 0;
    while lon < 360_000_000 {
        let once = normalize_longitude(lon);
        assert_eq!(normalize_longitude(once), once);
        assert!(-180_000_000 < once && once <= 180_000_000);
        lon += 30_250_000;
    }
}

#[test]
fn digits_render_plain() {
    assert_eq!(u64_to_string(0), "0");
    assert_eq!(u64_to_string(7), "7");
    assert_eq!(u64_to_string(1_234_567), "1234567");
    assert_eq!(i64_to_string(-42), "-42");
    assert_eq!(i64_to_string(1993), "1993");
}

#[test]
fn micro_degrees_render_like_floats() {
    assert_eq!(micro_to_string(0), "0");
    assert_eq!(micro_to_string(-250_000), "-0.25");
    assert_eq!(micro_to_string(125_000), "0.125");
    assert_eq!(micro_to_string(20_000_000), "20");
    assert_eq!(micro_to_string(-77_500_000), "-77.5");
    assert_eq!(micro_to_string(359_750_000), "359.75");
    // matches Rust's default float text on exactly representable values
    assert_eq!(micro_to_string(-250_000), format!("{}", -0.25f64));
    assert_eq!(micro_to_string(125_000), format!("{}", 0.125f64));
    assert_eq!(micro_to_string(20_000_000), format!("{}", 20.0f64));
}

#[test]
fn location_identity_joins_with_underscore() {
    assert_eq!(location_id(-250_000, -77_500_000), "-0.25_-77.5");
    assert_eq!(location_id(125_000, 125_000), "0.125_0.125");
}

#[test]
fn iso8601_layout() {
    assert_eq!(iso8601_string(1993, 1, 1, 0, 0, 0), "1993-01-01T00:00:00Z");
    assert_eq!(iso8601_string(2007, 12, 31, 23, 59, 59), "2007-12-31T23:59:59Z");
    assert_eq!(iso8601_string(2000, 2, 3, 4, 5, 6), "2000-02-03T04:05:06Z");
}
