use grid_ingest::mask::{
    gate_counted, gate_plain, is_nan_bits, QualityGate, FULL_WINDOW_COUNT, NAN_BITS,
    SENTINEL_MISSING_BITS,
};
use grid_ingest::series::{extract_gated, extract_joint, has_real_sample, mask_series, VarSeries};

fn gate() -> QualityGate {
    QualityGate { sentinel_bits: SENTINEL_MISSING_BITS, expected_count: FULL_WINDOW_COUNT }
}

#[test]
fn bit_constants_match_ieee754() {
    assert_eq!(SENTINEL_MISSING_BITS, (-999.9f64).to_bits());
    assert!(f64::from_bits(NAN_BITS).is_nan());
    assert_eq!(NAN_BITS, f64::NAN.to_bits());
}

#[test]
fn nan_detection_on_bits() {
    assert!(is_nan_bits(f64::NAN.to_bits()));
    assert!(is_nan_bits((f64::NAN * -1.0).to_bits()));
    assert!(!is_nan_bits(1.0f64.to_bits()));
    assert!(!is_nan_bits((-999.9f64).to_bits()));
    assert!(!is_nan_bits(f64::INFINITY.to_bits()));
    assert!(!is_nan_bits(0.0f64.to_bits()));
}

#[test]
fn sentinel_is_masked_whatever_the_count() {
    let g = gate();
    assert_eq!(gate_counted(&g, SENTINEL_MISSING_BITS, 28), NAN_BITS);
    assert_eq!(gate_counted(&g, SENTINEL_MISSING_BITS, 0), NAN_BITS);
    assert_eq!(gate_plain(&g, SENTINEL_MISSING_BITS), NAN_BITS);
}

#[test]
fn short_window_is_masked_whatever_the_value() {
    let g = gate();
    assert_eq!(gate_counted(&g, 5.5f64.to_bits(), 27), NAN_BITS);
    assert_eq!(gate_counted(&g, 5.5f64.to_bits(), 29), NAN_BITS);
    assert_eq!(gate_counted(&g, 5.5f64.to_bits(), 28), 5.5f64.to_bits());
    assert_eq!(gate_plain(&g, 5.5f64.to_bits()), 5.5f64.to_bits());
}

#[test]
fn mask_series_gates_independently_per_timestep() {
    let g = gate();
    let vs = VarSeries {
        values: vec![
            1.25f64.to_bits(),
            (-999.9f64).to_bits(),
            2.5f64.to_bits(),
            3.5f64.to_bits(),
        ],
        counts: Some(vec![28, 28, 27, 28]),
    };
    let out = mask_series(&g, &vs);
    assert_eq!(out[0], 1.25f64.to_bits());
    assert_eq!(out[1], NAN_BITS);
    assert_eq!(out[2], NAN_BITS);
    assert_eq!(out[3], 3.5f64.to_bits());
}

#[test]
fn real_sample_search() {
    assert!(!has_real_sample(&vec![NAN_BITS, NAN_BITS]));
    assert!(has_real_sample(&vec![NAN_BITS, 0.5f64.to_bits()]));
    assert!(!has_real_sample(&vec![]));
}

#[test]
fn all_or_nothing_retention_drops_the_location() {
    // variable C wholly missing; A, B, D each keep at least one real sample
    let g = gate();
    let a = VarSeries {
        values: vec![1.0f64.to_bits(), 2.0f64.to_bits()],
        counts: Some(vec![28, 28]),
    };
    let b = VarSeries {
        values: vec![(-999.9f64).to_bits(), 2.0f64.to_bits()],
        counts: Some(vec![28, 28]),
    };
    let c = VarSeries {
        values: vec![(-999.9f64).to_bits(), 4.0f64.to_bits()],
        counts: Some(vec![28, 3]),
    };
    let d = VarSeries { values: vec![5.0f64.to_bits(), 6.0f64.to_bits()], counts: None };
    let vars = vec![a, b, c, d];
    assert!(extract_gated(&g, &vars).is_none());
}

#[test]
fn retention_keeps_fully_covered_locations() {
    let g = gate();
    let a = VarSeries {
        values: vec![1.0f64.to_bits(), (-999.9f64).to_bits()],
        counts: Some(vec![28, 28]),
    };
    let b = VarSeries { values: vec![(-999.9f64).to_bits(), 2.0f64.to_bits()], counts: None };
    let out = extract_gated(&g, &vec![a, b]).unwrap();
    assert_eq!(out.len(), 2);
    assert_eq!(out[0], vec![1.0f64.to_bits(), NAN_BITS]);
    assert_eq!(out[1], vec![NAN_BITS, 2.0f64.to_bits()]);
}

#[test]
fn joint_policy_keeps_timestep_with_one_real_value() {
    // four variables; at timestep 0 only the third holds a real value; at
    // timestep 1 all four are NaN; at timestep 2 all are real
    let nan = f64::NAN.to_bits();
    let vars = vec![
        vec![nan, nan, 1.0f64.to_bits()],
        vec![nan, nan, 2.0f64.to_bits()],
        vec![7.5f64.to_bits(), nan, 3.0f64.to_bits()],
        vec![nan, nan, 4.0f64.to_bits()],
    ];
    let times = vec![0, 7, 14];
    let (out, ts) = extract_joint(&vars, &times).unwrap();
    // the all-NaN timestep 1 is absent from every series
    assert_eq!(ts, vec![0, 14]);
    assert_eq!(out[0], vec![nan, 1.0f64.to_bits()]);
    assert_eq!(out[1], vec![nan, 2.0f64.to_bits()]);
    // the lone real value is retained, the NaN companions recorded as NaN
    assert_eq!(out[2], vec![7.5f64.to_bits(), 3.0f64.to_bits()]);
    assert_eq!(out[3], vec![nan, 4.0f64.to_bits()]);
}

#[test]
fn joint_policy_drops_wholly_missing_location() {
    let nan = f64::NAN.to_bits();
    let vars = vec![vec![nan, nan], vec![nan, nan]];
    let times = vec![0, 7];
    assert!(extract_joint(&vars, &times).is_none());
}
