//! The decisions of the AC method: validation, the peak, and where the crossings are.

use vyges_meas::transfer::{
    bracket, first_fall, missing_crossing, peak_index, plan_reading, unity_window, validate,
    AcMetric, Bracket, PointBits, Reading, Refusal,
};

fn pt(hz: f64, gain_db: f64, phase_deg: f64) -> PointBits {
    PointBits {
        hz: hz.to_bits(),
        gain_db: gain_db.to_bits(),
        phase_deg: phase_deg.to_bits(),
    }
}

#[test]
fn crossings_outside_the_sweep_are_not_invented() {
    // Never falls to unity.
    let flat = vec![pt(1.0, 20.0, 0.0), pt(10.0, 19.9, -1.0)];
    assert_eq!(validate(&flat), Ok(()));
    assert_eq!(unity_window(&flat), None);
    assert!(matches!(
        missing_crossing(AcMetric::UnityFrequency, "", ""),
        Refusal::NoCrossing {
            metric: "unity-frequency",
            ..
        }
    ));
    assert!(matches!(
        missing_crossing(AcMetric::PhaseMargin, "", ""),
        Refusal::NoCrossing {
            metric: "phase-margin",
            ..
        }
    ));
    // 0.1 dB of droop never reaches 3 dB below the peak
    let peak = peak_index(&flat);
    assert_eq!(peak, 0);
    assert_eq!(first_fall(&flat, peak, (20.0f64 - 3.0).to_bits()), None);
    assert!(matches!(
        missing_crossing(AcMetric::Bandwidth, "17.000", "20.000"),
        Refusal::NoCrossing {
            metric: "bandwidth",
            ..
        }
    ));
}

#[test]
fn malformed_sweeps_are_refused() {
    let p = |hz: f64| pt(hz, 0.0, 0.0);
    assert!(matches!(validate(&vec![p(1.0)]), Err(Refusal::TooFewPoints(1))));
    assert!(matches!(
        validate(&vec![p(10.0), p(1.0)]),
        Err(Refusal::NotMonotonic(1))
    ));
    assert!(matches!(
        validate(&vec![p(0.0), p(1.0)]),
        Err(Refusal::NotMonotonic(0))
    ));
    let bad = vec![p(1.0), pt(10.0, f64::NAN, 0.0)];
    assert!(matches!(validate(&bad), Err(Refusal::NotFinite(1))));
}

#[test]
fn equal_or_negative_frequencies_are_not_an_order() {
    let p = |hz: f64| pt(hz, 0.0, 0.0);
    assert_eq!(validate(&vec![]), Err(Refusal::TooFewPoints(0)));
    assert_eq!(validate(&vec![p(1.0), p(1.0)]), Err(Refusal::NotMonotonic(1)));
    assert_eq!(validate(&vec![p(-1.0), p(1.0)]), Err(Refusal::NotMonotonic(0)));
    assert_eq!(validate(&vec![p(-0.0), p(1.0)]), Err(Refusal::NotMonotonic(0)));
    assert_eq!(
        validate(&vec![p(1.0), p(f64::INFINITY)]),
        Err(Refusal::NotFinite(1))
    );
    // a non-finite value is reported before a disorder at the same point
    assert_eq!(
        validate(&vec![p(2.0), pt(1.0, 0.0, f64::NAN)]),
        Err(Refusal::NotFinite(1))
    );
    assert_eq!(validate(&vec![p(1e-300), p(1e300)]), Ok(()));
}

#[test]
fn the_peak_is_the_first_point_of_greatest_gain() {
    let pts = vec![
        pt(1.0, 20.0, 0.0),
        pt(10.0, 26.0, 0.0),
        pt(100.0, 26.0, 0.0),
        pt(1000.0, -3.0, 0.0),
    ];
    assert_eq!(peak_index(&pts), 1);
    let neg = vec![pt(1.0, -5.0, 0.0), pt(2.0, -0.0, 0.0), pt(3.0, 0.0, 0.0)];
    // -0 and +0 are the same gain: the first wins
    assert_eq!(peak_index(&neg), 1);
}

#[test]
fn the_bandwidth_search_starts_at_the_peak() {
    // a peaking response crosses the same level on the way up; only the fall counts
    let pts = vec![
        pt(1.0, 20.0, 0.0),
        pt(10.0, 26.0, 0.0),
        pt(100.0, 23.0, 0.0),
        pt(1000.0, 10.0, 0.0),
    ];
    let peak = peak_index(&pts);
    assert_eq!(first_fall(&pts, peak, 23.0f64.to_bits()), Some(2));
    assert_eq!(first_fall(&pts, 0, 21.0f64.to_bits()), Some(2));
    assert_eq!(first_fall(&pts, 0, 30.0f64.to_bits()), None);
    assert_eq!(first_fall(&pts, 7, 21.0f64.to_bits()), None);
}

#[test]
fn the_unity_window_is_the_first_downward_zero_crossing() {
    let pts = vec![
        pt(1.0, 40.0, 0.0),
        pt(10.0, 0.0, -45.0),
        pt(100.0, -1.0, -90.0),
        pt(1000.0, 5.0, -90.0),
        pt(10000.0, -5.0, -90.0),
    ];
    assert_eq!(unity_window(&pts), Some(1));
}

#[test]
fn a_frequency_is_bracketed_by_the_swept_points() {
    let pts = vec![pt(1.0, 0.0, 0.0), pt(10.0, 0.0, 0.0), pt(100.0, 0.0, 0.0)];
    assert_eq!(bracket(&pts, 0.5f64.to_bits()), Bracket::First);
    assert_eq!(bracket(&pts, 1.0f64.to_bits()), Bracket::First);
    assert_eq!(bracket(&pts, 5.0f64.to_bits()), Bracket::Between(0));
    assert_eq!(bracket(&pts, 10.0f64.to_bits()), Bracket::Between(0));
    assert_eq!(bracket(&pts, 50.0f64.to_bits()), Bracket::Between(1));
    assert_eq!(bracket(&pts, 100.0f64.to_bits()), Bracket::Last);
    assert_eq!(bracket(&pts, 1e9f64.to_bits()), Bracket::Last);
}

#[test]
fn ac_metrics_parse_with_their_aliases() {
    for m in [
        AcMetric::Gain,
        AcMetric::Bandwidth,
        AcMetric::UnityFrequency,
        AcMetric::PhaseMargin,
    ] {
        assert_eq!(AcMetric::parse(m.as_str()), Some(m));
    }
    assert_eq!(AcMetric::parse("BW"), Some(AcMetric::Bandwidth));
    assert_eq!(AcMetric::parse("unity"), Some(AcMetric::UnityFrequency));
    assert_eq!(AcMetric::parse("PM"), Some(AcMetric::PhaseMargin));
    assert_eq!(AcMetric::parse("slew"), None);
    assert_eq!(AcMetric::Gain.unit(), "dB");
    assert_eq!(AcMetric::Bandwidth.unit(), "Hz");
    assert_eq!(AcMetric::UnityFrequency.unit(), "Hz");
    assert_eq!(AcMetric::PhaseMargin.unit(), "deg");
}

#[test]
fn every_ac_refusal_reads_as_a_sentence() {
    assert_eq!(
        Refusal::TooFewPoints(1).describe(),
        "1 point(s) — a sweep needs at least two"
    );
    assert_eq!(
        Refusal::NotMonotonic(3).describe(),
        "point 3 does not increase in frequency (or is not positive) — the sweep must be \
         ordered for interpolation to mean anything"
    );
    assert_eq!(
        Refusal::NotFinite(12).describe(),
        "point 12 holds a non-finite value"
    );
    assert_eq!(
        missing_crossing(AcMetric::Bandwidth, "17.000", "20.000").describe(),
        "bandwidth: a fall to 17.000 dB (3 dB below the 20.000 dB peak) does not occur within \
         the swept range — extending the sweep is the fix; extrapolating past it would be a \
         guess"
    );
    assert_eq!(
        missing_crossing(AcMetric::PhaseMargin, "", "").describe(),
        "phase-margin: a downward 0 dB crossing to take the phase at does not occur within \
         the swept range — extending the sweep is the fix; extrapolating past it would be a \
         guess"
    );
}

#[test]
fn each_metric_is_read_where_it_is_defined() {
    // peaking response: rises to 26 dB, falls through 23 dB and through 0 dB
    let pts = vec![
        pt(1.0, 20.0, -5.0),
        pt(10.0, 26.0, -20.0),
        pt(100.0, 23.0, -45.0),
        pt(1000.0, 10.0, -80.0),
        pt(10000.0, -10.0, -120.0),
    ];
    let level = 23.0f64.to_bits();
    assert_eq!(
        plan_reading(&pts, AcMetric::Gain, level, "23.000", "26.000"),
        (1, Ok(Reading::FirstPoint))
    );
    assert_eq!(
        plan_reading(&pts, AcMetric::Bandwidth, level, "23.000", "26.000"),
        (1, Ok(Reading::Crossing { window: 2, level }))
    );
    assert_eq!(
        plan_reading(&pts, AcMetric::UnityFrequency, level, "23.000", "26.000"),
        (1, Ok(Reading::Crossing { window: 3, level: 0 }))
    );
    assert_eq!(
        plan_reading(&pts, AcMetric::PhaseMargin, level, "23.000", "26.000"),
        (1, Ok(Reading::PhaseAtUnity { window: 3 }))
    );

    // never falls 3 dB, never reaches unity: each crossing metric is refused, gain is not
    let flat = vec![pt(1.0, 20.0, 0.0), pt(10.0, 19.9, -1.0)];
    let level = 17.0f64.to_bits();
    assert_eq!(plan_reading(&flat, AcMetric::Gain, level, "17.000", "20.000").1, Ok(Reading::FirstPoint));
    let (_, r) = plan_reading(&flat, AcMetric::Bandwidth, level, "17.000", "20.000");
    assert_eq!(
        r.unwrap_err().describe(),
        missing_crossing(AcMetric::Bandwidth, "17.000", "20.000").describe()
    );
    for metric in [AcMetric::UnityFrequency, AcMetric::PhaseMargin] {
        let (peak, r) = plan_reading(&flat, metric, level, "17.000", "20.000");
        assert_eq!(peak, 0);
        assert_eq!(r, Err(missing_crossing(metric, "", "")));
    }
}
