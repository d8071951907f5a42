//! The decisions of the spectral method: what is refused, how harmonics fold, which bin is the
//! worst spur.

use std::f64::consts::PI;
use vyges_meas::spectral::{
    check_fundamental_power, check_record_length, fold, is_folded, plan_harmonics, power_key,
    screen, worst_spur, Collider, Metric, Refusal, Spec,
};

const N: usize = 1024;

fn tone(n: usize, bin: usize, amp: f64) -> Vec<f64> {
    (0..n)
        .map(|t| amp * (2.0 * PI * bin as f64 * t as f64 / n as f64).sin())
        .collect()
}

fn bits(x: &[f64]) -> Vec<u64> {
    x.iter().map(|v| v.to_bits()).collect()
}

fn spec(metric: Metric, bin: usize, harmonics: &[usize]) -> Spec {
    Spec {
        fundamental_bin: bin,
        harmonics: harmonics.to_vec(),
        clip_level: None,
        metric,
    }
}

#[test]
fn unmeasurable_inputs_are_refused_not_guessed() {
    let x = bits(&tone(N, 5, 1.0));

    // not a power of two
    let short = bits(&tone(N, 5, 1.0)[..1000]);
    assert!(matches!(
        screen(&short, &spec(Metric::Snr, 5, &[])),
        Err(Refusal::RecordLength(1000))
    ));

    // fundamental outside 1..n/2
    assert!(matches!(
        screen(&x, &spec(Metric::Snr, 0, &[])),
        Err(Refusal::FundamentalBin { bin: 0, .. })
    ));
    assert!(matches!(
        screen(&x, &spec(Metric::Snr, N, &[])),
        Err(Refusal::FundamentalBin { .. })
    ));

    // a clipped capture describes the acquisition, not the device
    let mut clipped = tone(N, 5, 1.0);
    clipped[42] = 1.5;
    let s = Spec {
        clip_level: Some(1.2f64.to_bits()),
        ..spec(Metric::Snr, 5, &[])
    };
    assert!(matches!(
        screen(&bits(&clipped), &s),
        Err(Refusal::Clipped { index: 42, .. })
    ));

    // a non-finite sample
    let mut nan = tone(N, 5, 1.0);
    nan[7] = f64::NAN;
    assert!(matches!(
        screen(&bits(&nan), &spec(Metric::Snr, 5, &[])),
        Err(Refusal::NotFinite(7))
    ));

    // order 1 is the fundamental
    assert!(matches!(
        screen(&x, &spec(Metric::Snr, 5, &[1])),
        Err(Refusal::HarmonicOrder(1))
    ));
}

#[test]
fn colliding_harmonics_are_refused() {
    let n = 64;
    let x = bits(&tone(n, 16, 1.0));

    // 4th harmonic of bin 16 = 64 -> folds to 0 = DC
    assert!(matches!(
        screen(&x, &spec(Metric::Thd, 16, &[4])),
        Err(Refusal::Collision {
            order: 4,
            bin: 0,
            with: Collider::Dc
        })
    ));
    assert_eq!(Collider::Dc.as_str(), "DC");

    // 3rd (48 -> 16) lands back on the fundamental
    assert!(matches!(
        screen(&x, &spec(Metric::Thd, 16, &[3])),
        Err(Refusal::Collision {
            order: 3,
            with: Collider::Fundamental,
            ..
        })
    ));
    assert_eq!(Collider::Fundamental.as_str(), "the fundamental");

    // 2nd (32) and 6th (96 -> 32) land on each other
    assert!(matches!(
        screen(&x, &spec(Metric::Thd, 16, &[2, 6])),
        Err(Refusal::Collision {
            order: 6,
            bin: 32,
            with: Collider::AnotherHarmonic
        })
    ));
    assert_eq!(Collider::AnotherHarmonic.as_str(), "another harmonic");
}

#[test]
fn a_harmonic_above_nyquist_folds_to_its_alias() {
    // Bin 20 of a 64-sample record: the 3rd harmonic is bin 60, which folds to 64 - 60 = 4.
    assert_eq!(fold(3, 20, 64), 4);
    assert!(is_folded(3, 20, 64));
    assert!(is_folded(2, 20, 64));
    assert!(!is_folded(1, 20, 64));
    assert!(!is_folded(3, 10, 64));
    assert_eq!(fold(2, 20, 64), 24);
    assert_eq!(fold(5, 100, 1024), 500);
    assert_eq!(fold(6, 100, 1024), 424);
    assert_eq!(fold(4, 16, 64), 0);
    let x = bits(&tone(64, 20, 1.0));
    assert_eq!(
        screen(&x, &spec(Metric::Thd, 20, &[3])),
        Ok(vec![(3, 4)])
    );
}

#[test]
fn fold_survives_orders_whose_product_is_huge() {
    // order * bin overflows 64 bits, but the bin it lands on is still well defined.
    let order = usize::MAX;
    let b = fold(order, 3, 8);
    assert!(b <= 4);
    assert_eq!(b, fold(order % 8, 3, 8));
}

#[test]
fn accepted_record_lengths_are_the_powers_of_two_from_8_to_65536() {
    let mut accepted = Vec::new();
    for n in 0..=70_000usize {
        if check_record_length(n).is_ok() {
            accepted.push(n);
        } else {
            assert_eq!(check_record_length(n), Err(Refusal::RecordLength(n)));
        }
    }
    let expected: Vec<usize> = (3..=16).map(|k| 1usize << k).collect();
    assert_eq!(accepted, expected);
    assert!(check_record_length(131_072).is_err());
}

#[test]
fn a_plan_pairs_each_order_with_its_bin_in_order() {
    assert_eq!(
        plan_harmonics(1024, 5, &vec![2, 3, 4, 5]),
        Ok(vec![(2, 10), (3, 15), (4, 20), (5, 25)])
    );
    assert_eq!(plan_harmonics(1024, 5, &vec![]), Ok(vec![]));
    // the fundamental bin is checked before any harmonic
    assert_eq!(
        plan_harmonics(64, 33, &vec![1]),
        Err(Refusal::FundamentalBin { bin: 33, n: 64 })
    );
    assert_eq!(plan_harmonics(64, 32, &vec![]), Ok(vec![]));
    // the first unmeasurable order is the one reported
    assert_eq!(
        plan_harmonics(64, 5, &vec![2, 0, 1]),
        Err(Refusal::HarmonicOrder(0))
    );
}

#[test]
fn the_worst_spur_is_the_lowest_of_the_largest_residual_bins() {
    // bin 0 (DC) and the fundamental (2) never count
    assert_eq!(worst_spur(&vec![99, 5, 100, 7, 7, 3], 2), 3);
    // nothing in the residual: bin 0
    assert_eq!(worst_spur(&vec![5, 0, 9, 0], 2), 0);
    assert_eq!(worst_spur(&vec![], 1), 0);
    // real powers through their keys
    let p = [1.0f64, 0.25, 0.5, 0.25, 0.125, 0.0, f64::NAN];
    let keys: Vec<u64> = p.iter().map(|v| power_key(v.to_bits())).collect();
    assert_eq!(worst_spur(&keys, 2), 1);
    assert_eq!(power_key(f64::NAN.to_bits()), 0);
    assert_eq!(power_key((-0.0f64).to_bits()), 0);
    assert_eq!(power_key(2.0f64.to_bits()), 2.0f64.to_bits());
}

#[test]
fn a_silent_fundamental_is_refused() {
    assert_eq!(
        check_fundamental_power(0.0f64.to_bits()),
        Err(Refusal::SilentFundamental)
    );
    assert_eq!(
        check_fundamental_power((-0.0f64).to_bits()),
        Err(Refusal::SilentFundamental)
    );
    assert_eq!(
        check_fundamental_power((-1.0f64).to_bits()),
        Err(Refusal::SilentFundamental)
    );
    assert_eq!(check_fundamental_power(0.5f64.to_bits()), Ok(()));
    assert_eq!(check_fundamental_power(f64::NAN.to_bits()), Ok(()));
}

#[test]
fn a_clip_level_is_compared_by_magnitude() {
    let mut x = tone(16, 1, 1.0);
    x[3] = -1.25;
    let s = Spec {
        clip_level: Some((-1.2f64).to_bits()),
        ..spec(Metric::Snr, 1, &[])
    };
    assert_eq!(
        screen(&bits(&x), &s),
        Err(Refusal::Clipped {
            index: 3,
            level: (-1.2f64).to_bits()
        })
    );
    let nan_clip = Spec {
        clip_level: Some(f64::NAN.to_bits()),
        ..spec(Metric::Snr, 1, &[])
    };
    assert_eq!(screen(&bits(&x), &nan_clip), Ok(vec![]));
    let mut inf = tone(16, 1, 1.0);
    inf[9] = f64::INFINITY;
    assert_eq!(screen(&bits(&inf), &s), Err(Refusal::NotFinite(9)));
}

#[test]
fn metrics_parse_in_any_case() {
    for m in [Metric::Snr, Metric::Sinad, Metric::Thd, Metric::Sfdr] {
        assert_eq!(Metric::parse(m.as_str()), Some(m));
    }
    assert_eq!(Metric::parse("THD"), Some(Metric::Thd));
    assert_eq!(Metric::parse("SiNaD"), Some(Metric::Sinad));
    assert_eq!(Metric::parse("enob"), None);
    assert!(Metric::Snr.higher_is_better());
    assert!(!Metric::Thd.higher_is_better());
}

#[test]
fn every_refusal_reads_as_a_sentence() {
    assert_eq!(
        Refusal::RecordLength(1000).describe(""),
        "record length 1000 is not a power of two in 8..=65536 — a coherent DFT needs one"
    );
    assert_eq!(Refusal::NotFinite(7).describe(""), "sample 7 is not finite");
    assert_eq!(
        Refusal::Clipped {
            index: 42,
            level: 1.2f64.to_bits()
        }
        .describe("1.2"),
        "sample 42 reaches the clip level 1.2 — the capture is clipped, so the tone is \
         distorted by the acquisition rather than by the device under test"
    );
    assert_eq!(
        Refusal::FundamentalBin { bin: 0, n: 1024 }.describe(""),
        "fundamental bin 0 is outside 1..512 for a 1024-sample record"
    );
    assert_eq!(
        Refusal::Collision {
            order: 6,
            bin: 32,
            with: Collider::AnotherHarmonic
        }
        .describe(""),
        "harmonic 6 folds onto bin 32, which is already another harmonic — counting one bin \
         as two components would double-count its power"
    );
    assert_eq!(
        Refusal::HarmonicOrder(1).describe(""),
        "harmonic order 1 is not measurable (1 is the fundamental)"
    );
    assert_eq!(
        Refusal::SilentFundamental.describe(""),
        "the fundamental bin holds no power — every ratio against it is undefined"
    );
}

#[test]
fn the_first_unmeasurable_harmonic_is_the_one_refused() {
    // bin 16 of 64: order 3 lands on the fundamental before order 1 is reached
    assert_eq!(
        plan_harmonics(64, 16, &vec![3, 1]),
        Err(Refusal::Collision { order: 3, bin: 16, with: Collider::Fundamental })
    );
    // bin 10 of 64: 2 -> 20, 6 -> 60 folds to 4, then order 1 is refused
    assert_eq!(plan_harmonics(64, 10, &vec![2, 6, 1, 4]), Err(Refusal::HarmonicOrder(1)));
    // 2 -> 20, 3 -> 30, 8 -> 80 % 64 = 16, 4 -> 40 folds to 24, then 5 -> 50 folds to 14
    assert_eq!(
        plan_harmonics(64, 10, &vec![2, 3, 8, 4, 5]),
        Ok(vec![(2, 20), (3, 30), (8, 16), (4, 24), (5, 14)])
    );
    // 7 -> 70 % 64 = 6, then 13 -> 130 % 64 = 2, then 58 -> 580 % 64 = 4 ... 6 again via 71
    assert_eq!(
        plan_harmonics(64, 10, &vec![7, 71]),
        Err(Refusal::Collision { order: 71, bin: 6, with: Collider::AnotherHarmonic })
    );
}

#[test]
fn a_record_is_refused_for_the_first_thing_wrong_with_it() {
    let mut x = vec![0.25f64; 63];
    x[5] = f64::NAN;
    // the length is checked before any sample
    assert_eq!(
        screen(&bits(&x), &spec(Metric::Snr, 99, &[0])),
        Err(Refusal::RecordLength(63))
    );
    let mut x = vec![0.25f64; 64];
    x[9] = 2.0;
    x[12] = f64::INFINITY;
    let mut s = spec(Metric::Snr, 99, &[0]);
    s.clip_level = Some(1.0f64.to_bits());
    // samples in capture order: the clipped one at 9 comes before the infinite one at 12
    assert_eq!(
        screen(&bits(&x), &s),
        Err(Refusal::Clipped { index: 9, level: 1.0f64.to_bits() })
    );
    s.clip_level = None;
    assert_eq!(screen(&bits(&x), &s), Err(Refusal::NotFinite(12)));
    // with every sample fine, the fundamental bin, then the harmonics
    let ok = bits(&vec![0.25f64; 64]);
    assert_eq!(
        screen(&ok, &spec(Metric::Snr, 99, &[0])),
        Err(Refusal::FundamentalBin { bin: 99, n: 64 })
    );
    assert_eq!(screen(&ok, &spec(Metric::Snr, 10, &[2, 0])), Err(Refusal::HarmonicOrder(0)));
    assert_eq!(screen(&ok, &spec(Metric::Snr, 10, &[2])), Ok(vec![(2, 20)]));
}
