//! The decisions of the AC transfer method — gain, bandwidth, unity-gain frequency, phase
//! margin.
//!
//! The input is a frequency sweep of `(frequency, gain_db, phase_deg)` points, strictly
//! increasing in frequency. Each value is given here by its binary64 bit pattern, and compared
//! through the ordering key of [`crate::binary64`]:
//!
//! | metric | definition |
//! |---|---|
//! | `gain` | gain in dB at the lowest frequency in the sweep |
//! | `bandwidth` | first frequency above the peak where gain falls 3 dB below the peak gain |
//! | `unity-frequency` | first frequency where gain crosses 0 dB going down |
//! | `phase-margin` | 180° + phase at the unity-gain frequency |
//!
//! Nothing is extrapolated: a crossing that does not occur between two swept points is not
//! found. The interpolation itself, in (log10 f, dB) and (log10 f, degrees), is floating point
//! and is done around these decisions; here stand the validation of the sweep, the peak, the
//! search for the crossing window and the bracketing of a frequency.

use vstd::prelude::*;
use crate::binary64::{is_finite_bits, order_key};
use crate::text::{lower_equals, push_decimal, push_str};

verus! {

/// One point of a measured frequency response, each value by its binary64 bit pattern.
#[derive(Clone, Copy, Debug, PartialEq, Eq)]
pub struct PointBits {
    pub hz: u64,
    pub gain_db: u64,
    pub phase_deg: u64,
}

/// Which AC scalar to compute.
#[derive(Clone, Copy, Debug, PartialEq, Eq)]
pub enum AcMetric {
    Gain,
    Bandwidth,
    UnityFrequency,
    PhaseMargin,
}

/// The metric a name denotes, ignoring ASCII case; each has a short alias.
pub open spec fn ac_metric_named(s: Seq<char>) -> Option<AcMetric> {
    let l = crate::text::lower(s);
    if l == "gain"@ {
        Some(AcMetric::Gain)
    } else if l == "bandwidth"@ || l == "bw"@ {
        Some(AcMetric::Bandwidth)
    } else if l == "unity-frequency"@ || l == "unity"@ {
        Some(AcMetric::UnityFrequency)
    } else if l == "phase-margin"@ || l == "pm"@ {
        Some(AcMetric::PhaseMargin)
    } else {
        None
    }
}

/// The canonical name of an AC metric.
pub open spec fn ac_metric_name(m: AcMetric) -> Seq<char> {
    match m {
        AcMetric::Gain => "gain"@,
        AcMetric::Bandwidth => "bandwidth"@,
        AcMetric::UnityFrequency => "unity-frequency"@,
        AcMetric::PhaseMargin => "phase-margin"@,
    }
}

/// The unit an AC metric's value carries.
pub open spec fn ac_metric_unit(m: AcMetric) -> Seq<char> {
    match m {
        AcMetric::Gain => "dB"@,
        AcMetric::Bandwidth | AcMetric::UnityFrequency => "Hz"@,
        AcMetric::PhaseMargin => "deg"@,
    }
}

impl AcMetric {
    /// The metric a name denotes (`gain`; `bandwidth` or `bw`; `unity-frequency` or `unity`;
    /// `phase-margin` or `pm`), in any ASCII case.
    pub fn parse(s: &str) -> (r: Option<AcMetric>)
        ensures
            r == ac_metric_named(s@),
    {
        if lower_equals(s, "gain") {
            Some(AcMetric::Gain)
        } else if lower_equals(s, "bandwidth") || lower_equals(s, "bw") {
            Some(AcMetric::Bandwidth)
        } else if lower_equals(s, "unity-frequency") || lower_equals(s, "unity") {
            Some(AcMetric::UnityFrequency)
        } else if lower_equals(s, "phase-margin") || lower_equals(s, "pm") {
            Some(AcMetric::PhaseMargin)
        } else {
            None
        }
    }

    /// The canonical name of this metric.
    pub fn as_str(self) -> (r: &'static str)
        ensures
            r@ == ac_metric_name(self),
    {
        match self {
            AcMetric::Gain => "gain",
            AcMetric::Bandwidth => "bandwidth",
            AcMetric::UnityFrequency => "unity-frequency",
            AcMetric::PhaseMargin => "phase-margin",
        }
    }

    /// The unit the value carries, for the result record.
    pub fn unit(self) -> (r: &'static str)
        ensures
            r@ == ac_metric_unit(self),
    {
        match self {
            AcMetric::Gain => "dB",
            AcMetric::Bandwidth | AcMetric::UnityFrequency => "Hz",
            AcMetric::PhaseMargin => "deg",
        }
    }
}

/// A refusal to measure, with the reason.
#[derive(Clone, Debug, PartialEq, Eq)]
pub enum Refusal {
    /// Fewer than two points — nothing to interpolate between.
    TooFewPoints(usize),
    /// Frequencies are not strictly increasing, or one is not positive.
    NotMonotonic(usize),
    /// A value is NaN or infinite.
    NotFinite(usize),
    /// The crossing this metric is defined by does not occur inside the swept range.
    NoCrossing { metric: &'static str, what: String },
}

/// The key that orders a value's bit pattern as the value.
pub open spec fn key(b: u64) -> u64 {
    crate::binary64::order_key_spec(b)
}

/// Why point `i` makes the sweep unusable, if it does: a value that is not finite, or a
/// frequency that is not positive or not above the previous one.
pub open spec fn point_refusal(pts: Seq<PointBits>, i: int) -> Option<Refusal> {
    let p = pts[i];
    if !crate::binary64::finite_bits(p.hz) || !crate::binary64::finite_bits(p.gain_db)
        || !crate::binary64::finite_bits(p.phase_deg) {
        Some(Refusal::NotFinite(i as usize))
    } else if key(p.hz) <= key(0) || (i > 0 && key(p.hz) <= key(pts[i - 1].hz)) {
        Some(Refusal::NotMonotonic(i as usize))
    } else {
        None
    }
}

/// The first refusal among the points from index `i` on.
pub open spec fn scan_points(pts: Seq<PointBits>, i: int) -> Result<(), Refusal>
    decreases pts.len() - i,
{
    if i < 0 || i >= pts.len() {
        Ok(())
    } else {
        match point_refusal(pts, i) {
            Some(e) => Err(e),
            None => scan_points(pts, i + 1),
        }
    }
}

/// What validation makes of a sweep: at least two points, then the first unusable point.
pub open spec fn sweep_check(pts: Seq<PointBits>) -> Result<(), Refusal> {
    if pts.len() < 2 {
        Err(Refusal::TooFewPoints(pts.len() as usize))
    } else {
        scan_points(pts, 0)
    }
}

/// Accepts a sweep that interpolation can mean something on, or refuses it: at least two
/// points, every value finite, frequencies positive and strictly increasing.
pub fn validate(pts: &Vec<PointBits>) -> (r: Result<(), Refusal>)
    ensures
        r == sweep_check(pts@),
{
    let n = pts.len();
    if n < 2 {
        return Err(Refusal::TooFewPoints(n));
    }
    let zero = order_key(0);
    let mut i: usize = 0;
    while i < n
        invariant
            n == pts@.len(),
            n >= 2,
            i <= n,
            zero == key(0),
            scan_points(pts@, 0) == scan_points(pts@, i as int),
        decreases n - i,
    {
        let p = pts[i];
        if !is_finite_bits(p.hz) || !is_finite_bits(p.gain_db) || !is_finite_bits(p.phase_deg) {
            return Err(Refusal::NotFinite(i));
        }
        let k = order_key(p.hz);
        if k <= zero || (i > 0 && k <= order_key(pts[i - 1].hz)) {
            return Err(Refusal::NotMonotonic(i));
        }
        i = i + 1;
    }
    Ok(())
}

/// Point `i` is usable in a sweep: its three values finite, its frequency positive and, past
/// the first point, strictly above the frequency of the point right before it.
pub open spec fn point_usable(pts: Seq<PointBits>, i: int) -> bool {
    &&& crate::binary64::finite_bits(pts[i].hz)
    &&& crate::binary64::finite_bits(pts[i].gain_db)
    &&& crate::binary64::finite_bits(pts[i].phase_deg)
    &&& crate::binary64::value_units(pts[i].hz) > 0
    &&& i > 0 ==> crate::binary64::value_units(pts[i - 1].hz) < crate::binary64::value_units(
        pts[i].hz,
    )
}

/// What validation refuses a point for is what makes it unusable.
proof fn lemma_point_refusal_by_value(pts: Seq<PointBits>, i: int)
    requires
        0 <= i < pts.len(),
    ensures
        (point_refusal(pts, i) is None) == point_usable(pts, i),
{
    crate::binary64::lemma_positive_zero();
    crate::binary64::lemma_order_key_orders_encoded_values(pts[i].hz, 0);
    if i > 0 {
        crate::binary64::lemma_order_key_orders_encoded_values(pts[i - 1].hz, pts[i].hz);
    }
}

proof fn lemma_scan_points_first_refusal(pts: Seq<PointBits>, i: int)
    requires
        0 <= i <= pts.len(),
    ensures
        scan_points(pts, i) is Ok <==> forall|j: int|
            i <= j < pts.len() ==> #[trigger] point_refusal(pts, j) is None,
        forall|j: int|
            i <= j < pts.len() && #[trigger] point_refusal(pts, j) is Some && (forall|k: int|
                i <= k < j ==> point_refusal(pts, k) is None) ==> scan_points(pts, i) == Err::<
                (),
                Refusal,
            >(point_refusal(pts, j)->Some_0),
    decreases pts.len() - i,
{
    if i < pts.len() {
        lemma_scan_points_first_refusal(pts, i + 1);
        assert forall|j: int|
            i <= j < pts.len() && #[trigger] point_refusal(pts, j) is Some && (forall|k: int|
                i <= k < j ==> point_refusal(pts, k) is None) implies scan_points(pts, i) == Err::<
            (),
            Refusal,
        >(point_refusal(pts, j)->Some_0) by {
            if j > i {
                assert(point_refusal(pts, i) is None);
                assert forall|k: int| i + 1 <= k < j implies point_refusal(pts, k) is None by {}
            }
        }
    }
}

/// The refusal for the first unusable point `i`.
pub open spec fn unusable_refusal(pts: Seq<PointBits>, i: int) -> Refusal {
    if crate::binary64::finite_bits(pts[i].hz) && crate::binary64::finite_bits(pts[i].gain_db)
        && crate::binary64::finite_bits(pts[i].phase_deg) {
        Refusal::NotMonotonic(i as usize)
    } else {
        Refusal::NotFinite(i as usize)
    }
}

proof fn lemma_first_unusable_point(pts: Seq<PointBits>, i: int)
    requires
        pts.len() >= 2,
        0 <= i < pts.len(),
        !point_usable(pts, i),
        forall|k: int| 0 <= k < i ==> #[trigger] point_usable(pts, k),
    ensures
        sweep_check(pts) == Err::<(), Refusal>(unusable_refusal(pts, i)),
{
    lemma_scan_points_first_refusal(pts, 0);
    lemma_point_refusal_by_value(pts, i);
    assert forall|k: int| 0 <= k < i implies #[trigger] point_refusal(pts, k) is None by {
        lemma_point_refusal_by_value(pts, k);
    }
    assert(point_refusal(pts, i) is Some);
}

/// A sweep is accepted exactly when it has at least two points and every point is usable
/// (values finite, frequencies positive and each strictly above the one before it); otherwise
/// the first unusable point is named: as not finite when one of its values is not, else as out
/// of order.
pub proof fn lemma_accepted_sweeps_rise_strictly(pts: Seq<PointBits>)
    ensures
        sweep_check(pts) is Ok <==> pts.len() >= 2 && forall|i: int|
            0 <= i < pts.len() ==> #[trigger] point_usable(pts, i),
        pts.len() < 2 ==> sweep_check(pts) == Err::<(), Refusal>(
            Refusal::TooFewPoints(pts.len() as usize),
        ),
        forall|i: int|
            pts.len() >= 2 && 0 <= i < pts.len() && !#[trigger] point_usable(pts, i) && (forall|
                k: int,
            | 0 <= k < i ==> point_usable(pts, k)) ==> sweep_check(pts) == Err::<(), Refusal>(
                unusable_refusal(pts, i),
            ),
{
    lemma_scan_points_first_refusal(pts, 0);
    if sweep_check(pts) is Ok {
        assert forall|i: int| 0 <= i < pts.len() implies #[trigger] point_usable(pts, i) by {
            assert(point_refusal(pts, i) is None);
            lemma_point_refusal_by_value(pts, i);
        }
    }
    if pts.len() >= 2 && forall|i: int| 0 <= i < pts.len() ==> #[trigger] point_usable(pts, i) {
        assert forall|j: int| 0 <= j < pts.len() implies #[trigger] point_refusal(pts, j) is None by {
            assert(point_usable(pts, j));
            lemma_point_refusal_by_value(pts, j);
        }
    }
    assert forall|i: int|
        pts.len() >= 2 && 0 <= i < pts.len() && !#[trigger] point_usable(pts, i) && (forall|k: int|
            0 <= k < i ==> point_usable(pts, k)) implies sweep_check(pts) == Err::<(), Refusal>(
        unusable_refusal(pts, i),
    ) by {
        lemma_first_unusable_point(pts, i);
    }
}

/// `r` is the peak of the sweep: the point of greatest gain, the first such on a tie.
pub open spec fn is_peak(pts: Seq<PointBits>, r: int) -> bool {
    &&& 0 <= r < pts.len()
    &&& forall|j: int| 0 <= j < pts.len() ==> key(#[trigger] pts[j].gain_db) <= key(pts[r].gain_db)
    &&& forall|j: int| 0 <= j < r ==> key(#[trigger] pts[j].gain_db) < key(pts[r].gain_db)
}

/// The index of the peak gain — the reference the bandwidth is measured from.
pub fn peak_index(pts: &Vec<PointBits>) -> (r: usize)
    requires
        pts@.len() > 0,
    ensures
        is_peak(pts@, r as int),
{
    let mut best = order_key(pts[0].gain_db);
    let mut peak: usize = 0;
    let mut i: usize = 1;
    while i < pts.len()
        invariant
            1 <= i <= pts@.len(),
            peak < i,
            best == key(pts@[peak as int].gain_db),
            forall|j: int| 0 <= j < i ==> key(#[trigger] pts@[j].gain_db) <= best,
            forall|j: int| 0 <= j < peak ==> key(#[trigger] pts@[j].gain_db) < best,
        decreases pts@.len() - i,
    {
        let k = order_key(pts[i].gain_db);
        if k > best {
            best = k;
            peak = i;
        }
        i = i + 1;
    }
    peak
}

/// Between points `i` and `i + 1` the gain falls through `target`: at or above it at `i`,
/// below it at `i + 1`.
pub open spec fn falls_through(pts: Seq<PointBits>, i: int, target: u64) -> bool {
    key(pts[i].gain_db) >= key(target) && key(pts[i + 1].gain_db) < key(target)
}

/// The first window at or after point `start` where the gain falls through `target` (given by
/// its bit pattern), as the index of its lower point; `None` when the gain never falls through
/// it inside the sweep.
pub fn first_fall(pts: &Vec<PointBits>, start: usize, target: u64) -> (r: Option<usize>)
    ensures
        r matches Some(i) ==> start <= i && i + 1 < pts@.len() && falls_through(
            pts@,
            i as int,
            target,
        ) && forall|j: int| start <= j < i ==> !#[trigger] falls_through(pts@, j, target),
        r is None ==> forall|j: int|
            start <= j && j + 1 < pts@.len() ==> !#[trigger] falls_through(pts@, j, target),
{
    let t = order_key(target);
    let mut i = start;
    while i < pts.len() && pts.len() - i > 1
        invariant
            start <= i,
            t == key(target),
            forall|j: int| start <= j < i ==> !#[trigger] falls_through(pts@, j, target),
        decreases pts@.len() - i,
    {
        if order_key(pts[i].gain_db) >= t && order_key(pts[i + 1].gain_db) < t {
            return Some(i);
        }
        i = i + 1;
    }
    None
}

/// Where a frequency lies relative to the swept points.
#[derive(Clone, Copy, Debug, PartialEq, Eq)]
pub enum Bracket {
    /// At or below the first point.
    First,
    /// At or above the last point.
    Last,
    /// Between points `i` and `i + 1`, both included.
    Between(usize),
}

/// The bracket of frequency `hz`: the first point if it is at or below it, else the last if at
/// or above it, else the first window whose points enclose it.
pub open spec fn is_bracket(pts: Seq<PointBits>, hz: u64, r: Bracket) -> bool {
    match r {
        Bracket::First => key(hz) <= key(pts[0].hz),
        Bracket::Last => key(hz) > key(pts[0].hz) && key(hz) >= key(pts.last().hz),
        Bracket::Between(i) => {
            &&& key(hz) > key(pts[0].hz)
            &&& key(hz) < key(pts.last().hz)
            &&& i + 1 < pts.len()
            &&& key(pts[i as int].hz) <= key(hz) <= key(pts[i + 1].hz)
            &&& forall|j: int|
                0 <= j < i ==> !(key(#[trigger] pts[j].hz) <= key(hz) <= key(pts[j + 1].hz))
        },
    }
}

/// Locates a frequency among the swept points, for interpolating a value at it.
pub fn bracket(pts: &Vec<PointBits>, hz: u64) -> (r: Bracket)
    requires
        pts@.len() > 0,
    ensures
        is_bracket(pts@, hz, r),
{
    let h = order_key(hz);
    let n = pts.len();
    if h <= order_key(pts[0].hz) {
        return Bracket::First;
    }
    if h >= order_key(pts[n - 1].hz) {
        return Bracket::Last;
    }
    let mut i: usize = 0;
    while i + 1 < n
        invariant
            n == pts@.len(),
            h == key(hz),
            key(hz) > key(pts@[0].hz),
            key(hz) < key(pts@[n - 1].hz),
            i + 1 <= n,
            forall|j: int| 0 <= j < i ==> !(key(#[trigger] pts@[j].hz) <= key(hz) <= key(pts@[j + 1].hz)),
            key(pts@[i as int].hz) <= key(hz),
        decreases n - i,
    {
        if h <= order_key(pts[i + 1].hz) {
            return Bracket::Between(i);
        }
        i = i + 1;
    }
    Bracket::Last
}


/// The unity-gain window: the first pair of points between which the gain crosses 0 dB going
/// down; `None` when it never does inside the sweep.
pub fn unity_window(pts: &Vec<PointBits>) -> (r: Option<usize>)
    ensures
        r matches Some(i) ==> i + 1 < pts@.len() && falls_through(pts@, i as int, 0) && forall|
            j: int,
        | 0 <= j < i ==> !#[trigger] falls_through(pts@, j, 0),
        r is None ==> forall|j: int|
            0 <= j && j + 1 < pts@.len() ==> !#[trigger] falls_through(pts@, j, 0),
{
    first_fall(pts, 0, 0)
}

/// Each AC metric's canonical name parses back to it.
pub proof fn lemma_ac_metric_name_round_trip(m: AcMetric)
    ensures
        ac_metric_named(ac_metric_name(m)) == Some(m),
{
    reveal_strlit("gain");
    reveal_strlit("bandwidth");
    reveal_strlit("bw");
    reveal_strlit("unity-frequency");
    reveal_strlit("unity");
    reveal_strlit("phase-margin");
    reveal_strlit("pm");
    assert("gain"@.len() == 4);
    assert("bandwidth"@.len() == 9);
    assert("bw"@.len() == 2);
    assert("unity-frequency"@.len() == 15);
    assert("unity"@.len() == 5);
    assert("phase-margin"@.len() == 12);
    assert("pm"@.len() == 2);
    let s = ac_metric_name(m);
    assert(crate::text::lower(s) =~= s);
}

/// Parsing an AC metric ignores ASCII case.
pub proof fn lemma_ac_metric_parse_ignores_case(s: Seq<char>)
    ensures
        ac_metric_named(crate::text::lower(s)) == ac_metric_named(s),
{
    crate::text::lemma_lower_idempotent(s);
}


/// What a metric's crossing is, for the refusal when it is missing; `target` and `peak` are the
/// bandwidth's level and peak gain in dB, as the report writes them.
pub open spec fn crossing_description(metric: AcMetric, target: Seq<char>, peak: Seq<char>) -> Seq<
    char,
> {
    match metric {
        AcMetric::Bandwidth => "a fall to "@ + target + " dB (3 dB below the "@ + peak
            + " dB peak)"@,
        AcMetric::PhaseMargin => "a downward 0 dB crossing to take the phase at"@,
        _ => "a downward 0 dB crossing"@,
    }
}

/// The refusal for a metric whose crossing does not occur inside the sweep. `target` and
/// `peak` are the bandwidth's level and peak gain in dB as text; other metrics ignore them.
pub fn missing_crossing(metric: AcMetric, target: &str, peak: &str) -> (r: Refusal)
    requires
        metric != AcMetric::Gain,
    ensures
        r matches Refusal::NoCrossing { metric: m, what } && m@ == ac_metric_name(metric)
            && what@ == crossing_description(metric, target@, peak@),
{
    let mut what = String::new();
    match metric {
        AcMetric::Bandwidth => {
            push_str(&mut what, "a fall to ");
            push_str(&mut what, target);
            push_str(&mut what, " dB (3 dB below the ");
            push_str(&mut what, peak);
            push_str(&mut what, " dB peak)");
        },
        AcMetric::PhaseMargin => {
            push_str(&mut what, "a downward 0 dB crossing to take the phase at");
        },
        _ => {
            push_str(&mut what, "a downward 0 dB crossing");
        },
    }
    Refusal::NoCrossing { metric: metric.as_str(), what }
}

/// The sentence a refusal is reported with.
pub open spec fn refusal_text(r: Refusal) -> Seq<char> {
    match r {
        Refusal::TooFewPoints(n) => crate::text::decimal(n as nat)
            + " point(s) — a sweep needs at least two"@,
        Refusal::NotMonotonic(i) => "point "@ + crate::text::decimal(i as nat)
            + " does not increase in frequency (or is not positive) — the sweep must be ordered for interpolation to mean anything"@,
        Refusal::NotFinite(i) => "point "@ + crate::text::decimal(i as nat)
            + " holds a non-finite value"@,
        Refusal::NoCrossing { metric, what } => metric@ + ": "@ + what@
            + " does not occur within the swept range — extending the sweep is the fix; extrapolating past it would be a guess"@,
    }
}

impl Refusal {
    /// The sentence this refusal is reported with.
    pub fn describe(&self) -> (r: String)
        ensures
            r@ == refusal_text(*self),
    {
        let mut s = String::new();
        match self {
            Refusal::TooFewPoints(n) => {
                push_decimal(&mut s, *n);
                push_str(&mut s, " point(s) — a sweep needs at least two");
            },
            Refusal::NotMonotonic(i) => {
                push_str(&mut s, "point ");
                push_decimal(&mut s, *i);
                push_str(
                    &mut s,
                    " does not increase in frequency (or is not positive) — the sweep must be ordered for interpolation to mean anything",
                );
            },
            Refusal::NotFinite(i) => {
                push_str(&mut s, "point ");
                push_decimal(&mut s, *i);
                push_str(&mut s, " holds a non-finite value");
            },
            Refusal::NoCrossing { metric, what } => {
                push_str(&mut s, metric);
                push_str(&mut s, ": ");
                push_str(&mut s, what.as_str());
                push_str(
                    &mut s,
                    " does not occur within the swept range — extending the sweep is the fix; extrapolating past it would be a guess",
                );
            },
        }
        s
    }
}


/// Between points `i` and `i + 1` the gain, as a value, falls through `level`: at or above it
/// at point `i`, below it at point `i + 1`.
pub open spec fn gain_falls(pts: Seq<PointBits>, i: int, level: u64) -> bool {
    &&& crate::binary64::value_units(pts[i].gain_db) >= crate::binary64::value_units(level)
    &&& crate::binary64::value_units(pts[i + 1].gain_db) < crate::binary64::value_units(level)
}

/// The key comparison of a window is the comparison of the gain values.
proof fn lemma_falls_through_by_value(pts: Seq<PointBits>, i: int, level: u64)
    ensures
        falls_through(pts, i, level) == gain_falls(pts, i, level),
{
    crate::binary64::lemma_order_key_orders_encoded_values(pts[i].gain_db, level);
    crate::binary64::lemma_order_key_orders_encoded_values(pts[i + 1].gain_db, level);
}

/// The peak is the point of greatest gain, as a value, and the first such on a tie.
pub proof fn lemma_peak_is_the_greatest_gain(pts: Seq<PointBits>, r: int)
    requires
        is_peak(pts, r),
    ensures
        forall|j: int|
            0 <= j < pts.len() ==> crate::binary64::value_units(#[trigger] pts[j].gain_db)
                <= crate::binary64::value_units(pts[r].gain_db),
        forall|j: int|
            0 <= j < r ==> crate::binary64::value_units(#[trigger] pts[j].gain_db)
                < crate::binary64::value_units(pts[r].gain_db),
{
    assert forall|j: int| 0 <= j < pts.len() implies crate::binary64::value_units(
        #[trigger] pts[j].gain_db,
    ) <= crate::binary64::value_units(pts[r].gain_db) by {
        crate::binary64::lemma_order_key_orders_encoded_values(pts[j].gain_db, pts[r].gain_db);
    }
    assert forall|j: int| 0 <= j < r implies crate::binary64::value_units(#[trigger] pts[j].gain_db)
        < crate::binary64::value_units(pts[r].gain_db) by {
        crate::binary64::lemma_order_key_orders_encoded_values(pts[j].gain_db, pts[r].gain_db);
    }
}

/// The bandwidth is read at the first fall through its level from the peak on, the window that
/// starts at the peak included; it is refused only when the gain falls through the level in no
/// window from the peak on.
pub proof fn lemma_bandwidth_is_the_first_fall_from_the_peak(
    pts: Seq<PointBits>,
    peak: int,
    level: u64,
    target: Seq<char>,
    peak_text: Seq<char>,
    r: Result<Reading, Refusal>,
)
    requires
        reading_spec(pts, AcMetric::Bandwidth, peak, level, target, peak_text, r),
    ensures
        r is Ok ==> (r matches Ok(Reading::Crossing { window, level: l }) && l == level && peak
            <= window && window + 1 < pts.len() && gain_falls(pts, window as int, level) && forall|
            j: int,
        | peak <= j < window ==> !#[trigger] gain_falls(pts, j, level)),
        r is Err ==> forall|j: int|
            peak <= j && j + 1 < pts.len() ==> !#[trigger] gain_falls(pts, j, level),
{
    assert forall|j: int| #![trigger gain_falls(pts, j, level)] true implies falls_through(pts, j, level)
        == gain_falls(pts, j, level) by {
        lemma_falls_through_by_value(pts, j, level);
    }
}

/// The unity-gain frequency, and the phase margin taken there, are read at the first window of
/// the whole sweep, window 0 included, where the gain falls through 0 dB; they are refused only
/// when the gain falls through 0 dB in no window at all.
pub proof fn lemma_unity_is_the_first_zero_fall(
    pts: Seq<PointBits>,
    metric: AcMetric,
    peak: int,
    level: u64,
    target: Seq<char>,
    peak_text: Seq<char>,
    r: Result<Reading, Refusal>,
)
    requires
        metric == AcMetric::UnityFrequency || metric == AcMetric::PhaseMargin,
        reading_spec(pts, metric, peak, level, target, peak_text, r),
    ensures
        metric == AcMetric::UnityFrequency && r is Ok ==> (r matches Ok(
            Reading::Crossing { window, level: l },
        ) && l == 0 && window + 1 < pts.len() && gain_falls(pts, window as int, 0) && forall|
            j: int,
        | 0 <= j < window ==> !#[trigger] gain_falls(pts, j, 0)),
        metric == AcMetric::PhaseMargin && r is Ok ==> (r matches Ok(Reading::PhaseAtUnity { window })
            && window + 1 < pts.len() && gain_falls(pts, window as int, 0) && forall|j: int|
            0 <= j < window ==> !#[trigger] gain_falls(pts, j, 0)),
        r is Err ==> forall|j: int| 0 <= j && j + 1 < pts.len() ==> !#[trigger] gain_falls(pts, j, 0),
{
    assert forall|j: int| #![trigger gain_falls(pts, j, 0)] true implies falls_through(pts, j, 0)
        == gain_falls(pts, j, 0) by {
        lemma_falls_through_by_value(pts, j, 0);
    }
}

/// Window `i` is the first at or after `start` where the gain falls through `target`.
pub open spec fn is_first_fall(pts: Seq<PointBits>, start: int, target: u64, i: int) -> bool {
    &&& start <= i
    &&& i + 1 < pts.len()
    &&& falls_through(pts, i, target)
    &&& forall|j: int| start <= j < i ==> !#[trigger] falls_through(pts, j, target)
}

/// The gain never falls through `target` at or after `start` inside the sweep.
pub open spec fn no_fall(pts: Seq<PointBits>, start: int, target: u64) -> bool {
    forall|j: int| start <= j && j + 1 < pts.len() ==> !#[trigger] falls_through(pts, j, target)
}

/// Where a metric's value is read.
#[derive(Clone, Copy, Debug, PartialEq, Eq)]
pub enum Reading {
    /// The gain of the first (lowest-frequency) point.
    FirstPoint,
    /// The frequency where the gain falls through `level` inside window `window`.
    Crossing { window: usize, level: u64 },
    /// The phase at the unity-gain frequency, which lies in window `window`.
    PhaseAtUnity { window: usize },
}

/// The refusal for a missing crossing of `metric`.
pub open spec fn is_missing(r: Refusal, metric: AcMetric, target: Seq<char>, peak: Seq<char>) -> bool {
    r matches Refusal::NoCrossing { metric: m, what } && m@ == ac_metric_name(metric) && what@
        == crossing_description(metric, target, peak)
}

/// How each metric is read on a sweep whose peak is point `peak`: gain at the first point;
/// bandwidth where the gain falls through `level` (3 dB below the peak gain), searched from the
/// peak on; unity-gain frequency where it falls through 0 dB; phase margin at that same
/// crossing. A crossing that does not occur inside the sweep is refused.
pub open spec fn reading_spec(
    pts: Seq<PointBits>,
    metric: AcMetric,
    peak: int,
    level: u64,
    target: Seq<char>,
    peak_text: Seq<char>,
    r: Result<Reading, Refusal>,
) -> bool {
    match metric {
        AcMetric::Gain => r == Ok::<Reading, Refusal>(Reading::FirstPoint),
        AcMetric::Bandwidth => match r {
            Ok(Reading::Crossing { window, level: l }) => l == level && is_first_fall(
                pts,
                peak,
                level,
                window as int,
            ),
            Ok(_) => false,
            Err(e) => no_fall(pts, peak, level) && is_missing(e, metric, target, peak_text),
        },
        AcMetric::UnityFrequency => match r {
            Ok(Reading::Crossing { window, level: l }) => l == 0 && is_first_fall(
                pts,
                0,
                0,
                window as int,
            ),
            Ok(_) => false,
            Err(e) => no_fall(pts, 0, 0) && is_missing(e, metric, target, peak_text),
        },
        AcMetric::PhaseMargin => match r {
            Ok(Reading::PhaseAtUnity { window }) => is_first_fall(pts, 0, 0, window as int),
            Ok(_) => false,
            Err(e) => no_fall(pts, 0, 0) && is_missing(e, metric, target, peak_text),
        },
    }
}

/// Decides where `metric` is read on a sweep of at least two points, and gives the peak.
/// `level` is the bandwidth's level, 3 dB below the peak gain, by its bit pattern; `target` and
/// `peak_text` are that level and the peak gain as the refusal writes them.
pub fn plan_reading(
    pts: &Vec<PointBits>,
    metric: AcMetric,
    level: u64,
    target: &str,
    peak_text: &str,
) -> (r: (usize, Result<Reading, Refusal>))
    requires
        pts@.len() >= 2,
    ensures
        is_peak(pts@, r.0 as int),
        reading_spec(pts@, metric, r.0 as int, level, target@, peak_text@, r.1),
{
    let peak = peak_index(pts);
    let reading = match metric {
        AcMetric::Gain => Ok(Reading::FirstPoint),
        AcMetric::Bandwidth => match first_fall(pts, peak, level) {
            Some(i) => Ok(Reading::Crossing { window: i, level }),
            None => Err(missing_crossing(metric, target, peak_text)),
        },
        AcMetric::UnityFrequency => match unity_window(pts) {
            Some(i) => Ok(Reading::Crossing { window: i, level: 0 }),
            None => Err(missing_crossing(metric, target, peak_text)),
        },
        AcMetric::PhaseMargin => match unity_window(pts) {
            Some(i) => Ok(Reading::PhaseAtUnity { window: i }),
            None => Err(missing_crossing(metric, target, peak_text)),
        },
    };
    (peak, reading)
}

} // verus!
