//! The integer decisions of the coherent single-tone spectral method — SNR, SINAD, THD, SFDR.
//!
//! The method, in full:
//!
//! - a power-of-two record length between 8 and 65,536;
//! - coherent sampling: the fundamental lands exactly on a DFT bin in `1..=n/2`, and the caller
//!   says which;
//! - harmonic orders are named by the caller and folded into the first Nyquist zone;
//! - a harmonic that folds onto DC, onto the fundamental, or onto another harmonic is a
//!   collision and is refused — counting one bin as two components would double-count its
//!   power;
//! - the worst spur is the largest single residual bin, the lowest frequency winning an exact
//!   tie.
//!
//! The power spectrum itself and the ratios in dB are floating point and are computed around
//! these decisions; here stand the record check, the fold, the harmonic plan and the choice of
//! the spur bin. The spur is chosen by integer keys that order the bins' powers as the powers
//! themselves are ordered.

use vstd::prelude::*;
use crate::text::{lower_equals, push_decimal, push_str};

verus! {

/// Which scalar to compute.
#[derive(Clone, Copy, Debug, PartialEq, Eq)]
pub enum Metric {
    Snr,
    Sinad,
    Thd,
    Sfdr,
}

/// The metric a name denotes, ignoring ASCII case.
pub open spec fn metric_named(s: Seq<char>) -> Option<Metric> {
    let l = crate::text::lower(s);
    if l == "snr"@ {
        Some(Metric::Snr)
    } else if l == "sinad"@ {
        Some(Metric::Sinad)
    } else if l == "thd"@ {
        Some(Metric::Thd)
    } else if l == "sfdr"@ {
        Some(Metric::Sfdr)
    } else {
        None
    }
}

/// The canonical name of a metric.
pub open spec fn metric_name(m: Metric) -> Seq<char> {
    match m {
        Metric::Snr => "snr"@,
        Metric::Sinad => "sinad"@,
        Metric::Thd => "thd"@,
        Metric::Sfdr => "sfdr"@,
    }
}

impl Metric {
    /// The metric a name denotes (`snr`, `sinad`, `thd`, `sfdr`), in any ASCII case.
    pub fn parse(s: &str) -> (r: Option<Metric>)
        ensures
            r == metric_named(s@),
    {
        if lower_equals(s, "snr") {
            Some(Metric::Snr)
        } else if lower_equals(s, "sinad") {
            Some(Metric::Sinad)
        } else if lower_equals(s, "thd") {
            Some(Metric::Thd)
        } else if lower_equals(s, "sfdr") {
            Some(Metric::Sfdr)
        } else {
            None
        }
    }

    /// The canonical name of this metric.
    pub fn as_str(self) -> (r: &'static str)
        ensures
            r@ == metric_name(self),
    {
        match self {
            Metric::Snr => "snr",
            Metric::Sinad => "sinad",
            Metric::Thd => "thd",
            Metric::Sfdr => "sfdr",
        }
    }

    /// Whether a larger value is the better one: THD is a distortion level and improves
    /// downwards; SNR, SINAD and SFDR improve upwards.
    pub fn higher_is_better(self) -> (r: bool)
        ensures
            r == (self != Metric::Thd),
    {
        match self {
            Metric::Thd => false,
            _ => true,
        }
    }
}

/// What a colliding harmonic would have been counted together with.
#[derive(Clone, Copy, Debug, PartialEq, Eq)]
pub enum Collider {
    Dc,
    Fundamental,
    AnotherHarmonic,
}

impl Collider {
    /// How a refusal names the component a harmonic collided with.
    pub fn as_str(self) -> (r: &'static str)
        ensures
            r@ == collider_name(self),
    {
        match self {
            Collider::Dc => "DC",
            Collider::Fundamental => "the fundamental",
            Collider::AnotherHarmonic => "another harmonic",
        }
    }
}

/// How a refusal names a collider.
pub open spec fn collider_name(c: Collider) -> Seq<char> {
    match c {
        Collider::Dc => "DC"@,
        Collider::Fundamental => "the fundamental"@,
        Collider::AnotherHarmonic => "another harmonic"@,
    }
}

/// A refusal to measure, with the reason. Every one of these is a case where returning a number
/// would be worse than returning nothing.
#[derive(Clone, Copy, Debug, PartialEq, Eq)]
pub enum Refusal {
    /// Record length is not a power of two in `8..=65536`.
    RecordLength(usize),
    /// A sample is NaN or infinite.
    NotFinite(usize),
    /// The record reaches the declared clip level (given by its bit pattern).
    Clipped { index: usize, level: u64 },
    /// The fundamental bin is outside `1..=n/2`.
    FundamentalBin { bin: usize, n: usize },
    /// A harmonic order collides with DC, the fundamental, or another harmonic once folded.
    Collision { order: usize, bin: usize, with: Collider },
    /// A harmonic order of 0 or 1 was named.
    HarmonicOrder(usize),
    /// The fundamental bin holds no power, so every ratio against it is undefined.
    SilentFundamental,
}

/// Everything the method needs beyond the samples themselves.
#[derive(Clone, Debug)]
pub struct Spec {
    /// The DFT bin the fundamental sits on, in `1..=n/2`.
    pub fundamental_bin: usize,
    /// Harmonic orders to account for, e.g. `[2, 3, 4, 5]`.
    pub harmonics: Vec<usize>,
    /// The clip level's bit pattern: samples whose magnitude reaches its magnitude are treated
    /// as clipped. `None` disables clipping detection.
    pub clip_level: Option<u64>,
    pub metric: Metric,
}

/// `n` is a power of two.
pub open spec fn is_power_of_two(n: nat) -> bool
    decreases n,
{
    n == 1 || (n >= 2 && n % 2 == 0 && is_power_of_two(n / 2))
}

/// A record length the method accepts: a power of two in `8..=65536`.
pub open spec fn valid_record_length(n: nat) -> bool {
    8 <= n <= 65536 && is_power_of_two(n)
}

/// Accepts a record length, or refuses it.
pub fn check_record_length(n: usize) -> (r: Result<(), Refusal>)
    ensures
        r is Ok <==> valid_record_length(n as nat),
        r is Err ==> r == Err::<(), Refusal>(Refusal::RecordLength(n)),
{
    if n < 8 || n > 65536 {
        return Err(Refusal::RecordLength(n));
    }
    let mut m = n;
    while m > 1 && m % 2 == 0
        invariant
            1 <= m <= n,
            is_power_of_two(m as nat) == is_power_of_two(n as nat),
        decreases m,
    {
        m = m / 2;
    }
    if m == 1 {
        Ok(())
    } else {
        Err(Refusal::RecordLength(n))
    }
}

/// The bin harmonic `order` of a fundamental on `bin` lands on in an `n`-point DFT, folded
/// into the first Nyquist zone: the spectrum repeats every `n` bins and is mirrored about
/// Nyquist.
pub open spec fn fold_spec(order: nat, bin: nat, n: nat) -> nat {
    let b = (order * bin) % n;
    if b > n / 2 {
        (n - b) as nat
    } else {
        b
    }
}

/// Folds a harmonic into the first Nyquist zone.
pub fn fold(order: usize, fundamental_bin: usize, n: usize) -> (r: usize)
    requires
        n > 0,
    ensures
        r as nat == fold_spec(order as nat, fundamental_bin as nat, n as nat),
{
    let o: u128 = order as u128;
    let f: u128 = fundamental_bin as u128;
    assert(o * f <= 0xffff_ffff_ffff_ffffu128 * 0xffff_ffff_ffff_ffffu128) by (nonlinear_arith)
        requires
            o <= 0xffff_ffff_ffff_ffffu128,
            f <= 0xffff_ffff_ffff_ffffu128,
    ;
    let prod: u128 = o * f;
    let b128: u128 = prod % (n as u128);
    let b: usize = b128 as usize;
    let half = n / 2;
    if b > half {
        n - b
    } else {
        b
    }
}

/// A folded harmonic lies in the first Nyquist zone, on a bin congruent to plus or minus
/// `order · bin` modulo `n`.
pub proof fn lemma_fold_in_first_zone(order: nat, bin: nat, n: nat)
    requires
        n > 0,
    ensures
        fold_spec(order, bin, n) <= n / 2,
        (fold_spec(order, bin, n) as int - order * bin) % (n as int) == 0 || (fold_spec(
            order,
            bin,
            n,
        ) as int + order * bin) % (n as int) == 0,
{
    let p = (order * bin) as int;
    let m = n as int;
    let b = p % m;
    vstd::arithmetic::div_mod::lemma_fundamental_div_mod(p, m);
    let q = p / m;
    if b > m / 2 {
        assert(((m - b) + p) == m * (q + 1)) by (nonlinear_arith)
            requires
                p == m * q + b,
        ;
        vstd::arithmetic::div_mod::lemma_mod_multiples_basic(q + 1, m);
        assert((m * (q + 1)) % m == 0) by {
            vstd::arithmetic::mul::lemma_mul_is_commutative(m, q + 1);
        }
    } else {
        assert(b - p == m * (-q)) by (nonlinear_arith)
            requires
                p == m * q + b,
        ;
        vstd::arithmetic::div_mod::lemma_mod_multiples_basic(-q, m);
        assert((m * (-q)) % m == 0) by {
            vstd::arithmetic::mul::lemma_mul_is_commutative(m, -q);
        }
    }
}

/// Whether harmonic `order` of a fundamental on `bin` lies above Nyquist before folding, so
/// that it aliases back into the first zone.
pub fn is_folded(order: usize, fundamental_bin: usize, n: usize) -> (r: bool)
    ensures
        r == (order as nat * fundamental_bin as nat > (n / 2) as nat),
{
    let o: u128 = order as u128;
    let f: u128 = fundamental_bin as u128;
    assert(o * f <= 0xffff_ffff_ffff_ffffu128 * 0xffff_ffff_ffff_ffffu128) by (nonlinear_arith)
        requires
            o <= 0xffff_ffff_ffff_ffffu128,
            f <= 0xffff_ffff_ffff_ffffu128,
    ;
    o * f > (n / 2) as u128
}


/// Whether some planned harmonic already sits on bin `b`.
pub open spec fn bin_taken(placed: Seq<(usize, usize)>, b: nat) -> bool {
    exists|j: int| 0 <= j < placed.len() && #[trigger] placed[j].1 as nat == b
}

/// The harmonic plan for orders `hs`, resolved in the order they are named: each order is
/// paired with the bin it folds to, or the first order that cannot be measured is refused.
pub open spec fn harmonic_plan(n: nat, bin: nat, hs: Seq<usize>) -> Result<
    Seq<(usize, usize)>,
    Refusal,
>
    decreases hs.len(),
{
    if hs.len() == 0 {
        Ok(Seq::empty())
    } else {
        match harmonic_plan(n, bin, hs.drop_last()) {
            Err(e) => Err(e),
            Ok(placed) => {
                let order = hs.last();
                let b = fold_spec(order as nat, bin, n);
                if order < 2 {
                    Err(Refusal::HarmonicOrder(order))
                } else if b == 0 {
                    Err(Refusal::Collision { order, bin: b as usize, with: Collider::Dc })
                } else if b == bin {
                    Err(Refusal::Collision { order, bin: b as usize, with: Collider::Fundamental })
                } else if bin_taken(placed, b) {
                    Err(
                        Refusal::Collision {
                            order,
                            bin: b as usize,
                            with: Collider::AnotherHarmonic,
                        },
                    )
                } else {
                    Ok(placed.push((order, b as usize)))
                }
            },
        }
    }
}

/// The plan for a record of `n` samples with the fundamental on `bin`: the fundamental must
/// lie in `1..=n/2`, then every harmonic is folded and checked for collisions.
pub open spec fn spectral_plan(n: nat, bin: nat, hs: Seq<usize>) -> Result<
    Seq<(usize, usize)>,
    Refusal,
> {
    if bin == 0 || bin > n / 2 {
        Err(Refusal::FundamentalBin { bin: bin as usize, n: n as usize })
    } else {
        harmonic_plan(n, bin, hs)
    }
}

/// Whether some planned harmonic already sits on bin `b`.
fn holds_bin(placed: &Vec<(usize, usize)>, b: usize) -> (r: bool)
    ensures
        r == bin_taken(placed@, b as nat),
{
    let mut j: usize = 0;
    while j < placed.len()
        invariant
            j <= placed@.len(),
            forall|k: int| 0 <= k < j ==> (#[trigger] placed@[k]).1 != b,
        decreases placed@.len() - j,
    {
        if placed[j].1 == b {
            return true;
        }
        j = j + 1;
    }
    false
}

/// Once a prefix of the orders is refused, the whole list is refused for the same reason.
pub proof fn lemma_plan_error_persists(n: nat, bin: nat, hs: Seq<usize>, k: int)
    requires
        0 <= k <= hs.len(),
        harmonic_plan(n, bin, hs.take(k)) is Err,
    ensures
        harmonic_plan(n, bin, hs) == harmonic_plan(n, bin, hs.take(k)),
    decreases hs.len() - k,
{
    if k < hs.len() {
        assert(hs.take(k + 1).drop_last() =~= hs.take(k));
        lemma_plan_error_persists(n, bin, hs, k + 1);
    } else {
        assert(hs.take(k) =~= hs);
    }
}

/// Checks the fundamental bin, folds each harmonic order into the first Nyquist zone, and
/// refuses the first one that is not measurable: an order below 2, or one whose bin is DC,
/// the fundamental, or a bin an earlier harmonic already holds. On success, each order is
/// paired with its bin, in the order named.
pub fn plan_harmonics(n: usize, fundamental_bin: usize, harmonics: &Vec<usize>) -> (r: Result<
    Vec<(usize, usize)>,
    Refusal,
>)
    requires
        n > 0,
    ensures
        r matches Ok(v) ==> spectral_plan(n as nat, fundamental_bin as nat, harmonics@) == Ok::<
            Seq<(usize, usize)>,
            Refusal,
        >(v@),
        r matches Err(e) ==> spectral_plan(n as nat, fundamental_bin as nat, harmonics@) == Err::<
            Seq<(usize, usize)>,
            Refusal,
        >(e),
{
    if fundamental_bin == 0 || fundamental_bin > n / 2 {
        return Err(Refusal::FundamentalBin { bin: fundamental_bin, n });
    }
    let mut placed: Vec<(usize, usize)> = Vec::new();
    let mut i: usize = 0;
    assert(harmonics@.take(0) =~= Seq::<usize>::empty());
    while i < harmonics.len()
        invariant
            n > 0,
            0 < fundamental_bin <= n / 2,
            i <= harmonics@.len(),
            harmonic_plan(n as nat, fundamental_bin as nat, harmonics@.take(i as int)) == Ok::<
                Seq<(usize, usize)>,
                Refusal,
            >(placed@),
        decreases harmonics@.len() - i,
    {
        let order = harmonics[i];
        let ghost hs = harmonics@.take(i + 1);
        assert(hs.drop_last() =~= harmonics@.take(i as int));
        assert(hs.last() == order);
        if order < 2 {
            proof { lemma_plan_error_persists(n as nat, fundamental_bin as nat, harmonics@, i + 1); }
            return Err(Refusal::HarmonicOrder(order));
        }
        let b = fold(order, fundamental_bin, n);
        if b == 0 {
            proof { lemma_plan_error_persists(n as nat, fundamental_bin as nat, harmonics@, i + 1); }
            return Err(Refusal::Collision { order, bin: b, with: Collider::Dc });
        }
        if b == fundamental_bin {
            proof { lemma_plan_error_persists(n as nat, fundamental_bin as nat, harmonics@, i + 1); }
            return Err(Refusal::Collision { order, bin: b, with: Collider::Fundamental });
        }
        if holds_bin(&placed, b) {
            proof { lemma_plan_error_persists(n as nat, fundamental_bin as nat, harmonics@, i + 1); }
            return Err(Refusal::Collision { order, bin: b, with: Collider::AnotherHarmonic });
        }
        assert(!bin_taken(placed@, b as nat));
        placed.push((order, b));
        i = i + 1;
    }
    assert(harmonics@.take(harmonics@.len() as int) =~= harmonics@);
    Ok(placed)
}


/// A plan that is accepted counts every bin at most once: each named order (all at least 2)
/// is paired, in order, with the bin it folds to, and those bins are distinct, lie in
/// `1..=n/2`, and are never the fundamental's.
pub proof fn lemma_plan_counts_each_bin_once(n: nat, bin: nat, hs: Seq<usize>)
    requires
        0 < n <= usize::MAX,
        spectral_plan(n, bin, hs) is Ok,
    ensures
        0 < bin <= n / 2,
        ({
            let p = spectral_plan(n, bin, hs)->Ok_0;
            &&& p.len() == hs.len()
            &&& forall|i: int|
                0 <= i < p.len() ==> {
                    &&& (#[trigger] p[i]).0 == hs[i]
                    &&& p[i].0 >= 2
                    &&& p[i].1 as nat == fold_spec(hs[i] as nat, bin, n)
                    &&& 1 <= p[i].1 <= n / 2
                    &&& p[i].1 != bin
                }
            &&& forall|i: int, j: int|
                0 <= i < j < p.len() ==> (#[trigger] p[i]).1 != (#[trigger] p[j]).1
        }),
{
    lemma_harmonic_plan_shape(n, bin, hs);
}

proof fn lemma_harmonic_plan_shape(n: nat, bin: nat, hs: Seq<usize>)
    requires
        0 < n <= usize::MAX,
        harmonic_plan(n, bin, hs) is Ok,
    ensures
        ({
            let p = harmonic_plan(n, bin, hs)->Ok_0;
            &&& p.len() == hs.len()
            &&& forall|i: int|
                0 <= i < p.len() ==> {
                    &&& (#[trigger] p[i]).0 == hs[i]
                    &&& p[i].0 >= 2
                    &&& p[i].1 as nat == fold_spec(hs[i] as nat, bin, n)
                    &&& 1 <= p[i].1 <= n / 2
                    &&& p[i].1 != bin
                }
            &&& forall|i: int, j: int|
                0 <= i < j < p.len() ==> (#[trigger] p[i]).1 != (#[trigger] p[j]).1
        }),
    decreases hs.len(),
{
    if hs.len() > 0 {
        let prev = hs.drop_last();
        lemma_harmonic_plan_shape(n, bin, prev);
        let order = hs.last();
        lemma_fold_in_first_zone(order as nat, bin, n);
        let placed = harmonic_plan(n, bin, prev)->Ok_0;
        let p = harmonic_plan(n, bin, hs)->Ok_0;
        let b = fold_spec(order as nat, bin, n);
        assert(p == placed.push((order, b as usize)));
        assert forall|i: int| 0 <= i < p.len() implies {
            &&& (#[trigger] p[i]).0 == hs[i]
            &&& p[i].0 >= 2
            &&& p[i].1 as nat == fold_spec(hs[i] as nat, bin, n)
            &&& 1 <= p[i].1 <= n / 2
            &&& p[i].1 != bin
        } by {
            if i < p.len() - 1 {
                assert(p[i] == placed[i]);
                assert(hs[i] == prev[i]);
            } else {
                assert(p[i] == (order, b as usize));
            }
        }
        assert forall|i: int, j: int| 0 <= i < j < p.len() implies (#[trigger] p[i]).1
            != (#[trigger] p[j]).1 by {
            if j < p.len() - 1 {
                assert(p[i] == placed[i]);
                assert(p[j] == placed[j]);
            } else {
                if p[i].1 == p[j].1 {
                    assert(p[i] == placed[i]);
                    assert(p[j] == (order, b as usize));
                    assert(placed[i].1 as nat == b);
                    assert(bin_taken(placed, b));
                }
            }
        }
    }
}

/// Harmonic `j` of `hs` cannot be measured: its order is below 2, or it folds onto DC, onto the
/// fundamental, or onto the bin an earlier harmonic folds to.
pub open spec fn order_unmeasurable(n: nat, bin: nat, hs: Seq<usize>, j: int) -> bool {
    let b = fold_spec(hs[j] as nat, bin, n);
    ||| hs[j] < 2
    ||| b == 0
    ||| b == bin
    ||| exists|i: int| 0 <= i < j && #[trigger] fold_spec(hs[i] as nat, bin, n) == b
}

/// The refusal harmonic `j` is reported with when it cannot be measured.
pub open spec fn order_refusal(n: nat, bin: nat, hs: Seq<usize>, j: int) -> Refusal {
    let order = hs[j];
    let b = fold_spec(order as nat, bin, n);
    if order < 2 {
        Refusal::HarmonicOrder(order)
    } else if b == 0 {
        Refusal::Collision { order, bin: b as usize, with: Collider::Dc }
    } else if b == bin {
        Refusal::Collision { order, bin: b as usize, with: Collider::Fundamental }
    } else {
        Refusal::Collision { order, bin: b as usize, with: Collider::AnotherHarmonic }
    }
}

/// Dropping the last order changes nothing about the orders before it.
proof fn lemma_unmeasurable_prefix(n: nat, bin: nat, hs: Seq<usize>, j: int)
    requires
        hs.len() > 0,
        0 <= j < hs.len() - 1,
    ensures
        order_unmeasurable(n, bin, hs.drop_last(), j) == order_unmeasurable(n, bin, hs, j),
        order_refusal(n, bin, hs.drop_last(), j) == order_refusal(n, bin, hs, j),
{
    let prev = hs.drop_last();
    assert(prev[j] == hs[j]);
    let b = fold_spec(hs[j] as nat, bin, n);
    if exists|i: int| 0 <= i < j && #[trigger] fold_spec(hs[i] as nat, bin, n) == b {
        let i = choose|i: int| 0 <= i < j && #[trigger] fold_spec(hs[i] as nat, bin, n) == b;
        assert(prev[i] == hs[i]);
        assert(fold_spec(prev[i] as nat, bin, n) == b);
    }
    if exists|i: int| 0 <= i < j && #[trigger] fold_spec(prev[i] as nat, bin, n) == b {
        let i = choose|i: int| 0 <= i < j && #[trigger] fold_spec(prev[i] as nat, bin, n) == b;
        assert(prev[i] == hs[i]);
        assert(fold_spec(hs[i] as nat, bin, n) == b);
    }
}

proof fn lemma_harmonic_plan_first_unmeasurable(n: nat, bin: nat, hs: Seq<usize>)
    requires
        0 < n <= usize::MAX,
        0 < bin <= n / 2,
    ensures
        (forall|j: int| 0 <= j < hs.len() ==> !#[trigger] order_unmeasurable(n, bin, hs, j)) ==> {
            &&& harmonic_plan(n, bin, hs) is Ok
            &&& harmonic_plan(n, bin, hs)->Ok_0.len() == hs.len()
            &&& forall|i: int|
                0 <= i < hs.len() ==> (#[trigger] harmonic_plan(n, bin, hs)->Ok_0[i]).1 as nat
                    == fold_spec(hs[i] as nat, bin, n)
        },
        forall|j: int|
            0 <= j < hs.len() && #[trigger] order_unmeasurable(n, bin, hs, j) && (forall|i: int|
                0 <= i < j ==> !order_unmeasurable(n, bin, hs, i)) ==> harmonic_plan(n, bin, hs)
                == Err::<Seq<(usize, usize)>, Refusal>(order_refusal(n, bin, hs, j)),
    decreases hs.len(),
{
    if hs.len() > 0 {
        let prev = hs.drop_last();
        let k = hs.len() - 1;
        lemma_harmonic_plan_first_unmeasurable(n, bin, prev);
        assert forall|j: int| 0 <= j < k implies order_unmeasurable(n, bin, prev, j)
            == #[trigger] order_unmeasurable(n, bin, hs, j) && order_refusal(n, bin, prev, j)
            == order_refusal(n, bin, hs, j) by {
            lemma_unmeasurable_prefix(n, bin, hs, j);
        }
        assert(hs.last() == hs[k]);
        let order = hs[k];
        let b = fold_spec(order as nat, bin, n);
        lemma_fold_in_first_zone(order as nat, bin, n);
        assert forall|j: int|
            0 <= j < hs.len() && #[trigger] order_unmeasurable(n, bin, hs, j) && (forall|i: int|
                0 <= i < j ==> !order_unmeasurable(n, bin, hs, i)) implies harmonic_plan(
            n,
            bin,
            hs,
        ) == Err::<Seq<(usize, usize)>, Refusal>(order_refusal(n, bin, hs, j)) by {
            if j < k {
                assert(order_unmeasurable(n, bin, prev, j));
                assert forall|i: int| 0 <= i < j implies !order_unmeasurable(n, bin, prev, i) by {
                    assert(!order_unmeasurable(n, bin, hs, i));
                }
            } else {
                assert forall|i: int| 0 <= i < prev.len() implies !#[trigger] order_unmeasurable(
                    n,
                    bin,
                    prev,
                    i,
                ) by {
                    assert(!order_unmeasurable(n, bin, hs, i));
                }
                let placed = harmonic_plan(n, bin, prev)->Ok_0;
                if order >= 2 && b != 0 && b != bin {
                    let i = choose|i: int| 0 <= i < k && #[trigger] fold_spec(hs[i] as nat, bin, n)
                        == b;
                    assert(prev[i] == hs[i]);
                    assert(placed[i].1 as nat == fold_spec(prev[i] as nat, bin, n));
                    assert(bin_taken(placed, b));
                }
            }
        }
        if forall|j: int| 0 <= j < hs.len() ==> !#[trigger] order_unmeasurable(n, bin, hs, j) {
            assert forall|i: int| 0 <= i < prev.len() implies !#[trigger] order_unmeasurable(
                n,
                bin,
                prev,
                i,
            ) by {
                assert(!order_unmeasurable(n, bin, hs, i));
            }
            let placed = harmonic_plan(n, bin, prev)->Ok_0;
            assert(!order_unmeasurable(n, bin, hs, k));
            if bin_taken(placed, b) {
                let i = choose|i: int| 0 <= i < placed.len() && #[trigger] placed[i].1 as nat == b;
                assert(placed[i].1 as nat == fold_spec(prev[i] as nat, bin, n));
                assert(prev[i] == hs[i]);
                assert(fold_spec(hs[i] as nat, bin, n) == b);
                assert(false);
            }
            let p = harmonic_plan(n, bin, hs)->Ok_0;
            assert(p == placed.push((order, b as usize)));
            assert forall|i: int| 0 <= i < hs.len() implies (#[trigger] p[i]).1 as nat
                == fold_spec(hs[i] as nat, bin, n) by {
                if i < k {
                    assert(p[i] == placed[i]);
                    assert(prev[i] == hs[i]);
                }
            }
        }
    }
}

/// The harmonics are checked in the order they are named, and the first that cannot be
/// measured is the one refused: with the fundamental in `1..=n/2`, the plan is refused for the
/// first order below 2 (`HarmonicOrder`), or folding onto DC, the fundamental or an earlier
/// harmonic's bin (`Collision`, naming which); when no order is unmeasurable the plan is
/// accepted.
pub proof fn lemma_plan_refuses_first_unmeasurable(n: nat, bin: nat, hs: Seq<usize>)
    requires
        0 < n <= usize::MAX,
        0 < bin <= n / 2,
    ensures
        (forall|j: int| 0 <= j < hs.len() ==> !#[trigger] order_unmeasurable(n, bin, hs, j))
            ==> spectral_plan(n, bin, hs) is Ok,
        forall|j: int|
            0 <= j < hs.len() && #[trigger] order_unmeasurable(n, bin, hs, j) && (forall|i: int|
                0 <= i < j ==> !order_unmeasurable(n, bin, hs, i)) ==> spectral_plan(n, bin, hs)
                == Err::<Seq<(usize, usize)>, Refusal>(order_refusal(n, bin, hs, j)),
{
    lemma_harmonic_plan_first_unmeasurable(n, bin, hs);
}

/// Each metric's canonical name parses back to it.
pub proof fn lemma_metric_name_round_trip(m: Metric)
    ensures
        metric_named(metric_name(m)) == Some(m),
{
    reveal_strlit("snr");
    reveal_strlit("sinad");
    reveal_strlit("thd");
    reveal_strlit("sfdr");
    assert("snr"@.len() == 3);
    assert("sinad"@.len() == 5);
    assert("thd"@.len() == 3);
    assert("sfdr"@.len() == 4);
    assert("snr"@ != "thd"@) by {
        assert("snr"@[0] != "thd"@[0]);
    }
    let s = metric_name(m);
    assert(crate::text::lower(s) =~= s);
}

/// Parsing a metric ignores ASCII case.
pub proof fn lemma_metric_parse_ignores_case(s: Seq<char>)
    ensures
        metric_named(crate::text::lower(s)) == metric_named(s),
{
    crate::text::lemma_lower_idempotent(s);
}

/// Bin `k` belongs to the residual: neither DC nor the fundamental.
pub open spec fn residual(k: int, bin: int) -> bool {
    k != 0 && k != bin
}

/// `r` is the worst spur among bins whose powers are ordered as `keys` is: the largest
/// residual bin, the lowest-frequency one on an exact tie, or bin 0 when no residual bin
/// holds any power.
pub open spec fn is_worst_spur(keys: Seq<u64>, bin: int, r: int) -> bool {
    ||| r == 0 && forall|k: int| 0 <= k < keys.len() && residual(k, bin) ==> #[trigger] keys[k] == 0
    ||| {
        &&& 0 <= r < keys.len()
        &&& residual(r, bin)
        &&& keys[r] > 0
        &&& forall|k: int| 0 <= k < keys.len() && residual(k, bin) ==> #[trigger] keys[k] <= keys[r]
        &&& forall|k: int| 0 <= k < r && residual(k, bin) ==> #[trigger] keys[k] < keys[r]
    }
}

/// The worst spur: the residual bin with the largest power, the lowest-frequency bin winning
/// an exact tie; bin 0 when every residual bin is empty. `keys[k]` orders the power of bin `k`
/// as the powers are ordered, an empty bin having key 0.
pub fn worst_spur(keys: &Vec<u64>, fundamental_bin: usize) -> (r: usize)
    ensures
        is_worst_spur(keys@, fundamental_bin as int, r as int),
{
    let mut best: u64 = 0;
    let mut spur: usize = 0;
    let mut k: usize = 0;
    while k < keys.len()
        invariant
            k <= keys@.len(),
            spur < k || spur == 0,
            spur == 0 ==> best == 0,
            spur != 0 ==> residual(spur as int, fundamental_bin as int) && best == keys@[spur as int]
                && best > 0,
            forall|j: int| 0 <= j < k && residual(j, fundamental_bin as int) ==> #[trigger] keys@[j] <= best,
            forall|j: int| 0 <= j < spur && residual(j, fundamental_bin as int) ==> #[trigger] keys@[j] < best,
        decreases keys@.len() - k,
    {
        if k != 0 && k != fundamental_bin && keys[k] > best {
            best = keys[k];
            spur = k;
        }
        k = k + 1;
    }
    spur
}


/// Why sample `i`, given by its bit pattern `v`, makes the record unmeasurable, if it does:
/// it is not finite, or its magnitude reaches the clip level's.
pub open spec fn sample_refusal(v: u64, i: int, clip: Option<u64>) -> Option<Refusal> {
    if !crate::binary64::finite_bits(v) {
        Some(Refusal::NotFinite(i as usize))
    } else if clip is Some && crate::binary64::magnitude(v) >= crate::binary64::magnitude(
        clip->Some_0,
    ) {
        Some(Refusal::Clipped { index: i as usize, level: clip->Some_0 })
    } else {
        None
    }
}

/// The first refusal among the samples from index `i` on, scanning in capture order.
pub open spec fn scan_samples(samples: Seq<u64>, clip: Option<u64>, i: int) -> Result<(), Refusal>
    decreases samples.len() - i,
{
    if i < 0 || i >= samples.len() {
        Ok(())
    } else {
        match sample_refusal(samples[i], i, clip) {
            Some(e) => Err(e),
            None => scan_samples(samples, clip, i + 1),
        }
    }
}

/// Everything that is decided before the spectrum is looked at, in the order the method
/// checks it: the record length, then each sample in capture order, then the fundamental bin
/// and the harmonics.
pub open spec fn screen_spec(samples: Seq<u64>, bin: usize, harmonics: Seq<usize>, clip: Option<
    u64,
>) -> Result<Seq<(usize, usize)>, Refusal> {
    if !valid_record_length(samples.len()) {
        Err(Refusal::RecordLength(samples.len() as usize))
    } else {
        match scan_samples(samples, clip, 0) {
            Err(e) => Err(e),
            Ok(_) => spectral_plan(samples.len(), bin as nat, harmonics),
        }
    }
}

/// Checks a record against the method before any spectrum is computed, and gives the
/// harmonic plan: the record length must be a power of two in `8..=65536`, every sample
/// (given by its bit pattern) finite and below the clip level, the fundamental in `1..=n/2`,
/// and every harmonic measurable without a collision.
pub fn screen(samples: &Vec<u64>, spec: &Spec) -> (r: Result<Vec<(usize, usize)>, Refusal>)
    ensures
        r matches Ok(v) ==> screen_spec(
            samples@,
            spec.fundamental_bin,
            spec.harmonics@,
            spec.clip_level,
        ) == Ok::<Seq<(usize, usize)>, Refusal>(v@),
        r matches Err(e) ==> screen_spec(
            samples@,
            spec.fundamental_bin,
            spec.harmonics@,
            spec.clip_level,
        ) == Err::<Seq<(usize, usize)>, Refusal>(e),
{
    let n = samples.len();
    match check_record_length(n) {
        Err(e) => return Err(e),
        Ok(()) => {},
    }
    let mut i: usize = 0;
    while i < n
        invariant
            n == samples@.len(),
            valid_record_length(n as nat),
            i <= n,
            scan_samples(samples@, spec.clip_level, 0) == scan_samples(
                samples@,
                spec.clip_level,
                i as int,
            ),
        decreases n - i,
    {
        let v = samples[i];
        if !crate::binary64::is_finite_bits(v) {
            return Err(Refusal::NotFinite(i));
        }
        match spec.clip_level {
            Some(c) => {
                if crate::binary64::magnitude_of(v) >= crate::binary64::magnitude_of(c) {
                    return Err(Refusal::Clipped { index: i, level: c });
                }
            },
            None => {},
        }
        i = i + 1;
    }
    plan_harmonics(n, spec.fundamental_bin, &spec.harmonics)
}

proof fn lemma_scan_first_refusal(samples: Seq<u64>, clip: Option<u64>, i: int)
    requires
        0 <= i <= samples.len(),
    ensures
        (forall|j: int| i <= j < samples.len() ==> #[trigger] sample_refusal(samples[j], j, clip) is None)
            ==> scan_samples(samples, clip, i) == Ok::<(), Refusal>(()),
        forall|j: int|
            i <= j < samples.len() && #[trigger] sample_refusal(samples[j], j, clip) is Some && (
            forall|k: int| i <= k < j ==> sample_refusal(samples[k], k, clip) is None)
                ==> scan_samples(samples, clip, i) == Err::<(), Refusal>(
                sample_refusal(samples[j], j, clip)->Some_0,
            ),
    decreases samples.len() - i,
{
    if i < samples.len() {
        lemma_scan_first_refusal(samples, clip, i + 1);
        assert forall|j: int|
            i <= j < samples.len() && #[trigger] sample_refusal(samples[j], j, clip) is Some && (
            forall|k: int| i <= k < j ==> sample_refusal(samples[k], k, clip) is None) implies scan_samples(
            samples,
            clip,
            i,
        ) == Err::<(), Refusal>(sample_refusal(samples[j], j, clip)->Some_0) by {
            if j > i {
                assert(sample_refusal(samples[i], i, clip) is None);
                assert forall|k: int| i + 1 <= k < j implies sample_refusal(samples[k], k, clip)
                    is None by {}
            }
        }
    }
}

/// A record is refused for the first thing wrong with it, in a fixed order: its length, then
/// the first sample in capture order that is not finite or reaches the clip level, then the
/// fundamental bin and the harmonics (the first unmeasurable order, as
/// `lemma_plan_refuses_first_unmeasurable` states); a record with none of these is planned.
pub proof fn lemma_screen_refuses_in_order(
    samples: Seq<u64>,
    bin: usize,
    harmonics: Seq<usize>,
    clip: Option<u64>,
)
    ensures
        !valid_record_length(samples.len()) ==> screen_spec(samples, bin, harmonics, clip) == Err::<
            Seq<(usize, usize)>,
            Refusal,
        >(Refusal::RecordLength(samples.len() as usize)),
        forall|j: int|
            valid_record_length(samples.len()) && 0 <= j < samples.len()
                && #[trigger] sample_refusal(samples[j], j, clip) is Some && (forall|k: int|
                0 <= k < j ==> sample_refusal(samples[k], k, clip) is None) ==> screen_spec(
                samples,
                bin,
                harmonics,
                clip,
            ) == Err::<Seq<(usize, usize)>, Refusal>(sample_refusal(samples[j], j, clip)->Some_0),
        valid_record_length(samples.len()) && (forall|j: int|
            0 <= j < samples.len() ==> #[trigger] sample_refusal(samples[j], j, clip) is None)
            ==> screen_spec(samples, bin, harmonics, clip) == spectral_plan(
            samples.len(),
            bin as nat,
            harmonics,
        ),
{
    lemma_scan_first_refusal(samples, clip, 0);
}

/// A record that reaches the clip level is not measured: with the record length accepted and
/// every earlier sample finite and strictly below the clip level in absolute value, the first
/// finite sample whose absolute value is at or above the clip level's (equality included) is
/// refused as clipped, by its index.
pub proof fn lemma_reaching_the_clip_level_is_refused(
    samples: Seq<u64>,
    bin: usize,
    harmonics: Seq<usize>,
    clip: u64,
    j: int,
)
    requires
        valid_record_length(samples.len()),
        0 <= j < samples.len(),
        forall|k: int|
            0 <= k < j ==> crate::binary64::finite_bits(#[trigger] samples[k])
                && crate::binary64::magnitude_units(samples[k])
                < crate::binary64::magnitude_units(clip),
        crate::binary64::finite_bits(samples[j]),
        crate::binary64::magnitude_units(samples[j]) >= crate::binary64::magnitude_units(clip),
    ensures
        screen_spec(samples, bin, harmonics, Some(clip)) == Err::<Seq<(usize, usize)>, Refusal>(
            Refusal::Clipped { index: j as usize, level: clip },
        ),
{
    lemma_screen_refuses_in_order(samples, bin, harmonics, Some(clip));
    assert forall|k: int| 0 <= k < j implies sample_refusal(samples[k], k, Some(clip)) is None by {
        crate::binary64::lemma_magnitude_orders_units(samples[k], clip);
    }
    crate::binary64::lemma_magnitude_orders_units(samples[j], clip);
    assert(sample_refusal(samples[j], j, Some(clip)) is Some);
}

/// A sample the method can measure: finite, and, with a clip level, strictly below it in
/// absolute value.
pub open spec fn sample_fine(v: u64, clip: Option<u64>) -> bool {
    &&& crate::binary64::finite_bits(v)
    &&& clip matches Some(c) ==> crate::binary64::magnitude_units(v)
        < crate::binary64::magnitude_units(c)
}

proof fn lemma_sample_refusal_by_value(v: u64, i: int, clip: Option<u64>)
    ensures
        (sample_refusal(v, i, clip) is None) == sample_fine(v, clip),
{
    if let Some(c) = clip {
        crate::binary64::lemma_magnitude_orders_units(v, c);
    }
}

/// A record is screened sample by sample in capture order: with its length accepted, the first
/// sample that is not finite is refused as such, and a record whose samples are all finite and
/// below the clip level goes on to its harmonic plan.
pub proof fn lemma_screen_sample_by_sample(
    samples: Seq<u64>,
    bin: usize,
    harmonics: Seq<usize>,
    clip: Option<u64>,
)
    ensures
        forall|j: int|
            valid_record_length(samples.len()) && 0 <= j < samples.len()
                && !crate::binary64::finite_bits(#[trigger] samples[j]) && (forall|k: int|
                0 <= k < j ==> sample_fine(samples[k], clip)) ==> screen_spec(
                samples,
                bin,
                harmonics,
                clip,
            ) == Err::<Seq<(usize, usize)>, Refusal>(Refusal::NotFinite(j as usize)),
        valid_record_length(samples.len()) && (forall|j: int|
            0 <= j < samples.len() ==> sample_fine(#[trigger] samples[j], clip)) ==> screen_spec(
            samples,
            bin,
            harmonics,
            clip,
        ) == spectral_plan(samples.len(), bin as nat, harmonics),
{
    lemma_screen_refuses_in_order(samples, bin, harmonics, clip);
    assert forall|j: int| 0 <= j < samples.len() implies (sample_refusal(samples[j], j, clip) is None)
        == sample_fine(#[trigger] samples[j], clip) by {
        lemma_sample_refusal_by_value(samples[j], j, clip);
    }
    assert forall|j: int|
        valid_record_length(samples.len()) && 0 <= j < samples.len()
            && !crate::binary64::finite_bits(#[trigger] samples[j]) && (forall|k: int|
            0 <= k < j ==> sample_fine(samples[k], clip)) implies screen_spec(
        samples,
        bin,
        harmonics,
        clip,
    ) == Err::<Seq<(usize, usize)>, Refusal>(Refusal::NotFinite(j as usize)) by {
        assert(sample_refusal(samples[j], j, clip) is Some);
        assert forall|k: int| 0 <= k < j implies sample_refusal(samples[k], k, clip) is None by {
            assert(sample_fine(samples[k], clip));
        }
    }
    if valid_record_length(samples.len()) && (forall|j: int|
        0 <= j < samples.len() ==> sample_fine(#[trigger] samples[j], clip)) {
        assert forall|j: int| 0 <= j < samples.len() implies #[trigger] sample_refusal(
            samples[j],
            j,
            clip,
        ) is None by {
            assert(sample_fine(samples[j], clip));
        }
    }
}

/// The key by which a bin's power (given by its bit pattern) enters the choice of the worst
/// spur: the pattern itself for a positive value, whose patterns order as the values do, and 0
/// for a zero, a negative value or a NaN, none of which can be the worst spur.
pub open spec fn power_key_spec(b: u64) -> u64 {
    if crate::binary64::nan_bits(b) || b & crate::binary64::sign_bit() != 0 {
        0
    } else {
        b
    }
}

/// The spur-selection key of a bin's power.
pub fn power_key(b: u64) -> (r: u64)
    ensures
        r == power_key_spec(b),
{
    if crate::binary64::is_nan_bits(b) || b & 0x8000_0000_0000_0000u64 != 0 {
        0
    } else {
        b
    }
}

/// For finite, non-negative powers, the spur key orders as the powers do: a smaller power has a
/// smaller key, and two powers share a key only when they are equal. So the worst spur is
/// chosen by the powers themselves, and a tie is only an exact tie.
pub proof fn lemma_power_key_orders_powers(a: u64, b: u64)
    requires
        crate::binary64::finite_bits(a),
        crate::binary64::finite_bits(b),
        crate::binary64::value_units(a) >= 0,
        crate::binary64::value_units(b) >= 0,
    ensures
        crate::binary64::value_units(a) < crate::binary64::value_units(b) ==> power_key_spec(a)
            < power_key_spec(b),
        power_key_spec(a) == power_key_spec(b) ==> crate::binary64::value_units(a)
            == crate::binary64::value_units(b),
{
    lemma_power_key_is_magnitude(a);
    lemma_power_key_is_magnitude(b);
    crate::binary64::lemma_magnitude_orders_units(a, b);
}

/// The key of a finite, non-negative power is its magnitude pattern, the value's absolute
/// value being the value itself.
proof fn lemma_power_key_is_magnitude(a: u64)
    requires
        crate::binary64::finite_bits(a),
        crate::binary64::value_units(a) >= 0,
    ensures
        power_key_spec(a) == crate::binary64::magnitude(a),
        crate::binary64::value_units(a) == crate::binary64::magnitude_units(a),
{
    assert((a & 0x7ff0_0000_0000_0000u64) != 0x7ff0_0000_0000_0000u64 ==> !((a
        & 0x7fff_ffff_ffff_ffffu64) > 0x7ff0_0000_0000_0000u64)) by (bit_vector);
    assert(a & 0x8000_0000_0000_0000u64 == 0 ==> a & 0x7fff_ffff_ffff_ffffu64 == a)
        by (bit_vector);
    crate::binary64::lemma_zero_units(a);
}

/// The worst spur holds the largest residual power: with each bin's key taken from its
/// finite, non-negative power, the chosen bin's power is at least that of every residual bin
/// and above that of every lower residual bin; bin 0 is chosen only when every residual bin
/// holds no power.
pub proof fn lemma_worst_spur_holds_the_largest_power(
    powers: Seq<u64>,
    keys: Seq<u64>,
    bin: int,
    r: int,
)
    requires
        keys.len() == powers.len(),
        forall|k: int| 0 <= k < keys.len() ==> keys[k] == power_key_spec(#[trigger] powers[k]),
        forall|k: int|
            0 <= k < powers.len() ==> crate::binary64::finite_bits(#[trigger] powers[k])
                && crate::binary64::value_units(powers[k]) >= 0,
        is_worst_spur(keys, bin, r),
    ensures
        r == 0 ==> forall|k: int|
            0 <= k < powers.len() && residual(k, bin) ==> crate::binary64::value_units(
                #[trigger] powers[k],
            ) == 0,
        r != 0 ==> {
            &&& 0 < r < powers.len()
            &&& residual(r, bin)
            &&& forall|k: int|
                0 <= k < powers.len() && residual(k, bin) ==> crate::binary64::value_units(
                    #[trigger] powers[k],
                ) <= crate::binary64::value_units(powers[r])
            &&& forall|k: int|
                0 <= k < r && residual(k, bin) ==> crate::binary64::value_units(
                    #[trigger] powers[k],
                ) < crate::binary64::value_units(powers[r])
        },
{
    assert forall|k: int| 0 <= k < powers.len() implies keys[k] as int
        == crate::binary64::magnitude(#[trigger] powers[k]) as int && crate::binary64::value_units(
        powers[k],
    ) == crate::binary64::magnitude_units(powers[k]) by {
        lemma_power_key_is_magnitude(powers[k]);
    }
    if r == 0 {
        assert forall|k: int| 0 <= k < powers.len() && residual(k, bin) implies crate::binary64::value_units(
            #[trigger] powers[k],
        ) == 0 by {
            assert(keys[k] == 0);
            crate::binary64::lemma_zero_units(powers[k]);
        }
    } else {
        assert forall|k: int| 0 <= k < powers.len() && residual(k, bin) implies crate::binary64::value_units(
            #[trigger] powers[k],
        ) <= crate::binary64::value_units(powers[r]) by {
            assert(keys[k] <= keys[r]);
            crate::binary64::lemma_magnitude_orders_units(powers[k], powers[r]);
        }
        assert forall|k: int| 0 <= k < r && residual(k, bin) implies crate::binary64::value_units(
            #[trigger] powers[k],
        ) < crate::binary64::value_units(powers[r]) by {
            assert(keys[k] < keys[r]);
            crate::binary64::lemma_magnitude_orders_units(powers[k], powers[r]);
        }
    }
}

/// Refuses a fundamental bin that holds no power (a value that is zero or below; a NaN is not
/// below zero).
pub fn check_fundamental_power(p_f: u64) -> (r: Result<(), Refusal>)
    ensures
        r is Err <==> !crate::binary64::nan_bits(p_f) && (p_f & crate::binary64::sign_bit() != 0
            || crate::binary64::magnitude(p_f) == 0),
        r is Err ==> r == Err::<(), Refusal>(Refusal::SilentFundamental),
{
    if !crate::binary64::is_nan_bits(p_f) && (p_f & 0x8000_0000_0000_0000u64 != 0
        || crate::binary64::magnitude_of(p_f) == 0) {
        Err(Refusal::SilentFundamental)
    } else {
        Ok(())
    }
}


/// The sentence a refusal is reported with; `level` is the clip level as text.
pub open spec fn refusal_text(r: Refusal, level: Seq<char>) -> Seq<char> {
    match r {
        Refusal::RecordLength(n) => "record length "@ + crate::text::decimal(n as nat)
            + " is not a power of two in 8..=65536 — a coherent DFT needs one"@,
        Refusal::NotFinite(i) => "sample "@ + crate::text::decimal(i as nat) + " is not finite"@,
        Refusal::Clipped { index, .. } => "sample "@ + crate::text::decimal(index as nat)
            + " reaches the clip level "@ + level
            + " — the capture is clipped, so the tone is distorted by the acquisition rather than by the device under test"@,
        Refusal::FundamentalBin { bin, n } => "fundamental bin "@ + crate::text::decimal(
            bin as nat,
        ) + " is outside 1.."@ + crate::text::decimal((n / 2) as nat) + " for a "@
            + crate::text::decimal(n as nat) + "-sample record"@,
        Refusal::Collision { order, bin, with } => "harmonic "@ + crate::text::decimal(
            order as nat,
        ) + " folds onto bin "@ + crate::text::decimal(bin as nat) + ", which is already "@
            + collider_name(with)
            + " — counting one bin as two components would double-count its power"@,
        Refusal::HarmonicOrder(o) => "harmonic order "@ + crate::text::decimal(o as nat)
            + " is not measurable (1 is the fundamental)"@,
        Refusal::SilentFundamental =>
            "the fundamental bin holds no power — every ratio against it is undefined"@,
    }
}

impl Refusal {
    /// The sentence this refusal is reported with. `level` is the clip level as text; only a
    /// clipped record's sentence quotes it.
    pub fn describe(&self, level: &str) -> (r: String)
        ensures
            r@ == refusal_text(*self, level@),
    {
        let mut s = String::new();
        match self {
            Refusal::RecordLength(n) => {
                push_str(&mut s, "record length ");
                push_decimal(&mut s, *n);
                push_str(&mut s, " is not a power of two in 8..=65536 — a coherent DFT needs one");
            },
            Refusal::NotFinite(i) => {
                push_str(&mut s, "sample ");
                push_decimal(&mut s, *i);
                push_str(&mut s, " is not finite");
            },
            Refusal::Clipped { index, .. } => {
                push_str(&mut s, "sample ");
                push_decimal(&mut s, *index);
                push_str(&mut s, " reaches the clip level ");
                push_str(&mut s, level);
                push_str(
                    &mut s,
                    " — the capture is clipped, so the tone is distorted by the acquisition rather than by the device under test",
                );
            },
            Refusal::FundamentalBin { bin, n } => {
                push_str(&mut s, "fundamental bin ");
                push_decimal(&mut s, *bin);
                push_str(&mut s, " is outside 1..");
                push_decimal(&mut s, *n / 2);
                push_str(&mut s, " for a ");
                push_decimal(&mut s, *n);
                push_str(&mut s, "-sample record");
            },
            Refusal::Collision { order, bin, with } => {
                push_str(&mut s, "harmonic ");
                push_decimal(&mut s, *order);
                push_str(&mut s, " folds onto bin ");
                push_decimal(&mut s, *bin);
                push_str(&mut s, ", which is already ");
                push_str(&mut s, with.as_str());
                push_str(
                    &mut s,
                    " — counting one bin as two components would double-count its power",
                );
            },
            Refusal::HarmonicOrder(o) => {
                push_str(&mut s, "harmonic order ");
                push_decimal(&mut s, *o);
                push_str(&mut s, " is not measurable (1 is the fundamental)");
            },
            Refusal::SilentFundamental => {
                push_str(
                    &mut s,
                    "the fundamental bin holds no power — every ratio against it is undefined",
                );
            },
        }
        s
    }
}


/// A harmonic keeps its own bin exactly when it is not above Nyquist; `is_folded` reports the
/// ones that moved.
pub proof fn lemma_folded_exactly_when_moved(order: nat, bin: nat, n: nat)
    requires
        n > 0,
    ensures
        (fold_spec(order, bin, n) == order * bin) <==> order * bin <= n / 2,
{
    let p = order * bin;
    lemma_fold_in_first_zone(order, bin, n);
    if p < n {
        vstd::arithmetic::div_mod::lemma_small_mod(p, n);
    }
}

} // verus!
