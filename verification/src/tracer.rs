//! Sphere tracing over a sampled distance field.
//!
//! A march starts at travel 0 and samples the field at its current travel.
//! A sample below the hit threshold ends the march in a hit at that travel;
//! any other sample is added to the travel. A march whose travel reaches
//! `MAX_DISTANCE` ends in a miss.
//!
//! Lengths are fixed-point: an `i64` counts steps of `1 / UNIT` scene units.
//! The field itself is the caller's: it is handed in as a function from the
//! travel along a ray to the distance estimate there.

use vstd::prelude::*;

verus! {

/// Fixed-point steps in one unit of scene length.
pub const UNIT: i64 = 1_000_000_000;

/// Travel at which a march gives up: 500 scene units.
pub const MAX_DISTANCE: i64 = 500_000_000_000;

/// The hit threshold is `1 / (EPSILON_SCALE * detail)` scene units.
pub const EPSILON_SCALE: i64 = 10_000;

/// How a march ended. On a hit, `travel` is where along the ray the surface
/// was found: the hit position is the point of the ray at that travel. On a
/// miss it is the travel that reached the cap, kept at `i64::MAX` if the sum
/// went beyond it.
#[derive(Clone, Copy, Debug, PartialEq, Eq, Structural)]
pub struct HitResult {
    pub hit: bool,
    pub travel: i64,
}

/// `distance / UNIT < 1 / (EPSILON_SCALE * detail)`, cleared of fractions.
pub open spec fn within_epsilon(distance: int, detail: int) -> bool {
    distance * (EPSILON_SCALE * detail) < UNIT
}

/// Sum of the first `n` samples: the travel at which sample `n` is taken.
pub open spec fn travel_before(samples: Seq<i64>, n: int) -> int
    decreases n,
{
    if n <= 0 {
        0
    } else {
        travel_before(samples, n - 1) + samples[n - 1]
    }
}

/// `samples` are the distances one complete march met, in order: every
/// sample was taken short of the cap, none but the last is a hit, and the
/// last one ends the march, by being a hit or by carrying the travel to the
/// cap.
pub open spec fn is_march(samples: Seq<i64>, detail: int) -> bool {
    &&& samples.len() >= 1
    &&& forall|i: int|
        0 <= i < samples.len() ==> 0 <= #[trigger] travel_before(samples, i) < MAX_DISTANCE
    &&& forall|i: int|
        0 <= i < samples.len() - 1 ==> !within_epsilon(#[trigger] samples[i] as int, detail)
    &&& (within_epsilon(samples.last() as int, detail) || travel_before(
        samples,
        samples.len() as int,
    ) >= MAX_DISTANCE)
}

/// Every sample is a value that `field` may return at the travel where the
/// march took it.
pub open spec fn sampled_from<F: Fn(i64) -> i64>(field: F, samples: Seq<i64>) -> bool {
    forall|i: int|
        0 <= i < samples.len() ==> call_ensures(
            field,
            (travel_before(samples, i) as i64,),
            #[trigger] samples[i],
        )
}

/// `field` returns one value only at each travel.
pub open spec fn single_valued<F: Fn(i64) -> i64>(field: F) -> bool {
    forall|t: i64, a: i64, b: i64|
        #[trigger] call_ensures(field, (t,), a) && #[trigger] call_ensures(field, (t,), b) ==> a
            == b
}

/// `travel` as an `i64`, kept at `i64::MAX` if it is larger.
pub open spec fn saturated(travel: int) -> i64 {
    if travel > i64::MAX {
        i64::MAX
    } else {
        travel as i64
    }
}

/// The result of the march that met `samples`.
pub open spec fn outcome(samples: Seq<i64>, detail: int) -> HitResult {
    if within_epsilon(samples.last() as int, detail) {
        HitResult { hit: true, travel: travel_before(samples, samples.len() - 1) as i64 }
    } else {
        HitResult { hit: false, travel: saturated(travel_before(samples, samples.len() as int)) }
    }
}

/// Most samples a march at `detail` can take: the cap divided by the
/// threshold.
pub open spec fn max_samples(detail: int) -> int {
    (MAX_DISTANCE / UNIT) * EPSILON_SCALE * detail
}

/// Tests a sampled distance against the hit threshold of `detail`.
pub fn is_hit(distance: i64, detail: i32) -> (hit: bool)
    requires
        detail >= 1,
    ensures
        hit == within_epsilon(distance as int, detail as int),
{
    let scale: i128 = 10_000 * (detail as i128);
    assert(-0x8000_0000_0000_0000 * 21_474_836_470_000 <= distance as int * scale as int
        <= 0x7fff_ffff_ffff_ffff * 21_474_836_470_000) by (nonlinear_arith)
        requires
            -0x8000_0000_0000_0000 <= distance as int <= 0x7fff_ffff_ffff_ffff,
            1 <= scale as int <= 21_474_836_470_000,
    ;
    (distance as i128) * scale < (UNIT as i128)
}

/// Marches along a ray through `field` and reports how the march ended.
///
/// `field` maps a travel along the ray to the distance estimate at that
/// point, both in fixed-point steps; the ray and the parameters of the
/// fractal are the caller's and live in `field`. The result is the outcome
/// of a complete march whose samples all came from `field`. With a field
/// that is a function of the travel there is one such march only
/// (`lemma_march_is_unique`).
pub fn trace<F: Fn(i64) -> i64>(field: F, detail: i32) -> (result: HitResult)
    requires
        detail >= 1,
        forall|t: i64| 0 <= t < MAX_DISTANCE ==> call_requires(field, (t,)),
    ensures
        exists|samples: Seq<i64>|
            #[trigger] is_march(samples, detail as int) && sampled_from(field, samples) && result
                == outcome(samples, detail as int),
        result.hit ==> 0 <= result.travel < MAX_DISTANCE && exists|distance: i64|
            #[trigger] call_ensures(field, (result.travel,), distance) && within_epsilon(
                distance as int,
                detail as int,
            ),
        !result.hit ==> result.travel >= MAX_DISTANCE,
{
    let ghost mut samples: Seq<i64> = Seq::empty();
    let mut travel: i64 = 0;
    while travel < MAX_DISTANCE
        invariant
            detail >= 1,
            forall|t: i64| 0 <= t < MAX_DISTANCE ==> call_requires(field, (t,)),
            0 <= travel,
            travel == saturated(travel_before(samples, samples.len() as int)),
            forall|i: int|
                0 <= i < samples.len() ==> 0 <= #[trigger] travel_before(samples, i)
                    < MAX_DISTANCE,
            forall|i: int|
                0 <= i < samples.len() ==> !within_epsilon(
                    #[trigger] samples[i] as int,
                    detail as int,
                ),
            sampled_from(field, samples),
        decreases
                (if travel < MAX_DISTANCE {
                    MAX_DISTANCE - travel
                } else {
                    0
                }),
    {
        let distance: i64 = field(travel);
        let ghost longer = samples.push(distance);
        proof {
            // Appending a sample leaves the travel before each earlier one
            // as it was.
            assert forall|i: int| 0 <= i < longer.len() implies #[trigger] travel_before(longer, i)
                == travel_before(samples, i) by {
                lemma_travel_of_prefix(samples, longer, i);
            }
            assert(travel_before(longer, longer.len() as int) == travel_before(
                longer,
                longer.len() - 1,
            ) + longer[longer.len() - 1]);
            assert(sampled_from(field, longer));
        }
        if is_hit(distance, detail) {
            proof {
                assert(longer.last() == distance);
                assert(is_march(longer, detail as int));
            }
            return HitResult { hit: true, travel };
        }
        proof {
            lemma_miss_is_progress(distance as int, detail as int);
            samples = longer;
        }
        travel = if distance > i64::MAX - travel {
            i64::MAX
        } else {
            travel + distance
        };
    }
    proof {
        assert(is_march(samples, detail as int));
    }
    HitResult { hit: false, travel }
}

/// A sample that is no hit is at least one fixed-point step long.
pub proof fn lemma_miss_is_progress(distance: int, detail: int)
    requires
        detail >= 1,
        !within_epsilon(distance, detail),
    ensures
        distance >= 1,
        distance * (EPSILON_SCALE * detail) >= UNIT,
{
    assert(distance >= 1) by (nonlinear_arith)
        requires
            distance * (10_000 * detail) >= 1_000_000_000,
            detail >= 1,
    ;
}

/// Two sample sequences that agree on their first `n` entries reach the same
/// travel after them.
pub proof fn lemma_travel_of_prefix(a: Seq<i64>, b: Seq<i64>, n: int)
    requires
        0 <= n <= a.len(),
        n <= b.len(),
        forall|i: int| 0 <= i < n ==> a[i] == b[i],
    ensures
        travel_before(a, n) == travel_before(b, n),
    decreases n,
{
    if n > 0 {
        lemma_travel_of_prefix(a, b, n - 1);
    }
}

/// A higher detail level narrows the threshold: what is a hit at `finer` is
/// a hit at every coarser level.
pub proof fn lemma_detail_narrows_threshold(distance: int, coarser: int, finer: int)
    requires
        1 <= coarser <= finer,
        within_epsilon(distance, finer),
    ensures
        within_epsilon(distance, coarser),
{
    assert(distance * (10_000 * coarser) < 1_000_000_000) by (nonlinear_arith)
        requires
            1 <= coarser <= finer,
            distance * (10_000 * finer) < 1_000_000_000,
    ;
}

/// After `n` samples that were no hit, the travel is at least `n` thresholds.
pub proof fn lemma_travel_grows(samples: Seq<i64>, detail: int, n: int)
    requires
        detail >= 1,
        0 <= n <= samples.len(),
        forall|i: int| 0 <= i < n ==> !within_epsilon(#[trigger] samples[i] as int, detail),
    ensures
        travel_before(samples, n) >= n,
        travel_before(samples, n) * (EPSILON_SCALE * detail) >= n * UNIT,
    decreases n,
{
    if n > 0 {
        lemma_travel_grows(samples, detail, n - 1);
        let last = samples[n - 1] as int;
        let before = travel_before(samples, n - 1);
        lemma_miss_is_progress(last, detail);
        assert((before + last) * (10_000 * detail) >= n * 1_000_000_000) by (nonlinear_arith)
            requires
                before * (10_000 * detail) >= (n - 1) * 1_000_000_000,
                last * (10_000 * detail) >= 1_000_000_000,
        ;
    }
}

/// A march ends: at `detail` it takes at most `max_samples(detail)` samples,
/// however the field behaves.
pub proof fn lemma_march_length(samples: Seq<i64>, detail: int)
    requires
        detail >= 1,
        is_march(samples, detail),
    ensures
        samples.len() <= max_samples(detail),
{
    let n = samples.len() - 1;
    lemma_travel_grows(samples, detail, n);
    let reached = travel_before(samples, n);
    assert(n < 500 * (10_000 * detail)) by (nonlinear_arith)
        requires
            detail >= 1,
            reached < 500 * 1_000_000_000,
            reached * (10_000 * detail) >= n * 1_000_000_000,
    ;
    assert(max_samples(detail) == 500 * (10_000 * detail)) by (nonlinear_arith)
        requires
            max_samples(detail) == (500 * 10_000) * detail,
    ;
}

/// The travel of a march never falls back: a later sample is taken farther
/// along the ray than an earlier one.
pub proof fn lemma_travel_is_monotonic(samples: Seq<i64>, detail: int, i: int, j: int)
    requires
        detail >= 1,
        is_march(samples, detail),
        0 <= i < j < samples.len(),
    ensures
        travel_before(samples, i) < travel_before(samples, j),
    decreases j - i,
{
    lemma_miss_is_progress(samples[j - 1] as int, detail);
    if i < j - 1 {
        lemma_travel_is_monotonic(samples, detail, i, j - 1);
    }
}

/// A hit is reported at a travel short of the cap whose sample is within the
/// threshold; a miss is reported at the cap or beyond it.
pub proof fn lemma_outcome_of_march(samples: Seq<i64>, detail: int)
    requires
        is_march(samples, detail),
    ensures
        outcome(samples, detail).hit <==> within_epsilon(samples.last() as int, detail),
        outcome(samples, detail).hit ==> outcome(samples, detail).travel == travel_before(
            samples,
            samples.len() - 1,
        ) && 0 <= outcome(samples, detail).travel < MAX_DISTANCE,
        !outcome(samples, detail).hit ==> outcome(samples, detail).travel >= MAX_DISTANCE,
{
}

/// A march that meets no sample within the threshold is a miss, and its
/// travel has reached the cap.
pub proof fn lemma_clear_march_misses(samples: Seq<i64>, detail: int)
    requires
        is_march(samples, detail),
        forall|i: int|
            0 <= i < samples.len() ==> !within_epsilon(#[trigger] samples[i] as int, detail),
    ensures
        !outcome(samples, detail).hit,
        outcome(samples, detail).travel >= MAX_DISTANCE,
{
}

/// Two marches through one single-valued field meet the same samples up to
/// the length of the shorter.
proof fn lemma_common_prefix<F: Fn(i64) -> i64>(field: F, a: Seq<i64>, b: Seq<i64>, n: int)
    requires
        single_valued(field),
        sampled_from(field, a),
        sampled_from(field, b),
        0 <= n <= a.len(),
        n <= b.len(),
    ensures
        forall|i: int| 0 <= i < n ==> a[i] == b[i],
    decreases n,
{
    if n > 0 {
        lemma_common_prefix(field, a, b, n - 1);
        lemma_travel_of_prefix(a, b, n - 1);
        let t = travel_before(a, n - 1) as i64;
    }
}

/// A field that is a function of the travel admits one march only, so the
/// result of `trace` on it is determined.
pub proof fn lemma_march_is_unique<F: Fn(i64) -> i64>(
    field: F,
    detail: int,
    a: Seq<i64>,
    b: Seq<i64>,
)
    requires
        single_valued(field),
        is_march(a, detail),
        sampled_from(field, a),
        is_march(b, detail),
        sampled_from(field, b),
    ensures
        a == b,
        outcome(a, detail) == outcome(b, detail),
{
    let n = if a.len() <= b.len() {
        a.len() as int
    } else {
        b.len() as int
    };
    lemma_common_prefix(field, a, b, n);
    lemma_travel_of_prefix(a, b, n - 1);
    assert(a.len() == b.len()) by {
        // The last sample of the shorter march would have to end it and, as
        // an inner sample of the longer one, not end it.
        if a.len() < b.len() {
            assert(travel_before(b, n) < MAX_DISTANCE);
        }
        if b.len() < a.len() {
            assert(travel_before(a, n) < MAX_DISTANCE);
        }
    }
}

} // verus!
