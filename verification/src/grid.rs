//! The sample grid: a time in beats or seconds as a count of samples.
//!
//! Every count is the exact quotient that its formula names, rounded down
//! (or up, for the length of a timeline) once, at the end. Nothing is
//! rounded on the way: the times are summed and weighted in a wide
//! accumulator that holds every bit of them.
//!
//! A time is never negative: a scalar that is negative or no number counts
//! as no time at all. A count that does not fit its type is the largest
//! number that does, and so is the count of an infinite time at any sample
//! rate but zero.

use crate::accumulator::{
    lemma_quotient_in_steps, place_value, quotient, Accumulator, POINT, WORDS,
};
use crate::scalar::{lemma_product_as_real, units_of, zero, Scalar, HIDDEN_BIT};
use crate::timeline_orchestrator::TimelineNote;
use vstd::arithmetic::div_mod::*;
use vstd::arithmetic::mul::*;
use vstd::arithmetic::power2::*;
use vstd::prelude::*;

verus! {

/// Seconds in a minute.
pub const SECONDS_PER_MINUTE: u64 = 60;

/// The time that a scalar stands for, in units of 2^-1074: nothing if the
/// scalar is negative or no number.
pub open spec fn time_units(time: Scalar) -> int {
    if time.is_nan() || time.is_negative() {
        0
    } else {
        units_of(time.magnitude()) as int
    }
}

/// The time that a scalar stands for, as a real number. An infinite time
/// stands as two to the 1024th, which is more than any count can hold.
pub open spec fn time_of(time: Scalar) -> real {
    time_units(time) as real / pow2(1074) as real
}

/// `weighted / 2^1074 / divisor`, rounded down, or up if `round_up`:
/// `weighted` is a sum of times in units of 2^-1074, each times a whole
/// weight.
pub open spec fn samples(weighted: int, divisor: int, round_up: bool) -> int {
    quotient(weighted, pow2(1074) * divisor, round_up)
}

/// `weighted / 2^1074 / divisor` as the real number it is.
pub open spec fn time_in_samples(weighted: int, divisor: int) -> real {
    (weighted as real / pow2(1074) as real) / (divisor as real)
}

/// A count cut to the largest number that its type holds.
pub open spec fn capped(count: int, largest: int) -> int {
    if count <= largest {
        count
    } else {
        largest
    }
}

/// `beats * 60 / bpm * sample_rate`, rounded down: the samples in a number
/// of beats.
pub open spec fn samples_in_beats(beats: Scalar, bpm: u8, sample_rate: u32) -> int {
    samples(time_units(beats) * (SECONDS_PER_MINUTE * sample_rate), bpm as int, false)
}

/// `seconds * sample_rate`, rounded down: the samples in a number of
/// seconds.
pub open spec fn samples_in_seconds(seconds: Scalar, sample_rate: u32) -> int {
    samples(time_units(seconds) * sample_rate, 1, false)
}

/// `(duration + release) * 60 / bpm * sample_rate`, rounded down: the
/// samples that a note of a timeline writes.
pub open spec fn samples_in_span(duration: Scalar, release: Scalar, bpm: u8, sample_rate: u32) -> int {
    samples(
        time_units(duration) * (SECONDS_PER_MINUTE * sample_rate) + time_units(release) * (
        SECONDS_PER_MINUTE * sample_rate),
        bpm as int,
        false,
    )
}

/// `((start_time + duration) * 60 / bpm + release) * sample_rate`, rounded
/// up: the samples up to the end of a note's release, the release taken in
/// seconds.
pub open spec fn samples_to_end(
    start_time: Scalar,
    duration: Scalar,
    release: Scalar,
    bpm: u8,
    sample_rate: u32,
) -> int {
    samples(
        time_units(start_time) * (SECONDS_PER_MINUTE * sample_rate) + time_units(duration) * (
        SECONDS_PER_MINUTE * sample_rate) + time_units(release) * (bpm * sample_rate),
        bpm as int,
        true,
    )
}

/// The latest end among the first `n` notes, and no less than the end of
/// the release alone.
pub open spec fn latest_end(
    notes: Seq<TimelineNote>,
    n: int,
    release: Scalar,
    bpm: u8,
    sample_rate: u32,
) -> int
    decreases n,
{
    if n <= 0 {
        samples(time_units(release) * (bpm * sample_rate), bpm as int, true)
    } else {
        let before = latest_end(notes, n - 1, release, bpm, sample_rate);
        let end = samples_to_end(
            notes[n - 1].start_time,
            notes[n - 1].duration,
            release,
            bpm,
            sample_rate,
        );
        if before < end {
            end
        } else {
            before
        }
    }
}

/// The accumulator holds no more than `count` terms' worth.
spec fn holds_terms(accumulator: Accumulator, count: int) -> bool {
    0 <= accumulator.value() <= count * pow2(2160)
}

/// Adds `time * weight`, in units of 2^-1088.
fn add_time(accumulator: &mut Accumulator, time: Scalar, weight: u64, Ghost(count): Ghost<int>)
    requires
        weight < 0x4000_0000_0000,
        0 <= count < 1000,
        holds_terms(*old(accumulator), count),
    ensures
        final(accumulator).value() == old(accumulator).value() + time_units(time) * weight * pow2(
            14,
        ),
        holds_terms(*final(accumulator), count + 1),
{
    if time.nan() || time.sign() {
        proof {
            lemma_mul_is_commutative(count, pow2(2160) as int);
            lemma_mul_is_commutative(count + 1, pow2(2160) as int);
            lemma_mul_is_distributive_add(pow2(2160) as int, count, 1);
            lemma_mul_basics(weight as int);
            lemma_mul_basics(pow2(14) as int);
        }
        return ;
    }
    let magnitude: u64 = time.abs_bits();
    let exponent: u64 = magnitude / HIDDEN_BIT;
    let fraction: u64 = magnitude % HIDDEN_BIT;
    let significand: u64 = if exponent == 0 {
        fraction
    } else {
        HIDDEN_BIT + fraction
    };
    let power: u64 = if exponent == 0 {
        0
    } else {
        exponent - 1
    };
    assert(significand * weight < 0x8_0000_0000_0000_0000_0000_0000) by (nonlinear_arith)
        requires
            significand < 0x20_0000_0000_0000,
            weight < 0x4000_0000_0000,
    ;
    let term: u128 = significand as u128 * weight as u128;
    let position: usize = (power + 14) as usize;
    proof {
        let units = units_of(magnitude as nat) as int;
        let p = pow2(power as nat) as int;
        assert(units == significand * p) by {
            if exponent == 0 {
                lemma2_to64();
                lemma_mul_basics(significand as int);
            }
        }
        // term * 2^position is units * weight * 2^14
        assert(term * pow2(position as nat) == units * weight * pow2(14)) by {
            lemma_pow2_adds(power as nat, 14);
            lemma_mul_is_associative(term as int, p, pow2(14) as int);
            lemma_mul_is_associative(significand as int, weight as int, p);
            lemma_mul_is_commutative(weight as int, p);
            lemma_mul_is_associative(significand as int, p, weight as int);
        }
        // and it is below 2^2159, so a thousand of them fit
        lemma_term_fits(term as int, position as int, count, accumulator.value());
    }
    accumulator.add_term(term, position);
}

/// A term is below 2^2159, and a thousand terms are below 2^2304.
proof fn lemma_term_fits(term: int, position: int, count: int, value: int)
    requires
        0 <= term < 0x8_0000_0000_0000_0000_0000_0000,
        0 <= position <= 2060,
        0 <= count < 1000,
        0 <= value <= count * pow2(2160),
    ensures
        0 <= term * pow2(position as nat),
        value + term * pow2(position as nat) < place_value(WORDS as int),
        value + term * pow2(position as nat) <= (count + 1) * pow2(2160),
{
    let top = pow2(2060) as int;
    let p = pow2(position as nat) as int;
    lemma_pow2_pos(position as nat);
    if position < 2060 {
        lemma_pow2_strictly_increases(position as nat, 2060);
    }
    lemma_mul_nonnegative(term, p);
    assert(term * p <= 0x8_0000_0000_0000_0000_0000_0000 * top) by {
        lemma_mul_upper_bound(term, 0x8_0000_0000_0000_0000_0000_0000, p, top);
    }
    assert(pow2(99) == 0x8_0000_0000_0000_0000_0000_0000) by {
        lemma2_to64_rest();
        lemma_pow2_adds(64, 35);
    }
    lemma_pow2_adds(99, 2060);
    lemma_pow2_strictly_increases(2159, 2160);
    let unit = pow2(2160) as int;
    assert((count + 1) * unit == count * unit + unit) by {
        lemma_mul_is_distributive_add_other_way(unit, count, 1);
    }
    assert(1000 * unit <= pow2(10) * unit) by {
        lemma2_to64();
    }
    assert((count + 1) * unit <= 1000 * unit) by {
        lemma_mul_inequality(count + 1, 1000, unit);
    }
    lemma_pow2_adds(10, 2160);
    lemma_pow2_strictly_increases(2170, 2304);
}

/// The count that the accumulator holds, read off in units of samples.
fn read(accumulator: &Accumulator, divisor: u64, round_up: bool, Ghost(weighted): Ghost<int>) -> (count:
    u64)
    requires
        divisor > 0,
        weighted >= 0,
        accumulator.value() == weighted * pow2(14),
    ensures
        count == capped(samples(weighted, divisor as int, round_up), u64::MAX as int),
{
    proof {
        lemma_pow2_pos(14);
        lemma_pow2_pos(1074);
        let c = pow2(14) as int;
        let d = pow2(1074) * divisor;
        lemma_mul_strictly_positive(pow2(1074) as int, divisor as int);
        assert(place_value(POINT as int) * divisor == c * d) by {
            lemma_pow2_adds(14, 1074);
            lemma_mul_is_associative(c, pow2(1074) as int, divisor as int);
        }
        // a common factor of dividend and divisor changes no quotient
        lemma_mul_is_commutative(weighted, c);
        lemma_div_multiples_vanish_quotient(c, weighted, d);
        lemma_truncate_middle(weighted, c, d);
        assert((c * weighted) % (c * d) == 0 <==> weighted % d == 0) by {
            lemma_mod_bound(weighted, d);
            if weighted % d != 0 {
                lemma_mul_strictly_positive(c, weighted % d);
            }
        }
    }
    accumulator.quotient(divisor, round_up)
}

/// The samples in a number of beats: `beats * 60 / bpm * sample_rate`,
/// rounded down.
pub fn samples_per_note(beats: Scalar, bpm: u8, sample_rate: u32) -> (count: u32)
    requires
        bpm != 0,
    ensures
        count == capped(samples_in_beats(beats, bpm, sample_rate), u32::MAX as int),
{
    let weight: u64 = SECONDS_PER_MINUTE * sample_rate as u64;
    let mut accumulator = Accumulator::new();
    proof {
        lemma_mul_basics(pow2(2160) as int);
    }
    add_time(&mut accumulator, beats, weight, Ghost(0));
    proof {
        lemma_weighted_not_negative(beats, weight as int);
    }
    let count = read(&accumulator, bpm as u64, false, Ghost(time_units(beats) * weight));
    if count > u32::MAX as u64 {
        u32::MAX
    } else {
        count as u32
    }
}

/// The samples in a number of seconds: `seconds * sample_rate`, rounded
/// down.
pub fn envelope_samples(seconds: Scalar, sample_rate: u32) -> (count: u32)
    ensures
        count == capped(samples_in_seconds(seconds, sample_rate), u32::MAX as int),
{
    let mut accumulator = Accumulator::new();
    proof {
        lemma_mul_basics(pow2(2160) as int);
    }
    add_time(&mut accumulator, seconds, sample_rate as u64, Ghost(0));
    proof {
        lemma_weighted_not_negative(seconds, sample_rate as int);
    }
    let count = read(&accumulator, 1, false, Ghost(time_units(seconds) * sample_rate));
    if count > u32::MAX as u64 {
        u32::MAX
    } else {
        count as u32
    }
}

/// The slot at which a note starts: `start_time * 60 / bpm * sample_rate`,
/// rounded down.
pub fn note_start(start_time: Scalar, bpm: u8, sample_rate: u32) -> (slot: usize)
    requires
        bpm != 0,
    ensures
        slot == capped(samples_in_beats(start_time, bpm, sample_rate), usize::MAX as int),
{
    let weight: u64 = SECONDS_PER_MINUTE * sample_rate as u64;
    let mut accumulator = Accumulator::new();
    proof {
        lemma_mul_basics(pow2(2160) as int);
    }
    add_time(&mut accumulator, start_time, weight, Ghost(0));
    proof {
        lemma_weighted_not_negative(start_time, weight as int);
    }
    let count = read(&accumulator, bpm as u64, false, Ghost(time_units(start_time) * weight));
    if count > usize::MAX as u64 {
        usize::MAX
    } else {
        count as usize
    }
}

/// The samples that a note of a timeline writes: `(duration + release) * 60
/// / bpm * sample_rate`, rounded down.
pub fn note_span(duration: Scalar, release: Scalar, bpm: u8, sample_rate: u32) -> (count: u32)
    requires
        bpm != 0,
    ensures
        count == capped(samples_in_span(duration, release, bpm, sample_rate), u32::MAX as int),
{
    let weight: u64 = SECONDS_PER_MINUTE * sample_rate as u64;
    let mut accumulator = Accumulator::new();
    proof {
        lemma_mul_basics(pow2(2160) as int);
    }
    add_time(&mut accumulator, duration, weight, Ghost(0));
    add_time(&mut accumulator, release, weight, Ghost(1));
    let ghost weighted = time_units(duration) * weight + time_units(release) * weight;
    proof {
        lemma_weighted_not_negative(duration, weight as int);
        lemma_weighted_not_negative(release, weight as int);
        lemma_mul_is_distributive_add_other_way(
            pow2(14) as int,
            time_units(duration) * weight,
            time_units(release) * weight,
        );
    }
    let count = read(&accumulator, bpm as u64, false, Ghost(weighted));
    if count > u32::MAX as u64 {
        u32::MAX
    } else {
        count as u32
    }
}

/// The samples up to the end of one note's release.
fn note_end(start_time: Scalar, duration: Scalar, release: Scalar, bpm: u8, sample_rate: u32) -> (count:
    u64)
    requires
        bpm != 0,
    ensures
        count == capped(
            samples_to_end(start_time, duration, release, bpm, sample_rate),
            u64::MAX as int,
        ),
{
    let weight: u64 = SECONDS_PER_MINUTE * sample_rate as u64;
    assert(bpm * sample_rate < 0x100_0000_0000) by (nonlinear_arith)
        requires
            bpm <= 0xFF,
            sample_rate <= 0xFFFF_FFFF,
    ;
    let in_seconds: u64 = bpm as u64 * sample_rate as u64;
    let mut accumulator = Accumulator::new();
    proof {
        lemma_mul_basics(pow2(2160) as int);
    }
    add_time(&mut accumulator, start_time, weight, Ghost(0));
    add_time(&mut accumulator, duration, weight, Ghost(1));
    add_time(&mut accumulator, release, in_seconds, Ghost(2));
    let ghost weighted = time_units(start_time) * weight + time_units(duration) * weight
        + time_units(release) * in_seconds;
    proof {
        lemma_weighted_not_negative(start_time, weight as int);
        lemma_weighted_not_negative(duration, weight as int);
        lemma_weighted_not_negative(release, in_seconds as int);
        lemma_mul_is_distributive_add_other_way(
            pow2(14) as int,
            time_units(start_time) * weight,
            time_units(duration) * weight,
        );
        lemma_mul_is_distributive_add_other_way(
            pow2(14) as int,
            time_units(start_time) * weight + time_units(duration) * weight,
            time_units(release) * in_seconds,
        );
    }
    read(&accumulator, bpm as u64, true, Ghost(weighted))
}

/// The slots of a timeline: `((start_time + duration) * 60 / bpm + release)
/// * sample_rate`, rounded up, for the note for which that is most; and no
/// less than `release * sample_rate`, rounded up.
pub fn timeline_samples(notes: &[TimelineNote], release: Scalar, bpm: u8, sample_rate: u32) -> (total:
    usize)
    requires
        bpm != 0,
    ensures
        total == capped(
            latest_end(notes@, notes@.len() as int, release, bpm, sample_rate),
            usize::MAX as int,
        ),
{
    let mut latest: u64 = note_end(Scalar::zero(), Scalar::zero(), release, bpm, sample_rate);
    proof {
        assert(time_units(zero()) == 0);
        lemma_mul_basics((SECONDS_PER_MINUTE * sample_rate) as int);
    }
    let mut k: usize = 0;
    while k < notes.len()
        invariant
            k <= notes.len(),
            bpm != 0,
            latest == capped(
                latest_end(notes@, k as int, release, bpm, sample_rate),
                u64::MAX as int,
            ),
        decreases notes.len() - k,
    {
        let note = notes[k];
        let end = note_end(note.start_time, note.duration, release, bpm, sample_rate);
        if latest < end {
            latest = end;
        }
        k += 1;
    }
    if latest > usize::MAX as u64 {
        usize::MAX
    } else {
        latest as usize
    }
}

/// A time times a weight is not negative.
proof fn lemma_weighted_not_negative(time: Scalar, weight: int)
    requires
        weight >= 0,
    ensures
        time_units(time) * weight >= 0,
{
    lemma_mul_nonnegative(time_units(time), weight);
}

/// A count that is rounded down is the whole number of samples in the
/// time: with `time = weighted / 2^1074`, it is the `count` with `count <=
/// time / divisor < count + 1`.
pub proof fn lemma_rounded_down(weighted: int, divisor: int)
    requires
        weighted >= 0,
        divisor > 0,
    ensures
        samples(weighted, divisor, false) as real <= time_in_samples(weighted, divisor),
        time_in_samples(weighted, divisor) < samples(weighted, divisor, false) as real + 1real,
{
    lemma_pow2_pos(1074);
    let unit = pow2(1074) as int;
    lemma_quotient_in_steps(weighted, unit, divisor, false);
    let whole = weighted / unit;
    let count = whole / divisor;
    lemma_fundamental_div_mod(weighted, unit);
    lemma_mod_bound(weighted, unit);
    lemma_fundamental_div_mod(whole, divisor);
    lemma_mod_bound(whole, divisor);
    // divisor * count <= whole < divisor * (count + 1), and
    // unit * whole <= weighted < unit * (whole + 1)
    let w = weighted as real;
    let u = unit as real;
    let d = divisor as real;
    let c = count as real;
    let h = whole as real;
    lemma_product_as_real(unit, whole);
    lemma_product_as_real(divisor, count);
    assert(u * h <= w < u * h + u);
    assert(d * c <= h);
    assert(h + 1real <= d * c + d);
    assert(h <= w / u < h + 1real) by (nonlinear_arith)
        requires
            u > 0real,
            u * h <= w < u * h + u,
    ;
    let t = w / u;
    assert(c <= t / d < c + 1real) by (nonlinear_arith)
        requires
            d > 0real,
            d * c <= t,
            t < d * c + d,
    ;
}

/// A count that is rounded up is the least whole number of samples that
/// holds the time: with `time = weighted / 2^1074`, it is the `count` with
/// `count - 1 < time / divisor <= count`.
pub proof fn lemma_rounded_up(weighted: int, divisor: int)
    requires
        weighted >= 0,
        divisor > 0,
    ensures
        samples(weighted, divisor, true) as real - 1real < time_in_samples(weighted, divisor),
        time_in_samples(weighted, divisor) <= samples(weighted, divisor, true) as real,
{
    lemma_pow2_pos(1074);
    let unit = pow2(1074) as int;
    let whole = unit * divisor;
    lemma_mul_strictly_positive(unit, divisor);
    lemma_fundamental_div_mod(weighted, whole);
    lemma_mod_bound(weighted, whole);
    let count = samples(weighted, divisor, true);
    let floor = weighted / whole;
    let rest = weighted % whole;
    // whole * (count - 1) < weighted <= whole * count
    assert(whole * (count - 1) < weighted <= whole * count) by {
        if rest == 0 {
            lemma_mul_is_distributive_sub(whole, floor, 1);
        } else {
            lemma_mul_is_distributive_add(whole, floor, 1);
        }
    }
    let w = weighted as real;
    let u = unit as real;
    let d = divisor as real;
    let c = count as real;
    lemma_product_as_real(unit, divisor);
    let a = whole as real;
    lemma_product_as_real(whole, count - 1);
    lemma_product_as_real(whole, count);
    assert(a * (c - 1real) < w <= a * c);
    let t = w / u;
    assert(d * (c - 1real) < t <= d * c) by (nonlinear_arith)
        requires
            u > 0real,
            t == w / u,
            (u * d) * (c - 1real) < w,
            w <= (u * d) * c,
    ;
    assert(c - 1real < t / d <= c) by (nonlinear_arith)
        requires
            d > 0real,
            d * (c - 1real) < t,
            t <= d * c,
    ;
}

/// A time that is weighted among the whole numbers is the time times the
/// weight.
proof fn lemma_weighted_time(time: Scalar, weight: int)
    ensures
        (time_units(time) * weight) as real / pow2(1074) as real == time_of(time) * weight as real,
{
    lemma_pow2_pos(1074);
    lemma_product_as_real(time_units(time), weight);
    let t = time_units(time) as real;
    let w = weight as real;
    let u = pow2(1074) as real;
    assert((t * w) / u == (t / u) * w) by (nonlinear_arith)
        requires
            u > 0real,
    ;
}

/// The samples in a number of beats are the whole samples in `beats * 60 /
/// bpm * sample_rate`.
pub proof fn lemma_samples_in_beats(beats: Scalar, bpm: u8, sample_rate: u32)
    requires
        bpm != 0,
    ensures
        samples_in_beats(beats, bpm, sample_rate) as real <= time_of(beats) * 60real / (
        bpm as real) * (sample_rate as real),
        time_of(beats) * 60real / (bpm as real) * (sample_rate as real) < samples_in_beats(
            beats,
            bpm,
            sample_rate,
        ) as real + 1real,
{
    let weight = SECONDS_PER_MINUTE * sample_rate;
    lemma_weighted_not_negative(beats, weight);
    lemma_rounded_down(time_units(beats) * weight, bpm as int);
    lemma_weighted_time(beats, weight);
    let t = time_of(beats);
    let r = sample_rate as real;
    let d = bpm as real;
    assert(weight as real == 60real * r);
    assert((t * (60real * r)) / d == t * 60real / d * r) by (nonlinear_arith)
        requires
            d > 0real,
    ;
}

/// The samples in a number of seconds are the whole samples in `seconds *
/// sample_rate`.
pub proof fn lemma_samples_in_seconds(seconds: Scalar, sample_rate: u32)
    ensures
        samples_in_seconds(seconds, sample_rate) as real <= time_of(seconds) * (
        sample_rate as real),
        time_of(seconds) * (sample_rate as real) < samples_in_seconds(seconds, sample_rate) as real
            + 1real,
{
    lemma_weighted_not_negative(seconds, sample_rate as int);
    lemma_rounded_down(time_units(seconds) * sample_rate, 1);
    lemma_weighted_time(seconds, sample_rate as int);
    let x = time_of(seconds) * (sample_rate as real);
    assert(x / 1real == x) by (nonlinear_arith);
}

/// The samples that a note of a timeline writes are the whole samples in
/// `(duration + release) * 60 / bpm * sample_rate`.
pub proof fn lemma_samples_in_span(duration: Scalar, release: Scalar, bpm: u8, sample_rate: u32)
    requires
        bpm != 0,
    ensures
        samples_in_span(duration, release, bpm, sample_rate) as real <= (time_of(duration)
            + time_of(release)) * 60real / (bpm as real) * (sample_rate as real),
        (time_of(duration) + time_of(release)) * 60real / (bpm as real) * (sample_rate as real)
            < samples_in_span(duration, release, bpm, sample_rate) as real + 1real,
{
    let weight = SECONDS_PER_MINUTE * sample_rate;
    let first = time_units(duration) * weight;
    let second = time_units(release) * weight;
    lemma_weighted_not_negative(duration, weight);
    lemma_weighted_not_negative(release, weight);
    lemma_rounded_down(first + second, bpm as int);
    lemma_weighted_time(duration, weight);
    lemma_weighted_time(release, weight);
    lemma_pow2_pos(1074);
    let u = pow2(1074) as real;
    let a = first as real;
    let b = second as real;
    assert((first + second) as real == a + b);
    assert((a + b) / u == a / u + b / u) by (nonlinear_arith)
        requires
            u > 0real,
    ;
    let t = time_of(duration);
    let v = time_of(release);
    let r = sample_rate as real;
    let d = bpm as real;
    assert(weight as real == 60real * r);
    assert((t * (60real * r) + v * (60real * r)) / d == (t + v) * 60real / d * r)
        by (nonlinear_arith)
        requires
            d > 0real,
    ;
}

/// The samples up to the end of a note's release are the least whole
/// number of samples that holds `((start_time + duration) * 60 / bpm +
/// release) * sample_rate`.
pub proof fn lemma_samples_to_end(
    start_time: Scalar,
    duration: Scalar,
    release: Scalar,
    bpm: u8,
    sample_rate: u32,
)
    requires
        bpm != 0,
    ensures
        samples_to_end(start_time, duration, release, bpm, sample_rate) as real - 1real < ((
        time_of(start_time) + time_of(duration)) * 60real / (bpm as real) + time_of(release)) * (
        sample_rate as real),
        ((time_of(start_time) + time_of(duration)) * 60real / (bpm as real) + time_of(release))
            * (sample_rate as real) <= samples_to_end(
            start_time,
            duration,
            release,
            bpm,
            sample_rate,
        ) as real,
{
    let weight = SECONDS_PER_MINUTE * sample_rate;
    let in_seconds = bpm * sample_rate;
    let first = time_units(start_time) * weight;
    let second = time_units(duration) * weight;
    let third = time_units(release) * in_seconds;
    lemma_weighted_not_negative(start_time, weight);
    lemma_weighted_not_negative(duration, weight);
    lemma_weighted_not_negative(release, in_seconds);
    lemma_rounded_up(first + second + third, bpm as int);
    lemma_weighted_time(start_time, weight);
    lemma_weighted_time(duration, weight);
    lemma_weighted_time(release, in_seconds);
    lemma_pow2_pos(1074);
    let u = pow2(1074) as real;
    let a = first as real;
    let b = second as real;
    let c = third as real;
    assert((first + second + third) as real == a + b + c);
    assert((a + b + c) / u == a / u + b / u + c / u) by (nonlinear_arith)
        requires
            u > 0real,
    ;
    let s = time_of(start_time);
    let t = time_of(duration);
    let v = time_of(release);
    let r = sample_rate as real;
    let d = bpm as real;
    assert(weight as real == 60real * r);
    lemma_product_as_real(bpm as int, sample_rate as int);
    assert(in_seconds as real == d * r);
    assert((s * (60real * r) + t * (60real * r) + v * (d * r)) / d == ((s + t) * 60real / d + v)
        * r) by (nonlinear_arith)
        requires
            d > 0real,
    ;
}

} // verus!
