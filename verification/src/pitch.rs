//! The pitch model: twelve-tone equal temperament around A4 = 440 Hz.

use crate::errors::OrchestratorError;
use vstd::arithmetic::power2::{
    lemma2_to64, lemma_pow2_adds, lemma_pow2_pos, lemma_pow2_strictly_increases, pow2,
};
use vstd::prelude::*;

verus! {

/// Chromatic id of A, the reference pitch class.
pub const REFERENCE_ID: u8 = 9;

/// Octave of the reference pitch.
pub const REFERENCE_OCTAVE: u8 = 4;

/// Largest chromatic id.
pub const MAX_NOTE_ID: u8 = 11;

/// A frequency of the tempered scale, held exactly: `steps` semitones above
/// A4, that is 440 * 2^(steps / 12) Hz. Zero steps is 440 Hz itself, and
/// twelve steps double the frequency. [`Frequency::is_hertz`] says which
/// real number a frequency is.
#[derive(Clone, Copy, Debug, PartialEq, Eq, Structural)]
pub struct Frequency {
    pub steps: i16,
}

/// `x` to the twelfth power.
pub open spec fn twelfth_power(x: real) -> real {
    let square = x * x;
    let fourth = square * square;
    fourth * fourth * fourth
}

/// Two to the power `k`, for any whole `k`.
pub open spec fn two_to(k: int) -> real {
    if k >= 0 {
        pow2(k as nat) as real
    } else {
        1real / pow2((-k) as nat) as real
    }
}

impl Frequency {
    /// `hertz` is this frequency in hertz: the positive number whose ratio
    /// to 440 gives, twelve times multiplied with itself, two to the power
    /// `steps`.
    pub open spec fn is_hertz(self, hertz: real) -> bool {
        hertz > 0real && twelfth_power(hertz / 440real) == two_to(self.steps as int)
    }
}

/// Semitones from A4 up to the pitch with this chromatic id and octave.
pub open spec fn semitones_from_a4(id: int, octave: int) -> int {
    (id - REFERENCE_ID) + 12 * (octave - REFERENCE_OCTAVE)
}

/// The frequency of a pitch with a valid chromatic id.
pub open spec fn pitch_of(id: u8, octave: u8) -> Frequency {
    Frequency { steps: semitones_from_a4(id as int, octave as int) as i16 }
}

/// The frequency of a pitch, or `InvalidNoteId` for a chromatic id above 11.
pub fn frequency_of(id: u8, octave: u8) -> (result: Result<Frequency, OrchestratorError>)
    ensures
        id <= MAX_NOTE_ID ==> result == Ok::<Frequency, OrchestratorError>(pitch_of(id, octave)),
        id <= MAX_NOTE_ID ==> pitch_of(id, octave).steps == semitones_from_a4(id as int, octave as int),
        id > MAX_NOTE_ID ==> result == Err::<Frequency, OrchestratorError>(
            OrchestratorError::InvalidNoteId(id),
        ),
{
    if id > MAX_NOTE_ID {
        return Err(OrchestratorError::InvalidNoteId(id));
    }
    let steps: i16 = (id as i16 - REFERENCE_ID as i16) + 12 * (octave as i16 - REFERENCE_OCTAVE as i16);
    Ok(Frequency { steps })
}

/// A in octave 4 lies no step from the reference: it is 440 Hz exactly.
pub proof fn lemma_concert_pitch()
    ensures
        semitones_from_a4(9, 4) == 0,
        pitch_of(9, 4) == (Frequency { steps: 0 }),
        pitch_of(9, 4).is_hertz(440real),
{
    lemma2_to64();
    assert(440real / 440real == 1real) by (nonlinear_arith);
    let square = 1real * 1real;
    assert(square == 1real);
    assert(twelfth_power(1real) == 1real);
}

/// Octave equivalence: twelve chromatic ids further is the same pitch as
/// one octave higher.
pub proof fn lemma_octave_equivalence(id: int, octave: int)
    ensures
        semitones_from_a4(id + 12, octave) == semitones_from_a4(id, octave + 1),
{
}

/// Twelve steps up is twice the frequency.
pub proof fn lemma_octave_doubles(frequency: Frequency, hertz: real)
    requires
        frequency.is_hertz(hertz),
        frequency.steps + 12 <= i16::MAX,
    ensures
        (Frequency { steps: (frequency.steps + 12) as i16 }).is_hertz(2real * hertz),
{
    let x = hertz / 440real;
    let y = (2real * hertz) / 440real;
    assert(y == 2real * x) by (nonlinear_arith)
        requires
            x == hertz / 440real,
            y == (2real * hertz) / 440real,
    ;
    let x2 = x * x;
    let y2 = y * y;
    assert(y2 == 4real * x2) by (nonlinear_arith)
        requires
            y == 2real * x,
            x2 == x * x,
            y2 == y * y,
    ;
    let x4 = x2 * x2;
    let y4 = y2 * y2;
    assert(y4 == 16real * x4) by (nonlinear_arith)
        requires
            y2 == 4real * x2,
            x4 == x2 * x2,
            y4 == y2 * y2,
    ;
    let x8 = x4 * x4;
    let y8 = y4 * y4;
    assert(y8 == 256real * x8) by (nonlinear_arith)
        requires
            y4 == 16real * x4,
            x8 == x4 * x4,
            y8 == y4 * y4,
    ;
    let x12 = x8 * x4;
    let y12 = y8 * y4;
    assert(y12 == 4096real * x12) by (nonlinear_arith)
        requires
            y8 == 256real * x8,
            y4 == 16real * x4,
            x12 == x8 * x4,
            y12 == y8 * y4,
    ;
    assert(twelfth_power(x) == x12);
    assert(twelfth_power(y) == y12);
    lemma_two_to_adds_twelve(frequency.steps as int);
}

/// Among positive numbers a larger one has a larger twelfth power.
proof fn lemma_twelfth_power_increases(x: real, y: real)
    requires
        0real < x < y,
    ensures
        twelfth_power(x) < twelfth_power(y),
{
    let x2 = x * x;
    let y2 = y * y;
    assert(0real < x2 < y2) by (nonlinear_arith)
        requires
            0real < x < y,
            x2 == x * x,
            y2 == y * y,
    ;
    let x4 = x2 * x2;
    let y4 = y2 * y2;
    assert(0real < x4 < y4) by (nonlinear_arith)
        requires
            0real < x2 < y2,
            x4 == x2 * x2,
            y4 == y2 * y2,
    ;
    let x8 = x4 * x4;
    let y8 = y4 * y4;
    assert(0real < x8 < y8) by (nonlinear_arith)
        requires
            0real < x4 < y4,
            x8 == x4 * x4,
            y8 == y4 * y4,
    ;
    assert(x8 * x4 < y8 * y4) by (nonlinear_arith)
        requires
            0real < x4 < y4,
            0real < x8 < y8,
    ;
}

/// A frequency of the scale is one number of hertz and no other.
pub proof fn lemma_hertz_is_unique(frequency: Frequency, hertz: real, other: real)
    requires
        frequency.is_hertz(hertz),
        frequency.is_hertz(other),
    ensures
        hertz == other,
{
    let x = hertz / 440real;
    let y = other / 440real;
    assert(x > 0real && y > 0real);
    if hertz < other {
        assert(x < y);
        lemma_twelfth_power_increases(x, y);
    } else if other < hertz {
        assert(y < x);
        lemma_twelfth_power_increases(y, x);
    }
}

/// Two to a higher power is more, and no power of two is zero or less.
proof fn lemma_two_to_increases(lower: int, higher: int)
    requires
        lower < higher,
    ensures
        0real < two_to(lower) < two_to(higher),
{
    lemma2_to64();
    if lower >= 0 {
        lemma_pow2_pos(lower as nat);
        lemma_pow2_strictly_increases(lower as nat, higher as nat);
    } else {
        let p = pow2((-lower) as nat) as real;
        lemma_pow2_pos((-lower) as nat);
        assert(0real < 1real / p) by (nonlinear_arith)
            requires
                p > 0real,
        ;
        if higher >= 0 {
            lemma_pow2_pos(higher as nat);
            if -lower > 1 {
                lemma_pow2_strictly_increases(1, (-lower) as nat);
            }
            assert(1real / p < 1real) by (nonlinear_arith)
                requires
                    p >= 2real,
            ;
        } else {
            let q = pow2((-higher) as nat) as real;
            lemma_pow2_pos((-higher) as nat);
            lemma_pow2_strictly_increases((-higher) as nat, (-lower) as nat);
            assert(1real / p < 1real / q) by (nonlinear_arith)
                requires
                    0real < q < p,
            ;
        }
    }
}

/// More steps are more hertz: of two frequencies of the scale the one with
/// the higher count of steps is the higher number of hertz.
pub proof fn lemma_more_steps_are_more_hertz(
    lower: Frequency,
    higher: Frequency,
    hertz: real,
    more: real,
)
    requires
        lower.is_hertz(hertz),
        higher.is_hertz(more),
        lower.steps < higher.steps,
    ensures
        hertz < more,
{
    lemma_two_to_increases(lower.steps as int, higher.steps as int);
    let x = hertz / 440real;
    let y = more / 440real;
    assert(x > 0real && y > 0real);
    if more < hertz {
        assert(y < x);
        lemma_twelfth_power_increases(y, x);
    }
}

/// Two to the power `k + 12` is 4096 times two to the power `k`.
proof fn lemma_two_to_adds_twelve(k: int)
    ensures
        two_to(k + 12) == 4096real * two_to(k),
{
    lemma2_to64();
    if k >= 0 {
        lemma_pow2_adds(k as nat, 12);
        let p = pow2(k as nat) as int;
        assert((p * 4096) as real == 4096real * p as real);
    } else if k + 12 >= 0 {
        let up = pow2((k + 12) as nat) as int;
        let down = pow2((-k) as nat) as int;
        lemma_pow2_adds((k + 12) as nat, (-k) as nat);
        lemma_pow2_pos((-k) as nat);
        assert(up * down == 4096);
        assert((up * down) as real == up as real * down as real) by (nonlinear_arith);
        let u = up as real;
        let d = down as real;
        assert(u == 4096real * (1real / d)) by (nonlinear_arith)
            requires
                u * d == 4096real,
                d > 0real,
        ;
    } else {
        let near = pow2((-(k + 12)) as nat) as int;
        let far = pow2((-k) as nat) as int;
        lemma_pow2_adds((-(k + 12)) as nat, 12);
        lemma_pow2_pos((-(k + 12)) as nat);
        assert(far == near * 4096);
        let n = near as real;
        let f = far as real;
        assert(f == n * 4096real);
        assert(1real / n == 4096real * (1real / f)) by (nonlinear_arith)
            requires
                f == n * 4096real,
                n > 0real,
        ;
    }
}

} // verus!
