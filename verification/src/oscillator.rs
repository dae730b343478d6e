//! The waveform generators and the step from a real sample to 16-bit PCM.

use crate::errors::OrchestratorError;
use crate::kernel::Kernel;
use crate::pitch::Frequency;
use crate::scalar::{
    lemma_landmarks, lemma_product_as_real, lemma_units_order, one, units_of, Scalar,
    HIDDEN_BIT, ONE_BITS,
};
use crate::validation::{control_points_verdict, valid_control_points, validate_control_points};
use vstd::arithmetic::div_mod::*;
use vstd::arithmetic::mul::*;
use vstd::arithmetic::power2::*;
use vstd::bits::lemma_u128_shr_is_div;
use vstd::prelude::*;

verus! {

/// The largest PCM value, 2^15 - 1. Full scale is symmetric: -32768 is never
/// produced.
pub const PCM_BIT_RANGE: u32 = 32767;

/// A magnitude clamped to 1 and scaled to full scale, the fraction dropped.
/// In units of 2^-1074 the clamp is a minimum, and the scaling a
/// whole-number division by 2^1074.
pub open spec fn scaled_units(magnitude: nat) -> int {
    let units = units_of(magnitude) as int;
    let full = pow2(1074) as int;
    let clamped = if units < full {
        units
    } else {
        full
    };
    (clamped * PCM_BIT_RANGE) / full
}

/// The PCM value of a sample: the sample clamped to [-1, 1], times 32767,
/// cut towards zero. A NaN gives 0.
pub open spec fn pcm_of(sample: Scalar) -> int {
    if sample.is_nan() {
        0
    } else if sample.is_negative() {
        -scaled_units(sample.magnitude())
    } else {
        scaled_units(sample.magnitude())
    }
}

/// Converts a sample to PCM. The product with 32767 is formed exactly and
/// only then cut, so nothing is rounded on the way.
pub fn quantize(sample: Scalar) -> (pcm: i16)
    ensures
        pcm == pcm_of(sample),
        -(PCM_BIT_RANGE as int) <= pcm <= PCM_BIT_RANGE,
{
    if sample.nan() {
        return 0;
    }
    let magnitude: u64 = sample.abs_bits();
    let scaled: u16 = scale_magnitude(magnitude);
    if sample.sign() {
        -(scaled as i16)
    } else {
        scaled as i16
    }
}

/// A magnitude clamped to 1 and scaled to full scale, from the bits.
fn scale_magnitude(magnitude: u64) -> (scaled: u16)
    ensures
        scaled == scaled_units(magnitude as nat),
        scaled <= PCM_BIT_RANGE,
{
    proof {
        lemma_landmarks();
        lemma_units_order(magnitude as nat, ONE_BITS as nat);
        lemma_units_order(ONE_BITS as nat, magnitude as nat);
        lemma_pow2_pos(1074);
        assert(one().magnitude() == ONE_BITS as nat);
        assert(units_of(ONE_BITS as nat) == pow2(1074));
    }
    if magnitude >= ONE_BITS {
        proof {
            lemma_div_multiples_vanish(PCM_BIT_RANGE as int, pow2(1074) as int);
            lemma_mul_is_commutative(PCM_BIT_RANGE as int, pow2(1074) as int);
        }
        return 32767;
    }
    let exponent: u64 = magnitude / HIDDEN_BIT;
    let fraction: u64 = magnitude % HIDDEN_BIT;
    let significand: u64 = if exponent == 0 {
        fraction
    } else {
        HIDDEN_BIT + fraction
    };
    let power: u64 = if exponent == 0 {
        0
    } else {
        exponent - 1
    };
    let shift: u64 = 1074 - power;
    let product: u128 = significand as u128 * 32767;
    proof {
        // the magnitude stands for significand * 2^power units
        lemma2_to64();
        lemma2_to64_rest();
        assert(units_of(magnitude as nat) == significand * pow2(power as nat)) by {
            if exponent == 0 {
                lemma_mul_basics(significand as int);
            }
        }
        // and 2^1074 is 2^shift * 2^power, so 2^power cancels
        lemma_pow2_adds(shift as nat, power as nat);
        lemma_pow2_pos(shift as nat);
        lemma_pow2_pos(power as nat);
        let p = pow2(power as nat) as int;
        let d = pow2(shift as nat) as int;
        assert(units_of(magnitude as nat) * PCM_BIT_RANGE == p * product) by {
            lemma_mul_is_associative(significand as int, p, PCM_BIT_RANGE as int);
            lemma_mul_is_commutative(p, PCM_BIT_RANGE as int);
            lemma_mul_is_associative(significand as int, PCM_BIT_RANGE as int, p);
            lemma_mul_is_commutative(product as int, p);
        }
        assert(pow2(1074) == p * d) by {
            lemma_mul_is_commutative(p, d);
        }
        lemma_div_multiples_vanish_quotient(p, product as int, d);
        assert(scaled_units(magnitude as nat) == product as int / d);
        // the significand is below 2^53, and 2^shift is at least that
        assert(significand < pow2(53));
        assert(pow2(53) <= d) by {
            if shift > 53 {
                lemma_pow2_strictly_increases(53, shift as nat);
            }
        }
        assert(product < PCM_BIT_RANGE * d) by {
            lemma_mul_strict_inequality(significand as int, d, PCM_BIT_RANGE as int);
            lemma_mul_is_commutative(significand as int, PCM_BIT_RANGE as int);
            lemma_mul_is_commutative(d, PCM_BIT_RANGE as int);
        }
        lemma_multiply_divide_lt(product as int, d, PCM_BIT_RANGE as int);
        assert(product as int / d < PCM_BIT_RANGE);
    }
    if shift >= 68 {
        proof {
            let d = pow2(shift as nat) as int;
            assert(pow2(68) == 0x10_0000_0000_0000_0000) by {
                lemma_pow2_adds(64, 4);
            }
            assert(pow2(68) <= d) by {
                if shift > 68 {
                    lemma_pow2_strictly_increases(68, shift as nat);
                }
            }
            assert(product < pow2(68));
            lemma_basic_div(product as int, d);
        }
        return 0;
    }
    proof {
        lemma_u128_shr_is_div(product, shift as u128);
    }
    (product >> (shift as u128)) as u16
}

/// No sample is louder than full scale, whatever the generator returned.
pub proof fn lemma_pcm_in_range(sample: Scalar)
    ensures
        -(PCM_BIT_RANGE as int) <= pcm_of(sample) <= PCM_BIT_RANGE,
{
    lemma_pow2_pos(1074);
    let p = pow2(1074) as int;
    let units = units_of(sample.magnitude()) as int;
    let clamped = if units < p {
        units
    } else {
        p
    };
    assert(clamped * PCM_BIT_RANGE <= PCM_BIT_RANGE * p) by {
        lemma_mul_inequality(clamped, p, PCM_BIT_RANGE as int);
        lemma_mul_is_commutative(p, PCM_BIT_RANGE as int);
    }
    assert((clamped * PCM_BIT_RANGE) / p <= PCM_BIT_RANGE) by {
        lemma_div_is_ordered(clamped * PCM_BIT_RANGE, PCM_BIT_RANGE * p, p);
        lemma_div_multiples_vanish(PCM_BIT_RANGE as int, p);
    }
    assert(0 <= (clamped * PCM_BIT_RANGE) / p) by {
        lemma_mul_nonnegative(clamped, PCM_BIT_RANGE as int);
        lemma_div_pos_is_pos(clamped * PCM_BIT_RANGE, p);
    }
}

/// For a number `x` from 0 to 1 the PCM value is `x * 32767` with its
/// fraction dropped: the whole number `q` with `q <= x * 32767 < q + 1`.
pub proof fn lemma_pcm_cuts_the_fraction(sample: Scalar)
    requires
        !sample.is_nan(),
        !sample.is_negative(),
        units_of(sample.magnitude()) <= pow2(1074),
    ensures
        0real <= sample.value() <= 1real,
        pcm_of(sample) as real <= sample.value() * 32767real < pcm_of(sample) as real + 1real,
{
    lemma_pow2_pos(1074);
    let full = pow2(1074) as int;
    let units = units_of(sample.magnitude()) as int;
    let q = pcm_of(sample);
    assert(q == (units * 32767) / full);
    lemma_fundamental_div_mod(units * 32767, full);
    lemma_mod_bound(units * 32767, full);
    assert(units * 32767 == full * q + (units * 32767) % full);
    lemma_product_as_real(full, q);
    let f = full as real;
    let u = units as real;
    let qr = q as real;
    assert(f * qr <= u * 32767real < f * qr + f);
    assert(sample.value() == u / f);
    assert(0real <= u / f <= 1real) by (nonlinear_arith)
        requires
            f > 0real,
            0real <= u <= f,
    ;
    assert(qr <= (u / f) * 32767real) by (nonlinear_arith)
        requires
            f > 0real,
            f * qr <= u * 32767real,
    ;
    assert((u / f) * 32767real < qr + 1real) by (nonlinear_arith)
        requires
            f > 0real,
            u * 32767real < f * qr + f,
    ;
}

/// The quantiser is odd: a number and its negative give PCM values that
/// differ in sign only.
pub proof fn lemma_pcm_of_negative(sample: Scalar, mirrored: Scalar)
    requires
        !sample.is_nan(),
        sample.magnitude() == mirrored.magnitude(),
        sample.is_negative() != mirrored.is_negative(),
    ensures
        pcm_of(mirrored) == -pcm_of(sample),
        mirrored.value() == -sample.value(),
{
    lemma_pow2_pos(1074);
    let f = pow2(1074) as real;
    let u = units_of(sample.magnitude()) as int as real;
    assert((-u) / f == -(u / f)) by (nonlinear_arith)
        requires
            f > 0real,
    ;
}

/// A number of magnitude 1 or more, an infinity among them, is clamped:
/// it gives full scale with its own sign.
pub proof fn lemma_pcm_clamps(sample: Scalar)
    requires
        !sample.is_nan(),
        sample.magnitude() >= ONE_BITS,
    ensures
        pcm_of(sample) == if sample.is_negative() {
            -(PCM_BIT_RANGE as int)
        } else {
            PCM_BIT_RANGE as int
        },
{
    lemma_landmarks();
    lemma_units_order(ONE_BITS as nat, sample.magnitude());
    lemma_units_order(sample.magnitude(), ONE_BITS as nat);
    lemma_pow2_pos(1074);
    assert(one().magnitude() == ONE_BITS as nat);
    lemma_div_multiples_vanish(PCM_BIT_RANGE as int, pow2(1074) as int);
    lemma_mul_is_commutative(PCM_BIT_RANGE as int, pow2(1074) as int);
}

/// A sine generator at one pitch and loudness.
#[derive(Clone, Copy, Debug, PartialEq, Eq, Structural)]
pub struct SinOscillator {
    pub frequency: Frequency,
    pub amplitude: Scalar,
    pub sample_rate: u32,
}

/// `raw` is a value that the kernel's sine generator returned for this
/// oscillator at `sample_index`.
pub open spec fn sine_sample<K: Kernel>(
    kernel: &K,
    oscillator: SinOscillator,
    sample_index: u32,
    raw: Scalar,
) -> bool {
    call_ensures(
        K::sine,
        (kernel, oscillator.frequency, oscillator.amplitude, oscillator.sample_rate, sample_index),
        raw,
    )
}

impl SinOscillator {
    /// The real-valued sample at `sample_index`, as the kernel computes it.
    pub fn sample<K: Kernel>(&self, kernel: &K, sample_index: u32) -> (raw: Scalar)
        ensures
            sine_sample(kernel, *self, sample_index, raw),
    {
        kernel.sine(self.frequency, self.amplitude, self.sample_rate, sample_index)
    }

    /// The sample at `sample_index` as 16-bit PCM.
    pub fn pcm_sample<K: Kernel>(&self, kernel: &K, sample_index: u32) -> (pcm: i16)
        ensures
            exists|raw: Scalar| #[trigger]
                sine_sample(kernel, *self, sample_index, raw) && pcm == pcm_of(raw),
            -(PCM_BIT_RANGE as int) <= pcm <= PCM_BIT_RANGE,
    {
        let raw = self.sample(kernel, sample_index);
        quantize(raw)
    }
}

/// A shaped generator at one pitch and loudness. Its curve is four control
/// points, each within [-1, 1].
#[derive(Debug)]
pub struct BezierOscillator {
    frequency: Frequency,
    amplitude: Scalar,
    sample_rate: u32,
    control_points: Vec<Scalar>,
}

/// `raw` is a value that the kernel's shaped generator returned for these
/// settings at `sample_index`.
pub open spec fn shaped_sample<K: Kernel>(
    kernel: &K,
    control_points: Seq<Scalar>,
    frequency: Frequency,
    amplitude: Scalar,
    sample_rate: u32,
    sample_index: u32,
    raw: Scalar,
) -> bool {
    exists|points: &Vec<Scalar>| #[trigger]
        call_ensures(
            K::shaped,
            (kernel, points, frequency, amplitude, sample_rate, sample_index),
            raw,
        ) && points@ == control_points
}

impl BezierOscillator {
    #[verifier::type_invariant]
    spec fn well_shaped(self) -> bool {
        valid_control_points(self.control_points@)
    }

    /// The pitch.
    pub closed spec fn frequency(self) -> Frequency {
        self.frequency
    }

    /// The loudness.
    pub closed spec fn amplitude(self) -> Scalar {
        self.amplitude
    }

    /// Samples a second.
    pub closed spec fn sample_rate(self) -> u32 {
        self.sample_rate
    }

    /// The curve.
    pub closed spec fn control_points(self) -> Seq<Scalar> {
        self.control_points@
    }

    /// A generator with the given curve, or `InvalidControlPoints` unless
    /// the curve is four points within [-1, 1].
    pub fn new(
        frequency: Frequency,
        amplitude: Scalar,
        sample_rate: u32,
        control_points: Vec<Scalar>,
    ) -> (result: Result<BezierOscillator, OrchestratorError>)
        ensures
            valid_control_points(control_points@) <==> result is Ok,
            result matches Ok(oscillator) ==> {
                &&& oscillator.frequency() == frequency
                &&& oscillator.amplitude() == amplitude
                &&& oscillator.sample_rate() == sample_rate
                &&& oscillator.control_points() == control_points@
            },
            result matches Err(error) ==> Err::<(), OrchestratorError>(error)
                == control_points_verdict(control_points@),
    {
        match validate_control_points(&control_points) {
            Ok(()) => Ok(BezierOscillator { frequency, amplitude, sample_rate, control_points }),
            Err(error) => Err(error),
        }
    }

    /// The real-valued sample at `sample_index`, as the kernel computes it.
    pub fn sample<K: Kernel>(&self, kernel: &K, sample_index: u32) -> (raw: Scalar)
        ensures
            shaped_sample(
                kernel,
                self.control_points(),
                self.frequency(),
                self.amplitude(),
                self.sample_rate(),
                sample_index,
                raw,
            ),
    {
        kernel.shaped(
            &self.control_points,
            self.frequency,
            self.amplitude,
            self.sample_rate,
            sample_index,
        )
    }

    /// The sample at `sample_index` as 16-bit PCM.
    pub fn pcm_sample<K: Kernel>(&self, kernel: &K, sample_index: u32) -> (pcm: i16)
        ensures
            exists|raw: Scalar| #[trigger]
                shaped_sample(
                    kernel,
                    self.control_points(),
                    self.frequency(),
                    self.amplitude(),
                    self.sample_rate(),
                    sample_index,
                    raw,
                ) && pcm == pcm_of(raw),
            -(PCM_BIT_RANGE as int) <= pcm <= PCM_BIT_RANGE,
    {
        let raw = self.sample(kernel, sample_index);
        quantize(raw)
    }
}

/// `raw` is a value that the kernel's generator returned.
pub open spec fn generated<K: Kernel>(
    kernel: &K,
    curve: Option<Seq<Scalar>>,
    frequency: Frequency,
    amplitude: Scalar,
    sample_rate: u32,
    sample_index: u32,
    raw: Scalar,
) -> bool {
    match curve {
        None => sine_sample(
            kernel,
            SinOscillator { frequency, amplitude, sample_rate },
            sample_index,
            raw,
        ),
        Some(points) => shaped_sample(
            kernel,
            points,
            frequency,
            amplitude,
            sample_rate,
            sample_index,
            raw,
        ),
    }
}

/// Every sample is within full scale.
pub open spec fn within_full_scale(out: Seq<i16>) -> bool {
    forall|j: int| 0 <= j < out.len() ==> -(PCM_BIT_RANGE as int) <= #[trigger] out[j] <= PCM_BIT_RANGE
}

/// The curve that a job is built with, if there is one.
pub open spec fn curve_of_owned(control_points: Option<Vec<Scalar>>) -> Option<Seq<Scalar>> {
    match control_points {
        Some(points) => Some(points@),
        None => None,
    }
}

/// The curve, if there is one.
pub open spec fn curve_of(control_points: Option<&Vec<Scalar>>) -> Option<Seq<Scalar>> {
    match control_points {
        Some(points) => Some(points@),
        None => None,
    }
}

/// Asks the kernel for a sample: the shaped generator if there is a curve,
/// the sine generator if there is none.
pub(crate) fn generate<K: Kernel>(
    kernel: &K,
    control_points: Option<&Vec<Scalar>>,
    frequency: Frequency,
    amplitude: Scalar,
    sample_rate: u32,
    sample_index: u32,
) -> (raw: Scalar)
    ensures
        generated(
            kernel,
            curve_of(control_points),
            frequency,
            amplitude,
            sample_rate,
            sample_index,
            raw,
        ),
{
    match control_points {
        Some(points) => kernel.shaped(points, frequency, amplitude, sample_rate, sample_index),
        None => kernel.sine(frequency, amplitude, sample_rate, sample_index),
    }
}

} // verus!
