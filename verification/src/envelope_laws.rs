//! What holds of the envelope's factors, as real numbers.

use crate::adsr::{gain_at, released, state_at, ADSREnvelopeState, Gain};
use vstd::prelude::*;

verus! {

/// The stages follow one another: once an envelope is in release it stays
/// there, and before that it never steps back from sustain to decay or from
/// decay to attack.
pub proof fn lemma_stages_in_order(attack: int, decay: int, duration: int, n: int, m: int)
    requires
        0 <= attack,
        0 <= decay,
        n <= m,
    ensures
        state_at(attack, decay, duration, n) == ADSREnvelopeState::Release ==> state_at(
            attack,
            decay,
            duration,
            m,
        ) == ADSREnvelopeState::Release,
        state_at(attack, decay, duration, n) == ADSREnvelopeState::Sustain ==> state_at(
            attack,
            decay,
            duration,
            m,
        ) != ADSREnvelopeState::Attack && state_at(attack, decay, duration, m)
            != ADSREnvelopeState::Decay,
        state_at(attack, decay, duration, n) == ADSREnvelopeState::Decay ==> state_at(
            attack,
            decay,
            duration,
            m,
        ) != ADSREnvelopeState::Attack,
{
}

/// While the note is held the release ramp stands at 1, so the factor is
/// that of the held part.
pub proof fn lemma_held_factor(gain: Gain, sustain: real)
    requires
        gain.is_held(),
    ensures
        gain.value(sustain) == gain.held_value(sustain),
        gain.ramp() == 1real,
{
    assert(gain.remaining as real == 1real);
    assert(gain.release as real == 1real);
    assert(1real / 1real == 1real);
}

/// At sample 0 of an attack the factor is 0, and throughout the attack it
/// is `n / attack`.
pub proof fn lemma_attack_ramp(attack: int, decay: int, release: int, duration: int, n: int, sustain: real)
    requires
        0 <= n,
        attack <= u32::MAX,
        state_at(attack, decay, duration, n) == ADSREnvelopeState::Attack,
    ensures
        gain_at(attack, decay, release, duration, n).value(sustain) == n as real / attack as real,
        n == 0 ==> gain_at(attack, decay, release, duration, n).value(sustain) == 0real,
{
    let gain = gain_at(attack, decay, release, duration, n);
    lemma_held_factor(gain, sustain);
    let scale = attack as real;
    let level = n as real;
    assert(gain.scale as real == scale);
    assert(gain.level as real == level);
    assert(gain.weight as real == 0real);
    assert(scale > 0real);
    assert(0real / scale == 0real) by (nonlinear_arith)
        requires
            scale > 0real,
    ;
    assert((level + 0real * sustain) / scale * 1real == level / scale) by (nonlinear_arith)
        requires
            scale > 0real,
    ;
}

/// Where the attack hands over to the decay the factor is 1, and throughout
/// the decay it is `1 - (1 - s) * (n - attack) / decay`.
pub proof fn lemma_decay_ramp(attack: int, decay: int, release: int, duration: int, n: int, sustain: real)
    requires
        0 <= attack,
        decay <= u32::MAX,
        state_at(attack, decay, duration, n) == ADSREnvelopeState::Decay,
    ensures
        gain_at(attack, decay, release, duration, n).value(sustain) == 1real - (1real - sustain) * ((n
            - attack) as real / decay as real),
        n == attack ==> gain_at(attack, decay, release, duration, n).value(sustain) == 1real,
{
    let gain = gain_at(attack, decay, release, duration, n);
    lemma_held_factor(gain, sustain);
    let scale = decay as real;
    let into = (n - attack) as real;
    assert(gain.scale as real == scale);
    assert(gain.weight as real == into);
    assert(gain.level as real == scale - into);
    assert(((scale - into) + into * sustain) / scale == 1real - (1real - sustain) * (into / scale))
        by (nonlinear_arith)
        requires
            scale > 0real,
    ;
    if n == attack {
        assert(1real - (1real - sustain) * (0real / scale) == 1real) by (nonlinear_arith)
            requires
                scale > 0real,
        ;
    }
}

/// In sustain the factor is the sustain level itself.
pub proof fn lemma_sustain_is_level(attack: int, decay: int, release: int, duration: int, n: int, sustain: real)
    requires
        state_at(attack, decay, duration, n) == ADSREnvelopeState::Sustain,
    ensures
        gain_at(attack, decay, release, duration, n).value(sustain) == sustain,
{
    let gain = gain_at(attack, decay, release, duration, n);
    lemma_held_factor(gain, sustain);
    assert((0real + 1real * sustain) / 1real == sustain) by (nonlinear_arith);
}

/// An envelope with no attack and no decay leaves a held note as it is
/// when the sustain level is 1: every factor up to the note's end is 1.
pub proof fn lemma_plain_envelope(release: int, duration: int, n: int)
    requires
        0 <= n <= duration,
    ensures
        state_at(0, 0, duration, n) == ADSREnvelopeState::Sustain,
        gain_at(0, 0, release, duration, n).value(1real) == 1real,
{
    lemma_sustain_is_level(0, 0, release, duration, n, 1real);
}

/// The held part of a factor is never negative when the sustain level is
/// not.
pub proof fn lemma_held_value_not_negative(gain: Gain, sustain: real)
    requires
        gain.scale >= 1,
        0real <= sustain,
    ensures
        0real <= gain.held_value(sustain),
{
    let level = gain.level as real;
    let weight = gain.weight as real;
    let scale = gain.scale as real;
    assert(0real <= level + weight * sustain) by (nonlinear_arith)
        requires
            0real <= level,
            0real <= weight,
            0real <= sustain,
    ;
    let top = level + weight * sustain;
    assert(0real <= top / scale) by (nonlinear_arith)
        requires
            0real <= top,
            0real < scale,
    ;
}

/// In the release the factor is the one the release set out from, times
/// `1 - elapsed / release`.
pub proof fn lemma_release_ramp(last: Gain, elapsed: int, release: int, sustain: real)
    requires
        last.is_held(),
        0 < release <= u32::MAX,
        0 <= elapsed <= u32::MAX,
    ensures
        released(last, elapsed, release).value(sustain) == last.value(sustain) * (1real
            - elapsed as real / release as real),
{
    lemma_held_factor(last, sustain);
    let out = released(last, elapsed, release);
    let r = release as real;
    let e = elapsed as real;
    assert(out.held_value(sustain) == last.held_value(sustain));
    assert(out.remaining as real == r - e);
    assert(out.release as real == r);
    assert((r - e) / r == 1real - e / r) by (nonlinear_arith)
        requires
            r > 0real,
    ;
}

/// The release never rises, as long as the factor it set out from is not
/// negative: a later sample has no larger a factor. It stays at or above 0
/// up to the end of the release, where it is 0.
pub proof fn lemma_release_falls_to_zero(
    last: Gain,
    earlier: int,
    later: int,
    release: int,
    sustain: real,
)
    requires
        last.is_held(),
        0 < release <= u32::MAX,
        0 <= earlier <= later <= u32::MAX,
        0real <= last.value(sustain),
    ensures
        released(last, later, release).value(sustain) <= released(last, earlier, release).value(
            sustain,
        ),
        released(last, release, release).value(sustain) == 0real,
        later <= release ==> 0real <= released(last, later, release).value(sustain),
{
    lemma_release_ramp(last, earlier, release, sustain);
    lemma_release_ramp(last, later, release, sustain);
    lemma_release_ramp(last, release, release, sustain);
    let v = last.value(sustain);
    let r = release as real;
    let a = earlier as real;
    let b = later as real;
    assert(a / r <= b / r) by (nonlinear_arith)
        requires
            a <= b,
            r > 0real,
    ;
    let x = 1real - b / r;
    let y = 1real - a / r;
    assert(v * x <= v * y) by (nonlinear_arith)
        requires
            0real <= v,
            x <= y,
    ;
    assert(r / r == 1real) by (nonlinear_arith)
        requires
            r > 0real,
    ;
    assert(v * (1real - 1real) == 0real) by (nonlinear_arith);
    if later <= release {
        assert(b / r <= 1real) by (nonlinear_arith)
            requires
                b <= r,
                r > 0real,
        ;
        assert(0real <= v * x) by (nonlinear_arith)
            requires
                0real <= v,
                0real <= x,
        ;
    }
}

} // verus!
