use orchestrator_rust::adsr::{ADSREnvelope, ADSREnvelopeState, Gain};
use orchestrator_rust::scalar::Scalar;

fn sc(x: f64) -> Scalar {
    Scalar::from_bits(x.to_bits())
}

fn value(gain: Gain, sustain: f64) -> f64 {
    (gain.level as f64 + gain.weight as f64 * sustain) / gain.scale as f64
        * (gain.remaining as f64 / gain.release as f64)
}

fn held(level: u32, weight: u32, scale: u32) -> Gain {
    Gain { level, weight, scale, remaining: 1, release: 1 }
}

#[test]
fn a_new_envelope_is_in_attack() {
    let envelope = ADSREnvelope::new(10, 5, sc(0.5), 4, 100);
    assert_eq!(envelope.current_state(), ADSREnvelopeState::Attack);
    assert_eq!(envelope.sustain_level(), sc(0.5));
}

#[test]
fn stages_by_sample_index() {
    let mut envelope = ADSREnvelope::new(10, 5, sc(0.5), 4, 100);
    let expected = [
        (0u32, ADSREnvelopeState::Attack),
        (9, ADSREnvelopeState::Attack),
        (10, ADSREnvelopeState::Decay),
        (14, ADSREnvelopeState::Decay),
        (15, ADSREnvelopeState::Sustain),
        (100, ADSREnvelopeState::Sustain),
        (101, ADSREnvelopeState::Release),
        (u32::MAX, ADSREnvelopeState::Release),
    ];
    for &(n, state) in &expected {
        envelope.apply(n);
        assert_eq!(envelope.current_state(), state, "{}", n);
    }
}

#[test]
fn release_comes_before_every_other_stage() {
    // a note shorter than its attack is released from the attack
    let mut envelope = ADSREnvelope::new(10, 5, sc(0.5), 4, 3);
    envelope.apply(3);
    assert_eq!(envelope.current_state(), ADSREnvelopeState::Attack);
    envelope.apply(4);
    assert_eq!(envelope.current_state(), ADSREnvelopeState::Release);
}

#[test]
fn attack_ramps_from_zero() {
    let mut envelope = ADSREnvelope::new(10, 5, sc(0.5), 4, 100);
    assert_eq!(envelope.apply(0), held(0, 0, 10));
    assert_eq!(value(envelope.apply(0), 0.5), 0.0);
    assert_eq!(envelope.apply(5), held(5, 0, 10));
    assert_eq!(value(envelope.apply(5), 0.5), 0.5);
    assert_eq!(value(envelope.apply(9), 0.5), 0.9);
}

#[test]
fn decay_ramps_from_one_to_the_sustain_level() {
    let mut envelope = ADSREnvelope::new(10, 5, sc(0.5), 4, 100);
    assert_eq!(envelope.apply(10), held(5, 0, 5));
    assert_eq!(value(envelope.apply(10), 0.5), 1.0);
    assert_eq!(envelope.apply(12), held(3, 2, 5));
    assert_eq!(value(envelope.apply(12), 0.5), 0.8);
    assert_eq!(value(envelope.apply(14), 0.5), 0.6);
}

#[test]
fn sustain_is_the_sustain_level() {
    let mut envelope = ADSREnvelope::new(10, 5, sc(0.3), 4, 100);
    for n in 15u32..=100 {
        let gain = envelope.apply(n);
        assert_eq!(gain, held(0, 1, 1));
        assert_eq!(value(gain, 0.3), 0.3);
    }
}

#[test]
fn release_ramps_down_from_the_last_held_factor() {
    let mut envelope = ADSREnvelope::new(10, 5, sc(0.5), 4, 100);
    envelope.apply(100);
    let expected = [(101u32, 0.375), (102, 0.25), (103, 0.125), (104, 0.0)];
    let mut last = 0.5;
    for &(n, factor) in &expected {
        let gain = envelope.apply(n);
        assert_eq!(gain, Gain { level: 0, weight: 1, scale: 1, remaining: 104 - n as i64, release: 4 });
        assert_eq!(value(gain, 0.5), factor);
        assert!(value(gain, 0.5) <= last);
        last = value(gain, 0.5);
    }
}

#[test]
fn release_sets_out_from_wherever_the_envelope_was() {
    // released in the middle of the attack: from 3/10, not from 1
    let mut envelope = ADSREnvelope::new(10, 5, sc(0.5), 4, 3);
    envelope.apply(3);
    let gain = envelope.apply(5);
    assert_eq!(gain, Gain { level: 3, weight: 0, scale: 10, remaining: 2, release: 4 });
    assert_eq!(value(gain, 0.5), 0.15);
    // and a release does not feed on itself
    let again = envelope.apply(5);
    assert_eq!(again, gain);
}

#[test]
fn an_envelope_that_was_never_held_is_released_from_zero() {
    let mut envelope = ADSREnvelope::new(10, 5, sc(0.5), 4, 3);
    let gain = envelope.apply(6);
    assert_eq!(envelope.current_state(), ADSREnvelopeState::Release);
    assert_eq!(value(gain, 0.5), 0.0);
}

#[test]
fn past_its_end_the_release_goes_on_down() {
    let mut envelope = ADSREnvelope::new(0, 0, sc(1.0), 4, 10);
    envelope.apply(10);
    let gain = envelope.apply(16);
    assert_eq!(gain.remaining, -2);
    assert_eq!(value(gain, 1.0), -0.5);
}

#[test]
fn a_release_of_no_length_is_over_at_once() {
    let mut envelope = ADSREnvelope::new(0, 0, sc(1.0), 0, 10);
    assert_eq!(value(envelope.apply(10), 1.0), 1.0);
    let gain = envelope.apply(11);
    assert_eq!(gain, Gain { level: 0, weight: 1, scale: 1, remaining: 0, release: 1 });
    assert_eq!(value(gain, 1.0), 0.0);
}

#[test]
fn no_attack_and_no_decay_hold_the_sustain_level_from_the_start() {
    let mut envelope = ADSREnvelope::new(0, 0, sc(1.0), 0, 10);
    for n in 0u32..=10 {
        let gain = envelope.apply(n);
        assert_eq!(envelope.current_state(), ADSREnvelopeState::Sustain);
        assert_eq!(value(gain, 1.0), 1.0);
    }
}

#[test]
fn the_longest_durations_do_not_overflow() {
    let mut envelope = ADSREnvelope::new(u32::MAX, u32::MAX, sc(1.0), u32::MAX, u32::MAX);
    assert_eq!(envelope.apply(u32::MAX - 1), held(u32::MAX - 1, 0, u32::MAX));
    assert_eq!(envelope.apply(u32::MAX), held(u32::MAX, 0, u32::MAX));
    let mut envelope = ADSREnvelope::new(1, u32::MAX, sc(1.0), u32::MAX, 0);
    let gain = envelope.apply(u32::MAX);
    assert_eq!(gain.remaining, 0);
    assert_eq!(gain.release, u32::MAX);
}
