//! The envelope: attack, decay, sustain and release on the sample grid.
//!
//! All durations are whole numbers of samples, so every factor is an exact
//! rational in the sample index and, through the sustain level, in one real
//! parameter. A factor is handed out as a [`Gain`], never rounded.

use crate::scalar::Scalar;
use vstd::prelude::*;

verus! {

/// The stage of an envelope.
#[derive(Clone, Copy, Debug, PartialEq, Eq, Structural)]
pub enum ADSREnvelopeState {
    Attack,
    Decay,
    Sustain,
    Release,
}

/// An amplitude factor, exact: a position on the held part of the envelope,
/// which is linear in the sustain level `s`, times a position on the release
/// ramp: `(level + weight * s) / scale * (remaining / release)`.
#[derive(Clone, Copy, Debug, PartialEq, Eq, Structural)]
pub struct Gain {
    pub level: u32,
    pub weight: u32,
    pub scale: u32,
    /// Samples of release still to come; negative once the release is over.
    pub remaining: i64,
    /// Samples of release in all.
    pub release: u32,
}

impl Gain {
    /// The factor of the held part at sustain level `sustain`.
    pub open spec fn held_value(self, sustain: real) -> real {
        (self.level as real + self.weight as real * sustain) / self.scale as real
    }

    /// The position on the release ramp: 1 while the note is held.
    pub open spec fn ramp(self) -> real {
        self.remaining as real / self.release as real
    }

    /// The factor at sustain level `sustain`.
    pub open spec fn value(self, sustain: real) -> real {
        self.held_value(sustain) * self.ramp()
    }

    /// Nothing divides by zero.
    pub open spec fn is_valid(self) -> bool {
        self.scale >= 1 && self.release >= 1
    }

    /// The factor of a sample at which the note is held: not on the release
    /// ramp.
    pub open spec fn is_held(self) -> bool {
        self.scale >= 1 && self.remaining == 1 && self.release == 1
    }
}

/// The factor 0.
pub open spec fn silent() -> Gain {
    Gain { level: 0, weight: 0, scale: 1, remaining: 1, release: 1 }
}

/// The stage at sample `n` of a note that lasts `duration` samples, with
/// `attack` and `decay` samples of attack and decay.
pub open spec fn state_at(attack: int, decay: int, duration: int, n: int) -> ADSREnvelopeState {
    if n > duration {
        ADSREnvelopeState::Release
    } else if n < attack {
        ADSREnvelopeState::Attack
    } else if n < attack + decay {
        ADSREnvelopeState::Decay
    } else {
        ADSREnvelopeState::Sustain
    }
}

/// The factor at sample `n` while the note is held: `n / attack` in the
/// attack, `1 - (1 - s) * (n - attack) / decay` in the decay, `s` after it.
pub open spec fn held_gain(attack: int, decay: int, n: int) -> Gain {
    if n < attack {
        Gain { level: n as u32, weight: 0, scale: attack as u32, remaining: 1, release: 1 }
    } else if n < attack + decay {
        Gain {
            level: (decay - (n - attack)) as u32,
            weight: (n - attack) as u32,
            scale: decay as u32,
            remaining: 1,
            release: 1,
        }
    } else {
        Gain { level: 0, weight: 1, scale: 1, remaining: 1, release: 1 }
    }
}

/// The factor `elapsed` samples into a release of `release` samples that
/// set out from `last`: `last * (1 - elapsed / release)`. A release of no
/// length is over at once.
pub open spec fn released(last: Gain, elapsed: int, release: int) -> Gain {
    if release == 0 {
        Gain { remaining: 0, release: 1, ..last }
    } else {
        Gain { remaining: (release - elapsed) as i64, release: release as u32, ..last }
    }
}

/// The factor at sample `n` of an envelope that has been applied to every
/// sample from 0 on: the release sets out from the factor at the last held
/// sample, which is sample `duration`.
pub open spec fn gain_at(attack: int, decay: int, release: int, duration: int, n: int) -> Gain {
    if n > duration {
        released(held_gain(attack, decay, duration), n - duration, release)
    } else {
        held_gain(attack, decay, n)
    }
}

/// One note's envelope. It keeps the stage of the last sample it was applied
/// to and the factor of the last sample that was not in release.
pub struct ADSREnvelope {
    attack: u32,
    decay: u32,
    sustain: Scalar,
    release: u32,
    duration: u32,
    current_state: ADSREnvelopeState,
    current_factor: Gain,
}

impl ADSREnvelope {
    #[verifier::type_invariant]
    spec fn holds_a_ramp(self) -> bool {
        self.current_factor.is_held()
    }

    /// Samples of attack.
    pub closed spec fn attack(self) -> int {
        self.attack as int
    }

    /// Samples of decay.
    pub closed spec fn decay(self) -> int {
        self.decay as int
    }

    /// The sustain level.
    pub closed spec fn sustain(self) -> Scalar {
        self.sustain
    }

    /// Samples of release.
    pub closed spec fn release(self) -> int {
        self.release as int
    }

    /// Samples for which the note is held, the release not counted.
    pub closed spec fn duration(self) -> int {
        self.duration as int
    }

    /// The stage of the last sample the envelope was applied to.
    pub closed spec fn state(self) -> ADSREnvelopeState {
        self.current_state
    }

    /// The factor of the last sample that was not in release.
    pub closed spec fn last_factor(self) -> Gain {
        self.current_factor
    }

    /// The same durations and sustain level.
    pub open spec fn same_shape(self, other: ADSREnvelope) -> bool {
        &&& self.attack() == other.attack()
        &&& self.decay() == other.decay()
        &&& self.sustain() == other.sustain()
        &&& self.release() == other.release()
        &&& self.duration() == other.duration()
    }

    /// An envelope at its start: in attack, with factor 0.
    pub fn new(attack: u32, decay: u32, sustain: Scalar, release: u32, duration: u32) -> (envelope:
        ADSREnvelope)
        ensures
            envelope.attack() == attack,
            envelope.decay() == decay,
            envelope.sustain() == sustain,
            envelope.release() == release,
            envelope.duration() == duration,
            envelope.state() == ADSREnvelopeState::Attack,
            envelope.last_factor() == silent(),
    {
        ADSREnvelope {
            attack,
            decay,
            sustain,
            release,
            duration,
            current_state: ADSREnvelopeState::Attack,
            current_factor: Gain { level: 0, weight: 0, scale: 1, remaining: 1, release: 1 },
        }
    }

    /// The sustain level.
    pub fn sustain_level(&self) -> (level: Scalar)
        ensures
            level == self.sustain(),
    {
        self.sustain
    }

    /// The stage of the last sample the envelope was applied to.
    pub fn current_state(&self) -> (state: ADSREnvelopeState)
        ensures
            state == self.state(),
    {
        self.current_state
    }

    /// Moves the envelope to sample `current_sample_index` and returns the
    /// factor there. The release ramps down from the factor of the last
    /// sample that was not in release, whichever sample that was.
    pub fn apply(&mut self, current_sample_index: u32) -> (factor: Gain)
        ensures
            final(self).same_shape(*old(self)),
            final(self).state() == state_at(
                old(self).attack(),
                old(self).decay(),
                old(self).duration(),
                current_sample_index as int,
            ),
            final(self).state() != ADSREnvelopeState::Release ==> {
                &&& factor == held_gain(
                    old(self).attack(),
                    old(self).decay(),
                    current_sample_index as int,
                )
                &&& final(self).last_factor() == factor
            },
            final(self).state() == ADSREnvelopeState::Release ==> {
                &&& factor == released(
                    old(self).last_factor(),
                    current_sample_index - old(self).duration(),
                    old(self).release(),
                )
                &&& final(self).last_factor() == old(self).last_factor()
            },
            old(self).last_factor().is_held(),
            final(self).last_factor().is_held(),
            factor.is_valid(),
    {
        proof {
            use_type_invariant(&*self);
        }
        let state = self.determine_state(current_sample_index);
        self.current_state = state;
        match state {
            ADSREnvelopeState::Attack => self.apply_attack(current_sample_index),
            ADSREnvelopeState::Decay => self.apply_decay(current_sample_index),
            ADSREnvelopeState::Sustain => self.apply_sustain(),
            ADSREnvelopeState::Release => self.apply_release(current_sample_index),
        }
    }

    /// The stage at a sample: the release comes before all else.
    fn determine_state(&self, sample_index: u32) -> (state: ADSREnvelopeState)
        ensures
            state == state_at(self.attack(), self.decay(), self.duration(), sample_index as int),
    {
        if sample_index > self.duration {
            ADSREnvelopeState::Release
        } else if sample_index < self.attack {
            ADSREnvelopeState::Attack
        } else if (sample_index as u64) < self.attack as u64 + self.decay as u64 {
            ADSREnvelopeState::Decay
        } else {
            ADSREnvelopeState::Sustain
        }
    }

    /// The factor of a sample in the attack: the ramp from 0 up.
    fn apply_attack(&mut self, current_sample_index: u32) -> (factor: Gain)
        requires
            current_sample_index < old(self).attack(),
        ensures
            final(self).same_shape(*old(self)),
            final(self).state() == old(self).state(),
            factor == held_gain(old(self).attack(), old(self).decay(), current_sample_index as int),
            final(self).last_factor() == factor,
            factor.is_held(),
    {
        let factor = Gain {
            level: current_sample_index,
            weight: 0,
            scale: self.attack,
            remaining: 1,
            release: 1,
        };
        self.current_factor = factor;
        factor
    }

    /// The factor of a sample in the decay: the ramp from 1 down to the
    /// sustain level.
    fn apply_decay(&mut self, current_sample_index: u32) -> (factor: Gain)
        requires
            old(self).attack() <= current_sample_index < old(self).attack() + old(self).decay(),
        ensures
            final(self).same_shape(*old(self)),
            final(self).state() == old(self).state(),
            factor == held_gain(old(self).attack(), old(self).decay(), current_sample_index as int),
            final(self).last_factor() == factor,
            factor.is_held(),
    {
        let into_decay: u32 = current_sample_index - self.attack;
        let factor = Gain {
            level: self.decay - into_decay,
            weight: into_decay,
            scale: self.decay,
            remaining: 1,
            release: 1,
        };
        self.current_factor = factor;
        factor
    }

    /// The factor of a sample in sustain: the sustain level.
    fn apply_sustain(&mut self) -> (factor: Gain)
        ensures
            final(self).same_shape(*old(self)),
            final(self).state() == old(self).state(),
            factor == held_gain(old(self).attack(), old(self).decay(), old(self).attack() + old(self).decay()),
            final(self).last_factor() == factor,
            factor.is_held(),
    {
        let factor = Gain { level: 0, weight: 1, scale: 1, remaining: 1, release: 1 };
        self.current_factor = factor;
        factor
    }

    /// The factor of a sample in the release: the last held factor on its
    /// way down. It is handed out and not kept.
    fn apply_release(&self, current_sample_index: u32) -> (factor: Gain)
        requires
            current_sample_index > self.duration(),
        ensures
            factor == released(
                self.last_factor(),
                current_sample_index - self.duration(),
                self.release(),
            ),
            self.last_factor().is_held(),
            factor.is_valid(),
    {
        proof {
            use_type_invariant(self);
        }
        let last = self.current_factor;
        if self.release == 0 {
            return Gain {
                level: last.level,
                weight: last.weight,
                scale: last.scale,
                remaining: 0,
                release: 1,
            };
        }
        let elapsed: u32 = current_sample_index - self.duration;
        Gain {
            level: last.level,
            weight: last.weight,
            scale: last.scale,
            remaining: self.release as i64 - elapsed as i64,
            release: self.release,
        }
    }
}

} // verus!
