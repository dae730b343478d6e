//! The timeline strategy: notes are placed at their own start and may
//! overlap; what overlaps is summed and softly clipped.

use crate::adsr::{gain_at, held_gain, ADSREnvelope, Gain};
use crate::envelope_laws::lemma_held_factor;
use crate::errors::OrchestratorError;
use crate::grid::{
    capped, envelope_samples, latest_end, note_span, note_start, samples, samples_in_beats,
    samples_in_seconds, samples_in_span, samples_per_note, samples_to_end, time_units,
    timeline_samples, SECONDS_PER_MINUTE,
};
use crate::kernel::Kernel;
use crate::oscillator::{
    curve_of, curve_of_owned, generate, generated, pcm_of, quantize, within_full_scale,
};
use crate::pitch::{frequency_of, pitch_of, Frequency, MAX_NOTE_ID};
use crate::scalar::{lemma_landmarks, one, zero, Scalar};
use crate::validation::{
    bpm_verdict, job_verdict, list_verdict, note_verdict, timeline_note_verdicts,
    valid_control_points, valid_timeline_notes, validate_bpm, validate_control_points,
    validate_timeline_notes,
};
use vstd::arithmetic::div_mod::{lemma_div_basics, lemma_div_pos_is_pos};
use vstd::arithmetic::mul::{lemma_mul_basics, lemma_mul_nonnegative, lemma_mul_strictly_positive};
use vstd::arithmetic::power2::{lemma_pow2_pos, pow2};
use vstd::prelude::*;

verus! {

/// A note of the timeline strategy: a pitch, a start and a length in beats,
/// and a loudness.
#[derive(Clone, Copy, Debug, PartialEq, Eq, Structural)]
pub struct TimelineNote {
    pub id: u8,
    pub octave: u8,
    pub start_time: Scalar,
    pub duration: Scalar,
    pub amplitude: Scalar,
}

impl TimelineNote {
    /// A note with these fields. Nothing is checked here: see the validation.
    pub fn new(id: u8, octave: u8, start_time: Scalar, duration: Scalar, amplitude: Scalar) -> (note:
        TimelineNote)
        ensures
            note == (TimelineNote { id, octave, start_time, duration, amplitude }),
    {
        TimelineNote { id, octave, start_time, duration, amplitude }
    }

    /// The chromatic id: 0 is C, 9 is A, 11 is B.
    pub fn id(&self) -> (id: u8)
        ensures
            id == self.id,
    {
        self.id
    }

    /// The octave.
    pub fn octave(&self) -> (octave: u8)
        ensures
            octave == self.octave,
    {
        self.octave
    }

    /// The start in beats from the beginning of the timeline.
    pub fn start_time(&self) -> (start_time: Scalar)
        ensures
            start_time == self.start_time,
    {
        self.start_time
    }

    /// The length in beats.
    pub fn duration(&self) -> (duration: Scalar)
        ensures
            duration == self.duration,
    {
        self.duration
    }

    /// The loudness, from 0 to 1.
    pub fn amplitude(&self) -> (amplitude: Scalar)
        ensures
            amplitude == self.amplitude,
    {
        self.amplitude
    }

    /// The note's frequency, or `InvalidNoteId` for a chromatic id above 11.
    pub fn frequency(&self) -> (result: Result<Frequency, OrchestratorError>)
        ensures
            self.id <= MAX_NOTE_ID ==> result == Ok::<Frequency, OrchestratorError>(
                pitch_of(self.id, self.octave),
            ),
            self.id > MAX_NOTE_ID ==> result == Err::<Frequency, OrchestratorError>(
                OrchestratorError::InvalidNoteId(self.id),
            ),
    {
        frequency_of(self.id, self.octave)
    }
}

/// Numerator of the headroom: every amplitude is scaled by 9/10 before it
/// is mixed, so that notes that overlap have room to add up.
pub const HEADROOM_NUMERATOR: u32 = 9;

/// Denominator of the headroom.
pub const HEADROOM_DENOMINATOR: u32 = 10;

/// The envelope settings of a job: attack, decay and release in seconds,
/// and the sustain level.
#[derive(Clone, Copy, Debug, PartialEq, Eq, Structural)]
pub struct Adsr {
    pub attack: Scalar,
    pub decay: Scalar,
    pub sustain: Scalar,
    pub release: Scalar,
}

/// The settings of a job that names none: no attack, no decay, full
/// sustain, no release.
pub open spec fn default_adsr() -> Adsr {
    Adsr { attack: zero(), decay: zero(), sustain: one(), release: zero() }
}

/// The settings that a job is built with.
pub open spec fn adsr_of(adsr: Option<(Scalar, Scalar, Scalar, Scalar)>) -> Adsr {
    match adsr {
        Some(given) => Adsr { attack: given.0, decay: given.1, sustain: given.2, release: given.3 },
        None => default_adsr(),
    }
}

/// One note on the sample grid.
pub struct Voice {
    pub frequency: Frequency,
    /// The note's amplitude with the headroom taken off.
    pub amplitude: Scalar,
    /// The slot of the note's sample 0.
    pub start: usize,
    /// Samples that the note writes, its release included.
    pub span: u32,
    /// Samples for which the note is held.
    pub held: u32,
}

/// A timeline on the sample grid.
pub struct Layout {
    /// Slots in the buffer.
    pub total: usize,
    /// Samples of attack, decay and release.
    pub attack: u32,
    pub decay: u32,
    pub release: u32,
    pub voices: Seq<Voice>,
}

/// The slots of a timeline: up to the end of the last release.
pub open spec fn timeline_slots(
    notes: Seq<TimelineNote>,
    release: Scalar,
    bpm: u8,
    sample_rate: u32,
) -> int {
    capped(latest_end(notes, notes.len() as int, release, bpm, sample_rate), usize::MAX as int)
}

/// `voice` is `note` on the grid: it starts at `start_time * 60 / bpm *
/// sample_rate`, writes `(duration + release) * 60 / bpm * sample_rate`
/// samples and is held for `duration * 60 / bpm * sample_rate` of them,
/// each count rounded down; and its amplitude is what the kernel made of
/// the note's amplitude and the headroom.
pub open spec fn voice_given<K: Kernel>(
    kernel: &K,
    note: TimelineNote,
    release: Scalar,
    bpm: u8,
    sample_rate: u32,
    voice: Voice,
) -> bool {
    &&& voice.frequency == pitch_of(note.id, note.octave)
    &&& call_ensures(
        K::scale_amplitude,
        (kernel, note.amplitude, HEADROOM_NUMERATOR, HEADROOM_DENOMINATOR),
        voice.amplitude,
    )
    &&& voice.start == capped(
        samples_in_beats(note.start_time, bpm, sample_rate),
        usize::MAX as int,
    )
    &&& voice.span == capped(
        samples_in_span(note.duration, release, bpm, sample_rate),
        u32::MAX as int,
    )
    &&& voice.held == capped(samples_in_beats(note.duration, bpm, sample_rate), u32::MAX as int)
}

/// `layout` is the job on the grid: the buffer reaches to the latest end of
/// a note's release, `((start_time + duration) * 60 / bpm + release) *
/// sample_rate` rounded up; the envelope's durations are `attack *
/// sample_rate`, `decay * sample_rate` and `release * sample_rate`, rounded
/// down; and each note has its voice.
pub open spec fn laid_out<K: Kernel>(
    kernel: &K,
    notes: Seq<TimelineNote>,
    bpm: u8,
    adsr: Adsr,
    sample_rate: u32,
    layout: Layout,
) -> bool {
    &&& layout.total == timeline_slots(notes, adsr.release, bpm, sample_rate)
    &&& layout.attack == capped(samples_in_seconds(adsr.attack, sample_rate), u32::MAX as int)
    &&& layout.decay == capped(samples_in_seconds(adsr.decay, sample_rate), u32::MAX as int)
    &&& layout.release == capped(samples_in_seconds(adsr.release, sample_rate), u32::MAX as int)
    &&& layout.voices.len() == notes.len()
    &&& forall|k: int|
        0 <= k < notes.len() ==> voice_given(
            kernel,
            notes[k],
            adsr.release,
            bpm,
            sample_rate,
            #[trigger] layout.voices[k],
        )
}

/// `after` is the slot that held `before` once sample `sample_index` of
/// `voice` is mixed in: the generator's value at that index, weighted with
/// the envelope's factor there, is added by the kernel.
pub open spec fn slot_mixed<K: Kernel>(
    kernel: &K,
    curve: Option<Seq<Scalar>>,
    sustain: Scalar,
    sample_rate: u32,
    layout: Layout,
    voice: Voice,
    sample_index: u32,
    before: Scalar,
    after: Scalar,
) -> bool {
    exists|raw: Scalar| #[trigger]
        generated(
            kernel,
            curve,
            voice.frequency,
            voice.amplitude,
            sample_rate,
            sample_index,
            raw,
        ) && call_ensures(
            K::mix,
            (
                kernel,
                before,
                raw,
                gain_at(
                    layout.attack as int,
                    layout.decay as int,
                    layout.release as int,
                    voice.held as int,
                    sample_index as int,
                ),
                sustain,
            ),
            after,
        )
}

/// The first `count` samples of `voice` are mixed into `before`, giving
/// `after`: sample `i` goes to slot `voice.start + i`, and is dropped if the
/// buffer has no such slot. Every other slot is as it was.
pub open spec fn voice_mixed<K: Kernel>(
    kernel: &K,
    curve: Option<Seq<Scalar>>,
    sustain: Scalar,
    sample_rate: u32,
    layout: Layout,
    voice: Voice,
    count: int,
    before: Seq<Scalar>,
    after: Seq<Scalar>,
) -> bool {
    &&& after.len() == before.len()
    &&& forall|slot: int|
        0 <= slot < before.len() ==> if voice.start <= slot < voice.start + count {
            slot_mixed(
                kernel,
                curve,
                sustain,
                sample_rate,
                layout,
                voice,
                (slot - voice.start) as u32,
                before[slot],
                #[trigger] after[slot],
            )
        } else {
            #[trigger] after[slot] == before[slot]
        }
}

/// A buffer of `total` slots that hold 0.
pub open spec fn silence(total: int) -> Seq<Scalar> {
    Seq::new(total as nat, |slot: int| zero())
}

/// `stages` are the states of the buffer from silence on, one after each
/// note: the notes are mixed in the order of the list, each in full.
pub open spec fn mixed_down<K: Kernel>(
    kernel: &K,
    curve: Option<Seq<Scalar>>,
    sustain: Scalar,
    sample_rate: u32,
    layout: Layout,
    stages: Seq<Seq<Scalar>>,
) -> bool {
    &&& stages.len() == layout.voices.len() + 1
    &&& stages[0] == silence(layout.total as int)
    &&& forall|k: int|
        0 <= k < layout.voices.len() ==> voice_mixed(
            kernel,
            curve,
            sustain,
            sample_rate,
            layout,
            #[trigger] layout.voices[k],
            layout.voices[k].span as int,
            stages[k],
            stages[k + 1],
        )
}

/// `out` holds, slot by slot, the PCM value of what the kernel's saturating
/// curve made of the sum.
pub open spec fn clipped<K: Kernel>(kernel: &K, sums: Seq<Scalar>, out: Seq<i16>) -> bool {
    &&& out.len() == sums.len()
    &&& forall|slot: int|
        0 <= slot < sums.len() ==> slot_clipped(kernel, sums[slot], #[trigger] out[slot])
}

/// `pcm` is the PCM value of what the kernel's saturating curve made of
/// `sum`.
pub open spec fn slot_clipped<K: Kernel>(kernel: &K, sum: Scalar, pcm: i16) -> bool {
    exists|soft: Scalar| #[trigger] call_ensures(K::soft_clip, (kernel, sum), soft) && pcm == pcm_of(soft)
}

/// `out` is the rendering of the job on `layout`, with the buffer passing
/// through `stages`.
pub open spec fn rendered_on<K: Kernel>(
    kernel: &K,
    curve: Option<Seq<Scalar>>,
    notes: Seq<TimelineNote>,
    bpm: u8,
    adsr: Adsr,
    sample_rate: u32,
    layout: Layout,
    stages: Seq<Seq<Scalar>>,
    out: Seq<i16>,
) -> bool {
    &&& laid_out(kernel, notes, bpm, adsr, sample_rate, layout)
    &&& mixed_down(kernel, curve, adsr.sustain, sample_rate, layout, stages)
    &&& stages.last().len() == layout.total
    &&& clipped(kernel, stages.last(), out)
}

/// `out` is a rendering of the job: the notes are laid out on the grid and
/// mixed into a silent buffer in the order of the list, and every slot is
/// softly clipped and quantised. The output has one sample per slot.
pub open spec fn timeline_render<K: Kernel>(
    kernel: &K,
    curve: Option<Seq<Scalar>>,
    notes: Seq<TimelineNote>,
    bpm: u8,
    adsr: Adsr,
    sample_rate: u32,
    out: Seq<i16>,
) -> bool {
    exists|layout: Layout, stages: Seq<Seq<Scalar>>| #[trigger]
        rendered_on(kernel, curve, notes, bpm, adsr, sample_rate, layout, stages, out)
}

/// `pcm` is what a slot that held `before` gives once sample `sample_index`
/// of `voice` is mixed in and the slot is clipped.
pub open spec fn slot_voiced<K: Kernel>(
    kernel: &K,
    curve: Option<Seq<Scalar>>,
    sustain: Scalar,
    sample_rate: u32,
    layout: Layout,
    voice: Voice,
    sample_index: u32,
    before: Scalar,
    pcm: i16,
) -> bool {
    exists|sum: Scalar| #[trigger]
        slot_mixed(kernel, curve, sustain, sample_rate, layout, voice, sample_index, before, sum)
            && slot_clipped(kernel, sum, pcm)
}

/// The factor 1 of an envelope that is held at full sustain.
pub open spec fn plain_gain() -> Gain {
    Gain { level: 0, weight: 1, scale: 1, remaining: 1, release: 1 }
}

/// A timeline of one note that starts at 0, with no envelope set, is laid
/// out as the sequential strategy lays the note out: the note writes `beats
/// * 60 / bpm * sample_rate` samples, rounded down, its sample `i` goes to
/// slot `i`, and the envelope's factor is 1 throughout. The buffer may have
/// one slot more, for a fraction of a sample that the note ends in.
///
/// What the timeline does to a sample on the way is its own: the amplitude
/// has the headroom taken off, the kernel mixes the sample into silence,
/// and the slot is softly clipped. A slot behind the note's last sample is
/// clipped silence.
pub proof fn lemma_single_note_from_the_start<K: Kernel>(
    kernel: &K,
    curve: Option<Seq<Scalar>>,
    note: TimelineNote,
    bpm: u8,
    sample_rate: u32,
    layout: Layout,
    stages: Seq<Seq<Scalar>>,
    out: Seq<i16>,
    slot: int,
)
    requires
        bpm != 0,
        time_units(note.start_time) == 0,
        rendered_on(
            kernel,
            curve,
            seq![note],
            bpm,
            default_adsr(),
            sample_rate,
            layout,
            stages,
            out,
        ),
        0 <= slot < out.len(),
    ensures
        layout.voices[0].start == 0,
        layout.voices[0].span == capped(
            samples_in_beats(note.duration, bpm, sample_rate),
            u32::MAX as int,
        ),
        layout.voices[0].span <= out.len() == layout.total,
        samples_in_beats(note.duration, bpm, sample_rate) + 1 <= usize::MAX ==> out.len()
            <= samples_in_beats(note.duration, bpm, sample_rate) + 1,
        slot < layout.voices[0].span ==> gain_at(
            layout.attack as int,
            layout.decay as int,
            layout.release as int,
            layout.voices[0].held as int,
            slot,
        ) == plain_gain() && plain_gain().value(one().value()) == 1real,
        slot < layout.voices[0].span ==> slot_voiced(
            kernel,
            curve,
            one(),
            sample_rate,
            layout,
            layout.voices[0],
            slot as u32,
            zero(),
            out[slot],
        ),
        slot >= layout.voices[0].span ==> slot_clipped(kernel, zero(), out[slot]),
{
    let notes = seq![note];
    let voice = layout.voices[0];
    let adsr = default_adsr();
    assert(notes[0] == note);
    assert(voice_given(kernel, notes[0], adsr.release, bpm, sample_rate, voice));
    // no time is no samples
    lemma_pow2_pos(1074);
    let unit = pow2(1074) as int;
    lemma_mul_strictly_positive(unit, bpm as int);
    assert(time_units(zero()) == 0);
    lemma_mul_basics((SECONDS_PER_MINUTE * sample_rate) as int);
    lemma_mul_basics(sample_rate as int);
    lemma_mul_basics((bpm * sample_rate) as int);
    lemma_div_basics(unit * bpm);
    lemma_div_basics(unit * 1);
    assert(samples_in_seconds(zero(), sample_rate) == 0);
    assert(layout.attack == 0 && layout.decay == 0 && layout.release == 0);
    assert(samples_in_beats(note.start_time, bpm, sample_rate) == 0);
    let weighted = time_units(note.duration) * (SECONDS_PER_MINUTE * sample_rate);
    assert(samples_in_span(note.duration, zero(), bpm, sample_rate) == samples_in_beats(
        note.duration,
        bpm,
        sample_rate,
    ));
    assert(voice.span == voice.held);
    // the buffer ends where the note ends, rounded up
    let end = samples_to_end(note.start_time, note.duration, zero(), bpm, sample_rate);
    assert(end == samples(weighted, bpm as int, true));
    assert(latest_end(notes, 0, zero(), bpm, sample_rate) == 0);
    lemma_mul_nonnegative(time_units(note.duration), (SECONDS_PER_MINUTE * sample_rate) as int);
    lemma_div_pos_is_pos(weighted, unit * bpm);
    assert(latest_end(notes, 1, zero(), bpm, sample_rate) == end) by {
        reveal_with_fuel(latest_end, 2);
    }
    // and the envelope is plain
    lemma_held_factor(plain_gain(), 1real);
    lemma_landmarks();
    assert((0real + 1real * 1real) / 1real == 1real) by (nonlinear_arith);
    // the slot itself
    assert(stages.last() == stages[1]);
    assert(voice_mixed(
        kernel,
        curve,
        adsr.sustain,
        sample_rate,
        layout,
        voice,
        voice.span as int,
        stages[0],
        stages[1],
    ));
    assert(stages[0][slot] == zero());
    assert(slot_clipped(kernel, stages[1][slot], out[slot]));
    if slot < voice.span {
        assert(slot_mixed(
            kernel,
            curve,
            adsr.sustain,
            sample_rate,
            layout,
            voice,
            slot as u32,
            zero(),
            stages[1][slot],
        ));
    } else {
        assert(stages[1][slot] == stages[0][slot]);
    }
}

/// A buffer of `total` slots that hold 0.
fn silent_buffer(total: usize) -> (sums: Vec<Scalar>)
    ensures
        sums@ == silence(total as int),
{
    let mut sums: Vec<Scalar> = Vec::new();
    let mut slot: usize = 0;
    while slot < total
        invariant
            slot <= total,
            sums@.len() == slot,
            forall|j: int| 0 <= j < slot ==> #[trigger] sums@[j] == zero(),
        decreases total - slot,
    {
        sums.push(Scalar::zero());
        slot += 1;
    }
    assert(sums@ =~= silence(total as int));
    sums
}

/// Mixes one note into the buffer, sample by sample.
fn mix_voice<K: Kernel>(
    kernel: &K,
    control_points: Option<&Vec<Scalar>>,
    sustain: Scalar,
    sample_rate: u32,
    Ghost(layout): Ghost<Layout>,
    attack: u32,
    decay: u32,
    release: u32,
    frequency: Frequency,
    amplitude: Scalar,
    start: usize,
    span: u32,
    held: u32,
    sums: &mut Vec<Scalar>,
)
    requires
        layout.attack == attack,
        layout.decay == decay,
        layout.release == release,
    ensures
        voice_mixed(
            kernel,
            curve_of(control_points),
            sustain,
            sample_rate,
            layout,
            Voice { frequency, amplitude, start, span, held },
            span as int,
            old(sums)@,
            final(sums)@,
        ),
{
    let ghost voice = Voice { frequency, amplitude, start, span, held };
    let ghost curve = curve_of(control_points);
    let ghost before = sums@;
    let total: usize = sums.len();
    let mut envelope = ADSREnvelope::new(attack, decay, sustain, release, held);
    let mut i: u32 = 0;
    while i < span
        invariant
            i <= span,
            voice == (Voice { frequency, amplitude, start, span, held }),
            curve == curve_of(control_points),
            layout.attack == attack,
            layout.decay == decay,
            layout.release == release,
            total == before.len(),
            envelope.attack() == attack,
            envelope.decay() == decay,
            envelope.release() == release,
            envelope.duration() == held,
            // as long as no sample was dropped, the envelope has seen them all
            i > 0 && start + i - 1 < total ==> envelope.last_factor() == held_gain(
                attack as int,
                decay as int,
                if i - 1 < held {
                    i - 1
                } else {
                    held as int
                },
            ),
            voice_mixed(kernel, curve, sustain, sample_rate, layout, voice, i as int, before, sums@),
        decreases span - i,
    {
        let ghost entry = sums@;
        if start < total && (i as usize) < total - start {
            let current_sample_index: usize = start + i as usize;
            let raw_sample = generate(kernel, control_points, frequency, amplitude, sample_rate, i);
            let gain = envelope.apply(i);
            assert(gain == gain_at(
                attack as int,
                decay as int,
                release as int,
                held as int,
                i as int,
            ));
            let sum = sums[current_sample_index];
            assert(sum == before[current_sample_index as int]);
            let mixed = kernel.mix(sum, raw_sample, gain, sustain);
            sums[current_sample_index] = mixed;
            assert(generated(
                kernel,
                curve,
                voice.frequency,
                voice.amplitude,
                sample_rate,
                i,
                raw_sample,
            ));
            assert(call_ensures(
                K::mix,
                (
                    kernel,
                    before[current_sample_index as int],
                    raw_sample,
                    gain_at(
                        layout.attack as int,
                        layout.decay as int,
                        layout.release as int,
                        voice.held as int,
                        i as int,
                    ),
                    sustain,
                ),
                mixed,
            ));
            assert(slot_mixed(
                kernel,
                curve,
                sustain,
                sample_rate,
                layout,
                voice,
                i,
                before[current_sample_index as int],
                mixed,
            ));
        }
        proof {
            assert forall|slot: int| 0 <= slot < before.len() implies if voice.start <= slot
                < voice.start + (i + 1) {
                slot_mixed(
                    kernel,
                    curve,
                    sustain,
                    sample_rate,
                    layout,
                    voice,
                    (slot - voice.start) as u32,
                    before[slot],
                    #[trigger] sums@[slot],
                )
            } else {
                sums@[slot] == before[slot]
            } by {
                if slot != start + i {
                    assert(sums@[slot] == entry[slot]);
                }
            }
        }
        i += 1;
    }
}

/// Turns the sums into PCM: the saturating curve, then the quantiser.
fn clip_all<K: Kernel>(kernel: &K, sums: &Vec<Scalar>) -> (out: Vec<i16>)
    ensures
        clipped(kernel, sums@, out@),
        within_full_scale(out@),
{
    let mut out: Vec<i16> = Vec::new();
    let mut slot: usize = 0;
    while slot < sums.len()
        invariant
            slot <= sums.len(),
            out@.len() == slot,
            within_full_scale(out@),
            forall|j: int| 0 <= j < slot ==> slot_clipped(kernel, sums@[j], #[trigger] out@[j]),
        decreases sums.len() - slot,
    {
        let soft = kernel.soft_clip(sums[slot]);
        let pcm = quantize(soft);
        out.push(pcm);
        slot += 1;
    }
    out
}

/// Renders a timeline. `control_points` chooses the generator.
fn render_timeline<K: Kernel>(
    kernel: &K,
    bpm: u8,
    notes: &Vec<TimelineNote>,
    control_points: Option<&Vec<Scalar>>,
    adsr: Adsr,
    sample_rate: u32,
) -> (result: Result<Vec<i16>, OrchestratorError>)
    requires
        bpm != 0,
        valid_timeline_notes(notes@),
    ensures
        result matches Ok(samples) && timeline_render(
            kernel,
            curve_of(control_points),
            notes@,
            bpm,
            adsr,
            sample_rate,
            samples@,
        ) && within_full_scale(samples@) && samples@.len() == timeline_slots(
            notes@,
            adsr.release,
            bpm,
            sample_rate,
        ),
{
    let ghost curve = curve_of(control_points);
    let total_samples = timeline_samples(notes.as_slice(), adsr.release, bpm, sample_rate);
    let mut pcm_sample_sums = silent_buffer(total_samples);
    let attack = envelope_samples(adsr.attack, sample_rate);
    let decay = envelope_samples(adsr.decay, sample_rate);
    let release = envelope_samples(adsr.release, sample_rate);
    let ghost mut layout = Layout {
        total: total_samples,
        attack,
        decay,
        release,
        voices: Seq::empty(),
    };
    let ghost mut stages: Seq<Seq<Scalar>> = seq![pcm_sample_sums@];
    let mut k: usize = 0;
    while k < notes.len()
        invariant
            k <= notes.len(),
            bpm != 0,
            valid_timeline_notes(notes@),
            curve == curve_of(control_points),
            layout.total == total_samples,
            layout.attack == attack,
            layout.decay == decay,
            layout.release == release,
            layout.voices.len() == k,
            stages.len() == k + 1,
            stages[0] == silence(total_samples as int),
            stages[k as int] == pcm_sample_sums@,
            pcm_sample_sums@.len() == total_samples,
            forall|n: int|
                0 <= n < k ==> voice_given(
                    kernel,
                    notes@[n],
                    adsr.release,
                    bpm,
                    sample_rate,
                    #[trigger] layout.voices[n],
                ),
            forall|n: int|
                0 <= n < k ==> voice_mixed(
                    kernel,
                    curve,
                    adsr.sustain,
                    sample_rate,
                    layout,
                    #[trigger] layout.voices[n],
                    layout.voices[n].span as int,
                    stages[n],
                    stages[n + 1],
                ),
        decreases notes.len() - k,
    {
        let note = notes[k];
        assert(note_verdict(notes@[k as int].id, note.octave, note.amplitude) is Ok);
        let frequency = match note.frequency() {
            Ok(frequency) => frequency,
            Err(error) => {
                return Err(error);
            },
        };
        let amplitude = kernel.scale_amplitude(
            note.amplitude,
            HEADROOM_NUMERATOR,
            HEADROOM_DENOMINATOR,
        );
        let start_sample = note_start(note.start_time, bpm, sample_rate);
        let samples_for_this_note = note_span(note.duration, adsr.release, bpm, sample_rate);
        let held = samples_per_note(note.duration, bpm, sample_rate);
        let ghost voice = Voice {
            frequency,
            amplitude,
            start: start_sample,
            span: samples_for_this_note,
            held,
        };
        let ghost grown = Layout { voices: layout.voices.push(voice), ..layout };
        proof {
            lemma_layout_grows(kernel, curve, adsr.sustain, sample_rate, layout, grown, stages);
        }
        mix_voice(
            kernel,
            control_points,
            adsr.sustain,
            sample_rate,
            Ghost(grown),
            attack,
            decay,
            release,
            frequency,
            amplitude,
            start_sample,
            samples_for_this_note,
            held,
            &mut pcm_sample_sums,
        );
        proof {
            layout = grown;
            stages = stages.push(pcm_sample_sums@);
        }
        k += 1;
    }
    let samples = clip_all(kernel, &pcm_sample_sums);
    proof {
        assert(stages.last() == pcm_sample_sums@);
        assert(rendered_on(
            kernel,
            curve,
            notes@,
            bpm,
            adsr,
            sample_rate,
            layout,
            stages,
            samples@,
        ));
    }
    Ok(samples)
}

/// The notes of a job that renders with the sine generator, and its
/// envelope settings.
pub struct TimelineSineOrchestrator {
    bpm: u8,
    notes: Vec<TimelineNote>,
    attack: Scalar,
    decay: Scalar,
    sustain: Scalar,
    release: Scalar,
}

/// The notes of a job that renders with the shaped generator, its curve and
/// its envelope settings.
pub struct TimelineBezierOrchestrator {
    bpm: u8,
    notes: Vec<TimelineNote>,
    control_points: Vec<Scalar>,
    attack: Scalar,
    decay: Scalar,
    sustain: Scalar,
    release: Scalar,
}

/// A job of the timeline strategy.
pub enum TimelineOrchestrator {
    Sine(TimelineSineOrchestrator),
    Bezier(TimelineBezierOrchestrator),
}

impl TimelineSineOrchestrator {
    #[verifier::type_invariant]
    spec fn well_formed(self) -> bool {
        self.bpm != 0 && valid_timeline_notes(self.notes@)
    }

    /// Beats per minute.
    pub closed spec fn bpm(self) -> u8 {
        self.bpm
    }

    /// The notes, in the order in which they are mixed.
    pub closed spec fn notes(self) -> Seq<TimelineNote> {
        self.notes@
    }

    /// The envelope settings.
    pub closed spec fn adsr(self) -> Adsr {
        Adsr {
            attack: self.attack,
            decay: self.decay,
            sustain: self.sustain,
            release: self.release,
        }
    }

    /// Renders the timeline with the sine generator: one sample per slot of
    /// the buffer, which reaches to the end of the last release, each within
    /// full scale.
    pub fn pcm_samples<K: Kernel>(&self, sample_rate: u32, kernel: &K) -> (result: Result<
        Vec<i16>,
        OrchestratorError,
    >)
        ensures
            result matches Ok(samples) && timeline_render(
                kernel,
                None,
                self.notes(),
                self.bpm(),
                self.adsr(),
                sample_rate,
                samples@,
            ) && within_full_scale(samples@) && samples@.len() == timeline_slots(
                self.notes(),
                self.adsr().release,
                self.bpm(),
                sample_rate,
            ),
    {
        proof {
            use_type_invariant(self);
        }
        let adsr = Adsr {
            attack: self.attack,
            decay: self.decay,
            sustain: self.sustain,
            release: self.release,
        };
        render_timeline(kernel, self.bpm, &self.notes, None, adsr, sample_rate)
    }
}

impl TimelineBezierOrchestrator {
    #[verifier::type_invariant]
    spec fn well_formed(self) -> bool {
        self.bpm != 0 && valid_timeline_notes(self.notes@) && valid_control_points(
            self.control_points@,
        )
    }

    /// Beats per minute.
    pub closed spec fn bpm(self) -> u8 {
        self.bpm
    }

    /// The notes, in the order in which they are mixed.
    pub closed spec fn notes(self) -> Seq<TimelineNote> {
        self.notes@
    }

    /// The curve of the shaped generator.
    pub closed spec fn control_points(self) -> Seq<Scalar> {
        self.control_points@
    }

    /// The envelope settings.
    pub closed spec fn adsr(self) -> Adsr {
        Adsr {
            attack: self.attack,
            decay: self.decay,
            sustain: self.sustain,
            release: self.release,
        }
    }

    /// Renders the timeline with the shaped generator: one sample per slot
    /// of the buffer, which reaches to the end of the last release, each
    /// within full scale.
    pub fn pcm_samples<K: Kernel>(&self, sample_rate: u32, kernel: &K) -> (result: Result<
        Vec<i16>,
        OrchestratorError,
    >)
        ensures
            result matches Ok(samples) && timeline_render(
                kernel,
                Some(self.control_points()),
                self.notes(),
                self.bpm(),
                self.adsr(),
                sample_rate,
                samples@,
            ) && within_full_scale(samples@) && samples@.len() == timeline_slots(
                self.notes(),
                self.adsr().release,
                self.bpm(),
                sample_rate,
            ),
            valid_control_points(self.control_points()),
    {
        proof {
            use_type_invariant(self);
        }
        let adsr = Adsr {
            attack: self.attack,
            decay: self.decay,
            sustain: self.sustain,
            release: self.release,
        };
        render_timeline(
            kernel,
            self.bpm,
            &self.notes,
            Some(&self.control_points),
            adsr,
            sample_rate,
        )
    }
}

impl TimelineOrchestrator {
    /// Beats per minute.
    pub open spec fn bpm(self) -> u8 {
        match self {
            TimelineOrchestrator::Sine(sine) => sine.bpm(),
            TimelineOrchestrator::Bezier(bezier) => bezier.bpm(),
        }
    }

    /// The notes, in the order in which they are mixed.
    pub open spec fn notes(self) -> Seq<TimelineNote> {
        match self {
            TimelineOrchestrator::Sine(sine) => sine.notes(),
            TimelineOrchestrator::Bezier(bezier) => bezier.notes(),
        }
    }

    /// The curve of the shaped generator, if the job uses it.
    pub open spec fn curve(self) -> Option<Seq<Scalar>> {
        match self {
            TimelineOrchestrator::Sine(_) => None,
            TimelineOrchestrator::Bezier(bezier) => Some(bezier.control_points()),
        }
    }

    /// The envelope settings.
    pub open spec fn adsr(self) -> Adsr {
        match self {
            TimelineOrchestrator::Sine(sine) => sine.adsr(),
            TimelineOrchestrator::Bezier(bezier) => bezier.adsr(),
        }
    }

    /// Renders the job: see the two strategies' own `pcm_samples`.
    pub fn pcm_samples<K: Kernel>(&self, sample_rate: u32, kernel: &K) -> (result: Result<
        Vec<i16>,
        OrchestratorError,
    >)
        ensures
            result matches Ok(samples) && timeline_render(
                kernel,
                self.curve(),
                self.notes(),
                self.bpm(),
                self.adsr(),
                sample_rate,
                samples@,
            ) && within_full_scale(samples@) && samples@.len() == timeline_slots(
                self.notes(),
                self.adsr().release,
                self.bpm(),
                sample_rate,
            ),
    {
        match self {
            TimelineOrchestrator::Sine(sine) => sine.pcm_samples(sample_rate, kernel),
            TimelineOrchestrator::Bezier(bezier) => bezier.pcm_samples(sample_rate, kernel),
        }
    }

    /// Builds a job. The tempo is checked first, then the notes, then the
    /// curve; the first of them that is not valid gives the error, and
    /// nothing is built. A job without envelope settings gets no attack, no
    /// decay, full sustain and no release. With a curve the job uses the
    /// shaped generator, without one the sine generator.
    pub fn new(
        bpm: u8,
        notes: Vec<TimelineNote>,
        control_points: Option<Vec<Scalar>>,
        adsr: Option<(Scalar, Scalar, Scalar, Scalar)>,
    ) -> (result: Result<TimelineOrchestrator, OrchestratorError>)
        ensures
            result is Ok <==> bpm != 0 && valid_timeline_notes(notes@) && (
            control_points matches Some(points) ==> valid_control_points(points@)),
            match result {
                Ok(job) => {
                    &&& job_verdict(
                        bpm_verdict(bpm),
                        list_verdict(timeline_note_verdicts(notes@)),
                        curve_of_owned(control_points),
                    ) is Ok
                    &&& job.bpm() == bpm
                    &&& job.notes() == notes@
                    &&& job.curve() == curve_of_owned(control_points)
                    &&& job.adsr() == adsr_of(adsr)
                    &&& bpm != 0
                    &&& valid_timeline_notes(notes@)
                    &&& control_points matches Some(points) ==> valid_control_points(points@)
                },
                Err(error) => job_verdict(
                    bpm_verdict(bpm),
                    list_verdict(timeline_note_verdicts(notes@)),
                    curve_of_owned(control_points),
                ) == Err::<(), OrchestratorError>(error),
            },
    {
        match validate_bpm(bpm) {
            Ok(()) => {},
            Err(error) => {
                return Err(error);
            },
        }
        match validate_timeline_notes(notes.as_slice()) {
            Ok(()) => {},
            Err(error) => {
                return Err(error);
            },
        }
        let (attack, decay, sustain, release) = match adsr {
            Some(given) => given,
            None => (Scalar::zero(), Scalar::zero(), Scalar::one(), Scalar::zero()),
        };
        match control_points {
            Some(points) => {
                match validate_control_points(points.as_slice()) {
                    Ok(()) => {},
                    Err(error) => {
                        return Err(error);
                    },
                }
                Ok(
                    TimelineOrchestrator::Bezier(
                        TimelineBezierOrchestrator {
                            bpm,
                            notes,
                            control_points: points,
                            attack,
                            decay,
                            sustain,
                            release,
                        },
                    ),
                )
            },
            None => Ok(
                TimelineOrchestrator::Sine(
                    TimelineSineOrchestrator { bpm, notes, attack, decay, sustain, release },
                ),
            ),
        }
    }

    /// Whether the job renders with the shaped generator.
    pub fn is_bezier(&self) -> (shaped: bool)
        ensures
            shaped == (self is Bezier),
            shaped == (self.curve() is Some),
    {
        match self {
            TimelineOrchestrator::Sine(_) => false,
            TimelineOrchestrator::Bezier(_) => true,
        }
    }

    /// The number of notes, which is never zero.
    pub fn note_count(&self) -> (count: usize)
        ensures
            count == self.notes().len(),
            count > 0,
    {
        match self {
            TimelineOrchestrator::Sine(sine) => {
                proof {
                    use_type_invariant(sine);
                }
                sine.notes.len()
            },
            TimelineOrchestrator::Bezier(bezier) => {
                proof {
                    use_type_invariant(bezier);
                }
                bezier.notes.len()
            },
        }
    }
}

/// What was mixed on a layout is mixed on the layout with one more voice:
/// a note's mixing looks only at the envelope's durations.
proof fn lemma_layout_grows<K: Kernel>(
    kernel: &K,
    curve: Option<Seq<Scalar>>,
    sustain: Scalar,
    sample_rate: u32,
    layout: Layout,
    grown: Layout,
    stages: Seq<Seq<Scalar>>,
)
    requires
        grown.attack == layout.attack,
        grown.decay == layout.decay,
        grown.release == layout.release,
        stages.len() == layout.voices.len() + 1,
        grown.voices.len() == layout.voices.len() + 1,
        forall|n: int| 0 <= n < layout.voices.len() ==> grown.voices[n] == layout.voices[n],
        forall|n: int|
            0 <= n < layout.voices.len() ==> voice_mixed(
                kernel,
                curve,
                sustain,
                sample_rate,
                layout,
                #[trigger] layout.voices[n],
                layout.voices[n].span as int,
                stages[n],
                stages[n + 1],
            ),
    ensures
        forall|n: int|
            0 <= n < layout.voices.len() ==> voice_mixed(
                kernel,
                curve,
                sustain,
                sample_rate,
                grown,
                #[trigger] grown.voices[n],
                grown.voices[n].span as int,
                stages[n],
                stages[n + 1],
            ),
{
    assert forall|n: int| 0 <= n < layout.voices.len() implies voice_mixed(
        kernel,
        curve,
        sustain,
        sample_rate,
        grown,
        #[trigger] grown.voices[n],
        grown.voices[n].span as int,
        stages[n],
        stages[n + 1],
    ) by {
        let voice = layout.voices[n];
        assert(voice_mixed(
            kernel,
            curve,
            sustain,
            sample_rate,
            layout,
            voice,
            voice.span as int,
            stages[n],
            stages[n + 1],
        ));
        assert forall|slot: int| 0 <= slot < stages[n].len() implies if voice.start <= slot
            < voice.start + voice.span {
            slot_mixed(
                kernel,
                curve,
                sustain,
                sample_rate,
                grown,
                voice,
                (slot - voice.start) as u32,
                stages[n][slot],
                #[trigger] stages[n + 1][slot],
            )
        } else {
            stages[n + 1][slot] == stages[n][slot]
        } by {
            if voice.start <= slot < voice.start + voice.span {
                assert(slot_mixed(
                    kernel,
                    curve,
                    sustain,
                    sample_rate,
                    layout,
                    voice,
                    (slot - voice.start) as u32,
                    stages[n][slot],
                    stages[n + 1][slot],
                ));
            }
        }
    }
}

} // verus!
