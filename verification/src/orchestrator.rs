//! The sequential strategy: notes play end to end, each from its own sample
//! 0, with no envelope.

use crate::errors::OrchestratorError;
use crate::grid::{capped, samples_in_beats, samples_per_note};
use crate::kernel::Kernel;
use crate::oscillator::{
    curve_of, curve_of_owned, generate, generated, pcm_of, quantize, within_full_scale,
};
use crate::pitch::{frequency_of, pitch_of, Frequency, MAX_NOTE_ID};
use crate::scalar::Scalar;
use crate::validation::{
    bpm_verdict, job_verdict, list_verdict, note_verdict, note_verdicts, valid_control_points,
    valid_notes, validate_bpm, validate_control_points, validate_notes,
};
use vstd::prelude::*;

verus! {

/// A note of the sequential strategy: a pitch, a length in beats and a
/// loudness.
#[derive(Clone, Copy, Debug, PartialEq, Eq, Structural)]
pub struct Note {
    pub id: u8,
    pub octave: u8,
    pub beats: Scalar,
    pub amplitude: Scalar,
}

impl Note {
    /// A note with these fields. Nothing is checked here: see the validation.
    pub fn new(id: u8, octave: u8, beats: Scalar, amplitude: Scalar) -> (note: Note)
        ensures
            note == (Note { id, octave, beats, amplitude }),
    {
        Note { id, octave, beats, amplitude }
    }

    /// The chromatic id: 0 is C, 9 is A, 11 is B.
    pub fn id(&self) -> (id: u8)
        ensures
            id == self.id,
    {
        self.id
    }

    /// The octave.
    pub fn octave(&self) -> (octave: u8)
        ensures
            octave == self.octave,
    {
        self.octave
    }

    /// The length in beats.
    pub fn beats(&self) -> (beats: Scalar)
        ensures
            beats == self.beats,
    {
        self.beats
    }

    /// The loudness, from 0 to 1.
    pub fn amplitude(&self) -> (amplitude: Scalar)
        ensures
            amplitude == self.amplitude,
    {
        self.amplitude
    }

    /// The note's frequency, or `InvalidNoteId` for a chromatic id above 11.
    pub fn frequency(&self) -> (result: Result<Frequency, OrchestratorError>)
        ensures
            self.id <= MAX_NOTE_ID ==> result == Ok::<Frequency, OrchestratorError>(
                pitch_of(self.id, self.octave),
            ),
            self.id > MAX_NOTE_ID ==> result == Err::<Frequency, OrchestratorError>(
                OrchestratorError::InvalidNoteId(self.id),
            ),
    {
        frequency_of(self.id, self.octave)
    }
}

/// The samples of a note: `beats * 60 / bpm * sample_rate`, rounded down,
/// and no more than 32 bits count.
pub open spec fn note_length(note: Note, bpm: u8, sample_rate: u32) -> u32 {
    capped(samples_in_beats(note.beats, bpm, sample_rate), u32::MAX as int) as u32
}

/// The samples of each note of a list.
pub open spec fn note_lengths(notes: Seq<Note>, bpm: u8, sample_rate: u32) -> Seq<u32> {
    Seq::new(notes.len(), |k: int| note_length(notes[k], bpm, sample_rate))
}

/// `pcm` is the PCM value of a sample that the kernel's generator returned
/// for this note at `sample_index`: the shaped generator if there is a
/// curve, the sine generator if there is none.
pub open spec fn note_sample<K: Kernel>(
    kernel: &K,
    curve: Option<Seq<Scalar>>,
    note: Note,
    sample_rate: u32,
    sample_index: u32,
    pcm: i16,
) -> bool {
    exists|raw: Scalar|
        pcm == pcm_of(raw) && #[trigger] generated(
            kernel,
            curve,
            pitch_of(note.id, note.octave),
            note.amplitude,
            sample_rate,
            sample_index,
            raw,
        )
}

/// Where the block of note `k` begins: the lengths of the notes before it,
/// added up.
pub open spec fn block_start(lengths: Seq<u32>, k: int) -> int
    decreases k,
{
    if k <= 0 {
        0
    } else {
        block_start(lengths, k - 1) + lengths[k - 1]
    }
}

/// The place in the output of sample `i` of note `k`.
pub open spec fn place(lengths: Seq<u32>, k: int, i: int) -> int {
    block_start(lengths, k) + i
}

/// `out` is the sequential rendering of `notes`: the notes follow one
/// another in the order of the list, each block right behind the one
/// before and as long as its note, so that the output is as long as the
/// notes added up; and sample `i` of a block is the note's generator at
/// index `i`.
pub open spec fn sequential_render<K: Kernel>(
    kernel: &K,
    curve: Option<Seq<Scalar>>,
    notes: Seq<Note>,
    bpm: u8,
    sample_rate: u32,
    out: Seq<i16>,
) -> bool {
    let lengths = note_lengths(notes, bpm, sample_rate);
    &&& out.len() == block_start(lengths, notes.len() as int)
    &&& forall|k: int, i: int|
        0 <= k < notes.len() && 0 <= i < lengths[k] ==> note_sample(
            kernel,
            curve,
            notes[k],
            sample_rate,
            i as u32,
            out[#[trigger] place(lengths, k, i)],
        )
}

/// No block begins before the output does.
pub proof fn lemma_block_start_not_negative(lengths: Seq<u32>, k: int)
    ensures
        0 <= block_start(lengths, k),
    decreases k,
{
    if k > 0 {
        lemma_block_start_not_negative(lengths, k - 1);
    }
}

/// The blocks lie in the order of the notes and do not overlap: a later
/// block begins where the one before it ends or further on, and the output
/// ends with the last block.
pub proof fn lemma_blocks_in_order(lengths: Seq<u32>, k: int, later: int)
    requires
        0 <= k < later <= lengths.len(),
    ensures
        block_start(lengths, k) + lengths[k] <= block_start(lengths, later),
        block_start(lengths, k + 1) == block_start(lengths, k) + lengths[k],
    decreases later,
{
    if later > k + 1 {
        lemma_blocks_in_order(lengths, k, later - 1);
    }
}

/// The notes of a job that renders with the sine generator.
pub struct SineOrchestrator {
    bpm: u8,
    notes: Vec<Note>,
}

/// The notes of a job that renders with the shaped generator, and its curve.
pub struct BezierOrchestrator {
    bpm: u8,
    notes: Vec<Note>,
    control_points: Vec<Scalar>,
}

/// A job of the sequential strategy.
pub enum Orchestrator {
    Sine(SineOrchestrator),
    Bezier(BezierOrchestrator),
}

impl SineOrchestrator {
    #[verifier::type_invariant]
    spec fn well_formed(self) -> bool {
        self.bpm != 0 && valid_notes(self.notes@)
    }

    /// Beats per minute.
    pub closed spec fn bpm(self) -> u8 {
        self.bpm
    }

    /// The notes, in the order in which they play.
    pub closed spec fn notes(self) -> Seq<Note> {
        self.notes@
    }

    /// Renders the notes end to end with the sine generator. The output is
    /// as long as the notes' lengths added up, holds the notes in the order
    /// of the list with nothing between them, and stays within full scale.
    pub fn pcm_samples<K: Kernel>(&self, sample_rate: u32, kernel: &K) -> (result: Result<
        Vec<i16>,
        OrchestratorError,
    >)
        ensures
            result matches Ok(samples) && sequential_render(
                kernel,
                None,
                self.notes(),
                self.bpm(),
                sample_rate,
                samples@,
            ) && within_full_scale(samples@),
    {
        proof {
            use_type_invariant(self);
        }
        render_notes(kernel, self.bpm, &self.notes, None, sample_rate)
    }
}

impl BezierOrchestrator {
    #[verifier::type_invariant]
    spec fn well_formed(self) -> bool {
        self.bpm != 0 && valid_notes(self.notes@) && valid_control_points(self.control_points@)
    }

    /// Beats per minute.
    pub closed spec fn bpm(self) -> u8 {
        self.bpm
    }

    /// The notes, in the order in which they play.
    pub closed spec fn notes(self) -> Seq<Note> {
        self.notes@
    }

    /// The curve of the shaped generator.
    pub closed spec fn control_points(self) -> Seq<Scalar> {
        self.control_points@
    }

    /// Renders the notes end to end with the shaped generator. The output
    /// is as long as the notes' lengths added up, holds the notes in the
    /// order of the list with nothing between them, and stays within full
    /// scale.
    pub fn pcm_samples<K: Kernel>(&self, sample_rate: u32, kernel: &K) -> (result: Result<
        Vec<i16>,
        OrchestratorError,
    >)
        ensures
            result matches Ok(samples) && sequential_render(
                kernel,
                Some(self.control_points()),
                self.notes(),
                self.bpm(),
                sample_rate,
                samples@,
            ) && within_full_scale(samples@),
            valid_control_points(self.control_points()),
    {
        proof {
            use_type_invariant(self);
        }
        render_notes(kernel, self.bpm, &self.notes, Some(&self.control_points), sample_rate)
    }
}

impl Orchestrator {
    /// Beats per minute.
    pub open spec fn bpm(self) -> u8 {
        match self {
            Orchestrator::Sine(sine) => sine.bpm(),
            Orchestrator::Bezier(bezier) => bezier.bpm(),
        }
    }

    /// The notes, in the order in which they play.
    pub open spec fn notes(self) -> Seq<Note> {
        match self {
            Orchestrator::Sine(sine) => sine.notes(),
            Orchestrator::Bezier(bezier) => bezier.notes(),
        }
    }

    /// The curve of the shaped generator, if the job uses it.
    pub open spec fn curve(self) -> Option<Seq<Scalar>> {
        match self {
            Orchestrator::Sine(_) => None,
            Orchestrator::Bezier(bezier) => Some(bezier.control_points()),
        }
    }

    /// Renders the job: see the two strategies' own `pcm_samples`.
    pub fn pcm_samples<K: Kernel>(&self, sample_rate: u32, kernel: &K) -> (result: Result<
        Vec<i16>,
        OrchestratorError,
    >)
        ensures
            result matches Ok(samples) && sequential_render(
                kernel,
                self.curve(),
                self.notes(),
                self.bpm(),
                sample_rate,
                samples@,
            ) && within_full_scale(samples@),
    {
        match self {
            Orchestrator::Sine(sine) => sine.pcm_samples(sample_rate, kernel),
            Orchestrator::Bezier(bezier) => bezier.pcm_samples(sample_rate, kernel),
        }
    }

    /// Builds a job. The tempo is checked first, then the notes, then the
    /// curve; the first of them that is not valid gives the error, and
    /// nothing is built. With a curve the job uses the shaped generator,
    /// without one the sine generator.
    pub fn new(bpm: u8, notes: Vec<Note>, control_points: Option<Vec<Scalar>>) -> (result: Result<
        Orchestrator,
        OrchestratorError,
    >)
        ensures
            result is Ok <==> bpm != 0 && valid_notes(notes@) && (control_points matches Some(
                points,
            ) ==> valid_control_points(points@)),
            match result {
                Ok(job) => {
                    &&& job_verdict(
                        bpm_verdict(bpm),
                        list_verdict(note_verdicts(notes@)),
                        curve_of_owned(control_points),
                    ) is Ok
                    &&& job.bpm() == bpm
                    &&& job.notes() == notes@
                    &&& job.curve() == curve_of_owned(control_points)
                    &&& bpm != 0
                    &&& valid_notes(notes@)
                    &&& control_points matches Some(points) ==> valid_control_points(points@)
                },
                Err(error) => job_verdict(
                    bpm_verdict(bpm),
                    list_verdict(note_verdicts(notes@)),
                    curve_of_owned(control_points),
                ) == Err::<(), OrchestratorError>(error),
            },
    {
        match validate_bpm(bpm) {
            Ok(()) => {},
            Err(error) => {
                return Err(error);
            },
        }
        match validate_notes(notes.as_slice()) {
            Ok(()) => {},
            Err(error) => {
                return Err(error);
            },
        }
        match control_points {
            Some(points) => {
                match validate_control_points(points.as_slice()) {
                    Ok(()) => {},
                    Err(error) => {
                        return Err(error);
                    },
                }
                Ok(Orchestrator::Bezier(BezierOrchestrator { bpm, notes, control_points: points }))
            },
            None => Ok(Orchestrator::Sine(SineOrchestrator { bpm, notes })),
        }
    }

    /// Whether the job renders with the shaped generator.
    pub fn is_bezier(&self) -> (shaped: bool)
        ensures
            shaped == (self is Bezier),
            shaped == (self.curve() is Some),
    {
        match self {
            Orchestrator::Sine(_) => false,
            Orchestrator::Bezier(_) => true,
        }
    }

    /// The number of notes, which is never zero.
    pub fn note_count(&self) -> (count: usize)
        ensures
            count == self.notes().len(),
            count > 0,
    {
        match self {
            Orchestrator::Sine(sine) => {
                proof {
                    use_type_invariant(sine);
                }
                sine.notes.len()
            },
            Orchestrator::Bezier(bezier) => {
                proof {
                    use_type_invariant(bezier);
                }
                bezier.notes.len()
            },
        }
    }
}

/// Renders the notes one after the other. `control_points` chooses the
/// generator.
fn render_notes<K: Kernel>(
    kernel: &K,
    bpm: u8,
    notes: &Vec<Note>,
    control_points: Option<&Vec<Scalar>>,
    sample_rate: u32,
) -> (result: Result<Vec<i16>, OrchestratorError>)
    requires
        bpm != 0,
        valid_notes(notes@),
    ensures
        result matches Ok(samples) && sequential_render(
            kernel,
            curve_of(control_points),
            notes@,
            bpm,
            sample_rate,
            samples@,
        ) && within_full_scale(samples@),
{
    let ghost curve = curve_of(control_points);
    let ghost lengths = note_lengths(notes@, bpm, sample_rate);
    let mut samples: Vec<i16> = Vec::new();
    let mut k: usize = 0;
    while k < notes.len()
        invariant
            k <= notes.len(),
            bpm != 0,
            valid_notes(notes@),
            curve == curve_of(control_points),
            lengths == note_lengths(notes@, bpm, sample_rate),
            samples@.len() == block_start(lengths, k as int),
            within_full_scale(samples@),
            forall|n: int, i: int|
                0 <= n < k && 0 <= i < lengths[n] ==> note_sample(
                    kernel,
                    curve,
                    notes@[n],
                    sample_rate,
                    i as u32,
                    samples@[#[trigger] place(lengths, n, i)],
                ),
        decreases notes.len() - k,
    {
        let note = notes[k];
        assert(note_verdict(notes@[k as int].id, note.octave, note.amplitude) is Ok);
        let frequency = match note.frequency() {
            Ok(frequency) => frequency,
            Err(error) => {
                return Err(error);
            },
        };
        let samples_per_note = samples_per_note(note.beats, bpm, sample_rate);
        assert(samples_per_note == lengths[k as int]);
        let ghost before = samples@;
        let mut i: u32 = 0;
        while i < samples_per_note
            invariant
                i <= samples_per_note,
                k < notes.len(),
                note == notes@[k as int],
                frequency == pitch_of(note.id, note.octave),
                curve == curve_of(control_points),
                samples@.len() == before.len() + i,
                before.len() == block_start(lengths, k as int),
                forall|j: int| 0 <= j < before.len() ==> samples@[j] == before[j],
                within_full_scale(samples@),
                forall|j: int|
                    0 <= j < i ==> note_sample(
                        kernel,
                        curve,
                        note,
                        sample_rate,
                        j as u32,
                        samples@[#[trigger] place(lengths, k as int, j)],
                    ),
            decreases samples_per_note - i,
        {
            let raw = generate(kernel, control_points, frequency, note.amplitude, sample_rate, i);
            let pcm = quantize(raw);
            samples.push(pcm);
            assert(samples@[place(lengths, k as int, i as int)] == pcm);
            i += 1;
        }
        proof {
            assert forall|n: int, j: int| 0 <= n < k + 1 && 0 <= j < lengths[n] implies note_sample(
                kernel,
                curve,
                notes@[n],
                sample_rate,
                j as u32,
                samples@[#[trigger] place(lengths, n, j)],
            ) by {
                if n < k {
                    lemma_blocks_in_order(lengths, n, k as int);
                    lemma_block_start_not_negative(lengths, n);
                    let at = place(lengths, n, j);
                    assert(0 <= at < before.len());
                    assert(samples@[at] == before[at]);
                }
            }
            assert(block_start(lengths, k + 1) == block_start(lengths, k as int) + lengths[k as int]);
        }
        k += 1;
    }
    Ok(samples)
}

} // verus!
