//! What a render job has to pass before it is built.
//!
//! Each rule has a verdict, a spec function that says for every input
//! whether it passes and, if not, with which error. The first thing found
//! wrong decides.

use crate::errors::{ControlPointFault, OrchestratorError};
use crate::orchestrator::Note;
use crate::pitch::MAX_NOTE_ID;
use crate::scalar::{
    lemma_landmarks, lemma_less_than_orders_values, lemma_units_order, minus_one, one, zero,
    Scalar, ONE_BITS,
};
use crate::timeline_orchestrator::TimelineNote;
use vstd::prelude::*;

verus! {

/// Largest octave.
pub const MAX_OCTAVE: u8 = 8;

/// Number of control points of a curve.
pub const CONTROL_POINTS: usize = 4;

/// What a rule of validation says of an input.
pub type Verdict = Result<(), OrchestratorError>;

/// An amplitude is valid if it is a number from 0 to 1. What is no number
/// is no valid amplitude.
pub open spec fn valid_amplitude(amplitude: Scalar) -> bool {
    amplitude.within(zero(), one())
}

/// A control point is valid if it is a number from -1 to 1. What is no
/// number is no valid control point.
pub open spec fn valid_control_point(point: Scalar) -> bool {
    point.within(minus_one(), one())
}

/// An amplitude is valid if and only if it is a finite number with `0 <=
/// amplitude <= 1`. Neither a NaN nor an infinity is valid.
pub proof fn lemma_valid_amplitudes(amplitude: Scalar)
    ensures
        valid_amplitude(amplitude) <==> amplitude.is_finite() && 0real <= amplitude.value()
            <= 1real,
{
    lemma_landmarks();
    if !amplitude.is_nan() {
        lemma_less_than_orders_values(amplitude, zero());
        lemma_less_than_orders_values(one(), amplitude);
        if !amplitude.is_finite() {
            lemma_infinity_is_beyond_one(amplitude);
        }
    }
}

/// A control point is valid if and only if it is a finite number with `-1
/// <= point <= 1`. Neither a NaN nor an infinity is valid.
pub proof fn lemma_valid_control_points(point: Scalar)
    ensures
        valid_control_point(point) <==> point.is_finite() && -1real <= point.value() <= 1real,
{
    lemma_landmarks();
    if !point.is_nan() {
        lemma_less_than_orders_values(point, minus_one());
        lemma_less_than_orders_values(one(), point);
        if !point.is_finite() {
            lemma_infinity_is_beyond_one(point);
        }
    }
}

/// An infinity lies beyond 1 on its own side.
proof fn lemma_infinity_is_beyond_one(infinity: Scalar)
    requires
        !infinity.is_nan(),
        !infinity.is_finite(),
    ensures
        infinity.is_negative() ==> infinity.less_than(minus_one()) && infinity.less_than(zero()),
        !infinity.is_negative() ==> one().less_than(infinity),
{
    lemma_landmarks();
    assert(one().magnitude() == ONE_BITS as nat);
    assert(minus_one().magnitude() == ONE_BITS as nat);
    lemma_units_order(ONE_BITS as nat, infinity.magnitude());
}

/// The verdict on a tempo: zero is refused.
pub open spec fn bpm_verdict(bpm: u8) -> Verdict {
    if bpm == 0 {
        Err(OrchestratorError::InvalidBpm(bpm))
    } else {
        Ok(())
    }
}

/// The verdict on one note's pitch and loudness: the chromatic id is looked
/// at first, then the octave, then the amplitude.
pub open spec fn note_verdict(id: u8, octave: u8, amplitude: Scalar) -> Verdict {
    if id > MAX_NOTE_ID {
        Err(OrchestratorError::InvalidNoteId(id))
    } else if octave > MAX_OCTAVE {
        Err(OrchestratorError::InvalidOctave(octave))
    } else if !valid_amplitude(amplitude) {
        Err(OrchestratorError::InvalidAmplitude(amplitude))
    } else {
        Ok(())
    }
}

/// The verdict on a list of verdicts, one per note: an empty list is
/// refused, and otherwise the first error in the list decides.
pub open spec fn list_verdict(verdicts: Seq<Verdict>) -> Verdict
    decreases verdicts.len(),
{
    if verdicts.len() == 0 {
        Err(OrchestratorError::EmptyNotes)
    } else if verdicts[0] is Err || verdicts.len() == 1 {
        verdicts[0]
    } else {
        list_verdict(verdicts.skip(1))
    }
}

/// The verdicts on the notes of a list.
pub open spec fn note_verdicts(notes: Seq<Note>) -> Seq<Verdict> {
    Seq::new(notes.len(), |k: int| note_verdict(notes[k].id, notes[k].octave, notes[k].amplitude))
}

/// The verdicts on the notes of a timeline.
pub open spec fn timeline_note_verdicts(notes: Seq<TimelineNote>) -> Seq<Verdict> {
    Seq::new(notes.len(), |k: int| note_verdict(notes[k].id, notes[k].octave, notes[k].amplitude))
}

/// Every note of the list is valid, and there is at least one.
pub open spec fn valid_notes(notes: Seq<Note>) -> bool {
    &&& notes.len() > 0
    &&& forall|k: int|
        0 <= k < notes.len() ==> note_verdict(
            #[trigger] notes[k].id,
            notes[k].octave,
            notes[k].amplitude,
        ) is Ok
}

/// Every note of the timeline is valid, and there is at least one.
pub open spec fn valid_timeline_notes(notes: Seq<TimelineNote>) -> bool {
    &&& notes.len() > 0
    &&& forall|k: int|
        0 <= k < notes.len() ==> note_verdict(
            #[trigger] notes[k].id,
            notes[k].octave,
            notes[k].amplitude,
        ) is Ok
}

/// A curve is four control points, each within [-1, 1].
pub open spec fn valid_control_points(points: Seq<Scalar>) -> bool {
    &&& points.len() == CONTROL_POINTS
    &&& forall|k: int| 0 <= k < points.len() ==> valid_control_point(#[trigger] points[k])
}

/// The index of the first control point from `from` on that is not valid,
/// or the length of the list if there is none.
pub open spec fn first_stray_point(points: Seq<Scalar>, from: int) -> int
    decreases points.len() - from,
{
    if from < 0 || from >= points.len() || !valid_control_point(points[from]) {
        from
    } else {
        first_stray_point(points, from + 1)
    }
}

/// The verdict on a curve: a list of another length than four is refused
/// with its length, and otherwise the first point outside [-1, 1] with its
/// index and value.
pub open spec fn control_points_verdict(points: Seq<Scalar>) -> Verdict {
    let stray = first_stray_point(points, 0);
    if points.len() != CONTROL_POINTS {
        Err(
            OrchestratorError::InvalidControlPoints(
                ControlPointFault::Count(points.len() as usize),
            ),
        )
    } else if stray < points.len() {
        Err(
            OrchestratorError::InvalidControlPoints(
                ControlPointFault::OutOfRange { index: stray as usize, value: points[stray] },
            ),
        )
    } else {
        Ok(())
    }
}

/// The verdict on a job: on its tempo first, then on its notes, then on its
/// curve if it has one.
pub open spec fn job_verdict(
    tempo: Verdict,
    notes: Verdict,
    curve: Option<Seq<Scalar>>,
) -> Verdict {
    if tempo is Err {
        tempo
    } else if notes is Err {
        notes
    } else {
        match curve {
            Some(points) => control_points_verdict(points),
            None => Ok(()),
        }
    }
}

/// A note passes if and only if its chromatic id is at most 11, its octave
/// at most 8 and its amplitude a number from 0 to 1.
pub proof fn lemma_note_verdict(id: u8, octave: u8, amplitude: Scalar)
    ensures
        note_verdict(id, octave, amplitude) is Ok <==> id <= MAX_NOTE_ID && octave <= MAX_OCTAVE
            && amplitude.is_finite() && 0real <= amplitude.value() <= 1real,
{
    lemma_valid_amplitudes(amplitude);
}

/// A list of verdicts passes if and only if it is not empty and each of its
/// verdicts passes.
pub proof fn lemma_list_verdict(verdicts: Seq<Verdict>)
    ensures
        list_verdict(verdicts) is Ok <==> verdicts.len() > 0 && forall|k: int|
            0 <= k < verdicts.len() ==> (#[trigger] verdicts[k]) is Ok,
    decreases verdicts.len(),
{
    if verdicts.len() > 1 && verdicts[0] is Ok {
        let rest = verdicts.skip(1);
        lemma_list_verdict(rest);
        if list_verdict(rest) is Ok {
            assert forall|k: int| 0 <= k < verdicts.len() implies (#[trigger] verdicts[k]) is Ok by {
                if k > 0 {
                    assert(rest[k - 1] == verdicts[k]);
                }
            }
        } else {
            let k = choose|k: int| 0 <= k < rest.len() && !((#[trigger] rest[k]) is Ok);
            assert(verdicts[k + 1] == rest[k]);
        }
    }
}

/// A curve passes if and only if it is four numbers, each from -1 to 1.
pub proof fn lemma_control_points_verdict(points: Seq<Scalar>)
    ensures
        control_points_verdict(points) is Ok <==> valid_control_points(points),
{
    if points.len() == CONTROL_POINTS {
        lemma_first_stray_point(points, 0);
    }
}

/// The first stray point from `from` on is a point that is not valid, and
/// no point between `from` and it is one.
proof fn lemma_first_stray_point(points: Seq<Scalar>, from: int)
    requires
        0 <= from <= points.len(),
    ensures
        from <= first_stray_point(points, from) <= points.len(),
        first_stray_point(points, from) < points.len() ==> !valid_control_point(
            points[first_stray_point(points, from)],
        ),
        forall|k: int|
            from <= k < first_stray_point(points, from) ==> valid_control_point(
                #[trigger] points[k],
            ),
    decreases points.len() - from,
{
    if from < points.len() && valid_control_point(points[from]) {
        lemma_first_stray_point(points, from + 1);
    }
}

/// A job is built if and only if its tempo is not zero, it has a note, each
/// note has a chromatic id of at most 11, an octave of at most 8 and an
/// amplitude from 0 to 1, and its curve, if it has one, is four numbers
/// from -1 to 1.
pub proof fn lemma_job_verdict(bpm: u8, notes: Seq<Note>, curve: Option<Seq<Scalar>>)
    ensures
        job_verdict(bpm_verdict(bpm), list_verdict(note_verdicts(notes)), curve) is Ok <==> bpm
            != 0 && valid_notes(notes) && (curve matches Some(points) ==> valid_control_points(
            points,
        )),
{
    let verdicts = note_verdicts(notes);
    lemma_list_verdict(verdicts);
    if let Some(points) = curve {
        lemma_control_points_verdict(points);
    }
    if valid_notes(notes) {
        assert forall|k: int| 0 <= k < verdicts.len() implies (#[trigger] verdicts[k]) is Ok by {
            assert(note_verdict(notes[k].id, notes[k].octave, notes[k].amplitude) is Ok);
        }
    }
    if list_verdict(verdicts) is Ok {
        assert forall|k: int| 0 <= k < notes.len() implies note_verdict(
            #[trigger] notes[k].id,
            notes[k].octave,
            notes[k].amplitude,
        ) is Ok by {
            assert(verdicts[k] is Ok);
        }
    }
}

/// A timeline job is built on the same terms as a sequential one.
pub proof fn lemma_timeline_job_verdict(
    bpm: u8,
    notes: Seq<TimelineNote>,
    curve: Option<Seq<Scalar>>,
)
    ensures
        job_verdict(bpm_verdict(bpm), list_verdict(timeline_note_verdicts(notes)), curve) is Ok
            <==> bpm != 0 && valid_timeline_notes(notes) && (curve matches Some(points)
            ==> valid_control_points(points)),
{
    let verdicts = timeline_note_verdicts(notes);
    lemma_list_verdict(verdicts);
    if let Some(points) = curve {
        lemma_control_points_verdict(points);
    }
    if valid_timeline_notes(notes) {
        assert forall|k: int| 0 <= k < verdicts.len() implies (#[trigger] verdicts[k]) is Ok by {
            assert(note_verdict(notes[k].id, notes[k].octave, notes[k].amplitude) is Ok);
        }
    }
    if list_verdict(verdicts) is Ok {
        assert forall|k: int| 0 <= k < notes.len() implies note_verdict(
            #[trigger] notes[k].id,
            notes[k].octave,
            notes[k].amplitude,
        ) is Ok by {
            assert(verdicts[k] is Ok);
        }
    }
}

/// A tempo is accepted unless it is zero.
pub fn validate_bpm(bpm: u8) -> (result: Verdict)
    ensures
        result == bpm_verdict(bpm),
{
    if bpm == 0 {
        return Err(OrchestratorError::InvalidBpm(bpm));
    }
    Ok(())
}

/// What the two kinds of note have in common: the chromatic id is looked
/// at first, then the octave, then the amplitude.
fn validate_pitch_and_loudness(id: u8, octave: u8, amplitude: Scalar) -> (result: Verdict)
    ensures
        result == note_verdict(id, octave, amplitude),
{
    if id > MAX_NOTE_ID {
        return Err(OrchestratorError::InvalidNoteId(id));
    }
    if octave > MAX_OCTAVE {
        return Err(OrchestratorError::InvalidOctave(octave));
    }
    if amplitude.nan() || amplitude.lt(Scalar::zero()) || amplitude.gt(Scalar::one()) {
        return Err(OrchestratorError::InvalidAmplitude(amplitude));
    }
    Ok(())
}

/// Checks one note: its chromatic id, then its octave, then its amplitude.
pub fn validate_note(note: &Note) -> (result: Verdict)
    ensures
        result == note_verdict(note.id, note.octave, note.amplitude),
{
    validate_pitch_and_loudness(note.id(), note.octave(), note.amplitude())
}

/// Checks that there is a note and that each note is valid. The first note
/// that is not gives the error.
pub fn validate_notes(notes: &[Note]) -> (result: Verdict)
    ensures
        result == list_verdict(note_verdicts(notes@)),
        result is Ok <==> valid_notes(notes@),
{
    if notes.len() == 0 {
        return Err(OrchestratorError::EmptyNotes);
    }
    let ghost verdicts = note_verdicts(notes@);
    let mut k: usize = 0;
    assert(verdicts.skip(0) =~= verdicts);
    while k < notes.len()
        invariant
            k <= notes.len(),
            notes.len() > 0,
            verdicts == note_verdicts(notes@),
            forall|j: int| 0 <= j < k ==> (#[trigger] verdicts[j]) is Ok,
            list_verdict(verdicts) == (if k < notes.len() {
                list_verdict(verdicts.skip(k as int))
            } else {
                Ok(())
            }),
        decreases notes.len() - k,
    {
        let verdict = validate_note(&notes[k]);
        proof {
            let rest = verdicts.skip(k as int);
            assert(rest[0] == verdicts[k as int]);
            if k + 1 < notes.len() {
                assert(rest.skip(1) =~= verdicts.skip(k + 1));
            }
        }
        if verdict.is_err() {
            proof {
                if valid_notes(notes@) {
                    assert(note_verdict(
                        notes@[k as int].id,
                        notes@[k as int].octave,
                        notes@[k as int].amplitude,
                    ) is Ok);
                }
            }
            return verdict;
        }
        k += 1;
    }
    proof {
        assert forall|j: int| 0 <= j < notes@.len() implies note_verdict(
            #[trigger] notes@[j].id,
            notes@[j].octave,
            notes@[j].amplitude,
        ) is Ok by {
            assert(verdicts[j] is Ok);
        }
    }
    Ok(())
}

/// Checks one note of a timeline: its chromatic id, then its octave, then
/// its amplitude.
pub fn validate_timeline_note(note: &TimelineNote) -> (result: Verdict)
    ensures
        result == note_verdict(note.id, note.octave, note.amplitude),
{
    validate_pitch_and_loudness(note.id(), note.octave(), note.amplitude())
}

/// Checks that there is a note and that each note is valid. The first note
/// that is not gives the error.
pub fn validate_timeline_notes(notes: &[TimelineNote]) -> (result: Verdict)
    ensures
        result == list_verdict(timeline_note_verdicts(notes@)),
        result is Ok <==> valid_timeline_notes(notes@),
{
    if notes.len() == 0 {
        return Err(OrchestratorError::EmptyNotes);
    }
    let ghost verdicts = timeline_note_verdicts(notes@);
    let mut k: usize = 0;
    assert(verdicts.skip(0) =~= verdicts);
    while k < notes.len()
        invariant
            k <= notes.len(),
            notes.len() > 0,
            verdicts == timeline_note_verdicts(notes@),
            forall|j: int| 0 <= j < k ==> (#[trigger] verdicts[j]) is Ok,
            list_verdict(verdicts) == (if k < notes.len() {
                list_verdict(verdicts.skip(k as int))
            } else {
                Ok(())
            }),
        decreases notes.len() - k,
    {
        let verdict = validate_timeline_note(&notes[k]);
        proof {
            let rest = verdicts.skip(k as int);
            assert(rest[0] == verdicts[k as int]);
            if k + 1 < notes.len() {
                assert(rest.skip(1) =~= verdicts.skip(k + 1));
            }
        }
        if verdict.is_err() {
            proof {
                if valid_timeline_notes(notes@) {
                    assert(note_verdict(
                        notes@[k as int].id,
                        notes@[k as int].octave,
                        notes@[k as int].amplitude,
                    ) is Ok);
                }
            }
            return verdict;
        }
        k += 1;
    }
    proof {
        assert forall|j: int| 0 <= j < notes@.len() implies note_verdict(
            #[trigger] notes@[j].id,
            notes@[j].octave,
            notes@[j].amplitude,
        ) is Ok by {
            assert(verdicts[j] is Ok);
        }
    }
    Ok(())
}

/// Checks a curve: four control points, each within [-1, 1].
pub fn validate_control_points(points: &[Scalar]) -> (result: Verdict)
    ensures
        result == control_points_verdict(points@),
        result is Ok <==> valid_control_points(points@),
{
    if points.len() != CONTROL_POINTS {
        return Err(OrchestratorError::InvalidControlPoints(ControlPointFault::Count(points.len())));
    }
    let mut index: usize = 0;
    while index < points.len()
        invariant
            index <= points.len(),
            points.len() == CONTROL_POINTS,
            forall|k: int| 0 <= k < index ==> valid_control_point(#[trigger] points@[k]),
            first_stray_point(points@, 0) == first_stray_point(points@, index as int),
        decreases points.len() - index,
    {
        let point = points[index];
        if point.nan() || point.lt(Scalar::minus_one()) || point.gt(Scalar::one()) {
            return Err(
                OrchestratorError::InvalidControlPoints(
                    ControlPointFault::OutOfRange { index, value: point },
                ),
            );
        }
        index += 1;
    }
    Ok(())
}

} // verus!
