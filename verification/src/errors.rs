//! What can be wrong with a render job.

use crate::scalar::Scalar;
use vstd::prelude::*;

verus! {

/// Why a list of curve control points was turned down.
#[derive(Clone, Copy, Debug, PartialEq, Eq, Structural)]
pub enum ControlPointFault {
    /// The list does not hold exactly four points; the payload is its length.
    Count(usize),
    /// The point at `index` is no number within [-1, 1].
    OutOfRange { index: usize, value: Scalar },
}

/// Every way in which a render job can be refused. All of them are found
/// when the job is built, none while it renders.
#[derive(Clone, Copy, Debug, PartialEq, Eq, Structural)]
pub enum OrchestratorError {
    /// A chromatic id above 11.
    InvalidNoteId(u8),
    /// A tempo of zero beats per minute.
    InvalidBpm(u8),
    /// An octave above 8.
    InvalidOctave(u8),
    /// An amplitude that is no number from 0 to 1.
    InvalidAmplitude(Scalar),
    /// An empty note list.
    EmptyNotes,
    /// A curve shape that is not four numbers within [-1, 1].
    InvalidControlPoints(ControlPointFault),
}

} // verus!
