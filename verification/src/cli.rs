//! What the command line needs of the library: either kind of job behind
//! one type, and the name of the output file.

use crate::errors::OrchestratorError;
use crate::kernel::Kernel;
use crate::orchestrator::{sequential_render, Orchestrator};
use crate::oscillator::within_full_scale;
use crate::timeline_orchestrator::{timeline_render, TimelineOrchestrator};
use vstd::prelude::*;

verus! {

/// Why a path gave no name for the output file.
#[derive(Clone, Copy, Debug, PartialEq, Eq, Structural)]
pub enum FilenameError {
    /// The path has no file name: it is empty, or ends in `..` or in a root.
    NoFileName,
}

/// `part` is a run of consecutive characters of `whole`.
pub open spec fn is_part_of(part: Seq<char>, whole: Seq<char>) -> bool {
    exists|from: int, to: int|
        0 <= from <= to <= whole.len() && part == #[trigger] whole.subrange(from, to)
}

/// `std::path::Path::file_stem`, on a path given as text. The stem is the
/// file name without its last extension, and the file name is the last
/// component of the path, so a stem is a part of the path it was taken
/// from. It is never empty: a component of a path is not, and where
/// nothing stands before the last dot of a file name the whole name is the
/// stem. Which paths have a stem, and where a component begins, is left to
/// the platform's rules.
#[verifier::external_body]
fn file_stem(filepath: &str) -> (stem: Option<String>)
    ensures
        stem matches Some(name) ==> name@.len() > 0 && is_part_of(name@, filepath@),
{
    match std::path::Path::new(filepath).file_stem() {
        Some(stem) => Some(stem.to_string_lossy().into_owned()),
        None => None,
    }
}

/// The name for the output file, given the stem that the path has or lacks.
pub fn filename_of(stem: Option<String>) -> (result: Result<String, FilenameError>)
    ensures
        match stem {
            Some(name) => result == Ok::<String, FilenameError>(name),
            None => result == Err::<String, FilenameError>(FilenameError::NoFileName),
        },
{
    match stem {
        Some(name) => Ok(name),
        None => Err(FilenameError::NoFileName),
    }
}

/// The name for the output file: the stem of the input path. Whatever the
/// platform finds the stem to be, it is not empty and a part of the path.
pub fn get_filename(filepath: &str) -> (result: Result<String, FilenameError>)
    ensures
        result matches Ok(name) ==> name@.len() > 0 && is_part_of(name@, filepath@),
        result matches Err(error) ==> error == FilenameError::NoFileName,
{
    filename_of(file_stem(filepath))
}

/// A job of either strategy.
pub enum AnyOrchestrator {
    Regular(Orchestrator),
    Timeline(TimelineOrchestrator),
}

impl AnyOrchestrator {
    /// Renders the job with its own strategy.
    pub fn pcm_samples<K: Kernel>(&self, sample_rate: u32, kernel: &K) -> (result: Result<
        Vec<i16>,
        OrchestratorError,
    >)
        ensures
            result matches Ok(samples) && within_full_scale(samples@) && match *self {
                AnyOrchestrator::Regular(job) => sequential_render(
                    kernel,
                    job.curve(),
                    job.notes(),
                    job.bpm(),
                    sample_rate,
                    samples@,
                ),
                AnyOrchestrator::Timeline(job) => timeline_render(
                    kernel,
                    job.curve(),
                    job.notes(),
                    job.bpm(),
                    job.adsr(),
                    sample_rate,
                    samples@,
                ),
            },
    {
        match self {
            AnyOrchestrator::Regular(orch) => orch.pcm_samples(sample_rate, kernel),
            AnyOrchestrator::Timeline(orch) => orch.pcm_samples(sample_rate, kernel),
        }
    }

    /// Whether the job renders with the shaped generator.
    pub fn is_bezier(&self) -> (shaped: bool)
        ensures
            shaped == match *self {
                AnyOrchestrator::Regular(job) => job is Bezier,
                AnyOrchestrator::Timeline(job) => job is Bezier,
            },
    {
        match self {
            AnyOrchestrator::Regular(orch) => orch.is_bezier(),
            AnyOrchestrator::Timeline(orch) => orch.is_bezier(),
        }
    }

    /// The number of notes, which is never zero.
    pub fn note_count(&self) -> (count: usize)
        ensures
            count > 0,
            count == match *self {
                AnyOrchestrator::Regular(job) => job.notes().len(),
                AnyOrchestrator::Timeline(job) => job.notes().len(),
            },
    {
        match self {
            AnyOrchestrator::Regular(orch) => orch.note_count(),
            AnyOrchestrator::Timeline(orch) => orch.note_count(),
        }
    }
}

} // verus!
