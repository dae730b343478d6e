use orchestrator_rust::errors::OrchestratorError;
use orchestrator_rust::orchestrator::Note;
use orchestrator_rust::pitch::{frequency_of, Frequency};
use orchestrator_rust::scalar::Scalar;
use orchestrator_rust::timeline_orchestrator::TimelineNote;

fn sc(x: f64) -> Scalar {
    Scalar::from_bits(x.to_bits())
}

fn hertz(frequency: Frequency) -> f64 {
    440.0 * 2f64.powf(frequency.steps as f64 / 12.0)
}

#[test]
fn a4_is_440_exactly() {
    let frequency = frequency_of(9, 4).unwrap();
    assert_eq!(frequency, Frequency { steps: 0 });
    assert_eq!(hertz(frequency), 440.0);
}

#[test]
fn steps_count_semitones_from_a4() {
    assert_eq!(frequency_of(0, 4).unwrap().steps, -9);
    assert_eq!(frequency_of(11, 4).unwrap().steps, 2);
    assert_eq!(frequency_of(9, 5).unwrap().steps, 12);
    assert_eq!(frequency_of(9, 3).unwrap().steps, -12);
    assert_eq!(frequency_of(0, 0).unwrap().steps, -57);
    assert_eq!(frequency_of(11, 8).unwrap().steps, 50);
    assert_eq!(frequency_of(11, 255).unwrap().steps, 3014);
}

#[test]
fn an_octave_doubles_the_frequency() {
    for octave in 0u8..8 {
        for id in 0u8..12 {
            let low = frequency_of(id, octave).unwrap();
            let high = frequency_of(id, octave + 1).unwrap();
            assert_eq!(high.steps, low.steps + 12);
            let ratio = hertz(high) / hertz(low);
            assert!((ratio - 2.0).abs() < 1e-12);
        }
    }
}

#[test]
fn the_first_id_of_an_octave_follows_the_last_of_the_one_before() {
    for octave in 0u8..8 {
        let last = frequency_of(11, octave).unwrap();
        let first = frequency_of(0, octave + 1).unwrap();
        assert_eq!(first.steps, last.steps + 1);
    }
}

#[test]
fn ids_above_eleven_have_no_frequency() {
    for id in 12u8..=255 {
        assert!(matches!(frequency_of(id, 4), Err(OrchestratorError::InvalidNoteId(bad)) if bad == id));
    }
}

#[test]
fn notes_take_their_frequency_from_the_pitch_model() {
    let note = Note::new(9, 4, sc(1.0), sc(1.0));
    assert_eq!(note.frequency().unwrap(), Frequency { steps: 0 });
    assert_eq!(note.id(), 9);
    assert_eq!(note.octave(), 4);
    assert_eq!(note.beats(), sc(1.0));
    assert_eq!(note.amplitude(), sc(1.0));
    let bad = Note::new(12, 4, sc(1.0), sc(1.0));
    assert!(matches!(bad.frequency(), Err(OrchestratorError::InvalidNoteId(12))));

    let placed = TimelineNote::new(0, 5, sc(0.5), sc(2.0), sc(0.25));
    assert_eq!(placed.frequency().unwrap(), Frequency { steps: 3 });
    assert_eq!(placed.id(), 0);
    assert_eq!(placed.octave(), 5);
    assert_eq!(placed.start_time(), sc(0.5));
    assert_eq!(placed.duration(), sc(2.0));
    assert_eq!(placed.amplitude(), sc(0.25));
    let bad = TimelineNote::new(200, 5, sc(0.5), sc(2.0), sc(0.25));
    assert!(matches!(bad.frequency(), Err(OrchestratorError::InvalidNoteId(200))));
}
