use orchestrator_rust::errors::{ControlPointFault, OrchestratorError};
use orchestrator_rust::orchestrator::{Note, Orchestrator};
use orchestrator_rust::oscillator::BezierOscillator;
use orchestrator_rust::pitch::Frequency;
use orchestrator_rust::scalar::Scalar;
use orchestrator_rust::timeline_orchestrator::{TimelineNote, TimelineOrchestrator};
use orchestrator_rust::validation::{
    validate_bpm, validate_control_points, validate_note, validate_notes, validate_timeline_note,
    validate_timeline_notes,
};

fn sc(x: f64) -> Scalar {
    Scalar::from_bits(x.to_bits())
}

fn note(id: u8, octave: u8, amplitude: f64) -> Note {
    Note::new(id, octave, sc(1.0), sc(amplitude))
}

fn placed(id: u8, octave: u8, amplitude: f64) -> TimelineNote {
    TimelineNote::new(id, octave, sc(0.0), sc(1.0), sc(amplitude))
}

fn points(values: &[f64]) -> Vec<Scalar> {
    values.iter().map(|&x| sc(x)).collect()
}

#[test]
fn bpm_zero_is_invalid() {
    assert!(matches!(validate_bpm(0), Err(OrchestratorError::InvalidBpm(0))));
    for bpm in 1u8..=255 {
        assert!(validate_bpm(bpm).is_ok());
    }
}

#[test]
fn empty_note_list_is_invalid() {
    assert!(matches!(validate_notes(&[]), Err(OrchestratorError::EmptyNotes)));
    assert!(matches!(validate_timeline_notes(&[]), Err(OrchestratorError::EmptyNotes)));
}

#[test]
fn note_id_twelve_is_invalid() {
    assert!(matches!(validate_note(&note(12, 4, 1.0)), Err(OrchestratorError::InvalidNoteId(12))));
    assert!(matches!(
        validate_timeline_note(&placed(12, 4, 1.0)),
        Err(OrchestratorError::InvalidNoteId(12))
    ));
    assert!(validate_note(&note(11, 4, 1.0)).is_ok());
    assert!(validate_note(&note(0, 4, 1.0)).is_ok());
}

#[test]
fn octave_nine_is_invalid() {
    assert!(matches!(validate_note(&note(0, 9, 1.0)), Err(OrchestratorError::InvalidOctave(9))));
    assert!(matches!(
        validate_timeline_note(&placed(0, 255, 1.0)),
        Err(OrchestratorError::InvalidOctave(255))
    ));
    assert!(validate_note(&note(0, 8, 1.0)).is_ok());
    assert!(validate_note(&note(0, 0, 1.0)).is_ok());
}

#[test]
fn amplitude_above_one_is_invalid() {
    match validate_note(&note(9, 4, 1.5)) {
        Err(OrchestratorError::InvalidAmplitude(value)) => {
            assert_eq!(f64::from_bits(value.to_bits()), 1.5)
        }
        other => panic!("{:?}", other),
    }
    match validate_timeline_note(&placed(9, 4, 1.0000000000000002)) {
        Err(OrchestratorError::InvalidAmplitude(value)) => {
            assert_eq!(f64::from_bits(value.to_bits()), 1.0000000000000002)
        }
        other => panic!("{:?}", other),
    }
    assert!(matches!(
        validate_note(&note(9, 4, f64::INFINITY)),
        Err(OrchestratorError::InvalidAmplitude(_))
    ));
}

#[test]
fn amplitude_below_zero_is_invalid() {
    match validate_note(&note(9, 4, -0.25)) {
        Err(OrchestratorError::InvalidAmplitude(value)) => {
            assert_eq!(f64::from_bits(value.to_bits()), -0.25)
        }
        other => panic!("{:?}", other),
    }
    assert!(matches!(
        validate_note(&note(9, 4, -5e-324)),
        Err(OrchestratorError::InvalidAmplitude(_))
    ));
    assert!(matches!(
        validate_note(&note(9, 4, f64::NEG_INFINITY)),
        Err(OrchestratorError::InvalidAmplitude(_))
    ));
}

#[test]
fn amplitudes_from_zero_to_one_are_valid() {
    for &amplitude in &[0.0, -0.0, 5e-324, 0.1, 0.5, 0.9999999999999999, 1.0] {
        assert!(validate_note(&note(9, 4, amplitude)).is_ok());
        assert!(validate_timeline_note(&placed(9, 4, amplitude)).is_ok());
    }
}

#[test]
fn an_amplitude_that_is_no_number_is_invalid() {
    for &nan in &[f64::NAN, -f64::NAN, f64::from_bits(0x7FF0_0000_0000_0001)] {
        match validate_note(&note(9, 4, nan)) {
            Err(OrchestratorError::InvalidAmplitude(value)) => {
                assert_eq!(value.to_bits(), nan.to_bits())
            }
            other => panic!("{:?}", other),
        }
        assert!(matches!(
            validate_timeline_note(&placed(9, 4, nan)),
            Err(OrchestratorError::InvalidAmplitude(_))
        ));
        assert!(matches!(
            Orchestrator::new(120, vec![note(9, 4, nan)], None),
            Err(OrchestratorError::InvalidAmplitude(_))
        ));
        assert!(matches!(
            TimelineOrchestrator::new(120, vec![placed(9, 4, 1.0), placed(9, 4, nan)], None, None),
            Err(OrchestratorError::InvalidAmplitude(_))
        ));
    }
}

#[test]
fn a_control_point_that_is_no_number_is_invalid() {
    match validate_control_points(&points(&[-0.0, 0.3, f64::NAN, 5e-324])) {
        Err(OrchestratorError::InvalidControlPoints(ControlPointFault::OutOfRange {
            index,
            value,
        })) => {
            assert_eq!(index, 2);
            assert!(f64::from_bits(value.to_bits()).is_nan());
        }
        other => panic!("{:?}", other),
    }
    assert!(matches!(
        Orchestrator::new(120, vec![note(9, 4, 1.0)], Some(points(&[f64::NAN, 0.0, 0.0, 0.0]))),
        Err(OrchestratorError::InvalidControlPoints(ControlPointFault::OutOfRange {
            index: 0,
            ..
        }))
    ));
    assert!(matches!(
        BezierOscillator::new(Frequency { steps: 0 }, sc(1.0), 44100, points(&[0.0, 0.0, 0.0, -f64::NAN])),
        Err(OrchestratorError::InvalidControlPoints(ControlPointFault::OutOfRange {
            index: 3,
            ..
        }))
    ));
}

#[test]
fn the_id_is_looked_at_before_the_octave_and_the_octave_before_the_amplitude() {
    assert!(matches!(validate_note(&note(12, 9, 1.5)), Err(OrchestratorError::InvalidNoteId(12))));
    assert!(matches!(validate_note(&note(11, 9, 1.5)), Err(OrchestratorError::InvalidOctave(9))));
    assert!(matches!(
        validate_note(&note(11, 8, 1.5)),
        Err(OrchestratorError::InvalidAmplitude(_))
    ));
}

#[test]
fn the_first_invalid_note_gives_the_error() {
    let notes = vec![note(9, 4, 1.0), note(3, 9, 1.0), note(12, 4, 1.0)];
    assert!(matches!(validate_notes(&notes), Err(OrchestratorError::InvalidOctave(9))));
    let notes = vec![note(9, 4, 1.0), note(3, 8, 1.0), note(12, 4, 1.0)];
    assert!(matches!(validate_notes(&notes), Err(OrchestratorError::InvalidNoteId(12))));
    let notes = vec![note(9, 4, 1.0), note(3, 8, 1.0), note(11, 4, 0.0)];
    assert!(validate_notes(&notes).is_ok());
    let notes = vec![placed(9, 4, 2.0), placed(13, 4, 1.0)];
    assert!(matches!(
        validate_timeline_notes(&notes),
        Err(OrchestratorError::InvalidAmplitude(_))
    ));
    let notes = vec![placed(9, 4, 1.0)];
    assert!(validate_timeline_notes(&notes).is_ok());
}

#[test]
fn three_control_points_are_invalid() {
    assert!(matches!(
        validate_control_points(&points(&[0.0, 0.5, -0.5])),
        Err(OrchestratorError::InvalidControlPoints(ControlPointFault::Count(3)))
    ));
    assert!(matches!(
        validate_control_points(&[]),
        Err(OrchestratorError::InvalidControlPoints(ControlPointFault::Count(0)))
    ));
    assert!(matches!(
        validate_control_points(&points(&[0.0, 0.5, -0.5, 0.0, 0.0])),
        Err(OrchestratorError::InvalidControlPoints(ControlPointFault::Count(5)))
    ));
    // the count is looked at before the values
    assert!(matches!(
        validate_control_points(&points(&[7.0, 0.5, -0.5])),
        Err(OrchestratorError::InvalidControlPoints(ControlPointFault::Count(3)))
    ));
}

#[test]
fn control_points_outside_the_unit_range_are_invalid() {
    match validate_control_points(&points(&[0.0, 1.0, -1.5, 2.0])) {
        Err(OrchestratorError::InvalidControlPoints(ControlPointFault::OutOfRange {
            index,
            value,
        })) => {
            assert_eq!(index, 2);
            assert_eq!(f64::from_bits(value.to_bits()), -1.5);
        }
        other => panic!("{:?}", other),
    }
    match validate_control_points(&points(&[1.0000000000000002, 1.0, -1.5, 2.0])) {
        Err(OrchestratorError::InvalidControlPoints(ControlPointFault::OutOfRange {
            index,
            value,
        })) => {
            assert_eq!(index, 0);
            assert_eq!(f64::from_bits(value.to_bits()), 1.0000000000000002);
        }
        other => panic!("{:?}", other),
    }
    assert!(matches!(
        validate_control_points(&points(&[0.0, 0.0, 0.0, -1.0000000000000002])),
        Err(OrchestratorError::InvalidControlPoints(ControlPointFault::OutOfRange {
            index: 3,
            ..
        }))
    ));
}

#[test]
fn four_control_points_in_range_are_valid() {
    assert!(validate_control_points(&points(&[0.0, 1.0, -1.0, 0.0])).is_ok());
    assert!(validate_control_points(&points(&[-1.0, -1.0, 1.0, 1.0])).is_ok());
    assert!(validate_control_points(&points(&[-0.0, 0.3, -0.9999999999999999, 5e-324])).is_ok());
}

#[test]
fn a_job_is_checked_when_it_is_built() {
    let good = vec![note(9, 4, 1.0)];
    assert!(matches!(
        Orchestrator::new(0, good.clone(), None),
        Err(OrchestratorError::InvalidBpm(0))
    ));
    assert!(matches!(Orchestrator::new(120, vec![], None), Err(OrchestratorError::EmptyNotes)));
    assert!(matches!(
        Orchestrator::new(120, vec![note(12, 4, 1.0)], None),
        Err(OrchestratorError::InvalidNoteId(12))
    ));
    assert!(matches!(
        Orchestrator::new(120, good.clone(), Some(points(&[0.0, 0.5, 1.0]))),
        Err(OrchestratorError::InvalidControlPoints(ControlPointFault::Count(3)))
    ));
    assert!(matches!(
        Orchestrator::new(120, vec![note(9, 4, 1.5)], None),
        Err(OrchestratorError::InvalidAmplitude(_))
    ));
    // the tempo is looked at first, the notes next, the curve last
    assert!(matches!(
        Orchestrator::new(0, vec![], Some(points(&[9.0]))),
        Err(OrchestratorError::InvalidBpm(0))
    ));
    assert!(matches!(
        Orchestrator::new(1, vec![], Some(points(&[9.0]))),
        Err(OrchestratorError::EmptyNotes)
    ));

    let sine = Orchestrator::new(120, good.clone(), None).ok().unwrap();
    assert!(!sine.is_bezier());
    assert_eq!(sine.note_count(), 1);
    let bezier = Orchestrator::new(255, vec![note(0, 0, 0.0), note(11, 8, 1.0)], Some(points(&[0.0, 1.0, -1.0, 0.0])))
        .ok()
        .unwrap();
    assert!(bezier.is_bezier());
    assert_eq!(bezier.note_count(), 2);
}

#[test]
fn a_timeline_job_is_checked_when_it_is_built() {
    let good = vec![placed(9, 4, 1.0)];
    assert!(matches!(
        TimelineOrchestrator::new(0, good.clone(), None, None),
        Err(OrchestratorError::InvalidBpm(0))
    ));
    assert!(matches!(
        TimelineOrchestrator::new(120, vec![], None, None),
        Err(OrchestratorError::EmptyNotes)
    ));
    assert!(matches!(
        TimelineOrchestrator::new(120, vec![placed(12, 4, 1.0)], None, None),
        Err(OrchestratorError::InvalidNoteId(12))
    ));
    assert!(matches!(
        TimelineOrchestrator::new(120, vec![placed(1, 9, 1.0)], None, None),
        Err(OrchestratorError::InvalidOctave(9))
    ));
    assert!(matches!(
        TimelineOrchestrator::new(120, good.clone(), Some(points(&[0.0, 0.5, 1.0])), None),
        Err(OrchestratorError::InvalidControlPoints(ControlPointFault::Count(3)))
    ));
    assert!(matches!(
        TimelineOrchestrator::new(120, vec![placed(9, 4, 1.5)], None, None),
        Err(OrchestratorError::InvalidAmplitude(_))
    ));
    let adsr = Some((sc(0.01), sc(0.02), sc(0.7), sc(0.1)));
    let sine = TimelineOrchestrator::new(120, good.clone(), None, adsr).ok().unwrap();
    assert!(!sine.is_bezier());
    assert_eq!(sine.note_count(), 1);
    let bezier =
        TimelineOrchestrator::new(120, good.clone(), Some(points(&[0.0, 1.0, -1.0, 0.0])), None)
            .ok()
            .unwrap();
    assert!(bezier.is_bezier());
    assert_eq!(bezier.note_count(), 1);
}

#[test]
fn a_shaped_generator_is_checked_when_it_is_built() {
    let frequency = Frequency { steps: 0 };
    assert!(BezierOscillator::new(frequency, sc(1.0), 44100, points(&[0.0, 1.0, -1.0, 0.0])).is_ok());
    assert!(matches!(
        BezierOscillator::new(frequency, sc(1.0), 44100, points(&[0.0, 1.0, -1.0])),
        Err(OrchestratorError::InvalidControlPoints(ControlPointFault::Count(3)))
    ));
    assert!(matches!(
        BezierOscillator::new(frequency, sc(1.0), 44100, points(&[0.0, 1.0, -1.0, 1.5])),
        Err(OrchestratorError::InvalidControlPoints(ControlPointFault::OutOfRange {
            index: 3,
            ..
        }))
    ));
}
