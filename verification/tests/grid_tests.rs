use orchestrator_rust::grid::{
    envelope_samples, note_span, note_start, samples_per_note, timeline_samples,
};
use orchestrator_rust::scalar::Scalar;
use orchestrator_rust::timeline_orchestrator::TimelineNote;

fn sc(x: f64) -> Scalar {
    Scalar::from_bits(x.to_bits())
}

fn placed(start_time: f64, duration: f64) -> TimelineNote {
    TimelineNote::new(9, 4, sc(start_time), sc(duration), sc(1.0))
}

#[test]
fn samples_in_beats() {
    assert_eq!(samples_per_note(sc(1.0), 120, 44100), 22050);
    assert_eq!(samples_per_note(sc(0.75), 100, 22050), 9922);
    assert_eq!(samples_per_note(sc(2.25), 90, 8000), 12000);
    assert_eq!(samples_per_note(sc(1.0), 90, 8000), 5333);
    assert_eq!(samples_per_note(sc(0.5), 90, 8000), 2666);
    assert_eq!(samples_per_note(sc(1.0), 7, 44100), 378000);
    assert_eq!(samples_per_note(sc(7.0), 7, 44100), 2646000);
    assert_eq!(samples_per_note(sc(1.0), 255, 1), 0);
    assert_eq!(samples_per_note(sc(4.25), 255, 1), 1);
    assert_eq!(samples_per_note(sc(1.0), 1, 1), 60);
}

#[test]
fn counts_are_exact() {
    // 60 / 100 is no binary fraction, but 1.5 * 60 * 22050 / 100 is a whole
    // number: none of it may be lost on the way
    assert_eq!(samples_per_note(sc(1.5), 100, 22050), 19845);
    // the double nearest to 0.3 is a little less than 0.3
    assert_eq!(samples_per_note(sc(0.3), 60, 44100), 13229);
    assert_eq!(envelope_samples(sc(0.3), 44100), 13229);
    // and the one nearest to 0.1 a little more than 0.1
    assert_eq!(samples_per_note(sc(0.1), 60, 10), 1);
    assert_eq!(timeline_samples(&[], sc(0.1), 60, 10), 2);
    assert_eq!(timeline_samples(&[], sc(0.1), 60, 44100), 4411);
    assert_eq!(timeline_samples(&[], sc(0.5), 60, 10), 5);
}

#[test]
fn the_smallest_time_counts() {
    // any time at all needs a sample to end in
    assert_eq!(timeline_samples(&[], sc(5e-324), 60, 1), 1);
    assert_eq!(timeline_samples(&[placed(3.0, 5e-324)], sc(0.0), 60, 1), 4);
    assert_eq!(timeline_samples(&[placed(4503599627370496.0, 5e-324)], sc(0.0), 60, 1), 4503599627370497);
    assert_eq!(timeline_samples(&[placed(3.0, 0.0)], sc(0.0), 60, 1), 3);
    // but it fills none
    assert_eq!(note_span(sc(3.0), sc(5e-324), 60, 1), 3);
    assert_eq!(note_span(sc(2.9999999999999996), sc(5e-324), 60, 1), 2);
    assert_eq!(samples_per_note(sc(5e-324), 1, u32::MAX), 0);
    assert_eq!(envelope_samples(sc(f64::MIN_POSITIVE), u32::MAX), 0);
}

#[test]
fn fractions_add_up() {
    assert_eq!(note_span(sc(2.5), sc(0.5), 60, 1), 3);
    assert_eq!(note_span(sc(2.5), sc(0.49999999999999994), 60, 1), 2);
    assert_eq!(note_span(sc(0.1), sc(0.2), 60, 10), 3);
    assert_eq!(note_span(sc(0.1), sc(0.2), 60, 44100), 13230);
    assert_eq!(note_span(sc(1.0), sc(0.25), 120, 44100), 27562);
    assert_eq!(note_span(sc(1.0), sc(0.25), 30, 1000), 2500);
    assert_eq!(timeline_samples(&[placed(0.1, 0.2)], sc(0.3), 60, 10), 7);
    assert_eq!(timeline_samples(&[placed(0.25, 0.25)], sc(0.5), 60, 1), 1);
    assert_eq!(timeline_samples(&[placed(0.25, 0.25)], sc(0.5000000000000001), 60, 1), 2);
}

#[test]
fn samples_in_seconds() {
    assert_eq!(envelope_samples(sc(0.01), 8000), 80);
    assert_eq!(envelope_samples(sc(0.02), 8000), 160);
    assert_eq!(envelope_samples(sc(0.25), 8000), 2000);
    assert_eq!(envelope_samples(sc(0.01), 44100), 441);
    assert_eq!(envelope_samples(sc(2.5), 48000), 120000);
    assert_eq!(envelope_samples(sc(1e-5), 44100), 0);
    assert_eq!(envelope_samples(sc(0.0), 44100), 0);
    assert_eq!(envelope_samples(sc(1.0), 0), 0);
}

#[test]
fn where_a_note_starts() {
    assert_eq!(note_start(sc(0.0), 120, 44100), 0);
    assert_eq!(note_start(sc(3.0), 120, 8000), 12000);
    assert_eq!(note_start(sc(0.5), 120, 44100), 11025);
    assert_eq!(note_start(sc(100000.0), 1, 48000), 288000000000);
}

#[test]
fn the_length_of_a_timeline() {
    let notes = vec![placed(0.0, 1.0), placed(3.0, 0.5), placed(1.0, 2.0)];
    assert_eq!(timeline_samples(&notes, sc(0.0), 120, 8000), 14000);
    assert_eq!(timeline_samples(&notes, sc(0.25), 120, 8000), 16000);
    assert_eq!(timeline_samples(&notes[..1], sc(0.0), 120, 44100), 22050);
    assert_eq!(timeline_samples(&notes[..1], sc(0.25), 120, 44100), 33075);
    assert_eq!(timeline_samples(&notes[..1], sc(0.0), 120, 44101), 22051);
    // the order of the notes is of no account
    let turned = vec![placed(1.0, 2.0), placed(3.0, 0.5), placed(0.0, 1.0)];
    assert_eq!(timeline_samples(&turned, sc(0.0), 120, 8000), 14000);
    // without notes there is the release alone
    assert_eq!(timeline_samples(&[], sc(0.25), 120, 8000), 2000);
    assert_eq!(timeline_samples(&[], sc(0.0), 120, 8000), 0);
}

#[test]
fn what_is_no_time_counts_as_none() {
    for &nothing in &[-1.0, -0.0, -5e-324, f64::NEG_INFINITY, f64::NAN, -f64::NAN] {
        assert_eq!(samples_per_note(sc(nothing), 120, 44100), 0);
        assert_eq!(envelope_samples(sc(nothing), 44100), 0);
        assert_eq!(note_start(sc(nothing), 120, 44100), 0);
        assert_eq!(note_span(sc(nothing), sc(nothing), 120, 44100), 0);
        assert_eq!(note_span(sc(nothing), sc(1.0), 120, 44100), 22050);
        assert_eq!(note_span(sc(1.0), sc(nothing), 120, 44100), 22050);
        assert_eq!(timeline_samples(&[placed(nothing, nothing)], sc(nothing), 120, 44100), 0);
        assert_eq!(timeline_samples(&[placed(nothing, 1.0)], sc(nothing), 120, 44100), 22050);
    }
}

#[test]
fn counts_that_do_not_fit_are_the_largest_that_do() {
    assert_eq!(samples_per_note(sc(f64::INFINITY), 120, 44100), u32::MAX);
    assert_eq!(samples_per_note(sc(f64::MAX), 255, 1), u32::MAX);
    assert_eq!(samples_per_note(sc(1e9), 1, u32::MAX), u32::MAX);
    assert_eq!(samples_per_note(sc(71582788.25), 60, 60), u32::MAX);
    assert_eq!(samples_per_note(sc(71582788.25), 60, 1), 71582788);
    assert_eq!(samples_per_note(sc(4294967295.5), 60, 1), u32::MAX);
    assert_eq!(samples_per_note(sc(4294967294.5), 60, 1), u32::MAX - 1);
    assert_eq!(envelope_samples(sc(1e300), 1), u32::MAX);
    assert_eq!(note_span(sc(f64::MAX), sc(f64::MAX), 1, u32::MAX), u32::MAX);
    assert_eq!(note_start(sc(f64::INFINITY), 120, 44100), usize::MAX);
    assert_eq!(note_start(sc(1e300), 120, 44100), usize::MAX);
    assert_eq!(timeline_samples(&[placed(1e300, 1.0)], sc(0.0), 120, 44100), usize::MAX);
    assert_eq!(timeline_samples(&[placed(0.0, 1.0)], sc(f64::INFINITY), 120, 44100), usize::MAX);
    // an infinite time at no samples a second is no samples
    assert_eq!(samples_per_note(sc(f64::INFINITY), 120, 0), 0);
}

#[test]
fn counts_near_the_largest() {
    // 2^64 - 2048 is the largest double below 2^64
    assert_eq!(note_start(sc(18446744073709549568.0), 60, 1), 18446744073709549568);
    assert_eq!(note_start(sc(18446744073709551616.0), 60, 1), usize::MAX);
    assert_eq!(note_start(sc(18446744073709549568.0), 1, 1), usize::MAX);
    assert_eq!(note_start(sc(18446744073709549568.0), 120, 1), 9223372036854774784);
}
