use polysynth::instrument::ConfigError;
use polysynth::instrument::InputEvent;
use polysynth::instrument::InstrumentImpl;
use polysynth::instrument::Waveform;
use polysynth::instrument::time_of_frame;

// A note at full gain contributes exactly one full wave scale; at t=200 ms
// the square wave of note 0 is in its high half-cycle.
#[test]
fn single_note_full_scale_sample() {
    let mut inst = InstrumentImpl::create_default();
    inst.start_note(0, 0);
    assert_eq!(inst.evaluate(200_000), 1_000_000);
}

// Fresh start: the gain is still zero at the activation instant, and mid
// attack the sample is the half-scale gain with the square wave's sign.
#[test]
fn attack_shapes_the_sample() {
    let mut inst = InstrumentImpl::create_default();
    inst.start_note(0, 0);
    assert_eq!(inst.evaluate(0), 0);
    let mut inst2 = InstrumentImpl::create_default();
    inst2.start_note(0, 0);
    assert_eq!(inst2.evaluate(50_000), -500_000);
}

#[test]
fn create_validates_durations() {
    assert!(matches!(
        InstrumentImpl::create(0, 50_000, Waveform::Square),
        Err(ConfigError::NonPositiveAttack)
    ));
    assert!(matches!(
        InstrumentImpl::create(100_000, 0, Waveform::Square),
        Err(ConfigError::NonPositiveRelease)
    ));
    assert!(InstrumentImpl::create(100_000, 50_000, Waveform::Noise).is_ok());
}

// A freshly started note is never reported finished, even at the instant it
// was started.
#[test]
fn started_note_is_not_finished() {
    let mut inst = InstrumentImpl::create_default();
    inst.start_note(5, 0);
    assert!(inst.finished_notes().is_empty());
    let _ = inst.evaluate(0);
    assert!(inst.finished_notes().is_empty());
}

// Starting an already-sounding note again is ignored: it neither restarts
// the envelope nor doubles the contribution.
#[test]
fn duplicate_start_is_ignored() {
    let mut a = InstrumentImpl::create_default();
    a.start_note(0, 0);
    a.start_note(0, 150_000);
    let mut b = InstrumentImpl::create_default();
    b.start_note(0, 0);
    assert_eq!(a.evaluate(200_000), b.evaluate(200_000));
}

// Ending a note repeatedly is idempotent: later calls change no sample that
// evaluate produces afterwards.
#[test]
fn repeated_end_note_changes_nothing() {
    let mut once = InstrumentImpl::create_default();
    once.start_note(0, 0);
    once.end_note(0, 150_000);
    let mut thrice = InstrumentImpl::create_default();
    thrice.start_note(0, 0);
    thrice.end_note(0, 150_000);
    thrice.end_note(0, 160_000);
    thrice.end_note(0, 170_000);
    for t in (150_000..250_000).step_by(5_000) {
        assert_eq!(once.evaluate(t), thrice.evaluate(t));
    }
}

// Ending a note that was never started has no effect on the output.
#[test]
fn end_of_unknown_note_is_a_no_op() {
    let mut plain = InstrumentImpl::create_default();
    plain.start_note(0, 0);
    let mut poked = InstrumentImpl::create_default();
    poked.start_note(0, 0);
    poked.end_note(7, 10_000);
    poked.end_note(-3, 20_000);
    for t in (0..300_000).step_by(10_000) {
        assert_eq!(plain.evaluate(t), poked.evaluate(t));
    }
}

// Round trip: start, end, let the release pass, evaluate; the note is then
// reported finished, reclaimed, and contributes nothing afterwards.
#[test]
fn round_trip_reclaims_the_note() {
    let mut inst = InstrumentImpl::create_default();
    inst.start_note(3, 0);
    inst.end_note(3, 150_000);
    let _ = inst.evaluate(210_000);
    let finished = inst.finished_notes();
    assert_eq!(finished, vec![3]);
    inst.remove_finished(finished);
    assert!(inst.finished_notes().is_empty());
    for t in (210_000..400_000).step_by(10_000) {
        assert_eq!(inst.evaluate(t), 0);
    }
}

// Superposition: two notes started together contribute independently; the
// two-note sample equals the sum of the two single-note samples.
#[test]
fn mixing_is_superposition() {
    for t in (0..400_000).step_by(7_000) {
        let mut both = InstrumentImpl::create_default();
        both.start_note(0, 0);
        both.start_note(7, 0);
        let mut only_low = InstrumentImpl::create_default();
        only_low.start_note(0, 0);
        let mut only_high = InstrumentImpl::create_default();
        only_high.start_note(7, 0);
        assert_eq!(both.evaluate(t), only_low.evaluate(t) + only_high.evaluate(t));
    }
}

#[test]
fn empty_instrument_is_silent() {
    let mut inst = InstrumentImpl::create_default();
    assert_eq!(inst.evaluate(0), 0);
    assert_eq!(inst.evaluate(123_456), 0);
    assert!(inst.finished_notes().is_empty());
}

#[test]
fn remove_finished_ignores_absent_ids() {
    let mut inst = InstrumentImpl::create_default();
    inst.start_note(1, 0);
    inst.remove_finished(vec![2, 3]);
    assert_eq!(inst.evaluate(200_000).abs(), 1_000_000);
}

// One render step applies the event, renders the sample, then reclaims; a
// note's release tail is still rendered after the key-up event, and the
// very sample on which the release completes is rendered before the note is
// reclaimed.
#[test]
fn render_step_follows_the_frame_discipline() {
    let mut inst = InstrumentImpl::create_default();
    assert_eq!(inst.render_step(Some(InputEvent::StartNote(0)), 0), 0);
    assert_eq!(inst.render_step(None, 200_000), 1_000_000);
    assert_eq!(inst.render_step(Some(InputEvent::EndNote(0)), 200_000), 1_000_000);
    assert_eq!(inst.render_step(None, 225_000), 500_000);
    assert_eq!(inst.render_step(None, 250_000), 0);
    assert!(inst.finished_notes().is_empty());
    assert_eq!(inst.render_step(None, 260_000), 0);
}

#[test]
fn time_of_frame_matches_the_sample_rate() {
    assert_eq!(time_of_frame(0, 48_000), 0);
    assert_eq!(time_of_frame(1, 48_000), 20);
    assert_eq!(time_of_frame(48_000, 48_000), 1_000_000);
    assert_eq!(time_of_frame(24_000, 48_000), 500_000);
}
