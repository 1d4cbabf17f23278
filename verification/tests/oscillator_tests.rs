use polysynth::oscillator::Oscillator;
use polysynth::oscillator::WAVE_SCALE;
use polysynth::oscillator::note_to_frequency;
use polysynth::oscillator::square_sample;

// Note id 0 is the C below middle C, about 130.81 Hz; twelve semitones up is
// exactly one octave, i.e. double the frequency.
#[test]
fn frequency_reference_and_octave() {
    let f0 = note_to_frequency(0);
    assert_eq!(f0, 130_812_783);
    let hz = f0 as f64 / 1_000_000.0;
    assert!((hz - 130.81).abs() < 0.01);
    assert_eq!(note_to_frequency(12), 2 * f0);
    assert_eq!(note_to_frequency(24), 4 * f0);
}

#[test]
fn frequency_semitones_ascend() {
    let mut prev = note_to_frequency(-24);
    for n in -23..=24 {
        let f = note_to_frequency(n);
        assert!(f > prev, "frequency must rise with the note id");
        prev = f;
    }
}

#[test]
fn frequency_low_notes_divide() {
    let f0 = note_to_frequency(0);
    assert_eq!(note_to_frequency(-12), f0 / 2);
}

// At 250 Hz the cycle is 4000 us long: the sample is exactly +1 on the open
// first half-cycle, exactly -1 on the rest (a sine of zero counts as low).
#[test]
fn square_is_full_scale_with_sign_of_sine() {
    let freq = 250_000_000;
    for t in 0..8000 {
        let s = square_sample(freq, t);
        assert!(s == WAVE_SCALE || s == -WAVE_SCALE);
        let in_open_first_half = (t % 4000) > 0 && (t % 4000) < 2000;
        assert_eq!(s == WAVE_SCALE, in_open_first_half);
        let sine = (2.0 * std::f64::consts::PI * 250.0 * (t as f64 / 1_000_000.0)).sin();
        if sine.abs() > 1e-9 {
            assert_eq!(s > 0, sine > 0.0, "sign must match the ideal sine at t={}", t);
        }
    }
}

#[test]
fn square_oscillator_never_intermediate() {
    let osc = Oscillator::Square { freq_micro_hz: note_to_frequency(7) };
    for t in (0..2_000_000).step_by(7919) {
        let s = osc.evaluate(t);
        assert!(s == WAVE_SCALE || s == -WAVE_SCALE);
    }
}

#[test]
fn noise_stays_in_range() {
    let osc = Oscillator::Noise;
    for t in 0..1000 {
        let s = osc.evaluate(t);
        assert!(-WAVE_SCALE <= s && s < WAVE_SCALE);
    }
}
