use polysynth::envelope::DefaultEnvelope;
use polysynth::envelope::GAIN_SCALE;

// Scenario from the stock configuration: attack 100 ms, release 50 ms. The
// gain ramps 0 -> 1 over the attack, holds at 1, and ramps 1 -> 0 over the
// release after deactivation; all values are exact in fixed point.
#[test]
fn attack_sustain_release_scenario() {
    let template = DefaultEnvelope::create(100_000, 50_000);
    let mut e = template.create_activated_copy(0);
    assert_eq!(e.amplitude(0), 0);
    assert_eq!(e.amplitude(50_000), GAIN_SCALE / 2);
    assert_eq!(e.amplitude(100_000), GAIN_SCALE);
    assert_eq!(e.amplitude(150_000), GAIN_SCALE);
    assert!(e.is_active());
    e.deactivate(200_000);
    assert!(e.is_active());
    assert_eq!(e.amplitude(225_000), GAIN_SCALE / 2);
    assert_eq!(e.amplitude(250_000), 0);
    assert!(!e.is_active());
}

#[test]
fn fresh_envelope_is_silent() {
    let mut e = DefaultEnvelope::create(100_000, 50_000);
    assert!(!e.is_active());
    assert_eq!(e.amplitude(0), 0);
    assert_eq!(e.amplitude(1_000_000), 0);
}

#[test]
fn activate_starts_attack() {
    let mut e = DefaultEnvelope::create(200_000, 50_000);
    e.activate(1_000);
    assert!(e.is_active());
    assert_eq!(e.amplitude(1_000), 0);
    assert_eq!(e.amplitude(101_000), GAIN_SCALE / 2);
}

// A zero attack duration still begins in the attacking state, but the first
// gain query after activation already reads full scale.
#[test]
fn zero_attack_reads_full_scale_at_once() {
    let mut e = DefaultEnvelope::create(0, 50_000).create_activated_copy(10);
    assert!(e.is_active());
    assert_eq!(e.amplitude(10), GAIN_SCALE);
}

// Deactivating twice moves nothing: the release keeps running from the
// first deactivation instant.
#[test]
fn deactivate_is_idempotent() {
    let mut e = DefaultEnvelope::create(100_000, 50_000).create_activated_copy(0);
    let _ = e.amplitude(150_000);
    e.deactivate(200_000);
    e.deactivate(230_000);
    assert_eq!(e.amplitude(225_000), GAIN_SCALE / 2);
    let mut f = DefaultEnvelope::create(100_000, 50_000).create_activated_copy(0);
    let _ = f.amplitude(150_000);
    f.deactivate(200_000);
    assert_eq!(f.amplitude(225_000), GAIN_SCALE / 2);
}

// Deactivation during the attack releases from nominal full scale, not from
// the interrupted attack gain.
#[test]
fn release_during_attack_starts_from_full_scale() {
    let mut e = DefaultEnvelope::create(100_000, 50_000).create_activated_copy(0);
    assert_eq!(e.amplitude(10_000), GAIN_SCALE / 10);
    e.deactivate(20_000);
    assert_eq!(e.amplitude(45_000), GAIN_SCALE / 2);
    assert_eq!(e.amplitude(70_000), 0);
    assert!(!e.is_active());
}
