//! Per-note amplitude envelope: a state machine producing a time-varying gain.
//!
//! A note's gain ramps from 0 to full scale over the attack duration, holds at
//! full scale while the key is down, and ramps back to 0 over the release
//! duration after the key is released. Time is in microseconds; the gain is a
//! fixed-point fraction of [`GAIN_SCALE`].

use vstd::prelude::*;

verus! {

/// Fixed-point unit: a gain of `GAIN_SCALE` means full amplitude (1.0).
pub const GAIN_SCALE: u64 = 1_000_000;

/// The envelope of one sounding note.
///
/// States, mirrored by the spec predicates below:
/// - inactive: `!active` (silent, eligible for reclaiming);
/// - attacking: `active` and `activation_time` is set;
/// - sustaining: `active` and neither timer is set;
/// - releasing: `active` and `deactivation_time` is set.
///
/// When a release is requested while the attack is still ramping, the release
/// starts from full scale rather than from the interrupted attack gain; this
/// deliberate simplification keeps the release a pure function of the
/// deactivation instant.
#[derive(Clone, Copy, Debug)]
pub struct DefaultEnvelope {
    /// Attack duration in microseconds.
    pub attack_micros: u64,
    /// Release duration in microseconds.
    pub release_micros: u64,
    /// Instant the attack ramp started, while it is still ramping.
    pub activation_time: Option<u64>,
    /// Instant the release ramp started, while it is still ramping.
    pub deactivation_time: Option<u64>,
    /// False once the release has completed (or before activation).
    pub active: bool,
}

/// Structural well-formedness: an inactive envelope carries no timers, and the
/// attack and release ramps are never pending at once.
pub open spec fn env_wf(e: DefaultEnvelope) -> bool {
    &&& !e.active ==> e.activation_time is None && e.deactivation_time is None
    &&& !(e.activation_time is Some && e.deactivation_time is Some)
}

/// Gain of the attack ramp at `now`, as a fraction of `GAIN_SCALE`.
pub open spec fn attack_gain(attack_micros: u64, t0: u64, now: u64) -> int {
    if now < t0 {
        0
    } else if now - t0 >= attack_micros {
        GAIN_SCALE as int
    } else {
        (now - t0) * (GAIN_SCALE as int) / (attack_micros as int)
    }
}

/// Gain of the release ramp at `now`, as a fraction of `GAIN_SCALE`.
pub open spec fn release_gain(release_micros: u64, t0: u64, now: u64) -> int {
    if now < t0 {
        GAIN_SCALE as int
    } else if now - t0 >= release_micros {
        0
    } else {
        (release_micros - (now - t0)) * (GAIN_SCALE as int) / (release_micros as int)
    }
}

/// The gain an envelope reports at `now`.
pub open spec fn spec_gain(e: DefaultEnvelope, now: u64) -> int {
    if !e.active {
        0
    } else {
        match e.activation_time {
            Some(t0) => attack_gain(e.attack_micros, t0, now),
            None => match e.deactivation_time {
                Some(t0) => release_gain(e.release_micros, t0, now),
                None => GAIN_SCALE as int,
            },
        }
    }
}

/// The envelope state after a gain query at `now`: a finished attack snaps to
/// sustain, a finished release snaps to inactive.
pub open spec fn spec_advance(e: DefaultEnvelope, now: u64) -> DefaultEnvelope {
    if !e.active {
        e
    } else {
        match e.activation_time {
            Some(t0) => {
                if now >= t0 && now - t0 >= e.attack_micros {
                    DefaultEnvelope { activation_time: None, ..e }
                } else {
                    e
                }
            },
            None => match e.deactivation_time {
                Some(t0) => {
                    if now >= t0 && now - t0 >= e.release_micros {
                        DefaultEnvelope { deactivation_time: None, active: false, ..e }
                    } else {
                        e
                    }
                },
                None => e,
            },
        }
    }
}

/// The envelope state after a release request at `now`: attacking or
/// sustaining envelopes start releasing; releasing or inactive ones are
/// left alone, so repeated requests are no-ops.
pub open spec fn spec_deactivate(e: DefaultEnvelope, now: u64) -> DefaultEnvelope {
    if e.active && e.deactivation_time is None {
        DefaultEnvelope { activation_time: None, deactivation_time: Some(now), ..e }
    } else {
        e
    }
}

/// A fresh envelope with the same durations as `e`, attacking from `now`.
pub open spec fn spec_activated(e: DefaultEnvelope, now: u64) -> DefaultEnvelope {
    DefaultEnvelope {
        attack_micros: e.attack_micros,
        release_micros: e.release_micros,
        activation_time: Some(now),
        deactivation_time: None,
        active: true,
    }
}

/// The reported gain always lies within the fixed-point unit interval.
pub proof fn lemma_gain_bounds(e: DefaultEnvelope, now: u64)
    ensures
        0 <= spec_gain(e, now) <= GAIN_SCALE,
{
    if e.active {
        if let Some(t0) = e.activation_time {
            if t0 <= now && now - t0 < e.attack_micros {
                lemma_ramp_bounds((now - t0) as u64, e.attack_micros);
            }
        } else if let Some(t0) = e.deactivation_time {
            if t0 <= now && now - t0 < e.release_micros {
                lemma_ramp_bounds((e.release_micros - (now - t0)) as u64, e.release_micros);
            }
        }
    }
}

/// A partial ramp `num * GAIN_SCALE / den` with `num <= den` stays within the
/// fixed-point unit interval.
proof fn lemma_ramp_bounds(num: u64, den: u64)
    requires
        1 <= den,
        num <= den,
    ensures
        0 <= num * (GAIN_SCALE as int) / (den as int) <= GAIN_SCALE,
{
    assert(num * (GAIN_SCALE as int) <= den * (GAIN_SCALE as int)) by (nonlinear_arith)
        requires num <= den;
    assert(num * (GAIN_SCALE as int) / (den as int) <= den * (GAIN_SCALE as int) / (den as int))
        by (nonlinear_arith)
        requires 1 <= den, num * (GAIN_SCALE as int) <= den * (GAIN_SCALE as int);
    assert(den * (GAIN_SCALE as int) / (den as int) == GAIN_SCALE) by (nonlinear_arith)
        requires 1 <= den;
    assert(num * (GAIN_SCALE as int) >= 0) by (nonlinear_arith);
    assert(num * (GAIN_SCALE as int) / (den as int) >= 0) by (nonlinear_arith)
        requires 1 <= den, num * (GAIN_SCALE as int) >= 0;
}

impl DefaultEnvelope {
    /// A silent envelope with the given attack and release durations.
    pub fn create(attack_micros: u64, release_micros: u64) -> (e: Self)
        ensures
            e == (DefaultEnvelope {
                attack_micros,
                release_micros,
                activation_time: None,
                deactivation_time: None,
                active: false,
            }),
    {
        DefaultEnvelope {
            attack_micros,
            release_micros,
            activation_time: None,
            deactivation_time: None,
            active: false,
        }
    }

    /// Whether the note is still sounding (attacking, sustaining or releasing).
    pub fn is_active(&self) -> (b: bool)
        ensures
            b == self.active,
    {
        self.active
    }

    /// Start the attack ramp at `now` on a not-yet-sounding envelope.
    pub fn activate(&mut self, now: u64)
        requires
            !old(self).active,
        ensures
            *final(self) == spec_activated(*old(self), now),
    {
        self.activation_time = Some(now);
        self.deactivation_time = None;
        self.active = true;
    }

    /// Begin the release ramp at `now`; a no-op while already releasing or
    /// inactive, so repeated calls leave the envelope unchanged.
    pub fn deactivate(&mut self, now: u64)
        ensures
            *final(self) == spec_deactivate(*old(self), now),
    {
        if self.active && self.deactivation_time.is_none() {
            self.activation_time = None;
            self.deactivation_time = Some(now);
        }
    }

    /// A fresh copy of this envelope's configuration, attacking from `now`.
    pub fn create_activated_copy(&self, now: u64) -> (e: Self)
        ensures
            e == spec_activated(*self, now),
    {
        DefaultEnvelope {
            attack_micros: self.attack_micros,
            release_micros: self.release_micros,
            activation_time: Some(now),
            deactivation_time: None,
            active: true,
        }
    }

    /// Current gain at `now`, in `[0, GAIN_SCALE]`.
    ///
    /// Also performs the lazy state transitions: the attack timer is cleared
    /// once the ramp completes, and a completed release marks the envelope
    /// inactive. Callers poll this once per output sample, so a transition is
    /// never missed by more than one sample period.
    pub fn amplitude(&mut self, now: u64) -> (gain: u64)
        ensures
            gain == spec_gain(*old(self), now),
            *final(self) == spec_advance(*old(self), now),
            gain <= GAIN_SCALE,
    {
        proof {
            lemma_gain_bounds(*old(self), now);
        }
        if !self.active {
            return 0;
        }
        if let Some(t0) = self.activation_time {
            if now < t0 {
                return 0;
            }
            let delta = now - t0;
            if delta >= self.attack_micros {
                self.activation_time = None;
                return GAIN_SCALE;
            }
            let gain = ((delta as u128) * (GAIN_SCALE as u128) / (self.attack_micros as u128))
                as u64;
            return gain;
        }
        if let Some(t0) = self.deactivation_time {
            if now < t0 {
                return GAIN_SCALE;
            }
            let delta = now - t0;
            if delta >= self.release_micros {
                self.deactivation_time = None;
                self.active = false;
                return 0;
            }
            let gain = (((self.release_micros - delta) as u128) * (GAIN_SCALE as u128)
                / (self.release_micros as u128)) as u64;
            return gain;
        }
        GAIN_SCALE
    }
}

} // verus!

