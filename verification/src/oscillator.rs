//! Stateless waveform generation and the note-to-frequency mapping.
//!
//! Frequencies are in micro-hertz and time in microseconds, so the phase of a
//! wave at a given instant — `frequency * time` in units of 10^-12 cycles —
//! is an exact integer. The square wave's sign is decided from that phase
//! exactly where the ideal sine `sin(2*pi*frequency*time)` is positive.
//! Samples are fixed-point fractions of [`WAVE_SCALE`].

use vstd::arithmetic::div_mod::lemma_div_denominator;
use vstd::arithmetic::div_mod::lemma_div_is_ordered;
use vstd::arithmetic::div_mod::lemma_fundamental_div_mod;
use vstd::arithmetic::div_mod::lemma_fundamental_div_mod_converse;
use vstd::arithmetic::div_mod::lemma_hoist_over_denominator;
use vstd::arithmetic::power2::lemma2_to64;
use vstd::arithmetic::power2::lemma_pow2_pos;
use vstd::arithmetic::power2::lemma_pow2_strictly_increases;
use vstd::arithmetic::power2::lemma_pow2_unfold;
use vstd::arithmetic::power2::pow2;
use vstd::prelude::*;

verus! {

/// Fixed-point unit: a sample of `WAVE_SCALE` means full amplitude (+1.0).
pub const WAVE_SCALE: i64 = 1_000_000;

/// Phase units per full cycle: micro-hertz times microseconds.
pub const PHASE_CYCLE: u64 = 1_000_000_000_000;

/// Phase units per half cycle.
pub const PHASE_HALF_CYCLE: u64 = 500_000_000_000;

/// Frequency of the reference pitch (note id 0, the C below middle C) and of
/// the eleven semitones above it, in micro-hertz; each step is a factor of
/// the twelfth root of two.
pub open spec fn spec_semitone_micro_hz(r: int) -> int {
    if r == 0 { 130_812_783 }
    else if r == 1 { 138_591_315 }
    else if r == 2 { 146_832_384 }
    else if r == 3 { 155_563_492 }
    else if r == 4 { 164_813_778 }
    else if r == 5 { 174_614_116 }
    else if r == 6 { 184_997_211 }
    else if r == 7 { 195_997_718 }
    else if r == 8 { 207_652_349 }
    else if r == 9 { 220_000_000 }
    else if r == 10 { 233_081_881 }
    else { 246_941_651 }
}

/// Equal-tempered frequency of a note id, in micro-hertz: the reference pitch
/// scaled by `2^(note / 12)`. The shifted index `note + 132` keeps the
/// arithmetic non-negative for every `i8` note id; octaves below the
/// reference divide the semitone frequency, rounding down.
pub open spec fn spec_note_frequency(note: int) -> int {
    let shifted = note + 132;
    let octave = shifted / 12;
    let semitone = shifted % 12;
    if octave >= 11 {
        spec_semitone_micro_hz(semitone) * pow2((octave - 11) as nat)
    } else {
        spec_semitone_micro_hz(semitone) / pow2((11 - octave) as nat) as int
    }
}

/// Wave phase at time `t_micros` for frequency `freq_micro_hz`, in units of
/// 10^-12 cycles.
pub open spec fn spec_square_phase(freq_micro_hz: int, t_micros: int) -> int {
    (freq_micro_hz * t_micros) % (PHASE_CYCLE as int)
}

/// Whether the ideal sine at this frequency and time is strictly positive:
/// true exactly when the phase lies in the open first half of the cycle.
pub open spec fn spec_square_high(freq_micro_hz: int, t_micros: int) -> bool {
    0 < spec_square_phase(freq_micro_hz, t_micros) < PHASE_HALF_CYCLE as int
}

/// The square-wave sample: exactly full positive scale while the ideal sine
/// is positive, exactly full negative scale otherwise (so a sine of zero
/// yields the negative level).
pub open spec fn spec_square_wave(freq_micro_hz: int, t_micros: int) -> int {
    if spec_square_high(freq_micro_hz, t_micros) {
        WAVE_SCALE as int
    } else {
        -(WAVE_SCALE as int)
    }
}

/// The reference pitch is one octave (twelve semitones) below note id 12, and
/// its frequency is about 130.81 Hz.
pub proof fn lemma_frequency_octave()
    ensures
        spec_note_frequency(0) == 130_812_783,
        spec_note_frequency(12) == 2 * spec_note_frequency(0),
{
    lemma2_to64();
    assert(spec_note_frequency(0) == spec_semitone_micro_hz(0) * pow2(0));
    assert(spec_note_frequency(12) == spec_semitone_micro_hz(0) * pow2(1));
    assert(spec_semitone_micro_hz(0) * pow2(0) == 130_812_783)
        by (nonlinear_arith)
        requires pow2(0) == 1, spec_semitone_micro_hz(0) == 130_812_783;
    assert(spec_semitone_micro_hz(0) * pow2(1) == 2 * 130_812_783)
        by (nonlinear_arith)
        requires pow2(1) == 2, spec_semitone_micro_hz(0) == 130_812_783;
}

/// A semitone value placed in its octave: multiplied up above the reference
/// octave, divided down (rounding down) below it.
spec fn spec_octave_scaled(v: int, octave: int) -> int {
    if octave >= 11 {
        v * pow2((octave - 11) as nat)
    } else {
        v / pow2((11 - octave) as nat) as int
    }
}

/// Two values at least one whole division unit apart stay strictly ordered
/// after octave scaling: the gap of 2048 covers the deepest halving.
proof fn lemma_octave_scaled_strictly_less(a: int, b: int, octave: int)
    requires
        0 <= octave <= 21,
        0 < a,
        a + 2048 <= b,
    ensures
        spec_octave_scaled(a, octave) < spec_octave_scaled(b, octave),
{
    if octave >= 11 {
        let p = pow2((octave - 11) as nat) as int;
        lemma_pow2_pos((octave - 11) as nat);
        assert(a * p < b * p) by (nonlinear_arith)
            requires a < b, 1 <= p;
    } else {
        let k = (11 - octave) as nat;
        let p = pow2(k) as int;
        lemma_pow2_pos(k);
        lemma2_to64();
        if k < 11 {
            lemma_pow2_strictly_increases(k, 11);
        }
        assert(p <= 2048);
        lemma_hoist_over_denominator(a, 1, pow2(k));
        assert(a / p + 1 == (a + p) / p);
        lemma_div_is_ordered(a + p, b, p);
    }
}

/// Scaling a value one octave higher equals scaling its double in place.
proof fn lemma_octave_scaled_double(a: int, octave: int)
    requires
        0 <= octave <= 21,
        0 < a,
    ensures
        spec_octave_scaled(a, octave + 1) == spec_octave_scaled(2 * a, octave),
{
    lemma2_to64();
    if octave >= 11 {
        lemma_pow2_unfold((octave + 1 - 11) as nat);
        assert(a * pow2((octave + 1 - 11) as nat) == (2 * a) * pow2((octave - 11) as nat))
            by (nonlinear_arith)
            requires pow2((octave + 1 - 11) as nat) == 2 * pow2((octave - 11) as nat);
    } else if octave == 10 {
        assert(spec_octave_scaled(a, 11) == a * pow2(0));
        assert(a * pow2(0) == a) by (nonlinear_arith)
            requires pow2(0) == 1;
        assert(spec_octave_scaled(2 * a, 10) == (2 * a) / pow2(1) as int);
        assert((2 * a) / 2 == a);
    } else {
        let k = (10 - octave) as nat;
        lemma_pow2_pos(k);
        lemma_pow2_unfold((k + 1) as nat);
        lemma_div_denominator(2 * a, 2, pow2(k) as int);
        assert((2 * a) / 2 == a);
        assert(2 * pow2(k) == pow2((k + 1) as nat));
        assert(spec_octave_scaled(2 * a, octave) == (2 * a) / pow2((k + 1) as nat) as int);
        assert(spec_octave_scaled(a, octave + 1) == a / pow2(k) as int);
    }
}

/// The note-to-frequency mapping is strictly monotonic: each unit increase
/// of the note id raises the frequency, for every representable note id.
pub proof fn lemma_frequency_monotonic(note: int)
    requires
        -128 <= note < 127,
    ensures
        spec_note_frequency(note) < spec_note_frequency(note + 1),
{
    let m = note + 132;
    let q = m / 12;
    let r = m % 12;
    lemma_fundamental_div_mod(m, 12);
    assert(0 <= q <= 21 && 0 <= r < 12);
    assert(spec_note_frequency(note) == spec_octave_scaled(spec_semitone_micro_hz(r), q));
    if r < 11 {
        lemma_fundamental_div_mod_converse(m + 1, 12, q, r + 1);
        assert(spec_note_frequency(note + 1) == spec_octave_scaled(
            spec_semitone_micro_hz(r + 1),
            q,
        ));
        assert(spec_semitone_micro_hz(r) + 2048 <= spec_semitone_micro_hz(r + 1));
        lemma_octave_scaled_strictly_less(
            spec_semitone_micro_hz(r),
            spec_semitone_micro_hz(r + 1),
            q,
        );
    } else {
        lemma_fundamental_div_mod_converse(m + 1, 12, q + 1, 0);
        assert(spec_note_frequency(note + 1) == spec_octave_scaled(spec_semitone_micro_hz(0), q + 1));
        lemma_octave_scaled_double(spec_semitone_micro_hz(0), q);
        assert(spec_semitone_micro_hz(11) + 2048 <= 2 * spec_semitone_micro_hz(0));
        lemma_octave_scaled_strictly_less(
            spec_semitone_micro_hz(11),
            2 * spec_semitone_micro_hz(0),
            q,
        );
    }
}

/// Exec mirror of [`spec_semitone_micro_hz`].
fn semitone_micro_hz(r: u32) -> (f: u64)
    requires
        r < 12,
    ensures
        f == spec_semitone_micro_hz(r as int),
        130_812_783 <= f <= 246_941_651,
{
    match r {
        0 => 130_812_783,
        1 => 138_591_315,
        2 => 146_832_384,
        3 => 155_563_492,
        4 => 164_813_778,
        5 => 174_614_116,
        6 => 184_997_211,
        7 => 195_997_718,
        8 => 207_652_349,
        9 => 220_000_000,
        10 => 233_081_881,
        _ => 246_941_651,
    }
}

/// Frequency of a note id in micro-hertz; see [`spec_note_frequency`].
pub fn note_to_frequency(note: i8) -> (freq: u64)
    ensures
        freq == spec_note_frequency(note as int),
{
    let shifted: u32 = (note as i32 + 132) as u32;
    let octave: u32 = shifted / 12;
    let semitone: u32 = shifted % 12;
    let base: u64 = semitone_micro_hz(semitone);
    proof {
        lemma2_to64();
        assert(pow2(0) == 1);
    }
    if octave >= 11 {
        let doublings: u32 = octave - 11;
        let mut f: u64 = base;
        let mut i: u32 = 0;
        while i < doublings
            invariant
                i <= doublings,
                doublings <= 10,
                base <= 246_941_651,
                f == base * pow2(i as nat),
            decreases doublings - i,
        {
            proof {
                lemma2_to64();
                if (i as nat) < 10 {
                    lemma_pow2_strictly_increases(i as nat, 10);
                }
                lemma_pow2_unfold((i + 1) as nat);
                assert(base * pow2(i as nat) <= 246_941_651 * 1024) by (nonlinear_arith)
                    requires base <= 246_941_651, pow2(i as nat) <= 1024;
                assert(base * pow2((i + 1) as nat) == (base * pow2(i as nat)) * 2)
                    by (nonlinear_arith)
                    requires pow2((i + 1) as nat) == 2 * pow2(i as nat);
            }
            f = f * 2;
            i = i + 1;
        }
        f
    } else {
        let halvings: u32 = 11 - octave;
        let mut f: u64 = base;
        let mut i: u32 = 0;
        while i < halvings
            invariant
                i <= halvings,
                f == (base as int) / (pow2(i as nat) as int),
            decreases halvings - i,
        {
            proof {
                lemma_pow2_pos(i as nat);
                lemma_pow2_unfold((i + 1) as nat);
                lemma_div_denominator(base as int, pow2(i as nat) as int, 2);
                assert(pow2(i as nat) * 2 == pow2((i + 1) as nat));
            }
            f = f / 2;
            i = i + 1;
        }
        f
    }
}

/// Square-wave sample for the given frequency and time; see
/// [`spec_square_wave`]. The product of micro-hertz and microseconds is
/// formed in 128 bits, so the phase is exact for every representable input.
pub fn square_sample(freq_micro_hz: u64, t_micros: u64) -> (s: i64)
    ensures
        s == spec_square_wave(freq_micro_hz as int, t_micros as int),
{
    proof {
        assert((freq_micro_hz as int) * (t_micros as int) <= (u64::MAX as int) * (u64::MAX as int))
            by (nonlinear_arith)
            requires freq_micro_hz <= u64::MAX, t_micros <= u64::MAX;
    }
    let phase: u64 = (((freq_micro_hz as u128) * (t_micros as u128)) % (PHASE_CYCLE as u128))
        as u64;
    if 0 < phase && phase < PHASE_HALF_CYCLE {
        WAVE_SCALE
    } else {
        -WAVE_SCALE
    }
}

/// Relies on `rand::Rng::gen_range` (rand 0.8) on the thread-local generator:
/// for a non-empty half-open integer range it returns a uniformly distributed
/// value in that range, and it panics only on an empty range.
#[verifier::external_body]
fn random_in_range(lo: i64, hi: i64) -> (r: i64)
    requires
        lo < hi,
    ensures
        lo <= r < hi,
{
    rand::Rng::gen_range(&mut rand::thread_rng(), lo..hi)
}

/// A stateless waveform source: evaluating it at a time yields one sample.
///
/// The noise variant draws from the process-wide pseudo-random state; nothing
/// is assumed of the draw beyond its range, so no two evaluations need agree.
pub enum Oscillator {
    /// Hard 50% square wave at a fixed frequency.
    Square { freq_micro_hz: u64 },
    /// Uniform noise in `[-WAVE_SCALE, WAVE_SCALE)`.
    Noise,
}

impl Oscillator {
    /// One sample at `t_micros`, in `[-WAVE_SCALE, WAVE_SCALE]`.
    pub fn evaluate(&self, t_micros: u64) -> (s: i64)
        ensures
            -WAVE_SCALE <= s <= WAVE_SCALE,
            (*self) matches Oscillator::Square { freq_micro_hz } ==>
                s == spec_square_wave(freq_micro_hz as int, t_micros as int),
            (*self) is Noise ==> -WAVE_SCALE <= s < WAVE_SCALE,
    {
        match self {
            Oscillator::Square { freq_micro_hz } => square_sample(*freq_micro_hz, t_micros),
            Oscillator::Noise => random_in_range(-WAVE_SCALE, WAVE_SCALE),
        }
    }
}

} // verus!
