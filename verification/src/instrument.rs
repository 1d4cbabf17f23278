//! The polyphonic instrument: a mapping from note ids to envelopes, one
//! shared waveform, and the per-sample evaluation entry point.
//!
//! All operations run on the render timeline: events are applied, every
//! active note's envelope and waveform are evaluated and summed, and notes
//! whose release has finished are reclaimed. The note map is a vector of
//! entries with pairwise-distinct keys — small (a key is an `i8`) and with
//! fully specified contents; the iteration order of the entries is not
//! observable through the contracts except as the (unspecified) order of
//! [`InstrumentImpl::finished_notes`].

use crate::envelope::DefaultEnvelope;
use crate::envelope::GAIN_SCALE;
use crate::envelope::env_wf;
use crate::envelope::lemma_gain_bounds;
use crate::envelope::spec_activated;
use crate::envelope::spec_advance;
use crate::envelope::spec_deactivate;
use crate::envelope::spec_gain;
use crate::oscillator::Oscillator;
use crate::oscillator::WAVE_SCALE;
use crate::oscillator::note_to_frequency;
use crate::oscillator::spec_note_frequency;
use crate::oscillator::spec_square_high;
use vstd::arithmetic::div_mod::lemma_div_is_ordered;
use vstd::arithmetic::div_mod::lemma_div_multiples_vanish;
use vstd::prelude::*;
use vstd::set_lib::lemma_int_range;
use vstd::set_lib::lemma_len_subset;
use vstd::set_lib::set_int_range;

verus! {

/// A note lifecycle event, as delivered by the external event source.
#[derive(Clone, Copy, Debug, PartialEq, Eq, Structural)]
pub enum InputEvent {
    StartNote(i8),
    EndNote(i8),
}

/// The waveform family shared by all of an instrument's notes.
#[derive(Clone, Copy, Debug, PartialEq, Eq, Structural)]
pub enum Waveform {
    Square,
    Noise,
}

/// Rejected instrument configuration: envelope durations must be positive.
#[derive(Clone, Copy, Debug, PartialEq, Eq, Structural)]
pub enum ConfigError {
    NonPositiveAttack,
    NonPositiveRelease,
}

/// The polyphonic instrument.
pub struct InstrumentImpl {
    /// Prototype envelope: every started note gets an activated copy of it.
    pub template: DefaultEnvelope,
    /// Waveform family used by every note.
    pub waveform: Waveform,
    /// One entry per live note, keyed by note id; keys are pairwise distinct.
    pub notes: Vec<(i8, DefaultEnvelope)>,
}

/// Whether some entry of `s` carries the key `k`.
pub open spec fn spec_has_key(s: Seq<(i8, DefaultEnvelope)>, k: i8) -> bool {
    exists|i: int| 0 <= i < s.len() && (#[trigger] s[i]).0 == k
}

/// Whether the entries of `s` have pairwise-distinct keys.
pub open spec fn spec_keys_unique(s: Seq<(i8, DefaultEnvelope)>) -> bool {
    forall|i: int, j: int|
        0 <= i < j < s.len() ==> (#[trigger] s[i]).0 != (#[trigger] s[j]).0
}

/// A note entry is well-formed and carries the instrument's durations.
pub open spec fn spec_entry_ok(template: DefaultEnvelope, e: DefaultEnvelope) -> bool {
    &&& env_wf(e)
    &&& e.attack_micros == template.attack_micros
    &&& e.release_micros == template.release_micros
}

/// The note map after starting `n` at `now`: untouched when `n` is already
/// present, otherwise extended with an activated copy of the template.
pub open spec fn spec_start_seq(
    s: Seq<(i8, DefaultEnvelope)>,
    template: DefaultEnvelope,
    n: i8,
    now: u64,
) -> Seq<(i8, DefaultEnvelope)> {
    if spec_has_key(s, n) {
        s
    } else {
        s.push((n, spec_activated(template, now)))
    }
}

/// The note map after ending `n` at `now`: the entry keyed `n`, if any, is
/// deactivated; every other entry is untouched.
pub open spec fn spec_end_seq(s: Seq<(i8, DefaultEnvelope)>, n: i8, now: u64) -> Seq<
    (i8, DefaultEnvelope),
> {
    s.map_values(
        |p: (i8, DefaultEnvelope)|
            if p.0 == n {
                (p.0, spec_deactivate(p.1, now))
            } else {
                p
            },
    )
}

/// The note map after one evaluation at `now`: every envelope has performed
/// its lazy transition.
pub open spec fn spec_advance_all(s: Seq<(i8, DefaultEnvelope)>, now: u64) -> Seq<
    (i8, DefaultEnvelope),
> {
    s.map_values(|p: (i8, DefaultEnvelope)| (p.0, spec_advance(p.1, now)))
}

/// The ids of the entries whose envelope is no longer active, in entry order.
pub open spec fn spec_finished_seq(s: Seq<(i8, DefaultEnvelope)>) -> Seq<i8>
    decreases s.len(),
{
    if s.len() == 0 {
        Seq::empty()
    } else if !s.last().1.active {
        spec_finished_seq(s.drop_last()).push(s.last().0)
    } else {
        spec_finished_seq(s.drop_last())
    }
}

/// The note map with every entry keyed by one of `ids` removed, in entry
/// order; removing an id that is not present has no effect.
pub open spec fn spec_remove_seq(s: Seq<(i8, DefaultEnvelope)>, ids: Seq<i8>) -> Seq<
    (i8, DefaultEnvelope),
> decreases s.len() {
    if s.len() == 0 {
        Seq::empty()
    } else if ids.contains(s.last().0) {
        spec_remove_seq(s.drop_last(), ids)
    } else {
        spec_remove_seq(s.drop_last(), ids).push(s.last())
    }
}

/// The contribution of one note to a square-wave mix at `now`: its envelope
/// gain, signed by the square wave at the note's frequency.
pub open spec fn spec_square_contribution(n: i8, e: DefaultEnvelope, now: u64) -> int {
    if spec_square_high(spec_note_frequency(n as int), now as int) {
        spec_gain(e, now)
    } else {
        -spec_gain(e, now)
    }
}

/// The mixed sample of a square-wave instrument at `now`: the plain sum of
/// every entry's contribution, with no normalization by voice count.
pub open spec fn spec_square_mix(s: Seq<(i8, DefaultEnvelope)>, now: u64) -> int
    decreases s.len(),
{
    if s.len() == 0 {
        0
    } else {
        spec_square_mix(s.drop_last(), now) + spec_square_contribution(
            s.last().0,
            s.last().1,
            now,
        )
    }
}

impl InstrumentImpl {
    /// Well-formedness: distinct note keys, well-formed envelopes sharing the
    /// instrument's positive durations, and a silent template.
    pub open spec fn wf(self) -> bool {
        &&& spec_keys_unique(self.notes@)
        &&& forall|i: int|
            0 <= i < self.notes@.len() ==> spec_entry_ok(self.template, (#[trigger] self.notes@[i]).1)
        &&& env_wf(self.template)
        &&& !self.template.active
        &&& self.template.activation_time is None
        &&& self.template.deactivation_time is None
        &&& 1 <= self.template.attack_micros
        &&& 1 <= self.template.release_micros
    }

    /// An instrument with the given envelope durations (microseconds) and
    /// waveform, with no live notes. Non-positive durations are rejected,
    /// the attack being checked first.
    pub fn create(attack_micros: u64, release_micros: u64, waveform: Waveform) -> (r: Result<
        InstrumentImpl,
        ConfigError,
    >)
        ensures
            r is Ok <==> (1 <= attack_micros && 1 <= release_micros),
            r matches Ok(inst) ==> {
                &&& inst.wf()
                &&& inst.notes@.len() == 0
                &&& inst.waveform == waveform
                &&& inst.template.attack_micros == attack_micros
                &&& inst.template.release_micros == release_micros
            },
            attack_micros == 0 ==> (r matches Err(e) && e == ConfigError::NonPositiveAttack),
            attack_micros >= 1 && release_micros == 0 ==> (r matches Err(e) && e
                == ConfigError::NonPositiveRelease),
    {
        if attack_micros == 0 {
            Err(ConfigError::NonPositiveAttack)
        } else if release_micros == 0 {
            Err(ConfigError::NonPositiveRelease)
        } else {
            Ok(
                InstrumentImpl {
                    template: DefaultEnvelope::create(attack_micros, release_micros),
                    waveform,
                    notes: Vec::new(),
                },
            )
        }
    }

    /// The stock configuration: 100 ms attack, 50 ms release, square wave.
    pub fn create_default() -> (inst: InstrumentImpl)
        ensures
            inst.wf(),
            inst.notes@.len() == 0,
            inst.waveform == Waveform::Square,
            inst.template.attack_micros == 100_000,
            inst.template.release_micros == 50_000,
    {
        InstrumentImpl {
            template: DefaultEnvelope::create(100_000, 50_000),
            waveform: Waveform::Square,
            notes: Vec::new(),
        }
    }

    /// Index of the entry keyed `note`, if present.
    fn find_note(&self, note: i8) -> (r: Option<usize>)
        ensures
            match r {
                Some(i) => i < self.notes@.len() && self.notes@[i as int].0 == note,
                None => !spec_has_key(self.notes@, note),
            },
    {
        let n = self.notes.len();
        let mut i: usize = 0;
        while i < n
            invariant
                i <= n,
                n == self.notes@.len(),
                forall|j: int| 0 <= j < i ==> (#[trigger] self.notes@[j]).0 != note,
            decreases n - i,
        {
            if self.notes[i].0 == note {
                return Some(i);
            }
            i = i + 1;
        }
        None
    }

    /// Start sounding `note` at `now`. A second key-down on a note that is
    /// already present — still sounding or not yet reclaimed — is ignored.
    pub fn start_note(&mut self, note: i8, now: u64)
        requires
            old(self).wf(),
        ensures
            final(self).wf(),
            final(self).template == old(self).template,
            final(self).waveform == old(self).waveform,
            final(self).notes@ == spec_start_seq(old(self).notes@, old(self).template, note, now),
    {
        match self.find_note(note) {
            Some(_) => {},
            None => {
                let e = self.template.create_activated_copy(now);
                self.notes.push((note, e));
            },
        }
    }

    /// Stop sounding `note` at `now`: its envelope starts releasing. An end
    /// event for an unknown or already-released note is silently dropped, so
    /// repeated calls are idempotent.
    pub fn end_note(&mut self, note: i8, now: u64)
        requires
            old(self).wf(),
        ensures
            final(self).wf(),
            final(self).template == old(self).template,
            final(self).waveform == old(self).waveform,
            final(self).notes@ == spec_end_seq(old(self).notes@, note, now),
    {
        match self.find_note(note) {
            Some(i) => {
                let mut p = self.notes[i];
                p.1.deactivate(now);
                self.notes.set(i, p);
                proof {
                    assert(final(self).notes@ =~= spec_end_seq(old(self).notes@, note, now));
                }
            },
            None => {
                proof {
                    assert(final(self).notes@ =~= spec_end_seq(old(self).notes@, note, now));
                }
            },
        }
    }

    /// The ids whose envelope has finished releasing; a pure query, in entry
    /// order (which callers must treat as unspecified).
    pub fn finished_notes(&self) -> (r: Vec<i8>)
        ensures
            r@ == spec_finished_seq(self.notes@),
    {
        let n = self.notes.len();
        let mut r: Vec<i8> = Vec::new();
        let mut i: usize = 0;
        while i < n
            invariant
                i <= n,
                n == self.notes@.len(),
                r@ == spec_finished_seq(self.notes@.take(i as int)),
            decreases n - i,
        {
            let p = self.notes[i];
            proof {
                assert(self.notes@.take(i + 1 as int).drop_last() =~= self.notes@.take(i as int));
                assert(self.notes@.take(i + 1 as int).last() == self.notes@[i as int]);
            }
            if !p.1.is_active() {
                r.push(p.0);
            }
            i = i + 1;
        }
        proof {
            assert(self.notes@.take(n as int) =~= self.notes@);
        }
        r
    }

    /// Remove the given ids from the note map; ids that are not present are
    /// ignored.
    pub fn remove_finished(&mut self, ids: Vec<i8>)
        requires
            old(self).wf(),
        ensures
            final(self).wf(),
            final(self).template == old(self).template,
            final(self).waveform == old(self).waveform,
            final(self).notes@ == spec_remove_seq(old(self).notes@, ids@),
    {
        let ghost orig = self.notes@;
        let n = self.notes.len();
        let mut kept: Vec<(i8, DefaultEnvelope)> = Vec::new();
        let mut i: usize = 0;
        while i < n
            invariant
                i <= n,
                n == self.notes@.len(),
                self.notes@ == orig,
                kept@ == spec_remove_seq(orig.take(i as int), ids@),
            decreases n - i,
        {
            let p = self.notes[i];
            proof {
                assert(orig.take(i + 1 as int).drop_last() =~= orig.take(i as int));
                assert(orig.take(i + 1 as int).last() == orig[i as int]);
            }
            if !contains_id(&ids, p.0) {
                kept.push(p);
            }
            i = i + 1;
        }
        proof {
            assert(orig.take(n as int) =~= orig);
        }
        self.notes = kept;
        proof {
            lemma_remove_seq_properties(orig, ids@);
        }
    }

    /// One output sample at `now`: the sum over all live notes of the
    /// envelope gain times the waveform sample, as a fixed-point fraction of
    /// `WAVE_SCALE`. Summing is linear — there is no normalization by voice
    /// count, so many simultaneous notes may exceed one full scale, which
    /// the caller must expect.
    ///
    /// Every envelope also performs its lazy transition, so this must be
    /// called once per output sample for transitions to stay accurate.
    pub fn evaluate(&mut self, now: u64) -> (sample: i64)
        requires
            old(self).wf(),
        ensures
            final(self).wf(),
            final(self).template == old(self).template,
            final(self).waveform == old(self).waveform,
            final(self).notes@ == spec_advance_all(old(self).notes@, now),
            old(self).waveform == Waveform::Square ==> sample == spec_square_mix(
                old(self).notes@,
                now,
            ),
            -1_000_000 * (old(self).notes@.len() as int) <= sample <= 1_000_000 * (
            old(self).notes@.len() as int),
    {
        let ghost orig = self.notes@;
        proof {
            lemma_note_count(orig);
        }
        let n = self.notes.len();
        let mut acc: i64 = 0;
        let mut i: usize = 0;
        while i < n
            invariant
                i <= n,
                n <= 256,
                n == self.notes@.len(),
                orig.len() == n,
                self.template == old(self).template,
                self.waveform == old(self).waveform,
                forall|j: int| i <= j < n ==> self.notes@[j] == orig[j],
                forall|j: int|
                    0 <= j < i ==> (#[trigger] self.notes@[j]) == (
                    orig[j].0,
                    spec_advance(orig[j].1, now),
                ),
                forall|j: int| 0 <= j < n ==> spec_entry_ok(old(self).template, (#[trigger] orig[j]).1),
                self.waveform == Waveform::Square ==> acc == spec_square_mix(
                    orig.take(i as int),
                    now,
                ),
                -1_000_000 * (i as int) <= acc <= 1_000_000 * (i as int),
            decreases n - i,
        {
            let mut p = self.notes[i];
            let note = p.0;
            let gain = p.1.amplitude(now);
            self.notes.set(i, p);
            let freq = note_to_frequency(note);
            let w = match self.waveform {
                Waveform::Square => Oscillator::Square { freq_micro_hz: freq }.evaluate(now),
                Waveform::Noise => Oscillator::Noise.evaluate(now),
            };
            let c = scaled_contribution(gain, w);
            proof {
                assert(orig.take(i + 1 as int).drop_last() =~= orig.take(i as int));
                assert(orig.take(i + 1 as int).last() == orig[i as int]);
                lemma_gain_bounds(orig[i as int].1, now);
            }
            acc = acc + c;
            i = i + 1;
        }
        proof {
            assert(orig.take(n as int) =~= orig);
            assert(final(self).notes@ =~= spec_advance_all(orig, now));
        }
        acc
    }

    /// One full render step at `now`, in the order the per-frame discipline
    /// prescribes: apply the drained event (if one arrived), evaluate the
    /// sample, then reclaim the notes that have finished — so a note's last
    /// sample of sound is rendered before it is reclaimed.
    pub fn render_step(&mut self, event: Option<InputEvent>, now: u64) -> (sample: i64)
        requires
            old(self).wf(),
        ensures
            final(self).wf(),
            final(self).template == old(self).template,
            final(self).waveform == old(self).waveform,
            ({
                let applied = match event {
                    Some(InputEvent::StartNote(n)) => spec_start_seq(
                        old(self).notes@,
                        old(self).template,
                        n,
                        now,
                    ),
                    Some(InputEvent::EndNote(n)) => spec_end_seq(old(self).notes@, n, now),
                    None => old(self).notes@,
                };
                let advanced = spec_advance_all(applied, now);
                &&& final(self).notes@ == spec_remove_seq(advanced, spec_finished_seq(advanced))
                &&& (old(self).waveform == Waveform::Square ==> sample == spec_square_mix(
                    applied,
                    now,
                ))
            }),
    {
        match event {
            Some(InputEvent::StartNote(n)) => self.start_note(n, now),
            Some(InputEvent::EndNote(n)) => self.end_note(n, now),
            None => {},
        }
        let sample = self.evaluate(now);
        let finished = self.finished_notes();
        self.remove_finished(finished);
        sample
    }
}

impl Default for InstrumentImpl {
    /// The stock instrument; see [`InstrumentImpl::create_default`].
    fn default() -> (inst: Self)
        ensures
            inst.wf(),
            inst.notes@.len() == 0,
            inst.waveform == Waveform::Square,
            inst.template.attack_micros == 100_000,
            inst.template.release_micros == 50_000,
    {
        InstrumentImpl::create_default()
    }
}

/// The elapsed time, in microseconds, of an output frame counter at the
/// given sample rate: frame `f` plays at `f / sample_rate` seconds. The
/// render clock advances the frame counter by one per sample, keeping the
/// time base monotone.
pub fn time_of_frame(frame: u64, sample_rate: u32) -> (t_micros: u64)
    requires
        1 <= sample_rate,
        (frame as int) * 1_000_000 / (sample_rate as int) <= u64::MAX,
    ensures
        t_micros == (frame as int) * 1_000_000 / (sample_rate as int),
{
    proof {
        assert((frame as int) * 1_000_000 <= (u64::MAX as int) * 1_000_000) by (nonlinear_arith)
            requires frame <= u64::MAX;
        assert(0 <= (frame as int) * 1_000_000) by (nonlinear_arith)
            requires 0 <= frame;
    }
    ((frame as u128) * 1_000_000u128 / (sample_rate as u128)) as u64
}

/// Whether `ids` holds `x`.
fn contains_id(ids: &Vec<i8>, x: i8) -> (b: bool)
    ensures
        b == ids@.contains(x),
{
    let n = ids.len();
    let mut i: usize = 0;
    while i < n
        invariant
            i <= n,
            n == ids@.len(),
            forall|j: int| 0 <= j < i ==> ids@[j] != x,
        decreases n - i,
    {
        if ids[i] == x {
            return true;
        }
        i = i + 1;
    }
    false
}

/// `gain * w / WAVE_SCALE`: one note's contribution to the mix, exact for
/// full-scale square samples.
fn scaled_contribution(gain: u64, w: i64) -> (c: i64)
    requires
        gain <= GAIN_SCALE,
        -WAVE_SCALE <= w <= WAVE_SCALE,
    ensures
        -1_000_000 <= c <= 1_000_000,
        w == WAVE_SCALE ==> c == gain,
        w == -WAVE_SCALE ==> c == -(gain as int),
{
    if w >= 0 {
        proof {
            assert((gain as int) * (w as int) <= 1_000_000 * 1_000_000) by (nonlinear_arith)
                requires gain <= 1_000_000, 0 <= w <= 1_000_000;
            assert(0 <= (gain as int) * (w as int)) by (nonlinear_arith)
                requires 0 <= gain, 0 <= w;
            lemma_div_is_ordered((gain as int) * (w as int), (1_000_000 * 1_000_000) as int, 1_000_000);
            lemma_div_multiples_vanish(1_000_000, 1_000_000);
            if w == WAVE_SCALE {
                lemma_div_multiples_vanish(gain as int, 1_000_000);
                assert((gain as int) * 1_000_000 == 1_000_000 * (gain as int));
            }
        }
        let x = (gain as u128) * (w as u128) / 1_000_000u128;
        x as i64
    } else {
        let neg = -w;
        proof {
            assert((gain as int) * (neg as int) <= 1_000_000 * 1_000_000) by (nonlinear_arith)
                requires gain <= 1_000_000, 0 <= neg <= 1_000_000;
            assert(0 <= (gain as int) * (neg as int)) by (nonlinear_arith)
                requires 0 <= gain, 0 <= neg;
            lemma_div_is_ordered((gain as int) * (neg as int), (1_000_000 * 1_000_000) as int, 1_000_000);
            lemma_div_multiples_vanish(1_000_000, 1_000_000);
            if w == -WAVE_SCALE {
                lemma_div_multiples_vanish(gain as int, 1_000_000);
                assert((gain as int) * 1_000_000 == 1_000_000 * (gain as int));
            }
        }
        let x = (gain as u128) * (neg as u128) / 1_000_000u128;
        -(x as i64)
    }
}

/// A note map with pairwise-distinct `i8` keys has at most 256 entries.
pub proof fn lemma_note_count(s: Seq<(i8, DefaultEnvelope)>)
    requires
        spec_keys_unique(s),
    ensures
        s.len() <= 256,
{
    let ks = s.map_values(|p: (i8, DefaultEnvelope)| p.0 as int);
    assert(ks.len() == s.len());
    assert forall|i: int, j: int|
        0 <= i < ks.len() && 0 <= j < ks.len() && i != j implies ks[i] != ks[j] by {
        if i < j {
            assert(s[i].0 != s[j].0);
        } else {
            assert(s[j].0 != s[i].0);
        }
    }
    ks.unique_seq_to_set();
    lemma_int_range(-128, 128);
    assert(ks.to_set().subset_of(set_int_range(-128, 128))) by {
        assert forall|x: int| ks.to_set().contains(x) implies set_int_range(-128, 128).contains(
            x,
        ) by {
            let i = choose|i: int| 0 <= i < ks.len() && ks[i] == x;
            assert(-128 <= s[i].0 < 128);
        }
    }
    lemma_len_subset(ks.to_set(), set_int_range(-128, 128));
}

/// What removal keeps: entries of the given map whose key is not among
/// the removed ids, with key uniqueness preserved.
pub proof fn lemma_remove_seq_properties(s: Seq<(i8, DefaultEnvelope)>, ids: Seq<i8>)
    ensures
        forall|j: int|
            0 <= j < spec_remove_seq(s, ids).len() ==> s.contains(#[trigger] spec_remove_seq(s, ids)[j])
                && !ids.contains(spec_remove_seq(s, ids)[j].0),
        spec_keys_unique(s) ==> spec_keys_unique(spec_remove_seq(s, ids)),
        forall|k: i8|
            #[trigger] spec_has_key(spec_remove_seq(s, ids), k) <==> spec_has_key(s, k)
                && !ids.contains(k),
    decreases s.len(),
{
    if s.len() == 0 {
        assert forall|k: i8| !spec_has_key(spec_remove_seq(s, ids), k) && !spec_has_key(s, k) by {}
    } else {
        let rest = s.drop_last();
        lemma_remove_seq_properties(rest, ids);
        let r = spec_remove_seq(s, ids);
        let rr = spec_remove_seq(rest, ids);
        assert forall|j: int| 0 <= j < r.len() implies s.contains(#[trigger] r[j]) && !ids.contains(
            r[j].0,
        ) by {
            if ids.contains(s.last().0) {
                assert(rest.contains(r[j]));
                let i = choose|i: int| 0 <= i < rest.len() && rest[i] == r[j];
                assert(s[i] == r[j]);
            } else {
                if j < rr.len() {
                    assert(rest.contains(r[j]));
                    let i = choose|i: int| 0 <= i < rest.len() && rest[i] == r[j];
                    assert(s[i] == r[j]);
                } else {
                    assert(r[j] == s.last());
                    assert(s[s.len() - 1] == s.last());
                }
            }
        }
        if spec_keys_unique(s) {
            assert(spec_keys_unique(rest)) by {
                assert forall|i: int, j: int|
                    0 <= i < j < rest.len() implies (#[trigger] rest[i]).0 != (
                    #[trigger] rest[j]).0 by {
                    assert(s[i].0 != s[j].0);
                }
            }
            if !ids.contains(s.last().0) {
                assert forall|i: int, j: int|
                    0 <= i < j < r.len() implies (#[trigger] r[i]).0 != (#[trigger] r[j]).0 by {
                    if j < rr.len() {
                        assert(rr[i].0 != rr[j].0);
                    } else {
                        assert(r[j] == s.last());
                        assert(rest.contains(r[i]));
                        let m = choose|m: int| 0 <= m < rest.len() && rest[m] == r[i];
                        assert(s[m].0 != s[s.len() - 1].0);
                    }
                }
            }
        }
        assert forall|k: i8|
            #[trigger] spec_has_key(r, k) <==> spec_has_key(s, k) && !ids.contains(k) by {
            if spec_has_key(r, k) {
                let j = choose|j: int| 0 <= j < r.len() && r[j].0 == k;
                assert(s.contains(r[j]));
                let i = choose|i: int| 0 <= i < s.len() && s[i] == r[j];
                assert(spec_has_key(s, k));
            }
            if spec_has_key(s, k) && !ids.contains(k) {
                let i = choose|i: int| 0 <= i < s.len() && (#[trigger] s[i]).0 == k;
                if i < s.len() - 1 {
                    assert(rest[i] == s[i]);
                    assert(spec_has_key(rest, k));
                    assert(spec_has_key(rr, k));
                    let j = choose|j: int| 0 <= j < rr.len() && (#[trigger] rr[j]).0 == k;
                    if ids.contains(s.last().0) {
                        assert(r[j].0 == k);
                        assert(spec_has_key(r, k));
                    } else {
                        assert(r[j] == rr[j]);
                        assert(r[j].0 == k);
                        assert(spec_has_key(r, k));
                    }
                } else {
                    assert(s[i] == s.last());
                    assert(!ids.contains(s.last().0));
                    assert(r[r.len() - 1] == s.last());
                    assert(spec_has_key(r, k));
                }
            }
        }
    }
}

/// Superposition: notes mix independently, so the sample of a combined note
/// map is the arithmetic sum of the samples its two parts would produce
/// alone at the same instant.
pub proof fn lemma_mix_superposition(
    s1: Seq<(i8, DefaultEnvelope)>,
    s2: Seq<(i8, DefaultEnvelope)>,
    now: u64,
)
    ensures
        spec_square_mix(s1 + s2, now) == spec_square_mix(s1, now) + spec_square_mix(s2, now),
    decreases s2.len(),
{
    if s2.len() == 0 {
        assert(s1 + s2 =~= s1);
    } else {
        lemma_mix_superposition(s1, s2.drop_last(), now);
        assert((s1 + s2).drop_last() =~= s1 + s2.drop_last());
        assert((s1 + s2).last() == s2.last());
    }
}

/// Which ids are reported finished: exactly the keys of inactive entries.
pub proof fn lemma_finished_membership(s: Seq<(i8, DefaultEnvelope)>)
    ensures
        forall|k: i8|
            #[trigger] spec_finished_seq(s).contains(k) <==> exists|i: int|
                0 <= i < s.len() && (#[trigger] s[i]).0 == k && !s[i].1.active,
    decreases s.len(),
{
    if s.len() == 0 {
    } else {
        let rest = s.drop_last();
        lemma_finished_membership(rest);
        let f = spec_finished_seq(s);
        let fr = spec_finished_seq(rest);
        assert forall|k: i8| #[trigger] f.contains(k) implies exists|i: int|
            0 <= i < s.len() && (#[trigger] s[i]).0 == k && !s[i].1.active by {
            let j = choose|j: int| 0 <= j < f.len() && f[j] == k;
            if !s.last().1.active && j == f.len() - 1 {
                assert(s[s.len() - 1] == s.last());
                assert(s[s.len() - 1].0 == k && !s[s.len() - 1].1.active);
            } else {
                assert(fr[j] == k);
                assert(fr.contains(k));
                let i = choose|i: int|
                    0 <= i < rest.len() && (#[trigger] rest[i]).0 == k && !rest[i].1.active;
                assert(s[i] == rest[i]);
            }
        }
        assert forall|k: i8|
            (exists|i: int| 0 <= i < s.len() && (#[trigger] s[i]).0 == k && !s[i].1.active)
                implies #[trigger] f.contains(k) by {
            let i = choose|i: int|
                0 <= i < s.len() && (#[trigger] s[i]).0 == k && !s[i].1.active;
            if i < s.len() - 1 {
                assert(rest[i] == s[i]);
                assert(exists|m: int|
                    0 <= m < rest.len() && (#[trigger] rest[m]).0 == k && !rest[m].1.active);
                assert(fr.contains(k));
                let j = choose|j: int| 0 <= j < fr.len() && fr[j] == k;
                assert(f[j] == k);
            } else {
                assert(s[i] == s.last());
                assert(f[f.len() - 1] == k);
            }
        }
    }
}

/// All notes still sounding means nothing is reported finished.
proof fn lemma_finished_empty_when_all_active(s: Seq<(i8, DefaultEnvelope)>)
    requires
        forall|i: int| 0 <= i < s.len() ==> (#[trigger] s[i]).1.active,
    ensures
        spec_finished_seq(s) == Seq::<i8>::empty(),
    decreases s.len(),
{
    if s.len() > 0 {
        let rest = s.drop_last();
        assert(forall|i: int| 0 <= i < rest.len() ==> (#[trigger] rest[i]) == s[i]);
        lemma_finished_empty_when_all_active(rest);
        assert(s[s.len() - 1] == s.last());
    }
}

/// A freshly started note is never immediately finished: provided no other
/// note is already awaiting reclaim, the finished set right after
/// `start_note` is empty — even with a zero attack duration, since a new
/// envelope stays active until a later gain query completes its release.
///
/// The proviso is necessary: a note that had already finished but was not
/// yet reclaimed would still be reported.
pub proof fn lemma_start_note_not_finished(
    s: Seq<(i8, DefaultEnvelope)>,
    template: DefaultEnvelope,
    n: i8,
    now: u64,
)
    requires
        forall|i: int| 0 <= i < s.len() ==> (#[trigger] s[i]).1.active,
    ensures
        spec_finished_seq(spec_start_seq(s, template, n, now)) == Seq::<i8>::empty(),
{
    let s1 = spec_start_seq(s, template, n, now);
    assert(forall|i: int| 0 <= i < s1.len() ==> (#[trigger] s1[i]).1.active);
    lemma_finished_empty_when_all_active(s1);
}

/// Ending a note is idempotent: once a note has been ended, ending it again
/// — at the same or any other instant — changes nothing, so no output
/// produced afterwards can differ.
pub proof fn lemma_end_note_idempotent(s: Seq<(i8, DefaultEnvelope)>, n: i8, t1: u64, t2: u64)
    ensures
        spec_end_seq(spec_end_seq(s, n, t1), n, t2) == spec_end_seq(s, n, t1),
{
    let s1 = spec_end_seq(s, n, t1);
    let s2 = spec_end_seq(s1, n, t2);
    assert forall|i: int| 0 <= i < s2.len() implies s2[i] == s1[i] by {
        assert(s1[i] == if s[i].0 == n { (s[i].0, spec_deactivate(s[i].1, t1)) } else { s[i] });
    }
    assert(s2 =~= s1);
}

/// Ending a note that was never started (or was already reclaimed) has no
/// effect at all: the note map — and hence every later sample — is
/// unchanged.
pub proof fn lemma_end_note_unknown(s: Seq<(i8, DefaultEnvelope)>, n: i8, now: u64)
    requires
        !spec_has_key(s, n),
    ensures
        spec_end_seq(s, n, now) == s,
{
    let s1 = spec_end_seq(s, n, now);
    assert forall|i: int| 0 <= i < s1.len() implies s1[i] == s[i] by {
        assert((#[trigger] s[i]).0 != n);
    }
    assert(s1 =~= s);
}

/// Round trip of one note: start it, end it, and let at least the release
/// duration pass before the next evaluation; the note is then reported
/// finished, and reclaiming the finished ids removes it from the live set,
/// so no later sample has a contribution from it.
pub proof fn lemma_note_round_trip(
    s: Seq<(i8, DefaultEnvelope)>,
    template: DefaultEnvelope,
    n: i8,
    t_start: u64,
    t_end: u64,
    t_eval: u64,
)
    requires
        !spec_has_key(s, n),
        t_start <= t_end,
        t_end + template.release_micros <= t_eval,
    ensures
        ({
            let s1 = spec_start_seq(s, template, n, t_start);
            let s2 = spec_end_seq(s1, n, t_end);
            let s3 = spec_advance_all(s2, t_eval);
            &&& spec_finished_seq(s3).contains(n)
            &&& !spec_has_key(spec_remove_seq(s3, spec_finished_seq(s3)), n)
        }),
{
    let s1 = spec_start_seq(s, template, n, t_start);
    let s2 = spec_end_seq(s1, n, t_end);
    let s3 = spec_advance_all(s2, t_eval);
    let idx = s.len() as int;
    let e1 = spec_activated(template, t_start);
    let e2 = spec_deactivate(e1, t_end);
    let e3 = spec_advance(e2, t_eval);
    assert(s1 == s.push((n, e1)));
    assert(s1[idx] == (n, e1));
    assert(s2[idx] == (n, e2));
    assert(e2.deactivation_time == Some(t_end) && e2.active && e2.activation_time is None);
    assert(e2.release_micros == template.release_micros);
    assert(!e3.active);
    assert(s3[idx] == (n, e3));
    lemma_finished_membership(s3);
    assert(spec_finished_seq(s3).contains(n));
    lemma_remove_seq_properties(s3, spec_finished_seq(s3));
}

} // verus!
