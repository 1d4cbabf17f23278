//! Core of a real-time polyphonic synthesizer.
//!
//! The engine is written over integer time and fixed-point amplitudes so that
//! every part of it can be reasoned about exactly: time is measured in
//! microseconds, envelope gains are fractions of [`envelope::GAIN_SCALE`], and
//! waveform samples are fractions of [`oscillator::WAVE_SCALE`]. The
//! surrounding program converts these to the audio device's sample format.

pub mod envelope;
pub mod instrument;
pub mod keys;
pub mod oscillator;
