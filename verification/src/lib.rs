//! Signal pipeline for a body-sound sensor sampled at a fixed rate: a bounded
//! sample buffer, the pass band of the band-pass filter, the frequency axis of a
//! spectrum, and a beat counter that turns threshold crossings into beats per
//! minute.
//!
//! Everything here is integer arithmetic. Voltages are microvolts. Sample rates
//! are whole hertz. Cutoff and bin frequencies, bin magnitudes and the heart
//! rate are counts of hundredths: a value printed with two decimals, without
//! the point.

pub mod acquisition;
pub mod bpm;
pub mod buffer;
pub mod fft;
pub mod filter;
pub mod globals;
pub mod utils;
