//! Temporal pattern recognition and generation using ternary time patterns.
//!
//! A rhythm is a sequence of ternary values: an accented hit (+1), a silence (0)
//! or a ghost note (-1). The library generates patterns (Euclidean rhythms, meters,
//! presets), transforms them (rotation, syncopation, swing), analyzes them (counts
//! behind density and syncopation, classification), plays them back (rhythms,
//! metronomes, polyrhythms) and evolves them (mutation and crossover).

pub mod ternary;
pub mod pattern;
pub mod euclid;
pub mod meter;
pub mod analysis;
pub mod swing;
pub mod notation;
pub mod rhythm;
pub mod metronome;
pub mod polyrhythm;
pub mod syncopation;
pub mod groove;
pub mod evolver;
pub mod presets;

pub use crate::ternary::{Ternary, TernaryExt};
pub use crate::pattern::{count_non_neutral, count_value, rotate, RhythmPattern};
pub use crate::euclid::euclidean;
pub use crate::meter::generate_meter;
pub use crate::analysis::{
    classify_labels, guess_beat_len, syncopation_counts, Feel, Genre, Labels, Meter,
};
pub use crate::swing::swing_with_shift;
pub use crate::notation::{from_string, to_string, visualize};
pub use crate::rhythm::Rhythm;
pub use crate::metronome::Metronome;
pub use crate::polyrhythm::{gcd, lcm_value, Polyrhythm};
pub use crate::syncopation::Syncopation;
pub use crate::groove::Groove;
pub use crate::evolver::RhythmEvolver;
