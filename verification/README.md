# ternary-rhythm

Temporal pattern recognition and generation with ternary time patterns: each step
of a rhythm is an accent (+1), a silence (0) or a ghost note (-1).

The library in `src/` is written in Verus and verified: every public function has a
contract over mathematical models (sequences of `Ternary` values), and the laws of
the library (rotations compose and invert, notation round-trips, Euclidean rhythms
place exactly `k` hits, the full cycle of a polyrhythm is the least common multiple
of its voice lengths, and so on) are proof functions next to the code they speak of.

Layout of `src/`:

- `ternary.rs` — the `Ternary` value, integer conversions, the random generator
- `pattern.rs` — counting, rotation and their laws
- `euclid.rs` — Björklund's algorithm and Euclidean rhythms
- `meter.rs` — meter patterns
- `analysis.rs` — beat length, syncopation counts, classification labels
- `swing.rs` — swing timing for a given delay
- `notation.rs` — compact string notation and the ASCII-art picture
- `rhythm.rs`, `metronome.rs`, `polyrhythm.rs` — playback
- `syncopation.rs`, `groove.rs` — onset analysis
- `evolver.rs` — mutation, crossover and breeding of populations
- `presets.rs` — preset patterns

`app/` holds the command-line tool and the floating-point scores (density,
syncopation, swing amount, classification, groove statistics, fitness), computed
from the verified integer counts.
