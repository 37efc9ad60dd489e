use ternary_rhythm::{gcd, lcm_value, Metronome, Polyrhythm, Rhythm, RhythmEvolver, Syncopation, Ternary};

#[test]
fn lib_test_rhythm_tick() {
    let mut r = Rhythm::new(vec![Ternary::Positive, Ternary::Neutral, Ternary::Negative]);
    assert_eq!(r.tick(), Ternary::Positive);
    assert_eq!(r.tick(), Ternary::Neutral);
    assert_eq!(r.tick(), Ternary::Negative);
    assert_eq!(r.tick(), Ternary::Positive); // wraps
}

#[test]
fn lib_test_rhythm_balance() {
    let r = Rhythm::new(vec![Ternary::Positive, Ternary::Positive, Ternary::Negative, Ternary::Neutral]);
    assert_eq!(r.balance(), (2, 1));
}

#[test]
fn lib_test_rhythm_reverse() {
    let mut r = Rhythm::new(vec![Ternary::Positive, Ternary::Neutral, Ternary::Negative]);
    r.reverse();
    assert_eq!(r.pattern, vec![Ternary::Negative, Ternary::Neutral, Ternary::Positive]);
}

#[test]
fn lib_test_rhythm_rotate() {
    let mut r = Rhythm::new(vec![Ternary::Positive, Ternary::Neutral, Ternary::Negative]);
    r.rotate(1);
    assert_eq!(r.pattern, vec![Ternary::Negative, Ternary::Positive, Ternary::Neutral]);
}

#[test]
fn lib_test_rhythm_reset() {
    let mut r = Rhythm::new(vec![Ternary::Positive, Ternary::Negative]);
    r.tick();
    r.tick();
    r.reset();
    assert_eq!(r.position, 0);
}

#[test]
fn lib_test_metronome_tick() {
    let mut m = Metronome::new(4);
    assert_eq!(m.tick(), Ternary::Positive); // first beat accented
    assert_eq!(m.tick(), Ternary::Neutral);
    assert_eq!(m.tick(), Ternary::Neutral);
    assert_eq!(m.tick(), Ternary::Neutral);
    assert!(m.is_downbeat()); // back to start
}

#[test]
fn test_metronome_custom_accents() {
    let mut m = Metronome::new(3);
    m.set_accents(vec![Ternary::Positive, Ternary::Positive, Ternary::Positive]);
    assert_eq!(m.tick(), Ternary::Positive);
    assert_eq!(m.tick(), Ternary::Positive);
    assert_eq!(m.tick(), Ternary::Positive);
}

#[test]
fn lib_test_metronome_reset() {
    let mut m = Metronome::new(4);
    m.tick();
    m.tick();
    m.reset();
    assert_eq!(m.position, 0);
}

#[test]
fn test_polyrhythm_tick() {
    let mut p = Polyrhythm::new(vec![
        Rhythm::new(vec![Ternary::Positive, Ternary::Neutral]),
        Rhythm::new(vec![Ternary::Negative, Ternary::Neutral, Ternary::Neutral]),
    ]);
    let vals = p.tick();
    assert_eq!(vals, vec![Ternary::Positive, Ternary::Negative]);
}

#[test]
fn test_polyrhythm_cycle_length() {
    let p = Polyrhythm::new(vec![
        Rhythm::new(vec![Ternary::Neutral; 4]),
        Rhythm::new(vec![Ternary::Neutral; 6]),
    ]);
    assert_eq!(p.cycle_length(), 12); // LCM(4,6) = 12
}

#[test]
fn test_polyrhythm_voice_count() {
    let p = Polyrhythm::new(vec![
        Rhythm::new(vec![Ternary::Neutral]),
        Rhythm::new(vec![Ternary::Neutral]),
        Rhythm::new(vec![Ternary::Neutral]),
    ]);
    assert_eq!(p.voice_count(), 3);
}

#[test]
fn test_syncopation_create() {
    let pattern = vec![Ternary::Positive, Ternary::Neutral, Ternary::Positive, Ternary::Neutral];
    let syncopated = Syncopation::syncopate(&pattern, 1);
    assert_eq!(syncopated, vec![Ternary::Neutral, Ternary::Positive, Ternary::Neutral, Ternary::Positive]);
}

#[test]
fn lib_test_rhythm_evolver_crossover() {
    let a = Rhythm::new(vec![Ternary::Positive, Ternary::Positive, Ternary::Positive, Ternary::Positive]);
    let b = Rhythm::new(vec![Ternary::Negative, Ternary::Negative, Ternary::Negative, Ternary::Negative]);
    let child = RhythmEvolver::crossover(&a, &b);
    assert_eq!(child.len(), 4);
    // First half from a, second from b
    assert_eq!(child.pattern[0], Ternary::Positive);
    assert_eq!(child.pattern[3], Ternary::Negative);
}

#[test]
fn test_gcd_lcm() {
    assert_eq!(gcd(12, 8), 4);
    assert_eq!(lcm_value(4, 6), 12);
    assert_eq!(lcm_value(0, 5), 0);
}
