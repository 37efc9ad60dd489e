use ternary_rhythm::{Metronome, Rhythm, RhythmEvolver, Syncopation, Ternary};

#[test]
fn evolver_test_rhythm_evolver_crossover() {
    let a = Rhythm::new(vec![Ternary::Positive, Ternary::Positive, Ternary::Positive, Ternary::Positive]);
    let b = Rhythm::new(vec![Ternary::Negative, Ternary::Negative, Ternary::Negative, Ternary::Negative]);
    let child = RhythmEvolver::crossover(&a, &b);
    assert_eq!(child.len(), 4);
    // First half from a, second from b
    assert_eq!(child.pattern[0], Ternary::Positive);
    assert_eq!(child.pattern[3], Ternary::Negative);
}

#[test]
fn metronome_test_metronome_tick() {
    let mut m = Metronome::new(4);
    assert_eq!(m.tick(), Ternary::Positive);
    assert_eq!(m.tick(), Ternary::Neutral);
}

#[test]
fn test_metronome_custom() {
    let mut m = Metronome::new(3);
    m.set_accents(vec![Ternary::Negative, Ternary::Positive, Ternary::Negative]);
    assert_eq!(m.tick(), Ternary::Negative);
}

#[test]
fn metronome_test_metronome_reset() {
    let mut m = Metronome::new(4);
    m.tick();
    m.tick();
    m.reset();
    assert_eq!(m.position, 0);
}

#[test]
fn rhythm_test_rhythm_tick() {
    let mut r = Rhythm::new(vec![Ternary::Positive, Ternary::Neutral, Ternary::Negative]);
    assert_eq!(r.tick(), Ternary::Positive);
    assert_eq!(r.tick(), Ternary::Neutral);
    assert_eq!(r.tick(), Ternary::Negative);
    assert_eq!(r.tick(), Ternary::Positive); // wraps
}

#[test]
fn rhythm_test_rhythm_balance() {
    let r = Rhythm::new(vec![Ternary::Positive, Ternary::Positive, Ternary::Negative, Ternary::Neutral]);
    assert_eq!(r.balance(), (2, 1));
}

#[test]
fn rhythm_test_rhythm_reverse() {
    let mut r = Rhythm::new(vec![Ternary::Positive, Ternary::Neutral, Ternary::Negative]);
    r.reverse();
    assert_eq!(r.pattern, vec![Ternary::Negative, Ternary::Neutral, Ternary::Positive]);
}

#[test]
fn rhythm_test_rhythm_rotate() {
    let mut r = Rhythm::new(vec![Ternary::Positive, Ternary::Neutral, Ternary::Negative]);
    r.rotate(1);
    assert_eq!(r.pattern, vec![Ternary::Negative, Ternary::Positive, Ternary::Neutral]);
}

#[test]
fn rhythm_test_rhythm_reset() {
    let mut r = Rhythm::new(vec![Ternary::Positive, Ternary::Negative]);
    r.tick();
    r.tick();
    r.reset();
    assert_eq!(r.position, 0);
}

#[test]
fn test_syncopate() {
    let p = vec![Ternary::Positive, Ternary::Neutral, Ternary::Positive, Ternary::Neutral];
    let s = Syncopation::syncopate(&p, 1);
    assert_eq!(s, vec![Ternary::Neutral, Ternary::Positive, Ternary::Neutral, Ternary::Positive]);
}
