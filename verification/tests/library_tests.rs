use ternary_rhythm::presets;
use ternary_rhythm::{
    classify_labels, count_non_neutral, count_value, euclidean, from_string, gcd,
    generate_meter, guess_beat_len, lcm_value, rotate, swing_with_shift, syncopation_counts,
    to_string, visualize, Feel, Genre, Groove, Meter, Metronome, Polyrhythm, Rhythm,
    RhythmEvolver, Syncopation, Ternary, TernaryExt,
};

fn p(s: &str) -> Vec<Ternary> {
    from_string(s)
}

#[test]
fn euclidean_named_rhythms() {
    assert_eq!(to_string(&euclidean(2, 3)), "X.X");
    assert_eq!(to_string(&euclidean(3, 4)), "XX.X");
    assert_eq!(to_string(&euclidean(3, 8)), "X..X..X.");
    assert_eq!(to_string(&euclidean(4, 8)), "X.X.X.X.");
    assert_eq!(to_string(&euclidean(5, 8)), "X.XX.XX.");
    assert_eq!(to_string(&euclidean(7, 12)), "X.X.XX.X.X.X");
}

#[test]
fn euclidean_general_and_edge_cases() {
    assert_eq!(to_string(&euclidean(5, 13)), "X..X.X..X.X..");
    assert_eq!(to_string(&euclidean(3, 7)), "X.X.X..");
    assert_eq!(to_string(&euclidean(4, 9)), "X.X.X.X..");
    assert_eq!(to_string(&euclidean(5, 16)), "X..X..X..X..X...");
    assert_eq!(to_string(&euclidean(1, 5)), "X....");
    assert_eq!(to_string(&euclidean(0, 4)), "....");
    assert_eq!(to_string(&euclidean(4, 4)), "XXXX");
    assert_eq!(to_string(&euclidean(6, 4)), "XXXX");
    assert!(euclidean(3, 0).is_empty());
}

#[test]
fn syncopate_with_a_huge_shift() {
    let x = p("X.");
    assert_eq!(Syncopation::syncopate(&x, usize::MAX), p(".X"));
    assert_eq!(Syncopation::syncopate(&p("X.."), usize::MAX - 1), p("..X"));
}

#[test]
fn euclidean_places_k_hits_in_n_steps() {
    for n in 0..20usize {
        for k in 0..24usize {
            let e = euclidean(k, n);
            assert_eq!(e.len(), n);
            assert_eq!(count_value(&e, Ternary::Positive), k.min(n));
            assert_eq!(count_value(&e, Ternary::Negative), 0);
        }
    }
}

#[test]
fn euclidean_gaps_differ_by_at_most_one() {
    for n in 2..60usize {
        for k in 1..n {
            let e = euclidean(k, n);
            assert_eq!(e[0], Ternary::Positive);
            let hits: Vec<usize> = (0..n).filter(|&i| e[i] == Ternary::Positive).collect();
            let gaps: Vec<usize> = (0..hits.len())
                .map(|j| if j + 1 < hits.len() { hits[j + 1] - hits[j] } else { hits[0] + n - hits[j] })
                .collect();
            let lo = *gaps.iter().min().unwrap();
            let hi = *gaps.iter().max().unwrap();
            assert!(hi - lo <= 1, "E({},{}) = {}", k, n, to_string(&e));
        }
    }
}

#[test]
fn ternary_std_conversions() {
    assert_eq!(i8::from(Ternary::Negative), -1);
    assert_eq!(i8::from(Ternary::Neutral), 0);
    assert_eq!(i8::from(Ternary::Positive), 1);
    assert_eq!(Ternary::try_from(-1i8), Ok(Ternary::Negative));
    assert_eq!(Ternary::try_from(1i8), Ok(Ternary::Positive));
    assert_eq!(Ternary::try_from(3i8), Err("invalid ternary value"));
}

#[test]
fn clones_keep_fields() {
    let poly = Polyrhythm::new(vec![Rhythm::new(p("X.o")), Rhythm::new(p("X."))]);
    let copy = poly.clone();
    assert_eq!(copy.rhythms.len(), 2);
    assert_eq!(copy.rhythms[0].pattern, p("X.o"));
    let g = Groove::new(p("X.X")).clone();
    assert_eq!(g.pattern, p("X.X"));
    let e = RhythmEvolver::new(vec![Rhythm::new(p("Xo"))], 5, 9).clone();
    assert_eq!((e.mutation_rate, e.seed, e.population[0].pattern.clone()), (5, 9, p("Xo")));
    let m = Metronome::new(3).clone();
    assert_eq!(m.accents, p("X.."));
}

#[test]
fn meters() {
    let rock = generate_meter(4, 4);
    assert_eq!(rock.len(), 16);
    assert_eq!(to_string(&rock), "X...o...X...o...");
    assert_eq!(to_string(&generate_meter(3, 4)), "X...o...o...");
    assert_eq!(to_string(&generate_meter(6, 3)), "X........X........");
    assert_eq!(to_string(&generate_meter(6, 2)), "X.o.o.o.o.o.");
    assert_eq!(to_string(&generate_meter(2, 1)), "Xo");
    assert!(generate_meter(2, 0).is_empty());
    assert!(generate_meter(0, 4).is_empty());
}

#[test]
fn syncopation_counts_offbeat_versus_onbeat() {
    let offbeat = vec![
        Ternary::Neutral, Ternary::Positive, Ternary::Neutral, Ternary::Positive,
        Ternary::Neutral, Ternary::Positive, Ternary::Neutral, Ternary::Positive,
    ];
    let onbeat = vec![
        Ternary::Positive, Ternary::Neutral, Ternary::Positive, Ternary::Neutral,
        Ternary::Positive, Ternary::Neutral, Ternary::Positive, Ternary::Neutral,
    ];
    assert_eq!(syncopation_counts(&offbeat), (4, 4));
    assert_eq!(syncopation_counts(&onbeat), (0, 4));
    assert_eq!(syncopation_counts(&[]), (0, 0));
    assert_eq!(syncopation_counts(&p("X..X..X.")), (1, 3));
}

#[test]
fn density_counts() {
    assert_eq!(count_non_neutral(&p("X.o.")), 2);
    assert_eq!(count_non_neutral(&[]), 0);
    assert_eq!(count_value(&p("XXo."), Ternary::Positive), 2);
}

#[test]
fn beat_length_guesses() {
    assert_eq!(guess_beat_len(0), 4);
    assert_eq!(guess_beat_len(3), 1);
    assert_eq!(guess_beat_len(6), 3);
    assert_eq!(guess_beat_len(8), 2);
    assert_eq!(guess_beat_len(16), 4);
    assert_eq!(guess_beat_len(36), 4);
    assert_eq!(guess_beat_len(9), 3);
    assert_eq!(guess_beat_len(22), 2);
    assert_eq!(guess_beat_len(7), 1);
}

#[test]
fn classification_labels() {
    let c = classify_labels(&presets::tresillo());
    assert_eq!(c.meter.name(), "4/4");
    assert_eq!(c.feel, Feel::Straight);
    assert_eq!(c.genre.name(), "rock");
    assert!(!c.has_ghosts);
    let cases: Vec<(&str, &str, &str, &str)> = vec![
        ("XoXoXoXo", "4/4", "ghosted swing", "drum & bass / jungle"),
        ("o.o.o.o.", "4/4", "straight", "march / pop"),
        ("X.X.X.X.X.X.", "6/8", "off-beat heavy", "afro-cuban"),
        ("X..X..X..X..", "6/8", "straight", "shuffle / blues"),
        (".X.X.X.X", "4/4", "off-beat heavy", "free jazz / experimental"),
        ("X...o...X...o...", "4/4", "straight", "minimal techno"),
        ("XoX.oXX.", "4/4", "dense groove", "breakbeat"),
        ("X.o.o.", "3/4", "ghosted swing", "waltz"),
        ("XXXXXXXXXXXXXXXXXXXX", "5/4", "syncopated groove", "progressive rock / jazz"),
        ("X.......", "4/4", "straight", "minimal techno"),
        ("X...........", "6/8", "straight", "shuffle / blues"),
    ];
    for (s, meter, feel, genre) in cases {
        let c = classify_labels(&p(s));
        assert_eq!(c.meter.name(), meter, "{}", s);
        assert_eq!(c.feel.name(), feel, "{}", s);
        assert_eq!(c.genre.name(), genre, "{}", s);
    }
    assert_eq!(classify_labels(&p("X.XX.")).meter, Meter::FiveEight);
    assert_eq!(classify_labels(&p("X..............X.")).meter, Meter::Unknown);
    assert_eq!(classify_labels(&p("X..X..X.")).genre, Genre::Rock);
}

#[test]
fn readme_swing_keeps_length() {
    let rock = generate_meter(4, 4);
    // An amount of 0.6 on a 4-step beat delays off-beat events by one half-step.
    let swung = swing_with_shift(&rock, 1);
    assert_eq!(swung.len(), 16);
    assert_eq!(swung, rock);
}

#[test]
fn swing_moves_off_subdivision_events() {
    assert_eq!(to_string(&swing_with_shift(&p("X.X.X.X."), 1)), "X.X.X.X.");
    assert_eq!(to_string(&swing_with_shift(&p("XoX.oXX."), 1)), "XoX.oXX.");
    assert_eq!(to_string(&swing_with_shift(&p("o.X.X.oX.XX."), 3)), "o.X..Xo.XX.X");
    assert_eq!(to_string(&swing_with_shift(&p("XXXXoooo....XoXo"), 4)), "X.XXoXoo.o..X.Xo");
    assert_eq!(to_string(&swing_with_shift(&p("XoXoXo"), 3)), "X.Xo.X");
    assert!(swing_with_shift(&[], 1).is_empty());
}

#[test]
fn rotation_in_both_directions() {
    let x = p("Xo..X");
    assert_eq!(to_string(&rotate(&x, 1)), "XXo..");
    assert_eq!(to_string(&rotate(&x, -1)), "o..XX");
    assert_eq!(to_string(&rotate(&x, 7)), to_string(&rotate(&x, 2)));
    assert_eq!(to_string(&rotate(&x, -12)), to_string(&rotate(&x, 3)));
    assert_eq!(rotate(&rotate(&x, 3), -3), x);
    assert_eq!(rotate(&x, 0), x);
    assert_eq!(rotate(&x, isize::MIN).len(), 5);
    assert!(rotate(&[], 3).is_empty());
    assert_eq!(Syncopation::syncopate(&x, 3), rotate(&x, 3));
}

#[test]
fn compact_notation() {
    assert_eq!(from_string("X..x-O1?"), vec![
        Ternary::Positive, Ternary::Neutral, Ternary::Neutral, Ternary::Positive,
        Ternary::Negative, Ternary::Negative, Ternary::Positive, Ternary::Neutral,
    ]);
    let funk = presets::funk();
    assert_eq!(from_string(&to_string(&funk)), funk);
    assert_eq!(to_string(&from_string("xO1-")), "XoXo");
    assert_eq!(from_string("é X"), vec![Ternary::Neutral, Ternary::Neutral, Ternary::Positive]);
}

#[test]
fn visualization() {
    let v = visualize(&[Ternary::Positive, Ternary::Negative, Ternary::Neutral], Some("T"));
    assert_eq!(
        v,
        "T\n    0  \n    ---\n    \u{2588}\u{2591}\u{b7}\n\n    \u{2588} = accent (+1)   \u{2591} = ghost (-1)   \u{b7} = silence (0)\n"
    );
    let w = visualize(&vec![Ternary::Neutral; 13], None);
    assert!(w.starts_with("    0   4   8   12\n    -------------\n"));
}

#[test]
fn presets_patterns() {
    assert_eq!(to_string(&presets::rock()), "X...o...X...o...");
    assert_eq!(to_string(&presets::waltz()), "X..o..");
    assert_eq!(to_string(&presets::shuffle()), "X.o.X.o.o.X.");
    assert_eq!(to_string(&presets::bossa_nova()), "X.oX.oX.");
    assert_eq!(to_string(&presets::tresillo()), "X..X..X.");
    assert_eq!(to_string(&presets::funk()), "Xo.oX.ooXoX.o.Xo");
    assert_eq!(to_string(&presets::techno()), "X.......o.......");
    assert_eq!(to_string(&presets::five_four()), "X....o....");
    assert_eq!(to_string(&presets::balkan_seven()), "X.o.o..");
    assert_eq!(to_string(&presets::afro_cuban_six_eight()), "X..o.o..X..o");
}

#[test]
fn ternary_conversions_and_random() {
    assert_eq!(Ternary::from_i8(-1), Some(Ternary::Negative));
    assert_eq!(Ternary::from_i8(0), Some(Ternary::Neutral));
    assert_eq!(Ternary::from_i8(1), Some(Ternary::Positive));
    assert_eq!(Ternary::from_i8(2), None);
    assert_eq!(Ternary::from_i8(-128), None);
    for t in [Ternary::Negative, Ternary::Neutral, Ternary::Positive] {
        assert_eq!(Ternary::from_i8(t.to_i8()), Some(t));
    }
    let mut seed: u64 = 42;
    let t = Ternary::random(&mut seed);
    assert_eq!(seed, 9039304369631583587);
    assert_eq!(t, Ternary::Positive);
}

#[test]
fn rhythm_empty_and_current() {
    let mut r = Rhythm::new(vec![]);
    assert_eq!(r.tick(), Ternary::Neutral);
    assert!(r.is_empty());
    assert_eq!(count_non_neutral(&r.pattern), 0);
    let mut q = Rhythm::new(p("Xo."));
    assert_eq!(q.current(), Ternary::Positive);
    q.tick();
    assert_eq!(q.current(), Ternary::Negative);
    q.rotate(4);
    assert_eq!(to_string(&q.pattern), ".Xo");
    q.reverse();
    q.reverse();
    assert_eq!(to_string(&q.pattern), ".Xo");
    assert_eq!(q.clone().pattern, q.pattern);
}

#[test]
fn metronome_edges() {
    let mut m = Metronome::new(0);
    assert_eq!(m.tick(), Ternary::Neutral);
    assert!(m.accents.is_empty());
    let mut m = Metronome::new(3);
    m.set_accents(vec![Ternary::Negative, Ternary::Positive, Ternary::Negative, Ternary::Positive]);
    assert_eq!(m.accents, p("oXo"));
    m.set_accents(vec![Ternary::Positive]);
    assert_eq!(m.accents, p("X.."));
    m.position = 7;
    assert_eq!(m.tick(), Ternary::Neutral);
    assert_eq!(m.position, 2);
}

#[test]
fn polyrhythm_cycles_and_reset() {
    let mut poly = Polyrhythm::new(vec![
        Rhythm::new(p("X..")),
        Rhythm::new(p("X...")),
        Rhythm::new(p("X.....")),
    ]);
    assert_eq!(poly.cycle_length(), 12);
    for _ in 0..12 {
        poly.tick();
    }
    assert!(poly.rhythms.iter().all(|r| r.position == 0));
    poly.tick();
    poly.reset();
    assert!(poly.rhythms.iter().all(|r| r.position == 0));
    let with_empty = Polyrhythm::new(vec![Rhythm::new(p("X..")), Rhythm::new(vec![])]);
    assert_eq!(with_empty.cycle_length(), 0);
    assert_eq!(Polyrhythm::new(vec![]).cycle_length(), 0);
    assert_eq!(gcd(0, 0), 0);
    assert_eq!(gcd(0, 5), 5);
    assert_eq!(lcm_value(6, 4), 12);
    assert_eq!(lcm_value(7, 1), 7);
}

#[test]
fn groove_intervals_and_weak_onsets() {
    let g = Groove::new(p("X.X..X"));
    assert_eq!(g.intervals(), vec![2, 3]);
    assert!(Groove::new(p("...")).intervals().is_empty());
    assert!(Groove::new(p("..X")).intervals().is_empty());
    let strong = vec![0, 2];
    assert_eq!(Syncopation::weak_onsets(&p("X.X."), &strong), 0);
    assert_eq!(Syncopation::weak_onsets(&p(".X.X"), &strong), 2);
    assert_eq!(Syncopation::weak_onsets(&[], &strong), 0);
}

#[test]
fn evolver_mutation_and_breeding() {
    let mut e = RhythmEvolver::new(vec![Rhythm::new(p("X.o.X.o."))], 500, 42);
    e.mutate(0);
    assert_eq!(to_string(&e.population[0].pattern), "X.oXXooo");
    assert_eq!(e.seed, 10639783763315248983);
    e.mutate(5);
    assert_eq!(e.seed, 10639783763315248983);
    let mut e = RhythmEvolver::new(vec![Rhythm::new(p("XXXX"))], 1000, 7);
    e.mutate(0);
    assert_eq!(to_string(&e.population[0].pattern), "XX.X");
    assert_eq!(e.seed, 10510407655056974015);
    let pop = vec![
        Rhythm::new(p("X.o.")),
        Rhythm::new(p("oX.o")),
        Rhythm::new(p(".X.X")),
        Rhythm::new(p("XoXo")),
    ];
    let mut e = RhythmEvolver::new(pop, 100, 42);
    e.breed(&[2, 0, 1, 3]);
    let got: Vec<String> = e.population.iter().map(|r| to_string(&r.pattern)).collect();
    assert_eq!(got, vec![".XXX", "X.oX", ".X.o", "X..X"]);
    assert_eq!(e.seed, 2149503122427745700);
    let pop = vec![
        Rhythm::new(p("X.o.")),
        Rhythm::new(p("oX.o")),
        Rhythm::new(p(".X.X")),
        Rhythm::new(p("XoXo")),
    ];
    let mut e = RhythmEvolver::new(pop, 0, 7);
    e.breed(&[3, 1, 0, 2]);
    let got: Vec<String> = e.population.iter().map(|r| to_string(&r.pattern)).collect();
    assert_eq!(got, vec!["XoXo", "oX.o", "oXXo", "Xo.o"]);
    assert_eq!(e.seed, 11730214832509159037);
    assert_eq!(e.population.len(), 4);
}

#[test]
fn groove_interval_sums_split_long_and_short() {
    // intervals 3, 1, 3, 2: long (even-indexed) 3 + 3, short (odd-indexed) 1 + 2
    let g = Groove::new(p("X..XX..X.X"));
    assert_eq!(g.intervals(), vec![3, 1, 3, 2]);
    assert_eq!(g.interval_sums(), (6, 3));
    assert_eq!(Groove::new(p("X.X")).interval_sums(), (2, 0));
    assert_eq!(Groove::new(p("..X.")).interval_sums(), (0, 0));
    assert_eq!(Groove::new(vec![]).interval_sums(), (0, 0));
}
