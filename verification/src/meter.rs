use vstd::prelude::*;

use vstd::arithmetic::div_mod::{
    lemma_div_pos_is_pos, lemma_fundamental_div_mod, lemma_mod_bound, lemma_mod_multiples_basic,
};

use crate::ternary::Ternary;

verus! {

/// The value on the first step of beat number `beat` in a meter of `beats` beats,
/// each `note_value` steps long: the downbeat is accented; in 4/4 the third beat
/// is accented too; in a compound six-beat meter (`note_value >= 3`) beats one and
/// four are accented and the others silent; otherwise the other beats are ghost notes.
pub open spec fn beat_accent(beats: nat, note_value: nat, beat: nat) -> Ternary {
    if beats == 6 && note_value >= 3 {
        if beat == 0 || beat == 3 {
            Ternary::Positive
        } else {
            Ternary::Neutral
        }
    } else if beat == 0 || (beat == 2 && beats == 4) {
        Ternary::Positive
    } else {
        Ternary::Negative
    }
}

/// The steps of one beat: its accent followed by `note_value - 1` silences.
pub open spec fn beat_cell(beats: nat, note_value: nat, beat: nat) -> Seq<Ternary> {
    seq![beat_accent(beats, note_value, beat)]
        + Seq::new((note_value - 1) as nat, |i: int| Ternary::Neutral)
}

/// The first `count` beats of the meter, one after another.
pub open spec fn meter_prefix(beats: nat, note_value: nat, count: nat) -> Seq<Ternary>
    decreases count,
{
    if count == 0 || note_value == 0 {
        Seq::empty()
    } else {
        meter_prefix(beats, note_value, (count - 1) as nat) + beat_cell(
            beats,
            note_value,
            (count - 1) as nat,
        )
    }
}

/// The meter pattern of `beats` beats of `note_value` steps each.
pub open spec fn meter_spec(beats: nat, note_value: nat) -> Seq<Ternary> {
    meter_prefix(beats, note_value, beats)
}

/// A meter prefix of `count` beats is `count * note_value` steps long.
pub proof fn lemma_meter_prefix_len(beats: nat, note_value: nat, count: nat)
    ensures
        meter_prefix(beats, note_value, count).len() == count * note_value,
    decreases count,
{
    if count == 0 || note_value == 0 {
        assert(count * note_value == 0) by (nonlinear_arith)
            requires
                count == 0 || note_value == 0,
        ;
    } else {
        let c = (count - 1) as nat;
        lemma_meter_prefix_len(beats, note_value, c);
        assert(count * note_value == c * note_value + note_value) by (nonlinear_arith)
            requires
                c + 1 == count,
        ;
    }
}

/// In a meter, step `beat * note_value + j` holds the beat's accent when `j == 0`
/// and a silence otherwise.
pub proof fn lemma_meter_step(beats: nat, note_value: nat, count: nat, beat: nat, j: nat)
    requires
        beat < count,
        j < note_value,
    ensures
        meter_prefix(beats, note_value, count)[(beat * note_value + j) as int] == if j == 0 {
            beat_accent(beats, note_value, beat)
        } else {
            Ternary::Neutral
        },
    decreases count,
{
    let c = (count - 1) as nat;
    lemma_meter_prefix_len(beats, note_value, c);
    if beat < c {
        lemma_meter_step(beats, note_value, c, beat, j);
        assert(beat * note_value + j < c * note_value) by (nonlinear_arith)
            requires
                beat < c,
                j < note_value,
        ;
    } else {
        assert(beat * note_value == c * note_value);
    }
}

/// Step `i` of a meter is the accent of beat `i / note_value` when it starts that
/// beat, and a silence otherwise.
proof fn lemma_meter_steps(beats: nat, note_value: nat)
    requires
        note_value > 0,
    ensures
        forall|i: int|
            0 <= i < beats * note_value ==> #[trigger] meter_spec(beats, note_value)[i] == if i
                % (note_value as int) == 0 {
                beat_accent(beats, note_value, (i / (note_value as int)) as nat)
            } else {
                Ternary::Neutral
            },
{
    assert forall|i: int| 0 <= i < beats * note_value implies #[trigger] meter_spec(
        beats,
        note_value,
    )[i] == if i % (note_value as int) == 0 {
        beat_accent(beats, note_value, (i / (note_value as int)) as nat)
    } else {
        Ternary::Neutral
    } by {
        let n = note_value as int;
        let b = i / n;
        let j = i % n;
        lemma_fundamental_div_mod(i, n);
        assert(0 <= j < n) by {
            lemma_mod_bound(i, n);
        }
        lemma_div_pos_is_pos(i, n);
        assert(b < beats) by (nonlinear_arith)
            requires
                i == n * b + j,
                0 <= j < n,
                i < beats * n,
        ;
        lemma_meter_step(beats, note_value, beats, b as nat, j as nat);
    }
}

/// The accents of a meter. Only the first step of each beat can sound. In a six-beat
/// meter of beats at least three steps long, beats one and four are accented and the
/// others silent. In any other meter the downbeat is accented, so is beat three of a
/// four-beat meter, and every other beat starts with a ghost note.
pub proof fn lemma_meter_accents(beats: nat, note_value: nat)
    ensures
        meter_spec(beats, note_value).len() == beats * note_value,
        forall|i: int|
            0 <= i < beats * note_value && i % (note_value as int) != 0 ==> #[trigger] meter_spec(
                beats,
                note_value,
            )[i] == Ternary::Neutral,
        beats == 6 && note_value >= 3 ==> forall|i: int|
            0 <= i < beats * note_value ==> #[trigger] meter_spec(beats, note_value)[i] == if i == 0
                || i == 3 * note_value {
                Ternary::Positive
            } else {
                Ternary::Neutral
            },
        !(beats == 6 && note_value >= 3) ==> forall|i: int|
            0 <= i < beats * note_value && i % (note_value as int) == 0 ==> #[trigger] meter_spec(
                beats,
                note_value,
            )[i] == if i == 0 || (beats == 4 && i == 2 * note_value) {
                Ternary::Positive
            } else {
                Ternary::Negative
            },
{
    lemma_meter_prefix_len(beats, note_value, beats);
    if note_value > 0 {
        lemma_meter_steps(beats, note_value);
        let n = note_value as int;
        let m = meter_spec(beats, note_value);
        if beats == 6 && note_value >= 3 {
            assert forall|i: int| 0 <= i < beats * note_value implies #[trigger] m[i] == if i == 0
                || i == 3 * n {
                Ternary::Positive
            } else {
                Ternary::Neutral
            } by {
                lemma_fundamental_div_mod(i, n);
                if i == 3 * n {
                    lemma_mod_multiples_basic(3, n);
                    let q = i / n;
                    assert(q == 3) by (nonlinear_arith)
                        requires
                            i == n * q,
                            i == 3 * n,
                            n > 0,
                    ;
                }
                if i % n == 0 {
                    let q = i / n;
                    assert((q == 0 ==> i == 0) && (q == 3 ==> i == 3 * n)) by (nonlinear_arith)
                        requires
                            i == n * q,
                    ;
                }
            }
        } else {
            assert forall|i: int| 0 <= i < beats * note_value && i % n == 0 implies #[trigger] m[i]
                == if i == 0 || (beats == 4 && i == 2 * n) {
                Ternary::Positive
            } else {
                Ternary::Negative
            } by {
                lemma_fundamental_div_mod(i, n);
                let q = i / n;
                assert((q == 0 <==> i == 0) && (q == 2 <==> i == 2 * n)) by (nonlinear_arith)
                    requires
                        i == n * q,
                        n > 0,
                ;
            }
        }
    } else {
        assert(beats * note_value == 0);
    }
}

/// Generate a meter pattern: `beats` beats of `note_value` steps each.
pub fn generate_meter(beats: usize, note_value: usize) -> (r: Vec<Ternary>)
    requires
        beats * note_value <= usize::MAX,
        !(beats == 3 && note_value == 0),
    ensures
        r@ == meter_spec(beats as nat, note_value as nat),
        r@.len() == beats * note_value,
        forall|i: int|
            0 <= i < r@.len() && i % (note_value as int) != 0 ==> #[trigger] r@[i]
                == Ternary::Neutral,
        beats == 6 && note_value >= 3 ==> forall|i: int|
            0 <= i < r@.len() ==> #[trigger] r@[i] == if i == 0 || i == 3 * note_value {
                Ternary::Positive
            } else {
                Ternary::Neutral
            },
        !(beats == 6 && note_value >= 3) ==> forall|i: int|
            0 <= i < r@.len() && i % (note_value as int) == 0 ==> #[trigger] r@[i] == if i == 0
                || (beats == 4 && i == 2 * note_value) {
                Ternary::Positive
            } else {
                Ternary::Negative
            },
{
    proof {
        lemma_meter_accents(beats as nat, note_value as nat);
    }
    let mut r: Vec<Ternary> = Vec::new();
    if note_value == 0 {
        assert(r@ =~= meter_spec(beats as nat, note_value as nat));
        proof {
            lemma_meter_prefix_len(beats as nat, note_value as nat, beats as nat);
        }
        return r;
    }
    let mut beat: usize = 0;
    while beat < beats
        invariant
            note_value > 0,
            beats * note_value <= usize::MAX,
            beat <= beats,
            r@ == meter_prefix(beats as nat, note_value as nat, beat as nat),
        decreases beats - beat,
    {
        let accent = if beats == 6 && note_value >= 3 {
            if beat == 0 || beat == 3 {
                Ternary::Positive
            } else {
                Ternary::Neutral
            }
        } else if beat == 0 || (beat == 2 && beats == 4) {
            Ternary::Positive
        } else {
            Ternary::Negative
        };
        let ghost before = r@;
        r.push(accent);
        let mut j: usize = 1;
        while j < note_value
            invariant
                1 <= j <= note_value,
                r@ == before + seq![accent] + Seq::new((j - 1) as nat, |i: int| Ternary::Neutral),
            decreases note_value - j,
        {
            r.push(Ternary::Neutral);
            j = j + 1;
            assert(r@ =~= before + seq![accent] + Seq::new((j - 1) as nat, |i: int| Ternary::Neutral));
        }
        assert(r@ =~= meter_prefix(beats as nat, note_value as nat, (beat + 1) as nat));
        beat = beat + 1;
    }
    proof {
        lemma_meter_prefix_len(beats as nat, note_value as nat, beats as nat);
    }
    r
}

} // verus!
