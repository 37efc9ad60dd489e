use vstd::prelude::*;

use crate::pattern::{count_indices, lemma_count_indices_ext, lemma_rotate_mod, rotate_right, rotated_copy};
use crate::ternary::Ternary;

verus! {

/// Off-beat emphasis detection and creation.
#[derive(Clone, Copy, Debug)]
pub struct Syncopation;

/// How many events of `s` sit at positions that are not listed as strong.
pub open spec fn weak_onset_count(s: Seq<Ternary>, strong: Seq<usize>) -> nat
    decreases s.len(),
{
    if s.len() == 0 {
        0
    } else {
        weak_onset_count(s.drop_last(), strong) + if s.last() != Ternary::Neutral
            && !strong.contains((s.len() - 1) as usize) {
            1nat
        } else {
            0nat
        }
    }
}

/// The weak onsets are the positions that are not listed as strong and hold an
/// event, an accent or a ghost note.
pub proof fn lemma_weak_onset_positions(s: Seq<Ternary>, strong: Seq<usize>)
    ensures
        weak_onset_count(s, strong) == count_indices(
            s.len(),
            |i: int| s[i] != Ternary::Neutral && !strong.contains(i as usize),
        ),
    decreases s.len(),
{
    if s.len() > 0 {
        let d = s.drop_last();
        lemma_weak_onset_positions(d, strong);
        lemma_count_indices_ext(
            d.len(),
            |i: int| d[i] != Ternary::Neutral && !strong.contains(i as usize),
            |i: int| s[i] != Ternary::Neutral && !strong.contains(i as usize),
        );
    }
}

fn contains_position(positions: &[usize], i: usize) -> (r: bool)
    ensures
        r == positions@.contains(i),
{
    let mut k: usize = 0;
    while k < positions.len()
        invariant
            k <= positions@.len(),
            forall|j: int| 0 <= j < k ==> positions@[j] != i,
        decreases positions@.len() - k,
    {
        if positions[k] == i {
            return true;
        }
        k = k + 1;
    }
    false
}

impl Syncopation {
    /// The count behind the syncopation measure: events at positions that are not
    /// among `strong_positions`. The measure is this count over the pattern length.
    pub fn weak_onsets(pattern: &[Ternary], strong_positions: &[usize]) -> (r: usize)
        ensures
            r == weak_onset_count(pattern@, strong_positions@),
            r == count_indices(
                pattern@.len(),
                |i: int| pattern@[i] != Ternary::Neutral && !strong_positions@.contains(i as usize),
            ),
            r <= pattern@.len(),
    {
        proof {
            lemma_weak_onset_positions(pattern@, strong_positions@);
        }
        let mut syncopated: usize = 0;
        let mut i: usize = 0;
        while i < pattern.len()
            invariant
                i <= pattern@.len(),
                syncopated == weak_onset_count(pattern@.subrange(0, i as int), strong_positions@),
                syncopated <= i,
            decreases pattern@.len() - i,
        {
            assert(pattern@.subrange(0, i + 1).drop_last() =~= pattern@.subrange(0, i as int));
            let is_strong = contains_position(strong_positions, i);
            if !is_strong && pattern[i] != Ternary::Neutral {
                syncopated = syncopated + 1;
            }
            i = i + 1;
        }
        assert(pattern@.subrange(0, i as int) =~= pattern@);
        syncopated
    }

    /// Create a syncopated version by shifting every onset `shift` steps later
    /// (cyclically).
    pub fn syncopate(pattern: &[Ternary], shift: usize) -> (r: Vec<Ternary>)
        requires
            forall|i: int|
                0 <= i < pattern@.len() && pattern@[i] != Ternary::Neutral ==> i + shift
                    <= usize::MAX,
        ensures
            r@ == rotate_right(pattern@, shift as int),
    {
        let n = pattern.len();
        if n == 0 {
            let r: Vec<Ternary> = Vec::new();
            assert(r@ =~= rotate_right(pattern@, shift as int));
            return r;
        }
        proof {
            lemma_rotate_mod(pattern@, shift as int);
        }
        rotated_copy(pattern, shift % n)
    }
}

} // verus!
