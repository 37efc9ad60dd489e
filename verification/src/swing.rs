use vstd::prelude::*;

use crate::analysis::{beat_len_spec, guess_beat_len, lemma_beat_len};
use crate::pattern::filled;
use crate::ternary::Ternary;

verus! {

/// Where the event at step `i` lands on the doubled grid of `2 * n` half-steps: events on
/// an odd subdivision of the beat are delayed by `shift` half-steps (at most to the last
/// half-step), all others land on `2 * i`.
pub open spec fn swing_target(i: nat, beat_len: nat, shift: nat, n: nat) -> nat {
    if (i % beat_len) % 2 == 1 {
        if 2 * i + shift <= 2 * n - 1 {
            2 * i + shift
        } else {
            (2 * n - 1) as nat
        }
    } else {
        2 * i
    }
}

/// The doubled grid after placing the events of the first `k` steps, in order, each
/// later event overwriting what an earlier one left at the same half-step.
pub open spec fn swing_grid(s: Seq<Ternary>, beat_len: nat, shift: nat, k: nat) -> Seq<Ternary>
    decreases k,
{
    if k == 0 {
        Seq::new(2 * s.len(), |q: int| Ternary::Neutral)
    } else {
        let prev = swing_grid(s, beat_len, shift, (k - 1) as nat);
        let i = (k - 1) as nat;
        if s[i as int] != Ternary::Neutral {
            prev.update(swing_target(i, beat_len, shift, s.len()) as int, s[i as int])
        } else {
            prev
        }
    }
}

/// Two half-steps merged into one step: an accent wins, then a ghost note.
pub open spec fn merge_half_steps(a: Ternary, b: Ternary) -> Ternary {
    if a == Ternary::Positive || b == Ternary::Positive {
        Ternary::Positive
    } else if a == Ternary::Negative || b == Ternary::Negative {
        Ternary::Negative
    } else {
        Ternary::Neutral
    }
}

/// The swung pattern: events placed on the doubled grid, then each pair of half-steps
/// merged back into one step.
pub open spec fn swing_spec(s: Seq<Ternary>, shift: nat) -> Seq<Ternary> {
    let grid = swing_grid(s, beat_len_spec(s.len()), shift, s.len());
    Seq::new(s.len(), |i: int| merge_half_steps(grid[2 * i], grid[2 * i + 1]))
}

pub proof fn lemma_swing_grid_len(s: Seq<Ternary>, beat_len: nat, shift: nat, k: nat)
    requires
        k <= s.len(),
    ensures
        swing_grid(s, beat_len, shift, k).len() == 2 * s.len(),
    decreases k,
{
    if k > 0 {
        lemma_swing_grid_len(s, beat_len, shift, (k - 1) as nat);
        assert(swing_target((k - 1) as nat, beat_len, shift, s.len()) < 2 * s.len());
    }
}

proof fn lemma_grid_straight(s: Seq<Ternary>, beat_len: nat, shift: nat, k: nat)
    requires
        k <= s.len(),
        beat_len > 0,
        forall|i: int|
            0 <= i < s.len() && s[i] != Ternary::Neutral ==> (i % (beat_len as int)) % 2 == 0,
    ensures
        forall|q: int|
            0 <= q < 2 * s.len() ==> #[trigger] swing_grid(s, beat_len, shift, k)[q] == if q % 2
                == 0 && q / 2 < k {
                s[q / 2]
            } else {
                Ternary::Neutral
            },
    decreases k,
{
    lemma_swing_grid_len(s, beat_len, shift, k);
    if k > 0 {
        let i = (k - 1) as nat;
        lemma_grid_straight(s, beat_len, shift, i);
        lemma_swing_grid_len(s, beat_len, shift, i);
        let prev = swing_grid(s, beat_len, shift, i);
        let cur = swing_grid(s, beat_len, shift, k);
        if s[i as int] != Ternary::Neutral {
            assert((i % beat_len) % 2 == 0);
            assert(swing_target(i, beat_len, shift, s.len()) == 2 * i);
            assert(cur == prev.update((2 * i) as int, s[i as int]));
        } else {
            assert(cur == prev);
        }
        assert forall|q: int| 0 <= q < 2 * s.len() implies #[trigger] cur[q] == if q % 2 == 0 && q
            / 2 < k {
            s[q / 2]
        } else {
            Ternary::Neutral
        } by {
            if q == 2 * i {
                assert(q % 2 == 0 && q / 2 == i);
            } else {
                assert(cur[q] == prev[q]);
            }
        }
    }
}

/// Swing leaves a pattern unchanged when all its events sit on even subdivisions of the
/// beat: only off-beat events are delayed.
pub proof fn lemma_swing_keeps_straight(s: Seq<Ternary>, shift: nat)
    requires
        forall|i: int|
            0 <= i < s.len() && s[i] != Ternary::Neutral ==> (i % (beat_len_spec(s.len()) as int))
                % 2 == 0,
    ensures
        swing_spec(s, shift) == s,
{
    let bl = beat_len_spec(s.len());
    lemma_grid_straight(s, bl, shift, s.len());
    let grid = swing_grid(s, bl, shift, s.len());
    assert forall|i: int| 0 <= i < s.len() implies #[trigger] swing_spec(s, shift)[i] == s[i] by {
        assert(grid[2 * i] == s[i]);
        assert(grid[2 * i + 1] == Ternary::Neutral);
    }
    assert(swing_spec(s, shift) =~= s);
}

/// Once the event at step `i` is placed on its own half-step `2 * i`, no later event
/// lands there.
proof fn lemma_grid_keeps_onbeat(s: Seq<Ternary>, beat_len: nat, shift: nat, k: nat, i: nat)
    requires
        i < k <= s.len(),
        s[i as int] != Ternary::Neutral,
        swing_target(i, beat_len, shift, s.len()) == 2 * i,
    ensures
        swing_grid(s, beat_len, shift, k)[2 * i as int] == s[i as int],
    decreases k,
{
    let j = (k - 1) as nat;
    lemma_swing_grid_len(s, beat_len, shift, j);
    if j > i {
        lemma_grid_keeps_onbeat(s, beat_len, shift, j, i);
        assert(swing_target(j, beat_len, shift, s.len()) > 2 * i);
    }
}

/// Swing moves only events on odd subdivisions of the beat: an accent on an even
/// subdivision stays an accent, and a ghost note there still sounds.
pub proof fn lemma_swing_keeps_onbeat(s: Seq<Ternary>, shift: nat)
    requires
        shift >= 1,
    ensures
        forall|i: int|
            0 <= i < s.len() && (i % (beat_len_spec(s.len()) as int)) % 2 == 0 ==> (s[i]
                == Ternary::Positive ==> #[trigger] swing_spec(s, shift)[i] == Ternary::Positive)
                && (s[i] == Ternary::Negative ==> swing_spec(s, shift)[i] != Ternary::Neutral),
{
    let bl = beat_len_spec(s.len());
    lemma_beat_len(s.len());
    lemma_swing_grid_len(s, bl, shift, s.len());
    assert forall|i: int|
        0 <= i < s.len() && (i % (bl as int)) % 2 == 0 implies (s[i] == Ternary::Positive
        ==> #[trigger] swing_spec(s, shift)[i] == Ternary::Positive) && (s[i] == Ternary::Negative
        ==> swing_spec(s, shift)[i] != Ternary::Neutral) by {
        if s[i] != Ternary::Neutral {
            lemma_grid_keeps_onbeat(s, bl, shift, s.len(), i as nat);
        }
    }
}

/// Apply swing timing with a delay of `shift` half-steps for events on odd subdivisions
/// of the beat. The delay is the part of swing that depends on the amount of swing.
pub fn swing_with_shift(pattern: &[Ternary], shift: usize) -> (r: Vec<Ternary>)
    requires
        1 <= shift <= beat_len_spec(pattern@.len()),
        2 * pattern@.len() + shift <= usize::MAX,
    ensures
        r@ == swing_spec(pattern@, shift as nat),
        r@.len() == pattern@.len(),
        forall|i: int|
            0 <= i < pattern@.len() && (i % (beat_len_spec(pattern@.len()) as int)) % 2 == 0
                ==> (pattern@[i] == Ternary::Positive ==> #[trigger] r@[i] == Ternary::Positive)
                && (pattern@[i] == Ternary::Negative ==> r@[i] != Ternary::Neutral),
{
    proof {
        lemma_swing_keeps_onbeat(pattern@, shift as nat);
    }
    let n = pattern.len();
    if n == 0 {
        let r: Vec<Ternary> = Vec::new();
        assert(r@ =~= swing_spec(pattern@, shift as nat));
        return r;
    }
    let beat_len = guess_beat_len(n);
    let expanded = n * 2;
    let mut grid = filled(Ternary::Neutral, expanded);
    let mut i: usize = 0;
    while i < n
        invariant
            n == pattern@.len(),
            n > 0,
            expanded == 2 * n,
            beat_len == beat_len_spec(n as nat),
            beat_len >= 1,
            2 * n + shift <= usize::MAX,
            i <= n,
            grid@ == swing_grid(pattern@, beat_len as nat, shift as nat, i as nat),
        decreases n - i,
    {
        proof {
            lemma_swing_grid_len(pattern@, beat_len as nat, shift as nat, i as nat);
        }
        let val = pattern[i];
        if val != Ternary::Neutral {
            let sub = i % beat_len;
            let pos = if sub % 2 == 1 {
                let p = i * 2 + shift;
                if p <= expanded - 1 {
                    p
                } else {
                    expanded - 1
                }
            } else {
                i * 2
            };
            grid.set(pos, val);
        }
        i = i + 1;
    }
    proof {
        lemma_swing_grid_len(pattern@, beat_len as nat, shift as nat, n as nat);
    }
    let mut r: Vec<Ternary> = Vec::new();
    let mut i: usize = 0;
    while i < n
        invariant
            n == pattern@.len(),
            2 * n + shift <= usize::MAX,
            grid@ == swing_grid(pattern@, beat_len_spec(n as nat), shift as nat, n as nat),
            grid@.len() == 2 * n,
            i <= n,
            r@ == swing_spec(pattern@, shift as nat).subrange(0, i as int),
        decreases n - i,
    {
        let e1 = grid[i * 2];
        let e2 = grid[i * 2 + 1];
        let v = if e1 == Ternary::Positive || e2 == Ternary::Positive {
            Ternary::Positive
        } else if e1 == Ternary::Negative || e2 == Ternary::Negative {
            Ternary::Negative
        } else {
            Ternary::Neutral
        };
        r.push(v);
        i = i + 1;
        assert(r@ =~= swing_spec(pattern@, shift as nat).subrange(0, i as int));
    }
    assert(r@ =~= swing_spec(pattern@, shift as nat));
    r
}

} // verus!
