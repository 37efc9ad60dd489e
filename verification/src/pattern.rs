use vstd::prelude::*;
use vstd::arithmetic::div_mod::{
    lemma_fundamental_div_mod, lemma_fundamental_div_mod_converse_mod, lemma_small_mod,
    lemma_mod_add_multiples_vanish, lemma_sub_mod_noop, lemma_sub_mod_noop_right,
};

use crate::ternary::Ternary;

verus! {

/// A rhythm pattern: a sequence of ternary values over discrete ticks.
pub type RhythmPattern = Vec<Ternary>;

/// How many entries of `s` equal `t`.
pub open spec fn count_of(s: Seq<Ternary>, t: Ternary) -> nat
    decreases s.len(),
{
    if s.len() == 0 {
        0
    } else {
        count_of(s.drop_last(), t) + if s.last() == t { 1nat } else { 0nat }
    }
}

/// How many entries of `s` are events (not `Neutral`).
pub open spec fn onset_count(s: Seq<Ternary>) -> nat
    decreases s.len(),
{
    if s.len() == 0 {
        0
    } else {
        onset_count(s.drop_last()) + if s.last() != Ternary::Neutral { 1nat } else { 0nat }
    }
}

/// How many of the indices `0..n` satisfy `p`.
pub open spec fn count_indices(n: nat, p: spec_fn(int) -> bool) -> nat
    decreases n,
{
    if n == 0 {
        0
    } else {
        count_indices((n - 1) as nat, p) + if p(n - 1) { 1nat } else { 0nat }
    }
}

/// Counting indices depends only on the predicate below the bound.
pub proof fn lemma_count_indices_ext(n: nat, p: spec_fn(int) -> bool, q: spec_fn(int) -> bool)
    requires
        forall|i: int| 0 <= i < n ==> #[trigger] p(i) == q(i),
    ensures
        count_indices(n, p) == count_indices(n, q),
    decreases n,
{
    if n > 0 {
        lemma_count_indices_ext((n - 1) as nat, p, q);
    }
}

/// The entries of a pattern equal to `t` are its positions that hold `t`.
pub proof fn lemma_count_of_positions(s: Seq<Ternary>, t: Ternary)
    ensures
        count_of(s, t) == count_indices(s.len(), |i: int| s[i] == t),
    decreases s.len(),
{
    if s.len() > 0 {
        let d = s.drop_last();
        lemma_count_of_positions(d, t);
        lemma_count_indices_ext(d.len(), |i: int| d[i] == t, |i: int| s[i] == t);
    }
}

/// No more than `n` of the indices `0..n` satisfy a predicate.
pub proof fn lemma_count_le(n: nat, p: spec_fn(int) -> bool)
    ensures
        count_indices(n, p) <= n,
    decreases n,
{
    if n > 0 {
        lemma_count_le((n - 1) as nat, p);
    }
}

/// The events of a pattern are its positions that do not hold `Neutral`, ghost
/// notes and accents alike.
pub proof fn lemma_onset_count_positions(s: Seq<Ternary>)
    ensures
        onset_count(s) == count_indices(s.len(), |i: int| s[i] != Ternary::Neutral),
    decreases s.len(),
{
    if s.len() > 0 {
        let d = s.drop_last();
        lemma_onset_count_positions(d);
        lemma_count_indices_ext(
            d.len(),
            |i: int| d[i] != Ternary::Neutral,
            |i: int| s[i] != Ternary::Neutral,
        );
    }
}

/// `s` shifted right by `k` steps, cyclically: the entry at `j` moves to `j + k` (mod length).
/// A negative `k` shifts to the left.
pub open spec fn rotate_right(s: Seq<Ternary>, k: int) -> Seq<Ternary> {
    Seq::new(s.len(), |j: int| s[(j - k) % (s.len() as int)])
}

/// Shifting by `k` is shifting by `k` reduced modulo the length.
pub proof fn lemma_rotate_mod(s: Seq<Ternary>, k: int)
    requires
        s.len() > 0,
    ensures
        rotate_right(s, k) == rotate_right(s, k % (s.len() as int)),
{
    let n = s.len() as int;
    assert forall|j: int| 0 <= j < n implies #[trigger] rotate_right(s, k)[j] == rotate_right(
        s,
        k % n,
    )[j] by {
        lemma_sub_mod_noop_right(j, k, n);
    }
    assert(rotate_right(s, k) =~= rotate_right(s, k % n));
}

/// Shifting by 0 leaves a pattern as it is.
pub proof fn lemma_rotate_zero(s: Seq<Ternary>)
    ensures
        rotate_right(s, 0) == s,
{
    assert forall|j: int| 0 <= j < s.len() implies #[trigger] rotate_right(s, 0)[j] == s[j] by {
        lemma_small_mod(j as nat, s.len());
    }
    assert(rotate_right(s, 0) =~= s);
}

/// Shifting by `a` and then by `b` is shifting by `a + b`; in particular shifting by `k`
/// and then by `-k` gives the pattern back.
pub proof fn lemma_rotate_compose(s: Seq<Ternary>, a: int, b: int)
    ensures
        rotate_right(rotate_right(s, a), b) == rotate_right(s, a + b),
        rotate_right(rotate_right(s, a), -a) == s,
{
    let n = s.len() as int;
    assert forall|j: int| 0 <= j < n implies #[trigger] rotate_right(rotate_right(s, a), b)[j]
        == rotate_right(s, a + b)[j] by {
        let x = j - b;
        lemma_sub_mod_noop_right(x % n, a, n);
        lemma_sub_mod_noop(x, a, n);
        lemma_fundamental_div_mod(x, n);
    }
    assert(rotate_right(rotate_right(s, a), b) =~= rotate_right(s, a + b));
    assert forall|j: int| 0 <= j < n implies #[trigger] rotate_right(rotate_right(s, a), -a)[j]
        == rotate_right(s, 0)[j] by {
        let x = j + a;
        lemma_sub_mod_noop_right(x % n, a, n);
        lemma_sub_mod_noop(x, a, n);
        lemma_fundamental_div_mod(x, n);
    }
    assert(rotate_right(rotate_right(s, a), -a) =~= rotate_right(s, 0));
    lemma_rotate_zero(s);
}

/// A shift moves the last `k mod n` entries to the front.
pub proof fn lemma_rotate_split(s: Seq<Ternary>, k: int)
    requires
        s.len() > 0,
    ensures
        rotate_right(s, k) == s.subrange(s.len() - k % (s.len() as int), s.len() as int)
            + s.subrange(0, s.len() - k % (s.len() as int)),
{
    let n = s.len() as int;
    let r = k % n;
    assert forall|j: int| 0 <= j < n implies #[trigger] rotate_right(s, k)[j] == (s.subrange(
        n - r,
        n,
    ) + s.subrange(0, n - r))[j] by {
        lemma_shift_source(j, n, k, r);
    }
    lemma_shift_source(0, n, k, r);
    assert(rotate_right(s, k) =~= s.subrange(n - r, n) + s.subrange(0, n - r));
}

/// Rotating a pattern keeps the number of entries of each value.
pub proof fn lemma_rotate_counts(s: Seq<Ternary>, k: int, t: Ternary)
    ensures
        count_of(rotate_right(s, k), t) == count_of(s, t),
        onset_count(rotate_right(s, k)) == onset_count(s),
{
    if s.len() == 0 {
        assert(rotate_right(s, k) =~= s);
    } else {
        let n = s.len() as int;
        let r = k % n;
        lemma_rotate_split(s, k);
        lemma_shift_source(0, n, k, r);
        lemma_count_concat(s.subrange(n - r, n), s.subrange(0, n - r), t);
        lemma_count_concat(s.subrange(0, n - r), s.subrange(n - r, n), t);
        assert(s.subrange(0, n - r) + s.subrange(n - r, n) =~= s);
    }
}

/// Reversing a pattern twice gives it back, and reversing keeps the number of entries
/// of each value.
pub proof fn lemma_reverse(s: Seq<Ternary>, t: Ternary)
    ensures
        s.reverse().reverse() == s,
        count_of(s.reverse(), t) == count_of(s, t),
        onset_count(s.reverse()) == onset_count(s),
    decreases s.len(),
{
    assert(s.reverse().reverse() =~= s);
    if s.len() > 0 {
        let d = s.drop_last();
        lemma_reverse(d, t);
        assert(s.reverse() =~= seq![s.last()] + d.reverse());
        lemma_count_concat(seq![s.last()], d.reverse(), t);
        assert(seq![s.last()].drop_last() =~= Seq::<Ternary>::empty());
        reveal_with_fuel(count_of, 2);
        reveal_with_fuel(onset_count, 2);
    }
}

/// The events are the positive and the negative entries; with the silences they make up the whole.
pub proof fn lemma_counts_partition(s: Seq<Ternary>)
    ensures
        onset_count(s) == count_of(s, Ternary::Positive) + count_of(s, Ternary::Negative),
        onset_count(s) + count_of(s, Ternary::Neutral) == s.len(),
    decreases s.len(),
{
    if s.len() > 0 {
        lemma_counts_partition(s.drop_last());
    }
}

/// Counting over a concatenation adds the counts of the parts.
pub proof fn lemma_count_concat(x: Seq<Ternary>, y: Seq<Ternary>, t: Ternary)
    ensures
        count_of(x + y, t) == count_of(x, t) + count_of(y, t),
        onset_count(x + y) == onset_count(x) + onset_count(y),
    decreases y.len(),
{
    if y.len() == 0 {
        assert(x + y =~= x);
    } else {
        assert((x + y).drop_last() =~= x + y.drop_last());
        lemma_count_concat(x, y.drop_last(), t);
    }
}

/// A sequence whose entries all equal `t` counts them all; one with no entry `t` counts none.
pub proof fn lemma_count_uniform(s: Seq<Ternary>, t: Ternary)
    ensures
        (forall|i: int| 0 <= i < s.len() ==> s[i] == t) ==> count_of(s, t) == s.len(),
        (forall|i: int| 0 <= i < s.len() ==> s[i] != t) ==> count_of(s, t) == 0,
    decreases s.len(),
{
    if s.len() > 0 {
        lemma_count_uniform(s.drop_last(), t);
    }
}

/// A pattern filled with `value`.
pub fn filled(value: Ternary, n: usize) -> (out: Vec<Ternary>)
    ensures
        out@ == Seq::new(n as nat, |i: int| value),
{
    let mut out: Vec<Ternary> = Vec::new();
    let mut i: usize = 0;
    while i < n
        invariant
            i <= n,
            out@ == Seq::new(i as nat, |j: int| value),
        decreases n - i,
    {
        out.push(value);
        i = i + 1;
        assert(out@ =~= Seq::new(i as nat, |j: int| value));
    }
    out
}

/// Index arithmetic of a cyclic shift: the source of position `j` when shifting by `k`,
/// where `r` is `k` reduced modulo `n`.
pub proof fn lemma_shift_source(j: int, n: int, k: int, r: int)
    requires
        0 <= j < n,
        r == k % n,
    ensures
        0 <= r < n,
        (j - k) % n == if j >= r { j - r } else { j + n - r },
{
    lemma_fundamental_div_mod(k, n);
    lemma_sub_mod_noop_right(j, k, n);
    if j >= r {
        lemma_small_mod((j - r) as nat, n as nat);
    } else {
        lemma_mod_add_multiples_vanish(j - r, n);
        lemma_small_mod((n + (j - r)) as nat, n as nat);
    }
}

/// The remainder of a negative number `-(a + 1)` modulo `n`.
pub proof fn lemma_negative_mod(a: int, n: int)
    requires
        a >= 0,
        n > 0,
    ensures
        (-(a + 1)) % n == n - 1 - a % n,
{
    lemma_fundamental_div_mod(a, n);
    let q = a / n;
    let r = a % n;
    assert(-(a + 1) == n * (-(q + 1)) + (n - 1 - r)) by (nonlinear_arith)
        requires
            a == n * q + r,
    ;
    lemma_fundamental_div_mod_converse_mod(-(a + 1), n, -(q + 1), n - 1 - r);
}

/// Number of events (entries that are not `Neutral`) in a pattern.
pub fn count_non_neutral(pattern: &[Ternary]) -> (r: usize)
    ensures
        r == onset_count(pattern@),
        r == count_indices(pattern@.len(), |i: int| pattern@[i] != Ternary::Neutral),
        r <= pattern@.len(),
{
    proof {
        lemma_onset_count_positions(pattern@);
    }
    let mut c: usize = 0;
    let mut i: usize = 0;
    while i < pattern.len()
        invariant
            i <= pattern@.len(),
            c == onset_count(pattern@.subrange(0, i as int)),
            c <= i,
        decreases pattern@.len() - i,
    {
        assert(pattern@.subrange(0, i + 1).drop_last() =~= pattern@.subrange(0, i as int));
        if pattern[i] != Ternary::Neutral {
            c = c + 1;
        }
        i = i + 1;
    }
    assert(pattern@.subrange(0, i as int) =~= pattern@);
    c
}

/// Number of entries of a pattern equal to `t`.
pub fn count_value(pattern: &[Ternary], t: Ternary) -> (r: usize)
    ensures
        r == count_of(pattern@, t),
        r == count_indices(pattern@.len(), |i: int| pattern@[i] == t),
        r <= pattern@.len(),
{
    proof {
        lemma_count_of_positions(pattern@, t);
    }
    let mut c: usize = 0;
    let mut i: usize = 0;
    while i < pattern.len()
        invariant
            i <= pattern@.len(),
            c == count_of(pattern@.subrange(0, i as int), t),
            c <= i,
        decreases pattern@.len() - i,
    {
        assert(pattern@.subrange(0, i + 1).drop_last() =~= pattern@.subrange(0, i as int));
        if pattern[i] == t {
            c = c + 1;
        }
        i = i + 1;
    }
    assert(pattern@.subrange(0, i as int) =~= pattern@);
    c
}

/// The pattern shifted `r` steps to the right, for `r` below the length.
pub(crate) fn rotated_copy(pattern: &[Ternary], r: usize) -> (out: Vec<Ternary>)
    requires
        r < pattern@.len(),
    ensures
        out@ == rotate_right(pattern@, r as int),
{
    let n = pattern.len();
    let mut out: Vec<Ternary> = Vec::new();
    let mut j: usize = 0;
    while j < n
        invariant
            n == pattern@.len(),
            r < n,
            j <= n,
            out@.len() == j,
            forall|i: int| 0 <= i < j ==> out@[i] == pattern@[(i - r) % (n as int)],
        decreases n - j,
    {
        proof {
            lemma_small_mod(r as nat, n as nat);
            lemma_shift_source(j as int, n as int, r as int, r as int);
        }
        let src = if j >= r { j - r } else { j + (n - r) };
        out.push(pattern[src]);
        j = j + 1;
    }
    assert(out@ =~= rotate_right(pattern@, r as int));
    out
}

/// Rotate a pattern by `shift` steps (positive to the right, negative to the left).
pub fn rotate(pattern: &[Ternary], shift: isize) -> (out: Vec<Ternary>)
    ensures
        out@ == rotate_right(pattern@, shift as int),
{
    let n = pattern.len();
    if n == 0 {
        let out: Vec<Ternary> = Vec::new();
        assert(out@ =~= rotate_right(pattern@, shift as int));
        return out;
    }
    let s: usize = if shift >= 0 {
        let u: usize = shift as usize;
        u % n
    } else {
        let a: usize = (-(shift + 1)) as usize;
        proof {
            lemma_negative_mod(a as int, n as int);
            lemma_fundamental_div_mod(a as int, n as int);
        }
        n - 1 - a % n
    };
    assert(s as int == (shift as int) % (n as int));
    let out = rotated_copy(pattern, s);
    assert forall|j: int| 0 <= j < n implies #[trigger] rotate_right(pattern@, shift as int)[j]
        == rotate_right(pattern@, s as int)[j] by {
        lemma_shift_source(j, n as int, shift as int, s as int);
        lemma_small_mod(s as nat, n as nat);
        lemma_shift_source(j, n as int, s as int, s as int);
    }
    assert(out@ =~= rotate_right(pattern@, shift as int));
    out
}

} // verus!
