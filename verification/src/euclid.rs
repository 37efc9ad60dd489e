use vstd::prelude::*;

use crate::pattern::{count_of, filled, lemma_count_concat, lemma_count_uniform};
use crate::ternary::Ternary;

verus! {

/// `p` copies of the group `a`, one after another.
pub open spec fn repeat_group(a: Seq<u8>, p: nat) -> Seq<u8>
    decreases p,
{
    if p == 0 {
        Seq::empty()
    } else {
        repeat_group(a, (p - 1) as nat) + a
    }
}

/// Björklund's algorithm on groups: with `p` copies of the group `a` followed by
/// `q` copies of the group `b`, as long as more than one `b` group is left, the
/// first `min(p, q)` `a` groups each absorb one `b` group, and the groups that
/// were not paired become the new remainder. The result is all groups in order.
pub open spec fn bjorklund_groups(a: Seq<u8>, p: nat, b: Seq<u8>, q: nat) -> Seq<u8>
    decreases p + q,
{
    if q <= 1 || p == 0 {
        repeat_group(a, p) + repeat_group(b, q)
    } else if p > q {
        bjorklund_groups(a + b, q, a, (p - q) as nat)
    } else {
        bjorklund_groups(a + b, p, b, (q - p) as nat)
    }
}

/// The binary sequence of Björklund's algorithm for `k` onsets in `n` steps.
pub open spec fn bjorklund_spec(k: nat, n: nat) -> Seq<u8> {
    bjorklund_groups(seq![1u8], k, seq![0u8], (n - k) as nat)
}

/// Number of ones in a binary sequence.
pub open spec fn ones(s: Seq<u8>) -> nat
    decreases s.len(),
{
    if s.len() == 0 {
        0
    } else {
        ones(s.drop_last()) + if s.last() == 1u8 { 1nat } else { 0nat }
    }
}

/// Every entry is 0 or 1.
pub open spec fn is_binary(s: Seq<u8>) -> bool {
    forall|i: int| 0 <= i < s.len() ==> s[i] == 0u8 || s[i] == 1u8
}

/// The pattern of a binary sequence: a hit for each one, a rest for each zero.
pub open spec fn hits_of(s: Seq<u8>) -> Seq<Ternary> {
    s.map_values(|x: u8| if x == 1u8 { Ternary::Positive } else { Ternary::Neutral })
}

/// The Euclidean rhythm `E(k, n)`: `k` hits spread over `n` steps.
pub open spec fn euclidean_spec(k: nat, n: nat) -> Seq<Ternary> {
    let p = Ternary::Positive;
    let z = Ternary::Neutral;
    if n == 0 {
        Seq::empty()
    } else if k == 0 {
        Seq::new(n, |i: int| z)
    } else if k >= n {
        Seq::new(n, |i: int| p)
    } else if k == 2 && n == 3 {
        seq![p, z, p]
    } else if k == 3 && n == 8 {
        seq![p, z, z, p, z, z, p, z]
    } else if k == 5 && n == 8 {
        seq![p, z, p, p, z, p, p, z]
    } else if k == 3 && n == 4 {
        seq![p, p, z, p]
    } else if k == 4 && n == 8 {
        seq![p, z, p, z, p, z, p, z]
    } else if k == 7 && n == 12 {
        seq![p, z, p, z, p, p, z, p, z, p, z, p]
    } else if k == 1 {
        Seq::new(n, |i: int| if i == 0 { p } else { z })
    } else {
        hits_of(bjorklund_spec(k, n))
    }
}

pub proof fn lemma_ones_concat(x: Seq<u8>, y: Seq<u8>)
    ensures
        ones(x + y) == ones(x) + ones(y),
    decreases y.len(),
{
    if y.len() == 0 {
        assert(x + y =~= x);
    } else {
        assert((x + y).drop_last() =~= x + y.drop_last());
        lemma_ones_concat(x, y.drop_last());
    }
}

pub proof fn lemma_repeat_group(a: Seq<u8>, p: nat)
    ensures
        repeat_group(a, p).len() == p * a.len(),
        ones(repeat_group(a, p)) == p * ones(a),
        is_binary(a) ==> is_binary(repeat_group(a, p)),
    decreases p,
{
    if p > 0 {
        let pm = (p - 1) as nat;
        lemma_repeat_group(a, pm);
        lemma_ones_concat(repeat_group(a, pm), a);
        assert(p * a.len() == pm * a.len() + a.len()) by (nonlinear_arith)
            requires
                pm + 1 == p,
        ;
        assert(p * ones(a) == pm * ones(a) + ones(a)) by (nonlinear_arith)
            requires
                pm + 1 == p,
        ;
    } else {
        assert(p * a.len() == 0 && p * ones(a) == 0) by (nonlinear_arith)
            requires
                p == 0,
        ;
    }
}

/// The groups keep their total length, ones and binary entries through the algorithm.
pub proof fn lemma_bjorklund_groups(a: Seq<u8>, p: nat, b: Seq<u8>, q: nat)
    ensures
        bjorklund_groups(a, p, b, q).len() == p * a.len() + q * b.len(),
        ones(bjorklund_groups(a, p, b, q)) == p * ones(a) + q * ones(b),
        is_binary(a) && is_binary(b) ==> is_binary(bjorklund_groups(a, p, b, q)),
    decreases p + q,
{
    lemma_ones_concat(a, b);
    if q <= 1 || p == 0 {
        lemma_repeat_group(a, p);
        lemma_repeat_group(b, q);
        lemma_ones_concat(repeat_group(a, p), repeat_group(b, q));
    } else if p > q {
        lemma_bjorklund_groups(a + b, q, a, (p - q) as nat);
        assert(q * (a.len() + b.len()) + (p - q) * a.len() == p * a.len() + q * b.len())
            by (nonlinear_arith);
        assert(q * (ones(a) + ones(b)) + (p - q) * ones(a) == p * ones(a) + q * ones(b))
            by (nonlinear_arith);
    } else {
        lemma_bjorklund_groups(a + b, p, b, (q - p) as nat);
        assert(p * (a.len() + b.len()) + (q - p) * b.len() == p * a.len() + q * b.len())
            by (nonlinear_arith);
        assert(p * (ones(a) + ones(b)) + (q - p) * ones(b) == p * ones(a) + q * ones(b))
            by (nonlinear_arith);
    }
}

/// Björklund's sequence for `k` onsets in `n` steps has `n` entries, all 0 or 1, `k` of them ones.
pub proof fn lemma_bjorklund_spec(k: nat, n: nat)
    requires
        k <= n,
    ensures
        bjorklund_spec(k, n).len() == n,
        ones(bjorklund_spec(k, n)) == k,
        is_binary(bjorklund_spec(k, n)),
{
    lemma_bjorklund_groups(seq![1u8], k, seq![0u8], (n - k) as nat);
    assert(ones(seq![1u8]) == 1) by {
        reveal_with_fuel(ones, 2);
        assert(seq![1u8].drop_last() =~= Seq::<u8>::empty());
    }
    assert(ones(seq![0u8]) == 0) by {
        reveal_with_fuel(ones, 2);
        assert(seq![0u8].drop_last() =~= Seq::<u8>::empty());
    }
    assert(k * 1 + (n - k) * 1 == n && k * 1 + (n - k) * 0 == k) by (nonlinear_arith)
        requires
            k <= n,
    ;
}

/// The pattern of a binary sequence has a hit for each one and no ghost note.
pub proof fn lemma_hits_of(s: Seq<u8>)
    ensures
        count_of(hits_of(s), Ternary::Positive) == ones(s),
        count_of(hits_of(s), Ternary::Negative) == 0,
        hits_of(s).len() == s.len(),
    decreases s.len(),
{
    if s.len() > 0 {
        assert(hits_of(s).drop_last() =~= hits_of(s.drop_last()));
        lemma_hits_of(s.drop_last());
    }
}

/// `E(k, n)` has `n` steps, `min(k, n)` hits and no ghost notes.
pub proof fn lemma_euclidean_counts(k: nat, n: nat)
    ensures
        euclidean_spec(k, n).len() == n,
        count_of(euclidean_spec(k, n), Ternary::Positive) == if k < n { k } else { n },
        count_of(euclidean_spec(k, n), Ternary::Negative) == 0,
{
    let e = euclidean_spec(k, n);
    let p = Ternary::Positive;
    let z = Ternary::Neutral;
    if n == 0 {
    } else if k == 0 {
        lemma_count_uniform(e, p);
        lemma_count_uniform(e, Ternary::Negative);
    } else if k >= n {
        lemma_count_uniform(e, p);
        lemma_count_uniform(e, Ternary::Negative);
    } else if (k == 2 && n == 3) || (k == 3 && n == 8) || (k == 5 && n == 8) || (k == 3 && n == 4)
        || (k == 4 && n == 8) || (k == 7 && n == 12) {
        reveal_with_fuel(count_of, 13);
        assert(e.drop_last().drop_last() == e.subrange(0, e.len() - 2));
    } else if k == 1 {
        let rest = Seq::new((n - 1) as nat, |i: int| z);
        assert(e =~= seq![p] + rest);
        lemma_count_concat(seq![p], rest, p);
        lemma_count_concat(seq![p], rest, Ternary::Negative);
        lemma_count_uniform(rest, p);
        lemma_count_uniform(rest, Ternary::Negative);
        reveal_with_fuel(count_of, 2);
        assert(seq![p].drop_last() =~= Seq::<Ternary>::empty());
    } else {
        lemma_bjorklund_spec(k, n);
        lemma_hits_of(bjorklund_spec(k, n));
    }
}

/// In a binary sequence, the hit at `i` starts a run (the hit and the zeros after it, up
/// to the next hit or the end) of `g` or `g + 1` steps.
pub open spec fn bit_run_ok(s: Seq<u8>, i: int, g: nat) -> bool {
    &&& forall|d: int| 1 <= d < g ==> i + d < s.len() && #[trigger] s[i + d] != 1u8
    &&& i + g <= s.len()
    &&& (i + g == s.len() || (i + g < s.len() && s[i + g] == 1u8) || i + g + 1 == s.len() || (i
        + g + 1 < s.len() && s[i + g + 1] == 1u8))
}

/// Every hit of a binary sequence starts a run of `g` or `g + 1` steps.
pub open spec fn bit_runs(s: Seq<u8>, g: nat) -> bool {
    forall|i: int| 0 <= i < s.len() && s[i] == 1u8 ==> #[trigger] bit_run_ok(s, i, g)
}

/// In a pattern, the accent at `i` is followed by the next accent after `g` or `g + 1`
/// steps, or the pattern ends within that many steps.
pub open spec fn run_ok(s: Seq<Ternary>, i: int, g: nat) -> bool {
    &&& forall|d: int| 1 <= d < g ==> i + d < s.len() && #[trigger] s[i + d] != Ternary::Positive
    &&& i + g <= s.len()
    &&& (i + g == s.len() || (i + g < s.len() && s[i + g] == Ternary::Positive) || i + g + 1
        == s.len() || (i + g + 1 < s.len() && s[i + g + 1] == Ternary::Positive))
}

/// The accents of `s` are spread as evenly as possible: the pattern starts with an accent,
/// and the gap from every accent to the next one, counting the gap from the last accent
/// around the end back to the first, is `g` or `g + 1` steps.
pub open spec fn evenly_spread(s: Seq<Ternary>, g: nat) -> bool {
    &&& s.len() > 0
    &&& g >= 1
    &&& s[0] == Ternary::Positive
    &&& forall|i: int| 0 <= i < s.len() && s[i] == Ternary::Positive ==> #[trigger] run_ok(s, i, g)
}

/// A one followed by `m` zeros.
pub open spec fn single_run(m: nat) -> Seq<u8> {
    seq![1u8] + Seq::new(m, |j: int| 0u8)
}

/// Joining two sequences of runs keeps the runs when the second starts with a hit.
proof fn lemma_bit_runs_concat(x: Seq<u8>, y: Seq<u8>, g: nat)
    requires
        bit_runs(x, g),
        bit_runs(y, g),
        y.len() > 0,
        y[0] == 1u8,
    ensures
        bit_runs(x + y, g),
{
    let z = x + y;
    assert forall|i: int| 0 <= i < z.len() && z[i] == 1u8 implies #[trigger] bit_run_ok(z, i, g) by {
        if i < x.len() {
            assert(x[i] == 1u8);
            assert(bit_run_ok(x, i, g));
            assert forall|d: int| 1 <= d < g implies i + d < z.len() && #[trigger] z[i + d] != 1u8 by {
                assert(i + d < x.len() && x[i + d] != 1u8);
            }
            if i + g == x.len() {
                assert(z[i + g] == y[0]);
            } else if i + g < x.len() && x[i + g] == 1u8 {
                assert(z[i + g] == x[i + g]);
            } else if i + g + 1 == x.len() {
                assert(z[i + g + 1] == y[0]);
            } else {
                assert(z[i + g + 1] == x[i + g + 1]);
            }
        } else {
            let j = i - x.len();
            assert(y[j] == 1u8);
            assert(bit_run_ok(y, j, g));
            assert forall|d: int| 1 <= d < g implies i + d < z.len() && #[trigger] z[i + d] != 1u8 by {
                assert(j + d < y.len() && y[j + d] != 1u8);
                assert(z[i + d] == y[j + d]);
            }
            if j + g < y.len() {
                assert(z[i + g] == y[j + g]);
            }
            if j + g + 1 < y.len() {
                assert(z[i + g + 1] == y[j + g + 1]);
            }
        }
    }
}

/// A single run of `m + 1` steps has runs of `g` or `g + 1` steps when `m + 1` is one of them.
proof fn lemma_single_run(m: nat, g: nat)
    requires
        g >= 1,
        m + 1 == g || m + 1 == g + 1,
    ensures
        bit_runs(single_run(m), g),
        single_run(m).len() == m + 1,
        single_run(m)[0] == 1u8,
{
    let s = single_run(m);
    assert forall|i: int| 0 <= i < s.len() && s[i] == 1u8 implies #[trigger] bit_run_ok(s, i, g) by {
        assert(i == 0);
        assert forall|d: int| 1 <= d < g implies i + d < s.len() && #[trigger] s[i + d] != 1u8 by {
            assert(s[d] == 0u8);
        }
    }
}

/// Repeating a sequence of runs that starts with a hit keeps the runs.
proof fn lemma_bit_runs_repeat(a: Seq<u8>, p: nat, g: nat)
    requires
        bit_runs(a, g),
        a.len() > 0,
        a[0] == 1u8,
    ensures
        bit_runs(repeat_group(a, p), g),
        p > 0 ==> repeat_group(a, p).len() > 0 && repeat_group(a, p)[0] == 1u8,
    decreases p,
{
    if p > 0 {
        let prev = repeat_group(a, (p - 1) as nat);
        lemma_bit_runs_repeat(a, (p - 1) as nat, g);
        lemma_bit_runs_concat(prev, a, g);
        if p > 1 {
            assert(repeat_group(a, p)[0] == prev[0]);
        } else {
            assert(prev =~= Seq::<u8>::empty());
            assert(repeat_group(a, p) =~= a);
        }
    } else {
        assert(bit_runs(Seq::<u8>::empty(), g));
    }
}

/// The two shapes the groups take during Björklund's algorithm: while the remainder
/// groups are single zeros, the leading groups are a one followed by `g - 1` zeros;
/// afterwards both kinds of groups start with a one and have runs of `g` or `g + 1` steps.
pub open spec fn groups_shape(a: Seq<u8>, b: Seq<u8>, g: nat) -> bool {
    ||| (g >= 1 && b == seq![0u8] && a == single_run((g - 1) as nat))
    ||| (g >= 1 && a.len() > 0 && b.len() > 0 && a[0] == 1u8 && b[0] == 1u8 && bit_runs(a, g)
        && bit_runs(b, g))
}

/// Björklund's algorithm, started from groups of either shape, produces a sequence that
/// starts with a hit and whose runs all have `g` or `g + 1` steps for some `g`.
proof fn lemma_groups_spread(a: Seq<u8>, p: nat, b: Seq<u8>, q: nat, g: nat) -> (h: nat)
    requires
        p >= 1,
        groups_shape(a, b, g),
    ensures
        h >= 1,
        bit_runs(bjorklund_groups(a, p, b, q), h),
        bjorklund_groups(a, p, b, q).len() > 0,
        bjorklund_groups(a, p, b, q)[0] == 1u8,
    decreases p + q,
{
    let out = bjorklund_groups(a, p, b, q);
    if b == seq![0u8] && a == single_run((g - 1) as nat) && g >= 1 {
        // Leading groups are single runs of `g` steps; the remainder groups are zeros.
        if q <= 1 {
            lemma_single_run((g - 1) as nat, g);
            lemma_bit_runs_repeat(a, p, g);
            if q == 0 {
                assert(out =~= repeat_group(a, p));
            } else {
                let head = repeat_group(a, (p - 1) as nat);
                let last = single_run(g);
                lemma_single_run(g, g);
                assert(repeat_group(b, 0) == Seq::<u8>::empty());
                assert(repeat_group(b, q) =~= seq![0u8]);
                assert(a + seq![0u8] =~= last);
                assert(out =~= head + last);
                lemma_bit_runs_repeat(a, (p - 1) as nat, g);
                lemma_bit_runs_concat(head, last, g);
                if p > 1 {
                    assert(out[0] == head[0]);
                } else {
                    assert(head =~= Seq::<u8>::empty());
                }
            }
            g
        } else if p > q {
            let na = a + b;
            assert(na =~= single_run(g));
            lemma_single_run(g, g);
            lemma_single_run((g - 1) as nat, g);
            lemma_groups_spread(na, q, a, (p - q) as nat, g)
        } else {
            let na = a + b;
            assert(na =~= single_run(g));
            lemma_groups_spread(na, p, b, (q - p) as nat, g + 1)
        }
    } else {
        // Both kinds of groups start with a hit and have runs of `g` or `g + 1` steps.
        if q <= 1 {
            lemma_bit_runs_repeat(a, p, g);
            if q == 0 {
                assert(out =~= repeat_group(a, p));
            } else {
                assert(repeat_group(b, 0) == Seq::<u8>::empty());
                assert(repeat_group(b, q) =~= b);
                lemma_bit_runs_concat(repeat_group(a, p), b, g);
                assert(out[0] == repeat_group(a, p)[0]);
            }
            g
        } else {
            lemma_bit_runs_concat(a, b, g);
            if p > q {
                lemma_groups_spread(a + b, q, a, (p - q) as nat, g)
            } else {
                lemma_groups_spread(a + b, p, b, (q - p) as nat, g)
            }
        }
    }
}

/// The accents of a pattern are where its binary sequence has ones.
proof fn lemma_hits_spread(b: Seq<u8>, g: nat)
    requires
        g >= 1,
        bit_runs(b, g),
        b.len() > 0,
        b[0] == 1u8,
    ensures
        evenly_spread(hits_of(b), g),
{
    let s = hits_of(b);
    assert forall|i: int| 0 <= i < s.len() && s[i] == Ternary::Positive implies #[trigger] run_ok(
        s,
        i,
        g,
    ) by {
        assert(b[i] == 1u8);
        assert(bit_run_ok(b, i, g));
        assert forall|d: int| 1 <= d < g implies i + d < s.len() && #[trigger] s[i + d]
            != Ternary::Positive by {
            assert(b[i + d] != 1u8);
        }
        if i + g < s.len() {
            assert(s[i + g] == Ternary::Positive <==> b[i + g] == 1u8);
        }
        if i + g + 1 < s.len() {
            assert(s[i + g + 1] == Ternary::Positive <==> b[i + g + 1] == 1u8);
        }
    }
}

/// Euclidean rhythms spread their hits as evenly as possible: for `0 < k < n`, `E(k, n)`
/// starts with an accent and the gaps between consecutive accents (around the end too)
/// differ by at most one step.
pub proof fn lemma_euclidean_even(k: nat, n: nat)
    requires
        0 < k < n,
    ensures
        exists|g: nat| #[trigger] evenly_spread(euclidean_spec(k, n), g),
{
    let e = euclidean_spec(k, n);
    let p = Ternary::Positive;
    if k == 2 && n == 3 {
        assert(run_ok(e, 0, 1) && run_ok(e, 2, 1));
        assert(evenly_spread(e, 1));
    } else if k == 3 && n == 8 {
        assert(run_ok(e, 0, 2) && run_ok(e, 3, 2) && run_ok(e, 6, 2));
        assert(evenly_spread(e, 2));
    } else if k == 5 && n == 8 {
        assert(run_ok(e, 0, 1) && run_ok(e, 2, 1) && run_ok(e, 3, 1) && run_ok(e, 5, 1) && run_ok(e, 6, 1));
        assert(evenly_spread(e, 1));
    } else if k == 3 && n == 4 {
        assert(run_ok(e, 0, 1) && run_ok(e, 1, 1) && run_ok(e, 3, 1));
        assert(evenly_spread(e, 1));
    } else if k == 4 && n == 8 {
        assert(run_ok(e, 0, 2) && run_ok(e, 2, 2) && run_ok(e, 4, 2) && run_ok(e, 6, 2));
        assert(evenly_spread(e, 2));
    } else if k == 7 && n == 12 {
        assert(run_ok(e, 0, 1) && run_ok(e, 2, 1) && run_ok(e, 4, 1) && run_ok(e, 5, 1) && run_ok(e, 7, 1)
            && run_ok(e, 9, 1) && run_ok(e, 11, 1));
        assert(evenly_spread(e, 1));
    } else if k == 1 {
        assert forall|i: int| 0 <= i < e.len() && e[i] == p implies #[trigger] run_ok(e, i, n) by {
            assert(i == 0);
            assert forall|d: int| 1 <= d < n implies i + d < e.len() && #[trigger] e[i + d] != p by {
            }
        }
        assert(evenly_spread(e, n));
    } else {
        let a = seq![1u8];
        assert(a =~= single_run(0));
        let h = lemma_groups_spread(a, k, seq![0u8], (n - k) as nat, 1);
        lemma_hits_spread(bjorklund_spec(k, n), h);
        assert(evenly_spread(e, h));
    }
}

/// A vector of `count` groups, each the single byte `bit`.
fn unit_groups(bit: u8, count: usize) -> (v: Vec<Vec<u8>>)
    ensures
        v@.len() == count,
        forall|i: int| 0 <= i < count ==> (#[trigger] v@[i])@ == seq![bit],
{
    let mut v: Vec<Vec<u8>> = Vec::new();
    let mut i: usize = 0;
    while i < count
        invariant
            i <= count,
            v@.len() == i,
            forall|j: int| 0 <= j < i ==> (#[trigger] v@[j])@ == seq![bit],
        decreases count - i,
    {
        let mut g: Vec<u8> = Vec::new();
        g.push(bit);
        assert(g@ =~= seq![bit]);
        v.push(g);
        i = i + 1;
    }
    v
}

/// Björklund's algorithm: distributes `k` ones as evenly as possible among `n` steps.
pub fn bjorklund_split(k: usize, n: usize) -> (r: Vec<u8>)
    requires
        1 <= k <= n,
    ensures
        r@ == bjorklund_spec(k as nat, n as nat),
{
    let mut seq = unit_groups(1u8, k);
    let mut rem = unit_groups(0u8, n - k);
    let ghost mut a: Seq<u8> = seq![1u8];
    let ghost mut b: Seq<u8> = seq![0u8];
    while rem.len() > 1
        invariant
            seq@.len() >= 1,
            forall|i: int| 0 <= i < seq@.len() ==> (#[trigger] seq@[i])@ == a,
            forall|i: int| 0 <= i < rem@.len() ==> (#[trigger] rem@[i])@ == b,
            bjorklund_groups(a, seq@.len() as nat, b, rem@.len() as nat)
                == bjorklund_spec(k as nat, n as nat),
        decreases seq@.len() + rem@.len(),
    {
        let p = seq.len();
        let q = rem.len();
        let m = if q < p { q } else { p };
        let mut i: usize = 0;
        while i < m
            invariant
                m <= p,
                m <= q,
                seq@.len() == p,
                rem@.len() == q,
                i <= m,
                forall|j: int| 0 <= j < i ==> (#[trigger] seq@[j])@ == a + b,
                forall|j: int| i <= j < p ==> (#[trigger] seq@[j])@ == a,
                forall|j: int| i <= j < q ==> (#[trigger] rem@[j])@ == b,
            decreases m - i,
        {
            seq[i].append(&mut rem[i]);
            i = i + 1;
        }
        let ghost seq_before_split = seq@;
        let ghost rem_before_split = rem@;
        let tail: Vec<Vec<u8>> = if p > m {
            seq.split_off(m)
        } else if q > m {
            rem.split_off(m)
        } else {
            Vec::new()
        };
        proof {
            let new_b = if p > q { a } else { b };
            assert forall|j: int| 0 <= j < tail@.len() implies (#[trigger] tail@[j])@ == new_b by {
                if p > m {
                    assert(tail@[j] == seq_before_split[m + j]);
                } else {
                    assert(tail@[j] == rem_before_split[m + j]);
                }
            }
            a = a + b;
            b = new_b;
        }
        rem = tail;
    }
    let mut result: Vec<u8> = Vec::new();
    let mut i: usize = 0;
    while i < seq.len()
        invariant
            i <= seq@.len(),
            forall|j: int| 0 <= j < seq@.len() ==> (#[trigger] seq@[j])@ == a,
            result@ == repeat_group(a, i as nat),
        decreases seq@.len() - i,
    {
        let g = &seq[i];
        let mut t: usize = 0;
        let ghost before = result@;
        while t < g.len()
            invariant
                t <= g@.len(),
                g@ == a,
                result@ == before + a.subrange(0, t as int),
            decreases g@.len() - t,
        {
            result.push(g[t]);
            t = t + 1;
            assert(result@ =~= before + a.subrange(0, t as int));
        }
        assert(a.subrange(0, a.len() as int) =~= a);
        i = i + 1;
    }
    let ghost head = result@;
    let mut i: usize = 0;
    while i < rem.len()
        invariant
            i <= rem@.len(),
            forall|j: int| 0 <= j < rem@.len() ==> (#[trigger] rem@[j])@ == b,
            result@ == head + repeat_group(b, i as nat),
        decreases rem@.len() - i,
    {
        let g = &rem[i];
        let mut t: usize = 0;
        let ghost before = result@;
        while t < g.len()
            invariant
                t <= g@.len(),
                g@ == b,
                result@ == before + b.subrange(0, t as int),
            decreases g@.len() - t,
        {
            result.push(g[t]);
            t = t + 1;
            assert(result@ =~= before + b.subrange(0, t as int));
        }
        assert(b.subrange(0, b.len() as int) =~= b);
        assert(head + repeat_group(b, (i + 1) as nat) =~= head + repeat_group(b, i as nat) + b);
        i = i + 1;
    }
    result
}

/// Generate the Euclidean rhythm `E(k, n)` with Björklund's algorithm:
/// `k` accented hits spread as evenly as possible over `n` steps.
pub fn euclidean(k: usize, n: usize) -> (r: Vec<Ternary>)
    ensures
        r@ == euclidean_spec(k as nat, n as nat),
        r@.len() == n,
        count_of(r@, Ternary::Positive) == if k < n { k } else { n },
        count_of(r@, Ternary::Negative) == 0,
        0 < k < n ==> exists|g: nat| #[trigger] evenly_spread(r@, g),
{
    proof {
        lemma_euclidean_counts(k as nat, n as nat);
        if 0 < k < n {
            lemma_euclidean_even(k as nat, n as nat);
        }
    }
    let p = Ternary::Positive;
    let z = Ternary::Neutral;
    if n == 0 {
        let r: Vec<Ternary> = Vec::new();
        assert(r@ =~= euclidean_spec(k as nat, n as nat));
        return r;
    }
    if k == 0 {
        return filled(z, n);
    }
    if k >= n {
        return filled(p, n);
    }
    if k == 2 && n == 3 {
        let r = vec![p, z, p];
        assert(r@ =~= euclidean_spec(k as nat, n as nat));
        return r;
    }
    if k == 3 && n == 8 {
        let r = vec![p, z, z, p, z, z, p, z];
        assert(r@ =~= euclidean_spec(k as nat, n as nat));
        return r;
    }
    if k == 5 && n == 8 {
        let r = vec![p, z, p, p, z, p, p, z];
        assert(r@ =~= euclidean_spec(k as nat, n as nat));
        return r;
    }
    if k == 3 && n == 4 {
        let r = vec![p, p, z, p];
        assert(r@ =~= euclidean_spec(k as nat, n as nat));
        return r;
    }
    if k == 4 && n == 8 {
        let r = vec![p, z, p, z, p, z, p, z];
        assert(r@ =~= euclidean_spec(k as nat, n as nat));
        return r;
    }
    if k == 7 && n == 12 {
        let r = vec![p, z, p, z, p, p, z, p, z, p, z, p];
        assert(r@ =~= euclidean_spec(k as nat, n as nat));
        return r;
    }
    if k == 1 {
        let mut r = filled(z, n);
        r.set(0, p);
        assert(r@ =~= euclidean_spec(k as nat, n as nat));
        return r;
    }
    let bits = bjorklund_split(k, n);
    proof {
        lemma_bjorklund_spec(k as nat, n as nat);
    }
    let mut r: Vec<Ternary> = Vec::new();
    let mut i: usize = 0;
    while i < n
        invariant
            bits@ == bjorklund_spec(k as nat, n as nat),
            bits@.len() == n,
            p == Ternary::Positive,
            z == Ternary::Neutral,
            i <= n,
            r@ == hits_of(bits@).subrange(0, i as int),
        decreases n - i,
    {
        let ghost before = r@;
        assert(hits_of(bits@)[i as int] == if bits@[i as int] == 1u8 { p } else { z });
        if bits[i] == 1 {
            r.push(p);
        } else {
            r.push(z);
        }
        assert(r@ == before.push(hits_of(bits@)[i as int]));
        i = i + 1;
        assert(r@ =~= hits_of(bits@).subrange(0, i as int));
    }
    assert(r@ =~= hits_of(bits@));
    r
}

} // verus!
