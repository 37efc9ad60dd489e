use vstd::prelude::*;

use crate::pattern::{count_indices, lemma_count_indices_ext};
use crate::ternary::Ternary;

verus! {

/// Groove and feel detection from a rhythm pattern.
#[derive(Debug)]
pub struct Groove {
    /// The rhythm being analyzed.
    pub pattern: Vec<Ternary>,
}

/// The positions of the events of `s`, in increasing order.
pub open spec fn onset_positions(s: Seq<Ternary>) -> Seq<nat>
    decreases s.len(),
{
    if s.len() == 0 {
        Seq::empty()
    } else {
        let prev = onset_positions(s.drop_last());
        if s.last() != Ternary::Neutral {
            prev.push((s.len() - 1) as nat)
        } else {
            prev
        }
    }
}

/// The gaps between consecutive entries of increasing positions.
pub open spec fn gaps(pos: Seq<nat>) -> Seq<nat> {
    if pos.len() == 0 {
        Seq::empty()
    } else {
        Seq::new((pos.len() - 1) as nat, |k: int| (pos[k + 1] - pos[k]) as nat)
    }
}

/// Event positions lie inside the pattern, in strictly increasing order.
pub proof fn lemma_onset_positions(s: Seq<Ternary>)
    ensures
        forall|k: int| 0 <= k < onset_positions(s).len() ==> #[trigger] onset_positions(s)[k] < s.len(),
        forall|k: int, l: int|
            0 <= k < l < onset_positions(s).len() ==> onset_positions(s)[k] < onset_positions(s)[l],
    decreases s.len(),
{
    if s.len() > 0 {
        let d = s.drop_last();
        lemma_onset_positions(d);
        let prev = onset_positions(d);
        let cur = onset_positions(s);
        assert forall|k: int| 0 <= k < cur.len() implies #[trigger] cur[k] < s.len() by {
            if k < prev.len() {
                assert(cur[k] == prev[k]);
            }
        }
        assert forall|k: int, l: int| 0 <= k < l < cur.len() implies cur[k] < cur[l] by {
            assert(cur[k] == prev[k]);
            if l < prev.len() {
                assert(cur[l] == prev[l]);
            }
        }
    }
}

/// The sum of the entries of `gs` whose index has the given parity (0: even
/// indices, the long intervals of a swung feel; 1: odd indices, the short ones).
pub open spec fn alternate_sum(gs: Seq<nat>, parity: nat) -> nat
    decreases gs.len(),
{
    if gs.len() == 0 {
        0
    } else {
        alternate_sum(gs.drop_last(), parity) + if (gs.len() - 1) % 2 == parity as int {
            gs.last()
        } else {
            0nat
        }
    }
}

/// The gaps of increasing positions add up to the distance from the first to the last.
proof fn lemma_gap_sums(pos: Seq<nat>)
    requires
        pos.len() > 0,
        forall|k: int, l: int| 0 <= k < l < pos.len() ==> pos[k] < pos[l],
    ensures
        alternate_sum(gaps(pos), 0) + alternate_sum(gaps(pos), 1) == pos.last() - pos[0],
    decreases pos.len(),
{
    if pos.len() == 1 {
        assert(gaps(pos).len() == 0);
    } else {
        let d = pos.drop_last();
        lemma_gap_sums(d);
        assert(gaps(pos).drop_last() =~= gaps(d));
        assert(gaps(pos).last() == pos.last() - d.last());
    }
}

/// The event positions are exactly the steps that are not `Neutral`, accents and
/// ghost notes alike: each listed step holds an event, each event is listed, and
/// there are as many positions as events.
pub proof fn lemma_onset_positions_exact(s: Seq<Ternary>)
    ensures
        forall|k: int|
            0 <= k < onset_positions(s).len() ==> s[#[trigger] onset_positions(s)[k] as int]
                != Ternary::Neutral,
        forall|i: int|
            0 <= i < s.len() && s[i] != Ternary::Neutral ==> #[trigger] onset_positions(s).contains(
                i as nat,
            ),
        onset_positions(s).len() == count_indices(s.len(), |i: int| s[i] != Ternary::Neutral),
    decreases s.len(),
{
    if s.len() > 0 {
        let d = s.drop_last();
        lemma_onset_positions_exact(d);
        lemma_onset_positions(d);
        lemma_count_indices_ext(
            d.len(),
            |i: int| d[i] != Ternary::Neutral,
            |i: int| s[i] != Ternary::Neutral,
        );
        let prev = onset_positions(d);
        let cur = onset_positions(s);
        assert forall|k: int| 0 <= k < cur.len() implies s[#[trigger] cur[k] as int]
            != Ternary::Neutral by {
            if k < prev.len() {
                assert(cur[k] == prev[k]);
            }
        }
        assert forall|i: int| 0 <= i < s.len() && s[i] != Ternary::Neutral implies #[trigger] cur.contains(
            i as nat,
        ) by {
            if i < d.len() {
                assert(d[i] == s[i]);
                assert(prev.contains(i as nat));
                let k = choose|k: int| 0 <= k < prev.len() && prev[k] == i as nat;
                if s.last() != Ternary::Neutral {
                    assert(cur[k] == i as nat);
                } else {
                    assert(cur == prev);
                }
            } else {
                assert(cur.last() == i as nat);
            }
        }
    }
}

/// Between `m >= 1` event positions there are `m - 1` intervals, and the long and the
/// short intervals together add up to the distance from the first event to the last.
pub proof fn lemma_interval_total(s: Seq<Ternary>)
    ensures
        onset_positions(s).len() > 0 ==> gaps(onset_positions(s)).len() + 1 == onset_positions(
            s,
        ).len() && alternate_sum(gaps(onset_positions(s)), 0) + alternate_sum(
            gaps(onset_positions(s)),
            1,
        ) == onset_positions(s).last() - onset_positions(s)[0],
        onset_positions(s).len() == 0 ==> gaps(onset_positions(s)).len() == 0,
{
    lemma_onset_positions(s);
    if onset_positions(s).len() > 0 {
        lemma_gap_sums(onset_positions(s));
    }
}

impl Clone for Groove {
    fn clone(&self) -> (r: Self)
        ensures
            r.pattern@ == self.pattern@,
    {
        Groove { pattern: crate::rhythm::copy_pattern(self.pattern.as_slice()) }
    }
}

impl Groove {
    /// Analyze a pattern.
    pub fn new(pattern: Vec<Ternary>) -> (r: Self)
        ensures
            r.pattern@ == pattern@,
    {
        Groove { pattern }
    }

    /// The intervals (in steps) between consecutive events of the pattern: the
    /// inputs of swing ratio and regularity.
    pub fn intervals(&self) -> (r: Vec<usize>)
        ensures
            r@.map_values(|x: usize| x as nat) == gaps(onset_positions(self.pattern@)),
            count_indices(self.pattern@.len(), |i: int| self.pattern@[i] != Ternary::Neutral) > 0
                ==> r@.len() + 1 == count_indices(
                self.pattern@.len(),
                |i: int| self.pattern@[i] != Ternary::Neutral,
            ),
            count_indices(self.pattern@.len(), |i: int| self.pattern@[i] != Ternary::Neutral) == 0
                ==> r@.len() == 0,
    {
        proof {
            lemma_onset_positions_exact(self.pattern@);
            lemma_interval_total(self.pattern@);
        }
        let mut out: Vec<usize> = Vec::new();
        let mut last: Option<usize> = None;
        let mut i: usize = 0;
        while i < self.pattern.len()
            invariant
                i <= self.pattern@.len(),
                out@.map_values(|x: usize| x as nat) == gaps(
                    onset_positions(self.pattern@.subrange(0, i as int)),
                ),
                match last {
                    None => onset_positions(self.pattern@.subrange(0, i as int)).len() == 0,
                    Some(l) => onset_positions(self.pattern@.subrange(0, i as int)).len() > 0
                        && onset_positions(self.pattern@.subrange(0, i as int)).last() == l
                        && l < i,
                },
            decreases self.pattern@.len() - i,
        {
            let ghost prefix = self.pattern@.subrange(0, i as int);
            let ghost next = self.pattern@.subrange(0, i + 1);
            assert(next.drop_last() =~= prefix);
            proof {
                lemma_onset_positions(prefix);
            }
            if self.pattern[i] != Ternary::Neutral {
                let ghost pos = onset_positions(prefix);
                let ghost old_out = out@;
                assert(onset_positions(next) == pos.push(i as nat));
                if let Some(l) = last {
                    out.push(i - l);
                    assert(out@.map_values(|x: usize| x as nat) =~= old_out.map_values(
                        |x: usize| x as nat,
                    ).push((i - l) as nat));
                    assert(gaps(pos.push(i as nat)) =~= gaps(pos).push((i - l) as nat));
                } else {
                    assert(gaps(pos.push(i as nat)) =~= Seq::<nat>::empty());
                }
                last = Some(i);
            } else {
                assert(onset_positions(next) == onset_positions(prefix));
            }
            i = i + 1;
        }
        assert(self.pattern@.subrange(0, i as int) =~= self.pattern@);
        out
    }

    /// The sums of the even-indexed (long) and odd-indexed (short) intervals
    /// between consecutive events: the integer part of the swing ratio.
    pub fn interval_sums(&self) -> (r: (usize, usize))
        ensures
            r.0 == alternate_sum(gaps(onset_positions(self.pattern@)), 0),
            r.1 == alternate_sum(gaps(onset_positions(self.pattern@)), 1),
            onset_positions(self.pattern@).len() > 0 ==> r.0 + r.1 == onset_positions(
                self.pattern@,
            ).last() - onset_positions(self.pattern@)[0],
    {
        proof {
            lemma_interval_total(self.pattern@);
        }
        let v = self.intervals();
        let ghost pos = onset_positions(self.pattern@);
        let ghost gs = gaps(pos);
        proof {
            lemma_onset_positions(self.pattern@);
            assert(v@.len() == v@.map_values(|x: usize| x as nat).len());
        }
        let mut long: usize = 0;
        let mut short: usize = 0;
        let mut j: usize = 0;
        while j < v.len()
            invariant
                j <= v@.len(),
                v@.map_values(|x: usize| x as nat) == gs,
                gs == gaps(pos),
                pos == onset_positions(self.pattern@),
                v@.len() > 0 ==> pos.len() == v@.len() + 1,
                forall|k: int| 0 <= k < pos.len() ==> #[trigger] pos[k] < self.pattern@.len(),
                forall|k: int, l: int| 0 <= k < l < pos.len() ==> pos[k] < pos[l],
                long == alternate_sum(gs.take(j as int), 0),
                short == alternate_sum(gs.take(j as int), 1),
                j > 0 ==> long + short == pos[j as int] - pos[0],
            decreases v@.len() - j,
        {
            let ghost before = gs.take(j as int);
            let ghost after = gs.take(j + 1);
            assert(after.drop_last() =~= before);
            assert(after.last() == gs[j as int]);
            if j == 0 {
                assert(before.len() == 0);
            }
            assert(long + short + v@[j as int] == pos[j + 1] - pos[0]);
            assert(long + short + v@[j as int] < self.pattern.len());
            let x: usize = v[j];
            if j % 2 == 0 {
                long = long + x;
            } else {
                short = short + x;
            }
            j = j + 1;
        }
        assert(gs.take(j as int) =~= gs);
        (long, short)
    }
}

} // verus!
