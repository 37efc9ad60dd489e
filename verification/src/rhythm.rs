use vstd::prelude::*;

use crate::pattern::{
    count_indices, count_of, count_value, lemma_rotate_mod, rotate_right, rotated_copy,
};
use crate::ternary::Ternary;
use vstd::arithmetic::div_mod::{lemma_add_mod_noop_right, lemma_small_mod};

verus! {

/// The playback position on a cycle of `len` steps after `k` ticks from `pos`: each tick
/// moves one step forward and wraps at the end (an empty cycle does not move).
pub open spec fn position_after(len: nat, pos: nat, k: nat) -> nat
    decreases k,
{
    if k == 0 || len == 0 {
        pos
    } else {
        (position_after(len, pos, (k - 1) as nat) + 1) % len
    }
}

/// Ticking `k` times from a position inside the cycle lands on `(pos + k) mod len`;
/// in particular `len` ticks bring the playback back where it was.
pub proof fn lemma_ticks_wrap(len: nat, pos: nat, k: nat)
    requires
        pos < len,
    ensures
        position_after(len, pos, k) == (pos + k) % len,
        position_after(len, pos, len) == pos,
{
    lemma_ticks_step(len, pos, k);
    lemma_ticks_step(len, pos, len);
    lemma_ticks_wrap_len(len, pos);
}

/// One tick of a rhythm moves its playback position exactly as `position_after` counts
/// one step.
pub proof fn lemma_tick_is_one_step(r: Rhythm)
    ensures
        r.next_position() == position_after(r.pattern@.len(), r.position as nat, 1),
{
    assert(r.pattern.len() == r.pattern@.len());
    assert(position_after(r.pattern@.len(), r.position as nat, 0) == r.position);
}

proof fn lemma_ticks_step(len: nat, pos: nat, k: nat)
    requires
        pos < len,
    ensures
        position_after(len, pos, k) == (pos + k) % len,
    decreases k,
{
    if k == 0 {
        lemma_small_mod(pos, len);
    } else {
        lemma_ticks_step(len, pos, (k - 1) as nat);
        lemma_add_mod_noop_right(1, (pos + k - 1) as int, len as int);
    }
}

proof fn lemma_ticks_wrap_len(len: nat, pos: nat)
    requires
        pos < len,
    ensures
        (pos + len) % len == pos,
{
    vstd::arithmetic::div_mod::lemma_mod_add_multiples_vanish(pos as int, len as int);
    lemma_small_mod(pos, len);
}

/// A ternary time pattern with a playback position.
#[derive(Debug)]
pub struct Rhythm {
    /// Pattern values.
    pub pattern: Vec<Ternary>,
    /// Current playback position.
    pub position: usize,
}

/// A copy of a pattern.
pub fn copy_pattern(pattern: &[Ternary]) -> (r: Vec<Ternary>)
    ensures
        r@ == pattern@,
{
    let mut r: Vec<Ternary> = Vec::new();
    let mut i: usize = 0;
    while i < pattern.len()
        invariant
            i <= pattern@.len(),
            r@ == pattern@.subrange(0, i as int),
        decreases pattern@.len() - i,
    {
        r.push(pattern[i]);
        i = i + 1;
        assert(r@ =~= pattern@.subrange(0, i as int));
    }
    assert(r@ =~= pattern@);
    r
}

/// A copy of a population of rhythms, member by member.
pub fn copy_rhythms(rhythms: &Vec<Rhythm>) -> (r: Vec<Rhythm>)
    ensures
        r@.len() == rhythms@.len(),
        forall|i: int|
            0 <= i < r@.len() ==> (#[trigger] r@[i]).pattern@ == rhythms@[i].pattern@
                && r@[i].position == rhythms@[i].position,
{
    let mut r: Vec<Rhythm> = Vec::new();
    let mut i: usize = 0;
    while i < rhythms.len()
        invariant
            i <= rhythms@.len(),
            r@.len() == i,
            forall|j: int|
                0 <= j < i ==> (#[trigger] r@[j]).pattern@ == rhythms@[j].pattern@
                    && r@[j].position == rhythms@[j].position,
        decreases rhythms@.len() - i,
    {
        r.push(rhythms[i].clone());
        i = i + 1;
    }
    r
}

impl Clone for Rhythm {
    fn clone(&self) -> (r: Self)
        ensures
            r.pattern@ == self.pattern@,
            r.position == self.position,
    {
        Rhythm { pattern: copy_pattern(self.pattern.as_slice()), position: self.position }
    }
}

impl Rhythm {
    /// The playback position is inside the pattern (any position will do for an empty one).
    pub open spec fn wf(&self) -> bool {
        self.pattern@.len() == 0 || self.position < self.pattern@.len()
    }

    /// The value at the playback position (silence for an empty pattern).
    pub open spec fn value_at_position(&self) -> Ternary {
        if self.pattern@.len() == 0 {
            Ternary::Neutral
        } else {
            self.pattern@[self.position as int]
        }
    }

    /// The playback position after one tick.
    pub open spec fn next_position(&self) -> usize {
        if self.pattern@.len() == 0 {
            self.position
        } else {
            ((self.position + 1) % (self.pattern@.len() as int)) as usize
        }
    }

    /// Create a new rhythm from a pattern, positioned at its start.
    pub fn new(pattern: Vec<Ternary>) -> (r: Self)
        ensures
            r.pattern@ == pattern@,
            r.position == 0,
            r.wf(),
    {
        Rhythm { pattern, position: 0 }
    }

    /// Length of the pattern.
    pub fn len(&self) -> (r: usize)
        ensures
            r == self.pattern@.len(),
    {
        self.pattern.len()
    }

    /// Whether the pattern is empty.
    pub fn is_empty(&self) -> (r: bool)
        ensures
            r == (self.pattern@.len() == 0),
    {
        self.pattern.len() == 0
    }

    /// Advance one tick and return the value at the position before it.
    pub fn tick(&mut self) -> (r: Ternary)
        requires
            old(self).wf(),
        ensures
            r == old(self).value_at_position(),
            final(self).pattern@ == old(self).pattern@,
            final(self).position == old(self).next_position(),
            final(self).wf(),
    {
        if self.pattern.len() == 0 {
            return Ternary::Neutral;
        }
        let val = self.pattern[self.position];
        self.position = (self.position + 1) % self.pattern.len();
        val
    }

    /// Peek at the current value without advancing.
    pub fn current(&self) -> (r: Ternary)
        requires
            self.wf(),
        ensures
            r == self.value_at_position(),
    {
        if self.pattern.len() == 0 {
            Ternary::Neutral
        } else {
            self.pattern[self.position]
        }
    }

    /// Reset to the beginning.
    pub fn reset(&mut self)
        ensures
            final(self).pattern@ == old(self).pattern@,
            final(self).position == 0,
            final(self).wf(),
    {
        self.position = 0;
    }

    /// Balance: `(number of accents, number of ghost notes)`.
    pub fn balance(&self) -> (r: (usize, usize))
        ensures
            r.0 == count_of(self.pattern@, Ternary::Positive),
            r.1 == count_of(self.pattern@, Ternary::Negative),
            r.0 == count_indices(self.pattern@.len(), |i: int| self.pattern@[i] == Ternary::Positive),
            r.1 == count_indices(self.pattern@.len(), |i: int| self.pattern@[i] == Ternary::Negative),
    {
        let pos = count_value(self.pattern.as_slice(), Ternary::Positive);
        let neg = count_value(self.pattern.as_slice(), Ternary::Negative);
        (pos, neg)
    }

    /// Reverse the pattern in place.
    pub fn reverse(&mut self)
        ensures
            final(self).pattern@ == old(self).pattern@.reverse(),
            final(self).position == old(self).position,
            old(self).wf() ==> final(self).wf(),
    {
        let n = self.pattern.len();
        let mut r: Vec<Ternary> = Vec::new();
        let mut i: usize = 0;
        while i < n
            invariant
                n == self.pattern@.len(),
                i <= n,
                r@ == self.pattern@.reverse().subrange(0, i as int),
            decreases n - i,
        {
            r.push(self.pattern[n - 1 - i]);
            i = i + 1;
            assert(r@ =~= self.pattern@.reverse().subrange(0, i as int));
        }
        assert(r@ =~= self.pattern@.reverse());
        self.pattern = r;
    }

    /// Shift (rotate) the pattern right by `n` steps in place.
    pub fn rotate(&mut self, n: usize)
        ensures
            final(self).pattern@ == rotate_right(old(self).pattern@, n as int),
            final(self).position == old(self).position,
            old(self).wf() ==> final(self).wf(),
    {
        if self.pattern.len() == 0 {
            assert(self.pattern@ =~= rotate_right(self.pattern@, n as int));
            return;
        }
        let r = rotated_copy(self.pattern.as_slice(), n % self.pattern.len());
        proof {
            lemma_rotate_mod(self.pattern@, n as int);
        }
        self.pattern = r;
    }
}

} // verus!
