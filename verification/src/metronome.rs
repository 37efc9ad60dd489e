use vstd::prelude::*;

use crate::rhythm::position_after;
use crate::ternary::Ternary;

verus! {

/// A steady tick generator (metronome).
#[derive(Debug)]
pub struct Metronome {
    /// Beats per measure.
    pub beats: usize,
    /// Current beat position.
    pub position: usize,
    /// Accent pattern: which beats are accented, normal or rests.
    pub accents: Vec<Ternary>,
}

/// The accents of a fresh metronome: an accented downbeat and silent other beats.
pub open spec fn default_accents(beats: nat) -> Seq<Ternary> {
    Seq::new(beats, |i: int| if i == 0 { Ternary::Positive } else { Ternary::Neutral })
}

/// An accent pattern padded with silences or cut to exactly `beats` entries.
pub open spec fn fit_accents(accents: Seq<Ternary>, beats: nat) -> Seq<Ternary> {
    if accents.len() >= beats {
        accents.subrange(0, beats as int)
    } else {
        accents + Seq::new((beats - accents.len()) as nat, |i: int| Ternary::Neutral)
    }
}

impl Clone for Metronome {
    fn clone(&self) -> (r: Self)
        ensures
            r.beats == self.beats,
            r.position == self.position,
            r.accents@ == self.accents@,
    {
        Metronome {
            beats: self.beats,
            position: self.position,
            accents: crate::rhythm::copy_pattern(self.accents.as_slice()),
        }
    }
}

impl Metronome {
    /// The value that the beat at the current position sounds.
    pub open spec fn value_at_position(&self) -> Ternary {
        if self.beats == 0 || self.position >= self.accents@.len() {
            Ternary::Neutral
        } else {
            self.accents@[self.position as int]
        }
    }

    /// The beat position after one tick.
    pub open spec fn next_position(&self) -> usize {
        if self.beats == 0 {
            self.position
        } else {
            ((self.position + 1) % (self.beats as int)) as usize
        }
    }

    /// A metronome of `beats` beats with an accented downbeat.
    pub fn new(beats: usize) -> (r: Self)
        ensures
            r.beats == beats,
            r.position == 0,
            r.accents@ == default_accents(beats as nat),
    {
        let mut accents: Vec<Ternary> = Vec::new();
        let mut i: usize = 0;
        while i < beats
            invariant
                i <= beats,
                accents@ == default_accents(i as nat),
            decreases beats - i,
        {
            if i == 0 {
                accents.push(Ternary::Positive);
            } else {
                accents.push(Ternary::Neutral);
            }
            i = i + 1;
            assert(accents@ =~= default_accents(i as nat));
        }
        Metronome { beats, position: 0, accents }
    }

    /// Set the accent pattern, padded with silences or cut to the number of beats.
    pub fn set_accents(&mut self, accents: Vec<Ternary>)
        ensures
            final(self).accents@ == fit_accents(accents@, old(self).beats as nat),
            final(self).accents@.len() == old(self).beats,
            final(self).beats == old(self).beats,
            final(self).position == old(self).position,
    {
        let mut a = accents;
        let beats = self.beats;
        a.truncate(beats);
        let ghost cut = a@;
        while a.len() < beats
            invariant
                cut == (if accents@.len() >= beats { accents@.subrange(0, beats as int) } else { accents@ }),
                cut.len() <= beats,
                a@.len() <= beats,
                a@ == cut + Seq::new((a@.len() - cut.len()) as nat, |i: int| Ternary::Neutral),
            decreases beats - a@.len(),
        {
            a.push(Ternary::Neutral);
            assert(a@ =~= cut + Seq::new((a@.len() - cut.len()) as nat, |i: int| Ternary::Neutral));
        }
        assert(a@ =~= fit_accents(accents@, beats as nat));
        self.accents = a;
    }

    /// Tick forward one beat and return the beat's accent.
    pub fn tick(&mut self) -> (r: Ternary)
        requires
            old(self).beats == 0 || old(self).position < usize::MAX,
        ensures
            r == old(self).value_at_position(),
            final(self).position == old(self).next_position(),
            final(self).beats == old(self).beats,
            final(self).accents@ == old(self).accents@,
    {
        if self.beats == 0 {
            return Ternary::Neutral;
        }
        let val = if self.position < self.accents.len() {
            self.accents[self.position]
        } else {
            Ternary::Neutral
        };
        self.position = (self.position + 1) % self.beats;
        val
    }

    /// Whether the metronome is on the downbeat.
    pub fn is_downbeat(&self) -> (r: bool)
        ensures
            r == (self.position == 0),
    {
        self.position == 0
    }

    /// Reset to beat 0.
    pub fn reset(&mut self)
        ensures
            final(self).position == 0,
            final(self).beats == old(self).beats,
            final(self).accents@ == old(self).accents@,
    {
        self.position = 0;
    }
}

/// One tick of a metronome moves its beat position exactly as `position_after` counts one
/// step on a cycle of `beats` steps; with `lemma_ticks_wrap`, `beats` ticks from a beat
/// of the measure come back to it.
pub proof fn lemma_metronome_tick_is_one_step(m: Metronome)
    ensures
        m.next_position() == position_after(m.beats as nat, m.position as nat, 1),
{
    assert(position_after(m.beats as nat, m.position as nat, 0) == m.position);
}

} // verus!
