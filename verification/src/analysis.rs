use vstd::prelude::*;

use crate::pattern::{
    count_indices, count_non_neutral, lemma_count_indices_ext, lemma_count_le,
    lemma_onset_count_positions, onset_count,
};
use crate::ternary::Ternary;

verus! {

/// The beat length (in steps) assumed for a pattern of `len` steps.
pub open spec fn beat_len_spec(len: nat) -> nat {
    if len == 3 || len == 4 {
        1
    } else if len == 6 {
        3
    } else if len == 8 || len == 10 {
        2
    } else if len == 12 {
        3
    } else if len == 14 {
        2
    } else if len == 16 || len == 20 {
        4
    } else if len == 24 {
        3
    } else if len == 28 || len == 32 {
        4
    } else if len == 48 {
        3
    } else if len % 4 == 0 {
        4
    } else if len % 3 == 0 {
        3
    } else if len % 2 == 0 {
        2
    } else {
        1
    }
}

/// The guessed beat divides the length. Patterns of 3 or 4 steps have a beat of one
/// step, 8 steps a beat of two, and 12, 24 and 48 steps a beat of three; every other
/// length gets the largest beat of at most four steps that divides it.
pub proof fn lemma_beat_len(len: nat)
    ensures
        1 <= beat_len_spec(len) <= 4,
        len % beat_len_spec(len) == 0,
        len == 3 || len == 4 ==> beat_len_spec(len) == 1,
        len == 8 ==> beat_len_spec(len) == 2,
        len == 12 || len == 24 || len == 48 ==> beat_len_spec(len) == 3,
        !(len == 3 || len == 4 || len == 8 || len == 12 || len == 24 || len == 48) ==> forall|d: nat|
            beat_len_spec(len) < d <= 4 ==> #[trigger] (len % d) != 0,
{
}

/// Guess the beat length of a pattern from its length.
pub fn guess_beat_len(len: usize) -> (r: usize)
    ensures
        r == beat_len_spec(len as nat),
        1 <= r <= 4,
        len % r == 0,
        len == 3 || len == 4 ==> r == 1,
{
    proof {
        lemma_beat_len(len as nat);
    }
    if len == 3 || len == 4 {
        1
    } else if len == 6 {
        3
    } else if len == 8 || len == 10 {
        2
    } else if len == 12 {
        3
    } else if len == 14 {
        2
    } else if len == 16 || len == 20 {
        4
    } else if len == 24 {
        3
    } else if len == 28 || len == 32 {
        4
    } else if len == 48 {
        3
    } else if len % 4 == 0 {
        4
    } else if len % 3 == 0 {
        3
    } else if len % 2 == 0 {
        2
    } else {
        1
    }
}

/// How many events of `s` fall off the beat, for a beat of `beat_len` steps:
/// events at a position that is not a multiple of `beat_len`.
pub open spec fn offbeat_count(s: Seq<Ternary>, beat_len: nat) -> nat
    decreases s.len(),
{
    if s.len() == 0 {
        0
    } else {
        offbeat_count(s.drop_last(), beat_len) + if s.last() != Ternary::Neutral && (s.len()
            - 1) % (beat_len as int) != 0 {
            1nat
        } else {
            0nat
        }
    }
}

/// The off-beat events are the positions that hold an event, accent or ghost note,
/// and are not a multiple of the beat length.
pub proof fn lemma_offbeat_positions(s: Seq<Ternary>, beat_len: nat)
    ensures
        offbeat_count(s, beat_len) == count_indices(
            s.len(),
            |i: int| s[i] != Ternary::Neutral && i % (beat_len as int) != 0,
        ),
    decreases s.len(),
{
    if s.len() > 0 {
        let d = s.drop_last();
        lemma_offbeat_positions(d, beat_len);
        lemma_count_indices_ext(
            d.len(),
            |i: int| d[i] != Ternary::Neutral && i % (beat_len as int) != 0,
            |i: int| s[i] != Ternary::Neutral && i % (beat_len as int) != 0,
        );
    }
}

/// With a beat of one step every event is on the beat.
pub proof fn lemma_offbeat_unit_beat(s: Seq<Ternary>)
    ensures
        offbeat_count(s, 1) == 0,
    decreases s.len(),
{
    if s.len() > 0 {
        lemma_offbeat_unit_beat(s.drop_last());
    }
}

/// There are no more off-beat events than events.
pub proof fn lemma_offbeat_le_onsets(s: Seq<Ternary>, beat_len: nat)
    ensures
        offbeat_count(s, beat_len) <= onset_count(s),
    decreases s.len(),
{
    if s.len() > 0 {
        lemma_offbeat_le_onsets(s.drop_last(), beat_len);
    }
}

/// The counts behind the syncopation score: `(off-beat events, events)`, where the beat
/// length is guessed from the pattern length. The score is their ratio (0 when there
/// are no events).
pub fn syncopation_counts(pattern: &[Ternary]) -> (r: (usize, usize))
    ensures
        r.0 == offbeat_count(pattern@, beat_len_spec(pattern@.len())),
        r.1 == onset_count(pattern@),
        r.0 <= r.1 <= pattern@.len(),
        r.0 == count_indices(
            pattern@.len(),
            |i: int|
                pattern@[i] != Ternary::Neutral && i % (beat_len_spec(pattern@.len()) as int) != 0,
        ),
        r.1 == count_indices(pattern@.len(), |i: int| pattern@[i] != Ternary::Neutral),
        pattern@.len() == 3 || pattern@.len() == 4 ==> r.0 == 0,
{
    proof {
        lemma_offbeat_positions(pattern@, beat_len_spec(pattern@.len()));
        lemma_onset_count_positions(pattern@);
        lemma_beat_len(pattern@.len());
        lemma_offbeat_unit_beat(pattern@);
    }
    let beat_len = guess_beat_len(pattern.len());
    let mut off: usize = 0;
    let mut total: usize = 0;
    let mut i: usize = 0;
    while i < pattern.len()
        invariant
            beat_len == beat_len_spec(pattern@.len()),
            beat_len >= 1,
            i <= pattern@.len(),
            off == offbeat_count(pattern@.subrange(0, i as int), beat_len as nat),
            total == onset_count(pattern@.subrange(0, i as int)),
            off <= total <= i,
        decreases pattern@.len() - i,
    {
        assert(pattern@.subrange(0, i + 1).drop_last() =~= pattern@.subrange(0, i as int));
        if pattern[i] != Ternary::Neutral {
            total = total + 1;
            if i % beat_len != 0 {
                off = off + 1;
            }
        }
        i = i + 1;
    }
    assert(pattern@.subrange(0, i as int) =~= pattern@);
    (off, total)
}

/// `num / den > p / q`, where a ratio with a zero denominator counts as 0.
pub open spec fn ratio_above(num: nat, den: nat, p: nat, q: nat) -> bool {
    den > 0 && num * q > p * den
}

/// `num / den < p / q`, where a ratio with a zero denominator counts as 0.
pub open spec fn ratio_below(num: nat, den: nat, p: nat, q: nat) -> bool {
    if den == 0 {
        0 < p
    } else {
        num * q < p * den
    }
}

fn above(num: usize, den: usize, p: u128, q: u128) -> (r: bool)
    requires
        p <= 100,
        q <= 100,
    ensures
        r == ratio_above(num as nat, den as nat, p as nat, q as nat),
{
    assert((num as u128) * q <= u128::MAX && p * (den as u128) <= u128::MAX) by (nonlinear_arith)
        requires
            num <= u64::MAX,
            den <= u64::MAX,
            p <= 100,
            q <= 100,
    ;
    den > 0 && (num as u128) * q > p * (den as u128)
}

fn below(num: usize, den: usize, p: u128, q: u128) -> (r: bool)
    requires
        p <= 100,
        q <= 100,
    ensures
        r == ratio_below(num as nat, den as nat, p as nat, q as nat),
{
    assert((num as u128) * q <= u128::MAX && p * (den as u128) <= u128::MAX) by (nonlinear_arith)
        requires
            num <= u64::MAX,
            den <= u64::MAX,
            p <= 100,
            q <= 100,
    ;
    if den == 0 {
        0 < p
    } else {
        (num as u128) * q < p * (den as u128)
    }
}

/// A time signature.
#[derive(Clone, Copy, Debug, PartialEq, Eq, Structural)]
pub enum Meter {
    TwoFour,
    ThreeFour,
    FourFour,
    FiveFour,
    SevenFour,
    ThreeEight,
    FiveEight,
    SixEight,
    SevenEight,
    NineEight,
    TwelveEight,
    Unknown,
}

/// A rhythmic feel.
#[derive(Clone, Copy, Debug, PartialEq, Eq, Structural)]
pub enum Feel {
    GhostedSwing,
    SyncopatedGroove,
    OffBeatHeavy,
    Straight,
    LightSwing,
    DenseGroove,
}

/// A likely genre.
#[derive(Clone, Copy, Debug, PartialEq, Eq, Structural)]
pub enum Genre {
    MinimalTechno,
    Rock,
    MarchPop,
    Funk,
    SwingJazz,
    FunkRnB,
    DrumAndBass,
    Breakbeat,
    Waltz,
    ShuffleBlues,
    AfroCuban,
    ProgressiveRockJazz,
    BluesShuffle,
    BalkanProgressive,
    PolkaMarch,
    FreeJazz,
    UnknownMixed,
}

impl Meter {
    /// The time signature as text.
    pub open spec fn label(self) -> Seq<char> {
        match self {
            Meter::TwoFour => "2/4"@,
            Meter::ThreeFour => "3/4"@,
            Meter::FourFour => "4/4"@,
            Meter::FiveFour => "5/4"@,
            Meter::SevenFour => "7/4"@,
            Meter::ThreeEight => "3/8"@,
            Meter::FiveEight => "5/8"@,
            Meter::SixEight => "6/8"@,
            Meter::SevenEight => "7/8"@,
            Meter::NineEight => "9/8"@,
            Meter::TwelveEight => "12/8"@,
            Meter::Unknown => "unknown"@,
        }
    }

    /// The time signature as text.
    pub fn name(&self) -> (r: &'static str)
        ensures
            r@ == self.label(),
    {
        match self {
            Meter::TwoFour => "2/4",
            Meter::ThreeFour => "3/4",
            Meter::FourFour => "4/4",
            Meter::FiveFour => "5/4",
            Meter::SevenFour => "7/4",
            Meter::ThreeEight => "3/8",
            Meter::FiveEight => "5/8",
            Meter::SixEight => "6/8",
            Meter::SevenEight => "7/8",
            Meter::NineEight => "9/8",
            Meter::TwelveEight => "12/8",
            Meter::Unknown => "unknown",
        }
    }
}

impl Feel {
    /// The feel as text.
    pub open spec fn label(self) -> Seq<char> {
        match self {
            Feel::GhostedSwing => "ghosted swing"@,
            Feel::SyncopatedGroove => "syncopated groove"@,
            Feel::OffBeatHeavy => "off-beat heavy"@,
            Feel::Straight => "straight"@,
            Feel::LightSwing => "light swing"@,
            Feel::DenseGroove => "dense groove"@,
        }
    }

    /// The feel as text.
    pub fn name(&self) -> (r: &'static str)
        ensures
            r@ == self.label(),
    {
        match self {
            Feel::GhostedSwing => "ghosted swing",
            Feel::SyncopatedGroove => "syncopated groove",
            Feel::OffBeatHeavy => "off-beat heavy",
            Feel::Straight => "straight",
            Feel::LightSwing => "light swing",
            Feel::DenseGroove => "dense groove",
        }
    }
}

impl Genre {
    /// The genre as text.
    pub open spec fn label(self) -> Seq<char> {
        match self {
            Genre::MinimalTechno => "minimal techno"@,
            Genre::Rock => "rock"@,
            Genre::MarchPop => "march / pop"@,
            Genre::Funk => "funk"@,
            Genre::SwingJazz => "swing jazz"@,
            Genre::FunkRnB => "funk / R&B"@,
            Genre::DrumAndBass => "drum & bass / jungle"@,
            Genre::Breakbeat => "breakbeat"@,
            Genre::Waltz => "waltz"@,
            Genre::ShuffleBlues => "shuffle / blues"@,
            Genre::AfroCuban => "afro-cuban"@,
            Genre::ProgressiveRockJazz => "progressive rock / jazz"@,
            Genre::BluesShuffle => "blues shuffle"@,
            Genre::BalkanProgressive => "Balkan / progressive"@,
            Genre::PolkaMarch => "polka / march"@,
            Genre::FreeJazz => "free jazz / experimental"@,
            Genre::UnknownMixed => "unknown / mixed"@,
        }
    }

    /// The genre as text.
    pub fn name(&self) -> (r: &'static str)
        ensures
            r@ == self.label(),
    {
        match self {
            Genre::MinimalTechno => "minimal techno",
            Genre::Rock => "rock",
            Genre::MarchPop => "march / pop",
            Genre::Funk => "funk",
            Genre::SwingJazz => "swing jazz",
            Genre::FunkRnB => "funk / R&B",
            Genre::DrumAndBass => "drum & bass / jungle",
            Genre::Breakbeat => "breakbeat",
            Genre::Waltz => "waltz",
            Genre::ShuffleBlues => "shuffle / blues",
            Genre::AfroCuban => "afro-cuban",
            Genre::ProgressiveRockJazz => "progressive rock / jazz",
            Genre::BluesShuffle => "blues shuffle",
            Genre::BalkanProgressive => "Balkan / progressive",
            Genre::PolkaMarch => "polka / march",
            Genre::FreeJazz => "free jazz / experimental",
            Genre::UnknownMixed => "unknown / mixed",
        }
    }
}

/// The labels of a pattern's classification: meter, feel, likely genre, and whether
/// it holds ghost notes.
#[derive(Clone, Copy, Debug, PartialEq, Eq, Structural)]
pub struct Labels {
    pub meter: Meter,
    pub feel: Feel,
    pub genre: Genre,
    pub has_ghosts: bool,
}

/// The meter of a pattern of `len` steps with `onsets` events.
pub open spec fn meter_spec_of(len: nat, onsets: nat) -> Meter {
    if len == 4 {
        Meter::TwoFour
    } else if len == 6 {
        Meter::ThreeFour
    } else if len == 8 || len == 16 || len == 32 {
        Meter::FourFour
    } else if len == 12 {
        Meter::SixEight
    } else if len == 20 {
        Meter::FiveFour
    } else if len == 24 {
        Meter::TwelveEight
    } else if len == 28 {
        Meter::SevenFour
    } else if len == 3 {
        Meter::ThreeEight
    } else if len == 5 {
        Meter::FiveEight
    } else if len == 7 {
        Meter::SevenEight
    } else if len == 9 {
        Meter::NineEight
    } else if len % 4 == 0 {
        if onsets > 0 && len / onsets >= 3 {
            Meter::TwelveEight
        } else {
            Meter::FourFour
        }
    } else if len % 3 == 0 {
        Meter::ThreeFour
    } else if len % 2 == 0 {
        Meter::TwoFour
    } else {
        Meter::Unknown
    }
}

/// The feel, from the syncopation `off / onsets` and the density `onsets / len`.
pub open spec fn feel_spec_of(off: nat, onsets: nat, len: nat, has_ghosts: bool) -> Feel {
    if has_ghosts && ratio_above(off, onsets, 2, 5) {
        Feel::GhostedSwing
    } else if ratio_above(off, onsets, 1, 2) && ratio_above(onsets, len, 1, 2) {
        Feel::SyncopatedGroove
    } else if ratio_above(off, onsets, 3, 5) {
        Feel::OffBeatHeavy
    } else if ratio_below(off, onsets, 3, 20) {
        Feel::Straight
    } else if ratio_below(off, onsets, 3, 10) {
        Feel::LightSwing
    } else if ratio_above(onsets, len, 3, 5) {
        Feel::DenseGroove
    } else {
        Feel::Straight
    }
}

/// The genre from meter and feel, with the syncopation `off / onsets` and density
/// `onsets / len` deciding between some of them.
pub open spec fn genre_spec_of(
    meter: Meter,
    feel: Feel,
    off: nat,
    onsets: nat,
    len: nat,
    has_ghosts: bool,
) -> Genre {
    if meter == Meter::FourFour && feel == Feel::Straight {
        if ratio_below(onsets, len, 3, 10) {
            Genre::MinimalTechno
        } else if ratio_below(onsets, len, 1, 2) {
            Genre::Rock
        } else {
            Genre::MarchPop
        }
    } else if meter == Meter::FourFour && feel == Feel::LightSwing {
        if has_ghosts {
            Genre::Funk
        } else {
            Genre::SwingJazz
        }
    } else if meter == Meter::FourFour && feel == Feel::SyncopatedGroove {
        Genre::FunkRnB
    } else if meter == Meter::FourFour && feel == Feel::GhostedSwing {
        Genre::DrumAndBass
    } else if meter == Meter::FourFour && feel == Feel::DenseGroove {
        Genre::Breakbeat
    } else if meter == Meter::ThreeFour {
        Genre::Waltz
    } else if meter == Meter::SixEight {
        if ratio_below(off, onsets, 3, 10) {
            Genre::ShuffleBlues
        } else {
            Genre::AfroCuban
        }
    } else if meter == Meter::FiveFour {
        Genre::ProgressiveRockJazz
    } else if meter == Meter::TwelveEight {
        Genre::BluesShuffle
    } else if meter == Meter::SevenEight {
        Genre::BalkanProgressive
    } else if meter == Meter::TwoFour {
        Genre::PolkaMarch
    } else if feel == Feel::OffBeatHeavy {
        Genre::FreeJazz
    } else {
        Genre::UnknownMixed
    }
}

/// The classification labels of a pattern.
pub open spec fn classify_spec(s: Seq<Ternary>) -> Labels {
    let len = s.len();
    let onsets = onset_count(s);
    let off = offbeat_count(s, beat_len_spec(len));
    let has_ghosts = exists|i: int| 0 <= i < len && s[i] == Ternary::Negative;
    let meter = meter_spec_of(len, onsets);
    let feel = feel_spec_of(off, onsets, len, has_ghosts);
    Labels {
        meter,
        feel,
        genre: genre_spec_of(meter, feel, off, onsets, len, has_ghosts),
        has_ghosts,
    }
}

/// How a pattern of `s.len()` steps, with `onsets` events of which `off` fall off the
/// beat, is classified.
///
/// It holds ghost notes when some step is `Negative`. The meter is read from the
/// length: 3 steps are 3/8, 4 are 2/4, 5 are 5/8, 6 are 3/4, 7 are 7/8, 8, 16 and 32
/// are 4/4, 9 are 9/8, 12 are 6/8, 20 are 5/4, 24 are 12/8 and 28 are 7/4; any other
/// multiple of four is 12/8 when at most a third of its steps are events and 4/4
/// otherwise, any other multiple of three 3/4, any other even length 2/4, and the rest
/// unknown. The feel compares the syncopation `off / onsets` and the density
/// `onsets / len` against fixed thresholds; a pattern with every event on the beat is
/// straight. The genre follows from the meter, and in 4/4 from the feel.
pub proof fn lemma_classification(s: Seq<Ternary>, off: nat, onsets: nat)
    requires
        onsets == onset_count(s),
        off == offbeat_count(s, beat_len_spec(s.len())),
    ensures
        classify_spec(s).has_ghosts == exists|i: int| 0 <= i < s.len() && s[i] == Ternary::Negative,
        s.len() == 3 ==> classify_spec(s).meter == Meter::ThreeEight,
        s.len() == 4 ==> classify_spec(s).meter == Meter::TwoFour,
        s.len() == 5 ==> classify_spec(s).meter == Meter::FiveEight,
        s.len() == 6 ==> classify_spec(s).meter == Meter::ThreeFour,
        s.len() == 7 ==> classify_spec(s).meter == Meter::SevenEight,
        s.len() == 8 || s.len() == 16 || s.len() == 32 ==> classify_spec(s).meter
            == Meter::FourFour,
        s.len() == 9 ==> classify_spec(s).meter == Meter::NineEight,
        s.len() == 12 ==> classify_spec(s).meter == Meter::SixEight,
        s.len() == 20 ==> classify_spec(s).meter == Meter::FiveFour,
        s.len() == 24 ==> classify_spec(s).meter == Meter::TwelveEight,
        s.len() == 28 ==> classify_spec(s).meter == Meter::SevenFour,
        (s.len() == 0 || s.len() > 32) && s.len() % 4 == 0 ==> classify_spec(s).meter == (if onsets > 0 && s.len()
            >= 3 * onsets {
            Meter::TwelveEight
        } else {
            Meter::FourFour
        }),
        s.len() > 9 && s.len() % 4 != 0 && s.len() % 3 == 0 ==> classify_spec(s).meter
            == Meter::ThreeFour,
        (s.len() == 2 || s.len() > 9) && s.len() % 4 != 0 && s.len() % 3 != 0 && s.len() % 2 == 0
            ==> classify_spec(s).meter == Meter::TwoFour,
        (s.len() == 1 || s.len() > 9) && s.len() % 3 != 0 && s.len() % 2 != 0
            ==> classify_spec(s).meter == Meter::Unknown,
        classify_spec(s).feel == (if classify_spec(s).has_ghosts && 5 * off > 2 * onsets {
            Feel::GhostedSwing
        } else if 2 * off > onsets && 2 * onsets > s.len() {
            Feel::SyncopatedGroove
        } else if 5 * off > 3 * onsets {
            Feel::OffBeatHeavy
        } else if onsets == 0 || 20 * off < 3 * onsets {
            Feel::Straight
        } else if 10 * off < 3 * onsets {
            Feel::LightSwing
        } else if 5 * onsets > 3 * s.len() {
            Feel::DenseGroove
        } else {
            Feel::Straight
        }),
        off == 0 ==> classify_spec(s).feel == Feel::Straight,
        classify_spec(s).meter == Meter::FourFour ==> classify_spec(s).genre == match classify_spec(
            s,
        ).feel {
            Feel::Straight => if s.len() == 0 || 10 * onsets < 3 * s.len() {
                Genre::MinimalTechno
            } else if 2 * onsets < s.len() {
                Genre::Rock
            } else {
                Genre::MarchPop
            },
            Feel::LightSwing => if classify_spec(s).has_ghosts {
                Genre::Funk
            } else {
                Genre::SwingJazz
            },
            Feel::SyncopatedGroove => Genre::FunkRnB,
            Feel::GhostedSwing => Genre::DrumAndBass,
            Feel::DenseGroove => Genre::Breakbeat,
            Feel::OffBeatHeavy => Genre::FreeJazz,
        },
        classify_spec(s).meter == Meter::ThreeFour ==> classify_spec(s).genre == Genre::Waltz,
        classify_spec(s).meter == Meter::SixEight ==> classify_spec(s).genre == (if onsets == 0
            || 10 * off < 3 * onsets {
            Genre::ShuffleBlues
        } else {
            Genre::AfroCuban
        }),
        classify_spec(s).meter == Meter::FiveFour ==> classify_spec(s).genre
            == Genre::ProgressiveRockJazz,
        classify_spec(s).meter == Meter::TwelveEight ==> classify_spec(s).genre
            == Genre::BluesShuffle,
        classify_spec(s).meter == Meter::SevenEight ==> classify_spec(s).genre
            == Genre::BalkanProgressive,
        classify_spec(s).meter == Meter::TwoFour ==> classify_spec(s).genre == Genre::PolkaMarch,
        classify_spec(s).meter == Meter::ThreeEight || classify_spec(s).meter == Meter::FiveEight
            || classify_spec(s).meter == Meter::NineEight || classify_spec(s).meter
            == Meter::SevenFour || classify_spec(s).meter == Meter::Unknown ==> classify_spec(
            s,
        ).genre == (if classify_spec(s).feel == Feel::OffBeatHeavy {
            Genre::FreeJazz
        } else {
            Genre::UnknownMixed
        }),
{
    lemma_offbeat_le_onsets(s, beat_len_spec(s.len()));
    lemma_onset_count_positions(s);
    assert(onsets <= s.len()) by {
        lemma_count_le(s.len(), |i: int| s[i] != Ternary::Neutral);
    }
    if s.len() % 4 == 0 && onsets > 0 {
        assert((s.len() / onsets >= 3) == (s.len() >= 3 * onsets)) by (nonlinear_arith)
            requires
                onsets > 0,
        ;
    }
}

/// Whether a pattern holds a ghost note.
fn has_ghost_notes(pattern: &[Ternary]) -> (r: bool)
    ensures
        r == exists|i: int| 0 <= i < pattern@.len() && pattern@[i] == Ternary::Negative,
{
    let mut i: usize = 0;
    while i < pattern.len()
        invariant
            i <= pattern@.len(),
            forall|j: int| 0 <= j < i ==> pattern@[j] != Ternary::Negative,
        decreases pattern@.len() - i,
    {
        if pattern[i] == Ternary::Negative {
            return true;
        }
        i = i + 1;
    }
    false
}

/// Classify a rhythm pattern: meter from its length, feel from its syncopation and
/// density, likely genre from both, and whether it holds ghost notes.
pub fn classify_labels(pattern: &[Ternary]) -> (r: Labels)
    ensures
        r == classify_spec(pattern@),
        r.has_ghosts == exists|i: int| 0 <= i < pattern@.len() && pattern@[i] == Ternary::Negative,
        pattern@.len() == 7 ==> r.meter == Meter::SevenEight && r.genre == Genre::BalkanProgressive,
        offbeat_count(pattern@, beat_len_spec(pattern@.len())) == 0 ==> r.feel == Feel::Straight,
{
    proof {
        lemma_classification(
            pattern@,
            offbeat_count(pattern@, beat_len_spec(pattern@.len())),
            onset_count(pattern@),
        );
    }
    let len = pattern.len();
    let (off, onsets) = syncopation_counts(pattern);
    let te = count_non_neutral(pattern);
    let has_ghosts = has_ghost_notes(pattern);
    let meter = if len == 4 {
        Meter::TwoFour
    } else if len == 6 {
        Meter::ThreeFour
    } else if len == 8 || len == 16 || len == 32 {
        Meter::FourFour
    } else if len == 12 {
        Meter::SixEight
    } else if len == 20 {
        Meter::FiveFour
    } else if len == 24 {
        Meter::TwelveEight
    } else if len == 28 {
        Meter::SevenFour
    } else if len == 3 {
        Meter::ThreeEight
    } else if len == 5 {
        Meter::FiveEight
    } else if len == 7 {
        Meter::SevenEight
    } else if len == 9 {
        Meter::NineEight
    } else if len % 4 == 0 {
        if te > 0 && len / te >= 3 {
            Meter::TwelveEight
        } else {
            Meter::FourFour
        }
    } else if len % 3 == 0 {
        Meter::ThreeFour
    } else if len % 2 == 0 {
        Meter::TwoFour
    } else {
        Meter::Unknown
    };
    let feel = if has_ghosts && above(off, onsets, 2, 5) {
        Feel::GhostedSwing
    } else if above(off, onsets, 1, 2) && above(onsets, len, 1, 2) {
        Feel::SyncopatedGroove
    } else if above(off, onsets, 3, 5) {
        Feel::OffBeatHeavy
    } else if below(off, onsets, 3, 20) {
        Feel::Straight
    } else if below(off, onsets, 3, 10) {
        Feel::LightSwing
    } else if above(onsets, len, 3, 5) {
        Feel::DenseGroove
    } else {
        Feel::Straight
    };
    let genre = if meter == Meter::FourFour && feel == Feel::Straight {
        if below(onsets, len, 3, 10) {
            Genre::MinimalTechno
        } else if below(onsets, len, 1, 2) {
            Genre::Rock
        } else {
            Genre::MarchPop
        }
    } else if meter == Meter::FourFour && feel == Feel::LightSwing {
        if has_ghosts {
            Genre::Funk
        } else {
            Genre::SwingJazz
        }
    } else if meter == Meter::FourFour && feel == Feel::SyncopatedGroove {
        Genre::FunkRnB
    } else if meter == Meter::FourFour && feel == Feel::GhostedSwing {
        Genre::DrumAndBass
    } else if meter == Meter::FourFour && feel == Feel::DenseGroove {
        Genre::Breakbeat
    } else if meter == Meter::ThreeFour {
        Genre::Waltz
    } else if meter == Meter::SixEight {
        if below(off, onsets, 3, 10) {
            Genre::ShuffleBlues
        } else {
            Genre::AfroCuban
        }
    } else if meter == Meter::FiveFour {
        Genre::ProgressiveRockJazz
    } else if meter == Meter::TwelveEight {
        Genre::BluesShuffle
    } else if meter == Meter::SevenEight {
        Genre::BalkanProgressive
    } else if meter == Meter::TwoFour {
        Genre::PolkaMarch
    } else if feel == Feel::OffBeatHeavy {
        Genre::FreeJazz
    } else {
        Genre::UnknownMixed
    };
    Labels { meter, feel, genre, has_ghosts }
}

} // verus!
