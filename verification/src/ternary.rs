use vstd::prelude::*;

verus! {

/// A ternary value in a time pattern.
///
/// - `Negative` (-1): ghost note or weak accent
/// - `Neutral` (0): silence or rest
/// - `Positive` (+1): accented hit or strong onset
#[derive(Clone, Copy, Debug, PartialEq, Eq, Hash, Structural)]
pub enum Ternary {
    Negative,
    Neutral,
    Positive,
}

impl Ternary {
    /// The integer that the value stands for.
    pub open spec fn value(self) -> int {
        match self {
            Ternary::Negative => -1,
            Ternary::Neutral => 0,
            Ternary::Positive => 1,
        }
    }
}

/// The value with the given integer, if it is -1, 0 or 1.
pub open spec fn ternary_of_int(v: int) -> Option<Ternary> {
    if v == -1 {
        Some(Ternary::Negative)
    } else if v == 0 {
        Some(Ternary::Neutral)
    } else if v == 1 {
        Some(Ternary::Positive)
    } else {
        None
    }
}

/// The multiplier of the linear congruential generator behind `random`.
pub const LCG_MULTIPLIER: u64 = 6364136223846793005u64;

/// One step of the linear congruential generator: `s * 6364136223846793005 + 1` modulo 2^64.
pub open spec fn lcg_next(s: u64) -> u64 {
    vstd::wrapping::u64_specs::wrapping_add(
        vstd::wrapping::u64_specs::wrapping_mul(s, LCG_MULTIPLIER),
        1,
    )
}

/// The value that a generator state selects: its residue modulo 3.
pub open spec fn ternary_of_state(s: u64) -> Ternary {
    if s % 3 == 0 {
        Ternary::Negative
    } else if s % 3 == 1 {
        Ternary::Neutral
    } else {
        Ternary::Positive
    }
}

/// Advances a generator state one step.
pub(crate) fn lcg_step(s: u64) -> (r: u64)
    ensures
        r == lcg_next(s),
{
    s.wrapping_mul(LCG_MULTIPLIER).wrapping_add(1)
}

/// Conversions between ternary values and integers, and random generation.
pub trait TernaryExt {
    /// Create a ternary value from an `i8` (-1, 0 or 1).
    fn from_i8(v: i8) -> Option<Self> where Self: Sized;

    /// The `i8` value of this ternary state.
    fn to_i8(self) -> i8;

    /// Generate a random ternary value with a simple linear congruential generator.
    fn random(seed: &mut u64) -> Self where Self: Sized;
}

impl TernaryExt for Ternary {
    fn from_i8(v: i8) -> (r: Option<Ternary>)
        ensures
            r == ternary_of_int(v as int),
    {
        match Ternary::try_from(v) {
            Ok(t) => Some(t),
            Err(_) => None,
        }
    }

    fn to_i8(self) -> (r: i8)
        ensures
            r as int == self.value(),
    {
        match self {
            Ternary::Negative => -1,
            Ternary::Neutral => 0,
            Ternary::Positive => 1,
        }
    }

    fn random(seed: &mut u64) -> (r: Ternary)
        ensures
            *final(seed) == lcg_next(*old(seed)),
            r == ternary_of_state(*final(seed)),
    {
        *seed = lcg_step(*seed);
        let m = *seed % 3;
        if m == 0 {
            Ternary::Negative
        } else if m == 1 {
            Ternary::Neutral
        } else {
            Ternary::Positive
        }
    }
}

impl From<Ternary> for i8 {
    fn from(v: Ternary) -> (r: i8) {
        match v {
            Ternary::Negative => -1,
            Ternary::Neutral => 0,
            Ternary::Positive => 1,
        }
    }
}

impl vstd::std_specs::convert::FromSpecImpl<Ternary> for i8 {
    open spec fn obeys_from_spec() -> bool {
        true
    }

    open spec fn from_spec(v: Ternary) -> i8 {
        v.value() as i8
    }
}

impl TryFrom<i8> for Ternary {
    type Error = &'static str;

    fn try_from(v: i8) -> (r: Result<Ternary, &'static str>) {
        if v == -1 {
            Ok(Ternary::Negative)
        } else if v == 0 {
            Ok(Ternary::Neutral)
        } else if v == 1 {
            Ok(Ternary::Positive)
        } else {
            Err("invalid ternary value")
        }
    }
}

impl vstd::std_specs::convert::TryFromSpecImpl<i8> for Ternary {
    open spec fn obeys_try_from_spec() -> bool {
        true
    }

    open spec fn try_from_spec(v: i8) -> Result<Ternary, &'static str> {
        match ternary_of_int(v as int) {
            Some(t) => Ok(t),
            None => Err("invalid ternary value"),
        }
    }
}

/// Converting a value to an integer and back gives the value again.
pub proof fn lemma_ternary_int_round_trip(t: Ternary)
    ensures
        ternary_of_int(t.value()) == Some(t),
        -1 <= t.value() <= 1,
{
}

} // verus!
