//! Preset rhythm patterns.

use vstd::prelude::*;

use crate::ternary::Ternary;

verus! {

/// Classic rock 4/4.
pub fn rock() -> (r: Vec<Ternary>)
    ensures
        r@ == seq![Ternary::Positive, Ternary::Neutral, Ternary::Neutral, Ternary::Neutral, Ternary::Negative, Ternary::Neutral, Ternary::Neutral, Ternary::Neutral, Ternary::Positive, Ternary::Neutral, Ternary::Neutral, Ternary::Neutral, Ternary::Negative, Ternary::Neutral, Ternary::Neutral, Ternary::Neutral],
{
    let r = vec![Ternary::Positive, Ternary::Neutral, Ternary::Neutral, Ternary::Neutral, Ternary::Negative, Ternary::Neutral, Ternary::Neutral, Ternary::Neutral, Ternary::Positive, Ternary::Neutral, Ternary::Neutral, Ternary::Neutral, Ternary::Negative, Ternary::Neutral, Ternary::Neutral, Ternary::Neutral];
    assert(r@ =~= seq![Ternary::Positive, Ternary::Neutral, Ternary::Neutral, Ternary::Neutral, Ternary::Negative, Ternary::Neutral, Ternary::Neutral, Ternary::Neutral, Ternary::Positive, Ternary::Neutral, Ternary::Neutral, Ternary::Neutral, Ternary::Negative, Ternary::Neutral, Ternary::Neutral, Ternary::Neutral]);
    r
}

/// Waltz 3/4.
pub fn waltz() -> (r: Vec<Ternary>)
    ensures
        r@ == seq![Ternary::Positive, Ternary::Neutral, Ternary::Neutral, Ternary::Negative, Ternary::Neutral, Ternary::Neutral],
{
    let r = vec![Ternary::Positive, Ternary::Neutral, Ternary::Neutral, Ternary::Negative, Ternary::Neutral, Ternary::Neutral];
    assert(r@ =~= seq![Ternary::Positive, Ternary::Neutral, Ternary::Neutral, Ternary::Negative, Ternary::Neutral, Ternary::Neutral]);
    r
}

/// Shuffle 12/8.
pub fn shuffle() -> (r: Vec<Ternary>)
    ensures
        r@ == seq![Ternary::Positive, Ternary::Neutral, Ternary::Negative, Ternary::Neutral, Ternary::Positive, Ternary::Neutral, Ternary::Negative, Ternary::Neutral, Ternary::Negative, Ternary::Neutral, Ternary::Positive, Ternary::Neutral],
{
    let r = vec![Ternary::Positive, Ternary::Neutral, Ternary::Negative, Ternary::Neutral, Ternary::Positive, Ternary::Neutral, Ternary::Negative, Ternary::Neutral, Ternary::Negative, Ternary::Neutral, Ternary::Positive, Ternary::Neutral];
    assert(r@ =~= seq![Ternary::Positive, Ternary::Neutral, Ternary::Negative, Ternary::Neutral, Ternary::Positive, Ternary::Neutral, Ternary::Negative, Ternary::Neutral, Ternary::Negative, Ternary::Neutral, Ternary::Positive, Ternary::Neutral]);
    r
}

/// Bossa nova clave.
pub fn bossa_nova() -> (r: Vec<Ternary>)
    ensures
        r@ == seq![Ternary::Positive, Ternary::Neutral, Ternary::Negative, Ternary::Positive, Ternary::Neutral, Ternary::Negative, Ternary::Positive, Ternary::Neutral],
{
    let r = vec![Ternary::Positive, Ternary::Neutral, Ternary::Negative, Ternary::Positive, Ternary::Neutral, Ternary::Negative, Ternary::Positive, Ternary::Neutral];
    assert(r@ =~= seq![Ternary::Positive, Ternary::Neutral, Ternary::Negative, Ternary::Positive, Ternary::Neutral, Ternary::Negative, Ternary::Positive, Ternary::Neutral]);
    r
}

/// Latin tresillo.
pub fn tresillo() -> (r: Vec<Ternary>)
    ensures
        r@ == seq![Ternary::Positive, Ternary::Neutral, Ternary::Neutral, Ternary::Positive, Ternary::Neutral, Ternary::Neutral, Ternary::Positive, Ternary::Neutral],
{
    let r = vec![Ternary::Positive, Ternary::Neutral, Ternary::Neutral, Ternary::Positive, Ternary::Neutral, Ternary::Neutral, Ternary::Positive, Ternary::Neutral];
    assert(r@ =~= seq![Ternary::Positive, Ternary::Neutral, Ternary::Neutral, Ternary::Positive, Ternary::Neutral, Ternary::Neutral, Ternary::Positive, Ternary::Neutral]);
    r
}

/// Funky drum break.
pub fn funk() -> (r: Vec<Ternary>)
    ensures
        r@ == seq![Ternary::Positive, Ternary::Negative, Ternary::Neutral, Ternary::Negative, Ternary::Positive, Ternary::Neutral, Ternary::Negative, Ternary::Negative, Ternary::Positive, Ternary::Negative, Ternary::Positive, Ternary::Neutral, Ternary::Negative, Ternary::Neutral, Ternary::Positive, Ternary::Negative],
{
    let r = vec![Ternary::Positive, Ternary::Negative, Ternary::Neutral, Ternary::Negative, Ternary::Positive, Ternary::Neutral, Ternary::Negative, Ternary::Negative, Ternary::Positive, Ternary::Negative, Ternary::Positive, Ternary::Neutral, Ternary::Negative, Ternary::Neutral, Ternary::Positive, Ternary::Negative];
    assert(r@ =~= seq![Ternary::Positive, Ternary::Negative, Ternary::Neutral, Ternary::Negative, Ternary::Positive, Ternary::Neutral, Ternary::Negative, Ternary::Negative, Ternary::Positive, Ternary::Negative, Ternary::Positive, Ternary::Neutral, Ternary::Negative, Ternary::Neutral, Ternary::Positive, Ternary::Negative]);
    r
}

/// Minimal techno.
pub fn techno() -> (r: Vec<Ternary>)
    ensures
        r@ == seq![Ternary::Positive, Ternary::Neutral, Ternary::Neutral, Ternary::Neutral, Ternary::Neutral, Ternary::Neutral, Ternary::Neutral, Ternary::Neutral, Ternary::Negative, Ternary::Neutral, Ternary::Neutral, Ternary::Neutral, Ternary::Neutral, Ternary::Neutral, Ternary::Neutral, Ternary::Neutral],
{
    let r = vec![Ternary::Positive, Ternary::Neutral, Ternary::Neutral, Ternary::Neutral, Ternary::Neutral, Ternary::Neutral, Ternary::Neutral, Ternary::Neutral, Ternary::Negative, Ternary::Neutral, Ternary::Neutral, Ternary::Neutral, Ternary::Neutral, Ternary::Neutral, Ternary::Neutral, Ternary::Neutral];
    assert(r@ =~= seq![Ternary::Positive, Ternary::Neutral, Ternary::Neutral, Ternary::Neutral, Ternary::Neutral, Ternary::Neutral, Ternary::Neutral, Ternary::Neutral, Ternary::Negative, Ternary::Neutral, Ternary::Neutral, Ternary::Neutral, Ternary::Neutral, Ternary::Neutral, Ternary::Neutral, Ternary::Neutral]);
    r
}

/// 5/4 time.
pub fn five_four() -> (r: Vec<Ternary>)
    ensures
        r@ == seq![Ternary::Positive, Ternary::Neutral, Ternary::Neutral, Ternary::Neutral, Ternary::Neutral, Ternary::Negative, Ternary::Neutral, Ternary::Neutral, Ternary::Neutral, Ternary::Neutral],
{
    let r = vec![Ternary::Positive, Ternary::Neutral, Ternary::Neutral, Ternary::Neutral, Ternary::Neutral, Ternary::Negative, Ternary::Neutral, Ternary::Neutral, Ternary::Neutral, Ternary::Neutral];
    assert(r@ =~= seq![Ternary::Positive, Ternary::Neutral, Ternary::Neutral, Ternary::Neutral, Ternary::Neutral, Ternary::Negative, Ternary::Neutral, Ternary::Neutral, Ternary::Neutral, Ternary::Neutral]);
    r
}

/// 7/8 Balkan rhythm.
pub fn balkan_seven() -> (r: Vec<Ternary>)
    ensures
        r@ == seq![Ternary::Positive, Ternary::Neutral, Ternary::Negative, Ternary::Neutral, Ternary::Negative, Ternary::Neutral, Ternary::Neutral],
{
    let r = vec![Ternary::Positive, Ternary::Neutral, Ternary::Negative, Ternary::Neutral, Ternary::Negative, Ternary::Neutral, Ternary::Neutral];
    assert(r@ =~= seq![Ternary::Positive, Ternary::Neutral, Ternary::Negative, Ternary::Neutral, Ternary::Negative, Ternary::Neutral, Ternary::Neutral]);
    r
}

/// Afro-Cuban 6/8 bell.
pub fn afro_cuban_six_eight() -> (r: Vec<Ternary>)
    ensures
        r@ == seq![Ternary::Positive, Ternary::Neutral, Ternary::Neutral, Ternary::Negative, Ternary::Neutral, Ternary::Negative, Ternary::Neutral, Ternary::Neutral, Ternary::Positive, Ternary::Neutral, Ternary::Neutral, Ternary::Negative],
{
    let r = vec![Ternary::Positive, Ternary::Neutral, Ternary::Neutral, Ternary::Negative, Ternary::Neutral, Ternary::Negative, Ternary::Neutral, Ternary::Neutral, Ternary::Positive, Ternary::Neutral, Ternary::Neutral, Ternary::Negative];
    assert(r@ =~= seq![Ternary::Positive, Ternary::Neutral, Ternary::Neutral, Ternary::Negative, Ternary::Neutral, Ternary::Negative, Ternary::Neutral, Ternary::Neutral, Ternary::Positive, Ternary::Neutral, Ternary::Neutral, Ternary::Negative]);
    r
}

} // verus!
