use vstd::prelude::*;
use vstd::arithmetic::div_mod::{
    lemma_fundamental_div_mod, lemma_fundamental_div_mod_converse_mod, lemma_mod_multiples_vanish,
};

use crate::rhythm::{lemma_ticks_wrap, position_after, Rhythm};
use crate::ternary::Ternary;

verus! {

/// Greatest common divisor by Euclid's algorithm.
pub open spec fn gcd_spec(a: nat, b: nat) -> nat
    decreases b,
{
    if b == 0 {
        a
    } else {
        gcd_spec(b, a % b)
    }
}

/// Least common multiple: `a / gcd(a, b) * b`, and 0 when either is 0.
pub open spec fn lcm_spec(a: nat, b: nat) -> nat {
    if a == 0 || b == 0 {
        0
    } else {
        (a / gcd_spec(a, b)) * b
    }
}

/// The full cycle of voices with lengths `lens`: the least common multiple of the
/// first length and the next ones, folded from left to right (0 for no voices).
pub open spec fn cycle_spec(lens: Seq<nat>) -> nat
    decreases lens.len(),
{
    if lens.len() == 0 {
        0
    } else if lens.len() == 1 {
        lens[0]
    } else {
        lcm_spec(cycle_spec(lens.drop_last()), lens.last())
    }
}

/// `g` divides both parts, so it divides `b * q + r`.
proof fn lemma_divides_combination(g: int, b: int, q: int, r: int)
    requires
        g > 0,
        b % g == 0,
        r % g == 0,
    ensures
        (b * q + r) % g == 0,
{
    lemma_fundamental_div_mod(b, g);
    lemma_fundamental_div_mod(r, g);
    let x = b / g;
    let y = r / g;
    assert(b * q + r == g * (x * q + y) + 0) by (nonlinear_arith)
        requires
            b == g * x,
            r == g * y,
    ;
    lemma_mod_multiples_vanish(x * q + y, 0, g);
}

/// The greatest common divisor divides both numbers, and is 0 only when both are.
pub proof fn lemma_gcd_divides(a: nat, b: nat)
    ensures
        (a > 0 || b > 0) ==> gcd_spec(a, b) > 0,
        gcd_spec(a, b) > 0 ==> a % gcd_spec(a, b) == 0 && b % gcd_spec(a, b) == 0,
        a == 0 && b == 0 ==> gcd_spec(a, b) == 0,
    decreases b,
{
    if b == 0 {
        if a > 0 {
            lemma_mod_multiples_vanish(1, 0, a as int);
            lemma_mod_multiples_vanish(0, 0, a as int);
        }
    } else {
        let r = a % b;
        lemma_gcd_divides(b, r);
        let g = gcd_spec(b, r);
        lemma_fundamental_div_mod(a as int, b as int);
        assert(a == b * (a / b) + r);
        lemma_divides_combination(g as int, b as int, (a / b) as int, r as int);
    }
}

/// The least common multiple of two positive numbers is a positive multiple of both.
pub proof fn lemma_lcm_multiple(a: nat, b: nat)
    requires
        a > 0,
        b > 0,
    ensures
        lcm_spec(a, b) > 0,
        lcm_spec(a, b) % a == 0,
        lcm_spec(a, b) % b == 0,
{
    lemma_gcd_divides(a, b);
    let g = gcd_spec(a, b);
    lemma_fundamental_div_mod(a as int, g as int);
    lemma_fundamental_div_mod(b as int, g as int);
    let x = a / g;
    let y = b / g;
    assert(x > 0 && x * b > 0 && x * b == a * y) by (nonlinear_arith)
        requires
            a == g * x,
            b == g * y,
            a > 0,
            b > 0,
            g > 0,
    ;
    lemma_mod_multiples_vanish(x as int, 0, b as int);
    assert(b * x == x * b) by (nonlinear_arith);
    lemma_mod_multiples_vanish(y as int, 0, a as int);
}

/// Divisibility carries along multiples: if `a` divides `m` and `m` divides `l`, `a` divides `l`.
proof fn lemma_divides_transitive(a: int, m: int, l: int)
    requires
        a > 0,
        m > 0,
        m % a == 0,
        l % m == 0,
    ensures
        l % a == 0,
{
    lemma_fundamental_div_mod(l, m);
    lemma_fundamental_div_mod(m, a);
    let u = l / m;
    let v = m / a;
    assert(l == a * (v * u) + 0) by (nonlinear_arith)
        requires
            l == m * u,
            m == a * v,
    ;
    lemma_mod_multiples_vanish(v * u, 0, a);
}

/// The full cycle of voices of positive lengths is positive and a multiple of every length.
pub proof fn lemma_cycle_common_multiple(lens: Seq<nat>)
    requires
        lens.len() > 0,
        forall|i: int| 0 <= i < lens.len() ==> lens[i] > 0,
    ensures
        cycle_spec(lens) > 0,
        forall|i: int| 0 <= i < lens.len() ==> cycle_spec(lens) % #[trigger] lens[i] == 0,
    decreases lens.len(),
{
    if lens.len() == 1 {
        lemma_mod_multiples_vanish(1, 0, lens[0] as int);
    } else {
        let prefix = lens.drop_last();
        lemma_cycle_common_multiple(prefix);
        let c = cycle_spec(prefix);
        lemma_lcm_multiple(c, lens.last());
        assert forall|i: int| 0 <= i < lens.len() implies cycle_spec(lens) % #[trigger] lens[i]
            == 0 by {
            if i < lens.len() - 1 {
                assert(prefix[i] == lens[i]);
                lemma_divides_transitive(lens[i] as int, c as int, cycle_spec(lens) as int);
            }
        }
    }
}

/// Scaling both arguments scales the greatest common divisor: `gcd(x*k, y*k) == k * gcd(x, y)`.
proof fn lemma_gcd_scale(x: nat, y: nat, k: nat)
    ensures
        gcd_spec(x * k, y * k) == k * gcd_spec(x, y),
    decreases y,
{
    if k == 0 {
        assert(x * k == 0 && y * k == 0 && k * gcd_spec(x, y) == 0) by (nonlinear_arith)
            requires
                k == 0,
        ;
    } else if y == 0 {
        assert(y * k == 0 && x * k == k * x) by (nonlinear_arith)
            requires
                y == 0,
        ;
    } else {
        let q = x / y;
        let r = x % y;
        lemma_fundamental_div_mod(x as int, y as int);
        assert(x * k == q * (y * k) + r * k && 0 <= r * k < y * k && y * k > 0) by (nonlinear_arith)
            requires
                x == y * q + r,
                0 <= r < y,
                k > 0,
        ;
        lemma_fundamental_div_mod_converse_mod((x * k) as int, (y * k) as int, q as int, (r * k) as int);
        assert((x * k) % (y * k) == r * k);
        lemma_gcd_scale(y, r, k);
    }
}

/// Every common divisor of two numbers divides their greatest common divisor.
proof fn lemma_common_divisor_divides_gcd(d: nat, a: nat, b: nat)
    requires
        d > 0,
        a % d == 0,
        b % d == 0,
    ensures
        gcd_spec(a, b) % d == 0,
    decreases b,
{
    if b > 0 {
        lemma_fundamental_div_mod(a as int, b as int);
        let q = a / b;
        let r = a % b;
        assert(r == b * (-q) + a) by (nonlinear_arith)
            requires
                a == b * q + r,
        ;
        lemma_divides_combination(d as int, b as int, -q, a as int);
        lemma_common_divisor_divides_gcd(d, b, a % b);
    }
}

/// The least common multiple divides every common multiple of two positive numbers.
pub proof fn lemma_lcm_least(a: nat, b: nat, m: nat)
    requires
        a > 0,
        b > 0,
        m % a == 0,
        m % b == 0,
    ensures
        m % lcm_spec(a, b) == 0,
{
    lemma_gcd_divides(a, b);
    lemma_lcm_multiple(a, b);
    let g = gcd_spec(a, b);
    lemma_fundamental_div_mod(a as int, g as int);
    lemma_fundamental_div_mod(b as int, g as int);
    lemma_fundamental_div_mod(m as int, a as int);
    let x = a / g;
    let y = b / g;
    let k = m / a;
    assert(a == x * g && b == y * g && x > 0 && y > 0) by (nonlinear_arith)
        requires
            a == g * x,
            b == g * y,
            a > 0,
            b > 0,
            g > 0,
    ;
    // gcd(x, y) == 1
    lemma_gcd_scale(x, y, g);
    assert(g * gcd_spec(x, y) == g * 1) by (nonlinear_arith)
        requires
            g * gcd_spec(x, y) == g,
    ;
    assert(gcd_spec(x, y) == 1) by (nonlinear_arith)
        requires
            g * gcd_spec(x, y) == g * 1,
            g > 0,
    ;
    // y divides x * k, since b = g * y divides m = g * (x * k)
    assert(m == (x * k) * g) by (nonlinear_arith)
        requires
            m == a * k,
            a == x * g,
    ;
    lemma_fundamental_div_mod(m as int, b as int);
    let t = m / b;
    assert((x * k) == y * t) by (nonlinear_arith)
        requires
            m == (x * k) * g,
            m == b * t,
            b == y * g,
            g > 0,
    ;
    lemma_mod_multiples_vanish(t as int, 0, y as int);
    assert((x * k) % y == 0);
    assert((y * k) % y == 0) by {
        lemma_mod_multiples_vanish(k as int, 0, y as int);
    }
    // so y divides gcd(x * k, y * k) = k
    lemma_common_divisor_divides_gcd(y, x * k, y * k);
    lemma_gcd_scale(x, y, k);
    assert(k * gcd_spec(x, y) == k) by (nonlinear_arith)
        requires
            gcd_spec(x, y) == 1,
    ;
    assert(gcd_spec(x * k, y * k) == k);
    lemma_fundamental_div_mod(k as int, y as int);
    let u = k / y;
    // m = a * k = a * y * u = lcm * u
    assert(lcm_spec(a, b) == x * b);
    assert(m == (x * b) * u + 0) by (nonlinear_arith)
        requires
            m == a * k,
            k == y * u,
            a == x * g,
            b == y * g,
    ;
    lemma_mod_multiples_vanish(u as int, 0, (x * b) as int);
    assert((x * b) * u == u * (x * b)) by (nonlinear_arith);
}

/// The full cycle divides every common multiple of the voice lengths: it is the least
/// common multiple of all of them.
pub proof fn lemma_cycle_least(lens: Seq<nat>, m: nat)
    requires
        lens.len() > 0,
        forall|i: int| 0 <= i < lens.len() ==> lens[i] > 0,
        forall|i: int| 0 <= i < lens.len() ==> m % #[trigger] lens[i] == 0,
    ensures
        m % cycle_spec(lens) == 0,
    decreases lens.len(),
{
    if lens.len() > 1 {
        let prefix = lens.drop_last();
        assert forall|i: int| 0 <= i < prefix.len() implies m % #[trigger] prefix[i] == 0 by {
            assert(prefix[i] == lens[i]);
        }
        lemma_cycle_least(prefix, m);
        lemma_cycle_common_multiple(prefix);
        assert(m % lens[lens.len() - 1] == 0);
        lemma_lcm_least(cycle_spec(prefix), lens.last(), m);
    }
}

/// Greatest common divisor (Euclid's algorithm).
pub fn gcd(a: usize, b: usize) -> (r: usize)
    ensures
        r == gcd_spec(a as nat, b as nat),
{
    let mut x = a;
    let mut y = b;
    while y != 0
        invariant
            gcd_spec(x as nat, y as nat) == gcd_spec(a as nat, b as nat),
        decreases y,
    {
        let t = y;
        y = x % y;
        x = t;
    }
    x
}

/// Least common multiple (0 when either argument is 0).
pub fn lcm_value(a: usize, b: usize) -> (r: usize)
    requires
        lcm_spec(a as nat, b as nat) <= usize::MAX,
    ensures
        r == lcm_spec(a as nat, b as nat),
{
    if a == 0 || b == 0 {
        return 0;
    }
    proof {
        lemma_gcd_divides(a as nat, b as nat);
    }
    let g = gcd(a, b);
    a / g * b
}

/// Multiple simultaneous rhythm patterns.
#[derive(Debug)]
pub struct Polyrhythm {
    /// Individual rhythms.
    pub rhythms: Vec<Rhythm>,
}

impl Clone for Polyrhythm {
    fn clone(&self) -> (r: Self)
        ensures
            r.rhythms@.len() == self.rhythms@.len(),
            forall|i: int|
                0 <= i < r.rhythms@.len() ==> (#[trigger] r.rhythms@[i]).pattern@
                    == self.rhythms@[i].pattern@ && r.rhythms@[i].position
                    == self.rhythms@[i].position,
    {
        Polyrhythm { rhythms: crate::rhythm::copy_rhythms(&self.rhythms) }
    }
}

impl Polyrhythm {
    /// The lengths of the voices.
    pub open spec fn voice_lengths(&self) -> Seq<nat> {
        self.rhythms@.map_values(|r: Rhythm| r.pattern@.len())
    }

    /// Every voice has its position inside its pattern.
    pub open spec fn wf(&self) -> bool {
        forall|i: int| 0 <= i < self.rhythms@.len() ==> (#[trigger] self.rhythms@[i]).wf()
    }

    /// Folding the least common multiple over the voice lengths never leaves `usize`.
    pub open spec fn cycle_fits(&self) -> bool {
        forall|k: int|
            1 <= k <= self.rhythms@.len() ==> cycle_spec(#[trigger] self.voice_lengths().take(k))
                <= usize::MAX
    }

    /// Create a polyrhythm from individual rhythms.
    pub fn new(rhythms: Vec<Rhythm>) -> (r: Self)
        ensures
            r.rhythms@ == rhythms@,
    {
        Polyrhythm { rhythms }
    }

    /// Tick all rhythms and return their values, voice by voice.
    pub fn tick(&mut self) -> (r: Vec<Ternary>)
        requires
            old(self).wf(),
        ensures
            r@.len() == old(self).rhythms@.len(),
            final(self).rhythms@.len() == old(self).rhythms@.len(),
            forall|i: int|
                0 <= i < r@.len() ==> {
                    &&& r@[i] == (#[trigger] old(self).rhythms@[i]).value_at_position()
                    &&& final(self).rhythms@[i].pattern@ == old(self).rhythms@[i].pattern@
                    &&& final(self).rhythms@[i].position == old(self).rhythms@[i].next_position()
                },
            final(self).wf(),
    {
        let mut out: Vec<Ternary> = Vec::new();
        let n = self.rhythms.len();
        let mut i: usize = 0;
        while i < n
            invariant
                n == old(self).rhythms@.len(),
                self.rhythms@.len() == n,
                i <= n,
                out@.len() == i,
                forall|j: int|
                    0 <= j < i ==> {
                        &&& out@[j] == (#[trigger] old(self).rhythms@[j]).value_at_position()
                        &&& self.rhythms@[j].pattern@ == old(self).rhythms@[j].pattern@
                        &&& self.rhythms@[j].position == old(self).rhythms@[j].next_position()
                        &&& self.rhythms@[j].wf()
                    },
                forall|j: int| i <= j < n ==> self.rhythms@[j] == old(self).rhythms@[j],
                old(self).wf(),
            decreases n - i,
        {
            let v = self.rhythms[i].tick();
            out.push(v);
            i = i + 1;
        }
        assert forall|j: int| 0 <= j < self.rhythms@.len() implies (
        #[trigger] self.rhythms@[j]).wf() by {
            assert(old(self).rhythms@[j].value_at_position() == out@[j]);
        }
        out
    }

    /// The full cycle length: least common multiple of all rhythm lengths (0 for none).
    pub fn cycle_length(&self) -> (r: usize)
        requires
            self.cycle_fits(),
        ensures
            r == cycle_spec(self.voice_lengths()),
    {
        let n = self.rhythms.len();
        if n == 0 {
            return 0;
        }
        let mut lcm = self.rhythms[0].len();
        assert(self.voice_lengths().take(1) =~= seq![self.voice_lengths()[0]]);
        let mut i: usize = 1;
        while i < n
            invariant
                n == self.rhythms@.len(),
                1 <= i <= n,
                self.cycle_fits(),
                lcm == cycle_spec(self.voice_lengths().take(i as int)),
            decreases n - i,
        {
            let len = self.rhythms[i].len();
            assert(self.voice_lengths().take(i + 1).drop_last() =~= self.voice_lengths().take(
                i as int,
            ));
            assert(self.voice_lengths().take(i + 1).last() == len);
            assert(cycle_spec(self.voice_lengths().take(i + 1)) <= usize::MAX);
            lcm = lcm_value(lcm, len);
            i = i + 1;
        }
        assert(self.voice_lengths().take(n as int) =~= self.voice_lengths());
        lcm
    }

    /// Number of rhythms (voices).
    pub fn voice_count(&self) -> (r: usize)
        ensures
            r == self.rhythms@.len(),
    {
        self.rhythms.len()
    }

    /// Reset all rhythms to their start.
    pub fn reset(&mut self)
        ensures
            final(self).rhythms@.len() == old(self).rhythms@.len(),
            forall|i: int|
                0 <= i < final(self).rhythms@.len() ==> {
                    &&& (#[trigger] final(self).rhythms@[i]).pattern@
                        == old(self).rhythms@[i].pattern@
                    &&& final(self).rhythms@[i].position == 0
                },
            final(self).wf(),
    {
        let n = self.rhythms.len();
        let mut i: usize = 0;
        while i < n
            invariant
                n == old(self).rhythms@.len(),
                self.rhythms@.len() == n,
                i <= n,
                forall|j: int|
                    0 <= j < i ==> {
                        &&& (#[trigger] self.rhythms@[j]).pattern@ == old(self).rhythms@[j].pattern@
                        &&& self.rhythms@[j].position == 0
                    },
                forall|j: int| i <= j < n ==> self.rhythms@[j] == old(self).rhythms@[j],
            decreases n - i,
        {
            self.rhythms[i].reset();
            i = i + 1;
        }
    }
}

/// After as many ticks as the full cycle, every voice of a polyrhythm is back where it
/// started: the cycle length is a positive multiple of every voice length, so each voice
/// wraps around a whole number of times.
pub proof fn lemma_cycle_realigns(p: Polyrhythm)
    requires
        p.rhythms@.len() > 0,
        p.wf(),
        forall|i: int| 0 <= i < p.rhythms@.len() ==> (#[trigger] p.rhythms@[i]).pattern@.len() > 0,
    ensures
        cycle_spec(p.voice_lengths()) > 0,
        forall|i: int|
            0 <= i < p.rhythms@.len() ==> cycle_spec(p.voice_lengths()) % (
            #[trigger] p.rhythms@[i]).pattern@.len() == 0,
        forall|i: int|
            0 <= i < p.rhythms@.len() ==> position_after(
                (#[trigger] p.rhythms@[i]).pattern@.len(),
                p.rhythms@[i].position as nat,
                cycle_spec(p.voice_lengths()),
            ) == p.rhythms@[i].position,
{
    let lens = p.voice_lengths();
    assert forall|i: int| 0 <= i < lens.len() implies lens[i] > 0 by {
        assert(lens[i] == p.rhythms@[i].pattern@.len());
    }
    lemma_cycle_common_multiple(lens);
    let c = cycle_spec(lens);
    assert forall|i: int| 0 <= i < p.rhythms@.len() implies c % (
    #[trigger] p.rhythms@[i]).pattern@.len() == 0 && position_after(
        p.rhythms@[i].pattern@.len(),
        p.rhythms@[i].position as nat,
        c,
    ) == p.rhythms@[i].position by {
        let len = p.rhythms@[i].pattern@.len();
        let pos = p.rhythms@[i].position as nat;
        assert(lens[i] == len);
        assert(p.rhythms@[i].wf());
        lemma_ticks_wrap(len, pos, c);
        lemma_fundamental_div_mod(c as int, len as int);
        lemma_mod_multiples_vanish((c / len) as int, pos as int, len as int);
        vstd::arithmetic::div_mod::lemma_small_mod(pos, len);
    }
}

} // verus!
