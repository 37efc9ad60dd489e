use vstd::prelude::*;

use crate::rhythm::Rhythm;
use crate::ternary::{lcg_next, lcg_step, ternary_of_state, Ternary, TernaryExt};

verus! {

/// Evolve rhythmic patterns through mutation and selection (a genetic algorithm).
#[derive(Debug)]
pub struct RhythmEvolver {
    /// Population of rhythms.
    pub population: Vec<Rhythm>,
    /// Mutation rate (per thousand, per position).
    pub mutation_rate: u32,
    /// Generator state.
    pub seed: u64,
}

/// Mutating a pattern position by position: each step advances the generator; when
/// the state modulo 1000 falls below the rate, the position gets the random value
/// that the next state selects (advancing the generator once more).
/// The result is the new pattern and the final generator state.
pub open spec fn mutate_pattern(s: Seq<Ternary>, seed: u64, rate: u32) -> (Seq<Ternary>, u64)
    decreases s.len(),
{
    if s.len() == 0 {
        (Seq::empty(), seed)
    } else {
        let (prev, sd) = mutate_pattern(s.drop_last(), seed, rate);
        let s1 = lcg_next(sd);
        if s1 % 1000 < rate {
            let s2 = lcg_next(s1);
            (prev.push(ternary_of_state(s2)), s2)
        } else {
            (prev.push(s.last()), s1)
        }
    }
}

/// The child of two patterns: the first half of the shorter length from `a`, the rest
/// of that length from `b`.
pub open spec fn crossover_spec(a: Seq<Ternary>, b: Seq<Ternary>) -> Seq<Ternary> {
    let len = if a.len() < b.len() { a.len() } else { b.len() };
    let mid = len / 2;
    a.subrange(0, mid as int) + b.subrange(mid as int, len as int)
}

/// The patterns of a population.
pub open spec fn patterns_of(pop: Seq<Rhythm>) -> Seq<Seq<Ternary>> {
    pop.map_values(|r: Rhythm| r.pattern@)
}

/// The first `count` children bred from the survivors: for each child, the generator
/// state picks the first parent, advances once, and picks the second parent.
pub open spec fn breed_children(
    pats: Seq<Seq<Ternary>>,
    survivors: Seq<usize>,
    seed: u64,
    count: nat,
) -> (Seq<Seq<Ternary>>, u64)
    decreases count,
{
    if count == 0 {
        (Seq::empty(), seed)
    } else {
        let (prev, sd) = breed_children(pats, survivors, seed, (count - 1) as nat);
        let p1 = survivors[((sd as usize) % (survivors.len() as usize)) as int];
        let s1 = lcg_next(sd);
        let p2 = survivors[((s1 as usize) % (survivors.len() as usize)) as int];
        (prev.push(crossover_spec(pats[p1 as int], pats[p2 as int])), s1)
    }
}

/// The first `k` patterns mutated in turn, the generator state carried from one to the next.
pub open spec fn mutate_all(pats: Seq<Seq<Ternary>>, seed: u64, rate: u32, k: nat) -> (
    Seq<Seq<Ternary>>,
    u64,
)
    decreases k,
{
    if k == 0 {
        (pats, seed)
    } else {
        let (prev, sd) = mutate_all(pats, seed, rate, (k - 1) as nat);
        let (m, s2) = mutate_pattern(prev[k - 1], sd, rate);
        (prev.update(k - 1, m), s2)
    }
}

/// One generation bred from a population, given the ranking of its members from best to
/// worst: the better half survives unchanged, children of random pairs of survivors fill
/// the population back to its size, and then every member is mutated in turn. The
/// result is the new patterns and the final generator state.
pub open spec fn breed_spec(pop: Seq<Rhythm>, ranking: Seq<usize>, seed: u64, rate: u32) -> (
    Seq<Seq<Ternary>>,
    u64,
) {
    let n = pop.len();
    let keep = n / 2;
    let survivors = ranking.subrange(0, keep as int);
    let pats = patterns_of(pop);
    let kept = survivors.map_values(|i: usize| pats[i as int]);
    let (children, s1) = breed_children(pats, survivors, seed, (n - keep) as nat);
    mutate_all(kept + children, s1, rate, n)
}

/// The child of a crossover is as long as the shorter parent; its first half comes from
/// the first parent and the rest from the second.
pub proof fn lemma_crossover(a: Seq<Ternary>, b: Seq<Ternary>)
    ensures
        crossover_spec(a, b).len() == if a.len() < b.len() { a.len() } else { b.len() },
        forall|i: int|
            0 <= i < crossover_spec(a, b).len() ==> #[trigger] crossover_spec(a, b)[i] == if i
                < crossover_spec(a, b).len() / 2 {
                a[i]
            } else {
                b[i]
            },
{
}

pub proof fn lemma_breed_children_len(
    pats: Seq<Seq<Ternary>>,
    survivors: Seq<usize>,
    seed: u64,
    count: nat,
)
    ensures
        breed_children(pats, survivors, seed, count).0.len() == count,
    decreases count,
{
    if count > 0 {
        lemma_breed_children_len(pats, survivors, seed, (count - 1) as nat);
    }
}

pub proof fn lemma_mutate_pattern_len(s: Seq<Ternary>, seed: u64, rate: u32)
    ensures
        mutate_pattern(s, seed, rate).0.len() == s.len(),
    decreases s.len(),
{
    if s.len() > 0 {
        lemma_mutate_pattern_len(s.drop_last(), seed, rate);
    }
}

/// With a mutation rate of zero, mutation leaves a pattern as it was.
pub proof fn lemma_mutate_rate_zero(s: Seq<Ternary>, seed: u64)
    ensures
        mutate_pattern(s, seed, 0).0 == s,
    decreases s.len(),
{
    if s.len() > 0 {
        lemma_mutate_rate_zero(s.drop_last(), seed);
        assert(s.drop_last().push(s.last()) =~= s);
    }
}

proof fn lemma_mutate_all_rate_zero(pats: Seq<Seq<Ternary>>, seed: u64, k: nat)
    requires
        k <= pats.len(),
    ensures
        mutate_all(pats, seed, 0, k).0 == pats,
    decreases k,
{
    if k > 0 {
        lemma_mutate_all_rate_zero(pats, seed, (k - 1) as nat);
        let (prev, sd) = mutate_all(pats, seed, 0, (k - 1) as nat);
        lemma_mutate_rate_zero(prev[k - 1], sd);
        assert(prev.update(k - 1, prev[k - 1]) =~= prev);
    }
}

/// Every child is the crossover of two survivors.
proof fn lemma_child_of_survivors(
    pats: Seq<Seq<Ternary>>,
    survivors: Seq<usize>,
    seed: u64,
    count: nat,
    c: int,
) -> (xy: (int, int))
    requires
        0 < survivors.len() <= usize::MAX,
        0 <= c < count,
    ensures
        0 <= xy.0 < survivors.len(),
        0 <= xy.1 < survivors.len(),
        breed_children(pats, survivors, seed, count).0[c] == crossover_spec(
            pats[survivors[xy.0] as int],
            pats[survivors[xy.1] as int],
        ),
    decreases count,
{
    let c1 = (count - 1) as nat;
    lemma_breed_children_len(pats, survivors, seed, c1);
    let (prev, sd) = breed_children(pats, survivors, seed, c1);
    if c < c1 {
        lemma_child_of_survivors(pats, survivors, seed, c1, c)
    } else {
        let m = survivors.len() as usize;
        assert(m as int == survivors.len());
        let x = ((sd as usize) % m) as int;
        let y = ((lcg_next(sd) as usize) % m) as int;
        assert(breed_children(pats, survivors, seed, count).0 == prev.push(
            crossover_spec(pats[survivors[x] as int], pats[survivors[y] as int]),
        ));
        (x, y)
    }
}

/// Without mutation, one generation keeps the fitter half as ranked, in ranking order,
/// and fills the rest of the population with crossovers of two of those survivors.
pub proof fn lemma_breed_selection(pop: Seq<Rhythm>, ranking: Seq<usize>, seed: u64)
    requires
        2 <= pop.len() <= usize::MAX,
        ranking.len() >= pop.len() / 2,
        forall|i: int| 0 <= i < pop.len() / 2 ==> #[trigger] ranking[i] < pop.len(),
    ensures
        breed_spec(pop, ranking, seed, 0).0.len() == pop.len(),
        forall|i: int|
            0 <= i < pop.len() / 2 ==> #[trigger] breed_spec(pop, ranking, seed, 0).0[i]
                == pop[ranking[i] as int].pattern@,
        forall|i: int|
            pop.len() / 2 <= i < pop.len() ==> exists|x: int, y: int|
                0 <= x < pop.len() / 2 && 0 <= y < pop.len() / 2 && #[trigger] breed_spec(
                    pop,
                    ranking,
                    seed,
                    0,
                ).0[i] == crossover_spec(
                    pop[ranking[x] as int].pattern@,
                    pop[ranking[y] as int].pattern@,
                ),
{
    let n = pop.len();
    let keep = n / 2;
    let survivors = ranking.subrange(0, keep as int);
    let pats = patterns_of(pop);
    let kept = survivors.map_values(|i: usize| pats[i as int]);
    let (children, s1) = breed_children(pats, survivors, seed, (n - keep) as nat);
    lemma_breed_children_len(pats, survivors, seed, (n - keep) as nat);
    lemma_mutate_all_rate_zero(kept + children, s1, n);
    let out = breed_spec(pop, ranking, seed, 0).0;
    assert(out == kept + children);
    assert forall|i: int| 0 <= i < keep implies #[trigger] out[i] == pop[ranking[i] as int].pattern@ by {
        assert(out[i] == kept[i]);
    }
    assert forall|i: int| keep <= i < n implies exists|x: int, y: int|
        0 <= x < keep && 0 <= y < keep && #[trigger] out[i] == crossover_spec(
            pop[ranking[x] as int].pattern@,
            pop[ranking[y] as int].pattern@,
        ) by {
        assert(out[i] == children[i - keep]);
        let (x, y) = lemma_child_of_survivors(pats, survivors, seed, (n - keep) as nat, i - keep);
        assert(out[i] == crossover_spec(
            pop[ranking[x] as int].pattern@,
            pop[ranking[y] as int].pattern@,
        ));
    }
}

impl Clone for RhythmEvolver {
    fn clone(&self) -> (r: Self)
        ensures
            r.population@.len() == self.population@.len(),
            forall|i: int|
                0 <= i < r.population@.len() ==> (#[trigger] r.population@[i]).pattern@
                    == self.population@[i].pattern@ && r.population@[i].position
                    == self.population@[i].position,
            r.mutation_rate == self.mutation_rate,
            r.seed == self.seed,
    {
        RhythmEvolver {
            population: crate::rhythm::copy_rhythms(&self.population),
            mutation_rate: self.mutation_rate,
            seed: self.seed,
        }
    }
}

impl RhythmEvolver {
    /// Create an evolver with an initial population.
    pub fn new(population: Vec<Rhythm>, mutation_rate: u32, seed: u64) -> (r: Self)
        ensures
            r.population@ == population@,
            r.mutation_rate == mutation_rate,
            r.seed == seed,
    {
        RhythmEvolver { population, mutation_rate, seed }
    }

    /// Mutate the rhythm at `idx` in place (nothing happens for an index past the end).
    pub fn mutate(&mut self, idx: usize)
        ensures
            final(self).mutation_rate == old(self).mutation_rate,
            final(self).population@.len() == old(self).population@.len(),
            idx >= old(self).population@.len() ==> final(self).population@ == old(self).population@ && final(self).seed == old(self).seed,
            idx < old(self).population@.len() ==> {
                &&& final(self).population@[idx as int].pattern@ == mutate_pattern(
                    old(self).population@[idx as int].pattern@,
                    old(self).seed,
                    old(self).mutation_rate,
                ).0
                &&& final(self).population@[idx as int].position == old(self).population@[idx as int].position
                &&& final(self).seed == mutate_pattern(
                    old(self).population@[idx as int].pattern@,
                    old(self).seed,
                    old(self).mutation_rate,
                ).1
                &&& forall|j: int|
                    0 <= j < old(self).population@.len() && j != idx ==> final(self).population@[j] == old(self).population@[j]
            },
            idx < old(self).population@.len() && old(self).mutation_rate == 0
                ==> final(self).population@[idx as int].pattern@
                == old(self).population@[idx as int].pattern@,
    {
        proof {
            if idx < self.population@.len() {
                lemma_mutate_rate_zero(self.population@[idx as int].pattern@, self.seed);
            }
        }
        if idx >= self.population.len() {
            return;
        }
        let rate = self.mutation_rate;
        let mut seed = self.seed;
        let position = self.population[idx].position;
        let mut out: Vec<Ternary> = Vec::new();
        {
            let pattern = &self.population[idx].pattern;
            let n = pattern.len();
            let mut i: usize = 0;
            while i < n
                invariant
                    n == pattern@.len(),
                    i <= n,
                    (out@, seed) == mutate_pattern(pattern@.subrange(0, i as int), old(self).seed, rate),
                decreases n - i,
            {
                assert(pattern@.subrange(0, i + 1).drop_last() =~= pattern@.subrange(0, i as int));
                seed = lcg_step(seed);
                if seed % 1000 < rate as u64 {
                    let v = Ternary::random(&mut seed);
                    out.push(v);
                } else {
                    out.push(pattern[i]);
                }
                i = i + 1;
            }
            assert(pattern@.subrange(0, n as int) =~= pattern@);
        }
        self.seed = seed;
        self.population.set(idx, Rhythm { pattern: out, position });
    }

    /// One generation, given the ranking of the population from fittest to least fit
    /// (indices into the population): keep the fitter half, breed children of random
    /// pairs of survivors until the population has its former size, then mutate every
    /// member in turn.
    pub fn breed(&mut self, ranking: &[usize])
        requires
            old(self).population@.len() >= 2,
            ranking@.len() >= old(self).population@.len() / 2,
            forall|i: int|
                0 <= i < old(self).population@.len() / 2 ==> #[trigger] ranking@[i] < old(self).population@.len(),
        ensures
            final(self).population@.len() == old(self).population@.len(),
            final(self).mutation_rate == old(self).mutation_rate,
            patterns_of(final(self).population@) == breed_spec(
                old(self).population@,
                ranking@,
                old(self).seed,
                old(self).mutation_rate,
            ).0,
            final(self).seed == breed_spec(
                old(self).population@,
                ranking@,
                old(self).seed,
                old(self).mutation_rate,
            ).1,
            forall|i: int|
                0 <= i < final(self).population@.len() ==> (#[trigger] final(self).population@[i]).position == if i < old(self).population@.len() / 2 {
                    old(self).population@[ranking@[i] as int].position
                } else {
                    0
                },
            old(self).mutation_rate == 0 ==> forall|i: int|
                0 <= i < old(self).population@.len() / 2 ==> (#[trigger] final(self).population@[i]).pattern@
                    == old(self).population@[ranking@[i] as int].pattern@,
    {
        let n = self.population.len();
        let keep = n / 2;
        let ghost pats = patterns_of(self.population@);
        let ghost survivors = ranking@.subrange(0, keep as int);
        let ghost kept = survivors.map_values(|i: usize| pats[i as int]);
        let ghost seed0 = self.seed;
        let mut new_pop: Vec<Rhythm> = Vec::new();
        let mut i: usize = 0;
        while i < keep
            invariant
                n == self.population@.len(),
                keep == n / 2,
                self.population@ == old(self).population@,
                pats == patterns_of(self.population@),
                survivors == ranking@.subrange(0, keep as int),
                kept == survivors.map_values(|i: usize| pats[i as int]),
                ranking@.len() >= keep,
                forall|j: int| 0 <= j < keep ==> #[trigger] ranking@[j] < n,
                i <= keep,
                new_pop@.len() == i,
                forall|j: int|
                    0 <= j < i ==> {
                        &&& (#[trigger] new_pop@[j]).pattern@ == kept[j]
                        &&& new_pop@[j].position == self.population@[ranking@[j] as int].position
                    },
            decreases keep - i,
        {
            let r = self.population[ranking[i]].clone();
            new_pop.push(r);
            i = i + 1;
        }
        while new_pop.len() < n
            invariant
                n == self.population@.len(),
                n >= 2,
                keep == n / 2,
                keep >= 1,
                self.population@ == old(self).population@,
                self.mutation_rate == old(self).mutation_rate,
                pats == patterns_of(self.population@),
                survivors == ranking@.subrange(0, keep as int),
                kept == survivors.map_values(|i: usize| pats[i as int]),
                ranking@.len() >= keep,
                forall|j: int| 0 <= j < keep ==> #[trigger] ranking@[j] < n,
                keep <= new_pop@.len() <= n,
                forall|j: int|
                    0 <= j < keep ==> {
                        &&& (#[trigger] new_pop@[j]).pattern@ == kept[j]
                        &&& new_pop@[j].position == self.population@[ranking@[j] as int].position
                    },
                forall|j: int| keep <= j < new_pop@.len() ==> (#[trigger] new_pop@[j]).position == 0,
                ({
                    let (children, s) = breed_children(
                        pats,
                        survivors,
                        seed0,
                        (new_pop@.len() - keep) as nat,
                    );
                    &&& s == self.seed
                    &&& children.len() == new_pop@.len() - keep
                    &&& forall|j: int|
                        0 <= j < children.len() ==> #[trigger] children[j] == new_pop@[keep
                            + j].pattern@
                }),
            decreases n - new_pop@.len(),
        {
            let ghost count = (new_pop@.len() - keep) as nat;
            let p1 = ranking[(self.seed as usize) % keep];
            self.seed = lcg_step(self.seed);
            let p2 = ranking[(self.seed as usize) % keep];
            let child = Self::crossover(&self.population[p1], &self.population[p2]);
            new_pop.push(child);
            proof {
                lemma_breed_children_len(pats, survivors, seed0, count);
                let (prev, sd) = breed_children(pats, survivors, seed0, count);
                assert(survivors[((sd as usize) % (survivors.len() as usize)) as int] == p1);
                assert(pats[p1 as int] == self.population@[p1 as int].pattern@);
                assert(pats[p2 as int] == self.population@[p2 as int].pattern@);
                assert((new_pop@.len() - keep) as nat == count + 1);
            }
        }
        let ghost (children, s1) = breed_children(pats, survivors, seed0, (n - keep) as nat);
        assert(patterns_of(new_pop@) =~= kept + children);
        self.population = new_pop;
        let ghost start = patterns_of(self.population@);
        let mut i: usize = 0;
        while i < n
            invariant
                n == self.population@.len(),
                keep == n / 2,
                self.mutation_rate == old(self).mutation_rate,
                start.len() == n,
                i <= n,
                patterns_of(self.population@) == mutate_all(start, s1, self.mutation_rate, i as nat).0,
                self.seed == mutate_all(start, s1, self.mutation_rate, i as nat).1,
                forall|j: int|
                    0 <= j < n ==> (#[trigger] self.population@[j]).position == if j < keep {
                        old(self).population@[ranking@[j] as int].position
                    } else {
                        0
                    },
            decreases n - i,
        {
            let ghost before = self.population@;
            self.mutate(i);
            proof {
                let prev = mutate_all(start, s1, self.mutation_rate, i as nat);
                assert(prev.0[i as int] == before[i as int].pattern@);
                assert(patterns_of(self.population@) =~= prev.0.update(
                    i as int,
                    mutate_pattern(prev.0[i as int], prev.1, self.mutation_rate).0,
                ));
            }
            i = i + 1;
        }
        proof {
            if old(self).mutation_rate == 0 {
                let out = breed_spec(old(self).population@, ranking@, old(self).seed, 0);
                assert(patterns_of(self.population@) == out.0);
                lemma_breed_selection(old(self).population@, ranking@, old(self).seed);
                assert forall|j: int| 0 <= j < keep implies (#[trigger] self.population@[j]).pattern@
                    == old(self).population@[ranking@[j] as int].pattern@ by {
                    assert(patterns_of(self.population@)[j] == self.population@[j].pattern@);
                }
            }
        }
    }

    /// Crossover of two rhythms: the child takes the first half (of the shorter length)
    /// from `a` and the rest of that length from `b`.
    pub fn crossover(a: &Rhythm, b: &Rhythm) -> (child: Rhythm)
        ensures
            child.pattern@ == crossover_spec(a.pattern@, b.pattern@),
            child.position == 0,
    {
        let len = if a.len() < b.len() { a.len() } else { b.len() };
        let mid = len / 2;
        let mut child: Vec<Ternary> = Vec::with_capacity(len);
        let mut i: usize = 0;
        while i < mid
            invariant
                mid <= len,
                len <= a.pattern@.len(),
                len <= b.pattern@.len(),
                i <= mid,
                child@ == a.pattern@.subrange(0, i as int),
            decreases mid - i,
        {
            child.push(a.pattern[i]);
            i = i + 1;
            assert(child@ =~= a.pattern@.subrange(0, i as int));
        }
        while i < len
            invariant
                mid <= i <= len,
                len <= a.pattern@.len(),
                len <= b.pattern@.len(),
                child@ == a.pattern@.subrange(0, mid as int) + b.pattern@.subrange(
                    mid as int,
                    i as int,
                ),
            decreases len - i,
        {
            child.push(b.pattern[i]);
            i = i + 1;
            assert(child@ =~= a.pattern@.subrange(0, mid as int) + b.pattern@.subrange(
                mid as int,
                i as int,
            ));
        }
        Rhythm::new(child)
    }
}

} // verus!
