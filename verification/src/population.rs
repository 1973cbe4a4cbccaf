use vstd::prelude::*;
use vstd::arithmetic::mul::lemma_mul_inequality;
use vstd::pervasive::VecAdditionalExecFns;
use crate::actor::{
    Actor, Row, crossed, crossover_pair, lemma_fit_bounds, spec_fit, spec_total_cost,
    spec_total_value, total_cost_to, total_value_to,
};
use crate::errors::GaError;
use crate::rng::GaRng;

verus! {

/// A per-bit flip probability, held exactly as the fraction `numer / denom`.
#[derive(Clone, Copy, Debug, PartialEq, Eq, Structural)]
pub struct MutationRate {
    pub numer: u64,
    pub denom: u64,
}

impl MutationRate {
    /// A probability lies in `[0, 1]`: positive denominator, numerator not
    /// above it.
    pub open spec fn wf(self) -> bool {
        self.denom > 0 && self.numer <= self.denom
    }
}

/// Fitness summary of one generation. `total` is the exact sum of the
/// generation's fitness values, so the mean is `total` over the population
/// size.
#[derive(Clone, Copy, Debug, PartialEq, Eq, Structural)]
pub struct FitnessRecord {
    pub best: usize,
    pub worst: usize,
    pub total: u128,
}

/// Sum of the first `n` fitness values.
pub open spec fn weights_to(s: Seq<usize>, n: int) -> int
    decreases n,
{
    if n <= 0 {
        0
    } else {
        weights_to(s, n - 1) + s[n - 1] as int
    }
}

/// Maximum of the first `n` fitness values (`n >= 1`).
pub open spec fn max_to(s: Seq<usize>, n: int) -> int
    decreases n,
{
    if n <= 1 {
        if s.len() >= 1 {
            s[0] as int
        } else {
            0
        }
    } else {
        let m = max_to(s, n - 1);
        if s[n - 1] as int > m {
            s[n - 1] as int
        } else {
            m
        }
    }
}

/// Minimum of the first `n` fitness values (`n >= 1`).
pub open spec fn min_to(s: Seq<usize>, n: int) -> int
    decreases n,
{
    if n <= 1 {
        if s.len() >= 1 {
            s[0] as int
        } else {
            0
        }
    } else {
        let m = min_to(s, n - 1);
        if (s[n - 1] as int) < m {
            s[n - 1] as int
        } else {
            m
        }
    }
}

/// Sum of the fitness of the first `n` actors.
pub open spec fn fitness_sum_to(actors: Seq<Actor>, data: Seq<Row>, capacity: int, n: int) -> int
    decreases n,
{
    if n <= 0 {
        0
    } else {
        fitness_sum_to(actors, data, capacity, n - 1) + spec_fit(
            actors[n - 1].bitstring@,
            data,
            capacity,
        )
    }
}

/// Total fitness of a population.
pub open spec fn spec_total_fitness(actors: Seq<Actor>, data: Seq<Row>, capacity: int) -> int {
    fitness_sum_to(actors, data, capacity, actors.len() as int)
}

/// A prefix sum of fitness values is non-negative and at most the prefix
/// length times the largest machine word.
pub proof fn lemma_weights_to_bound(s: Seq<usize>, n: int)
    requires
        0 <= n <= s.len(),
    ensures
        0 <= weights_to(s, n) <= n * (usize::MAX as int),
    decreases n,
{
    if n > 0 {
        lemma_weights_to_bound(s, n - 1);
        assert(weights_to(s, n) <= n * (usize::MAX as int)) by (nonlinear_arith)
            requires
                weights_to(s, n) == weights_to(s, n - 1) + s[n - 1] as int,
                weights_to(s, n - 1) <= (n - 1) * (usize::MAX as int),
                s[n - 1] as int <= usize::MAX as int,
        ;
    }
}

/// A count of machine words times the largest machine word stays below the
/// 128-bit limit.
proof fn lemma_count_bound(n: int)
    requires
        0 <= n <= usize::MAX as int,
    ensures
        n * (usize::MAX as int) < u128::MAX as int,
{
    lemma_mul_inequality(n, usize::MAX as int, usize::MAX as int);
    assert((usize::MAX as int) * (usize::MAX as int) < u128::MAX as int) by (nonlinear_arith)
        requires
            usize::MAX as int <= u64::MAX as int,
    ;
}

/// When each weight equals the fitness of the actor at its index, the prefix
/// sums agree.
pub proof fn lemma_weights_match_fitness(
    ws: Seq<usize>,
    actors: Seq<Actor>,
    data: Seq<Row>,
    capacity: int,
    n: int,
)
    requires
        0 <= n <= ws.len(),
        ws.len() == actors.len(),
        forall|i: int| 0 <= i < ws.len() ==> ws[i] as int == spec_fit(
            actors[i].bitstring@,
            data,
            capacity,
        ),
    ensures
        weights_to(ws, n) == fitness_sum_to(actors, data, capacity, n),
    decreases n,
{
    if n > 0 {
        lemma_weights_match_fitness(ws, actors, data, capacity, n - 1);
    }
}

/// Over a non-empty prefix the minimum never exceeds the maximum, and the sum
/// lies between the prefix length times each of them.
pub proof fn lemma_stats_bounds(s: Seq<usize>, n: int)
    requires
        1 <= n <= s.len(),
    ensures
        min_to(s, n) <= max_to(s, n),
        n * min_to(s, n) <= weights_to(s, n),
        weights_to(s, n) <= n * max_to(s, n),
    decreases n,
{
    if n == 1 {
        assert(weights_to(s, 1) == s[0] as int);
    } else {
        lemma_stats_bounds(s, n - 1);
        assert(weights_to(s, n) <= n * max_to(s, n)) by (nonlinear_arith)
            requires
                weights_to(s, n) == weights_to(s, n - 1) + s[n - 1] as int,
                weights_to(s, n - 1) <= (n - 1) * max_to(s, n - 1),
                max_to(s, n - 1) <= max_to(s, n),
                s[n - 1] as int <= max_to(s, n),
                1 <= n,
        ;
        assert(n * min_to(s, n) <= weights_to(s, n)) by (nonlinear_arith)
            requires
                weights_to(s, n) == weights_to(s, n - 1) + s[n - 1] as int,
                (n - 1) * min_to(s, n - 1) <= weights_to(s, n - 1),
                min_to(s, n) <= min_to(s, n - 1),
                min_to(s, n) <= s[n - 1] as int,
                1 <= n,
        ;
    }
}

/// A bound on every entry of a non-empty prefix bounds its maximum.
pub proof fn lemma_max_le_bound(s: Seq<usize>, n: int, bound: int)
    requires
        1 <= n <= s.len(),
        forall|i: int| 0 <= i < n ==> s[i] as int <= bound,
    ensures
        max_to(s, n) <= bound,
    decreases n,
{
    if n > 1 {
        lemma_max_le_bound(s, n - 1, bound);
    }
}

/// The population: a fixed number of candidates over one dataset, evolved in
/// place one generation at a time.
pub struct Population {
    /// Number of candidates, constant across generations.
    pub size: usize,
    /// The current generation's candidates.
    pub actors: Vec<Actor>,
    /// Per-bit flip probability used by mutation.
    pub mutation_rate: MutationRate,
    /// The dataset rows the candidates select from.
    pub data: Vec<Row>,
}

impl Population {
    /// Structural invariant: a positive number of candidates, each with one
    /// bit per dataset row, a well-formed mutation rate, and dataset sums
    /// that fit the machine word.
    pub open spec fn wf(self) -> bool {
        &&& self.size > 0
        &&& self.actors@.len() == self.size as int
        &&& self.data@.len() > 0
        &&& forall|i: int| 0 <= i < self.actors@.len() ==> (#[trigger] self.actors@[i]).bitstring@.len()
            == self.data@.len()
        &&& self.mutation_rate.wf()
        &&& spec_total_value(self.data@) <= usize::MAX as int
        &&& spec_total_cost(self.data@) <= usize::MAX as int
    }
}

/// True exactly when the dataset's value sum and cost sum fit the machine
/// word: the machine-imposed precondition for building a population.
pub fn dataset_within_bounds(data: &Vec<Row>) -> (r: bool)
    ensures
        r == (spec_total_value(data@) <= usize::MAX as int && spec_total_cost(data@)
            <= usize::MAX as int),
{
    let n = data.len();
    let mut vsum: u128 = 0;
    let mut csum: u128 = 0;
    let mut i: usize = 0;
    while i < n
        invariant
            i <= n,
            n == data@.len(),
            vsum as int == total_value_to(data@, i as int),
            csum as int == total_cost_to(data@, i as int),
        decreases n - i,
    {
        proof {
            crate::actor::lemma_prefix_totals_bound(data@, i as int + 1);
            lemma_count_bound(i as int + 1);
        }
        vsum = vsum + data[i].1 as u128;
        csum = csum + data[i].2 as u128;
        i = i + 1;
    }
    vsum <= usize::MAX as u128 && csum <= usize::MAX as u128
}

impl Population {
    /// Build a population of `size` candidates of `bitstring_length` random
    /// bits each. Rejects a zero size, a zero bit length or a malformed
    /// mutation rate as a configuration error, and a bit length that differs
    /// from the dataset size as a dataset mismatch.
    pub fn new(
        size: usize,
        bitstring_length: usize,
        mutation_rate: MutationRate,
        data: Vec<Row>,
        rng: &mut GaRng,
    ) -> (r: Result<Population, GaError>)
        requires
            spec_total_value(data@) <= usize::MAX as int,
            spec_total_cost(data@) <= usize::MAX as int,
        ensures
            (r is Ok) <==> (size > 0 && bitstring_length > 0 && mutation_rate.wf()
                && bitstring_length as int == data@.len()),
            (size == 0 || bitstring_length == 0 || !mutation_rate.wf()) ==> r
                == Err::<Population, GaError>(GaError::ConfigurationError),
            (size > 0 && bitstring_length > 0 && mutation_rate.wf() && bitstring_length as int
                != data@.len()) ==> r == Err::<Population, GaError>(GaError::DatasetMismatchError),
            r matches Ok(p) ==> p.wf() && p.size == size && p.mutation_rate == mutation_rate
                && p.data@ == data@ && p.actors@.len() == size as int,
    {
        if size == 0 || bitstring_length == 0 || mutation_rate.denom == 0
            || mutation_rate.numer > mutation_rate.denom {
            return Err(GaError::ConfigurationError);
        }
        if bitstring_length != data.len() {
            return Err(GaError::DatasetMismatchError);
        }
        let mut actors: Vec<Actor> = Vec::new();
        let mut i: usize = 0;
        while i < size
            invariant
                i <= size,
                actors@.len() == i as int,
                bitstring_length > 0,
                forall|t: int| 0 <= t < i ==> (#[trigger] actors@[t]).bitstring@.len()
                    == bitstring_length as int,
            decreases size - i,
        {
            let mut bits: Vec<bool> = Vec::new();
            let mut j: usize = 0;
            while j < bitstring_length
                invariant
                    j <= bitstring_length,
                    bitstring_length > 0,
                    bits@.len() == j as int,
                decreases bitstring_length - j,
            {
                let b = rng.next_below(2) == 1;
                bits.push(b);
                j = j + 1;
            }
            actors.push(Actor { bitstring: bits });
            i = i + 1;
        }
        Ok(Population { size, actors, mutation_rate, data })
    }

    /// Evaluate every candidate: the returned vector holds, at each index,
    /// the fitness of the candidate at that index. These are the weights of
    /// fitness-proportionate selection.
    pub fn calculate_chance(&self, total_space: usize) -> (r: Vec<usize>)
        requires
            self.wf(),
        ensures
            r@.len() == self.actors@.len(),
            forall|i: int| 0 <= i < r@.len() ==> r@[i] as int == spec_fit(
                self.actors@[i].bitstring@,
                self.data@,
                total_space as int,
            ),
    {
        let n = self.actors.len();
        let mut weights: Vec<usize> = Vec::new();
        let mut i: usize = 0;
        while i < n
            invariant
                i <= n,
                n == self.actors@.len(),
                self.wf(),
                weights@.len() == i as int,
                forall|t: int| 0 <= t < i ==> weights@[t] as int == spec_fit(
                    self.actors@[t].bitstring@,
                    self.data@,
                    total_space as int,
                ),
            decreases n - i,
        {
            let f = self.actors[i].fit(self.data.as_slice(), total_space);
            weights.push(f);
            i = i + 1;
        }
        weights
    }

    /// A copy of a highest-fitness candidate of the current generation,
    /// together with its fitness: no candidate scores higher, and the
    /// returned pair is realized by some candidate.
    pub fn best_candidate(&self, total_space: usize) -> (r: (Actor, usize))
        requires
            self.wf(),
        ensures
            exists|i: int|
                0 <= i < self.actors@.len() && r.0.bitstring@ == (#[trigger] self.actors@[i]).bitstring@
                    && r.1 as int == spec_fit(
                    self.actors@[i].bitstring@,
                    self.data@,
                    total_space as int,
                ),
            forall|i: int|
                0 <= i < self.actors@.len() ==> spec_fit(
                    (#[trigger] self.actors@[i]).bitstring@,
                    self.data@,
                    total_space as int,
                ) <= r.1 as int,
    {
        let weights = self.calculate_chance(total_space);
        let n = weights.len();
        let mut best_i: usize = 0;
        let mut best_w: usize = weights[0];
        let mut i: usize = 1;
        while i < n
            invariant
                1 <= i <= n,
                n == weights@.len(),
                n == self.actors@.len(),
                best_i < n,
                best_w == weights@[best_i as int],
                forall|t: int| 0 <= t < i ==> weights@[t] <= best_w,
                forall|t: int| 0 <= t < n ==> weights@[t] as int == spec_fit(
                    self.actors@[t].bitstring@,
                    self.data@,
                    total_space as int,
                ),
            decreases n - i,
        {
            if weights[i] > best_w {
                best_w = weights[i];
                best_i = i;
            }
            i = i + 1;
        }
        proof {
            assert forall|t: int|
                0 <= t < self.actors@.len() implies spec_fit(
                (#[trigger] self.actors@[t]).bitstring@,
                self.data@,
                total_space as int,
            ) <= best_w as int by {
                assert(weights@[t] <= best_w);
            }
        }
        (self.actors[best_i].duplicate(), best_w)
    }

    /// Fitness-proportionate selection with replacement: replaces the
    /// candidates by as many copies drawn from the current generation, each
    /// draw picking the first candidate whose cumulative fitness exceeds a
    /// uniform draw below the total fitness. Reports a degenerate population,
    /// and leaves it unchanged, exactly when the total fitness is zero.
    pub fn roulette_selection(&mut self, total_space: usize, rng: &mut GaRng) -> (r: Result<
        (),
        GaError,
    >)
        requires
            old(self).wf(),
        ensures
            final(self).wf(),
            final(self).size == old(self).size,
            final(self).data@ == old(self).data@,
            final(self).mutation_rate == old(self).mutation_rate,
            final(self).actors@.len() == old(self).actors@.len(),
            (r is Ok) <==> spec_total_fitness(
                old(self).actors@,
                old(self).data@,
                total_space as int,
            ) != 0,
            r is Err ==> r == Err::<(), GaError>(GaError::DegenerateFitnessError) && *final(self)
                == *old(self),
            r is Ok ==> forall|i: int|
                0 <= i < final(self).actors@.len() ==> exists|j: int|
                    0 <= j < old(self).actors@.len()
                        && (#[trigger] final(self).actors@[i]).bitstring@
                        == old(self).actors@[j].bitstring@
                        && spec_fit(
                        old(self).actors@[j].bitstring@,
                        old(self).data@,
                        total_space as int,
                    ) > 0,
    {
        let weights = self.calculate_chance(total_space);
        let n = self.actors.len();
        proof {
            lemma_weights_match_fitness(
                weights@,
                self.actors@,
                self.data@,
                total_space as int,
                n as int,
            );
        }
        let mut total: u128 = 0;
        let mut i: usize = 0;
        while i < n
            invariant
                i <= n,
                n == weights@.len(),
                total as int == weights_to(weights@, i as int),
            decreases n - i,
        {
            proof {
                lemma_weights_to_bound(weights@, i as int + 1);
                lemma_count_bound(i as int + 1);
            }
            total = total + weights[i] as u128;
            i = i + 1;
        }
        if total == 0 {
            return Err(GaError::DegenerateFitnessError);
        }
        let mut cum: Vec<u128> = Vec::new();
        i = 0;
        while i < n
            invariant
                i <= n,
                n == weights@.len(),
                cum@.len() == i as int,
                forall|t: int| 0 <= t < i ==> cum@[t] as int == weights_to(weights@, t + 1),
            decreases n - i,
        {
            proof {
                lemma_weights_to_bound(weights@, i as int + 1);
                lemma_count_bound(i as int + 1);
            }
            let prev: u128 = if i == 0 {
                0
            } else {
                cum[i - 1]
            };
            proof {
                assert(prev as int == weights_to(weights@, i as int));
            }
            cum.push(prev + weights[i] as u128);
            proof {
                assert(cum@[i as int] as int == weights_to(weights@, i as int + 1));
            }
            i = i + 1;
        }
        let mut new_actors: Vec<Actor> = Vec::new();
        let mut draw: usize = 0;
        while draw < n
            invariant
                draw <= n,
                n >= 1,
                n == weights@.len(),
                n == cum@.len(),
                n == self.actors@.len(),
                total as int == weights_to(weights@, n as int),
                total > 0,
                forall|t: int| 0 <= t < n ==> cum@[t] as int == weights_to(weights@, t + 1),
                forall|t: int| 0 <= t < n ==> weights@[t] as int == spec_fit(
                    self.actors@[t].bitstring@,
                    self.data@,
                    total_space as int,
                ),
                new_actors@.len() == draw as int,
                forall|t: int|
                    0 <= t < draw ==> exists|j: int|
                        0 <= j < self.actors@.len() && (#[trigger] new_actors@[t]).bitstring@
                            == self.actors@[j].bitstring@ && spec_fit(
                            self.actors@[j].bitstring@,
                            self.data@,
                            total_space as int,
                        ) > 0,
            decreases n - draw,
        {
            let u = rng.next_below(total);
            let mut idx: usize = 0;
            loop
                invariant_except_break
                    idx < n,
                    n == cum@.len(),
                    (u as int) < total as int,
                    total as int == weights_to(weights@, n as int),
                    forall|t: int| 0 <= t < n ==> cum@[t] as int == weights_to(weights@, t + 1),
                    forall|t: int| 0 <= t < idx ==> cum@[t] as int <= u as int,
                ensures
                    idx < n,
                    cum@[idx as int] as int > u as int,
                    forall|t: int| 0 <= t < idx ==> cum@[t] as int <= u as int,
                decreases n - idx,
            {
                if cum[idx] > u {
                    break;
                }
                assert(idx as int != n as int - 1);
                idx = idx + 1;
            }
            proof {
                if idx > 0 {
                    assert(cum@[idx as int - 1] as int <= u as int);
                    assert(weights_to(weights@, idx as int + 1) == weights_to(
                        weights@,
                        idx as int,
                    ) + weights@[idx as int] as int);
                } else {
                    assert(weights_to(weights@, 0) == 0);
                    assert(weights_to(weights@, 1) == weights@[0] as int);
                }
                assert(weights@[idx as int] as int > 0);
            }
            let chosen = self.actors[idx].duplicate();
            new_actors.push(chosen);
            assert(new_actors@[draw as int].bitstring@ == self.actors@[idx as int].bitstring@);
            draw = draw + 1;
        }
        self.actors = new_actors;
        proof {
            assert forall|i2: int|
                0 <= i2 < self.actors@.len() implies (#[trigger] self.actors@[i2]).bitstring@.len()
                == self.data@.len() by {
                let j = choose|j: int|
                    0 <= j < old(self).actors@.len()
                        && self.actors@[i2].bitstring@ == old(self).actors@[j].bitstring@;
            }
        }
        Ok(())
    }

    /// Independent per-bit mutation: every bit of every candidate flips with
    /// probability `mutation_rate`, decided by one uniform draw per bit. A
    /// zero rate leaves every candidate unchanged; a rate of one flips every
    /// bit of every candidate.
    pub fn mutate_population(&mut self, rng: &mut GaRng)
        requires
            old(self).wf(),
        ensures
            final(self).wf(),
            final(self).size == old(self).size,
            final(self).data@ == old(self).data@,
            final(self).mutation_rate == old(self).mutation_rate,
            final(self).actors@.len() == old(self).actors@.len(),
            forall|i: int|
                0 <= i < final(self).actors@.len()
                    ==> (#[trigger] final(self).actors@[i]).bitstring@.len()
                    == old(self).actors@[i].bitstring@.len(),
            old(self).mutation_rate.numer == 0 ==> forall|i: int|
                0 <= i < final(self).actors@.len()
                    ==> (#[trigger] final(self).actors@[i]).bitstring@
                    == old(self).actors@[i].bitstring@,
            old(self).mutation_rate.numer == old(self).mutation_rate.denom ==> forall|i: int, j: int|
                0 <= i < final(self).actors@.len()
                    && 0 <= j < old(self).actors@[i].bitstring@.len()
                    ==> (#[trigger] final(self).actors@[i].bitstring@[j])
                    == !old(self).actors@[i].bitstring@[j],
    {
        let num = self.mutation_rate.numer;
        let den = self.mutation_rate.denom;
        let n = self.actors.len();
        let mut i: usize = 0;
        while i < n
            invariant
                i <= n,
                n == self.actors@.len(),
                self.actors@.len() == old(self).actors@.len(),
                self.size == old(self).size,
                self.data@ == old(self).data@,
                self.mutation_rate == old(self).mutation_rate,
                old(self).wf(),
                num == old(self).mutation_rate.numer,
                den == old(self).mutation_rate.denom,
                den > 0,
                forall|t: int| i <= t < n ==> self.actors@[t] == old(self).actors@[t],
                forall|t: int|
                    0 <= t < i ==> (#[trigger] self.actors@[t]).bitstring@.len() == old(self).actors@[t].bitstring@.len(),
                num == 0 ==> forall|t: int|
                    0 <= t < i ==> (#[trigger] self.actors@[t]).bitstring@ == old(self).actors@[t].bitstring@,
                num == den ==> forall|t: int, j: int|
                    0 <= t < i && 0 <= j < old(self).actors@[t].bitstring@.len() ==> (#[trigger] self
                        .actors@[t].bitstring@[j]) == !old(self).actors@[t].bitstring@[j],
            decreases n - i,
        {
            let mut bits = self.actors[i].duplicate().bitstring;
            let m = bits.len();
            let mut j: usize = 0;
            while j < m
                invariant
                    j <= m,
                    m == bits@.len(),
                    i < n,
                    n == self.actors@.len(),
                    m == old(self).actors@[i as int].bitstring@.len(),
                    den > 0,
                    forall|t: int| j <= t < m ==> bits@[t] == old(self).actors@[i as int].bitstring@[t],
                    num == 0 ==> forall|t: int|
                        0 <= t < j ==> bits@[t] == old(self).actors@[i as int].bitstring@[t],
                    num == den ==> forall|t: int|
                        0 <= t < j ==> bits@[t] == !old(self).actors@[i as int].bitstring@[t],
                decreases m - j,
            {
                let drawn = rng.next_below(den as u128);
                if drawn < num as u128 {
                    let cur = bits[j];
                    bits[j] = !cur;
                }
                j = j + 1;
            }
            proof {
                if num == 0 {
                    assert(bits@ =~= old(self).actors@[i as int].bitstring@);
                }
            }
            self.actors.set(i, Actor { bitstring: bits });
            i = i + 1;
        }
    }

    /// Single-point crossover over the disjoint consecutive pairs of the
    /// population: each pair exchanges the bits from a uniformly drawn point
    /// on; the odd candidate out, if any, is left unmodified.
    pub fn apply_crossover(&mut self, rng: &mut GaRng)
        requires
            old(self).wf(),
        ensures
            final(self).wf(),
            final(self).size == old(self).size,
            final(self).data@ == old(self).data@,
            final(self).mutation_rate == old(self).mutation_rate,
            final(self).actors@.len() == old(self).actors@.len(),
            forall|p: int|
                0 <= p && 2 * p + 1 < final(self).actors@.len() ==> #[trigger] pair_crossed(
                    old(self).actors@,
                    final(self).actors@,
                    p,
                ),
            old(self).actors@.len() % 2 == 1 ==> final(self).actors@[final(self).actors@.len() - 1]
                == old(self).actors@[old(self).actors@.len() - 1],
    {
        let n = self.actors.len();
        let bit_len = self.data.len();
        let mut i: usize = 0;
        while i + 1 < n
            invariant
                i % 2 == 0,
                i <= n,
                n == self.actors@.len(),
                self.actors@.len() == old(self).actors@.len(),
                self.size == old(self).size,
                self.data@ == old(self).data@,
                self.mutation_rate == old(self).mutation_rate,
                old(self).wf(),
                bit_len == old(self).data@.len(),
                bit_len > 0,
                forall|t: int| i <= t < n ==> self.actors@[t] == old(self).actors@[t],
                forall|t: int|
                    0 <= t < n ==> (#[trigger] self.actors@[t]).bitstring@.len() == old(self).data@.len(),
                forall|p: int|
                    0 <= p && 2 * p + 1 < i ==> #[trigger] pair_crossed(
                        old(self).actors@,
                        self.actors@,
                        p,
                    ),
            decreases n - i,
        {
            let point_raw = rng.next_below(bit_len as u128);
            let point = point_raw as usize;
            let ghost pre = self.actors@;
            let (c1, c2) = crossover_pair(&self.actors[i], &self.actors[i + 1], point);
            self.actors.set(i, c1);
            self.actors.set(i + 1, c2);
            proof {
                assert forall|p: int| 0 <= p && 2 * p + 1 < i + 2 implies #[trigger] pair_crossed(
                    old(self).actors@,
                    self.actors@,
                    p,
                ) by {
                    if 2 * p + 1 < i {
                        assert(pair_crossed(old(self).actors@, pre, p));
                        let k = choose|k: int|
                            0 <= k < old(self).actors@[2 * p].bitstring@.len() && #[trigger] crossed(
                                old(self).actors@[2 * p].bitstring@,
                                old(self).actors@[2 * p + 1].bitstring@,
                                pre[2 * p].bitstring@,
                                pre[2 * p + 1].bitstring@,
                                k,
                            );
                        assert(crossed(
                            old(self).actors@[2 * p].bitstring@,
                            old(self).actors@[2 * p + 1].bitstring@,
                            self.actors@[2 * p].bitstring@,
                            self.actors@[2 * p + 1].bitstring@,
                            k,
                        ));
                    } else {
                        assert(2 * p == i as int);
                        assert(crossed(
                            old(self).actors@[i as int].bitstring@,
                            old(self).actors@[i as int + 1].bitstring@,
                            self.actors@[i as int].bitstring@,
                            self.actors@[i as int + 1].bitstring@,
                            point as int,
                        ));
                    }
                }
            }
            i = i + 2;
        }
    }

    /// Run the generation loop: `generations` times select, cross over,
    /// mutate, then evaluate the post-variation population and record its
    /// best, worst and summed fitness. Zero generations yield an empty
    /// history. A degenerate population (zero total fitness at a selection)
    /// aborts the run with that error.
    pub fn run_evolution(&mut self, total_space: usize, generations: usize, rng: &mut GaRng) -> (r:
        Result<Vec<FitnessRecord>, GaError>)
        requires
            old(self).wf(),
        ensures
            final(self).wf(),
            final(self).size == old(self).size,
            final(self).data@ == old(self).data@,
            final(self).mutation_rate == old(self).mutation_rate,
            r is Err ==> r == Err::<Vec<FitnessRecord>, GaError>(GaError::DegenerateFitnessError),
            generations == 0 ==> (r matches Ok(h) && h@.len() == 0),
            generations == 0 ==> *final(self) == *old(self),
            generations >= 1 && spec_total_fitness(
                old(self).actors@,
                old(self).data@,
                total_space as int,
            ) == 0 ==> r is Err,
            r is Ok ==> generations == 0 || spec_total_fitness(
                old(self).actors@,
                old(self).data@,
                total_space as int,
            ) != 0,
            r matches Ok(h) ==> h@.len() == generations as int,
            r matches Ok(h) ==> (generations >= 1 ==> record_matches(
                h@[h@.len() - 1],
                final(self).actors@,
                final(self).data@,
                total_space as int,
            )),
            r matches Ok(h) ==> forall|g: int|
                0 <= g < h@.len() ==> record_sound(#[trigger] h@[g], *old(self))
                    && generation_recorded(h@[g], *old(self), total_space as int),
    {
        let mut records: Vec<FitnessRecord> = Vec::new();
        let mut g: usize = 0;
        while g < generations
            invariant
                g <= generations,
                self.wf(),
                self.size == old(self).size,
                self.data@ == old(self).data@,
                self.mutation_rate == old(self).mutation_rate,
                records@.len() == g as int,
                g == 0 ==> *self == *old(self),
                g >= 1 ==> spec_total_fitness(
                    old(self).actors@,
                    old(self).data@,
                    total_space as int,
                ) != 0,
                g >= 1 ==> record_matches(
                    records@[g - 1],
                    self.actors@,
                    self.data@,
                    total_space as int,
                ),
                forall|t: int| 0 <= t < g ==> record_sound(#[trigger] records@[t], *old(self))
                    && generation_recorded(records@[t], *old(self), total_space as int),
            decreases generations - g,
        {
            match self.roulette_selection(total_space, rng) {
                Err(e) => {
                    return Err(e);
                },
                Ok(()) => {},
            }
            self.apply_crossover(rng);
            self.mutate_population(rng);
            let fitnesses = self.calculate_chance(total_space);
            proof {
                lemma_stats_bounds(fitnesses@, fitnesses@.len() as int);
                assert forall|t: int|
                    0 <= t < fitnesses@.len() implies fitnesses@[t] as int <= spec_total_value(
                    self.data@,
                ) by {
                    lemma_fit_bounds(self.actors@[t].bitstring@, self.data@, total_space as int);
                }
                lemma_max_le_bound(
                    fitnesses@,
                    fitnesses@.len() as int,
                    spec_total_value(self.data@),
                );
            }
            let rec = fitness_stats(&fitnesses);
            records.push(rec);
            proof {
                let fs = fitness_seq(self.actors@, self.data@, total_space as int);
                assert forall|t: int| 0 <= t < fitnesses@.len() implies fitnesses@[t] == fs[t] by {
                    lemma_fit_bounds(self.actors@[t].bitstring@, self.data@, total_space as int);
                }
                assert(fitnesses@ =~= fs);
                assert(record_matches(
                    records@[g as int],
                    self.actors@,
                    self.data@,
                    total_space as int,
                ));
                assert(record_matches(
                    records@[g as int],
                    self.actors@,
                    old(self).data@,
                    total_space as int,
                ));
                assert(generation_recorded(records@[g as int], *old(self), total_space as int));
            }
            g = g + 1;
        }
        Ok(records)
    }
}

/// What is promised of each recorded generation, whatever the random draws
/// were: the minimum does not exceed the maximum, the maximum does not exceed
/// the sum of all item values, and the sum of the generation's fitness values
/// lies between the population size times each extreme.
pub open spec fn record_sound(rec: FitnessRecord, p: Population) -> bool {
    &&& rec.worst <= rec.best
    &&& rec.best as int <= spec_total_value(p.data@)
    &&& p.size as int * rec.worst as int <= rec.total as int
    &&& rec.total as int <= p.size as int * rec.best as int
}

/// The fitness of each of `actors`, by index.
pub open spec fn fitness_seq(actors: Seq<Actor>, data: Seq<Row>, capacity: int) -> Seq<usize> {
    Seq::new(actors.len(), |i: int| spec_fit(actors[i].bitstring@, data, capacity) as usize)
}

/// The record is the exact summary of `actors` on `data` under `capacity`:
/// its `best` is their highest fitness, its `worst` their lowest, and its
/// `total` the exact sum of their fitnesses.
pub open spec fn record_matches(
    rec: FitnessRecord,
    actors: Seq<Actor>,
    data: Seq<Row>,
    capacity: int,
) -> bool {
    let fs = fitness_seq(actors, data, capacity);
    &&& rec.best as int == max_to(fs, fs.len() as int)
    &&& rec.worst as int == min_to(fs, fs.len() as int)
    &&& rec.total as int == weights_to(fs, fs.len() as int)
}

/// The record is the exact summary of some population of `p.size` candidates,
/// each with one bit per row of `p`'s dataset, on that dataset.
pub open spec fn generation_recorded(rec: FitnessRecord, p: Population, capacity: int) -> bool {
    exists|pop: Seq<Actor>|
        pop.len() == p.size as int && (forall|i: int|
            0 <= i < pop.len() ==> (#[trigger] pop[i]).bitstring@.len() == p.data@.len())
            && #[trigger] record_matches(rec, pop, p.data@, capacity)
}

/// Exact per-generation summary of a non-empty vector of fitness values:
/// its maximum, its minimum and its exact sum.
pub fn fitness_stats(fitnesses: &Vec<usize>) -> (r: FitnessRecord)
    requires
        fitnesses@.len() >= 1,
    ensures
        r.best as int == max_to(fitnesses@, fitnesses@.len() as int),
        r.worst as int == min_to(fitnesses@, fitnesses@.len() as int),
        r.total as int == weights_to(fitnesses@, fitnesses@.len() as int),
{
    let n = fitnesses.len();
    let mut best = fitnesses[0];
    let mut worst = fitnesses[0];
    let mut total: u128 = fitnesses[0] as u128;
    let mut i: usize = 1;
    proof {
        assert(weights_to(fitnesses@, 0) == 0);
        assert(weights_to(fitnesses@, 1) == fitnesses@[0] as int);
    }
    while i < n
        invariant
            1 <= i <= n,
            n == fitnesses@.len(),
            best as int == max_to(fitnesses@, i as int),
            worst as int == min_to(fitnesses@, i as int),
            total as int == weights_to(fitnesses@, i as int),
        decreases n - i,
    {
        proof {
            lemma_weights_to_bound(fitnesses@, i as int + 1);
            lemma_count_bound(i as int + 1);
        }
        let f = fitnesses[i];
        if f > best {
            best = f;
        }
        if f < worst {
            worst = f;
        }
        total = total + f as u128;
        i = i + 1;
    }
    FitnessRecord { best, worst, total }
}

/// On a dataset whose item values are all zero, the total fitness of any
/// population over it is zero, so the first selection call must report the
/// degenerate population.
pub proof fn lemma_zero_values_degenerate(actors: Seq<Actor>, data: Seq<Row>, capacity: int)
    requires
        forall|i: int| 0 <= i < data.len() ==> (#[trigger] data[i]).1 == 0,
        forall|i: int| 0 <= i < actors.len() ==> (#[trigger] actors[i]).bitstring@.len()
            == data.len(),
    ensures
        spec_total_fitness(actors, data, capacity) == 0,
{
    lemma_fitness_sum_zero(actors, data, capacity, actors.len() as int);
}

/// Every prefix of the fitness sum over an all-zero-value dataset is zero.
proof fn lemma_fitness_sum_zero(actors: Seq<Actor>, data: Seq<Row>, capacity: int, n: int)
    requires
        n <= actors.len(),
        forall|i: int| 0 <= i < data.len() ==> (#[trigger] data[i]).1 == 0,
        forall|i: int| 0 <= i < actors.len() ==> (#[trigger] actors[i]).bitstring@.len()
            == data.len(),
    ensures
        fitness_sum_to(actors, data, capacity, n) == 0,
    decreases n,
{
    if n > 0 {
        lemma_fitness_sum_zero(actors, data, capacity, n - 1);
        crate::actor::lemma_zero_values_zero_fit(actors[n - 1].bitstring@, data, capacity);
    }
}

/// The pair `(2p, 2p+1)` of `news` is the same pair of `olds` recombined at
/// some crossover point below the bit length.
pub open spec fn pair_crossed(olds: Seq<Actor>, news: Seq<Actor>, p: int) -> bool {
    exists|k: int|
        0 <= k < olds[2 * p].bitstring@.len() && #[trigger] crossed(
            olds[2 * p].bitstring@,
            olds[2 * p + 1].bitstring@,
            news[2 * p].bitstring@,
            news[2 * p + 1].bitstring@,
            k,
        )
}

} // verus!
