use vstd::prelude::*;

verus! {

/// One dataset row: `(id, value, cost, flag)`.
pub type Row = (usize, usize, usize, usize);

/// Factor by which a cost overshoot is penalized: the fitness of a selection
/// whose cost exceeds the capacity drops by `PENALTY_WEIGHT` per unit of
/// overshoot, clamped at zero.
pub const PENALTY_WEIGHT: usize = 10;

/// Sum of the values of the rows among `data[0..n]` whose bit is set.
pub open spec fn raw_value_to(bits: Seq<bool>, data: Seq<Row>, n: int) -> int
    decreases n,
{
    if n <= 0 {
        0
    } else {
        raw_value_to(bits, data, n - 1) + (if bits[n - 1] { data[n - 1].1 as int } else { 0 })
    }
}

/// Sum of the costs of the rows among `data[0..n]` whose bit is set.
pub open spec fn selected_cost_to(bits: Seq<bool>, data: Seq<Row>, n: int) -> int
    decreases n,
{
    if n <= 0 {
        0
    } else {
        selected_cost_to(bits, data, n - 1) + (if bits[n - 1] { data[n - 1].2 as int } else { 0 })
    }
}

/// Sum of the values of the rows `data[0..n]`.
pub open spec fn total_value_to(data: Seq<Row>, n: int) -> int
    decreases n,
{
    if n <= 0 {
        0
    } else {
        total_value_to(data, n - 1) + data[n - 1].1 as int
    }
}

/// Sum of the costs of the rows `data[0..n]`.
pub open spec fn total_cost_to(data: Seq<Row>, n: int) -> int
    decreases n,
{
    if n <= 0 {
        0
    } else {
        total_cost_to(data, n - 1) + data[n - 1].2 as int
    }
}

/// Total value selected by a candidate.
pub open spec fn spec_raw_value(bits: Seq<bool>, data: Seq<Row>) -> int {
    raw_value_to(bits, data, bits.len() as int)
}

/// Total cost selected by a candidate.
pub open spec fn spec_selected_cost(bits: Seq<bool>, data: Seq<Row>) -> int {
    selected_cost_to(bits, data, bits.len() as int)
}

/// Sum of all item values in the dataset.
pub open spec fn spec_total_value(data: Seq<Row>) -> int {
    total_value_to(data, data.len() as int)
}

/// Sum of all item costs in the dataset.
pub open spec fn spec_total_cost(data: Seq<Row>) -> int {
    total_cost_to(data, data.len() as int)
}

/// Penalty for exceeding the capacity by `overshoot`: proportional to the
/// overshoot, saturating at `usize::MAX`.
pub open spec fn spec_penalty(overshoot: int) -> int {
    if overshoot * (PENALTY_WEIGHT as int) > usize::MAX as int {
        usize::MAX as int
    } else {
        overshoot * (PENALTY_WEIGHT as int)
    }
}

/// Fitness of a selection with total value `raw` and total cost `cost` against
/// `capacity`: the raw value when the cost fits, otherwise the raw value less
/// the overshoot penalty, floored at zero.
pub open spec fn spec_penalized(raw: int, cost: int, capacity: int) -> int {
    if cost <= capacity {
        raw
    } else if raw >= spec_penalty(cost - capacity) {
        raw - spec_penalty(cost - capacity)
    } else {
        0
    }
}

/// Fitness of candidate `bits` on `data` under `capacity`.
pub open spec fn spec_fit(bits: Seq<bool>, data: Seq<Row>, capacity: int) -> int {
    spec_penalized(
        spec_raw_value(bits, data),
        spec_selected_cost(bits, data),
        capacity,
    )
}

/// One candidate selection in the population.
#[derive(Clone)]
pub struct Actor {
    /// One bit per dataset row; a set bit selects the row.
    pub bitstring: Vec<bool>,
}

/// Prefix sums of selected value and cost never exceed the prefix totals, and
/// are never negative.
pub proof fn lemma_prefix_bounds(bits: Seq<bool>, data: Seq<Row>, n: int)
    requires
        n <= bits.len(),
        n <= data.len(),
    ensures
        0 <= raw_value_to(bits, data, n) <= total_value_to(data, n),
        0 <= selected_cost_to(bits, data, n) <= total_cost_to(data, n),
    decreases n,
{
    if n > 0 {
        lemma_prefix_bounds(bits, data, n - 1);
    }
}

/// Prefix totals of value and cost are non-negative and at most the prefix
/// length times the largest machine word.
pub proof fn lemma_prefix_totals_bound(data: Seq<Row>, n: int)
    requires
        0 <= n <= data.len(),
    ensures
        0 <= total_value_to(data, n) <= n * (usize::MAX as int),
        0 <= total_cost_to(data, n) <= n * (usize::MAX as int),
    decreases n,
{
    if n > 0 {
        lemma_prefix_totals_bound(data, n - 1);
        assert(total_value_to(data, n) <= n * (usize::MAX as int)) by (nonlinear_arith)
            requires
                total_value_to(data, n) == total_value_to(data, n - 1) + data[n - 1].1 as int,
                total_value_to(data, n - 1) <= (n - 1) * (usize::MAX as int),
                data[n - 1].1 as int <= usize::MAX as int,
        ;
        assert(total_cost_to(data, n) <= n * (usize::MAX as int)) by (nonlinear_arith)
            requires
                total_cost_to(data, n) == total_cost_to(data, n - 1) + data[n - 1].2 as int,
                total_cost_to(data, n - 1) <= (n - 1) * (usize::MAX as int),
                data[n - 1].2 as int <= usize::MAX as int,
        ;
    }
}

/// Prefix totals of value and cost grow with the prefix.
pub proof fn lemma_totals_monotone(data: Seq<Row>, n: int, m: int)
    requires
        n <= m <= data.len(),
    ensures
        total_value_to(data, n) <= total_value_to(data, m),
        total_cost_to(data, n) <= total_cost_to(data, m),
    decreases m - n,
{
    if n < m {
        lemma_totals_monotone(data, n, m - 1);
    }
}

/// When every item value in the dataset is zero, every selection's raw value
/// is zero.
pub proof fn lemma_zero_values_zero_raw(bits: Seq<bool>, data: Seq<Row>, n: int)
    requires
        n <= bits.len(),
        n <= data.len(),
        forall|i: int| 0 <= i < data.len() ==> (#[trigger] data[i]).1 == 0,
    ensures
        raw_value_to(bits, data, n) == 0,
    decreases n,
{
    if n > 0 {
        lemma_zero_values_zero_raw(bits, data, n - 1);
    }
}

/// When every item value in the dataset is zero, every candidate's fitness is
/// zero: the raw value is zero and the penalty can only floor it at zero.
pub proof fn lemma_zero_values_zero_fit(bits: Seq<bool>, data: Seq<Row>, capacity: int)
    requires
        bits.len() == data.len(),
        forall|i: int| 0 <= i < data.len() ==> (#[trigger] data[i]).1 == 0,
    ensures
        spec_fit(bits, data, capacity) == 0,
{
    lemma_zero_values_zero_raw(bits, data, bits.len() as int);
}

/// Fitness is never negative and never exceeds the sum of all item values.
pub proof fn lemma_fit_bounds(bits: Seq<bool>, data: Seq<Row>, capacity: int)
    requires
        bits.len() == data.len(),
    ensures
        0 <= spec_fit(bits, data, capacity) <= spec_total_value(data),
{
    lemma_prefix_bounds(bits, data, bits.len() as int);
}

/// A penalty never gains: the penalized score never exceeds the unpenalized
/// raw value.
pub proof fn lemma_penalty_never_gains(raw: int, cost: int, capacity: int)
    requires
        0 <= raw,
    ensures
        spec_penalized(raw, cost, capacity) <= raw,
{
}

/// Holding the raw value fixed, fitness is non-increasing as the selected
/// cost grows.
pub proof fn lemma_fit_monotone_in_cost(raw: int, cost1: int, cost2: int, capacity: int)
    requires
        0 <= raw,
        cost1 <= cost2,
    ensures
        spec_penalized(raw, cost2, capacity) <= spec_penalized(raw, cost1, capacity),
{
    if capacity < cost1 {
        assert(spec_penalty(cost1 - capacity) <= spec_penalty(cost2 - capacity));
    }
}

/// Between two candidates of equal raw value, the one whose selected cost is
/// higher never scores better: fitness is non-increasing in the selected cost
/// while the raw value is held fixed.
pub proof fn lemma_fit_monotone_candidates(
    bits1: Seq<bool>,
    bits2: Seq<bool>,
    data: Seq<Row>,
    capacity: int,
)
    requires
        bits1.len() == data.len(),
        bits2.len() == data.len(),
        spec_raw_value(bits1, data) == spec_raw_value(bits2, data),
        spec_selected_cost(bits1, data) <= spec_selected_cost(bits2, data),
    ensures
        spec_fit(bits2, data, capacity) <= spec_fit(bits1, data, capacity),
{
    lemma_prefix_bounds(bits1, data, bits1.len() as int);
    lemma_fit_monotone_in_cost(
        spec_raw_value(bits1, data),
        spec_selected_cost(bits1, data),
        spec_selected_cost(bits2, data),
        capacity,
    );
}

impl Actor {
    /// Score this candidate against the dataset: the sum of the selected
    /// values, less a penalty proportional to any cost overshoot beyond
    /// `max_size`, floored at zero.
    pub fn fit(&self, data: &[Row], max_size: usize) -> (r: usize)
        requires
            self.bitstring@.len() == data@.len(),
            spec_total_value(data@) <= usize::MAX as int,
            spec_total_cost(data@) <= usize::MAX as int,
        ensures
            r as int == spec_fit(self.bitstring@, data@, max_size as int),
            0 <= r as int <= spec_total_value(data@),
    {
        proof {
            lemma_fit_bounds(self.bitstring@, data@, max_size as int);
        }
        let n = data.len();
        let mut total_fitness: usize = 0;
        let mut sum_w: usize = 0;
        let mut i: usize = 0;
        while i < n
            invariant
                i <= n,
                n == data@.len(),
                self.bitstring@.len() == data@.len(),
                spec_total_value(data@) <= usize::MAX as int,
                spec_total_cost(data@) <= usize::MAX as int,
                total_fitness as int == raw_value_to(self.bitstring@, data@, i as int),
                sum_w as int == selected_cost_to(self.bitstring@, data@, i as int),
            decreases n - i,
        {
            proof {
                lemma_prefix_bounds(self.bitstring@, data@, i + 1);
                lemma_totals_monotone(data@, i + 1, n as int);
            }
            if self.bitstring[i] {
                total_fitness = total_fitness + data[i].1;
                sum_w = sum_w + data[i].2;
            }
            i = i + 1;
        }
        if sum_w > max_size {
            let overshoot = sum_w - max_size;
            let penalty = if overshoot > usize::MAX / PENALTY_WEIGHT {
                usize::MAX
            } else {
                overshoot * PENALTY_WEIGHT
            };
            if total_fitness >= penalty {
                total_fitness - penalty
            } else {
                0
            }
        } else {
            total_fitness
        }
    }

    /// An exact copy of this candidate.
    pub fn duplicate(&self) -> (r: Actor)
        ensures
            r.bitstring@ == self.bitstring@,
    {
        let n = self.bitstring.len();
        let mut bits: Vec<bool> = Vec::new();
        let mut i: usize = 0;
        while i < n
            invariant
                i <= n,
                n == self.bitstring@.len(),
                bits@.len() == i,
                forall|j: int| 0 <= j < i ==> bits@[j] == self.bitstring@[j],
            decreases n - i,
        {
            bits.push(self.bitstring[i]);
            i = i + 1;
        }
        proof {
            assert(bits@ =~= self.bitstring@);
        }
        Actor { bitstring: bits }
    }
}

/// `a2`/`b2` are `a1`/`b1` recombined at crossover point `k`: bits before `k`
/// are kept, bits from `k` on are swapped between the two parents.
pub open spec fn crossed(a1: Seq<bool>, b1: Seq<bool>, a2: Seq<bool>, b2: Seq<bool>, k: int) -> bool {
    &&& b1.len() == a1.len()
    &&& a2.len() == a1.len()
    &&& b2.len() == a1.len()
    &&& forall|j: int| 0 <= j < k ==> a2[j] == a1[j] && b2[j] == b1[j]
    &&& forall|j: int| k <= j < a1.len() ==> a2[j] == b1[j] && b2[j] == a1[j]
}

/// Single-point crossover as a pure function: the children keep their own
/// parent's bits below `point` and exchange the bits from `point` on.
pub fn crossover_pair(parent_a: &Actor, parent_b: &Actor, point: usize) -> (r: (Actor, Actor))
    requires
        parent_a.bitstring@.len() == parent_b.bitstring@.len(),
        point as int <= parent_a.bitstring@.len(),
    ensures
        crossed(
            parent_a.bitstring@,
            parent_b.bitstring@,
            r.0.bitstring@,
            r.1.bitstring@,
            point as int,
        ),
{
    let n = parent_a.bitstring.len();
    let mut child_a: Vec<bool> = Vec::new();
    let mut child_b: Vec<bool> = Vec::new();
    let mut j: usize = 0;
    while j < n
        invariant
            j <= n,
            n == parent_a.bitstring@.len(),
            n == parent_b.bitstring@.len(),
            point as int <= n,
            child_a@.len() == j,
            child_b@.len() == j,
            forall|t: int| 0 <= t < j && t < point ==> child_a@[t] == parent_a.bitstring@[t]
                && child_b@[t] == parent_b.bitstring@[t],
            forall|t: int| point <= t < j ==> child_a@[t] == parent_b.bitstring@[t]
                && child_b@[t] == parent_a.bitstring@[t],
        decreases n - j,
    {
        if j < point {
            child_a.push(parent_a.bitstring[j]);
            child_b.push(parent_b.bitstring[j]);
        } else {
            child_a.push(parent_b.bitstring[j]);
            child_b.push(parent_a.bitstring[j]);
        }
        j = j + 1;
    }
    (Actor { bitstring: child_a }, Actor { bitstring: child_b })
}

} // verus!
