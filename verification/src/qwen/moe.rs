//! The mixture of experts between its matrices: which experts a row goes to,
//! which rows an expert gets, and how the experts' results are put together.

use super::scan::peak_of;
use super::timings::QuantizedMoeRoutingStats;
use crate::arithmetic::Arithmetic;
use crate::buffers::{copied, filled};
use vstd::prelude::*;

verus! {

/// Where a row goes: its experts, the best first, with their weights, and the
/// router's scores of all experts.
#[derive(Debug, Clone, PartialEq)]
pub struct Route<T> {
    pub experts: Vec<usize>,
    pub weights: Vec<T>,
    pub logits: Vec<T>,
}

/// Why a layer's weights or a pass are refused.
#[derive(Debug, Clone, PartialEq, Eq)]
pub enum MoeError {
    /// A tensor is missing.
    MissingTensor { name: String },
    /// The router is not a matrix.
    RouterRank,
    /// The fused expert tensors are not stacks of matrices.
    ExpertRank,
    /// As many experts cannot be chosen.
    TopK { k: usize, experts: usize },
    /// The experts' gate matrices have another shape.
    GateShape,
    /// The down matrices of the experts have another shape.
    DownShape,
    /// The up matrices of the experts differ in shape from their gate matrices.
    UpShape,
    /// The shared expert's matrices do not fit together.
    SharedShape,
    /// What selects the shared expert has another length.
    SelectorLength,
    /// The input is not made of whole rows.
    PartialRow,
    /// A row's expert has no result.
    MissingResult,
}

/// The exponentials of scores, each taken below the largest score.
pub open spec fn exponentials<T, A: Arithmetic<T>>(math: A, row: Seq<T>) -> Seq<T> {
    Seq::new(
        row.len(),
        |i: int| math.exponential(math.difference(row[i], peak_of(math, row, row.len() as int))),
    )
}

/// The sum of the first `n` numbers, from the empty sum on.
pub open spec fn plain_sum<T, A: Arithmetic<T>>(math: A, s: Seq<T>, n: int) -> T
    decreases n,
{
    if n <= 0 {
        math.empty_of()
    } else {
        math.sum(plain_sum(math, s, n - 1), s[n - 1])
    }
}

/// The router's probabilities.
pub open spec fn router_probabilities<T, A: Arithmetic<T>>(math: A, row: Seq<T>) -> Seq<T> {
    let e = exponentials(math, row);
    Seq::new(row.len(), |i: int| math.quotient(e[i], plain_sum(math, e, row.len() as int)))
}

/// The sum of the first `n` numbers, from the empty sum on.
fn summed<T: Copy, A: Arithmetic<T>>(math: &A, list: &Vec<T>) -> (total: T)
    ensures
        total == plain_sum(*math, list@, list@.len() as int),
{
    let mut total: T = math.empty_sum();
    let mut i: usize = 0;
    while i < list.len()
        invariant
            i <= list@.len(),
            total == plain_sum(*math, list@, i as int),
        decreases list@.len() - i,
    {
        total = math.plus(total, list[i]);
        i += 1;
    }
    total
}

/// The router's probabilities.
pub fn probabilities<T: Copy, A: Arithmetic<T>>(math: &A, row: &Vec<T>) -> (p: Vec<T>)
    ensures
        p@ == router_probabilities(*math, row@),
{
    let n: usize = row.len();
    let mut max: T = math.lowest();
    let mut i: usize = 0;
    while i < n
        invariant
            n == row@.len(),
            i <= n,
            max == peak_of(*math, row@, i as int),
        decreases n - i,
    {
        max = math.max(max, row[i]);
        i += 1;
    }
    let mut e: Vec<T> = Vec::new();
    let mut j: usize = 0;
    while j < n
        invariant
            n == row@.len(),
            max == peak_of(*math, row@, n as int),
            j <= n,
            e@ == exponentials(*math, row@).take(j as int),
        decreases n - j,
    {
        e.push(math.exp(math.minus(row[j], max)));
        j += 1;
        proof {
            assert(e@ =~= exponentials(*math, row@).take(j as int));
        }
    }
    proof {
        assert(e@ =~= exponentials(*math, row@));
    }
    let denominator: T = summed(math, &e);
    let mut p: Vec<T> = Vec::new();
    let mut k: usize = 0;
    while k < n
        invariant
            n == row@.len(),
            e@ == exponentials(*math, row@),
            denominator == plain_sum(*math, e@, n as int),
            k <= n,
            p@ == router_probabilities(*math, row@).take(k as int),
        decreases n - k,
    {
        p.push(math.over(e[k], denominator));
        k += 1;
        proof {
            assert(p@ =~= router_probabilities(*math, row@).take(k as int));
        }
    }
    proof {
        assert(p@ =~= router_probabilities(*math, row@));
    }
    p
}

/// Whether `above` puts numbers in an order: of two, at most one is above the
/// other, and what is above something is above a third or that is above it too.
pub open spec fn orders<T, A: Arithmetic<T>>(math: A, p: Seq<T>) -> bool {
    &&& forall|a: int, b: int| #![trigger p[a], p[b]]
        0 <= a < p.len() && 0 <= b < p.len() && math.is_above(p[a], p[b]) ==> !math.is_above(
            p[b],
            p[a],
        )
    &&& forall|a: int, b: int, c: int| #![trigger p[a], p[b], p[c]]
        0 <= a < p.len() && 0 <= b < p.len() && 0 <= c < p.len() && math.is_above(p[a], p[b])
            ==> math.is_above(p[a], p[c]) || math.is_above(p[c], p[b])
}

/// Whether positions are different ones of a list.
pub open spec fn distinct_below(chosen: Seq<usize>, n: int) -> bool {
    &&& forall|i: int| 0 <= i < chosen.len() ==> (#[trigger] chosen[i]) < n
    &&& forall|i: int, j: int|
        0 <= i < j < chosen.len() ==> #[trigger] chosen[i] != #[trigger] chosen[j]
}

/// Whether nothing that is not chosen is above the last one that is.
pub open spec fn tops<T, A: Arithmetic<T>>(math: A, p: Seq<T>, chosen: Seq<usize>) -> bool {
    forall|i: int, u: int| #![trigger chosen[i], p[u]]
        0 <= i < chosen.len() && 0 <= u < p.len() && !chosen.take(i).contains(u as usize)
            ==> !math.is_above(p[u], p[chosen[i] as int])
}

/// Whether a position is among the chosen ones.
fn is_chosen(chosen: &Vec<usize>, at: usize) -> (found: bool)
    ensures
        found == chosen@.contains(at),
{
    let mut i: usize = 0;
    while i < chosen.len()
        invariant
            i <= chosen@.len(),
            forall|k: int| 0 <= k < i ==> chosen@[k] != at,
        decreases chosen@.len() - i,
    {
        if chosen[i] == at {
            return true;
        }
        i += 1;
    }
    false
}

/// Chosen positions below the number of all leave one that is not chosen.
proof fn lemma_one_left(chosen: Seq<usize>, n: int)
    requires
        distinct_below(chosen, n),
        chosen.len() < n <= usize::MAX,
    ensures
        exists|u: usize| u < n && !#[trigger] chosen.contains(u),
{
    if forall|u: usize| u < n ==> #[trigger] chosen.contains(u) {
        let all: Set<usize> = chosen.to_set();
        let low: Set<int> = vstd::set_lib::set_int_range(0, n);
        vstd::set_lib::lemma_int_range(0, n);
        let as_int: Seq<int> = Seq::new(chosen.len(), |i: int| chosen[i] as int);
        as_int.unique_seq_to_set();
        assert(as_int.to_set().len() == chosen.len());
        assert forall|x: int| low.contains(x) implies as_int.to_set().contains(x) by {
            assert(chosen.contains(x as usize));
            let i = choose|i: int| 0 <= i < chosen.len() && chosen[i] == x as usize;
            assert(as_int[i] == x);
        }
        vstd::seq_lib::seq_to_set_is_finite(as_int);
        vstd::set_lib::lemma_len_subset(low, as_int.to_set());
    }
}

/// The `k` best positions, the best first. Of equals the first comes first.
fn best<T: Copy, A: Arithmetic<T>>(math: &A, p: &Vec<T>, k: usize) -> (chosen: Vec<usize>)
    requires
        k <= p@.len(),
    ensures
        chosen@.len() == k,
        distinct_below(chosen@, p@.len() as int),
        orders(*math, p@) ==> tops(*math, p@, chosen@),
{
    let n: usize = p.len();
    let mut chosen: Vec<usize> = Vec::new();
    while chosen.len() < k
        invariant
            n == p@.len(),
            k <= n,
            chosen@.len() <= k,
            distinct_below(chosen@, n as int),
            orders(*math, p@) ==> tops(*math, p@, chosen@),
        decreases k - chosen@.len(),
    {
        proof {
            lemma_one_left(chosen@, n as int);
        }
        let mut found: bool = false;
        let mut top: usize = 0;
        let mut i: usize = 0;
        while i < n
            invariant
                n == p@.len(),
                i <= n,
                found ==> top < i && !chosen@.contains(top),
                !found ==> forall|u: usize| u < i ==> #[trigger] chosen@.contains(u),
                orders(*math, p@) && found ==> forall|u: int| #![trigger p@[u]]
                    0 <= u < i && !chosen@.contains(u as usize) ==> !math.is_above(
                        p@[u],
                        p@[top as int],
                    ),
            decreases n - i,
        {
            if !is_chosen(&chosen, i) {
                if !found {
                    found = true;
                    top = i;
                } else if math.above(p[i], p[top]) {
                    proof {
                        if orders(*math, p@) {
                            assert forall|u: int| #![trigger p@[u]]
                                0 <= u < i && !chosen@.contains(u as usize) implies !math.is_above(
                                p@[u],
                                p@[i as int],
                            ) by {
                                let old_top = p@[top as int];
                                assert(!math.is_above(p@[u], old_top));
                                if math.is_above(p@[u], p@[i as int]) {
                                    assert(math.is_above(p@[u], old_top) || math.is_above(
                                        old_top,
                                        p@[i as int],
                                    ));
                                }
                            }
                        }
                    }
                    top = i;
                }
            }
            i += 1;
        }
        let ghost before = chosen@;
        proof {
            assert(found);
        }
        chosen.push(top);
        proof {
            assert(chosen@.take(before.len() as int) =~= before);
            assert forall|a: int, b: int| 0 <= a < b < chosen@.len() implies #[trigger] chosen@[a]
                != #[trigger] chosen@[b] by {
                if b == before.len() {
                    assert(before.contains(before[a]));
                }
            }
            if orders(*math, p@) {
                assert forall|j: int, u: int| #![trigger chosen@[j], p@[u]]
                    0 <= j < chosen@.len() && 0 <= u < p@.len() && !chosen@.take(j).contains(
                        u as usize,
                    ) implies !math.is_above(p@[u], p@[chosen@[j] as int]) by {
                    if j < before.len() {
                        assert(chosen@.take(j) =~= before.take(j));
                        assert(chosen@[j] == before[j]);
                    }
                }
            }
        }
    }
    chosen
}

/// The weights of chosen experts, brought to a sum of one where that is asked
/// for.
pub open spec fn chosen_weights<T, A: Arithmetic<T>>(
    math: A,
    p: Seq<T>,
    chosen: Seq<usize>,
    normalize: bool,
) -> Seq<T> {
    let raw = Seq::new(chosen.len(), |i: int| p[chosen[i] as int]);
    if normalize {
        Seq::new(
            chosen.len(),
            |i: int| math.quotient(raw[i], plain_sum(math, raw, chosen.len() as int)),
        )
    } else {
        raw
    }
}

/// Whether a route is one of a router's row: as many experts as asked for, no
/// expert that is left out above one that is chosen, and the weights of the
/// chosen.
pub open spec fn is_route<T, A: Arithmetic<T>>(
    route: Route<T>,
    math: A,
    row: Seq<T>,
    k: int,
    normalize: bool,
) -> bool {
    let p = router_probabilities(math, row);
    &&& route.experts@.len() == k
    &&& distinct_below(route.experts@, row.len() as int)
    &&& orders(math, p) ==> tops(math, p, route.experts@)
    &&& route.weights@ == chosen_weights(math, p, route.experts@, normalize)
    &&& route.logits@ == row
}

/// The route of one row of router scores.
pub fn top_k_route<T: Copy, A: Arithmetic<T>>(
    math: &A,
    row: &Vec<T>,
    k: usize,
    normalize: bool,
) -> (route: Result<Route<T>, MoeError>)
    ensures
        match route {
            Ok(route) => 0 < k <= row@.len() && is_route(route, *math, row@, k as int, normalize),
            Err(error) => {
                &&& k == 0 || k > row@.len()
                &&& error == MoeError::TopK { k, experts: row@.len() as usize }
            },
        },
{
    let n: usize = row.len();
    if k == 0 || k > n {
        return Err(MoeError::TopK { k, experts: n });
    }
    let p = probabilities(math, row);
    let experts = best(math, &p, k);
    let mut weights: Vec<T> = Vec::new();
    let mut i: usize = 0;
    while i < k
        invariant
            p@.len() == n,
            experts@.len() == k,
            distinct_below(experts@, n as int),
            i <= k,
            weights@.len() == i,
            forall|j: int| 0 <= j < i ==> #[trigger] weights@[j] == p@[experts@[j] as int],
        decreases k - i,
    {
        weights.push(p[experts[i]]);
        i += 1;
    }
    let ghost raw = weights@;
    proof {
        assert(raw =~= Seq::new(k as nat, |i: int| p@[experts@[i] as int]));
    }
    if normalize {
        let sum: T = summed(math, &weights);
        let mut j: usize = 0;
        while j < k
            invariant
                raw.len() == k,
                sum == plain_sum(*math, raw, k as int),
                j <= k,
                weights@.len() == k,
                forall|x: int|
                    0 <= x < k ==> #[trigger] weights@[x] == if x < j {
                        math.quotient(raw[x], sum)
                    } else {
                        raw[x]
                    },
            decreases k - j,
        {
            weights.set(j, math.over(weights[j], sum));
            j += 1;
        }
    }
    proof {
        assert(weights@ =~= chosen_weights(*math, p@, experts@, normalize));
    }
    Ok(Route { experts, weights, logits: copied(row.as_slice()) })
}

/// Whether as many experts can be chosen in a row.
pub open spec fn choosable<T>(row: Seq<T>, k: int) -> bool {
    0 < k <= row.len()
}

/// Whether a row is the first in which as many experts cannot be chosen.
pub open spec fn first_refused<T>(rows: Seq<Vec<T>>, k: int, r: int) -> bool {
    &&& 0 <= r < rows.len()
    &&& !choosable(rows[r]@, k)
    &&& forall|s: int| 0 <= s < r ==> choosable((#[trigger] rows[s])@, k)
}

/// Whether an error tells of the first row in which as many experts cannot be
/// chosen.
pub open spec fn is_refusal<T>(error: MoeError, rows: Seq<Vec<T>>, k: usize) -> bool {
    exists|r: int| #[trigger]
        first_refused(rows, k as int, r) && error == (MoeError::TopK {
            k,
            experts: rows[r]@.len() as usize,
        })
}

/// Whether these are the routes of the rows.
pub open spec fn are_routes<T, A: Arithmetic<T>>(
    routes: Seq<Route<T>>,
    math: A,
    rows: Seq<Vec<T>>,
    k: int,
    normalize: bool,
) -> bool {
    &&& routes.len() == rows.len()
    &&& forall|r: int|
        0 <= r < rows.len() ==> is_route(#[trigger] routes[r], math, rows[r]@, k, normalize)
    &&& forall|r: int| 0 <= r < rows.len() ==> choosable((#[trigger] rows[r])@, k)
}

/// The routes of the rows of a pass.
pub fn top_k_routes<T: Copy, A: Arithmetic<T>>(
    math: &A,
    rows: &Vec<Vec<T>>,
    k: usize,
    normalize: bool,
) -> (routes: Result<Vec<Route<T>>, MoeError>)
    ensures
        match routes {
            Ok(routes) => are_routes(routes@, *math, rows@, k as int, normalize),
            Err(error) => is_refusal(error, rows@, k),
        },
{
    let mut routes: Vec<Route<T>> = Vec::new();
    let mut r: usize = 0;
    while r < rows.len()
        invariant
            r <= rows@.len(),
            routes@.len() == r,
            forall|s: int|
                0 <= s < r ==> is_route(
                    #[trigger] routes@[s],
                    *math,
                    rows@[s]@,
                    k as int,
                    normalize,
                ),
            forall|s: int| 0 <= s < r ==> choosable((#[trigger] rows@[s])@, k as int),
        decreases rows@.len() - r,
    {
        match top_k_route(math, &rows[r], k, normalize) {
            Ok(route) => {
                routes.push(route);
            },
            Err(error) => {
                proof {
                    assert(first_refused(rows@, k as int, r as int));
                    assert(is_refusal(error, rows@, k));
                }
                return Err(error);
            },
        }
        r += 1;
    }
    Ok(routes)
}

/// The experts of each route.
pub open spec fn chosen_experts<T>(routes: Seq<Route<T>>) -> Seq<Seq<usize>> {
    Seq::new(routes.len(), |r: int| routes[r].experts@)
}

/// How often a number occurs among the first `n`.
pub open spec fn occurrences(list: Seq<usize>, e: int, n: int) -> nat
    decreases n,
{
    if n <= 0 {
        0
    } else {
        occurrences(list, e, n - 1) + if list[n - 1] == e {
            1nat
        } else {
            0nat
        }
    }
}

/// How many rows, of the first `rows`, go to an expert.
pub open spec fn rows_to(experts: Seq<Seq<usize>>, e: int, rows: int) -> nat
    decreases rows,
{
    if rows <= 0 {
        0
    } else {
        rows_to(experts, e, rows - 1) + occurrences(
            experts[rows - 1],
            e,
            experts[rows - 1].len() as int,
        )
    }
}

/// How many assignments the first `rows` rows have.
pub open spec fn assignments(experts: Seq<Seq<usize>>, rows: int) -> nat
    decreases rows,
{
    if rows <= 0 {
        0
    } else {
        assignments(experts, rows - 1) + experts[rows - 1].len()
    }
}

/// How many of the first `n` counts are not zero.
pub open spec fn selected(counts: Seq<usize>, n: int) -> nat
    decreases n,
{
    if n <= 0 {
        0
    } else {
        selected(counts, n - 1) + if counts[n - 1] > 0 {
            1nat
        } else {
            0nat
        }
    }
}

/// The largest of the first `n` counts.
pub open spec fn largest(counts: Seq<usize>, n: int) -> nat
    decreases n,
{
    if n <= 0 {
        0
    } else if counts[n - 1] > largest(counts, n - 1) {
        counts[n - 1] as nat
    } else {
        largest(counts, n - 1)
    }
}

/// How many rows go to each expert.
pub open spec fn expert_counts(experts: Seq<Seq<usize>>, expert_count: int) -> Seq<usize> {
    Seq::new(
        expert_count as nat,
        |e: int| rows_to(experts, e, experts.len() as int) as usize,
    )
}

proof fn lemma_occurrences(list: Seq<usize>, e: int, n: int)
    requires
        0 <= n,
    ensures
        occurrences(list, e, n) <= n,
    decreases n,
{
    if n > 0 {
        lemma_occurrences(list, e, n - 1);
    }
}

proof fn lemma_rows_to(experts: Seq<Seq<usize>>, e: int, rows: int)
    ensures
        rows_to(experts, e, rows) <= assignments(experts, rows),
    decreases rows,
{
    if rows > 0 {
        lemma_rows_to(experts, e, rows - 1);
        lemma_occurrences(experts[rows - 1], e, experts[rows - 1].len() as int);
    }
}

proof fn lemma_assignments_grow(experts: Seq<Seq<usize>>, i: int, j: int)
    requires
        i <= j,
    ensures
        assignments(experts, i) <= assignments(experts, j),
    decreases j,
{
    if i < j && j > 0 {
        lemma_assignments_grow(experts, i, j - 1);
    }
}

/// Every expert of every route is one of the layer's.
pub open spec fn experts_exist(experts: Seq<Seq<usize>>, expert_count: int) -> bool {
    forall|r: int, i: int|
        0 <= r < experts.len() && 0 <= i < experts[r].len() ==> #[trigger] experts[r][i]
            < expert_count
}

impl QuantizedMoeRoutingStats {
    /// How the rows of one pass are spread over experts.
    pub fn from_routes<T>(routes: &Vec<Route<T>>, expert_count: usize) -> (stats: Self)
        requires
            experts_exist(chosen_experts(routes@), expert_count as int),
            assignments(chosen_experts(routes@), routes@.len() as int) <= usize::MAX,
        ensures
            ({
                let counts = expert_counts(chosen_experts(routes@), expert_count as int);
                stats == (QuantizedMoeRoutingStats {
                    batches: 1,
                    rows: routes@.len() as usize,
                    token_expert_assignments: assignments(
                        chosen_experts(routes@),
                        routes@.len() as int,
                    ) as usize,
                    unique_experts_selected: selected(counts, expert_count as int) as usize,
                    max_rows_per_expert: largest(counts, expert_count as int) as usize,
                })
            }),
    {
        let ghost experts = chosen_experts(routes@);
        let mut counts: Vec<usize> = filled(0usize, expert_count);
        let mut total: usize = 0;
        let mut r: usize = 0;
        while r < routes.len()
            invariant
                experts == chosen_experts(routes@),
                experts_exist(experts, expert_count as int),
                assignments(experts, routes@.len() as int) <= usize::MAX,
                r <= routes@.len(),
                total == assignments(experts, r as int),
                counts@.len() == expert_count,
                forall|e: int|
                    0 <= e < expert_count ==> #[trigger] counts@[e] == rows_to(experts, e, r as int),
            decreases routes@.len() - r,
        {
            let n: usize = routes[r].experts.len();
            proof {
                lemma_assignments_grow(experts, r + 1, routes@.len() as int);
            }
            let mut i: usize = 0;
            while i < n
                invariant
                    experts == chosen_experts(routes@),
                    experts_exist(experts, expert_count as int),
                    r < routes@.len(),
                    n == routes@[r as int].experts@.len(),
                    assignments(experts, r + 1) <= usize::MAX,
                    i <= n,
                    total == assignments(experts, r as int) + i,
                    counts@.len() == expert_count,
                    forall|e: int|
                        0 <= e < expert_count ==> #[trigger] counts@[e] == rows_to(experts, e, r as int)
                            + occurrences(experts[r as int], e, i as int),
                decreases n - i,
            {
                let expert: usize = routes[r].experts[i];
                proof {
                    assert(experts[r as int][i as int] == expert);
                    lemma_rows_to(experts, expert as int, r as int);
                    lemma_occurrences(experts[r as int], expert as int, i as int);
                    assert(counts@[expert as int] == rows_to(experts, expert as int, r as int)
                        + occurrences(experts[r as int], expert as int, i as int));
                }
                let more: usize = counts[expert] + 1;
                counts.set(expert, more);
                total = total + 1;
                i += 1;
            }
            r += 1;
        }
        let mut unique: usize = 0;
        let mut max: usize = 0;
        let mut e: usize = 0;
        while e < expert_count
            invariant
                counts@.len() == expert_count,
                e <= expert_count,
                unique == selected(counts@, e as int),
                unique <= e,
                max == largest(counts@, e as int),
            decreases expert_count - e,
        {
            if counts[e] > 0 {
                unique = unique + 1;
            }
            if counts[e] > max {
                max = counts[e];
            }
            e += 1;
        }
        proof {
            assert forall|x: int| 0 <= x < expert_count implies counts@[x] == #[trigger] expert_counts(
                experts,
                expert_count as int,
            )[x] by {
                lemma_rows_to(experts, x, routes@.len() as int);
            }
            assert(counts@ =~= expert_counts(experts, expert_count as int));
        }
        QuantizedMoeRoutingStats {
            batches: 1,
            rows: routes.len(),
            token_expert_assignments: total,
            unique_experts_selected: unique,
            max_rows_per_expert: max,
        }
    }
}

} // verus!
