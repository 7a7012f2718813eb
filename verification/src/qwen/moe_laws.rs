//! What holds of the mixture of experts: which experts a row takes, with which
//! weights, and what their results come to.

use super::experts::{activations, gathered, routed_sum, row_sum};
use super::moe::{
    are_routes, assignments, choosable, exponentials, first_refused, is_refusal, is_route, largest,
    occurrences, orders, plain_sum, router_probabilities, rows_to, selected, tops, MoeError, Route,
};
use super::reference_model::with_shared;
use super::scan::peak_of;
use crate::arithmetic::Arithmetic;
use crate::sums::{running_peak, running_total, sum_to};
use vstd::prelude::*;

verus! {

proof fn lemma_plain_sum<T, A: Arithmetic<T>>(math: A, s: Seq<T>, terms: Seq<T>)
    requires
        terms.len() <= s.len(),
        terms == s.take(terms.len() as int),
    ensures
        plain_sum(math, s, terms.len() as int) == running_total(math, math.empty_of(), terms),
    decreases terms.len(),
{
    if terms.len() > 0 {
        assert(terms.drop_last() =~= s.take(terms.len() - 1));
        assert(terms.last() == s[terms.len() - 1]);
        lemma_plain_sum(math, s, terms.drop_last());
    }
}

/// The largest of the first numbers of a list.
pub proof fn lemma_peak<T, A: Arithmetic<T>>(math: A, s: Seq<T>, n: int)
    requires
        0 <= n <= s.len(),
    ensures
        peak_of(math, s, n) == running_peak(math, s.take(n)),
    decreases n,
{
    if n > 0 {
        assert(s.take(n).drop_last() =~= s.take(n - 1));
        lemma_peak(math, s, n - 1);
    }
}

/// Whether numbers are the softmax of a router's scores: each is the exponential
/// of how far its score is below the largest, over the sum of these.
pub open spec fn is_softmax<T, A: Arithmetic<T>>(math: A, scores: Seq<T>, p: Seq<T>) -> bool {
    &&& p.len() == scores.len()
    &&& forall|j: int|
        0 <= j < p.len() ==> #[trigger] p[j] == math.quotient(
            math.exponential(math.difference(scores[j], running_peak(math, scores))),
            running_total(
                math,
                math.empty_of(),
                Seq::new(
                    scores.len(),
                    |i: int|
                        math.exponential(math.difference(scores[i], running_peak(math, scores))),
                ),
            ),
        )
}

pub(super) proof fn lemma_softmax<T, A: Arithmetic<T>>(math: A, scores: Seq<T>, p: Seq<T>)
    requires
        is_softmax(math, scores, p),
    ensures
        p == router_probabilities(math, scores),
{
    let e = exponentials(math, scores);
    assert(scores.take(scores.len() as int) =~= scores);
    lemma_peak(math, scores, scores.len() as int);
    assert(e =~= Seq::new(
        scores.len(),
        |i: int| math.exponential(math.difference(scores[i], running_peak(math, scores))),
    ));
    assert(e.take(scores.len() as int) =~= e);
    lemma_plain_sum(math, e, e);
    assert(p =~= router_probabilities(math, scores));
}

/// The weight at a place of a route is the router's probability of the expert at
/// that place: as it is, or over the sum of the probabilities of all the experts
/// of the route. The experts are as many as asked for, and different ones.
pub proof fn a_weight_belongs_to_its_expert<T, A: Arithmetic<T>>(
    math: A,
    route: Route<T>,
    scores: Seq<T>,
    p: Seq<T>,
    k: int,
    normalize: bool,
    i: int,
)
    requires
        0 <= i < k,
        is_route(route, math, scores, k, normalize),
        is_softmax(math, scores, p),
    ensures
        route.experts@.len() == k,
        route.weights@.len() == k,
        route.logits@ == scores,
        route.experts@[i] < scores.len(),
        forall|j: int| 0 <= j < k && j != i ==> route.experts@[i] != #[trigger] route.experts@[j],
        !normalize ==> route.weights@[i] == p[route.experts@[i] as int],
        normalize ==> route.weights@[i] == math.quotient(
            p[route.experts@[i] as int],
            running_total(
                math,
                math.empty_of(),
                Seq::new(k as nat, |j: int| p[route.experts@[j] as int]),
            ),
        ),
{
    lemma_softmax(math, scores, p);
    let raw = Seq::new(k as nat, |j: int| p[route.experts@[j] as int]);
    assert(raw.take(k) =~= raw);
    lemma_plain_sum(math, raw, raw);
    assert(raw =~= Seq::new(
        route.experts@.len(),
        |j: int| router_probabilities(math, scores)[route.experts@[j] as int],
    ));
}

/// A route takes the best experts, the best first: where the probabilities are in
/// an order, no expert is above one that stands before it in the route, and none
/// that was left out is above any that was taken.
pub proof fn a_route_takes_the_best<T, A: Arithmetic<T>>(
    math: A,
    route: Route<T>,
    scores: Seq<T>,
    p: Seq<T>,
    k: int,
    normalize: bool,
    i: int,
    other: int,
)
    requires
        0 <= i < k,
        0 <= other < scores.len() <= usize::MAX,
        is_route(route, math, scores, k, normalize),
        is_softmax(math, scores, p),
        forall|a: int, b: int| #![trigger p[a], p[b]]
            0 <= a < p.len() && 0 <= b < p.len() && math.is_above(p[a], p[b]) ==> !math.is_above(
                p[b],
                p[a],
            ),
        forall|a: int, b: int, c: int| #![trigger p[a], p[b], p[c]]
            0 <= a < p.len() && 0 <= b < p.len() && 0 <= c < p.len() && math.is_above(p[a], p[b])
                ==> math.is_above(p[a], p[c]) || math.is_above(p[c], p[b]),
        forall|j: int| 0 <= j < i ==> #[trigger] route.experts@[j] != other,
    ensures
        !math.is_above(p[other], p[route.experts@[i] as int]),
{
    lemma_softmax(math, scores, p);
    assert(orders(math, p));
    assert(!route.experts@.take(i).contains(other as usize)) by {
        if route.experts@.take(i).contains(other as usize) {
            let j = choose|j: int|
                0 <= j < i && route.experts@.take(i)[j] == other as usize;
            assert(route.experts@[j] == other);
        }
    }
    assert(tops(math, p, route.experts@));
    assert(p[other] == p[other] && route.experts@[i] == route.experts@[i]);
}

proof fn lemma_row_sum<T, A: Arithmetic<T>>(
    math: A,
    weights: Seq<T>,
    results: Seq<Seq<T>>,
    hidden: nat,
    terms: Seq<T>,
    c: int,
)
    requires
        0 <= c < hidden,
        forall|i: int|
            0 <= i < terms.len() ==> #[trigger] terms[i] == math.product(results[i][c], weights[i]),
    ensures
        row_sum(math, weights, results, hidden, terms.len() as int)[c] == running_total(
            math,
            math.zero_of(),
            terms,
        ),
        row_sum(math, weights, results, hidden, terms.len() as int).len() == hidden,
    decreases terms.len(),
{
    if terms.len() > 0 {
        let fewer = terms.drop_last();
        assert forall|i: int| 0 <= i < fewer.len() implies #[trigger] fewer[i] == math.product(
            results[i][c],
            weights[i],
        ) by {
            assert(fewer[i] == terms[i]);
        }
        lemma_row_sum(math, weights, results, hidden, fewer, c);
        assert(terms.last() == terms[terms.len() - 1]);
    }
}

proof fn lemma_routed<T, A: Arithmetic<T>>(
    math: A,
    routes: Seq<Route<T>>,
    results: Seq<Seq<Seq<T>>>,
    hidden: nat,
    rows: int,
    row: int,
    c: int,
)
    requires
        0 <= row < rows,
        0 <= c < hidden,
    ensures
        routed_sum(math, routes, results, hidden, rows).len() == rows * hidden,
        routed_sum(math, routes, results, hidden, rows)[row * hidden + c] == row_sum(
            math,
            routes[row].weights@,
            results[row],
            hidden,
            routes[row].weights@.len() as int,
        )[c],
    decreases rows,
{
    super::experts::lemma_routed_len(math, routes, results, hidden, rows);
    super::experts::lemma_routed_len(math, routes, results, hidden, rows - 1);
    assert((rows - 1) * hidden + hidden == rows * hidden) by (nonlinear_arith);
    if row < rows - 1 {
        lemma_routed(math, routes, results, hidden, rows - 1, row, c);
        assert(0 <= row * hidden && row * hidden + hidden <= (rows - 1) * hidden)
            by (nonlinear_arith)
            requires
                0 <= row < rows - 1,
                0 <= hidden,
        ;
    } else {
        assert(row * hidden == (rows - 1) * hidden);
    }
}

/// What a layer gives out for a token: the results of the experts of its route,
/// each under the weight that stands at the same place of the route, added up in
/// the order of the route, and the shared expert's result, scaled by how far the
/// token selects it.
pub proof fn a_token_gets_its_weighted_experts<T, A: Arithmetic<T>>(
    math: A,
    routes: Seq<Route<T>>,
    results: Seq<Seq<Seq<T>>>,
    shared: Seq<T>,
    selected: Seq<T>,
    hidden: nat,
    row: int,
    c: int,
)
    requires
        0 <= row < routes.len(),
        0 <= c < hidden,
    ensures
        with_shared(
            math,
            routed_sum(math, routes, results, hidden, routes.len() as int),
            shared,
            selected,
            hidden as int,
        )[row * hidden + c] == math.sum(
            running_total(
                math,
                math.zero_of(),
                Seq::new(
                    routes[row].weights@.len(),
                    |i: int| math.product(results[row][i][c], routes[row].weights@[i]),
                ),
            ),
            math.product(shared[row * hidden + c], selected[row]),
        ),
{
    let terms = Seq::new(
        routes[row].weights@.len(),
        |i: int| math.product(results[row][i][c], routes[row].weights@[i]),
    );
    lemma_row_sum(math, routes[row].weights@, results[row], hidden, terms, c);
    lemma_routed(math, routes, results, hidden, routes.len() as int, row, c);
    super::scan::lemma_cell(row, hidden as int, c);
    assert(0 <= row * hidden && row * hidden + hidden <= routes.len() * hidden)
        by (nonlinear_arith)
        requires
            0 <= row < routes.len(),
            0 <= hidden,
    ;
}

/// Between an expert's matrices every column of a row has two numbers: the first,
/// over one plus the exponential of its opposite, is multiplied by the second. The
/// first numbers of a row stand before its second ones.
pub proof fn an_expert_gates_column_by_column<T, A: Arithmetic<T>>(
    math: A,
    gate_up: Seq<T>,
    rows: int,
    width: int,
    row: int,
    column: int,
)
    requires
        0 <= row < rows,
        0 <= column < width,
    ensures
        activations(math, gate_up, rows, width)[row * width + column] == ({
            let gate = gate_up[row * (2 * width) + column];
            let up = gate_up[row * (2 * width) + width + column];
            math.product(
                math.quotient(
                    gate,
                    math.sum(math.one_of(), math.exponential(math.negative(gate))),
                ),
                up,
            )
        }),
{
    super::scan::lemma_cell(row, width, column);
    assert(0 <= row * width && row * width + width <= rows * width && row * 2 * width == row * (2
        * width)) by (nonlinear_arith)
        requires
            0 <= row < rows,
            0 <= width,
    ;
}

/// How the first rows are spread over the experts below `e`.
proof fn lemma_row_spread(list: Seq<usize>, count: int, n: int)
    requires
        0 <= count,
        0 <= n <= list.len(),
        forall|i: int| 0 <= i < n ==> #[trigger] list[i] < count,
    ensures
        sum_to(|e: int| occurrences(list, e, n) as int, count) == n,
    decreases n,
{
    let now = |e: int| occurrences(list, e, n) as int;
    if n > 0 {
        lemma_row_spread(list, count, n - 1);
        let before = |e: int| occurrences(list, e, n - 1) as int;
        assert(list[n - 1] < count);
        lemma_one_more(before, now, list[n - 1] as int, count);
    } else {
        lemma_nothing(now, count);
    }
}

proof fn lemma_nothing(f: spec_fn(int) -> int, n: int)
    requires
        forall|i: int| 0 <= i < n ==> #[trigger] f(i) == 0,
    ensures
        sum_to(f, n) == 0,
    decreases n,
{
    if n > 0 {
        lemma_nothing(f, n - 1);
        assert(f(n - 1) == 0);
    }
}

proof fn lemma_one_more(
    before: spec_fn(int) -> int,
    now: spec_fn(int) -> int,
    at: int,
    n: int,
)
    requires
        0 <= at,
        forall|i: int|
            0 <= i < n ==> #[trigger] now(i) == before(i) + if i == at {
                1int
            } else {
                0int
            },
    ensures
        sum_to(now, n) == sum_to(before, n) + if at < n {
            1int
        } else {
            0int
        },
    decreases n,
{
    if n > 0 {
        lemma_one_more(before, now, at, n - 1);
        assert(now(n - 1) == before(n - 1) + if n - 1 == at {
            1int
        } else {
            0int
        });
    }
}

proof fn lemma_add(f: spec_fn(int) -> int, g: spec_fn(int) -> int, h: spec_fn(int) -> int, n: int)
    requires
        forall|i: int| 0 <= i < n ==> #[trigger] h(i) == f(i) + g(i),
    ensures
        sum_to(h, n) == sum_to(f, n) + sum_to(g, n),
    decreases n,
{
    if n > 0 {
        lemma_add(f, g, h, n - 1);
        assert(h(n - 1) == f(n - 1) + g(n - 1));
    }
}

/// Every assignment of a row goes to one expert: the rows of all experts add up to
/// the assignments of all rows.
pub proof fn every_assignment_goes_to_one_expert(
    experts: Seq<Seq<usize>>,
    count: int,
    rows: int,
)
    requires
        0 <= count,
        0 <= rows <= experts.len(),
        forall|r: int, i: int|
            0 <= r < rows && 0 <= i < experts[r].len() ==> #[trigger] experts[r][i] < count,
    ensures
        sum_to(|e: int| rows_to(experts, e, rows) as int, count) == sum_to(
            |r: int| experts[r].len() as int,
            rows,
        ),
        assignments(experts, rows) == sum_to(|r: int| experts[r].len() as int, rows),
    decreases rows,
{
    let now = |e: int| rows_to(experts, e, rows) as int;
    let lens = |r: int| experts[r].len() as int;
    if rows > 0 {
        every_assignment_goes_to_one_expert(experts, count, rows - 1);
        let before = |e: int| rows_to(experts, e, rows - 1) as int;
        let last = experts[rows - 1];
        assert forall|i: int| 0 <= i < last.len() implies #[trigger] last[i] < count by {
            assert(experts[rows - 1][i] < count);
        }
        lemma_row_spread(last, count, last.len() as int);
        let own = |e: int| occurrences(last, e, last.len() as int) as int;
        lemma_add(before, own, now, count);
        assert(lens(rows - 1) == last.len());
    } else {
        lemma_nothing(now, count);
    }
}

/// The busiest expert has as many rows as some expert has, and none has more; the
/// experts that are counted as selected are those with any rows.
pub proof fn the_busiest_expert_has_the_most_rows(counts: Seq<usize>, n: int, e: int)
    requires
        0 <= e < n <= counts.len(),
    ensures
        counts[e] <= largest(counts, n),
        exists|i: int| 0 <= i < n && #[trigger] counts[i] == largest(counts, n),
        selected(counts, n) == sum_to(
            |i: int|
                if counts[i] > 0 {
                    1int
                } else {
                    0int
                },
            n,
        ),
    decreases n,
{
    if n == 1 {
        reveal_with_fuel(largest, 2);
        reveal_with_fuel(selected, 2);
        reveal_with_fuel(sum_to, 2);
        assert(counts[0] == largest(counts, n));
    } else {
        the_busiest_expert_has_the_most_rows(counts, n - 1, if e < n - 1 { e } else { 0 });
        let i = choose|i: int| 0 <= i < n - 1 && #[trigger] counts[i] == largest(counts, n - 1);
        assert(counts[i] == largest(counts, n - 1));
        assert(counts[n - 1] == counts[n - 1]);
    }
}

/// An expert is given the rows that were assigned to it, in the order of its slots.
pub proof fn an_expert_is_given_its_rows<T>(
    flat: Seq<T>,
    hidden: int,
    slots: Seq<(usize, usize)>,
    n: int,
    k: int,
    c: int,
)
    requires
        0 <= k < n <= slots.len(),
        0 <= c < hidden,
        forall|i: int| 0 <= i < n ==> (#[trigger] slots[i]).0 * hidden + hidden <= flat.len(),
    ensures
        gathered(flat, hidden, slots, n).len() == n * hidden,
        gathered(flat, hidden, slots, n)[k * hidden + c] == flat[slots[k].0 * hidden + c],
    decreases n,
{
    assert(slots[n - 1].0 * hidden + hidden <= flat.len());
    assert(0 <= slots[n - 1].0 * hidden && 0 <= k * hidden && (n - 1) * hidden + hidden == n
        * hidden && (k < n - 1 ==> k * hidden + hidden <= (n - 1) * hidden)) by (nonlinear_arith)
        requires
            0 <= k < n,
            0 <= hidden,
    ;
    if n > 1 {
        an_expert_is_given_its_rows(
            flat,
            hidden,
            slots,
            n - 1,
            if k < n - 1 {
                k
            } else {
                0
            },
            c,
        );
    } else {
        assert((n - 1) * hidden == 0) by (nonlinear_arith)
            requires
                n == 1,
        ;
        assert(gathered(flat, hidden, slots, 0).len() == 0);
    }
    let fewer = gathered(flat, hidden, slots, n - 1);
    let row = slots[n - 1].0 as int;
    assert(fewer.len() == (n - 1) * hidden);
    assert(gathered(flat, hidden, slots, n) == fewer + flat.subrange(
        row * hidden,
        row * hidden + hidden,
    ));
    if k < n - 1 {
        assert(gathered(flat, hidden, slots, n)[k * hidden + c] == fewer[k * hidden + c]);
    } else {
        assert(k * hidden == (n - 1) * hidden);
    }
}

/// Every row of a pass has a route of its own, from its own scores.
pub proof fn every_row_has_its_own_route<T, A: Arithmetic<T>>(
    math: A,
    routes: Seq<Route<T>>,
    rows: Seq<Vec<T>>,
    k: int,
    normalize: bool,
    r: int,
)
    requires
        are_routes(routes, math, rows, k, normalize),
        0 <= r < rows.len(),
    ensures
        routes.len() == rows.len(),
        0 < k <= rows[r]@.len(),
        is_route(routes[r], math, rows[r]@, k, normalize),
        routes[r].logits@ == rows[r]@,
{
    assert(choosable(rows[r]@, k));
}

/// A pass is refused only for a row in which as many experts cannot be chosen, and
/// for the first of these.
pub proof fn a_refusal_names_the_first_row<T>(error: MoeError, rows: Seq<Vec<T>>, k: usize)
    requires
        is_refusal(error, rows, k),
    ensures
        exists|r: int|
            {
                &&& 0 <= r < rows.len()
                &&& k == 0 || k > (#[trigger] rows[r])@.len()
                &&& error == (MoeError::TopK { k, experts: rows[r]@.len() as usize })
                &&& forall|s: int| 0 <= s < r ==> 0 < k <= (#[trigger] rows[s])@.len()
            },
{
    let r = choose|r: int| #[trigger]
        first_refused(rows, k as int, r) && error == (MoeError::TopK {
            k,
            experts: rows[r]@.len() as usize,
        });
    assert(!choosable(rows[r]@, k as int));
    assert forall|s: int| 0 <= s < r implies 0 < k <= (#[trigger] rows[s])@.len() by {
        assert(choosable(rows[s]@, k as int));
    }
}

} // verus!
