//! Running the experts of a pass together: the rows of each expert, the
//! activation between its matrices, and the weighted sum of the results.
//!
//! Only the expert matrices are run group by group. The weighted additions keep
//! the order of tokens and routes, which is what makes a grouped pass agree with
//! one that runs token after token to the last bit.

use super::moe::{chosen_experts, experts_exist, MoeError, Route};
use crate::arithmetic::Arithmetic;
use crate::buffers::{append_all, filled, repeated};
use crate::gguf::{tensor_of, GgufCheckpoint, HeaderTensor};
use crate::text::{decimal, decimal_text, joined};
use vstd::prelude::*;
use vstd::slice::slice_subrange;

verus! {

/// In which order a pass runs its experts.
#[derive(Debug, Clone, Copy, PartialEq, Eq, Structural)]
pub enum RoutedExecution {
    TokenMajor,
    GroupedByExpert,
}

impl RoutedExecution {
    /// A single row gains nothing from grouping.
    pub fn for_rows(rows: usize) -> (execution: RoutedExecution)
        ensures
            execution == if rows > 1 {
                RoutedExecution::GroupedByExpert
            } else {
                RoutedExecution::TokenMajor
            },
    {
        if rows > 1 {
            RoutedExecution::GroupedByExpert
        } else {
            RoutedExecution::TokenMajor
        }
    }
}

/// The rows of one expert, each with the place of the expert in its route.
#[derive(Debug, Clone, PartialEq, Eq)]
pub struct ExpertGroup {
    pub expert: usize,
    pub slots: Vec<(usize, usize)>,
}

/// The places, of the first `n` in a route, at which an expert stands.
pub open spec fn places_in(list: Seq<usize>, e: int, row: int, n: int) -> Seq<(usize, usize)>
    decreases n,
{
    if n <= 0 {
        Seq::empty()
    } else if list[n - 1] == e {
        places_in(list, e, row, n - 1).push((row as usize, (n - 1) as usize))
    } else {
        places_in(list, e, row, n - 1)
    }
}

/// The rows, of the first `rows`, that go to an expert.
pub open spec fn slots_of(experts: Seq<Seq<usize>>, e: int, rows: int) -> Seq<(usize, usize)>
    decreases rows,
{
    if rows <= 0 {
        Seq::empty()
    } else {
        slots_of(experts, e, rows - 1) + places_in(
            experts[rows - 1],
            e,
            rows - 1,
            experts[rows - 1].len() as int,
        )
    }
}

/// The groups of the experts below `n` that get rows, in their order.
pub open spec fn groups_below(experts: Seq<Seq<usize>>, n: int) -> Seq<(usize, Seq<(usize, usize)>)>
    decreases n,
{
    if n <= 0 {
        Seq::empty()
    } else {
        let slots = slots_of(experts, n - 1, experts.len() as int);
        if slots.len() > 0 {
            groups_below(experts, n - 1).push(((n - 1) as usize, slots))
        } else {
            groups_below(experts, n - 1)
        }
    }
}

/// The contents of groups.
pub open spec fn group_views(groups: Seq<ExpertGroup>) -> Seq<(usize, Seq<(usize, usize)>)> {
    Seq::new(groups.len(), |g: int| (groups[g].expert, groups[g].slots@))
}

/// The rows that go to an expert.
fn slots_for<T>(routes: &Vec<Route<T>>, expert: usize) -> (slots: Vec<(usize, usize)>)
    ensures
        slots@ == slots_of(chosen_experts(routes@), expert as int, routes@.len() as int),
{
    let ghost experts = chosen_experts(routes@);
    let mut slots: Vec<(usize, usize)> = Vec::new();
    let mut row: usize = 0;
    while row < routes.len()
        invariant
            experts == chosen_experts(routes@),
            row <= routes@.len(),
            slots@ == slots_of(experts, expert as int, row as int),
        decreases routes@.len() - row,
    {
        let n: usize = routes[row].experts.len();
        let ghost before = slots@;
        let mut i: usize = 0;
        proof {
            assert(before + Seq::<(usize, usize)>::empty() =~= before);
        }
        while i < n
            invariant
                experts == chosen_experts(routes@),
                row < routes@.len(),
                n == routes@[row as int].experts@.len(),
                i <= n,
                slots@ == before + places_in(
                    experts[row as int],
                    expert as int,
                    row as int,
                    i as int,
                ),
            decreases n - i,
        {
            if routes[row].experts[i] == expert {
                slots.push((row, i));
            }
            i += 1;
            proof {
                assert(slots@ =~= before + places_in(
                    experts[row as int],
                    expert as int,
                    row as int,
                    i as int,
                ));
            }
        }
        row += 1;
    }
    slots
}

/// Puts the rows that go to the same expert together.
pub fn group_by_expert<T>(routes: &Vec<Route<T>>, expert_count: usize) -> (groups: Vec<ExpertGroup>)
    ensures
        group_views(groups@) == groups_below(chosen_experts(routes@), expert_count as int),
{
    let ghost experts = chosen_experts(routes@);
    let mut groups: Vec<ExpertGroup> = Vec::new();
    let mut expert: usize = 0;
    proof {
        assert(group_views(groups@) =~= groups_below(experts, 0));
    }
    while expert < expert_count
        invariant
            experts == chosen_experts(routes@),
            expert <= expert_count,
            group_views(groups@) == groups_below(experts, expert as int),
        decreases expert_count - expert,
    {
        let slots = slots_for(routes, expert);
        if slots.len() > 0 {
            groups.push(ExpertGroup { expert, slots });
        }
        expert += 1;
        proof {
            assert(group_views(groups@) =~= groups_below(experts, expert as int));
        }
    }
    groups
}

/// Whether a group has a row and a place in its route at the given place.
pub open spec fn is_place(
    groups: Seq<(usize, Seq<(usize, usize)>)>,
    row: int,
    index: int,
    g: int,
    k: int,
) -> bool {
    &&& 0 <= g < groups.len()
    &&& 0 <= k < groups[g].1.len()
    &&& groups[g].1[k] == (row as usize, index as usize)
}

/// Whether some group has a row and a place in its route.
pub open spec fn has_place(
    groups: Seq<(usize, Seq<(usize, usize)>)>,
    row: int,
    index: int,
) -> bool {
    exists|g: int, k: int| #[trigger] is_place(groups, row, index, g, k)
}

/// Whether every row has a result for each of its experts.
pub open spec fn covers(
    groups: Seq<(usize, Seq<(usize, usize)>)>,
    experts: Seq<Seq<usize>>,
) -> bool {
    forall|row: int, i: int|
        0 <= row < experts.len() && 0 <= i < experts[row].len() ==> #[trigger] has_place(
            groups,
            row,
            i,
        )
}

proof fn lemma_places_in(list: Seq<usize>, e: int, row: int, n: int, i: int)
    requires
        0 <= i < n <= list.len(),
        list[i] == e,
    ensures
        places_in(list, e, row, n).contains((row as usize, i as usize)),
    decreases n,
{
    let all = places_in(list, e, row, n);
    if i == n - 1 {
        assert(all.last() == (row as usize, i as usize));
    } else {
        lemma_places_in(list, e, row, n - 1, i);
        let before = places_in(list, e, row, n - 1);
        let k = choose|k: int| 0 <= k < before.len() && before[k] == (row as usize, i as usize);
        assert(all[k] == before[k]);
    }
}

proof fn lemma_slots_of(experts: Seq<Seq<usize>>, e: int, rows: int, row: int, i: int)
    requires
        0 <= row < rows <= experts.len(),
        0 <= i < experts[row].len(),
        experts[row][i] == e,
    ensures
        slots_of(experts, e, rows).contains((row as usize, i as usize)),
    decreases rows,
{
    let all = slots_of(experts, e, rows);
    let before = slots_of(experts, e, rows - 1);
    let last = places_in(experts[rows - 1], e, rows - 1, experts[rows - 1].len() as int);
    if row == rows - 1 {
        lemma_places_in(experts[row], e, row, experts[row].len() as int, i);
        let k = choose|k: int| 0 <= k < last.len() && last[k] == (row as usize, i as usize);
        assert(all[before.len() + k] == last[k]);
    } else {
        lemma_slots_of(experts, e, rows - 1, row, i);
        let k = choose|k: int| 0 <= k < before.len() && before[k] == (row as usize, i as usize);
        assert(all[k] == before[k]);
    }
}

proof fn lemma_groups_below(experts: Seq<Seq<usize>>, e: int, n: int, row: int, i: int)
    requires
        0 <= e < n,
        0 <= row < experts.len(),
        0 <= i < experts[row].len(),
        experts[row][i] == e,
    ensures
        has_place(groups_below(experts, n), row, i),
    decreases n,
{
    let all = groups_below(experts, n);
    let slots = slots_of(experts, n - 1, experts.len() as int);
    if e == n - 1 {
        lemma_slots_of(experts, e, experts.len() as int, row, i);
        let k = choose|k: int| 0 <= k < slots.len() && slots[k] == (row as usize, i as usize);
        assert(is_place(all, row, i, all.len() - 1, k));
    } else {
        lemma_groups_below(experts, e, n - 1, row, i);
        let before = groups_below(experts, n - 1);
        let (g, k) = choose|g: int, k: int| #[trigger] is_place(before, row, i, g, k);
        assert(is_place(all, row, i, g, k));
    }
}

/// Grouping the rows by expert loses no assignment.
pub proof fn grouping_covers_every_assignment(experts: Seq<Seq<usize>>, expert_count: int)
    requires
        experts_exist(experts, expert_count),
    ensures
        covers(groups_below(experts, expert_count), experts),
{
    assert forall|row: int, i: int|
        0 <= row < experts.len() && 0 <= i < experts[row].len() implies #[trigger] has_place(
        groups_below(experts, expert_count),
        row,
        i,
    ) by {
        assert(experts[row][i] < expert_count);
        lemma_groups_below(experts, experts[row][i] as int, expert_count, row, i);
    }
}

/// The input rows of the first `n` slots of a group, one after the other.
pub open spec fn gathered<T>(
    flat: Seq<T>,
    hidden: int,
    slots: Seq<(usize, usize)>,
    n: int,
) -> Seq<T>
    decreases n,
{
    if n <= 0 {
        Seq::empty()
    } else {
        let row = slots[n - 1].0 as int;
        gathered(flat, hidden, slots, n - 1) + flat.subrange(row * hidden, row * hidden + hidden)
    }
}

/// The input rows of a group, one after the other.
pub fn gather_rows<T: Copy>(flat: &Vec<T>, hidden: usize, slots: &Vec<(usize, usize)>) -> (inputs:
    Vec<T>)
    requires
        forall|k: int|
            0 <= k < slots@.len() ==> ((#[trigger] slots@[k]).0 + 1) * hidden <= flat@.len(),
    ensures
        inputs@ == gathered(flat@, hidden as int, slots@, slots@.len() as int),
{
    let count: usize = flat.len();
    let mut inputs: Vec<T> = Vec::new();
    let mut k: usize = 0;
    while k < slots.len()
        invariant
            forall|k: int|
                0 <= k < slots@.len() ==> ((#[trigger] slots@[k]).0 + 1) * hidden <= flat@.len(),
            count == flat@.len(),
            k <= slots@.len(),
            inputs@ == gathered(flat@, hidden as int, slots@, k as int),
        decreases slots@.len() - k,
    {
        let row: usize = slots[k].0;
        proof {
            assert((slots@[k as int].0 + 1) * hidden <= flat@.len());
            assert(row * hidden + hidden == (row + 1) * hidden && 0 <= row * hidden)
                by (nonlinear_arith)
                requires
                    0 <= row,
                    0 <= hidden,
            ;
        }
        append_all(
            &mut inputs,
            slice_subrange(flat.as_slice(), row * hidden, row * hidden + hidden),
        );
        k += 1;
    }
    inputs
}

/// What stands between an expert's matrices: the first half of a row, times its
/// logistic function, times the second half.
pub open spec fn activated_of<T, A: Arithmetic<T>>(math: A, gate: T, up: T) -> T {
    math.product(
        math.quotient(
            gate,
            math.sum(math.one_of(), math.exponential(math.negative(gate))),
        ),
        up,
    )
}

/// The activated rows of an expert.
pub open spec fn activations<T, A: Arithmetic<T>>(
    math: A,
    gate_up: Seq<T>,
    rows: int,
    width: int,
) -> Seq<T> {
    Seq::new(
        (rows * width) as nat,
        |i: int|
            activated_of(
                math,
                gate_up[(i / width) * 2 * width + i % width],
                gate_up[(i / width) * 2 * width + width + i % width],
            ),
    )
}

/// Activates the rows between an expert's matrices.
pub fn activate<T: Copy, A: Arithmetic<T>>(
    math: &A,
    gate_up: &Vec<T>,
    rows: usize,
    width: usize,
) -> (out: Vec<T>)
    requires
        gate_up@.len() == rows * 2 * width,
    ensures
        out@ == activations(*math, gate_up@, rows as int, width as int),
{
    let count: usize = gate_up.len();
    proof {
        assert(rows * width <= rows * 2 * width) by (nonlinear_arith)
            requires
                0 <= rows,
                0 <= width,
        ;
    }
    let mut out: Vec<T> = Vec::new();
    if width == 0 {
        proof {
            assert(rows * width == 0) by (nonlinear_arith)
                requires
                    width == 0,
            ;
            assert(out@ =~= activations(*math, gate_up@, rows as int, width as int));
        }
        return out;
    }
    let mut row: usize = 0;
    proof {
        assert(0 * width == 0);
    }
    while row < rows
        invariant
            width > 0,
            gate_up@.len() == rows * 2 * width,
            count == gate_up@.len(),
            row <= rows,
            out@.len() == row * width,
            out@.len() <= activations(*math, gate_up@, rows as int, width as int).len(),
            out@ == activations(*math, gate_up@, rows as int, width as int).take(row * width),
        decreases rows - row,
    {
        proof {
            assert(0 <= row * 2 * width && row * 2 * width + 2 * width <= rows * 2 * width && row
                * width + width == (row + 1) * width && (row + 1) * width <= rows * width && row * 2
                <= row * 2 * width) by (nonlinear_arith)
                requires
                    0 <= row < rows,
                    0 < width,
            ;
        }
        let base: usize = row * 2 * width;
        let mut column: usize = 0;
        while column < width
            invariant
                gate_up@.len() == rows * 2 * width,
                count == gate_up@.len(),
                width > 0,
                row < rows,
                base == row * 2 * width,
                base + 2 * width <= count,
                row * width + width <= rows * width,
                column <= width,
                out@.len() == row * width + column,
                out@ == activations(*math, gate_up@, rows as int, width as int).take(
                    row * width + column,
                ),
            decreases width - column,
        {
            let gate: T = gate_up[base + column];
            let up: T = gate_up[base + width + column];
            let slope: T = math.over(gate, math.plus(math.one(), math.exp(math.neg(gate))));
            out.push(math.times(slope, up));
            proof {
                super::scan::lemma_cell(row as int, width as int, column as int);
                assert(out@ =~= activations(*math, gate_up@, rows as int, width as int).take(
                    row * width + column + 1,
                ));
            }
            column += 1;
        }
        row += 1;
    }
    proof {
        assert(out@ =~= activations(*math, gate_up@, rows as int, width as int));
    }
    out
}

/// The weighted sum of the first `n` results of a row, in the order of its
/// route.
pub open spec fn row_sum<T, A: Arithmetic<T>>(
    math: A,
    weights: Seq<T>,
    results: Seq<Seq<T>>,
    hidden: nat,
    n: int,
) -> Seq<T>
    decreases n,
{
    if n <= 0 {
        repeated(math.zero_of(), hidden as int)
    } else {
        let before = row_sum(math, weights, results, hidden, n - 1);
        Seq::new(
            hidden,
            |c: int| math.sum(before[c], math.product(results[n - 1][c], weights[n - 1])),
        )
    }
}

/// The weighted sums of the first `rows` rows, one after the other.
pub open spec fn routed_sum<T, A: Arithmetic<T>>(
    math: A,
    routes: Seq<Route<T>>,
    results: Seq<Seq<Seq<T>>>,
    hidden: nat,
    rows: int,
) -> Seq<T>
    decreases rows,
{
    if rows <= 0 {
        Seq::empty()
    } else {
        let route = routes[rows - 1];
        routed_sum(math, routes, results, hidden, rows - 1) + row_sum(
            math,
            route.weights@,
            results[rows - 1],
            hidden,
            route.weights@.len() as int,
        )
    }
}

/// Adds a weighted result to a row's sum.
fn add_result<T: Copy, A: Arithmetic<T>>(math: &A, sum: &mut Vec<T>, result: &[T], weight: T)
    requires
        old(sum)@.len() == result@.len(),
    ensures
        final(sum)@ == Seq::new(
            old(sum)@.len(),
            |c: int| math.sum(old(sum)@[c], math.product(result@[c], weight)),
        ),
{
    let ghost before = sum@;
    let n: usize = sum.len();
    let mut c: usize = 0;
    while c < n
        invariant
            n == before.len(),
            result@.len() == n,
            c <= n,
            sum@.len() == n,
            forall|x: int|
                0 <= x < n ==> #[trigger] sum@[x] == if x < c {
                    math.sum(before[x], math.product(result@[x], weight))
                } else {
                    before[x]
                },
        decreases n - c,
    {
        sum.set(c, math.plus(sum[c], math.times(result[c], weight)));
        c += 1;
    }
    proof {
        assert(sum@ =~= Seq::new(
            before.len(),
            |c: int| math.sum(before[c], math.product(result@[c], weight)),
        ));
    }
}

/// The views of a row's results.
pub open spec fn result_views<T>(results: Seq<Vec<T>>) -> Seq<Seq<T>> {
    Seq::new(results.len(), |i: int| results[i]@)
}

/// Puts the results of one row together: token after token, its experts are run
/// in the order of its route.
pub fn combine_row<T: Copy, A: Arithmetic<T>>(
    math: &A,
    weights: &Vec<T>,
    results: &Vec<Vec<T>>,
    hidden: usize,
) -> (sum: Vec<T>)
    requires
        weights@.len() == results@.len(),
        forall|i: int| 0 <= i < results@.len() ==> (#[trigger] results@[i])@.len() == hidden,
    ensures
        sum@ == row_sum(
            *math,
            weights@,
            result_views(results@),
            hidden as nat,
            weights@.len() as int,
        ),
{
    let mut sum: Vec<T> = filled(math.zero(), hidden);
    let mut i: usize = 0;
    while i < weights.len()
        invariant
            weights@.len() == results@.len(),
            forall|i: int| 0 <= i < results@.len() ==> (#[trigger] results@[i])@.len() == hidden,
            i <= weights@.len(),
            sum@.len() == hidden,
            sum@ == row_sum(*math, weights@, result_views(results@), hidden as nat, i as int),
        decreases weights@.len() - i,
    {
        add_result(math, &mut sum, results[i].as_slice(), weights[i]);
        i += 1;
        proof {
            assert(sum@ =~= row_sum(
                *math,
                weights@,
                result_views(results@),
                hidden as nat,
                i as int,
            ));
        }
    }
    sum
}

/// A row of a group's results.
pub open spec fn result_row<T>(values: Seq<T>, hidden: int, k: int) -> Seq<T> {
    values.subrange(k * hidden, k * hidden + hidden)
}

/// Whether the groups' results are those that each row and place has.
pub open spec fn holds_results<T>(
    groups: Seq<(usize, Seq<(usize, usize)>)>,
    values: Seq<Vec<T>>,
    hidden: int,
    results: Seq<Seq<Seq<T>>>,
) -> bool {
    forall|row: int, i: int, g: int, k: int| #[trigger]
        is_place(groups, row, i, g, k) && 0 <= row <= usize::MAX && 0 <= i <= usize::MAX
            ==> result_row(values[g]@, hidden, k) == results[row][i]
}

/// Finds the group and the row in it that hold a result.
fn find_place(groups: &Vec<ExpertGroup>, row: usize, index: usize) -> (place: Option<
    (usize, usize),
>)
    ensures
        match place {
            Some((g, k)) => is_place(
                group_views(groups@),
                row as int,
                index as int,
                g as int,
                k as int,
            ),
            None => !has_place(group_views(groups@), row as int, index as int),
        },
{
    let ghost views = group_views(groups@);
    let mut g: usize = 0;
    while g < groups.len()
        invariant
            views == group_views(groups@),
            g <= groups@.len(),
            forall|h: int, k: int| #[trigger]
                is_place(views, row as int, index as int, h, k) ==> h >= g,
        decreases groups@.len() - g,
    {
        let mut k: usize = 0;
        while k < groups[g].slots.len()
            invariant
                views == group_views(groups@),
                g < groups@.len(),
                k <= groups@[g as int].slots@.len(),
                forall|h: int, j: int| #[trigger]
                    is_place(views, row as int, index as int, h, j) ==> h > g || h == g && j >= k,
            decreases groups@[g as int].slots@.len() - k,
        {
            let slot: (usize, usize) = groups[g].slots[k];
            if slot.0 == row && slot.1 == index {
                proof {
                    assert(is_place(views, row as int, index as int, g as int, k as int));
                }
                return Some((g, k));
            }
            k += 1;
        }
        g += 1;
    }
    None
}

/// Puts the results of groups together, in the order of tokens and routes.
pub fn combine_groups<T: Copy, A: Arithmetic<T>>(
    math: &A,
    routes: &Vec<Route<T>>,
    groups: &Vec<ExpertGroup>,
    values: &Vec<Vec<T>>,
    hidden: usize,
) -> (combined: Result<Vec<T>, MoeError>)
    requires
        forall|r: int|
            0 <= r < routes@.len() ==> (#[trigger] routes@[r]).weights@.len()
                == routes@[r].experts@.len(),
        values@.len() == groups@.len(),
        forall|g: int|
            0 <= g < groups@.len() ==> (#[trigger] values@[g])@.len() == groups@[g].slots@.len()
                * hidden,
    ensures
        combined is Ok <==> covers(group_views(groups@), chosen_experts(routes@)),
        match combined {
            Ok(out) => forall|results: Seq<Seq<Seq<T>>>| #[trigger]
                holds_results(group_views(groups@), values@, hidden as int, results) ==> out@
                    == routed_sum(
                    *math,
                    routes@,
                    results,
                    hidden as nat,
                    routes@.len() as int,
                ),
            Err(error) => error == MoeError::MissingResult,
        },
{
    let ghost views = group_views(groups@);
    let ghost experts = chosen_experts(routes@);
    let mut out: Vec<T> = Vec::new();
    let ghost mut picked: Seq<Seq<Seq<T>>> = Seq::empty();
    let mut row: usize = 0;
    while row < routes.len()
        invariant
            views == group_views(groups@),
            experts == chosen_experts(routes@),
            forall|r: int|
                0 <= r < routes@.len() ==> (#[trigger] routes@[r]).weights@.len()
                    == routes@[r].experts@.len(),
            values@.len() == groups@.len(),
            forall|g: int|
                0 <= g < groups@.len() ==> (#[trigger] values@[g])@.len() == groups@[g].slots@.len()
                    * hidden,
            row <= routes@.len(),
            picked.len() == row,
            forall|r: int| 0 <= r < row ==> (#[trigger] picked[r]).len() == experts[r].len(),
            forall|r: int, i: int|
                0 <= r < row && 0 <= i < experts[r].len() ==> is_picked(
                    #[trigger] picked[r][i],
                    views,
                    values@,
                    hidden as int,
                    r,
                    i,
                ),
            out@ == routed_sum(*math, routes@, picked, hidden as nat, row as int),
        decreases routes@.len() - row,
    {
        let n: usize = routes[row].weights.len();
        let mut sum: Vec<T> = filled(math.zero(), hidden);
        let ghost mut of_row: Seq<Seq<T>> = Seq::empty();
        let mut i: usize = 0;
        proof {
            assert(routes@[row as int].weights@.len() == routes@[row as int].experts@.len());
            assert(experts[row as int].len() == n);
        }
        while i < n
            invariant
                views == group_views(groups@),
                experts == chosen_experts(routes@),
                values@.len() == groups@.len(),
                forall|g: int|
                    0 <= g < groups@.len() ==> (#[trigger] values@[g])@.len()
                        == groups@[g].slots@.len() * hidden,
                row < routes@.len(),
                n == routes@[row as int].weights@.len(),
                n == experts[row as int].len(),
                i <= n,
                sum@.len() == hidden,
                of_row.len() == i,
                forall|j: int|
                    0 <= j < i ==> is_picked(
                        #[trigger] of_row[j],
                        views,
                        values@,
                        hidden as int,
                        row as int,
                        j,
                    ),
                sum@ == row_sum(
                    *math,
                    routes@[row as int].weights@,
                    of_row,
                    hidden as nat,
                    i as int,
                ),
            decreases n - i,
        {
            match find_place(groups, row, i) {
                Some((g, k)) => {
                    let count: usize = values[g].len();
                    proof {
                        assert(values@[g as int]@.len() == groups@[g as int].slots@.len() * hidden);
                        let slots = groups@[g as int].slots@.len();
                        assert(0 <= k * hidden && k * hidden + hidden <= slots * hidden)
                            by (nonlinear_arith)
                            requires
                                0 <= k < slots,
                                0 <= hidden,
                        ;
                    }
                    let result = slice_subrange(
                        values[g].as_slice(),
                        k * hidden,
                        k * hidden + hidden,
                    );
                    let ghost before = of_row;
                    add_result(math, &mut sum, result, routes[row].weights[i]);
                    proof {
                        of_row = of_row.push(result@);
                        lemma_row_sum_prefix(
                            *math,
                            routes@[row as int].weights@,
                            before,
                            of_row,
                            hidden as nat,
                            i as int,
                        );
                        assert(sum@ =~= row_sum(
                            *math,
                            routes@[row as int].weights@,
                            of_row,
                            hidden as nat,
                            i + 1,
                        ));
                        assert(is_picked(
                            result@,
                            views,
                            values@,
                            hidden as int,
                            row as int,
                            i as int,
                        ));
                    }
                },
                None => {
                    proof {
                        assert(!has_place(views, row as int, i as int));
                    }
                    return Err(MoeError::MissingResult);
                },
            }
            i += 1;
        }
        append_all(&mut out, sum.as_slice());
        proof {
            let before = picked;
            picked = picked.push(of_row);
            lemma_routed_sum_prefix(
                *math,
                routes@,
                before,
                picked,
                hidden as nat,
                row as int,
            );
            assert forall|r: int, j: int|
                0 <= r < row + 1 && 0 <= j < experts[r].len() implies is_picked(
                #[trigger] picked[r][j],
                views,
                values@,
                hidden as int,
                r,
                j,
            ) by {
                if r < row {
                    assert(picked[r][j] == before[r][j]);
                } else {
                    assert(picked[r][j] == of_row[j]);
                }
            }
        }
        row += 1;
    }
    proof {
        assert forall|r: int, i: int|
            0 <= r < experts.len() && 0 <= i < experts[r].len() implies #[trigger] has_place(
            views,
            r,
            i,
        ) by {
            assert(is_picked(picked[r][i], views, values@, hidden as int, r, i));
        }
        assert forall|results: Seq<Seq<Seq<T>>>| #[trigger]
            holds_results(views, values@, hidden as int, results) implies out@ == routed_sum(
            *math,
            routes@,
            results,
            hidden as nat,
            routes@.len() as int,
        ) by {
            assert forall|r: int, i: int|
                0 <= r < routes@.len() && 0 <= i < routes@[r].weights@.len() implies (
            #[trigger] picked[r][i]) == results[r][i] by {
                assert(is_picked(picked[r][i], views, values@, hidden as int, r, i));
                assert(routes@[r].weights.len() == routes@[r].weights@.len());
                let (g, k) = choose|g: int, k: int| #[trigger]
                    is_place(views, r, i, g, k) && picked[r][i] == result_row(
                        values@[g]@,
                        hidden as int,
                        k,
                    );
                assert(is_place(views, r, i, g, k));
            }
            lemma_same_sums(
                *math,
                routes@,
                picked,
                results,
                hidden as nat,
                routes@.len() as int,
            );
        }
    }
    Ok(out)
}

/// Whether a result is that of a row and a place in its route.
spec fn is_picked<T>(
    value: Seq<T>,
    groups: Seq<(usize, Seq<(usize, usize)>)>,
    values: Seq<Vec<T>>,
    hidden: int,
    row: int,
    i: int,
) -> bool {
    exists|g: int, k: int| #[trigger]
        is_place(groups, row, i, g, k) && value == result_row(values[g]@, hidden, k)
}

proof fn lemma_row_sum_prefix<T, A: Arithmetic<T>>(
    math: A,
    weights: Seq<T>,
    a: Seq<Seq<T>>,
    b: Seq<Seq<T>>,
    hidden: nat,
    n: int,
)
    requires
        0 <= n <= a.len(),
        n <= b.len(),
        forall|i: int| 0 <= i < n ==> #[trigger] a[i] == b[i],
    ensures
        row_sum(math, weights, a, hidden, n) == row_sum(math, weights, b, hidden, n),
    decreases n,
{
    if n > 0 {
        lemma_row_sum_prefix(math, weights, a, b, hidden, n - 1);
        assert(a[n - 1] == b[n - 1]);
    }
}

proof fn lemma_routed_sum_prefix<T, A: Arithmetic<T>>(
    math: A,
    routes: Seq<Route<T>>,
    a: Seq<Seq<Seq<T>>>,
    b: Seq<Seq<Seq<T>>>,
    hidden: nat,
    rows: int,
)
    requires
        0 <= rows <= a.len(),
        rows <= b.len(),
        forall|r: int| 0 <= r < rows ==> #[trigger] a[r] == b[r],
    ensures
        routed_sum(math, routes, a, hidden, rows) == routed_sum(math, routes, b, hidden, rows),
    decreases rows,
{
    if rows > 0 {
        lemma_routed_sum_prefix(math, routes, a, b, hidden, rows - 1);
        assert(a[rows - 1] == b[rows - 1]);
    }
}

proof fn lemma_same_sums<T, A: Arithmetic<T>>(
    math: A,
    routes: Seq<Route<T>>,
    a: Seq<Seq<Seq<T>>>,
    b: Seq<Seq<Seq<T>>>,
    hidden: nat,
    rows: int,
)
    requires
        0 <= rows <= routes.len(),
        forall|r: int, i: int|
            0 <= r < rows && 0 <= i < routes[r].weights@.len() ==> #[trigger] a[r][i] == b[r][i],
    ensures
        routed_sum(math, routes, a, hidden, rows) == routed_sum(math, routes, b, hidden, rows),
    decreases rows,
{
    if rows > 0 {
        lemma_same_sums(math, routes, a, b, hidden, rows - 1);
        let n = routes[rows - 1].weights@.len() as int;
        lemma_same_row(math, routes[rows - 1].weights@, a[rows - 1], b[rows - 1], hidden, n);
    }
}

proof fn lemma_same_row<T, A: Arithmetic<T>>(
    math: A,
    weights: Seq<T>,
    a: Seq<Seq<T>>,
    b: Seq<Seq<T>>,
    hidden: nat,
    n: int,
)
    requires
        forall|i: int| 0 <= i < n ==> #[trigger] a[i] == b[i],
    ensures
        row_sum(math, weights, a, hidden, n) == row_sum(math, weights, b, hidden, n),
    decreases n,
{
    if n > 0 {
        lemma_same_row(math, weights, a, b, hidden, n - 1);
        assert(a[n - 1] == b[n - 1]);
    }
}

/// A grouped pass agrees with one that runs token after token: where the groups
/// hold, for each row and place in its route, the result that the expert gives
/// on its own, each row's part of the grouped sum is the sum of its own
/// results.
pub proof fn grouping_does_not_move_a_bit<T, A: Arithmetic<T>>(
    math: A,
    routes: Seq<Route<T>>,
    results: Seq<Seq<Seq<T>>>,
    hidden: nat,
    rows: int,
    row: int,
)
    requires
        0 <= row < rows <= routes.len(),
    ensures
        routed_sum(math, routes, results, hidden, rows).len() == rows * hidden,
        routed_sum(math, routes, results, hidden, rows).subrange(
            row * hidden as int,
            (row + 1) * hidden as int,
        ) == row_sum(
            math,
            routes[row].weights@,
            results[row],
            hidden,
            routes[row].weights@.len() as int,
        ),
    decreases rows,
{
    let h = hidden as int;
    let all = routed_sum(math, routes, results, hidden, rows);
    let before = routed_sum(math, routes, results, hidden, rows - 1);
    let last = row_sum(
        math,
        routes[rows - 1].weights@,
        results[rows - 1],
        hidden,
        routes[rows - 1].weights@.len() as int,
    );
    assert(last.len() == hidden);
    lemma_routed_len(math, routes, results, hidden, rows - 1);
    assert((rows - 1) * h + h == rows * h) by (nonlinear_arith);
    assert(0 <= row * h && row * h + h == (row + 1) * h && (row + 1) * h <= rows * h)
        by (nonlinear_arith)
        requires
            0 <= row < rows,
            0 <= h,
    ;
    if row == rows - 1 {
        assert(all.subrange(row * h, (row + 1) * h) =~= last);
    } else {
        grouping_does_not_move_a_bit(math, routes, results, hidden, rows - 1, row);
        assert((row + 1) * h <= (rows - 1) * h) by (nonlinear_arith)
            requires
                row + 1 <= rows - 1,
                0 <= h,
        ;
        assert(all.subrange(row * h, (row + 1) * h) =~= before.subrange(row * h, (row + 1) * h));
    }
}

pub proof fn lemma_routed_len<T, A: Arithmetic<T>>(
    math: A,
    routes: Seq<Route<T>>,
    results: Seq<Seq<Seq<T>>>,
    hidden: nat,
    rows: int,
)
    requires
        0 <= rows,
    ensures
        routed_sum(math, routes, results, hidden, rows).len() == rows * hidden,
    decreases rows,
{
    if rows > 0 {
        lemma_routed_len(math, routes, results, hidden, rows - 1);
        assert((rows - 1) * hidden + hidden == rows * hidden) by (nonlinear_arith);
    } else {
        assert(0 * hidden == 0) by (nonlinear_arith);
    }
}

/// The sizes of a layer's experts.
#[derive(Debug, Clone, Copy, PartialEq, Eq, Structural)]
pub struct QuantizedMoeLayer {
    pub hidden_size: usize,
    pub intermediate_size: usize,
    pub expert_count: usize,
    pub experts_per_token: usize,
}

/// The name of a tensor of a layer.
pub open spec fn block_tensor(layer: int, part: Seq<char>) -> Seq<char> {
    "blk."@ + decimal(layer as nat) + part
}

/// The name of a tensor of a layer.
pub fn block_name(layer: usize, part: &str) -> (name: String)
    ensures
        name@ == block_tensor(layer as int, part@),
{
    let start = joined("blk.", decimal_text(layer).as_str());
    joined(start.as_str(), part)
}

/// Whether a result is what loading the experts of a layer gives: their sizes,
/// or the first reason why they cannot be used.
pub open spec fn is_moe_shape(
    result: Result<QuantizedMoeLayer, MoeError>,
    tensors: Seq<HeaderTensor>,
    layer: int,
    k: usize,
) -> bool {
    let router_name = block_tensor(layer, ".ffn_gate_inp.weight"@);
    let gate_name = block_tensor(layer, ".ffn_gate_exps.weight"@);
    let down_name = block_tensor(layer, ".ffn_down_exps.weight"@);
    let up_name = block_tensor(layer, ".ffn_up_exps.weight"@);
    match (
        tensor_of(tensors, router_name),
        tensor_of(tensors, gate_name),
        tensor_of(tensors, down_name),
    ) {
        (Some(router), Some(gate), Some(down)) => if router.shape@.len() != 2 {
            result == Err::<QuantizedMoeLayer, MoeError>(MoeError::RouterRank)
        } else if gate.shape@.len() != 3 || down.shape@.len() != 3 {
            result == Err::<QuantizedMoeLayer, MoeError>(MoeError::ExpertRank)
        } else {
            let experts = router.shape@[0];
            let hidden = router.shape@[1];
            let wide = gate.shape@[1];
            if k == 0 || k > experts {
                result == Err::<QuantizedMoeLayer, MoeError>(MoeError::TopK { k, experts })
            } else if gate.shape@ != seq![experts, wide, hidden] {
                result == Err::<QuantizedMoeLayer, MoeError>(MoeError::GateShape)
            } else if down.shape@ != seq![experts, hidden, wide] {
                result == Err::<QuantizedMoeLayer, MoeError>(MoeError::DownShape)
            } else {
                match tensor_of(tensors, up_name) {
                    None => result matches Err(MoeError::MissingTensor { name }) && name@
                        == up_name,
                    Some(up) => if up.shape@ != gate.shape@ {
                        result == Err::<QuantizedMoeLayer, MoeError>(MoeError::UpShape)
                    } else {
                        result == Ok::<QuantizedMoeLayer, MoeError>(
                            QuantizedMoeLayer {
                                hidden_size: hidden,
                                intermediate_size: wide,
                                expert_count: experts,
                                experts_per_token: k,
                            },
                        )
                    },
                }
            }
        },
        (None, _, _) => result matches Err(MoeError::MissingTensor { name }) && name@
            == router_name,
        (_, None, _) => result matches Err(MoeError::MissingTensor { name }) && name@ == gate_name,
        (_, _, None) => result matches Err(MoeError::MissingTensor { name }) && name@ == down_name,
    }
}

impl QuantizedMoeLayer {
    /// Accepts a layer's routed experts if their tensors fit together.
    pub fn load_experts(
        checkpoint: &GgufCheckpoint,
        layer: usize,
        experts_per_token: usize,
    ) -> (result: Result<QuantizedMoeLayer, MoeError>)
        ensures
            is_moe_shape(result, checkpoint.tensors@, layer as int, experts_per_token),
    {
        let router_name = block_name(layer, ".ffn_gate_inp.weight");
        let gate_name = block_name(layer, ".ffn_gate_exps.weight");
        let down_name = block_name(layer, ".ffn_down_exps.weight");
        let up_name = block_name(layer, ".ffn_up_exps.weight");
        let router = match checkpoint.tensor(router_name.as_str()) {
            Some(tensor) => tensor,
            None => {
                return Err(MoeError::MissingTensor { name: router_name });
            },
        };
        let gate = match checkpoint.tensor(gate_name.as_str()) {
            Some(tensor) => tensor,
            None => {
                return Err(MoeError::MissingTensor { name: gate_name });
            },
        };
        let down = match checkpoint.tensor(down_name.as_str()) {
            Some(tensor) => tensor,
            None => {
                return Err(MoeError::MissingTensor { name: down_name });
            },
        };
        if router.shape.len() != 2 {
            return Err(MoeError::RouterRank);
        }
        if gate.shape.len() != 3 || down.shape.len() != 3 {
            return Err(MoeError::ExpertRank);
        }
        let experts: usize = router.shape[0];
        let hidden: usize = router.shape[1];
        let wide: usize = gate.shape[1];
        if experts_per_token == 0 || experts_per_token > experts {
            return Err(MoeError::TopK { k: experts_per_token, experts });
        }
        if gate.shape[0] != experts || gate.shape[2] != hidden {
            return Err(MoeError::GateShape);
        }
        proof {
            assert(gate.shape@ =~= seq![experts, wide, hidden]);
        }
        if down.shape[0] != experts || down.shape[1] != hidden || down.shape[2] != wide {
            return Err(MoeError::DownShape);
        }
        proof {
            assert(down.shape@ =~= seq![experts, hidden, wide]);
        }
        let up = match checkpoint.tensor(up_name.as_str()) {
            Some(tensor) => tensor,
            None => {
                return Err(MoeError::MissingTensor { name: up_name });
            },
        };
        if up.shape.len() != 3 || up.shape[0] != experts || up.shape[1] != wide || up.shape[2]
            != hidden {
            return Err(MoeError::UpShape);
        }
        proof {
            assert(up.shape@ =~= gate.shape@);
        }
        Ok(
            QuantizedMoeLayer {
                hidden_size: hidden,
                intermediate_size: wide,
                expert_count: experts,
                experts_per_token,
            },
        )
    }

    /// Accepts the shared expert's matrices if they fit together.
    pub fn check_shared(&self, gate: [usize; 2], up: [usize; 2], down: [usize; 2]) -> (result:
        Result<(), MoeError>)
        ensures
            result == if gate@[1] == self.hidden_size && up@ == gate@ && down@ == seq![
                self.hidden_size,
                gate@[0],
            ] {
                Ok::<(), MoeError>(())
            } else {
                Err::<(), MoeError>(MoeError::SharedShape)
            },
    {
        if gate[1] == self.hidden_size && up[0] == gate[0] && up[1] == gate[1] && down[0]
            == self.hidden_size && down[1] == gate[0] {
            proof {
                assert(up@ =~= gate@);
                assert(down@ =~= seq![self.hidden_size, gate@[0]]);
            }
            Ok(())
        } else {
            Err(MoeError::SharedShape)
        }
    }

    /// The number of rows of an input of `elements` numbers.
    pub fn check_pass(&self, elements: usize) -> (rows: Result<usize, MoeError>)
        requires
            self.hidden_size > 0,
        ensures
            rows == if elements as int % self.hidden_size as int != 0 {
                Err::<usize, MoeError>(MoeError::PartialRow)
            } else {
                Ok::<usize, MoeError>((elements as int / self.hidden_size as int) as usize)
            },
    {
        if elements % self.hidden_size != 0 {
            return Err(MoeError::PartialRow);
        }
        Ok(elements / self.hidden_size)
    }
}

} // verus!
