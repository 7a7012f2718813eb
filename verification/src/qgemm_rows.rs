//! Fused multi-row quantized matrix multiplication: from the integer sums of
//! blocks to one number per row.
//!
//! The lanes are scaled and added up block after block, each in one rounding,
//! and folded at the end, always in the same order.

use crate::arithmetic::Arithmetic;
use crate::buffers::filled;
use crate::qgemm::{
    lane_sum, min_lane, q4k_factors, q4k_sums, q4k_tile, q4k_weights, q6k_factors, q6k_sums,
    q6k_tile, q6k_weights, q80_lane, q80_sums, q80_tile, row_tiles, tiles, tiles_cover_the_rows,
    BlockSums, Q4KBlock, Q6KBlock, Q80Block, Q8KBlock,
};
use vstd::prelude::*;

verus! {

/// Eight lanes as one number: halves first, then pairs.
pub open spec fn folded_eight<T, A: Arithmetic<T>>(math: A, x: Seq<T>) -> T {
    math.sum(
        math.sum(math.sum(x[4], x[0]), math.sum(x[6], x[2])),
        math.sum(math.sum(x[5], x[1]), math.sum(x[7], x[3])),
    )
}

/// Four lanes as one number.
pub open spec fn folded_four<T, A: Arithmetic<T>>(math: A, x: Seq<T>) -> T {
    math.sum(math.sum(x[0], x[2]), math.sum(x[1], x[3]))
}

/// Eight lanes as one number: halves first, then pairs.
fn fold_eight<T: Copy, A: Arithmetic<T>>(math: &A, x: &Vec<T>) -> (r: T)
    requires
        x@.len() == 8,
    ensures
        r == folded_eight(*math, x@),
{
    math.plus(
        math.plus(math.plus(x[4], x[0]), math.plus(x[6], x[2])),
        math.plus(math.plus(x[5], x[1]), math.plus(x[7], x[3])),
    )
}

/// Four lanes as one number.
fn fold_four<T: Copy, A: Arithmetic<T>>(math: &A, x: &Vec<T>) -> (r: T)
    requires
        x@.len() == 4,
    ensures
        r == folded_four(*math, x@),
{
    math.plus(math.plus(x[0], x[2]), math.plus(x[1], x[3]))
}

/// The activation block of a row.
pub open spec fn input_at<B>(inputs: Seq<B>, rows: int, row: int, block: int) -> B {
    inputs[block * rows + row]
}

/// An activation block lies inside the list of all.
proof fn lemma_input(blocks: int, rows: int, row: int, block: int)
    requires
        0 <= block < blocks,
        0 <= row < rows,
    ensures
        0 <= block * rows,
        0 <= block * rows + row < rows * blocks,
{
    assert(0 <= block * rows && block * rows + rows <= rows * blocks) by (nonlinear_arith)
        requires
            0 <= block < blocks,
            0 < rows,
    ;
}

/// A tile ends where a later one starts, or at the last row.
proof fn lemma_tile_inside(list: Seq<(usize, usize)>, rows: int, t: int)
    requires
        0 <= t < list.len(),
        list.last().0 + list.last().1 == rows,
        forall|i: int|
            0 < i < list.len() ==> (#[trigger] list[i]).0 == list[i - 1].0 + list[i - 1].1,
    ensures
        list[t].0 + list[t].1 <= rows,
    decreases list.len() - t,
{
    if t < list.len() - 1 {
        lemma_tile_inside(list, rows, t + 1);
        assert(list[t + 1].0 == list[t].0 + list[t].1);
    }
}

/// One lane of a row after the first `n` blocks.
pub open spec fn q4k_lane_total<T, A: Arithmetic<T>>(
    math: A,
    weight: Seq<Q4KBlock>,
    inputs: Seq<Q8KBlock>,
    rows: int,
    row: int,
    lane: int,
    n: int,
) -> T
    decreases n,
{
    if n <= 0 {
        math.zero_of()
    } else {
        let w = weight[n - 1];
        let x = input_at(inputs, rows, row, n - 1);
        math.fused(
            math.product(math.single_of(x.d), math.half_of(w.d)),
            math.integer_of(lane_sum(q4k_weights(w), q4k_factors(w), x.qs@, lane, 8)),
            q4k_lane_total(math, weight, inputs, rows, row, lane, n - 1),
        )
    }
}

/// The lanes of a row after the first `n` blocks.
pub open spec fn q4k_lanes<T, A: Arithmetic<T>>(
    math: A,
    weight: Seq<Q4KBlock>,
    inputs: Seq<Q8KBlock>,
    rows: int,
    row: int,
    n: int,
) -> Seq<T> {
    Seq::new(8, |lane: int| q4k_lane_total(math, weight, inputs, rows, row, lane, n))
}

/// One lane of the minimums' part of a row after the first `n` blocks.
pub open spec fn q4k_min_total<T, A: Arithmetic<T>>(
    math: A,
    weight: Seq<Q4KBlock>,
    inputs: Seq<Q8KBlock>,
    rows: int,
    row: int,
    lane: int,
    n: int,
) -> T
    decreases n,
{
    if n <= 0 {
        math.zero_of()
    } else {
        let w = weight[n - 1];
        let x = input_at(inputs, rows, row, n - 1);
        math.fused(
            math.product(math.negative(math.single_of(x.d)), math.half_of(w.dmin)),
            math.integer_of(min_lane(w.scales@, x.bsums@, lane)),
            q4k_min_total(math, weight, inputs, rows, row, lane, n - 1),
        )
    }
}

/// The minimums' lanes of a row after the first `n` blocks.
pub open spec fn q4k_mins<T, A: Arithmetic<T>>(
    math: A,
    weight: Seq<Q4KBlock>,
    inputs: Seq<Q8KBlock>,
    rows: int,
    row: int,
    n: int,
) -> Seq<T> {
    Seq::new(4, |lane: int| q4k_min_total(math, weight, inputs, rows, row, lane, n))
}

/// What a weight row and an input row come to.
pub open spec fn q4k_dot<T, A: Arithmetic<T>>(
    math: A,
    weight: Seq<Q4KBlock>,
    inputs: Seq<Q8KBlock>,
    rows: int,
    row: int,
) -> T {
    let n = weight.len() as int;
    math.sum(
        folded_eight(math, q4k_lanes(math, weight, inputs, rows, row, n)),
        folded_four(math, q4k_mins(math, weight, inputs, rows, row, n)),
    )
}

/// Adds up the blocks of one row.
fn q4k_total<T: Copy, A: Arithmetic<T>>(
    math: &A,
    weight: &[Q4KBlock],
    inputs: &[Q8KBlock],
    rows: usize,
    row: usize,
    sums: &Vec<BlockSums>,
) -> (total: T)
    requires
        row < rows,
        inputs@.len() == rows * weight@.len(),
        sums@.len() == weight@.len(),
        forall|b: int|
            0 <= b < sums@.len() ==> q4k_sums(
                #[trigger] sums@[b],
                weight@[b],
                input_at(inputs@, rows as int, row as int, b),
            ),
    ensures
        total == q4k_dot(*math, weight@, inputs@, rows as int, row as int),
{
    let count: usize = inputs.len();
    let mut acc: Vec<T> = filled(math.zero(), 8);
    let mut acc_m: Vec<T> = filled(math.zero(), 4);
    let mut block: usize = 0;
    proof {
        assert(acc@ =~= q4k_lanes(*math, weight@, inputs@, rows as int, row as int, 0));
        assert(acc_m@ =~= q4k_mins(*math, weight@, inputs@, rows as int, row as int, 0));
    }
    while block < weight.len()
        invariant
            row < rows,
            inputs@.len() == rows * weight@.len(),
            count == inputs@.len(),
            sums@.len() == weight@.len(),
            forall|b: int|
                0 <= b < sums@.len() ==> q4k_sums(
                    #[trigger] sums@[b],
                    weight@[b],
                    input_at(inputs@, rows as int, row as int, b),
                ),
            block <= weight@.len(),
            acc@ == q4k_lanes(*math, weight@, inputs@, rows as int, row as int, block as int),
            acc_m@ == q4k_mins(*math, weight@, inputs@, rows as int, row as int, block as int),
        decreases weight@.len() - block,
    {
        proof {
            lemma_input(weight@.len() as int, rows as int, row as int, block as int);
            assert(q4k_sums(
                sums@[block as int],
                weight@[block as int],
                input_at(inputs@, rows as int, row as int, block as int),
            ));
        }
        let w: &Q4KBlock = &weight[block];
        let x: &Q8KBlock = &inputs[block * rows + row];
        let d: T = math.times(math.single(x.d), math.half(w.d));
        let lanes: &[i32; 8] = &sums[block].lanes;
        let mut next: Vec<T> = Vec::new();
        let mut lane: usize = 0;
        while lane < 8
            invariant
                block < weight@.len(),
                acc@ == q4k_lanes(*math, weight@, inputs@, rows as int, row as int, block as int),
                *w == weight@[block as int],
                *x == input_at(inputs@, rows as int, row as int, block as int),
                d == math.product(math.single_of(x.d), math.half_of(w.d)),
                forall|lane: int| 0 <= lane < 8 ==> #[trigger] lanes@[lane] == lane_sum(q4k_weights(*w), q4k_factors(*w), x.qs@, lane, 8),
                lane <= 8,
                next@ == q4k_lanes(
                    *math,
                    weight@,
                    inputs@,
                    rows as int,
                    row as int,
                    block + 1,
                ).take(lane as int),
            decreases 8 - lane,
        {
            next.push(math.mul_add(d, math.integer(lanes[lane]), acc[lane]));
            lane += 1;
            proof {
                assert(next@ =~= q4k_lanes(
                    *math,
                    weight@,
                    inputs@,
                    rows as int,
                    row as int,
                    block + 1,
                ).take(lane as int));
            }
        }
        acc = next;
        let dmin: T = math.times(math.neg(math.single(x.d)), math.half(w.dmin));
        let mins: &[i32; 4] = &sums[block].mins;
        let mut next_m: Vec<T> = Vec::new();
        let mut at: usize = 0;
        while at < 4
            invariant
                block < weight@.len(),
                acc_m@ == q4k_mins(*math, weight@, inputs@, rows as int, row as int, block as int),
                *w == weight@[block as int],
                *x == input_at(inputs@, rows as int, row as int, block as int),
                dmin == math.product(math.negative(math.single_of(x.d)), math.half_of(w.dmin)),
                forall|lane: int|
                    0 <= lane < 4 ==> #[trigger] mins@[lane] == min_lane(w.scales@, x.bsums@, lane),
                at <= 4,
                next_m@ == q4k_mins(
                    *math,
                    weight@,
                    inputs@,
                    rows as int,
                    row as int,
                    block + 1,
                ).take(at as int),
            decreases 4 - at,
        {
            next_m.push(math.mul_add(dmin, math.integer(mins[at]), acc_m[at]));
            at += 1;
            proof {
                assert(next_m@ =~= q4k_mins(
                    *math,
                    weight@,
                    inputs@,
                    rows as int,
                    row as int,
                    block + 1,
                ).take(at as int));
            }
        }
        acc_m = next_m;
        block += 1;
        proof {
            assert(acc@ =~= q4k_lanes(
                *math,
                weight@,
                inputs@,
                rows as int,
                row as int,
                block as int,
            ));
            assert(acc_m@ =~= q4k_mins(
                *math,
                weight@,
                inputs@,
                rows as int,
                row as int,
                block as int,
            ));
        }
    }
    math.plus(fold_eight(math, &acc), fold_four(math, &acc_m))
}

/// One compressed weight row against every input row, tile after tile.
pub fn q4k_row<T: Copy, A: Arithmetic<T>>(
    math: &A,
    weight: &[Q4KBlock],
    inputs: &[Q8KBlock],
    rows: usize,
) -> (out: Vec<T>)
    requires
        inputs@.len() == rows * weight@.len(),
    ensures
        out@.len() == rows,
        forall|r: int|
            0 <= r < rows ==> #[trigger] out@[r] == q4k_dot(
                *math,
                weight@,
                inputs@,
                rows as int,
                r,
            ),
{
    let list = row_tiles(rows);
    proof {
        tiles_cover_the_rows(rows as int);
    }
    let mut out: Vec<T> = Vec::new();
    let mut t: usize = 0;
    while t < list.len()
        invariant
            inputs@.len() == rows * weight@.len(),
            list@ == tiles(rows as int),
            list@.len() > 0 ==> list@[0].0 == 0,
            list@.len() > 0 ==> list@.last().0 + list@.last().1 == rows,
            rows > 0 ==> list@.len() > 0,
            forall|i: int|
                0 < i < list@.len() ==> (#[trigger] list@[i]).0 == list@[i - 1].0 + list@[i - 1].1,
            t <= list@.len(),
            out@.len() == if t == 0 {
                0
            } else {
                list@[t - 1].0 + list@[t - 1].1
            },
            forall|r: int|
                0 <= r < out@.len() ==> #[trigger] out@[r] == q4k_dot(
                    *math,
                    weight@,
                    inputs@,
                    rows as int,
                    r,
                ),
        decreases list@.len() - t,
    {
        let (base, width): (usize, usize) = list[t];
        proof {
            lemma_tile_inside(list@, rows as int, t as int);
            if t > 0 {
                assert(list@[t as int].0 == list@[t - 1].0 + list@[t - 1].1);
            }
            assert(out@.len() == base);
        }
        let sums = q4k_tile(weight, inputs, rows, base, width);
        let mut lane: usize = 0;
        while lane < width
            invariant
                inputs@.len() == rows * weight@.len(),
                base + width <= rows,
                sums@.len() == width,
                forall|l: int| 0 <= l < width ==> (#[trigger] sums@[l])@.len() == weight@.len(),
                forall|l: int, b: int|
                    0 <= l < width && 0 <= b < weight@.len() ==> q4k_sums(
                        #[trigger] sums@[l]@[b],
                        weight@[b],
                        inputs@[b * rows + base + l],
                    ),
                lane <= width,
                out@.len() == base + lane,
                forall|r: int|
                    0 <= r < out@.len() ==> #[trigger] out@[r] == q4k_dot(
                        *math,
                        weight@,
                        inputs@,
                        rows as int,
                        r,
                    ),
            decreases width - lane,
        {
            proof {
                assert(sums@[lane as int]@.len() == weight@.len());
                assert forall|b: int| 0 <= b < weight@.len() implies q4k_sums(
                    #[trigger] sums@[lane as int]@[b],
                    weight@[b],
                    input_at(inputs@, rows as int, base + lane, b),
                ) by {}
            }
            let total: T = q4k_total(math, weight, inputs, rows, base + lane, &sums[lane]);
            out.push(total);
            lane += 1;
        }
        t += 1;
    }
    out
}

/// One lane of a row after the first `n` blocks.
pub open spec fn q6k_lane_total<T, A: Arithmetic<T>>(
    math: A,
    weight: Seq<Q6KBlock>,
    inputs: Seq<Q8KBlock>,
    rows: int,
    row: int,
    lane: int,
    n: int,
) -> T
    decreases n,
{
    if n <= 0 {
        math.zero_of()
    } else {
        let w = weight[n - 1];
        let x = input_at(inputs, rows, row, n - 1);
        math.fused(
            math.product(math.single_of(x.d), math.half_of(w.d)),
            math.integer_of(lane_sum(q6k_weights(w), q6k_factors(w), x.qs@, lane, 8)),
            q6k_lane_total(math, weight, inputs, rows, row, lane, n - 1),
        )
    }
}

/// The lanes of a row after the first `n` blocks.
pub open spec fn q6k_lanes<T, A: Arithmetic<T>>(
    math: A,
    weight: Seq<Q6KBlock>,
    inputs: Seq<Q8KBlock>,
    rows: int,
    row: int,
    n: int,
) -> Seq<T> {
    Seq::new(8, |lane: int| q6k_lane_total(math, weight, inputs, rows, row, lane, n))
}

/// What a weight row and an input row come to.
pub open spec fn q6k_dot<T, A: Arithmetic<T>>(
    math: A,
    weight: Seq<Q6KBlock>,
    inputs: Seq<Q8KBlock>,
    rows: int,
    row: int,
) -> T {
    folded_eight(math, q6k_lanes(math, weight, inputs, rows, row, weight.len() as int))
}

/// Adds up the blocks of one row.
fn q6k_total<T: Copy, A: Arithmetic<T>>(
    math: &A,
    weight: &[Q6KBlock],
    inputs: &[Q8KBlock],
    rows: usize,
    row: usize,
    sums: &Vec<[i32; 8]>,
) -> (total: T)
    requires
        row < rows,
        inputs@.len() == rows * weight@.len(),
        sums@.len() == weight@.len(),
        forall|b: int|
            0 <= b < sums@.len() ==> q6k_sums(
                #[trigger] sums@[b],
                weight@[b],
                input_at(inputs@, rows as int, row as int, b),
            ),
    ensures
        total == q6k_dot(*math, weight@, inputs@, rows as int, row as int),
{
    let count: usize = inputs.len();
    let mut acc: Vec<T> = filled(math.zero(), 8);
    let mut block: usize = 0;
    proof {
        assert(acc@ =~= q6k_lanes(*math, weight@, inputs@, rows as int, row as int, 0));
    }
    while block < weight.len()
        invariant
            row < rows,
            inputs@.len() == rows * weight@.len(),
            count == inputs@.len(),
            sums@.len() == weight@.len(),
            forall|b: int|
                0 <= b < sums@.len() ==> q6k_sums(
                    #[trigger] sums@[b],
                    weight@[b],
                    input_at(inputs@, rows as int, row as int, b),
                ),
            block <= weight@.len(),
            acc@ == q6k_lanes(*math, weight@, inputs@, rows as int, row as int, block as int),
        decreases weight@.len() - block,
    {
        proof {
            lemma_input(weight@.len() as int, rows as int, row as int, block as int);
            assert(q6k_sums(
                sums@[block as int],
                weight@[block as int],
                input_at(inputs@, rows as int, row as int, block as int),
            ));
        }
        let w: &Q6KBlock = &weight[block];
        let x: &Q8KBlock = &inputs[block * rows + row];
        let d: T = math.times(math.single(x.d), math.half(w.d));
        let lanes: &[i32; 8] = &sums[block];
        let mut next: Vec<T> = Vec::new();
        let mut lane: usize = 0;
        while lane < 8
            invariant
                block < weight@.len(),
                acc@ == q6k_lanes(*math, weight@, inputs@, rows as int, row as int, block as int),
                *w == weight@[block as int],
                *x == input_at(inputs@, rows as int, row as int, block as int),
                d == math.product(math.single_of(x.d), math.half_of(w.d)),
                forall|lane: int| 0 <= lane < 8 ==> #[trigger] lanes@[lane] == lane_sum(q6k_weights(*w), q6k_factors(*w), x.qs@, lane, 8),
                lane <= 8,
                next@ == q6k_lanes(
                    *math,
                    weight@,
                    inputs@,
                    rows as int,
                    row as int,
                    block + 1,
                ).take(lane as int),
            decreases 8 - lane,
        {
            next.push(math.mul_add(d, math.integer(lanes[lane]), acc[lane]));
            lane += 1;
            proof {
                assert(next@ =~= q6k_lanes(
                    *math,
                    weight@,
                    inputs@,
                    rows as int,
                    row as int,
                    block + 1,
                ).take(lane as int));
            }
        }
        acc = next;
        block += 1;
        proof {
            assert(acc@ =~= q6k_lanes(
                *math,
                weight@,
                inputs@,
                rows as int,
                row as int,
                block as int,
            ));
        }
    }
    fold_eight(math, &acc)
}

/// One compressed weight row against every input row, tile after tile.
pub fn q6k_row<T: Copy, A: Arithmetic<T>>(
    math: &A,
    weight: &[Q6KBlock],
    inputs: &[Q8KBlock],
    rows: usize,
) -> (out: Vec<T>)
    requires
        inputs@.len() == rows * weight@.len(),
    ensures
        out@.len() == rows,
        forall|r: int|
            0 <= r < rows ==> #[trigger] out@[r] == q6k_dot(
                *math,
                weight@,
                inputs@,
                rows as int,
                r,
            ),
{
    let list = row_tiles(rows);
    proof {
        tiles_cover_the_rows(rows as int);
    }
    let mut out: Vec<T> = Vec::new();
    let mut t: usize = 0;
    while t < list.len()
        invariant
            inputs@.len() == rows * weight@.len(),
            list@ == tiles(rows as int),
            list@.len() > 0 ==> list@[0].0 == 0,
            list@.len() > 0 ==> list@.last().0 + list@.last().1 == rows,
            rows > 0 ==> list@.len() > 0,
            forall|i: int|
                0 < i < list@.len() ==> (#[trigger] list@[i]).0 == list@[i - 1].0 + list@[i - 1].1,
            t <= list@.len(),
            out@.len() == if t == 0 {
                0
            } else {
                list@[t - 1].0 + list@[t - 1].1
            },
            forall|r: int|
                0 <= r < out@.len() ==> #[trigger] out@[r] == q6k_dot(
                    *math,
                    weight@,
                    inputs@,
                    rows as int,
                    r,
                ),
        decreases list@.len() - t,
    {
        let (base, width): (usize, usize) = list[t];
        proof {
            lemma_tile_inside(list@, rows as int, t as int);
            if t > 0 {
                assert(list@[t as int].0 == list@[t - 1].0 + list@[t - 1].1);
            }
            assert(out@.len() == base);
        }
        let sums = q6k_tile(weight, inputs, rows, base, width);
        let mut lane: usize = 0;
        while lane < width
            invariant
                inputs@.len() == rows * weight@.len(),
                base + width <= rows,
                sums@.len() == width,
                forall|l: int| 0 <= l < width ==> (#[trigger] sums@[l])@.len() == weight@.len(),
                forall|l: int, b: int|
                    0 <= l < width && 0 <= b < weight@.len() ==> q6k_sums(
                        #[trigger] sums@[l]@[b],
                        weight@[b],
                        inputs@[b * rows + base + l],
                    ),
                lane <= width,
                out@.len() == base + lane,
                forall|r: int|
                    0 <= r < out@.len() ==> #[trigger] out@[r] == q6k_dot(
                        *math,
                        weight@,
                        inputs@,
                        rows as int,
                        r,
                    ),
            decreases width - lane,
        {
            proof {
                assert(sums@[lane as int]@.len() == weight@.len());
                assert forall|b: int| 0 <= b < weight@.len() implies q6k_sums(
                    #[trigger] sums@[lane as int]@[b],
                    weight@[b],
                    input_at(inputs@, rows as int, base + lane, b),
                ) by {}
            }
            let total: T = q6k_total(math, weight, inputs, rows, base + lane, &sums[lane]);
            out.push(total);
            lane += 1;
        }
        t += 1;
    }
    out
}

/// One lane of a row after the first `n` blocks.
pub open spec fn q80_lane_total<T, A: Arithmetic<T>>(
    math: A,
    weight: Seq<Q80Block>,
    inputs: Seq<Q80Block>,
    rows: int,
    row: int,
    lane: int,
    n: int,
) -> T
    decreases n,
{
    if n <= 0 {
        math.zero_of()
    } else {
        let w = weight[n - 1];
        let x = input_at(inputs, rows, row, n - 1);
        math.fused(
            math.product(math.half_of(w.d), math.half_of(x.d)),
            math.integer_of(q80_lane(w.qs@, x.qs@, lane)),
            q80_lane_total(math, weight, inputs, rows, row, lane, n - 1),
        )
    }
}

/// The lanes of a row after the first `n` blocks.
pub open spec fn q80_lanes<T, A: Arithmetic<T>>(
    math: A,
    weight: Seq<Q80Block>,
    inputs: Seq<Q80Block>,
    rows: int,
    row: int,
    n: int,
) -> Seq<T> {
    Seq::new(8, |lane: int| q80_lane_total(math, weight, inputs, rows, row, lane, n))
}

/// What a weight row and an input row come to.
pub open spec fn q80_dot<T, A: Arithmetic<T>>(
    math: A,
    weight: Seq<Q80Block>,
    inputs: Seq<Q80Block>,
    rows: int,
    row: int,
) -> T {
    folded_eight(math, q80_lanes(math, weight, inputs, rows, row, weight.len() as int))
}

/// Adds up the blocks of one row.
fn q80_total<T: Copy, A: Arithmetic<T>>(
    math: &A,
    weight: &[Q80Block],
    inputs: &[Q80Block],
    rows: usize,
    row: usize,
    sums: &Vec<[i32; 8]>,
) -> (total: T)
    requires
        row < rows,
        inputs@.len() == rows * weight@.len(),
        sums@.len() == weight@.len(),
        forall|b: int|
            0 <= b < sums@.len() ==> q80_sums(
                #[trigger] sums@[b],
                weight@[b],
                input_at(inputs@, rows as int, row as int, b),
            ),
    ensures
        total == q80_dot(*math, weight@, inputs@, rows as int, row as int),
{
    let count: usize = inputs.len();
    let mut acc: Vec<T> = filled(math.zero(), 8);
    let mut block: usize = 0;
    proof {
        assert(acc@ =~= q80_lanes(*math, weight@, inputs@, rows as int, row as int, 0));
    }
    while block < weight.len()
        invariant
            row < rows,
            inputs@.len() == rows * weight@.len(),
            count == inputs@.len(),
            sums@.len() == weight@.len(),
            forall|b: int|
                0 <= b < sums@.len() ==> q80_sums(
                    #[trigger] sums@[b],
                    weight@[b],
                    input_at(inputs@, rows as int, row as int, b),
                ),
            block <= weight@.len(),
            acc@ == q80_lanes(*math, weight@, inputs@, rows as int, row as int, block as int),
        decreases weight@.len() - block,
    {
        proof {
            lemma_input(weight@.len() as int, rows as int, row as int, block as int);
            assert(q80_sums(
                sums@[block as int],
                weight@[block as int],
                input_at(inputs@, rows as int, row as int, block as int),
            ));
        }
        let w: &Q80Block = &weight[block];
        let x: &Q80Block = &inputs[block * rows + row];
        let d: T = math.times(math.half(w.d), math.half(x.d));
        let lanes: &[i32; 8] = &sums[block];
        let mut next: Vec<T> = Vec::new();
        let mut lane: usize = 0;
        while lane < 8
            invariant
                block < weight@.len(),
                acc@ == q80_lanes(*math, weight@, inputs@, rows as int, row as int, block as int),
                *w == weight@[block as int],
                *x == input_at(inputs@, rows as int, row as int, block as int),
                d == math.product(math.half_of(w.d), math.half_of(x.d)),
                forall|lane: int| 0 <= lane < 8 ==> #[trigger] lanes@[lane] == q80_lane(w.qs@, x.qs@, lane),
                lane <= 8,
                next@ == q80_lanes(
                    *math,
                    weight@,
                    inputs@,
                    rows as int,
                    row as int,
                    block + 1,
                ).take(lane as int),
            decreases 8 - lane,
        {
            next.push(math.mul_add(d, math.integer(lanes[lane]), acc[lane]));
            lane += 1;
            proof {
                assert(next@ =~= q80_lanes(
                    *math,
                    weight@,
                    inputs@,
                    rows as int,
                    row as int,
                    block + 1,
                ).take(lane as int));
            }
        }
        acc = next;
        block += 1;
        proof {
            assert(acc@ =~= q80_lanes(
                *math,
                weight@,
                inputs@,
                rows as int,
                row as int,
                block as int,
            ));
        }
    }
    fold_eight(math, &acc)
}

/// One compressed weight row against every input row, tile after tile.
pub fn q80_row<T: Copy, A: Arithmetic<T>>(
    math: &A,
    weight: &[Q80Block],
    inputs: &[Q80Block],
    rows: usize,
) -> (out: Vec<T>)
    requires
        inputs@.len() == rows * weight@.len(),
    ensures
        out@.len() == rows,
        forall|r: int|
            0 <= r < rows ==> #[trigger] out@[r] == q80_dot(
                *math,
                weight@,
                inputs@,
                rows as int,
                r,
            ),
{
    let list = row_tiles(rows);
    proof {
        tiles_cover_the_rows(rows as int);
    }
    let mut out: Vec<T> = Vec::new();
    let mut t: usize = 0;
    while t < list.len()
        invariant
            inputs@.len() == rows * weight@.len(),
            list@ == tiles(rows as int),
            list@.len() > 0 ==> list@[0].0 == 0,
            list@.len() > 0 ==> list@.last().0 + list@.last().1 == rows,
            rows > 0 ==> list@.len() > 0,
            forall|i: int|
                0 < i < list@.len() ==> (#[trigger] list@[i]).0 == list@[i - 1].0 + list@[i - 1].1,
            t <= list@.len(),
            out@.len() == if t == 0 {
                0
            } else {
                list@[t - 1].0 + list@[t - 1].1
            },
            forall|r: int|
                0 <= r < out@.len() ==> #[trigger] out@[r] == q80_dot(
                    *math,
                    weight@,
                    inputs@,
                    rows as int,
                    r,
                ),
        decreases list@.len() - t,
    {
        let (base, width): (usize, usize) = list[t];
        proof {
            lemma_tile_inside(list@, rows as int, t as int);
            if t > 0 {
                assert(list@[t as int].0 == list@[t - 1].0 + list@[t - 1].1);
            }
            assert(out@.len() == base);
        }
        let sums = q80_tile(weight, inputs, rows, base, width);
        let mut lane: usize = 0;
        while lane < width
            invariant
                inputs@.len() == rows * weight@.len(),
                base + width <= rows,
                sums@.len() == width,
                forall|l: int| 0 <= l < width ==> (#[trigger] sums@[l])@.len() == weight@.len(),
                forall|l: int, b: int|
                    0 <= l < width && 0 <= b < weight@.len() ==> q80_sums(
                        #[trigger] sums@[l]@[b],
                        weight@[b],
                        inputs@[b * rows + base + l],
                    ),
                lane <= width,
                out@.len() == base + lane,
                forall|r: int|
                    0 <= r < out@.len() ==> #[trigger] out@[r] == q80_dot(
                        *math,
                        weight@,
                        inputs@,
                        rows as int,
                        r,
                    ),
            decreases width - lane,
        {
            proof {
                assert(sums@[lane as int]@.len() == weight@.len());
                assert forall|b: int| 0 <= b < weight@.len() implies q80_sums(
                    #[trigger] sums@[lane as int]@[b],
                    weight@[b],
                    input_at(inputs@, rows as int, base + lane, b),
                ) by {}
            }
            let total: T = q80_total(math, weight, inputs, rows, base + lane, &sums[lane]);
            out.push(total);
            lane += 1;
        }
        t += 1;
    }
    out
}

} // verus!
