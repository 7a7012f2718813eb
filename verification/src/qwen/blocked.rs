//! The cache scan, blocked so that the query heads that share a key/value head
//! read it together.
//!
//! A plane is one token against one key/value head, carrying the whole group of
//! query heads that share it. Its buffer is `[past][group]`, so that what one
//! position contributes lies together.

use super::scan::{
    attended, dot, is_prefix, key_row, lemma_cell, lemma_cell_inside, lemma_fewer_positions,
    lemma_group, lemma_row_inside, mix_of, peak_of, probabilities_of, rounded_share, row_start,
    scan_of, scannable, scanned, score_of, scores_of, sigmoid, split, total_of, weights_of,
    ScanShape, ScanTimes, MIN_COLUMN_BLOCK, MIN_PAST_BLOCK, SCORE_BUDGET,
};
use crate::arithmetic::{elapsed, Arithmetic, Clock};
use crate::buffers::filled;
use vstd::arithmetic::div_mod::lemma_fundamental_div_mod;
use vstd::prelude::*;

verus! {

/// What one member of a group has in a plane: every `groups`-th number.
pub open spec fn member<T>(buffer: Seq<T>, groups: int, g: int, n: nat) -> Seq<T> {
    Seq::new(n, |past: int| buffer[past * groups + g])
}

/// Whether a plane holds the scores of its group.
pub open spec fn holds_scores<T, A: Arithmetic<T>>(
    buffer: Seq<T>,
    math: A,
    shape: ScanShape,
    scale: T,
    heads: Seq<Vec<T>>,
    keys: Seq<T>,
    kv_head: int,
    n: int,
) -> bool {
    let groups = shape.group();
    &&& buffer.len() == n * groups
    &&& forall|i: int|
        0 <= i < buffer.len() ==> #[trigger] buffer[i] == score_of(
            math,
            shape,
            scale,
            heads[kv_head * groups + i % groups]@,
            keys,
            kv_head,
            i / groups,
        )
}

/// The probabilities of one query head.
pub open spec fn head_probabilities<T, A: Arithmetic<T>>(
    math: A,
    shape: ScanShape,
    scale: T,
    heads: Seq<Vec<T>>,
    keys: Seq<T>,
    kv_head: int,
    g: int,
    n: int,
) -> Seq<T> {
    probabilities_of(
        math,
        scores_of(
            math,
            shape,
            scale,
            heads[kv_head * shape.group() + g]@,
            keys,
            kv_head,
            n as nat,
        ),
    )
}

/// Whether a plane holds the probabilities of its group.
pub open spec fn holds_probabilities<T, A: Arithmetic<T>>(
    buffer: Seq<T>,
    math: A,
    shape: ScanShape,
    scale: T,
    heads: Seq<Vec<T>>,
    keys: Seq<T>,
    kv_head: int,
    n: int,
) -> bool {
    let groups = shape.group();
    &&& buffer.len() == n * groups
    &&& forall|i: int|
        0 <= i < buffer.len() ==> #[trigger] buffer[i] == head_probabilities(
            math,
            shape,
            scale,
            heads,
            keys,
            kv_head,
            i % groups,
            n,
        )[i / groups]
}

/// Whether a plane's sums, `[column][group]`, are the weighted values.
pub open spec fn holds_sums<T, A: Arithmetic<T>>(
    sums: Seq<T>,
    math: A,
    shape: ScanShape,
    scale: T,
    heads: Seq<Vec<T>>,
    keys: Seq<T>,
    values: Seq<T>,
    kv_head: int,
    n: int,
) -> bool {
    let groups = shape.group();
    &&& sums.len() == shape.head_dim * groups
    &&& forall|i: int|
        0 <= i < sums.len() ==> #[trigger] sums[i] == mix_of(
            math,
            shape,
            head_probabilities(math, shape, scale, heads, keys, kv_head, i % groups, n),
            values,
            kv_head,
            i / groups,
            n,
        )
}

/// A member of a group is one of the query heads.
proof fn lemma_member(shape: ScanShape, kv_head: int, g: int)
    requires
        shape.group() > 0,
        shape.query_heads == shape.group() * shape.kv_heads,
        0 <= kv_head < shape.kv_heads,
        0 <= g < shape.group(),
    ensures
        0 <= kv_head * shape.group() + g < shape.query_heads,
        0 <= kv_head * shape.group(),
{
    let k = shape.kv_heads as int;
    let groups = shape.group();
    lemma_cell_inside(k, groups, kv_head, g);
    assert(k * groups == groups * k) by (nonlinear_arith);
}

/// The scores of a plane, block after block of positions. Each key row is read
/// once and scored against every query head of the group.
fn score_plane<T: Copy, A: Arithmetic<T>>(
    math: &A,
    shape: &ScanShape,
    scale: T,
    heads: &Vec<Vec<T>>,
    keys: &[T],
    kv_head: usize,
    n: usize,
    past_block: usize,
) -> (buffer: Vec<T>)
    requires
        shape.group() > 0,
        shape.query_heads == shape.group() * shape.kv_heads,
        shape.head_dim > 0,
        kv_head < shape.kv_heads,
        heads@.len() == shape.query_heads,
        forall|h: int|
            0 <= h < shape.query_heads ==> (#[trigger] heads@[h])@.len() == shape.head_dim,
        keys@.len() >= n * shape.kv_heads * shape.head_dim,
        past_block > 0,
    ensures
        holds_scores(buffer@, *math, *shape, scale, heads@, keys@, kv_head as int, n as int),
{
    let groups: usize = shape.groups();
    let mut buffer: Vec<T> = Vec::new();
    let mut past: usize = 0;
    proof {
        assert(0 * groups == 0);
    }
    while past < n
        invariant
            groups == shape.group(),
            groups > 0,
            shape.query_heads == shape.group() * shape.kv_heads,
            shape.head_dim > 0,
            kv_head < shape.kv_heads,
            heads@.len() == shape.query_heads,
            forall|h: int|
                0 <= h < shape.query_heads ==> (#[trigger] heads@[h])@.len() == shape.head_dim,
            keys@.len() >= n * shape.kv_heads * shape.head_dim,
            past_block > 0,
            past <= n,
            holds_scores(
                buffer@,
                *math,
                *shape,
                scale,
                heads@,
                keys@,
                kv_head as int,
                past as int,
            ),
        decreases n - past,
    {
        let end: usize = if n - past > past_block {
            past + past_block
        } else {
            n
        };
        while past < end
            invariant
                groups == shape.group(),
                groups > 0,
                shape.query_heads == shape.group() * shape.kv_heads,
                shape.head_dim > 0,
                kv_head < shape.kv_heads,
                heads@.len() == shape.query_heads,
                forall|h: int|
                    0 <= h < shape.query_heads ==> (#[trigger] heads@[h])@.len() == shape.head_dim,
                keys@.len() >= n * shape.kv_heads * shape.head_dim,
                past <= end <= n,
                holds_scores(
                    buffer@,
                    *math,
                    *shape,
                    scale,
                    heads@,
                    keys@,
                    kv_head as int,
                    past as int,
                ),
            decreases end - past,
        {
            proof {
                lemma_fewer_positions(*shape, n as int, past + 1);
            }
            let key = key_row(shape, keys, kv_head, past);
            let mut g: usize = 0;
            while g < groups
                invariant
                    groups == shape.group(),
                    groups > 0,
                    shape.query_heads == shape.group() * shape.kv_heads,
                    kv_head < shape.kv_heads,
                    heads@.len() == shape.query_heads,
                    forall|h: int|
                        0 <= h < shape.query_heads ==> (#[trigger] heads@[h])@.len()
                            == shape.head_dim,
                    key@.len() == shape.head_dim,
                    key@ == super::scan::cache_row(
                        keys@,
                        shape.kv_heads as int,
                        shape.head_dim as int,
                        past as int,
                        kv_head as int,
                    ),
                    g <= groups,
                    buffer@.len() == past * groups + g,
                    forall|i: int|
                        0 <= i < buffer@.len() ==> #[trigger] buffer@[i] == score_of(
                            *math,
                            *shape,
                            scale,
                            heads@[kv_head * groups + i % (groups as int)]@,
                            keys@,
                            kv_head as int,
                            i / (groups as int),
                        ),
                decreases groups - g,
            {
                proof {
                    lemma_member(*shape, kv_head as int, g as int);
                    lemma_cell(past as int, groups as int, g as int);
                }
                let ghost before = buffer@;
                let query: &[T] = heads[kv_head * groups + g].as_slice();
                buffer.push(math.times(dot(math, query, key), scale));
                proof {
                    assert forall|i: int|
                        0 <= i < buffer@.len() implies #[trigger] buffer@[i] == score_of(
                        *math,
                        *shape,
                        scale,
                        heads@[kv_head * groups + i % (groups as int)]@,
                        keys@,
                        kv_head as int,
                        i / (groups as int),
                    ) by {
                        if i < before.len() {
                            assert(buffer@[i] == before[i]);
                        }
                    }
                }
                g += 1;
            }
            proof {
                assert(past * groups + groups == (past + 1) * groups) by (nonlinear_arith);
            }
            past += 1;
        }
    }
    buffer
}

/// Turns the scores of a plane into probabilities, in place. The lanes are the
/// group's query heads, so each head's maximum and denominator are reduced over
/// the positions in their order.
fn softmax_plane<T: Copy, A: Arithmetic<T>>(
    math: &A,
    buffer: &mut Vec<T>,
    groups: usize,
    n: usize,
)
    requires
        groups > 0,
        old(buffer)@.len() == n * groups,
    ensures
        final(buffer)@.len() == n * groups,
        forall|i: int|
            0 <= i < n * groups ==> #[trigger] final(buffer)@[i] == probabilities_of(
                *math,
                member(old(buffer)@, groups as int, i % (groups as int), n as nat),
            )[i / (groups as int)],
{
    let ghost s = buffer@;
    let size: usize = buffer.len();
    let mut max: Vec<T> = filled(math.lowest(), groups);
    let mut past: usize = 0;
    while past < n
        invariant
            groups > 0,
            size == n * groups,
            buffer@ == s,
            s.len() == size,
            past <= n,
            max@.len() == groups,
            forall|g: int|
                0 <= g < groups ==> #[trigger] max@[g] == peak_of(
                    *math,
                    member(s, groups as int, g, n as nat),
                    past as int,
                ),
        decreases n - past,
    {
        let mut g: usize = 0;
        while g < groups
            invariant
                groups > 0,
                size == n * groups,
                buffer@ == s,
                s.len() == size,
                past < n,
                g <= groups,
                max@.len() == groups,
                forall|h: int|
                    0 <= h < groups ==> #[trigger] max@[h] == peak_of(
                        *math,
                        member(s, groups as int, h, n as nat),
                        if h < g {
                            past + 1
                        } else {
                            past as int
                        },
                    ),
            decreases groups - g,
        {
            proof {
                lemma_cell_inside(n as int, groups as int, past as int, g as int);
            }
            max.set(g, math.max(max[g], buffer[past * groups + g]));
            g += 1;
        }
        past += 1;
    }
    let mut denominator: Vec<T> = filled(math.zero(), groups);
    let mut row: usize = 0;
    while row < n
        invariant
            groups > 0,
            size == n * groups,
            s.len() == size,
            max@.len() == groups,
            forall|g: int|
                0 <= g < groups ==> #[trigger] max@[g] == peak_of(
                    *math,
                    member(s, groups as int, g, n as nat),
                    n as int,
                ),
            row <= n,
            denominator@.len() == groups,
            forall|g: int|
                0 <= g < groups ==> #[trigger] denominator@[g] == total_of(
                    *math,
                    weights_of(*math, member(s, groups as int, g, n as nat)),
                    row as int,
                ),
            buffer@.len() == size,
            forall|i: int|
                0 <= i < size ==> #[trigger] buffer@[i] == if i < row * groups {
                    weights_of(*math, member(s, groups as int, i % (groups as int), n as nat))[i / (
                    groups as int)]
                } else {
                    s[i]
                },
        decreases n - row,
    {
        let mut g: usize = 0;
        while g < groups
            invariant
                groups > 0,
                size == n * groups,
                s.len() == size,
                max@.len() == groups,
                forall|g: int|
                    0 <= g < groups ==> #[trigger] max@[g] == peak_of(
                        *math,
                        member(s, groups as int, g, n as nat),
                        n as int,
                    ),
                row < n,
                g <= groups,
                denominator@.len() == groups,
                forall|h: int|
                    0 <= h < groups ==> #[trigger] denominator@[h] == total_of(
                        *math,
                        weights_of(*math, member(s, groups as int, h, n as nat)),
                        if h < g {
                            row + 1
                        } else {
                            row as int
                        },
                    ),
                buffer@.len() == size,
                forall|i: int|
                    0 <= i < size ==> #[trigger] buffer@[i] == if i < row * groups + g {
                        weights_of(
                            *math,
                            member(s, groups as int, i % (groups as int), n as nat),
                        )[i / (groups as int)]
                    } else {
                        s[i]
                    },
            decreases groups - g,
        {
            proof {
                lemma_cell_inside(n as int, groups as int, row as int, g as int);
                lemma_cell(row as int, groups as int, g as int);
            }
            let at: usize = row * groups + g;
            let weight: T = math.exp(math.minus(buffer[at], max[g]));
            proof {
                assert(weight == weights_of(
                    *math,
                    member(s, groups as int, g as int, n as nat),
                )[row as int]);
            }
            buffer.set(at, weight);
            denominator.set(g, math.plus(denominator[g], weight));
            g += 1;
        }
        proof {
            assert(row * groups + groups == (row + 1) * groups) by (nonlinear_arith);
        }
        row += 1;
    }
    let ghost w = buffer@;
    let mut at: usize = 0;
    while at < size
        invariant
            groups > 0,
            size == n * groups,
            s.len() == size,
            w.len() == size,
            forall|i: int|
                0 <= i < size ==> #[trigger] w[i] == weights_of(
                    *math,
                    member(s, groups as int, i % (groups as int), n as nat),
                )[i / (groups as int)],
            denominator@.len() == groups,
            forall|g: int|
                0 <= g < groups ==> #[trigger] denominator@[g] == total_of(
                    *math,
                    weights_of(*math, member(s, groups as int, g, n as nat)),
                    n as int,
                ),
            at <= size,
            buffer@.len() == size,
            forall|i: int|
                0 <= i < size ==> #[trigger] buffer@[i] == if i < at {
                    probabilities_of(
                        *math,
                        member(s, groups as int, i % (groups as int), n as nat),
                    )[i / (groups as int)]
                } else {
                    w[i]
                },
        decreases size - at,
    {
        proof {
            lemma_row_of(at as int, groups as int, n as int);
        }
        let quotient: T = math.over(buffer[at], denominator[at % groups]);
        buffer.set(at, quotient);
        at += 1;
    }
}

/// A place in a plane has a row and a column in it.
proof fn lemma_row_of(i: int, width: int, rows: int)
    requires
        0 <= i < rows * width,
        0 < width,
    ensures
        0 <= i / width < rows,
        0 <= i % width < width,
        i == (i / width) * width + i % width,
{
    lemma_fundamental_div_mod(i, width);
    let q = i / width;
    assert(0 <= q < rows && width * q == q * width) by (nonlinear_arith)
        requires
            i == width * q + i % width,
            0 <= i % width < width,
            0 <= i < rows * width,
    ;
}

/// One block of columns of a plane's weighted sum, over every position.
fn weighted_sum<T: Copy, A: Arithmetic<T>>(
    math: &A,
    shape: &ScanShape,
    scores: &Vec<T>,
    values: &[T],
    kv_head: usize,
    n: usize,
    first_column: usize,
    width: usize,
) -> (out: Vec<T>)
    requires
        shape.group() > 0,
        shape.head_dim > 0,
        kv_head < shape.kv_heads,
        scores@.len() == n * shape.group(),
        values@.len() >= n * shape.kv_heads * shape.head_dim,
        first_column + width <= shape.head_dim,
        width * shape.group() <= usize::MAX,
    ensures
        out@.len() == width * shape.group(),
        forall|i: int|
            0 <= i < out@.len() ==> #[trigger] out@[i] == mix_of(
                *math,
                *shape,
                member(scores@, shape.group(), i % shape.group(), n as nat),
                values@,
                kv_head as int,
                first_column + i / shape.group(),
                n as int,
            ),
{
    let groups: usize = shape.groups();
    let size: usize = width * groups;
    let mut out: Vec<T> = filled(math.zero(), size);
    let mut past: usize = 0;
    while past < n
        invariant
            groups == shape.group(),
            groups > 0,
            shape.head_dim > 0,
            kv_head < shape.kv_heads,
            scores@.len() == n * groups,
            values@.len() >= n * shape.kv_heads * shape.head_dim,
            first_column + width <= shape.head_dim,
            size == width * groups,
            past <= n,
            out@.len() == size,
            forall|i: int|
                0 <= i < size ==> #[trigger] out@[i] == mix_of(
                    *math,
                    *shape,
                    member(scores@, groups as int, i % (groups as int), n as nat),
                    values@,
                    kv_head as int,
                    first_column + i / (groups as int),
                    past as int,
                ),
        decreases n - past,
    {
        let count: usize = values.len();
        let held: usize = scores.len();
        proof {
            lemma_row_inside(
                n as int,
                shape.kv_heads as int,
                shape.head_dim as int,
                past as int,
                kv_head as int,
            );
        }
        let base: usize = (past * shape.kv_heads + kv_head) * shape.head_dim;
        let mut at: usize = 0;
        while at < size
            invariant
                groups == shape.group(),
                groups > 0,
                scores@.len() == n * groups,
                held == scores@.len(),
                first_column + width <= shape.head_dim,
                size == width * groups,
                past < n,
                base == row_start(
                    shape.kv_heads as int,
                    shape.head_dim as int,
                    past as int,
                    kv_head as int,
                ),
                base + shape.head_dim <= values@.len(),
                values@.len() == count,
                at <= size,
                out@.len() == size,
                forall|i: int|
                    0 <= i < size ==> #[trigger] out@[i] == mix_of(
                        *math,
                        *shape,
                        member(scores@, groups as int, i % (groups as int), n as nat),
                        values@,
                        kv_head as int,
                        first_column + i / (groups as int),
                        if i < at {
                            past + 1
                        } else {
                            past as int
                        },
                    ),
            decreases size - at,
        {
            proof {
                lemma_row_of(at as int, groups as int, width as int);
                lemma_cell_inside(n as int, groups as int, past as int, at as int % groups as int);
            }
            let column: usize = first_column + at / groups;
            let weight: T = scores[past * groups + at % groups];
            let value: T = values[base + column];
            out.set(at, math.plus(out[at], math.times(weight, value)));
            at += 1;
        }
        past += 1;
    }
    out
}

/// The weighted sum of a plane, block after block of columns.
fn sum_plane<T: Copy, A: Arithmetic<T>>(
    math: &A,
    shape: &ScanShape,
    scores: &Vec<T>,
    values: &[T],
    kv_head: usize,
    n: usize,
    column_block: usize,
) -> (sums: Vec<T>)
    requires
        shape.group() > 0,
        shape.head_dim > 0,
        kv_head < shape.kv_heads,
        scores@.len() == n * shape.group(),
        values@.len() >= n * shape.kv_heads * shape.head_dim,
        column_block > 0,
        shape.head_dim * shape.group() <= usize::MAX,
    ensures
        sums@.len() == shape.head_dim * shape.group(),
        forall|i: int|
            0 <= i < sums@.len() ==> #[trigger] sums@[i] == mix_of(
                *math,
                *shape,
                member(scores@, shape.group(), i % shape.group(), n as nat),
                values@,
                kv_head as int,
                i / shape.group(),
                n as int,
            ),
{
    let groups: usize = shape.groups();
    let dim: usize = shape.head_dim;
    let mut sums: Vec<T> = Vec::new();
    let mut column: usize = 0;
    proof {
        assert(0 * groups == 0);
    }
    while column < dim
        invariant
            groups == shape.group(),
            groups > 0,
            dim == shape.head_dim,
            dim > 0,
            kv_head < shape.kv_heads,
            scores@.len() == n * groups,
            values@.len() >= n * shape.kv_heads * shape.head_dim,
            column_block > 0,
            dim * groups <= usize::MAX,
            column <= dim,
            sums@.len() == column * groups,
            forall|i: int|
                0 <= i < sums@.len() ==> #[trigger] sums@[i] == mix_of(
                    *math,
                    *shape,
                    member(scores@, groups as int, i % (groups as int), n as nat),
                    values@,
                    kv_head as int,
                    i / (groups as int),
                    n as int,
                ),
        decreases dim - column,
    {
        let width: usize = if dim - column > column_block {
            column_block
        } else {
            dim - column
        };
        proof {
            assert(width * groups <= dim * groups) by (nonlinear_arith)
                requires
                    width <= dim,
                    0 <= groups,
            ;
        }
        let block = weighted_sum(math, shape, scores, values, kv_head, n, column, width);
        let mut at: usize = 0;
        let size: usize = block.len();
        while at < size
            invariant
                groups == shape.group(),
                groups > 0,
                size == width * groups,
                block@.len() == size,
                forall|i: int|
                    0 <= i < size ==> #[trigger] block@[i] == mix_of(
                        *math,
                        *shape,
                        member(scores@, groups as int, i % (groups as int), n as nat),
                        values@,
                        kv_head as int,
                        column + i / (groups as int),
                        n as int,
                    ),
                at <= size,
                sums@.len() == column * groups + at,
                forall|i: int|
                    0 <= i < sums@.len() ==> #[trigger] sums@[i] == mix_of(
                        *math,
                        *shape,
                        member(scores@, groups as int, i % (groups as int), n as nat),
                        values@,
                        kv_head as int,
                        i / (groups as int),
                        n as int,
                    ),
            decreases size - at,
        {
            let ghost before = sums@;
            let ghost i = before.len() as int;
            sums.push(block[at]);
            proof {
                let row = at as int / groups as int;
                let rest = at as int % groups as int;
                lemma_row_of(at as int, groups as int, width as int);
                assert(i == (column + row) * groups + rest) by (nonlinear_arith)
                    requires
                        i == column * groups + at,
                        at == row * groups + rest,
                ;
                lemma_cell(column + row, groups as int, rest);
                assert forall|k: int| 0 <= k < sums@.len() implies #[trigger] sums@[k] == mix_of(
                    *math,
                    *shape,
                    member(scores@, groups as int, k % (groups as int), n as nat),
                    values@,
                    kv_head as int,
                    k / (groups as int),
                    n as int,
                ) by {
                    if k < i {
                        assert(sums@[k] == before[k]);
                    }
                }
            }
            at += 1;
        }
        proof {
            assert(column * groups + width * groups == (column + width) * groups)
                by (nonlinear_arith);
        }
        column += width;
    }
    sums
}

/// What a chunk of rows works on.
pub open spec fn plane_row<T>(queries: Seq<Vec<Vec<T>>>, first_row: int, kv_heads: int, plane: int) -> Seq<
    Vec<T>,
> {
    queries[first_row + plane / kv_heads]@
}

/// The positions that the row of a plane attends to.
pub open spec fn plane_reach(shape: ScanShape, first_row: int, plane: int) -> int {
    shape.existing + first_row + plane / (shape.kv_heads as int) + 1
}

/// The operands of a chunk of rows fit.
pub open spec fn chunk_fits<T>(
    shape: ScanShape,
    queries: Seq<Vec<Vec<T>>>,
    gates: Seq<Vec<Vec<T>>>,
    keys: Seq<T>,
    values: Seq<T>,
    first_row: int,
    rows: int,
) -> bool {
    &&& scannable(shape, queries, gates, keys, values)
    &&& 0 <= first_row
    &&& 0 <= rows
    &&& first_row + rows <= shape.seq
    &&& shape.head_dim * shape.group() <= usize::MAX
    &&& rows * shape.kv_heads <= usize::MAX
}

/// What is known of one plane of a chunk.
proof fn lemma_plane<T>(
    shape: ScanShape,
    queries: Seq<Vec<Vec<T>>>,
    gates: Seq<Vec<Vec<T>>>,
    keys: Seq<T>,
    values: Seq<T>,
    first_row: int,
    rows: int,
    plane: int,
)
    requires
        chunk_fits(shape, queries, gates, keys, values, first_row, rows),
        0 <= plane < rows * shape.kv_heads,
    ensures
        0 <= plane / (shape.kv_heads as int) < rows,
        0 <= plane % (shape.kv_heads as int) < shape.kv_heads,
        plane_reach(shape, first_row, plane) <= shape.existing + shape.seq,
        keys.len() >= plane_reach(shape, first_row, plane) * shape.kv_heads * shape.head_dim,
        values.len() >= plane_reach(shape, first_row, plane) * shape.kv_heads * shape.head_dim,
        plane_row(queries, first_row, shape.kv_heads as int, plane).len() == shape.query_heads,
        forall|h: int|
            0 <= h < shape.query_heads ==> (#[trigger] plane_row(
                queries,
                first_row,
                shape.kv_heads as int,
                plane,
            )[h])@.len() == shape.head_dim,
{
    lemma_row_of(plane, shape.kv_heads as int, rows);
    let n = plane_reach(shape, first_row, plane);
    lemma_fewer_positions(shape, shape.existing + shape.seq, n);
    let t = first_row + plane / (shape.kv_heads as int);
    assert(queries[t]@.len() == shape.query_heads);
    assert forall|h: int| 0 <= h < shape.query_heads implies (#[trigger] queries[t]@[h])@.len()
        == shape.head_dim by {}
}

/// The scores of every plane of a chunk.
fn score_planes<T: Copy, A: Arithmetic<T>>(
    math: &A,
    shape: &ScanShape,
    scale: T,
    queries: &Vec<Vec<Vec<T>>>,
    keys: &[T],
    first_row: usize,
    rows: usize,
    past_block: usize,
    Ghost(gates): Ghost<Seq<Vec<Vec<T>>>>,
    Ghost(values): Ghost<Seq<T>>,
) -> (planes: Vec<Vec<T>>)
    requires
        chunk_fits(*shape, queries@, gates, keys@, values, first_row as int, rows as int),
        past_block > 0,
    ensures
        planes@.len() == rows * shape.kv_heads,
        forall|p: int|
            0 <= p < planes@.len() ==> holds_scores(
                (#[trigger] planes@[p])@,
                *math,
                *shape,
                scale,
                plane_row(queries@, first_row as int, shape.kv_heads as int, p),
                keys@,
                p % (shape.kv_heads as int),
                plane_reach(*shape, first_row as int, p),
            ),
{
    let count: usize = rows * shape.kv_heads;
    let mut planes: Vec<Vec<T>> = Vec::new();
    let mut plane: usize = 0;
    while plane < count
        invariant
            chunk_fits(*shape, queries@, gates, keys@, values, first_row as int, rows as int),
            past_block > 0,
            count == rows * shape.kv_heads,
            plane <= count,
            planes@.len() == plane,
            forall|p: int|
                0 <= p < planes@.len() ==> holds_scores(
                    (#[trigger] planes@[p])@,
                    *math,
                    *shape,
                    scale,
                    plane_row(queries@, first_row as int, shape.kv_heads as int, p),
                    keys@,
                    p % (shape.kv_heads as int),
                    plane_reach(*shape, first_row as int, p),
                ),
        decreases count - plane,
    {
        proof {
            lemma_plane(
                *shape,
                queries@,
                gates,
                keys@,
                values,
                first_row as int,
                rows as int,
                plane as int,
            );
        }
        let token: usize = first_row + plane / shape.kv_heads;
        let kv_head: usize = plane % shape.kv_heads;
        let n: usize = shape.existing + token + 1;
        let buffer = score_plane(
            math,
            shape,
            scale,
            &queries[token],
            keys,
            kv_head,
            n,
            past_block,
        );
        planes.push(buffer);
        plane += 1;
    }
    planes
}

/// Scores become probabilities.
proof fn lemma_softmax<T, A: Arithmetic<T>>(
    math: A,
    shape: ScanShape,
    scale: T,
    heads: Seq<Vec<T>>,
    keys: Seq<T>,
    kv_head: int,
    n: int,
    scores: Seq<T>,
    after: Seq<T>,
)
    requires
        shape.group() > 0,
        0 <= n,
        holds_scores(scores, math, shape, scale, heads, keys, kv_head, n),
        after.len() == n * shape.group(),
        forall|i: int|
            0 <= i < n * shape.group() ==> #[trigger] after[i] == probabilities_of(
                math,
                member(scores, shape.group(), i % shape.group(), n as nat),
            )[i / shape.group()],
    ensures
        holds_probabilities(after, math, shape, scale, heads, keys, kv_head, n),
{
    let groups = shape.group();
    assert forall|i: int| 0 <= i < after.len() implies #[trigger] after[i] == head_probabilities(
        math,
        shape,
        scale,
        heads,
        keys,
        kv_head,
        i % groups,
        n,
    )[i / groups] by {
        lemma_row_of(i, groups, n);
        let g = i % groups;
        let of_head = scores_of(
            math,
            shape,
            scale,
            heads[kv_head * groups + g]@,
            keys,
            kv_head,
            n as nat,
        );
        assert forall|past: int| 0 <= past < n implies member(scores, groups, g, n as nat)[past]
            == of_head[past] by {
            lemma_cell_inside(n, groups, past, g);
            lemma_cell(past, groups, g);
            assert(scores[past * groups + g] == score_of(
                math,
                shape,
                scale,
                heads[kv_head * groups + g]@,
                keys,
                kv_head,
                past,
            ));
        }
        assert(member(scores, groups, g, n as nat) =~= of_head);
    }
}

/// Turns the scores of every plane of a chunk into probabilities.
fn softmax_planes<T: Copy, A: Arithmetic<T>>(
    math: &A,
    shape: &ScanShape,
    planes: &mut Vec<Vec<T>>,
    first_row: usize,
    rows: usize,
    Ghost(scale): Ghost<T>,
    Ghost(queries): Ghost<Seq<Vec<Vec<T>>>>,
    Ghost(gates): Ghost<Seq<Vec<Vec<T>>>>,
    Ghost(keys): Ghost<Seq<T>>,
    Ghost(values): Ghost<Seq<T>>,
)
    requires
        chunk_fits(*shape, queries, gates, keys, values, first_row as int, rows as int),
        old(planes)@.len() == rows * shape.kv_heads,
        forall|p: int|
            0 <= p < old(planes)@.len() ==> holds_scores(
                (#[trigger] old(planes)@[p])@,
                *math,
                *shape,
                scale,
                plane_row(queries, first_row as int, shape.kv_heads as int, p),
                keys,
                p % (shape.kv_heads as int),
                plane_reach(*shape, first_row as int, p),
            ),
    ensures
        final(planes)@.len() == rows * shape.kv_heads,
        forall|p: int|
            0 <= p < final(planes)@.len() ==> holds_probabilities(
                (#[trigger] final(planes)@[p])@,
                *math,
                *shape,
                scale,
                plane_row(queries, first_row as int, shape.kv_heads as int, p),
                keys,
                p % (shape.kv_heads as int),
                plane_reach(*shape, first_row as int, p),
            ),
{
    let groups: usize = shape.groups();
    let count: usize = planes.len();
    let ghost scores = planes@;
    let mut plane: usize = 0;
    while plane < count
        invariant
            chunk_fits(*shape, queries, gates, keys, values, first_row as int, rows as int),
            groups == shape.group(),
            count == rows * shape.kv_heads,
            plane <= count,
            planes@.len() == count,
            scores.len() == count,
            forall|p: int|
                0 <= p < count ==> holds_scores(
                    (#[trigger] scores[p])@,
                    *math,
                    *shape,
                    scale,
                    plane_row(queries, first_row as int, shape.kv_heads as int, p),
                    keys,
                    p % (shape.kv_heads as int),
                    plane_reach(*shape, first_row as int, p),
                ),
            forall|p: int| plane <= p < count ==> #[trigger] planes@[p] == scores[p],
            forall|p: int|
                0 <= p < plane ==> holds_probabilities(
                    (#[trigger] planes@[p])@,
                    *math,
                    *shape,
                    scale,
                    plane_row(queries, first_row as int, shape.kv_heads as int, p),
                    keys,
                    p % (shape.kv_heads as int),
                    plane_reach(*shape, first_row as int, p),
                ),
        decreases count - plane,
    {
        proof {
            lemma_plane(
                *shape,
                queries,
                gates,
                keys,
                values,
                first_row as int,
                rows as int,
                plane as int,
            );
        }
        let n: usize = shape.existing + (first_row + plane / shape.kv_heads) + 1;
        let ghost before = planes@;
        let mut buffer: Vec<T> = Vec::new();
        std::mem::swap(&mut buffer, &mut planes[plane]);
        proof {
            assert(buffer@ == scores[plane as int]@);
        }
        softmax_plane(math, &mut buffer, groups, n);
        proof {
            lemma_softmax(
                *math,
                *shape,
                scale,
                plane_row(queries, first_row as int, shape.kv_heads as int, plane as int),
                keys,
                plane as int % (shape.kv_heads as int),
                n as int,
                scores[plane as int]@,
                buffer@,
            );
        }
        planes.set(plane, buffer);
        plane += 1;
    }
}

/// Sums over probabilities are the weighted values.
proof fn lemma_sums<T, A: Arithmetic<T>>(
    math: A,
    shape: ScanShape,
    scale: T,
    heads: Seq<Vec<T>>,
    keys: Seq<T>,
    values: Seq<T>,
    kv_head: int,
    n: int,
    probabilities: Seq<T>,
    sums: Seq<T>,
)
    requires
        shape.group() > 0,
        0 <= n,
        holds_probabilities(probabilities, math, shape, scale, heads, keys, kv_head, n),
        sums.len() == shape.head_dim * shape.group(),
        forall|i: int|
            0 <= i < sums.len() ==> #[trigger] sums[i] == mix_of(
                math,
                shape,
                member(probabilities, shape.group(), i % shape.group(), n as nat),
                values,
                kv_head,
                i / shape.group(),
                n,
            ),
    ensures
        holds_sums(sums, math, shape, scale, heads, keys, values, kv_head, n),
{
    let groups = shape.group();
    assert forall|i: int| 0 <= i < sums.len() implies #[trigger] sums[i] == mix_of(
        math,
        shape,
        head_probabilities(math, shape, scale, heads, keys, kv_head, i % groups, n),
        values,
        kv_head,
        i / groups,
        n,
    ) by {
        lemma_row_of(i, groups, shape.head_dim as int);
        let g = i % groups;
        let of_head = head_probabilities(math, shape, scale, heads, keys, kv_head, g, n);
        assert forall|past: int| 0 <= past < n implies member(probabilities, groups, g, n as nat)[past]
            == of_head[past] by {
            lemma_cell_inside(n, groups, past, g);
            lemma_cell(past, groups, g);
            assert(probabilities[past * groups + g] == of_head[past]);
        }
        assert(member(probabilities, groups, g, n as nat) =~= of_head);
    }
}

/// The weighted sums of every plane of a chunk.
fn sum_planes<T: Copy, A: Arithmetic<T>>(
    math: &A,
    shape: &ScanShape,
    planes: &Vec<Vec<T>>,
    values: &[T],
    first_row: usize,
    rows: usize,
    column_block: usize,
    Ghost(scale): Ghost<T>,
    Ghost(queries): Ghost<Seq<Vec<Vec<T>>>>,
    Ghost(gates): Ghost<Seq<Vec<Vec<T>>>>,
    Ghost(keys): Ghost<Seq<T>>,
) -> (sums: Vec<Vec<T>>)
    requires
        chunk_fits(*shape, queries, gates, keys, values@, first_row as int, rows as int),
        column_block > 0,
        planes@.len() == rows * shape.kv_heads,
        forall|p: int|
            0 <= p < planes@.len() ==> holds_probabilities(
                (#[trigger] planes@[p])@,
                *math,
                *shape,
                scale,
                plane_row(queries, first_row as int, shape.kv_heads as int, p),
                keys,
                p % (shape.kv_heads as int),
                plane_reach(*shape, first_row as int, p),
            ),
    ensures
        sums@.len() == rows * shape.kv_heads,
        forall|p: int|
            0 <= p < sums@.len() ==> holds_sums(
                (#[trigger] sums@[p])@,
                *math,
                *shape,
                scale,
                plane_row(queries, first_row as int, shape.kv_heads as int, p),
                keys,
                values@,
                p % (shape.kv_heads as int),
                plane_reach(*shape, first_row as int, p),
            ),
{
    let count: usize = planes.len();
    let mut sums: Vec<Vec<T>> = Vec::new();
    let mut plane: usize = 0;
    while plane < count
        invariant
            chunk_fits(*shape, queries, gates, keys, values@, first_row as int, rows as int),
            column_block > 0,
            count == rows * shape.kv_heads,
            planes@.len() == count,
            forall|p: int|
                0 <= p < planes@.len() ==> holds_probabilities(
                    (#[trigger] planes@[p])@,
                    *math,
                    *shape,
                    scale,
                    plane_row(queries, first_row as int, shape.kv_heads as int, p),
                    keys,
                    p % (shape.kv_heads as int),
                    plane_reach(*shape, first_row as int, p),
                ),
            plane <= count,
            sums@.len() == plane,
            forall|p: int|
                0 <= p < sums@.len() ==> holds_sums(
                    (#[trigger] sums@[p])@,
                    *math,
                    *shape,
                    scale,
                    plane_row(queries, first_row as int, shape.kv_heads as int, p),
                    keys,
                    values@,
                    p % (shape.kv_heads as int),
                    plane_reach(*shape, first_row as int, p),
                ),
        decreases count - plane,
    {
        proof {
            lemma_plane(
                *shape,
                queries,
                gates,
                keys,
                values@,
                first_row as int,
                rows as int,
                plane as int,
            );
        }
        let n: usize = shape.existing + (first_row + plane / shape.kv_heads) + 1;
        let kv_head: usize = plane % shape.kv_heads;
        let of_plane = sum_plane(math, shape, &planes[plane], values, kv_head, n, column_block);
        proof {
            lemma_sums(
                *math,
                *shape,
                scale,
                plane_row(queries, first_row as int, shape.kv_heads as int, plane as int),
                keys,
                values@,
                kv_head as int,
                n as int,
                planes@[plane as int]@,
                of_plane@,
            );
        }
        sums.push(of_plane);
        plane += 1;
    }
    sums
}

/// Puts the sums of a chunk back into the order of tokens, heads and columns,
/// gated on the way.
fn gather<T: Copy, A: Arithmetic<T>>(
    math: &A,
    shape: &ScanShape,
    sums: &Vec<Vec<T>>,
    gates: &Vec<Vec<Vec<T>>>,
    first_row: usize,
    rows: usize,
    out: &mut Vec<T>,
    Ghost(scale): Ghost<T>,
    Ghost(queries): Ghost<Seq<Vec<Vec<T>>>>,
    Ghost(keys): Ghost<Seq<T>>,
    Ghost(values): Ghost<Seq<T>>,
)
    requires
        chunk_fits(*shape, queries, gates@, keys, values, first_row as int, rows as int),
        sums@.len() == rows * shape.kv_heads,
        forall|p: int|
            0 <= p < sums@.len() ==> holds_sums(
                (#[trigger] sums@[p])@,
                *math,
                *shape,
                scale,
                plane_row(queries, first_row as int, shape.kv_heads as int, p),
                keys,
                values,
                p % (shape.kv_heads as int),
                plane_reach(*shape, first_row as int, p),
            ),
        old(out)@.len() == first_row * shape.query_heads * shape.head_dim,
        is_prefix(old(out)@, *math, *shape, scale, queries, gates@, keys, values),
    ensures
        final(out)@.len() == (first_row + rows) * shape.query_heads * shape.head_dim,
        is_prefix(final(out)@, *math, *shape, scale, queries, gates@, keys, values),
{
    let groups: usize = shape.groups();
    let heads: usize = shape.query_heads;
    let dim: usize = shape.head_dim;
    let mut row: usize = 0;
    while row < rows
        invariant
            chunk_fits(*shape, queries, gates@, keys, values, first_row as int, rows as int),
            groups == shape.group(),
            heads == shape.query_heads,
            dim == shape.head_dim,
            sums@.len() == rows * shape.kv_heads,
            forall|p: int|
                0 <= p < sums@.len() ==> holds_sums(
                    (#[trigger] sums@[p])@,
                    *math,
                    *shape,
                    scale,
                    plane_row(queries, first_row as int, shape.kv_heads as int, p),
                    keys,
                    values,
                    p % (shape.kv_heads as int),
                    plane_reach(*shape, first_row as int, p),
                ),
            row <= rows,
            out@.len() == (first_row + row) * heads * dim,
            is_prefix(out@, *math, *shape, scale, queries, gates@, keys, values),
        decreases rows - row,
    {
        let token: usize = first_row + row;
        let mut head: usize = 0;
        proof {
            assert((token * heads + 0) * dim == token * heads * dim) by (nonlinear_arith);
        }
        while head < heads
            invariant
                chunk_fits(*shape, queries, gates@, keys, values, first_row as int, rows as int),
                groups == shape.group(),
                heads == shape.query_heads,
                dim == shape.head_dim,
                sums@.len() == rows * shape.kv_heads,
                forall|p: int|
                    0 <= p < sums@.len() ==> holds_sums(
                        (#[trigger] sums@[p])@,
                        *math,
                        *shape,
                        scale,
                        plane_row(queries, first_row as int, shape.kv_heads as int, p),
                        keys,
                        values,
                        p % (shape.kv_heads as int),
                        plane_reach(*shape, first_row as int, p),
                    ),
                row < rows,
                token == first_row + row,
                head <= heads,
                out@.len() == (token * heads + head) * dim,
                is_prefix(out@, *math, *shape, scale, queries, gates@, keys, values),
            decreases heads - head,
        {
            let kv_head: usize = head / groups;
            let lane: usize = head % groups;
            let count: usize = sums.len();
            proof {
                lemma_group(*shape, head as int);
                lemma_row_of(head as int, groups as int, shape.kv_heads as int);
                lemma_cell_inside(
                    rows as int,
                    shape.kv_heads as int,
                    row as int,
                    kv_head as int,
                );
                lemma_cell(row as int, shape.kv_heads as int, kv_head as int);
            }
            let plane: usize = row * shape.kv_heads + kv_head;
            let of_plane: &Vec<T> = &sums[plane];
            let gate: &Vec<T> = &gates[token][head];
            let ghost query = queries[token as int]@[head as int]@;
            let ghost n = (shape.existing + token + 1) as nat;
            proof {
                assert(gates@[token as int]@[head as int]@.len() == dim);
                assert(holds_sums(
                    of_plane@,
                    *math,
                    *shape,
                    scale,
                    queries[token as int]@,
                    keys,
                    values,
                    kv_head as int,
                    n as int,
                ));
            }
            let mut column: usize = 0;
            while column < dim
                invariant
                    chunk_fits(
                        *shape,
                        queries,
                        gates@,
                        keys,
                        values,
                        first_row as int,
                        rows as int,
                    ),
                    groups == shape.group(),
                    groups > 0,
                    heads == shape.query_heads,
                    dim == shape.head_dim,
                    row < rows,
                    token == first_row + row,
                    head < heads,
                    kv_head == head as int / shape.group(),
                    lane == head as int % shape.group(),
                    head == kv_head * groups + lane,
                    gate@ == gates@[token as int]@[head as int]@,
                    gate@.len() == dim,
                    query == queries[token as int]@[head as int]@,
                    n == shape.existing + token + 1,
                    holds_sums(
                        of_plane@,
                        *math,
                        *shape,
                        scale,
                        queries[token as int]@,
                        keys,
                        values,
                        kv_head as int,
                        n as int,
                    ),
                    column <= dim,
                    out@.len() == (token * heads + head) * dim + column,
                    is_prefix(out@, *math, *shape, scale, queries, gates@, keys, values),
                decreases dim - column,
            {
                let ghost before = out@;
                let ghost i = before.len() as int;
                let size: usize = of_plane.len();
                proof {
                    lemma_cell_inside(dim as int, groups as int, column as int, lane as int);
                    lemma_cell(column as int, groups as int, lane as int);
                }
                let sum: T = of_plane[column * groups + lane];
                out.push(math.times(sum, sigmoid(math, gate[column])));
                proof {
                    assert(out@[i] == attended(
                        *math,
                        *shape,
                        scale,
                        query,
                        gate@,
                        keys,
                        values,
                        kv_head as int,
                        n,
                        column as int,
                    ));
                    lemma_cell(token * heads + head, dim as int, column as int);
                    lemma_cell(token as int, heads as int, head as int);
                    assert(out@[i] == scanned(
                        *math,
                        *shape,
                        scale,
                        queries,
                        gates@,
                        keys,
                        values,
                        i / dim as int / heads as int,
                        i / dim as int % heads as int,
                        i % dim as int,
                    ));
                    assert forall|k: int| 0 <= k < out@.len() implies #[trigger] out@[k] == scanned(
                        *math,
                        *shape,
                        scale,
                        queries,
                        gates@,
                        keys,
                        values,
                        k / dim as int / heads as int,
                        k / dim as int % heads as int,
                        k % dim as int,
                    ) by {
                        if k < i {
                            assert(out@[k] == before[k]);
                        }
                    }
                }
                column += 1;
            }
            proof {
                assert((token * heads + head) * dim + dim == (token * heads + (head + 1)) * dim)
                    by (nonlinear_arith);
            }
            head += 1;
        }
        proof {
            assert((token * heads + heads) * dim == (token + 1) * heads * dim) by (nonlinear_arith);
        }
        row += 1;
    }
}

/// A share rounded up to whole grains is less than a grain above the total.
proof fn lemma_rounded(total: int, planes: int, threads: int, grain: int)
    requires
        0 <= total,
        0 <= threads,
        0 < grain,
    ensures
        rounded_share(total, planes, threads, grain) < total + grain,
{
    let parts = super::scan::parts_of(planes, threads);
    let share = super::scan::ceil(total, parts);
    lemma_fundamental_div_mod(total, parts);
    let q = total / parts;
    assert(0 <= q <= total && (total % parts != 0 ==> q + 1 <= total)) by (nonlinear_arith)
        requires
            total == parts * q + total % parts,
            parts >= 1,
            0 <= total % parts < parts,
            0 <= total,
    ;
    lemma_fundamental_div_mod(share, grain);
    let r = share / grain;
    assert(r * grain == grain * r && (r + 1) * grain == grain * r + grain) by (nonlinear_arith);
}

/// Whether the blocked scan's buffers fit the machine.
pub open spec fn blockable(shape: ScanShape, threads: int) -> bool {
    &&& shape.seq > 0
    &&& shape.query_heads * (shape.existing + shape.seq) <= usize::MAX
    &&& shape.head_dim * shape.group() <= usize::MAX
    &&& shape.seq * shape.kv_heads <= usize::MAX
    &&& 2 * threads <= usize::MAX
    &&& shape.existing + shape.seq + MIN_PAST_BLOCK <= usize::MAX
    &&& shape.head_dim + MIN_COLUMN_BLOCK <= usize::MAX
}

/// The cache scan, blocked so that the query heads that share a key/value head
/// read it together.
///
/// The pass is walked in chunks of rows that keep the scores in flight bounded.
/// Each score is the dot of the same two vectors, each softmax reduces over its
/// own positions in their order, and each output accumulates its positions in
/// their order, as in a scan of one head at a time.
pub fn blocked_scan<T: Copy, A: Arithmetic<T>, C: Clock>(
    math: &A,
    clock: &mut C,
    shape: &ScanShape,
    scale: T,
    queries: &Vec<Vec<Vec<T>>>,
    gates: &Vec<Vec<Vec<T>>>,
    keys: &[T],
    values: &[T],
    threads: usize,
) -> (result: (Vec<T>, ScanTimes))
    requires
        scannable(*shape, queries@, gates@, keys@, values@),
        blockable(*shape, threads as int),
    ensures
        result.0@ == scan_of(
            *math,
            *shape,
            scale,
            queries@,
            gates@,
            keys@,
            values@,
            shape.seq as int,
        ),
{
    let groups: usize = shape.groups();
    let seq: usize = shape.seq;
    let mut times = ScanTimes { scores: 0, softmax: 0, weighted_sum: 0 };
    proof {
        let e = shape.existing + seq;
        let k = shape.kv_heads as int;
        let g = groups as int;
        assert(e * g <= k * (e * g) && k * (e * g) == (g * k) * e && 0 < k * (e * g))
            by (nonlinear_arith)
            requires
                e > 0,
                k > 0,
                g > 0,
        ;
    }
    let plane_stride: usize = (shape.existing + seq) * groups;
    let affordable: usize = SCORE_BUDGET / (shape.kv_heads * plane_stride);
    let rows_per_chunk: usize = if affordable < 1 {
        1
    } else if affordable > seq {
        seq
    } else {
        affordable
    };
    let mut out: Vec<T> = Vec::new();
    let mut first_row: usize = 0;
    proof {
        assert(0int * shape.query_heads * shape.head_dim == 0) by (nonlinear_arith);
    }
    while first_row < seq
        invariant
            scannable(*shape, queries@, gates@, keys@, values@),
            blockable(*shape, threads as int),
            groups == shape.group(),
            seq == shape.seq,
            0 < rows_per_chunk <= seq,
            first_row <= seq,
            out@.len() == first_row * shape.query_heads * shape.head_dim,
            is_prefix(out@, *math, *shape, scale, queries@, gates@, keys@, values@),
        decreases seq - first_row,
    {
        let rows: usize = if seq - first_row < rows_per_chunk {
            seq - first_row
        } else {
            rows_per_chunk
        };
        proof {
            assert(rows * shape.kv_heads <= seq * shape.kv_heads) by (nonlinear_arith)
                requires
                    rows <= seq,
                    0 <= shape.kv_heads,
            ;
            assert(chunk_fits(
                *shape,
                queries@,
                gates@,
                keys@,
                values@,
                first_row as int,
                rows as int,
            ));
        }
        let planes_in_chunk: usize = rows * shape.kv_heads;
        let reach: usize = shape.existing + first_row + rows;
        proof {
            lemma_rounded(
                reach as int,
                planes_in_chunk as int,
                threads as int,
                MIN_PAST_BLOCK as int,
            );
            lemma_rounded(
                shape.head_dim as int,
                planes_in_chunk as int,
                threads as int,
                MIN_COLUMN_BLOCK as int,
            );
        }
        let past_block: usize = split(reach, planes_in_chunk, threads, MIN_PAST_BLOCK);
        let column_block: usize = split(
            shape.head_dim,
            planes_in_chunk,
            threads,
            MIN_COLUMN_BLOCK,
        );
        let started: u64 = clock.nanos();
        let mut planes = score_planes(
            math,
            shape,
            scale,
            queries,
            keys,
            first_row,
            rows,
            past_block,
            Ghost(gates@),
            Ghost(values@),
        );
        let scored: u64 = clock.nanos();
        softmax_planes(
            math,
            shape,
            &mut planes,
            first_row,
            rows,
            Ghost(scale),
            Ghost(queries@),
            Ghost(gates@),
            Ghost(keys@),
            Ghost(values@),
        );
        let softened: u64 = clock.nanos();
        let sums = sum_planes(
            math,
            shape,
            &planes,
            values,
            first_row,
            rows,
            column_block,
            Ghost(scale),
            Ghost(queries@),
            Ghost(gates@),
            Ghost(keys@),
        );
        gather(
            math,
            shape,
            &sums,
            gates,
            first_row,
            rows,
            &mut out,
            Ghost(scale),
            Ghost(queries@),
            Ghost(keys@),
            Ghost(values@),
        );
        let ended: u64 = clock.nanos();
        times =
        ScanTimes {
            scores: times.scores.saturating_add(elapsed(started, scored)),
            softmax: times.softmax.saturating_add(elapsed(scored, softened)),
            weighted_sum: times.weighted_sum.saturating_add(elapsed(softened, ended)),
        };
        first_row += rows;
    }
    proof {
        assert(out@ =~= scan_of(
            *math,
            *shape,
            scale,
            queries@,
            gates@,
            keys@,
            values@,
            seq as int,
        ));
    }
    (out, times)
}

} // verus!
