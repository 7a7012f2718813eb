//! The cache scan with one work item per token and query head.

use super::scan::{
    attended, dot, is_prefix, key_row, lemma_cell, lemma_fewer_positions, lemma_group,
    lemma_row_inside, mix_of, peak_of, probabilities_of, row_start, scan_of, scannable, scanned,
    scores_of, sigmoid, total_of, weights_of, ScanShape, ScanTimes,
};
use crate::arithmetic::{elapsed, Arithmetic, Clock};
use crate::buffers::filled;
use vstd::prelude::*;

verus! {

/// The scores of a query against the first `n` positions.
fn head_scores<T: Copy, A: Arithmetic<T>>(
    math: &A,
    shape: &ScanShape,
    scale: T,
    query: &[T],
    keys: &[T],
    kv_head: usize,
    n: usize,
) -> (scores: Vec<T>)
    requires
        query@.len() == shape.head_dim,
        shape.head_dim > 0,
        kv_head < shape.kv_heads,
        keys@.len() >= n * shape.kv_heads * shape.head_dim,
    ensures
        scores@ == scores_of(*math, *shape, scale, query@, keys@, kv_head as int, n as nat),
{
    let mut scores: Vec<T> = Vec::new();
    let mut past: usize = 0;
    while past < n
        invariant
            query@.len() == shape.head_dim,
            shape.head_dim > 0,
            kv_head < shape.kv_heads,
            keys@.len() >= n * shape.kv_heads * shape.head_dim,
            past <= n,
            scores@ == scores_of(
                *math,
                *shape,
                scale,
                query@,
                keys@,
                kv_head as int,
                past as nat,
            ),
        decreases n - past,
    {
        proof {
            lemma_fewer_positions(*shape, n as int, past + 1);
        }
        let key = key_row(shape, keys, kv_head, past);
        scores.push(math.times(dot(math, query, key), scale));
        past += 1;
        proof {
            assert(scores@ =~= scores_of(
                *math,
                *shape,
                scale,
                query@,
                keys@,
                kv_head as int,
                past as nat,
            ));
        }
    }
    scores
}

/// Turns scores into their exponentials, each taken below the largest score,
/// and adds these up.
fn softmax_weights<T: Copy, A: Arithmetic<T>>(math: &A, scores: &mut Vec<T>) -> (denominator: T)
    ensures
        final(scores)@ == weights_of(*math, old(scores)@),
        denominator == total_of(
            *math,
            weights_of(*math, old(scores)@),
            old(scores)@.len() as int,
        ),
{
    let ghost s = scores@;
    let n: usize = scores.len();
    let mut max: T = math.lowest();
    let mut i: usize = 0;
    while i < n
        invariant
            n == s.len(),
            scores@ == s,
            i <= n,
            max == peak_of(*math, s, i as int),
        decreases n - i,
    {
        max = math.max(max, scores[i]);
        i += 1;
    }
    let ghost w = weights_of(*math, s);
    let mut denominator: T = math.zero();
    let mut j: usize = 0;
    while j < n
        invariant
            n == s.len(),
            max == peak_of(*math, s, n as int),
            w == weights_of(*math, s),
            scores@.len() == n,
            j <= n,
            forall|k: int| 0 <= k < n ==> #[trigger] scores@[k] == if k < j {
                w[k]
            } else {
                s[k]
            },
            denominator == total_of(*math, w, j as int),
        decreases n - j,
    {
        let weight: T = math.exp(math.minus(scores[j], max));
        proof {
            assert(weight == w[j as int]);
        }
        scores.set(j, weight);
        denominator = math.plus(denominator, weight);
        j += 1;
    }
    proof {
        assert(scores@ =~= w);
    }
    denominator
}

/// The values of the positions, weighted and gated.
fn weighted_head<T: Copy, A: Arithmetic<T>>(
    math: &A,
    shape: &ScanShape,
    weights: &Vec<T>,
    denominator: T,
    values: &[T],
    gate: &[T],
    kv_head: usize,
    Ghost(scores): Ghost<Seq<T>>,
) -> (out: Vec<T>)
    requires
        weights@ == weights_of(*math, scores),
        denominator == total_of(*math, weights@, weights@.len() as int),
        gate@.len() == shape.head_dim,
        shape.head_dim > 0,
        kv_head < shape.kv_heads,
        values@.len() >= weights@.len() * shape.kv_heads * shape.head_dim,
    ensures
        out@.len() == shape.head_dim,
        forall|c: int|
            0 <= c < shape.head_dim ==> #[trigger] out@[c] == math.product(
                mix_of(
                    *math,
                    *shape,
                    probabilities_of(*math, scores),
                    values@,
                    kv_head as int,
                    c,
                    weights@.len() as int,
                ),
                super::scan::sigmoid_of(*math, gate@[c]),
            ),
{
    let ghost p = probabilities_of(*math, scores);
    let n: usize = weights.len();
    let dim: usize = shape.head_dim;
    let mut out: Vec<T> = filled(math.zero(), dim);
    let mut past: usize = 0;
    while past < n
        invariant
            n == weights@.len(),
            weights@ == weights_of(*math, scores),
            p == probabilities_of(*math, scores),
            denominator == total_of(*math, weights@, weights@.len() as int),
            dim == shape.head_dim,
            dim > 0,
            kv_head < shape.kv_heads,
            values@.len() >= n * shape.kv_heads * shape.head_dim,
            past <= n,
            out@.len() == dim,
            forall|c: int|
                0 <= c < dim ==> #[trigger] out@[c] == mix_of(
                    *math,
                    *shape,
                    p,
                    values@,
                    kv_head as int,
                    c,
                    past as int,
                ),
        decreases n - past,
    {
        let probability: T = math.over(weights[past], denominator);
        let count: usize = values.len();
        proof {
            assert(probability == p[past as int]);
            lemma_row_inside(
                n as int,
                shape.kv_heads as int,
                dim as int,
                past as int,
                kv_head as int,
            );
        }
        let base: usize = (past * shape.kv_heads + kv_head) * dim;
        let mut column: usize = 0;
        while column < dim
            invariant
                dim == shape.head_dim,
                base == row_start(
                    shape.kv_heads as int,
                    shape.head_dim as int,
                    past as int,
                    kv_head as int,
                ),
                base + dim <= values@.len(),
                values@.len() == count,
                past < n,
                probability == p[past as int],
                column <= dim,
                out@.len() == dim,
                forall|c: int|
                    0 <= c < dim ==> #[trigger] out@[c] == mix_of(
                        *math,
                        *shape,
                        p,
                        values@,
                        kv_head as int,
                        c,
                        if c < column {
                            past + 1
                        } else {
                            past as int
                        },
                    ),
            decreases dim - column,
        {
            out.set(
                column,
                math.plus(out[column], math.times(probability, values[base + column])),
            );
            column += 1;
        }
        past += 1;
    }
    let ghost sums = out@;
    let mut column: usize = 0;
    while column < dim
        invariant
            dim == shape.head_dim,
            gate@.len() == dim,
            column <= dim,
            out@.len() == dim,
            sums.len() == dim,
            forall|c: int|
                0 <= c < dim ==> #[trigger] out@[c] == if c < column {
                    math.product(sums[c], super::scan::sigmoid_of(*math, gate@[c]))
                } else {
                    sums[c]
                },
        decreases dim - column,
    {
        out.set(column, math.times(out[column], sigmoid(math, gate[column])));
        column += 1;
    }
    out
}

/// One query head of one token against the first `n` positions.
pub fn scan_head<T: Copy, A: Arithmetic<T>, C: Clock>(
    math: &A,
    clock: &mut C,
    shape: &ScanShape,
    scale: T,
    query: &[T],
    gate: &[T],
    keys: &[T],
    values: &[T],
    kv_head: usize,
    n: usize,
) -> (result: (Vec<T>, ScanTimes))
    requires
        query@.len() == shape.head_dim,
        gate@.len() == shape.head_dim,
        shape.head_dim > 0,
        kv_head < shape.kv_heads,
        keys@.len() >= n * shape.kv_heads * shape.head_dim,
        values@.len() >= n * shape.kv_heads * shape.head_dim,
    ensures
        result.0@.len() == shape.head_dim,
        forall|c: int|
            0 <= c < shape.head_dim ==> #[trigger] result.0@[c] == attended(
                *math,
                *shape,
                scale,
                query@,
                gate@,
                keys@,
                values@,
                kv_head as int,
                n as nat,
                c,
            ),
{
    let started: u64 = clock.nanos();
    let mut scores = head_scores(math, shape, scale, query, keys, kv_head, n);
    let ghost s = scores@;
    let scored: u64 = clock.nanos();
    let denominator: T = softmax_weights(math, &mut scores);
    let softened: u64 = clock.nanos();
    let out = weighted_head(
        math,
        shape,
        &scores,
        denominator,
        values,
        gate,
        kv_head,
        Ghost(s),
    );
    let ended: u64 = clock.nanos();
    (
        out,
        ScanTimes {
            scores: elapsed(started, scored),
            softmax: elapsed(scored, softened),
            weighted_sum: elapsed(softened, ended),
        },
    )
}

/// The cache scan, one work item per token and query head.
///
/// Each item reads the shared cache and gives only its own columns. Every
/// reduction runs in the order of the positions, whatever the other items do.
pub fn per_head_scan<T: Copy, A: Arithmetic<T>, C: Clock>(
    math: &A,
    clock: &mut C,
    shape: &ScanShape,
    scale: T,
    queries: &Vec<Vec<Vec<T>>>,
    gates: &Vec<Vec<Vec<T>>>,
    keys: &[T],
    values: &[T],
) -> (result: (Vec<T>, ScanTimes))
    requires
        scannable(*shape, queries@, gates@, keys@, values@),
    ensures
        result.0@ == scan_of(
            *math,
            *shape,
            scale,
            queries@,
            gates@,
            keys@,
            values@,
            shape.seq as int,
        ),
{
    let groups: usize = shape.groups();
    let heads: usize = shape.query_heads;
    let dim: usize = shape.head_dim;
    let mut times = ScanTimes { scores: 0, softmax: 0, weighted_sum: 0 };
    let mut out: Vec<T> = Vec::new();
    let mut token: usize = 0;
    proof {
        assert(0int * heads * dim == 0) by (nonlinear_arith);
        assert(out@ =~= scan_of(*math, *shape, scale, queries@, gates@, keys@, values@, 0));
    }
    while token < shape.seq
        invariant
            scannable(*shape, queries@, gates@, keys@, values@),
            groups == shape.group(),
            heads == shape.query_heads,
            dim == shape.head_dim,
            token <= shape.seq,
            out@ == scan_of(
                *math,
                *shape,
                scale,
                queries@,
                gates@,
                keys@,
                values@,
                token as int,
            ),
        decreases shape.seq - token,
    {
        let ghost start = out@;
        let n: usize = shape.existing + token + 1;
        let mut head: usize = 0;
        while head < heads
            invariant
                scannable(*shape, queries@, gates@, keys@, values@),
                groups == shape.group(),
                heads == shape.query_heads,
                dim == shape.head_dim,
                token < shape.seq,
                n == shape.existing + token + 1,
                head <= heads,
                out@.len() == (token * heads + head) * dim,
                is_prefix(
                    out@,
                    *math,
                    *shape,
                    scale,
                    queries@,
                    gates@,
                    keys@,
                    values@,
                ),
            decreases heads - head,
        {
            proof {
                lemma_group(*shape, head as int);
                lemma_fewer_positions(*shape, shape.existing + shape.seq, n as int);
            }
            let kv_head: usize = head / groups;
            let query: &[T] = queries[token][head].as_slice();
            let gate: &[T] = gates[token][head].as_slice();
            proof {
                assert(queries@[token as int]@[head as int]@.len() == dim);
                assert(gates@[token as int]@[head as int]@.len() == dim);
            }
            let (columns, spent) = scan_head(
                math,
                clock,
                shape,
                scale,
                query,
                gate,
                keys,
                values,
                kv_head,
                n,
            );
            let mut column: usize = 0;
            proof {
                assert((token * heads + head) * dim + 0 == (token * heads + head) * dim);
            }
            while column < dim
                invariant
                    groups == shape.group(),
                    heads == shape.query_heads,
                    dim == shape.head_dim,
                    head < heads,
                    token < shape.seq,
                    n == shape.existing + token + 1,
                    kv_head == head as int / shape.group(),
                    query@ == queries@[token as int]@[head as int]@,
                    gate@ == gates@[token as int]@[head as int]@,
                    columns@.len() == dim,
                    forall|c: int|
                        0 <= c < dim ==> #[trigger] columns@[c] == attended(
                            *math,
                            *shape,
                            scale,
                            query@,
                            gate@,
                            keys@,
                            values@,
                            kv_head as int,
                            n as nat,
                            c,
                        ),
                    column <= dim,
                    out@.len() == (token * heads + head) * dim + column,
                    is_prefix(
                        out@,
                        *math,
                        *shape,
                        scale,
                        queries@,
                        gates@,
                        keys@,
                        values@,
                    ),
                decreases dim - column,
            {
                let ghost before = out@;
                let ghost i = before.len() as int;
                out.push(columns[column]);
                proof {
                    lemma_cell(token * heads + head, dim as int, column as int);
                    lemma_cell(token as int, heads as int, head as int);
                    assert(out@[i] == scanned(
                        *math,
                        *shape,
                        scale,
                        queries@,
                        gates@,
                        keys@,
                        values@,
                        i / dim as int / heads as int,
                        i / dim as int % heads as int,
                        i % dim as int,
                    ));
                    assert forall|k: int| 0 <= k < out@.len() implies #[trigger] out@[k] == scanned(
                        *math,
                        *shape,
                        scale,
                        queries@,
                        gates@,
                        keys@,
                        values@,
                        k / dim as int / heads as int,
                        k / dim as int % heads as int,
                        k % dim as int,
                    ) by {
                        if k < i {
                            assert(out@[k] == before[k]);
                        }
                    }
                }
                column += 1;
            }
            times =
            ScanTimes {
                scores: times.scores.saturating_add(spent.scores),
                softmax: times.softmax.saturating_add(spent.softmax),
                weighted_sum: times.weighted_sum.saturating_add(spent.weighted_sum),
            };
            proof {
                assert((token * heads + head) * dim + dim == (token * heads + (head + 1)) * dim)
                    by (nonlinear_arith);
            }
            head += 1;
        }
        token += 1;
        proof {
            assert(((token - 1) * heads + heads) * dim == token * heads * dim) by (nonlinear_arith);
            assert(out@ =~= scan_of(
                *math,
                *shape,
                scale,
                queries@,
                gates@,
                keys@,
                values@,
                token as int,
            ));
        }
    }
    (out, times)
}

} // verus!
