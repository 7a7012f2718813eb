//! Readable layers for full-precision checkpoints. They differ from the
//! quantized ones in how their weights are stored and in the order of a score's
//! sum, and share everything else.

use super::attention::{
    append_rows, are_gates, are_queries, lemma_placed_len, pass_fits, place_queries, placed_keys,
    QuantizedAttentionLayer,
};
use super::attention_state::QuantizedAttentionState;
use super::delta::{BetaAlphaLayout, ValueHeadLayout};
use super::delta_layer::{
    after_rows, pass_problem, pass_width, rows_output, trailing_gates,
    DeltaError, QuantizedDeltaLayer, DeltaTimes, DeltaWeights,
};
use super::delta_state::{QuantizedDeltaSnapshots, QuantizedDeltaState};
use super::moe::{probabilities, router_probabilities};
use super::scan::{
    cache_row, key_row, lemma_cell, lemma_fewer_positions, lemma_group, lemma_row_inside, mix_of,
    row_start, scannable, sigmoid, sigmoid_of, tail_total, ScanShape,
};
use crate::arithmetic::{Arithmetic, Clock};
use crate::buffers::{append_all, filled};
use vstd::prelude::*;
use vstd::slice::slice_subrange;

verus! {

/// Weights that are stored as their difference from one, in full.
pub open spec fn one_centered<T, A: Arithmetic<T>>(math: A, weight: Seq<T>) -> Seq<T> {
    Seq::new(weight.len(), |i: int| math.sum(math.one_of(), weight[i]))
}

/// Weights that are stored as their difference from one, in full.
pub fn center_weights<T: Copy, A: Arithmetic<T>>(math: &A, weight: &[T]) -> (full: Vec<T>)
    ensures
        full@ == one_centered(*math, weight@),
{
    let mut full: Vec<T> = Vec::new();
    let mut i: usize = 0;
    while i < weight.len()
        invariant
            i <= weight@.len(),
            full@ == one_centered(*math, weight@).take(i as int),
        decreases weight@.len() - i,
    {
        full.push(math.plus(math.one(), weight[i]));
        i += 1;
        proof {
            assert(full@ =~= one_centered(*math, weight@).take(i as int));
        }
    }
    proof {
        assert(full@ =~= one_centered(*math, weight@));
    }
    full
}

/// The sum of the products of a query and a key, one after the other.
pub open spec fn serial_dot<T, A: Arithmetic<T>>(math: A, q: Seq<T>, k: Seq<T>) -> T {
    tail_total(math, q, k, 0, q.len() as int)
}

/// The scores of a query against the first `n` positions.
pub open spec fn serial_scores<T, A: Arithmetic<T>>(
    math: A,
    shape: ScanShape,
    scale: T,
    q: Seq<T>,
    keys: Seq<T>,
    kv_head: int,
    n: nat,
) -> Seq<T> {
    Seq::new(
        n,
        |past: int|
            math.product(
                serial_dot(
                    math,
                    q,
                    cache_row(keys, shape.kv_heads as int, shape.head_dim as int, past, kv_head),
                ),
                scale,
            ),
    )
}

/// What a token, a head and a column come to.
pub open spec fn reference_scanned<T, A: Arithmetic<T>>(
    math: A,
    shape: ScanShape,
    scale: T,
    queries: Seq<Vec<Vec<T>>>,
    gates: Seq<Vec<Vec<T>>>,
    keys: Seq<T>,
    values: Seq<T>,
    token: int,
    head: int,
    column: int,
) -> T {
    let n = (shape.existing + token + 1) as nat;
    let kv_head = head / shape.group();
    let p = router_probabilities(
        math,
        serial_scores(math, shape, scale, queries[token]@[head]@, keys, kv_head, n),
    );
    math.product(
        mix_of(math, shape, p, values, kv_head, column, n as int),
        sigmoid_of(math, gates[token]@[head]@[column]),
    )
}

/// Whether numbers are the first that a pass comes to.
pub open spec fn is_reference_prefix<T, A: Arithmetic<T>>(
    out: Seq<T>,
    math: A,
    shape: ScanShape,
    scale: T,
    queries: Seq<Vec<Vec<T>>>,
    gates: Seq<Vec<Vec<T>>>,
    keys: Seq<T>,
    values: Seq<T>,
) -> bool {
    let dim = shape.head_dim as int;
    let heads = shape.query_heads as int;
    forall|i: int|
        0 <= i < out.len() ==> #[trigger] out[i] == reference_scanned(
            math,
            shape,
            scale,
            queries,
            gates,
            keys,
            values,
            i / dim / heads,
            i / dim % heads,
            i % dim,
        )
}

/// The scores of a query against the first `n` positions.
fn scores<T: Copy, A: Arithmetic<T>>(
    math: &A,
    shape: &ScanShape,
    scale: T,
    query: &[T],
    keys: &[T],
    kv_head: usize,
    n: usize,
) -> (out: Vec<T>)
    requires
        query@.len() == shape.head_dim,
        shape.head_dim > 0,
        kv_head < shape.kv_heads,
        keys@.len() >= n * shape.kv_heads * shape.head_dim,
    ensures
        out@ == serial_scores(*math, *shape, scale, query@, keys@, kv_head as int, n as nat),
{
    let mut out: Vec<T> = Vec::new();
    let mut past: usize = 0;
    while past < n
        invariant
            query@.len() == shape.head_dim,
            shape.head_dim > 0,
            kv_head < shape.kv_heads,
            keys@.len() >= n * shape.kv_heads * shape.head_dim,
            past <= n,
            out@ == serial_scores(
                *math,
                *shape,
                scale,
                query@,
                keys@,
                kv_head as int,
                past as nat,
            ),
        decreases n - past,
    {
        proof {
            lemma_fewer_positions(*shape, n as int, past + 1);
        }
        let key = key_row(shape, keys, kv_head, past);
        let mut total: T = math.empty_sum();
        let mut i: usize = 0;
        while i < query.len()
            invariant
                query@.len() == key@.len(),
                i <= query@.len(),
                total == tail_total(*math, query@, key@, 0, i as int),
            decreases query@.len() - i,
        {
            total = math.plus(total, math.times(query[i], key[i]));
            i += 1;
        }
        out.push(math.times(total, scale));
        past += 1;
        proof {
            assert(out@ =~= serial_scores(
                *math,
                *shape,
                scale,
                query@,
                keys@,
                kv_head as int,
                past as nat,
            ));
        }
    }
    out
}

/// The values of the positions, weighted and gated.
fn mix<T: Copy, A: Arithmetic<T>>(
    math: &A,
    shape: &ScanShape,
    p: &Vec<T>,
    values: &[T],
    gate: &[T],
    kv_head: usize,
) -> (out: Vec<T>)
    requires
        gate@.len() == shape.head_dim,
        shape.head_dim > 0,
        kv_head < shape.kv_heads,
        values@.len() >= p@.len() * shape.kv_heads * shape.head_dim,
    ensures
        out@.len() == shape.head_dim,
        forall|c: int|
            0 <= c < shape.head_dim ==> #[trigger] out@[c] == math.product(
                mix_of(*math, *shape, p@, values@, kv_head as int, c, p@.len() as int),
                sigmoid_of(*math, gate@[c]),
            ),
{
    let n: usize = p.len();
    let dim: usize = shape.head_dim;
    let mut out: Vec<T> = filled(math.zero(), dim);
    let mut past: usize = 0;
    while past < n
        invariant
            n == p@.len(),
            dim == shape.head_dim,
            dim > 0,
            kv_head < shape.kv_heads,
            values@.len() >= n * shape.kv_heads * shape.head_dim,
            past <= n,
            out@.len() == dim,
            forall|c: int|
                0 <= c < dim ==> #[trigger] out@[c] == mix_of(
                    *math,
                    *shape,
                    p@,
                    values@,
                    kv_head as int,
                    c,
                    past as int,
                ),
        decreases n - past,
    {
        let count: usize = values.len();
        proof {
            lemma_row_inside(
                n as int,
                shape.kv_heads as int,
                dim as int,
                past as int,
                kv_head as int,
            );
        }
        let base: usize = (past * shape.kv_heads + kv_head) * dim;
        let mut column: usize = 0;
        while column < dim
            invariant
                dim == shape.head_dim,
                n == p@.len(),
                base == row_start(
                    shape.kv_heads as int,
                    shape.head_dim as int,
                    past as int,
                    kv_head as int,
                ),
                base + dim <= values@.len(),
                values@.len() == count,
                past < n,
                column <= dim,
                out@.len() == dim,
                forall|c: int|
                    0 <= c < dim ==> #[trigger] out@[c] == mix_of(
                        *math,
                        *shape,
                        p@,
                        values@,
                        kv_head as int,
                        c,
                        if c < column {
                            past + 1
                        } else {
                            past as int
                        },
                    ),
            decreases dim - column,
        {
            out.set(column, math.plus(out[column], math.times(p[past], values[base + column])));
            column += 1;
        }
        past += 1;
    }
    let ghost sums = out@;
    let mut column: usize = 0;
    while column < dim
        invariant
            dim == shape.head_dim,
            gate@.len() == dim,
            column <= dim,
            out@.len() == dim,
            sums.len() == dim,
            forall|c: int|
                0 <= c < dim ==> #[trigger] out@[c] == if c < column {
                    math.product(sums[c], sigmoid_of(*math, gate@[c]))
                } else {
                    sums[c]
                },
        decreases dim - column,
    {
        out.set(column, math.times(out[column], sigmoid(math, gate[column])));
        column += 1;
    }
    out
}

/// The scan of a pass, head after head.
pub fn reference_scan<T: Copy, A: Arithmetic<T>>(
    math: &A,
    shape: &ScanShape,
    scale: T,
    queries: &Vec<Vec<Vec<T>>>,
    gates: &Vec<Vec<Vec<T>>>,
    keys: &[T],
    values: &[T],
) -> (out: Vec<T>)
    requires
        scannable(*shape, queries@, gates@, keys@, values@),
    ensures
        out@.len() == shape.seq * shape.query_heads * shape.head_dim,
        is_reference_prefix(out@, *math, *shape, scale, queries@, gates@, keys@, values@),
{
    let groups: usize = shape.groups();
    let heads: usize = shape.query_heads;
    let dim: usize = shape.head_dim;
    let mut out: Vec<T> = Vec::new();
    let mut token: usize = 0;
    proof {
        assert(0int * heads * dim == 0) by (nonlinear_arith);
    }
    while token < shape.seq
        invariant
            scannable(*shape, queries@, gates@, keys@, values@),
            groups == shape.group(),
            heads == shape.query_heads,
            dim == shape.head_dim,
            token <= shape.seq,
            out@.len() == token * heads * dim,
            is_reference_prefix(out@, *math, *shape, scale, queries@, gates@, keys@, values@),
        decreases shape.seq - token,
    {
        let n: usize = shape.existing + token + 1;
        let mut head: usize = 0;
        proof {
            assert((token * heads + 0) * dim == token * heads * dim) by (nonlinear_arith);
        }
        while head < heads
            invariant
                scannable(*shape, queries@, gates@, keys@, values@),
                groups == shape.group(),
                heads == shape.query_heads,
                dim == shape.head_dim,
                token < shape.seq,
                n == shape.existing + token + 1,
                head <= heads,
                out@.len() == (token * heads + head) * dim,
                is_reference_prefix(out@, *math, *shape, scale, queries@, gates@, keys@, values@),
            decreases heads - head,
        {
            proof {
                lemma_group(*shape, head as int);
                lemma_fewer_positions(*shape, shape.existing + shape.seq, n as int);
                assert(queries@[token as int]@[head as int]@.len() == dim);
                assert(gates@[token as int]@[head as int]@.len() == dim);
            }
            let kv_head: usize = head / groups;
            let s = scores(math, shape, scale, queries[token][head].as_slice(), keys, kv_head, n);
            let p = probabilities(math, &s);
            let columns = mix(math, shape, &p, values, gates[token][head].as_slice(), kv_head);
            let ghost before = out@;
            append_all(&mut out, columns.as_slice());
            proof {
                assert forall|i: int| 0 <= i < out@.len() implies #[trigger] out@[i]
                    == reference_scanned(
                    *math,
                    *shape,
                    scale,
                    queries@,
                    gates@,
                    keys@,
                    values@,
                    i / dim as int / heads as int,
                    i / dim as int % heads as int,
                    i % dim as int,
                ) by {
                    if i < before.len() {
                        assert(out@[i] == before[i]);
                    } else {
                        let column = i - before.len();
                        assert(out@[i] == columns@[column]);
                        lemma_cell(token * heads + head, dim as int, column);
                        lemma_cell(token as int, heads as int, head as int);
                    }
                }
                assert((token * heads + head) * dim + dim == (token * heads + (head + 1)) * dim)
                    by (nonlinear_arith);
            }
            head += 1;
        }
        proof {
            assert((token * heads + heads) * dim == (token + 1) * heads * dim) by (nonlinear_arith);
        }
        token += 1;
    }
    out
}

/// Whether numbers are what a pass of a full-precision attention layer comes to
/// between its projections.
pub open spec fn is_reference_attention<T, A: Arithmetic<T>>(
    result: Seq<T>,
    math: A,
    geometry: QuantizedAttentionLayer,
    seq: int,
    existing: usize,
    projected: Seq<T>,
    weight: Seq<T>,
    eps: T,
    scale: T,
    rotations: Seq<Vec<(T, T)>>,
    keys: Seq<T>,
    values: Seq<T>,
) -> bool {
    exists|queries: Seq<Vec<Vec<T>>>, gates: Seq<Vec<Vec<T>>>|
        {
            &&& #[trigger] are_queries(
                queries,
                math,
                geometry,
                projected,
                one_centered(math, weight),
                eps,
                rotations,
                seq,
            )
            &&& #[trigger] are_gates(gates, geometry, projected, seq)
            &&& result.len() == seq * geometry.query_heads * geometry.head_dim
            &&& is_reference_prefix(
                result,
                math,
                ScanShape {
                    seq: seq as usize,
                    existing,
                    query_heads: geometry.query_heads,
                    kv_heads: geometry.kv_heads,
                    head_dim: geometry.head_dim,
                },
                scale,
                queries,
                gates,
                keys,
                values,
            )
        }
}

/// Runs a pass of a full-precision attention layer between its projections. The
/// norms' weights are stored as their difference from one.
pub fn reference_attention_step<T: Copy, A: Arithmetic<T>>(
    math: &A,
    geometry: &QuantizedAttentionLayer,
    seq: usize,
    projected_query: &Vec<T>,
    projected_key: &Vec<T>,
    projected_value: &Vec<T>,
    query_norm: &[T],
    key_norm: &[T],
    eps: T,
    scale: T,
    rotations: &Vec<Vec<(T, T)>>,
    state: &mut QuantizedAttentionState<T>,
) -> (result: Vec<T>)
    requires
        pass_fits(
            *geometry,
            seq as int,
            projected_query@,
            projected_key@,
            projected_value@,
            query_norm@,
            key_norm@,
            rotations@,
        ),
        old(state).keys@.len() == old(state).positions * geometry.kv_heads * geometry.head_dim,
        old(state).values@.len() == old(state).keys@.len(),
        old(state).positions + seq < usize::MAX,
        seq * geometry.kv_heads <= usize::MAX,
        seq * geometry.query_heads * geometry.head_dim <= usize::MAX,
    ensures
        final(state).keys@ == old(state).keys@ + placed_keys(
            *math,
            *geometry,
            projected_key@,
            one_centered(*math, key_norm@),
            eps,
            rotations@,
            seq * geometry.kv_heads,
        ),
        final(state).values@ == old(state).values@ + projected_value@,
        final(state).positions == old(state).positions + seq,
        is_reference_attention(
            result@,
            *math,
            *geometry,
            seq as int,
            old(state).positions,
            projected_query@,
            query_norm@,
            eps,
            scale,
            rotations@,
            final(state).keys@,
            final(state).values@,
        ),
{
    let existing: usize = state.positions;
    let full_query_norm = center_weights(math, query_norm);
    let full_key_norm = center_weights(math, key_norm);
    let (queries, gates) = place_queries(
        math,
        geometry,
        seq,
        projected_query,
        full_query_norm.as_slice(),
        eps,
        rotations,
    );
    proof {
        let k = geometry.kv_heads as int;
        let d = geometry.head_dim as int;
        let p = existing as int;
        assert(p * k * d + seq * k * d == (p + seq) * k * d) by (nonlinear_arith);
        lemma_placed_len(
            *math,
            *geometry,
            projected_key@,
            full_key_norm@,
            eps,
            rotations@,
            seq as int,
            seq * k,
        );
    }
    append_rows(
        math,
        geometry,
        seq,
        projected_key,
        projected_value,
        full_key_norm.as_slice(),
        eps,
        rotations,
        state,
    );
    let shape = ScanShape {
        seq,
        existing,
        query_heads: geometry.query_heads,
        kv_heads: geometry.kv_heads,
        head_dim: geometry.head_dim,
    };
    let count: usize = state.keys.len();
    let count_values: usize = state.values.len();
    proof {
        let q = geometry.query_heads as int;
        let k = geometry.kv_heads as int;
        let g = shape.group();
        vstd::arithmetic::div_mod::lemma_fundamental_div_mod(q, k);
        assert(q == g * k && g > 0) by (nonlinear_arith)
            requires
                q == k * g + q % k,
                q % k == 0,
                q > 0,
                k > 0,
        ;
    }
    let result = reference_scan(
        math,
        &shape,
        scale,
        &queries,
        &gates,
        state.keys.as_slice(),
        state.values.as_slice(),
    );
    proof {
        assert(are_queries(
            queries@,
            *math,
            *geometry,
            projected_query@,
            one_centered(*math, query_norm@),
            eps,
            rotations@,
            seq as int,
        ));
        assert(are_gates(gates@, *geometry, projected_query@, seq as int));
    }
    result
}

/// The factors of the decays, from the logarithms that a full-precision
/// checkpoint stores.
pub open spec fn scales_of<T, A: Arithmetic<T>>(math: A, a_log: Seq<T>) -> Seq<T> {
    Seq::new(a_log.len(), |h: int| math.negative(math.exponential(a_log[h])))
}

/// The factors of the decays, from the logarithms that a full-precision
/// checkpoint stores. A quantized checkpoint stores the factors themselves.
pub fn state_scales<T: Copy, A: Arithmetic<T>>(math: &A, a_log: &[T]) -> (scales: Vec<T>)
    ensures
        scales@ == scales_of(*math, a_log@),
{
    let mut scales: Vec<T> = Vec::new();
    let mut h: usize = 0;
    while h < a_log.len()
        invariant
            h <= a_log@.len(),
            scales@ == scales_of(*math, a_log@).take(h as int),
        decreases a_log@.len() - h,
    {
        scales.push(math.neg(math.exp(a_log[h])));
        h += 1;
        proof {
            assert(scales@ =~= scales_of(*math, a_log@).take(h as int));
        }
    }
    proof {
        assert(scales@ =~= scales_of(*math, a_log@));
    }
    scales
}

/// The numbers of one key head in a projected row of a full-precision layer:
/// its query and key, and the values and gates of its value heads.
pub open spec fn head_width(layer: QuantizedDeltaLayer) -> int {
    layer.geometry.key_head_dim * 2 + layer.ratio() * layer.geometry.value_head_dim * 2
}

/// One part of each of the first `n` key heads of a row, one after the other.
pub open spec fn parts_of_heads<T>(
    row: Seq<T>,
    width: int,
    from: int,
    len: int,
    n: int,
) -> Seq<T>
    decreases n,
{
    if n <= 0 {
        Seq::empty()
    } else {
        parts_of_heads(row, width, from, len, n - 1) + row.subrange(
            (n - 1) * width + from,
            (n - 1) * width + from + len,
        )
    }
}

/// A projected row with its parts in the order of the convolution: all queries,
/// all keys, all values, and then the gates.
pub open spec fn repacked<T>(layer: QuantizedDeltaLayer, row: Seq<T>) -> Seq<T> {
    let heads = layer.geometry.key_heads as int;
    let kd = layer.geometry.key_head_dim as int;
    let vd = layer.ratio() * layer.geometry.value_head_dim;
    let width = head_width(layer);
    parts_of_heads(row, width, 0, kd, heads) + parts_of_heads(row, width, kd, kd, heads)
        + parts_of_heads(row, width, kd * 2, vd, heads) + parts_of_heads(
        row,
        width,
        kd * 2 + vd,
        vd,
        heads,
    )
}

/// The rows of a pass, each repacked.
pub open spec fn repacked_rows<T>(layer: QuantizedDeltaLayer, projected: Seq<T>, n: int) -> Seq<T>
    decreases n,
{
    if n <= 0 {
        Seq::empty()
    } else {
        let width = layer.geometry.key_heads * head_width(layer);
        repacked_rows(layer, projected, n - 1) + repacked(
            layer,
            projected.subrange((n - 1) * width, n * width),
        )
    }
}

/// Appends one part of each key head of a row.
fn append_parts<T: Copy>(
    out: &mut Vec<T>,
    row: &[T],
    heads: usize,
    width: usize,
    from: usize,
    len: usize,
)
    requires
        row@.len() == heads * width,
        from + len <= width,
    ensures
        final(out)@ == old(out)@ + parts_of_heads(
            row@,
            width as int,
            from as int,
            len as int,
            heads as int,
        ),
{
    let ghost before = out@;
    let count: usize = row.len();
    let mut head: usize = 0;
    proof {
        assert(before + Seq::<T>::empty() =~= before);
    }
    while head < heads
        invariant
            row@.len() == heads * width,
            count == row@.len(),
            from + len <= width,
            head <= heads,
            out@ == before + parts_of_heads(
                row@,
                width as int,
                from as int,
                len as int,
                head as int,
            ),
        decreases heads - head,
    {
        proof {
            assert(0 <= head * width && head * width + width <= heads * width) by (nonlinear_arith)
                requires
                    0 <= head < heads,
                    0 <= width,
            ;
        }
        let start: usize = head * width + from;
        append_all(out, slice_subrange(row, start, start + len));
        head += 1;
        proof {
            assert(out@ =~= before + parts_of_heads(
                row@,
                width as int,
                from as int,
                len as int,
                head as int,
            ));
        }
    }
}

/// Brings the projected rows of a full-precision layer into the order in which
/// a pass reads them.
pub fn repack_rows<T: Copy>(layer: &QuantizedDeltaLayer, seq: usize, projected: &Vec<T>) -> (out: Vec<T>)
    requires
        layer.wf(),
        head_width(*layer) <= usize::MAX,
        layer.geometry.key_heads * head_width(*layer) <= usize::MAX,
        projected@.len() == seq * (layer.geometry.key_heads * head_width(*layer)),
    ensures
        out@ == repacked_rows(*layer, projected@, seq as int),
{
    let heads: usize = layer.geometry.key_heads;
    let kd: usize = layer.geometry.key_head_dim;
    let ratio: usize = layer.geometry.value_heads / heads;
    proof {
        let r = ratio as int;
        let v = layer.geometry.value_head_dim as int;
        assert(0 <= r * v && r * v <= r * v * 2) by (nonlinear_arith)
            requires
                0 <= r,
                0 <= v,
        ;
    }
    let vd: usize = ratio * layer.geometry.value_head_dim;
    let width: usize = kd * 2 + vd * 2;
    let row_width: usize = heads * width;
    let count: usize = projected.len();
    let mut out: Vec<T> = Vec::new();
    let mut token: usize = 0;
    while token < seq
        invariant
            layer.wf(),
            heads == layer.geometry.key_heads,
            kd == layer.geometry.key_head_dim,
            vd == layer.ratio() * layer.geometry.value_head_dim,
            width == head_width(*layer),
            width == kd * 2 + vd * 2,
            row_width == heads * width,
            projected@.len() == seq * row_width,
            count == projected@.len(),
            token <= seq,
            out@ == repacked_rows(*layer, projected@, token as int),
        decreases seq - token,
    {
        proof {
            assert(0 <= token * row_width && token * row_width + row_width == (token + 1)
                * row_width && (token + 1) * row_width <= seq * row_width) by (nonlinear_arith)
                requires
                    0 <= token < seq,
                    0 <= row_width,
            ;
        }
        let row = slice_subrange(
            projected.as_slice(),
            token * row_width,
            token * row_width + row_width,
        );
        let ghost before = out@;
        append_parts(&mut out, row, heads, width, 0, kd);
        append_parts(&mut out, row, heads, width, kd, kd);
        append_parts(&mut out, row, heads, width, kd * 2, vd);
        append_parts(&mut out, row, heads, width, kd * 2 + vd, vd);
        token += 1;
        proof {
            assert(out@ =~= before + repacked(*layer, row@));
        }
    }
    out
}

proof fn lemma_parts_len<T>(row: Seq<T>, width: int, from: int, len: int, n: int, heads: int)
    requires
        0 <= n <= heads,
        0 <= from,
        0 <= len,
        from + len <= width,
        row.len() == heads * width,
    ensures
        parts_of_heads(row, width, from, len, n).len() == n * len,
    decreases n,
{
    if n > 0 {
        lemma_parts_len(row, width, from, len, n - 1, heads);
        assert(0 <= (n - 1) * width && (n - 1) * width + width <= heads * width && (n - 1) * len
            + len == n * len) by (nonlinear_arith)
            requires
                0 < n <= heads,
                0 <= width,
        ;
    } else {
        assert(0 * len == 0) by (nonlinear_arith);
    }
}

proof fn lemma_repacked_len<T>(layer: QuantizedDeltaLayer, projected: Seq<T>, n: int, seq: int)
    requires
        layer.wf(),
        0 <= n <= seq,
        projected.len() == seq * (layer.geometry.key_heads * head_width(layer)),
    ensures
        repacked_rows(layer, projected, n).len() == n * (layer.geometry.conv_width()
            + layer.geometry.value_width()),
    decreases n,
{
    let g = layer.geometry;
    let heads = g.key_heads as int;
    let kd = g.key_head_dim as int;
    let d = g.value_head_dim as int;
    let r = layer.ratio();
    let vd = r * d;
    let width = head_width(layer);
    let row_width = heads * width;
    let total = g.conv_width() + g.value_width();
    if n > 0 {
        lemma_repacked_len(layer, projected, n - 1, seq);
        vstd::arithmetic::div_mod::lemma_fundamental_div_mod(g.value_heads as int, heads);
        assert(0 <= vd && vd * 2 == r * d * 2) by (nonlinear_arith)
            requires
                vd == r * d,
                0 <= r,
                0 <= d,
        ;
        assert(0 <= row_width) by (nonlinear_arith)
            requires
                row_width == heads * width,
                0 <= heads,
                0 <= width,
        ;
        assert(0 <= (n - 1) * row_width && (n - 1) * row_width + row_width == n * row_width && n
            * row_width <= seq * row_width) by (nonlinear_arith)
            requires
                0 < n <= seq,
                0 <= row_width,
        ;
        let row = projected.subrange((n - 1) * row_width, n * row_width);
        lemma_parts_len(row, width, 0, kd, heads, heads);
        lemma_parts_len(row, width, kd, kd, heads, heads);
        lemma_parts_len(row, width, kd * 2, vd, heads, heads);
        lemma_parts_len(row, width, kd * 2 + vd, vd, heads, heads);
        assert(heads * vd == g.value_heads * d) by (nonlinear_arith)
            requires
                g.value_heads == heads * r,
                vd == r * d,
        ;
        assert((n - 1) * total + total == n * total) by (nonlinear_arith);
    } else {
        assert(0 * total == 0) by (nonlinear_arith);
    }
}

/// Runs a pass of a full-precision linear-attention layer between its
/// projections. The value heads follow their key heads.
pub fn reference_deltanet<T: Copy, A: Arithmetic<T>, C: Clock>(
    math: &A,
    clock: &mut C,
    layer: &QuantizedDeltaLayer,
    weights: &DeltaWeights<T>,
    seq: usize,
    projected: &Vec<T>,
    projected_ba: &Vec<T>,
    state: &mut QuantizedDeltaState<T>,
) -> (result: Result<DeltaTimes, DeltaError>)
    requires
        layer.wf(),
        layer.value_layout == ValueHeadLayout::GroupedByKeyHead,
        layer.beta_alpha_layout == BetaAlphaLayout::InterleavedByKeyHead,
        weights.wf(*layer),
        seq * layer.geometry.value_width() <= usize::MAX,
        head_width(*layer) <= usize::MAX,
        layer.geometry.key_heads * head_width(*layer) <= usize::MAX,
        projected@.len() == seq * (layer.geometry.key_heads * head_width(*layer)),
        projected_ba@.len() == seq * (layer.geometry.value_heads * 2),
    ensures
        match pass_problem(*layer, old(state)@, false, 0, seq as int) {
            Some(problem) => result == Err::<DeltaTimes, DeltaError>(problem) && final(state)@
                == old(state)@,
            None => {
                let rows = repacked_rows(*layer, projected@, seq as int);
                let width = pass_width(*layer, false);
                &&& result is Ok
                &&& final(state)@ == after_rows(
                    *math,
                    *layer,
                    *weights,
                    rows,
                    width,
                    projected_ba@,
                    old(state)@,
                    seq as int,
                )
                &&& final(state).scratch.recurrent_output@ == rows_output(
                    *math,
                    *layer,
                    *weights,
                    rows,
                    width,
                    projected_ba@,
                    old(state)@,
                    seq as int,
                )
                &&& final(state).scratch.gates@ == trailing_gates(*layer, rows, width, seq as int)
            },
        },
{
    let rows = repack_rows(layer, seq, projected);
    proof {
        lemma_repacked_len(*layer, projected@, seq as int, seq as int);
    }
    let mut snapshots: QuantizedDeltaSnapshots<T> = QuantizedDeltaSnapshots::empty();
    layer.forward_with_snapshots(
        math,
        clock,
        weights,
        seq,
        &rows,
        &None,
        projected_ba,
        state,
        false,
        &mut snapshots,
        false,
    )
}

} // verus!
