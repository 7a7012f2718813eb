//! What the full-precision layers compute between their projections, written out
//! in the numbers that go into them.

use super::attention::{
    are_gates, are_queries, head_part, placed, QuantizedAttentionLayer,
};
use super::attention_rule::{is_normed, is_turned, lemma_mix, lemma_placed, lemma_tail};
use super::delta_layer::QuantizedDeltaLayer;
use super::moe_laws::{is_softmax, lemma_softmax};
use super::reference::{
    head_width, is_reference_attention, is_reference_prefix, one_centered, parts_of_heads,
    reference_scanned, repacked, repacked_rows, scales_of, serial_scores,
};
use super::scan::{cache_row, lemma_cell, lemma_group, lemma_row_inside, ScanShape};
use crate::arithmetic::Arithmetic;
use crate::sums::running_total;
use vstd::prelude::*;

verus! {

/// Whether `full` is a norm's weight that is stored as its difference from one.
pub open spec fn is_full<T, A: Arithmetic<T>>(math: A, full: Seq<T>, stored: Seq<T>) -> bool {
    &&& full.len() == stored.len()
    &&& forall|i: int|
        0 <= i < full.len() ==> #[trigger] full[i] == math.sum(math.one_of(), stored[i])
}

/// A stored norm weight is taken in full: one and what is stored.
pub proof fn stored_weights_are_centered<T, A: Arithmetic<T>>(math: A, full: Seq<T>, stored: Seq<T>)
    requires
        is_full(math, full, stored),
    ensures
        one_centered(math, stored) == full,
{
    assert(one_centered(math, stored) =~= full);
}

/// A full-precision checkpoint stores the logarithm of how fast a head decays: its
/// scale is the opposite of the exponential.
pub proof fn a_decay_is_stored_as_a_logarithm<T, A: Arithmetic<T>>(math: A, a_log: Seq<T>, h: int)
    requires
        0 <= h < a_log.len(),
    ensures
        scales_of(math, a_log).len() == a_log.len(),
        scales_of(math, a_log)[h] == math.negative(math.exponential(a_log[h])),
{
}

/// What a full-precision layer gives out for a token, a query head and a column:
/// gated causal attention, with queries normed by the weight in full, and the
/// products of a query and a key added one after the other.
pub proof fn a_reference_output_is_gated_causal_attention<T, A: Arithmetic<T>>(
    math: A,
    layer: QuantizedAttentionLayer,
    result: Seq<T>,
    seq: int,
    existing: usize,
    projected: Seq<T>,
    stored: Seq<T>,
    eps: T,
    scale: T,
    rotations: Seq<Vec<(T, T)>>,
    keys: Seq<T>,
    values: Seq<T>,
    token: int,
    head: int,
    column: int,
    full: Seq<T>,
    n: Seq<T>,
    q: Seq<T>,
    scores: Seq<T>,
    p: Seq<T>,
)
    requires
        is_reference_attention(
            result,
            math,
            layer,
            seq,
            existing,
            projected,
            stored,
            eps,
            scale,
            rotations,
            keys,
            values,
        ),
        0 <= token < seq,
        0 <= head < layer.query_heads,
        0 <= column < layer.head_dim,
        existing + seq <= usize::MAX,
        layer.kv_heads > 0,
        layer.query_heads as int % layer.kv_heads as int == 0,
        layer.rotary_dim <= layer.head_dim,
        projected.len() == seq * layer.query_heads * (layer.head_dim * 2),
        keys.len() == (existing + seq) * layer.kv_heads * layer.head_dim,
        is_full(math, full, stored),
        is_normed(
            math,
            n,
            projected.subrange(
                (token * layer.query_heads + head) * (layer.head_dim * 2),
                (token * layer.query_heads + head) * (layer.head_dim * 2) + layer.head_dim,
            ),
            full,
            eps,
        ),
        is_turned(math, q, n, layer.rotary_dim as int / 2, rotations[token]@),
        scores.len() == existing + token + 1,
        forall|past: int|
            0 <= past < scores.len() ==> #[trigger] scores[past] == math.product(
                running_total(
                    math,
                    math.empty_of(),
                    Seq::new(
                        q.len(),
                        |i: int|
                            math.product(
                                q[i],
                                keys[(past * layer.kv_heads + head / (layer.query_heads as int
                                    / layer.kv_heads as int)) * q.len() + i],
                            ),
                    ),
                ),
                scale,
            ),
        is_softmax(math, scores, p),
    ensures
        ({
            let kv_head = head / (layer.query_heads as int / layer.kv_heads as int);
            let gate = projected[(token * layer.query_heads + head) * (layer.head_dim * 2)
                + layer.head_dim + column];
            result[(token * layer.query_heads + head) * layer.head_dim + column] == math.product(
                running_total(
                    math,
                    math.zero_of(),
                    Seq::new(
                        scores.len(),
                        |j: int|
                            math.product(
                                p[j],
                                values[(j * layer.kv_heads + kv_head) * layer.head_dim + column],
                            ),
                    ),
                ),
                math.quotient(
                    math.one_of(),
                    math.sum(math.one_of(), math.exponential(math.negative(gate))),
                ),
            )
        }),
{
    let heads = layer.query_heads as int;
    let dim = layer.head_dim as int;
    let group = heads / layer.kv_heads as int;
    let kv_head = head / group;
    let place = token * heads + head;
    let at = place * (dim * 2);
    stored_weights_are_centered(math, full, stored);
    let shape = ScanShape {
        seq: seq as usize,
        existing,
        query_heads: layer.query_heads,
        kv_heads: layer.kv_heads,
        head_dim: layer.head_dim,
    };
    let (queries, gates) = choose|queries: Seq<Vec<Vec<T>>>, gates: Seq<Vec<Vec<T>>>|
        {
            &&& #[trigger] are_queries(
                queries,
                math,
                layer,
                projected,
                one_centered(math, stored),
                eps,
                rotations,
                seq,
            )
            &&& #[trigger] are_gates(gates, layer, projected, seq)
            &&& result.len() == seq * layer.query_heads * layer.head_dim
            &&& is_reference_prefix(
                result,
                math,
                shape,
                scale,
                queries,
                gates,
                keys,
                values,
            )
        };
    assert(0 <= place && place < seq * heads) by (nonlinear_arith)
        requires
            place == token * heads + head,
            0 <= token < seq,
            0 <= head < heads,
    ;
    assert(0 <= at && at + dim * 2 <= seq * heads * (dim * 2) && 0 <= place * dim && place * dim
        + dim <= seq * heads * dim) by (nonlinear_arith)
        requires
            at == place * (dim * 2),
            0 <= place < seq * heads,
            0 <= dim,
    ;
    let x = projected.subrange(at, at + dim);
    assert(head_part(projected, heads, dim * 2, token, head, 0, dim) =~= x);
    lemma_placed(math, layer, x, n, full, eps, rotations[token]@);
    let own = queries[token]@[head]@;
    assert(own == placed(math, layer, x, full, eps, rotations[token]@));
    assert(own =~= q);
    let gate_row = gates[token]@[head]@;
    assert(gate_row == head_part(projected, heads, dim * 2, token, head, dim, dim));
    assert(gate_row[column] == projected[at + dim + column]);
    vstd::arithmetic::div_mod::lemma_fundamental_div_mod(heads, layer.kv_heads as int);
    vstd::arithmetic::mul::lemma_mul_is_commutative(group, layer.kv_heads as int);
    assert(group > 0) by (nonlinear_arith)
        requires
            heads == group * layer.kv_heads,
            heads > 0,
            group >= 0,
    ;
    lemma_group(shape, head);
    let served = serial_scores(math, shape, scale, q, keys, kv_head, scores.len());
    assert forall|past: int| 0 <= past < scores.len() implies #[trigger] scores[past]
        == served[past] by {
        lemma_row_inside(existing + seq, layer.kv_heads as int, dim, past, kv_head);
        let k = cache_row(keys, layer.kv_heads as int, dim, past, kv_head);
        let products = Seq::new(
            q.len(),
            |i: int|
                math.product(
                    q[i],
                    keys[(past * layer.kv_heads + head / (layer.query_heads as int
                        / layer.kv_heads as int)) * q.len() + i],
                ),
        );
        assert forall|i: int| 0 <= i < products.len() implies #[trigger] products[i]
            == math.product(q[0 + i], k[0 + i]) by {
            assert(k[i] == keys[(past * layer.kv_heads + kv_head) * dim + i]);
        }
        lemma_tail(math, q, k, 0, products);
    }
    assert(scores =~= served);
    lemma_softmax(math, scores, p);
    let terms = Seq::new(
        scores.len(),
        |j: int|
            math.product(p[j], values[(j * layer.kv_heads + kv_head) * layer.head_dim + column]),
    );
    lemma_mix(math, shape, p, values, kv_head, column, terms);
    lemma_cell(place, dim, column);
    lemma_cell(token, heads, head);
    assert(result[place * dim + column] == reference_scanned(
        math,
        shape,
        scale,
        queries,
        gates,
        keys,
        values,
        token,
        head,
        column,
    ));
}

proof fn lemma_parts<T>(
    row: Seq<T>,
    width: int,
    from: int,
    len: int,
    n: int,
    head: int,
    i: int,
)
    requires
        0 <= head < n,
        0 <= i < len,
        0 <= from,
        from + len <= width,
        n * width <= row.len(),
    ensures
        parts_of_heads(row, width, from, len, n).len() == n * len,
        parts_of_heads(row, width, from, len, n)[head * len + i] == row[head * width + from + i],
    decreases n,
{
    assert((n - 1) * len + len == n * len && 0 <= (n - 1) * width && (n - 1) * width + width == n
        * width && 0 <= head * len && (head < n - 1 ==> head * len + len <= (n - 1) * len))
        by (nonlinear_arith)
        requires
            0 <= head < n,
            0 <= len,
            0 <= width,
    ;
    if n > 1 {
        lemma_parts(row, width, from, len, n - 1, if head < n - 1 { head } else { 0 }, i);
    } else {
        assert((n - 1) * len == 0) by (nonlinear_arith)
            requires
                n == 1,
        ;
    }
}

/// A projected row of a full-precision layer holds, for one key head after the
/// other, its query, its key, the values of its value heads and their gates. The
/// convolution takes the queries of all key heads, then their keys, then the
/// values; the gates follow.
pub proof fn a_row_is_repacked_by_parts<T>(
    layer: QuantizedDeltaLayer,
    row: Seq<T>,
    head: int,
    i: int,
    j: int,
)
    requires
        layer.wf(),
        0 <= head < layer.geometry.key_heads,
        0 <= i < layer.geometry.key_head_dim,
        0 <= j < layer.ratio() * layer.geometry.value_head_dim,
        row.len() == layer.geometry.key_heads * head_width(layer),
    ensures
        ({
            let keys = layer.geometry.key_heads as int;
            let kd = layer.geometry.key_head_dim as int;
            let own = layer.geometry.value_heads as int / keys * layer.geometry.value_head_dim;
            let at = head * (kd + kd + own + own);
            let out = repacked(layer, row);
            &&& out[head * kd + i] == row[at + i]
            &&& out[keys * kd + (head * kd + i)] == row[at + kd + i]
            &&& out[keys * kd * 2 + (head * own + j)] == row[at + kd * 2 + j]
            &&& out[keys * kd * 2 + keys * own + (head * own + j)] == row[at + kd * 2 + own + j]
        }),
{
    let keys = layer.geometry.key_heads as int;
    let kd = layer.geometry.key_head_dim as int;
    let own = layer.ratio() * layer.geometry.value_head_dim;
    let width = head_width(layer);
    assert(width == kd + kd + own + own) by (nonlinear_arith)
        requires
            width == kd * 2 + layer.ratio() * layer.geometry.value_head_dim * 2,
            own == layer.ratio() * layer.geometry.value_head_dim,
    ;
    lemma_parts(row, width, 0, kd, keys, head, i);
    lemma_parts(row, width, kd, kd, keys, head, i);
    lemma_parts(row, width, kd * 2, own, keys, head, j);
    lemma_parts(row, width, kd * 2 + own, own, keys, head, j);
    assert(0 <= head * kd && head * kd + kd <= keys * kd && 0 <= head * own && head * own + own
        <= keys * own && keys * kd * 2 == keys * kd + keys * kd) by (nonlinear_arith)
        requires
            0 <= head < keys,
            0 <= kd,
            0 <= own,
    ;
}

/// The rows of a pass are repacked one by one.
pub proof fn rows_are_repacked_one_by_one<T>(layer: QuantizedDeltaLayer, projected: Seq<T>, n: int)
    requires
        0 <= n,
    ensures
        repacked_rows(layer, projected, 0).len() == 0,
        ({
            let width = layer.geometry.key_heads * head_width(layer);
            repacked_rows(layer, projected, n + 1) == repacked_rows(layer, projected, n) + repacked(
                layer,
                projected.subrange(n * width, (n + 1) * width),
            )
        }),
{
}

} // verus!
