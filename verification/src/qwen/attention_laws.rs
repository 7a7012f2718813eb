//! What does not depend on how a sequence is cut into passes: attention is
//! causal, and a pass of several rows is its rows one after the other.

use super::attention::{
    head_part, is_attention, is_attention_of, placed, placed_keys, QuantizedAttentionLayer,
};
use super::scan::{
    attended, cache_row, has_rows, lemma_cell, lemma_cell_inside, lemma_group, lemma_row_inside,
    mix_of, row_start, scan_of, scanned, score_of, scores_of, ScanShape,
};
use crate::arithmetic::Arithmetic;
use vstd::arithmetic::div_mod::lemma_fundamental_div_mod;
use vstd::prelude::*;

verus! {

/// Whether two caches hold the same rows for the first `n` positions.
pub open spec fn same_positions<T>(
    a: Seq<T>,
    b: Seq<T>,
    kv_heads: int,
    head_dim: int,
    n: int,
) -> bool {
    &&& n * kv_heads * head_dim <= a.len()
    &&& n * kv_heads * head_dim <= b.len()
    &&& forall|i: int| 0 <= i < n * kv_heads * head_dim ==> #[trigger] a[i] == b[i]
}

/// Caches that agree give the same mix of values.
proof fn lemma_same_mix<T, A: Arithmetic<T>>(
    math: A,
    a: ScanShape,
    b: ScanShape,
    p: Seq<T>,
    values: Seq<T>,
    others: Seq<T>,
    kv_head: int,
    column: int,
    m: int,
    n: int,
)
    requires
        a.kv_heads == b.kv_heads,
        a.head_dim == b.head_dim,
        0 <= kv_head < a.kv_heads,
        0 <= column < a.head_dim,
        0 <= m <= n,
        same_positions(values, others, a.kv_heads as int, a.head_dim as int, n),
    ensures
        mix_of(math, a, p, values, kv_head, column, m) == mix_of(
            math,
            b,
            p,
            others,
            kv_head,
            column,
            m,
        ),
    decreases m,
{
    if m > 0 {
        lemma_same_mix(math, a, b, p, values, others, kv_head, column, m - 1, n);
        lemma_row_inside(n, a.kv_heads as int, a.head_dim as int, m - 1, kv_head);
        let at = row_start(a.kv_heads as int, a.head_dim as int, m - 1, kv_head) + column;
        assert(values[at] == others[at]);
    }
}

/// Attention is causal: what a head attends to at a position depends only on
/// the positions up to it, whatever comes later in the cache.
pub proof fn attention_is_causal<T, A: Arithmetic<T>>(
    math: A,
    a: ScanShape,
    b: ScanShape,
    scale: T,
    q: Seq<T>,
    gate: Seq<T>,
    keys: Seq<T>,
    values: Seq<T>,
    other_keys: Seq<T>,
    other_values: Seq<T>,
    kv_head: int,
    n: nat,
    column: int,
)
    requires
        a.kv_heads == b.kv_heads,
        a.head_dim == b.head_dim,
        0 <= kv_head < a.kv_heads,
        0 <= column < a.head_dim,
        same_positions(keys, other_keys, a.kv_heads as int, a.head_dim as int, n as int),
        same_positions(values, other_values, a.kv_heads as int, a.head_dim as int, n as int),
    ensures
        attended(math, a, scale, q, gate, keys, values, kv_head, n, column) == attended(
            math,
            b,
            scale,
            q,
            gate,
            other_keys,
            other_values,
            kv_head,
            n,
            column,
        ),
{
    let k = a.kv_heads as int;
    let d = a.head_dim as int;
    let scores = scores_of(math, a, scale, q, keys, kv_head, n);
    let others = scores_of(math, b, scale, q, other_keys, kv_head, n);
    assert forall|past: int| 0 <= past < n implies #[trigger] scores[past] == others[past] by {
        lemma_row_inside(n as int, k, d, past, kv_head);
        let start = row_start(k, d, past, kv_head);
        assert(cache_row(keys, k, d, past, kv_head) =~= cache_row(
            other_keys,
            k,
            d,
            past,
            kv_head,
        )) by {
            assert forall|j: int| 0 <= j < d implies keys.subrange(start, start + d)[j]
                == #[trigger] other_keys.subrange(start, start + d)[j] by {
                assert(keys[start + j] == other_keys[start + j]);
            }
        }
        assert(score_of(math, a, scale, q, keys, kv_head, past) == score_of(
            math,
            b,
            scale,
            q,
            other_keys,
            kv_head,
            past,
        ));
    }
    assert(scores =~= others);
    let p = super::scan::probabilities_of(math, scores);
    lemma_same_mix(math, a, b, p, values, other_values, kv_head, column, n as int, n as int);
}

/// Two results of the same pass are the same: nothing of a pass is left to the
/// scan that runs it.
pub proof fn a_pass_has_one_result<T, A: Arithmetic<T>>(
    one: Seq<T>,
    two: Seq<T>,
    math: A,
    layer: QuantizedAttentionLayer,
    seq: int,
    existing: usize,
    projected: Seq<T>,
    weight: Seq<T>,
    eps: T,
    scale: T,
    rotations: Seq<Vec<(T, T)>>,
    keys: Seq<T>,
    values: Seq<T>,
)
    requires
        layer.head_dim > 0,
        layer.query_heads > 0,
        0 <= seq <= usize::MAX,
        is_attention(
            one,
            math,
            layer,
            seq,
            existing,
            projected,
            weight,
            eps,
            scale,
            rotations,
            keys,
            values,
        ),
        is_attention(
            two,
            math,
            layer,
            seq,
            existing,
            projected,
            weight,
            eps,
            scale,
            rotations,
            keys,
            values,
        ),
    ensures
        one == two,
{
    let (q1, g1) = choose|queries: Seq<Vec<Vec<T>>>, gates: Seq<Vec<Vec<T>>>| #[trigger]
        is_attention_of(
            one,
            math,
            layer,
            seq,
            existing,
            projected,
            weight,
            eps,
            scale,
            rotations,
            keys,
            values,
            queries,
            gates,
        );
    let (q2, g2) = choose|queries: Seq<Vec<Vec<T>>>, gates: Seq<Vec<Vec<T>>>| #[trigger]
        is_attention_of(
            two,
            math,
            layer,
            seq,
            existing,
            projected,
            weight,
            eps,
            scale,
            rotations,
            keys,
            values,
            queries,
            gates,
        );
    let d = layer.head_dim as int;
    let h = layer.query_heads as int;
    assert forall|i: int| 0 <= i < one.len() implies one[i] == #[trigger] two[i] by {
        let t = i / d / h;
        let head = i / d % h;
        lemma_index_inside(i, seq, h, d);
        assert(q1[t]@[head]@ == q2[t]@[head]@);
        assert(g1[t]@[head]@ == g2[t]@[head]@);
    }
    assert(one =~= two);
}

/// A place in a list of rows leads to a row, a head and a column of it.
proof fn lemma_index_inside(i: int, seq: int, heads: int, dim: int)
    requires
        0 <= i < seq * heads * dim,
        0 < heads,
        0 < dim,
        0 <= seq,
    ensures
        0 <= i / dim / heads < seq,
        0 <= i / dim % heads < heads,
        0 <= i % dim < dim,
        i == ((i / dim / heads) * heads + i / dim % heads) * dim + i % dim,
{
    lemma_fundamental_div_mod(i, dim);
    let r = i / dim;
    assert(0 <= r < seq * heads) by (nonlinear_arith)
        requires
            i == dim * r + i % dim,
            0 <= i % dim < dim,
            0 <= i < seq * heads * dim,
            0 < dim,
    ;
    lemma_fundamental_div_mod(r, heads);
    let t = r / heads;
    assert(0 <= t < seq) by (nonlinear_arith)
        requires
            r == heads * t + r % heads,
            0 <= r % heads < heads,
            0 <= r < seq * heads,
            0 < heads,
    ;
    assert(heads * t == t * heads) by (nonlinear_arith);
    assert(dim * r == r * dim) by (nonlinear_arith);
}

/// A later row of a longer list is an earlier row of its end.
proof fn lemma_index_shift(i: int, first: int, rest: int, heads: int, dim: int)
    requires
        0 <= i < rest * heads * dim,
        0 < heads,
        0 < dim,
        0 <= first,
        0 <= rest,
    ensures
        0 <= first * heads * dim,
        0 <= i + first * heads * dim < (first + rest) * heads * dim,
        (i + first * heads * dim) / dim / heads == i / dim / heads + first,
        (i + first * heads * dim) / dim % heads == i / dim % heads,
        (i + first * heads * dim) % dim == i % dim,
{
    lemma_index_inside(i, rest, heads, dim);
    let t = i / dim / heads;
    let head = i / dim % heads;
    let c = i % dim;
    let r = (t + first) * heads + head;
    assert(i + first * heads * dim == r * dim + c) by (nonlinear_arith)
        requires
            i == (t * heads + head) * dim + c,
            r == (t + first) * heads + head,
    ;
    lemma_cell(r, dim, c);
    lemma_cell(t + first, heads, head);
    assert(0 <= first * heads * dim && first * heads * dim + rest * heads * dim == (first + rest)
        * heads * dim) by (nonlinear_arith)
        requires
            0 <= first,
            0 < heads,
            0 < dim,
    ;
}

/// A head of an early row is the same in the list of the early rows.
proof fn lemma_head_of_start<T>(
    flat: Seq<T>,
    heads: int,
    width: int,
    rows: int,
    token: int,
    head: int,
    from: int,
    len: int,
)
    requires
        0 <= token < rows,
        0 <= head < heads,
        0 <= from,
        0 <= len,
        from + len <= width,
        0 < width,
        rows * heads * width <= flat.len(),
    ensures
        head_part(flat.take(rows * heads * width), heads, width, token, head, from, len)
            == head_part(flat, heads, width, token, head, from, len),
{
    lemma_cell_inside(rows, heads, token, head);
    let r = token * heads + head;
    lemma_cell_inside(rows * heads, width, r, 0);
    assert(r * width + width <= rows * heads * width) by (nonlinear_arith)
        requires
            r + 1 <= rows * heads,
            0 < width,
    ;
    let start = r * width + from;
    assert(flat.take(rows * heads * width).subrange(start, start + len) =~= flat.subrange(
        start,
        start + len,
    ));
}

/// A head of a late row is that of an earlier row in the list of the late rows.
proof fn lemma_head_of_end<T>(
    flat: Seq<T>,
    heads: int,
    width: int,
    first: int,
    rest: int,
    token: int,
    head: int,
    from: int,
    len: int,
)
    requires
        0 <= first,
        0 <= token < rest,
        0 <= head < heads,
        0 <= from,
        0 <= len,
        from + len <= width,
        0 < width,
        flat.len() == (first + rest) * heads * width,
    ensures
        head_part(flat.skip(first * heads * width), heads, width, token, head, from, len)
            == head_part(flat, heads, width, token + first, head, from, len),
{
    lemma_cell_inside(rest, heads, token, head);
    let r = token * heads + head;
    let cut = first * heads * width;
    assert(0 <= r * width && r * width + width <= rest * heads * width && 0 <= cut && cut + rest
        * heads * width == (first + rest) * heads * width && ((token + first) * heads + head)
        * width == cut + r * width) by (nonlinear_arith)
        requires
            0 <= r,
            r + 1 <= rest * heads,
            r == token * heads + head,
            cut == first * heads * width,
            0 <= first,
            0 < heads,
            0 < width,
    ;
    let start = r * width + from;
    assert(flat.skip(cut).subrange(start, start + len) =~= flat.subrange(
        cut + start,
        cut + start + len,
    ));
}

/// The keys of a pass of several rows are those of its first rows and then those
/// of the others.
pub proof fn keys_follow_the_rows<T, A: Arithmetic<T>>(
    math: A,
    layer: QuantizedAttentionLayer,
    projected: Seq<T>,
    weight: Seq<T>,
    eps: T,
    rotations: Seq<Vec<(T, T)>>,
    first: int,
    rest: int,
    rows: int,
)
    requires
        layer.head_dim > 0,
        layer.kv_heads > 0,
        0 <= first,
        0 <= rest,
        0 <= rows <= rest * layer.kv_heads,
        rotations.len() == first + rest,
        projected.len() == (first + rest) * layer.kv_heads * layer.head_dim,
    ensures
        placed_keys(
            math,
            layer,
            projected,
            weight,
            eps,
            rotations,
            first * layer.kv_heads + rows,
        ) == placed_keys(
            math,
            layer,
            projected.take(first * layer.kv_heads * layer.head_dim),
            weight,
            eps,
            rotations.take(first),
            first * layer.kv_heads,
        ) + placed_keys(
            math,
            layer,
            projected.skip(first * layer.kv_heads * layer.head_dim),
            weight,
            eps,
            rotations.skip(first),
            rows,
        ),
    decreases rows,
{
    let k = layer.kv_heads as int;
    let d = layer.head_dim as int;
    assert(0 <= first * k) by (nonlinear_arith)
        requires
            0 <= first,
            0 < k,
    ;
    if rows == 0 {
        lemma_early_keys(math, layer, projected, weight, eps, rotations, first, rest, first * k);
        assert(placed_keys(
            math,
            layer,
            projected.skip(first * k * d),
            weight,
            eps,
            rotations.skip(first),
            0,
        ) =~= Seq::<T>::empty());
    } else {
        keys_follow_the_rows(
            math,
            layer,
            projected,
            weight,
            eps,
            rotations,
            first,
            rest,
            rows - 1,
        );
        lemma_fundamental_div_mod(rows - 1, k);
        let t = (rows - 1) / k;
        let head = (rows - 1) % k;
        assert(0 <= t < rest) by (nonlinear_arith)
            requires
                rows - 1 == k * t + head,
                0 <= head < k,
                0 <= rows - 1 < rest * k,
                0 < k,
        ;
        assert(first * k + rows - 1 == (t + first) * k + head) by (nonlinear_arith)
            requires
                rows - 1 == k * t + head,
        ;
        lemma_cell(t + first, k, head);
        lemma_head_of_end(projected, k, d, first, rest, t, head, 0, d);
        assert(rotations.skip(first)[t] == rotations[t + first]);
        let whole = placed_keys(
            math,
            layer,
            projected,
            weight,
            eps,
            rotations,
            first * k + rows - 1,
        );
        let early = placed_keys(
            math,
            layer,
            projected.take(first * k * d),
            weight,
            eps,
            rotations.take(first),
            first * k,
        );
        let late = placed_keys(
            math,
            layer,
            projected.skip(first * k * d),
            weight,
            eps,
            rotations.skip(first),
            rows - 1,
        );
        let row = placed(
            math,
            layer,
            head_part(projected, k, d, t + first, head, 0, d),
            weight,
            eps,
            rotations[t + first]@,
        );
        assert(whole == early + late);
        assert(whole + row =~= early + (late + row));
    }
}

/// The keys of the first rows are the same in the list of the first rows.
proof fn lemma_early_keys<T, A: Arithmetic<T>>(
    math: A,
    layer: QuantizedAttentionLayer,
    projected: Seq<T>,
    weight: Seq<T>,
    eps: T,
    rotations: Seq<Vec<(T, T)>>,
    first: int,
    rest: int,
    rows: int,
)
    requires
        layer.head_dim > 0,
        layer.kv_heads > 0,
        0 <= first,
        0 <= rest,
        0 <= rows <= first * layer.kv_heads,
        rotations.len() == first + rest,
        projected.len() == (first + rest) * layer.kv_heads * layer.head_dim,
    ensures
        placed_keys(math, layer, projected, weight, eps, rotations, rows) == placed_keys(
            math,
            layer,
            projected.take(first * layer.kv_heads * layer.head_dim),
            weight,
            eps,
            rotations.take(first),
            rows,
        ),
    decreases rows,
{
    let k = layer.kv_heads as int;
    let d = layer.head_dim as int;
    if rows > 0 {
        lemma_early_keys(math, layer, projected, weight, eps, rotations, first, rest, rows - 1);
        lemma_fundamental_div_mod(rows - 1, k);
        let t = (rows - 1) / k;
        let head = (rows - 1) % k;
        assert(0 <= t < first) by (nonlinear_arith)
            requires
                rows - 1 == k * t + head,
                0 <= head < k,
                0 <= rows - 1 < first * k,
                0 < k,
        ;
        assert(first * k * d <= (first + rest) * k * d) by (nonlinear_arith)
            requires
                0 <= first,
                0 <= rest,
                0 < k,
                0 < d,
        ;
        lemma_head_of_start(projected, k, d, first, t, head, 0, d);
        assert(rotations.take(first)[t] == rotations[t]);
    }
}

/// Whether the dimensions of a layer and the operands of a pass of `seq` rows
/// over `existing` positions go together.
pub open spec fn pass_shapes<T>(
    layer: QuantizedAttentionLayer,
    seq: int,
    existing: int,
    projected: Seq<T>,
    rotations: Seq<Vec<(T, T)>>,
    keys: Seq<T>,
    values: Seq<T>,
) -> bool {
    &&& layer.head_dim > 0
    &&& layer.kv_heads > 0
    &&& layer.query_heads > 0
    &&& layer.query_heads as int % layer.kv_heads as int == 0
    &&& rotations.len() == seq
    &&& projected.len() == seq * layer.query_heads * (layer.head_dim * 2)
    &&& keys.len() == (existing + seq) * layer.kv_heads * layer.head_dim
    &&& values.len() == keys.len()
}

/// The shape of a pass.
pub open spec fn shape_of(layer: QuantizedAttentionLayer, seq: int, existing: int) -> ScanShape {
    ScanShape {
        seq: seq as usize,
        existing: existing as usize,
        query_heads: layer.query_heads,
        kv_heads: layer.kv_heads,
        head_dim: layer.head_dim,
    }
}

/// The group of a query head is one of the key/value heads.
proof fn lemma_head_group(layer: QuantizedAttentionLayer, seq: int, existing: int, head: int)
    requires
        layer.kv_heads > 0,
        layer.query_heads > 0,
        layer.query_heads as int % layer.kv_heads as int == 0,
        0 <= head < layer.query_heads,
    ensures
        0 <= head / shape_of(layer, seq, existing).group() < layer.kv_heads,
{
    let shape = shape_of(layer, seq, existing);
    let q = layer.query_heads as int;
    let k = layer.kv_heads as int;
    lemma_fundamental_div_mod(q, k);
    assert(q / k > 0) by (nonlinear_arith)
        requires
            q == k * (q / k) + q % k,
            q % k == 0,
            q > 0,
            k > 0,
    ;
    assert(k * (q / k) == (q / k) * k) by (nonlinear_arith);
    lemma_group(shape, head);
}

/// A cache agrees with its own start.
proof fn lemma_start_agrees<T>(cache: Seq<T>, kv_heads: int, head_dim: int, cut: int, n: int)
    requires
        0 <= n <= cut,
        0 < kv_heads,
        0 < head_dim,
        cut * kv_heads * head_dim <= cache.len(),
    ensures
        0 <= cut * kv_heads * head_dim,
        same_positions(cache, cache.take(cut * kv_heads * head_dim), kv_heads, head_dim, n),
{
    assert(0 <= n * kv_heads * head_dim <= cut * kv_heads * head_dim) by (nonlinear_arith)
        requires
            0 <= n <= cut,
            0 < kv_heads,
            0 < head_dim,
    ;
    assert forall|i: int| 0 <= i < n * kv_heads * head_dim implies #[trigger] cache[i]
        == cache.take(cut * kv_heads * head_dim)[i] by {}
}

/// The first rows of a pass are a pass of their own, over the cache as it was
/// after them.
proof fn lemma_first_rows<T, A: Arithmetic<T>>(
    result: Seq<T>,
    math: A,
    layer: QuantizedAttentionLayer,
    first: int,
    rest: int,
    existing: int,
    projected: Seq<T>,
    weight: Seq<T>,
    eps: T,
    scale: T,
    rotations: Seq<Vec<(T, T)>>,
    keys: Seq<T>,
    values: Seq<T>,
    queries: Seq<Vec<Vec<T>>>,
    gates: Seq<Vec<Vec<T>>>,
)
    requires
        0 <= first,
        0 <= rest,
        0 <= existing,
        existing + first + rest <= usize::MAX,
        pass_shapes(layer, first + rest, existing, projected, rotations, keys, values),
        is_attention_of(
            result,
            math,
            layer,
            first + rest,
            existing as usize,
            projected,
            weight,
            eps,
            scale,
            rotations,
            keys,
            values,
            queries,
            gates,
        ),
    ensures
        is_attention_of(
            result.take(first * layer.query_heads * layer.head_dim),
            math,
            layer,
            first,
            existing as usize,
            projected.take(first * layer.query_heads * (layer.head_dim * 2)),
            weight,
            eps,
            scale,
            rotations.take(first),
            keys.take((existing + first) * layer.kv_heads * layer.head_dim),
            values.take((existing + first) * layer.kv_heads * layer.head_dim),
            queries.take(first),
            gates.take(first),
        ),
{
    let h = layer.query_heads as int;
    let k = layer.kv_heads as int;
    let d = layer.head_dim as int;
    let seq = first + rest;
    let cut = first * h * d;
    assert(0 <= cut <= seq * h * d && first * h * (d * 2) <= seq * h * (d * 2) && (existing + first)
        * k * d <= (existing + seq) * k * d) by (nonlinear_arith)
        requires
            cut == first * h * d,
            seq == first + rest,
            0 <= first,
            0 <= rest,
            0 <= existing,
            0 < h,
            0 < k,
            0 < d,
    ;
    let q = queries.take(first);
    let g = gates.take(first);
    let inputs = projected.take(first * h * (d * 2));
    assert forall|t: int, n: int| 0 <= t < first && 0 <= n < h implies (#[trigger] q[t]@[n])@
        == placed(
        math,
        layer,
        head_part(inputs, h, d * 2, t, n, 0, d),
        weight,
        eps,
        rotations.take(first)[t]@,
    ) by {
        lemma_head_of_start(projected, h, d * 2, first, t, n, 0, d);
        assert(q[t]@[n] == queries[t]@[n]);
    }
    assert forall|t: int, n: int| 0 <= t < first && 0 <= n < h implies (#[trigger] g[t]@[n])@
        == head_part(inputs, h, d * 2, t, n, d, d) by {
        lemma_head_of_start(projected, h, d * 2, first, t, n, d, d);
        assert(g[t]@[n] == gates[t]@[n]);
    }
    assert(has_rows(q, first, h, d)) by {
        assert forall|t: int| 0 <= t < first implies (#[trigger] q[t])@.len() == h by {
            assert(q[t] == queries[t]);
        }
        assert forall|t: int, n: int| 0 <= t < first && 0 <= n < h implies (
        #[trigger] q[t]@[n])@.len() == d by {
            assert(q[t]@[n] == queries[t]@[n]);
        }
    }
    assert(has_rows(g, first, h, d)) by {
        assert forall|t: int| 0 <= t < first implies (#[trigger] g[t])@.len() == h by {
            assert(g[t] == gates[t]);
        }
        assert forall|t: int, n: int| 0 <= t < first && 0 <= n < h implies (
        #[trigger] g[t]@[n])@.len() == d by {
            assert(g[t]@[n] == gates[t]@[n]);
        }
    }
    let whole = shape_of(layer, seq, existing);
    let short = shape_of(layer, first, existing);
    let early_keys = keys.take((existing + first) * k * d);
    let early_values = values.take((existing + first) * k * d);
    let scan = scan_of(math, short, scale, q, g, early_keys, early_values, first);
    assert(result.take(cut) =~= scan) by {
        assert forall|i: int| 0 <= i < cut implies result.take(cut)[i] == #[trigger] scan[i] by {
            lemma_index_inside(i, first, h, d);
            let t = i / d / h;
            let n = i / d % h;
            lemma_head_group(layer, seq, existing, n);
            let past = (existing + t + 1) as nat;
            lemma_start_agrees(keys, k, d, existing + first, past as int);
            lemma_start_agrees(values, k, d, existing + first, past as int);
            attention_is_causal(
                math,
                whole,
                short,
                scale,
                queries[t]@[n]@,
                gates[t]@[n]@,
                keys,
                values,
                early_keys,
                early_values,
                n / whole.group(),
                past,
                i % d,
            );
            assert(q[t]@[n] == queries[t]@[n]);
            assert(g[t]@[n] == gates[t]@[n]);
        }
    }
}

/// The last rows of a pass are a pass of their own, over the cache as the first
/// rows left it.
proof fn lemma_last_rows<T, A: Arithmetic<T>>(
    result: Seq<T>,
    math: A,
    layer: QuantizedAttentionLayer,
    first: int,
    rest: int,
    existing: int,
    projected: Seq<T>,
    weight: Seq<T>,
    eps: T,
    scale: T,
    rotations: Seq<Vec<(T, T)>>,
    keys: Seq<T>,
    values: Seq<T>,
    queries: Seq<Vec<Vec<T>>>,
    gates: Seq<Vec<Vec<T>>>,
)
    requires
        0 <= first,
        0 <= rest,
        0 <= existing,
        existing + first + rest <= usize::MAX,
        pass_shapes(layer, first + rest, existing, projected, rotations, keys, values),
        is_attention_of(
            result,
            math,
            layer,
            first + rest,
            existing as usize,
            projected,
            weight,
            eps,
            scale,
            rotations,
            keys,
            values,
            queries,
            gates,
        ),
    ensures
        is_attention_of(
            result.skip(first * layer.query_heads * layer.head_dim),
            math,
            layer,
            rest,
            (existing + first) as usize,
            projected.skip(first * layer.query_heads * (layer.head_dim * 2)),
            weight,
            eps,
            scale,
            rotations.skip(first),
            keys,
            values,
            queries.skip(first),
            gates.skip(first),
        ),
{
    let h = layer.query_heads as int;
    let d = layer.head_dim as int;
    let seq = first + rest;
    let cut = first * h * d;
    assert(0 <= cut && cut + rest * h * d == seq * h * d && 0 <= first * h * (d * 2) <= seq * h * (d
        * 2)) by (nonlinear_arith)
        requires
            cut == first * h * d,
            seq == first + rest,
            0 <= first,
            0 <= rest,
            0 < h,
            0 < d,
    ;
    let q = queries.skip(first);
    let g = gates.skip(first);
    let inputs = projected.skip(first * h * (d * 2));
    assert forall|t: int, n: int| 0 <= t < rest && 0 <= n < h implies (#[trigger] q[t]@[n])@
        == placed(
        math,
        layer,
        head_part(inputs, h, d * 2, t, n, 0, d),
        weight,
        eps,
        rotations.skip(first)[t]@,
    ) by {
        lemma_head_of_end(projected, h, d * 2, first, rest, t, n, 0, d);
        assert(q[t]@[n] == queries[t + first]@[n]);
    }
    assert forall|t: int, n: int| 0 <= t < rest && 0 <= n < h implies (#[trigger] g[t]@[n])@
        == head_part(inputs, h, d * 2, t, n, d, d) by {
        lemma_head_of_end(projected, h, d * 2, first, rest, t, n, d, d);
        assert(g[t]@[n] == gates[t + first]@[n]);
    }
    assert(has_rows(q, rest, h, d)) by {
        assert forall|t: int| 0 <= t < rest implies (#[trigger] q[t])@.len() == h by {
            assert(q[t] == queries[t + first]);
        }
        assert forall|t: int, n: int| 0 <= t < rest && 0 <= n < h implies (
        #[trigger] q[t]@[n])@.len() == d by {
            assert(q[t]@[n] == queries[t + first]@[n]);
        }
    }
    assert(has_rows(g, rest, h, d)) by {
        assert forall|t: int| 0 <= t < rest implies (#[trigger] g[t])@.len() == h by {
            assert(g[t] == gates[t + first]);
        }
        assert forall|t: int, n: int| 0 <= t < rest && 0 <= n < h implies (
        #[trigger] g[t]@[n])@.len() == d by {
            assert(g[t]@[n] == gates[t + first]@[n]);
        }
    }
    let whole = shape_of(layer, seq, existing);
    let late = shape_of(layer, rest, existing + first);
    let scan = scan_of(math, late, scale, q, g, keys, values, rest);
    assert(result.skip(cut) =~= scan) by {
        assert forall|i: int| 0 <= i < rest * h * d implies result.skip(cut)[i]
            == #[trigger] scan[i] by {
            lemma_index_inside(i, rest, h, d);
            lemma_index_shift(i, first, rest, h, d);
            let t = i / d / h;
            let n = i / d % h;
            lemma_head_group(layer, seq, existing, n);
            let past = (existing + first + t + 1) as nat;
            let k = layer.kv_heads as int;
            assert(past * k * d <= (existing + seq) * k * d) by (nonlinear_arith)
                requires
                    past <= existing + seq,
                    0 < k,
                    0 < d,
            ;
            assert(same_positions(keys, keys, k, d, past as int));
            assert(same_positions(values, values, k, d, past as int));
            attention_is_causal(
                math,
                whole,
                late,
                scale,
                queries[t + first]@[n]@,
                gates[t + first]@[n]@,
                keys,
                values,
                keys,
                values,
                n / whole.group(),
                past,
                i % d,
            );
            assert(q[t]@[n] == queries[t + first]@[n]);
            assert(g[t]@[n] == gates[t + first]@[n]);
            assert(result[i + cut] == scanned(
                math,
                whole,
                scale,
                queries,
                gates,
                keys,
                values,
                t + first,
                n,
                i % d,
            ));
        }
    }
}

/// Cutting a pass in two moves no bit: a pass of several rows computes what its
/// first rows compute in a pass of their own, and then what the others compute
/// over the cache that the first left. So a verification pass over a draft
/// agrees with decoding its tokens one by one.
pub proof fn a_pass_is_its_rows_one_after_the_other<T, A: Arithmetic<T>>(
    result: Seq<T>,
    math: A,
    layer: QuantizedAttentionLayer,
    first: int,
    rest: int,
    existing: int,
    projected: Seq<T>,
    weight: Seq<T>,
    eps: T,
    scale: T,
    rotations: Seq<Vec<(T, T)>>,
    keys: Seq<T>,
    values: Seq<T>,
)
    requires
        0 <= first,
        0 <= rest,
        0 <= existing,
        existing + first + rest <= usize::MAX,
        pass_shapes(layer, first + rest, existing, projected, rotations, keys, values),
        is_attention(
            result,
            math,
            layer,
            first + rest,
            existing as usize,
            projected,
            weight,
            eps,
            scale,
            rotations,
            keys,
            values,
        ),
    ensures
        is_attention(
            result.take(first * layer.query_heads * layer.head_dim),
            math,
            layer,
            first,
            existing as usize,
            projected.take(first * layer.query_heads * (layer.head_dim * 2)),
            weight,
            eps,
            scale,
            rotations.take(first),
            keys.take((existing + first) * layer.kv_heads * layer.head_dim),
            values.take((existing + first) * layer.kv_heads * layer.head_dim),
        ),
        is_attention(
            result.skip(first * layer.query_heads * layer.head_dim),
            math,
            layer,
            rest,
            (existing + first) as usize,
            projected.skip(first * layer.query_heads * (layer.head_dim * 2)),
            weight,
            eps,
            scale,
            rotations.skip(first),
            keys,
            values,
        ),
{
    let (queries, gates) = choose|queries: Seq<Vec<Vec<T>>>, gates: Seq<Vec<Vec<T>>>| #[trigger]
        is_attention_of(
            result,
            math,
            layer,
            first + rest,
            existing as usize,
            projected,
            weight,
            eps,
            scale,
            rotations,
            keys,
            values,
            queries,
            gates,
        );
    lemma_first_rows(
        result,
        math,
        layer,
        first,
        rest,
        existing,
        projected,
        weight,
        eps,
        scale,
        rotations,
        keys,
        values,
        queries,
        gates,
    );
    lemma_last_rows(
        result,
        math,
        layer,
        first,
        rest,
        existing,
        projected,
        weight,
        eps,
        scale,
        rotations,
        keys,
        values,
        queries,
        gates,
    );
}

} // verus!
