//! What one pass of full attention computes, written out in the numbers that go
//! into it: how keys and queries are normed and turned to their position, what
//! they are scored by, and what the scores are used for.

use super::attention::{
    are_gates, are_queries, head_part, is_attention, is_attention_of, lemma_placed_len, normed,
    placed, placed_keys, squares_of, QuantizedAttentionLayer,
};
use super::moe_laws::lemma_peak;
use super::scan::{
    cache_row, dot_of, folded, lane_total, lemma_cell, lemma_row_inside, mix_of, probabilities_of,
    score_of, scores_of, tail_total, total_of, weights_of, ScanShape,
};
use crate::arithmetic::Arithmetic;
use crate::sums::{running_peak, running_total};
use vstd::prelude::*;

verus! {

/// Whether `n` is `x` brought to a mean square of about one and weighted.
pub open spec fn is_normed<T, A: Arithmetic<T>>(
    math: A,
    n: Seq<T>,
    x: Seq<T>,
    weight: Seq<T>,
    eps: T,
) -> bool {
    &&& n.len() == x.len()
    &&& forall|i: int|
        0 <= i < x.len() ==> #[trigger] n[i] == math.product(
            math.product(
                x[i],
                math.inverse(
                    math.root(
                        math.sum(
                            math.quotient(
                                running_total(
                                    math,
                                    math.empty_of(),
                                    Seq::new(x.len(), |j: int| math.product(x[j], x[j])),
                                ),
                                math.count_of(x.len()),
                            ),
                            eps,
                        ),
                    ),
                ),
            ),
            weight[i],
        )
}

/// Whether `turned` is `n` with its first two halves of `half` numbers each
/// turned against each other, by one angle for every pair, and the rest kept.
pub open spec fn is_turned<T, A: Arithmetic<T>>(
    math: A,
    turned: Seq<T>,
    n: Seq<T>,
    half: int,
    rotations: Seq<(T, T)>,
) -> bool {
    &&& turned.len() == n.len()
    &&& forall|i: int|
        0 <= i < half ==> #[trigger] turned[i] == math.difference(
            math.product(n[i], rotations[i].0),
            math.product(n[half + i], rotations[i].1),
        )
    &&& forall|i: int|
        half <= i < 2 * half ==> #[trigger] turned[i] == math.sum(
            math.product(n[i], rotations[i - half].0),
            math.product(n[i - half], rotations[i - half].1),
        )
    &&& forall|i: int| 2 * half <= i < n.len() ==> #[trigger] turned[i] == n[i]
}

proof fn lemma_squares<T, A: Arithmetic<T>>(math: A, v: Seq<T>, terms: Seq<T>)
    requires
        terms.len() <= v.len(),
        forall|i: int| 0 <= i < terms.len() ==> #[trigger] terms[i] == math.product(v[i], v[i]),
    ensures
        squares_of(math, v, terms.len() as int) == running_total(math, math.empty_of(), terms),
    decreases terms.len(),
{
    if terms.len() > 0 {
        let fewer = terms.drop_last();
        assert forall|i: int| 0 <= i < fewer.len() implies #[trigger] fewer[i] == math.product(
            v[i],
            v[i],
        ) by {
            assert(fewer[i] == terms[i]);
        }
        lemma_squares(math, v, fewer);
        assert(terms.last() == terms[terms.len() - 1]);
    }
}

/// What stands for a head in a cache or is scored against one: normed, and then
/// turned.
pub(super) proof fn lemma_placed<T, A: Arithmetic<T>>(
    math: A,
    layer: QuantizedAttentionLayer,
    x: Seq<T>,
    n: Seq<T>,
    weight: Seq<T>,
    eps: T,
    rotations: Seq<(T, T)>,
)
    requires
        is_normed(math, n, x, weight, eps),
        layer.rotary_dim <= x.len(),
    ensures
        is_turned(
            math,
            placed(math, layer, x, weight, eps, rotations),
            n,
            layer.rotary_dim as int / 2,
            rotations,
        ),
{
    lemma_squares(math, x, Seq::new(x.len(), |j: int| math.product(x[j], x[j])));
    assert(normed(math, x, weight, eps) =~= n);
}

proof fn lemma_placed_key<T, A: Arithmetic<T>>(
    math: A,
    layer: QuantizedAttentionLayer,
    projected: Seq<T>,
    weight: Seq<T>,
    eps: T,
    rotations: Seq<Vec<(T, T)>>,
    seq: int,
    rows: int,
    token: int,
    head: int,
)
    requires
        0 <= token,
        0 <= head < layer.kv_heads,
        token * layer.kv_heads + head < rows <= seq * layer.kv_heads,
        projected.len() == seq * layer.kv_heads * layer.head_dim,
    ensures
        ({
            let dim = layer.head_dim as int;
            let at = (token * layer.kv_heads + head) * dim;
            let all = placed_keys(math, layer, projected, weight, eps, rotations, rows);
            &&& 0 <= at
            &&& at + dim <= all.len()
            &&& all.subrange(at, at + dim) == placed(
                math,
                layer,
                projected.subrange(at, at + dim),
                weight,
                eps,
                rotations[token]@,
            )
        }),
    decreases rows,
{
    let heads = layer.kv_heads as int;
    let dim = layer.head_dim as int;
    let at = (token * heads + head) * dim;
    let place = token * heads + head;
    assert(0 <= place) by (nonlinear_arith)
        requires
            place == token * heads + head,
            0 <= token,
            0 <= head,
            0 <= heads,
    ;
    lemma_placed_len(math, layer, projected, weight, eps, rotations, seq, rows);
    lemma_placed_len(math, layer, projected, weight, eps, rotations, seq, rows - 1);
    let all = placed_keys(math, layer, projected, weight, eps, rotations, rows);
    let fewer = placed_keys(math, layer, projected, weight, eps, rotations, rows - 1);
    assert(0 <= at && at + dim == (place + 1) * dim && (rows - 1) * dim + dim == rows * dim && (
    place + 1) * dim <= rows * dim && (place < rows - 1 ==> (place + 1) * dim <= (rows - 1) * dim)
        && rows * dim <= seq * heads * dim) by (nonlinear_arith)
        requires
            at == place * dim,
            0 <= place < rows,
            rows <= seq * heads,
            0 <= dim,
    ;
    if place < rows - 1 {
        lemma_placed_key(math, layer, projected, weight, eps, rotations, seq, rows - 1, token, head);
        assert(all.subrange(at, at + dim) =~= fewer.subrange(at, at + dim));
    } else {
        lemma_cell(token, heads, head);
        assert((rows - 1) / heads == token && (rows - 1) % heads == head);
        let own = placed(
            math,
            layer,
            head_part(projected, heads, dim, token, head, 0, dim),
            weight,
            eps,
            rotations[token]@,
        );
        assert(all == fewer + own);
        assert(fewer.len() == at);
        assert(all.subrange(at, at + dim) =~= own);
    }
}

/// The key that a pass appends to the cache for a token and a head is the token's
/// projected key of that head, normed, and turned by the token's own rotations.
pub proof fn an_appended_key_is_normed_and_turned<T, A: Arithmetic<T>>(
    math: A,
    layer: QuantizedAttentionLayer,
    projected: Seq<T>,
    weight: Seq<T>,
    eps: T,
    rotations: Seq<Vec<(T, T)>>,
    seq: int,
    token: int,
    head: int,
    n: Seq<T>,
)
    requires
        0 <= token < seq,
        0 <= head < layer.kv_heads,
        layer.rotary_dim <= layer.head_dim,
        projected.len() == seq * layer.kv_heads * layer.head_dim,
        is_normed(
            math,
            n,
            projected.subrange(
                (token * layer.kv_heads + head) * layer.head_dim,
                (token * layer.kv_heads + head) * layer.head_dim + layer.head_dim,
            ),
            weight,
            eps,
        ),
    ensures
        ({
            let at = (token * layer.kv_heads + head) * layer.head_dim;
            is_turned(
                math,
                placed_keys(math, layer, projected, weight, eps, rotations, seq * layer.kv_heads).subrange(
                    at,
                    at + layer.head_dim,
                ),
                n,
                layer.rotary_dim as int / 2,
                rotations[token]@,
            )
        }),
{
    let heads = layer.kv_heads as int;
    let dim = layer.head_dim as int;
    let at = (token * heads + head) * dim;
    assert(token * heads + head < seq * heads) by (nonlinear_arith)
        requires
            0 <= token < seq,
            0 <= head < heads,
    ;
    lemma_placed_key(
        math,
        layer,
        projected,
        weight,
        eps,
        rotations,
        seq,
        seq * heads,
        token,
        head,
    );
    let place = token * heads + head;
    assert(0 <= at && at + dim <= seq * heads * dim) by (nonlinear_arith)
        requires
            at == place * dim,
            0 <= place < seq * heads,
            0 <= dim,
    ;
    lemma_placed(
        math,
        layer,
        projected.subrange(at, at + dim),
        n,
        weight,
        eps,
        rotations[token]@,
    );
}

/// The products of two rows, added up: eight sums of every eighth product, taken
/// in turn, and added to the sum of the products behind the last whole eight.
pub open spec fn eightfold_total<T, A: Arithmetic<T>>(math: A, products: Seq<T>) -> T {
    let whole = products.len() as int / 8;
    running_total(
        math,
        running_total(math, math.empty_of(), products.skip(8 * whole)),
        Seq::new(
            8,
            |lane: int|
                running_total(
                    math,
                    math.zero_of(),
                    Seq::new(whole as nat, |b: int| products[8 * b + lane]),
                ),
        ),
    )
}

/// Whether `p` is the softmax of scores: the exponential of how far each is below
/// the largest, over the sum of these.
pub open spec fn are_shares<T, A: Arithmetic<T>>(math: A, scores: Seq<T>, p: Seq<T>) -> bool {
    &&& p.len() == scores.len()
    &&& forall|j: int|
        0 <= j < p.len() ==> #[trigger] p[j] == math.quotient(
            math.exponential(math.difference(scores[j], running_peak(math, scores))),
            running_total(
                math,
                math.zero_of(),
                Seq::new(
                    scores.len(),
                    |i: int|
                        math.exponential(math.difference(scores[i], running_peak(math, scores))),
                ),
            ),
        )
}

proof fn lemma_lane<T, A: Arithmetic<T>>(
    math: A,
    q: Seq<T>,
    k: Seq<T>,
    lane: int,
    terms: Seq<T>,
)
    requires
        forall|b: int|
            0 <= b < terms.len() ==> #[trigger] terms[b] == math.product(
                q[8 * b + lane],
                k[8 * b + lane],
            ),
    ensures
        lane_total(math, q, k, lane, terms.len() as int) == running_total(
            math,
            math.zero_of(),
            terms,
        ),
    decreases terms.len(),
{
    if terms.len() > 0 {
        let fewer = terms.drop_last();
        assert forall|b: int| 0 <= b < fewer.len() implies #[trigger] fewer[b] == math.product(
            q[8 * b + lane],
            k[8 * b + lane],
        ) by {
            assert(fewer[b] == terms[b]);
        }
        lemma_lane(math, q, k, lane, fewer);
        assert(terms.last() == terms[terms.len() - 1]);
    }
}

pub(super) proof fn lemma_tail<T, A: Arithmetic<T>>(
    math: A,
    q: Seq<T>,
    k: Seq<T>,
    from: int,
    terms: Seq<T>,
)
    requires
        forall|i: int|
            0 <= i < terms.len() ==> #[trigger] terms[i] == math.product(q[from + i], k[from + i]),
    ensures
        tail_total(math, q, k, from, terms.len() as int) == running_total(
            math,
            math.empty_of(),
            terms,
        ),
    decreases terms.len(),
{
    if terms.len() > 0 {
        let fewer = terms.drop_last();
        assert forall|i: int| 0 <= i < fewer.len() implies #[trigger] fewer[i] == math.product(
            q[from + i],
            k[from + i],
        ) by {
            assert(fewer[i] == terms[i]);
        }
        lemma_tail(math, q, k, from, fewer);
        assert(terms.last() == terms[terms.len() - 1]);
    }
}

proof fn lemma_lanes<T, A: Arithmetic<T>>(math: A, q: Seq<T>, k: Seq<T>, first: T, lanes: Seq<T>)
    requires
        first == folded(math, q, k, 0),
        forall|l: int|
            0 <= l < lanes.len() ==> #[trigger] lanes[l] == lane_total(
                math,
                q,
                k,
                l,
                q.len() as int / 8,
            ),
    ensures
        folded(math, q, k, lanes.len() as int) == running_total(math, first, lanes),
    decreases lanes.len(),
{
    if lanes.len() > 0 {
        let fewer = lanes.drop_last();
        assert forall|l: int| 0 <= l < fewer.len() implies #[trigger] fewer[l] == lane_total(
            math,
            q,
            k,
            l,
            q.len() as int / 8,
        ) by {
            assert(fewer[l] == lanes[l]);
        }
        lemma_lanes(math, q, k, first, fewer);
        assert(lanes.last() == lanes[lanes.len() - 1]);
    }
}

proof fn lemma_dot<T, A: Arithmetic<T>>(math: A, q: Seq<T>, k: Seq<T>, products: Seq<T>)
    requires
        products.len() == q.len(),
        forall|i: int|
            0 <= i < q.len() ==> #[trigger] products[i] == math.product(q[i], k[i]),
    ensures
        dot_of(math, q, k) == eightfold_total(math, products),
{
    let whole = q.len() as int / 8;
    let rest = products.skip(8 * whole);
    let lanes = Seq::new(
        8,
        |lane: int|
            running_total(
                math,
                math.zero_of(),
                Seq::new(whole as nat, |b: int| products[8 * b + lane]),
            ),
    );
    assert forall|i: int| 0 <= i < rest.len() implies #[trigger] rest[i] == math.product(
        q[8 * whole + i],
        k[8 * whole + i],
    ) by {
        assert(rest[i] == products[8 * whole + i]);
    }
    lemma_tail(math, q, k, 8 * whole, rest);
    assert forall|l: int| 0 <= l < 8 implies #[trigger] lanes[l] == lane_total(
        math,
        q,
        k,
        l,
        whole,
    ) by {
        let terms = Seq::new(whole as nat, |b: int| products[8 * b + l]);
        assert forall|b: int| 0 <= b < terms.len() implies #[trigger] terms[b] == math.product(
            q[8 * b + l],
            k[8 * b + l],
        ) by {
            assert(terms[b] == products[8 * b + l]);
        }
        lemma_lane(math, q, k, l, terms);
    }
    lemma_lanes(math, q, k, running_total(math, math.empty_of(), rest), lanes);
}

proof fn lemma_total<T, A: Arithmetic<T>>(math: A, s: Seq<T>, n: int)
    requires
        0 <= n <= s.len(),
    ensures
        total_of(math, s, n) == running_total(math, math.zero_of(), s.take(n)),
    decreases n,
{
    if n > 0 {
        assert(s.take(n).drop_last() =~= s.take(n - 1));
        lemma_total(math, s, n - 1);
    }
}

proof fn lemma_shares<T, A: Arithmetic<T>>(math: A, scores: Seq<T>, p: Seq<T>)
    requires
        are_shares(math, scores, p),
    ensures
        p == probabilities_of(math, scores),
{
    let n = scores.len() as int;
    assert(scores.take(n) =~= scores);
    lemma_peak(math, scores, n);
    let w = weights_of(math, scores);
    assert(w =~= Seq::new(
        scores.len(),
        |i: int| math.exponential(math.difference(scores[i], running_peak(math, scores))),
    ));
    assert(w.take(n) =~= w);
    lemma_total(math, w, n);
    assert(p =~= probabilities_of(math, scores));
}

pub(super) proof fn lemma_mix<T, A: Arithmetic<T>>(
    math: A,
    shape: ScanShape,
    p: Seq<T>,
    values: Seq<T>,
    kv_head: int,
    column: int,
    terms: Seq<T>,
)
    requires
        forall|j: int|
            0 <= j < terms.len() ==> #[trigger] terms[j] == math.product(
                p[j],
                values[(j * shape.kv_heads + kv_head) * shape.head_dim + column],
            ),
    ensures
        mix_of(math, shape, p, values, kv_head, column, terms.len() as int) == running_total(
            math,
            math.zero_of(),
            terms,
        ),
    decreases terms.len(),
{
    if terms.len() > 0 {
        let fewer = terms.drop_last();
        assert forall|j: int| 0 <= j < fewer.len() implies #[trigger] fewer[j] == math.product(
            p[j],
            values[(j * shape.kv_heads + kv_head) * shape.head_dim + column],
        ) by {
            assert(fewer[j] == terms[j]);
        }
        lemma_mix(math, shape, p, values, kv_head, column, fewer);
        assert(terms.last() == terms[terms.len() - 1]);
    }
}

/// Whether scores are those of a query against the first positions of a cache:
/// the products of the query with the keys of one key/value head, added up and
/// scaled.
pub open spec fn are_scores<T, A: Arithmetic<T>>(
    math: A,
    scores: Seq<T>,
    q: Seq<T>,
    keys: Seq<T>,
    kv_heads: int,
    kv_head: int,
    scale: T,
) -> bool {
    forall|past: int|
        0 <= past < scores.len() ==> #[trigger] scores[past] == math.product(
            eightfold_total(
                math,
                Seq::new(
                    q.len(),
                    |i: int|
                        math.product(q[i], keys[(past * kv_heads + kv_head) * q.len() + i]),
                ),
            ),
            scale,
        )
}

proof fn lemma_scores<T, A: Arithmetic<T>>(
    math: A,
    shape: ScanShape,
    scale: T,
    scores: Seq<T>,
    q: Seq<T>,
    keys: Seq<T>,
    kv_head: int,
    positions: int,
)
    requires
        are_scores(math, scores, q, keys, shape.kv_heads as int, kv_head, scale),
        q.len() == shape.head_dim,
        0 < shape.head_dim,
        0 <= kv_head < shape.kv_heads,
        scores.len() <= positions,
        keys.len() == positions * shape.kv_heads * shape.head_dim,
    ensures
        scores == scores_of(math, shape, scale, q, keys, kv_head, scores.len()),
{
    assert forall|past: int| 0 <= past < scores.len() implies #[trigger] scores[past] == score_of(
        math,
        shape,
        scale,
        q,
        keys,
        kv_head,
        past,
    ) by {
        let at = (past * shape.kv_heads + kv_head) * shape.head_dim;
        lemma_row_inside(positions, shape.kv_heads as int, shape.head_dim as int, past, kv_head);
        let k = cache_row(keys, shape.kv_heads as int, shape.head_dim as int, past, kv_head);
        let products = Seq::new(
            q.len(),
            |i: int|
                math.product(q[i], keys[(past * shape.kv_heads + kv_head) * q.len() + i]),
        );
        assert forall|i: int| 0 <= i < q.len() implies #[trigger] products[i] == math.product(
            q[i],
            k[i],
        ) by {
            assert(k[i] == keys[at + i]);
        }
        lemma_dot(math, q, k, products);
    }
    assert(scores =~= scores_of(math, shape, scale, q, keys, kv_head, scores.len()));
}

/// What a pass gives out for a token, a query head and a column. The head's
/// query, normed and turned by the token's own rotations, is scored against the
/// keys of its group's key/value head at every position up to and with the
/// token's own, and at no later one. The softmax of the scores weighs the values
/// of these positions, and the logistic function of the token's own gate scales
/// their sum.
pub proof fn an_output_is_gated_causal_attention<T, A: Arithmetic<T>>(
    math: A,
    layer: QuantizedAttentionLayer,
    result: Seq<T>,
    seq: int,
    existing: usize,
    projected: Seq<T>,
    weight: Seq<T>,
    eps: T,
    scale: T,
    rotations: Seq<Vec<(T, T)>>,
    keys: Seq<T>,
    values: Seq<T>,
    token: int,
    head: int,
    column: int,
    n: Seq<T>,
    q: Seq<T>,
    scores: Seq<T>,
    p: Seq<T>,
)
    requires
        is_attention(
            result,
            math,
            layer,
            seq,
            existing,
            projected,
            weight,
            eps,
            scale,
            rotations,
            keys,
            values,
        ),
        0 <= token < seq,
        0 <= head < layer.query_heads,
        0 <= column < layer.head_dim,
        existing + seq <= usize::MAX,
        layer.kv_heads > 0,
        layer.query_heads as int % layer.kv_heads as int == 0,
        layer.rotary_dim <= layer.head_dim,
        projected.len() == seq * layer.query_heads * (layer.head_dim * 2),
        keys.len() == (existing + seq) * layer.kv_heads * layer.head_dim,
        is_normed(
            math,
            n,
            projected.subrange(
                (token * layer.query_heads + head) * (layer.head_dim * 2),
                (token * layer.query_heads + head) * (layer.head_dim * 2) + layer.head_dim,
            ),
            weight,
            eps,
        ),
        is_turned(math, q, n, layer.rotary_dim as int / 2, rotations[token]@),
        scores.len() == existing + token + 1,
        are_scores(
            math,
            scores,
            q,
            keys,
            layer.kv_heads as int,
            head / (layer.query_heads as int / layer.kv_heads as int),
            scale,
        ),
        are_shares(math, scores, p),
    ensures
        ({
            let kv_head = head / (layer.query_heads as int / layer.kv_heads as int);
            let gate = projected[(token * layer.query_heads + head) * (layer.head_dim * 2)
                + layer.head_dim + column];
            result[(token * layer.query_heads + head) * layer.head_dim + column] == math.product(
                running_total(
                    math,
                    math.zero_of(),
                    Seq::new(
                        scores.len(),
                        |j: int|
                            math.product(
                                p[j],
                                values[(j * layer.kv_heads + kv_head) * layer.head_dim + column],
                            ),
                    ),
                ),
                math.quotient(
                    math.one_of(),
                    math.sum(math.one_of(), math.exponential(math.negative(gate))),
                ),
            )
        }),
{
    let heads = layer.query_heads as int;
    let dim = layer.head_dim as int;
    let group = heads / layer.kv_heads as int;
    let kv_head = head / group;
    let place = token * heads + head;
    let at = place * (dim * 2);
    let (queries, gates) = choose|queries: Seq<Vec<Vec<T>>>, gates: Seq<Vec<Vec<T>>>| #[trigger]
        is_attention_of(
            result,
            math,
            layer,
            seq,
            existing,
            projected,
            weight,
            eps,
            scale,
            rotations,
            keys,
            values,
            queries,
            gates,
        );
    let shape = ScanShape {
        seq: seq as usize,
        existing,
        query_heads: layer.query_heads,
        kv_heads: layer.kv_heads,
        head_dim: layer.head_dim,
    };
    assert(0 <= place && place < seq * heads) by (nonlinear_arith)
        requires
            place == token * heads + head,
            0 <= token < seq,
            0 <= head < heads,
    ;
    assert(0 <= at && at + dim * 2 <= seq * heads * (dim * 2) && 0 <= place * dim && place * dim
        + dim <= seq * heads * dim) by (nonlinear_arith)
        requires
            at == place * (dim * 2),
            0 <= place < seq * heads,
            0 <= dim,
    ;
    let x = projected.subrange(at, at + dim);
    assert(head_part(projected, heads, dim * 2, token, head, 0, dim) =~= x);
    lemma_placed(math, layer, x, n, weight, eps, rotations[token]@);
    let own = queries[token]@[head]@;
    assert(own == placed(math, layer, x, weight, eps, rotations[token]@));
    assert(own =~= q);
    let gate_row = gates[token]@[head]@;
    assert(gate_row == head_part(projected, heads, dim * 2, token, head, dim, dim));
    assert(gate_row[column] == projected[at + dim + column]);
    vstd::arithmetic::div_mod::lemma_fundamental_div_mod(heads, layer.kv_heads as int);
    vstd::arithmetic::mul::lemma_mul_is_commutative(group, layer.kv_heads as int);
    assert(group > 0) by (nonlinear_arith)
        requires
            heads == group * layer.kv_heads,
            heads > 0,
            group >= 0,
    ;
    super::scan::lemma_group(shape, head);
    lemma_scores(math, shape, scale, scores, q, keys, kv_head, existing + seq);
    lemma_shares(math, scores, p);
    let terms = Seq::new(
        scores.len(),
        |j: int|
            math.product(
                p[j],
                values[(j * layer.kv_heads + kv_head) * layer.head_dim + column],
            ),
    );
    lemma_mix(math, shape, p, values, kv_head, column, terms);
    lemma_cell(place, dim, column);
    lemma_cell(token, heads, head);
}

/// A query that is scored is the token's projected query of its head, normed, and
/// turned by the token's own rotations; its gate stands behind it.
pub proof fn a_scored_query_is_normed_and_turned<T, A: Arithmetic<T>>(
    math: A,
    layer: QuantizedAttentionLayer,
    queries: Seq<Vec<Vec<T>>>,
    gates: Seq<Vec<Vec<T>>>,
    projected: Seq<T>,
    weight: Seq<T>,
    eps: T,
    rotations: Seq<Vec<(T, T)>>,
    seq: int,
    token: int,
    head: int,
    n: Seq<T>,
)
    requires
        are_queries(queries, math, layer, projected, weight, eps, rotations, seq),
        are_gates(gates, layer, projected, seq),
        0 <= token < seq,
        0 <= head < layer.query_heads,
        layer.rotary_dim <= layer.head_dim,
        projected.len() == seq * layer.query_heads * (layer.head_dim * 2),
        is_normed(
            math,
            n,
            projected.subrange(
                (token * layer.query_heads + head) * (layer.head_dim * 2),
                (token * layer.query_heads + head) * (layer.head_dim * 2) + layer.head_dim,
            ),
            weight,
            eps,
        ),
    ensures
        is_turned(
            math,
            queries[token]@[head]@,
            n,
            layer.rotary_dim as int / 2,
            rotations[token]@,
        ),
        gates[token]@[head]@ == projected.subrange(
            (token * layer.query_heads + head) * (layer.head_dim * 2) + layer.head_dim,
            (token * layer.query_heads + head) * (layer.head_dim * 2) + layer.head_dim * 2,
        ),
{
    let heads = layer.query_heads as int;
    let dim = layer.head_dim as int;
    let place = token * heads + head;
    let at = place * (dim * 2);
    assert(0 <= place && place < seq * heads) by (nonlinear_arith)
        requires
            place == token * heads + head,
            0 <= token < seq,
            0 <= head < heads,
    ;
    assert(0 <= at && at + dim * 2 <= seq * heads * (dim * 2)) by (nonlinear_arith)
        requires
            at == place * (dim * 2),
            0 <= place < seq * heads,
            0 <= dim,
    ;
    let x = projected.subrange(at, at + dim);
    assert(head_part(projected, heads, dim * 2, token, head, 0, dim) =~= x);
    lemma_placed(math, layer, x, n, weight, eps, rotations[token]@);
    assert(queries[token]@[head]@ == placed(math, layer, x, weight, eps, rotations[token]@));
    assert(gates[token]@[head]@ == head_part(projected, heads, dim * 2, token, head, dim, dim));
}

} // verus!
