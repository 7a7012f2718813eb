//! What the products with compressed rows come to: over numbers that are not
//! rounded, a row of weights times a row of activations is the sum of the
//! products of what the two rows stand for, place by place.

use crate::arithmetic::Arithmetic;
use crate::qgemm::{
    dot, lane_sum, lanes_add_up_to_the_product, lanes_total, min_lane, q4k_factors, q4k_weights,
    q6k_factors, q6k_weights, q80_lane, signed_product, signed_products_are_products, short, signed,
    sub_min, sub_scale, Q4KBlock, Q6KBlock, Q80Block, Q8KBlock,
};
use crate::qgemm_rows::{q4k_dot, q4k_lane_total, q4k_min_total, q6k_dot, q6k_lane_total, q80_dot,
    q80_lane_total};
use crate::sums::{is_exact, lemma_sums_agree, sum_to};
use vstd::prelude::*;

verus! {

/// Whether the sums that stand beside activations are theirs: one of every 16.
pub open spec fn sums_are_true(x: Q8KBlock) -> bool {
    forall|s: int|
        0 <= s < 16 ==> #[trigger] x.bsums@[s] == sum_to(|i: int| x.qs@[16 * s + i] as int, 16)
}

/// The six bits of a sub-block's scale and of its minimum, out of the twelve
/// bytes that hold those of all eight.
proof fn lemma_sixes(scales: Seq<u8>, k: int)
    ensures
        sub_scale(scales, k) == if k < 4 {
            scales[k] as int % 64
        } else {
            scales[k + 4] as int % 16 + 16 * (scales[k - 4] as int / 64)
        },
        sub_min(scales, k) == if k < 4 {
            scales[k + 4] as int % 64
        } else {
            scales[k + 4] as int / 16 + 16 * (scales[k] as int / 64)
        },
{
    let a = scales[k];
    let b = scales[k + 4];
    let c = scales[k - 4];
    assert(a & 63 == a % 64 && b & 63 == b % 64 && (b & 15) | ((c >> 6) << 4) == b % 16 + 16 * (c
        / 64) && (b >> 4) | ((a >> 6) << 4) == b / 16 + 16 * (a / 64)) by (bit_vector);
}

/// One product of what a weight and an activation stand for.
proof fn lemma_one_term(dx: int, dw: int, dm: int, a: int, b: int, c: int, l: int)
    ensures
        (dx * a) * (dw * (c * b) - dm * l) == dx * dw * (c * (b * a)) - dx * dm * (l * a),
{
    let left = dw * (c * b);
    let right = dm * l;
    assert((dx * a) * (left - right) == (dx * a) * left - (dx * a) * right) by (nonlinear_arith);
    assert((dx * a) * left == dx * dw * (c * (b * a))) by (nonlinear_arith)
        requires
            left == dw * (c * b),
    ;
    assert((dx * a) * right == dx * dm * (l * a)) by (nonlinear_arith)
        requires
            right == dm * l,
    ;
}

/// Products of what weights and activations stand for, added up: the scaled
/// products less the scaled minimums.
proof fn lemma_scaled_sum(
    dx: int,
    dw: int,
    dm: int,
    q: Seq<i32>,
    f: Seq<i32>,
    x: Seq<i8>,
    least: spec_fn(int) -> int,
    terms: spec_fn(int) -> int,
    n: int,
)
    requires
        0 <= n,
        forall|p: int|
            0 <= p < n ==> #[trigger] terms(p) == (dx * x[p]) * (dw * (f[p / 16] * q[p]) - dm
                * least(p)),
    ensures
        sum_to(terms, n) == dx * dw * dot(q, f, x, n) - dx * dm * sum_to(
            |p: int| least(p) * x[p],
            n,
        ),
    decreases n,
{
    let lows = |p: int| least(p) * x[p];
    if n > 0 {
        lemma_scaled_sum(dx, dw, dm, q, f, x, least, terms, n - 1);
        let p = n - 1;
        assert(terms(p) == (dx * x[p]) * (dw * (f[p / 16] * q[p]) - dm * least(p)));
        let a = x[p] as int;
        let b = q[p] as int;
        let c = f[p / 16] as int;
        let l = least(p);
        let before = dot(q, f, x, p);
        let low = sum_to(lows, p);
        lemma_one_term(dx, dw, dm, a, b, c, l);
        assert(dx * dw * (before + c * (b * a)) == dx * dw * before + dx * dw * (c * (b * a)))
            by (nonlinear_arith);
        assert(dx * dm * (low + l * a) == dx * dm * low + dx * dm * (l * a)) by (nonlinear_arith);
        assert(lows(p) == l * a);
    } else {
        assert(dx * dw * 0 - dx * dm * 0 == 0) by (nonlinear_arith);
    }
}

/// The eight lanes of a block, added up.
proof fn lemma_eight(q: Seq<i32>, f: Seq<i32>, x: Seq<i8>)
    ensures
        lane_sum(q, f, x, 0, 8) + lane_sum(q, f, x, 1, 8) + lane_sum(q, f, x, 2, 8) + lane_sum(
            q,
            f,
            x,
            3,
            8,
        ) + lane_sum(q, f, x, 4, 8) + lane_sum(q, f, x, 5, 8) + lane_sum(q, f, x, 6, 8) + lane_sum(
            q,
            f,
            x,
            7,
            8,
        ) == dot(q, f, x, 256),
{
    lanes_add_up_to_the_product(q, f, x);
    reveal_with_fuel(lanes_total, 9);
}

/// One minimum times the activations of a sixteenth of a block.
proof fn lemma_sixteen(x: Q8KBlock, least: spec_fn(int) -> int, m: int, s: int, n: int)
    requires
        0 <= s < 16,
        0 <= n <= 16,
        forall|p: int| 16 * s <= p < 16 * s + 16 ==> #[trigger] least(p) == m,
    ensures
        sum_to(|p: int| least(p) * x.qs@[p], 16 * s + n) == sum_to(
            |p: int| least(p) * x.qs@[p],
            16 * s,
        ) + m * sum_to(|i: int| x.qs@[16 * s + i] as int, n),
    decreases n,
{
    let lows = |p: int| least(p) * x.qs@[p];
    let own = |i: int| x.qs@[16 * s + i] as int;
    if n > 0 {
        lemma_sixteen(x, least, m, s, n - 1);
        let p = 16 * s + n - 1;
        assert(least(p) == m);
        assert(lows(p) == m * x.qs@[p]);
        assert(own(n - 1) == x.qs@[p]);
        let a = x.qs@[p] as int;
        let before = sum_to(own, n - 1);
        assert(m * before + m * a == m * (before + a)) by (nonlinear_arith);
    } else {
        assert(m * 0 == 0) by (nonlinear_arith);
    }
}

/// Sixteen activations add up to a small number.
proof fn lemma_small(x: Q8KBlock, s: int, n: int)
    requires
        0 <= n <= 16,
    ensures
        -128 * n <= sum_to(|i: int| x.qs@[16 * s + i] as int, n) <= 127 * n,
    decreases n,
{
    let own = |i: int| x.qs@[16 * s + i] as int;
    if n > 0 {
        lemma_small(x, s, n - 1);
        assert(own(n - 1) == x.qs@[16 * s + n - 1]);
    }
}

/// Two lanes' worth of the minimums' part: a quarter of a block.
proof fn lemma_quarter(scales: Seq<u8>, x: Q8KBlock, least: spec_fn(int) -> int, lane: int)
    requires
        0 <= lane < 4,
        sums_are_true(x),
        forall|p: int| 0 <= p < 256 ==> #[trigger] least(p) == sub_min(scales, p / 32),
    ensures
        sum_to(|p: int| least(p) * x.qs@[p], 64 * lane + 64) == sum_to(
            |p: int| least(p) * x.qs@[p],
            64 * lane,
        ) + min_lane(scales, x.bsums@, lane),
{
    let a = sub_min(scales, 2 * lane) as int;
    let b = sub_min(scales, 2 * lane + 1) as int;
    lemma_sixteen(x, least, a, 4 * lane, 16);
    lemma_sixteen(x, least, a, 4 * lane + 1, 16);
    lemma_sixteen(x, least, b, 4 * lane + 2, 16);
    lemma_sixteen(x, least, b, 4 * lane + 3, 16);
    lemma_small(x, 4 * lane, 16);
    lemma_small(x, 4 * lane + 1, 16);
    lemma_small(x, 4 * lane + 2, 16);
    lemma_small(x, 4 * lane + 3, 16);
    let s0 = x.bsums@[4 * lane] as int;
    let s1 = x.bsums@[4 * lane + 1] as int;
    let s2 = x.bsums@[4 * lane + 2] as int;
    let s3 = x.bsums@[4 * lane + 3] as int;
    assert(a * s0 + a * s1 == a * (s0 + s1) && b * s2 + b * s3 == b * (s2 + s3))
        by (nonlinear_arith);
}

/// The minimums' part of a block.
proof fn lemma_minimums(scales: Seq<u8>, x: Q8KBlock, least: spec_fn(int) -> int)
    requires
        sums_are_true(x),
        forall|p: int| 0 <= p < 256 ==> #[trigger] least(p) == sub_min(scales, p / 32),
    ensures
        sum_to(|p: int| least(p) * x.qs@[p], 256) == min_lane(scales, x.bsums@, 0) + min_lane(
            scales,
            x.bsums@,
            1,
        ) + min_lane(scales, x.bsums@, 2) + min_lane(scales, x.bsums@, 3),
{
    lemma_quarter(scales, x, least, 0);
    lemma_quarter(scales, x, least, 1);
    lemma_quarter(scales, x, least, 2);
    lemma_quarter(scales, x, least, 3);
}

/// The eight lanes of a block's products, added up.
spec fn eight(q: Seq<i32>, f: Seq<i32>, x: Seq<i8>) -> int {
    lane_sum(q, f, x, 0, 8) + lane_sum(q, f, x, 1, 8) + lane_sum(q, f, x, 2, 8) + lane_sum(
        q,
        f,
        x,
        3,
        8,
    ) + lane_sum(q, f, x, 4, 8) + lane_sum(q, f, x, 5, 8) + lane_sum(q, f, x, 6, 8) + lane_sum(
        q,
        f,
        x,
        7,
        8,
    )
}

/// The four lanes of a block's minimums' part, added up.
spec fn four(scales: Seq<u8>, bsums: Seq<i16>) -> int {
    min_lane(scales, bsums, 0) + min_lane(scales, bsums, 1) + min_lane(scales, bsums, 2) + min_lane(
        scales,
        bsums,
        3,
    )
}

/// The places of a block add up to its lanes and its minimums' lanes.
proof fn lemma_q4k_block(dx: int, dw: int, dm: int, w: Q4KBlock, x: Q8KBlock)
    requires
        sums_are_true(x),
    ensures
        sum_to(|p: int| q4k_term(dx, dw, dm, w, x, p), 256) == dx * dw * eight(
            q4k_weights(w),
            q4k_factors(w),
            x.qs@,
        ) - dx * dm * four(w.scales@, x.bsums@),
{
    let q = q4k_weights(w);
    let f = q4k_factors(w);
    let least = |p: int| sub_min(w.scales@, p / 32) as int;
    let terms = |p: int| q4k_term(dx, dw, dm, w, x, p);
    assert forall|p: int| 0 <= p < 256 implies #[trigger] terms(p) == (dx * x.qs@[p]) * (dw * (f[p
        / 16] * q[p]) - dm * least(p)) by {
        lemma_sixes(w.scales@, p / 32);
        assert(f[p / 16] == sub_scale(w.scales@, p / 16 / 2));
        assert(p / 16 / 2 == p / 32);
    }
    lemma_scaled_sum(dx, dw, dm, q, f, x.qs@, least, terms, 256);
    lemma_eight(q, f, x.qs@);
    lemma_minimums(w.scales@, x, least);
}

/// Eight terms with one factor.
proof fn lemma_common_factor(
    d: int,
    a: int,
    b: int,
    c: int,
    e: int,
    f: int,
    g: int,
    h: int,
    i: int,
)
    ensures
        d * a + d * b + d * c + d * e + d * f + d * g + d * h + d * i == d * (a + b + c + e + f + g
            + h + i),
{
    assert(d * a + d * b + d * c + d * e + d * f + d * g + d * h + d * i == d * (a + b + c + e + f
        + g + h + i)) by (nonlinear_arith);
}

/// What one more block adds to a lane of a row.
proof fn lemma_q4k_lane<T, A: Arithmetic<T>>(
    math: A,
    value: spec_fn(T) -> int,
    weight: Seq<Q4KBlock>,
    inputs: Seq<Q8KBlock>,
    rows: int,
    row: int,
    lane: int,
    n: int,
)
    requires
        is_exact(math, value),
        n > 0,
    ensures
        ({
            let w = weight[n - 1];
            let x = inputs[(n - 1) * rows + row];
            let dx = value(math.single_of(x.d));
            &&& value(q4k_lane_total(math, weight, inputs, rows, row, lane, n)) == dx * value(
                math.half_of(w.d),
            ) * lane_sum(q4k_weights(w), q4k_factors(w), x.qs@, lane, 8) + value(
                q4k_lane_total(math, weight, inputs, rows, row, lane, n - 1),
            )
            &&& value(q4k_min_total(math, weight, inputs, rows, row, lane, n)) == (-dx) * value(
                math.half_of(w.dmin),
            ) * min_lane(w.scales@, x.bsums@, lane) + value(
                q4k_min_total(math, weight, inputs, rows, row, lane, n - 1),
            )
        }),
{
}

/// What the first `n` blocks of a row add to its lanes and its minimums' lanes.
proof fn lemma_q4k_blocks<T, A: Arithmetic<T>>(
    math: A,
    value: spec_fn(T) -> int,
    weight: Seq<Q4KBlock>,
    inputs: Seq<Q8KBlock>,
    rows: int,
    row: int,
    whole: spec_fn(int) -> int,
    n: int,
)
    requires
        is_exact(math, value),
        0 <= n,
        forall|b: int|
            0 <= b < n ==> #[trigger] whole(b) == value(
                math.single_of(inputs[b * rows + row].d),
            ) * value(math.half_of(weight[b].d)) * eight(
                q4k_weights(weight[b]),
                q4k_factors(weight[b]),
                inputs[b * rows + row].qs@,
            ) - value(math.single_of(inputs[b * rows + row].d)) * value(
                math.half_of(weight[b].dmin),
            ) * four(weight[b].scales@, inputs[b * rows + row].bsums@),
    ensures
        value(q4k_lane_total(math, weight, inputs, rows, row, 0, n)) + value(
            q4k_lane_total(math, weight, inputs, rows, row, 1, n),
        ) + value(q4k_lane_total(math, weight, inputs, rows, row, 2, n)) + value(
            q4k_lane_total(math, weight, inputs, rows, row, 3, n),
        ) + value(q4k_lane_total(math, weight, inputs, rows, row, 4, n)) + value(
            q4k_lane_total(math, weight, inputs, rows, row, 5, n),
        ) + value(q4k_lane_total(math, weight, inputs, rows, row, 6, n)) + value(
            q4k_lane_total(math, weight, inputs, rows, row, 7, n),
        ) + value(q4k_min_total(math, weight, inputs, rows, row, 0, n)) + value(
            q4k_min_total(math, weight, inputs, rows, row, 1, n),
        ) + value(q4k_min_total(math, weight, inputs, rows, row, 2, n)) + value(
            q4k_min_total(math, weight, inputs, rows, row, 3, n),
        ) == sum_to(whole, n),
    decreases n,
{
    if n > 0 {
        lemma_q4k_blocks(math, value, weight, inputs, rows, row, whole, n - 1);
        let b = n - 1;
        let w = weight[b];
        let x = inputs[b * rows + row];
        let dx = value(math.single_of(x.d));
        let d = dx * value(math.half_of(w.d));
        let dm = value(math.half_of(w.dmin));
        let q = q4k_weights(w);
        let f = q4k_factors(w);
        lemma_q4k_lane(math, value, weight, inputs, rows, row, 0, n);
        lemma_q4k_lane(math, value, weight, inputs, rows, row, 1, n);
        lemma_q4k_lane(math, value, weight, inputs, rows, row, 2, n);
        lemma_q4k_lane(math, value, weight, inputs, rows, row, 3, n);
        lemma_q4k_lane(math, value, weight, inputs, rows, row, 4, n);
        lemma_q4k_lane(math, value, weight, inputs, rows, row, 5, n);
        lemma_q4k_lane(math, value, weight, inputs, rows, row, 6, n);
        lemma_q4k_lane(math, value, weight, inputs, rows, row, 7, n);
        lemma_common_factor(
            d,
            lane_sum(q, f, x.qs@, 0, 8),
            lane_sum(q, f, x.qs@, 1, 8),
            lane_sum(q, f, x.qs@, 2, 8),
            lane_sum(q, f, x.qs@, 3, 8),
            lane_sum(q, f, x.qs@, 4, 8),
            lane_sum(q, f, x.qs@, 5, 8),
            lane_sum(q, f, x.qs@, 6, 8),
            lane_sum(q, f, x.qs@, 7, 8),
        );
        lemma_common_factor(
            (-dx) * dm,
            min_lane(w.scales@, x.bsums@, 0),
            min_lane(w.scales@, x.bsums@, 1),
            min_lane(w.scales@, x.bsums@, 2),
            min_lane(w.scales@, x.bsums@, 3),
            0,
            0,
            0,
            0,
        );
        let m = four(w.scales@, x.bsums@);
        assert((-dx) * dm * m == -(dx * dm * m)) by (nonlinear_arith);
        assert((-dx) * dm * 0 == 0) by (nonlinear_arith);
        assert(whole(b) == d * eight(q, f, x.qs@) - dx * dm * m);
    }
}

/// One place of a row, as what the format says it stands for: the activation is
/// its scale times its number; the weight is its block's scale times its
/// sub-block's scale times its four bits, less the block's least scale times the
/// sub-block's minimum. Of a byte of weights the low half stands 32 places before
/// the high half.
pub open spec fn q4k_term(dx: int, dw: int, dm: int, w: Q4KBlock, x: Q8KBlock, p: int) -> int {
    let sub = p / 32;
    let byte = w.qs@[p / 64 * 32 + p % 32] as int;
    let quant = if p / 32 % 2 == 0 {
        byte % 16
    } else {
        byte / 16
    };
    let scale = if sub < 4 {
        w.scales@[sub] as int % 64
    } else {
        w.scales@[sub + 4] as int % 16 + 16 * (w.scales@[sub - 4] as int / 64)
    };
    let minimum = if sub < 4 {
        w.scales@[sub + 4] as int % 64
    } else {
        w.scales@[sub + 4] as int / 16 + 16 * (w.scales@[sub] as int / 64)
    };
    (dx * x.qs@[p]) * (dw * (scale * quant) - dm * minimum)
}

/// A row of four-bit weights times a row of activations is, without rounding, the
/// sum of the products of what they stand for, over every block and every place:
/// `(x.d * x.q) * (w.d * scale * q - w.dmin * minimum)`.
pub proof fn four_bit_rows_multiply<T, A: Arithmetic<T>>(
    math: A,
    value: spec_fn(T) -> int,
    weight: Seq<Q4KBlock>,
    inputs: Seq<Q8KBlock>,
    rows: int,
    row: int,
)
    requires
        is_exact(math, value),
        forall|b: int| 0 <= b < weight.len() ==> sums_are_true(#[trigger] inputs[b * rows + row]),
    ensures
        value(q4k_dot(math, weight, inputs, rows, row)) == sum_to(
            |b: int|
                sum_to(
                    |p: int|
                        q4k_term(
                            value(math.single_of(inputs[b * rows + row].d)),
                            value(math.half_of(weight[b].d)),
                            value(math.half_of(weight[b].dmin)),
                            weight[b],
                            inputs[b * rows + row],
                            p,
                        ),
                    256,
                ),
            weight.len() as int,
        ),
{
    let whole = |b: int|
        sum_to(
            |p: int|
                q4k_term(
                    value(math.single_of(inputs[b * rows + row].d)),
                    value(math.half_of(weight[b].d)),
                    value(math.half_of(weight[b].dmin)),
                    weight[b],
                    inputs[b * rows + row],
                    p,
                ),
            256,
        );
    assert forall|b: int| 0 <= b < weight.len() implies #[trigger] whole(b) == value(
        math.single_of(inputs[b * rows + row].d),
    ) * value(math.half_of(weight[b].d)) * eight(
        q4k_weights(weight[b]),
        q4k_factors(weight[b]),
        inputs[b * rows + row].qs@,
    ) - value(math.single_of(inputs[b * rows + row].d)) * value(math.half_of(weight[b].dmin))
        * four(weight[b].scales@, inputs[b * rows + row].bsums@) by {
        lemma_q4k_block(
            value(math.single_of(inputs[b * rows + row].d)),
            value(math.half_of(weight[b].d)),
            value(math.half_of(weight[b].dmin)),
            weight[b],
            inputs[b * rows + row],
        );
    }
    lemma_q4k_blocks(math, value, weight, inputs, rows, row, whole, weight.len() as int);
}

/// One place of a row of six-bit weights, as what the format says it stands for:
/// the block's scale times the scale of its sixteen times six bits less 32, four
/// of them from one byte and two from another. Every half of a block has its own
/// 64 and 32 bytes; in it, places 64 and more take the high four bits, and every
/// 32 places take the next two bits of the other byte.
pub open spec fn q6k_term(dx: int, dw: int, w: Q6KBlock, x: Q8KBlock, p: int) -> int {
    let half = p / 128;
    let place = p % 128;
    let low = w.ql@[64 * half + place % 64] as int;
    let high = w.qh@[32 * half + place % 32] as int;
    let four_bits = if place < 64 {
        low % 16
    } else {
        low / 16
    };
    let two_bits = if place < 32 {
        high % 4
    } else if place < 64 {
        high / 4 % 4
    } else if place < 96 {
        high / 16 % 4
    } else {
        high / 64
    };
    (dx * x.qs@[p]) * (dw * (w.scales@[p / 16] * (four_bits + 16 * two_bits - 32)))
}

/// The places of a block add up to its lanes.
proof fn lemma_q6k_block(dx: int, dw: int, w: Q6KBlock, x: Q8KBlock)
    ensures
        sum_to(|p: int| q6k_term(dx, dw, w, x, p), 256) == dx * dw * eight(
            q6k_weights(w),
            q6k_factors(w),
            x.qs@,
        ),
{
    let q = q6k_weights(w);
    let f = q6k_factors(w);
    let least = |p: int| 0int;
    let terms = |p: int| q6k_term(dx, dw, w, x, p);
    assert forall|p: int| 0 <= p < 256 implies #[trigger] terms(p) == (dx * x.qs@[p]) * (dw * (f[p
        / 16] * q[p]) - 0 * least(p)) by {
        let half = p / 128;
        let place = p % 128;
        let group = place / 32;
        assert(64 * half + place % 64 == half * 64 + (group % 2) * 32 + p % 32);
        assert(32 * half + place % 32 == half * 32 + p % 32);
        assert(f[p / 16] == w.scales@[p / 16]);
    }
    lemma_scaled_sum(dx, dw, 0, q, f, x.qs@, least, terms, 256);
    let lows = sum_to(|p: int| least(p) * x.qs@[p], 256);
    assert(dx * 0 * lows == 0) by (nonlinear_arith);
    lemma_eight(q, f, x.qs@);
}

/// What the first `n` blocks of a row add to its lanes.
proof fn lemma_q6k_blocks<T, A: Arithmetic<T>>(
    math: A,
    value: spec_fn(T) -> int,
    weight: Seq<Q6KBlock>,
    inputs: Seq<Q8KBlock>,
    rows: int,
    row: int,
    whole: spec_fn(int) -> int,
    n: int,
)
    requires
        is_exact(math, value),
        0 <= n,
        forall|b: int|
            0 <= b < n ==> #[trigger] whole(b) == value(
                math.single_of(inputs[b * rows + row].d),
            ) * value(math.half_of(weight[b].d)) * eight(
                q6k_weights(weight[b]),
                q6k_factors(weight[b]),
                inputs[b * rows + row].qs@,
            ),
    ensures
        value(q6k_lane_total(math, weight, inputs, rows, row, 0, n)) + value(
            q6k_lane_total(math, weight, inputs, rows, row, 1, n),
        ) + value(q6k_lane_total(math, weight, inputs, rows, row, 2, n)) + value(
            q6k_lane_total(math, weight, inputs, rows, row, 3, n),
        ) + value(q6k_lane_total(math, weight, inputs, rows, row, 4, n)) + value(
            q6k_lane_total(math, weight, inputs, rows, row, 5, n),
        ) + value(q6k_lane_total(math, weight, inputs, rows, row, 6, n)) + value(
            q6k_lane_total(math, weight, inputs, rows, row, 7, n),
        ) == sum_to(whole, n),
    decreases n,
{
    if n > 0 {
        lemma_q6k_blocks(math, value, weight, inputs, rows, row, whole, n - 1);
        let b = n - 1;
        let w = weight[b];
        let x = inputs[b * rows + row];
        let q = q6k_weights(w);
        let f = q6k_factors(w);
        lemma_common_factor(
            value(math.single_of(x.d)) * value(math.half_of(w.d)),
            lane_sum(q, f, x.qs@, 0, 8),
            lane_sum(q, f, x.qs@, 1, 8),
            lane_sum(q, f, x.qs@, 2, 8),
            lane_sum(q, f, x.qs@, 3, 8),
            lane_sum(q, f, x.qs@, 4, 8),
            lane_sum(q, f, x.qs@, 5, 8),
            lane_sum(q, f, x.qs@, 6, 8),
            lane_sum(q, f, x.qs@, 7, 8),
        );
        assert(whole(b) == value(math.single_of(x.d)) * value(math.half_of(w.d)) * eight(
            q,
            f,
            x.qs@,
        ));
    }
}

/// A row of six-bit weights times a row of activations is, without rounding, the
/// sum of the products of what they stand for, over every block and every place.
pub proof fn six_bit_rows_multiply<T, A: Arithmetic<T>>(
    math: A,
    value: spec_fn(T) -> int,
    weight: Seq<Q6KBlock>,
    inputs: Seq<Q8KBlock>,
    rows: int,
    row: int,
)
    requires
        is_exact(math, value),
    ensures
        value(q6k_dot(math, weight, inputs, rows, row)) == sum_to(
            |b: int|
                sum_to(
                    |p: int|
                        q6k_term(
                            value(math.single_of(inputs[b * rows + row].d)),
                            value(math.half_of(weight[b].d)),
                            weight[b],
                            inputs[b * rows + row],
                            p,
                        ),
                    256,
                ),
            weight.len() as int,
        ),
{
    let whole = |b: int|
        sum_to(
            |p: int|
                q6k_term(
                    value(math.single_of(inputs[b * rows + row].d)),
                    value(math.half_of(weight[b].d)),
                    weight[b],
                    inputs[b * rows + row],
                    p,
                ),
            256,
        );
    assert forall|b: int| 0 <= b < weight.len() implies #[trigger] whole(b) == value(
        math.single_of(inputs[b * rows + row].d),
    ) * value(math.half_of(weight[b].d)) * eight(
        q6k_weights(weight[b]),
        q6k_factors(weight[b]),
        inputs[b * rows + row].qs@,
    ) by {
        lemma_q6k_block(
            value(math.single_of(inputs[b * rows + row].d)),
            value(math.half_of(weight[b].d)),
            weight[b],
            inputs[b * rows + row],
        );
    }
    lemma_q6k_blocks(math, value, weight, inputs, rows, row, whole, weight.len() as int);
}

/// The places of a lane of a block of signed weights.
proof fn lemma_q80_lane(dw: int, dx: int, w: Q80Block, x: Q80Block, lane: int)
    requires
        0 <= lane < 8,
        forall|p: int| 0 <= p < 32 ==> (#[trigger] x.qs@[p]) != i8::MIN || w.qs@[p] >= 0,
    ensures
        sum_to(|p: int| (dx * x.qs@[p]) * (dw * w.qs@[p]), 4 * lane + 4) == sum_to(
            |p: int| (dx * x.qs@[p]) * (dw * w.qs@[p]),
            4 * lane,
        ) + dw * dx * q80_lane(w.qs@, x.qs@, lane),
{
    let terms = |p: int| (dx * x.qs@[p]) * (dw * w.qs@[p]);
    let at = 4 * lane;
    assert forall|p: int| 0 <= p < 32 implies #[trigger] terms(p) == dw * dx * signed_product(
        w.qs@[p],
        x.qs@[p],
    ) by {
        assert(x.qs@[p] != i8::MIN || w.qs@[p] >= 0);
        signed_products_are_products(w.qs@[p], x.qs@[p]);
        let a = x.qs@[p] as int;
        let b = w.qs@[p] as int;
        assert((dx * a) * (dw * b) == dw * dx * (b * a)) by (nonlinear_arith);
    }
    reveal_with_fuel(sum_to, 5);
    assert(terms(at) == dw * dx * signed_product(w.qs@[at], x.qs@[at]));
    assert(terms(at + 1) == dw * dx * signed_product(w.qs@[at + 1], x.qs@[at + 1]));
    assert(terms(at + 2) == dw * dx * signed_product(w.qs@[at + 2], x.qs@[at + 2]));
    assert(terms(at + 3) == dw * dx * signed_product(w.qs@[at + 3], x.qs@[at + 3]));
    lemma_common_factor(
        dw * dx,
        signed_product(w.qs@[at], x.qs@[at]),
        signed_product(w.qs@[at + 1], x.qs@[at + 1]),
        signed_product(w.qs@[at + 2], x.qs@[at + 2]),
        signed_product(w.qs@[at + 3], x.qs@[at + 3]),
        0,
        0,
        0,
        0,
    );
    assert(dw * dx * 0 == 0) by (nonlinear_arith);
}

/// The eight lanes of a block of signed weights, added up.
spec fn eight_signed(w: Q80Block, x: Q80Block) -> int {
    q80_lane(w.qs@, x.qs@, 0) + q80_lane(w.qs@, x.qs@, 1) + q80_lane(w.qs@, x.qs@, 2) + q80_lane(
        w.qs@,
        x.qs@,
        3,
    ) + q80_lane(w.qs@, x.qs@, 4) + q80_lane(w.qs@, x.qs@, 5) + q80_lane(w.qs@, x.qs@, 6)
        + q80_lane(w.qs@, x.qs@, 7)
}

/// The places of a block add up to its lanes.
proof fn lemma_q80_block(dw: int, dx: int, w: Q80Block, x: Q80Block)
    requires
        forall|p: int| 0 <= p < 32 ==> (#[trigger] x.qs@[p]) != i8::MIN || w.qs@[p] >= 0,
    ensures
        sum_to(|p: int| (dx * x.qs@[p]) * (dw * w.qs@[p]), 32) == dw * dx * eight_signed(w, x),
{
    lemma_q80_lane(dw, dx, w, x, 0);
    lemma_q80_lane(dw, dx, w, x, 1);
    lemma_q80_lane(dw, dx, w, x, 2);
    lemma_q80_lane(dw, dx, w, x, 3);
    lemma_q80_lane(dw, dx, w, x, 4);
    lemma_q80_lane(dw, dx, w, x, 5);
    lemma_q80_lane(dw, dx, w, x, 6);
    lemma_q80_lane(dw, dx, w, x, 7);
    lemma_common_factor(
        dw * dx,
        q80_lane(w.qs@, x.qs@, 0),
        q80_lane(w.qs@, x.qs@, 1),
        q80_lane(w.qs@, x.qs@, 2),
        q80_lane(w.qs@, x.qs@, 3),
        q80_lane(w.qs@, x.qs@, 4),
        q80_lane(w.qs@, x.qs@, 5),
        q80_lane(w.qs@, x.qs@, 6),
        q80_lane(w.qs@, x.qs@, 7),
    );
}

/// What the first `n` blocks of a row add to its lanes.
proof fn lemma_q80_blocks<T, A: Arithmetic<T>>(
    math: A,
    value: spec_fn(T) -> int,
    weight: Seq<Q80Block>,
    inputs: Seq<Q80Block>,
    rows: int,
    row: int,
    whole: spec_fn(int) -> int,
    n: int,
)
    requires
        is_exact(math, value),
        0 <= n,
        forall|b: int|
            0 <= b < n ==> #[trigger] whole(b) == value(math.half_of(weight[b].d)) * value(
                math.half_of(inputs[b * rows + row].d),
            ) * eight_signed(weight[b], inputs[b * rows + row]),
    ensures
        value(q80_lane_total(math, weight, inputs, rows, row, 0, n)) + value(
            q80_lane_total(math, weight, inputs, rows, row, 1, n),
        ) + value(q80_lane_total(math, weight, inputs, rows, row, 2, n)) + value(
            q80_lane_total(math, weight, inputs, rows, row, 3, n),
        ) + value(q80_lane_total(math, weight, inputs, rows, row, 4, n)) + value(
            q80_lane_total(math, weight, inputs, rows, row, 5, n),
        ) + value(q80_lane_total(math, weight, inputs, rows, row, 6, n)) + value(
            q80_lane_total(math, weight, inputs, rows, row, 7, n),
        ) == sum_to(whole, n),
    decreases n,
{
    if n > 0 {
        lemma_q80_blocks(math, value, weight, inputs, rows, row, whole, n - 1);
        let b = n - 1;
        let w = weight[b];
        let x = inputs[b * rows + row];
        lemma_common_factor(
            value(math.half_of(w.d)) * value(math.half_of(x.d)),
            q80_lane(w.qs@, x.qs@, 0),
            q80_lane(w.qs@, x.qs@, 1),
            q80_lane(w.qs@, x.qs@, 2),
            q80_lane(w.qs@, x.qs@, 3),
            q80_lane(w.qs@, x.qs@, 4),
            q80_lane(w.qs@, x.qs@, 5),
            q80_lane(w.qs@, x.qs@, 6),
            q80_lane(w.qs@, x.qs@, 7),
        );
        assert(whole(b) == value(math.half_of(w.d)) * value(math.half_of(x.d)) * eight_signed(
            w,
            x,
        ));
    }
}

/// A row of signed weights times a row of activations is, without rounding, the
/// sum of the products of what they stand for: `(x.d * x.q) * (w.d * w.q)`. An
/// activation that has no opposite may not stand under a negative weight.
pub proof fn eight_bit_rows_multiply<T, A: Arithmetic<T>>(
    math: A,
    value: spec_fn(T) -> int,
    weight: Seq<Q80Block>,
    inputs: Seq<Q80Block>,
    rows: int,
    row: int,
)
    requires
        is_exact(math, value),
        forall|b: int, p: int|
            #![trigger inputs[b * rows + row].qs@[p]]
            0 <= b < weight.len() && 0 <= p < 32 ==> inputs[b * rows + row].qs@[p] != i8::MIN
                || weight[b].qs@[p] >= 0,
    ensures
        value(q80_dot(math, weight, inputs, rows, row)) == sum_to(
            |b: int|
                sum_to(
                    |p: int|
                        (value(math.half_of(inputs[b * rows + row].d)) * inputs[b * rows
                            + row].qs@[p]) * (value(math.half_of(weight[b].d)) * weight[b].qs@[p]),
                    32,
                ),
            weight.len() as int,
        ),
{
    let whole = |b: int|
        sum_to(
            |p: int|
                (value(math.half_of(inputs[b * rows + row].d)) * inputs[b * rows + row].qs@[p]) * (
                value(math.half_of(weight[b].d)) * weight[b].qs@[p]),
            32,
        );
    assert forall|b: int| 0 <= b < weight.len() implies #[trigger] whole(b) == value(
        math.half_of(weight[b].d),
    ) * value(math.half_of(inputs[b * rows + row].d)) * eight_signed(
        weight[b],
        inputs[b * rows + row],
    ) by {
        let w = weight[b];
        let x = inputs[b * rows + row];
        let dw = value(math.half_of(w.d));
        let dx = value(math.half_of(x.d));
        lemma_q80_block(dw, dx, w, x);
        lemma_sums_agree(
            |p: int|
                (value(math.half_of(inputs[b * rows + row].d)) * inputs[b * rows + row].qs@[p]) * (
                value(math.half_of(weight[b].d)) * weight[b].qs@[p]),
            |p: int| (dx * x.qs@[p]) * (dw * w.qs@[p]),
            32,
        );
    }
    lemma_q80_blocks(math, value, weight, inputs, rows, row, whole, weight.len() as int);
}

/// A scale of two bytes is stored with its lowest byte first, and a signed byte is
/// the number between -128 and 127 that it is equal to up to a multiple of 256.
pub proof fn bytes_stand_for_numbers(bytes: Seq<u8>, at: int)
    ensures
        short(bytes, at) % 256 == bytes[at],
        short(bytes, at) / 256 == bytes[at + 1],
        -128 <= signed(bytes[at]) <= 127,
        signed(bytes[at]) % 256 == bytes[at],
{
}

} // verus!
