//! What one row of linear attention computes, written out in the numbers that go
//! into it: the causal convolution, the decay and the strength of a head, and the
//! gated delta rule.

use super::attention::squares_of;
use super::delta::{
    conv_sum, convolved_of, correction, decayed, head_output, head_slice, head_state, predicted,
    read_of, softplus_of, step_of, stepped_output, stepped_state, unit_of, BetaAlphaLayout,
    HeadStep, ValueHeadLayout,
};
use super::delta_layer::{
    after_row, after_rows, betas_of, decays_of, key_part, keyed_of, query_part, row_output,
    rows_output, spread_of, trailing_gates, units_of, value_part, DeltaWeights, QuantizedDeltaLayer,
};
use super::delta_state::RecurrenceView;
use super::scan::lemma_cell;
use crate::arithmetic::Arithmetic;
use crate::sums::running_total;
use vstd::prelude::*;

verus! {

/// One over one plus the exponential of the opposite.
pub open spec fn logistic<T, A: Arithmetic<T>>(math: A, v: T) -> T {
    math.quotient(math.one_of(), math.sum(math.one_of(), math.exponential(math.negative(v))))
}

/// Whether `c` is a row after the causal convolution: each channel's newest input
/// and its history, oldest first, each under its own weight, added up and times
/// their logistic function. A channel's last weight is that of the newest input.
pub open spec fn is_filtered<T, A: Arithmetic<T>>(
    math: A,
    c: Seq<T>,
    input: Seq<T>,
    weights: Seq<T>,
    kernel: int,
    history: Seq<T>,
) -> bool {
    &&& c.len() == input.len()
    &&& forall|channel: int|
        0 <= channel < c.len() ==> #[trigger] c[channel] == ({
            let total = running_total(
                math,
                math.product(weights[channel * kernel + kernel - 1], input[channel]),
                Seq::new(
                    (kernel - 1) as nat,
                    |t: int|
                        math.product(
                            weights[channel * kernel + t],
                            history[channel * (kernel - 1) + t],
                        ),
                ),
            );
            math.product(total, logistic(math, total))
        })
}

/// Whether `u` is `x` brought to a length of about one.
pub open spec fn is_unit<T, A: Arithmetic<T>>(math: A, u: Seq<T>, x: Seq<T>) -> bool {
    &&& u.len() == x.len()
    &&& forall|i: int|
        0 <= i < x.len() ==> #[trigger] u[i] == math.product(
            x[i],
            math.inverse(
                math.root(
                    math.sum(
                        running_total(
                            math,
                            math.empty_of(),
                            Seq::new(x.len(), |j: int| math.product(x[j], x[j])),
                        ),
                        math.quotient(math.one_of(), math.count_of(1_000_000)),
                    ),
                ),
            ),
        )
}

/// Whether `g` is what a head's state decays by, as the logarithm of a factor: the
/// head's own scale times the softplus of its own input and its own time bias.
/// The softplus is the logarithm of one plus the exponential; far above zero the
/// number itself, and far below the exponential.
pub open spec fn is_decay<T, A: Arithmetic<T>>(
    math: A,
    g: T,
    state_scale: T,
    alpha: T,
    dt_bias: T,
) -> bool {
    let v = math.sum(alpha, dt_bias);
    &&& math.is_above(v, math.count_of(20)) ==> g == math.product(state_scale, v)
    &&& !math.is_above(v, math.count_of(20)) && math.is_above(math.negative(math.count_of(20)), v)
        ==> g == math.product(state_scale, math.exponential(v))
    &&& !math.is_above(v, math.count_of(20)) && !math.is_above(
        math.negative(math.count_of(20)),
        v,
    ) ==> g == math.product(state_scale, math.log_plus_one(math.exponential(v)))
}

/// The key head that a value head belongs to, and which of its value heads it is:
/// they follow each other by key heads, or by repeats.
pub open spec fn owner(layer: QuantizedDeltaLayer, head: int) -> (int, int) {
    let keys = layer.geometry.key_heads as int;
    let each = layer.geometry.value_heads as int / keys;
    match layer.value_layout {
        ValueHeadLayout::GroupedByKeyHead => (head / each, head % each),
        ValueHeadLayout::TiledByRepeat => (head % keys, head / keys),
    }
}

/// Where a value head's beta and alpha stand in a projected row: by key heads,
/// the betas of one before its alphas; or all betas before all alphas.
pub open spec fn parameter_places(layer: QuantizedDeltaLayer, head: int) -> (int, int) {
    let each = layer.geometry.value_heads as int / layer.geometry.key_heads as int;
    let (key_head, repeat) = owner(layer, head);
    match layer.beta_alpha_layout {
        BetaAlphaLayout::InterleavedByKeyHead => (
            key_head * (2 * each) + repeat,
            key_head * (2 * each) + each + repeat,
        ),
        BetaAlphaLayout::GroupedByProjection => (head, layer.geometry.value_heads + head),
    }
}

proof fn lemma_conv<T, A: Arithmetic<T>>(
    math: A,
    input: Seq<T>,
    weights: Seq<T>,
    kernel: int,
    history: Seq<T>,
    channel: int,
    terms: Seq<T>,
)
    requires
        forall|t: int|
            0 <= t < terms.len() ==> #[trigger] terms[t] == math.product(
                weights[channel * kernel + t],
                history[channel * (kernel - 1) + t],
            ),
    ensures
        conv_sum(math, input, weights, kernel, history, channel, terms.len() as int)
            == running_total(
            math,
            math.product(weights[channel * kernel + kernel - 1], input[channel]),
            terms,
        ),
    decreases terms.len(),
{
    assert(channel * kernel + (kernel - 1) == channel * kernel + kernel - 1);
    if terms.len() > 0 {
        let fewer = terms.drop_last();
        assert forall|t: int| 0 <= t < fewer.len() implies #[trigger] fewer[t] == math.product(
            weights[channel * kernel + t],
            history[channel * (kernel - 1) + t],
        ) by {
            assert(fewer[t] == terms[t]);
        }
        lemma_conv(math, input, weights, kernel, history, channel, fewer);
        assert(terms.last() == terms[terms.len() - 1]);
    }
}

proof fn lemma_filtered<T, A: Arithmetic<T>>(
    math: A,
    c: Seq<T>,
    input: Seq<T>,
    weights: Seq<T>,
    kernel: int,
    history: Seq<T>,
)
    requires
        kernel >= 1,
        is_filtered(math, c, input, weights, kernel, history),
    ensures
        c == convolved_of(math, input, weights, kernel, history),
{
    assert forall|channel: int| 0 <= channel < c.len() implies #[trigger] c[channel]
        == convolved_of(math, input, weights, kernel, history)[channel] by {
        lemma_conv(
            math,
            input,
            weights,
            kernel,
            history,
            channel,
            Seq::new(
                (kernel - 1) as nat,
                |t: int|
                    math.product(
                        weights[channel * kernel + t],
                        history[channel * (kernel - 1) + t],
                    ),
            ),
        );
    }
    assert(c =~= convolved_of(math, input, weights, kernel, history));
}

proof fn lemma_squares<T, A: Arithmetic<T>>(math: A, v: Seq<T>, terms: Seq<T>)
    requires
        terms.len() <= v.len(),
        forall|i: int| 0 <= i < terms.len() ==> #[trigger] terms[i] == math.product(v[i], v[i]),
    ensures
        squares_of(math, v, terms.len() as int) == running_total(math, math.empty_of(), terms),
    decreases terms.len(),
{
    if terms.len() > 0 {
        let fewer = terms.drop_last();
        assert forall|i: int| 0 <= i < fewer.len() implies #[trigger] fewer[i] == math.product(
            v[i],
            v[i],
        ) by {
            assert(fewer[i] == terms[i]);
        }
        lemma_squares(math, v, fewer);
        assert(terms.last() == terms[terms.len() - 1]);
    }
}

proof fn lemma_unit<T, A: Arithmetic<T>>(math: A, u: Seq<T>, x: Seq<T>)
    requires
        is_unit(math, u, x),
    ensures
        u == unit_of(math, x),
{
    lemma_squares(math, x, Seq::new(x.len(), |j: int| math.product(x[j], x[j])));
    assert(u =~= unit_of(math, x));
}

proof fn lemma_slice_inside(heads: int, head: int, width: int)
    requires
        0 <= head < heads,
        0 <= width,
    ensures
        0 <= head * width,
        head * width + width <= heads * width,
        (heads - 1) * width + width == heads * width,
        head < heads - 1 ==> head * width + width <= (heads - 1) * width,
{
    assert(0 <= head * width && head * width + width <= heads * width && (heads - 1) * width + width
        == heads * width && (head < heads - 1 ==> head * width + width <= (heads - 1) * width))
        by (nonlinear_arith)
        requires
            0 <= head < heads,
            0 <= width,
    ;
}

proof fn lemma_units<T, A: Arithmetic<T>>(math: A, row: Seq<T>, dim: int, n: int, head: int)
    requires
        0 <= head < n,
        0 <= dim,
        n * dim <= row.len(),
    ensures
        units_of(math, row, dim, n).len() == n * dim,
        head_slice(units_of(math, row, dim, n), head, dim) == unit_of(
            math,
            head_slice(row, head, dim),
        ),
    decreases n,
{
    lemma_slice_inside(n, head, dim);
    lemma_slice_inside(n, n - 1, dim);
    let fewer = units_of(math, row, dim, n - 1);
    let own = unit_of(math, head_slice(row, n - 1, dim));
    if n > 1 {
        lemma_units(math, row, dim, n - 1, if head < n - 1 { head } else { 0 });
    } else {
        assert((n - 1) * dim == 0) by (nonlinear_arith)
            requires
                n == 1,
        ;
    }
    assert(fewer.len() == (n - 1) * dim);
    if head < n - 1 {
        assert(head_slice(units_of(math, row, dim, n), head, dim) =~= head_slice(fewer, head, dim));
    } else {
        assert(head_slice(units_of(math, row, dim, n), head, dim) =~= own);
    }
}

proof fn lemma_spread<T>(layer: QuantizedDeltaLayer, units: Seq<T>, n: int, head: int)
    requires
        0 <= head < n,
        units.len() == layer.geometry.key_heads * layer.geometry.key_head_dim,
        forall|h: int|
            0 <= h < n ==> 0 <= #[trigger] layer.key_head(h) < layer.geometry.key_heads,
    ensures
        spread_of(layer, units, n).len() == n * layer.geometry.key_head_dim,
        head_slice(spread_of(layer, units, n), head, layer.geometry.key_head_dim as int)
            == head_slice(units, layer.key_head(head), layer.geometry.key_head_dim as int),
    decreases n,
{
    let dim = layer.geometry.key_head_dim as int;
    lemma_slice_inside(n, head, dim);
    lemma_slice_inside(n, n - 1, dim);
    lemma_slice_inside(layer.geometry.key_heads as int, layer.key_head(n - 1), dim);
    let fewer = spread_of(layer, units, n - 1);
    let own = head_slice(units, layer.key_head(n - 1), dim);
    if n > 1 {
        lemma_spread(layer, units, n - 1, if head < n - 1 { head } else { 0 });
    } else {
        assert((n - 1) * dim == 0) by (nonlinear_arith)
            requires
                n == 1,
        ;
    }
    assert(fewer.len() == (n - 1) * dim);
    if head < n - 1 {
        assert(head_slice(spread_of(layer, units, n), head, dim) =~= head_slice(fewer, head, dim));
    } else {
        assert(head_slice(spread_of(layer, units, n), head, dim) =~= own);
    }
}

proof fn lemma_stepped<T, A: Arithmetic<T>>(
    math: A,
    q: Seq<T>,
    k: Seq<T>,
    v: Seq<T>,
    g: Seq<T>,
    beta: Seq<T>,
    key_dim: int,
    value_dim: int,
    state: Seq<T>,
    heads: int,
    head: int,
)
    requires
        0 <= head < heads,
        0 <= key_dim,
        0 <= value_dim,
        heads * (key_dim * value_dim) <= state.len(),
        heads * value_dim <= v.len(),
    ensures
        ({
            let block = key_dim * value_dim;
            let states = stepped_state(math, q, k, v, g, beta, key_dim, value_dim, state, heads);
            let outs = stepped_output(math, q, k, v, g, beta, key_dim, value_dim, state, heads);
            let step = step_of(math, q, k, v, g, beta, key_dim, value_dim, head);
            &&& states.len() == heads * block
            &&& outs.len() == heads * value_dim
            &&& head_slice(states, head, block) == head_state(
                math,
                head_slice(state, head, block),
                step,
            )
            &&& head_slice(outs, head, value_dim) == head_output(
                math,
                head_slice(state, head, block),
                step,
            )
        }),
    decreases heads,
{
    let block = key_dim * value_dim;
    assert(0 <= block) by (nonlinear_arith)
        requires
            block == key_dim * value_dim,
            0 <= key_dim,
            0 <= value_dim,
    ;
    lemma_slice_inside(heads, head, block);
    lemma_slice_inside(heads, heads - 1, block);
    lemma_slice_inside(heads, head, value_dim);
    lemma_slice_inside(heads, heads - 1, value_dim);
    if heads > 1 {
        lemma_stepped(
            math,
            q,
            k,
            v,
            g,
            beta,
            key_dim,
            value_dim,
            state,
            heads - 1,
            if head < heads - 1 {
                head
            } else {
                0
            },
        );
    } else {
        assert((heads - 1) * block == 0 && (heads - 1) * value_dim == 0) by (nonlinear_arith)
            requires
                heads == 1,
        ;
    }
    let fewer = stepped_state(math, q, k, v, g, beta, key_dim, value_dim, state, heads - 1);
    let fewer_out = stepped_output(math, q, k, v, g, beta, key_dim, value_dim, state, heads - 1);
    let states = stepped_state(math, q, k, v, g, beta, key_dim, value_dim, state, heads);
    let outs = stepped_output(math, q, k, v, g, beta, key_dim, value_dim, state, heads);
    let last = step_of(math, q, k, v, g, beta, key_dim, value_dim, heads - 1);
    let own = head_state(math, head_slice(state, heads - 1, block), last);
    let own_out = head_output(math, head_slice(state, heads - 1, block), last);
    assert(fewer.len() == (heads - 1) * block);
    assert(fewer_out.len() == (heads - 1) * value_dim);
    if head < heads - 1 {
        assert(head_slice(states, head, block) =~= head_slice(fewer, head, block));
        assert(head_slice(outs, head, value_dim) =~= head_slice(fewer_out, head, value_dim));
    } else {
        assert(head_slice(states, head, block) =~= own);
        assert(head_slice(outs, head, value_dim) =~= own_out);
    }
}

proof fn lemma_predicted<T, A: Arithmetic<T>>(
    math: A,
    state: Seq<T>,
    k: Seq<T>,
    width: int,
    column: int,
    terms: Seq<T>,
)
    requires
        forall|i: int|
            0 <= i < terms.len() ==> #[trigger] terms[i] == math.product(
                state[i * width + column],
                k[i],
            ),
    ensures
        predicted(math, state, k, width, column, terms.len() as int) == running_total(
            math,
            math.zero_of(),
            terms,
        ),
    decreases terms.len(),
{
    if terms.len() > 0 {
        let fewer = terms.drop_last();
        assert forall|i: int| 0 <= i < fewer.len() implies #[trigger] fewer[i] == math.product(
            state[i * width + column],
            k[i],
        ) by {
            assert(fewer[i] == terms[i]);
        }
        lemma_predicted(math, state, k, width, column, fewer);
        assert(terms.last() == terms[terms.len() - 1]);
    }
}

proof fn lemma_read<T, A: Arithmetic<T>>(
    math: A,
    state: Seq<T>,
    q: Seq<T>,
    q_scale: T,
    width: int,
    column: int,
    terms: Seq<T>,
)
    requires
        forall|i: int|
            0 <= i < terms.len() ==> #[trigger] terms[i] == math.product(
                math.product(state[i * width + column], q[i]),
                q_scale,
            ),
    ensures
        read_of(math, state, q, q_scale, width, column, terms.len() as int) == running_total(
            math,
            math.zero_of(),
            terms,
        ),
    decreases terms.len(),
{
    if terms.len() > 0 {
        let fewer = terms.drop_last();
        assert forall|i: int| 0 <= i < fewer.len() implies #[trigger] fewer[i] == math.product(
            math.product(state[i * width + column], q[i]),
            q_scale,
        ) by {
            assert(fewer[i] == terms[i]);
        }
        lemma_read(math, state, q, q_scale, width, column, fewer);
        assert(terms.last() == terms[terms.len() - 1]);
    }
}

/// The column of a head's state, before and after a step, and what is read of it.
proof fn lemma_head<T, A: Arithmetic<T>>(
    math: A,
    state: Seq<T>,
    step: HeadStep<T>,
    j: int,
    d: Seq<T>,
    e: T,
)
    requires
        0 <= j < step.v.len(),
        step.q.len() == step.k.len(),
        state.len() == step.k.len() * step.v.len(),
        d.len() == step.k.len(),
        forall|i: int|
            0 <= i < d.len() ==> #[trigger] d[i] == math.product(
                state[i * step.v.len() + j],
                math.exponential(step.g),
            ),
        e == math.product(
            math.difference(
                step.v[j],
                running_total(
                    math,
                    math.zero_of(),
                    Seq::new(d.len(), |i: int| math.product(d[i], step.k[i])),
                ),
            ),
            step.beta,
        ),
    ensures
        forall|i: int|
            0 <= i < d.len() ==> head_state(math, state, step)[#[trigger] (i * step.v.len() + j)]
                == math.sum(d[i], math.product(step.k[i], e)),
        head_output(math, state, step)[j] == running_total(
            math,
            math.zero_of(),
            Seq::new(
                d.len(),
                |i: int|
                    math.product(
                        math.product(
                            head_state(math, state, step)[i * step.v.len() + j],
                            step.q[i],
                        ),
                        step.q_scale,
                    ),
            ),
        ),
{
    let width = step.v.len() as int;
    let kd = step.k.len() as int;
    let after = head_state(math, state, step);
    let all = decayed(math, state, step.g);
    let terms = Seq::new(d.len(), |i: int| math.product(d[i], step.k[i]));
    assert forall|i: int| 0 <= i < kd implies 0 <= #[trigger] (i * width) && i * width + width
        <= state.len() by {
        lemma_slice_inside(kd, i, width);
    }
    assert forall|i: int| 0 <= i < terms.len() implies #[trigger] terms[i] == math.product(
        all[i * width + j],
        step.k[i],
    ) by {
        assert(0 <= i * width && i * width + width <= state.len());
        assert(all[i * width + j] == d[i]);
    }
    lemma_predicted(math, all, step.k, width, j, terms);
    assert(correction(math, all, step, j) == e);
    assert forall|i: int| 0 <= i < d.len() implies after[#[trigger] (i * step.v.len() + j)]
        == math.sum(d[i], math.product(step.k[i], e)) by {
        assert(0 <= i * width && i * width + width <= state.len());
        lemma_cell(i, width, j);
        assert(all[i * width + j] == d[i]);
    }
    let reads = Seq::new(
        d.len(),
        |i: int| math.product(math.product(after[i * step.v.len() + j], step.q[i]), step.q_scale),
    );
    lemma_read(math, after, step.q, step.q_scale, width, j, reads);
}

/// The key head and the place among its value heads that a layer gives a value
/// head, and where its beta and alpha stand.
proof fn lemma_owner(layer: QuantizedDeltaLayer, head: int)
    requires
        layer.wf(),
        0 <= head < layer.geometry.value_heads,
    ensures
        owner(layer, head).0 == layer.key_head(head),
        0 <= layer.key_head(head) < layer.geometry.key_heads,
        parameter_places(layer, head) == (layer.beta_place(head), layer.alpha_place(head)),
{
    let keys = layer.geometry.key_heads as int;
    let values = layer.geometry.value_heads as int;
    let each = values / keys;
    vstd::arithmetic::div_mod::lemma_fundamental_div_mod(values, keys);
    assert(each > 0) by (nonlinear_arith)
        requires
            values == keys * each,
            values > 0,
            keys > 0,
    ;
    super::delta::value_heads_are_numbered_one_for_one(
        layer.value_layout,
        0,
        0,
        head,
        keys,
        each,
    );
    let key_head = layer.key_head(head);
    assert(key_head * (2 * each) == key_head * 2 * each) by (nonlinear_arith);
}

/// What a value head takes of a row of queries or keys is the unit of its key
/// head's part.
proof fn lemma_keyed<T, A: Arithmetic<T>>(
    math: A,
    layer: QuantizedDeltaLayer,
    row: Seq<T>,
    head: int,
    u: Seq<T>,
)
    requires
        layer.wf(),
        0 <= head < layer.geometry.value_heads,
        row.len() == layer.geometry.key_width(),
        is_unit(
            math,
            u,
            row.subrange(
                owner(layer, head).0 * layer.geometry.key_head_dim,
                owner(layer, head).0 * layer.geometry.key_head_dim + layer.geometry.key_head_dim,
            ),
        ),
    ensures
        head_slice(keyed_of(math, layer, row), head, layer.geometry.key_head_dim as int) == u,
{
    let g = layer.geometry;
    let dim = g.key_head_dim as int;
    let keys = g.key_heads as int;
    lemma_owner(layer, head);
    assert forall|h: int| 0 <= h < g.value_heads implies 0 <= #[trigger] layer.key_head(h)
        < g.key_heads by {
        lemma_owner(layer, h);
    }
    let at = layer.key_head(head);
    lemma_units(math, row, dim, keys, at);
    lemma_spread(layer, units_of(math, row, dim, keys), g.value_heads as int, head);
    lemma_unit(math, u, head_slice(row, at, dim));
}

/// The gated delta rule. For every value head, column by column: the state decays
/// by the head's own decay; what the decayed state holds for the key is taken from
/// the value, and the difference, at the head's own strength, is written back
/// under the key; the output is what the query then reads. Queries and keys are
/// those of the head's key head after the convolution, each brought to a length
/// of about one; the value is the head's own.
pub proof fn a_row_applies_the_gated_delta_rule<T, A: Arithmetic<T>>(
    math: A,
    layer: QuantizedDeltaLayer,
    weights: DeltaWeights<T>,
    input: Seq<T>,
    parameters: Seq<T>,
    before: RecurrenceView<T>,
    head: int,
    j: int,
    c: Seq<T>,
    q: Seq<T>,
    k: Seq<T>,
    g: T,
    d: Seq<T>,
    e: T,
)
    requires
        layer.wf(),
        0 <= head < layer.geometry.value_heads,
        0 <= j < layer.geometry.value_head_dim,
        input.len() == layer.geometry.conv_width(),
        before.recurrent.len() == layer.geometry.recurrent_state_len(),
        is_filtered(
            math,
            c,
            input,
            weights.conv_weight@,
            layer.geometry.conv_kernel as int,
            before.conv,
        ),
        is_unit(
            math,
            q,
            c.subrange(
                owner(layer, head).0 * layer.geometry.key_head_dim,
                owner(layer, head).0 * layer.geometry.key_head_dim + layer.geometry.key_head_dim,
            ),
        ),
        is_unit(
            math,
            k,
            c.subrange(
                layer.geometry.key_heads * layer.geometry.key_head_dim + owner(layer, head).0
                    * layer.geometry.key_head_dim,
                layer.geometry.key_heads * layer.geometry.key_head_dim + owner(layer, head).0
                    * layer.geometry.key_head_dim + layer.geometry.key_head_dim,
            ),
        ),
        is_decay(
            math,
            g,
            weights.state_scale@[head],
            parameters[parameter_places(layer, head).1],
            weights.dt_bias@[head],
        ),
        d.len() == layer.geometry.key_head_dim,
        forall|i: int|
            0 <= i < d.len() ==> #[trigger] d[i] == math.product(
                before.recurrent[head * (layer.geometry.key_head_dim
                    * layer.geometry.value_head_dim) + (i * layer.geometry.value_head_dim + j)],
                math.exponential(g),
            ),
        e == math.product(
            math.difference(
                c[layer.geometry.key_heads * layer.geometry.key_head_dim * 2 + (head
                    * layer.geometry.value_head_dim + j)],
                running_total(
                    math,
                    math.zero_of(),
                    Seq::new(d.len(), |i: int| math.product(d[i], k[i])),
                ),
            ),
            logistic(math, parameters[parameter_places(layer, head).0]),
        ),
    ensures
        ({
            let vd = layer.geometry.value_head_dim as int;
            let block = layer.geometry.key_head_dim * vd;
            let after = after_row(math, layer, weights, input, parameters, before).recurrent;
            let out = row_output(math, layer, weights, input, parameters, before);
            &&& forall|i: int|
                0 <= i < d.len() ==> after[head * block + #[trigger] (i * vd + j)] == math.sum(
                    d[i],
                    math.product(k[i], e),
                )
            &&& out[head * vd + j] == running_total(
                math,
                math.zero_of(),
                Seq::new(
                    d.len(),
                    |i: int|
                        math.product(
                            math.product(after[head * block + (i * vd + j)], q[i]),
                            math.inverse(
                                math.root(
                                    math.count_of(layer.geometry.key_head_dim as nat),
                                ),
                            ),
                        ),
                ),
            )
        }),
{
    let geo = layer.geometry;
    let kd = geo.key_head_dim as int;
    let vd = geo.value_head_dim as int;
    let heads = geo.value_heads as int;
    let block = kd * vd;
    let kernel = geo.conv_kernel as int;
    lemma_filtered(math, c, input, weights.conv_weight@, kernel, before.conv);
    lemma_owner(layer, head);
    let kw = geo.key_heads * kd;
    assert(geo.key_width() == kw);
    assert(0 <= kw && 0 <= heads * vd) by (nonlinear_arith)
        requires
            kw == geo.key_heads * kd,
            0 <= kd,
            0 <= heads,
            0 <= vd,
    ;
    let at = owner(layer, head).0;
    lemma_slice_inside(geo.key_heads as int, at, kd);
    lemma_slice_inside(heads, head, vd);
    let qs = query_part(layer, c);
    let ks = key_part(layer, c);
    let vs = value_part(layer, c);
    assert(qs.subrange(at * kd, at * kd + kd) =~= c.subrange(at * kd, at * kd + kd));
    assert(ks.subrange(at * kd, at * kd + kd) =~= c.subrange(kw + at * kd, kw + at * kd + kd));
    lemma_keyed(math, layer, qs, head, q);
    lemma_keyed(math, layer, ks, head, k);
    let kq = keyed_of(math, layer, qs);
    let kk = keyed_of(math, layer, ks);
    let gs = decays_of(math, layer, weights, parameters);
    let bs = betas_of(math, layer, parameters);
    assert(block >= 0) by (nonlinear_arith)
        requires
            block == kd * vd,
            0 <= kd,
            0 <= vd,
    ;
    assert(heads * block == heads * kd * vd) by (nonlinear_arith)
        requires
            block == kd * vd,
    ;
    lemma_slice_inside(heads, head, block);
    lemma_stepped(math, kq, kk, vs, gs, bs, kd, vd, before.recurrent, heads, head);
    let step = step_of(math, kq, kk, vs, gs, bs, kd, vd, head);
    let state = head_slice(before.recurrent, head, block);
    assert(step.q == q && step.k == k);
    assert(step.g == g) by {
        let v = math.sum(parameters[layer.alpha_place(head)], weights.dt_bias@[head]);
        assert(gs[head] == math.product(weights.state_scale@[head], softplus_of(math, v)));
    }
    assert(step.beta == logistic(math, parameters[parameter_places(layer, head).0]));
    assert(step.v[j] == c[kw * 2 + (head * vd + j)]);
    assert forall|i: int| 0 <= i < d.len() implies #[trigger] d[i] == math.product(
        state[i * step.v.len() + j],
        math.exponential(step.g),
    ) by {
        lemma_slice_inside(kd, i, vd);
        assert(state[i * vd + j] == before.recurrent[head * block + (i * vd + j)]);
    }
    assert(Seq::new(d.len(), |i: int| math.product(d[i], step.k[i])) =~= Seq::new(
        d.len(),
        |i: int| math.product(d[i], k[i]),
    ));
    lemma_head(math, state, step, j, d, e);
    let after = after_row(math, layer, weights, input, parameters, before).recurrent;
    let out = row_output(math, layer, weights, input, parameters, before);
    let own = head_state(math, state, step);
    assert(head_slice(after, head, block) == own);
    assert forall|i: int| 0 <= i < d.len() implies after[head * block + #[trigger] (i * vd + j)]
        == math.sum(d[i], math.product(k[i], e)) by {
        lemma_slice_inside(kd, i, vd);
        assert(own[i * vd + j] == after[head * block + (i * vd + j)]);
        assert(own[i * step.v.len() + j] == math.sum(d[i], math.product(step.k[i], e)));
    }
    let scale = math.inverse(math.root(math.count_of(geo.key_head_dim as nat)));
    assert(Seq::new(
        d.len(),
        |i: int|
            math.product(math.product(own[i * step.v.len() + j], step.q[i]), step.q_scale),
    ) =~= Seq::new(
        d.len(),
        |i: int| math.product(math.product(after[head * block + (i * vd + j)], q[i]), scale),
    )) by {
        assert forall|i: int| 0 <= i < d.len() implies own[#[trigger] (i * step.v.len() + j)]
            == after[head * block + (i * vd + j)] by {
            lemma_slice_inside(kd, i, vd);
        }
    }
    assert(out[head * vd + j] == head_slice(out, head, vd)[j]);
}

/// A row moves the history of every channel on by one: the oldest input goes, the
/// others move up, and the row's input comes last.
pub proof fn a_row_moves_the_history_on<T, A: Arithmetic<T>>(
    math: A,
    layer: QuantizedDeltaLayer,
    weights: DeltaWeights<T>,
    input: Seq<T>,
    parameters: Seq<T>,
    before: RecurrenceView<T>,
    channel: int,
    t: int,
)
    requires
        0 <= channel < layer.geometry.conv_width(),
        0 <= t < layer.geometry.conv_kernel - 1,
        before.conv.len() == layer.geometry.conv_width() * (layer.geometry.conv_kernel - 1),
    ensures
        after_row(math, layer, weights, input, parameters, before).conv.len() == before.conv.len(),
        after_row(math, layer, weights, input, parameters, before).conv[channel * (
        layer.geometry.conv_kernel - 1) + t] == if t == layer.geometry.conv_kernel - 2 {
            input[channel]
        } else {
            before.conv[channel * (layer.geometry.conv_kernel - 1) + (t + 1)]
        },
{
    let h = layer.geometry.conv_kernel - 1;
    lemma_cell(channel, h, t);
    lemma_slice_inside(layer.geometry.conv_width(), channel, h);
}

/// A pass starts from the state it is given, and each of its rows from what the
/// row before left; what it gives out is what its rows give out, in order. A row
/// is the start of its projected numbers, and its own betas and alphas.
pub proof fn a_pass_takes_its_rows_in_order<T, A: Arithmetic<T>>(
    math: A,
    layer: QuantizedDeltaLayer,
    weights: DeltaWeights<T>,
    projected: Seq<T>,
    width: int,
    parameters: Seq<T>,
    state: RecurrenceView<T>,
    n: int,
)
    requires
        0 <= n,
    ensures
        after_rows(math, layer, weights, projected, width, parameters, state, 0) == state,
        rows_output(math, layer, weights, projected, width, parameters, state, 0).len() == 0,
        ({
            let pairs = layer.geometry.value_heads * 2;
            let input = projected.subrange(n * width, n * width + layer.geometry.conv_width());
            let own = parameters.subrange(n * pairs, n * pairs + pairs);
            let before = after_rows(
                math,
                layer,
                weights,
                projected,
                width,
                parameters,
                state,
                n,
            );
            &&& after_rows(math, layer, weights, projected, width, parameters, state, n + 1)
                == after_row(math, layer, weights, input, own, before)
            &&& rows_output(math, layer, weights, projected, width, parameters, state, n + 1)
                == rows_output(math, layer, weights, projected, width, parameters, state, n)
                + row_output(math, layer, weights, input, own, before)
        }),
{
}

/// Where gates follow the other projections of their row, a row's gates are what
/// stands behind its convolved channels.
pub proof fn gates_follow_their_row<T>(
    layer: QuantizedDeltaLayer,
    projected: Seq<T>,
    width: int,
    n: int,
)
    requires
        0 <= n,
    ensures
        trailing_gates(layer, projected, width, 0).len() == 0,
        trailing_gates(layer, projected, width, n + 1) == trailing_gates(
            layer,
            projected,
            width,
            n,
        ) + projected.subrange(
            n * width + (layer.geometry.key_heads * layer.geometry.key_head_dim * 2
                + layer.geometry.value_heads * layer.geometry.value_head_dim),
            (n + 1) * width,
        ),
{
}

} // verus!
