//! One linear-attention layer between its projections: the causal convolution,
//! the gated delta rule, and the snapshots taken at every row boundary.

use super::attention::{squares_of, sum_of_squares};
use super::scan::{lemma_cell, lemma_cell_inside, sigmoid, sigmoid_of};
use crate::arithmetic::Arithmetic;
use crate::buffers::{append_all, copied, filled};
use vstd::arithmetic::div_mod::lemma_fundamental_div_mod;
use vstd::prelude::*;
use vstd::slice::slice_subrange;

verus! {

/// How the value heads of a checkpoint follow each other.
#[derive(Debug, Clone, Copy, PartialEq, Eq, Structural)]
pub enum ValueHeadLayout {
    /// All heads of the first key head, then those of the second.
    GroupedByKeyHead,
    /// The first head of every key head, then the second of every one.
    TiledByRepeat,
}

/// How the two numbers of each value head lie in a projected row.
#[derive(Debug, Clone, Copy, PartialEq, Eq, Structural)]
pub enum BetaAlphaLayout {
    /// For each key head, the betas of its value heads and then the alphas.
    InterleavedByKeyHead,
    /// The betas of all value heads, then all alphas.
    GroupedByProjection,
}

/// Where the heads of one recurrence step are computed. Which one it is cannot
/// change a value, as the heads share nothing.
#[derive(Debug, Clone, Copy, PartialEq, Eq, Structural)]
pub enum HeadSpread {
    /// Spread over a pool of threads. For passes of more than one row.
    Pool,
    /// On the calling thread. For a one-row decode pass.
    Caller,
}

impl HeadSpread {
    /// What a pass of `rows` rows should use.
    pub fn for_rows(rows: usize) -> (spread: HeadSpread)
        ensures
            spread == if rows > 1 {
                HeadSpread::Pool
            } else {
                HeadSpread::Caller
            },
    {
        if rows > 1 {
            HeadSpread::Pool
        } else {
            HeadSpread::Caller
        }
    }
}

impl ValueHeadLayout {
    /// The value head that is the given repeat of a key head.
    pub open spec fn place(self, key_head: int, repeat: int, key_heads: int, repeats: int) -> int {
        match self {
            ValueHeadLayout::GroupedByKeyHead => key_head * repeats + repeat,
            ValueHeadLayout::TiledByRepeat => repeat * key_heads + key_head,
        }
    }

    /// The key head of a value head.
    pub open spec fn key_head(self, value_head: int, key_heads: int, repeats: int) -> int {
        match self {
            ValueHeadLayout::GroupedByKeyHead => value_head / repeats,
            ValueHeadLayout::TiledByRepeat => value_head % key_heads,
        }
    }

    /// Which repeat of its key head a value head is.
    pub open spec fn repeat(self, value_head: int, key_heads: int, repeats: int) -> int {
        match self {
            ValueHeadLayout::GroupedByKeyHead => value_head % repeats,
            ValueHeadLayout::TiledByRepeat => value_head / key_heads,
        }
    }

    /// The value head that is the given repeat of a key head.
    pub fn index(
        self,
        key_head: usize,
        repeat: usize,
        key_heads: usize,
        repeats_per_key: usize,
    ) -> (value_head: usize)
        requires
            key_head < key_heads,
            repeat < repeats_per_key,
            key_heads * repeats_per_key <= usize::MAX,
        ensures
            value_head == self.place(
                key_head as int,
                repeat as int,
                key_heads as int,
                repeats_per_key as int,
            ),
            value_head < key_heads * repeats_per_key,
    {
        proof {
            lemma_cell_inside(
                key_heads as int,
                repeats_per_key as int,
                key_head as int,
                repeat as int,
            );
            lemma_cell_inside(
                repeats_per_key as int,
                key_heads as int,
                repeat as int,
                key_head as int,
            );
            assert(repeats_per_key * key_heads == key_heads * repeats_per_key) by (nonlinear_arith);
        }
        match self {
            ValueHeadLayout::GroupedByKeyHead => key_head * repeats_per_key + repeat,
            ValueHeadLayout::TiledByRepeat => repeat * key_heads + key_head,
        }
    }
}

/// A layout numbers the value heads one for one: from a head's number its key
/// head and its repeat are found again, and every number is that of a head.
pub proof fn value_heads_are_numbered_one_for_one(
    layout: ValueHeadLayout,
    key_head: int,
    repeat: int,
    value_head: int,
    key_heads: int,
    repeats: int,
)
    requires
        0 <= key_head < key_heads,
        0 <= repeat < repeats,
        0 <= value_head < key_heads * repeats,
    ensures
        layout.key_head(layout.place(key_head, repeat, key_heads, repeats), key_heads, repeats)
            == key_head,
        layout.repeat(layout.place(key_head, repeat, key_heads, repeats), key_heads, repeats)
            == repeat,
        0 <= layout.key_head(value_head, key_heads, repeats) < key_heads,
        0 <= layout.repeat(value_head, key_heads, repeats) < repeats,
        layout.place(
            layout.key_head(value_head, key_heads, repeats),
            layout.repeat(value_head, key_heads, repeats),
            key_heads,
            repeats,
        ) == value_head,
{
    lemma_cell(key_head, repeats, repeat);
    lemma_cell(repeat, key_heads, key_head);
    match layout {
        ValueHeadLayout::GroupedByKeyHead => {
            lemma_place(value_head, repeats, key_heads);
        },
        ValueHeadLayout::TiledByRepeat => {
            assert(key_heads * repeats == repeats * key_heads) by (nonlinear_arith);
            lemma_place(value_head, key_heads, repeats);
        },
    }
}

/// A place in a grid has a row and a column in it.
proof fn lemma_place(i: int, width: int, rows: int)
    requires
        0 <= i < rows * width,
        0 < width,
    ensures
        0 <= i / width < rows,
        0 <= i % width < width,
        i == (i / width) * width + i % width,
{
    lemma_fundamental_div_mod(i, width);
    let q = i / width;
    assert(0 <= q < rows && width * q == q * width) by (nonlinear_arith)
        requires
            i == width * q + i % width,
            0 <= i % width < width,
            0 <= i < rows * width,
    ;
}

/// A number times its logistic function.
pub open spec fn silu_of<T, A: Arithmetic<T>>(math: A, v: T) -> T {
    math.product(v, sigmoid_of(math, v))
}

/// A number times its logistic function.
pub fn silu<T: Copy, A: Arithmetic<T>>(math: &A, value: T) -> (r: T)
    ensures
        r == silu_of(*math, value),
{
    math.times(value, sigmoid(math, value))
}

/// The logarithm of one plus the exponential, or what it comes to far from
/// zero.
pub open spec fn softplus_of<T, A: Arithmetic<T>>(math: A, v: T) -> T {
    let limit = math.count_of(20);
    if math.is_above(v, limit) {
        v
    } else if math.is_above(math.negative(limit), v) {
        math.exponential(v)
    } else {
        math.log_plus_one(math.exponential(v))
    }
}

/// The logarithm of one plus the exponential, or what it comes to far from
/// zero.
pub fn softplus<T: Copy, A: Arithmetic<T>>(math: &A, value: T) -> (r: T)
    ensures
        r == softplus_of(*math, value),
{
    if math.above(value, math.count(20)) {
        value
    } else if math.above(math.neg(math.count(20)), value) {
        math.exp(value)
    } else {
        math.ln_1p(math.exp(value))
    }
}

/// The factor that brings numbers to a length of about one.
pub open spec fn unit_scale<T, A: Arithmetic<T>>(math: A, v: Seq<T>) -> T {
    math.inverse(
        math.root(
            math.sum(
                squares_of(math, v, v.len() as int),
                math.quotient(math.one_of(), math.count_of(1_000_000)),
            ),
        ),
    )
}

/// Numbers brought to a length of about one.
pub open spec fn unit_of<T, A: Arithmetic<T>>(math: A, v: Seq<T>) -> Seq<T> {
    Seq::new(v.len(), |i: int| math.product(v[i], unit_scale(math, v)))
}

/// Brings numbers to a length of about one.
pub fn normalize<T: Copy, A: Arithmetic<T>>(math: &A, values: &mut Vec<T>)
    ensures
        final(values)@ == unit_of(*math, old(values)@),
{
    let ghost v = values@;
    let n: usize = values.len();
    let total: T = math.plus(
        sum_of_squares(math, values),
        math.over(math.one(), math.count(1_000_000)),
    );
    let scale: T = math.recip(math.sqrt(total));
    let mut i: usize = 0;
    while i < n
        invariant
            n == v.len(),
            scale == unit_scale(*math, v),
            i <= n,
            values@.len() == n,
            forall|k: int|
                0 <= k < n ==> #[trigger] values@[k] == if k < i {
                    unit_of(*math, v)[k]
                } else {
                    v[k]
                },
        decreases n - i,
    {
        values.set(i, math.times(values[i], scale));
        i += 1;
    }
    proof {
        assert(values@ =~= unit_of(*math, v));
    }
}

/// A channel's weighted sum: the newest input first, then the first `taps`
/// numbers of its history.
pub open spec fn conv_sum<T, A: Arithmetic<T>>(
    math: A,
    input: Seq<T>,
    weights: Seq<T>,
    kernel: int,
    history: Seq<T>,
    channel: int,
    taps: int,
) -> T
    decreases taps,
{
    if taps <= 0 {
        math.product(weights[channel * kernel + (kernel - 1)], input[channel])
    } else {
        math.sum(
            conv_sum(math, input, weights, kernel, history, channel, taps - 1),
            math.product(
                weights[channel * kernel + (taps - 1)],
                history[channel * (kernel - 1) + (taps - 1)],
            ),
        )
    }
}

/// The convolved channels.
pub open spec fn convolved_of<T, A: Arithmetic<T>>(
    math: A,
    input: Seq<T>,
    weights: Seq<T>,
    kernel: int,
    history: Seq<T>,
) -> Seq<T> {
    Seq::new(
        input.len(),
        |channel: int|
            silu_of(math, conv_sum(math, input, weights, kernel, history, channel, kernel - 1)),
    )
}

/// The history of every channel, moved on by one input.
pub open spec fn moved_on<T>(history: Seq<T>, input: Seq<T>, kernel: int) -> Seq<T> {
    let h = kernel - 1;
    Seq::new(
        history.len(),
        |i: int|
            if i % h == h - 1 {
                input[i / h]
            } else {
                history[i + 1]
            },
    )
}

/// One step of the causal convolution: each channel's weighted sum over its
/// history and its input, and the history moved on.
pub fn causal_depthwise_conv_step<T: Copy, A: Arithmetic<T>>(
    math: &A,
    input: &[T],
    weights: &[T],
    kernel: usize,
    state: &mut Vec<T>,
) -> (output: Vec<T>)
    requires
        kernel > 0,
        weights@.len() == input@.len() * kernel,
        old(state)@.len() == input@.len() * (kernel - 1),
    ensures
        output@ == convolved_of(*math, input@, weights@, kernel as int, old(state)@),
        final(state)@ == moved_on(old(state)@, input@, kernel as int),
{
    let ghost before = state@;
    let ghost after = moved_on(before, input@, kernel as int);
    let history_len: usize = kernel - 1;
    let channels: usize = input.len();
    let held: usize = state.len();
    let weighted: usize = weights.len();
    let mut output: Vec<T> = Vec::new();
    let mut channel: usize = 0;
    proof {
        assert(0 * history_len == 0);
    }
    while channel < channels
        invariant
            kernel > 0,
            channels == input@.len(),
            weights@.len() == channels * kernel,
            weighted == weights@.len(),
            history_len == kernel - 1,
            before.len() == channels * history_len,
            held == before.len(),
            after == moved_on(before, input@, kernel as int),
            channel <= channels,
            state@.len() == before.len(),
            forall|i: int|
                0 <= i < before.len() ==> #[trigger] state@[i] == if i < channel * history_len {
                    after[i]
                } else {
                    before[i]
                },
            output@ == convolved_of(*math, input@, weights@, kernel as int, before).take(
                channel as int,
            ),
        decreases channels - channel,
    {
        proof {
            lemma_cell_inside(
                channels as int,
                kernel as int,
                channel as int,
                kernel - 1,
            );
            assert(channel * history_len + history_len <= channels * history_len)
                by (nonlinear_arith)
                requires
                    channel < channels,
                    0 <= history_len,
            ;
            assert(0 <= channel * history_len) by (nonlinear_arith)
                requires
                    0 <= channel,
                    0 <= history_len,
            ;
        }
        let weight_base: usize = channel * kernel;
        let history_base: usize = channel * history_len;
        let mut sum: T = math.times(weights[weight_base + history_len], input[channel]);
        let mut tap: usize = 0;
        while tap < history_len
            invariant
                channels == input@.len(),
                channel < channels,
                weights@.len() == channels * kernel,
                weight_base == channel * kernel,
                weight_base + kernel <= weights@.len(),
                weights@.len() == weighted,
                history_len == kernel - 1,
                history_base == channel * history_len,
                history_base + history_len <= before.len(),
                before.len() == held,
                state@.len() == before.len(),
                forall|i: int|
                    0 <= i < before.len() ==> #[trigger] state@[i] == if i < history_base {
                        after[i]
                    } else {
                        before[i]
                    },
                tap <= history_len,
                sum == conv_sum(
                    *math,
                    input@,
                    weights@,
                    kernel as int,
                    before,
                    channel as int,
                    tap as int,
                ),
            decreases history_len - tap,
        {
            sum =
            math.plus(sum, math.times(weights[weight_base + tap], state[history_base + tap]));
            tap += 1;
        }
        output.push(silu(math, sum));
        if history_len > 0 {
            let mut shift: usize = 0;
            while shift < history_len - 1
                invariant
                    channels == input@.len(),
                    channel < channels,
                    history_len == kernel - 1,
                    history_len > 0,
                    history_base == channel * history_len,
                    history_base + history_len <= before.len(),
                    before.len() == held,
                    after == moved_on(before, input@, kernel as int),
                    shift <= history_len - 1,
                    state@.len() == before.len(),
                    forall|i: int|
                        0 <= i < before.len() ==> #[trigger] state@[i] == if i < history_base
                            + shift {
                            after[i]
                        } else {
                            before[i]
                        },
                decreases history_len - shift,
            {
                proof {
                    lemma_cell(channel as int, history_len as int, shift as int);
                }
                let next: T = state[history_base + shift + 1];
                state.set(history_base + shift, next);
                shift += 1;
            }
            proof {
                lemma_cell(channel as int, history_len as int, history_len - 1);
            }
            state.set(history_base + history_len - 1, input[channel]);
        }
        proof {
            assert(channel * history_len + history_len == (channel + 1) * history_len)
                by (nonlinear_arith);
            assert(output@ =~= convolved_of(*math, input@, weights@, kernel as int, before).take(
                channel + 1,
            ));
        }
        channel += 1;
    }
    proof {
        assert(state@ =~= after);
        assert(output@ =~= convolved_of(*math, input@, weights@, kernel as int, before));
    }
    output
}

/// The numbers that one head's step works on.
pub ghost struct HeadStep<T> {
    pub q: Seq<T>,
    pub k: Seq<T>,
    pub v: Seq<T>,
    pub g: T,
    pub beta: T,
    pub q_scale: T,
}

/// A head's state after the decay.
pub open spec fn decayed<T, A: Arithmetic<T>>(math: A, state: Seq<T>, g: T) -> Seq<T> {
    Seq::new(state.len(), |i: int| math.product(state[i], math.exponential(g)))
}

/// What the state predicts for a column, from the first `n` keys.
pub open spec fn predicted<T, A: Arithmetic<T>>(
    math: A,
    state: Seq<T>,
    k: Seq<T>,
    width: int,
    column: int,
    n: int,
) -> T
    decreases n,
{
    if n <= 0 {
        math.zero_of()
    } else {
        math.sum(
            predicted(math, state, k, width, column, n - 1),
            math.product(state[(n - 1) * width + column], k[n - 1]),
        )
    }
}

/// How far a column's prediction is off, scaled.
pub open spec fn correction<T, A: Arithmetic<T>>(
    math: A,
    state: Seq<T>,
    step: HeadStep<T>,
    column: int,
) -> T {
    let width = step.v.len() as int;
    math.product(
        math.difference(
            step.v[column],
            predicted(math, state, step.k, width, column, step.k.len() as int),
        ),
        step.beta,
    )
}

/// A head's state after a step.
pub open spec fn head_state<T, A: Arithmetic<T>>(
    math: A,
    state: Seq<T>,
    step: HeadStep<T>,
) -> Seq<T> {
    let width = step.v.len() as int;
    let d = decayed(math, state, step.g);
    Seq::new(
        state.len(),
        |i: int|
            math.sum(
                d[i],
                math.product(step.k[i / width], correction(math, d, step, i % width)),
            ),
    )
}

/// What a query reads of a column, from the first `n` rows of the state.
pub open spec fn read_of<T, A: Arithmetic<T>>(
    math: A,
    state: Seq<T>,
    q: Seq<T>,
    q_scale: T,
    width: int,
    column: int,
    n: int,
) -> T
    decreases n,
{
    if n <= 0 {
        math.zero_of()
    } else {
        math.sum(
            read_of(math, state, q, q_scale, width, column, n - 1),
            math.product(math.product(state[(n - 1) * width + column], q[n - 1]), q_scale),
        )
    }
}

/// What a head gives out after a step.
pub open spec fn head_output<T, A: Arithmetic<T>>(
    math: A,
    state: Seq<T>,
    step: HeadStep<T>,
) -> Seq<T> {
    let after = head_state(math, state, step);
    Seq::new(
        step.v.len(),
        |column: int|
            read_of(
                math,
                after,
                step.q,
                step.q_scale,
                step.v.len() as int,
                column,
                step.q.len() as int,
            ),
    )
}

/// One head of the gated delta rule, against that head's own state block of
/// `[key, value]` numbers.
pub fn delta_head_step<T: Copy, A: Arithmetic<T>>(
    math: &A,
    q: &[T],
    k: &[T],
    v: &[T],
    g: T,
    beta: T,
    q_scale: T,
    state: &mut Vec<T>,
) -> (output: Vec<T>)
    requires
        q@.len() == k@.len(),
        v@.len() > 0,
        old(state)@.len() == k@.len() * v@.len(),
    ensures
        final(state)@ == head_state(
            *math,
            old(state)@,
            (HeadStep { q: q@, k: k@, v: v@, g, beta, q_scale }),
        ),
        output@ == head_output(
            *math,
            old(state)@,
            (HeadStep { q: q@, k: k@, v: v@, g, beta, q_scale }),
        ),
{
    let ghost before = state@;
    let ghost step = HeadStep { q: q@, k: k@, v: v@, g, beta, q_scale };
    let ghost d = decayed(*math, before, g);
    let ghost after = head_state(*math, before, step);
    let keys: usize = k.len();
    let width: usize = v.len();
    let size: usize = state.len();
    let decay: T = math.exp(g);
    let mut i: usize = 0;
    while i < size
        invariant
            size == before.len(),
            d == decayed(*math, before, g),
            decay == math.exponential(g),
            i <= size,
            state@.len() == size,
            forall|x: int|
                0 <= x < size ==> #[trigger] state@[x] == if x < i {
                    d[x]
                } else {
                    before[x]
                },
        decreases size - i,
    {
        state.set(i, math.times(state[i], decay));
        i += 1;
    }
    proof {
        assert(state@ =~= d);
    }
    let mut deltas: Vec<T> = filled(math.zero(), width);
    let mut row: usize = 0;
    while row < keys
        invariant
            size == keys * width,
            keys == k@.len(),
            width == v@.len(),
            width > 0,
            state@ == d,
            d.len() == size,
            row <= keys,
            deltas@.len() == width,
            forall|c: int|
                0 <= c < width ==> #[trigger] deltas@[c] == predicted(
                    *math,
                    d,
                    k@,
                    width as int,
                    c,
                    row as int,
                ),
        decreases keys - row,
    {
        let key: T = k[row];
        let mut column: usize = 0;
        while column < width
            invariant
                size == keys * width,
                keys == k@.len(),
                width == v@.len(),
                state@ == d,
                d.len() == size,
                row < keys,
                key == k@[row as int],
                column <= width,
                deltas@.len() == width,
                forall|c: int|
                    0 <= c < width ==> #[trigger] deltas@[c] == predicted(
                        *math,
                        d,
                        k@,
                        width as int,
                        c,
                        if c < column {
                            row + 1
                        } else {
                            row as int
                        },
                    ),
            decreases width - column,
        {
            proof {
                lemma_cell_inside(keys as int, width as int, row as int, column as int);
            }
            deltas.set(
                column,
                math.plus(deltas[column], math.times(state[row * width + column], key)),
            );
            column += 1;
        }
        row += 1;
    }
    let ghost predictions = deltas@;
    let mut column: usize = 0;
    while column < width
        invariant
            keys == k@.len(),
            width == v@.len(),
            step == (HeadStep { q: q@, k: k@, v: v@, g, beta, q_scale }),
            predictions.len() == width,
            forall|c: int|
                0 <= c < width ==> #[trigger] predictions[c] == predicted(
                    *math,
                    d,
                    k@,
                    width as int,
                    c,
                    keys as int,
                ),
            column <= width,
            deltas@.len() == width,
            forall|c: int|
                0 <= c < width ==> #[trigger] deltas@[c] == if c < column {
                    correction(*math, d, step, c)
                } else {
                    predictions[c]
                },
        decreases width - column,
    {
        deltas.set(column, math.times(math.minus(v[column], deltas[column]), beta));
        column += 1;
    }
    let mut at: usize = 0;
    while at < size
        invariant
            size == keys * width,
            keys == k@.len(),
            width == v@.len(),
            width > 0,
            step == (HeadStep { q: q@, k: k@, v: v@, g, beta, q_scale }),
            before.len() == size,
            d == decayed(*math, before, g),
            after == head_state(*math, before, step),
            deltas@.len() == width,
            forall|c: int|
                0 <= c < width ==> #[trigger] deltas@[c] == correction(*math, d, step, c),
            at <= size,
            state@.len() == size,
            forall|x: int|
                0 <= x < size ==> #[trigger] state@[x] == if x < at {
                    after[x]
                } else {
                    d[x]
                },
        decreases size - at,
    {
        proof {
            lemma_place(at as int, width as int, keys as int);
        }
        let moved: T = math.plus(state[at], math.times(k[at / width], deltas[at % width]));
        proof {
            assert(moved == after[at as int]);
        }
        state.set(at, moved);
        at += 1;
    }
    proof {
        assert(state@ =~= after);
    }
    let mut output: Vec<T> = filled(math.zero(), width);
    let mut line: usize = 0;
    while line < keys
        invariant
            size == keys * width,
            keys == k@.len(),
            q@.len() == keys,
            width == v@.len(),
            state@ == after,
            after.len() == size,
            line <= keys,
            output@.len() == width,
            forall|c: int|
                0 <= c < width ==> #[trigger] output@[c] == read_of(
                    *math,
                    after,
                    q@,
                    q_scale,
                    width as int,
                    c,
                    line as int,
                ),
        decreases keys - line,
    {
        let query: T = q[line];
        let mut place: usize = 0;
        while place < width
            invariant
                size == keys * width,
                keys == k@.len(),
                q@.len() == keys,
                width == v@.len(),
                state@ == after,
                after.len() == size,
                line < keys,
                query == q@[line as int],
                place <= width,
                output@.len() == width,
                forall|c: int|
                    0 <= c < width ==> #[trigger] output@[c] == read_of(
                        *math,
                        after,
                        q@,
                        q_scale,
                        width as int,
                        c,
                        if c < place {
                            line + 1
                        } else {
                            line as int
                        },
                    ),
            decreases width - place,
        {
            proof {
                lemma_cell_inside(keys as int, width as int, line as int, place as int);
            }
            let cell: T = state[line * width + place];
            output.set(
                place,
                math.plus(output[place], math.times(math.times(cell, query), q_scale)),
            );
            place += 1;
        }
        line += 1;
    }
    proof {
        assert(output@ =~= head_output(*math, before, step));
    }
    output
}

/// The part of a list of rows that belongs to one head.
pub open spec fn head_slice<T>(list: Seq<T>, head: int, width: int) -> Seq<T> {
    list.subrange(head * width, head * width + width)
}

/// The step of one head, out of the numbers of all heads.
pub open spec fn step_of<T, A: Arithmetic<T>>(
    math: A,
    q: Seq<T>,
    k: Seq<T>,
    v: Seq<T>,
    g: Seq<T>,
    beta: Seq<T>,
    key_dim: int,
    value_dim: int,
    head: int,
) -> HeadStep<T> {
    HeadStep {
        q: head_slice(q, head, key_dim),
        k: head_slice(k, head, key_dim),
        v: head_slice(v, head, value_dim),
        g: g[head],
        beta: beta[head],
        q_scale: math.inverse(math.root(math.count_of(key_dim as nat))),
    }
}

/// The states of the first `heads` heads after a step, one after the other.
pub open spec fn stepped_state<T, A: Arithmetic<T>>(
    math: A,
    q: Seq<T>,
    k: Seq<T>,
    v: Seq<T>,
    g: Seq<T>,
    beta: Seq<T>,
    key_dim: int,
    value_dim: int,
    state: Seq<T>,
    heads: int,
) -> Seq<T>
    decreases heads,
{
    if heads <= 0 {
        Seq::empty()
    } else {
        stepped_state(math, q, k, v, g, beta, key_dim, value_dim, state, heads - 1) + head_state(
            math,
            head_slice(state, heads - 1, key_dim * value_dim),
            step_of(math, q, k, v, g, beta, key_dim, value_dim, heads - 1),
        )
    }
}

/// What the first `heads` heads give out after a step, one after the other.
pub open spec fn stepped_output<T, A: Arithmetic<T>>(
    math: A,
    q: Seq<T>,
    k: Seq<T>,
    v: Seq<T>,
    g: Seq<T>,
    beta: Seq<T>,
    key_dim: int,
    value_dim: int,
    state: Seq<T>,
    heads: int,
) -> Seq<T>
    decreases heads,
{
    if heads <= 0 {
        Seq::empty()
    } else {
        stepped_output(math, q, k, v, g, beta, key_dim, value_dim, state, heads - 1) + head_output(
            math,
            head_slice(state, heads - 1, key_dim * value_dim),
            step_of(math, q, k, v, g, beta, key_dim, value_dim, heads - 1),
        )
    }
}

/// One step of the gated delta rule over every head. The state is
/// `[head, key, value]`.
///
/// A head reads its own part of the queries, keys and values, one decay and one
/// beta, and reads and writes only its own block of the state, so that it makes
/// no difference in which order, or where, the heads are computed.
pub fn recurrent_delta_step<T: Copy, A: Arithmetic<T>>(
    math: &A,
    q: &[T],
    k: &[T],
    v: &[T],
    g: &[T],
    beta: &[T],
    heads: usize,
    key_dim: usize,
    value_dim: usize,
    state: &mut Vec<T>,
) -> (out: Vec<T>)
    requires
        key_dim > 0,
        value_dim > 0,
        q@.len() == heads * key_dim,
        k@.len() == heads * key_dim,
        v@.len() == heads * value_dim,
        g@.len() == heads,
        beta@.len() == heads,
        key_dim * value_dim <= usize::MAX,
        old(state)@.len() == heads * (key_dim * value_dim),
    ensures
        final(state)@ == stepped_state(
            *math,
            q@,
            k@,
            v@,
            g@,
            beta@,
            key_dim as int,
            value_dim as int,
            old(state)@,
            heads as int,
        ),
        out@ == stepped_output(
            *math,
            q@,
            k@,
            v@,
            g@,
            beta@,
            key_dim as int,
            value_dim as int,
            old(state)@,
            heads as int,
        ),
{
    let block: usize = key_dim * value_dim;
    let q_scale: T = math.recip(math.sqrt(math.count(key_dim)));
    let mut next: Vec<T> = Vec::new();
    let mut out: Vec<T> = Vec::new();
    let mut head: usize = 0;
    let q_count: usize = q.len();
    let v_count: usize = v.len();
    let held: usize = state.len();
    while head < heads
        invariant
            key_dim > 0,
            value_dim > 0,
            block == key_dim * value_dim,
            q@.len() == heads * key_dim,
            k@.len() == heads * key_dim,
            v@.len() == heads * value_dim,
            g@.len() == heads,
            beta@.len() == heads,
            state@ == old(state)@,
            state@.len() == heads * block,
            q_count == q@.len(),
            v_count == v@.len(),
            held == state@.len(),
            q_scale == math.inverse(math.root(math.count_of(key_dim as nat))),
            head <= heads,
            next@ == stepped_state(
                *math,
                q@,
                k@,
                v@,
                g@,
                beta@,
                key_dim as int,
                value_dim as int,
                state@,
                head as int,
            ),
            out@ == stepped_output(
                *math,
                q@,
                k@,
                v@,
                g@,
                beta@,
                key_dim as int,
                value_dim as int,
                state@,
                head as int,
            ),
        decreases heads - head,
    {
        proof {
            lemma_block(heads as int, head as int, key_dim as int);
            lemma_block(heads as int, head as int, value_dim as int);
            lemma_block(heads as int, head as int, block as int);
        }
        let q_base: usize = head * key_dim;
        let v_base: usize = head * value_dim;
        let s_base: usize = head * block;
        let of_q = slice_subrange(q, q_base, q_base + key_dim);
        let of_k = slice_subrange(k, q_base, q_base + key_dim);
        let of_v = slice_subrange(v, v_base, v_base + value_dim);
        let mut of_state = copied(slice_subrange(state.as_slice(), s_base, s_base + block));
        let of_out = delta_head_step(
            math,
            of_q,
            of_k,
            of_v,
            g[head],
            beta[head],
            q_scale,
            &mut of_state,
        );
        append_all(&mut next, of_state.as_slice());
        append_all(&mut out, of_out.as_slice());
        head += 1;
    }
    *state = next;
    out
}

/// The part of a head lies inside the list of all heads.
proof fn lemma_block(heads: int, head: int, width: int)
    requires
        0 <= head < heads,
        0 <= width,
    ensures
        0 <= head * width,
        head * width + width <= heads * width,
{
    assert(0 <= head * width && head * width + width <= heads * width) by (nonlinear_arith)
        requires
            0 <= head < heads,
            0 <= width,
    ;
}

} // verus!
