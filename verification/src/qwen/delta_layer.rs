//! A pass of one linear-attention layer between its projections, with a
//! snapshot at every row boundary the recurrence crosses.

use super::delta::{
    causal_depthwise_conv_step, convolved_of, head_slice, moved_on, normalize,
    recurrent_delta_step, softplus, softplus_of, stepped_output, stepped_state, unit_of,
    value_heads_are_numbered_one_for_one, BetaAlphaLayout, ValueHeadLayout,
};
use super::delta_state::{
    DeltaGeometry, QuantizedDeltaSnapshots, QuantizedDeltaState, RecurrenceView,
};
use super::scan::{sigmoid, sigmoid_of};
use crate::arithmetic::{elapsed, Arithmetic, Clock};
use crate::buffers::{append_all, copied};
use crate::config::Qwen3NextConfig;
use crate::text::same_text;
use vstd::prelude::*;
use vstd::slice::slice_subrange;

verus! {

/// Why a layer's weights or a pass are refused.
#[derive(Debug, Clone, Copy, PartialEq, Eq, Structural)]
pub enum DeltaError {
    /// The matrix of queries, keys and values has another shape.
    QkvShape,
    /// The matrix of gates has another shape.
    ZShape,
    /// The matrix of betas and alphas has another shape.
    BetaAlphaShape,
    /// The output matrix has another shape.
    OutputShape,
    /// The convolution has another number of weights.
    ConvolutionLength,
    /// There are more or fewer state scales than value heads.
    StateScaleLength,
    /// There are more or fewer time biases than value heads.
    TimeBiasLength,
    /// The norm is wider or narrower than a value head.
    NormLength,
    /// The input is not made of whole rows.
    PartialRow,
    /// The convolution history has another length.
    ConvolutionState,
    /// The recurrent state has another length.
    RecurrentState,
    /// The arena has fewer slots than the pass has rows.
    SnapshotRows { held: usize, needed: usize },
}

/// The heads of a linear-attention layer and how they are laid out.
#[derive(Debug, Clone, Copy, PartialEq, Eq, Structural)]
pub struct QuantizedDeltaLayer {
    pub hidden_size: usize,
    pub geometry: DeltaGeometry,
    pub value_layout: ValueHeadLayout,
    pub beta_alpha_layout: BetaAlphaLayout,
}

/// The weights that a pass uses between the projections.
#[derive(Debug, Clone)]
pub struct DeltaWeights<T> {
    pub conv_weight: Vec<T>,
    pub state_scale: Vec<T>,
    pub dt_bias: Vec<T>,
}

/// What the phases of a pass took, in nanoseconds.
#[derive(Debug, Clone, Copy, PartialEq, Eq, Structural)]
pub struct DeltaTimes {
    pub convolution: u64,
    pub recurrence: u64,
    pub snapshot: u64,
}

/// The value heads of a model follow each other by repeats in the newer mixture
/// models, and by key heads in all others.
pub open spec fn layout_of(model_type: Seq<char>) -> ValueHeadLayout {
    if model_type == "qwen3_5_moe_text"@ {
        ValueHeadLayout::TiledByRepeat
    } else {
        ValueHeadLayout::GroupedByKeyHead
    }
}

impl QuantizedDeltaLayer {
    /// The shapes of the layer's matrices fit the machine.
    pub open spec fn shapes_fit(&self) -> bool {
        self.geometry.widths_fit() && self.geometry.value_heads * 2 <= usize::MAX
    }

    /// Every key head has the same number of value heads, every head has some
    /// width (a state of no width cannot be split into heads), and the widths fit.
    pub open spec fn wf(&self) -> bool {
        &&& self.geometry.fits()
        &&& self.geometry.key_heads > 0
        &&& self.geometry.key_head_dim > 0
        &&& self.geometry.value_head_dim > 0
        &&& self.geometry.value_heads as int % self.geometry.key_heads as int == 0
        &&& self.geometry.value_heads * 2 <= usize::MAX
        &&& self.geometry.conv_width() + self.geometry.value_width() <= usize::MAX
        &&& self.geometry.key_head_dim * self.geometry.value_head_dim <= usize::MAX
    }

    /// Value heads per key head.
    pub open spec fn ratio(&self) -> int {
        self.geometry.value_heads as int / self.geometry.key_heads as int
    }

    /// The key head of a value head.
    pub open spec fn key_head(&self, value_head: int) -> int {
        self.value_layout.key_head(value_head, self.geometry.key_heads as int, self.ratio())
    }

    /// Where the beta of a value head lies in a projected row.
    pub open spec fn beta_place(&self, value_head: int) -> int {
        match self.beta_alpha_layout {
            BetaAlphaLayout::InterleavedByKeyHead => self.key_head(value_head) * 2 * self.ratio()
                + self.value_layout.repeat(
                value_head,
                self.geometry.key_heads as int,
                self.ratio(),
            ),
            BetaAlphaLayout::GroupedByProjection => value_head,
        }
    }

    /// Where the alpha of a value head lies in a projected row.
    pub open spec fn alpha_place(&self, value_head: int) -> int {
        match self.beta_alpha_layout {
            BetaAlphaLayout::InterleavedByKeyHead => self.key_head(value_head) * 2 * self.ratio()
                + self.ratio() + self.value_layout.repeat(
                value_head,
                self.geometry.key_heads as int,
                self.ratio(),
            ),
            BetaAlphaLayout::GroupedByProjection => self.geometry.value_heads + value_head,
        }
    }

    /// The layer of a model. `fused` tells whether betas and alphas come out of
    /// one matrix.
    pub fn of(config: &Qwen3NextConfig, fused: bool) -> (layer: QuantizedDeltaLayer)
        ensures
            layer.hidden_size == config.hidden_size,
            layer.geometry == (DeltaGeometry {
                key_heads: config.linear_num_key_heads,
                value_heads: config.linear_num_value_heads,
                key_head_dim: config.linear_key_head_dim,
                value_head_dim: config.linear_value_head_dim,
                conv_kernel: config.linear_conv_kernel_dim,
            }),
            layer.value_layout == layout_of(config.model_type@),
            layer.beta_alpha_layout == if fused {
                BetaAlphaLayout::InterleavedByKeyHead
            } else {
                BetaAlphaLayout::GroupedByProjection
            },
    {
        QuantizedDeltaLayer {
            hidden_size: config.hidden_size,
            geometry: DeltaGeometry::of(config),
            value_layout: if same_text(config.model_type.as_str(), "qwen3_5_moe_text") {
                ValueHeadLayout::TiledByRepeat
            } else {
                ValueHeadLayout::GroupedByKeyHead
            },
            beta_alpha_layout: if fused {
                BetaAlphaLayout::InterleavedByKeyHead
            } else {
                BetaAlphaLayout::GroupedByProjection
            },
        }
    }

    /// Why matrices of these shapes are refused, if they are.
    pub open spec fn matrix_problem(
        &self,
        qkv: Seq<usize>,
        z: Seq<usize>,
        beta_alpha: Seq<usize>,
        output: Seq<usize>,
    ) -> Option<DeltaError> {
        let g = self.geometry;
        if qkv != seq![g.conv_width() as usize, self.hidden_size] {
            Some(DeltaError::QkvShape)
        } else if z != seq![g.value_width() as usize, self.hidden_size] {
            Some(DeltaError::ZShape)
        } else if beta_alpha != seq![(g.value_heads * 2) as usize, self.hidden_size] {
            Some(DeltaError::BetaAlphaShape)
        } else if output != seq![self.hidden_size, g.value_width() as usize] {
            Some(DeltaError::OutputShape)
        } else {
            None
        }
    }

    /// Accepts the matrices of a layer.
    pub fn check_matrices(
        &self,
        qkv: [usize; 2],
        z: [usize; 2],
        beta_alpha: [usize; 2],
        output: [usize; 2],
    ) -> (result: Result<(), DeltaError>)
        requires
            self.shapes_fit(),
        ensures
            match self.matrix_problem(qkv@, z@, beta_alpha@, output@) {
                Some(problem) => result == Err::<(), DeltaError>(problem),
                None => result is Ok,
            },
    {
        let value_dim: usize = self.geometry.value_dim();
        let conv_dim: usize = self.geometry.conv_dim();
        if qkv[0] != conv_dim || qkv[1] != self.hidden_size {
            return Err(DeltaError::QkvShape);
        }
        proof {
            assert(qkv@ =~= seq![conv_dim, self.hidden_size]);
        }
        if z[0] != value_dim || z[1] != self.hidden_size {
            return Err(DeltaError::ZShape);
        }
        proof {
            assert(z@ =~= seq![value_dim, self.hidden_size]);
        }
        if beta_alpha[0] != self.geometry.value_heads * 2 || beta_alpha[1] != self.hidden_size {
            return Err(DeltaError::BetaAlphaShape);
        }
        proof {
            assert(beta_alpha@ =~= seq![
                (self.geometry.value_heads * 2) as usize,
                self.hidden_size,
            ]);
        }
        if output[0] != self.hidden_size || output[1] != value_dim {
            return Err(DeltaError::OutputShape);
        }
        proof {
            assert(output@ =~= seq![self.hidden_size, value_dim]);
        }
        Ok(())
    }

    /// Accepts the lengths of a layer's vectors.
    pub fn check_vectors(&self, state_scale: usize, dt_bias: usize, norm: usize) -> (result: Result<
        (),
        DeltaError,
    >)
        ensures
            result == if state_scale != self.geometry.value_heads {
                Err::<(), DeltaError>(DeltaError::StateScaleLength)
            } else if dt_bias != self.geometry.value_heads {
                Err::<(), DeltaError>(DeltaError::TimeBiasLength)
            } else if norm != self.geometry.value_head_dim {
                Err::<(), DeltaError>(DeltaError::NormLength)
            } else {
                Ok::<(), DeltaError>(())
            },
    {
        if state_scale != self.geometry.value_heads {
            return Err(DeltaError::StateScaleLength);
        }
        if dt_bias != self.geometry.value_heads {
            return Err(DeltaError::TimeBiasLength);
        }
        if norm != self.geometry.value_head_dim {
            return Err(DeltaError::NormLength);
        }
        Ok(())
    }

    /// The number of rows of an input of `elements` numbers.
    pub fn check_pass(&self, elements: usize) -> (seq: Result<usize, DeltaError>)
        requires
            elements == 0 ==> self.hidden_size > 0,
        ensures
            seq == if self.hidden_size == 0 || elements as int % self.hidden_size as int != 0 {
                Err::<usize, DeltaError>(DeltaError::PartialRow)
            } else {
                Ok::<usize, DeltaError>((elements as int / self.hidden_size as int) as usize)
            },
    {
        if self.hidden_size == 0 || elements % self.hidden_size != 0 {
            return Err(DeltaError::PartialRow);
        }
        Ok(elements / self.hidden_size)
    }
}

impl<T> DeltaWeights<T> {
    /// Whether the weights have a layer's dimensions.
    pub open spec fn wf(&self, layer: QuantizedDeltaLayer) -> bool {
        &&& self.conv_weight@.len() == layer.geometry.conv_width() * layer.geometry.conv_kernel
        &&& self.state_scale@.len() == layer.geometry.value_heads
        &&& self.dt_bias@.len() == layer.geometry.value_heads
    }
}

/// The first `n` heads of a row, each brought to a length of about one.
pub open spec fn units_of<T, A: Arithmetic<T>>(math: A, row: Seq<T>, dim: int, n: int) -> Seq<T>
    decreases n,
{
    if n <= 0 {
        Seq::empty()
    } else {
        units_of(math, row, dim, n - 1) + unit_of(math, head_slice(row, n - 1, dim))
    }
}

/// The key head of each of the first `n` value heads.
pub open spec fn spread_of<T>(layer: QuantizedDeltaLayer, units: Seq<T>, n: int) -> Seq<T>
    decreases n,
{
    if n <= 0 {
        Seq::empty()
    } else {
        spread_of(layer, units, n - 1) + head_slice(
            units,
            layer.key_head(n - 1),
            layer.geometry.key_head_dim as int,
        )
    }
}

/// What each value head takes of a row of queries or keys.
pub open spec fn keyed_of<T, A: Arithmetic<T>>(math: A, layer: QuantizedDeltaLayer, row: Seq<T>) -> Seq<T> {
    let g = layer.geometry;
    spread_of(
        layer,
        units_of(math, row, g.key_head_dim as int, g.key_heads as int),
        g.value_heads as int,
    )
}

/// The betas of a row.
pub open spec fn betas_of<T, A: Arithmetic<T>>(
    math: A,
    layer: QuantizedDeltaLayer,
    parameters: Seq<T>,
) -> Seq<T> {
    Seq::new(
        layer.geometry.value_heads as nat,
        |h: int| sigmoid_of(math, parameters[layer.beta_place(h)]),
    )
}

/// The decays of a row.
pub open spec fn decays_of<T, A: Arithmetic<T>>(
    math: A,
    layer: QuantizedDeltaLayer,
    weights: DeltaWeights<T>,
    parameters: Seq<T>,
) -> Seq<T> {
    Seq::new(
        layer.geometry.value_heads as nat,
        |h: int|
            math.product(
                weights.state_scale@[h],
                softplus_of(
                    math,
                    math.sum(parameters[layer.alpha_place(h)], weights.dt_bias@[h]),
                ),
            ),
    )
}

/// The three parts of a convolved row.
pub open spec fn query_part<T>(layer: QuantizedDeltaLayer, row: Seq<T>) -> Seq<T> {
    row.subrange(0, layer.geometry.key_width())
}

/// The keys of a convolved row.
pub open spec fn key_part<T>(layer: QuantizedDeltaLayer, row: Seq<T>) -> Seq<T> {
    row.subrange(layer.geometry.key_width(), layer.geometry.key_width() * 2)
}

/// The values of a convolved row.
pub open spec fn value_part<T>(layer: QuantizedDeltaLayer, row: Seq<T>) -> Seq<T> {
    row.subrange(layer.geometry.key_width() * 2, layer.geometry.conv_width())
}

/// The state of a layer after a row.
pub open spec fn after_row<T, A: Arithmetic<T>>(
    math: A,
    layer: QuantizedDeltaLayer,
    weights: DeltaWeights<T>,
    input: Seq<T>,
    parameters: Seq<T>,
    state: RecurrenceView<T>,
) -> RecurrenceView<T> {
    let g = layer.geometry;
    let c = convolved_of(math, input, weights.conv_weight@, g.conv_kernel as int, state.conv);
    RecurrenceView {
        conv: moved_on(state.conv, input, g.conv_kernel as int),
        recurrent: stepped_state(
            math,
            keyed_of(math, layer, query_part(layer, c)),
            keyed_of(math, layer, key_part(layer, c)),
            value_part(layer, c),
            decays_of(math, layer, weights, parameters),
            betas_of(math, layer, parameters),
            g.key_head_dim as int,
            g.value_head_dim as int,
            state.recurrent,
            g.value_heads as int,
        ),
    }
}

/// What a layer gives out for a row.
pub open spec fn row_output<T, A: Arithmetic<T>>(
    math: A,
    layer: QuantizedDeltaLayer,
    weights: DeltaWeights<T>,
    input: Seq<T>,
    parameters: Seq<T>,
    state: RecurrenceView<T>,
) -> Seq<T> {
    let g = layer.geometry;
    let c = convolved_of(math, input, weights.conv_weight@, g.conv_kernel as int, state.conv);
    stepped_output(
        math,
        keyed_of(math, layer, query_part(layer, c)),
        keyed_of(math, layer, key_part(layer, c)),
        value_part(layer, c),
        decays_of(math, layer, weights, parameters),
        betas_of(math, layer, parameters),
        g.key_head_dim as int,
        g.value_head_dim as int,
        state.recurrent,
        g.value_heads as int,
    )
}

/// A row of a list of rows of `width` numbers, and the start of it.
pub open spec fn row_start_of<T>(list: Seq<T>, row: int, width: int, len: int) -> Seq<T> {
    list.subrange(row * width, row * width + len)
}

/// The state of a layer after the first `n` rows of a pass.
pub open spec fn after_rows<T, A: Arithmetic<T>>(
    math: A,
    layer: QuantizedDeltaLayer,
    weights: DeltaWeights<T>,
    projected: Seq<T>,
    width: int,
    parameters: Seq<T>,
    state: RecurrenceView<T>,
    n: int,
) -> RecurrenceView<T>
    decreases n,
{
    if n <= 0 {
        state
    } else {
        after_row(
            math,
            layer,
            weights,
            row_start_of(projected, n - 1, width, layer.geometry.conv_width()),
            row_start_of(
                parameters,
                n - 1,
                layer.geometry.value_heads * 2,
                layer.geometry.value_heads * 2,
            ),
            after_rows(math, layer, weights, projected, width, parameters, state, n - 1),
        )
    }
}

/// What a layer gives out for the first `n` rows of a pass.
pub open spec fn rows_output<T, A: Arithmetic<T>>(
    math: A,
    layer: QuantizedDeltaLayer,
    weights: DeltaWeights<T>,
    projected: Seq<T>,
    width: int,
    parameters: Seq<T>,
    state: RecurrenceView<T>,
    n: int,
) -> Seq<T>
    decreases n,
{
    if n <= 0 {
        Seq::empty()
    } else {
        rows_output(math, layer, weights, projected, width, parameters, state, n - 1) + row_output(
            math,
            layer,
            weights,
            row_start_of(projected, n - 1, width, layer.geometry.conv_width()),
            row_start_of(
                parameters,
                n - 1,
                layer.geometry.value_heads * 2,
                layer.geometry.value_heads * 2,
            ),
            after_rows(math, layer, weights, projected, width, parameters, state, n - 1),
        )
    }
}

/// The gates of the first `n` rows where they follow the other projections of
/// their row.
pub open spec fn trailing_gates<T>(
    layer: QuantizedDeltaLayer,
    projected: Seq<T>,
    width: int,
    n: int,
) -> Seq<T>
    decreases n,
{
    if n <= 0 {
        Seq::empty()
    } else {
        trailing_gates(layer, projected, width, n - 1) + projected.subrange(
            (n - 1) * width + layer.geometry.conv_width(),
            n * width,
        )
    }
}

/// What is known of the ratio between the heads.
proof fn lemma_ratio(layer: QuantizedDeltaLayer)
    requires
        layer.wf(),
    ensures
        layer.ratio() >= 0,
        layer.geometry.value_heads > 0 ==> layer.ratio() > 0,
        layer.geometry.value_heads == layer.geometry.key_heads * layer.ratio(),
{
    let v = layer.geometry.value_heads as int;
    let k = layer.geometry.key_heads as int;
    vstd::arithmetic::div_mod::lemma_fundamental_div_mod(v, k);
    let r = v / k;
    assert(r >= 0 && (v > 0 ==> r > 0)) by (nonlinear_arith)
        requires
            v == k * r,
            v >= 0,
            k > 0,
    ;
}

/// Every value head has a key head and its two numbers.
proof fn lemma_places(layer: QuantizedDeltaLayer, h: int)
    requires
        layer.wf(),
        0 <= h < layer.geometry.value_heads,
    ensures
        0 <= layer.key_head(h) < layer.geometry.key_heads,
        0 <= layer.value_layout.repeat(h, layer.geometry.key_heads as int, layer.ratio())
            < layer.ratio(),
        0 <= layer.beta_place(h) < layer.geometry.value_heads * 2,
        0 <= layer.alpha_place(h) < layer.geometry.value_heads * 2,
        0 <= layer.key_head(h) * 2 * layer.ratio(),
{
    lemma_ratio(layer);
    let r = layer.ratio();
    let k = layer.geometry.key_heads as int;
    value_heads_are_numbered_one_for_one(layer.value_layout, 0, 0, h, k, r);
    let head = layer.key_head(h);
    assert(0 <= head * 2 * r && head * 2 * r + 2 * r <= k * r * 2) by (nonlinear_arith)
        requires
            0 <= head < k,
            r > 0,
    ;
}

/// Brings every head of a row to a length of about one.
fn units<T: Copy, A: Arithmetic<T>>(math: &A, row: &[T], heads: usize, dim: usize) -> (out: Vec<T>)
    requires
        row@.len() == heads * dim,
    ensures
        out@ == units_of(*math, row@, dim as int, heads as int),
        out@.len() == heads * dim,
{
    let count: usize = row.len();
    let mut out: Vec<T> = Vec::new();
    let mut head: usize = 0;
    proof {
        assert(0 * dim == 0);
    }
    while head < heads
        invariant
            row@.len() == heads * dim,
            count == row@.len(),
            head <= heads,
            out@ == units_of(*math, row@, dim as int, head as int),
            out@.len() == head * dim,
        decreases heads - head,
    {
        proof {
            assert(0 <= head * dim && head * dim + dim <= heads * dim && head * dim + dim == (head
                + 1) * dim) by (nonlinear_arith)
                requires
                    0 <= head < heads,
                    0 <= dim,
            ;
        }
        let mut of_head = copied(slice_subrange(row, head * dim, head * dim + dim));
        normalize(math, &mut of_head);
        append_all(&mut out, of_head.as_slice());
        head += 1;
    }
    out
}

/// What each value head takes of a row of queries or keys.
fn keyed<T: Copy, A: Arithmetic<T>>(math: &A, layer: &QuantizedDeltaLayer, row: &[T]) -> (out: Vec<T>)
    requires
        layer.wf(),
        row@.len() == layer.geometry.key_width(),
    ensures
        out@ == keyed_of(*math, *layer, row@),
        out@.len() == layer.geometry.value_heads * layer.geometry.key_head_dim,
{
    let dim: usize = layer.geometry.key_head_dim;
    let key_heads: usize = layer.geometry.key_heads;
    let value_heads: usize = layer.geometry.value_heads;
    let ratio: usize = value_heads / key_heads;
    let of_heads = units(math, row, key_heads, dim);
    let count: usize = of_heads.len();
    let mut out: Vec<T> = Vec::new();
    let mut head: usize = 0;
    proof {
        assert(0 * dim == 0);
    }
    while head < value_heads
        invariant
            layer.wf(),
            dim == layer.geometry.key_head_dim,
            key_heads == layer.geometry.key_heads,
            value_heads == layer.geometry.value_heads,
            ratio == layer.ratio(),
            of_heads@.len() == key_heads * dim,
            count == of_heads@.len(),
            head <= value_heads,
            out@ == spread_of(*layer, of_heads@, head as int),
            out@.len() == head * dim,
        decreases value_heads - head,
    {
        proof {
            lemma_ratio(*layer);
            lemma_places(*layer, head as int);
        }
        let key_head: usize = match layer.value_layout {
            ValueHeadLayout::GroupedByKeyHead => head / ratio,
            ValueHeadLayout::TiledByRepeat => head % key_heads,
        };
        proof {
            assert(0 <= key_head * dim && key_head * dim + dim <= key_heads * dim)
                by (nonlinear_arith)
                requires
                    0 <= key_head < key_heads,
                    0 <= dim,
            ;
            assert(head * dim + dim == (head + 1) * dim) by (nonlinear_arith);
        }
        append_all(
            &mut out,
            slice_subrange(of_heads.as_slice(), key_head * dim, key_head * dim + dim),
        );
        head += 1;
    }
    out
}

/// The betas and the decays of a row.
fn row_parameters<T: Copy, A: Arithmetic<T>>(
    math: &A,
    layer: &QuantizedDeltaLayer,
    weights: &DeltaWeights<T>,
    parameters: &[T],
) -> (result: (Vec<T>, Vec<T>))
    requires
        layer.wf(),
        weights.wf(*layer),
        parameters@.len() == layer.geometry.value_heads * 2,
    ensures
        result.0@ == betas_of(*math, *layer, parameters@),
        result.1@ == decays_of(*math, *layer, *weights, parameters@),
{
    let key_heads: usize = layer.geometry.key_heads;
    let value_heads: usize = layer.geometry.value_heads;
    let ratio: usize = value_heads / key_heads;
    let mut betas: Vec<T> = Vec::new();
    let mut decays: Vec<T> = Vec::new();
    let mut head: usize = 0;
    while head < value_heads
        invariant
            layer.wf(),
            weights.wf(*layer),
            parameters@.len() == layer.geometry.value_heads * 2,
            key_heads == layer.geometry.key_heads,
            value_heads == layer.geometry.value_heads,
            ratio == layer.ratio(),
            head <= value_heads,
            betas@ == betas_of(*math, *layer, parameters@).take(head as int),
            decays@ == decays_of(*math, *layer, *weights, parameters@).take(head as int),
        decreases value_heads - head,
    {
        proof {
            lemma_ratio(*layer);
            lemma_places(*layer, head as int);
        }
        let (key_head, repeat): (usize, usize) = match layer.value_layout {
            ValueHeadLayout::GroupedByKeyHead => (head / ratio, head % ratio),
            ValueHeadLayout::TiledByRepeat => (head % key_heads, head / key_heads),
        };
        let (beta_at, alpha_at): (usize, usize) = match layer.beta_alpha_layout {
            BetaAlphaLayout::InterleavedByKeyHead => {
                proof {
                    let two = key_head * 2;
                    assert(two <= two * ratio) by (nonlinear_arith)
                        requires
                            two >= 0,
                            ratio > 0,
                    ;
                }
                let base: usize = key_head * 2 * ratio;
                (base + repeat, base + ratio + repeat)
            },
            BetaAlphaLayout::GroupedByProjection => (head, value_heads + head),
        };
        betas.push(sigmoid(math, parameters[beta_at]));
        let time: T = softplus(math, math.plus(parameters[alpha_at], weights.dt_bias[head]));
        decays.push(math.times(weights.state_scale[head], time));
        proof {
            assert(betas@ =~= betas_of(*math, *layer, parameters@).take(head + 1));
            assert(decays@ =~= decays_of(*math, *layer, *weights, parameters@).take(head + 1));
        }
        head += 1;
    }
    proof {
        assert(betas@ =~= betas_of(*math, *layer, parameters@));
        assert(decays@ =~= decays_of(*math, *layer, *weights, parameters@));
    }
    (betas, decays)
}

/// The state of every row has the layer's dimensions.
pub open spec fn state_fits<T>(layer: QuantizedDeltaLayer, state: RecurrenceView<T>) -> bool {
    &&& state.conv.len() == layer.geometry.conv_state_len()
    &&& state.recurrent.len() == layer.geometry.recurrent_state_len()
}

/// A step of the rule keeps the length of the state.
proof fn lemma_stepped_len<T, A: Arithmetic<T>>(
    math: A,
    q: Seq<T>,
    k: Seq<T>,
    v: Seq<T>,
    g: Seq<T>,
    beta: Seq<T>,
    key_dim: int,
    value_dim: int,
    state: Seq<T>,
    heads: int,
    all: int,
)
    requires
        0 <= heads <= all,
        0 <= key_dim,
        0 <= value_dim,
        state.len() == all * (key_dim * value_dim),
        v.len() == all * value_dim,
    ensures
        stepped_state(math, q, k, v, g, beta, key_dim, value_dim, state, heads).len() == heads * (
        key_dim * value_dim),
        stepped_output(math, q, k, v, g, beta, key_dim, value_dim, state, heads).len() == heads
            * value_dim,
    decreases heads,
{
    let b = key_dim * value_dim;
    assert(0 <= b) by (nonlinear_arith)
        requires
            b == key_dim * value_dim,
            0 <= key_dim,
            0 <= value_dim,
    ;
    if heads > 0 {
        lemma_stepped_len(
            math,
            q,
            k,
            v,
            g,
            beta,
            key_dim,
            value_dim,
            state,
            heads - 1,
            all,
        );
        assert(0 <= (heads - 1) * b && (heads - 1) * b + b == heads * b && heads * b <= all * b && 0
            <= (heads - 1) * value_dim && (heads - 1) * value_dim + value_dim == heads * value_dim
            && heads * value_dim <= all * value_dim) by (nonlinear_arith)
            requires
                0 < heads <= all,
                0 <= b,
                0 <= value_dim,
        ;
    } else {
        assert(0 * b == 0 && 0 * value_dim == 0) by (nonlinear_arith);
    }
}

/// Consumes one row: the convolution moves on, and the state of every head is
/// stepped.
pub fn advance_row<T: Copy, A: Arithmetic<T>, C: Clock>(
    math: &A,
    clock: &mut C,
    layer: &QuantizedDeltaLayer,
    weights: &DeltaWeights<T>,
    input: &[T],
    parameters: &[T],
    conv: &mut Vec<T>,
    recurrent: &mut Vec<T>,
) -> (result: (Vec<T>, DeltaTimes))
    requires
        layer.wf(),
        weights.wf(*layer),
        input@.len() == layer.geometry.conv_width(),
        parameters@.len() == layer.geometry.value_heads * 2,
        state_fits(
            *layer,
            (RecurrenceView { conv: old(conv)@, recurrent: old(recurrent)@ }),
        ),
    ensures
        (RecurrenceView { conv: final(conv)@, recurrent: final(recurrent)@ }) == after_row(
            *math,
            *layer,
            *weights,
            input@,
            parameters@,
            (RecurrenceView { conv: old(conv)@, recurrent: old(recurrent)@ }),
        ),
        state_fits(
            *layer,
            (RecurrenceView { conv: final(conv)@, recurrent: final(recurrent)@ }),
        ),
        result.0@ == row_output(
            *math,
            *layer,
            *weights,
            input@,
            parameters@,
            (RecurrenceView { conv: old(conv)@, recurrent: old(recurrent)@ }),
        ),
        result.0@.len() == layer.geometry.value_width(),
{
    let key_dim: usize = layer.geometry.key_dim();
    let conv_dim: usize = layer.geometry.conv_dim();
    let heads: usize = layer.geometry.value_heads;
    let head_keys: usize = layer.geometry.key_head_dim;
    let head_values: usize = layer.geometry.value_head_dim;
    let ghost before = RecurrenceView { conv: conv@, recurrent: recurrent@ };
    let started: u64 = clock.nanos();
    let convolved = causal_depthwise_conv_step(
        math,
        input,
        weights.conv_weight.as_slice(),
        layer.geometry.conv_kernel,
        conv,
    );
    let wound: u64 = clock.nanos();
    let q = keyed(math, layer, slice_subrange(convolved.as_slice(), 0, key_dim));
    let k = keyed(math, layer, slice_subrange(convolved.as_slice(), key_dim, key_dim * 2));
    let v = slice_subrange(convolved.as_slice(), key_dim * 2, conv_dim);
    let (betas, decays) = row_parameters(math, layer, weights, parameters);
    proof {
        assert(heads * head_keys * head_values == heads * (head_keys * head_values))
            by (nonlinear_arith);
        lemma_stepped_len(
            *math,
            q@,
            k@,
            v@,
            decays@,
            betas@,
            head_keys as int,
            head_values as int,
            recurrent@,
            heads as int,
            heads as int,
        );
    }
    let out = recurrent_delta_step(
        math,
        q.as_slice(),
        k.as_slice(),
        v,
        decays.as_slice(),
        betas.as_slice(),
        heads,
        head_keys,
        head_values,
        recurrent,
    );
    let stepped: u64 = clock.nanos();
    (
        out,
        DeltaTimes {
            convolution: elapsed(started, wound),
            recurrence: elapsed(wound, stepped),
            snapshot: 0,
        },
    )
}

/// The slots of an arena after the states before the first `n` rows were
/// stored.
pub open spec fn recorded<T, A: Arithmetic<T>>(
    slots: Seq<RecurrenceView<T>>,
    math: A,
    layer: QuantizedDeltaLayer,
    weights: DeltaWeights<T>,
    projected: Seq<T>,
    width: int,
    parameters: Seq<T>,
    state: RecurrenceView<T>,
    n: int,
) -> Seq<RecurrenceView<T>> {
    Seq::new(
        slots.len(),
        |r: int|
            if r < n {
                after_rows(math, layer, weights, projected, width, parameters, state, r)
            } else {
                slots[r]
            },
    )
}

/// How many rows an arena counts as stored after a pass of `seq` rows.
pub open spec fn stored_after(stored: nat, seq: int) -> nat {
    let last = if seq > 1 {
        seq
    } else {
        1
    };
    if last > stored {
        last as nat
    } else {
        stored
    }
}

/// Why a pass is refused, if it is.
pub open spec fn pass_problem<T>(
    layer: QuantizedDeltaLayer,
    state: RecurrenceView<T>,
    record: bool,
    slots: int,
    seq: int,
) -> Option<DeltaError> {
    if state.conv.len() != layer.geometry.conv_state_len() {
        Some(DeltaError::ConvolutionState)
    } else if state.recurrent.len() != layer.geometry.recurrent_state_len() {
        Some(DeltaError::RecurrentState)
    } else if record && slots < seq {
        Some(DeltaError::SnapshotRows { held: slots as usize, needed: seq as usize })
    } else {
        None
    }
}

/// The gates of a pass, row after row. They come out of a matrix of their own,
/// or follow the other projections of their row.
fn collect_gates<T: Copy>(
    layer: &QuantizedDeltaLayer,
    seq: usize,
    projected: &Vec<T>,
    width: usize,
    separate: &Option<Vec<T>>,
) -> (gates: Vec<T>)
    requires
        layer.wf(),
        match separate {
            Some(own) => own@.len() == seq * layer.geometry.value_width(),
            None => width == layer.geometry.conv_width() + layer.geometry.value_width()
                && projected@.len() == seq * width,
        },
    ensures
        gates@ == match separate {
            Some(own) => own@,
            None => trailing_gates(*layer, projected@, width as int, seq as int),
        },
{
    match separate {
        Some(own) => copied(own.as_slice()),
        None => {
            let count: usize = projected.len();
            let conv_dim: usize = layer.geometry.conv_dim();
            let mut gates: Vec<T> = Vec::new();
            let mut token: usize = 0;
            while token < seq
                invariant
                    layer.wf(),
                    conv_dim == layer.geometry.conv_width(),
                    width == layer.geometry.conv_width() + layer.geometry.value_width(),
                    projected@.len() == seq * width,
                    count == projected@.len(),
                    token <= seq,
                    gates@ == trailing_gates(*layer, projected@, width as int, token as int),
                decreases seq - token,
            {
                proof {
                    assert(0 <= token * width && token * width + width == (token + 1) * width && (
                    token + 1) * width <= seq * width) by (nonlinear_arith)
                        requires
                            0 <= token < seq,
                            0 <= width,
                    ;
                    assert(layer.geometry.value_width() >= 0) by (nonlinear_arith)
                        requires
                            layer.geometry.value_width() == layer.geometry.value_heads
                                * layer.geometry.value_head_dim,
                    ;
                }
                append_all(
                    &mut gates,
                    slice_subrange(
                        projected.as_slice(),
                        token * width + conv_dim,
                        token * width + width,
                    ),
                );
                token += 1;
            }
            gates
        },
    }
}

impl QuantizedDeltaLayer {
    /// Runs the rows of a pass one after the other, and records the state before
    /// each row where snapshots are asked for.
    ///
    /// Slot `r` is written before row `r` is consumed, so that the state after the
    /// last row has no slot: a draft that is accepted as a whole needs no rollback.
    pub fn forward_with_snapshots<T: Copy, A: Arithmetic<T>, C: Clock>(
        &self,
        math: &A,
        clock: &mut C,
        weights: &DeltaWeights<T>,
        seq: usize,
        projected: &Vec<T>,
        separate_gates: &Option<Vec<T>>,
        projected_ba: &Vec<T>,
        state: &mut QuantizedDeltaState<T>,
        record: bool,
        snapshots: &mut QuantizedDeltaSnapshots<T>,
        nontemporal: bool,
    ) -> (result: Result<DeltaTimes, DeltaError>)
        requires
            self.wf(),
            weights.wf(*self),
            old(snapshots).wf(),
            seq * self.geometry.value_width() <= usize::MAX,
            projected@.len() == seq * pass_width(*self, separate_gates is Some),
            projected_ba@.len() == seq * (self.geometry.value_heads * 2),
            separate_gates matches Some(own) ==> own@.len() == seq * self.geometry.value_width(),
            record && pass_problem(
                *self,
                old(state)@,
                record,
                old(snapshots)@.slots.len() as int,
                seq as int,
            ) is None ==> {
                &&& old(snapshots)@.conv_len == self.geometry.conv_state_len()
                &&& old(snapshots)@.recurrent_len == self.geometry.recurrent_state_len()
                &&& old(snapshots)@.slots.len() > 0
            },
        ensures
            final(snapshots).wf(),
            final(snapshots)@.conv_len == old(snapshots)@.conv_len,
            final(snapshots)@.recurrent_len == old(snapshots)@.recurrent_len,
            match pass_problem(
                *self,
                old(state)@,
                record,
                old(snapshots)@.slots.len() as int,
                seq as int,
            ) {
                Some(problem) => {
                    &&& result == Err::<DeltaTimes, DeltaError>(problem)
                    &&& final(state)@ == old(state)@
                    &&& final(snapshots)@ == old(snapshots)@
                },
                None => {
                    let width = pass_width(*self, separate_gates is Some);
                    &&& result is Ok
                    &&& final(state)@ == after_rows(
                        *math,
                        *self,
                        *weights,
                        projected@,
                        width,
                        projected_ba@,
                        old(state)@,
                        seq as int,
                    )
                    &&& final(state).scratch.recurrent_output@ == rows_output(
                        *math,
                        *self,
                        *weights,
                        projected@,
                        width,
                        projected_ba@,
                        old(state)@,
                        seq as int,
                    )
                    &&& final(state).scratch.gates@ == match separate_gates {
                        Some(own) => own@,
                        None => trailing_gates(*self, projected@, width, seq as int),
                    }
                    &&& if record {
                        &&& final(snapshots)@.slots == recorded(
                            old(snapshots)@.slots,
                            *math,
                            *self,
                            *weights,
                            projected@,
                            width,
                            projected_ba@,
                            old(state)@,
                            if seq > 1 {
                                seq as int
                            } else {
                                1
                            },
                        )
                        &&& final(snapshots)@.stored_rows == stored_after(
                            old(snapshots)@.stored_rows,
                            seq as int,
                        )
                    } else {
                        final(snapshots)@ == old(snapshots)@
                    }
                },
            },
    {
        let conv_dim: usize = self.geometry.conv_dim();
        let value_dim: usize = self.geometry.value_dim();
        let pairs: usize = self.geometry.value_heads * 2;
        let ghost before = state@;
        let ghost slots = snapshots@.slots;
        let ghost width_of = pass_width(*self, separate_gates is Some);
        if state.conv.len() != self.geometry.conv_len() {
            return Err(DeltaError::ConvolutionState);
        }
        if state.recurrent.len() != self.geometry.recurrent_len() {
            return Err(DeltaError::RecurrentState);
        }
        if record && snapshots.rows() < seq {
            return Err(DeltaError::SnapshotRows { held: snapshots.rows(), needed: seq });
        }
        let width: usize = match separate_gates {
            Some(_) => conv_dim,
            None => conv_dim + value_dim,
        };
        let gates = collect_gates(self, seq, projected, width, separate_gates);
        let mut times = DeltaTimes { convolution: 0, recurrence: 0, snapshot: 0 };
        if record {
            let started: u64 = clock.nanos();
            snapshots.store(0, state.conv.as_slice(), state.recurrent.as_slice(), nontemporal);
            times.snapshot = elapsed(started, clock.nanos());
            proof {
                assert(snapshots@.slots =~= recorded(
                    slots,
                    *math,
                    *self,
                    *weights,
                    projected@,
                    width as int,
                    projected_ba@,
                    before,
                    1,
                ));
            }
        }
        let count: usize = projected.len();
        let pairs_count: usize = projected_ba.len();
        let mut outputs: Vec<T> = Vec::new();
        let mut token: usize = 0;
        while token < seq
            invariant
                self.wf(),
                weights.wf(*self),
                conv_dim == self.geometry.conv_width(),
                pairs == self.geometry.value_heads * 2,
                width == width_of,
                width >= conv_dim,
                projected@.len() == seq * width,
                count == projected@.len(),
                projected_ba@.len() == seq * pairs,
                pairs_count == projected_ba@.len(),
                token <= seq,
                state_fits(*self, state@),
                state@ == after_rows(
                    *math,
                    *self,
                    *weights,
                    projected@,
                    width as int,
                    projected_ba@,
                    before,
                    token as int,
                ),
                outputs@ == rows_output(
                    *math,
                    *self,
                    *weights,
                    projected@,
                    width as int,
                    projected_ba@,
                    before,
                    token as int,
                ),
                slots == old(snapshots)@.slots,
                snapshots.wf(),
                snapshots@.conv_len == old(snapshots)@.conv_len,
                snapshots@.recurrent_len == old(snapshots)@.recurrent_len,
                !record ==> snapshots@ == old(snapshots)@,
                record ==> {
                    &&& slots.len() >= seq
                    &&& slots.len() > 0
                    &&& snapshots@.conv_len == self.geometry.conv_state_len()
                    &&& snapshots@.recurrent_len == self.geometry.recurrent_state_len()
                    &&& snapshots@.slots == recorded(
                        slots,
                        *math,
                        *self,
                        *weights,
                        projected@,
                        width as int,
                        projected_ba@,
                        before,
                        recorded_before(token as int, seq as int),
                    )
                    &&& snapshots@.stored_rows == stored_after(
                        old(snapshots)@.stored_rows,
                        recorded_before(token as int, seq as int),
                    )
                },
            decreases seq - token,
        {
            proof {
                assert(0 <= token * width && token * width + width <= seq * width) by (nonlinear_arith)
                    requires
                        0 <= token < seq,
                        0 <= width,
                ;
                assert(0 <= token * pairs && token * pairs + pairs <= seq * pairs) by (nonlinear_arith)
                    requires
                        0 <= token < seq,
                        0 <= pairs,
                ;
            }
            let start: usize = token * width;
            let input = slice_subrange(projected.as_slice(), start, start + conv_dim);
            let pair_start: usize = token * pairs;
            let parameters = slice_subrange(projected_ba.as_slice(), pair_start, pair_start + pairs);
            let (row, spent) = advance_row(
                math,
                clock,
                self,
                weights,
                input,
                parameters,
                &mut state.conv,
                &mut state.recurrent,
            );
            append_all(&mut outputs, row.as_slice());
            times =
            DeltaTimes {
                convolution: times.convolution.saturating_add(spent.convolution),
                recurrence: times.recurrence.saturating_add(spent.recurrence),
                snapshot: times.snapshot,
            };
            if record && token + 1 < seq {
                let started: u64 = clock.nanos();
                let ghost held = snapshots@.slots;
                snapshots.store(
                    token + 1,
                    state.conv.as_slice(),
                    state.recurrent.as_slice(),
                    nontemporal,
                );
                times.snapshot = times.snapshot.saturating_add(elapsed(started, clock.nanos()));
                proof {
                    assert(snapshots@.slots =~= recorded(
                        slots,
                        *math,
                        *self,
                        *weights,
                        projected@,
                        width as int,
                        projected_ba@,
                        before,
                        token + 2,
                    ));
                }
            }
            token += 1;
        }
        state.scratch.recurrent_output = outputs;
        state.scratch.gates = gates;
        Ok(times)
    }
}

/// How many slots are written before a row is consumed.
pub open spec fn recorded_before(token: int, seq: int) -> int {
    if token + 1 < seq {
        token + 1
    } else if seq > 1 {
        seq
    } else {
        1
    }
}

/// The numbers of one projected row: with its gates, unless these come out of a
/// matrix of their own.
pub open spec fn pass_width(layer: QuantizedDeltaLayer, separate: bool) -> int {
    if separate {
        layer.geometry.conv_width()
    } else {
        layer.geometry.conv_width() + layer.geometry.value_width()
    }
}

/// The state before a row of a pass is the state after a pass over the rows
/// before it alone, so that a slot restores what a sequential decode holds
/// after committing those rows.
pub proof fn a_slot_is_a_shorter_pass<T, A: Arithmetic<T>>(
    math: A,
    layer: QuantizedDeltaLayer,
    weights: DeltaWeights<T>,
    projected: Seq<T>,
    width: int,
    parameters: Seq<T>,
    state: RecurrenceView<T>,
    rows: int,
    n: int,
)
    requires
        0 <= n <= rows,
        layer.geometry.conv_width() <= width,
        projected.len() == rows * width,
        parameters.len() == rows * (layer.geometry.value_heads * 2),
    ensures
        after_rows(math, layer, weights, projected, width, parameters, state, n) == after_rows(
            math,
            layer,
            weights,
            projected.take(n * width),
            width,
            parameters.take(n * (layer.geometry.value_heads * 2)),
            state,
            n,
        ),
{
    lemma_shorter(math, layer, weights, projected, width, parameters, state, rows, n, n);
}

proof fn lemma_shorter<T, A: Arithmetic<T>>(
    math: A,
    layer: QuantizedDeltaLayer,
    weights: DeltaWeights<T>,
    projected: Seq<T>,
    width: int,
    parameters: Seq<T>,
    state: RecurrenceView<T>,
    rows: int,
    kept: int,
    n: int,
)
    requires
        0 <= n <= kept <= rows,
        layer.geometry.conv_width() <= width,
        projected.len() == rows * width,
        parameters.len() == rows * (layer.geometry.value_heads * 2),
    ensures
        after_rows(math, layer, weights, projected, width, parameters, state, n) == after_rows(
            math,
            layer,
            weights,
            projected.take(kept * width),
            width,
            parameters.take(kept * (layer.geometry.value_heads * 2)),
            state,
            n,
        ),
    decreases n,
{
    if n > 0 {
        lemma_shorter(
            math,
            layer,
            weights,
            projected,
            width,
            parameters,
            state,
            rows,
            kept,
            n - 1,
        );
        let pairs = layer.geometry.value_heads * 2;
        let conv = layer.geometry.conv_width();
        assert(layer.geometry.conv_width() >= 0) by {
            assert(layer.geometry.key_width() >= 0) by (nonlinear_arith)
                requires
                    layer.geometry.key_width() == layer.geometry.key_heads
                        * layer.geometry.key_head_dim,
            ;
            assert(layer.geometry.value_width() >= 0) by (nonlinear_arith)
                requires
                    layer.geometry.value_width() == layer.geometry.value_heads
                        * layer.geometry.value_head_dim,
            ;
        }
        assert(0 <= (n - 1) * width && (n - 1) * width + width <= kept * width && kept * width
            <= rows * width && 0 <= (n - 1) * pairs && (n - 1) * pairs + pairs <= kept * pairs
            && kept * pairs <= rows * pairs) by (nonlinear_arith)
            requires
                0 < n <= kept <= rows,
                0 <= width,
                0 <= pairs,
        ;
        assert(row_start_of(projected, n - 1, width, conv) =~= row_start_of(
            projected.take(kept * width),
            n - 1,
            width,
            conv,
        ));
        assert(row_start_of(parameters, n - 1, pairs, pairs) =~= row_start_of(
            parameters.take(kept * pairs),
            n - 1,
            pairs,
            pairs,
        ));
    }
}

} // verus!
