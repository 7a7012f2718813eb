//! Which tensors of a checkpoint make a decoder layer, and whether they fit
//! together.

use super::attention::{AttentionError, QuantizedAttentionLayer};
use super::attention_state::{CacheView, QuantizedAttentionState};
use super::delta::BetaAlphaLayout;
use super::delta_layer::{layout_of, DeltaError, QuantizedDeltaLayer};
use super::delta_state::{DeltaGeometry, QuantizedDeltaState};
use super::experts::{block_name, block_tensor};
use super::moe::MoeError;
use super::pass::ModelError;
use crate::buffers::repeated;
use crate::config::Qwen3NextConfig;
use crate::gguf::{tensor_of, GgmlType, GgufCheckpoint, GgufError, HeaderTensor};
use vstd::prelude::*;

verus! {

/// Why a layer cannot be made from a checkpoint.
#[derive(Debug, Clone, PartialEq, Eq)]
pub enum LayerError {
    /// A tensor is missing or cannot be executed as a matrix.
    Tensor(GgufError),
    /// The matrices of an attention layer do not fit together.
    Attention(AttentionError),
    /// The matrices of a linear-attention layer do not fit together.
    Delta(DeltaError),
    /// Betas and alphas are projected from inputs of different widths.
    BetaAlphaColumns,
    /// The tensors of a layer's experts do not fit together.
    Moe(MoeError),
    /// The tensors of the model around its mixers do not fit.
    Model(ModelError),
}

/// Whether a name is that of a matrix that can be executed.
pub open spec fn has_matrix(tensors: Seq<HeaderTensor>, name: Seq<char>) -> bool {
    match tensor_of(tensors, name) {
        Some(t) => t.shape@.len() == 2 && t.dtype.executable(),
        None => false,
    }
}

/// Whether an error says why a name is not that of a matrix that can be
/// executed.
pub open spec fn refuses(error: GgufError, tensors: Seq<HeaderTensor>, name: Seq<char>) -> bool {
    match tensor_of(tensors, name) {
        None => error matches GgufError::MissingTensor { name: n } && n@ == name,
        Some(t) => if t.shape@.len() != 2 {
            error matches GgufError::NotAMatrix { name: n, shape } && n@ == name && shape@
                == t.shape@
        } else {
            error matches GgufError::UnsupportedType { dtype } && dtype == t.dtype
                && !t.dtype.executable()
        },
    }
}

/// The shape of a tensor.
pub open spec fn shape_of(tensors: Seq<HeaderTensor>, name: Seq<char>) -> Seq<usize> {
    tensor_of(tensors, name)->Some_0.shape@
}

/// The element type of a tensor.
pub open spec fn type_of(tensors: Seq<HeaderTensor>, name: Seq<char>) -> GgmlType {
    tensor_of(tensors, name)->Some_0.dtype
}

/// The shape and the element type of a matrix that can be executed.
pub fn load_matrix(checkpoint: &GgufCheckpoint, name: &str) -> (matrix: Result<
    ([usize; 2], GgmlType),
    LayerError,
>)
    ensures
        match matrix {
            Ok(matrix) => {
                &&& has_matrix(checkpoint.tensors@, name@)
                &&& matrix.0@ == shape_of(checkpoint.tensors@, name@)
                &&& matrix.1 == type_of(checkpoint.tensors@, name@)
            },
            Err(LayerError::Tensor(error)) => {
                &&& !has_matrix(checkpoint.tensors@, name@)
                &&& refuses(error, checkpoint.tensors@, name@)
            },
            Err(_) => false,
        },
{
    match checkpoint.load_matrix(name) {
        Ok(tensor) => {
            if !tensor.dtype.is_executable() {
                return Err(LayerError::Tensor(GgufError::UnsupportedType { dtype: tensor.dtype }));
            }
            let shape: [usize; 2] = [tensor.shape[0], tensor.shape[1]];
            proof {
                assert(shape@ =~= tensor.shape@);
            }
            Ok((shape, tensor.dtype))
        },
        Err(error) => Err(LayerError::Tensor(error)),
    }
}

/// The first of the names that is not that of a matrix that can be executed.
pub open spec fn first_missing(tensors: Seq<HeaderTensor>, names: Seq<Seq<char>>) -> Option<
    Seq<char>,
>
    decreases names.len(),
{
    if names.len() == 0 {
        None
    } else if !has_matrix(tensors, names[0]) {
        Some(names[0])
    } else {
        first_missing(tensors, names.skip(1))
    }
}

/// The first name decides unless it is that of a matrix.
proof fn lemma_first_missing(tensors: Seq<HeaderTensor>, name: Seq<char>, rest: Seq<Seq<char>>)
    ensures
        first_missing(tensors, seq![name] + rest) == if has_matrix(tensors, name) {
            first_missing(tensors, rest)
        } else {
            Some(name)
        },
{
    let names = seq![name] + rest;
    assert(names[0] == name);
    assert(names.skip(1) =~= rest);
}

/// Of four names, the first without a matrix.
proof fn lemma_four(
    tensors: Seq<HeaderTensor>,
    a: Seq<char>,
    b: Seq<char>,
    c: Seq<char>,
    d: Seq<char>,
)
    ensures
        first_missing(tensors, seq![a, b, c, d]) == if !has_matrix(tensors, a) {
            Some(a)
        } else if !has_matrix(tensors, b) {
            Some(b)
        } else if !has_matrix(tensors, c) {
            Some(c)
        } else if !has_matrix(tensors, d) {
            Some(d)
        } else {
            None
        },
{
    let none = Seq::<Seq<char>>::empty();
    lemma_first_missing(tensors, d, none);
    lemma_first_missing(tensors, c, seq![d]);
    lemma_first_missing(tensors, b, seq![c, d]);
    lemma_first_missing(tensors, a, seq![b, c, d]);
    assert(seq![d] + none =~= seq![d]);
    assert(seq![c] + seq![d] =~= seq![c, d]);
    assert(seq![b] + seq![c, d] =~= seq![b, c, d]);
    assert(seq![a] + seq![b, c, d] =~= seq![a, b, c, d]);
}

/// The same for three names.
proof fn lemma_three(tensors: Seq<HeaderTensor>, a: Seq<char>, b: Seq<char>, c: Seq<char>)
    ensures
        first_missing(tensors, seq![a, b, c]) == if !has_matrix(tensors, a) {
            Some(a)
        } else if !has_matrix(tensors, b) {
            Some(b)
        } else if !has_matrix(tensors, c) {
            Some(c)
        } else {
            None
        },
{
    let none = Seq::<Seq<char>>::empty();
    lemma_first_missing(tensors, c, none);
    lemma_first_missing(tensors, b, seq![c]);
    lemma_first_missing(tensors, a, seq![b, c]);
    assert(seq![c] + none =~= seq![c]);
    assert(seq![b] + seq![c] =~= seq![b, c]);
    assert(seq![a] + seq![b, c] =~= seq![a, b, c]);
}

/// The matrices of an attention layer, in the order in which they are read.
pub open spec fn attention_names(layer: int) -> Seq<Seq<char>> {
    seq![
        block_tensor(layer, ".attn_q.weight"@),
        block_tensor(layer, ".attn_k.weight"@),
        block_tensor(layer, ".attn_v.weight"@),
        block_tensor(layer, ".attn_output.weight"@),
    ]
}

/// The attention layer of a configuration.
pub open spec fn attention_of(config: Qwen3NextConfig) -> QuantizedAttentionLayer {
    QuantizedAttentionLayer {
        hidden_size: config.hidden_size,
        query_heads: config.num_attention_heads,
        kv_heads: config.num_key_value_heads,
        head_dim: config.head_dim,
        rotary_dim: config.rotary_dim,
    }
}

/// Whether a result is what loading an attention layer gives.
pub open spec fn is_attention_layer(
    result: Result<QuantizedAttentionLayer, LayerError>,
    tensors: Seq<HeaderTensor>,
    config: Qwen3NextConfig,
    layer: int,
) -> bool {
    let names = attention_names(layer);
    match first_missing(tensors, names) {
        Some(name) => result matches Err(LayerError::Tensor(error)) && refuses(
            error,
            tensors,
            name,
        ),
        None => match attention_of(config).matrix_problem(
            shape_of(tensors, names[0]),
            shape_of(tensors, names[1]),
            shape_of(tensors, names[2]),
            shape_of(tensors, names[3]),
        ) {
            Some(problem) => result == Err::<QuantizedAttentionLayer, LayerError>(
                LayerError::Attention(problem),
            ),
            None => result == Ok::<QuantizedAttentionLayer, LayerError>(attention_of(config)),
        },
    }
}

impl QuantizedAttentionLayer {
    /// Accepts the matrices of an attention layer if they are all there and fit
    /// together.
    pub fn load_matrices(
        checkpoint: &GgufCheckpoint,
        config: &Qwen3NextConfig,
        layer: usize,
    ) -> (result: Result<QuantizedAttentionLayer, LayerError>)
        requires
            attention_of(*config).fits(),
        ensures
            is_attention_layer(result, checkpoint.tensors@, *config, layer as int),
    {
        let query_name = block_name(layer, ".attn_q.weight");
        let key_name = block_name(layer, ".attn_k.weight");
        let value_name = block_name(layer, ".attn_v.weight");
        let output_name = block_name(layer, ".attn_output.weight");
        proof {
            lemma_four(checkpoint.tensors@, query_name@, key_name@, value_name@, output_name@);
            assert(attention_names(layer as int) =~= seq![
                query_name@,
                key_name@,
                value_name@,
                output_name@,
            ]);
        }
        let query = match load_matrix(checkpoint, query_name.as_str()) {
            Ok(matrix) => matrix.0,
            Err(error) => {
                return Err(error);
            },
        };
        let key = match load_matrix(checkpoint, key_name.as_str()) {
            Ok(matrix) => matrix.0,
            Err(error) => {
                return Err(error);
            },
        };
        let value = match load_matrix(checkpoint, value_name.as_str()) {
            Ok(matrix) => matrix.0,
            Err(error) => {
                return Err(error);
            },
        };
        let output = match load_matrix(checkpoint, output_name.as_str()) {
            Ok(matrix) => matrix.0,
            Err(error) => {
                return Err(error);
            },
        };
        let made: QuantizedAttentionLayer = QuantizedAttentionLayer::of(config);
        match made.check_matrices(query, key, value, output) {
            Ok(_) => Ok(made),
            Err(problem) => Err(LayerError::Attention(problem)),
        }
    }

    /// The cache of a sequence without tokens.
    pub fn new_state<T>(&self) -> (state: QuantizedAttentionState<T>)
        ensures
            state@ == (CacheView {
                keys: Seq::<T>::empty(),
                values: Seq::<T>::empty(),
                positions: 0,
            }),
    {
        QuantizedAttentionState::empty()
    }
}

/// Whether betas and alphas come out of one matrix.
pub open spec fn fused_beta_alpha(tensors: Seq<HeaderTensor>, layer: int) -> bool {
    tensor_of(tensors, block_tensor(layer, ".ssm_ba.weight"@)) is Some
}

/// The input matrices of a linear-attention layer, in the order in which they
/// are read.
pub open spec fn delta_names(tensors: Seq<HeaderTensor>, layer: int) -> Seq<Seq<char>> {
    if fused_beta_alpha(tensors, layer) {
        seq![
            block_tensor(layer, ".attn_qkv.weight"@),
            block_tensor(layer, ".attn_gate.weight"@),
            block_tensor(layer, ".ssm_ba.weight"@),
        ]
    } else {
        seq![
            block_tensor(layer, ".attn_qkv.weight"@),
            block_tensor(layer, ".attn_gate.weight"@),
            block_tensor(layer, ".ssm_beta.weight"@),
            block_tensor(layer, ".ssm_alpha.weight"@),
        ]
    }
}

/// The shape of the matrix of betas and alphas: where they are two matrices, the
/// rows of the first come before those of the second.
pub open spec fn beta_alpha_shape(tensors: Seq<HeaderTensor>, layer: int) -> Seq<usize> {
    if fused_beta_alpha(tensors, layer) {
        shape_of(tensors, block_tensor(layer, ".ssm_ba.weight"@))
    } else {
        let beta = shape_of(tensors, block_tensor(layer, ".ssm_beta.weight"@));
        let alpha = shape_of(tensors, block_tensor(layer, ".ssm_alpha.weight"@));
        seq![(beta[0] + alpha[0]) as usize, beta[1]]
    }
}

/// Whether two matrices of betas and alphas can be put one above the other.
pub open spec fn beta_alpha_join(tensors: Seq<HeaderTensor>, layer: int) -> bool {
    fused_beta_alpha(tensors, layer) || {
        let beta = shape_of(tensors, block_tensor(layer, ".ssm_beta.weight"@));
        let alpha = shape_of(tensors, block_tensor(layer, ".ssm_alpha.weight"@));
        beta[1] == alpha[1] && beta[0] + alpha[0] <= usize::MAX
    }
}

/// The linear-attention layer of a configuration.
pub open spec fn delta_of(config: Qwen3NextConfig, fused: bool) -> QuantizedDeltaLayer {
    QuantizedDeltaLayer {
        hidden_size: config.hidden_size,
        geometry: DeltaGeometry {
            key_heads: config.linear_num_key_heads,
            value_heads: config.linear_num_value_heads,
            key_head_dim: config.linear_key_head_dim,
            value_head_dim: config.linear_value_head_dim,
            conv_kernel: config.linear_conv_kernel_dim,
        },
        value_layout: layout_of(config.model_type@),
        beta_alpha_layout: if fused {
            BetaAlphaLayout::InterleavedByKeyHead
        } else {
            BetaAlphaLayout::GroupedByProjection
        },
    }
}

/// A linear-attention layer, and whether its gates are a matrix of their own
/// because they have another element type than queries, keys and values.
#[derive(Debug, Clone, Copy, PartialEq, Eq, Structural)]
pub struct LoadedDelta {
    pub layer: QuantizedDeltaLayer,
    pub separate_gates: bool,
}

/// Whether a result is what loading a linear-attention layer gives.
pub open spec fn is_delta_layer(
    result: Result<LoadedDelta, LayerError>,
    tensors: Seq<HeaderTensor>,
    config: Qwen3NextConfig,
    layer: int,
) -> bool {
    let names = delta_names(tensors, layer);
    let output = block_tensor(layer, ".ssm_out.weight"@);
    let made = delta_of(config, fused_beta_alpha(tensors, layer));
    match first_missing(tensors, names) {
        Some(name) => result matches Err(LayerError::Tensor(error)) && refuses(
            error,
            tensors,
            name,
        ),
        None => if !beta_alpha_join(tensors, layer) {
            result == Err::<LoadedDelta, LayerError>(LayerError::BetaAlphaColumns)
        } else if !has_matrix(tensors, output) {
            result matches Err(LayerError::Tensor(error)) && refuses(error, tensors, output)
        } else {
            match made.matrix_problem(
                shape_of(tensors, names[0]),
                shape_of(tensors, names[1]),
                beta_alpha_shape(tensors, layer),
                shape_of(tensors, output),
            ) {
                Some(problem) => result == Err::<LoadedDelta, LayerError>(
                    LayerError::Delta(problem),
                ),
                None => result == Ok::<LoadedDelta, LayerError>(
                    LoadedDelta {
                        layer: made,
                        separate_gates: type_of(tensors, names[0]) != type_of(tensors, names[1]),
                    },
                ),
            }
        },
    }
}

impl QuantizedDeltaLayer {
    /// Accepts the matrices of a linear-attention layer if they are all there
    /// and fit together.
    pub fn load_matrices(
        checkpoint: &GgufCheckpoint,
        config: &Qwen3NextConfig,
        layer: usize,
    ) -> (result: Result<LoadedDelta, LayerError>)
        requires
            delta_of(*config, true).shapes_fit(),
        ensures
            is_delta_layer(result, checkpoint.tensors@, *config, layer as int),
    {
        let ghost tensors = checkpoint.tensors@;
        let qkv_name = block_name(layer, ".attn_qkv.weight");
        let gate_name = block_name(layer, ".attn_gate.weight");
        let fused_name = block_name(layer, ".ssm_ba.weight");
        let beta_name = block_name(layer, ".ssm_beta.weight");
        let alpha_name = block_name(layer, ".ssm_alpha.weight");
        let output_name = block_name(layer, ".ssm_out.weight");
        let fused: bool = checkpoint.tensor(fused_name.as_str()).is_some();
        proof {
            lemma_three(tensors, qkv_name@, gate_name@, fused_name@);
            lemma_four(tensors, qkv_name@, gate_name@, beta_name@, alpha_name@);
            assert(fused == fused_beta_alpha(tensors, layer as int));
            if fused {
                assert(delta_names(tensors, layer as int) =~= seq![
                    qkv_name@,
                    gate_name@,
                    fused_name@,
                ]);
            } else {
                assert(delta_names(tensors, layer as int) =~= seq![
                    qkv_name@,
                    gate_name@,
                    beta_name@,
                    alpha_name@,
                ]);
            }
        }
        let (qkv, qkv_type) = match load_matrix(checkpoint, qkv_name.as_str()) {
            Ok(matrix) => matrix,
            Err(error) => {
                return Err(error);
            },
        };
        let (gate, gate_type) = match load_matrix(checkpoint, gate_name.as_str()) {
            Ok(matrix) => matrix,
            Err(error) => {
                return Err(error);
            },
        };
        let (first, second) = if fused {
            match load_matrix(checkpoint, fused_name.as_str()) {
                Ok(matrix) => (matrix.0, None),
                Err(error) => {
                    return Err(error);
                },
            }
        } else {
            let beta = match load_matrix(checkpoint, beta_name.as_str()) {
                Ok(matrix) => matrix.0,
                Err(error) => {
                    return Err(error);
                },
            };
            match load_matrix(checkpoint, alpha_name.as_str()) {
                Ok(matrix) => (beta, Some(matrix.0)),
                Err(error) => {
                    return Err(error);
                },
            }
        };
        let beta_alpha: [usize; 2] = match second {
            None => first,
            Some(alpha) => {
                if first[1] != alpha[1] {
                    return Err(LayerError::BetaAlphaColumns);
                }
                match first[0].checked_add(alpha[0]) {
                    Some(rows) => [rows, first[1]],
                    None => {
                        return Err(LayerError::BetaAlphaColumns);
                    },
                }
            },
        };
        proof {
            assert(beta_alpha@ =~= beta_alpha_shape(tensors, layer as int));
        }
        let output = match load_matrix(checkpoint, output_name.as_str()) {
            Ok(matrix) => matrix.0,
            Err(error) => {
                return Err(error);
            },
        };
        let made: QuantizedDeltaLayer = QuantizedDeltaLayer::of(config, fused);
        proof {
            assert(made == delta_of(*config, fused));
        }
        match made.check_matrices(qkv, gate, beta_alpha, output) {
            Ok(_) => Ok(LoadedDelta { layer: made, separate_gates: qkv_type != gate_type }),
            Err(problem) => Err(LayerError::Delta(problem)),
        }
    }

    /// The state of a sequence without tokens: all zeros.
    pub fn new_state<T: Copy>(&self, zero: T) -> (state: QuantizedDeltaState<T>)
        requires
            self.geometry.fits(),
        ensures
            state@.conv == repeated(zero, self.geometry.conv_state_len()),
            state@.recurrent == repeated(zero, self.geometry.recurrent_state_len()),
    {
        QuantizedDeltaState::with_geometry(&self.geometry, zero)
    }
}

} // verus!
