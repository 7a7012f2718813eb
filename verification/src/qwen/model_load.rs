//! Whether a compressed checkpoint makes a whole model: every tensor of every
//! layer in the order in which it is read, and the first thing that is wrong.

use super::attention::{AttentionError, QuantizedAttentionLayer};
use super::delta_layer::{DeltaError, QuantizedDeltaLayer};
use super::experts::{block_name, block_tensor, is_moe_shape, QuantizedMoeLayer};
use super::layers::{
    attention_names, attention_of, beta_alpha_join, beta_alpha_shape, delta_names, delta_of,
    first_missing, fused_beta_alpha, has_matrix, load_matrix, refuses, shape_of, type_of, LayerError, LoadedDelta,
};
use super::attention_state::{CacheView, QuantizedAttentionState};
use super::delta_state::{DeltaGeometry, QuantizedDeltaState, RecurrenceView};
use super::model_state::{LayerView, QuantizedModelState, QuantizedMtpState};
use super::moe::MoeError;
use super::pass::{
    check_draft_config, check_draft_norms, check_draft_projection, check_embedding,
    check_final_norm, check_head, check_layer_kind, check_layer_norms, drafts, ModelError,
};
use crate::buffers::repeated;
use crate::config::{LayerType, Qwen3NextConfig};
use crate::gguf::{
    element_count, elements, lemma_tensor_of, tensor_of, GgmlType, GgufCheckpoint, GgufError,
    HeaderTensor,
};
use vstd::prelude::*;

verus! {

/// What a [`LayerError`] says.
pub ghost enum LoadProblem {
    MissingTensor { name: Seq<char> },
    NotAMatrix { name: Seq<char>, shape: Seq<usize> },
    UnsupportedType { dtype: GgmlType },
    Attention(AttentionError),
    Delta(DeltaError),
    BetaAlphaColumns,
    Moe(MoeError),
    Model(ModelError),
    Other,
}

impl View for LayerError {
    type V = LoadProblem;

    open spec fn view(&self) -> LoadProblem {
        match self {
            LayerError::Tensor(GgufError::MissingTensor { name }) => LoadProblem::MissingTensor {
                name: name@,
            },
            LayerError::Tensor(GgufError::NotAMatrix { name, shape }) => LoadProblem::NotAMatrix {
                name: name@,
                shape: shape@,
            },
            LayerError::Tensor(GgufError::UnsupportedType { dtype }) =>
                LoadProblem::UnsupportedType { dtype: *dtype },
            LayerError::Tensor(_) => LoadProblem::Other,
            LayerError::Attention(error) => LoadProblem::Attention(*error),
            LayerError::Delta(error) => LoadProblem::Delta(*error),
            LayerError::BetaAlphaColumns => LoadProblem::BetaAlphaColumns,
            LayerError::Moe(MoeError::MissingTensor { name }) => LoadProblem::MissingTensor {
                name: name@,
            },
            LayerError::Moe(error) => LoadProblem::Moe(*error),
            LayerError::Model(error) => LoadProblem::Model(*error),
        }
    }
}

/// Why a name is not that of a matrix that can be executed, if it is not.
pub open spec fn matrix_problem(tensors: Seq<HeaderTensor>, name: Seq<char>) -> Option<
    LoadProblem,
> {
    match tensor_of(tensors, name) {
        None => Some(LoadProblem::MissingTensor { name }),
        Some(t) => if t.shape@.len() != 2 {
            Some(LoadProblem::NotAMatrix { name, shape: t.shape@ })
        } else if !t.dtype.executable() {
            Some(LoadProblem::UnsupportedType { dtype: t.dtype })
        } else {
            None
        },
    }
}

/// Why the first of the names that is not that of a matrix is not, if one is.
pub open spec fn matrices_problem(tensors: Seq<HeaderTensor>, names: Seq<Seq<char>>) -> Option<
    LoadProblem,
> {
    match first_missing(tensors, names) {
        Some(name) => matrix_problem(tensors, name),
        None => None,
    }
}

/// The number of elements of a tensor.
pub open spec fn count_of(tensors: Seq<HeaderTensor>, name: Seq<char>) -> nat {
    elements(tensor_of(tensors, name)->Some_0.shape@)
}

/// Why a vector of the given length is not there, if it is not.
pub open spec fn vector_problem(
    tensors: Seq<HeaderTensor>,
    name: Seq<char>,
    len: nat,
    wrong: LoadProblem,
) -> Option<LoadProblem> {
    if tensor_of(tensors, name) is None {
        Some(LoadProblem::MissingTensor { name })
    } else if count_of(tensors, name) != len {
        Some(wrong)
    } else {
        None
    }
}

/// Whether a name is missing.
pub open spec fn missing(tensors: Seq<HeaderTensor>, name: Seq<char>) -> Option<LoadProblem> {
    if tensor_of(tensors, name) is None {
        Some(LoadProblem::MissingTensor { name })
    } else {
        None
    }
}

/// What is wrong with the full attention of a layer, if anything is.
pub open spec fn attention_problem(
    tensors: Seq<HeaderTensor>,
    config: Qwen3NextConfig,
    layer: int,
) -> Option<LoadProblem> {
    let names = attention_names(layer);
    let query_norm = block_tensor(layer, ".attn_q_norm.weight"@);
    let key_norm = block_tensor(layer, ".attn_k_norm.weight"@);
    if matrices_problem(tensors, names) is Some {
        matrices_problem(tensors, names)
    } else {
        match attention_of(config).matrix_problem(
            shape_of(tensors, names[0]),
            shape_of(tensors, names[1]),
            shape_of(tensors, names[2]),
            shape_of(tensors, names[3]),
        ) {
            Some(problem) => Some(LoadProblem::Attention(problem)),
            None => if missing(tensors, query_norm) is Some {
                missing(tensors, query_norm)
            } else if missing(tensors, key_norm) is Some {
                missing(tensors, key_norm)
            } else if count_of(tensors, query_norm) != config.head_dim || count_of(
                tensors,
                key_norm,
            ) != config.head_dim {
                Some(LoadProblem::Attention(AttentionError::NormLength))
            } else {
                None
            },
        }
    }
}

/// What is wrong with the matrices of a layer's linear attention, if anything
/// is.
pub open spec fn delta_matrix_problem(
    tensors: Seq<HeaderTensor>,
    config: Qwen3NextConfig,
    layer: int,
) -> Option<LoadProblem> {
    let names = delta_names(tensors, layer);
    let output = block_tensor(layer, ".ssm_out.weight"@);
    if matrices_problem(tensors, names) is Some {
        matrices_problem(tensors, names)
    } else if !beta_alpha_join(tensors, layer) {
        Some(LoadProblem::BetaAlphaColumns)
    } else if matrix_problem(tensors, output) is Some {
        matrix_problem(tensors, output)
    } else {
        match delta_of(config, fused_beta_alpha(tensors, layer)).matrix_problem(
            shape_of(tensors, names[0]),
            shape_of(tensors, names[1]),
            beta_alpha_shape(tensors, layer),
            shape_of(tensors, output),
        ) {
            Some(problem) => Some(LoadProblem::Delta(problem)),
            None => None,
        }
    }
}

/// The number of weights of a layer's convolution.
pub open spec fn conv_weights(config: Qwen3NextConfig) -> int {
    delta_of(config, true).geometry.conv_width() * config.linear_conv_kernel_dim
}

/// What is wrong with the linear attention of a layer, if anything is.
pub open spec fn delta_problem(
    tensors: Seq<HeaderTensor>,
    config: Qwen3NextConfig,
    layer: int,
) -> Option<LoadProblem> {
    let conv = block_tensor(layer, ".ssm_conv1d.weight"@);
    let scale = block_tensor(layer, ".ssm_a"@);
    let bias = block_tensor(layer, ".ssm_dt.bias"@);
    let norm = block_tensor(layer, ".ssm_norm.weight"@);
    if delta_matrix_problem(tensors, config, layer) is Some {
        delta_matrix_problem(tensors, config, layer)
    } else if missing(tensors, conv) is Some {
        missing(tensors, conv)
    } else if count_of(tensors, conv) != conv_weights(config) {
        Some(LoadProblem::Delta(DeltaError::ConvolutionLength))
    } else if missing(tensors, scale) is Some {
        missing(tensors, scale)
    } else if missing(tensors, bias) is Some {
        missing(tensors, bias)
    } else if missing(tensors, norm) is Some {
        missing(tensors, norm)
    } else if count_of(tensors, scale) != config.linear_num_value_heads {
        Some(LoadProblem::Delta(DeltaError::StateScaleLength))
    } else if count_of(tensors, bias) != config.linear_num_value_heads {
        Some(LoadProblem::Delta(DeltaError::TimeBiasLength))
    } else if count_of(tensors, norm) != config.linear_value_head_dim {
        Some(LoadProblem::Delta(DeltaError::NormLength))
    } else {
        None
    }
}

/// What is wrong with the fused experts of a layer, if anything is.
pub open spec fn expert_problem(tensors: Seq<HeaderTensor>, layer: int, k: usize) -> Option<
    LoadProblem,
> {
    let router = block_tensor(layer, ".ffn_gate_inp.weight"@);
    let gate = block_tensor(layer, ".ffn_gate_exps.weight"@);
    let down = block_tensor(layer, ".ffn_down_exps.weight"@);
    let up = block_tensor(layer, ".ffn_up_exps.weight"@);
    if missing(tensors, router) is Some {
        missing(tensors, router)
    } else if missing(tensors, gate) is Some {
        missing(tensors, gate)
    } else if missing(tensors, down) is Some {
        missing(tensors, down)
    } else if shape_of(tensors, router).len() != 2 {
        Some(LoadProblem::Moe(MoeError::RouterRank))
    } else if shape_of(tensors, gate).len() != 3 || shape_of(tensors, down).len() != 3 {
        Some(LoadProblem::Moe(MoeError::ExpertRank))
    } else {
        let experts = shape_of(tensors, router)[0];
        let hidden = shape_of(tensors, router)[1];
        let wide = shape_of(tensors, gate)[1];
        if k == 0 || k > experts {
            Some(LoadProblem::Moe(MoeError::TopK { k, experts }))
        } else if shape_of(tensors, gate) != seq![experts, wide, hidden] {
            Some(LoadProblem::Moe(MoeError::GateShape))
        } else if shape_of(tensors, down) != seq![experts, hidden, wide] {
            Some(LoadProblem::Moe(MoeError::DownShape))
        } else if missing(tensors, up) is Some {
            missing(tensors, up)
        } else if shape_of(tensors, up) != shape_of(tensors, gate) {
            Some(LoadProblem::Moe(MoeError::UpShape))
        } else {
            None
        }
    }
}

/// The sizes of a layer's experts.
pub open spec fn moe_of(tensors: Seq<HeaderTensor>, layer: int, k: usize) -> QuantizedMoeLayer {
    let router = shape_of(tensors, block_tensor(layer, ".ffn_gate_inp.weight"@));
    let gate = shape_of(tensors, block_tensor(layer, ".ffn_gate_exps.weight"@));
    QuantizedMoeLayer {
        hidden_size: router[1],
        intermediate_size: gate[1],
        expert_count: router[0],
        experts_per_token: k,
    }
}

/// What is wrong with the experts of a layer, if anything is.
pub open spec fn moe_problem(tensors: Seq<HeaderTensor>, layer: int, k: usize) -> Option<
    LoadProblem,
> {
    let router = block_tensor(layer, ".ffn_gate_inp.weight"@);
    let gate = block_tensor(layer, ".ffn_gate_shexp.weight"@);
    let up = block_tensor(layer, ".ffn_up_shexp.weight"@);
    let down = block_tensor(layer, ".ffn_down_shexp.weight"@);
    let selector = block_tensor(layer, ".ffn_gate_inp_shexp.weight"@);
    let hidden = moe_of(tensors, layer, k).hidden_size;
    if expert_problem(tensors, layer, k) is Some {
        expert_problem(tensors, layer, k)
    } else if matrix_problem(tensors, router) is Some {
        matrix_problem(tensors, router)
    } else if matrix_problem(tensors, gate) is Some {
        matrix_problem(tensors, gate)
    } else if matrix_problem(tensors, up) is Some {
        matrix_problem(tensors, up)
    } else if matrix_problem(tensors, down) is Some {
        matrix_problem(tensors, down)
    } else if vector_problem(
        tensors,
        selector,
        hidden as nat,
        LoadProblem::Moe(MoeError::SelectorLength),
    ) is Some {
        vector_problem(
            tensors,
            selector,
            hidden as nat,
            LoadProblem::Moe(MoeError::SelectorLength),
        )
    } else if !(shape_of(tensors, gate)[1] == hidden && shape_of(tensors, up) == shape_of(
        tensors,
        gate,
    ) && shape_of(tensors, down) == seq![hidden, shape_of(tensors, gate)[0]]) {
        Some(LoadProblem::Moe(MoeError::SharedShape))
    } else {
        None
    }
}

/// What is wrong with the two norms of a layer, if anything is.
pub open spec fn norms_problem(
    tensors: Seq<HeaderTensor>,
    config: Qwen3NextConfig,
    layer: int,
) -> Option<LoadProblem> {
    let input = block_tensor(layer, ".attn_norm.weight"@);
    let post = block_tensor(layer, ".post_attention_norm.weight"@);
    if missing(tensors, input) is Some {
        missing(tensors, input)
    } else if missing(tensors, post) is Some {
        missing(tensors, post)
    } else if count_of(tensors, input) != config.hidden_size || count_of(tensors, post)
        != config.hidden_size {
        Some(LoadProblem::Model(ModelError::LayerNormLength { layer: layer as usize }))
    } else {
        None
    }
}

/// What is wrong with a decoder layer of the given kind, if anything is.
pub open spec fn layer_problem(
    tensors: Seq<HeaderTensor>,
    config: Qwen3NextConfig,
    layer: int,
    kind: LayerType,
) -> Option<LoadProblem> {
    let mixer = match kind {
        LayerType::FullAttention => attention_problem(tensors, config, layer),
        LayerType::LinearAttention => delta_problem(tensors, config, layer),
    };
    if norms_problem(tensors, config, layer) is Some {
        norms_problem(tensors, config, layer)
    } else if mixer is Some {
        mixer
    } else {
        moe_problem(tensors, layer, config.num_experts_per_tok)
    }
}

/// What is wrong with the first of the decoder layers from `layer` on that is
/// not as it must be.
pub open spec fn layers_problem(
    tensors: Seq<HeaderTensor>,
    config: Qwen3NextConfig,
    layer: int,
) -> Option<LoadProblem>
    decreases config.num_hidden_layers - layer,
{
    if layer >= config.num_hidden_layers {
        None
    } else if layer_problem(tensors, config, layer, config.type_of(layer)) is Some {
        layer_problem(tensors, config, layer, config.type_of(layer))
    } else {
        layers_problem(tensors, config, layer + 1)
    }
}

/// What is wrong with the drafting head, if anything is.
pub open spec fn draft_problem(tensors: Seq<HeaderTensor>, config: Qwen3NextConfig) -> Option<
    LoadProblem,
> {
    let layer = config.num_hidden_layers as int;
    let embedding = block_tensor(layer, ".nextn.enorm.weight"@);
    let hidden = block_tensor(layer, ".nextn.hnorm.weight"@);
    let head = block_tensor(layer, ".nextn.shared_head_norm.weight"@);
    let projection = block_tensor(layer, ".nextn.eh_proj.weight"@);
    if config.mtp_num_hidden_layers != 1 {
        Some(LoadProblem::Model(ModelError::DraftLayers))
    } else if config.mtp_use_dedicated_embeddings {
        Some(LoadProblem::Model(ModelError::DraftEmbeddings))
    } else if missing(tensors, embedding) is Some {
        missing(tensors, embedding)
    } else if missing(tensors, hidden) is Some {
        missing(tensors, hidden)
    } else if missing(tensors, head) is Some {
        missing(tensors, head)
    } else if count_of(tensors, embedding) != config.hidden_size {
        Some(LoadProblem::Model(ModelError::DraftNormLength { norm: 0 }))
    } else if count_of(tensors, hidden) != config.hidden_size {
        Some(LoadProblem::Model(ModelError::DraftNormLength { norm: 1 }))
    } else if count_of(tensors, head) != config.hidden_size {
        Some(LoadProblem::Model(ModelError::DraftNormLength { norm: 2 }))
    } else if matrix_problem(tensors, projection) is Some {
        matrix_problem(tensors, projection)
    } else if shape_of(tensors, projection) != seq![
        config.hidden_size,
        (2 * config.hidden_size) as usize,
    ] {
        Some(LoadProblem::Model(ModelError::DraftProjectionShape))
    } else {
        layer_problem(tensors, config, layer, LayerType::FullAttention)
    }
}

/// What is wrong with a model, if anything is: the embedding, the layers in
/// order, the final norm, the head, and the drafting head where there is one.
pub open spec fn model_problem(tensors: Seq<HeaderTensor>, config: Qwen3NextConfig) -> Option<
    LoadProblem,
> {
    let expected = seq![config.vocab_size, config.hidden_size];
    if matrix_problem(tensors, "token_embd.weight"@) is Some {
        matrix_problem(tensors, "token_embd.weight"@)
    } else if shape_of(tensors, "token_embd.weight"@) != expected {
        Some(LoadProblem::Model(ModelError::EmbeddingShape))
    } else if layers_problem(tensors, config, 0) is Some {
        layers_problem(tensors, config, 0)
    } else if vector_problem(
        tensors,
        "output_norm.weight"@,
        config.hidden_size as nat,
        LoadProblem::Model(ModelError::FinalNormLength),
    ) is Some {
        vector_problem(
            tensors,
            "output_norm.weight"@,
            config.hidden_size as nat,
            LoadProblem::Model(ModelError::FinalNormLength),
        )
    } else if matrix_problem(tensors, "output.weight"@) is Some {
        matrix_problem(tensors, "output.weight"@)
    } else if shape_of(tensors, "output.weight"@) != expected {
        Some(LoadProblem::Model(ModelError::HeadShape))
    } else if config.mtp_num_hidden_layers == 1 {
        draft_problem(tensors, config)
    } else {
        None
    }
}

/// Whether the places and the sizes of a checkpoint's tensors fit the machine.
pub open spec fn tensors_fit(checkpoint: GgufCheckpoint) -> bool {
    forall|i: int|
        0 <= i < checkpoint.tensors@.len() ==> (#[trigger] checkpoint.tensors@[i]).fits(
            checkpoint.tensor_data_offset,
        )
}

/// Whether the widths of a configuration's layers of one kind fit the machine.
pub open spec fn kind_fits(config: Qwen3NextConfig, kind: LayerType) -> bool {
    match kind {
        LayerType::FullAttention => attention_of(config).fits(),
        LayerType::LinearAttention => delta_of(config, true).shapes_fit() && conv_weights(config)
            <= usize::MAX,
    }
}

/// Whether a layer has a kind, and layers of that kind fit the machine.
pub open spec fn layer_fits(config: Qwen3NextConfig, layer: int) -> bool {
    config.has_layer_type(layer) && kind_fits(config, config.type_of(layer))
}

/// Whether every layer has a kind, and the sizes of all that is loaded fit the
/// machine.
pub open spec fn loadable(checkpoint: GgufCheckpoint, config: Qwen3NextConfig) -> bool {
    &&& tensors_fit(checkpoint)
    &&& forall|layer: int|
        0 <= layer < config.num_hidden_layers ==> #[trigger] layer_fits(config, layer)
    &&& config.mtp_num_hidden_layers == 1 ==> {
        &&& kind_fits(config, LayerType::FullAttention)
        &&& 2 * config.hidden_size <= usize::MAX
    }
}

/// An error that refuses a name says why.
proof fn lemma_refusal(error: GgufError, tensors: Seq<HeaderTensor>, name: Seq<char>)
    requires
        refuses(error, tensors, name),
        !has_matrix(tensors, name),
    ensures
        matrix_problem(tensors, name) == Some(LayerError::Tensor(error)@),
{
}

/// A name that is the first without a matrix has none.
proof fn lemma_first_missing_lacks(tensors: Seq<HeaderTensor>, names: Seq<Seq<char>>)
    ensures
        match first_missing(tensors, names) {
            Some(name) => !has_matrix(tensors, name),
            None => true,
        },
    decreases names.len(),
{
    if names.len() > 0 && has_matrix(tensors, names[0]) {
        lemma_first_missing_lacks(tensors, names.skip(1));
    }
}

/// The shape of a matrix, or what is wrong with it.
fn checked_matrix(checkpoint: &GgufCheckpoint, name: &str) -> (shape: Result<[usize; 2], LayerError>)
    ensures
        match shape {
            Ok(shape) => matrix_problem(checkpoint.tensors@, name@) is None && shape@ == shape_of(
                checkpoint.tensors@,
                name@,
            ),
            Err(error) => matrix_problem(checkpoint.tensors@, name@) == Some(error@),
        },
{
    match load_matrix(checkpoint, name) {
        Ok(matrix) => Ok(matrix.0),
        Err(error) => {
            proof {
                if error is Tensor {
                    lemma_refusal(error->Tensor_0, checkpoint.tensors@, name@);
                }
            }
            Err(error)
        },
    }
}

/// The number of elements of a tensor, or that it is missing.
fn checked_vector(checkpoint: &GgufCheckpoint, name: &str) -> (len: Result<usize, LayerError>)
    requires
        tensors_fit(*checkpoint),
    ensures
        match len {
            Ok(len) => missing(checkpoint.tensors@, name@) is None && len == count_of(
                checkpoint.tensors@,
                name@,
            ),
            Err(error) => missing(checkpoint.tensors@, name@) == Some(error@),
        },
{
    match checkpoint.tensor(name) {
        Some(tensor) => {
            proof {
                lemma_tensor_of(checkpoint.tensors@, name@);
            }
            Ok(element_count(&tensor.shape))
        },
        None => Err(LayerError::Tensor(GgufError::MissingTensor { name: name.to_owned() })),
    }
}

impl QuantizedAttentionLayer {
    /// Accepts the full attention of a layer.
    pub fn load(checkpoint: &GgufCheckpoint, config: &Qwen3NextConfig, layer: usize) -> (result:
        Result<QuantizedAttentionLayer, LayerError>)
        requires
            tensors_fit(*checkpoint),
            kind_fits(*config, LayerType::FullAttention),
        ensures
            match result {
                Ok(made) => attention_problem(checkpoint.tensors@, *config, layer as int) is None
                    && made == attention_of(*config),
                Err(error) => attention_problem(checkpoint.tensors@, *config, layer as int) == Some(
                    error@,
                ),
            },
    {
        let ghost tensors = checkpoint.tensors@;
        let ghost names = attention_names(layer as int);
        let made: QuantizedAttentionLayer = match QuantizedAttentionLayer::load_matrices(
            checkpoint,
            config,
            layer,
        ) {
            Ok(made) => made,
            Err(error) => {
                proof {
                    lemma_first_missing_lacks(tensors, names);
                    if error is Tensor {
                        if first_missing(tensors, names) is Some {
                            lemma_refusal(error->Tensor_0, tensors, first_missing(tensors, names)->Some_0);
                        }
                    }
                }
                return Err(error);
            },
        };
        let query_norm: usize = match checked_vector(
            checkpoint,
            block_name(layer, ".attn_q_norm.weight").as_str(),
        ) {
            Ok(len) => len,
            Err(error) => {
                return Err(error);
            },
        };
        let key_norm: usize = match checked_vector(
            checkpoint,
            block_name(layer, ".attn_k_norm.weight").as_str(),
        ) {
            Ok(len) => len,
            Err(error) => {
                return Err(error);
            },
        };
        match made.check_norms(query_norm, key_norm) {
            Ok(_) => Ok(made),
            Err(error) => Err(LayerError::Attention(error)),
        }
    }
}

impl QuantizedDeltaLayer {
    /// Accepts the linear attention of a layer.
    pub fn load(checkpoint: &GgufCheckpoint, config: &Qwen3NextConfig, layer: usize) -> (result:
        Result<LoadedDelta, LayerError>)
        requires
            tensors_fit(*checkpoint),
            kind_fits(*config, LayerType::LinearAttention),
        ensures
            match result {
                Ok(made) => {
                    let tensors = checkpoint.tensors@;
                    let names = delta_names(tensors, layer as int);
                    &&& delta_problem(tensors, *config, layer as int) is None
                    &&& made.layer == delta_of(*config, fused_beta_alpha(tensors, layer as int))
                    &&& made.separate_gates == (type_of(tensors, names[0]) != type_of(
                        tensors,
                        names[1],
                    ))
                },
                Err(error) => delta_problem(checkpoint.tensors@, *config, layer as int) == Some(
                    error@,
                ),
            },
    {
        let ghost tensors = checkpoint.tensors@;
        let ghost names = delta_names(tensors, layer as int);
        let ghost output = block_tensor(layer as int, ".ssm_out.weight"@);
        let made: LoadedDelta = match QuantizedDeltaLayer::load_matrices(checkpoint, config, layer) {
            Ok(made) => made,
            Err(error) => {
                proof {
                    lemma_first_missing_lacks(tensors, names);
                    if error is Tensor {
                        if first_missing(tensors, names) is Some {
                            lemma_refusal(error->Tensor_0, tensors, first_missing(tensors, names)->Some_0);
                        } else {
                            lemma_refusal(error->Tensor_0, tensors, output);
                        }
                    }
                }
                return Err(error);
            },
        };
        let conv: usize = match checked_vector(
            checkpoint,
            block_name(layer, ".ssm_conv1d.weight").as_str(),
        ) {
            Ok(len) => len,
            Err(error) => {
                return Err(error);
            },
        };
        let width: usize = made.layer.geometry.conv_dim();
        if conv != width * config.linear_conv_kernel_dim {
            return Err(LayerError::Delta(DeltaError::ConvolutionLength));
        }
        let scale: usize = match checked_vector(checkpoint, block_name(layer, ".ssm_a").as_str()) {
            Ok(len) => len,
            Err(error) => {
                return Err(error);
            },
        };
        let bias: usize = match checked_vector(checkpoint, block_name(layer, ".ssm_dt.bias").as_str()) {
            Ok(len) => len,
            Err(error) => {
                return Err(error);
            },
        };
        let norm: usize = match checked_vector(
            checkpoint,
            block_name(layer, ".ssm_norm.weight").as_str(),
        ) {
            Ok(len) => len,
            Err(error) => {
                return Err(error);
            },
        };
        match made.layer.check_vectors(scale, bias, norm) {
            Ok(_) => Ok(made),
            Err(error) => Err(LayerError::Delta(error)),
        }
    }
}

/// What a result about fused experts says.
proof fn lemma_experts(
    result: Result<QuantizedMoeLayer, MoeError>,
    tensors: Seq<HeaderTensor>,
    layer: int,
    k: usize,
)
    requires
        is_moe_shape(result, tensors, layer, k),
    ensures
        match result {
            Ok(made) => expert_problem(tensors, layer, k) is None && made == moe_of(
                tensors,
                layer,
                k,
            ),
            Err(error) => expert_problem(tensors, layer, k) == Some(LayerError::Moe(error)@),
        },
{
}

impl QuantizedMoeLayer {
    /// Accepts the experts of a layer, the shared one among them.
    pub fn load(checkpoint: &GgufCheckpoint, layer: usize, experts_per_token: usize) -> (result: Result<
        QuantizedMoeLayer,
        LayerError,
    >)
        requires
            tensors_fit(*checkpoint),
        ensures
            match result {
                Ok(made) => moe_problem(checkpoint.tensors@, layer as int, experts_per_token) is None
                    && made == moe_of(checkpoint.tensors@, layer as int, experts_per_token),
                Err(error) => moe_problem(checkpoint.tensors@, layer as int, experts_per_token)
                    == Some(error@),
            },
    {
        let ghost tensors = checkpoint.tensors@;
        let loaded = QuantizedMoeLayer::load_experts(checkpoint, layer, experts_per_token);
        proof {
            lemma_experts(loaded, tensors, layer as int, experts_per_token);
        }
        let made: QuantizedMoeLayer = match loaded {
            Ok(made) => made,
            Err(error) => {
                return Err(LayerError::Moe(error));
            },
        };
        match checked_matrix(checkpoint, block_name(layer, ".ffn_gate_inp.weight").as_str()) {
            Ok(_) => {},
            Err(error) => {
                return Err(error);
            },
        }
        let gate: [usize; 2] = match checked_matrix(
            checkpoint,
            block_name(layer, ".ffn_gate_shexp.weight").as_str(),
        ) {
            Ok(shape) => shape,
            Err(error) => {
                return Err(error);
            },
        };
        let up: [usize; 2] = match checked_matrix(
            checkpoint,
            block_name(layer, ".ffn_up_shexp.weight").as_str(),
        ) {
            Ok(shape) => shape,
            Err(error) => {
                return Err(error);
            },
        };
        let down: [usize; 2] = match checked_matrix(
            checkpoint,
            block_name(layer, ".ffn_down_shexp.weight").as_str(),
        ) {
            Ok(shape) => shape,
            Err(error) => {
                return Err(error);
            },
        };
        let selector: usize = match checked_vector(
            checkpoint,
            block_name(layer, ".ffn_gate_inp_shexp.weight").as_str(),
        ) {
            Ok(len) => len,
            Err(error) => {
                return Err(error);
            },
        };
        if selector != made.hidden_size {
            return Err(LayerError::Moe(MoeError::SelectorLength));
        }
        match made.check_shared(gate, up, down) {
            Ok(_) => Ok(made),
            Err(error) => Err(LayerError::Moe(error)),
        }
    }
}

/// A full-attention layer: its attention and its experts.
#[derive(Debug, Clone, Copy, PartialEq, Eq, Structural)]
pub struct QuantizedFullLayer {
    pub attention: QuantizedAttentionLayer,
    pub moe: QuantizedMoeLayer,
}

/// A linear-attention layer: its attention and its experts.
#[derive(Debug, Clone, Copy, PartialEq, Eq, Structural)]
pub struct QuantizedLinearLayer {
    pub delta: LoadedDelta,
    pub moe: QuantizedMoeLayer,
}

/// A decoder layer of either kind.
#[derive(Debug, Clone, Copy, PartialEq, Eq, Structural)]
pub enum DecoderLayer {
    Full(QuantizedFullLayer),
    Linear(QuantizedLinearLayer),
}

impl DecoderLayer {
    /// The kind of a layer.
    pub open spec fn kind_of(&self) -> LayerType {
        match self {
            DecoderLayer::Full(_) => LayerType::FullAttention,
            DecoderLayer::Linear(_) => LayerType::LinearAttention,
        }
    }

    /// The kind of a layer.
    pub fn kind(&self) -> (kind: LayerType)
        ensures
            kind == self.kind_of(),
    {
        match self {
            DecoderLayer::Full(_) => LayerType::FullAttention,
            DecoderLayer::Linear(_) => LayerType::LinearAttention,
        }
    }
}

/// Whether a full-attention layer is the one that a checkpoint holds.
pub open spec fn is_full_layer(
    made: QuantizedFullLayer,
    tensors: Seq<HeaderTensor>,
    config: Qwen3NextConfig,
    layer: int,
) -> bool {
    &&& made.attention == attention_of(config)
    &&& made.moe == moe_of(tensors, layer, config.num_experts_per_tok)
}

/// Whether a linear-attention layer is the one that a checkpoint holds.
pub open spec fn is_linear_layer(
    made: QuantizedLinearLayer,
    tensors: Seq<HeaderTensor>,
    config: Qwen3NextConfig,
    layer: int,
) -> bool {
    let names = delta_names(tensors, layer);
    &&& made.delta.layer == delta_of(config, fused_beta_alpha(tensors, layer))
    &&& made.delta.separate_gates == (type_of(tensors, names[0]) != type_of(tensors, names[1]))
    &&& made.moe == moe_of(tensors, layer, config.num_experts_per_tok)
}

/// Whether a layer is the one of the given kind that a checkpoint holds.
pub open spec fn is_layer(
    made: DecoderLayer,
    tensors: Seq<HeaderTensor>,
    config: Qwen3NextConfig,
    layer: int,
    kind: LayerType,
) -> bool {
    match (kind, made) {
        (LayerType::FullAttention, DecoderLayer::Full(made)) => is_full_layer(
            made,
            tensors,
            config,
            layer,
        ),
        (LayerType::LinearAttention, DecoderLayer::Linear(made)) => is_linear_layer(
            made,
            tensors,
            config,
            layer,
        ),
        _ => false,
    }
}

/// Accepts the two norms of a layer.
fn load_norms(checkpoint: &GgufCheckpoint, config: &Qwen3NextConfig, layer: usize) -> (result:
    Result<(), LayerError>)
    requires
        tensors_fit(*checkpoint),
    ensures
        match result {
            Ok(_) => norms_problem(checkpoint.tensors@, *config, layer as int) is None,
            Err(error) => norms_problem(checkpoint.tensors@, *config, layer as int) == Some(error@),
        },
{
    let input: usize = match checked_vector(
        checkpoint,
        block_name(layer, ".attn_norm.weight").as_str(),
    ) {
        Ok(len) => len,
        Err(error) => {
            return Err(error);
        },
    };
    let post: usize = match checked_vector(
        checkpoint,
        block_name(layer, ".post_attention_norm.weight").as_str(),
    ) {
        Ok(len) => len,
        Err(error) => {
            return Err(error);
        },
    };
    match check_layer_norms(config, layer, input, post) {
        Ok(_) => Ok(()),
        Err(error) => Err(LayerError::Model(error)),
    }
}

impl QuantizedLinearLayer {
    /// Accepts a layer that must be a linear-attention layer.
    pub fn load(checkpoint: &GgufCheckpoint, config: &Qwen3NextConfig, layer: usize) -> (result:
        Result<QuantizedLinearLayer, LayerError>)
        requires
            tensors_fit(*checkpoint),
            kind_fits(*config, LayerType::LinearAttention),
            config.has_layer_type(layer as int),
        ensures
            match result {
                Ok(made) => {
                    &&& config.type_of(layer as int) == LayerType::LinearAttention
                    &&& layer_problem(
                        checkpoint.tensors@,
                        *config,
                        layer as int,
                        LayerType::LinearAttention,
                    ) is None
                    &&& is_linear_layer(made, checkpoint.tensors@, *config, layer as int)
                },
                Err(error) => if config.type_of(layer as int) != LayerType::LinearAttention {
                    error@ == LoadProblem::Model(ModelError::LayerKind { layer })
                } else {
                    layer_problem(
                        checkpoint.tensors@,
                        *config,
                        layer as int,
                        LayerType::LinearAttention,
                    ) == Some(error@)
                },
            },
    {
        match check_layer_kind(config, layer, LayerType::LinearAttention) {
            Ok(_) => {},
            Err(error) => {
                return Err(LayerError::Model(error));
            },
        }
        match load_norms(checkpoint, config, layer) {
            Ok(_) => {},
            Err(error) => {
                return Err(error);
            },
        }
        let delta: LoadedDelta = match QuantizedDeltaLayer::load(checkpoint, config, layer) {
            Ok(delta) => delta,
            Err(error) => {
                return Err(error);
            },
        };
        match QuantizedMoeLayer::load(checkpoint, layer, config.num_experts_per_tok) {
            Ok(moe) => Ok(QuantizedLinearLayer { delta, moe }),
            Err(error) => Err(error),
        }
    }

    /// The state of a sequence without tokens: all zeros.
    pub fn new_state<T: Copy>(&self, zero: T) -> (state: QuantizedDeltaState<T>)
        requires
            self.delta.layer.geometry.fits(),
        ensures
            state@.conv == repeated(zero, self.delta.layer.geometry.conv_state_len()),
            state@.recurrent == repeated(zero, self.delta.layer.geometry.recurrent_state_len()),
    {
        self.delta.layer.new_state(zero)
    }
}

/// Accepts a full-attention layer, whatever kind a configuration gives it.
fn load_full(checkpoint: &GgufCheckpoint, config: &Qwen3NextConfig, layer: usize) -> (result:
    Result<QuantizedFullLayer, LayerError>)
    requires
        tensors_fit(*checkpoint),
        kind_fits(*config, LayerType::FullAttention),
    ensures
        match result {
            Ok(made) => layer_problem(
                checkpoint.tensors@,
                *config,
                layer as int,
                LayerType::FullAttention,
            ) is None && is_full_layer(made, checkpoint.tensors@, *config, layer as int),
            Err(error) => layer_problem(
                checkpoint.tensors@,
                *config,
                layer as int,
                LayerType::FullAttention,
            ) == Some(error@),
        },
{
    match load_norms(checkpoint, config, layer) {
        Ok(_) => {},
        Err(error) => {
            return Err(error);
        },
    }
    let attention: QuantizedAttentionLayer = match QuantizedAttentionLayer::load(
        checkpoint,
        config,
        layer,
    ) {
        Ok(attention) => attention,
        Err(error) => {
            return Err(error);
        },
    };
    match QuantizedMoeLayer::load(checkpoint, layer, config.num_experts_per_tok) {
        Ok(moe) => Ok(QuantizedFullLayer { attention, moe }),
        Err(error) => Err(error),
    }
}

impl QuantizedFullLayer {
    /// Accepts a layer that must be a full-attention layer.
    pub fn load(checkpoint: &GgufCheckpoint, config: &Qwen3NextConfig, layer: usize) -> (result:
        Result<QuantizedFullLayer, LayerError>)
        requires
            tensors_fit(*checkpoint),
            kind_fits(*config, LayerType::FullAttention),
            config.has_layer_type(layer as int),
        ensures
            match result {
                Ok(made) => {
                    &&& config.type_of(layer as int) == LayerType::FullAttention
                    &&& layer_problem(
                        checkpoint.tensors@,
                        *config,
                        layer as int,
                        LayerType::FullAttention,
                    ) is None
                    &&& is_full_layer(made, checkpoint.tensors@, *config, layer as int)
                },
                Err(error) => if config.type_of(layer as int) != LayerType::FullAttention {
                    error@ == LoadProblem::Model(ModelError::LayerKind { layer })
                } else {
                    layer_problem(
                        checkpoint.tensors@,
                        *config,
                        layer as int,
                        LayerType::FullAttention,
                    ) == Some(error@)
                },
            },
    {
        match check_layer_kind(config, layer, LayerType::FullAttention) {
            Ok(_) => load_full(checkpoint, config, layer),
            Err(error) => Err(LayerError::Model(error)),
        }
    }

    /// The state of a sequence without tokens: no positions.
    pub fn new_state<T>(&self) -> (state: QuantizedAttentionState<T>)
        ensures
            state@ == (CacheView {
                keys: Seq::<T>::empty(),
                values: Seq::<T>::empty(),
                positions: 0,
            }),
    {
        self.attention.new_state()
    }
}

/// What is wrong with the norms of the drafting head, or their lengths.
fn draft_norms(checkpoint: &GgufCheckpoint, config: &Qwen3NextConfig) -> (result: Result<
    [usize; 3],
    LayerError,
>)
    requires
        tensors_fit(*checkpoint),
    ensures
        match result {
            Ok(lens) => {
                let tensors = checkpoint.tensors@;
                let layer = config.num_hidden_layers as int;
                let embedding = block_tensor(layer, ".nextn.enorm.weight"@);
                let hidden = block_tensor(layer, ".nextn.hnorm.weight"@);
                let head = block_tensor(layer, ".nextn.shared_head_norm.weight"@);
                &&& missing(tensors, embedding) is None
                &&& missing(tensors, hidden) is None
                &&& missing(tensors, head) is None
                &&& lens@[0] == count_of(tensors, embedding)
                &&& lens@[1] == count_of(tensors, hidden)
                &&& lens@[2] == count_of(tensors, head)
            },
            Err(error) => {
                let tensors = checkpoint.tensors@;
                let layer = config.num_hidden_layers as int;
                let embedding = block_tensor(layer, ".nextn.enorm.weight"@);
                let hidden = block_tensor(layer, ".nextn.hnorm.weight"@);
                let head = block_tensor(layer, ".nextn.shared_head_norm.weight"@);
                Some(error@) == if missing(tensors, embedding) is Some {
                    missing(tensors, embedding)
                } else if missing(tensors, hidden) is Some {
                    missing(tensors, hidden)
                } else {
                    missing(tensors, head)
                }
            },
        },
{
    let layer: usize = config.num_hidden_layers;
    let embedding: usize = match checked_vector(
        checkpoint,
        block_name(layer, ".nextn.enorm.weight").as_str(),
    ) {
        Ok(len) => len,
        Err(error) => {
            return Err(error);
        },
    };
    let hidden: usize = match checked_vector(
        checkpoint,
        block_name(layer, ".nextn.hnorm.weight").as_str(),
    ) {
        Ok(len) => len,
        Err(error) => {
            return Err(error);
        },
    };
    let head: usize = match checked_vector(
        checkpoint,
        block_name(layer, ".nextn.shared_head_norm.weight").as_str(),
    ) {
        Ok(len) => len,
        Err(error) => {
            return Err(error);
        },
    };
    Ok([embedding, hidden, head])
}

/// A head that drafts the token after the next: one full-attention layer behind
/// the decoder's own, scored by the decoder's head.
#[derive(Debug, Clone, Copy, PartialEq, Eq, Structural)]
pub struct QuantizedMtpHead {
    pub hidden_size: usize,
    pub vocab_size: usize,
    pub layer: QuantizedFullLayer,
}

/// Whether a drafting head is the one that a checkpoint holds.
pub open spec fn is_draft_head(
    made: QuantizedMtpHead,
    tensors: Seq<HeaderTensor>,
    config: Qwen3NextConfig,
) -> bool {
    &&& made.hidden_size == config.hidden_size
    &&& made.vocab_size == config.vocab_size
    &&& is_full_layer(made.layer, tensors, config, config.num_hidden_layers as int)
}

impl QuantizedMtpHead {
    /// Accepts the drafting head of a checkpoint.
    pub fn load(checkpoint: &GgufCheckpoint, config: &Qwen3NextConfig) -> (result: Result<
        QuantizedMtpHead,
        LayerError,
    >)
        requires
            tensors_fit(*checkpoint),
            kind_fits(*config, LayerType::FullAttention),
            2 * config.hidden_size <= usize::MAX,
        ensures
            match result {
                Ok(made) => draft_problem(checkpoint.tensors@, *config) is None && is_draft_head(
                    made,
                    checkpoint.tensors@,
                    *config,
                ),
                Err(error) => draft_problem(checkpoint.tensors@, *config) == Some(error@),
            },
    {
        match check_draft_config(config) {
            Ok(_) => {},
            Err(error) => {
                return Err(LayerError::Model(error));
            },
        }
        let lens: [usize; 3] = match draft_norms(checkpoint, config) {
            Ok(lens) => lens,
            Err(error) => {
                return Err(error);
            },
        };
        match check_draft_norms(config, lens) {
            Ok(_) => {},
            Err(error) => {
                return Err(LayerError::Model(error));
            },
        }
        let projection: [usize; 2] = match checked_matrix(
            checkpoint,
            block_name(config.num_hidden_layers, ".nextn.eh_proj.weight").as_str(),
        ) {
            Ok(shape) => shape,
            Err(error) => {
                return Err(error);
            },
        };
        match check_draft_projection(config, projection) {
            Ok(_) => {},
            Err(error) => {
                return Err(LayerError::Model(error));
            },
        }
        match load_full(checkpoint, config, config.num_hidden_layers) {
            Ok(layer) => Ok(
                QuantizedMtpHead {
                    hidden_size: config.hidden_size,
                    vocab_size: config.vocab_size,
                    layer,
                },
            ),
            Err(error) => Err(error),
        }
    }

    /// The number of tokens that a draft is scored on.
    pub fn vocab_size(&self) -> (tokens: usize)
        ensures
            tokens == self.vocab_size,
    {
        self.vocab_size
    }

    /// The state of a sequence without tokens.
    pub fn new_state<T>(&self) -> (state: QuantizedMtpState<T>)
        ensures
            state.attention@ == (CacheView {
                keys: Seq::<T>::empty(),
                values: Seq::<T>::empty(),
                positions: 0,
            }),
    {
        QuantizedMtpState::new()
    }
}

/// Whether these are the decoder layers that a checkpoint holds, in order.
pub open spec fn are_layers(
    made: Seq<DecoderLayer>,
    tensors: Seq<HeaderTensor>,
    config: Qwen3NextConfig,
) -> bool {
    forall|layer: int|
        0 <= layer < made.len() ==> is_layer(
            #[trigger] made[layer],
            tensors,
            config,
            layer,
            config.type_of(layer),
        )
}

/// Nothing is wrong with the layers from `layer` on if nothing is wrong with
/// any of them.
proof fn lemma_layers_problem(
    tensors: Seq<HeaderTensor>,
    config: Qwen3NextConfig,
    from: int,
    layer: int,
)
    requires
        from <= layer <= config.num_hidden_layers,
        forall|i: int|
            from <= i < layer ==> #[trigger] layer_problem(
                tensors,
                config,
                i,
                config.type_of(i),
            ) is None,
    ensures
        layers_problem(tensors, config, from) == layers_problem(tensors, config, layer),
    decreases layer - from,
{
    if from < layer {
        assert(layer_problem(tensors, config, from, config.type_of(from)) is None);
        lemma_layers_problem(tensors, config, from + 1, layer);
    }
}

/// Nothing is wrong with any layer of a model with which nothing is wrong.
pub proof fn a_sound_model_has_sound_layers(
    tensors: Seq<HeaderTensor>,
    config: Qwen3NextConfig,
    layer: int,
)
    requires
        model_problem(tensors, config) is None,
        0 <= layer < config.num_hidden_layers,
    ensures
        layer_problem(tensors, config, layer, config.type_of(layer)) is None,
{
    lemma_no_layer_problem(tensors, config, 0, layer);
}

proof fn lemma_no_layer_problem(
    tensors: Seq<HeaderTensor>,
    config: Qwen3NextConfig,
    from: int,
    layer: int,
)
    requires
        layers_problem(tensors, config, from) is None,
        from <= layer < config.num_hidden_layers,
    ensures
        layer_problem(tensors, config, layer, config.type_of(layer)) is None,
    decreases layer - from,
{
    if from < layer {
        lemma_no_layer_problem(tensors, config, from + 1, layer);
    }
}

/// Accepts the decoder layers of a checkpoint.
fn load_layers(checkpoint: &GgufCheckpoint, config: &Qwen3NextConfig) -> (result: Result<
    Vec<DecoderLayer>,
    LayerError,
>)
    requires
        loadable(*checkpoint, *config),
    ensures
        match result {
            Ok(made) => {
                &&& layers_problem(checkpoint.tensors@, *config, 0) is None
                &&& made@.len() == config.num_hidden_layers
                &&& are_layers(made@, checkpoint.tensors@, *config)
            },
            Err(error) => layers_problem(checkpoint.tensors@, *config, 0) == Some(error@),
        },
{
    let ghost tensors = checkpoint.tensors@;
    let mut layers: Vec<DecoderLayer> = Vec::new();
    let mut layer: usize = 0;
    while layer < config.num_hidden_layers
        invariant
            loadable(*checkpoint, *config),
            tensors == checkpoint.tensors@,
            layer <= config.num_hidden_layers,
            layers@.len() == layer,
            are_layers(layers@, tensors, *config),
            forall|i: int|
                0 <= i < layer ==> #[trigger] layer_problem(
                    tensors,
                    *config,
                    i,
                    config.type_of(i),
                ) is None,
        decreases config.num_hidden_layers - layer,
    {
        assert(layer_fits(*config, layer as int));
        let made: Result<DecoderLayer, LayerError> = match config.layer_type(layer) {
            LayerType::FullAttention => match QuantizedFullLayer::load(checkpoint, config, layer) {
                Ok(made) => Ok(DecoderLayer::Full(made)),
                Err(error) => Err(error),
            },
            LayerType::LinearAttention => match QuantizedLinearLayer::load(
                checkpoint,
                config,
                layer,
            ) {
                Ok(made) => Ok(DecoderLayer::Linear(made)),
                Err(error) => Err(error),
            },
        };
        match made {
            Ok(made) => {
                layers.push(made);
            },
            Err(error) => {
                proof {
                    lemma_layers_problem(tensors, *config, 0, layer as int);
                }
                return Err(error);
            },
        }
        layer += 1;
    }
    proof {
        lemma_layers_problem(tensors, *config, 0, layer as int);
    }
    Ok(layers)
}

/// A model whose tensors a checkpoint holds: its layers in order, and the
/// drafting head where it has one.
pub struct QuantizedModel {
    pub config: Qwen3NextConfig,
    pub layers: Vec<DecoderLayer>,
    pub mtp: Option<QuantizedMtpHead>,
}

/// What a sequence without tokens carries for a layer of the given kind.
pub open spec fn fresh<T>(geometry: DeltaGeometry, kind: LayerType, zero: T) -> LayerView<T> {
    match kind {
        LayerType::FullAttention => LayerView::Full(
            CacheView { keys: Seq::empty(), values: Seq::empty(), positions: 0 },
        ),
        LayerType::LinearAttention => LayerView::Linear(
            RecurrenceView {
                conv: repeated(zero, geometry.conv_state_len()),
                recurrent: repeated(zero, geometry.recurrent_state_len()),
            },
        ),
    }
}

impl QuantizedModel {
    /// Accepts a checkpoint as a model of the given configuration, or says what
    /// is wrong with the first of its tensors that does not fit.
    pub fn load(checkpoint: &GgufCheckpoint, config: Qwen3NextConfig) -> (result: Result<
        QuantizedModel,
        LayerError,
    >)
        requires
            loadable(*checkpoint, config),
        ensures
            match result {
                Ok(made) => {
                    &&& made.config == config
                    &&& model_problem(checkpoint.tensors@, config) is None
                    &&& made.layers@.len() == config.num_hidden_layers
                    &&& are_layers(made.layers@, checkpoint.tensors@, config)
                    &&& made.mtp is Some <==> config.mtp_num_hidden_layers == 1
                    &&& made.mtp is Some ==> is_draft_head(
                        made.mtp->Some_0,
                        checkpoint.tensors@,
                        config,
                    )
                },
                Err(error) => model_problem(checkpoint.tensors@, config) == Some(error@),
            },
    {
        let embedding: [usize; 2] = match checked_matrix(checkpoint, "token_embd.weight") {
            Ok(shape) => shape,
            Err(error) => {
                return Err(error);
            },
        };
        match check_embedding(&config, embedding) {
            Ok(_) => {},
            Err(error) => {
                return Err(LayerError::Model(error));
            },
        }
        let layers: Vec<DecoderLayer> = match load_layers(checkpoint, &config) {
            Ok(layers) => layers,
            Err(error) => {
                return Err(error);
            },
        };
        let norm: usize = match checked_vector(checkpoint, "output_norm.weight") {
            Ok(len) => len,
            Err(error) => {
                return Err(error);
            },
        };
        match check_final_norm(&config, norm) {
            Ok(_) => {},
            Err(error) => {
                return Err(LayerError::Model(error));
            },
        }
        let head: [usize; 2] = match checked_matrix(checkpoint, "output.weight") {
            Ok(shape) => shape,
            Err(error) => {
                return Err(error);
            },
        };
        match check_head(&config, head) {
            Ok(_) => {},
            Err(error) => {
                return Err(LayerError::Model(error));
            },
        }
        if drafts(&config) {
            match QuantizedMtpHead::load(checkpoint, &config) {
                Ok(mtp) => Ok(QuantizedModel { config, layers, mtp: Some(mtp) }),
                Err(error) => Err(error),
            }
        } else {
            Ok(QuantizedModel { config, layers, mtp: None })
        }
    }

    /// The configuration of the model.
    pub fn config(&self) -> (config: &Qwen3NextConfig)
        ensures
            *config == self.config,
    {
        &self.config
    }

    /// The head that drafts, where the model has one.
    pub fn mtp(&self) -> (head: Option<&QuantizedMtpHead>)
        ensures
            head is Some <==> self.mtp is Some,
            head is Some ==> *head->Some_0 == self.mtp->Some_0,
    {
        match &self.mtp {
            Some(head) => Some(head),
            None => None,
        }
    }

    /// The state of a sequence without tokens, one per layer.
    pub fn new_state<T: Copy>(&self, zero: T) -> (state: QuantizedModelState<T>)
        requires
            forall|layer: int|
                0 <= layer < self.layers@.len() && (#[trigger] self.layers@[layer]).kind_of()
                    == LayerType::FullAttention ==> attention_of(self.config).fits(),
            forall|layer: int|
                0 <= layer < self.layers@.len() && (#[trigger] self.layers@[layer]).kind_of()
                    == LayerType::LinearAttention ==> delta_of(self.config, true).geometry.fits(),
        ensures
            state@.position == 0,
            forall|layer: int|
                0 <= layer < self.layers@.len() && (#[trigger] self.layers@[layer]).kind_of()
                    == LayerType::FullAttention ==> state.row_width
                    == self.config.num_key_value_heads * self.config.head_dim,
            state@.layers.len() == self.layers@.len(),
            forall|layer: int|
                0 <= layer < self.layers@.len() ==> #[trigger] state@.layers[layer] == fresh(
                    delta_of(self.config, true).geometry,
                    self.layers@[layer].kind_of(),
                    zero,
                ),
    {
        let mut kinds: Vec<bool> = Vec::new();
        let mut row_width: usize = 0;
        let mut layer: usize = 0;
        while layer < self.layers.len()
            invariant
                forall|layer: int|
                    0 <= layer < self.layers@.len() && (#[trigger] self.layers@[layer]).kind_of()
                        == LayerType::FullAttention ==> attention_of(self.config).fits(),
                forall|i: int|
                    0 <= i < layer && (#[trigger] self.layers@[i]).kind_of()
                        == LayerType::FullAttention ==> row_width
                        == self.config.num_key_value_heads * self.config.head_dim,
                layer <= self.layers@.len(),
                kinds@.len() == layer,
                forall|i: int|
                    0 <= i < layer ==> #[trigger] kinds@[i] == (self.layers@[i].kind_of()
                        == LayerType::FullAttention),
            decreases self.layers@.len() - layer,
        {
            let full: bool = self.layers[layer].kind() == LayerType::FullAttention;
            if full {
                row_width = self.config.num_key_value_heads * self.config.head_dim;
            }
            kinds.push(full);
            layer += 1;
        }
        QuantizedModelState::new(
            kinds.as_slice(),
            row_width,
            &DeltaGeometry::of(&self.config),
            zero,
        )
    }
}

} // verus!
