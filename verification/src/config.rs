//! The model configuration: which layers there are, how wide they are, and
//! which of the combinations a file may name this runtime accepts.

use crate::text::same_text;
use vstd::prelude::*;

verus! {

/// The model type assumed where a configuration names none.
pub fn default_model_type() -> (model_type: String)
    ensures
        model_type@ == "qwen3_next"@,
{
    "qwen3_next".to_owned()
}

/// The activation assumed where a configuration names none.
pub fn default_hidden_act() -> (act: String)
    ensures
        act@ == "silu"@,
{
    "silu".to_owned()
}

/// The value of a switch that is on unless a configuration turns it off.
pub fn default_true() -> (on: bool)
    ensures
        on,
{
    true
}

/// Every layer carries experts unless a configuration says otherwise.
pub fn default_sparse_step() -> (step: usize)
    ensures
        step == 1,
{
    1
}

/// Every fourth layer is a full-attention layer unless a configuration says
/// otherwise.
pub fn default_full_attention_interval() -> (interval: usize)
    ensures
        interval == 4,
{
    4
}

/// The two kinds of decoder layer.
#[derive(Debug, Clone, Copy, PartialEq, Eq, Structural)]
pub enum LayerType {
    LinearAttention,
    FullAttention,
}

/// The tokens that end a sequence.
#[derive(Debug, Clone, PartialEq, Eq)]
pub enum EosTokenId {
    One(u32),
    Many(Vec<u32>),
}

impl EosTokenId {
    /// Whether a token is among those that end a sequence.
    pub open spec fn ends(&self, token: u32) -> bool {
        match *self {
            EosTokenId::One(id) => id == token,
            EosTokenId::Many(ids) => ids@.contains(token),
        }
    }

    /// Whether a token ends a sequence.
    pub fn contains(&self, token: u32) -> (found: bool)
        ensures
            found == self.ends(token),
    {
        match self {
            EosTokenId::One(id) => *id == token,
            EosTokenId::Many(ids) => {
                let mut i: usize = 0;
                while i < ids.len()
                    invariant
                        *self == EosTokenId::Many(*ids),
                        i <= ids@.len(),
                        forall|j: int| 0 <= j < i ==> ids@[j] != token,
                    decreases ids@.len() - i,
                {
                    if ids[i] == token {
                        proof {
                            assert(ids@.contains(token));
                        }
                        return true;
                    }
                    i += 1;
                }
                false
            },
        }
    }
}

/// The dimensions and switches of one model.
///
/// The two floating-point settings that only kernels read, the normalization
/// epsilon and the rotary base, are not kept here; the rotary width that
/// follows from the partial rotary factor is.
#[derive(Debug, Clone)]
pub struct Qwen3NextConfig {
    pub model_type: String,
    pub vocab_size: usize,
    pub hidden_size: usize,
    pub intermediate_size: usize,
    pub num_hidden_layers: usize,
    pub num_attention_heads: usize,
    pub num_key_value_heads: usize,
    pub head_dim: usize,
    /// The leading elements of a head that rotate with the position.
    pub rotary_dim: usize,
    pub linear_conv_kernel_dim: usize,
    pub linear_key_head_dim: usize,
    pub linear_value_head_dim: usize,
    pub linear_num_key_heads: usize,
    pub linear_num_value_heads: usize,
    pub moe_intermediate_size: usize,
    pub shared_expert_intermediate_size: usize,
    pub num_experts_per_tok: usize,
    pub num_experts: usize,
    pub decoder_sparse_step: usize,
    pub mlp_only_layers: Vec<usize>,
    pub layer_types: Option<Vec<LayerType>>,
    pub full_attention_interval: usize,
    pub hidden_act: String,
    pub norm_topk_prob: bool,
    pub attn_output_gate: bool,
    pub tie_word_embeddings: bool,
    pub attention_bias: bool,
    pub max_position_embeddings: usize,
    pub bos_token_id: Option<u32>,
    pub eos_token_id: Option<EosTokenId>,
    /// Layers of the learned next-token predictor; zero where there is none.
    pub mtp_num_hidden_layers: usize,
    pub mtp_use_dedicated_embeddings: bool,
}

/// A dimension that may not be zero.
#[derive(Debug, Clone, Copy, PartialEq, Eq, Structural)]
pub enum Dimension {
    VocabSize,
    HiddenSize,
    NumHiddenLayers,
    NumAttentionHeads,
    NumKeyValueHeads,
    HeadDim,
    NumExperts,
    NumExpertsPerTok,
    DecoderSparseStep,
    FullAttentionInterval,
    LinearConvKernelDim,
}

/// Why a configuration is not accepted.
#[derive(Debug, Clone, Copy, PartialEq, Eq, Structural)]
pub enum ConfigError {
    /// Only `qwen3_next` and `qwen3_5_moe_text` are supported.
    UnsupportedModelType,
    /// Only `silu` is supported.
    UnsupportedActivation,
    /// The full-attention output gate is required.
    NoOutputGate,
    /// A dimension must be greater than zero.
    Zero(Dimension),
    /// `num_attention_heads` must be divisible by `num_key_value_heads`.
    UnevenQueryGroups,
    /// `linear_num_value_heads` must be divisible by `linear_num_key_heads`.
    UnevenValueGroups,
    /// `num_experts_per_tok` cannot exceed `num_experts`.
    TooManyExpertsPerToken,
    /// The partial rotary dimension must be a positive even number.
    OddRotaryDimension,
    /// `layer_types` has another number of entries than there are layers.
    LayerTypeCount { entries: usize, layers: usize },
    /// `mlp_only_layers` contains an out-of-range layer.
    LayerOutOfRange { layer: usize },
    /// The file is no JSON text.
    NotJson,
    /// The file, or the text model's part of it, is no JSON object.
    NotAnObject,
    /// Neither `intermediate_size` nor `moe_intermediate_size` is there.
    NoIntermediateSize,
}

/// Whether `b` divides `a`; only zero is a multiple of zero.
pub open spec fn is_multiple(a: int, b: int) -> bool {
    if b == 0 {
        a == 0
    } else {
        a % b == 0
    }
}

fn multiple_of(a: usize, b: usize) -> (divides: bool)
    ensures
        divides == is_multiple(a as int, b as int),
{
    if b == 0 {
        a == 0
    } else {
        a % b == 0
    }
}

/// The first of the given layers that a model of `layers` layers lacks.
pub open spec fn first_out_of_range(mlp_only: Seq<usize>, layers: int) -> Option<usize>
    decreases mlp_only.len(),
{
    if mlp_only.len() == 0 {
        None
    } else if mlp_only[0] >= layers {
        Some(mlp_only[0])
    } else {
        first_out_of_range(mlp_only.skip(1), layers)
    }
}

impl Qwen3NextConfig {
    /// The first dimension, in order, that is zero and may not be.
    pub open spec fn zero_dimension(&self) -> Option<Dimension> {
        if self.vocab_size == 0 {
            Some(Dimension::VocabSize)
        } else if self.hidden_size == 0 {
            Some(Dimension::HiddenSize)
        } else if self.num_hidden_layers == 0 {
            Some(Dimension::NumHiddenLayers)
        } else if self.num_attention_heads == 0 {
            Some(Dimension::NumAttentionHeads)
        } else if self.num_key_value_heads == 0 {
            Some(Dimension::NumKeyValueHeads)
        } else if self.head_dim == 0 {
            Some(Dimension::HeadDim)
        } else if self.num_experts == 0 {
            Some(Dimension::NumExperts)
        } else if self.num_experts_per_tok == 0 {
            Some(Dimension::NumExpertsPerTok)
        } else {
            None
        }
    }

    /// What is wrong with a configuration: the first of the checks that fails.
    pub open spec fn problem(&self) -> Option<ConfigError> {
        if self.model_type@ != "qwen3_next"@ && self.model_type@ != "qwen3_5_moe_text"@ {
            Some(ConfigError::UnsupportedModelType)
        } else if self.hidden_act@ != "silu"@ {
            Some(ConfigError::UnsupportedActivation)
        } else if !self.attn_output_gate {
            Some(ConfigError::NoOutputGate)
        } else if let Some(dimension) = self.zero_dimension() {
            Some(ConfigError::Zero(dimension))
        } else if !is_multiple(self.num_attention_heads as int, self.num_key_value_heads as int) {
            Some(ConfigError::UnevenQueryGroups)
        } else if !is_multiple(
            self.linear_num_value_heads as int,
            self.linear_num_key_heads as int,
        ) {
            Some(ConfigError::UnevenValueGroups)
        } else if self.num_experts_per_tok > self.num_experts {
            Some(ConfigError::TooManyExpertsPerToken)
        } else if self.decoder_sparse_step == 0 {
            Some(ConfigError::Zero(Dimension::DecoderSparseStep))
        } else if self.full_attention_interval == 0 {
            Some(ConfigError::Zero(Dimension::FullAttentionInterval))
        } else if self.linear_conv_kernel_dim == 0 {
            Some(ConfigError::Zero(Dimension::LinearConvKernelDim))
        } else if self.rotary_dim == 0 || self.rotary_dim % 2 != 0 {
            Some(ConfigError::OddRotaryDimension)
        } else if self.layer_types is Some && self.layer_types->0@.len()
            != self.num_hidden_layers {
            Some(
                ConfigError::LayerTypeCount {
                    entries: self.layer_types->0@.len() as usize,
                    layers: self.num_hidden_layers,
                },
            )
        } else if let Some(layer) = first_out_of_range(
            self.mlp_only_layers@,
            self.num_hidden_layers as int,
        ) {
            Some(ConfigError::LayerOutOfRange { layer })
        } else {
            None
        }
    }

    /// Accepts the configurations that this runtime can run.
    pub fn validate(&self) -> (result: Result<(), ConfigError>)
        ensures
            match result {
                Ok(_) => self.problem() is None,
                Err(error) => self.problem() == Some(error),
            },
    {
        if !same_text(self.model_type.as_str(), "qwen3_next") && !same_text(
            self.model_type.as_str(),
            "qwen3_5_moe_text",
        ) {
            return Err(ConfigError::UnsupportedModelType);
        }
        if !same_text(self.hidden_act.as_str(), "silu") {
            return Err(ConfigError::UnsupportedActivation);
        }
        if !self.attn_output_gate {
            return Err(ConfigError::NoOutputGate);
        }
        if self.vocab_size == 0 {
            return Err(ConfigError::Zero(Dimension::VocabSize));
        }
        if self.hidden_size == 0 {
            return Err(ConfigError::Zero(Dimension::HiddenSize));
        }
        if self.num_hidden_layers == 0 {
            return Err(ConfigError::Zero(Dimension::NumHiddenLayers));
        }
        if self.num_attention_heads == 0 {
            return Err(ConfigError::Zero(Dimension::NumAttentionHeads));
        }
        if self.num_key_value_heads == 0 {
            return Err(ConfigError::Zero(Dimension::NumKeyValueHeads));
        }
        if self.head_dim == 0 {
            return Err(ConfigError::Zero(Dimension::HeadDim));
        }
        if self.num_experts == 0 {
            return Err(ConfigError::Zero(Dimension::NumExperts));
        }
        if self.num_experts_per_tok == 0 {
            return Err(ConfigError::Zero(Dimension::NumExpertsPerTok));
        }
        if !multiple_of(self.num_attention_heads, self.num_key_value_heads) {
            return Err(ConfigError::UnevenQueryGroups);
        }
        if !multiple_of(self.linear_num_value_heads, self.linear_num_key_heads) {
            return Err(ConfigError::UnevenValueGroups);
        }
        if self.num_experts_per_tok > self.num_experts {
            return Err(ConfigError::TooManyExpertsPerToken);
        }
        if self.decoder_sparse_step == 0 {
            return Err(ConfigError::Zero(Dimension::DecoderSparseStep));
        }
        if self.full_attention_interval == 0 {
            return Err(ConfigError::Zero(Dimension::FullAttentionInterval));
        }
        if self.linear_conv_kernel_dim == 0 {
            return Err(ConfigError::Zero(Dimension::LinearConvKernelDim));
        }
        if self.rotary_dim == 0 || self.rotary_dim % 2 != 0 {
            return Err(ConfigError::OddRotaryDimension);
        }
        match &self.layer_types {
            Some(types) => {
                if types.len() != self.num_hidden_layers {
                    return Err(
                        ConfigError::LayerTypeCount {
                            entries: types.len(),
                            layers: self.num_hidden_layers,
                        },
                    );
                }
            },
            None => {},
        }
        let mut i: usize = 0;
        proof {
            assert(self.mlp_only_layers@.skip(0) =~= self.mlp_only_layers@);
        }
        while i < self.mlp_only_layers.len()
            invariant
                i <= self.mlp_only_layers@.len(),
                first_out_of_range(self.mlp_only_layers@, self.num_hidden_layers as int)
                    == first_out_of_range(
                    self.mlp_only_layers@.skip(i as int),
                    self.num_hidden_layers as int,
                ),
                match first_out_of_range(self.mlp_only_layers@, self.num_hidden_layers as int) {
                    None => self.problem() is None,
                    Some(layer) => self.problem() == Some(ConfigError::LayerOutOfRange { layer }),
                },
            decreases self.mlp_only_layers@.len() - i,
        {
            let layer: usize = self.mlp_only_layers[i];
            proof {
                assert(self.mlp_only_layers@.skip(i as int).skip(1)
                    =~= self.mlp_only_layers@.skip(i + 1));
            }
            if layer >= self.num_hidden_layers {
                return Err(ConfigError::LayerOutOfRange { layer });
            }
            i += 1;
        }
        Ok(())
    }

    /// The type of a layer: as listed where there is a list, else every
    /// `full_attention_interval`-th layer attends fully.
    pub open spec fn type_of(&self, layer: int) -> LayerType {
        match self.layer_types {
            Some(types) => types@[layer],
            None => if is_multiple(layer + 1, self.full_attention_interval as int) {
                LayerType::FullAttention
            } else {
                LayerType::LinearAttention
            },
        }
    }

    /// Whether the type of this layer is defined.
    pub open spec fn has_layer_type(&self, layer: int) -> bool {
        match self.layer_types {
            Some(types) => layer < types@.len(),
            None => layer < usize::MAX,
        }
    }

    /// The type of a layer.
    pub fn layer_type(&self, layer: usize) -> (layer_type: LayerType)
        requires
            self.has_layer_type(layer as int),
        ensures
            layer_type == self.type_of(layer as int),
    {
        match &self.layer_types {
            Some(types) => types[layer],
            None => {
                if multiple_of(layer + 1, self.full_attention_interval) {
                    LayerType::FullAttention
                } else {
                    LayerType::LinearAttention
                }
            },
        }
    }

    /// Whether a layer routes its tokens to experts.
    pub open spec fn is_moe(&self, layer: int) -> bool {
        &&& forall|i: int|
            0 <= i < self.mlp_only_layers@.len() ==> #[trigger] self.mlp_only_layers@[i] != layer
        &&& self.num_experts > 0
        &&& is_multiple(layer + 1, self.decoder_sparse_step as int)
    }

    /// Whether a layer routes its tokens to experts.
    pub fn layer_is_moe(&self, layer: usize) -> (moe: bool)
        requires
            layer < usize::MAX,
        ensures
            moe == self.is_moe(layer as int),
    {
        let mut i: usize = 0;
        while i < self.mlp_only_layers.len()
            invariant
                i <= self.mlp_only_layers@.len(),
                forall|j: int| 0 <= j < i ==> #[trigger] self.mlp_only_layers@[j] != layer,
            decreases self.mlp_only_layers@.len() - i,
        {
            if self.mlp_only_layers[i] == layer {
                return false;
            }
            i += 1;
        }
        self.num_experts > 0 && multiple_of(layer + 1, self.decoder_sparse_step)
    }

    /// The leading elements of a head that rotate with the position.
    pub fn rotary_dim(&self) -> (width: usize)
        ensures
            width == self.rotary_dim,
    {
        self.rotary_dim
    }

    /// How many of the first `layers` layers attend fully.
    pub open spec fn full_layers(&self, layers: nat) -> nat
        decreases layers,
    {
        if layers == 0 {
            0
        } else {
            self.full_layers((layers - 1) as nat) + if self.type_of(layers - 1)
                == LayerType::FullAttention {
                1nat
            } else {
                0nat
            }
        }
    }
}

/// In an accepted configuration every layer of the model has a type, and every
/// layer that `mlp_only_layers` names exists.
pub proof fn accepted_layers_are_typed(config: Qwen3NextConfig, layer: int)
    requires
        config.problem() is None,
        0 <= layer < config.num_hidden_layers,
    ensures
        config.has_layer_type(layer),
        forall|i: int|
            0 <= i < config.mlp_only_layers@.len() ==> #[trigger] config.mlp_only_layers@[i]
                < config.num_hidden_layers,
{
    assert forall|i: int| 0 <= i < config.mlp_only_layers@.len() implies #[trigger]
    config.mlp_only_layers@[i] < config.num_hidden_layers by {
        lemma_in_range(config.mlp_only_layers@, config.num_hidden_layers as int, i);
    }
}

proof fn lemma_in_range(mlp_only: Seq<usize>, layers: int, i: int)
    requires
        first_out_of_range(mlp_only, layers) is None,
        0 <= i < mlp_only.len(),
    ensures
        mlp_only[i] < layers,
    decreases i,
{
    if i > 0 {
        lemma_in_range(mlp_only.skip(1), layers, i - 1);
    }
}

/// Without a list of types the layers follow a fixed pattern: one layer in
/// every `full_attention_interval` attends fully, the last of each run.
pub proof fn one_layer_per_interval_attends_fully(config: Qwen3NextConfig, layers: nat)
    requires
        config.layer_types is None,
        config.full_attention_interval > 0,
    ensures
        config.full_layers(layers) == layers / config.full_attention_interval as nat,
    decreases layers,
{
    let interval = config.full_attention_interval as int;
    if layers == 0 {
        vstd::arithmetic::div_mod::lemma_div_basics(interval);
    } else {
        one_layer_per_interval_attends_fully(config, (layers - 1) as nat);
        let before = layers - 1;
        let q = before / interval;
        let r = before % interval;
        vstd::arithmetic::div_mod::lemma_fundamental_div_mod(before, interval);
        if r + 1 == interval {
            assert(layers == interval * (q + 1) + 0) by (nonlinear_arith)
                requires
                    before == interval * q + r,
                    r + 1 == interval,
                    layers == before + 1,
            ;
            vstd::arithmetic::div_mod::lemma_fundamental_div_mod_converse(
                layers as int,
                interval,
                q + 1,
                0,
            );
        } else {
            vstd::arithmetic::div_mod::lemma_fundamental_div_mod_converse(
                layers as int,
                interval,
                q,
                r + 1,
            );
        }
    }
}

/// A configuration that is accepted has a known architecture, no empty dimension,
/// heads and experts that divide and fit, a kernel, an even rotary width, and as
/// many layer types as layers.
pub proof fn an_accepted_configuration_is_sound(config: Qwen3NextConfig)
    requires
        config.problem() is None,
    ensures
        config.model_type@ == "qwen3_next"@ || config.model_type@ == "qwen3_5_moe_text"@,
        config.hidden_act@ == "silu"@,
        config.attn_output_gate,
        config.vocab_size > 0,
        config.hidden_size > 0,
        config.num_hidden_layers > 0,
        config.num_attention_heads > 0,
        config.num_key_value_heads > 0,
        config.head_dim > 0,
        config.num_attention_heads as int % config.num_key_value_heads as int == 0,
        config.linear_num_key_heads > 0 ==> config.linear_num_value_heads as int
            % config.linear_num_key_heads as int == 0,
        config.linear_num_key_heads == 0 ==> config.linear_num_value_heads == 0,
        0 < config.num_experts_per_tok <= config.num_experts,
        config.decoder_sparse_step > 0,
        config.full_attention_interval > 0,
        config.linear_conv_kernel_dim > 0,
        config.rotary_dim > 0,
        config.rotary_dim % 2 == 0,
        config.layer_types is Some ==> config.layer_types->0@.len() == config.num_hidden_layers,
        forall|i: int|
            0 <= i < config.mlp_only_layers@.len() ==> #[trigger] config.mlp_only_layers@[i]
                < config.num_hidden_layers,
{
    accepted_layers_are_typed(config, 0);
}

proof fn lemma_all_in_range(mlp_only: Seq<usize>, layers: int)
    requires
        forall|i: int| 0 <= i < mlp_only.len() ==> #[trigger] mlp_only[i] < layers,
    ensures
        first_out_of_range(mlp_only, layers) is None,
    decreases mlp_only.len(),
{
    if mlp_only.len() > 0 {
        assert(mlp_only[0] < layers);
        assert forall|i: int| 0 <= i < mlp_only.skip(1).len() implies #[trigger] mlp_only.skip(1)[i]
            < layers by {
            assert(mlp_only[i + 1] < layers);
        }
        lemma_all_in_range(mlp_only.skip(1), layers);
    }
}

/// Nothing else is asked of a configuration: one with all of that is accepted.
pub proof fn a_sound_configuration_is_accepted(config: Qwen3NextConfig)
    requires
        config.model_type@ == "qwen3_next"@ || config.model_type@ == "qwen3_5_moe_text"@,
        config.hidden_act@ == "silu"@,
        config.attn_output_gate,
        config.vocab_size > 0,
        config.hidden_size > 0,
        config.num_hidden_layers > 0,
        config.num_attention_heads > 0,
        config.num_key_value_heads > 0,
        config.head_dim > 0,
        config.num_attention_heads as int % config.num_key_value_heads as int == 0,
        config.linear_num_key_heads > 0 ==> config.linear_num_value_heads as int
            % config.linear_num_key_heads as int == 0,
        config.linear_num_key_heads == 0 ==> config.linear_num_value_heads == 0,
        0 < config.num_experts_per_tok <= config.num_experts,
        config.decoder_sparse_step > 0,
        config.full_attention_interval > 0,
        config.linear_conv_kernel_dim > 0,
        config.rotary_dim > 0,
        config.rotary_dim % 2 == 0,
        config.layer_types is Some ==> config.layer_types->0@.len() == config.num_hidden_layers,
        forall|i: int|
            0 <= i < config.mlp_only_layers@.len() ==> #[trigger] config.mlp_only_layers@[i]
                < config.num_hidden_layers,
    ensures
        config.problem() is None,
{
    lemma_all_in_range(config.mlp_only_layers@, config.num_hidden_layers as int);
}

/// Which layers attend fully and which route to experts: as listed, or the last of
/// every interval; and the last of every sparse step, unless a layer is named as
/// one without experts.
pub proof fn layers_follow_their_steps(config: Qwen3NextConfig, layer: int)
    requires
        0 <= layer,
        config.full_attention_interval > 0,
        config.decoder_sparse_step > 0,
    ensures
        config.layer_types is Some ==> config.type_of(layer) == config.layer_types->0@[layer],
        config.layer_types is None ==> (config.type_of(layer) == LayerType::FullAttention <==> (layer
            + 1) % config.full_attention_interval as int == 0),
        config.is_moe(layer) <==> config.num_experts > 0 && (layer + 1)
            % config.decoder_sparse_step as int == 0 && forall|i: int|
            0 <= i < config.mlp_only_layers@.len() ==> #[trigger] config.mlp_only_layers@[i]
                != layer,
{
}

} // verus!
