use qwen_engine::arithmetic::{Arithmetic, Clock};
use qwen_engine::config::{LayerType, Qwen3NextConfig};
use qwen_engine::gguf::{GgmlType, GgufCheckpoint, GgufError, HeaderTensor};
use qwen_engine::limits::{
    counted, is_loadable, layer_is_typed, layers_are_countable, widths_are_countable,
};
use qwen_engine::qwen::delta::{BetaAlphaLayout, ValueHeadLayout};
use qwen_engine::qwen::layers::LayerError;
use qwen_engine::qwen::pass::{
    check_draft_config, check_draft_norms, check_draft_pass, check_draft_projection,
    check_embedding, check_final_norm, check_head, check_layer_kind, check_layer_norms, drafts,
    ModelError, PassError,
};
use qwen_engine::qwen::reference_model::sparse_moe;
use qwen_engine::qwen::{
    reference_attention_step, reference_deltanet, AttentionError, DecoderState, DeltaError,
    DecoderLayer, DeltaGeometry, DeltaWeights, MoeError, QuantizedAttentionLayer,
    QuantizedAttentionState, QuantizedDeltaLayer, QuantizedDeltaSnapshots, QuantizedDeltaState,
    QuantizedFullLayer, QuantizedLinearLayer, QuantizedModel, QuantizedMtpHead, Route,
};

struct Floats;

impl Arithmetic<f32> for Floats {
    fn zero(&self) -> f32 {
        0.
    }
    fn empty_sum(&self) -> f32 {
        std::iter::empty::<f32>().sum()
    }
    fn one(&self) -> f32 {
        1.
    }
    fn lowest(&self) -> f32 {
        f32::NEG_INFINITY
    }
    fn count(&self, n: usize) -> f32 {
        n as f32
    }
    fn above(&self, a: f32, b: f32) -> bool {
        a > b
    }
    fn integer(&self, n: i32) -> f32 {
        n as f32
    }
    fn half(&self, bits: u16) -> f32 {
        half::f16::from_bits(bits).to_f32()
    }
    fn single(&self, bits: u32) -> f32 {
        f32::from_bits(bits)
    }
    fn mul_add(&self, a: f32, b: f32, c: f32) -> f32 {
        a.mul_add(b, c)
    }
    fn neg(&self, a: f32) -> f32 {
        -a
    }
    fn exp(&self, a: f32) -> f32 {
        a.exp()
    }
    fn ln_1p(&self, a: f32) -> f32 {
        a.ln_1p()
    }
    fn sqrt(&self, a: f32) -> f32 {
        a.sqrt()
    }
    fn recip(&self, a: f32) -> f32 {
        a.recip()
    }
    fn plus(&self, a: f32, b: f32) -> f32 {
        a + b
    }
    fn minus(&self, a: f32, b: f32) -> f32 {
        a - b
    }
    fn times(&self, a: f32, b: f32) -> f32 {
        a * b
    }
    fn over(&self, a: f32, b: f32) -> f32 {
        a / b
    }
    fn max(&self, a: f32, b: f32) -> f32 {
        f32::max(a, b)
    }
}

/// A clock that moves on by one every time it is asked.
struct Ticks(u64);

impl Clock for Ticks {
    fn nanos(&mut self) -> u64 {
        self.0 += 1;
        self.0
    }
}

fn config() -> Qwen3NextConfig {
    Qwen3NextConfig {
        model_type: "qwen3_next".into(),
        vocab_size: 32,
        hidden_size: 8,
        intermediate_size: 16,
        num_hidden_layers: 2,
        num_attention_heads: 2,
        num_key_value_heads: 1,
        head_dim: 4,
        rotary_dim: 4,
        linear_conv_kernel_dim: 2,
        linear_key_head_dim: 2,
        linear_value_head_dim: 2,
        linear_num_key_heads: 2,
        linear_num_value_heads: 2,
        moe_intermediate_size: 4,
        shared_expert_intermediate_size: 4,
        num_experts_per_tok: 2,
        num_experts: 4,
        decoder_sparse_step: 1,
        mlp_only_layers: vec![],
        layer_types: Some(vec![LayerType::LinearAttention, LayerType::FullAttention]),
        full_attention_interval: 2,
        hidden_act: "silu".into(),
        norm_topk_prob: true,
        attn_output_gate: true,
        tie_word_embeddings: false,
        attention_bias: false,
        max_position_embeddings: 128,
        bos_token_id: None,
        eos_token_id: None,
        mtp_num_hidden_layers: 0,
        mtp_use_dedicated_embeddings: false,
    }
}


fn tensor(name: &str, shape: &[usize]) -> HeaderTensor {
    HeaderTensor {
        name: name.into(),
        dtype: GgmlType::F32,
        shape: shape.to_vec(),
        offset: 0,
    }
}

fn expert_tensors(layer: usize) -> Vec<HeaderTensor> {
    vec![
        tensor(&format!("blk.{layer}.ffn_gate_inp.weight"), &[4, 8]),
        tensor(&format!("blk.{layer}.ffn_gate_exps.weight"), &[4, 4, 8]),
        tensor(&format!("blk.{layer}.ffn_down_exps.weight"), &[4, 8, 4]),
        tensor(&format!("blk.{layer}.ffn_up_exps.weight"), &[4, 4, 8]),
        tensor(&format!("blk.{layer}.ffn_gate_shexp.weight"), &[4, 8]),
        tensor(&format!("blk.{layer}.ffn_up_shexp.weight"), &[4, 8]),
        tensor(&format!("blk.{layer}.ffn_down_shexp.weight"), &[8, 4]),
        tensor(&format!("blk.{layer}.ffn_gate_inp_shexp.weight"), &[8]),
        tensor(&format!("blk.{layer}.attn_norm.weight"), &[8]),
        tensor(&format!("blk.{layer}.post_attention_norm.weight"), &[8]),
    ]
}

fn full_tensors(layer: usize) -> Vec<HeaderTensor> {
    let mut tensors = expert_tensors(layer);
    tensors.extend([
        tensor(&format!("blk.{layer}.attn_q.weight"), &[16, 8]),
        tensor(&format!("blk.{layer}.attn_k.weight"), &[4, 8]),
        tensor(&format!("blk.{layer}.attn_v.weight"), &[4, 8]),
        tensor(&format!("blk.{layer}.attn_output.weight"), &[8, 8]),
        tensor(&format!("blk.{layer}.attn_q_norm.weight"), &[4]),
        tensor(&format!("blk.{layer}.attn_k_norm.weight"), &[4]),
    ]);
    tensors
}

fn linear_tensors(layer: usize) -> Vec<HeaderTensor> {
    let mut tensors = expert_tensors(layer);
    tensors.extend([
        tensor(&format!("blk.{layer}.attn_qkv.weight"), &[12, 8]),
        tensor(&format!("blk.{layer}.attn_gate.weight"), &[4, 8]),
        tensor(&format!("blk.{layer}.ssm_beta.weight"), &[2, 8]),
        tensor(&format!("blk.{layer}.ssm_alpha.weight"), &[2, 8]),
        tensor(&format!("blk.{layer}.ssm_out.weight"), &[8, 4]),
        tensor(&format!("blk.{layer}.ssm_conv1d.weight"), &[12, 2]),
        tensor(&format!("blk.{layer}.ssm_a"), &[2]),
        tensor(&format!("blk.{layer}.ssm_dt.bias"), &[2]),
        tensor(&format!("blk.{layer}.ssm_norm.weight"), &[2]),
    ]);
    tensors
}

fn model_tensors() -> Vec<HeaderTensor> {
    let mut tensors = vec![
        tensor("token_embd.weight", &[32, 8]),
        tensor("output_norm.weight", &[8]),
        tensor("output.weight", &[32, 8]),
        tensor("blk.2.nextn.enorm.weight", &[8]),
        tensor("blk.2.nextn.hnorm.weight", &[8]),
        tensor("blk.2.nextn.shared_head_norm.weight", &[8]),
        tensor("blk.2.nextn.eh_proj.weight", &[8, 16]),
    ];
    tensors.extend(linear_tensors(0));
    tensors.extend(full_tensors(1));
    tensors.extend(full_tensors(2));
    tensors
}

fn header(tensors: Vec<HeaderTensor>) -> GgufCheckpoint {
    GgufCheckpoint {
        metadata: vec![],
        tensors,
        tensor_data_offset: 1000,
    }
}

fn drafting() -> Qwen3NextConfig {
    let mut config = config();
    config.mtp_num_hidden_layers = 1;
    config
}

/// Why a model is refused whose tensor of the given name is changed.
fn refused(name: &str, change: fn(&mut HeaderTensor)) -> LayerError {
    let mut tensors = model_tensors();
    change(tensors.iter_mut().find(|tensor| tensor.name == name).unwrap());
    QuantizedModel::load(&header(tensors), drafting()).err().unwrap()
}

fn missing(name: &str) -> LayerError {
    LayerError::Tensor(GgufError::MissingTensor { name: name.into() })
}

#[test]
fn a_model_is_made_from_its_tensors() {
    let model = QuantizedModel::load(&header(model_tensors()), config()).unwrap();
    assert_eq!(model.config().vocab_size, 32);
    assert_eq!(model.layers.len(), 2);
    assert!(matches!(model.layers[0], DecoderLayer::Linear(_)));
    assert!(matches!(model.layers[1], DecoderLayer::Full(_)));
    match model.layers[1] {
        DecoderLayer::Full(layer) => assert_eq!(layer.moe.expert_count, 4),
        DecoderLayer::Linear(_) => panic!("the second layer is full"),
    }
    assert!(model.mtp.is_none());
    let model = QuantizedModel::load(&header(model_tensors()), drafting()).unwrap();
    let head = model.mtp().unwrap();
    assert_eq!((head.hidden_size, head.vocab_size()), (8, 32));
    assert_eq!(head.new_state::<f32>().position(), 0);
    assert_eq!(head.layer.attention.query_heads, 2);
}

#[test]
fn a_model_starts_with_an_empty_state_per_layer() {
    let model = QuantizedModel::load(&header(model_tensors()), config()).unwrap();
    let state = model.new_state(0f32);
    assert_eq!(state.position, 0);
    assert_eq!(state.row_width, config().num_key_value_heads * config().head_dim);
    assert_eq!(state.layers.len(), 2);
    match &state.layers[0] {
        DecoderState::Linear(state) => {
            assert_eq!(state.conv, vec![0.; 12]);
            assert_eq!(state.recurrent, vec![0.; 8]);
        }
        DecoderState::Full(_) => panic!("the first layer is linear"),
    }
    match &state.layers[1] {
        DecoderState::Full(state) => assert!(state.keys.is_empty() && state.positions == 0),
        DecoderState::Linear(_) => panic!("the second layer is full"),
    }
}

#[test]
fn every_tensor_of_a_model_is_needed() {
    for tensor in model_tensors() {
        let name = tensor.name;
        let mut rest = model_tensors();
        rest.retain(|tensor| tensor.name != name);
        // A fused pair of betas and alphas is looked for first.
        let wanted = match QuantizedModel::load(&header(rest), drafting()).err().unwrap() {
            LayerError::Tensor(GgufError::MissingTensor { name }) => name,
            LayerError::Moe(MoeError::MissingTensor { name }) => name,
            other => panic!("{other:?}"),
        };
        assert_eq!(wanted, name);
    }
}

#[test]
fn a_model_without_drafting_needs_no_drafting_head() {
    let mut tensors = model_tensors();
    tensors.retain(|tensor| !tensor.name.starts_with("blk.2."));
    assert!(QuantizedModel::load(&header(tensors), config()).is_ok());
}

#[test]
fn the_first_thing_that_is_wrong_is_reported() {
    let wrong: Vec<(&str, LayerError)> = vec![
        ("token_embd.weight", LayerError::Model(ModelError::EmbeddingShape)),
        (
            "blk.0.attn_norm.weight",
            LayerError::Model(ModelError::LayerNormLength { layer: 0 }),
        ),
        ("blk.0.attn_qkv.weight", LayerError::Delta(DeltaError::QkvShape)),
        ("blk.0.attn_gate.weight", LayerError::Delta(DeltaError::ZShape)),
        ("blk.0.ssm_out.weight", LayerError::Delta(DeltaError::OutputShape)),
        ("blk.0.ssm_conv1d.weight", LayerError::Delta(DeltaError::ConvolutionLength)),
        ("blk.0.ssm_a", LayerError::Delta(DeltaError::StateScaleLength)),
        ("blk.0.ssm_dt.bias", LayerError::Delta(DeltaError::TimeBiasLength)),
        ("blk.0.ssm_norm.weight", LayerError::Delta(DeltaError::NormLength)),
        ("blk.0.ffn_down_exps.weight", LayerError::Moe(MoeError::DownShape)),
        ("blk.0.ffn_up_shexp.weight", LayerError::Moe(MoeError::SharedShape)),
        ("blk.0.ffn_gate_inp_shexp.weight", LayerError::Moe(MoeError::SelectorLength)),
        ("blk.1.attn_q.weight", LayerError::Attention(AttentionError::QueryShape)),
        ("blk.1.attn_v.weight", LayerError::Attention(AttentionError::KeyValueShape)),
        ("blk.1.attn_output.weight", LayerError::Attention(AttentionError::OutputShape)),
        ("blk.1.attn_k_norm.weight", LayerError::Attention(AttentionError::NormLength)),
        ("output_norm.weight", LayerError::Model(ModelError::FinalNormLength)),
        ("output.weight", LayerError::Model(ModelError::HeadShape)),
        (
            "blk.2.nextn.hnorm.weight",
            LayerError::Model(ModelError::DraftNormLength { norm: 1 }),
        ),
        (
            "blk.2.nextn.eh_proj.weight",
            LayerError::Model(ModelError::DraftProjectionShape),
        ),
        (
            "blk.2.post_attention_norm.weight",
            LayerError::Model(ModelError::LayerNormLength { layer: 2 }),
        ),
    ];
    for (name, error) in wrong {
        assert_eq!(refused(name, |tensor| tensor.shape[0] += 1), error, "{name}");
    }
    assert_eq!(
        refused("output.weight", |tensor| tensor.dtype = GgmlType::Q2K),
        LayerError::Tensor(GgufError::UnsupportedType { dtype: GgmlType::Q2K })
    );
    assert_eq!(
        refused("output.weight", |tensor| tensor.shape = vec![256]),
        LayerError::Tensor(GgufError::NotAMatrix {
            name: "output.weight".into(),
            shape: vec![256],
        })
    );
}

#[test]
fn a_layer_is_loaded_as_its_own_kind_only() {
    let checkpoint = header(model_tensors());
    assert!(QuantizedLinearLayer::load(&checkpoint, &config(), 0).is_ok());
    assert!(QuantizedFullLayer::load(&checkpoint, &config(), 1).is_ok());
    assert_eq!(
        QuantizedFullLayer::load(&checkpoint, &config(), 0).err(),
        Some(LayerError::Model(ModelError::LayerKind { layer: 0 }))
    );
    assert_eq!(
        QuantizedLinearLayer::load(&checkpoint, &config(), 1).err(),
        Some(LayerError::Model(ModelError::LayerKind { layer: 1 }))
    );
}

#[test]
fn a_drafting_head_needs_one_layer_of_its_own() {
    let checkpoint = header(model_tensors());
    assert_eq!(
        QuantizedMtpHead::load(&checkpoint, &config()).err(),
        Some(LayerError::Model(ModelError::DraftLayers))
    );
    let mut dedicated = drafting();
    dedicated.mtp_use_dedicated_embeddings = true;
    assert_eq!(
        QuantizedMtpHead::load(&checkpoint, &dedicated).err(),
        Some(LayerError::Model(ModelError::DraftEmbeddings))
    );
    assert_eq!(
        QuantizedMtpHead::load(&header(vec![]), &drafting()).err(),
        Some(missing("blk.2.nextn.enorm.weight"))
    );
    assert!(QuantizedMtpHead::load(&checkpoint, &drafting()).is_ok());
}

#[test]
fn the_parts_of_a_model_are_checked_one_by_one() {
    let config = config();
    assert_eq!(check_embedding(&config, [32, 8]), Ok(()));
    assert_eq!(check_embedding(&config, [8, 32]), Err(ModelError::EmbeddingShape));
    assert_eq!(check_final_norm(&config, 8), Ok(()));
    assert_eq!(check_final_norm(&config, 7), Err(ModelError::FinalNormLength));
    assert_eq!(check_head(&config, [32, 8]), Ok(()));
    assert_eq!(check_head(&config, [32, 9]), Err(ModelError::HeadShape));
    assert_eq!(check_layer_kind(&config, 0, LayerType::LinearAttention), Ok(()));
    assert_eq!(
        check_layer_kind(&config, 0, LayerType::FullAttention),
        Err(ModelError::LayerKind { layer: 0 })
    );
    assert_eq!(check_layer_norms(&config, 1, 8, 8), Ok(()));
    assert_eq!(
        check_layer_norms(&config, 1, 8, 9),
        Err(ModelError::LayerNormLength { layer: 1 })
    );
    assert!(!drafts(&config));
    assert!(drafts(&drafting()));
    assert_eq!(check_draft_config(&config), Err(ModelError::DraftLayers));
    assert_eq!(check_draft_config(&drafting()), Ok(()));
    assert_eq!(check_draft_norms(&config, [8, 8, 8]), Ok(()));
    assert_eq!(
        check_draft_norms(&config, [8, 8, 1]),
        Err(ModelError::DraftNormLength { norm: 2 })
    );
    assert_eq!(check_draft_projection(&config, [8, 16]), Ok(()));
    assert_eq!(
        check_draft_projection(&config, [16, 8]),
        Err(ModelError::DraftProjectionShape)
    );
    assert_eq!(check_draft_pass(2, &[2, 8], 8), Ok(()));
    assert_eq!(check_draft_pass(0, &[0, 8], 8), Err(PassError::NoTokens));
    assert_eq!(check_draft_pass(2, &[1, 8], 8), Err(PassError::HiddenShape));
}

/// Numbers that repeat only after a long while.
fn numbers(seed: usize, len: usize) -> Vec<f32> {
    (0..len)
        .map(|i| ((i * 37 + seed * 101) % 211) as f32 / 97. - 1.)
        .collect()
}

fn attention_layer() -> QuantizedAttentionLayer {
    QuantizedAttentionLayer {
        hidden_size: 8,
        query_heads: 4,
        kv_heads: 2,
        head_dim: 8,
        rotary_dim: 4,
    }
}

fn rotations(first: usize, rows: usize) -> Vec<Vec<(f32, f32)>> {
    (first..first + rows)
        .map(|position| {
            (0..2)
                .map(|pair| {
                    let angle = position as f32 / (1 + pair * 9) as f32;
                    (angle.cos(), angle.sin())
                })
                .collect()
        })
        .collect()
}

/// Attends to the rows from `first` on, and returns what they gave.
fn attend(first: usize, rows: usize, state: &mut QuantizedAttentionState<f32>) -> Vec<f32> {
    let layer = attention_layer();
    let queries = numbers(1, 5 * 64)[first * 64..(first + rows) * 64].to_vec();
    let keys = numbers(2, 5 * 16)[first * 16..(first + rows) * 16].to_vec();
    let values = numbers(3, 5 * 16)[first * 16..(first + rows) * 16].to_vec();
    layer
        .forward(
            &Floats,
            &mut Ticks(0),
            rows,
            &queries,
            &keys,
            &values,
            &numbers(4, 8),
            &numbers(5, 8),
            1e-6,
            8f32.sqrt().recip(),
            &rotations(first, rows),
            state,
            2,
        )
        .0
}

#[test]
fn a_wide_attention_pass_is_its_rows_one_after_the_other() {
    let mut wide_state = QuantizedAttentionState::empty();
    let wide = attend(0, 5, &mut wide_state);
    assert_eq!(wide.len(), 5 * 32);
    assert!(wide.iter().all(|value| value.is_finite()));
    let mut state = QuantizedAttentionState::empty();
    let mut rows = attend(0, 2, &mut state);
    rows.extend(attend(2, 1, &mut state));
    rows.extend(attend(3, 2, &mut state));
    assert_eq!(rows, wide);
    assert_eq!(state.keys, wide_state.keys);
    assert_eq!(state.values, numbers(3, 5 * 16));
    assert_eq!(state.positions, 5);
}

#[test]
fn later_rows_leave_an_attention_row_as_it_is() {
    let mut state = QuantizedAttentionState::empty();
    let all = attend(0, 5, &mut state);
    let mut shorter = QuantizedAttentionState::empty();
    assert_eq!(attend(0, 3, &mut shorter), all[..3 * 32]);
}

#[test]
fn a_single_position_attends_to_its_own_value() {
    let mut state = QuantizedAttentionState::empty();
    let out = attend(0, 1, &mut state);
    let values = numbers(3, 16);
    let projected = numbers(1, 64);
    for head in 0..4 {
        for column in 0..8 {
            let gate = projected[head * 16 + 8 + column];
            let expected = values[head / 2 * 8 + column] / (1. + (-gate).exp());
            assert!((out[head * 8 + column] - expected).abs() < 1e-6);
        }
    }
}

#[test]
fn a_reference_pass_agrees_with_a_compressed_one() {
    let layer = attention_layer();
    let mut expected_state = QuantizedAttentionState::empty();
    let expected = attend(0, 4, &mut expected_state);
    let centered = |weights: Vec<f32>| weights.iter().map(|w| w - 1.).collect::<Vec<f32>>();
    let mut state = QuantizedAttentionState::empty();
    let out = reference_attention_step(
        &Floats,
        &layer,
        4,
        &numbers(1, 5 * 64)[..4 * 64].to_vec(),
        &numbers(2, 5 * 16)[..4 * 16].to_vec(),
        &numbers(3, 5 * 16)[..4 * 16].to_vec(),
        &centered(numbers(4, 8)),
        &centered(numbers(5, 8)),
        1e-6,
        8f32.sqrt().recip(),
        &rotations(0, 4),
        &mut state,
    );
    assert_eq!(state.positions, 4);
    for (a, b) in out.iter().zip(&expected) {
        assert!((a - b).abs() < 1e-4, "{a} {b}");
    }
    assert_eq!(out.len(), expected.len());
}

fn delta_layer() -> QuantizedDeltaLayer {
    QuantizedDeltaLayer {
        hidden_size: 8,
        geometry: DeltaGeometry {
            key_heads: 2,
            value_heads: 4,
            key_head_dim: 4,
            value_head_dim: 3,
            conv_kernel: 3,
        },
        value_layout: ValueHeadLayout::GroupedByKeyHead,
        beta_alpha_layout: BetaAlphaLayout::InterleavedByKeyHead,
    }
}

fn delta_weights() -> DeltaWeights<f32> {
    DeltaWeights {
        conv_weight: numbers(6, 28 * 3),
        state_scale: vec![-0.5, -0.25, -1., -0.125],
        dt_bias: numbers(7, 4),
    }
}

fn run_delta(
    rows: usize,
    state: &mut QuantizedDeltaState<f32>,
    record: bool,
    snapshots: &mut QuantizedDeltaSnapshots<f32>,
) -> Result<(), DeltaError> {
    delta_layer()
        .forward_with_snapshots(
            &Floats,
            &mut Ticks(0),
            &delta_weights(),
            rows,
            &numbers(8, 4 * 40)[..rows * 40].to_vec(),
            &None,
            &numbers(9, 4 * 8)[..rows * 8].to_vec(),
            state,
            record,
            snapshots,
            false,
        )
        .map(|_| ())
}

#[test]
fn a_recorded_slot_is_the_state_of_a_shorter_pass() {
    let geometry = delta_layer().geometry;
    let mut snapshots = QuantizedDeltaSnapshots::empty();
    snapshots.reserve(3, geometry.conv_len(), geometry.recurrent_len(), 0.);
    let mut state = QuantizedDeltaState::with_geometry(&geometry, 0f32);
    run_delta(4, &mut state, true, &mut snapshots).unwrap_err();
    snapshots.reserve(4, geometry.conv_len(), geometry.recurrent_len(), 0.);
    run_delta(4, &mut state, true, &mut snapshots).unwrap();
    assert_eq!(state.scratch.recurrent_output.len(), 4 * 12);
    for rows in 1..4 {
        let mut shorter = QuantizedDeltaState::with_geometry(&geometry, 0f32);
        run_delta(rows, &mut shorter, false, &mut QuantizedDeltaSnapshots::empty()).unwrap();
        let mut restored = QuantizedDeltaState::with_geometry(&geometry, 0f32);
        snapshots.restore_into(rows, &mut restored).unwrap();
        assert_eq!(restored.conv, shorter.conv);
        assert_eq!(restored.recurrent, shorter.recurrent);
        assert_eq!(
            shorter.scratch.recurrent_output,
            state.scratch.recurrent_output[..rows * 12]
        );
    }
}

#[test]
fn a_pass_over_another_state_is_refused() {
    let mut other = delta_layer().geometry;
    other.value_heads = 2;
    let mut state = QuantizedDeltaState::with_geometry(&other, 0f32);
    let before = state.conv.clone();
    assert_eq!(
        run_delta(1, &mut state, false, &mut QuantizedDeltaSnapshots::empty()),
        Err(DeltaError::ConvolutionState)
    );
    assert_eq!(state.conv, before);
}

#[test]
fn a_reference_recurrence_reads_its_heads_side_by_side() {
    let layer = delta_layer();
    let geometry = layer.geometry;
    // Per key head: its query, its key, the values and the gates of its heads.
    let compact = numbers(8, 4 * 40)[..2 * 40].to_vec();
    let mut projected = Vec::new();
    for row in compact.chunks(40) {
        for head in 0..2 {
            projected.extend_from_slice(&row[head * 4..head * 4 + 4]);
            projected.extend_from_slice(&row[8 + head * 4..8 + head * 4 + 4]);
            projected.extend_from_slice(&row[16 + head * 6..16 + head * 6 + 6]);
            projected.extend_from_slice(&row[28 + head * 6..28 + head * 6 + 6]);
        }
    }
    let mut expected = QuantizedDeltaState::with_geometry(&geometry, 0f32);
    run_delta(2, &mut expected, false, &mut QuantizedDeltaSnapshots::empty()).unwrap();
    let mut state = QuantizedDeltaState::with_geometry(&geometry, 0f32);
    reference_deltanet(
        &Floats,
        &mut Ticks(0),
        &layer,
        &delta_weights(),
        2,
        &projected,
        &numbers(9, 4 * 8)[..16].to_vec(),
        &mut state,
    )
    .unwrap();
    assert_eq!(state.conv, expected.conv);
    assert_eq!(state.recurrent, expected.recurrent);
    assert_eq!(state.scratch.recurrent_output, expected.scratch.recurrent_output);
    assert_eq!(state.scratch.gates, expected.scratch.gates);
}

#[test]
fn a_wide_recurrence_is_its_rows_one_after_the_other() {
    let layer = delta_layer();
    let mut wide = QuantizedDeltaState::with_geometry(&layer.geometry, 0f32);
    run_delta(4, &mut wide, false, &mut QuantizedDeltaSnapshots::empty()).unwrap();
    let mut state = QuantizedDeltaState::with_geometry(&layer.geometry, 0f32);
    let mut output = Vec::new();
    for (first, rows) in [(0, 1), (1, 2), (3, 1)] {
        layer
            .forward_with_snapshots(
                &Floats,
                &mut Ticks(0),
                &delta_weights(),
                rows,
                &numbers(8, 4 * 40)[first * 40..(first + rows) * 40].to_vec(),
                &None,
                &numbers(9, 4 * 8)[first * 8..(first + rows) * 8].to_vec(),
                &mut state,
                false,
                &mut QuantizedDeltaSnapshots::empty(),
                false,
            )
            .unwrap();
        output.extend_from_slice(&state.scratch.recurrent_output);
    }
    assert_eq!(state.conv, wide.conv);
    assert_eq!(state.recurrent, wide.recurrent);
    assert_eq!(output, wide.scratch.recurrent_output);
}

#[test]
fn separate_gates_are_handed_on() {
    let layer = delta_layer();
    let mut fused = QuantizedDeltaState::with_geometry(&layer.geometry, 0f32);
    run_delta(2, &mut fused, false, &mut QuantizedDeltaSnapshots::empty()).unwrap();
    let rows = numbers(8, 4 * 40)[..80].to_vec();
    let (mut projected, mut gates) = (Vec::new(), Vec::new());
    for row in rows.chunks(40) {
        projected.extend_from_slice(&row[..28]);
        gates.extend_from_slice(&row[28..]);
    }
    let mut state = QuantizedDeltaState::with_geometry(&layer.geometry, 0f32);
    layer
        .forward_with_snapshots(
            &Floats,
            &mut Ticks(0),
            &delta_weights(),
            2,
            &projected,
            &Some(gates.clone()),
            &numbers(9, 4 * 8)[..16].to_vec(),
            &mut state,
            false,
            &mut QuantizedDeltaSnapshots::empty(),
            false,
        )
        .unwrap();
    assert_eq!(state.scratch.gates, gates);
    assert_eq!(state.scratch.gates, fused.scratch.gates);
    assert_eq!(state.recurrent, fused.recurrent);
}

#[test]
fn routed_and_shared_experts_are_put_together() {
    let routes = vec![
        Route { experts: vec![1, 0], weights: vec![0.75, 0.25], logits: vec![0., 1.] },
        Route { experts: vec![0, 1], weights: vec![0.5, 0.5], logits: vec![1., 0.] },
    ];
    let results = vec![
        vec![vec![4., 8.], vec![0., 4.]],
        vec![vec![2., 2.], vec![6., 10.]],
    ];
    let shared = [1., 2., 3., 4.];
    let selected = [1., 0.5];
    let out = sparse_moe(&Floats, 3, 2, &routes, &results, &shared, &selected, 2);
    assert_eq!(out, Ok(vec![4., 9., 5.5, 8.]));
    assert_eq!(
        sparse_moe(&Floats, 3, 1, &routes, &results, &shared, &selected, 2),
        Err(PassError::RouteCount { layer: 3, routes: 2, tokens: 1 })
    );
}

#[test]
fn a_model_without_linear_layers_needs_no_linear_heads() {
    let mut full = config();
    full.num_hidden_layers = 1;
    full.layer_types = Some(vec![LayerType::FullAttention]);
    full.linear_num_key_heads = 0;
    full.linear_num_value_heads = 0;
    let mut tensors = full_tensors(0);
    tensors.extend([
        tensor("token_embd.weight", &[32, 8]),
        tensor("output_norm.weight", &[8]),
        tensor("output.weight", &[32, 8]),
    ]);
    let checkpoint = header(tensors);
    assert!(is_loadable(&checkpoint, &full));
    let model = QuantizedModel::load(&checkpoint, full).unwrap();
    assert_eq!(model.new_state(0f32).layers.len(), 1);
}

#[test]
fn sizes_beyond_the_machine_are_seen_beforehand() {
    let checkpoint = header(model_tensors());
    assert!(is_loadable(&checkpoint, &drafting()));
    assert!(checkpoint.is_countable());
    let mut wide = config();
    wide.head_dim = usize::MAX / 2;
    assert!(!is_loadable(&checkpoint, &wide));
    assert!(!widths_are_countable(&wide));
    assert!(widths_are_countable(&config()));
    let mut untyped = config();
    untyped.num_hidden_layers = 3;
    assert!(!is_loadable(&checkpoint, &untyped));
    assert!(layer_is_typed(&config(), 1));
    assert!(!layer_is_typed(&config(), 2));
    let mut uneven = config();
    uneven.linear_num_key_heads = 3;
    assert!(is_loadable(&checkpoint, &uneven));
    assert!(layers_are_countable(&uneven, LayerType::LinearAttention));
    assert_eq!(
        QuantizedModel::load(&checkpoint, uneven).err(),
        Some(LayerError::Delta(DeltaError::QkvShape))
    );
    let mut wide = config();
    wide.linear_num_key_heads = usize::MAX;
    assert!(!is_loadable(&checkpoint, &wide));
    assert!(!layers_are_countable(&wide, LayerType::LinearAttention));
    assert!(layers_are_countable(&wide, LayerType::FullAttention));
    assert_eq!(counted(&vec![2, 3, 4]), Some(24));
    assert_eq!(counted(&vec![]), Some(1));
    assert_eq!(counted(&vec![usize::MAX, 2]), None);
    let mut huge = model_tensors();
    huge[0].offset = u64::MAX;
    assert!(!header(huge).is_countable());
    let layer = attention_layer();
    assert!(layer.takes_pass(0, 5, 2));
    assert!(!layer.takes_pass(usize::MAX - 1, 1, 2));
    assert!(delta_layer().is_well_formed());
    let mut headless = delta_layer();
    headless.geometry.key_heads = 0;
    assert!(!headless.is_well_formed());
    let mut keys_only = delta_layer();
    keys_only.geometry.value_heads = 0;
    assert!(keys_only.is_well_formed());
}
