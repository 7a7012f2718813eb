use candle_core::quantized::GgmlDType;
use qwen_engine::arithmetic::{Arithmetic, Fingerprints};
use qwen_engine::config::{LayerType, Qwen3NextConfig};
use qwen_engine::gguf::{
    GgmlType, GgufCheckpoint, GgufError, GgufValue, HeaderTensor, InputError, QuantizedMatrix,
};
use qwen_engine::loader::{
    discover_safetensors, listed_shards, required_tensors, Checkpoint, LoadError, TensorInfo,
    WeightFiles,
};
use qwen_engine::qwen::layers::LayerError;
use qwen_engine::qwen::pass::PassStage;
use qwen_engine::qwen::reference_model::{add_shared, stage_tensors};
use qwen_engine::qwen::{
    AttentionError, DeltaError, MoeError, QuantizedAttentionLayer, QuantizedDeltaLayer,
    QuantizedMoeLayer,
};
use qwen_engine::residency::{
    plan_warmup, FullExpertWarmupMode, Warmup, WarmupAction, WarmupError,
};

fn config() -> Qwen3NextConfig {
    Qwen3NextConfig {
        model_type: "qwen3_next".into(),
        vocab_size: 32,
        hidden_size: 8,
        intermediate_size: 16,
        num_hidden_layers: 2,
        num_attention_heads: 2,
        num_key_value_heads: 1,
        head_dim: 4,
        rotary_dim: 4,
        linear_conv_kernel_dim: 2,
        linear_key_head_dim: 2,
        linear_value_head_dim: 2,
        linear_num_key_heads: 2,
        linear_num_value_heads: 2,
        moe_intermediate_size: 4,
        shared_expert_intermediate_size: 4,
        num_experts_per_tok: 2,
        num_experts: 4,
        decoder_sparse_step: 1,
        mlp_only_layers: vec![],
        layer_types: Some(vec![LayerType::LinearAttention, LayerType::FullAttention]),
        full_attention_interval: 2,
        hidden_act: "silu".into(),
        norm_topk_prob: true,
        attn_output_gate: true,
        tie_word_embeddings: false,
        attention_bias: false,
        max_position_embeddings: 128,
        bos_token_id: None,
        eos_token_id: None,
        mtp_num_hidden_layers: 0,
        mtp_use_dedicated_embeddings: false,
    }
}

fn stored() -> Vec<TensorInfo> {
    required_tensors(&config())
        .into_iter()
        .map(|required| TensorInfo {
            name: required.name,
            dtype: "BF16".into(),
            shape: required.shape,
        })
        .collect()
}

#[test]
fn a_complete_checkpoint_is_accepted() {
    let checkpoint = Checkpoint::new(config(), &stored()).unwrap();
    let summary = checkpoint.summary();
    assert_eq!(summary.layers, 2);
    assert_eq!(summary.full_attention_layers, 1);
    assert_eq!(summary.architecture, "qwen3_next");
    let infos = checkpoint.tensor_infos();
    assert_eq!(infos.len(), stored().len());
    assert!(infos.windows(2).all(|pair| pair[0].name <= pair[1].name));
    assert_eq!(
        checkpoint.tensor_info("lm_head.weight").unwrap().shape,
        vec![32, 8]
    );
    assert!(checkpoint.tensor_info("nothing").is_none());
}

#[test]
fn a_missing_misshapen_or_mistyped_tensor_is_reported() {
    let mut missing = stored();
    missing.retain(|tensor| tensor.name != "model.norm.weight");
    assert_eq!(
        Checkpoint::new(config(), &missing).err(),
        Some(LoadError::Missing { name: "model.norm.weight".into() })
    );
    let mut misshapen = stored();
    misshapen[0].shape = vec![31, 8];
    assert_eq!(
        Checkpoint::new(config(), &misshapen).err(),
        Some(LoadError::WrongShape {
            name: "model.embed_tokens.weight".into(),
            found: vec![31, 8],
            expected: vec![32, 8],
        })
    );
    let mut mistyped = stored();
    mistyped[1].dtype = "I8".into();
    assert_eq!(
        Checkpoint::new(config(), &mistyped).err(),
        Some(LoadError::UnsupportedType {
            name: "model.norm.weight".into(),
            dtype: "I8".into(),
        })
    );
}

#[test]
fn a_pass_reads_what_a_checkpoint_must_have() {
    let config = config();
    let required: Vec<String> = required_tensors(&config)
        .into_iter()
        .map(|required| required.name)
        .collect();
    let mut stages = vec![PassStage::Embedding, PassStage::FinalNorm, PassStage::Head];
    for layer in 0..2 {
        stages.push(PassStage::Mixer { layer });
        stages.push(PassStage::FeedForward { layer });
    }
    for stage in stages {
        for name in stage_tensors(&config, stage, &[3, 0]) {
            assert!(required.contains(&name), "{name}");
        }
    }
    assert_eq!(
        stage_tensors(&config, PassStage::FeedForward { layer: 1 }, &[3])[2..5],
        [
            "model.layers.1.mlp.experts.3.gate_proj.weight",
            "model.layers.1.mlp.experts.3.up_proj.weight",
            "model.layers.1.mlp.experts.3.down_proj.weight",
        ]
    );
    let tied = Qwen3NextConfig {
        tie_word_embeddings: true,
        ..config
    };
    assert_eq!(
        stage_tensors(&tied, PassStage::Head, &[]),
        ["model.embed_tokens.weight"]
    );
    assert!(stage_tensors(&tied, PassStage::Finished, &[]).is_empty());
}

#[test]
fn the_shared_expert_is_added_row_by_row() {
    let f = Fingerprints;
    let out = add_shared(&f, &[1, 2, 3, 4], &[5, 6, 7, 8], &[9, 10], 2);
    assert_eq!(
        out,
        vec![
            f.plus(1, f.times(5, 9)),
            f.plus(2, f.times(6, 9)),
            f.plus(3, f.times(7, 10)),
            f.plus(4, f.times(8, 10)),
        ]
    );
}

#[test]
fn shards_are_listed_once_and_must_be_there() {
    let listed = vec!["b".to_string(), "a".to_string(), "b".to_string()];
    assert_eq!(listed_shards(&listed).unwrap(), vec!["a", "b"]);
    assert_eq!(listed_shards(&vec![]).err(), Some(LoadError::NoShards));
    assert_eq!(
        discover_safetensors(Some(listed.clone()), &vec![true, true], false),
        Ok(WeightFiles::Shards(vec!["a".into(), "b".into()]))
    );
    assert_eq!(
        discover_safetensors(Some(listed), &vec![true, false], false),
        Err(LoadError::MissingShard { file: "b".into() })
    );
    assert_eq!(discover_safetensors(None, &vec![], true), Ok(WeightFiles::Single));
    assert_eq!(
        discover_safetensors(None, &vec![], false),
        Err(LoadError::NoModelFile)
    );
}

fn tensor(name: &str, shape: &[usize], dtype: GgmlType, offset: u64) -> HeaderTensor {
    HeaderTensor {
        name: name.into(),
        dtype,
        shape: shape.to_vec(),
        offset,
    }
}

fn header(tensors: Vec<HeaderTensor>) -> GgufCheckpoint {
    GgufCheckpoint {
        metadata: vec![],
        tensors,
        tensor_data_offset: 1000,
    }
}

#[test]
fn direct_matrix_rejects_wrong_input_width() {
    let matrix = QuantizedMatrix::new(GgmlType::Q4K, &vec![1, 256], 144).unwrap();
    assert!(matrix.check_input(&vec![1, 128]).is_err());
    assert_eq!(
        matrix.check_input(&vec![1, 128]),
        Err(InputError::Width { found: 128, expected: 256 })
    );
    assert_eq!(matrix.check_input(&vec![256]), Err(InputError::Rank));
    assert_eq!(matrix.check_input(&vec![3, 7, 256]), Ok(()));
    assert_eq!(matrix.shape(), [1, 256]);
    assert_eq!(matrix.storage_bytes(), 144);
    assert_eq!(matrix.dtype(), "Q4K");
}

#[test]
fn only_some_types_can_be_executed() {
    assert_eq!(
        QuantizedMatrix::new(GgmlType::Q2K, &vec![1, 256], 1).err(),
        Some(GgufError::UnsupportedType { dtype: GgmlType::Q2K })
    );
    assert_eq!(
        QuantizedMatrix::new(GgmlType::F32, &vec![4], 16).err(),
        Some(GgufError::NotTwoDimensional { shape: vec![4] })
    );
}

#[test]
fn loads_only_one_matrix_from_a_fused_expert_tensor() {
    let checkpoint = header(vec![tensor("experts", &[2, 1, 256], GgmlType::Q4K, 64)]);
    let whole = checkpoint.tensor_info("experts").unwrap();
    assert_eq!(whole.storage_bytes, 288);
    assert_eq!(whole.offset, 1064);
    let expert = checkpoint.load_expert_matrix("experts", 1).unwrap();
    assert!(expert.bytes < whole.storage_bytes);
    assert_eq!((expert.rows, expert.columns), (1, 256));
    assert_eq!(expert.start, 1064 + 144);
    assert_eq!(expert.bytes, 144);
    assert_eq!(
        checkpoint.load_expert_matrix("experts", 2).err(),
        Some(GgufError::NoSuchExpert { name: "experts".into(), expert: 2, experts: 2 })
    );
}

#[test]
fn tensors_have_the_sizes_that_their_types_say() {
    let types = [
        (GgmlType::F32, GgmlDType::F32),
        (GgmlType::F16, GgmlDType::F16),
        (GgmlType::BF16, GgmlDType::BF16),
        (GgmlType::Q4_0, GgmlDType::Q4_0),
        (GgmlType::Q4_1, GgmlDType::Q4_1),
        (GgmlType::Q5_0, GgmlDType::Q5_0),
        (GgmlType::Q5_1, GgmlDType::Q5_1),
        (GgmlType::Q8_0, GgmlDType::Q8_0),
        (GgmlType::Q8_1, GgmlDType::Q8_1),
        (GgmlType::Q2K, GgmlDType::Q2K),
        (GgmlType::Q3K, GgmlDType::Q3K),
        (GgmlType::Q4K, GgmlDType::Q4K),
        (GgmlType::Q5K, GgmlDType::Q5K),
        (GgmlType::Q6K, GgmlDType::Q6K),
        (GgmlType::Q8K, GgmlDType::Q8K),
    ];
    for (own, outside) in types {
        let checkpoint = header(vec![tensor("t", &[3, 512], own, 0)]);
        let expected = 3 * 512 / outside.block_size() * outside.type_size();
        assert_eq!(
            checkpoint.tensor_info("t").unwrap().storage_bytes,
            expected,
            "{outside:?}"
        );
        assert_eq!(own.name(), format!("{outside:?}"));
    }
}

#[test]
fn a_tensor_that_is_no_matrix_is_refused() {
    let checkpoint = header(vec![
        tensor("vector", &[8], GgmlType::F32, 0),
        tensor("ragged", &[2, 3, 100], GgmlType::Q4K, 0),
    ]);
    assert_eq!(
        checkpoint.load_matrix("vector").err(),
        Some(GgufError::NotAMatrix { name: "vector".into(), shape: vec![8] })
    );
    assert_eq!(
        checkpoint.load_matrix("other").err(),
        Some(GgufError::MissingTensor { name: "other".into() })
    );
    assert_eq!(
        checkpoint.load_expert_matrix("ragged", 0).err(),
        Some(GgufError::SplitBlock {
            name: "ragged".into(),
            columns: 100,
            dtype: GgmlType::Q4K,
        })
    );
    assert_eq!(
        checkpoint.load_expert_matrix("vector", 0).err(),
        Some(GgufError::NotExperts { name: "vector".into(), shape: vec![8] })
    );
}

#[test]
fn tensors_are_listed_by_name() {
    let checkpoint = header(vec![
        tensor("b", &[1, 32], GgmlType::Q8_0, 34),
        tensor("a", &[1, 32], GgmlType::Q8_0, 0),
    ]);
    let names: Vec<String> = checkpoint
        .tensor_infos()
        .into_iter()
        .map(|info| info.name)
        .collect();
    assert_eq!(names, ["a", "b"]);
}

#[test]
fn a_header_is_summarised() {
    let text = |value: &str| GgufValue::Text(value.into());
    let mut checkpoint = header(vec![tensor("t", &[1, 32], GgmlType::Q8_0, 0)]);
    checkpoint.metadata = vec![
        ("general.architecture".into(), text("qwen3next")),
        ("qwen3next.block_count".into(), GgufValue::U32(8)),
        ("qwen3next.embedding_length".into(), GgufValue::U64(64)),
        ("qwen3next.expert_count".into(), GgufValue::U16(16)),
        ("qwen3next.expert_used_count".into(), GgufValue::I32(4)),
        ("qwen3next.full_attention_interval".into(), GgufValue::U8(4)),
        ("tokenizer.ggml.tokens".into(), GgufValue::Array(100)),
    ];
    let summary = checkpoint.inspect_gguf().unwrap();
    assert_eq!(summary.layers, 8);
    assert_eq!(summary.full_attention_layers, 2);
    assert_eq!(summary.linear_attention_layers, 6);
    assert_eq!(summary.vocab_size, 100);
    assert_eq!(summary.tensor_count, 1);
    checkpoint.metadata[0].1 = text("llama");
    assert_eq!(
        checkpoint.inspect_gguf().err(),
        Some(GgufError::UnsupportedArchitecture { architecture: "llama".into() })
    );
    checkpoint.metadata.clear();
    assert_eq!(
        checkpoint.inspect_gguf().err(),
        Some(GgufError::InvalidArchitecture)
    );
}

fn moe_tensors() -> Vec<HeaderTensor> {
    vec![
        tensor("blk.0.ffn_gate_inp.weight", &[2, 256], GgmlType::F32, 0),
        tensor("blk.0.ffn_gate_exps.weight", &[2, 128, 256], GgmlType::Q4K, 0),
        tensor("blk.0.ffn_up_exps.weight", &[2, 128, 256], GgmlType::Q4K, 0),
        tensor("blk.0.ffn_down_exps.weight", &[2, 256, 128], GgmlType::Q8_0, 0),
        tensor("blk.0.ffn_gate_shexp.weight", &[128, 256], GgmlType::F32, 0),
        tensor("blk.0.ffn_up_shexp.weight", &[128, 256], GgmlType::F32, 0),
        tensor("blk.0.ffn_down_shexp.weight", &[256, 128], GgmlType::F32, 0),
        tensor("blk.0.ffn_gate_inp_shexp.weight", &[256], GgmlType::F32, 0),
    ]
}

#[test]
fn executes_real_routing_and_selected_expert_ranges() {
    let checkpoint = header(moe_tensors());
    let layer = QuantizedMoeLayer::load(&checkpoint, 0, 1).unwrap();
    assert_eq!(layer.hidden_size, 256);
    assert_eq!(layer.intermediate_size, 128);
    assert_eq!(layer.expert_count, 2);
    assert_eq!(layer.check_pass(256), Ok(1));
    assert_eq!(layer.check_pass(768), Ok(3));
    assert!(layer.check_pass(100).is_err());
    let range = checkpoint
        .load_expert_matrix("blk.0.ffn_down_exps.weight", 1)
        .unwrap();
    assert_eq!(range.start, 1000 + 256 * 4 * 34);
}

#[test]
fn experts_that_do_not_fit_together_are_refused() {
    let refused = |change: fn(&mut Vec<HeaderTensor>), k| {
        let mut tensors = moe_tensors();
        change(&mut tensors);
        match QuantizedMoeLayer::load(&header(tensors), 0, k).unwrap_err() {
            LayerError::Moe(error) => error,
            other => panic!("{other:?}"),
        }
    };
    assert_eq!(refused(|_| (), 3), MoeError::TopK { k: 3, experts: 2 });
    assert_eq!(refused(|t| t[0].shape = vec![2], 1), MoeError::RouterRank);
    assert_eq!(refused(|t| t[1].shape = vec![2, 2], 1), MoeError::ExpertRank);
    assert_eq!(refused(|t| t[1].shape[2] = 7, 1), MoeError::GateShape);
    assert_eq!(refused(|t| t[3].shape[1] = 7, 1), MoeError::DownShape);
    assert_eq!(refused(|t| t[2].shape[1] = 7, 1), MoeError::UpShape);
    assert_eq!(
        refused(|t| t[2].name.push('x'), 1),
        MoeError::MissingTensor { name: "blk.0.ffn_up_exps.weight".into() }
    );
    let layer = QuantizedMoeLayer::load(&header(moe_tensors()), 0, 1).unwrap();
    assert_eq!(layer.check_shared([4, 256], [4, 256], [256, 4]), Ok(()));
    assert_eq!(
        layer.check_shared([4, 256], [5, 256], [256, 4]),
        Err(MoeError::SharedShape)
    );
}

fn attention_tensors() -> Vec<HeaderTensor> {
    vec![
        tensor("blk.1.attn_q.weight", &[16, 8], GgmlType::F32, 0),
        tensor("blk.1.attn_k.weight", &[4, 8], GgmlType::F32, 0),
        tensor("blk.1.attn_v.weight", &[4, 8], GgmlType::F32, 0),
        tensor("blk.1.attn_output.weight", &[8, 8], GgmlType::F32, 0),
        tensor("blk.1.attn_q_norm.weight", &[4], GgmlType::F32, 0),
        tensor("blk.1.attn_k_norm.weight", &[4], GgmlType::F32, 0),
    ]
}

#[test]
fn an_attention_layer_is_made_from_its_tensors() {
    let layer =
        QuantizedAttentionLayer::load(&header(attention_tensors()), &config(), 1).unwrap();
    assert_eq!(layer.query_heads, 2);
    assert_eq!(layer.check_norms(4, 4), Ok(()));
    assert_eq!(layer.check_norms(4, 3), Err(AttentionError::NormLength));
    assert_eq!(layer.check_pass(16, 3, 3), Ok(2));
    assert_eq!(layer.check_pass(16, 3, 2), Err(AttentionError::PositionMismatch));
    assert_eq!(layer.check_pass(15, 3, 3), Err(AttentionError::PartialRow));
    let refused = |change: fn(&mut Vec<HeaderTensor>)| {
        let mut tensors = attention_tensors();
        change(&mut tensors);
        QuantizedAttentionLayer::load(&header(tensors), &config(), 1).unwrap_err()
    };
    assert_eq!(
        refused(|t| t[0].shape[0] = 8),
        LayerError::Attention(AttentionError::QueryShape)
    );
    assert_eq!(
        refused(|t| t[2].shape[0] = 8),
        LayerError::Attention(AttentionError::KeyValueShape)
    );
    assert_eq!(
        refused(|t| t[3].shape[0] = 9),
        LayerError::Attention(AttentionError::OutputShape)
    );
    assert_eq!(
        refused(|t| t[1].dtype = GgmlType::Q2K),
        LayerError::Tensor(GgufError::UnsupportedType { dtype: GgmlType::Q2K })
    );
    assert_eq!(
        refused(|t| {
            t.remove(3);
        }),
        LayerError::Tensor(GgufError::MissingTensor {
            name: "blk.1.attn_output.weight".into()
        })
    );
}

fn delta_tensors() -> Vec<HeaderTensor> {
    vec![
        tensor("blk.0.attn_qkv.weight", &[12, 8], GgmlType::F32, 0),
        tensor("blk.0.attn_gate.weight", &[4, 8], GgmlType::F32, 0),
        tensor("blk.0.ssm_beta.weight", &[2, 8], GgmlType::F32, 0),
        tensor("blk.0.ssm_alpha.weight", &[2, 8], GgmlType::F32, 0),
        tensor("blk.0.ssm_out.weight", &[8, 4], GgmlType::F32, 0),
        tensor("blk.0.ssm_conv1d.weight", &[12, 2], GgmlType::F32, 0),
        tensor("blk.0.ssm_a", &[2], GgmlType::F32, 0),
        tensor("blk.0.ssm_dt.bias", &[2], GgmlType::F32, 0),
        tensor("blk.0.ssm_norm.weight", &[2], GgmlType::F32, 0),
    ]
}

#[test]
fn a_linear_attention_layer_is_made_from_its_tensors() {
    let loaded = QuantizedDeltaLayer::load(&header(delta_tensors()), &config(), 0).unwrap();
    assert!(!loaded.separate_gates);
    assert_eq!(loaded.layer.check_vectors(2, 2, 2), Ok(()));
    assert_eq!(
        loaded.layer.check_vectors(3, 2, 2),
        Err(DeltaError::StateScaleLength)
    );
    assert_eq!(loaded.layer.check_pass(24), Ok(3));
    // One matrix of betas and alphas does as well.
    let mut fused = delta_tensors();
    fused.remove(3);
    fused[2] = tensor("blk.0.ssm_ba.weight", &[4, 8], GgmlType::F32, 0);
    fused[1].dtype = GgmlType::Q8_0;
    let loaded = QuantizedDeltaLayer::load(&header(fused), &config(), 0).unwrap();
    assert!(loaded.separate_gates);
    let mut narrow = delta_tensors();
    narrow[3].shape[1] = 7;
    assert_eq!(
        QuantizedDeltaLayer::load(&header(narrow), &config(), 0).err(),
        Some(LayerError::BetaAlphaColumns)
    );
    let mut wrong = delta_tensors();
    wrong[0].shape[0] = 13;
    assert_eq!(
        QuantizedDeltaLayer::load(&header(wrong), &config(), 0).err(),
        Some(LayerError::Delta(DeltaError::QkvShape))
    );
    let state = loaded.layer.new_state(0f32);
    assert_eq!(state.conv_len(), 12);
    assert_eq!(state.recurrent_len(), 8);
}

fn expert_checkpoint() -> GgufCheckpoint {
    let mut tensors = Vec::new();
    for (part, offset) in [("up", 0u64), ("gate", 512), ("down", 256)] {
        tensors.push(tensor(
            &format!("blk.0.ffn_{part}_exps.weight"),
            &[2, 1, 32],
            GgmlType::Q8_0,
            offset,
        ));
    }
    header(tensors)
}

fn one_layer() -> Qwen3NextConfig {
    Qwen3NextConfig {
        num_hidden_layers: 1,
        layer_types: None,
        num_experts: 2,
        ..config()
    }
}

/// Performs a warmup, and lists what it was asked to do.
fn perform(capacity: usize) -> (Warmup, Vec<String>) {
    let plan = plan_warmup(&expert_checkpoint(), &one_layer()).unwrap();
    let mut warmup = Warmup::begin(plan, capacity, 2).unwrap();
    let mut asked = Vec::new();
    loop {
        match warmup.action() {
            WarmupAction::WarmPages { name } => {
                asked.push(format!("pages {name}"));
                warmup.visited(68).unwrap();
            }
            WarmupAction::PinExpert { name, expert } => {
                asked.push(format!("pin {name} {expert}"));
                warmup.visited(34).unwrap();
            }
            WarmupAction::CloseTensor => {
                let progress = warmup.close_tensor().unwrap();
                asked.push(format!("{}/{}", progress.bytes_loaded, progress.bytes_total));
            }
            WarmupAction::Fuse { gate, up } => {
                asked.push(format!("fuse {gate} {up}"));
                warmup.done();
            }
            WarmupAction::Seal => {
                asked.push("seal".into());
                warmup.done();
            }
            WarmupAction::Finished => return (warmup, asked),
        }
    }
}

#[test]
fn a_warmup_reads_every_expert_in_file_order() {
    let (warmup, asked) = perform(0);
    assert_eq!(warmup.mode, FullExpertWarmupMode::OsPageCache);
    assert_eq!(
        asked,
        [
            "pages blk.0.ffn_up_exps.weight",
            "68/204",
            "pages blk.0.ffn_down_exps.weight",
            "136/204",
            "pages blk.0.ffn_gate_exps.weight",
            "204/204",
        ]
    );
    let report = warmup.report(5, ());
    assert_eq!(report.tensor_count, 3);
    assert_eq!(report.bytes_loaded, 204);
    assert_eq!(report.elapsed_nanos, 5);
}

#[test]
fn a_large_enough_cache_pins_every_expert() {
    let (warmup, asked) = perform(204);
    assert_eq!(warmup.mode, FullExpertWarmupMode::PinnedExpertCache);
    assert_eq!(asked.iter().filter(|step| step.starts_with("pin")).count(), 6);
    assert_eq!(asked.last().unwrap(), "seal");
    assert!(asked.contains(
        &"fuse blk.0.ffn_gate_exps.weight blk.0.ffn_up_exps.weight".to_string()
    ));
}

#[test]
fn a_warmup_stops_at_what_it_cannot_hold() {
    let plan = plan_warmup(&expert_checkpoint(), &one_layer()).unwrap();
    assert_eq!(
        Warmup::begin(plan.clone(), 203, 2).err(),
        Some(WarmupError::CacheTooSmall { needed: 204, configured: 203 })
    );
    let mut warmup = Warmup::begin(plan, 0, 2).unwrap();
    warmup.visited(67).unwrap();
    assert_eq!(
        warmup.close_tensor().err(),
        Some(WarmupError::ByteCountChanged {
            name: "blk.0.ffn_up_exps.weight".into(),
            expected: 68,
            found: 67,
        })
    );
    let mut lacking = expert_checkpoint();
    lacking.tensors.remove(1);
    assert_eq!(
        plan_warmup(&lacking, &one_layer()).err(),
        Some(WarmupError::MissingTensor { name: "blk.0.ffn_gate_exps.weight".into() })
    );
}
