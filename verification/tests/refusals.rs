use qwen_engine::bench::has_prefix;
use qwen_engine::compare::{agreement, overlap, stands_above};
use qwen_engine::config::{
    default_full_attention_interval, default_hidden_act, default_model_type, default_sparse_step,
    default_true, ConfigError, Dimension, LayerType, Qwen3NextConfig,
};
use qwen_engine::gguf::{
    element_count, integer, GgmlType, GgufCheckpoint, GgufError, GgufValue, HeaderTensor,
};
use qwen_engine::infer::Warning;
use qwen_engine::profile::ProcessSnapshot;
use qwen_engine::prompt_cache::format::{
    check_identity, decode, decode_header, encode, metadata_number, read_words, ElementType,
    EntryTensor, StoredTensor,
};
use qwen_engine::prompt_cache::keys::has_extension;
use qwen_engine::prompt_cache::LayerKind;
use qwen_engine::qwen::delta::{BetaAlphaLayout, ValueHeadLayout};
use qwen_engine::qwen::experts::{combine_groups, ExpertGroup};
use qwen_engine::qwen::{
    DeltaError, DeltaGeometry, LayerStateImage, MoeError, QuantizedAttentionImage,
    QuantizedAttentionState, QuantizedDeltaCheckpoint, QuantizedDeltaLayer,
    QuantizedDeltaSnapshots, QuantizedDeltaState, QuantizedModelState, QuantizedMoeLayer,
    QuantizedStateImage, QuantizedStateSnapshots, Route, SessionImage, StateError,
};
use qwen_engine::arithmetic::Fingerprints;
use qwen_engine::text::{
    chars_of, find_last, find_next, number_text, parse_number, sorted_unique, text_in_order,
    text_of,
};
use qwen_engine::words::{blocks_of, lines_of, trim, words_of};

fn config() -> Qwen3NextConfig {
    Qwen3NextConfig {
        model_type: "qwen3_next".into(),
        vocab_size: 32,
        hidden_size: 8,
        intermediate_size: 16,
        num_hidden_layers: 2,
        num_attention_heads: 2,
        num_key_value_heads: 1,
        head_dim: 4,
        rotary_dim: 4,
        linear_conv_kernel_dim: 2,
        linear_key_head_dim: 2,
        linear_value_head_dim: 2,
        linear_num_key_heads: 2,
        linear_num_value_heads: 2,
        moe_intermediate_size: 4,
        shared_expert_intermediate_size: 4,
        num_experts_per_tok: 2,
        num_experts: 4,
        decoder_sparse_step: 1,
        mlp_only_layers: vec![],
        layer_types: Some(vec![LayerType::LinearAttention, LayerType::FullAttention]),
        full_attention_interval: 2,
        hidden_act: "silu".into(),
        norm_topk_prob: true,
        attn_output_gate: true,
        tie_word_embeddings: false,
        attention_bias: false,
        max_position_embeddings: 128,
        bos_token_id: None,
        eos_token_id: None,
        mtp_num_hidden_layers: 0,
        mtp_use_dedicated_embeddings: false,
    }
}

#[test]
fn every_dimension_must_be_positive() {
    let zeroed: Vec<(fn(&mut Qwen3NextConfig), Dimension)> = vec![
        (|c| c.vocab_size = 0, Dimension::VocabSize),
        (|c| c.hidden_size = 0, Dimension::HiddenSize),
        (|c| c.num_hidden_layers = 0, Dimension::NumHiddenLayers),
        (|c| c.num_attention_heads = 0, Dimension::NumAttentionHeads),
        (|c| c.num_key_value_heads = 0, Dimension::NumKeyValueHeads),
        (|c| c.head_dim = 0, Dimension::HeadDim),
        (|c| c.num_experts = 0, Dimension::NumExperts),
        (|c| c.num_experts_per_tok = 0, Dimension::NumExpertsPerTok),
        (|c| c.decoder_sparse_step = 0, Dimension::DecoderSparseStep),
        (|c| c.full_attention_interval = 0, Dimension::FullAttentionInterval),
        (|c| c.linear_conv_kernel_dim = 0, Dimension::LinearConvKernelDim),
    ];
    assert_eq!(config().validate(), Ok(()));
    for (zero, dimension) in zeroed {
        let mut config = config();
        zero(&mut config);
        assert_eq!(config.validate(), Err(ConfigError::Zero(dimension)));
    }
}

#[test]
fn keys_that_are_left_out_have_defaults() {
    assert_eq!(default_model_type(), "qwen3_next");
    assert_eq!(default_hidden_act(), "silu");
    assert!(default_true());
    assert_eq!(default_sparse_step(), 1);
    assert_eq!(default_full_attention_interval(), 4);
}

fn summarised() -> GgufCheckpoint {
    GgufCheckpoint {
        metadata: vec![
            ("general.architecture".into(), GgufValue::Text("qwen3next".into())),
            ("qwen3next.block_count".into(), GgufValue::I64(8)),
            ("qwen3next.embedding_length".into(), GgufValue::I16(64)),
            ("qwen3next.expert_count".into(), GgufValue::I8(16)),
            ("qwen3next.expert_used_count".into(), GgufValue::I32(4)),
            ("qwen3next.full_attention_interval".into(), GgufValue::U8(3)),
            ("tokenizer.ggml.tokens".into(), GgufValue::Array(100)),
        ],
        tensors: vec![],
        tensor_data_offset: 0,
    }
}

#[test]
fn a_header_is_refused_for_what_it_lacks() {
    let summary = summarised().inspect_gguf().unwrap();
    assert_eq!((summary.layers, summary.full_attention_layers), (8, 2));
    assert_eq!(summary.experts_per_layer, 16);
    let refused = |change: fn(&mut Vec<(String, GgufValue)>)| {
        let mut checkpoint = summarised();
        change(&mut checkpoint.metadata);
        checkpoint.inspect_gguf().unwrap_err()
    };
    assert_eq!(
        refused(|m| {
            m.remove(1);
        }),
        GgufError::MissingKey { key: "qwen3next.block_count".into() }
    );
    assert_eq!(
        refused(|m| m[1].1 = GgufValue::Other),
        GgufError::NotAnInteger { key: "qwen3next.block_count".into() }
    );
    assert_eq!(refused(|m| m[5].1 = GgufValue::U8(0)), GgufError::ZeroInterval);
    assert_eq!(refused(|m| m[6].1 = GgufValue::U8(0)), GgufError::InvalidTokens);
    assert_eq!(integer(&GgufValue::Array(3)), None);
    assert_eq!(integer(&GgufValue::I8(-1)), Some(usize::MAX));
    assert_eq!(summarised().get_usize("qwen3next.expert_used_count"), Ok(4));
    assert_eq!(element_count(&vec![2, 3, 5]), 30);
}

#[test]
fn an_expert_that_overflows_is_refused() {
    let checkpoint = GgufCheckpoint {
        metadata: vec![],
        tensors: vec![HeaderTensor {
            name: "x".into(),
            dtype: GgmlType::F32,
            shape: vec![2, usize::MAX, 2],
            offset: 0,
        }],
        tensor_data_offset: 0,
    };
    assert_eq!(
        checkpoint.load_expert_matrix("x", 0).err(),
        Some(GgufError::TooLarge { name: "x".into() })
    );
    assert_eq!(
        checkpoint.load_expert_matrix("x", 2).err(),
        Some(GgufError::NoSuchExpert { name: "x".into(), expert: 2, experts: 2 })
    );
}

fn image() -> SessionImage<u32> {
    SessionImage {
        tokens: vec![5, 6],
        model: QuantizedStateImage {
            layers: vec![
                LayerStateImage::Linear(QuantizedDeltaCheckpoint::from_parts(
                    vec![1, 2],
                    vec![3],
                )),
                LayerStateImage::Full(QuantizedAttentionImage {
                    keys: vec![7; 4],
                    values: vec![8; 4],
                    positions: 2,
                }),
            ],
            position: 2,
        },
        mtp: Some(QuantizedAttentionImage {
            keys: vec![1; 4],
            values: vec![2; 4],
            positions: 2,
        }),
        last_target_hidden: None,
    }
}

fn stored(tensors: &[EntryTensor]) -> Vec<StoredTensor<'_>> {
    tensors
        .iter()
        .map(|tensor| StoredTensor {
            name: tensor.name.clone(),
            dtype: Some(tensor.dtype),
            data: &tensor.bytes,
        })
        .collect()
}

type Entry = (Vec<EntryTensor>, Vec<(String, String)>);

/// What is said of an entry after a change to it.
fn said(change: fn(&mut Entry)) -> String {
    let mut entry = encode(&image(), "f", "q", 1);
    change(&mut entry);
    let kinds = [LayerKind::Linear, LayerKind::Full { stride: 2 }];
    let outcome = match check_identity(&entry.1, "f") {
        Ok(()) => decode(&entry.1, &stored(&entry.0), &kinds).map(|_| ()),
        Err(error) => Err(error),
    };
    match outcome {
        Ok(()) => "fine".into(),
        Err(error) => error.message("e", "f"),
    }
}

fn field(entry: &mut Entry, key: &str) -> usize {
    entry.1.iter().position(|pair| pair.0 == key).unwrap()
}

fn part(entry: &mut Entry, name: &str) -> usize {
    entry.0.iter().position(|tensor| tensor.name == name).unwrap()
}

#[test]
fn every_flaw_of_an_entry_is_worded() {
    assert_eq!(said(|_| ()), "fine");
    assert_eq!(
        said(|e| {
            let at = field(e, "position");
            e.1.remove(at);
        }),
        "e has no `position` metadata"
    );
    assert_eq!(
        said(|e| {
            let at = field(e, "inferq_format");
            e.1[at].1 = "other".into();
        }),
        "e was written in format `other`, this build reads `inferq-prompt-cache-1`"
    );
    assert_eq!(
        said(|e| {
            let at = field(e, "model_fingerprint");
            e.1[at].1 = "g".into();
        }),
        "e belongs to checkpoint g, not f"
    );
    assert_eq!(
        said(|e| {
            let at = field(e, "layer_count");
            e.1[at].1 = "two".into();
        }),
        "e has an unreadable layer_count"
    );
    assert_eq!(
        said(|e| {
            let at = field(e, "layer_count");
            e.1[at].1 = "3".into();
        }),
        "e holds 3 layers, the model has 2"
    );
    assert_eq!(
        said(|e| {
            let at = part(e, "layer.1.values");
            e.0.remove(at);
        }),
        "e is missing `layer.1.values`"
    );
    assert_eq!(
        said(|e| {
            let at = part(e, "layer.0.conv");
            e.0[at].dtype = ElementType::U32;
        }),
        "e stores `layer.0.conv` with another element type"
    );
    assert_eq!(
        said(|e| {
            let at = part(e, "tokens");
            e.0[at].dtype = ElementType::F32;
        }),
        "e stores `tokens` with another element type"
    );
    assert_eq!(
        said(|e| {
            let at = part(e, "layer.0.conv");
            e.0[at].bytes.pop();
        }),
        "e stores `layer.0.conv` with a partial element"
    );
    assert_eq!(
        said(|e| {
            let at = part(e, "tokens");
            e.0[at].bytes.truncate(4);
        }),
        "e holds 1 tokens for position 2"
    );
    assert_eq!(
        said(|e| {
            let at = part(e, "layer.1.keys");
            e.0[at].bytes.truncate(4);
        }),
        "e layer 1 holds 1/4 key/value elements, this model needs 4"
    );
    assert_eq!(
        said(|e| {
            let at = part(e, "mtp.keys");
            e.0[at].bytes.truncate(8);
        }),
        "e holds 2/4 MTP key/value elements, this model needs 4"
    );
}

#[test]
fn the_parts_of_an_entry_are_read_on_their_own() {
    let entry = encode(&image(), "f", "q", 9);
    let tensors = stored(&entry.0);
    let header = decode_header(&entry.1, &tensors).unwrap();
    assert_eq!((header.tokens, header.position), (vec![5, 6], 2));
    assert_eq!(metadata_number(&entry.1, "created_unix").unwrap(), 9);
    assert_eq!(
        read_words(&tensors, "layer.0.recurrent", ElementType::F32).unwrap(),
        vec![3]
    );
    assert!(has_extension("a.b", "b"));
    assert!(!has_extension("ab", "b"));
}

#[test]
fn the_layers_of_an_entry_follow_the_model() {
    assert_eq!(
        LayerKind::for_config(&config()),
        vec![LayerKind::Linear, LayerKind::Full { stride: 4 }]
    );
}

#[test]
fn a_process_is_read_from_its_files() {
    let snapshot = ProcessSnapshot::capture(
        "VmHWM:\t 12 kB\nVmRSS:\t 10 kB\n",
        "1 (a b) R 1 2 3 4 5 6 77 8 99 10",
        "rchar: 1\nread_bytes: 300\nwrite_bytes: 400\n",
    );
    assert_eq!(snapshot.resident_bytes, Some(10 * 1024));
    assert_eq!(snapshot.peak_resident_bytes, Some(12 * 1024));
    assert_eq!(snapshot.minor_faults, Some(77));
    assert_eq!(snapshot.major_faults, Some(99));
    assert_eq!(snapshot.read_bytes, Some(300));
    assert_eq!(snapshot.write_bytes, Some(400));
}

fn delta() -> QuantizedDeltaLayer {
    QuantizedDeltaLayer {
        hidden_size: 4,
        geometry: DeltaGeometry {
            key_heads: 1,
            value_heads: 1,
            key_head_dim: 2,
            value_head_dim: 2,
            conv_kernel: 2,
        },
        value_layout: ValueHeadLayout::TiledByRepeat,
        beta_alpha_layout: BetaAlphaLayout::GroupedByProjection,
    }
}

#[test]
fn a_linear_layer_refuses_what_does_not_fit() {
    let layer = delta();
    assert_eq!(layer.check_matrices([6, 4], [2, 4], [2, 4], [4, 2]), Ok(()));
    assert_eq!(
        layer.check_matrices([6, 4], [2, 4], [3, 4], [4, 2]),
        Err(DeltaError::BetaAlphaShape)
    );
    assert_eq!(layer.check_pass(7), Err(DeltaError::PartialRow));
    assert_eq!(layer.check_pass(8), Ok(2));
}

#[test]
fn states_of_another_shape_are_refused() {
    let mut state = QuantizedDeltaState::with_geometry(&delta().geometry, 0u8);
    let other = QuantizedDeltaCheckpoint::from_parts(vec![1], vec![2]);
    assert_eq!(state.restore(&other), Err(StateError::CheckpointDimensions));
    let mut arena = QuantizedDeltaSnapshots::empty();
    arena.reserve(1, 1, 1, 0u8);
    arena.store(0, &[1], &[2], false);
    assert_eq!(
        arena.restore_into(0, &mut state),
        Err(StateError::SnapshotDimensions)
    );
    assert_eq!(
        arena.restore_into(1, &mut state),
        Err(StateError::RowNotStored { row: 1, stored: 1 })
    );
    let mut linear = QuantizedModelState::new(&[false], 2, &delta().geometry, 0u8);
    let full = QuantizedModelState::new(&[true], 2, &delta().geometry, 0u8);
    let mut snapshots = QuantizedStateSnapshots::empty();
    snapshots.begin_pass(&full, 2, 0);
    assert_eq!(
        linear.rollback(&snapshots, 1),
        Err(StateError::MissingSnapshots { layer: 0 })
    );
    assert_eq!(QuantizedAttentionState::<u8>::empty().positions, 0);
}

#[test]
fn experts_refuse_partial_rows_and_missing_results() {
    let layer = QuantizedMoeLayer {
        hidden_size: 4,
        intermediate_size: 2,
        expert_count: 2,
        experts_per_token: 1,
    };
    assert_eq!(layer.check_pass(6), Err(MoeError::PartialRow));
    let routes = vec![Route { experts: vec![1], weights: vec![3u64], logits: vec![] }];
    let groups = vec![ExpertGroup { expert: 0, slots: vec![] }];
    assert_eq!(
        combine_groups(&Fingerprints, &routes, &groups, &vec![vec![]], 4),
        Err(MoeError::MissingResult)
    );
}

#[test]
fn leading_tokens_are_counted_in_common() {
    assert!(stands_above(2f32.to_bits(), 1f32.to_bits()));
    assert!(stands_above(1f32.to_bits(), (-1f32).to_bits()));
    assert!(!stands_above((-2f32).to_bits(), (-1f32).to_bits()));
    assert_eq!(overlap(&[1, 2, 3], &[3, 1, 9]), 2);
    let both = agreement(7, &[4, 1], &[4, 2]);
    assert_eq!((both.elements, both.top_1_agreement, both.top_n_overlap), (7, true, 1));
    assert!(has_prefix(&[1, 2, 3], &[1, 2]));
    assert!(!has_prefix(&[1], &[1, 2]));
}

#[test]
fn a_deprecated_option_is_warned_of() {
    assert!(Warning::DeprecatedNgram(3).message().contains("--speculative-ngram"));
    assert!(Warning::DeprecatedMtp(2).message().contains("--speculative-mtp"));
}

#[test]
fn text_is_cut_and_counted_as_documented() {
    let cut = |parts: Vec<Vec<char>>| {
        parts.iter().map(|part| text_of(part)).collect::<Vec<String>>()
    };
    let text = chars_of(" one two\n\nthree\u{a0}four\r\n");
    assert_eq!(text_of(&trim(&chars_of(" \ta b\n"))), "a b");
    assert_eq!(cut(words_of(&text)), ["one", "two", "three", "four"]);
    assert_eq!(cut(lines_of(&text)), [" one two", "", "three\u{a0}four"]);
    assert_eq!(
        cut(blocks_of(&chars_of("a\nb\n\nc"))),
        "a\nb\n\nc".split("\n\n").collect::<Vec<&str>>()
    );
    assert_eq!(find_next(&chars_of("a:b:c"), ':', 2), Some(3));
    assert_eq!(find_last(&chars_of("a:b:c"), ':'), Some(3));
    assert_eq!(find_last(&chars_of("abc"), ':'), None);
    assert_eq!(number_text(255, 16, 4), "00ff");
    assert_eq!(parse_number(&chars_of("00ff"), 16), Some(255));
    assert_eq!(parse_number(&chars_of("+7"), 10), "+7".parse().ok());
    assert_eq!(parse_number(&chars_of("-7"), 10), None);
    assert_eq!(parse_number(&chars_of(""), 10), None);
    assert_eq!(parse_number(&chars_of("18446744073709551616"), 10), None);
    assert!(text_in_order("a", "ab"));
    assert!(!text_in_order("b", "ab"));
    let list = vec!["b".to_string(), "a".into(), "b".into()];
    assert_eq!(sorted_unique(&list), ["a", "b"]);
}
