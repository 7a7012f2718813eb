use qwen_engine::config::{ConfigError, Dimension, EosTokenId, LayerType, Qwen3NextConfig};
use qwen_engine::config_json::from_json;
use serde_json::Value;

fn config() -> Qwen3NextConfig {
    Qwen3NextConfig {
        model_type: "qwen3_next".into(),
        vocab_size: 32,
        hidden_size: 8,
        intermediate_size: 16,
        num_hidden_layers: 4,
        num_attention_heads: 2,
        num_key_value_heads: 1,
        head_dim: 4,
        rotary_dim: 4,
        linear_conv_kernel_dim: 2,
        linear_key_head_dim: 2,
        linear_value_head_dim: 2,
        linear_num_key_heads: 2,
        linear_num_value_heads: 2,
        moe_intermediate_size: 4,
        shared_expert_intermediate_size: 4,
        num_experts_per_tok: 2,
        num_experts: 4,
        decoder_sparse_step: 1,
        mlp_only_layers: vec![],
        layer_types: None,
        full_attention_interval: 4,
        hidden_act: "silu".into(),
        norm_topk_prob: true,
        attn_output_gate: true,
        tie_word_embeddings: false,
        attention_bias: false,
        max_position_embeddings: 128,
        bos_token_id: None,
        eos_token_id: None,
        mtp_num_hidden_layers: 0,
        mtp_use_dedicated_embeddings: false,
    }
}

#[test]
fn derives_three_to_one_layer_pattern() {
    let c = config();
    assert_eq!(c.layer_type(0), LayerType::LinearAttention);
    assert_eq!(c.layer_type(2), LayerType::LinearAttention);
    assert_eq!(c.layer_type(3), LayerType::FullAttention);
    c.validate().unwrap();
}

/// A size among the fields of a configuration.
fn size(object: &Value, key: &str) -> usize {
    object[key].as_u64().unwrap() as usize
}

#[test]
fn loads_nested_qwen35_moe_text_config() {
    let source = r#"{
        "model_type": "qwen3_5_moe",
        "text_config": {
            "model_type": "qwen3_5_moe_text",
            "vocab_size": 248320,
            "hidden_size": 2048,
            "num_hidden_layers": 4,
            "num_attention_heads": 16,
            "num_key_value_heads": 2,
            "head_dim": 256,
            "linear_conv_kernel_dim": 4,
            "linear_key_head_dim": 128,
            "linear_value_head_dim": 128,
            "linear_num_key_heads": 16,
            "linear_num_value_heads": 32,
            "moe_intermediate_size": 512,
            "shared_expert_intermediate_size": 512,
            "num_experts_per_tok": 8,
            "num_experts": 256,
            "layer_types": [
                "linear_attention",
                "linear_attention",
                "linear_attention",
                "full_attention"
            ],
            "full_attention_interval": 4,
            "hidden_act": "silu",
            "rms_norm_eps": 1e-6,
            "partial_rotary_factor": 0.25,
            "rope_parameters": { "rope_theta": 10000000 },
            "attn_output_gate": true,
            "max_position_embeddings": 262144
        }
    }"#;
    let object = from_json(source.as_bytes()).unwrap();
    assert_eq!(object["model_type"], "qwen3_5_moe_text");
    assert_eq!(object["intermediate_size"], 512);
    assert_eq!(object["rope_theta"].as_f64(), Some(10_000_000.));
    let config = Qwen3NextConfig {
        model_type: object["model_type"].as_str().unwrap().into(),
        vocab_size: size(&object, "vocab_size"),
        hidden_size: size(&object, "hidden_size"),
        intermediate_size: size(&object, "intermediate_size"),
        num_hidden_layers: size(&object, "num_hidden_layers"),
        num_attention_heads: size(&object, "num_attention_heads"),
        num_key_value_heads: size(&object, "num_key_value_heads"),
        head_dim: size(&object, "head_dim"),
        rotary_dim: 64,
        linear_conv_kernel_dim: size(&object, "linear_conv_kernel_dim"),
        linear_key_head_dim: size(&object, "linear_key_head_dim"),
        linear_value_head_dim: size(&object, "linear_value_head_dim"),
        linear_num_key_heads: size(&object, "linear_num_key_heads"),
        linear_num_value_heads: size(&object, "linear_num_value_heads"),
        moe_intermediate_size: size(&object, "moe_intermediate_size"),
        num_experts_per_tok: size(&object, "num_experts_per_tok"),
        num_experts: size(&object, "num_experts"),
        layer_types: Some(
            object["layer_types"]
                .as_array()
                .unwrap()
                .iter()
                .map(|kind| match kind.as_str().unwrap() {
                    "full_attention" => LayerType::FullAttention,
                    _ => LayerType::LinearAttention,
                })
                .collect(),
        ),
        ..config()
    };
    config.validate().unwrap();
    assert_eq!(config.intermediate_size, 512);
    assert!(config.norm_topk_prob);
    assert_eq!(config.num_experts_per_tok, 8);
    assert_eq!(config.layer_type(3), LayerType::FullAttention);
}

#[test]
fn each_problem_has_its_own_error() {
    let refused = |change: fn(&mut Qwen3NextConfig)| {
        let mut c = config();
        change(&mut c);
        c.validate().unwrap_err()
    };
    assert_eq!(refused(|c| c.model_type = "llama".into()), ConfigError::UnsupportedModelType);
    assert_eq!(refused(|c| c.hidden_act = "gelu".into()), ConfigError::UnsupportedActivation);
    assert_eq!(refused(|c| c.attn_output_gate = false), ConfigError::NoOutputGate);
    assert_eq!(refused(|c| c.hidden_size = 0), ConfigError::Zero(Dimension::HiddenSize));
    assert_eq!(
        refused(|c| {
            c.num_attention_heads = 3;
            c.num_key_value_heads = 2;
        }),
        ConfigError::UnevenQueryGroups
    );
}

#[test]
fn groups_experts_and_layers_are_checked() {
    let mut c = config();
    c.linear_num_value_heads = 3;
    assert_eq!(c.validate(), Err(ConfigError::UnevenValueGroups));
    let mut c = config();
    c.num_experts_per_tok = 5;
    assert_eq!(c.validate(), Err(ConfigError::TooManyExpertsPerToken));
    let mut c = config();
    c.rotary_dim = 3;
    assert_eq!(c.validate(), Err(ConfigError::OddRotaryDimension));
    let mut c = config();
    c.layer_types = Some(vec![LayerType::FullAttention]);
    assert_eq!(c.validate(), Err(ConfigError::LayerTypeCount { entries: 1, layers: 4 }));
    let mut c = config();
    c.mlp_only_layers = vec![1, 9];
    assert_eq!(c.validate(), Err(ConfigError::LayerOutOfRange { layer: 9 }));
}

#[test]
fn a_file_without_a_width_is_refused() {
    let refused = |text: &str| from_json(text.as_bytes()).unwrap_err();
    assert_eq!(refused("{"), ConfigError::NotJson);
    assert_eq!(refused("[1]"), ConfigError::NotAnObject);
    assert_eq!(refused(r#"{"text_config": 3}"#), ConfigError::NotAnObject);
    assert_eq!(refused(r#"{"rope_theta": 1}"#), ConfigError::NoIntermediateSize);
}

#[test]
fn what_a_file_says_itself_is_kept() {
    let object = from_json(
        br#"{"intermediate_size": 7, "moe_intermediate_size": 9, "rope_theta": 1,
             "rope_parameters": {"rope_theta": 2}}"#,
    )
    .unwrap();
    assert_eq!(object["intermediate_size"], 7);
    assert_eq!(object["moe_intermediate_size"], 9);
    assert_eq!(object["rope_theta"], 1);
    let bare = from_json(br#"{"moe_intermediate_size": 9, "rope_parameters": 5}"#).unwrap();
    assert_eq!(bare["intermediate_size"], 9);
    assert!(bare.get("rope_theta").is_none());
}

#[test]
fn experts_follow_the_sparse_step() {
    let mut c = config();
    c.decoder_sparse_step = 2;
    c.mlp_only_layers = vec![1];
    assert!(!c.layer_is_moe(0));
    assert!(!c.layer_is_moe(1));
    assert!(!c.layer_is_moe(2));
    assert!(c.layer_is_moe(3));
    assert_eq!(c.rotary_dim(), 4);
}

#[test]
fn one_end_token_or_many() {
    assert!(EosTokenId::One(7).contains(7));
    assert!(!EosTokenId::One(7).contains(8));
    assert!(EosTokenId::Many(vec![3, 4]).contains(4));
    assert!(!EosTokenId::Many(vec![]).contains(4));
}
