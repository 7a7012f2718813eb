use qwen_engine::config::LayerType;
use qwen_engine::qwen::{
    ForwardTimings, LayerTimings, QuantizedAttentionTimings, QuantizedDeltaTimings,
    QuantizedForwardTimings, QuantizedLayerTimings, QuantizedMoeRoutingStats, QuantizedMoeTimings,
    QuantizedMtpTimings,
};

const SECOND: u128 = 1_000_000_000;
const MILLISECOND: u128 = 1_000_000;

#[test]
fn report_separates_top_level_and_nested_timings() {
    let timings = ForwardTimings {
        wall: 10 * SECOND,
        embedding: SECOND,
        normalization: SECOND,
        attention: 2 * SECOND,
        moe: 5 * SECOND,
        weight_load: 4 * SECOND,
        matmul: 3 * SECOND,
        ..Default::default()
    };
    let report = timings.report();
    assert_eq!(report.accounted_nanos, 9 * SECOND);
    assert_eq!(report.unattributed_nanos, SECOND);
    assert_eq!(report.accounted_nanos as f64 / report.wall_nanos as f64, 0.9);
    assert_eq!(report.nested_operations.weight_load_nanos, 4 * SECOND);
}

#[test]
fn accumulate_merges_matching_layers() {
    let mut total = ForwardTimings::default();
    let sample = ForwardTimings {
        wall: 2 * SECOND,
        layers: vec![LayerTimings {
            layer: 0,
            layer_type: Some(LayerType::LinearAttention),
            wall: SECOND,
        }],
        ..Default::default()
    };
    total.accumulate(&sample);
    total.accumulate(&sample);
    assert_eq!(total.wall, 4 * SECOND);
    assert_eq!(total.layers[0].wall, 2 * SECOND);
    assert_eq!(total.report().layers[0].wall_nanos, 2 * SECOND);
}

#[test]
fn report_preserves_nested_quantized_stage_timings() {
    let layer = QuantizedLayerTimings {
        layer: 7,
        layer_type: Some(LayerType::LinearAttention),
        wall: 80 * MILLISECOND,
        normalization: 2 * MILLISECOND,
        delta: QuantizedDeltaTimings {
            wall: 20 * MILLISECOND,
            recurrence: 5 * MILLISECOND,
            ..Default::default()
        },
        moe: QuantizedMoeTimings {
            wall: 55 * MILLISECOND,
            expert_load: 3 * MILLISECOND,
            expert_compute: 40 * MILLISECOND,
            expert_gate_up: 17 * MILLISECOND,
            expert_activation: 2 * MILLISECOND,
            expert_down: 18 * MILLISECOND,
            expert_accumulation: 3 * MILLISECOND,
            ..Default::default()
        },
        ..Default::default()
    };
    let timings = QuantizedForwardTimings {
        wall: 90 * MILLISECOND,
        embedding: MILLISECOND,
        layers: vec![80 * MILLISECOND],
        layer_details: vec![layer],
        final_norm: MILLISECOND,
        lm_head: 5 * MILLISECOND,
    };

    let report = timings.report();
    assert_eq!(report.layers[0].layer, 7);
    assert_eq!(report.layers[0].layer_type, Some(LayerType::LinearAttention));
    assert_eq!(report.stages.moe_nanos, 55 * MILLISECOND);
    assert_eq!(report.nested_operations.moe_expert_lookup_nanos, 3 * MILLISECOND);
    assert_eq!(report.nested_operations.moe_expert_compute_nanos, 40 * MILLISECOND);
    assert_eq!(report.nested_operations.moe_expert_gate_up_nanos, 17 * MILLISECOND);
    assert_eq!(report.nested_operations.moe_expert_activation_nanos, 2 * MILLISECOND);
    assert_eq!(report.nested_operations.moe_expert_down_nanos, 18 * MILLISECOND);
    assert_eq!(report.nested_operations.moe_expert_accumulation_nanos, 3 * MILLISECOND);
    assert_eq!(report.nested_operations.deltanet_recurrence_nanos, 5 * MILLISECOND);
    // What the layer's parts leave over, and what the pass's parts do.
    assert_eq!(report.layers[0].unattributed_nanos, 3 * MILLISECOND);
    assert_eq!(report.accounted_nanos, 87 * MILLISECOND);
    assert_eq!(report.unattributed_nanos, 3 * MILLISECOND);
}

#[test]
fn accumulate_merges_layer_details() {
    let sample = QuantizedForwardTimings {
        wall: 10 * MILLISECOND,
        layers: vec![8 * MILLISECOND],
        layer_details: vec![QuantizedLayerTimings {
            layer: 0,
            layer_type: Some(LayerType::FullAttention),
            wall: 8 * MILLISECOND,
            moe: QuantizedMoeTimings {
                expert_compute: 6 * MILLISECOND,
                ..Default::default()
            },
            ..Default::default()
        }],
        ..Default::default()
    };
    let mut total = QuantizedForwardTimings::default();
    total.accumulate(&sample);
    total.accumulate(&sample);
    assert_eq!(total.wall, 20 * MILLISECOND);
    assert_eq!(total.layer_details[0].wall, 16 * MILLISECOND);
    assert_eq!(total.layer_details[0].moe.expert_compute, 12 * MILLISECOND);
    assert_eq!(total.layer_details[0].layer_type, Some(LayerType::FullAttention));
}

#[test]
fn parts_that_overlap_leave_nothing_over() {
    let timings = ForwardTimings {
        wall: SECOND,
        attention: 2 * SECOND,
        ..Default::default()
    };
    assert_eq!(timings.report().unattributed_nanos, 0);
}

#[test]
fn statistics_keep_the_larger_maximum() {
    let mut total = QuantizedMoeRoutingStats {
        batches: 1,
        rows: 2,
        token_expert_assignments: 4,
        unique_experts_selected: 3,
        max_rows_per_expert: 2,
    };
    total.accumulate(&QuantizedMoeRoutingStats {
        batches: 1,
        rows: 1,
        token_expert_assignments: 2,
        unique_experts_selected: 2,
        max_rows_per_expert: 1,
    });
    assert_eq!(total.batches, 2);
    assert_eq!(total.token_expert_assignments, 6);
    assert_eq!(total.unique_experts_selected, 5);
    assert_eq!(total.max_rows_per_expert, 2);
}

#[test]
fn timings_of_every_kind_add_up() {
    let mut attention = QuantizedAttentionTimings::default();
    attention.accumulate(&QuantizedAttentionTimings {
        wall: 3,
        softmax: 1,
        ..Default::default()
    });
    assert_eq!(attention.wall, 3);
    assert_eq!(attention.softmax, 1);
    let mut mtp = QuantizedMtpTimings::default();
    mtp.accumulate(&QuantizedMtpTimings {
        wall: 4,
        ..Default::default()
    });
    assert_eq!(mtp.wall, 4);
}
