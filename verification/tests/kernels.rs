use qwen_engine::arithmetic::{elapsed, Arithmetic, Clock, Fingerprints};
use qwen_engine::gguf::GgmlType;
use qwen_engine::qgemm::{
    decode_q4k, decode_q6k, row_tiles, supported, Q4KBlock, Q6KBlock, Q80Block, Q8KBlock,
};
use qwen_engine::qgemm_rows::{q4k_row, q6k_row, q80_row};
use qwen_engine::qwen::attention::{apply_rope, converted_norm};
use qwen_engine::qwen::blocked::blocked_scan;
use qwen_engine::qwen::delta::{
    causal_depthwise_conv_step, delta_head_step, normalize, recurrent_delta_step, silu, softplus,
    HeadSpread, ValueHeadLayout,
};
use qwen_engine::qwen::experts::{
    activate, combine_groups, combine_row, gather_rows, group_by_expert, RoutedExecution,
};
use qwen_engine::qwen::moe::{probabilities, top_k_route};
use qwen_engine::qwen::per_head::per_head_scan;
use qwen_engine::qwen::reference::{center_weights, state_scales};
use qwen_engine::qwen::scan::{dot, sigmoid, split, ScanPlan, ScanShape};
use qwen_engine::qwen::{top_k_routes, MoeError, QuantizedMoeRoutingStats, Route};

struct Floats;

impl Arithmetic<f32> for Floats {
    fn zero(&self) -> f32 {
        0.
    }
    fn empty_sum(&self) -> f32 {
        std::iter::empty::<f32>().sum()
    }
    fn one(&self) -> f32 {
        1.
    }
    fn lowest(&self) -> f32 {
        f32::NEG_INFINITY
    }
    fn count(&self, n: usize) -> f32 {
        n as f32
    }
    fn above(&self, a: f32, b: f32) -> bool {
        a > b
    }
    fn integer(&self, n: i32) -> f32 {
        n as f32
    }
    fn half(&self, bits: u16) -> f32 {
        half::f16::from_bits(bits).to_f32()
    }
    fn single(&self, bits: u32) -> f32 {
        f32::from_bits(bits)
    }
    fn mul_add(&self, a: f32, b: f32, c: f32) -> f32 {
        a.mul_add(b, c)
    }
    fn neg(&self, a: f32) -> f32 {
        -a
    }
    fn exp(&self, a: f32) -> f32 {
        a.exp()
    }
    fn ln_1p(&self, a: f32) -> f32 {
        a.ln_1p()
    }
    fn sqrt(&self, a: f32) -> f32 {
        a.sqrt()
    }
    fn recip(&self, a: f32) -> f32 {
        a.recip()
    }
    fn plus(&self, a: f32, b: f32) -> f32 {
        a + b
    }
    fn minus(&self, a: f32, b: f32) -> f32 {
        a - b
    }
    fn times(&self, a: f32, b: f32) -> f32 {
        a * b
    }
    fn over(&self, a: f32, b: f32) -> f32 {
        a / b
    }
    fn max(&self, a: f32, b: f32) -> f32 {
        f32::max(a, b)
    }
}

/// A clock that moves on by one every time it is asked.
struct Ticks(u64);

impl Clock for Ticks {
    fn nanos(&mut self) -> u64 {
        self.0 += 1;
        self.0
    }
}

#[test]
fn a_clock_that_goes_back_took_no_time() {
    assert_eq!(elapsed(3, 10), 7);
    assert_eq!(elapsed(10, 3), 0);
}

#[test]
fn partial_rope_preserves_unrotated_suffix() {
    let mut x = vec![1., 2., 3., 4., 5., 6.];
    let rotations: Vec<(f32, f32)> = (0..2)
        .map(|pair| {
            let angle = 3f32 * 10_000f32.powf(-2. * pair as f32 / 4.);
            (angle.cos(), angle.sin())
        })
        .collect();
    apply_rope(&Floats, &mut x, 4, &rotations);
    assert_eq!(&x[4..], &[5., 6.]);
    assert_eq!(x[0], 1. * rotations[0].0 - 3. * rotations[0].1);
    assert_eq!(x[2], 3. * rotations[0].0 + 1. * rotations[0].1);
}

#[allow(clippy::too_many_arguments)]
fn strided_recurrence_reference(
    q: &[f32],
    k: &[f32],
    v: &[f32],
    g: &[f32],
    beta: &[f32],
    heads: usize,
    key_dim: usize,
    value_dim: usize,
    state: &mut [f32],
    out: &mut [f32],
) {
    let q_scale = (key_dim as f32).sqrt().recip();
    for h in 0..heads {
        let state_base = h * key_dim * value_dim;
        let q_base = h * key_dim;
        let v_base = h * value_dim;
        let decay = g[h].exp();
        for cell in &mut state[state_base..state_base + key_dim * value_dim] {
            *cell *= decay;
        }
        for j in 0..value_dim {
            let mut prediction = 0.;
            for i in 0..key_dim {
                prediction += state[state_base + i * value_dim + j] * k[q_base + i];
            }
            let delta = (v[v_base + j] - prediction) * beta[h];
            for i in 0..key_dim {
                state[state_base + i * value_dim + j] += k[q_base + i] * delta;
            }
        }
        for j in 0..value_dim {
            let mut value = 0.;
            for i in 0..key_dim {
                value += state[state_base + i * value_dim + j] * q[q_base + i] * q_scale;
            }
            out[v_base + j] = value;
        }
    }
}

#[test]
fn delta_rule_updates_and_reuses_state() {
    let mut state = vec![0.; 4];
    for _ in 0..2 {
        let out = recurrent_delta_step(
            &Floats,
            &[1., 0.],
            &[1., 0.],
            &[2., 3.],
            &[0.],
            &[1.],
            1,
            2,
            2,
            &mut state,
        );
        assert!((out[0] - 2. / 2f32.sqrt()).abs() < 1e-6);
        assert!((out[1] - 3. / 2f32.sqrt()).abs() < 1e-6);
    }
}

#[test]
fn contiguous_recurrence_matches_strided_reference() {
    let heads = 2;
    let key_dim = 4;
    let value_dim = 3;
    let q: Vec<f32> = (0..heads * key_dim)
        .map(|index| (index as f32 - 3.) / 7.)
        .collect();
    let k: Vec<f32> = (0..heads * key_dim)
        .map(|index| (5. - index as f32) / 9.)
        .collect();
    let v: Vec<f32> = (0..heads * value_dim)
        .map(|index| (index as f32 + 1.) / 5.)
        .collect();
    let mut expected_state: Vec<f32> = (0..heads * key_dim * value_dim)
        .map(|index| (index as f32 - 7.) / 31.)
        .collect();
    let mut actual_state = expected_state.clone();
    let mut expected = vec![0.; heads * value_dim];
    strided_recurrence_reference(
        &q,
        &k,
        &v,
        &[-0.2, -0.4],
        &[0.3, 0.7],
        heads,
        key_dim,
        value_dim,
        &mut expected_state,
        &mut expected,
    );
    let actual = recurrent_delta_step(
        &Floats,
        &q,
        &k,
        &v,
        &[-0.2, -0.4],
        &[0.3, 0.7],
        heads,
        key_dim,
        value_dim,
        &mut actual_state,
    );
    for (actual, expected) in actual.iter().zip(&expected) {
        assert!((actual - expected).abs() < 1e-6);
    }
    for (actual, expected) in actual_state.iter().zip(&expected_state) {
        assert!((actual - expected).abs() < 1e-6);
    }
}

#[test]
fn spreading_the_heads_over_cores_does_not_move_a_bit() {
    // The heads are the unit of parallelism, so the property that has to hold
    // is stronger than "close": running each head on its own must reproduce
    // the serial result exactly, or a wide verification pass could commit a
    // token a one-row decode would not have.
    let heads = 7;
    let key_dim = 16;
    let value_dim = 12;
    let series = |count: usize, seed: f32| -> Vec<f32> {
        (0..count)
            .map(|index| ((index as f32 * seed).sin() * 1.7 + 0.3) / 2.3)
            .collect()
    };
    let q = series(heads * key_dim, 0.31);
    let k = series(heads * key_dim, 0.77);
    let v = series(heads * value_dim, 1.13);
    let g = series(heads, 0.41);
    let beta = series(heads, 0.93);
    let initial = series(heads * key_dim * value_dim, 0.017);

    let mut serial_state = initial.clone();
    let serial = recurrent_delta_step(
        &Floats,
        &q,
        &k,
        &v,
        &g,
        &beta,
        heads,
        key_dim,
        value_dim,
        &mut serial_state,
    );

    let q_scale = (key_dim as f32).sqrt().recip();
    let cells = key_dim * value_dim;
    let mut spread_state = vec![0.; initial.len()];
    let mut spread = vec![0.; serial.len()];
    // Last head first: no head reads what another wrote.
    for head in (0..heads).rev() {
        let mut state = initial[head * cells..(head + 1) * cells].to_vec();
        let out = delta_head_step(
            &Floats,
            &q[head * key_dim..(head + 1) * key_dim],
            &k[head * key_dim..(head + 1) * key_dim],
            &v[head * value_dim..(head + 1) * value_dim],
            g[head],
            beta[head],
            q_scale,
            &mut state,
        );
        spread_state[head * cells..(head + 1) * cells].copy_from_slice(&state);
        spread[head * value_dim..(head + 1) * value_dim].copy_from_slice(&out);
    }
    assert_eq!(spread, serial);
    assert_eq!(spread_state, serial_state);
}

#[test]
fn only_a_wider_pass_pays_for_the_pool() {
    assert_eq!(HeadSpread::for_rows(1), HeadSpread::Caller);
    assert_eq!(HeadSpread::for_rows(2), HeadSpread::Pool);
    assert_eq!(HeadSpread::for_rows(512), HeadSpread::Pool);
}

#[test]
fn router_selects_and_normalizes_top_k() {
    let routes = top_k_routes(&Floats, &vec![vec![1f32, 4., 2., 3.]], 2, true).unwrap();
    assert_eq!(routes[0].experts, vec![1, 3]);
    assert!((routes[0].weights.iter().sum::<f32>() - 1.).abs() < 1e-6);
    assert_eq!(routes[0].logits, vec![1f32, 4., 2., 3.]);
}

#[test]
fn a_router_refuses_more_experts_than_there_are() {
    assert_eq!(
        top_k_routes(&Floats, &vec![vec![1f32, 2.], vec![3.]], 2, false).err(),
        Some(MoeError::TopK { k: 2, experts: 1 })
    );
    assert!(top_k_route(&Floats, &vec![1f32, 2.], 0, false).is_err());
    let p = probabilities(&Floats, &vec![0f32, 0.]);
    assert_eq!(p, vec![0.5, 0.5]);
}

#[test]
fn converted_qk_norm_uses_weight_without_second_offset() {
    let mut values = vec![3., 4.];
    converted_norm(&Floats, &mut values, &[2., 3.], 0.);
    let rms = (12.5f32).sqrt();
    assert!((values[0] - 6. / rms).abs() < 1e-6);
    assert!((values[1] - 12. / rms).abs() < 1e-6);
}

#[test]
fn the_dot_sums_its_lanes_in_a_fixed_order() {
    // A serial sum and a lane sum agree exactly whenever the arithmetic is
    // exact, which is what makes the difference elsewhere a rounding one
    // rather than a mistake.
    let query: Vec<f32> = (0..256).map(|value| value as f32).collect();
    let key: Vec<f32> = (0..256).map(|value| (value % 7) as f32).collect();
    let serial: f32 = query.iter().zip(&key).map(|(q, k)| q * k).sum();
    assert_eq!(dot(&Floats, &query, &key), serial);

    // A width that is not a multiple of the lane count still consumes every
    // element.
    let query = vec![1.; 11];
    let key: Vec<f32> = (0..11).map(|value| value as f32).collect();
    assert_eq!(dot(&Floats, &query, &key), (0..11).map(|v| v as f32).sum::<f32>());
    assert_eq!(dot(&Floats, &[], &[]), 0.);

    // The order is the property the callers depend on: the same inputs give
    // the same bits every time, whatever the length.
    for length in [8usize, 64, 256, 300] {
        let query: Vec<f32> = (0..length).map(|v| (v as f32).sin()).collect();
        let key: Vec<f32> = (0..length).map(|v| (v as f32).cos()).collect();
        assert_eq!(
            dot(&Floats, &query, &key).to_bits(),
            dot(&Floats, &query, &key).to_bits()
        );
    }
}

/// Per-token per-head queries and gates, plus a filled key and value cache.
struct ScanFixture {
    queries: Vec<Vec<Vec<f32>>>,
    gates: Vec<Vec<Vec<f32>>>,
    keys: Vec<f32>,
    values: Vec<f32>,
}

fn scan_fixture(shape: &ScanShape) -> ScanFixture {
    let wave = |seed: f32, index: usize| {
        let mixed = (index as u32)
            .wrapping_mul(2_654_435_761)
            .wrapping_add(seed.to_bits().rotate_left(11));
        ((mixed >> 9) % 4096) as f32 / 2048. - 1.
    };
    let rows = |heads: usize, seed: f32| -> Vec<Vec<f32>> {
        (0..heads)
            .map(|head| {
                (0..shape.head_dim)
                    .map(|column| wave(seed + head as f32 * 0.11, column))
                    .collect()
            })
            .collect()
    };
    let queries = (0..shape.seq)
        .map(|token| rows(shape.query_heads, 0.37 + token as f32 * 0.07))
        .collect();
    let gates = (0..shape.seq)
        .map(|token| rows(shape.query_heads, 0.91 + token as f32 * 0.05))
        .collect();
    let cached = shape.existing + shape.seq;
    let cells = cached * shape.kv_heads * shape.head_dim;
    let keys = (0..cells).map(|index| wave(0.013, index)).collect();
    let values = (0..cells).map(|index| wave(0.029, index)).collect();
    ScanFixture {
        queries,
        gates,
        keys,
        values,
    }
}

#[test]
fn blocking_the_group_does_not_move_a_bit() {
    // Both shapes that matter: a wide pass, where the planes alone fill the
    // cores, and a one-row decode at depth, where they cannot and the split
    // has to come from inside a plane.
    for (seq, existing) in [(6usize, 5usize), (1, 613), (1, 3), (4, 0)] {
        let shape = ScanShape {
            seq,
            existing,
            query_heads: 8,
            kv_heads: 2,
            head_dim: 24,
        };
        let scale = (24f32).sqrt().recip();
        let fixture = scan_fixture(&shape);
        let ScanFixture {
            queries,
            gates,
            keys,
            values,
        } = &fixture;
        let reference = per_head_scan(
            &Floats,
            &mut Ticks(0),
            &shape,
            scale,
            queries,
            gates,
            keys,
            values,
        )
        .0;
        for threads in [1, 6, 64] {
            let blocked = blocked_scan(
                &Floats,
                &mut Ticks(0),
                &shape,
                scale,
                queries,
                gates,
                keys,
                values,
                threads,
            )
            .0;
            assert_eq!(blocked, reference, "seq {seq}, existing {existing}");
        }
    }
}

#[test]
fn the_two_scans_agree_at_the_checkpoint_geometry_that_switches_them() {
    // 16 query heads over 2 KV heads at head_dim 256, one row against 4096
    // cached positions, which is the first depth past the blocking limit.
    let shape = ScanShape {
        seq: 1,
        existing: 4096,
        query_heads: 16,
        kv_heads: 2,
        head_dim: 256,
    };
    let scale = (256f32).sqrt().recip();
    assert_eq!(shape.plan(), ScanPlan::Blocked);
    let fixture = scan_fixture(&shape);
    let ScanFixture {
        queries,
        gates,
        keys,
        values,
    } = &fixture;
    let blocked = blocked_scan(
        &Floats,
        &mut Ticks(0),
        &shape,
        scale,
        queries,
        gates,
        keys,
        values,
        6,
    )
    .0;
    let reference = per_head_scan(
        &Floats,
        &mut Ticks(0),
        &shape,
        scale,
        queries,
        gates,
        keys,
        values,
    )
    .0;
    assert_eq!(blocked, reference);
}

#[test]
fn the_blocked_scan_waits_for_a_cache_that_does_not_fit() {
    let shape = |existing: usize, seq: usize, query_heads: usize, kv_heads: usize| ScanShape {
        seq,
        existing,
        query_heads,
        kv_heads,
        head_dim: 256,
    };
    // 4.2 MB at 1024 context, 33.6 MB at 8192.
    assert_eq!(shape(1024, 1, 16, 2).plan(), ScanPlan::PerHead);
    assert_eq!(shape(3072, 1, 16, 2).plan(), ScanPlan::PerHead);
    assert_eq!(shape(8192, 1, 16, 2).plan(), ScanPlan::Blocked);
    // A wide pass counts the rows it is about to append.
    assert_eq!(shape(3584, 512, 16, 2).plan(), ScanPlan::Blocked);
    // Nothing to block when every query head has its own KV head, however deep
    // the conversation gets.
    assert_eq!(shape(8192, 1, 16, 16).plan(), ScanPlan::PerHead);
}

#[test]
fn a_block_never_splits_finer_than_its_grain() {
    // Enough planes to fill the cores: one block each.
    assert_eq!(split(3072, 64, 6, 128), 3072);
    // A one-row decode has two planes, so the positions carry the split.
    let block = split(3072, 2, 6, 128);
    assert!(block <= 3072 / 3 && block % 128 == 0, "{block}");
    // Never finer than the grain, even when the total is smaller than it.
    assert_eq!(split(8, 1, 64, 16), 16);
}

#[test]
fn one_head_attends_to_its_own_position() {
    // With a single position the softmax is one and the value comes through,
    // scaled by the sigmoid of its own gate.
    let shape = ScanShape {
        seq: 1,
        existing: 0,
        query_heads: 1,
        kv_heads: 1,
        head_dim: 2,
    };
    let out = per_head_scan(
        &Floats,
        &mut Ticks(0),
        &shape,
        1.,
        &vec![vec![vec![0.5, 0.25]]],
        &vec![vec![vec![0., 0.]]],
        &[1., 1.],
        &[6., 8.],
    )
    .0;
    assert_eq!(out, vec![3., 4.]);
    assert_eq!(sigmoid(&Floats, 0.), 0.5);
}

#[test]
fn flat_causal_convolution_matches_row_reference() {
    let input = [0.25, -0.5, 1.25];
    let weights = [0.1, 0.2, -0.3, 0.4, -0.2, 0.3, 0.5, -0.7, 0.6];
    let mut state = vec![0.75, -0.25, 0.5, 1.0, -1.5, 0.2];
    let mut expected_state = state.clone();
    let mut expected_output = [0.; 3];
    for channel in 0..input.len() {
        let history = &expected_state[channel * 2..(channel + 1) * 2];
        let row = &weights[channel * 3..(channel + 1) * 3];
        let mut sum: f32 = row[2] * input[channel];
        for (tap, &previous) in history.iter().enumerate() {
            sum += row[tap] * previous;
        }
        expected_output[channel] = silu(&Floats, sum);
    }
    for (channel, &current) in input.iter().enumerate() {
        let history = &mut expected_state[channel * 2..(channel + 1) * 2];
        history.rotate_left(1);
        history[1] = current;
    }

    let output = causal_depthwise_conv_step(&Floats, &input, &weights, 3, &mut state);

    assert_eq!(output, expected_output);
    assert_eq!(state, expected_state);
}

#[test]
fn gguf_state_scale_is_already_negative_exp_a_log() {
    let a_log = 1.5f32;
    let gguf_value = state_scales(&Floats, &[a_log])[0];
    assert_eq!(gguf_value, -a_log.exp());
    let alpha = 0.25;
    let bias = -0.1;
    let reference = -a_log.exp() * softplus(&Floats, alpha + bias);
    assert!((gguf_value * softplus(&Floats, alpha + bias) - reference).abs() < 1e-6);
}

#[test]
fn value_head_layout_matches_grouped_and_tiled_gguf_orders() {
    let grouped = ValueHeadLayout::GroupedByKeyHead;
    let tiled = ValueHeadLayout::TiledByRepeat;
    let grouped_indices: Vec<_> = (0..2)
        .flat_map(|key| (0..2).map(move |repeat| grouped.index(key, repeat, 2, 2)))
        .collect();
    let tiled_indices: Vec<_> = (0..2)
        .flat_map(|key| (0..2).map(move |repeat| tiled.index(key, repeat, 2, 2)))
        .collect();
    assert_eq!(grouped_indices, [0, 1, 2, 3]);
    assert_eq!(tiled_indices, [0, 2, 1, 3]);
}

#[test]
fn a_vector_is_brought_to_length_one() {
    let mut values = vec![3., 4.];
    normalize(&Floats, &mut values);
    assert!((values[0] - 0.6).abs() < 1e-6);
    assert!((values[1] - 0.8).abs() < 1e-6);
    assert_eq!(center_weights(&Floats, &[0., -0.5]), vec![1., 0.5]);
}

fn route(experts: &[usize], weights: &[f32]) -> Route<f32> {
    Route {
        experts: experts.to_vec(),
        weights: weights.to_vec(),
        logits: vec![],
    }
}

#[test]
fn a_grouped_pass_agrees_with_one_token_after_another() {
    let hidden = 3;
    let flat: Vec<f32> = (0..9).map(|v| (v as f32 * 0.37).sin()).collect();
    let routes = vec![
        route(&[2, 0], &[0.7, 0.3]),
        route(&[0, 2], &[0.6, 0.4]),
        route(&[1, 2], &[0.9, 0.1]),
    ];
    // Any function of an expert and a row will do for its matrices.
    let run = |expert: usize, row: &[f32]| -> Vec<f32> {
        row.iter()
            .map(|x| (x * (expert as f32 + 1.3)).exp() / 3.)
            .collect()
    };
    let mut token_major = Vec::new();
    for (row, route) in routes.iter().enumerate() {
        let results: Vec<Vec<f32>> = route
            .experts
            .iter()
            .map(|&expert| run(expert, &flat[row * hidden..(row + 1) * hidden]))
            .collect();
        token_major.extend(combine_row(&Floats, &route.weights, &results, hidden));
    }

    let groups = group_by_expert(&routes, 4);
    assert_eq!(
        groups.iter().map(|g| (g.expert, g.slots.clone())).collect::<Vec<_>>(),
        vec![
            (0, vec![(0, 1), (1, 0)]),
            (1, vec![(2, 0)]),
            (2, vec![(0, 0), (1, 1), (2, 1)]),
        ]
    );
    let values: Vec<Vec<f32>> = groups
        .iter()
        .map(|group| {
            let inputs = gather_rows(&flat, hidden, &group.slots);
            inputs
                .chunks(hidden)
                .flat_map(|row| run(group.expert, row))
                .collect()
        })
        .collect();
    let grouped = combine_groups(&Floats, &routes, &groups, &values, hidden).unwrap();
    assert_eq!(grouped, token_major);
}

#[test]
fn a_pass_of_several_rows_runs_its_experts_in_groups() {
    assert_eq!(RoutedExecution::for_rows(1), RoutedExecution::TokenMajor);
    assert_eq!(RoutedExecution::for_rows(2), RoutedExecution::GroupedByExpert);
}

#[test]
fn routing_statistics_count_rows_and_experts() {
    let routes = vec![
        route(&[2, 0], &[0.7, 0.3]),
        route(&[0, 2], &[0.6, 0.4]),
        route(&[1, 2], &[0.9, 0.1]),
    ];
    let stats = QuantizedMoeRoutingStats::from_routes(&routes, 4);
    assert_eq!(stats.batches, 1);
    assert_eq!(stats.rows, 3);
    assert_eq!(stats.token_expert_assignments, 6);
    assert_eq!(stats.unique_experts_selected, 3);
    assert_eq!(stats.max_rows_per_expert, 3);
}

#[test]
fn an_activation_multiplies_its_two_halves() {
    assert!(activate(&Floats, &vec![], 3, 0).is_empty());
    let out = activate(&Floats, &vec![0., 1., 2., 3.], 1, 2);
    assert_eq!(out, vec![silu(&Floats, 0.) * 2., silu(&Floats, 1.) * 3.]);
}

#[test]
fn fingerprints_tell_orders_apart() {
    let f = Fingerprints;
    let (a, b, c) = (f.count(1), f.count(2), f.count(3));
    assert_eq!(f.plus(f.plus(a, b), c), f.plus(f.plus(a, b), c));
    assert_ne!(f.plus(f.plus(a, b), c), f.plus(a, f.plus(b, c)));
    assert_ne!(f.plus(a, b), f.minus(a, b));
}

#[test]
fn kernels_need_every_extension() {
    assert!(supported(true, true, true));
    assert!(!supported(true, true, false));
    assert!(!supported(true, false, true));
    assert!(!supported(false, true, true));
}

#[test]
fn tiles_cover_an_odd_number_of_rows() {
    let tiles = row_tiles(11);
    assert_eq!(tiles.iter().map(|t| t.1).sum::<usize>(), 11);
    assert_eq!(tiles[0].0, 0);
    for pair in tiles.windows(2) {
        assert_eq!(pair[0].0 + pair[0].1, pair[1].0);
    }
}

/// Weights in the given compressed type, and what they stand for.
fn quantized(dtype: candle_core::quantized::GgmlDType) -> (Vec<u8>, Vec<f32>) {
    let device = candle_core::Device::Cpu;
    let weights: Vec<f32> = (0..256).map(|v| ((v * 37 % 101) as f32 - 50.) / 16.).collect();
    let weights = candle_core::Tensor::from_vec(weights, (1, 256), &device).unwrap();
    let tensor = candle_core::quantized::QTensor::quantize(&weights, dtype).unwrap();
    let stands_for = tensor
        .dequantize(&device)
        .unwrap()
        .flatten_all()
        .unwrap()
        .to_vec1::<f32>()
        .unwrap();
    (tensor.data().unwrap().to_vec(), stands_for)
}

/// Activations of scale one, with the sums that go with them.
fn activations(seed: i32) -> Q8KBlock {
    let mut qs = [0i8; 256];
    for (n, q) in qs.iter_mut().enumerate() {
        *q = ((n as i32 * seed) % 255 - 127) as i8;
    }
    let mut bsums = [0i16; 16];
    for (k, sum) in bsums.iter_mut().enumerate() {
        *sum = qs[k * 16..(k + 1) * 16].iter().map(|&q| q as i16).sum();
    }
    Q8KBlock {
        d: 1f32.to_bits(),
        qs,
        bsums,
    }
}

#[test]
fn four_bit_rows_agree_with_the_weights_they_stand_for() {
    let (bytes, weights) = quantized(candle_core::quantized::GgmlDType::Q4K);
    let block = Q4KBlock::from_bytes(&bytes);
    let decoded = decode_q4k(&block);
    assert!(decoded.weights.iter().all(|&w| (0..16).contains(&w)));
    let inputs = [activations(7), activations(91), activations(13)];
    let out = q4k_row(&Floats, &[block], &inputs, 3);
    for (row, input) in inputs.iter().enumerate() {
        let expected: f32 = weights
            .iter()
            .zip(input.qs.iter())
            .map(|(w, &q)| w * q as f32)
            .sum();
        assert!(
            (out[row] - expected).abs() < 1e-2 * expected.abs().max(100.),
            "{} against {expected}",
            out[row]
        );
    }
}

#[test]
fn six_bit_rows_agree_with_the_weights_they_stand_for() {
    let (bytes, weights) = quantized(candle_core::quantized::GgmlDType::Q6K);
    let block = Q6KBlock::from_bytes(&bytes);
    let decoded = decode_q6k(&block);
    assert!(decoded.weights.iter().all(|&w| (-32..32).contains(&w)));
    let d = half::f16::from_bits(block.d).to_f32();
    for n in 0..256 {
        let stands_for = d * decoded.factors[n / 16] as f32 * decoded.weights[n] as f32;
        assert!((stands_for - weights[n]).abs() < 1e-4);
    }
    let inputs = [activations(7), activations(91)];
    let out = q6k_row(&Floats, &[block], &inputs, 2);
    for (row, input) in inputs.iter().enumerate() {
        let expected: f32 = weights
            .iter()
            .zip(input.qs.iter())
            .map(|(w, &q)| w * q as f32)
            .sum();
        assert!((out[row] - expected).abs() < 1e-2 * expected.abs().max(100.));
    }
}

#[test]
fn eight_bit_rows_agree_with_the_weights_they_stand_for() {
    let (bytes, weights) = quantized(candle_core::quantized::GgmlDType::Q8_0);
    let blocks: Vec<Q80Block> = bytes.chunks(34).map(Q80Block::from_bytes).collect();
    assert_eq!(blocks.len(), 8);
    let one = half::f16::from_f32(1.).to_bits();
    let input = activations(7);
    let inputs: Vec<Q80Block> = (0..8)
        .map(|b| {
            let mut qs = [0i8; 32];
            qs.copy_from_slice(&input.qs[b * 32..(b + 1) * 32]);
            Q80Block { d: one, qs }
        })
        .collect();
    let out = q80_row(&Floats, &blocks, &inputs, 1);
    let expected: f32 = weights
        .iter()
        .zip(input.qs.iter())
        .map(|(w, &q)| w * q as f32)
        .sum();
    assert!((out[0] - expected).abs() < 1e-2 * expected.abs().max(100.));
}

#[test]
fn compressed_types_have_the_sizes_of_their_blocks() {
    let sizes = |dtype: candle_core::quantized::GgmlDType| (dtype.block_size(), dtype.type_size());
    use_sizes(GgmlType::Q4K, sizes(candle_core::quantized::GgmlDType::Q4K), "Q4K");
    use_sizes(GgmlType::Q6K, sizes(candle_core::quantized::GgmlDType::Q6K), "Q6K");
    use_sizes(GgmlType::Q8_0, sizes(candle_core::quantized::GgmlDType::Q8_0), "Q8_0");
}

fn use_sizes(dtype: GgmlType, sizes: (usize, usize), name: &str) {
    assert_eq!(dtype.name(), name);
    assert!(dtype.is_executable());
    let elements = match dtype {
        GgmlType::Q8_0 => 32,
        _ => 256,
    };
    assert_eq!(sizes.0, elements);
    let bytes = match dtype {
        GgmlType::Q4K => 144,
        GgmlType::Q6K => 210,
        _ => 34,
    };
    assert_eq!(sizes.1, bytes);
}
