use qwen_engine::config::LayerType;
use qwen_engine::qwen::pass::{routing_records, MixerRun, PassError, PassStage};
use qwen_engine::qwen::{
    copy_state, DecoderPass, DecoderState, DeltaGeometry, LayerStateImage, LogitRows, QuantizedAttentionImage,
    QuantizedAttentionState, QuantizedDeltaScratch, QuantizedDeltaSnapshots, QuantizedDeltaState,
    QuantizedModelState, QuantizedMtpState, QuantizedStateSnapshots, Route, StateError,
};

fn geometry(key_heads: usize, value_heads: usize, key_dim: usize, value_dim: usize) -> DeltaGeometry {
    DeltaGeometry {
        key_heads,
        value_heads,
        key_head_dim: key_dim,
        value_head_dim: value_dim,
        conv_kernel: 2,
    }
}

fn recurrent_state(conv: Vec<f32>, recurrent: Vec<f32>) -> QuantizedDeltaState<f32> {
    QuantizedDeltaState {
        conv,
        recurrent,
        scratch: QuantizedDeltaScratch::new(&geometry(1, 1, 2, 2), 0.),
    }
}

fn state_snapshots(
    rows: usize,
    conv_len: usize,
    recurrent_len: usize,
) -> QuantizedDeltaSnapshots<f32> {
    let mut snapshots = QuantizedDeltaSnapshots::empty();
    snapshots.reserve(rows, conv_len, recurrent_len, 0.);
    snapshots
}

#[test]
fn attention_state_truncation_preserves_position_stride() {
    let mut state = QuantizedAttentionState {
        keys: (0..12).map(|value| value as f32).collect(),
        values: (0..18).map(|value| value as f32).collect(),
        positions: 3,
    };
    state.truncate(2).unwrap();
    assert_eq!(state.positions, 2);
    assert_eq!(state.keys.len(), 8);
    assert_eq!(state.values.len(), 12);
    state.truncate(0).unwrap();
    assert!(state.keys.is_empty());
    assert!(state.values.is_empty());
}

#[test]
fn a_cache_is_never_extended_by_truncation() {
    let mut state = QuantizedAttentionState {
        keys: vec![1.; 4],
        values: vec![1.; 4],
        positions: 2,
    };
    assert_eq!(state.truncate(3), Err(StateError::CannotExtend { from: 2, to: 3 }));
    state.keys.push(1.);
    assert_eq!(state.truncate(1), Err(StateError::InconsistentRows { positions: 2 }));
    assert_eq!(state.positions, 2);
}

#[test]
fn an_image_restores_every_row_into_a_fresh_state() {
    let state = QuantizedAttentionState {
        keys: (0..12).map(|value| value as f32).collect(),
        values: (0..18).map(|value| value as f32).collect(),
        positions: 3,
    };
    let image = state.image();
    // A checkpoint of the same state could only ever shorten it; the image
    // rebuilds it from nothing, which is what a restart needs.
    let mut restored = QuantizedAttentionState::empty();
    restored.restore_image(&image).unwrap();
    assert_eq!(restored.image(), image);
    assert_eq!(restored.positions, 3);

    // Restoring over a longer state replaces it rather than appending.
    let mut longer = QuantizedAttentionState {
        keys: vec![9.; 40],
        values: vec![9.; 60],
        positions: 10,
    };
    longer.restore_image(&image).unwrap();
    assert_eq!(longer.image(), image);
}

#[test]
fn an_image_from_another_shape_is_rejected() {
    let mut state = QuantizedAttentionState {
        keys: vec![1.; 12],
        values: vec![1.; 18],
        positions: 3,
    };
    let wider = QuantizedAttentionImage {
        keys: vec![1.; 24],
        values: vec![1.; 18],
        positions: 3,
    };
    assert!(state.restore_image(&wider).is_err());
    assert_eq!(
        state.restore_image(&wider),
        Err(StateError::StrideMismatch { image: 8, live: 4 })
    );
    let ragged = QuantizedAttentionImage {
        keys: vec![1.; 13],
        values: vec![1.; 18],
        positions: 3,
    };
    assert!(ragged.validate().is_err());
    assert!(state.restore_image(&ragged).is_err());
    let empty = QuantizedAttentionImage {
        keys: vec![1.],
        values: vec![],
        positions: 0,
    };
    assert_eq!(empty.validate(), Err(StateError::RowsForZeroPositions));
}

#[test]
fn snapshots_restore_the_state_recorded_for_each_row() {
    let mut snapshots = state_snapshots(3, 2, 3);
    for row in 0..3 {
        let base = row as f32;
        snapshots.store(row, &[base, base + 0.5], &[base, base + 1., base + 2.], false);
    }
    for row in 0..3 {
        let mut state = recurrent_state(vec![0.; 2], vec![0.; 3]);
        snapshots.restore_into(row, &mut state).unwrap();
        let base = row as f32;
        assert_eq!(state.conv, [base, base + 0.5]);
        assert_eq!(state.recurrent, [base, base + 1., base + 2.]);
    }
}

#[test]
fn restoring_a_row_the_pass_never_reached_is_rejected() {
    let mut snapshots = state_snapshots(4, 1, 1);
    snapshots.store(0, &[1.], &[2.], false);
    let mut state = recurrent_state(vec![0.], vec![0.]);
    assert!(snapshots.restore_into(1, &mut state).is_err());
    assert!(snapshots.restore_into(0, &mut state).is_ok());
}

#[test]
fn a_layer_that_never_ran_is_left_untouched() {
    // An interrupted pass leaves later layers with no stored rows; they still
    // hold the pre-pass state, so restoring them is a no-op.
    let snapshots = state_snapshots(4, 1, 1);
    let mut state = recurrent_state(vec![7.], vec![9.]);
    snapshots.restore_into(0, &mut state).unwrap();
    assert_eq!(state.conv, [7.]);
    assert_eq!(state.recurrent, [9.]);
}

#[test]
fn reserve_reuses_buffers_and_clears_the_stored_row_count() {
    let mut snapshots = state_snapshots(4, 8, 16);
    snapshots.store(0, &[1.; 8], &[2.; 16], false);
    assert_eq!(snapshots.stored_rows(), 1);
    snapshots.reserve(4, 8, 16, 0.);
    assert_eq!(snapshots.stored_rows(), 0);
    assert_eq!(snapshots.rows(), 4);
    assert_eq!(snapshots.bytes_per_row(), (8 + 16) * 4);
}

#[test]
fn streaming_and_ordinary_copies_produce_identical_state() {
    // Copied at every offset that changes the aligned head and tail that
    // streaming stores have to handle.
    let source: Vec<f32> = (0..9_001).map(|value| value as f32 * 0.25).collect();
    for offset in 0..9 {
        let source = &source[offset..];
        let mut streamed = vec![0.; source.len()];
        let mut ordinary = vec![0.; source.len()];
        copy_state(&mut streamed, source, true);
        copy_state(&mut ordinary, source, false);
        assert_eq!(streamed, ordinary, "offset {offset}");
        assert_eq!(streamed, source, "offset {offset}");
    }
}

#[test]
fn scratch_output_reuses_capacity_and_clears_values() {
    let mut scratch = QuantizedDeltaScratch::new(&geometry(2, 4, 8, 8), 0.);
    scratch.prepare_output(64, 0.);
    let capacity = scratch.recurrent_output.capacity();
    scratch.recurrent_output.fill(1.);

    scratch.prepare_output(32, 0.);

    assert_eq!(scratch.recurrent_output.len(), 32);
    assert_eq!(scratch.recurrent_output.capacity(), capacity);
    assert!(scratch.recurrent_output.iter().all(|&value| value == 0.));
}

/// A model of one linear and one full layer, at position two.
fn model_state() -> QuantizedModelState<f32> {
    let mut state = QuantizedModelState::new(&[false, true], 2, &geometry(1, 1, 2, 2), 0.);
    for layer in &mut state.layers {
        match layer {
            DecoderState::Linear(linear) => {
                linear.conv.fill(0.5);
                linear.recurrent.fill(0.25);
            }
            DecoderState::Full(full) => {
                full.keys = vec![1., 2., 3., 4.];
                full.values = vec![5., 6., 7., 8.];
                full.positions = 2;
            }
        }
    }
    state.position = 2;
    state
}

/// Runs three made-up rows, recording the state before each.
fn run_rows(state: &mut QuantizedModelState<f32>, snapshots: &mut QuantizedStateSnapshots<f32>) {
    snapshots.begin_pass(state, 3, 0.);
    for row in 0..3 {
        let mut linear_index = 0;
        for layer in &mut state.layers {
            match layer {
                DecoderState::Linear(linear) => {
                    let arena = snapshots.layer_mut(linear_index);
                    arena.store(row, &linear.conv, &linear.recurrent, false);
                    linear_index += 1;
                    linear.conv.iter_mut().for_each(|x| *x += 1.);
                    linear.recurrent.iter_mut().for_each(|x| *x *= 2.);
                }
                DecoderState::Full(full) => {
                    full.keys.extend([row as f32, 0.]);
                    full.values.extend([row as f32, 1.]);
                    full.positions += 1;
                }
            }
        }
    }
    state.position += 3;
}

#[test]
fn a_rolled_back_pass_leaves_what_a_shorter_pass_would() {
    for committed in 0..3 {
        let mut state = model_state();
        let mut snapshots = QuantizedStateSnapshots::empty();
        run_rows(&mut state, &mut snapshots);
        state.rollback(&snapshots, committed).unwrap();
        assert_eq!(state.position, 2 + committed);

        let mut expected = model_state();
        for row in 0..committed {
            for layer in &mut expected.layers {
                match layer {
                    DecoderState::Linear(linear) => {
                        linear.conv.iter_mut().for_each(|x| *x += 1.);
                        linear.recurrent.iter_mut().for_each(|x| *x *= 2.);
                    }
                    DecoderState::Full(full) => {
                        full.keys.extend([row as f32, 0.]);
                        full.values.extend([row as f32, 1.]);
                        full.positions += 1;
                    }
                }
            }
        }
        expected.position += committed;
        assert_eq!(state.image(), expected.image());
    }
}

#[test]
fn a_pass_that_was_accepted_as_a_whole_has_nothing_to_roll_back() {
    let mut state = model_state();
    let mut snapshots = QuantizedStateSnapshots::empty();
    run_rows(&mut state, &mut snapshots);
    assert_eq!(
        state.rollback(&snapshots, 3),
        Err(StateError::RollbackRows { committed: 3, rows: 3 })
    );
    assert_eq!(snapshots.rows(), 3);
    assert_eq!(snapshots.position(), 2);
    assert_eq!(snapshots.linear_layers(), 1);
    assert!(snapshots.bytes_per_row() > 0);
}

#[test]
fn a_checkpoint_undoes_a_pass() {
    let mut state = model_state();
    let before = state.image();
    let checkpoint = state.checkpoint();
    let mut snapshots = QuantizedStateSnapshots::empty();
    run_rows(&mut state, &mut snapshots);
    assert_ne!(state.image(), before);
    state.restore(&checkpoint).unwrap();
    assert_eq!(state.image(), before);
}

#[test]
fn an_image_of_a_model_restores_and_checks_its_layers() {
    let state = model_state();
    let image = state.image();
    assert!(image.validate().is_ok());
    let mut other = QuantizedModelState::new(&[false, true], 2, &geometry(1, 1, 2, 2), 0.);
    other.restore_image(&image).unwrap();
    assert_eq!(other.image(), image);

    let mut swapped = QuantizedModelState::new(&[true, false], 2, &geometry(1, 1, 2, 2), 0.);
    assert_eq!(swapped.restore_image(&image), Err(StateError::LayerType { layer: 0 }));
    let mut shorter = QuantizedModelState::new(&[false], 2, &geometry(1, 1, 2, 2), 0.);
    assert_eq!(
        shorter.restore_image(&image),
        Err(StateError::LayerCount { saved: 2, live: 1 })
    );
    let mut wrong = image.clone();
    wrong.position = 3;
    assert_eq!(
        wrong.validate(),
        Err(StateError::LayerPositions { layer: 1, positions: 2, image: 3 })
    );
}

#[test]
fn an_image_whose_rows_have_another_width_is_refused() {
    let image = model_state().image();
    for width in [1, 3, 4] {
        let mut fresh = QuantizedModelState::new(&[false, true], width, &geometry(1, 1, 2, 2), 0.);
        assert_eq!(
            fresh.restore_image(&image),
            Err(StateError::RowWidth { layer: 1, keys: 4, values: 4, width })
        );
        assert_eq!(fresh.position, 0);
        assert_eq!(fresh.row_width, width);
    }
    // Values of another width than the keys are refused as well.
    let mut uneven = image.clone();
    match &mut uneven.layers[1] {
        LayerStateImage::Full(full) => full.values = vec![0.; 6],
        LayerStateImage::Linear(_) => panic!("the second layer attends fully"),
    }
    assert!(uneven.validate().is_ok());
    let mut fresh = QuantizedModelState::new(&[false, true], 2, &geometry(1, 1, 2, 2), 0.);
    assert_eq!(
        fresh.restore_image(&uneven),
        Err(StateError::RowWidth { layer: 1, keys: 4, values: 6, width: 2 })
    );
    assert_eq!(fresh.position, 0);
    assert!(fresh.restore_image(&image).is_ok());
    assert_eq!(fresh.position, 2);
}

#[test]
fn an_arena_without_rows_is_not_rolled_back_to_none_of_them() {
    let snapshots = QuantizedStateSnapshots::empty();
    let mut state = QuantizedModelState::new(&[true, true], 2, &geometry(1, 1, 2, 2), 0.);
    for layer in &mut state.layers {
        if let DecoderState::Full(full) = layer {
            full.keys = vec![1., 2.];
            full.values = vec![3., 4.];
            full.positions = 1;
        }
    }
    state.position = 1;
    let before = state.image();
    assert_eq!(
        state.rollback(&snapshots, 0),
        Err(StateError::RollbackRows { committed: 0, rows: 0 })
    );
    assert_eq!(state.image(), before);
    // Beyond that, what the layers hold decides.
    assert_eq!(
        state.rollback(&snapshots, 2),
        Err(StateError::CannotExtend { from: 1, to: 2 })
    );
    assert_eq!(state.image(), before);
    assert_eq!(state.rollback(&snapshots, 1), Ok(()));
    assert_eq!(state.image(), before);
}

#[test]
fn no_more_rows_are_kept_than_were_recorded() {
    let mut state = model_state();
    let mut snapshots = QuantizedStateSnapshots::empty();
    run_rows(&mut state, &mut snapshots);
    for committed in [3, 4, usize::MAX] {
        assert_eq!(
            state.rollback(&snapshots, committed),
            Err(StateError::RollbackRows { committed, rows: 3 })
        );
    }
    assert_eq!(QuantizedDeltaSnapshots::<f32>::default().bytes_per_row(), 0);
}

#[test]
fn streaming_is_remembered() {
    let mut snapshots: QuantizedStateSnapshots<f32> = QuantizedStateSnapshots::empty();
    snapshots.set_nontemporal(true);
    assert!(snapshots.nontemporal());
    snapshots.set_nontemporal(false);
    assert!(!snapshots.nontemporal());
}

#[test]
fn a_draft_head_forgets_positions() {
    let mut state = QuantizedMtpState::new();
    state.attention = QuantizedAttentionState {
        keys: vec![1., 2., 3., 4.],
        values: vec![5., 6., 7., 8.],
        positions: 2,
    };
    assert_eq!(state.position(), 2);
    state.truncate(1).unwrap();
    assert_eq!(state.position(), 1);
    assert_eq!(state.attention.keys, vec![1., 2.]);
}

#[test]
fn a_pass_runs_every_layer_and_counts_arenas() {
    let kinds = [
        LayerType::LinearAttention,
        LayerType::FullAttention,
        LayerType::LinearAttention,
    ];
    let mut pass = DecoderPass::begin(&kinds, &[false, true, false], 4, 10, 100).unwrap();
    assert_eq!(pass.stage(), PassStage::Embedding);
    let expected = [
        MixerRun::Linear { arena: 0 },
        MixerRun::Full { position: 10 },
        MixerRun::Linear { arena: 1 },
    ];
    for (layer, run) in expected.into_iter().enumerate() {
        pass.advance();
        assert_eq!(pass.stage(), PassStage::Mixer { layer });
        assert_eq!(pass.mixer(), Ok(run));
        pass.advance();
        assert_eq!(pass.stage(), PassStage::FeedForward { layer });
    }
    pass.advance();
    assert_eq!(pass.stage(), PassStage::FinalNorm);
    pass.advance();
    assert_eq!(pass.stage(), PassStage::Head);
    pass.advance();
    assert_eq!(pass.stage(), PassStage::Finished);
    assert_eq!(pass.end_position(), 14);
}

#[test]
fn a_pass_is_refused_before_it_starts() {
    let kinds = [LayerType::FullAttention];
    let refused = |states: &[bool], tokens, position, limit| {
        DecoderPass::begin(&kinds, states, tokens, position, limit).err()
    };
    assert_eq!(refused(&[true], 0, 0, 8), Some(PassError::NoTokens));
    assert_eq!(refused(&[], 1, 0, 8), Some(PassError::WrongModel));
    assert_eq!(
        refused(&[true], 5, 4, 8),
        Some(PassError::TooLong { length: 9, limit: 8 })
    );
    let mut pass = DecoderPass::begin(&kinds, &[false], 1, 0, 8).unwrap();
    pass.advance();
    assert_eq!(pass.mixer(), Err(PassError::StateType { layer: 0 }));
}

#[test]
fn only_the_last_row_is_scored_unless_all_are_asked_for() {
    assert_eq!(LogitRows::All.range(5), (0, 5));
    assert_eq!(LogitRows::Last.range(5), (4, 1));
    assert_eq!(LogitRows::default(), LogitRows::All);
}

#[test]
fn every_row_of_a_pass_is_recorded() {
    let routes = vec![
        Route { experts: vec![3, 1], weights: vec![0.5f32, 0.25], logits: vec![1.] },
        Route { experts: vec![0], weights: vec![1.], logits: vec![2.] },
    ];
    let records = routing_records(7, 2, &[40, 41], &routes).unwrap();
    assert_eq!(records[1].token_index, 8);
    assert_eq!(records[1].token_id, 41);
    assert_eq!(records[0].layer, 2);
    assert_eq!(records[0].selected_expert_ids, vec![3, 1]);
    assert_eq!(
        routing_records(7, 2, &[40], &routes).err(),
        Some(PassError::RouteCount { layer: 2, routes: 2, tokens: 1 })
    );
}
