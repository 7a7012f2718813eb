use qwen_engine::bench::{
    self, check_repetitions, correctness_status, generation_length, model_revision, residency,
    select, Prompt, WorkloadError,
};
use qwen_engine::compare::{compare, top_n, LengthMismatch};
use qwen_engine::depth_bench::{
    check_decode, check_depths, pass_costs, prefill_passes, DepthError,
};
use qwen_engine::gguf_bench;
use qwen_engine::infer::{
    chat_prompt, command, emitted_im_end, CensusAction, CensusWarmup, Command, DraftPlan, HotLayer,
    InferArgs, InferError, Session, TurnPrompt, Warning,
};
use qwen_engine::matmul_bench::{
    best_and_median, choose_matrix, expert_batch, input_numerator, layer_numerator, parse_path,
    usable_paths, MatrixChoice, MultiRowPath,
};
use qwen_engine::options::{
    mebibytes, mode_of, DraftLimits, GenerationOptions, PolicyTuning, SamplingConfig,
    SpeculativeMode,
};
use qwen_engine::policy_bench::{campaign, runs_prompt, CampaignError, Cell, CellDefaults, Run};
use qwen_engine::profile::ProcessSnapshot;
use qwen_engine::qwen::{
    QuantizedAttentionTimings, QuantizedDeltaTimings, QuantizedForwardTimings,
    QuantizedLayerTimings, QuantizedMoeRoutingStats, QuantizedMoeTimings,
};
use qwen_engine::residency::FullExpertWarmupMode;
use qwen_engine::run_report::{
    announces, decode_passes, ArmMetrics, DraftObservation, ExpertCacheStats, MatchStats,
    MtpMetrics, NgramMetrics, NgramOutcomes, PolicyLine, PolicyMetrics, ReportLine, RunCounts,
    StepRecord, ThinkingMetrics,
};
use qwen_engine::serve::{open_to_others, ServeArgs, ServeError, SnapshotCopy, Warmup};
use qwen_engine::verify_bench::{
    expert_reuse, VerificationStages, VerifyArgs, VerifyError, VerifyStep,
};

#[test]
fn bench_correctness_checks_a_prefix() {
    assert_eq!(bench::correctness(Some(&[1, 2]), &[1, 2, 3]).status, "pass");
    assert_eq!(bench::correctness(Some(&[1, 2]), &[1, 4]).status, "fail");
    assert_eq!(bench::correctness(None, &[1]).status, "not_checked");
    assert_eq!(
        bench::correctness(Some(&[1, 2]), &[1]).expected_token_prefix,
        Some(&[1, 2][..])
    );
}

#[test]
fn gguf_bench_correctness_checks_a_prefix() {
    assert_eq!(gguf_bench::correctness(Some(&[1, 2]), &[1, 2, 3]), "pass");
    assert_eq!(gguf_bench::correctness(Some(&[1, 2]), &[1, 4]), "fail");
    assert_eq!(gguf_bench::correctness(None, &[1]), "not_checked");
}

#[test]
fn a_prefix_longer_than_the_output_fails() {
    assert_eq!(gguf_bench::correctness(Some(&[1, 2]), &[1]), "fail");
    assert_eq!(gguf_bench::correctness(Some(&[]), &[]), "pass");
}

#[test]
fn a_workload_is_judged_by_both_counts_and_tokens() {
    assert_eq!(correctness_status(true, "pass"), "pass");
    assert_eq!(correctness_status(false, "pass"), "fail");
    assert_eq!(correctness_status(true, "fail"), "fail");
    assert_eq!(correctness_status(true, "not_checked"), "prompt_count_only");
    assert_eq!(correctness_status(false, "not_checked"), "fail");
}

#[test]
fn residency_is_labelled() {
    let mode = |mode| residency(Some(mode), 0);
    assert_eq!(mode(FullExpertWarmupMode::PinnedExpertCache), "pinned_expert_cache");
    assert_eq!(mode(FullExpertWarmupMode::OsPageCache), "os_page_cache_warmup");
    assert_eq!(residency(None, 1), "configured_expert_cache_unwarmed");
    assert_eq!(residency(None, 0), "os_page_cache_unwarmed");
}

fn prompt(name: &str) -> Prompt {
    Prompt {
        name: name.into(),
        category: "code".into(),
        prompt: "p".into(),
        chat: false,
        system_prompt: None,
        expected_prompt_tokens: 2,
        max_new_tokens: 3,
        expected_token_prefix: None,
    }
}

#[test]
fn workloads_are_selected_by_name() {
    let prompts = vec![prompt("a"), prompt("b"), prompt("a")];
    assert_eq!(select(&prompts, Some("a")), Ok(vec![0, 2]));
    assert_eq!(select(&prompts, None), Ok(vec![0, 1, 2]));
    assert_eq!(
        select(&prompts, Some("c")),
        Err(WorkloadError::NothingMatches(Some("c".into())))
    );
    assert_eq!(select(&vec![], None), Err(WorkloadError::NothingMatches(None)));
}

#[test]
fn a_workload_is_checked_before_and_after_rendering() {
    let mut workload = prompt("a");
    assert_eq!(workload.check(), Ok(()));
    assert_eq!(workload.prepared(&[1, 2]), Ok(()));
    assert_eq!(
        workload.prepared(&[1]),
        Err(WorkloadError::PromptTokens { found: 1, expected: 2 })
    );
    workload.system_prompt = Some("s".into());
    assert_eq!(workload.check(), Err(WorkloadError::SystemWithoutChat));
    workload.chat = true;
    assert_eq!(workload.check(), Ok(()));
    workload.max_new_tokens = 0;
    assert_eq!(workload.check(), Err(WorkloadError::NoNewTokens));
    assert_eq!(check_repetitions(0), Err(WorkloadError::NoRepetitions));
    assert_eq!(generation_length(Some(7), 3), 7);
    assert_eq!(generation_length(None, 3), 3);
}

#[test]
fn a_revision_is_the_first_line() {
    assert_eq!(model_revision(Some("abc\r\ndef\n")), Some("abc".into()));
    assert_eq!(model_revision(Some("")), None);
    assert_eq!(model_revision(None), None);
}

#[test]
fn modes_are_named() {
    for mode in [
        SpeculativeMode::Off,
        SpeculativeMode::Auto,
        SpeculativeMode::Ngram,
        SpeculativeMode::Mtp,
    ] {
        assert_eq!(mode_of(Some(mode.as_str())), Ok(mode));
    }
    assert_eq!(mode_of(None), Ok(SpeculativeMode::Off));
    assert_eq!(mode_of(Some("other")), Err("other".into()));
    assert!(!SpeculativeMode::Off.is_speculative());
    assert!(SpeculativeMode::Ngram.is_speculative());
    assert!(!SpeculativeMode::Ngram.allows_mtp());
    assert!(SpeculativeMode::Auto.allows_mtp());
    assert!(SpeculativeMode::Mtp.allows_mtp());
}

#[test]
fn limits_are_clamped_and_switched_off() {
    let limits = DraftLimits {
        ngram_cap: 4,
        ngram_floor: 9,
        mtp_cap: 3,
        mtp_floor: 2,
    };
    let seen = limits.within(SpeculativeMode::Auto);
    assert_eq!((seen.ngram_cap, seen.ngram_floor), (4, 4));
    assert_eq!((seen.mtp_cap, seen.mtp_floor), (3, 2));
    let off = limits.within(SpeculativeMode::Off);
    assert_eq!((off.ngram_cap, off.ngram_floor), (0, 1));
    assert_eq!((off.mtp_cap, off.mtp_floor), (0, 1));
    assert_eq!(mebibytes(3), Some(3 * 1024 * 1024));
    assert_eq!(mebibytes(usize::MAX), None);
}

fn base() -> GenerationOptions<f32, f64> {
    GenerationOptions {
        max_new_tokens: 1,
        sampling: SamplingConfig {
            temperature: 0.,
            top_k: None,
            top_p: None,
            min_p: None,
            seed: 0,
        },
        stop_tokens: vec![9],
        add_special_tokens: true,
        speculative_mode: SpeculativeMode::Off,
        policy: PolicyTuning {
            ngram_draft_floor: 1,
            mtp_depth_floor: 2,
            mtp_depth_start: 3,
            ngram_suspend_below: 0.1,
            mtp_suspend_below: 0.2,
            ewma_alpha: 0.3,
            backoff_tokens: 4,
            backoff_cap: 5,
            span_continuation: true,
            adaptive_length: true,
            ewma_backoff: true,
            eager_mtp_resync: false,
        },
        speculative_mtp_draft_tokens: 6,
        speculative_mtp_min_margin: None,
        mtp_draft_vocab: 7,
        mtp_min_confidence: 0.5,
        speculative_ngram_draft_tokens: 8,
        ngram_min_match: 2,
        thinking_budget: None,
    }
}

fn infer_args() -> InferArgs<f32, f64> {
    InferArgs {
        prompt: Some("hello".into()),
        max_new_tokens: 5,
        interactive: false,
        no_thinking: false,
        thinking_budget: None,
        routing_trace: None,
        trace_router_logits: false,
        routing_census: None,
        speculative: SpeculativeMode::Off,
        speculative_mtp: 0,
        speculative_mtp_min_margin: None,
        mtp_draft_vocab: 100,
        mtp_min_confidence: 0.25,
        speculative_ngram: 0,
        ngram_min_match: 3,
        ngram_draft_cap: 12,
        ngram_draft_floor: 2,
        mtp_depth_cap: 6,
        mtp_depth_floor: 2,
        mtp_depth_start: 4,
        ngram_suspend_below: 0.1,
        mtp_suspend_below: 0.2,
        ewma_alpha: 0.3,
        backoff_tokens: 16,
        backoff_cap: 64,
        no_span_continuation: false,
        no_adaptive_length: true,
        no_ewma_backoff: false,
        eager_mtp_resync: false,
        speculative_trace: None,
        draft_calibration: None,
    }
}

#[test]
fn arguments_that_do_not_go_together_are_refused() {
    let refused = |change: fn(&mut InferArgs<f32, f64>)| {
        let mut args = infer_args();
        change(&mut args);
        args.resolve().plan.unwrap_err()
    };
    assert_eq!(refused(|a| a.max_new_tokens = 0), InferError::NoNewTokens);
    assert_eq!(refused(|a| a.prompt = None), InferError::NoPrompt);
    assert_eq!(refused(|a| a.trace_router_logits = true), InferError::LogitsWithoutTrace);
    assert_eq!(
        refused(|a| {
            a.speculative = SpeculativeMode::Auto;
            a.speculative_mtp = 1;
        }),
        InferError::MtpAliasForAnotherMode
    );
    assert_eq!(
        refused(|a| {
            a.speculative_mtp = 1;
            a.speculative_ngram = 1;
        }),
        InferError::NgramAliasForAnotherMode
    );
    assert_eq!(
        refused(|a| a.speculative_mtp_min_margin = Some(1.)),
        InferError::MarginWithoutMtp
    );
    assert_eq!(
        refused(|a| {
            a.speculative = SpeculativeMode::Ngram;
            a.routing_census = Some("c".into());
        }),
        InferError::RoutingWhileSpeculating
    );
    assert_eq!(
        refused(|a| a.speculative_trace = Some("t".into())),
        InferError::TraceWithoutSpeculation
    );
    assert_eq!(
        refused(|a| {
            a.speculative = SpeculativeMode::Ngram;
            a.draft_calibration = Some("t".into());
        }),
        InferError::CalibrationWithoutMtp
    );
    assert_eq!(refused(|a| a.mtp_depth_cap = 0), InferError::NoDraftCap);
    assert_eq!(
        InferError::NoPrompt.message(),
        "--prompt is required unless --interactive is used"
    );
}

#[test]
fn a_deprecated_cap_keeps_its_meaning() {
    let mut args = infer_args();
    args.speculative_mtp = 1;
    let resolution = args.resolve();
    let plan = resolution.plan.unwrap();
    assert_eq!(
        plan,
        DraftPlan { mode: SpeculativeMode::Mtp, ngram_cap: 12, mtp_cap: 1 }
    );
    assert_eq!(
        resolution.warnings,
        vec![
            Warning::DeprecatedMtp(1),
            Warning::ClampedFloors { ngram: 2, mtp: 1 },
        ]
    );
    assert_eq!(
        resolution.warnings[0].message(),
        "warning: --speculative-mtp is deprecated; use --speculative mtp --mtp-depth-cap 1"
    );
    assert_eq!(
        resolution.warnings[1].message(),
        "warning: clamping controller floors to their caps (n-gram 2, MTP 1)"
    );
    let options = args.options(plan, base());
    assert_eq!(options.speculative_mtp_draft_tokens, 1);
    assert_eq!(options.policy.mtp_depth_floor, 1);
    assert_eq!(options.speculative_ngram_draft_tokens, 12);
    assert!(!options.policy.adaptive_length);
    assert_eq!(options.stop_tokens, vec![9]);
    assert_eq!(options.mtp_draft_vocab, 100);
}

#[test]
fn an_unspeculated_run_drafts_nothing() {
    let args = infer_args();
    let plan = args.resolve().plan.unwrap();
    let options = args.options(plan, base());
    assert_eq!(options.speculative_mtp_draft_tokens, 0);
    assert_eq!(options.speculative_ngram_draft_tokens, 0);
    assert_eq!(options.max_new_tokens, 5);
    let mut thinking = infer_args();
    thinking.no_thinking = true;
    assert_eq!(thinking.check_thinking(false), Err(InferError::ThinkingUnsupported));
    assert_eq!(thinking.check_thinking(true), Ok(()));
    assert_eq!(args.check_thinking(false), Ok(()));
}

#[test]
fn lines_of_a_session_are_commands_or_turns() {
    assert_eq!(command("  \t\n"), Command::Skip);
    assert_eq!(command("/quit"), Command::Quit);
    assert_eq!(command(" /exit "), Command::Quit);
    assert_eq!(command("/reset\n"), Command::Reset);
    assert_eq!(command("/reset now"), Command::Turn);
    assert_eq!(command("hello"), Command::Turn);
}

#[test]
fn a_session_knows_how_its_next_turn_begins() {
    let mut session = Session::new();
    assert_eq!(session.user_turn_prompt(false), TurnPrompt::Raw);
    assert_eq!(session.user_turn_prompt(true), TurnPrompt::Opening);
    session.answered(Some(7), &[1, 7]);
    assert_eq!(
        session.user_turn_prompt(true),
        TurnPrompt::Continuation { assistant_closed: true }
    );
    session.answered(Some(7), &[7, 1]);
    assert_eq!(
        session.user_turn_prompt(true),
        TurnPrompt::Continuation { assistant_closed: false }
    );
    session.reset();
    assert_eq!(session, Session::new());
    assert!(!emitted_im_end(None, &[7]));
    assert!(!emitted_im_end(Some(7), &[]));
    assert_eq!(
        chat_prompt("hi", true),
        "<|im_start|>user\nhi<|im_end|>\n<|im_start|>assistant\n"
    );
    assert_eq!(chat_prompt("hi", false), "hi");
}

#[test]
fn a_census_warms_layer_after_layer() {
    let layers = vec![
        HotLayer { layer: 4, experts: vec![9, 2] },
        HotLayer { layer: 7, experts: vec![1] },
    ];
    let mut warmup = CensusWarmup::begin(2, layers).unwrap();
    let mut asked = Vec::new();
    loop {
        match warmup.action() {
            CensusAction::Warm { layer, expert } => {
                asked.push((layer, expert));
                warmup.warmed(10).unwrap();
            }
            CensusAction::Report { completed, total, .. } => {
                asked.push((100 + completed, total));
                warmup.reported();
            }
            CensusAction::Finish => break,
        }
    }
    assert_eq!(asked, vec![(4, 9), (4, 2), (101, 2), (7, 1), (102, 2)]);
    assert_eq!(warmup.experts, 3);
    assert_eq!(warmup.bytes, 30);
    assert_eq!(
        CensusWarmup::begin(0, vec![]).err(),
        Some(InferError::NoWarmExperts)
    );
    assert_eq!(CensusWarmup::begin(1, vec![]).err(), Some(InferError::EmptyCensus));
    let mut full = CensusWarmup::begin(1, vec![HotLayer { layer: 0, experts: vec![0] }]).unwrap();
    full.bytes = usize::MAX;
    assert_eq!(full.warmed(1), Err(InferError::WarmupTooLarge));
}

fn serve_args() -> ServeArgs<f32, f64> {
    ServeArgs {
        model: "m.gguf".into(),
        tokenizer_model: "t".into(),
        api_key: Some("direct".into()),
        api_key_file: None,
        served_model_name: None,
        max_queue: 8,
        prompt_cache_dir: None,
        prompt_cache_mib: 2,
        prompt_cache_block: 256,
        prompt_cache_min_tokens: 512,
        no_prefix_reuse: false,
        max_new_tokens: 512,
        sampling: SamplingConfig {
            temperature: 0.5,
            top_k: Some(3),
            top_p: None,
            min_p: None,
            seed: 11,
        },
        no_thinking: false,
        thinking_budget: Some(64),
        expert_cache_mib: 2,
        warmup_census: None,
        warmup_experts_per_layer: 10,
        warmup_all_experts: false,
        speculative: SpeculativeMode::Auto,
        speculative_mtp_min_margin: None,
        ngram_min_match: 3,
        ngram_draft_cap: 12,
        ngram_draft_floor: 20,
        mtp_depth_cap: 6,
        mtp_depth_floor: 2,
        mtp_depth_start: 4,
        ngram_suspend_below: 0.1,
        mtp_suspend_below: 0.2,
        ewma_alpha: 0.3,
        backoff_tokens: 16,
        backoff_cap: 64,
        no_span_continuation: true,
        no_adaptive_length: false,
        no_ewma_backoff: false,
        eager_mtp_resync: false,
        snapshot_copy: SnapshotCopy::Plain,
    }
}

#[test]
fn a_server_refuses_arguments_that_contradict() {
    let refused = |change: fn(&mut ServeArgs<f32, f64>)| {
        let mut args = serve_args();
        change(&mut args);
        args.check().unwrap_err()
    };
    assert_eq!(serve_args().check(), Ok(()));
    assert_eq!(refused(|a| a.max_new_tokens = 0), ServeError::NoNewTokens);
    assert_eq!(refused(|a| a.max_queue = 0), ServeError::NoQueue);
    assert_eq!(
        refused(|a| {
            a.prompt_cache_dir = Some("d".into());
            a.no_prefix_reuse = true;
        }),
        ServeError::CacheWithoutReuse
    );
    assert_eq!(refused(|a| a.ngram_draft_cap = 0), ServeError::NoDraftCap);
    assert_eq!(
        ServeError::EmptyKey("k".into()).message(),
        "k is empty"
    );
    assert!(open_to_others(false, false));
    assert!(!open_to_others(true, false));
    assert!(!open_to_others(false, true));
}

#[test]
fn a_key_file_is_trimmed_and_must_hold_a_key() {
    let mut args = serve_args();
    assert_eq!(args.api_key("ignored"), Ok(Some("direct".into())));
    args.api_key_file = Some("key.txt".into());
    assert_eq!(args.api_key(" secret\n"), Ok(Some("secret".into())));
    assert_eq!(args.api_key(" \n"), Err(ServeError::EmptyKey("key.txt".into())));
}

#[test]
fn an_engine_is_started_with_what_was_asked() {
    let mut args = serve_args();
    args.prompt_cache_dir = Some("d".into());
    let config = args.engine(base()).unwrap();
    assert_eq!(config.expert_cache_bytes, 2 * 1024 * 1024);
    assert!(!config.snapshot_nontemporal);
    assert!(config.prefix_reuse);
    let cache = config.prompt_cache.unwrap();
    assert_eq!(cache.dir, "d");
    assert_eq!(cache.budget_bytes, 2 * 1024 * 1024);
    assert_eq!(config.defaults.policy.ngram_draft_floor, 12);
    assert_eq!(config.defaults.sampling.seed, 11);
    assert_eq!(config.defaults.thinking_budget, Some(64));
    assert!(!config.defaults.policy.span_continuation);
    assert_eq!(config.defaults.mtp_draft_vocab, 7);
    assert_eq!(config.warmup, Warmup::Off);
    args.warmup_census = Some("c".into());
    assert_eq!(
        args.warmup(),
        Warmup::Census { path: "c".into(), experts_per_layer: 10 }
    );
    args.warmup_all_experts = true;
    assert_eq!(args.warmup(), Warmup::AllExperts);
    args.prompt_cache_mib = u64::MAX;
    assert_eq!(args.prompt_cache().unwrap().budget_bytes, u64::MAX);
    args.expert_cache_mib = usize::MAX;
    assert_eq!(args.engine(base()).err(), Some(ServeError::ExpertCacheTooLarge));
}

fn arm(proposals: usize, suspended_steps: usize, proposed_tokens: usize) -> ArmMetrics {
    ArmMetrics {
        proposals,
        proposed_tokens,
        accepted_tokens: 0,
        fully_accepted: 0,
        rejected_immediately: 0,
        suspensions: 0,
        suspended_steps,
        probes: 0,
        probe_successes: 0,
    }
}

fn policy() -> PolicyMetrics {
    PolicyMetrics {
        mode: SpeculativeMode::Auto,
        steps: 5,
        ngram_steps: 1,
        ngram_span_steps: 2,
        mtp_steps: 3,
        plain_steps: 4,
        steps_with_ngram_match: 6,
        verification_passes: 7,
        verification_tokens: 8,
        rollbacks: 9,
        lookup_nanos: 10,
        draft_nanos: 11,
        verification_nanos: 12,
        snapshot_nanos: 13,
        rollback_nanos: 14,
        plain_nanos: 15,
        resync_nanos: 16,
        resync_passes: 17,
        resync_tokens: 18,
        max_resync_tokens: 19,
        draft_vocab: 10,
        full_vocab: 100,
        drafted_tokens: 9,
        confidence_stops: 4,
        ngram_arm: arm(0, 0, 0),
        mtp_arm: arm(3, 0, 7),
        mtp_proposed_on_ngram_match: 0,
        mtp_accepted_on_ngram_match: 0,
        mtp_proposed_on_ngram_miss: 3,
        mtp_accepted_on_ngram_miss: 1,
    }
}

fn overview() -> PolicyLine {
    PolicyLine::Summary {
        mode: SpeculativeMode::Auto,
        steps: 5,
        ngram_steps: 1,
        ngram_span_steps: 2,
        mtp_steps: 3,
        plain_steps: 4,
        steps_with_ngram_match: 6,
        verification_passes: 7,
        verification_tokens: 8,
        rollbacks: 9,
        lookup_nanos: 10,
        draft_nanos: 11,
        verification_nanos: 12,
        snapshot_nanos: 13,
        rollback_nanos: 14,
        plain_nanos: 15,
        resync_nanos: 16,
        resync_passes: 17,
        resync_tokens: 18,
        max_resync_tokens: 19,
    }
}

#[test]
fn a_policy_reports_only_what_took_part() {
    assert_eq!(
        policy().report_policy(),
        vec![
            overview(),
            PolicyLine::DraftHead { rows: 10, full: 100 },
            PolicyLine::Confidence { drafted: 9, submitted: 7, stops: 4, declined: 2 },
            PolicyLine::MtpArm(arm(3, 0, 7)),
            PolicyLine::Evidence {
                accepted_on_match: 0,
                proposed_on_match: 0,
                accepted_on_miss: 1,
                proposed_on_miss: 3,
            },
        ]
    );
    let mut off = policy();
    off.mode = SpeculativeMode::Off;
    assert!(off.report_policy().is_empty());
    let mut idle = policy();
    idle.steps = 0;
    assert!(idle.report_policy().is_empty());
    let mut other = policy();
    other.draft_vocab = 100;
    other.drafted_tokens = 0;
    other.ngram_arm = arm(0, 2, 0);
    other.mtp_arm = arm(0, 0, 0);
    other.mtp_proposed_on_ngram_miss = 0;
    assert_eq!(
        other.report_policy(),
        vec![overview(), PolicyLine::NgramArm(arm(0, 2, 0))]
    );
}

fn run_counts() -> RunCounts {
    RunCounts {
        prompt_token_ids: vec![1, 2],
        evaluated_input_token_ids: vec![0, 1, 2],
        generated_token_ids: vec![7, 8, 9, 10],
        evaluated_input_tokens: 3,
        generated_tokens: 4,
        prefill_nanos: 1_000,
        decode_nanos: 2_000,
        mtp: MtpMetrics {
            max_draft_tokens: 0,
            accepted_tokens: 1,
            drafted_tokens: 2,
            gated_tokens: 3,
            verification_passes: 4,
            verification_tokens: 5,
            rollback_replays: 6,
            replayed_tokens: 7,
            draft_nanos: 8,
            verification_nanos: 9,
            checkpoint_nanos: 10,
            restore_nanos: 11,
            replay_nanos: 12,
            resync_nanos: 13,
        },
        ngram: NgramMetrics {
            max_draft_tokens: 3,
            min_match: 2,
            steps_with_match: 5,
            steps: 9,
            drafts_issued: 5,
            draft_tokens_accepted: 4,
            draft_tokens_proposed: 9,
            verification_passes: 5,
            verification_tokens: 14,
            rollbacks: 3,
            rollback_replays: 1,
            replayed_tokens: 2,
            lookup_nanos: 21,
            verification_nanos: 22,
            snapshot_nanos: 23,
            rollback_nanos: 24,
            replay_nanos: 25,
            target_only_nanos: 26,
        },
        ngram_outcomes: NgramOutcomes {
            fully_accepted_drafts: 1,
            rejected_immediately: 2,
            drafts_truncated_at_stop: 3,
            snapshot_rows: 4,
            snapshot_bytes_per_row: 5,
        },
        proposed_by_position: vec![5, 4],
        accepted_by_position: vec![3, 1],
        matches_by_len: vec![MatchStats {
            match_len: 2,
            drafts: 5,
            accepted_tokens: 4,
            proposed_tokens: 9,
            fully_accepted_drafts: 1,
            rejected_immediately: 2,
        }],
        policy: policy(),
        thinking: ThinkingMetrics {
            budget: Some(32),
            committed_thinking_tokens: 12,
            forced_closures: 1,
        },
        expert_cache: ExpertCacheStats {
            requests: 40,
            hits: 30,
            bytes_loaded: 20,
            resident_bytes: 10,
            capacity_bytes: 50,
            entries: 6,
            fully_resident: false,
            evictions: 7,
        },
    }
}

#[test]
fn a_report_has_the_lines_that_apply() {
    let counts = run_counts();
    let before = ProcessSnapshot { read_bytes: Some(10), ..Default::default() };
    let after = ProcessSnapshot { read_bytes: Some(30), ..Default::default() };
    let process = before.delta(&after);
    let lines = counts.report(77, &process);
    assert_eq!(
        lines[..9],
        [
            ReportLine::PromptIds(&vec![1, 2]),
            ReportLine::EvaluatedIds(&vec![0, 1, 2]),
            ReportLine::GeneratedIds(&vec![7, 8, 9, 10]),
            ReportLine::Speed {
                input_tokens: 3,
                prefill_nanos: 1_000,
                decode_passes: 3,
                decode_nanos: 2_000,
                context_tokens: 77,
            },
            ReportLine::Ngram(counts.ngram),
            ReportLine::NgramPositions { accepted: &vec![3, 1], proposed: &vec![5, 4] },
            ReportLine::NgramMatches(&counts.matches_by_len),
            ReportLine::NgramOutcomes(counts.ngram_outcomes),
            ReportLine::Policy(overview()),
        ]
    );
    assert_eq!(
        lines[lines.len() - 3..],
        [
            ReportLine::Thinking { committed_tokens: 12, budget: 32, forced_closures: 1 },
            ReportLine::ExpertCache(counts.expert_cache),
            ReportLine::Process {
                read_bytes: 20,
                minor_faults: 0,
                major_faults: 0,
                resident_bytes: 0,
                peak_bytes: 0,
            },
        ]
    );
    let positions = counts.positions();
    assert_eq!((positions[1].index, positions[1].part, positions[1].whole), (1, 1, 4));

    let mut other = run_counts();
    other.evaluated_input_token_ids = vec![1, 2];
    other.mtp.max_draft_tokens = 6;
    other.ngram.max_draft_tokens = 0;
    other.policy.steps = 0;
    other.thinking.budget = None;
    let lines = other.report(0, &process);
    assert_eq!(lines.len(), 6);
    assert_eq!(lines[3], ReportLine::Mtp(other.mtp));
    assert_eq!(lines[4], ReportLine::ExpertCache(other.expert_cache));

    assert_eq!(decode_passes(0), 0);
    assert!(announces(6, 10, 3));
    assert!(!announces(7, 10, 3));
    assert!(announces(10, 10, 3));
}

#[test]
fn steps_and_drafts_are_written_as_json_lines() {
    let record = StepRecord {
        step: 1,
        committed_before: 2,
        arm: "mtp".into(),
        proposed: 3,
        accepted: 1,
        ngram_len: 4,
        mtp_depth: 5,
        ngram_ewma: "0.5000".into(),
        mtp_ewma: "0.2500".into(),
        ngram_suspended: false,
        mtp_suspended: true,
        ngram_match_len: 0,
        resync_tokens: 6,
    };
    assert_eq!(
        record.line(),
        r#"{"step":1,"committed":2,"arm":"mtp","proposed":3,"accepted":1,"ngram_len":4,"mtp_depth":5,"ngram_ewma":0.5000,"mtp_ewma":0.2500,"ngram_suspended":false,"mtp_suspended":true,"ngram_match_len":0,"resync_tokens":6}"#
    );
    let observation = DraftObservation {
        depth: 2,
        logit_margin: "0.12500".into(),
        probability: "0.500000".into(),
        accepted: true,
        gated: false,
    };
    assert_eq!(
        observation.line(),
        r#"{"depth":2,"margin":0.12500,"probability":0.500000,"accepted":true,"gated":false}"#
    );
}

fn verify_args() -> VerifyArgs {
    VerifyArgs {
        repetitions: 2,
        replay_rows: 2,
        batch_sizes: vec![1, 3],
        verification_tokens: vec![8, 9, 10],
    }
}

#[test]
fn a_verification_benchmark_is_checked_in_order() {
    let refused = |change: fn(&mut VerifyArgs)| {
        let mut args = verify_args();
        change(&mut args);
        args.check().unwrap_err()
    };
    assert_eq!(verify_args().check(), Ok(()));
    assert_eq!(refused(|a| a.repetitions = 0), VerifyError::NoRepetitions);
    assert_eq!(refused(|a| a.replay_rows = 0), VerifyError::NoReplayRows);
    assert_eq!(refused(|a| a.batch_sizes.clear()), VerifyError::NoBatchSizes);
    assert_eq!(refused(|a| a.batch_sizes[1] = 0), VerifyError::EmptyBatch);
    assert_eq!(
        refused(|a| a.batch_sizes[0] = 4),
        VerifyError::BatchTooLarge { rows: 4, tokens: 3 }
    );
    assert_eq!(refused(|a| a.replay_rows = 4), VerifyError::ReplayTooLarge);
}

#[test]
fn every_measured_pass_starts_from_the_same_context() {
    let steps = verify_args().run();
    assert_eq!(
        steps[..5],
        [
            VerifyStep::Warm { rows: 1 },
            VerifyStep::Restore { measured: false },
            VerifyStep::Warm { rows: 3 },
            VerifyStep::Restore { measured: false },
            VerifyStep::Checkpoint,
        ]
    );
    assert_eq!(steps.len(), 4 + 2 * (2 * 5 + 1));
    assert_eq!(steps[14], VerifyStep::Report { rows: 1, replay_rows: 1 });
    assert_eq!(steps[25], VerifyStep::Report { rows: 3, replay_rows: 2 });
    for pair in steps.windows(2) {
        let is_pass = matches!(
            pair[0],
            VerifyStep::Warm { .. } | VerifyStep::Verify { .. } | VerifyStep::Replay { .. }
        );
        assert!(!is_pass || matches!(pair[1], VerifyStep::Restore { .. }));
    }
}

fn layer() -> QuantizedLayerTimings {
    QuantizedLayerTimings {
        layer: 3,
        wall: 100,
        attention: QuantizedAttentionTimings {
            wall: 30,
            attention: 20,
            projections: 4,
            output_projection: 3,
            ..Default::default()
        },
        delta: QuantizedDeltaTimings {
            wall: 40,
            projections: 8,
            output_projection: 5,
            ..Default::default()
        },
        moe: QuantizedMoeTimings {
            wall: 25,
            routing: QuantizedMoeRoutingStats {
                batches: 1,
                rows: 2,
                token_expert_assignments: 8,
                unique_experts_selected: 6,
                max_rows_per_expert: 2,
            },
            ..Default::default()
        },
        ..Default::default()
    }
}

#[test]
fn the_cost_of_a_pass_is_split() {
    let costs = pass_costs(&vec![layer(), layer()]);
    assert_eq!(costs.scan, 40);
    assert_eq!(costs.attention_other, 20);
    assert_eq!(costs.linear, 80);
    assert_eq!(costs.moe, 50);
    let timings = QuantizedForwardTimings {
        wall: 300,
        layer_details: vec![layer()],
        layers: vec![100],
        ..Default::default()
    };
    let stages = VerificationStages::from_report(&timings.report());
    assert_eq!(stages.wall, 300);
    assert_eq!(stages.dense_projections_outside_moe, 4 + 3 + 8 + 5);
    assert_eq!(stages.full_attention, 30);
    let reuse = expert_reuse(&vec![layer()]);
    assert_eq!(reuse[0].layer, 3);
    assert_eq!(reuse[0].token_expert_assignments, 8);
    assert_eq!(reuse[0].unique_experts_selected, 6);
}

#[test]
fn depths_must_be_reachable() {
    assert_eq!(check_decode(0), Err(DepthError::NoDecodeTokens));
    assert_eq!(check_depths(&[64, 512], 513), Ok(()));
    assert_eq!(
        check_depths(&[64, 512], 512),
        Err(DepthError::TextTooShort { tokens: 512, deepest: 512 })
    );
    assert_eq!(prefill_passes(10, 4), vec![(0, 4), (4, 8), (8, 10)]);
    assert_eq!(prefill_passes(8, 4), vec![(0, 4), (4, 8)]);
    assert_eq!(prefill_passes(3, 4), vec![(0, 3)]);
    assert!(prefill_passes(0, 4).is_empty());
}

fn cell(name: &str, prompts: &[&str]) -> Cell<f32, f64> {
    Cell {
        name: name.into(),
        speculative: Some("mtp".into()),
        mtp_draft_vocab: None,
        mtp_min_confidence: Some(0.75),
        mtp_depth_start: None,
        mtp_suspend_below: None,
        ewma_alpha: None,
        backoff_tokens: Some(1),
        prompts: prompts.iter().map(|p| p.to_string()).collect(),
    }
}

#[test]
fn every_configuration_runs_once_before_any_runs_twice() {
    let cells = vec![cell("a", &[]), cell("b", &["q"])];
    let prompts = vec!["p".to_string(), "q".to_string()];
    let runs = campaign(2, &cells, &prompts).unwrap();
    let expected: Vec<Run> = [(0, 0, 0), (0, 0, 1), (0, 1, 1), (1, 0, 0), (1, 0, 1), (1, 1, 1)]
        .into_iter()
        .map(|(repetition, cell, prompt)| Run { repetition, cell, prompt })
        .collect();
    assert_eq!(runs, expected);
    assert_eq!(campaign(0, &cells, &prompts), Err(CampaignError::NoRepetitions));
    assert_eq!(
        campaign::<f32, f64>(1, &vec![], &prompts),
        Err(CampaignError::NothingToRun)
    );
    assert!(runs_prompt(&vec![], "x"));
    assert!(!runs_prompt(&vec!["y".to_string()], "x"));
}

#[test]
fn a_cell_varies_what_it_names() {
    let defaults = CellDefaults {
        mtp_draft_vocab: 64,
        mtp_min_confidence: 0.5,
        mtp_depth_start: 3,
        mtp_suspend_below: 0.2,
        ewma_alpha: 0.1,
        backoff_tokens: 32,
    };
    let options = cell("a", &[]).options_for(9, defaults, base()).unwrap();
    assert_eq!(options.speculative_mode, SpeculativeMode::Mtp);
    assert_eq!(options.max_new_tokens, 9);
    assert_eq!(options.mtp_draft_vocab, 64);
    assert_eq!(options.mtp_min_confidence, 0.75);
    assert_eq!(options.policy.backoff_tokens, 1);
    assert_eq!(options.policy.backoff_cap, 5);
    let mut unknown = cell("a", &[]);
    unknown.speculative = Some("fast".into());
    assert_eq!(unknown.options_for(9, defaults, base()).err(), Some("fast".into()));
}

#[test]
fn kernels_and_matrices_are_named() {
    assert_eq!(parse_path("Candle"), Ok(MultiRowPath::Candle));
    assert_eq!(parse_path("small_m"), Ok(MultiRowPath::SmallM));
    assert_eq!(parse_path("SMALLM"), Ok(MultiRowPath::SmallM));
    assert_eq!(parse_path("fused"), Ok(MultiRowPath::Fused));
    assert_eq!(parse_path("tiled"), Ok(MultiRowPath::FusedTiled));
    assert_eq!(parse_path("Other"), Err("other".into()));
    assert_eq!(choose_matrix("t"), Some(MatrixChoice::Whole("t".into())));
    assert_eq!(
        choose_matrix("t:3"),
        Some(MatrixChoice::Expert { name: "t".into(), expert: 3 })
    );
    assert_eq!(
        choose_matrix("gate+up:12"),
        Some(MatrixChoice::Pair {
            first: "gate".into(),
            second: "up".into(),
            expert: 12,
        })
    );
    assert_eq!(choose_matrix("t:x"), None);
    assert_eq!(
        expert_batch("t:3", 2),
        Some(vec!["t:3".to_string(), "t:4".to_string()])
    );
    assert_eq!(expert_batch("t", 2), Some(vec![]));
    assert_eq!(expert_batch("t:x", 2), None);
    let all = [MultiRowPath::Fused, MultiRowPath::Candle];
    assert_eq!(usable_paths(&all, 1), vec![MultiRowPath::Candle]);
    assert_eq!(usable_paths(&all, 2), all.to_vec());
}

#[test]
fn inputs_and_samples_of_a_kernel_benchmark() {
    assert_eq!(input_numerator(0, 0), -30);
    assert_eq!(input_numerator(2, 3), (3 * 31 + 2 * 17) % 61 - 30);
    assert_eq!(layer_numerator(31, 0), -15);
    assert_eq!(layer_numerator(2, 1), 9 - 15);
    assert_eq!(best_and_median(&[5, 1, 9]), (1, 5));
    assert_eq!(best_and_median(&[4, 2, 8, 6]), (2, 6));
    assert_eq!(best_and_median(&[3]), (3, 3));
}

#[test]
fn the_best_scores_are_compared() {
    let bits = |values: &[f32]| -> Vec<u32> { values.iter().map(|v| v.to_bits()).collect() };
    let actual = bits(&[1., -2., 8., 4., -0., 0.]);
    assert_eq!(top_n(&actual, 3), vec![2, 3, 0]);
    assert_eq!(top_n(&actual, 9), vec![2, 3, 0, 5, 4, 1]);
    let reference = bits(&[9., -2., 8., 0.5, -0., 0.]);
    let found = compare(&actual, &reference, 2).unwrap();
    assert_eq!(found.elements, 6);
    assert!(!found.top_1_agreement);
    assert_eq!(found.top_n_overlap, 1);
    assert!(compare(&actual, &actual, 4).unwrap().top_1_agreement);
    assert_eq!(
        compare(&actual, &reference[..2], 2),
        Err(LengthMismatch { reference: 2, produced: 6 })
    );
    // The order is total: a NaN stands above every number.
    assert_eq!(top_n(&bits(&[f32::INFINITY, f32::NAN]), 1), vec![1]);
}
