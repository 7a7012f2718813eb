//! What the benchmark of target verification runs: the batch sizes it accepts,
//! the passes it makes in which order, and what it adds up.

use crate::qwen::timings::{
    QuantizedForwardTimingReport, QuantizedLayerTimings, MAX_NANOS,
};
use vstd::prelude::*;

verus! {

/// Why a benchmark does not run.
#[derive(Debug, Clone, Copy, PartialEq, Eq, Structural)]
pub enum VerifyError {
    NoRepetitions,
    NoReplayRows,
    NoBatchSizes,
    EmptyBatch,
    /// The largest batch needs more tokens than there are.
    BatchTooLarge { rows: usize, tokens: usize },
    /// More rows would be replayed than any batch holds.
    ReplayTooLarge,
}

/// The largest of the first `n` sizes.
pub open spec fn largest(sizes: Seq<usize>, n: int) -> usize
    decreases n,
{
    if n <= 0 {
        0
    } else if sizes[n - 1] > largest(sizes, n - 1) {
        sizes[n - 1]
    } else {
        largest(sizes, n - 1)
    }
}

/// No size is above the largest.
proof fn lemma_largest(sizes: Seq<usize>, n: int)
    requires
        0 <= n <= sizes.len(),
    ensures
        forall|i: int| 0 <= i < n ==> #[trigger] sizes[i] <= largest(sizes, n),
    decreases n,
{
    if n > 0 {
        lemma_largest(sizes, n - 1);
    }
}

/// What a benchmark is asked for.
#[derive(Debug, Clone, PartialEq, Eq)]
pub struct VerifyArgs {
    pub repetitions: usize,
    pub replay_rows: usize,
    pub batch_sizes: Vec<usize>,
    pub verification_tokens: Vec<u32>,
}

impl VerifyArgs {
    /// The largest batch.
    pub open spec fn maximum(&self) -> usize {
        largest(self.batch_sizes@, self.batch_sizes@.len() as int)
    }

    /// Whether a batch holds nothing.
    pub open spec fn has_empty_batch(&self) -> bool {
        exists|i: int| 0 <= i < self.batch_sizes@.len() && #[trigger] self.batch_sizes@[i] == 0
    }

    /// What is wrong with the request.
    pub open spec fn problem(&self) -> Option<VerifyError> {
        if self.repetitions == 0 {
            Some(VerifyError::NoRepetitions)
        } else if self.replay_rows == 0 {
            Some(VerifyError::NoReplayRows)
        } else if self.batch_sizes@.len() == 0 {
            Some(VerifyError::NoBatchSizes)
        } else if self.has_empty_batch() {
            Some(VerifyError::EmptyBatch)
        } else if self.maximum() > self.verification_tokens@.len() {
            Some(
                VerifyError::BatchTooLarge {
                    rows: self.maximum(),
                    tokens: self.verification_tokens@.len() as usize,
                },
            )
        } else if self.replay_rows > self.maximum() {
            Some(VerifyError::ReplayTooLarge)
        } else {
            None
        }
    }

    /// Checks the request. Where it is fine, every batch finds its tokens.
    pub fn check(&self) -> (result: Result<(), VerifyError>)
        ensures
            match result {
                Ok(_) => self.problem() is None && forall|i: int|
                    0 <= i < self.batch_sizes@.len() ==> 0 < #[trigger] self.batch_sizes@[i]
                        <= self.verification_tokens@.len(),
                Err(error) => self.problem() == Some(error),
            },
    {
        if self.repetitions == 0 {
            return Err(VerifyError::NoRepetitions);
        }
        if self.replay_rows == 0 {
            return Err(VerifyError::NoReplayRows);
        }
        let count: usize = self.batch_sizes.len();
        if count == 0 {
            return Err(VerifyError::NoBatchSizes);
        }
        let mut maximum: usize = 0;
        let mut i: usize = 0;
        while i < count
            invariant
                i <= count,
                count == self.batch_sizes@.len(),
                self.repetitions > 0,
                self.replay_rows > 0,
                maximum == largest(self.batch_sizes@, i as int),
                forall|k: int| 0 <= k < i ==> #[trigger] self.batch_sizes@[k] > 0,
            decreases count - i,
        {
            if self.batch_sizes[i] == 0 {
                proof {
                    assert(self.batch_sizes@[i as int] == 0);
                    assert(self.has_empty_batch());
                }
                return Err(VerifyError::EmptyBatch);
            }
            if self.batch_sizes[i] > maximum {
                maximum = self.batch_sizes[i];
            }
            i += 1;
        }
        proof {
            assert(!self.has_empty_batch());
            lemma_largest(self.batch_sizes@, count as int);
        }
        let tokens: usize = self.verification_tokens.len();
        if maximum > tokens {
            return Err(VerifyError::BatchTooLarge { rows: maximum, tokens });
        }
        if self.replay_rows > maximum {
            return Err(VerifyError::ReplayTooLarge);
        }
        Ok(())
    }
}

/// One step of the benchmark.
#[derive(Debug, Clone, Copy, PartialEq, Eq, Structural)]
pub enum VerifyStep {
    /// A pass that is not measured; it warms pages and allocations.
    Warm { rows: usize },
    /// Records the state, and how long that took.
    Checkpoint,
    /// A measured pass.
    Verify { rows: usize },
    /// Puts the state back.
    Restore { measured: bool },
    /// A pass over the rows that a rejection would replay.
    Replay { rows: usize },
    /// Reports a batch size.
    Report { rows: usize, replay_rows: usize },
}

impl VerifyStep {
    /// Whether a step moves the state on.
    pub open spec fn is_pass(self) -> bool {
        self is Warm || self is Verify || self is Replay
    }
}

/// The rows that a batch replays.
pub open spec fn replayed(rows: usize, replay_rows: usize) -> usize {
    if replay_rows <= rows {
        replay_rows
    } else {
        rows
    }
}

/// The steps that warm the first `n` batch sizes.
pub open spec fn warming(sizes: Seq<usize>, n: int) -> Seq<VerifyStep>
    decreases n,
{
    if n <= 0 {
        Seq::empty()
    } else {
        warming(sizes, n - 1) + seq![
            VerifyStep::Warm { rows: sizes[n - 1] },
            VerifyStep::Restore { measured: false },
        ]
    }
}

/// The steps of one repetition.
pub open spec fn repetition(rows: usize, replay_rows: usize) -> Seq<VerifyStep> {
    seq![
        VerifyStep::Checkpoint,
        VerifyStep::Verify { rows },
        VerifyStep::Restore { measured: true },
        VerifyStep::Replay { rows: replayed(rows, replay_rows) },
        VerifyStep::Restore { measured: false },
    ]
}

/// The steps of `k` repetitions.
pub open spec fn repeated_steps(rows: usize, replay_rows: usize, k: int) -> Seq<VerifyStep>
    decreases k,
{
    if k <= 0 {
        Seq::empty()
    } else {
        repeated_steps(rows, replay_rows, k - 1) + repetition(rows, replay_rows)
    }
}

/// The steps that measure the first `n` batch sizes.
pub open spec fn measuring(
    sizes: Seq<usize>,
    repetitions: usize,
    replay_rows: usize,
    n: int,
) -> Seq<VerifyStep>
    decreases n,
{
    if n <= 0 {
        Seq::empty()
    } else {
        measuring(sizes, repetitions, replay_rows, n - 1) + repeated_steps(
            sizes[n - 1],
            replay_rows,
            repetitions as int,
        ) + seq![
            VerifyStep::Report {
                rows: sizes[n - 1],
                replay_rows: replayed(sizes[n - 1], replay_rows),
            },
        ]
    }
}

impl VerifyArgs {
    /// The steps of the benchmark: every batch size is warmed once, then each is
    /// measured in turn.
    pub open spec fn schedule(&self) -> Seq<VerifyStep> {
        warming(self.batch_sizes@, self.batch_sizes@.len() as int) + measuring(
            self.batch_sizes@,
            self.repetitions,
            self.replay_rows,
            self.batch_sizes@.len() as int,
        )
    }

    /// The steps of the benchmark.
    pub fn run(&self) -> (steps: Vec<VerifyStep>)
        ensures
            steps@ == self.schedule(),
    {
        let count: usize = self.batch_sizes.len();
        let mut steps: Vec<VerifyStep> = Vec::new();
        let mut i: usize = 0;
        while i < count
            invariant
                i <= count,
                count == self.batch_sizes@.len(),
                steps@ == warming(self.batch_sizes@, i as int),
            decreases count - i,
        {
            let ghost before = steps@;
            steps.push(VerifyStep::Warm { rows: self.batch_sizes[i] });
            steps.push(VerifyStep::Restore { measured: false });
            i += 1;
            proof {
                assert(steps@ =~= before + seq![
                    VerifyStep::Warm { rows: self.batch_sizes@[i - 1] },
                    VerifyStep::Restore { measured: false },
                ]);
            }
        }
        let ghost warm = steps@;
        let mut i: usize = 0;
        proof {
            assert(steps@ =~= warm + measuring(
                self.batch_sizes@,
                self.repetitions,
                self.replay_rows,
                0,
            ));
        }
        while i < count
            invariant
                i <= count,
                count == self.batch_sizes@.len(),
                steps@ == warm + measuring(
                    self.batch_sizes@,
                    self.repetitions,
                    self.replay_rows,
                    i as int,
                ),
            decreases count - i,
        {
            let ghost before = steps@;
            let rows: usize = self.batch_sizes[i];
            let replay_rows: usize = if self.replay_rows <= rows {
                self.replay_rows
            } else {
                rows
            };
            let mut k: usize = 0;
            proof {
                assert(steps@ =~= before + repeated_steps(rows, self.replay_rows, 0));
            }
            while k < self.repetitions
                invariant
                    k <= self.repetitions,
                    replay_rows == replayed(rows, self.replay_rows),
                    steps@ == before + repeated_steps(rows, self.replay_rows, k as int),
                decreases self.repetitions - k,
            {
                let ghost so_far = steps@;
                steps.push(VerifyStep::Checkpoint);
                steps.push(VerifyStep::Verify { rows });
                steps.push(VerifyStep::Restore { measured: true });
                steps.push(VerifyStep::Replay { rows: replay_rows });
                steps.push(VerifyStep::Restore { measured: false });
                k += 1;
                proof {
                    assert(steps@ =~= so_far + repetition(rows, self.replay_rows));
                    assert(steps@ =~= before + repeated_steps(rows, self.replay_rows, k as int));
                }
            }
            steps.push(VerifyStep::Report { rows, replay_rows });
            i += 1;
            proof {
                assert(steps@ =~= warm + measuring(
                    self.batch_sizes@,
                    self.repetitions,
                    self.replay_rows,
                    i as int,
                ));
            }
        }
        steps
    }
}

/// Whether every pass is undone by the step after it.
pub open spec fn passes_undone(steps: Seq<VerifyStep>) -> bool {
    forall|i: int|
        #![trigger steps[i]]
        0 <= i < steps.len() && steps[i].is_pass() ==> i + 1 < steps.len() && steps[i + 1]
            is Restore
}

/// Two lists of steps whose passes are undone make one.
proof fn lemma_undone(a: Seq<VerifyStep>, b: Seq<VerifyStep>)
    requires
        passes_undone(a),
        passes_undone(b),
    ensures
        passes_undone(a + b),
{
    let c = a + b;
    assert forall|i: int| #![trigger c[i]] 0 <= i < c.len() && c[i].is_pass() implies i + 1
        < c.len() && c[i + 1] is Restore by {
        if i < a.len() {
            assert(c[i] == a[i]);
            assert(c[i + 1] == a[i + 1]);
        } else {
            assert(c[i] == b[i - a.len()]);
            assert(c[i + 1] == b[i - a.len() + 1]);
        }
    }
}

/// Warming undoes its passes.
proof fn lemma_warming_undone(sizes: Seq<usize>, n: int)
    ensures
        passes_undone(warming(sizes, n)),
    decreases n,
{
    if n > 0 {
        lemma_warming_undone(sizes, n - 1);
        let last = seq![
            VerifyStep::Warm { rows: sizes[n - 1] },
            VerifyStep::Restore { measured: false },
        ];
        assert(passes_undone(last));
        lemma_undone(warming(sizes, n - 1), last);
    }
}

/// Repetitions undo their passes.
proof fn lemma_repetitions_undone(rows: usize, replay_rows: usize, k: int)
    ensures
        passes_undone(repeated_steps(rows, replay_rows, k)),
    decreases k,
{
    if k > 0 {
        lemma_repetitions_undone(rows, replay_rows, k - 1);
        assert(passes_undone(repetition(rows, replay_rows)));
        lemma_undone(repeated_steps(rows, replay_rows, k - 1), repetition(rows, replay_rows));
    }
}

/// Measuring undoes its passes.
proof fn lemma_measuring_undone(sizes: Seq<usize>, repetitions: usize, replay_rows: usize, n: int)
    ensures
        passes_undone(measuring(sizes, repetitions, replay_rows, n)),
    decreases n,
{
    if n > 0 {
        lemma_measuring_undone(sizes, repetitions, replay_rows, n - 1);
        let body = repeated_steps(sizes[n - 1], replay_rows, repetitions as int);
        let last = seq![
            VerifyStep::Report {
                rows: sizes[n - 1],
                replay_rows: replayed(sizes[n - 1], replay_rows),
            },
        ];
        lemma_repetitions_undone(sizes[n - 1], replay_rows, repetitions as int);
        assert(passes_undone(last));
        lemma_undone(measuring(sizes, repetitions, replay_rows, n - 1), body);
        lemma_undone(measuring(sizes, repetitions, replay_rows, n - 1) + body, last);
    }
}

/// Every measured pass starts from the same context: whatever pass is made, the
/// step after it puts the state back.
pub proof fn every_pass_is_undone(args: VerifyArgs)
    ensures
        passes_undone(args.schedule()),
{
    let sizes = args.batch_sizes@;
    lemma_warming_undone(sizes, sizes.len() as int);
    lemma_measuring_undone(sizes, args.repetitions, args.replay_rows, sizes.len() as int);
    lemma_undone(
        warming(sizes, sizes.len() as int),
        measuring(sizes, args.repetitions, args.replay_rows, sizes.len() as int),
    );
}

/// Where the time of the measured passes went, in nanoseconds over all
/// repetitions.
#[derive(Debug, Clone, Copy, PartialEq, Eq, Structural)]
pub struct VerificationStages {
    pub wall: u128,
    pub deltanet_projections: u128,
    pub deltanet_recurrence: u128,
    pub full_attention: u128,
    pub moe_router: u128,
    pub moe_top_k: u128,
    pub moe_routed_gate_up: u128,
    pub moe_activation: u128,
    pub moe_routed_down: u128,
    pub moe_routed_accumulation: u128,
    pub moe_shared_expert: u128,
    pub dense_projections_outside_moe: u128,
    pub final_norm: u128,
    pub lm_head: u128,
}

/// Whether the projections outside the experts can be added up.
pub open spec fn dense_addable(report: &QuantizedForwardTimingReport) -> bool {
    let o = report.nested_operations;
    o.attention_projections_nanos + o.attention_output_projection_nanos
        + o.deltanet_projections_nanos + o.deltanet_output_projection_nanos <= MAX_NANOS
}

impl VerificationStages {
    /// Picks the stages out of a report; the four dense projections outside the
    /// experts count as one.
    pub fn from_report(report: &QuantizedForwardTimingReport) -> (stages: VerificationStages)
        requires
            dense_addable(report),
        ensures
            ({
                let o = report.nested_operations;
                stages == (VerificationStages {
                    wall: report.wall_nanos,
                    deltanet_projections: o.deltanet_projections_nanos,
                    deltanet_recurrence: o.deltanet_recurrence_nanos,
                    full_attention: report.stages.attention_nanos,
                    moe_router: o.moe_router_nanos,
                    moe_top_k: o.moe_top_k_nanos,
                    moe_routed_gate_up: o.moe_expert_gate_up_nanos,
                    moe_activation: o.moe_expert_activation_nanos,
                    moe_routed_down: o.moe_expert_down_nanos,
                    moe_routed_accumulation: o.moe_expert_accumulation_nanos,
                    moe_shared_expert: o.moe_shared_expert_nanos,
                    dense_projections_outside_moe: (o.attention_projections_nanos
                        + o.attention_output_projection_nanos + o.deltanet_projections_nanos
                        + o.deltanet_output_projection_nanos) as u128,
                    final_norm: report.stages.final_norm_nanos,
                    lm_head: report.stages.lm_head_nanos,
                })
            }),
    {
        let o = &report.nested_operations;
        let dense: u128 = o.attention_projections_nanos + o.attention_output_projection_nanos
            + o.deltanet_projections_nanos + o.deltanet_output_projection_nanos;
        VerificationStages {
            wall: report.wall_nanos,
            deltanet_projections: o.deltanet_projections_nanos,
            deltanet_recurrence: o.deltanet_recurrence_nanos,
            full_attention: report.stages.attention_nanos,
            moe_router: o.moe_router_nanos,
            moe_top_k: o.moe_top_k_nanos,
            moe_routed_gate_up: o.moe_expert_gate_up_nanos,
            moe_activation: o.moe_expert_activation_nanos,
            moe_routed_down: o.moe_expert_down_nanos,
            moe_routed_accumulation: o.moe_expert_accumulation_nanos,
            moe_shared_expert: o.moe_shared_expert_nanos,
            dense_projections_outside_moe: dense,
            final_norm: report.stages.final_norm_nanos,
            lm_head: report.stages.lm_head_nanos,
        }
    }
}

/// How the rows of one layer shared experts, over all repetitions.
#[derive(Debug, Clone, Copy, PartialEq, Eq, Structural)]
pub struct LayerExpertReuse {
    pub layer: usize,
    pub token_expert_assignments: usize,
    pub unique_experts_selected: usize,
    pub maximum_rows_assigned_to_one_expert: usize,
}

/// How the rows of one layer shared experts.
pub open spec fn reuse_of(timings: QuantizedLayerTimings) -> LayerExpertReuse {
    LayerExpertReuse {
        layer: timings.layer,
        token_expert_assignments: timings.moe.routing.token_expert_assignments,
        unique_experts_selected: timings.moe.routing.unique_experts_selected,
        maximum_rows_assigned_to_one_expert: timings.moe.routing.max_rows_per_expert,
    }
}

/// How the rows of each layer shared experts.
pub fn expert_reuse(details: &Vec<QuantizedLayerTimings>) -> (reuse: Vec<LayerExpertReuse>)
    ensures
        reuse@ == details@.map_values(|t: QuantizedLayerTimings| reuse_of(t)),
{
    let count: usize = details.len();
    let mut reuse: Vec<LayerExpertReuse> = Vec::new();
    let mut i: usize = 0;
    while i < count
        invariant
            i <= count,
            count == details@.len(),
            reuse@.len() == i,
            forall|k: int| 0 <= k < i ==> #[trigger] reuse@[k] == reuse_of(details@[k]),
        decreases count - i,
    {
        let timings: &QuantizedLayerTimings = &details[i];
        reuse.push(
            LayerExpertReuse {
                layer: timings.layer,
                token_expert_assignments: timings.moe.routing.token_expert_assignments,
                unique_experts_selected: timings.moe.routing.unique_experts_selected,
                maximum_rows_assigned_to_one_expert: timings.moe.routing.max_rows_per_expert,
            },
        );
        i += 1;
    }
    proof {
        assert(reuse@ =~= details@.map_values(|t: QuantizedLayerTimings| reuse_of(t)));
    }
    reuse
}

} // verus!
