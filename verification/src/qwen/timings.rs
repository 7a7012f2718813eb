//! Where the time of a pass went.
//!
//! Durations are whole nanoseconds. Stage timings are disjoint at the top level
//! and can be compared with the wall time; operation timings are nested within
//! those stages and must not be added to them.

use crate::config::LayerType;
use vstd::prelude::*;

verus! {

/// The longest duration.
pub const MAX_NANOS: u128 = 18_446_744_073_709_551_615_999_999_999;

/// Whether two durations have a sum.
pub open spec fn addable(a: u128, b: u128) -> bool {
    a + b <= MAX_NANOS
}

/// Where the time of an attention layer went.
#[derive(Debug, Clone, Copy, PartialEq, Eq, Structural)]
pub struct QuantizedAttentionTimings {
    pub wall: u128,
    pub projections: u128,
    pub norm_rope: u128,
    pub attention: u128,
    /// The three parts of the scan, summed over threads.
    pub scores: u128,
    pub softmax: u128,
    pub weighted_sum: u128,
    pub output_projection: u128,
}

impl QuantizedAttentionTimings {
    /// The sums of two timings.
    pub open spec fn with(self, other: QuantizedAttentionTimings) -> QuantizedAttentionTimings {
        QuantizedAttentionTimings {
            wall: (self.wall + other.wall) as u128,
            projections: (self.projections + other.projections) as u128,
            norm_rope: (self.norm_rope + other.norm_rope) as u128,
            attention: (self.attention + other.attention) as u128,
            scores: (self.scores + other.scores) as u128,
            softmax: (self.softmax + other.softmax) as u128,
            weighted_sum: (self.weighted_sum + other.weighted_sum) as u128,
            output_projection: (self.output_projection + other.output_projection) as u128,
        }
    }

    /// Whether all sums are durations.
    pub open spec fn can_add(self, other: QuantizedAttentionTimings) -> bool {
        &&& addable(self.wall, other.wall)
        &&& addable(self.projections, other.projections)
        &&& addable(self.norm_rope, other.norm_rope)
        &&& addable(self.attention, other.attention)
        &&& addable(self.scores, other.scores)
        &&& addable(self.softmax, other.softmax)
        &&& addable(self.weighted_sum, other.weighted_sum)
        &&& addable(self.output_projection, other.output_projection)
    }

    /// No time at all.
    pub open spec fn none() -> QuantizedAttentionTimings {
        QuantizedAttentionTimings {
            wall: 0,
            projections: 0,
            norm_rope: 0,
            attention: 0,
            scores: 0,
            softmax: 0,
            weighted_sum: 0,
            output_projection: 0,
        }
    }

    /// Adds another timing, part by part.
    pub fn accumulate(&mut self, other: &QuantizedAttentionTimings)
        requires
            old(self).can_add(*other),
        ensures
            *final(self) == old(self).with(*other),
    {
        self.wall = self.wall + other.wall;
        self.projections = self.projections + other.projections;
        self.norm_rope = self.norm_rope + other.norm_rope;
        self.attention = self.attention + other.attention;
        self.scores = self.scores + other.scores;
        self.softmax = self.softmax + other.softmax;
        self.weighted_sum = self.weighted_sum + other.weighted_sum;
        self.output_projection = self.output_projection + other.output_projection;
    }
}

impl Default for QuantizedAttentionTimings {
    fn default() -> (timings: Self)
        ensures
            timings == QuantizedAttentionTimings::none(),
    {
        QuantizedAttentionTimings {
            wall: 0,
            projections: 0,
            norm_rope: 0,
            attention: 0,
            scores: 0,
            softmax: 0,
            weighted_sum: 0,
            output_projection: 0,
        }
    }
}

/// Where the time of a linear-attention layer went.
#[derive(Debug, Clone, Copy, PartialEq, Eq, Structural)]
pub struct QuantizedDeltaTimings {
    pub wall: u128,
    pub projections: u128,
    pub convolution: u128,
    pub recurrence: u128,
    pub gated_norm: u128,
    pub output_projection: u128,
    /// Time spent copying recurrent state into per-row rollback snapshots.
    pub snapshot: u128,
}

impl QuantizedDeltaTimings {
    /// The sums of two timings.
    pub open spec fn with(self, other: QuantizedDeltaTimings) -> QuantizedDeltaTimings {
        QuantizedDeltaTimings {
            wall: (self.wall + other.wall) as u128,
            projections: (self.projections + other.projections) as u128,
            convolution: (self.convolution + other.convolution) as u128,
            recurrence: (self.recurrence + other.recurrence) as u128,
            gated_norm: (self.gated_norm + other.gated_norm) as u128,
            output_projection: (self.output_projection + other.output_projection) as u128,
            snapshot: (self.snapshot + other.snapshot) as u128,
        }
    }

    /// Whether all sums are durations.
    pub open spec fn can_add(self, other: QuantizedDeltaTimings) -> bool {
        &&& addable(self.wall, other.wall)
        &&& addable(self.projections, other.projections)
        &&& addable(self.convolution, other.convolution)
        &&& addable(self.recurrence, other.recurrence)
        &&& addable(self.gated_norm, other.gated_norm)
        &&& addable(self.output_projection, other.output_projection)
        &&& addable(self.snapshot, other.snapshot)
    }

    /// No time at all.
    pub open spec fn none() -> QuantizedDeltaTimings {
        QuantizedDeltaTimings {
            wall: 0,
            projections: 0,
            convolution: 0,
            recurrence: 0,
            gated_norm: 0,
            output_projection: 0,
            snapshot: 0,
        }
    }

    /// Adds another timing, part by part.
    pub fn accumulate(&mut self, other: &QuantizedDeltaTimings)
        requires
            old(self).can_add(*other),
        ensures
            *final(self) == old(self).with(*other),
    {
        self.wall = self.wall + other.wall;
        self.projections = self.projections + other.projections;
        self.convolution = self.convolution + other.convolution;
        self.recurrence = self.recurrence + other.recurrence;
        self.gated_norm = self.gated_norm + other.gated_norm;
        self.output_projection = self.output_projection + other.output_projection;
        self.snapshot = self.snapshot + other.snapshot;
    }
}

impl Default for QuantizedDeltaTimings {
    fn default() -> (timings: Self)
        ensures
            timings == QuantizedDeltaTimings::none(),
    {
        QuantizedDeltaTimings {
            wall: 0,
            projections: 0,
            convolution: 0,
            recurrence: 0,
            gated_norm: 0,
            output_projection: 0,
            snapshot: 0,
        }
    }
}

/// How the rows of a pass were spread over experts.
#[derive(Debug, Clone, Copy, PartialEq, Eq, Structural)]
pub struct QuantizedMoeRoutingStats {
    pub batches: usize,
    pub rows: usize,
    pub token_expert_assignments: usize,
    pub unique_experts_selected: usize,
    pub max_rows_per_expert: usize,
}

impl QuantizedMoeRoutingStats {
    /// The sums of two statistics; the larger of the two maxima.
    pub open spec fn with(self, other: QuantizedMoeRoutingStats) -> QuantizedMoeRoutingStats {
        QuantizedMoeRoutingStats {
            batches: (self.batches + other.batches) as usize,
            rows: (self.rows + other.rows) as usize,
            token_expert_assignments: (self.token_expert_assignments
                + other.token_expert_assignments) as usize,
            unique_experts_selected: (self.unique_experts_selected
                + other.unique_experts_selected) as usize,
            max_rows_per_expert: if other.max_rows_per_expert > self.max_rows_per_expert {
                other.max_rows_per_expert
            } else {
                self.max_rows_per_expert
            },
        }
    }

    /// Whether all sums fit the machine.
    pub open spec fn can_add(self, other: QuantizedMoeRoutingStats) -> bool {
        &&& self.batches + other.batches <= usize::MAX
        &&& self.rows + other.rows <= usize::MAX
        &&& self.token_expert_assignments + other.token_expert_assignments <= usize::MAX
        &&& self.unique_experts_selected + other.unique_experts_selected <= usize::MAX
    }

    /// No rows at all.
    pub open spec fn none() -> QuantizedMoeRoutingStats {
        QuantizedMoeRoutingStats {
            batches: 0,
            rows: 0,
            token_expert_assignments: 0,
            unique_experts_selected: 0,
            max_rows_per_expert: 0,
        }
    }

    /// Adds other statistics, part by part.
    pub fn accumulate(&mut self, other: &QuantizedMoeRoutingStats)
        requires
            old(self).can_add(*other),
        ensures
            *final(self) == old(self).with(*other),
    {
        self.batches = self.batches + other.batches;
        self.rows = self.rows + other.rows;
        self.token_expert_assignments = self.token_expert_assignments
            + other.token_expert_assignments;
        self.unique_experts_selected = self.unique_experts_selected + other.unique_experts_selected;
        if other.max_rows_per_expert > self.max_rows_per_expert {
            self.max_rows_per_expert = other.max_rows_per_expert;
        }
    }
}

impl Default for QuantizedMoeRoutingStats {
    fn default() -> (stats: Self)
        ensures
            stats == QuantizedMoeRoutingStats::none(),
    {
        QuantizedMoeRoutingStats {
            batches: 0,
            rows: 0,
            token_expert_assignments: 0,
            unique_experts_selected: 0,
            max_rows_per_expert: 0,
        }
    }
}

/// Where the time of a mixture of experts went, and how its rows were spread.
#[derive(Debug, Clone, Copy, PartialEq, Eq, Structural)]
pub struct QuantizedMoeTimings {
    pub wall: u128,
    pub router: u128,
    pub top_k: u128,
    pub expert_load: u128,
    pub expert_compute: u128,
    pub expert_gate_up: u128,
    pub expert_activation: u128,
    pub expert_down: u128,
    pub expert_accumulation: u128,
    pub shared_expert: u128,
    pub routing: QuantizedMoeRoutingStats,
}

impl QuantizedMoeTimings {
    /// The sums of two timings.
    pub open spec fn with(self, other: QuantizedMoeTimings) -> QuantizedMoeTimings {
        QuantizedMoeTimings {
            wall: (self.wall + other.wall) as u128,
            router: (self.router + other.router) as u128,
            top_k: (self.top_k + other.top_k) as u128,
            expert_load: (self.expert_load + other.expert_load) as u128,
            expert_compute: (self.expert_compute + other.expert_compute) as u128,
            expert_gate_up: (self.expert_gate_up + other.expert_gate_up) as u128,
            expert_activation: (self.expert_activation + other.expert_activation) as u128,
            expert_down: (self.expert_down + other.expert_down) as u128,
            expert_accumulation: (self.expert_accumulation + other.expert_accumulation) as u128,
            shared_expert: (self.shared_expert + other.shared_expert) as u128,
            routing: self.routing.with(other.routing),
        }
    }

    /// Whether all sums are durations.
    pub open spec fn can_add(self, other: QuantizedMoeTimings) -> bool {
        &&& addable(self.wall, other.wall)
        &&& addable(self.router, other.router)
        &&& addable(self.top_k, other.top_k)
        &&& addable(self.expert_load, other.expert_load)
        &&& addable(self.expert_compute, other.expert_compute)
        &&& addable(self.expert_gate_up, other.expert_gate_up)
        &&& addable(self.expert_activation, other.expert_activation)
        &&& addable(self.expert_down, other.expert_down)
        &&& addable(self.expert_accumulation, other.expert_accumulation)
        &&& addable(self.shared_expert, other.shared_expert)
        &&& self.routing.can_add(other.routing)
    }

    /// No time at all.
    pub open spec fn none() -> QuantizedMoeTimings {
        QuantizedMoeTimings {
            wall: 0,
            router: 0,
            top_k: 0,
            expert_load: 0,
            expert_compute: 0,
            expert_gate_up: 0,
            expert_activation: 0,
            expert_down: 0,
            expert_accumulation: 0,
            shared_expert: 0,
            routing: QuantizedMoeRoutingStats::none(),
        }
    }

    /// Adds another timing, part by part.
    pub fn accumulate(&mut self, other: &QuantizedMoeTimings)
        requires
            old(self).can_add(*other),
        ensures
            *final(self) == old(self).with(*other),
    {
        self.wall = self.wall + other.wall;
        self.router = self.router + other.router;
        self.top_k = self.top_k + other.top_k;
        self.expert_load = self.expert_load + other.expert_load;
        self.expert_compute = self.expert_compute + other.expert_compute;
        self.expert_gate_up = self.expert_gate_up + other.expert_gate_up;
        self.expert_activation = self.expert_activation + other.expert_activation;
        self.expert_down = self.expert_down + other.expert_down;
        self.expert_accumulation = self.expert_accumulation + other.expert_accumulation;
        self.shared_expert = self.shared_expert + other.shared_expert;
        self.routing.accumulate(&other.routing);
    }
}

impl Default for QuantizedMoeTimings {
    fn default() -> (timings: Self)
        ensures
            timings == QuantizedMoeTimings::none(),
    {
        QuantizedMoeTimings {
            wall: 0,
            router: 0,
            top_k: 0,
            expert_load: 0,
            expert_compute: 0,
            expert_gate_up: 0,
            expert_activation: 0,
            expert_down: 0,
            expert_accumulation: 0,
            shared_expert: 0,
            routing: QuantizedMoeRoutingStats::default(),
        }
    }
}

/// Where the time of one decoder layer went.
#[derive(Debug, Clone, Copy, PartialEq, Eq, Structural)]
pub struct QuantizedLayerTimings {
    pub layer: usize,
    pub layer_type: Option<LayerType>,
    pub wall: u128,
    pub normalization: u128,
    pub attention: QuantizedAttentionTimings,
    pub delta: QuantizedDeltaTimings,
    pub moe: QuantizedMoeTimings,
}

impl QuantizedLayerTimings {
    /// The sums of two timings. A layer that has no type yet takes number and
    /// type of the other.
    pub open spec fn with(self, other: QuantizedLayerTimings) -> QuantizedLayerTimings {
        QuantizedLayerTimings {
            layer: if self.layer_type is None {
                other.layer
            } else {
                self.layer
            },
            layer_type: if self.layer_type is None {
                other.layer_type
            } else {
                self.layer_type
            },
            wall: (self.wall + other.wall) as u128,
            normalization: (self.normalization + other.normalization) as u128,
            attention: self.attention.with(other.attention),
            delta: self.delta.with(other.delta),
            moe: self.moe.with(other.moe),
        }
    }

    /// Whether all sums are durations.
    pub open spec fn can_add(self, other: QuantizedLayerTimings) -> bool {
        &&& addable(self.wall, other.wall)
        &&& addable(self.normalization, other.normalization)
        &&& self.attention.can_add(other.attention)
        &&& self.delta.can_add(other.delta)
        &&& self.moe.can_add(other.moe)
    }

    /// No time at all, of no layer.
    pub open spec fn none() -> QuantizedLayerTimings {
        QuantizedLayerTimings {
            layer: 0,
            layer_type: None,
            wall: 0,
            normalization: 0,
            attention: QuantizedAttentionTimings::none(),
            delta: QuantizedDeltaTimings::none(),
            moe: QuantizedMoeTimings::none(),
        }
    }

    /// The parts of the wall time that are accounted for.
    pub open spec fn accounted(self) -> int {
        self.normalization + self.attention.wall + self.delta.wall + self.moe.wall
    }

    /// Adds another timing, part by part.
    pub fn accumulate(&mut self, other: &QuantizedLayerTimings)
        requires
            old(self).can_add(*other),
        ensures
            *final(self) == old(self).with(*other),
    {
        if self.layer_type.is_none() {
            self.layer = other.layer;
            self.layer_type = other.layer_type;
        }
        self.wall = self.wall + other.wall;
        self.normalization = self.normalization + other.normalization;
        self.attention.accumulate(&other.attention);
        self.delta.accumulate(&other.delta);
        self.moe.accumulate(&other.moe);
    }
}

impl Default for QuantizedLayerTimings {
    fn default() -> (timings: Self)
        ensures
            timings == QuantizedLayerTimings::none(),
    {
        QuantizedLayerTimings {
            layer: 0,
            layer_type: None,
            wall: 0,
            normalization: 0,
            attention: QuantizedAttentionTimings::default(),
            delta: QuantizedDeltaTimings::default(),
            moe: QuantizedMoeTimings::default(),
        }
    }
}

/// Where the time of a drafting pass went.
#[derive(Debug, Clone, Copy, PartialEq, Eq, Structural)]
pub struct QuantizedMtpTimings {
    pub wall: u128,
    pub input_projection: u128,
    pub layer: QuantizedLayerTimings,
    pub head_norm: u128,
    pub lm_head: u128,
}

impl QuantizedMtpTimings {
    /// The sums of two timings.
    pub open spec fn with(self, other: QuantizedMtpTimings) -> QuantizedMtpTimings {
        QuantizedMtpTimings {
            wall: (self.wall + other.wall) as u128,
            input_projection: (self.input_projection + other.input_projection) as u128,
            head_norm: (self.head_norm + other.head_norm) as u128,
            lm_head: (self.lm_head + other.lm_head) as u128,
            layer: self.layer.with(other.layer),
        }
    }

    /// Whether all sums are durations.
    pub open spec fn can_add(self, other: QuantizedMtpTimings) -> bool {
        &&& addable(self.wall, other.wall)
        &&& addable(self.input_projection, other.input_projection)
        &&& addable(self.head_norm, other.head_norm)
        &&& addable(self.lm_head, other.lm_head)
        &&& self.layer.can_add(other.layer)
    }

    /// No time at all.
    pub open spec fn none() -> QuantizedMtpTimings {
        QuantizedMtpTimings {
            wall: 0,
            input_projection: 0,
            head_norm: 0,
            lm_head: 0,
            layer: QuantizedLayerTimings::none(),
        }
    }

    /// Adds another timing, part by part.
    pub fn accumulate(&mut self, other: &QuantizedMtpTimings)
        requires
            old(self).can_add(*other),
        ensures
            *final(self) == old(self).with(*other),
    {
        self.wall = self.wall + other.wall;
        self.input_projection = self.input_projection + other.input_projection;
        self.head_norm = self.head_norm + other.head_norm;
        self.lm_head = self.lm_head + other.lm_head;
        self.layer.accumulate(&other.layer);
    }
}

impl Default for QuantizedMtpTimings {
    fn default() -> (timings: Self)
        ensures
            timings == QuantizedMtpTimings::none(),
    {
        QuantizedMtpTimings {
            wall: 0,
            input_projection: 0,
            head_norm: 0,
            lm_head: 0,
            layer: QuantizedLayerTimings::default(),
        }
    }
}

/// A duration less another, or none where that is longer.
pub open spec fn left_over(wall: u128, accounted: int) -> u128 {
    if wall >= accounted {
        (wall - accounted) as u128
    } else {
        0
    }
}

/// Where the time of a decoder pass went.
#[derive(Debug, Clone, PartialEq, Eq)]
pub struct QuantizedForwardTimings {
    pub wall: u128,
    pub embedding: u128,
    pub layers: Vec<u128>,
    pub layer_details: Vec<QuantizedLayerTimings>,
    pub final_norm: u128,
    pub lm_head: u128,
}

/// The sums of two lists of durations; the shorter one counts as filled up
/// with none.
pub open spec fn layer_sums(a: Seq<u128>, b: Seq<u128>) -> Seq<u128> {
    Seq::new(
        if a.len() > b.len() {
            a.len()
        } else {
            b.len()
        },
        |i: int|
            ((if i < a.len() {
                a[i]
            } else {
                0
            }) + (if i < b.len() {
                b[i]
            } else {
                0
            })) as u128,
    )
}

/// A layer of a list, or none where the list is shorter.
pub open spec fn detail_at(list: Seq<QuantizedLayerTimings>, i: int) -> QuantizedLayerTimings {
    if i < list.len() {
        list[i]
    } else {
        QuantizedLayerTimings::none()
    }
}

/// The sums of two lists of layers. A layer that only the first list has stays
/// as it is.
pub open spec fn detail_sums(
    a: Seq<QuantizedLayerTimings>,
    b: Seq<QuantizedLayerTimings>,
) -> Seq<QuantizedLayerTimings> {
    Seq::new(
        if a.len() > b.len() {
            a.len()
        } else {
            b.len()
        },
        |i: int|
            if i < b.len() {
                detail_at(a, i).with(b[i])
            } else {
                a[i]
            },
    )
}

/// The sum of the first `n` durations.
pub open spec fn nanos_of_first(list: Seq<u128>, n: int) -> int
    decreases n,
{
    if n <= 0 {
        0
    } else {
        nanos_of_first(list, n - 1) + list[n - 1]
    }
}

proof fn lemma_nanos_grow(list: Seq<u128>, i: int, j: int)
    requires
        i <= j,
    ensures
        0 <= nanos_of_first(list, i) <= nanos_of_first(list, j),
    decreases j,
{
    if j > 0 {
        if i < j {
            lemma_nanos_grow(list, i, j - 1);
        } else {
            lemma_nanos_grow(list, i - 1, j - 1);
        }
    }
}

impl QuantizedForwardTimings {
    /// Whether all sums are durations.
    pub open spec fn can_add(&self, other: &QuantizedForwardTimings) -> bool {
        &&& addable(self.wall, other.wall)
        &&& addable(self.embedding, other.embedding)
        &&& addable(self.final_norm, other.final_norm)
        &&& addable(self.lm_head, other.lm_head)
        &&& forall|i: int|
            0 <= i < self.layers@.len() && i < other.layers@.len() ==> addable(
                #[trigger] self.layers@[i],
                other.layers@[i],
            )
        &&& forall|i: int|
            0 <= i < other.layer_details@.len() ==> detail_at(self.layer_details@, i).can_add(
                #[trigger] other.layer_details@[i],
            )
        &&& forall|i: int| 0 <= i < other.layers@.len() ==> #[trigger] other.layers@[i] <= MAX_NANOS
    }

    /// Adds another timing, part by part and layer by layer.
    pub fn accumulate(&mut self, other: &QuantizedForwardTimings)
        requires
            old(self).can_add(other),
        ensures
            final(self).wall == old(self).wall + other.wall,
            final(self).embedding == old(self).embedding + other.embedding,
            final(self).layers@ == layer_sums(old(self).layers@, other.layers@),
            final(self).layer_details@ == detail_sums(
                old(self).layer_details@,
                other.layer_details@,
            ),
            final(self).final_norm == old(self).final_norm + other.final_norm,
            final(self).lm_head == old(self).lm_head + other.lm_head,
    {
        let ghost layers = self.layers@;
        let ghost details = self.layer_details@;
        self.wall = self.wall + other.wall;
        self.embedding = self.embedding + other.embedding;
        self.final_norm = self.final_norm + other.final_norm;
        self.lm_head = self.lm_head + other.lm_head;
        let mut i: usize = 0;
        while i < other.layers.len()
            invariant
                old(self).can_add(other),
                layers == old(self).layers@,
                details == old(self).layer_details@,
                self.wall == old(self).wall + other.wall,
                self.embedding == old(self).embedding + other.embedding,
                self.final_norm == old(self).final_norm + other.final_norm,
                self.lm_head == old(self).lm_head + other.lm_head,
                self.layer_details@ == details,
                i <= other.layers@.len(),
                self.layers@ == layer_sums(layers, other.layers@.take(i as int)),
            decreases other.layers@.len() - i,
        {
            if i < self.layers.len() {
                let sum: u128 = self.layers[i] + other.layers[i];
                self.layers.set(i, sum);
            } else {
                self.layers.push(other.layers[i]);
            }
            i += 1;
            proof {
                assert(self.layers@ =~= layer_sums(layers, other.layers@.take(i as int)));
            }
        }
        proof {
            assert(other.layers@.take(other.layers@.len() as int) =~= other.layers@);
        }
        let mut k: usize = 0;
        while k < other.layer_details.len()
            invariant
                old(self).can_add(other),
                layers == old(self).layers@,
                details == old(self).layer_details@,
                self.wall == old(self).wall + other.wall,
                self.embedding == old(self).embedding + other.embedding,
                self.final_norm == old(self).final_norm + other.final_norm,
                self.lm_head == old(self).lm_head + other.lm_head,
                self.layers@ == layer_sums(layers, other.layers@),
                k <= other.layer_details@.len(),
                self.layer_details@ == detail_sums(details, other.layer_details@.take(k as int)),
            decreases other.layer_details@.len() - k,
        {
            proof {
                assert(detail_at(details, k as int).can_add(other.layer_details@[k as int]));
            }
            if k < self.layer_details.len() {
                let mut sum: QuantizedLayerTimings = self.layer_details[k];
                sum.accumulate(&other.layer_details[k]);
                self.layer_details.set(k, sum);
            } else {
                let mut sum = QuantizedLayerTimings::default();
                sum.accumulate(&other.layer_details[k]);
                self.layer_details.push(sum);
            }
            k += 1;
            proof {
                assert(self.layer_details@ =~= detail_sums(
                    details,
                    other.layer_details@.take(k as int),
                ));
            }
        }
        proof {
            assert(other.layer_details@.take(other.layer_details@.len() as int)
                =~= other.layer_details@);
        }
    }

    /// The parts of the wall time that are accounted for.
    pub open spec fn accounted(&self) -> int {
        self.embedding + nanos_of_first(self.layers@, self.layers@.len() as int) + self.final_norm
            + self.lm_head
    }
}

impl Default for QuantizedForwardTimings {
    fn default() -> (timings: Self)
        ensures
            timings.wall == 0,
            timings.embedding == 0,
            timings.layers@ == Seq::<u128>::empty(),
            timings.layer_details@ == Seq::<QuantizedLayerTimings>::empty(),
            timings.final_norm == 0,
            timings.lm_head == 0,
    {
        QuantizedForwardTimings {
            wall: 0,
            embedding: 0,
            layers: Vec::new(),
            layer_details: Vec::new(),
            final_norm: 0,
            lm_head: 0,
        }
    }
}

/// Where the time of one decoder layer went, with what no part accounts for.
#[derive(Debug, Clone, Copy, PartialEq, Eq, Structural)]
pub struct QuantizedLayerTimingReport {
    pub layer: usize,
    pub layer_type: Option<LayerType>,
    pub wall_nanos: u128,
    pub normalization_nanos: u128,
    pub attention_nanos: u128,
    pub deltanet_nanos: u128,
    pub moe_nanos: u128,
    pub unattributed_nanos: u128,
    pub routing: QuantizedMoeRoutingStats,
}

/// The report of a layer.
pub open spec fn layer_report(t: QuantizedLayerTimings) -> QuantizedLayerTimingReport {
    QuantizedLayerTimingReport {
        layer: t.layer,
        layer_type: t.layer_type,
        wall_nanos: t.wall,
        normalization_nanos: t.normalization,
        attention_nanos: t.attention.wall,
        deltanet_nanos: t.delta.wall,
        moe_nanos: t.moe.wall,
        unattributed_nanos: left_over(t.wall, t.accounted()),
        routing: t.moe.routing,
    }
}

impl QuantizedLayerTimingReport {
    /// The report of a layer.
    pub fn of(timings: &QuantizedLayerTimings) -> (report: QuantizedLayerTimingReport)
        requires
            timings.accounted() <= MAX_NANOS,
        ensures
            report == layer_report(*timings),
    {
        let accounted: u128 = timings.normalization + timings.attention.wall + timings.delta.wall
            + timings.moe.wall;
        QuantizedLayerTimingReport {
            layer: timings.layer,
            layer_type: timings.layer_type,
            wall_nanos: timings.wall,
            normalization_nanos: timings.normalization,
            attention_nanos: timings.attention.wall,
            deltanet_nanos: timings.delta.wall,
            moe_nanos: timings.moe.wall,
            unattributed_nanos: timings.wall.saturating_sub(accounted),
            routing: timings.moe.routing,
        }
    }
}

/// The disjoint parts of a pass.
#[derive(Debug, Clone, Copy, PartialEq, Eq, Structural)]
pub struct QuantizedStageTimingReport {
    pub embedding_nanos: u128,
    pub normalization_nanos: u128,
    pub attention_nanos: u128,
    pub deltanet_nanos: u128,
    pub moe_nanos: u128,
    pub final_norm_nanos: u128,
    pub lm_head_nanos: u128,
}

/// What is nested within the parts of a pass.
#[derive(Debug, Clone, Copy, PartialEq, Eq, Structural)]
pub struct QuantizedOperationTimingReport {
    pub attention_projections_nanos: u128,
    pub attention_norm_rope_nanos: u128,
    pub attention_kernel_nanos: u128,
    pub attention_output_projection_nanos: u128,
    pub deltanet_projections_nanos: u128,
    pub deltanet_convolution_nanos: u128,
    pub deltanet_recurrence_nanos: u128,
    pub deltanet_gated_norm_nanos: u128,
    pub deltanet_output_projection_nanos: u128,
    pub deltanet_snapshot_nanos: u128,
    pub moe_router_nanos: u128,
    pub moe_top_k_nanos: u128,
    pub moe_expert_lookup_nanos: u128,
    pub moe_expert_compute_nanos: u128,
    pub moe_expert_gate_up_nanos: u128,
    pub moe_expert_activation_nanos: u128,
    pub moe_expert_down_nanos: u128,
    pub moe_expert_accumulation_nanos: u128,
    pub moe_shared_expert_nanos: u128,
}

/// Where the time of a decoder pass went, with what no part accounts for.
#[derive(Debug, Clone, PartialEq, Eq)]
pub struct QuantizedForwardTimingReport {
    pub wall_nanos: u128,
    pub accounted_nanos: u128,
    pub unattributed_nanos: u128,
    pub stages: QuantizedStageTimingReport,
    pub nested_operations: QuantizedOperationTimingReport,
    pub layers: Vec<QuantizedLayerTimingReport>,
}

/// The times that a report adds up over the layers.
pub open spec fn summed(list: Seq<QuantizedLayerTimings>, n: int) -> QuantizedLayerTimings
    decreases n,
{
    if n <= 0 {
        QuantizedLayerTimings::none()
    } else {
        summed(list, n - 1).with(list[n - 1])
    }
}

/// Whether the layers can be added up one after the other.
pub open spec fn summable(list: Seq<QuantizedLayerTimings>) -> bool {
    forall|n: int| 0 <= n < list.len() ==> summed(list, n).can_add(#[trigger] list[n])
}

impl QuantizedForwardTimings {
    /// Adds up where the time went.
    pub fn report(&self) -> (report: QuantizedForwardTimingReport)
        requires
            self.accounted() <= MAX_NANOS,
            summable(self.layer_details@),
            forall|i: int|
                0 <= i < self.layer_details@.len() ==> (#[trigger] self.layer_details@[i]).accounted()
                    <= MAX_NANOS,
        ensures
            ({
                let t = summed(self.layer_details@, self.layer_details@.len() as int);
                &&& report.wall_nanos == self.wall
                &&& report.accounted_nanos == self.accounted()
                &&& report.unattributed_nanos == left_over(self.wall, self.accounted())
                &&& report.stages == (QuantizedStageTimingReport {
                    embedding_nanos: self.embedding,
                    normalization_nanos: t.normalization,
                    attention_nanos: t.attention.wall,
                    deltanet_nanos: t.delta.wall,
                    moe_nanos: t.moe.wall,
                    final_norm_nanos: self.final_norm,
                    lm_head_nanos: self.lm_head,
                })
                &&& report.nested_operations == (QuantizedOperationTimingReport {
                    attention_projections_nanos: t.attention.projections,
                    attention_norm_rope_nanos: t.attention.norm_rope,
                    attention_kernel_nanos: t.attention.attention,
                    attention_output_projection_nanos: t.attention.output_projection,
                    deltanet_projections_nanos: t.delta.projections,
                    deltanet_convolution_nanos: t.delta.convolution,
                    deltanet_recurrence_nanos: t.delta.recurrence,
                    deltanet_gated_norm_nanos: t.delta.gated_norm,
                    deltanet_output_projection_nanos: t.delta.output_projection,
                    deltanet_snapshot_nanos: t.delta.snapshot,
                    moe_router_nanos: t.moe.router,
                    moe_top_k_nanos: t.moe.top_k,
                    moe_expert_lookup_nanos: t.moe.expert_load,
                    moe_expert_compute_nanos: t.moe.expert_compute,
                    moe_expert_gate_up_nanos: t.moe.expert_gate_up,
                    moe_expert_activation_nanos: t.moe.expert_activation,
                    moe_expert_down_nanos: t.moe.expert_down,
                    moe_expert_accumulation_nanos: t.moe.expert_accumulation,
                    moe_shared_expert_nanos: t.moe.shared_expert,
                })
                &&& report.layers@.len() == self.layer_details@.len()
                &&& forall|i: int|
                    0 <= i < report.layers@.len() ==> #[trigger] report.layers@[i] == layer_report(
                        self.layer_details@[i],
                    )
            }),
    {
        let mut layer_wall: u128 = 0;
        let mut i: usize = 0;
        while i < self.layers.len()
            invariant
                self.accounted() <= MAX_NANOS,
                i <= self.layers@.len(),
                layer_wall == nanos_of_first(self.layers@, i as int),
            decreases self.layers@.len() - i,
        {
            proof {
                lemma_nanos_grow(self.layers@, i + 1, self.layers@.len() as int);
            }
            layer_wall = layer_wall + self.layers[i];
            i += 1;
        }
        let accounted: u128 = self.embedding + layer_wall + self.final_norm + self.lm_head;
        let mut t = QuantizedLayerTimings::default();
        let mut layers: Vec<QuantizedLayerTimingReport> = Vec::new();
        let mut k: usize = 0;
        while k < self.layer_details.len()
            invariant
                summable(self.layer_details@),
                forall|i: int|
                    0 <= i < self.layer_details@.len() ==> (
                    #[trigger] self.layer_details@[i]).accounted() <= MAX_NANOS,
                k <= self.layer_details@.len(),
                t == summed(self.layer_details@, k as int),
                layers@.len() == k,
                forall|i: int|
                    0 <= i < k ==> #[trigger] layers@[i] == layer_report(self.layer_details@[i]),
            decreases self.layer_details@.len() - k,
        {
            proof {
                assert(summed(self.layer_details@, k as int).can_add(self.layer_details@[k as int]));
                assert(self.layer_details@[k as int].accounted() <= MAX_NANOS);
            }
            t.accumulate(&self.layer_details[k]);
            layers.push(QuantizedLayerTimingReport::of(&self.layer_details[k]));
            k += 1;
        }
        QuantizedForwardTimingReport {
            wall_nanos: self.wall,
            accounted_nanos: accounted,
            unattributed_nanos: self.wall.saturating_sub(accounted),
            stages: QuantizedStageTimingReport {
                embedding_nanos: self.embedding,
                normalization_nanos: t.normalization,
                attention_nanos: t.attention.wall,
                deltanet_nanos: t.delta.wall,
                moe_nanos: t.moe.wall,
                final_norm_nanos: self.final_norm,
                lm_head_nanos: self.lm_head,
            },
            nested_operations: QuantizedOperationTimingReport {
                attention_projections_nanos: t.attention.projections,
                attention_norm_rope_nanos: t.attention.norm_rope,
                attention_kernel_nanos: t.attention.attention,
                attention_output_projection_nanos: t.attention.output_projection,
                deltanet_projections_nanos: t.delta.projections,
                deltanet_convolution_nanos: t.delta.convolution,
                deltanet_recurrence_nanos: t.delta.recurrence,
                deltanet_gated_norm_nanos: t.delta.gated_norm,
                deltanet_output_projection_nanos: t.delta.output_projection,
                deltanet_snapshot_nanos: t.delta.snapshot,
                moe_router_nanos: t.moe.router,
                moe_top_k_nanos: t.moe.top_k,
                moe_expert_lookup_nanos: t.moe.expert_load,
                moe_expert_compute_nanos: t.moe.expert_compute,
                moe_expert_gate_up_nanos: t.moe.expert_gate_up,
                moe_expert_activation_nanos: t.moe.expert_activation,
                moe_expert_down_nanos: t.moe.expert_down,
                moe_expert_accumulation_nanos: t.moe.expert_accumulation,
                moe_shared_expert_nanos: t.moe.shared_expert,
            },
            layers,
        }
    }
}

/// The time of one layer of a reference pass.
#[derive(Debug, Clone, Copy, PartialEq, Eq, Structural)]
pub struct LayerTimings {
    pub layer: usize,
    pub layer_type: Option<LayerType>,
    pub wall: u128,
}

/// Timing data for one or more passes of the reference model.
#[derive(Debug, Clone, PartialEq, Eq)]
pub struct ForwardTimings {
    pub wall: u128,
    pub embedding: u128,
    pub normalization: u128,
    pub attention: u128,
    pub deltanet: u128,
    pub moe: u128,
    pub lm_head: u128,
    pub weight_load: u128,
    pub dtype_conversion: u128,
    pub matmul: u128,
    pub router: u128,
    pub top_k: u128,
    pub routed_experts: u128,
    pub shared_expert: u128,
    pub layers: Vec<LayerTimings>,
}

/// A layer's time with another one added.
pub open spec fn longer(a: LayerTimings, wall: u128) -> LayerTimings {
    LayerTimings { layer: a.layer, layer_type: a.layer_type, wall: (a.wall + wall) as u128 }
}

/// The layers of two passes together: those of the first, each with the time
/// of its counterpart added; those of the second where the first has none.
pub open spec fn merged_layers(a: Seq<LayerTimings>, b: Seq<LayerTimings>) -> Seq<LayerTimings> {
    if a.len() == 0 {
        b
    } else {
        Seq::new(
            a.len(),
            |i: int|
                if i < b.len() {
                    longer(a[i], b[i].wall)
                } else {
                    a[i]
                },
        )
    }
}

impl ForwardTimings {
    /// Whether all sums are durations.
    pub open spec fn can_add(&self, other: &ForwardTimings) -> bool {
        &&& addable(self.wall, other.wall)
        &&& addable(self.embedding, other.embedding)
        &&& addable(self.normalization, other.normalization)
        &&& addable(self.attention, other.attention)
        &&& addable(self.deltanet, other.deltanet)
        &&& addable(self.moe, other.moe)
        &&& addable(self.lm_head, other.lm_head)
        &&& addable(self.weight_load, other.weight_load)
        &&& addable(self.dtype_conversion, other.dtype_conversion)
        &&& addable(self.matmul, other.matmul)
        &&& addable(self.router, other.router)
        &&& addable(self.top_k, other.top_k)
        &&& addable(self.routed_experts, other.routed_experts)
        &&& addable(self.shared_expert, other.shared_expert)
        &&& forall|i: int|
            0 <= i < self.layers@.len() && i < other.layers@.len() ==> addable(
                (#[trigger] self.layers@[i]).wall,
                other.layers@[i].wall,
            )
    }

    /// Adds another timing, part by part and layer by layer.
    pub fn accumulate(&mut self, other: &ForwardTimings)
        requires
            old(self).can_add(other),
        ensures
            final(self).wall == old(self).wall + other.wall,
            final(self).embedding == old(self).embedding + other.embedding,
            final(self).normalization == old(self).normalization + other.normalization,
            final(self).attention == old(self).attention + other.attention,
            final(self).deltanet == old(self).deltanet + other.deltanet,
            final(self).moe == old(self).moe + other.moe,
            final(self).lm_head == old(self).lm_head + other.lm_head,
            final(self).weight_load == old(self).weight_load + other.weight_load,
            final(self).dtype_conversion == old(self).dtype_conversion + other.dtype_conversion,
            final(self).matmul == old(self).matmul + other.matmul,
            final(self).router == old(self).router + other.router,
            final(self).top_k == old(self).top_k + other.top_k,
            final(self).routed_experts == old(self).routed_experts + other.routed_experts,
            final(self).shared_expert == old(self).shared_expert + other.shared_expert,
            final(self).layers@ == merged_layers(old(self).layers@, other.layers@),
    {
        let ghost layers = self.layers@;
        if self.layers.len() == 0 {
            self.layers = crate::buffers::copied(other.layers.as_slice());
        } else {
            let mut i: usize = 0;
            while i < self.layers.len() && i < other.layers.len()
                invariant
                    old(self).can_add(other),
                    layers == old(self).layers@,
                    layers.len() > 0,
                    i <= layers.len(),
                    i <= other.layers@.len(),
                    self.layers@ == merged_layers(layers, other.layers@.take(i as int)),
                    self.wall == old(self).wall,
                    self.embedding == old(self).embedding,
                    self.normalization == old(self).normalization,
                    self.attention == old(self).attention,
                    self.deltanet == old(self).deltanet,
                    self.moe == old(self).moe,
                    self.lm_head == old(self).lm_head,
                    self.weight_load == old(self).weight_load,
                    self.dtype_conversion == old(self).dtype_conversion,
                    self.matmul == old(self).matmul,
                    self.router == old(self).router,
                    self.top_k == old(self).top_k,
                    self.routed_experts == old(self).routed_experts,
                    self.shared_expert == old(self).shared_expert,
                decreases layers.len() - i,
            {
                let mut sum: LayerTimings = self.layers[i];
                sum.wall = sum.wall + other.layers[i].wall;
                self.layers.set(i, sum);
                i += 1;
                proof {
                    assert(self.layers@ =~= merged_layers(layers, other.layers@.take(i as int)));
                }
            }
            proof {
                assert(self.layers@ =~= merged_layers(layers, other.layers@));
            }
        }
        self.wall = self.wall + other.wall;
        self.embedding = self.embedding + other.embedding;
        self.normalization = self.normalization + other.normalization;
        self.attention = self.attention + other.attention;
        self.deltanet = self.deltanet + other.deltanet;
        self.moe = self.moe + other.moe;
        self.lm_head = self.lm_head + other.lm_head;
        self.weight_load = self.weight_load + other.weight_load;
        self.dtype_conversion = self.dtype_conversion + other.dtype_conversion;
        self.matmul = self.matmul + other.matmul;
        self.router = self.router + other.router;
        self.top_k = self.top_k + other.top_k;
        self.routed_experts = self.routed_experts + other.routed_experts;
        self.shared_expert = self.shared_expert + other.shared_expert;
    }

    /// The parts of the wall time that are accounted for.
    pub open spec fn accounted(&self) -> int {
        self.embedding + self.normalization + self.attention + self.deltanet + self.moe
            + self.lm_head
    }

    /// Adds up where the time went.
    pub fn report(&self) -> (report: ForwardTimingReport)
        requires
            self.accounted() <= MAX_NANOS,
        ensures
            report.wall_nanos == self.wall,
            report.accounted_nanos == self.accounted(),
            report.unattributed_nanos == left_over(self.wall, self.accounted()),
            report.stages == (StageTimingReport {
                embedding_nanos: self.embedding,
                normalization_nanos: self.normalization,
                attention_nanos: self.attention,
                deltanet_nanos: self.deltanet,
                moe_nanos: self.moe,
                lm_head_nanos: self.lm_head,
            }),
            report.nested_operations == (OperationTimingReport {
                weight_load_nanos: self.weight_load,
                dtype_conversion_nanos: self.dtype_conversion,
                matmul_nanos: self.matmul,
                router_nanos: self.router,
                top_k_nanos: self.top_k,
                routed_experts_nanos: self.routed_experts,
                shared_expert_nanos: self.shared_expert,
            }),
            report.layers@ == self.layers@.map_values(|layer: LayerTimings| reported_layer(layer)),
    {
        let accounted: u128 = self.embedding + self.normalization + self.attention + self.deltanet
            + self.moe + self.lm_head;
        let mut layers: Vec<LayerTimingReport> = Vec::new();
        let count: usize = self.layers.len();
        let mut i: usize = 0;
        while i < count
            invariant
                i <= count,
                count == self.layers@.len(),
                layers@.len() == i,
                forall|k: int| 0 <= k < i ==> #[trigger] layers@[k] == reported_layer(self.layers@[k]),
            decreases count - i,
        {
            layers.push(
                LayerTimingReport {
                    layer: self.layers[i].layer,
                    layer_type: self.layers[i].layer_type,
                    wall_nanos: self.layers[i].wall,
                },
            );
            i += 1;
        }
        proof {
            assert(layers@ =~= self.layers@.map_values(
                |layer: LayerTimings| reported_layer(layer),
            ));
        }
        ForwardTimingReport {
            wall_nanos: self.wall,
            accounted_nanos: accounted,
            unattributed_nanos: self.wall.saturating_sub(accounted),
            stages: StageTimingReport {
                embedding_nanos: self.embedding,
                normalization_nanos: self.normalization,
                attention_nanos: self.attention,
                deltanet_nanos: self.deltanet,
                moe_nanos: self.moe,
                lm_head_nanos: self.lm_head,
            },
            nested_operations: OperationTimingReport {
                weight_load_nanos: self.weight_load,
                dtype_conversion_nanos: self.dtype_conversion,
                matmul_nanos: self.matmul,
                router_nanos: self.router,
                top_k_nanos: self.top_k,
                routed_experts_nanos: self.routed_experts,
                shared_expert_nanos: self.shared_expert,
            },
            layers,
        }
    }
}

/// The disjoint parts of a reference pass.
#[derive(Debug, Clone, Copy, PartialEq, Eq, Structural)]
pub struct StageTimingReport {
    pub embedding_nanos: u128,
    pub normalization_nanos: u128,
    pub attention_nanos: u128,
    pub deltanet_nanos: u128,
    pub moe_nanos: u128,
    pub lm_head_nanos: u128,
}

/// What is nested within the parts of a reference pass.
#[derive(Debug, Clone, Copy, PartialEq, Eq, Structural)]
pub struct OperationTimingReport {
    pub weight_load_nanos: u128,
    pub dtype_conversion_nanos: u128,
    pub matmul_nanos: u128,
    pub router_nanos: u128,
    pub top_k_nanos: u128,
    pub routed_experts_nanos: u128,
    pub shared_expert_nanos: u128,
}

/// The time of one layer of a reference pass.
#[derive(Debug, Clone, Copy, PartialEq, Eq, Structural)]
pub struct LayerTimingReport {
    pub layer: usize,
    pub layer_type: Option<LayerType>,
    pub wall_nanos: u128,
}

/// The report of a layer of a reference pass.
pub open spec fn reported_layer(layer: LayerTimings) -> LayerTimingReport {
    LayerTimingReport { layer: layer.layer, layer_type: layer.layer_type, wall_nanos: layer.wall }
}

/// Where the time of a reference pass went, with what no stage accounts for.
#[derive(Debug, Clone, PartialEq, Eq)]
pub struct ForwardTimingReport {
    pub wall_nanos: u128,
    pub accounted_nanos: u128,
    pub unattributed_nanos: u128,
    pub stages: StageTimingReport,
    pub nested_operations: OperationTimingReport,
    pub layers: Vec<LayerTimingReport>,
}

impl Default for ForwardTimings {
    fn default() -> (timings: Self)
        ensures
            timings.wall == 0,
            timings.embedding == 0,
            timings.normalization == 0,
            timings.attention == 0,
            timings.deltanet == 0,
            timings.moe == 0,
            timings.lm_head == 0,
            timings.weight_load == 0,
            timings.dtype_conversion == 0,
            timings.matmul == 0,
            timings.router == 0,
            timings.top_k == 0,
            timings.routed_experts == 0,
            timings.shared_expert == 0,
            timings.layers@ == Seq::<LayerTimings>::empty(),
    {
        ForwardTimings {
            wall: 0,
            embedding: 0,
            normalization: 0,
            attention: 0,
            deltanet: 0,
            moe: 0,
            lm_head: 0,
            weight_load: 0,
            dtype_conversion: 0,
            matmul: 0,
            router: 0,
            top_k: 0,
            routed_experts: 0,
            shared_expert: 0,
            layers: Vec::new(),
        }
    }
}

/// No part of two timings is lost: nothing adds nothing, the order does not matter,
/// and what was added can be told from the sum.
pub proof fn attention_timings_add_up(a: QuantizedAttentionTimings, b: QuantizedAttentionTimings, c: QuantizedAttentionTimings)
    requires
        a.can_add(b),
        a.can_add(c),
        b.can_add(a),
    ensures
        a.with(QuantizedAttentionTimings::none()) == a,
        a.with(b) == b.with(a),
        a.with(b) == a.with(c) ==> b == c,
{
}

/// No part of two timings is lost, as of [`attention_timings_add_up`].
pub proof fn delta_timings_add_up(a: QuantizedDeltaTimings, b: QuantizedDeltaTimings, c: QuantizedDeltaTimings)
    requires
        a.can_add(b),
        a.can_add(c),
        b.can_add(a),
    ensures
        a.with(QuantizedDeltaTimings::none()) == a,
        a.with(b) == b.with(a),
        a.with(b) == a.with(c) ==> b == c,
{
}

/// The counts of two statistics add up, and of their busiest experts the busier
/// one stays.
pub proof fn routing_counts_add_up(
    a: QuantizedMoeRoutingStats,
    b: QuantizedMoeRoutingStats,
    c: QuantizedMoeRoutingStats,
)
    requires
        a.can_add(b),
        a.can_add(c),
        b.can_add(a),
    ensures
        a.with(QuantizedMoeRoutingStats::none()) == a,
        a.with(b) == b.with(a),
        a.with(b).max_rows_per_expert >= a.max_rows_per_expert,
        a.with(b).max_rows_per_expert >= b.max_rows_per_expert,
        a.with(b).max_rows_per_expert == a.max_rows_per_expert || a.with(b).max_rows_per_expert
            == b.max_rows_per_expert,
        a.with(b) == a.with(c) ==> b.batches == c.batches && b.rows == c.rows
            && b.token_expert_assignments == c.token_expert_assignments
            && b.unique_experts_selected == c.unique_experts_selected,
{
}

/// No part of two timings is lost, as of [`attention_timings_add_up`], but for the
/// busier of the two busiest experts.
pub proof fn moe_timings_add_up(
    a: QuantizedMoeTimings,
    b: QuantizedMoeTimings,
    c: QuantizedMoeTimings,
)
    requires
        a.can_add(b),
        a.can_add(c),
        b.can_add(a),
    ensures
        a.with(QuantizedMoeTimings::none()) == a,
        a.with(b) == b.with(a),
        a.with(b) == a.with(c) ==> (QuantizedMoeTimings { routing: c.routing, ..b }) == c,
        a.with(b).routing == a.routing.with(b.routing),
{
}

/// The parts of a layer add up on their own, and a layer keeps its number and its
/// type.
pub proof fn layer_timings_add_up(a: QuantizedLayerTimings, b: QuantizedLayerTimings)
    requires
        a.can_add(b),
    ensures
        a.with(b).wall == a.wall + b.wall,
        a.with(b).normalization == a.normalization + b.normalization,
        a.with(b).attention == a.attention.with(b.attention),
        a.with(b).delta == a.delta.with(b.delta),
        a.with(b).moe == a.moe.with(b.moe),
        a.layer_type is Some ==> a.with(b).layer == a.layer && a.with(b).layer_type == a.layer_type,
        a.layer_type is None ==> a.with(b).layer == b.layer && a.with(b).layer_type == b.layer_type,
{
}

/// A layer's report accounts for all of its wall time, as far as its parts do not
/// take longer.
pub proof fn a_layer_report_accounts_for_the_wall_time(t: QuantizedLayerTimings)
    ensures
        ({
            let r = layer_report(t);
            let parts = r.normalization_nanos + r.attention_nanos + r.deltanet_nanos + r.moe_nanos;
            &&& r.wall_nanos == t.wall
            &&& parts <= r.wall_nanos ==> parts + r.unattributed_nanos == r.wall_nanos
            &&& parts > r.wall_nanos ==> r.unattributed_nanos == 0
            &&& r.attention_nanos == t.attention.wall
            &&& r.deltanet_nanos == t.delta.wall
            &&& r.moe_nanos == t.moe.wall
            &&& r.normalization_nanos == t.normalization
            &&& r.layer == t.layer
            &&& r.layer_type == t.layer_type
            &&& r.routing == t.moe.routing
        }),
{
}

} // verus!
