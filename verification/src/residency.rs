//! Reusable expert residency preparation for quantized execution.
//!
//! Every fused expert tensor is visited in the order of the file, so that a
//! disk reads forwards. With an expert cache every expert is pinned, and then
//! gate and up matrices of each layer are combined; without one the same
//! visits only warm the page cache of the operating system.

use crate::config::Qwen3NextConfig;
use crate::gguf::{lemma_tensor_of, tensor_of, GgufCheckpoint, HeaderTensor};
use crate::order::{arranges, order_by_key};
use crate::text::{decimal, decimal_text, joined};
use vstd::prelude::*;

verus! {

/// Where warmed experts end up.
#[derive(Debug, Clone, Copy, PartialEq, Eq, Structural)]
pub enum FullExpertWarmupMode {
    OsPageCache,
    PinnedExpertCache,
}

/// How far a warmup has come.
#[derive(Debug, Clone, Copy, PartialEq, Eq, Structural)]
pub struct FullExpertWarmupProgress {
    pub tensors_completed: usize,
    pub tensors_total: usize,
    pub bytes_loaded: usize,
    pub bytes_total: usize,
}

/// What a warmup did. `cache` is what the expert cache counted meanwhile.
#[derive(Debug, Clone, PartialEq, Eq)]
pub struct FullExpertWarmupReport<C> {
    pub mode: FullExpertWarmupMode,
    pub tensor_count: usize,
    pub bytes_loaded: usize,
    pub elapsed_nanos: u128,
    pub cache: C,
}

/// Why a warmup stops.
#[derive(Debug, Clone, PartialEq, Eq)]
pub enum WarmupError {
    /// An expert tensor is missing.
    MissingTensor { name: String },
    /// The number of bytes does not fit the machine.
    TooLarge,
    /// The cache cannot hold every expert.
    CacheTooSmall { needed: usize, configured: usize },
    /// A tensor gave another number of bytes than its size.
    ByteCountChanged { name: String, expected: usize, found: usize },
}

/// The part of an expert tensor's name behind its layer: gate, up and down.
pub open spec fn part_name(part: int) -> Seq<char> {
    if part == 0 {
        ".ffn_gate_exps.weight"@
    } else if part == 1 {
        ".ffn_up_exps.weight"@
    } else {
        ".ffn_down_exps.weight"@
    }
}

/// The name of one expert tensor of a layer.
pub open spec fn expert_tensor_name(layer: int, part: int) -> Seq<char> {
    "blk."@ + decimal(layer as nat) + part_name(part)
}

/// The name of the i-th expert tensor: gate, up and down of each layer.
pub open spec fn listed_name(i: int) -> Seq<char> {
    expert_tensor_name(i / 3, i % 3)
}

/// The name of one expert tensor of a layer.
fn tensor_name(layer: usize, part: usize) -> (name: String)
    ensures
        name@ == expert_tensor_name(layer as int, part as int),
{
    let start = joined("blk.", decimal_text(layer).as_str());
    if part == 0 {
        joined(start.as_str(), ".ffn_gate_exps.weight")
    } else if part == 1 {
        joined(start.as_str(), ".ffn_up_exps.weight")
    } else {
        joined(start.as_str(), ".ffn_down_exps.weight")
    }
}

/// One tensor to visit.
#[derive(Debug, Clone, PartialEq, Eq)]
pub struct WarmTensor {
    pub offset: u64,
    pub name: String,
    pub bytes: usize,
}

impl WarmTensor {
    /// Whether this is a tensor of a header whose data section starts at
    /// `data`.
    pub open spec fn is_of(&self, tensor: HeaderTensor, data: u64) -> bool {
        &&& self.name@ == tensor.name@
        &&& self.offset == data + tensor.offset
        &&& self.bytes == tensor.data_bytes()
    }
}

/// The bytes of the first `n` tensors.
pub open spec fn bytes_of_first(tensors: Seq<WarmTensor>, n: int) -> nat
    decreases n,
{
    if n <= 0 {
        0
    } else {
        bytes_of_first(tensors, n - 1) + tensors[n - 1].bytes as nat
    }
}

proof fn lemma_bytes_grow(tensors: Seq<WarmTensor>, i: int, j: int)
    requires
        i <= j,
    ensures
        bytes_of_first(tensors, i) <= bytes_of_first(tensors, j),
    decreases j,
{
    if i < j && j > 0 {
        lemma_bytes_grow(tensors, i, j - 1);
    }
}

/// The tensors to visit, in the order of the file.
#[derive(Debug, Clone, PartialEq, Eq)]
pub struct WarmupPlan {
    pub layers: usize,
    pub tensors: Vec<WarmTensor>,
    pub total_bytes: usize,
}

/// Whether this is the i-th expert tensor.
pub open spec fn is_listed(tensor: WarmTensor, checkpoint: GgufCheckpoint, i: int) -> bool {
    match tensor_of(checkpoint.tensors@, listed_name(i)) {
        Some(t) => tensor.is_of(t, checkpoint.tensor_data_offset),
        None => false,
    }
}

/// Whether the visits are the expert tensors of the layers in the given order,
/// and that is the order of the file.
pub open spec fn visits_experts(
    tensors: Seq<WarmTensor>,
    layers: int,
    checkpoint: GgufCheckpoint,
    order: Seq<usize>,
) -> bool {
    &&& arranges(order, (3 * layers) as nat)
    &&& tensors.len() == 3 * layers
    &&& forall|i: int|
        0 <= i < tensors.len() ==> is_listed(#[trigger] tensors[i], checkpoint, order[i] as int)
    &&& forall|i: int, j: int|
        0 <= i < j < tensors.len() ==> (#[trigger] tensors[i]).offset <= (
        #[trigger] tensors[j]).offset
}

/// Whether the visits are the expert tensors of the layers, in the order of
/// the file.
pub open spec fn visits_all_experts(
    tensors: Seq<WarmTensor>,
    layers: int,
    checkpoint: GgufCheckpoint,
) -> bool {
    exists|order: Seq<usize>| #[trigger] visits_experts(tensors, layers, checkpoint, order)
}

/// Whether the expert tensors of the layers together take more bytes than the
/// machine can count.
pub open spec fn experts_too_large(layers: int, checkpoint: GgufCheckpoint) -> bool {
    exists|tensors: Seq<WarmTensor>|
        {
            &&& #[trigger] visits_all_experts(tensors, layers, checkpoint)
            &&& bytes_of_first(tensors, tensors.len() as int) > usize::MAX
        }
}

impl WarmupPlan {
    /// The total is the sum of the bytes of the tensors.
    pub open spec fn wf(&self) -> bool {
        &&& self.total_bytes == bytes_of_first(self.tensors@, self.tensors@.len() as int)
        &&& self.tensors@.len() == 3 * self.layers
    }
}

/// Every expert tensor up to the n-th is there.
pub open spec fn experts_present(checkpoint: GgufCheckpoint, n: int) -> bool {
    forall|i: int|
        0 <= i < n ==> tensor_of(checkpoint.tensors@, #[trigger] listed_name(i)) is Some
}

/// Whether the i-th expert tensor is the first one that is missing, and has
/// the given name.
pub open spec fn missing_at(
    checkpoint: GgufCheckpoint,
    layers: int,
    i: int,
    name: Seq<char>,
) -> bool {
    &&& 0 <= i < 3 * layers
    &&& name == listed_name(i)
    &&& tensor_of(checkpoint.tensors@, name) is None
    &&& experts_present(checkpoint, i)
}

/// Whether the first expert tensor that is missing has the given name.
pub open spec fn first_missing_expert(
    checkpoint: GgufCheckpoint,
    layers: int,
    name: Seq<char>,
) -> bool {
    exists|i: int| #[trigger] missing_at(checkpoint, layers, i, name)
}

/// Whether these are the expert tensors in the order of their layers.
spec fn lists_experts(found: Seq<WarmTensor>, checkpoint: GgufCheckpoint, n: int) -> bool {
    &&& found.len() == n
    &&& forall|i: int| 0 <= i < n ==> is_listed(#[trigger] found[i], checkpoint, i)
}

/// The expert tensors of the layers, layer by layer.
fn listed_experts(checkpoint: &GgufCheckpoint, layers: usize) -> (found: Result<
    Vec<WarmTensor>,
    String,
>)
    requires
        3 * layers <= usize::MAX,
        forall|i: int|
            0 <= i < checkpoint.tensors@.len() ==> (#[trigger] checkpoint.tensors@[i]).fits(
                checkpoint.tensor_data_offset,
            ),
    ensures
        match found {
            Ok(found) => lists_experts(found@, *checkpoint, 3 * layers),
            Err(name) => first_missing_expert(*checkpoint, layers as int, name@),
        },
{
    let mut found: Vec<WarmTensor> = Vec::new();
    let mut layer: usize = 0;
    while layer < layers
        invariant
            layer <= layers,
            3 * layers <= usize::MAX,
            forall|i: int|
                0 <= i < checkpoint.tensors@.len() ==> (#[trigger] checkpoint.tensors@[i]).fits(
                    checkpoint.tensor_data_offset,
                ),
            lists_experts(found@, *checkpoint, 3 * layer),
            experts_present(*checkpoint, 3 * layer),
        decreases layers - layer,
    {
        let mut part: usize = 0;
        while part < 3
            invariant
                layer < layers,
                part <= 3,
                3 * layers <= usize::MAX,
                forall|i: int|
                    0 <= i < checkpoint.tensors@.len() ==> (#[trigger] checkpoint.tensors@[i]).fits(
                        checkpoint.tensor_data_offset,
                    ),
                lists_experts(found@, *checkpoint, 3 * layer + part),
                experts_present(*checkpoint, 3 * layer + part),
            decreases 3 - part,
        {
            let name = tensor_name(layer, part);
            let ghost i = 3 * layer + part;
            proof {
                assert(i / 3 == layer && i % 3 == part);
                assert(name@ == listed_name(i));
                lemma_tensor_of(checkpoint.tensors@, name@);
            }
            match checkpoint.tensor_info(name.as_str()) {
                None => {
                    proof {
                        assert(missing_at(*checkpoint, layers as int, i, name@));
                    }
                    return Err(name);
                },
                Some(info) => {
                    let ghost before = found@;
                    let tensor = WarmTensor { offset: info.offset, name, bytes: info.storage_bytes };
                    found.push(tensor);
                    proof {
                        assert forall|k: int| 0 <= k < i + 1 implies is_listed(
                            #[trigger] found@[k],
                            *checkpoint,
                            k,
                        ) by {
                            if k < i {
                                assert(found@[k] == before[k]);
                            }
                        }
                        assert forall|k: int| 0 <= k < i + 1 implies tensor_of(
                            checkpoint.tensors@,
                            #[trigger] listed_name(k),
                        ) is Some by {
                            if k < i {
                                assert(tensor_of(checkpoint.tensors@, listed_name(k)) is Some);
                            }
                        }
                    }
                },
            }
            part += 1;
        }
        layer += 1;
    }
    Ok(found)
}

/// The tensors in the order of the file.
fn in_file_order(
    found: &Vec<WarmTensor>,
    layers: usize,
    Ghost(checkpoint): Ghost<GgufCheckpoint>,
) -> (tensors: Vec<WarmTensor>)
    requires
        lists_experts(found@, checkpoint, 3 * layers),
    ensures
        visits_all_experts(tensors@, layers as int, checkpoint),
{
    let mut offsets: Vec<u64> = Vec::new();
    let mut i: usize = 0;
    while i < found.len()
        invariant
            i <= found@.len(),
            offsets@.len() == i,
            forall|j: int| 0 <= j < i ==> #[trigger] offsets@[j] == found@[j].offset,
        decreases found@.len() - i,
    {
        offsets.push(found[i].offset);
        i += 1;
    }
    let order = order_by_key(offsets.as_slice());
    let mut tensors: Vec<WarmTensor> = Vec::new();
    let mut k: usize = 0;
    while k < order.len()
        invariant
            k <= order@.len(),
            arranges(order@, found@.len()),
            tensors@.len() == k,
            forall|i: int| #![trigger tensors@[i]]
                0 <= i < k ==> {
                    &&& tensors@[i].name@ == found@[order@[i] as int].name@
                    &&& tensors@[i].offset == found@[order@[i] as int].offset
                    &&& tensors@[i].bytes == found@[order@[i] as int].bytes
                },
        decreases order@.len() - k,
    {
        let tensor = &found[order[k]];
        tensors.push(
            WarmTensor { offset: tensor.offset, name: tensor.name.clone(), bytes: tensor.bytes },
        );
        k += 1;
    }
    proof {
        assert forall|i: int| 0 <= i < tensors@.len() implies is_listed(
            #[trigger] tensors@[i],
            checkpoint,
            order@[i] as int,
        ) by {
            assert(is_listed(found@[order@[i] as int], checkpoint, order@[i] as int));
        }
        assert forall|i: int, j: int| 0 <= i < j < tensors@.len() implies (
        #[trigger] tensors@[i]).offset <= (#[trigger] tensors@[j]).offset by {
            assert(offsets@[order@[i] as int] <= offsets@[order@[j] as int]);
        }
        assert(arranges(order@, (3 * layers) as nat));
        assert(visits_experts(tensors@, layers as int, checkpoint, order@));
    }
    tensors
}

/// The bytes of the tensors together, where they can be counted.
fn counted_bytes(tensors: &Vec<WarmTensor>) -> (total: Option<usize>)
    ensures
        match total {
            Some(total) => total == bytes_of_first(tensors@, tensors@.len() as int),
            None => bytes_of_first(tensors@, tensors@.len() as int) > usize::MAX,
        },
{
    let mut total: usize = 0;
    let mut n: usize = 0;
    while n < tensors.len()
        invariant
            n <= tensors@.len(),
            total == bytes_of_first(tensors@, n as int),
        decreases tensors@.len() - n,
    {
        match total.checked_add(tensors[n].bytes) {
            Some(sum) => {
                total = sum;
            },
            None => {
                proof {
                    lemma_bytes_grow(tensors@, n + 1, tensors@.len() as int);
                }
                return None;
            },
        }
        n += 1;
    }
    Some(total)
}

/// Finds the expert tensors of every layer, heads for drafting included, and
/// puts them in the order of the file.
pub fn plan_warmup(checkpoint: &GgufCheckpoint, config: &Qwen3NextConfig) -> (plan: Result<
    WarmupPlan,
    WarmupError,
>)
    requires
        3 * (config.num_hidden_layers + config.mtp_num_hidden_layers) <= usize::MAX,
        forall|i: int|
            0 <= i < checkpoint.tensors@.len() ==> (#[trigger] checkpoint.tensors@[i]).fits(
                checkpoint.tensor_data_offset,
            ),
    ensures
        match plan {
            Ok(plan) => {
                &&& plan.wf()
                &&& plan.layers == config.num_hidden_layers + config.mtp_num_hidden_layers
                &&& visits_all_experts(plan.tensors@, plan.layers as int, *checkpoint)
            },
            Err(WarmupError::MissingTensor { name }) => first_missing_expert(
                *checkpoint,
                config.num_hidden_layers + config.mtp_num_hidden_layers,
                name@,
            ),
            Err(WarmupError::TooLarge) => experts_too_large(
                config.num_hidden_layers + config.mtp_num_hidden_layers,
                *checkpoint,
            ),
            Err(_) => false,
        },
{
    let layers: usize = config.num_hidden_layers + config.mtp_num_hidden_layers;
    let found = match listed_experts(checkpoint, layers) {
        Ok(found) => found,
        Err(name) => {
            return Err(WarmupError::MissingTensor { name });
        },
    };
    let tensors = in_file_order(&found, layers, Ghost(*checkpoint));
    proof {
        let order = choose|order: Seq<usize>| #[trigger]
            visits_experts(tensors@, layers as int, *checkpoint, order);
        assert(tensors@.len() == 3 * layers);
    }
    match counted_bytes(&tensors) {
        Some(total_bytes) => Ok(WarmupPlan { layers, tensors, total_bytes }),
        None => {
            proof {
                assert(experts_too_large(layers as int, *checkpoint));
            }
            Err(WarmupError::TooLarge)
        },
    }
}

/// How far the visits have come.
#[derive(Debug, Clone, Copy, PartialEq, Eq, Structural)]
pub enum WarmupPhase {
    /// In the given tensor `steps` visits are done, which gave `bytes`.
    Loading { tensor: usize, steps: usize, bytes: usize },
    /// Gate and up matrices of the layers before `layer` are combined.
    Fusing { layer: usize },
    /// Everything is resident, and the cache is to be told so.
    Sealing,
    Finished,
}

/// What is to be done next.
#[derive(Debug, Clone, PartialEq, Eq)]
pub enum WarmupAction {
    /// Read the pages of a tensor, and report its bytes.
    WarmPages { name: String },
    /// Pin one expert of a tensor, and report its bytes.
    PinExpert { name: String, expert: usize },
    /// Close a tensor that is visited.
    CloseTensor,
    /// Combine gate and up matrices of a layer.
    Fuse { gate: String, up: String },
    /// Tell the cache that everything is resident.
    Seal,
    Finished,
}

/// A warmup under way.
#[derive(Debug, Clone)]
pub struct Warmup {
    pub plan: WarmupPlan,
    pub mode: FullExpertWarmupMode,
    pub experts: usize,
    pub loaded: usize,
    pub phase: WarmupPhase,
}

impl Warmup {
    /// The number of visits that one tensor takes.
    pub open spec fn visits(&self) -> int {
        match self.mode {
            FullExpertWarmupMode::PinnedExpertCache => self.experts as int,
            FullExpertWarmupMode::OsPageCache => 1,
        }
    }

    /// What follows the last tensor.
    pub open spec fn after_loading(&self) -> WarmupPhase {
        match self.mode {
            FullExpertWarmupMode::OsPageCache => WarmupPhase::Finished,
            FullExpertWarmupMode::PinnedExpertCache => if self.plan.layers == 0 {
                WarmupPhase::Sealing
            } else {
                WarmupPhase::Fusing { layer: 0 }
            },
        }
    }

    /// The phase in which the given tensor is visited, or what follows the
    /// last one.
    pub open spec fn loading(&self, tensor: int) -> WarmupPhase {
        if tensor < self.plan.tensors@.len() {
            WarmupPhase::Loading { tensor: tensor as usize, steps: 0, bytes: 0 }
        } else {
            self.after_loading()
        }
    }

    /// What was loaded is the bytes of the tensors that are closed.
    pub open spec fn wf(&self) -> bool {
        &&& self.plan.wf()
        &&& match self.phase {
            WarmupPhase::Loading { tensor, steps, bytes } => {
                &&& tensor < self.plan.tensors@.len()
                &&& steps <= self.visits()
                &&& self.loaded == bytes_of_first(self.plan.tensors@, tensor as int)
            },
            WarmupPhase::Fusing { layer } => {
                &&& layer < self.plan.layers
                &&& self.loaded == self.plan.total_bytes
            },
            _ => self.loaded == self.plan.total_bytes,
        }
    }

    /// Begins a warmup. A cache with any capacity must hold every expert.
    pub fn begin(plan: WarmupPlan, capacity_bytes: usize, experts: usize) -> (warmup: Result<
        Warmup,
        WarmupError,
    >)
        requires
            plan.wf(),
        ensures
            match warmup {
                Ok(warmup) => {
                    &&& warmup.wf()
                    &&& warmup.plan == plan
                    &&& warmup.experts == experts
                    &&& warmup.loaded == 0
                    &&& warmup.phase == warmup.loading(0)
                    &&& capacity_bytes == 0 || capacity_bytes >= plan.total_bytes
                    &&& warmup.mode == if capacity_bytes > 0 {
                        FullExpertWarmupMode::PinnedExpertCache
                    } else {
                        FullExpertWarmupMode::OsPageCache
                    }
                },
                Err(error) => {
                    &&& 0 < capacity_bytes < plan.total_bytes
                    &&& error == WarmupError::CacheTooSmall {
                        needed: plan.total_bytes,
                        configured: capacity_bytes,
                    }
                },
            },
    {
        if capacity_bytes > 0 && capacity_bytes < plan.total_bytes {
            return Err(
                WarmupError::CacheTooSmall {
                    needed: plan.total_bytes,
                    configured: capacity_bytes,
                },
            );
        }
        let mode = if capacity_bytes > 0 {
            FullExpertWarmupMode::PinnedExpertCache
        } else {
            FullExpertWarmupMode::OsPageCache
        };
        let phase = if plan.tensors.len() > 0 {
            WarmupPhase::Loading { tensor: 0, steps: 0, bytes: 0 }
        } else if capacity_bytes == 0 {
            WarmupPhase::Finished
        } else if plan.layers == 0 {
            WarmupPhase::Sealing
        } else {
            WarmupPhase::Fusing { layer: 0 }
        };
        Ok(Warmup { plan, mode, experts, loaded: 0, phase })
    }

    /// What is to be done next.
    pub fn action(&self) -> (action: WarmupAction)
        requires
            self.wf(),
        ensures
            match self.phase {
                WarmupPhase::Loading { tensor, steps, bytes } => if steps < self.visits() {
                    match self.mode {
                        FullExpertWarmupMode::OsPageCache => action matches WarmupAction::WarmPages {
                            name,
                        } && name@ == self.plan.tensors@[tensor as int].name@,
                        FullExpertWarmupMode::PinnedExpertCache => {
                            &&& action matches WarmupAction::PinExpert { name, expert }
                            &&& name@ == self.plan.tensors@[tensor as int].name@
                            &&& expert == steps
                        },
                    }
                } else {
                    action == WarmupAction::CloseTensor
                },
                WarmupPhase::Fusing { layer } => {
                    &&& action matches WarmupAction::Fuse { gate, up }
                    &&& gate@ == expert_tensor_name(layer as int, 0)
                    &&& up@ == expert_tensor_name(layer as int, 1)
                },
                WarmupPhase::Sealing => action == WarmupAction::Seal,
                WarmupPhase::Finished => action == WarmupAction::Finished,
            },
    {
        match self.phase {
            WarmupPhase::Loading { tensor, steps, bytes: _ } => match self.mode {
                FullExpertWarmupMode::OsPageCache => if steps < 1 {
                    WarmupAction::WarmPages { name: self.plan.tensors[tensor].name.clone() }
                } else {
                    WarmupAction::CloseTensor
                },
                FullExpertWarmupMode::PinnedExpertCache => if steps < self.experts {
                    WarmupAction::PinExpert {
                        name: self.plan.tensors[tensor].name.clone(),
                        expert: steps,
                    }
                } else {
                    WarmupAction::CloseTensor
                },
            },
            WarmupPhase::Fusing { layer } => WarmupAction::Fuse {
                gate: tensor_name(layer, 0),
                up: tensor_name(layer, 1),
            },
            WarmupPhase::Sealing => WarmupAction::Seal,
            WarmupPhase::Finished => WarmupAction::Finished,
        }
    }

    /// Takes the bytes that one visit gave.
    pub fn visited(&mut self, found: usize) -> (result: Result<(), WarmupError>)
        requires
            old(self).wf(),
            old(self).phase matches WarmupPhase::Loading { tensor, steps, bytes } && steps < old(
                self,
            ).visits(),
        ensures
            final(self).wf(),
            final(self).plan == old(self).plan,
            final(self).mode == old(self).mode,
            final(self).experts == old(self).experts,
            final(self).loaded == old(self).loaded,
            old(self).phase matches WarmupPhase::Loading { tensor, steps, bytes } && if bytes
                + found <= usize::MAX {
                result is Ok && final(self).phase == (WarmupPhase::Loading {
                    tensor,
                    steps: (steps + 1) as usize,
                    bytes: (bytes + found) as usize,
                })
            } else {
                result == Err::<(), WarmupError>(WarmupError::TooLarge) && final(self).phase == old(
                    self,
                ).phase
            },
    {
        if let WarmupPhase::Loading { tensor, steps, bytes } = self.phase {
            match bytes.checked_add(found) {
                Some(sum) => {
                    self.phase = WarmupPhase::Loading { tensor, steps: steps + 1, bytes: sum };
                    Ok(())
                },
                None => Err(WarmupError::TooLarge),
            }
        } else {
            Ok(())
        }
    }

    /// Closes a tensor: its visits must have given as many bytes as it holds.
    pub fn close_tensor(&mut self) -> (progress: Result<FullExpertWarmupProgress, WarmupError>)
        requires
            old(self).wf(),
            old(self).phase matches WarmupPhase::Loading { tensor, steps, bytes } && steps == old(
                self,
            ).visits(),
        ensures
            final(self).wf(),
            final(self).plan == old(self).plan,
            final(self).mode == old(self).mode,
            final(self).experts == old(self).experts,
            old(self).phase matches WarmupPhase::Loading { tensor, steps, bytes } && ({
                let expected = old(self).plan.tensors@[tensor as int].bytes;
                if bytes == expected {
                    &&& final(self).loaded == old(self).loaded + bytes
                    &&& final(self).phase == old(self).loading(tensor + 1)
                    &&& progress == Ok::<FullExpertWarmupProgress, WarmupError>(
                        FullExpertWarmupProgress {
                            tensors_completed: (tensor + 1) as usize,
                            tensors_total: old(self).plan.tensors@.len() as usize,
                            bytes_loaded: final(self).loaded,
                            bytes_total: old(self).plan.total_bytes,
                        },
                    )
                } else {
                    &&& final(self).loaded == old(self).loaded
                    &&& final(self).phase == old(self).phase
                    &&& progress matches Err(
                        WarmupError::ByteCountChanged { name, expected: e, found },
                    )
                    &&& name@ == old(self).plan.tensors@[tensor as int].name@
                    &&& e == expected
                    &&& found == bytes
                }
            }),
    {
        let (tensor, bytes): (usize, usize) = match self.phase {
            WarmupPhase::Loading { tensor, steps: _, bytes } => (tensor, bytes),
            _ => (0, 0),
        };
        let expected: usize = self.plan.tensors[tensor].bytes;
        if bytes != expected {
            return Err(
                WarmupError::ByteCountChanged {
                    name: self.plan.tensors[tensor].name.clone(),
                    expected,
                    found: bytes,
                },
            );
        }
        proof {
            lemma_bytes_grow(
                self.plan.tensors@,
                tensor + 1,
                self.plan.tensors@.len() as int,
            );
        }
        self.loaded = self.loaded + bytes;
        let count: usize = self.plan.tensors.len();
        self.phase =
        if tensor + 1 < count {
            WarmupPhase::Loading { tensor: tensor + 1, steps: 0, bytes: 0 }
        } else {
            match self.mode {
                FullExpertWarmupMode::OsPageCache => WarmupPhase::Finished,
                FullExpertWarmupMode::PinnedExpertCache => if self.plan.layers == 0 {
                    WarmupPhase::Sealing
                } else {
                    WarmupPhase::Fusing { layer: 0 }
                },
            }
        };
        Ok(
            FullExpertWarmupProgress {
                tensors_completed: tensor + 1,
                tensors_total: count,
                bytes_loaded: self.loaded,
                bytes_total: self.plan.total_bytes,
            },
        )
    }

    /// Takes note that a layer's matrices are combined, or that the cache was
    /// told that everything is resident.
    pub fn done(&mut self)
        requires
            old(self).wf(),
            old(self).phase is Fusing || old(self).phase is Sealing,
        ensures
            final(self).wf(),
            final(self).plan == old(self).plan,
            final(self).mode == old(self).mode,
            final(self).experts == old(self).experts,
            final(self).loaded == old(self).loaded,
            final(self).phase == match old(self).phase {
                WarmupPhase::Fusing { layer } => if layer + 1 < old(self).plan.layers {
                    WarmupPhase::Fusing { layer: (layer + 1) as usize }
                } else {
                    WarmupPhase::Sealing
                },
                _ => WarmupPhase::Finished,
            },
    {
        let layers: usize = self.plan.layers;
        self.phase =
        match self.phase {
            WarmupPhase::Fusing { layer } => if layer + 1 < layers {
                WarmupPhase::Fusing { layer: layer + 1 }
            } else {
                WarmupPhase::Sealing
            },
            _ => WarmupPhase::Finished,
        };
    }

    /// What the warmup did, once it is finished.
    pub fn report<C>(&self, elapsed_nanos: u128, cache: C) -> (report: FullExpertWarmupReport<C>)
        requires
            self.wf(),
            self.phase is Finished,
        ensures
            report.mode == self.mode,
            report.tensor_count == self.plan.tensors@.len(),
            report.bytes_loaded == self.plan.total_bytes,
            report.elapsed_nanos == elapsed_nanos,
            report.cache == cache,
    {
        FullExpertWarmupReport {
            mode: self.mode,
            tensor_count: self.plan.tensors.len(),
            bytes_loaded: self.loaded,
            elapsed_nanos,
            cache,
        }
    }
}

/// Whether a visit is to a tensor of the given name, where the header puts it.
pub open spec fn is_visit(visit: WarmTensor, checkpoint: GgufCheckpoint, name: Seq<char>) -> bool {
    &&& visit.name@ == name
    &&& tensor_of(checkpoint.tensors@, name) matches Some(tensor) && visit.offset
        == checkpoint.tensor_data_offset + tensor.offset && visit.bytes == tensor.data_bytes()
}

proof fn lemma_visited(
    tensors: Seq<WarmTensor>,
    layers: int,
    checkpoint: GgufCheckpoint,
    k: int,
)
    requires
        visits_all_experts(tensors, layers, checkpoint),
        0 <= k < 3 * layers <= usize::MAX,
    ensures
        exists|i: int|
            0 <= i < tensors.len() && is_visit(#[trigger] tensors[i], checkpoint, listed_name(k)),
{
    let order = choose|order: Seq<usize>| #[trigger]
        visits_experts(tensors, layers, checkpoint, order);
    assert(order.contains(k as usize));
    let i = choose|i: int| 0 <= i < order.len() && order[i] == k as usize;
    assert(is_listed(tensors[i], checkpoint, order[i] as int));
    lemma_tensor_of(checkpoint.tensors@, listed_name(k));
    assert(is_visit(tensors[i], checkpoint, listed_name(k)));
}

/// A plan visits the three expert tensors of every layer, each where the file has
/// it, and goes through the file in one direction.
pub proof fn a_plan_visits_every_expert_in_file_order(
    tensors: Seq<WarmTensor>,
    layers: int,
    checkpoint: GgufCheckpoint,
    layer: int,
)
    requires
        visits_all_experts(tensors, layers, checkpoint),
        0 <= layer < layers,
        3 * layers <= usize::MAX,
    ensures
        tensors.len() == 3 * layers,
        forall|i: int, j: int|
            0 <= i < j < tensors.len() ==> (#[trigger] tensors[i]).offset <= (
            #[trigger] tensors[j]).offset,
        exists|i: int|
            0 <= i < tensors.len() && is_visit(
                #[trigger] tensors[i],
                checkpoint,
                "blk."@ + decimal(layer as nat) + ".ffn_gate_exps.weight"@,
            ),
        exists|i: int|
            0 <= i < tensors.len() && is_visit(
                #[trigger] tensors[i],
                checkpoint,
                "blk."@ + decimal(layer as nat) + ".ffn_up_exps.weight"@,
            ),
        exists|i: int|
            0 <= i < tensors.len() && is_visit(
                #[trigger] tensors[i],
                checkpoint,
                "blk."@ + decimal(layer as nat) + ".ffn_down_exps.weight"@,
            ),
{
    assert((3 * layer) / 3 == layer && (3 * layer) % 3 == 0);
    assert((3 * layer + 1) / 3 == layer && (3 * layer + 1) % 3 == 1);
    assert((3 * layer + 2) / 3 == layer && (3 * layer + 2) % 3 == 2);
    lemma_visited(tensors, layers, checkpoint, 3 * layer);
    lemma_visited(tensors, layers, checkpoint, 3 * layer + 1);
    lemma_visited(tensors, layers, checkpoint, 3 * layer + 2);
}

} // verus!
