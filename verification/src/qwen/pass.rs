//! The course of a pass through a decoder: what is checked before it, which
//! layer runs next on which state, which rows get logits, and what is recorded
//! of the routes.

use super::moe::Route;
use crate::buffers::copied;
use crate::config::{LayerType, Qwen3NextConfig};
use vstd::prelude::*;

verus! {

/// Which rows of a pass get logits.
///
/// The head is the most expensive per-row operation of a model, and a prefill
/// pass reads only its last row. Rows are independent, so that computing fewer
/// changes no value that is read; verification needs all of them.
#[derive(Debug, Clone, Copy, PartialEq, Eq, Structural)]
pub enum LogitRows {
    All,
    Last,
}

impl Default for LogitRows {
    fn default() -> (rows: Self)
        ensures
            rows == LogitRows::All,
    {
        LogitRows::All
    }
}

impl LogitRows {
    /// The first row that gets logits, of a pass of `tokens` rows.
    pub open spec fn first(self, tokens: int) -> int {
        match self {
            LogitRows::All => 0,
            LogitRows::Last => tokens - 1,
        }
    }

    /// The first row that gets logits, and how many do.
    pub fn range(self, tokens: usize) -> (range: (usize, usize))
        requires
            tokens > 0,
        ensures
            range.0 == self.first(tokens as int),
            range.0 + range.1 == tokens,
    {
        match self {
            LogitRows::All => (0, tokens),
            LogitRows::Last => (tokens - 1, 1),
        }
    }
}

/// Why a pass is refused or stops.
#[derive(Debug, Clone, Copy, PartialEq, Eq, Structural)]
pub enum PassError {
    /// There are no tokens.
    NoTokens,
    /// The state has another number of layers.
    WrongModel,
    /// The sequence would grow beyond the positions of the model.
    TooLong { length: usize, limit: usize },
    /// The state of a layer is of the other kind.
    StateType { layer: usize },
    /// A layer gave more or fewer routes than there are tokens.
    RouteCount { layer: usize, routes: usize, tokens: usize },
    /// The hidden rows are not one per token, or have another width.
    HiddenShape,
}

/// What comes next in a pass.
#[derive(Debug, Clone, Copy, PartialEq, Eq, Structural)]
pub enum PassStage {
    Embedding,
    /// The attention of a layer, full or linear.
    Mixer { layer: usize },
    /// The experts, or the dense block, of a layer.
    FeedForward { layer: usize },
    FinalNorm,
    Head,
    Finished,
}

/// The stage that a pass through `layers` layers is in after so many steps.
pub open spec fn stage_at(layers: int, step: int) -> PassStage {
    if step <= 0 {
        PassStage::Embedding
    } else if step <= 2 * layers {
        if step % 2 == 1 {
            PassStage::Mixer { layer: (step / 2) as usize }
        } else {
            PassStage::FeedForward { layer: (step / 2 - 1) as usize }
        }
    } else if step == 2 * layers + 1 {
        PassStage::FinalNorm
    } else if step == 2 * layers + 2 {
        PassStage::Head
    } else {
        PassStage::Finished
    }
}

/// How many of the first `n` layers are linear.
pub open spec fn linear_before(kinds: Seq<LayerType>, n: int) -> nat
    decreases n,
{
    if n <= 0 {
        0
    } else {
        linear_before(kinds, n - 1) + if kinds[n - 1] == LayerType::LinearAttention {
            1nat
        } else {
            0nat
        }
    }
}

proof fn lemma_linear_before(kinds: Seq<LayerType>, n: int)
    requires
        0 <= n,
    ensures
        linear_before(kinds, n) <= n,
    decreases n,
{
    if n > 0 {
        lemma_linear_before(kinds, n - 1);
    }
}

/// Why a pass is refused, if it is.
pub open spec fn start_problem(
    tokens: int,
    state_layers: int,
    model_layers: int,
    position: int,
    limit: int,
) -> Option<PassError> {
    if tokens == 0 {
        Some(PassError::NoTokens)
    } else if state_layers != model_layers {
        Some(PassError::WrongModel)
    } else if position + tokens > limit {
        Some(PassError::TooLong { length: (position + tokens) as usize, limit: limit as usize })
    } else {
        None
    }
}

/// A pass under way.
#[derive(Debug, Clone)]
pub struct DecoderPass {
    kinds: Vec<LayerType>,
    /// Which layers of the state are of the full-attention kind.
    states: Vec<bool>,
    tokens: usize,
    position: usize,
    step: usize,
    linear: usize,
}

/// Which attention a layer runs.
#[derive(Debug, Clone, Copy, PartialEq, Eq, Structural)]
pub enum MixerRun {
    /// Full attention from the pass's position on.
    Full { position: usize },
    /// Linear attention, with the snapshots of the given number.
    Linear { arena: usize },
}

impl DecoderPass {
    /// The kinds of the model's layers.
    pub closed spec fn layers(&self) -> Seq<LayerType> {
        self.kinds@
    }

    /// Which layers of the state are of the full-attention kind.
    pub closed spec fn full_states(&self) -> Seq<bool> {
        self.states@
    }

    /// The number of tokens.
    pub closed spec fn rows(&self) -> int {
        self.tokens as int
    }

    /// Where the pass starts.
    pub closed spec fn start(&self) -> int {
        self.position as int
    }

    /// The number of steps that are done.
    pub closed spec fn steps(&self) -> int {
        self.step as int
    }

    /// The numbers fit together.
    pub closed spec fn wf(&self) -> bool {
        &&& self.states@.len() == self.kinds@.len()
        &&& self.tokens > 0
        &&& self.position + self.tokens <= usize::MAX
        &&& 2 * self.kinds@.len() + 3 <= usize::MAX
        &&& self.step <= 2 * self.kinds@.len() + 3
        &&& self.linear <= self.kinds@.len()
        &&& self.linear == linear_before(
            self.kinds@,
            if self.step as int / 2 < self.kinds@.len() {
                self.step as int / 2
            } else {
                self.kinds@.len() as int
            },
        )
    }

    /// Begins a pass of so many tokens over a state.
    pub fn begin(
        kinds: &[LayerType],
        states: &[bool],
        tokens: usize,
        position: usize,
        limit: usize,
    ) -> (pass: Result<DecoderPass, PassError>)
        requires
            position + tokens <= usize::MAX,
            2 * kinds@.len() + 3 <= usize::MAX,
        ensures
            match start_problem(
                tokens as int,
                states@.len() as int,
                kinds@.len() as int,
                position as int,
                limit as int,
            ) {
                Some(problem) => pass == Err::<DecoderPass, PassError>(problem),
                None => {
                    &&& pass matches Ok(pass)
                    &&& pass.wf()
                    &&& pass.layers() == kinds@
                    &&& pass.full_states() == states@
                    &&& pass.rows() == tokens
                    &&& pass.start() == position
                    &&& pass.steps() == 0
                },
            },
    {
        if tokens == 0 {
            return Err(PassError::NoTokens);
        }
        if states.len() != kinds.len() {
            return Err(PassError::WrongModel);
        }
        if position + tokens > limit {
            return Err(PassError::TooLong { length: position + tokens, limit });
        }
        Ok(
            DecoderPass {
                kinds: copied(kinds),
                states: copied(states),
                tokens,
                position,
                step: 0,
                linear: 0,
            },
        )
    }

    /// What comes next.
    pub fn stage(&self) -> (stage: PassStage)
        requires
            self.wf(),
        ensures
            stage == stage_at(self.layers().len() as int, self.steps()),
    {
        let layers: usize = self.kinds.len();
        if self.step == 0 {
            PassStage::Embedding
        } else if self.step <= 2 * layers {
            if self.step % 2 == 1 {
                PassStage::Mixer { layer: self.step / 2 }
            } else {
                PassStage::FeedForward { layer: self.step / 2 - 1 }
            }
        } else if self.step == 2 * layers + 1 {
            PassStage::FinalNorm
        } else if self.step == 2 * layers + 2 {
            PassStage::Head
        } else {
            PassStage::Finished
        }
    }

    /// Which attention the next layer runs. Its state must be of its kind.
    pub fn mixer(&self) -> (run: Result<MixerRun, PassError>)
        requires
            self.wf(),
            stage_at(self.layers().len() as int, self.steps()) is Mixer,
        ensures
            ({
                let layer = self.steps() / 2;
                &&& 0 <= layer < self.layers().len()
                &&& match (self.layers()[layer], self.full_states()[layer]) {
                    (LayerType::FullAttention, true) => run == Ok::<MixerRun, PassError>(
                        MixerRun::Full { position: self.start() as usize },
                    ),
                    (LayerType::LinearAttention, false) => run == Ok::<MixerRun, PassError>(
                        MixerRun::Linear { arena: linear_before(self.layers(), layer) as usize },
                    ),
                    _ => run == Err::<MixerRun, PassError>(
                        PassError::StateType { layer: layer as usize },
                    ),
                }
            }),
    {
        let layer: usize = self.step / 2;
        match (self.kinds[layer], self.states[layer]) {
            (LayerType::FullAttention, true) => Ok(MixerRun::Full { position: self.position }),
            (LayerType::LinearAttention, false) => Ok(MixerRun::Linear { arena: self.linear }),
            _ => Err(PassError::StateType { layer }),
        }
    }

    /// Takes note that a stage is done.
    pub fn advance(&mut self)
        requires
            old(self).wf(),
            !(stage_at(old(self).layers().len() as int, old(self).steps()) is Finished),
        ensures
            final(self).wf(),
            final(self).layers() == old(self).layers(),
            final(self).full_states() == old(self).full_states(),
            final(self).rows() == old(self).rows(),
            final(self).start() == old(self).start(),
            final(self).steps() == old(self).steps() + 1,
    {
        let layers: usize = self.kinds.len();
        proof {
            lemma_linear_before(self.kinds@, self.step as int / 2);
        }
        if self.step % 2 == 1 && self.step < 2 * layers {
            let layer: usize = self.step / 2;
            if self.kinds[layer] == LayerType::LinearAttention {
                self.linear = self.linear + 1;
            }
        }
        self.step = self.step + 1;
    }

    /// The position after the pass.
    pub fn end_position(&self) -> (position: usize)
        requires
            self.wf(),
        ensures
            position == self.start() + self.rows(),
    {
        self.position + self.tokens
    }
}

/// A pass runs every layer once, in order, first its attention and then its
/// feed-forward block, and nothing between the embedding and the final norm
/// but these.
pub proof fn a_pass_runs_every_layer_in_order(layers: int, layer: int)
    requires
        0 <= layer < layers,
        2 * layers + 3 <= usize::MAX,
    ensures
        stage_at(layers, 0) == PassStage::Embedding,
        stage_at(layers, 2 * layer + 1) == (PassStage::Mixer { layer: layer as usize }),
        stage_at(layers, 2 * layer + 2) == (PassStage::FeedForward { layer: layer as usize }),
        stage_at(layers, 2 * layers + 1) == PassStage::FinalNorm,
        stage_at(layers, 2 * layers + 2) == PassStage::Head,
        stage_at(layers, 2 * layers + 3) == PassStage::Finished,
{
}

/// What is recorded of one row in one layer.
#[derive(Debug, Clone, PartialEq)]
pub struct RoutingRecord<T> {
    pub token_index: usize,
    pub token_id: u32,
    pub layer: usize,
    pub selected_expert_ids: Vec<usize>,
    pub router_weights: Vec<T>,
    pub router_logits: Option<Vec<T>>,
}

/// Whether a record is that of a row.
pub open spec fn records_row<T>(
    record: RoutingRecord<T>,
    position: int,
    layer: usize,
    row: int,
    token: u32,
    route: Route<T>,
) -> bool {
    &&& record.token_index == position + row
    &&& record.token_id == token
    &&& record.layer == layer
    &&& record.selected_expert_ids@ == route.experts@
    &&& record.router_weights@ == route.weights@
    &&& record.router_logits matches Some(logits)
    &&& logits@ == route.logits@
}

/// What is recorded of the rows of a pass in one layer.
pub fn routing_records<T: Copy>(
    position: usize,
    layer: usize,
    tokens: &[u32],
    routes: &Vec<Route<T>>,
) -> (records: Result<Vec<RoutingRecord<T>>, PassError>)
    requires
        position + tokens@.len() <= usize::MAX,
    ensures
        match records {
            Ok(records) => {
                &&& routes@.len() == tokens@.len()
                &&& records@.len() == tokens@.len()
                &&& forall|r: int|
                    0 <= r < records@.len() ==> records_row(
                        #[trigger] records@[r],
                        position as int,
                        layer,
                        r,
                        tokens@[r],
                        routes@[r],
                    )
            },
            Err(error) => routes@.len() != tokens@.len() && error == (PassError::RouteCount {
                layer,
                routes: routes@.len() as usize,
                tokens: tokens@.len() as usize,
            }),
        },
{
    if routes.len() != tokens.len() {
        return Err(
            PassError::RouteCount { layer, routes: routes.len(), tokens: tokens.len() },
        );
    }
    let mut records: Vec<RoutingRecord<T>> = Vec::new();
    let mut r: usize = 0;
    while r < tokens.len()
        invariant
            position + tokens@.len() <= usize::MAX,
            routes@.len() == tokens@.len(),
            r <= tokens@.len(),
            records@.len() == r,
            forall|k: int|
                0 <= k < r ==> records_row(
                    #[trigger] records@[k],
                    position as int,
                    layer,
                    k,
                    tokens@[k],
                    routes@[k],
                ),
        decreases tokens@.len() - r,
    {
        let route: &Route<T> = &routes[r];
        records.push(
            RoutingRecord {
                token_index: position + r,
                token_id: tokens[r],
                layer,
                selected_expert_ids: copied(route.experts.as_slice()),
                router_weights: copied(route.weights.as_slice()),
                router_logits: Some(copied(route.logits.as_slice())),
            },
        );
        r += 1;
    }
    Ok(records)
}

/// Why a model's weights are refused.
#[derive(Debug, Clone, Copy, PartialEq, Eq, Structural)]
pub enum ModelError {
    /// The token embedding has another shape.
    EmbeddingShape,
    /// The final norm has another length.
    FinalNormLength,
    /// The head has another shape.
    HeadShape,
    /// A layer is of the other kind.
    LayerKind { layer: usize },
    /// A norm of a layer has another length.
    LayerNormLength { layer: usize },
    /// There is not exactly one layer for drafting.
    DraftLayers,
    /// The layer for drafting has embeddings of its own.
    DraftEmbeddings,
    /// A norm of the drafting head has another length.
    DraftNormLength { norm: usize },
    /// The input projection of the drafting head has another shape.
    DraftProjectionShape,
}

/// Accepts a token embedding of one row per token of the vocabulary.
pub fn check_embedding(config: &Qwen3NextConfig, shape: [usize; 2]) -> (result: Result<
    (),
    ModelError,
>)
    ensures
        result == if shape@ == seq![config.vocab_size, config.hidden_size] {
            Ok::<(), ModelError>(())
        } else {
            Err::<(), ModelError>(ModelError::EmbeddingShape)
        },
{
    if shape[0] != config.vocab_size || shape[1] != config.hidden_size {
        return Err(ModelError::EmbeddingShape);
    }
    proof {
        assert(shape@ =~= seq![config.vocab_size, config.hidden_size]);
    }
    Ok(())
}

/// Accepts a final norm of one number per column.
pub fn check_final_norm(config: &Qwen3NextConfig, len: usize) -> (result: Result<(), ModelError>)
    ensures
        result == if len == config.hidden_size {
            Ok::<(), ModelError>(())
        } else {
            Err::<(), ModelError>(ModelError::FinalNormLength)
        },
{
    if len != config.hidden_size {
        return Err(ModelError::FinalNormLength);
    }
    Ok(())
}

/// Accepts a head of one row per token of the vocabulary.
pub fn check_head(config: &Qwen3NextConfig, shape: [usize; 2]) -> (result: Result<(), ModelError>)
    ensures
        result == if shape@ == seq![config.vocab_size, config.hidden_size] {
            Ok::<(), ModelError>(())
        } else {
            Err::<(), ModelError>(ModelError::HeadShape)
        },
{
    if shape[0] != config.vocab_size || shape[1] != config.hidden_size {
        return Err(ModelError::HeadShape);
    }
    proof {
        assert(shape@ =~= seq![config.vocab_size, config.hidden_size]);
    }
    Ok(())
}

/// Accepts a layer of the expected kind.
pub fn check_layer_kind(config: &Qwen3NextConfig, layer: usize, expected: LayerType) -> (result:
    Result<(), ModelError>)
    requires
        config.has_layer_type(layer as int),
    ensures
        result == if config.type_of(layer as int) == expected {
            Ok::<(), ModelError>(())
        } else {
            Err::<(), ModelError>(ModelError::LayerKind { layer })
        },
{
    if config.layer_type(layer) != expected {
        return Err(ModelError::LayerKind { layer });
    }
    Ok(())
}

/// Accepts the two norms of a layer.
pub fn check_layer_norms(config: &Qwen3NextConfig, layer: usize, input: usize, post: usize) -> (result:
    Result<(), ModelError>)
    ensures
        result == if input == config.hidden_size && post == config.hidden_size {
            Ok::<(), ModelError>(())
        } else {
            Err::<(), ModelError>(ModelError::LayerNormLength { layer })
        },
{
    if input != config.hidden_size || post != config.hidden_size {
        return Err(ModelError::LayerNormLength { layer });
    }
    Ok(())
}

/// Whether a model has a head for drafting.
pub fn drafts(config: &Qwen3NextConfig) -> (drafts: bool)
    ensures
        drafts == (config.mtp_num_hidden_layers == 1),
{
    config.mtp_num_hidden_layers == 1
}

/// Accepts a configuration with one drafting layer that shares the embedding.
pub fn check_draft_config(config: &Qwen3NextConfig) -> (result: Result<(), ModelError>)
    ensures
        result == if config.mtp_num_hidden_layers != 1 {
            Err::<(), ModelError>(ModelError::DraftLayers)
        } else if config.mtp_use_dedicated_embeddings {
            Err::<(), ModelError>(ModelError::DraftEmbeddings)
        } else {
            Ok::<(), ModelError>(())
        },
{
    if config.mtp_num_hidden_layers != 1 {
        return Err(ModelError::DraftLayers);
    }
    if config.mtp_use_dedicated_embeddings {
        return Err(ModelError::DraftEmbeddings);
    }
    Ok(())
}

/// Accepts the norms of a drafting head: of the embedding, of the hidden rows
/// and of the head.
pub fn check_draft_norms(config: &Qwen3NextConfig, lens: [usize; 3]) -> (result: Result<
    (),
    ModelError,
>)
    ensures
        result == if lens@[0] != config.hidden_size {
            Err::<(), ModelError>(ModelError::DraftNormLength { norm: 0 })
        } else if lens@[1] != config.hidden_size {
            Err::<(), ModelError>(ModelError::DraftNormLength { norm: 1 })
        } else if lens@[2] != config.hidden_size {
            Err::<(), ModelError>(ModelError::DraftNormLength { norm: 2 })
        } else {
            Ok::<(), ModelError>(())
        },
{
    if lens[0] != config.hidden_size {
        return Err(ModelError::DraftNormLength { norm: 0 });
    }
    if lens[1] != config.hidden_size {
        return Err(ModelError::DraftNormLength { norm: 1 });
    }
    if lens[2] != config.hidden_size {
        return Err(ModelError::DraftNormLength { norm: 2 });
    }
    Ok(())
}

/// Accepts an input projection from an embedding and a hidden row side by side.
pub fn check_draft_projection(config: &Qwen3NextConfig, shape: [usize; 2]) -> (result: Result<
    (),
    ModelError,
>)
    requires
        2 * config.hidden_size <= usize::MAX,
    ensures
        result == if shape@ == seq![config.hidden_size, (2 * config.hidden_size) as usize] {
            Ok::<(), ModelError>(())
        } else {
            Err::<(), ModelError>(ModelError::DraftProjectionShape)
        },
{
    if shape[0] != config.hidden_size || shape[1] != 2 * config.hidden_size {
        return Err(ModelError::DraftProjectionShape);
    }
    proof {
        assert(shape@ =~= seq![config.hidden_size, (2 * config.hidden_size) as usize]);
    }
    Ok(())
}

/// Accepts a drafting pass: at least one token, and one hidden row per token.
pub fn check_draft_pass(tokens: usize, hidden_dims: &[usize], hidden_size: usize) -> (result: Result<
    (),
    PassError,
>)
    ensures
        result == if tokens == 0 {
            Err::<(), PassError>(PassError::NoTokens)
        } else if hidden_dims@ != seq![tokens, hidden_size] {
            Err::<(), PassError>(PassError::HiddenShape)
        } else {
            Ok::<(), PassError>(())
        },
{
    if tokens == 0 {
        return Err(PassError::NoTokens);
    }
    if hidden_dims.len() != 2 || hidden_dims[0] != tokens || hidden_dims[1] != hidden_size {
        return Err(PassError::HiddenShape);
    }
    proof {
        assert(hidden_dims@ =~= seq![tokens, hidden_size]);
    }
    Ok(())
}

} // verus!
