//! The hybrid decoder: its kernels, what a sequence carries from one pass to
//! the next, and which tensors of a checkpoint make a layer.

pub mod attention;
pub mod attention_laws;
pub mod attention_rule;
pub mod attention_state;
pub mod blocked;
pub mod delta;
pub mod delta_laws;
pub mod delta_layer;
pub mod delta_rule;
pub mod delta_state;
pub mod experts;
pub mod layers;
pub mod model_load;
pub mod model_state;
pub mod moe;
pub mod moe_laws;
pub mod pass;
pub mod per_head;
pub mod reference;
pub mod reference_laws;
pub mod reference_model;
pub mod scan;
pub mod timings;

pub use attention::{AttentionError, QuantizedAttentionLayer};
pub use attention_state::{QuantizedAttentionImage, QuantizedAttentionState, StateError};
pub use delta_layer::{DeltaError, DeltaTimes, DeltaWeights, QuantizedDeltaLayer};
pub use delta_state::{
    copy_state, DeltaGeometry, QuantizedDeltaCheckpoint, QuantizedDeltaScratch,
    QuantizedDeltaSnapshots, QuantizedDeltaState,
};
pub use experts::QuantizedMoeLayer;
pub use model_load::{
    DecoderLayer, QuantizedFullLayer, QuantizedLinearLayer, QuantizedModel, QuantizedMtpHead,
};
pub use model_state::{
    DecoderCheckpoint, DecoderState, LayerStateImage, QuantizedModelCheckpoint,
    QuantizedModelState, QuantizedMtpState, QuantizedStateImage, QuantizedStateSnapshots,
    SessionImage,
};
pub use moe::{top_k_routes, MoeError, Route};
pub use pass::{DecoderPass, LogitRows};
pub use reference::{reference_attention_step, reference_deltanet};
pub use timings::{
    ForwardTimingReport, ForwardTimings, LayerTimingReport, LayerTimings, OperationTimingReport,
    QuantizedAttentionTimings, QuantizedDeltaTimings, QuantizedForwardTimingReport, QuantizedForwardTimings,
    QuantizedLayerTimingReport, QuantizedLayerTimings, QuantizedMoeRoutingStats,
    QuantizedMoeTimings, QuantizedMtpTimings, QuantizedOperationTimingReport,
    QuantizedStageTimingReport, StageTimingReport,
};
