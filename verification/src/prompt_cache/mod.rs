//! A persistent cache of sequence state, keyed by token prefix.
//!
//! An agent opens every task with the same long preamble, and prefill is the
//! expensive half of this engine: attention scores each new token against every
//! earlier one, so the cost of a preamble grows with its square. Caching the
//! state that preamble produces turns the second and every later run of it into
//! a file read.
//!
//! What makes that possible is that a sequence's state is fully described by
//! plain elements: key/value rows for the full-attention layers, conv and
//! recurrent state for the linear ones. What makes it necessary to key on a
//! *prefix* is that the recurrence is destructive: state can be extended but
//! never rewound, so reuse has to come from an image captured at a boundary
//! rather than from trimming a longer state back.
//!
//! Entries are written at token boundaries that are multiples of the block
//! size, which is what lets two requests that share a preamble but diverge
//! later land on the same key. The cost of that quantisation is at most one
//! block of re-prefilled tokens.

pub mod cache;
pub mod entry_laws;
pub mod format;
pub mod index;
pub mod keys;
pub mod lookup_laws;
pub mod messages;

pub use cache::{
    CacheConfigError, Counters, Drain, Eviction, Handover, Lookup, Probe, PromptCache,
    PromptCacheConfig, PromptCacheStats, DEFAULT_BLOCK_TOKENS, DEFAULT_BUDGET_MIB, DEFAULT_MIN_TOKENS,
};
pub use format::LayerKind;
pub use index::{Candidate, EntryMeta, FoundFile, Index};
pub use keys::{boundaries, is_entry, parse_file_name, short_fingerprint, store_boundary, EntryKey};
