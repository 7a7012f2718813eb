//! What the HTTP server decides before it binds: whether its arguments go
//! together, which key it asks for, and what the engine is started with.

use crate::options::{
    effective_cap, effective_floor, mebibytes, DraftLimits, GenerationOptions, PolicyTuning,
    SamplingConfig, SpeculativeMode,
};
use crate::prompt_cache::PromptCacheConfig;
use crate::text::{chars_of, text_of};
use crate::words::{trim, trimmed};
use vstd::prelude::*;

verus! {

/// How verification snapshots copy recurrent state. Both produce identical
/// state.
#[derive(Debug, Clone, Copy, PartialEq, Eq, Structural)]
pub enum SnapshotCopy {
    /// Non-temporal stores, skipping read-for-ownership and cache pollution.
    Streaming,
    /// Ordinary stores.
    Plain,
}

/// What the server is started with.
#[derive(Debug, Clone)]
pub struct ServeArgs<S: Copy, D: Copy> {
    pub model: String,
    pub tokenizer_model: String,
    pub api_key: Option<String>,
    pub api_key_file: Option<String>,
    pub served_model_name: Option<String>,
    pub max_queue: usize,
    pub prompt_cache_dir: Option<String>,
    pub prompt_cache_mib: u64,
    pub prompt_cache_block: usize,
    pub prompt_cache_min_tokens: usize,
    pub no_prefix_reuse: bool,
    pub max_new_tokens: usize,
    pub sampling: SamplingConfig<S>,
    pub no_thinking: bool,
    pub thinking_budget: Option<usize>,
    pub expert_cache_mib: usize,
    pub warmup_census: Option<String>,
    pub warmup_experts_per_layer: usize,
    pub warmup_all_experts: bool,
    pub speculative: SpeculativeMode,
    pub speculative_mtp_min_margin: Option<S>,
    pub ngram_min_match: usize,
    pub ngram_draft_cap: usize,
    pub ngram_draft_floor: usize,
    pub mtp_depth_cap: usize,
    pub mtp_depth_floor: usize,
    pub mtp_depth_start: usize,
    pub ngram_suspend_below: D,
    pub mtp_suspend_below: D,
    pub ewma_alpha: D,
    pub backoff_tokens: usize,
    pub backoff_cap: usize,
    pub no_span_continuation: bool,
    pub no_adaptive_length: bool,
    pub no_ewma_backoff: bool,
    pub eager_mtp_resync: bool,
    pub snapshot_copy: SnapshotCopy,
}

/// Which experts are read before the first request.
#[derive(Debug, Clone, PartialEq, Eq)]
pub enum Warmup {
    Off,
    AllExperts,
    /// The hottest experts of each layer that a census observed.
    Census { path: String, experts_per_layer: usize },
}

/// What the engine is started with.
#[derive(Debug, Clone)]
pub struct EngineConfig<S: Copy, D: Copy> {
    pub model: String,
    pub tokenizer_model: String,
    pub served_model_name: Option<String>,
    pub expert_cache_bytes: usize,
    pub warmup: Warmup,
    pub snapshot_nontemporal: bool,
    pub defaults: GenerationOptions<S, D>,
    pub max_queue: usize,
    pub prompt_cache: Option<PromptCacheConfig>,
    pub prefix_reuse: bool,
}

/// Why the server does not start.
#[derive(Debug, Clone, PartialEq, Eq)]
pub enum ServeError {
    /// A request would generate nothing.
    NoNewTokens,
    /// Every request would be refused.
    NoQueue,
    /// Stored prefixes would never be read.
    CacheWithoutReuse,
    /// An arm could draft nothing.
    NoDraftCap,
    /// The key file of the given name holds no key.
    EmptyKey(String),
    /// The expert cache does not fit the machine.
    ExpertCacheTooLarge,
}

impl ServeError {
    /// What is wrong, in words.
    pub open spec fn text(&self) -> Seq<char> {
        match self {
            ServeError::NoNewTokens => "--max-new-tokens must be at least one"@,
            ServeError::NoQueue => "--max-queue must be at least one"@,
            ServeError::CacheWithoutReuse =>
                "--prompt-cache-dir and --no-prefix-reuse contradict each other"@,
            ServeError::NoDraftCap => "draft caps must be at least one"@,
            ServeError::EmptyKey(path) => path@ + " is empty"@,
            ServeError::ExpertCacheTooLarge => "--expert-cache-mib is too large"@,
        }
    }

    /// What is wrong, in words.
    pub fn message(&self) -> (text: String)
        ensures
            text@ == self.text(),
    {
        match self {
            ServeError::NoNewTokens => "--max-new-tokens must be at least one".to_owned(),
            ServeError::NoQueue => "--max-queue must be at least one".to_owned(),
            ServeError::CacheWithoutReuse =>
                "--prompt-cache-dir and --no-prefix-reuse contradict each other".to_owned(),
            ServeError::NoDraftCap => "draft caps must be at least one".to_owned(),
            ServeError::EmptyKey(path) => crate::text::joined(path.as_str(), " is empty"),
            ServeError::ExpertCacheTooLarge => "--expert-cache-mib is too large".to_owned(),
        }
    }
}

/// The text that an optional string holds.
pub open spec fn optional_text(text: Option<String>) -> Option<Seq<char>> {
    match text {
        Some(text) => Some(text@),
        None => None,
    }
}

/// A copy of an optional string.
fn optional_copy(text: &Option<String>) -> (copy: Option<String>)
    ensures
        optional_text(copy) == optional_text(*text),
{
    match text {
        Some(text) => Some(text.clone()),
        None => None,
    }
}

impl<S: Copy, D: Copy> ServeArgs<S, D> {
    /// The first thing wrong with the arguments that can be told before any
    /// file is read.
    pub open spec fn problem(&self) -> Option<ServeError> {
        if self.max_new_tokens == 0 {
            Some(ServeError::NoNewTokens)
        } else if self.max_queue == 0 {
            Some(ServeError::NoQueue)
        } else if self.prompt_cache_dir is Some && self.no_prefix_reuse {
            Some(ServeError::CacheWithoutReuse)
        } else if self.ngram_draft_cap == 0 || self.mtp_depth_cap == 0 {
            Some(ServeError::NoDraftCap)
        } else {
            None
        }
    }

    /// Whether the arguments go together.
    pub fn check(&self) -> (result: Result<(), ServeError>)
        ensures
            match result {
                Ok(_) => self.problem() is None,
                Err(error) => self.problem() == Some(error),
            },
    {
        if self.max_new_tokens == 0 {
            return Err(ServeError::NoNewTokens);
        }
        if self.max_queue == 0 {
            return Err(ServeError::NoQueue);
        }
        if self.prompt_cache_dir.is_some() && self.no_prefix_reuse {
            return Err(ServeError::CacheWithoutReuse);
        }
        if self.ngram_draft_cap == 0 || self.mtp_depth_cap == 0 {
            return Err(ServeError::NoDraftCap);
        }
        Ok(())
    }

    /// The key that requests must carry: what the key file holds, without the
    /// white space around it, or the key given directly. `contents` is what the
    /// key file holds; it is read only where a key file is named.
    pub fn api_key(&self, contents: &str) -> (key: Result<Option<String>, ServeError>)
        ensures
            match self.api_key_file {
                Some(path) => match key {
                    Ok(key) => trimmed(contents@).len() > 0 && optional_text(key) == Some(
                        trimmed(contents@),
                    ),
                    Err(ServeError::EmptyKey(named)) => trimmed(contents@).len() == 0 && named@
                        == path@,
                    Err(_) => false,
                },
                None => key is Ok && optional_text(key->Ok_0) == optional_text(self.api_key),
            },
    {
        match &self.api_key_file {
            Some(path) => {
                let characters: Vec<char> = chars_of(contents);
                let key: Vec<char> = trim(characters.as_slice());
                if key.len() == 0 {
                    return Err(ServeError::EmptyKey(path.clone()));
                }
                Ok(Some(text_of(key.as_slice())))
            },
            None => Ok(optional_copy(&self.api_key)),
        }
    }

    /// Where prefixes are kept, if anywhere. A budget beyond the largest number
    /// counts as that number.
    pub fn prompt_cache(&self) -> (config: Option<PromptCacheConfig>)
        ensures
            match config {
                Some(config) => {
                    &&& self.prompt_cache_dir is Some
                    &&& config.dir@ == self.prompt_cache_dir->Some_0@
                    &&& config.budget_bytes == if self.prompt_cache_mib * 1048576 <= u64::MAX {
                        self.prompt_cache_mib * 1048576
                    } else {
                        u64::MAX as int
                    }
                    &&& config.block_tokens == self.prompt_cache_block
                    &&& config.min_tokens == self.prompt_cache_min_tokens
                },
                None => self.prompt_cache_dir is None,
            },
    {
        match &self.prompt_cache_dir {
            Some(dir) => {
                let budget_bytes: u64 = match self.prompt_cache_mib.checked_mul(1048576) {
                    Some(bytes) => bytes,
                    None => u64::MAX,
                };
                Some(
                    PromptCacheConfig {
                        dir: dir.clone(),
                        budget_bytes,
                        block_tokens: self.prompt_cache_block,
                        min_tokens: self.prompt_cache_min_tokens,
                    },
                )
            },
            None => None,
        }
    }

    /// Which experts are read first: all of them, else those of a census, else
    /// none.
    pub open spec fn warms(&self, warmup: Warmup) -> bool {
        if self.warmup_all_experts {
            warmup is AllExperts
        } else {
            match (self.warmup_census, warmup) {
                (Some(named), Warmup::Census { path, experts_per_layer }) => path@ == named@
                    && experts_per_layer == self.warmup_experts_per_layer,
                (None, Warmup::Off) => true,
                _ => false,
            }
        }
    }

    /// Which experts are read before the first request.
    pub fn warmup(&self) -> (warmup: Warmup)
        ensures
            self.warms(warmup),
    {
        if self.warmup_all_experts {
            return Warmup::AllExperts;
        }
        match &self.warmup_census {
            Some(path) => Warmup::Census {
                path: path.clone(),
                experts_per_layer: self.warmup_experts_per_layer,
            },
            None => Warmup::Off,
        }
    }

    /// The settings a request inherits, over the settings that no argument
    /// names.
    pub open spec fn inherited(&self, base: GenerationOptions<S, D>) -> GenerationOptions<S, D> {
        GenerationOptions {
            max_new_tokens: self.max_new_tokens,
            sampling: self.sampling,
            speculative_mode: self.speculative,
            policy: PolicyTuning {
                ngram_draft_floor: effective_floor(
                    self.speculative,
                    self.ngram_draft_floor,
                    self.ngram_draft_cap,
                ),
                mtp_depth_floor: effective_floor(
                    self.speculative,
                    self.mtp_depth_floor,
                    self.mtp_depth_cap,
                ),
                mtp_depth_start: self.mtp_depth_start,
                ngram_suspend_below: self.ngram_suspend_below,
                mtp_suspend_below: self.mtp_suspend_below,
                ewma_alpha: self.ewma_alpha,
                backoff_tokens: self.backoff_tokens,
                backoff_cap: self.backoff_cap,
                span_continuation: !self.no_span_continuation,
                adaptive_length: !self.no_adaptive_length,
                ewma_backoff: !self.no_ewma_backoff,
                eager_mtp_resync: self.eager_mtp_resync,
            },
            speculative_mtp_draft_tokens: effective_cap(self.speculative, self.mtp_depth_cap),
            speculative_mtp_min_margin: self.speculative_mtp_min_margin,
            speculative_ngram_draft_tokens: effective_cap(self.speculative, self.ngram_draft_cap),
            ngram_min_match: self.ngram_min_match,
            thinking_budget: self.thinking_budget,
            stop_tokens: base.stop_tokens,
            add_special_tokens: base.add_special_tokens,
            mtp_draft_vocab: base.mtp_draft_vocab,
            mtp_min_confidence: base.mtp_min_confidence,
        }
    }

    /// Generation settings a request inherits when it does not override them.
    pub fn defaults(&self, base: GenerationOptions<S, D>) -> (options: GenerationOptions<S, D>)
        ensures
            options == self.inherited(base),
    {
        let limits: DraftLimits = DraftLimits {
            ngram_cap: self.ngram_draft_cap,
            ngram_floor: self.ngram_draft_floor,
            mtp_cap: self.mtp_depth_cap,
            mtp_floor: self.mtp_depth_floor,
        }.within(self.speculative);
        GenerationOptions {
            max_new_tokens: self.max_new_tokens,
            sampling: self.sampling,
            speculative_mode: self.speculative,
            policy: PolicyTuning {
                ngram_draft_floor: limits.ngram_floor,
                mtp_depth_floor: limits.mtp_floor,
                mtp_depth_start: self.mtp_depth_start,
                ngram_suspend_below: self.ngram_suspend_below,
                mtp_suspend_below: self.mtp_suspend_below,
                ewma_alpha: self.ewma_alpha,
                backoff_tokens: self.backoff_tokens,
                backoff_cap: self.backoff_cap,
                span_continuation: !self.no_span_continuation,
                adaptive_length: !self.no_adaptive_length,
                ewma_backoff: !self.no_ewma_backoff,
                eager_mtp_resync: self.eager_mtp_resync,
            },
            speculative_mtp_draft_tokens: limits.mtp_cap,
            speculative_mtp_min_margin: self.speculative_mtp_min_margin,
            speculative_ngram_draft_tokens: limits.ngram_cap,
            ngram_min_match: self.ngram_min_match,
            thinking_budget: self.thinking_budget,
            stop_tokens: base.stop_tokens,
            add_special_tokens: base.add_special_tokens,
            mtp_draft_vocab: base.mtp_draft_vocab,
            mtp_min_confidence: base.mtp_min_confidence,
        }
    }

    /// What the engine is started with.
    pub fn engine(&self, base: GenerationOptions<S, D>) -> (config: Result<
        EngineConfig<S, D>,
        ServeError,
    >)
        ensures
            match config {
                Ok(config) => {
                    &&& config.expert_cache_bytes == self.expert_cache_mib * 1048576
                    &&& config.model@ == self.model@
                    &&& config.tokenizer_model@ == self.tokenizer_model@
                    &&& optional_text(config.served_model_name) == optional_text(
                        self.served_model_name,
                    )
                    &&& self.warms(config.warmup)
                    &&& config.snapshot_nontemporal == (self.snapshot_copy
                        == SnapshotCopy::Streaming)
                    &&& config.defaults == self.inherited(base)
                    &&& config.max_queue == self.max_queue
                    &&& config.prefix_reuse == !self.no_prefix_reuse
                    &&& config.prompt_cache is Some == self.prompt_cache_dir is Some
                    &&& match config.prompt_cache {
                        Some(cache) => {
                            &&& cache.dir@ == self.prompt_cache_dir->Some_0@
                            &&& cache.budget_bytes == if self.prompt_cache_mib * 1048576
                                <= u64::MAX {
                                self.prompt_cache_mib * 1048576
                            } else {
                                u64::MAX as int
                            }
                            &&& cache.block_tokens == self.prompt_cache_block
                            &&& cache.min_tokens == self.prompt_cache_min_tokens
                        },
                        None => true,
                    }
                },
                Err(error) => error is ExpertCacheTooLarge && self.expert_cache_mib * 1048576
                    > usize::MAX,
            },
    {
        let expert_cache_bytes: usize = match mebibytes(self.expert_cache_mib) {
            Some(bytes) => bytes,
            None => {
                return Err(ServeError::ExpertCacheTooLarge);
            },
        };
        let snapshot_nontemporal: bool = match self.snapshot_copy {
            SnapshotCopy::Streaming => true,
            SnapshotCopy::Plain => false,
        };
        Ok(
            EngineConfig {
                model: self.model.clone(),
                tokenizer_model: self.tokenizer_model.clone(),
                served_model_name: optional_copy(&self.served_model_name),
                expert_cache_bytes,
                warmup: self.warmup(),
                snapshot_nontemporal,
                defaults: self.defaults(base),
                max_queue: self.max_queue,
                prompt_cache: self.prompt_cache(),
                prefix_reuse: !self.no_prefix_reuse,
            },
        )
    }
}

/// Whether the server binds an address that others reach without asking them
/// for a key, which is worth a warning.
pub fn open_to_others(has_key: bool, loopback: bool) -> (open: bool)
    ensures
        open == (!has_key && !loopback),
{
    !has_key && !loopback
}

} // verus!
