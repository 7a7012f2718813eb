//! What a run is asked for: the draft sources, their limits, and the settings
//! that a request inherits.
//!
//! Probabilities and other fractions pass through unchanged, so their types are
//! left open: `S` in single precision, `D` in double precision.

use crate::text::same_text;
use vstd::prelude::*;

verus! {

/// Which draft sources decoding may use.
#[derive(Debug, Clone, Copy, PartialEq, Eq, Structural)]
pub enum SpeculativeMode {
    /// Ordinary autoregressive decoding.
    Off,
    /// Both arms, each under its own controller.
    Auto,
    /// The n-gram arm only.
    Ngram,
    /// The multi-token-prediction arm only.
    Mtp,
}

impl SpeculativeMode {
    /// Whether any arm may draft.
    pub open spec fn speculates(self) -> bool {
        self != SpeculativeMode::Off
    }

    /// Whether the multi-token-prediction arm may draft.
    pub open spec fn drafts_with_mtp(self) -> bool {
        self == SpeculativeMode::Auto || self == SpeculativeMode::Mtp
    }

    /// The name of the mode.
    pub open spec fn label(self) -> Seq<char> {
        match self {
            SpeculativeMode::Off => "off"@,
            SpeculativeMode::Auto => "auto"@,
            SpeculativeMode::Ngram => "ngram"@,
            SpeculativeMode::Mtp => "mtp"@,
        }
    }

    /// Whether any arm may draft.
    pub fn is_speculative(&self) -> (speculates: bool)
        ensures
            speculates == self.speculates(),
    {
        match self {
            SpeculativeMode::Off => false,
            _ => true,
        }
    }

    /// Whether the multi-token-prediction arm may draft.
    pub fn allows_mtp(&self) -> (allows: bool)
        ensures
            allows == self.drafts_with_mtp(),
    {
        match self {
            SpeculativeMode::Auto => true,
            SpeculativeMode::Mtp => true,
            _ => false,
        }
    }

    /// The name of the mode.
    pub fn as_str(&self) -> (name: &'static str)
        ensures
            name@ == self.label(),
    {
        match self {
            SpeculativeMode::Off => "off",
            SpeculativeMode::Auto => "auto",
            SpeculativeMode::Ngram => "ngram",
            SpeculativeMode::Mtp => "mtp",
        }
    }
}

/// A name leads back to its mode, so no two modes share one.
pub proof fn mode_names_differ(a: SpeculativeMode, b: SpeculativeMode)
    ensures
        a.label() == b.label() ==> a == b,
{
    reveal_strlit("off");
    reveal_strlit("auto");
    reveal_strlit("ngram");
    reveal_strlit("mtp");
    let off = "off"@;
    let auto = "auto"@;
    let ngram = "ngram"@;
    let mtp = "mtp"@;
    assert(off[0] == 'o' && mtp[0] == 'm');
    assert(off.len() == 3 && auto.len() == 4 && ngram.len() == 5 && mtp.len() == 3);
}

/// The mode of the given name; without a name, no speculation. An unknown name
/// is handed back.
pub fn mode_of(name: Option<&str>) -> (mode: Result<SpeculativeMode, String>)
    ensures
        match name {
            None => mode == Ok::<SpeculativeMode, String>(SpeculativeMode::Off),
            Some(name) => match mode {
                Ok(mode) => mode.label() == name@,
                Err(unknown) => unknown@ == name@ && forall|m: SpeculativeMode|
                    #[trigger]
                    m.label() != name@,
            },
        },
{
    let name: &str = match name {
        Some(name) => name,
        None => {
            return Ok(SpeculativeMode::Off);
        },
    };
    if same_text(name, "off") {
        Ok(SpeculativeMode::Off)
    } else if same_text(name, "auto") {
        Ok(SpeculativeMode::Auto)
    } else if same_text(name, "ngram") {
        Ok(SpeculativeMode::Ngram)
    } else if same_text(name, "mtp") {
        Ok(SpeculativeMode::Mtp)
    } else {
        Err(name.to_owned())
    }
}

/// How a token is drawn.
#[derive(Debug, Clone, Copy)]
pub struct SamplingConfig<S: Copy> {
    pub temperature: S,
    pub top_k: Option<usize>,
    pub top_p: Option<S>,
    pub min_p: Option<S>,
    pub seed: u64,
}

/// How the controllers of the two arms behave.
#[derive(Debug, Clone, Copy)]
pub struct PolicyTuning<D: Copy> {
    pub ngram_draft_floor: usize,
    pub mtp_depth_floor: usize,
    pub mtp_depth_start: usize,
    pub ngram_suspend_below: D,
    pub mtp_suspend_below: D,
    pub ewma_alpha: D,
    pub backoff_tokens: usize,
    pub backoff_cap: usize,
    pub span_continuation: bool,
    pub adaptive_length: bool,
    pub ewma_backoff: bool,
    pub eager_mtp_resync: bool,
}

/// What a generation is asked for.
#[derive(Debug, Clone)]
pub struct GenerationOptions<S: Copy, D: Copy> {
    pub max_new_tokens: usize,
    pub sampling: SamplingConfig<S>,
    pub stop_tokens: Vec<u32>,
    pub add_special_tokens: bool,
    pub speculative_mode: SpeculativeMode,
    pub policy: PolicyTuning<D>,
    pub speculative_mtp_draft_tokens: usize,
    pub speculative_mtp_min_margin: Option<S>,
    pub mtp_draft_vocab: usize,
    pub mtp_min_confidence: S,
    pub speculative_ngram_draft_tokens: usize,
    pub ngram_min_match: usize,
    pub thinking_budget: Option<usize>,
}

/// The smaller of two numbers.
pub open spec fn least(a: usize, b: usize) -> usize {
    if a <= b {
        a
    } else {
        b
    }
}

/// A cap as a decoder sees it: the arms' ceilings are no switches, so without
/// speculation they are zero.
pub open spec fn effective_cap(mode: SpeculativeMode, cap: usize) -> usize {
    if mode.speculates() {
        cap
    } else {
        0
    }
}

/// A floor is clamped to its cap rather than rejected, and a cap of zero leaves
/// room for one.
pub open spec fn effective_floor(mode: SpeculativeMode, floor: usize, cap: usize) -> usize {
    let cap = effective_cap(mode, cap);
    least(
        floor,
        if cap >= 1 {
            cap
        } else {
            1
        },
    )
}

/// The limits of both arms.
#[derive(Debug, Clone, Copy, PartialEq, Eq, Structural)]
pub struct DraftLimits {
    pub ngram_cap: usize,
    pub ngram_floor: usize,
    pub mtp_cap: usize,
    pub mtp_floor: usize,
}

impl DraftLimits {
    /// The limits as a decoder in the given mode sees them.
    pub open spec fn seen_by(self, mode: SpeculativeMode) -> DraftLimits {
        DraftLimits {
            ngram_cap: effective_cap(mode, self.ngram_cap),
            ngram_floor: effective_floor(mode, self.ngram_floor, self.ngram_cap),
            mtp_cap: effective_cap(mode, self.mtp_cap),
            mtp_floor: effective_floor(mode, self.mtp_floor, self.mtp_cap),
        }
    }

    /// The limits as a decoder in the given mode sees them.
    pub fn within(&self, mode: SpeculativeMode) -> (limits: DraftLimits)
        ensures
            limits == self.seen_by(mode),
    {
        let (ngram_cap, mtp_cap): (usize, usize) = if mode.is_speculative() {
            (self.ngram_cap, self.mtp_cap)
        } else {
            (0, 0)
        };
        DraftLimits {
            ngram_cap,
            ngram_floor: clamped(self.ngram_floor, ngram_cap),
            mtp_cap,
            mtp_floor: clamped(self.mtp_floor, mtp_cap),
        }
    }
}

/// The smaller of a floor and a cap, a cap of zero counting as one.
fn clamped(floor: usize, cap: usize) -> (r: usize)
    ensures
        r == least(
            floor,
            if cap >= 1 {
                cap
            } else {
                1
            },
        ),
{
    let cap: usize = if cap >= 1 {
        cap
    } else {
        1
    };
    if floor <= cap {
        floor
    } else {
        cap
    }
}

/// What a decoder sees of the limits is settled: seeing them once more changes
/// nothing, an arm's floor never lies above its cap while it may draft, and
/// without speculation no arm may draft.
pub proof fn seen_limits_are_settled(limits: DraftLimits, mode: SpeculativeMode)
    ensures
        limits.seen_by(mode).seen_by(mode) == limits.seen_by(mode),
        limits.seen_by(mode).ngram_cap >= 1 ==> limits.seen_by(mode).ngram_floor <= limits.seen_by(
            mode,
        ).ngram_cap,
        limits.seen_by(mode).mtp_cap >= 1 ==> limits.seen_by(mode).mtp_floor <= limits.seen_by(
            mode,
        ).mtp_cap,
        !mode.speculates() ==> limits.seen_by(mode).ngram_cap == 0 && limits.seen_by(mode).mtp_cap
            == 0,
{
}

/// A size in mebibytes as bytes; nothing where that does not fit.
pub fn mebibytes(count: usize) -> (bytes: Option<usize>)
    ensures
        match bytes {
            Some(bytes) => bytes == count * 1048576,
            None => count * 1048576 > usize::MAX,
        },
{
    count.checked_mul(1048576)
}

} // verus!
