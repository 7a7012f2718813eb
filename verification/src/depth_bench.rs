//! What the benchmarks of context depth and pass width run, and how they split
//! the cost of a pass.

use crate::qwen::timings::{summable, summed, QuantizedLayerTimings};
use vstd::prelude::*;

verus! {

/// The largest of the first `n` depths, or zero.
pub open spec fn deepest_of(depths: Seq<usize>, n: int) -> usize
    decreases n,
{
    if n <= 0 {
        0
    } else if depths[n - 1] > deepest_of(depths, n - 1) {
        depths[n - 1]
    } else {
        deepest_of(depths, n - 1)
    }
}

/// Why a benchmark does not run.
#[derive(Debug, Clone, Copy, PartialEq, Eq, Structural)]
pub enum DepthError {
    NoDecodeTokens,
    /// The text has too few tokens to reach the deepest context and one more.
    TextTooShort { tokens: usize, deepest: usize },
}

/// Whether there is anything to decode.
pub fn check_decode(decode_tokens: usize) -> (result: Result<(), DepthError>)
    ensures
        result == if decode_tokens > 0 {
            Ok::<(), DepthError>(())
        } else {
            Err::<(), DepthError>(DepthError::NoDecodeTokens)
        },
{
    if decode_tokens > 0 {
        Ok(())
    } else {
        Err(DepthError::NoDecodeTokens)
    }
}

/// Whether a text of that many tokens reaches every depth with one token to
/// spare.
pub fn check_depths(depths: &[usize], tokens: usize) -> (result: Result<(), DepthError>)
    ensures
        match result {
            Ok(_) => deepest_of(depths@, depths@.len() as int) < tokens && forall|i: int|
                0 <= i < depths@.len() ==> #[trigger] depths@[i] < tokens,
            Err(error) => {
                &&& deepest_of(depths@, depths@.len() as int) >= tokens
                &&& error == (DepthError::TextTooShort {
                    tokens,
                    deepest: deepest_of(depths@, depths@.len() as int),
                })
            },
        },
{
    let count: usize = depths.len();
    let mut deepest: usize = 0;
    let mut i: usize = 0;
    while i < count
        invariant
            i <= count,
            count == depths@.len(),
            deepest == deepest_of(depths@, i as int),
            forall|k: int| 0 <= k < i ==> #[trigger] depths@[k] <= deepest,
        decreases count - i,
    {
        if depths[i] > deepest {
            deepest = depths[i];
        }
        i += 1;
    }
    if tokens > deepest {
        Ok(())
    } else {
        Err(DepthError::TextTooShort { tokens, deepest })
    }
}

/// What a pass costs, in nanoseconds over its layers. The parts of the attention
/// scan are summed over threads.
#[derive(Debug, Clone, Copy, PartialEq, Eq, Structural)]
pub struct PassCosts {
    pub scan: u128,
    pub attention_other: u128,
    pub linear: u128,
    pub moe: u128,
    pub scores: u128,
    pub softmax: u128,
    pub weighted_sum: u128,
    pub projections: u128,
    pub convolution: u128,
    pub recurrence: u128,
    pub gated_norm: u128,
    pub output_projection: u128,
    pub snapshot: u128,
}

/// The costs of layers that took the given time together.
pub open spec fn costs_of(t: QuantizedLayerTimings) -> PassCosts {
    PassCosts {
        scan: t.attention.attention,
        attention_other: (t.attention.wall - t.attention.attention) as u128,
        linear: t.delta.wall,
        moe: t.moe.wall,
        scores: t.attention.scores,
        softmax: t.attention.softmax,
        weighted_sum: t.attention.weighted_sum,
        projections: t.delta.projections,
        convolution: t.delta.convolution,
        recurrence: t.delta.recurrence,
        gated_norm: t.delta.gated_norm,
        output_projection: t.delta.output_projection,
        snapshot: t.delta.snapshot,
    }
}

/// Whether no layer's scan took longer than the layer.
pub open spec fn scans_fit(details: Seq<QuantizedLayerTimings>) -> bool {
    forall|i: int|
        0 <= i < details.len() ==> (#[trigger] details[i]).attention.attention
            <= details[i].attention.wall
}

/// Splits what a pass cost.
pub fn pass_costs(details: &Vec<QuantizedLayerTimings>) -> (costs: PassCosts)
    requires
        summable(details@),
        scans_fit(details@),
    ensures
        costs == costs_of(summed(details@, details@.len() as int)),
{
    let count: usize = details.len();
    let mut t = QuantizedLayerTimings::default();
    let mut i: usize = 0;
    while i < count
        invariant
            i <= count,
            count == details@.len(),
            summable(details@),
            scans_fit(details@),
            t == summed(details@, i as int),
            t.attention.attention <= t.attention.wall,
        decreases count - i,
    {
        proof {
            assert(summed(details@, i as int).can_add(details@[i as int]));
        }
        t.accumulate(&details[i]);
        i += 1;
    }
    PassCosts {
        scan: t.attention.attention,
        attention_other: t.attention.wall - t.attention.attention,
        linear: t.delta.wall,
        moe: t.moe.wall,
        scores: t.attention.scores,
        softmax: t.attention.softmax,
        weighted_sum: t.attention.weighted_sum,
        projections: t.delta.projections,
        convolution: t.delta.convolution,
        recurrence: t.delta.recurrence,
        gated_norm: t.delta.gated_norm,
        output_projection: t.delta.output_projection,
        snapshot: t.delta.snapshot,
    }
}

/// The spans of the passes that cover the tokens from `from` on.
pub open spec fn spans_from(from: int, tokens: int, width: int) -> Seq<(usize, usize)>
    decreases tokens - from,
{
    if from >= tokens || width <= 0 {
        Seq::empty()
    } else if from + width >= tokens {
        seq![(from as usize, tokens as usize)]
    } else {
        seq![(from as usize, (from + width) as usize)] + spans_from(from + width, tokens, width)
    }
}

/// The passes of at most the given width that a prefill is made of; a width
/// beyond the tokens counts as their number.
pub fn prefill_passes(tokens: usize, width: usize) -> (spans: Vec<(usize, usize)>)
    requires
        width > 0,
    ensures
        spans@ == spans_from(0, tokens as int, width as int),
{
    let mut spans: Vec<(usize, usize)> = Vec::new();
    let mut from: usize = 0;
    let ghost all = spans_from(0, tokens as int, width as int);
    proof {
        assert(all =~= spans@ + all);
    }
    while from < tokens
        invariant
            from <= tokens,
            width > 0,
            all == spans_from(0, tokens as int, width as int),
            all == spans@ + spans_from(from as int, tokens as int, width as int),
        decreases tokens - from,
    {
        let left: usize = tokens - from;
        let to: usize = if width < left {
            from + width
        } else {
            tokens
        };
        let ghost before = spans@;
        spans.push((from, to));
        proof {
            let rest = spans_from(to as int, tokens as int, width as int);
            assert(spans_from(from as int, tokens as int, width as int) =~= seq![(from, to)]
                + rest);
            assert(before + (seq![(from, to)] + rest) =~= before.push((from, to)) + rest);
        }
        from = to;
    }
    proof {
        assert(spans@ + spans_from(from as int, tokens as int, width as int) =~= spans@);
    }
    spans
}

/// The passes of a prefill follow one another without a gap from the first
/// token to the last, none of them empty and none wider than asked.
pub proof fn passes_cover_the_tokens(from: int, tokens: int, width: int)
    requires
        0 <= from < tokens <= usize::MAX,
        0 < width <= usize::MAX,
    ensures
        ({
            let spans = spans_from(from, tokens, width);
            &&& spans.len() > 0
            &&& spans[0].0 == from
            &&& spans.last().1 == tokens
            &&& forall|i: int|
                0 <= i < spans.len() ==> (#[trigger] spans[i]).0 < spans[i].1 <= spans[i].0 + width
            &&& forall|i: int|
                #![trigger spans[i]]
                0 < i < spans.len() ==> spans[i].0 == spans[i - 1].1
        }),
    decreases tokens - from,
{
    let spans = spans_from(from, tokens, width);
    if from + width < tokens {
        passes_cover_the_tokens(from + width, tokens, width);
        let rest = spans_from(from + width, tokens, width);
        assert forall|i: int| 0 <= i < spans.len() implies (#[trigger] spans[i]).0 < spans[i].1
            <= spans[i].0 + width by {
            if i > 0 {
                assert(spans[i] == rest[i - 1]);
            }
        }
        assert forall|i: int| #![trigger spans[i]] 0 < i < spans.len() implies spans[i].0
            == spans[i - 1].1 by {
            assert(spans[i] == rest[i - 1]);
            if i > 1 {
                assert(spans[i - 1] == rest[i - 2]);
            }
        }
    }
}

} // verus!
