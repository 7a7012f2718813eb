//! How the benchmark of quantized models judges what a workload produced.

use crate::bench::{has_prefix, optional_tokens, prefix_status};
use vstd::prelude::*;

verus! {

/// Judges generated tokens by the tokens expected first.
pub fn correctness(expected: Option<&[u32]>, actual: &[u32]) -> (status: &'static str)
    ensures
        status@ == prefix_status(optional_tokens(expected), actual@),
{
    match expected {
        None => "not_checked",
        Some(wanted) => if has_prefix(actual, wanted) {
            "pass"
        } else {
            "fail"
        },
    }
}

} // verus!
