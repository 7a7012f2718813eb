//! Which workloads a benchmark runs, and how it judges what they produced.

use crate::residency::FullExpertWarmupMode;
use crate::text::{chars_of, same_text, text_of};
use crate::words::{lines, lines_of, pieces};
use vstd::prelude::*;

verus! {

/// Whether `actual` starts with `expected`.
pub open spec fn starts_with(actual: Seq<u32>, expected: Seq<u32>) -> bool {
    expected.len() <= actual.len() && actual.take(expected.len() as int) == expected
}

/// Whether `actual` starts with `expected`.
pub fn has_prefix(actual: &[u32], expected: &[u32]) -> (has: bool)
    ensures
        has == starts_with(actual@, expected@),
{
    let n: usize = expected.len();
    if n > actual.len() {
        return false;
    }
    let mut i: usize = 0;
    while i < n
        invariant
            i <= n,
            n == expected@.len(),
            n <= actual@.len(),
            actual@.take(i as int) == expected@.take(i as int),
        decreases n - i,
    {
        if actual[i] != expected[i] {
            proof {
                assert(actual@.take(n as int)[i as int] != expected@[i as int]);
            }
            return false;
        }
        proof {
            assert(actual@.take(i + 1) =~= actual@.take(i as int).push(actual@[i as int]));
            assert(expected@.take(i + 1) =~= expected@.take(i as int).push(expected@[i as int]));
        }
        i += 1;
    }
    proof {
        assert(expected@.take(n as int) =~= expected@);
    }
    true
}

/// How generated tokens stand to the tokens that were expected first.
pub open spec fn prefix_status(expected: Option<Seq<u32>>, actual: Seq<u32>) -> Seq<char> {
    match expected {
        None => "not_checked"@,
        Some(expected) => if starts_with(actual, expected) {
            "pass"@
        } else {
            "fail"@
        },
    }
}

/// The tokens of an optional list.
pub open spec fn optional_tokens(list: Option<&[u32]>) -> Option<Seq<u32>> {
    match list {
        Some(list) => Some(list@),
        None => None,
    }
}

/// How generated tokens stand to what was expected, and what that was.
#[derive(Debug, Clone, Copy, PartialEq, Eq)]
pub struct CorrectnessInfo<'a> {
    pub status: &'static str,
    pub expected_token_prefix: Option<&'a [u32]>,
}

/// Judges generated tokens by the tokens expected first.
pub fn correctness<'a>(expected: Option<&'a [u32]>, actual: &[u32]) -> (info: CorrectnessInfo<'a>)
    ensures
        info.status@ == prefix_status(optional_tokens(expected), actual@),
        info.expected_token_prefix == expected,
{
    let status: &'static str = match expected {
        None => "not_checked",
        Some(wanted) => if has_prefix(actual, wanted) {
            "pass"
        } else {
            "fail"
        },
    };
    CorrectnessInfo { status, expected_token_prefix: expected }
}

/// The verdict on a workload: the number of its prompt tokens counts as well,
/// and where no tokens are expected it is all that counts.
pub open spec fn verdict(count_matches: bool, prefix: Seq<char>) -> Seq<char> {
    if !count_matches || prefix == "fail"@ {
        "fail"@
    } else if prefix == "pass"@ {
        "pass"@
    } else {
        "prompt_count_only"@
    }
}

/// The verdict on a workload.
pub fn correctness_status(count_matches: bool, prefix: &str) -> (status: &'static str)
    ensures
        status@ == verdict(count_matches, prefix@),
{
    if !count_matches || same_text(prefix, "fail") {
        "fail"
    } else if same_text(prefix, "pass") {
        "pass"
    } else {
        "prompt_count_only"
    }
}

/// A workload passes exactly when its prompt has as many tokens as it should
/// and the tokens that were expected first came first.
pub proof fn a_pass_checks_both(count_matches: bool, expected: Option<Seq<u32>>, actual: Seq<u32>)
    ensures
        verdict(count_matches, prefix_status(expected, actual)) == "pass"@ <==> count_matches
            && expected is Some && starts_with(actual, expected->Some_0),
        verdict(count_matches, prefix_status(expected, actual)) == "fail"@ <==> !count_matches || (
        expected is Some && !starts_with(actual, expected->Some_0)),
{
    reveal_strlit("fail");
    reveal_strlit("pass");
    reveal_strlit("not_checked");
    reveal_strlit("prompt_count_only");
    assert("fail"@[0] == 'f');
    assert("pass"@[0] == 'p');
    assert("not_checked"@.len() == 11);
    assert("prompt_count_only"@.len() == 17);
    assert("fail"@.len() == 4);
    assert("pass"@.len() == 4);
}

/// Where the experts were when the workloads ran.
pub open spec fn residency_label(mode: Option<FullExpertWarmupMode>, cache_bytes: usize) -> Seq<
    char,
> {
    match mode {
        Some(FullExpertWarmupMode::PinnedExpertCache) => "pinned_expert_cache"@,
        Some(FullExpertWarmupMode::OsPageCache) => "os_page_cache_warmup"@,
        None => if cache_bytes > 0 {
            "configured_expert_cache_unwarmed"@
        } else {
            "os_page_cache_unwarmed"@
        },
    }
}

/// Where the experts were when the workloads ran.
pub fn residency(mode: Option<FullExpertWarmupMode>, cache_bytes: usize) -> (label: &'static str)
    ensures
        label@ == residency_label(mode, cache_bytes),
{
    match mode {
        Some(FullExpertWarmupMode::PinnedExpertCache) => "pinned_expert_cache",
        Some(FullExpertWarmupMode::OsPageCache) => "os_page_cache_warmup",
        None => if cache_bytes > 0 {
            "configured_expert_cache_unwarmed"
        } else {
            "os_page_cache_unwarmed"
        },
    }
}

/// A workload.
#[derive(Debug, Clone, PartialEq, Eq)]
pub struct Prompt {
    pub name: String,
    pub category: String,
    pub prompt: String,
    pub chat: bool,
    pub system_prompt: Option<String>,
    pub expected_prompt_tokens: usize,
    pub max_new_tokens: usize,
    pub expected_token_prefix: Option<Vec<u32>>,
}

/// Why a benchmark does not run.
#[derive(Debug, Clone, PartialEq, Eq)]
pub enum WorkloadError {
    /// No workload has the name that was asked for.
    NothingMatches(Option<String>),
    /// A workload would generate nothing.
    NoNewTokens,
    /// A system prompt has no chat to stand in.
    SystemWithoutChat,
    /// A prompt has another number of tokens than it should.
    PromptTokens { found: usize, expected: usize },
    /// There would be no measured run.
    NoRepetitions,
}

/// Whether a workload is asked for by name, or because no name was given.
pub open spec fn is_selected(prompt: Prompt, only: Option<&str>) -> bool {
    match only {
        Some(name) => prompt.name@ == name@,
        None => true,
    }
}

/// The places of the selected ones among the first `n` workloads.
pub open spec fn selection(prompts: Seq<Prompt>, only: Option<&str>, n: int) -> Seq<usize>
    decreases n,
{
    if n <= 0 {
        Seq::empty()
    } else if is_selected(prompts[n - 1], only) {
        selection(prompts, only, n - 1).push((n - 1) as usize)
    } else {
        selection(prompts, only, n - 1)
    }
}

/// The places of the workloads that are asked for, in their order; it is an
/// error if there are none.
pub fn select(prompts: &Vec<Prompt>, only: Option<&str>) -> (selected: Result<
    Vec<usize>,
    WorkloadError,
>)
    ensures
        match selected {
            Ok(selected) => selected@ == selection(prompts@, only, prompts@.len() as int)
                && selected@.len() > 0,
            Err(WorkloadError::NothingMatches(wanted)) => {
                &&& selection(prompts@, only, prompts@.len() as int).len() == 0
                &&& wanted is Some == only is Some
                &&& only is Some ==> wanted->Some_0@ == only->Some_0@
            },
            Err(_) => false,
        },
{
    let n: usize = prompts.len();
    let mut selected: Vec<usize> = Vec::new();
    let mut i: usize = 0;
    while i < n
        invariant
            i <= n,
            n == prompts@.len(),
            selected@ == selection(prompts@, only, i as int),
        decreases n - i,
    {
        let wanted: bool = match only {
            Some(name) => same_text(prompts[i].name.as_str(), name),
            None => true,
        };
        if wanted {
            selected.push(i);
        }
        i += 1;
    }
    if selected.len() == 0 {
        return Err(
            WorkloadError::NothingMatches(
                match only {
                    Some(name) => Some(name.to_owned()),
                    None => None,
                },
            ),
        );
    }
    Ok(selected)
}

impl Prompt {
    /// What is wrong with a workload before its prompt is rendered.
    pub open spec fn problem(&self) -> Option<WorkloadError> {
        if self.max_new_tokens == 0 {
            Some(WorkloadError::NoNewTokens)
        } else if !self.chat && self.system_prompt is Some {
            Some(WorkloadError::SystemWithoutChat)
        } else {
            None
        }
    }

    /// Checks a workload before its prompt is rendered.
    pub fn check(&self) -> (result: Result<(), WorkloadError>)
        ensures
            match result {
                Ok(_) => self.problem() is None,
                Err(error) => self.problem() == Some(error),
            },
    {
        if self.max_new_tokens == 0 {
            return Err(WorkloadError::NoNewTokens);
        }
        if !self.chat && self.system_prompt.is_some() {
            return Err(WorkloadError::SystemWithoutChat);
        }
        Ok(())
    }

    /// Whether a rendered prompt has as many tokens as it should.
    pub fn count_matches(&self, prompt_tokens: usize) -> (matches: bool)
        ensures
            matches == (prompt_tokens == self.expected_prompt_tokens),
    {
        prompt_tokens == self.expected_prompt_tokens
    }

    /// Checks a workload once its prompt is rendered and split into tokens.
    pub fn prepared(&self, token_ids: &[u32]) -> (result: Result<(), WorkloadError>)
        ensures
            result == if token_ids@.len() == self.expected_prompt_tokens {
                Ok::<(), WorkloadError>(())
            } else {
                Err::<(), WorkloadError>(
                    WorkloadError::PromptTokens {
                        found: token_ids@.len() as usize,
                        expected: self.expected_prompt_tokens,
                    },
                )
            },
    {
        let found: usize = token_ids.len();
        if self.count_matches(found) {
            Ok(())
        } else {
            Err(
                WorkloadError::PromptTokens { found, expected: self.expected_prompt_tokens },
            )
        }
    }
}

/// Whether there is a run to measure.
pub fn check_repetitions(repetitions: usize) -> (result: Result<(), WorkloadError>)
    ensures
        result == if repetitions > 0 {
            Ok::<(), WorkloadError>(())
        } else {
            Err::<(), WorkloadError>(WorkloadError::NoRepetitions)
        },
{
    if repetitions > 0 {
        Ok(())
    } else {
        Err(WorkloadError::NoRepetitions)
    }
}

/// How many tokens a workload generates: what was asked for all of them, else
/// its own number.
pub fn generation_length(asked: Option<usize>, own: usize) -> (length: usize)
    ensures
        length == match asked {
            Some(asked) => asked,
            None => own,
        },
{
    match asked {
        Some(asked) => asked,
        None => own,
    }
}

/// The revision that a download's metadata names: its first line.
pub fn model_revision(metadata: Option<&str>) -> (revision: Option<String>)
    ensures
        match revision {
            Some(revision) => metadata is Some && lines(metadata->Some_0@).len() > 0 && revision@
                == lines(metadata->Some_0@)[0],
            None => metadata is None || lines(metadata->Some_0@).len() == 0,
        },
{
    let metadata: &str = match metadata {
        Some(metadata) => metadata,
        None => {
            return None;
        },
    };
    let characters: Vec<char> = chars_of(metadata);
    let list: Vec<Vec<char>> = lines_of(characters.as_slice());
    if list.len() == 0 {
        return None;
    }
    proof {
        assert(pieces(list@)[0] == list@[0]@);
    }
    Some(text_of(list[0].as_slice()))
}

} // verus!
