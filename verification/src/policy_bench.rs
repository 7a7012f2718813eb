//! A matrix of speculative configurations run from one resident model: what
//! each cell asks for, and in which order the runs are made.

use crate::options::{mode_of, GenerationOptions, PolicyTuning, SpeculativeMode};
use crate::text::same_text;
use vstd::prelude::*;

verus! {

/// One configuration. What it leaves out falls back to the shipped default.
#[derive(Debug, Clone)]
pub struct Cell<S: Copy, D: Copy> {
    pub name: String,
    pub speculative: Option<String>,
    pub mtp_draft_vocab: Option<usize>,
    pub mtp_min_confidence: Option<S>,
    pub mtp_depth_start: Option<usize>,
    pub mtp_suspend_below: Option<D>,
    pub ewma_alpha: Option<D>,
    pub backoff_tokens: Option<usize>,
    /// The prompts this cell is restricted to. Empty means all of them.
    pub prompts: Vec<String>,
}

/// The shipped defaults of what a cell may leave out.
#[derive(Debug, Clone, Copy)]
pub struct CellDefaults<S: Copy, D: Copy> {
    pub mtp_draft_vocab: usize,
    pub mtp_min_confidence: S,
    pub mtp_depth_start: usize,
    pub mtp_suspend_below: D,
    pub ewma_alpha: D,
    pub backoff_tokens: usize,
}

/// A value, or its default where it is left out.
pub open spec fn or_default<T>(value: Option<T>, default: T) -> T {
    match value {
        Some(value) => value,
        None => default,
    }
}

/// A value, or its default where it is left out.
fn value_or<T: Copy>(value: Option<T>, default: T) -> (r: T)
    ensures
        r == or_default(value, default),
{
    match value {
        Some(value) => value,
        None => default,
    }
}

impl<S: Copy, D: Copy> Cell<S, D> {
    /// What the cell asks a decoder in the given mode for.
    pub open spec fn asked(
        &self,
        mode: SpeculativeMode,
        max_new_tokens: usize,
        defaults: CellDefaults<S, D>,
        base: GenerationOptions<S, D>,
    ) -> GenerationOptions<S, D> {
        GenerationOptions {
            max_new_tokens,
            speculative_mode: mode,
            mtp_draft_vocab: or_default(self.mtp_draft_vocab, defaults.mtp_draft_vocab),
            mtp_min_confidence: or_default(self.mtp_min_confidence, defaults.mtp_min_confidence),
            policy: PolicyTuning {
                mtp_depth_start: or_default(self.mtp_depth_start, defaults.mtp_depth_start),
                mtp_suspend_below: or_default(self.mtp_suspend_below, defaults.mtp_suspend_below),
                ewma_alpha: or_default(self.ewma_alpha, defaults.ewma_alpha),
                backoff_tokens: or_default(self.backoff_tokens, defaults.backoff_tokens),
                ..base.policy
            },
            sampling: base.sampling,
            stop_tokens: base.stop_tokens,
            add_special_tokens: base.add_special_tokens,
            speculative_mtp_draft_tokens: base.speculative_mtp_draft_tokens,
            speculative_mtp_min_margin: base.speculative_mtp_min_margin,
            speculative_ngram_draft_tokens: base.speculative_ngram_draft_tokens,
            ngram_min_match: base.ngram_min_match,
            thinking_budget: base.thinking_budget,
        }
    }

    /// What the cell asks for, over the settings that no cell names; an unknown
    /// mode is handed back.
    pub fn options_for(
        &self,
        max_new_tokens: usize,
        defaults: CellDefaults<S, D>,
        base: GenerationOptions<S, D>,
    ) -> (options: Result<GenerationOptions<S, D>, String>)
        ensures
            match options {
                Ok(options) => {
                    &&& options == self.asked(
                        options.speculative_mode,
                        max_new_tokens,
                        defaults,
                        base,
                    )
                    &&& match self.speculative {
                        Some(name) => options.speculative_mode.label() == name@,
                        None => options.speculative_mode == SpeculativeMode::Off,
                    }
                },
                Err(unknown) => match self.speculative {
                    Some(name) => unknown@ == name@ && forall|m: SpeculativeMode|
                        #[trigger]
                        m.label() != name@,
                    None => false,
                },
            },
    {
        let mode: SpeculativeMode = match mode_of(
            match &self.speculative {
                Some(name) => Some(name.as_str()),
                None => None,
            },
        ) {
            Ok(mode) => mode,
            Err(unknown) => {
                return Err(unknown);
            },
        };
        Ok(
            GenerationOptions {
                max_new_tokens,
                speculative_mode: mode,
                mtp_draft_vocab: value_or(self.mtp_draft_vocab, defaults.mtp_draft_vocab),
                mtp_min_confidence: value_or(self.mtp_min_confidence, defaults.mtp_min_confidence),
                policy: PolicyTuning {
                    mtp_depth_start: value_or(self.mtp_depth_start, defaults.mtp_depth_start),
                    mtp_suspend_below: value_or(self.mtp_suspend_below, defaults.mtp_suspend_below),
                    ewma_alpha: value_or(self.ewma_alpha, defaults.ewma_alpha),
                    backoff_tokens: value_or(self.backoff_tokens, defaults.backoff_tokens),
                    ngram_draft_floor: base.policy.ngram_draft_floor,
                    mtp_depth_floor: base.policy.mtp_depth_floor,
                    ngram_suspend_below: base.policy.ngram_suspend_below,
                    backoff_cap: base.policy.backoff_cap,
                    span_continuation: base.policy.span_continuation,
                    adaptive_length: base.policy.adaptive_length,
                    ewma_backoff: base.policy.ewma_backoff,
                    eager_mtp_resync: base.policy.eager_mtp_resync,
                },
                sampling: base.sampling,
                stop_tokens: base.stop_tokens,
                add_special_tokens: base.add_special_tokens,
                speculative_mtp_draft_tokens: base.speculative_mtp_draft_tokens,
                speculative_mtp_min_margin: base.speculative_mtp_min_margin,
                speculative_ngram_draft_tokens: base.speculative_ngram_draft_tokens,
                ngram_min_match: base.ngram_min_match,
                thinking_budget: base.thinking_budget,
            },
        )
    }
}

/// Whether a restriction lets a prompt through.
pub open spec fn lets_through(restriction: Seq<String>, prompt: Seq<char>) -> bool {
    restriction.len() == 0 || exists|i: int|
        0 <= i < restriction.len() && (#[trigger] restriction[i])@ == prompt
}

/// Whether a cell restricted to the given prompts runs a prompt.
pub fn runs_prompt(restriction: &Vec<String>, prompt: &str) -> (runs: bool)
    ensures
        runs == lets_through(restriction@, prompt@),
{
    let n: usize = restriction.len();
    if n == 0 {
        return true;
    }
    let mut i: usize = 0;
    while i < n
        invariant
            i <= n,
            n == restriction@.len(),
            n > 0,
            forall|k: int| 0 <= k < i ==> (#[trigger] restriction@[k])@ != prompt@,
        decreases n - i,
    {
        if same_text(restriction[i].as_str(), prompt) {
            proof {
                assert(restriction@[i as int]@ == prompt@);
            }
            return true;
        }
        i += 1;
    }
    false
}

/// One run of a campaign.
#[derive(Debug, Clone, Copy, PartialEq, Eq, Structural)]
pub struct Run {
    pub repetition: usize,
    pub cell: usize,
    pub prompt: usize,
}

/// What keeps a campaign from running.
#[derive(Debug, Clone, Copy, PartialEq, Eq, Structural)]
pub enum CampaignError {
    NoRepetitions,
    NothingToRun,
}

/// The runs of one cell in one repetition over the first `n` prompts.
pub open spec fn cell_runs(
    restriction: Seq<String>,
    prompts: Seq<String>,
    repetition: usize,
    cell: usize,
    n: int,
) -> Seq<Run>
    decreases n,
{
    if n <= 0 {
        Seq::empty()
    } else {
        let before = cell_runs(restriction, prompts, repetition, cell, n - 1);
        if lets_through(restriction, prompts[n - 1]@) {
            before.push(Run { repetition, cell, prompt: (n - 1) as usize })
        } else {
            before
        }
    }
}

/// The runs of one repetition over the first `n` cells.
pub open spec fn repetition_runs<S: Copy, D: Copy>(
    cells: Seq<Cell<S, D>>,
    prompts: Seq<String>,
    repetition: usize,
    n: int,
) -> Seq<Run>
    decreases n,
{
    if n <= 0 {
        Seq::empty()
    } else {
        repetition_runs(cells, prompts, repetition, n - 1) + cell_runs(
            cells[n - 1].prompts@,
            prompts,
            repetition,
            (n - 1) as usize,
            prompts.len() as int,
        )
    }
}

/// The runs of the first `n` repetitions: every cell is run once before any is
/// run twice.
pub open spec fn campaign_runs<S: Copy, D: Copy>(
    cells: Seq<Cell<S, D>>,
    prompts: Seq<String>,
    n: int,
) -> Seq<Run>
    decreases n,
{
    if n <= 0 {
        Seq::empty()
    } else {
        campaign_runs(cells, prompts, n - 1) + repetition_runs(
            cells,
            prompts,
            (n - 1) as usize,
            cells.len() as int,
        )
    }
}

/// The runs of a campaign, in order.
pub fn campaign<S: Copy, D: Copy>(
    repetitions: usize,
    cells: &Vec<Cell<S, D>>,
    prompts: &Vec<String>,
) -> (runs: Result<Vec<Run>, CampaignError>)
    ensures
        match runs {
            Ok(runs) => {
                &&& repetitions > 0
                &&& cells@.len() > 0
                &&& prompts@.len() > 0
                &&& runs@ == campaign_runs(cells@, prompts@, repetitions as int)
            },
            Err(CampaignError::NoRepetitions) => repetitions == 0,
            Err(CampaignError::NothingToRun) => repetitions > 0 && (cells@.len() == 0
                || prompts@.len() == 0),
        },
{
    if repetitions == 0 {
        return Err(CampaignError::NoRepetitions);
    }
    let cell_count: usize = cells.len();
    let prompt_count: usize = prompts.len();
    if cell_count == 0 || prompt_count == 0 {
        return Err(CampaignError::NothingToRun);
    }
    let mut runs: Vec<Run> = Vec::new();
    let mut repetition: usize = 0;
    while repetition < repetitions
        invariant
            repetition <= repetitions,
            cell_count == cells@.len(),
            prompt_count == prompts@.len(),
            runs@ == campaign_runs(cells@, prompts@, repetition as int),
        decreases repetitions - repetition,
    {
        let ghost head = runs@;
        let mut cell: usize = 0;
        proof {
            assert(runs@ =~= head + repetition_runs(cells@, prompts@, repetition, 0));
        }
        while cell < cell_count
            invariant
                cell <= cell_count,
                cell_count == cells@.len(),
                prompt_count == prompts@.len(),
                runs@ == head + repetition_runs(cells@, prompts@, repetition, cell as int),
            decreases cell_count - cell,
        {
            let ghost so_far = runs@;
            let mut prompt: usize = 0;
            proof {
                assert(runs@ =~= so_far + cell_runs(
                    cells@[cell as int].prompts@,
                    prompts@,
                    repetition,
                    cell,
                    0,
                ));
            }
            while prompt < prompt_count
                invariant
                    cell < cell_count,
                    cell_count == cells@.len(),
                    prompt <= prompt_count,
                    prompt_count == prompts@.len(),
                    runs@ == so_far + cell_runs(
                        cells@[cell as int].prompts@,
                        prompts@,
                        repetition,
                        cell,
                        prompt as int,
                    ),
                decreases prompt_count - prompt,
            {
                let through: bool = runs_prompt(&cells[cell].prompts, prompts[prompt].as_str());
                if through {
                    runs.push(Run { repetition, cell, prompt });
                }
                prompt += 1;
                proof {
                    assert(runs@ =~= so_far + cell_runs(
                        cells@[cell as int].prompts@,
                        prompts@,
                        repetition,
                        cell,
                        prompt as int,
                    ));
                }
            }
            cell += 1;
            proof {
                assert(runs@ =~= head + repetition_runs(
                    cells@,
                    prompts@,
                    repetition,
                    cell as int,
                ));
            }
        }
        repetition += 1;
    }
    Ok(runs)
}

/// Whether all runs belong to one repetition.
pub open spec fn all_in(runs: Seq<Run>, repetition: usize) -> bool {
    forall|i: int| 0 <= i < runs.len() ==> (#[trigger] runs[i]).repetition == repetition
}

/// The runs of a cell belong to its repetition.
proof fn lemma_cell_runs(
    restriction: Seq<String>,
    prompts: Seq<String>,
    repetition: usize,
    cell: usize,
    n: int,
)
    ensures
        all_in(cell_runs(restriction, prompts, repetition, cell, n), repetition),
    decreases n,
{
    if n > 0 {
        lemma_cell_runs(restriction, prompts, repetition, cell, n - 1);
    }
}

/// The runs of a repetition belong to it.
proof fn lemma_repetition_runs<S: Copy, D: Copy>(
    cells: Seq<Cell<S, D>>,
    prompts: Seq<String>,
    repetition: usize,
    n: int,
)
    ensures
        all_in(repetition_runs(cells, prompts, repetition, n), repetition),
    decreases n,
{
    if n > 0 {
        lemma_repetition_runs(cells, prompts, repetition, n - 1);
        lemma_cell_runs(
            cells[n - 1].prompts@,
            prompts,
            repetition,
            (n - 1) as usize,
            prompts.len() as int,
        );
        let a = repetition_runs(cells, prompts, repetition, n - 1);
        let b = cell_runs(
            cells[n - 1].prompts@,
            prompts,
            repetition,
            (n - 1) as usize,
            prompts.len() as int,
        );
        assert forall|i: int| 0 <= i < (a + b).len() implies (#[trigger] (a + b)[i]).repetition
            == repetition by {
            if i < a.len() {
                assert((a + b)[i] == a[i]);
            } else {
                assert((a + b)[i] == b[i - a.len()]);
            }
        }
    }
}

/// Repetitions are interleaved: no run of a later repetition comes before one of
/// an earlier repetition, so a slow drift spreads over all cells.
pub proof fn repetitions_are_interleaved<S: Copy, D: Copy>(
    cells: Seq<Cell<S, D>>,
    prompts: Seq<String>,
    n: int,
)
    requires
        0 <= n <= usize::MAX,
    ensures
        ({
            let runs = campaign_runs(cells, prompts, n);
            &&& forall|i: int| 0 <= i < runs.len() ==> (#[trigger] runs[i]).repetition < n
            &&& forall|i: int, j: int|
                0 <= i < j < runs.len() ==> (#[trigger] runs[i]).repetition <= (
                #[trigger] runs[j]).repetition
        }),
    decreases n,
{
    if n > 0 {
        repetitions_are_interleaved(cells, prompts, n - 1);
        lemma_repetition_runs(cells, prompts, (n - 1) as usize, cells.len() as int);
        let a = campaign_runs(cells, prompts, n - 1);
        let b = repetition_runs(cells, prompts, (n - 1) as usize, cells.len() as int);
        let runs = a + b;
        assert forall|i: int| 0 <= i < runs.len() implies (#[trigger] runs[i]).repetition < n by {
            if i < a.len() {
                assert(runs[i] == a[i]);
            } else {
                assert(runs[i] == b[i - a.len()]);
            }
        }
        assert forall|i: int, j: int| 0 <= i < j < runs.len() implies (
        #[trigger] runs[i]).repetition <= (#[trigger] runs[j]).repetition by {
            if i < a.len() {
                assert(runs[i] == a[i]);
            } else {
                assert(runs[i] == b[i - a.len()]);
            }
            if j < a.len() {
                assert(runs[j] == a[j]);
            } else {
                assert(runs[j] == b[j - a.len()]);
            }
        }
    }
}

} // verus!
