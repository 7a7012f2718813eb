//! What is said about a run: which lines its report has, in which order, and
//! what stands in them.

use crate::options::SpeculativeMode;
use crate::profile::ProcessDelta;
use crate::text::{decimal, decimal_text};
use vstd::prelude::*;

verus! {

/// What one draft source came to.
#[derive(Debug, Clone, Copy, PartialEq, Eq, Structural)]
pub struct ArmMetrics {
    pub proposals: usize,
    pub proposed_tokens: usize,
    pub accepted_tokens: usize,
    pub fully_accepted: usize,
    pub rejected_immediately: usize,
    pub suspensions: usize,
    pub suspended_steps: usize,
    pub probes: usize,
    pub probe_successes: usize,
}

/// What the two draft sources came to together.
#[derive(Debug, Clone, Copy, PartialEq, Eq, Structural)]
pub struct PolicyMetrics {
    pub mode: SpeculativeMode,
    pub steps: usize,
    pub ngram_steps: usize,
    pub ngram_span_steps: usize,
    pub mtp_steps: usize,
    pub plain_steps: usize,
    pub steps_with_ngram_match: usize,
    pub verification_passes: usize,
    pub verification_tokens: usize,
    pub rollbacks: usize,
    pub lookup_nanos: u128,
    pub draft_nanos: u128,
    pub verification_nanos: u128,
    pub snapshot_nanos: u128,
    pub rollback_nanos: u128,
    pub plain_nanos: u128,
    pub resync_nanos: u128,
    pub resync_passes: usize,
    pub resync_tokens: usize,
    pub max_resync_tokens: usize,
    pub draft_vocab: usize,
    pub full_vocab: usize,
    pub drafted_tokens: usize,
    pub confidence_stops: usize,
    pub ngram_arm: ArmMetrics,
    pub mtp_arm: ArmMetrics,
    pub mtp_proposed_on_ngram_match: usize,
    pub mtp_accepted_on_ngram_match: usize,
    pub mtp_proposed_on_ngram_miss: usize,
    pub mtp_accepted_on_ngram_miss: usize,
}

/// A line of the summary of the draft sources.
#[derive(Debug, Clone, Copy, PartialEq, Eq, Structural)]
pub enum PolicyLine {
    /// How the steps were divided, and what they took.
    Summary {
        mode: SpeculativeMode,
        steps: usize,
        ngram_steps: usize,
        ngram_span_steps: usize,
        mtp_steps: usize,
        plain_steps: usize,
        steps_with_ngram_match: usize,
        verification_passes: usize,
        verification_tokens: usize,
        rollbacks: usize,
        lookup_nanos: u128,
        draft_nanos: u128,
        verification_nanos: u128,
        snapshot_nanos: u128,
        rollback_nanos: u128,
        plain_nanos: u128,
        resync_nanos: u128,
        resync_passes: usize,
        resync_tokens: usize,
        max_resync_tokens: usize,
    },
    /// How many rows of the vocabulary drafts are scored against.
    DraftHead { rows: usize, full: usize },
    /// How many tokens were drafted, submitted and declined, and how many
    /// chains were stopped early.
    Confidence { drafted: usize, submitted: usize, stops: usize, declined: usize },
    /// What the n-gram arm came to.
    NgramArm(ArmMetrics),
    /// What the multi-token-prediction arm came to.
    MtpArm(ArmMetrics),
    /// How many tokens of that arm were accepted, of those proposed with literal
    /// evidence and of those proposed without.
    Evidence {
        accepted_on_match: usize,
        proposed_on_match: usize,
        accepted_on_miss: usize,
        proposed_on_miss: usize,
    },
}

impl ArmMetrics {
    /// Whether the arm drafted or was kept from it.
    pub open spec fn took_part(self) -> bool {
        self.proposals != 0 || self.suspended_steps != 0
    }
}

/// One line where it applies, else none.
pub open spec fn line_if<L>(applies: bool, line: L) -> Seq<L> {
    if applies {
        seq![line]
    } else {
        Seq::empty()
    }
}

impl PolicyMetrics {
    /// Whether there is anything to say.
    pub open spec fn reported(self) -> bool {
        self.mode.speculates() && self.steps != 0
    }

    /// The tokens that were drafted but never submitted.
    pub open spec fn declined(self) -> int {
        self.drafted_tokens - self.mtp_arm.proposed_tokens
    }

    /// Whether the counts fit together: no more tokens are submitted than
    /// drafted, and the two kinds of proposals can be added.
    pub open spec fn consistent(self) -> bool {
        &&& self.drafted_tokens > 0 ==> self.mtp_arm.proposed_tokens <= self.drafted_tokens
        &&& self.mtp_proposed_on_ngram_match + self.mtp_proposed_on_ngram_miss <= usize::MAX
    }

    /// The line that says how the steps were divided.
    pub open spec fn overview(self) -> PolicyLine {
        PolicyLine::Summary {
            mode: self.mode,
            steps: self.steps,
            ngram_steps: self.ngram_steps,
            ngram_span_steps: self.ngram_span_steps,
            mtp_steps: self.mtp_steps,
            plain_steps: self.plain_steps,
            steps_with_ngram_match: self.steps_with_ngram_match,
            verification_passes: self.verification_passes,
            verification_tokens: self.verification_tokens,
            rollbacks: self.rollbacks,
            lookup_nanos: self.lookup_nanos,
            draft_nanos: self.draft_nanos,
            verification_nanos: self.verification_nanos,
            snapshot_nanos: self.snapshot_nanos,
            rollback_nanos: self.rollback_nanos,
            plain_nanos: self.plain_nanos,
            resync_nanos: self.resync_nanos,
            resync_passes: self.resync_passes,
            resync_tokens: self.resync_tokens,
            max_resync_tokens: self.max_resync_tokens,
        }
    }

    /// The line that says how the draft sources fared by evidence.
    pub open spec fn evidence(self) -> PolicyLine {
        PolicyLine::Evidence {
            accepted_on_match: self.mtp_accepted_on_ngram_match,
            proposed_on_match: self.mtp_proposed_on_ngram_match,
            accepted_on_miss: self.mtp_accepted_on_ngram_miss,
            proposed_on_miss: self.mtp_proposed_on_ngram_miss,
        }
    }

    /// The lines of the summary. Nothing is said where decoding ran without
    /// speculation.
    pub open spec fn summary(self) -> Seq<PolicyLine> {
        if !self.reported() {
            Seq::empty()
        } else {
            seq![self.overview()] + line_if(
                0 < self.draft_vocab < self.full_vocab,
                PolicyLine::DraftHead { rows: self.draft_vocab, full: self.full_vocab },
            ) + line_if(
                self.drafted_tokens > 0,
                PolicyLine::Confidence {
                    drafted: self.drafted_tokens,
                    submitted: self.mtp_arm.proposed_tokens,
                    stops: self.confidence_stops,
                    declined: self.declined() as usize,
                },
            ) + line_if(
                self.ngram_arm.took_part(),
                PolicyLine::NgramArm(self.ngram_arm),
            ) + line_if(self.mtp_arm.took_part(), PolicyLine::MtpArm(self.mtp_arm)) + line_if(
                self.mtp_proposed_on_ngram_match + self.mtp_proposed_on_ngram_miss > 0,
                self.evidence(),
            )
        }
    }

    /// The lines of the summary.
    pub fn report_policy(&self) -> (lines: Vec<PolicyLine>)
        requires
            self.reported() ==> self.consistent(),
        ensures
            lines@ == self.summary(),
    {
        let mut lines: Vec<PolicyLine> = Vec::new();
        if !self.mode.is_speculative() || self.steps == 0 {
            return lines;
        }
        lines.push(
            PolicyLine::Summary {
                mode: self.mode,
                steps: self.steps,
                ngram_steps: self.ngram_steps,
                ngram_span_steps: self.ngram_span_steps,
                mtp_steps: self.mtp_steps,
                plain_steps: self.plain_steps,
                steps_with_ngram_match: self.steps_with_ngram_match,
                verification_passes: self.verification_passes,
                verification_tokens: self.verification_tokens,
                rollbacks: self.rollbacks,
                lookup_nanos: self.lookup_nanos,
                draft_nanos: self.draft_nanos,
                verification_nanos: self.verification_nanos,
                snapshot_nanos: self.snapshot_nanos,
                rollback_nanos: self.rollback_nanos,
                plain_nanos: self.plain_nanos,
                resync_nanos: self.resync_nanos,
                resync_passes: self.resync_passes,
                resync_tokens: self.resync_tokens,
                max_resync_tokens: self.max_resync_tokens,
            },
        );
        if self.draft_vocab > 0 && self.draft_vocab < self.full_vocab {
            lines.push(PolicyLine::DraftHead { rows: self.draft_vocab, full: self.full_vocab });
        }
        if self.drafted_tokens > 0 {
            lines.push(
                PolicyLine::Confidence {
                    drafted: self.drafted_tokens,
                    submitted: self.mtp_arm.proposed_tokens,
                    stops: self.confidence_stops,
                    declined: self.drafted_tokens - self.mtp_arm.proposed_tokens,
                },
            );
        }
        if self.ngram_arm.proposals != 0 || self.ngram_arm.suspended_steps != 0 {
            lines.push(PolicyLine::NgramArm(self.ngram_arm));
        }
        if self.mtp_arm.proposals != 0 || self.mtp_arm.suspended_steps != 0 {
            lines.push(PolicyLine::MtpArm(self.mtp_arm));
        }
        if self.mtp_proposed_on_ngram_match + self.mtp_proposed_on_ngram_miss > 0 {
            lines.push(
                PolicyLine::Evidence {
                    accepted_on_match: self.mtp_accepted_on_ngram_match,
                    proposed_on_match: self.mtp_proposed_on_ngram_match,
                    accepted_on_miss: self.mtp_accepted_on_ngram_miss,
                    proposed_on_miss: self.mtp_proposed_on_ngram_miss,
                },
            );
        }
        proof {
            assert(lines@ =~= self.summary());
        }
        lines
    }
}

/// A share of a whole, by position or by length.
#[derive(Debug, Clone, Copy, PartialEq, Eq, Structural)]
pub struct Share {
    pub index: usize,
    pub part: usize,
    pub whole: usize,
}

/// What multi-token prediction came to.
#[derive(Debug, Clone, Copy, PartialEq, Eq, Structural)]
pub struct MtpMetrics {
    /// The longest draft that was allowed, or zero.
    pub max_draft_tokens: usize,
    pub accepted_tokens: usize,
    pub drafted_tokens: usize,
    pub gated_tokens: usize,
    pub verification_passes: usize,
    pub verification_tokens: usize,
    pub rollback_replays: usize,
    pub replayed_tokens: usize,
    pub draft_nanos: u128,
    pub verification_nanos: u128,
    pub checkpoint_nanos: u128,
    pub restore_nanos: u128,
    pub replay_nanos: u128,
    pub resync_nanos: u128,
}

/// What n-gram drafts came to.
#[derive(Debug, Clone, Copy, PartialEq, Eq, Structural)]
pub struct NgramMetrics {
    /// The longest draft that was allowed, or zero.
    pub max_draft_tokens: usize,
    pub min_match: usize,
    pub steps_with_match: usize,
    pub steps: usize,
    pub drafts_issued: usize,
    pub draft_tokens_accepted: usize,
    pub draft_tokens_proposed: usize,
    pub verification_passes: usize,
    pub verification_tokens: usize,
    pub rollbacks: usize,
    pub rollback_replays: usize,
    pub replayed_tokens: usize,
    pub lookup_nanos: u128,
    pub verification_nanos: u128,
    pub snapshot_nanos: u128,
    pub rollback_nanos: u128,
    pub replay_nanos: u128,
    pub target_only_nanos: u128,
}

/// How n-gram drafts ended, and what it took to be able to undo them.
#[derive(Debug, Clone, Copy, PartialEq, Eq, Structural)]
pub struct NgramOutcomes {
    pub fully_accepted_drafts: usize,
    pub rejected_immediately: usize,
    pub drafts_truncated_at_stop: usize,
    pub snapshot_rows: usize,
    pub snapshot_bytes_per_row: usize,
}

/// What the drafts of one length of match came to.
#[derive(Debug, Clone, Copy, PartialEq, Eq, Structural)]
pub struct MatchStats {
    pub match_len: usize,
    pub drafts: usize,
    pub accepted_tokens: usize,
    pub proposed_tokens: usize,
    pub fully_accepted_drafts: usize,
    pub rejected_immediately: usize,
}

/// How much thinking a run did.
#[derive(Debug, Clone, Copy, PartialEq, Eq, Structural)]
pub struct ThinkingMetrics {
    pub budget: Option<usize>,
    pub committed_thinking_tokens: usize,
    pub forced_closures: usize,
}

/// What the expert cache did.
#[derive(Debug, Clone, Copy, PartialEq, Eq, Structural)]
pub struct ExpertCacheStats {
    pub requests: u64,
    pub hits: u64,
    pub bytes_loaded: u64,
    pub resident_bytes: u64,
    pub capacity_bytes: u64,
    pub entries: usize,
    pub fully_resident: bool,
    pub evictions: u64,
}

/// What the report of a run is made from.
#[derive(Debug, Clone)]
pub struct RunCounts {
    pub prompt_token_ids: Vec<u32>,
    pub evaluated_input_token_ids: Vec<u32>,
    pub generated_token_ids: Vec<u32>,
    pub evaluated_input_tokens: usize,
    pub generated_tokens: usize,
    pub prefill_nanos: u128,
    pub decode_nanos: u128,
    pub mtp: MtpMetrics,
    pub ngram: NgramMetrics,
    pub ngram_outcomes: NgramOutcomes,
    pub proposed_by_position: Vec<usize>,
    pub accepted_by_position: Vec<usize>,
    pub matches_by_len: Vec<MatchStats>,
    pub policy: PolicyMetrics,
    pub thinking: ThinkingMetrics,
    pub expert_cache: ExpertCacheStats,
}

/// A line of the report of a run, with all that stands in it. Rates and shares
/// follow from the counts.
#[derive(Debug, Clone, Copy, PartialEq, Eq)]
pub enum ReportLine<'a> {
    /// The ids of the prompt.
    PromptIds(&'a Vec<u32>),
    /// The ids that were evaluated, where a pending token made them differ.
    EvaluatedIds(&'a Vec<u32>),
    /// The ids that were generated.
    GeneratedIds(&'a Vec<u32>),
    /// How fast the input was read and the output written.
    Speed {
        input_tokens: usize,
        prefill_nanos: u128,
        decode_passes: usize,
        decode_nanos: u128,
        context_tokens: usize,
    },
    /// What multi-token prediction came to.
    Mtp(MtpMetrics),
    /// What n-gram drafts came to.
    Ngram(NgramMetrics),
    /// How many drafted n-gram tokens were accepted at each position, and how
    /// many were proposed there.
    NgramPositions { accepted: &'a Vec<usize>, proposed: &'a Vec<usize> },
    /// What n-gram drafts came to by the length of their match.
    NgramMatches(&'a Vec<MatchStats>),
    /// How n-gram drafts ended.
    NgramOutcomes(NgramOutcomes),
    /// What the two draft sources came to together.
    Policy(PolicyLine),
    /// How much of a budget thinking took.
    Thinking { committed_tokens: usize, budget: usize, forced_closures: usize },
    /// What the expert cache did.
    ExpertCache(ExpertCacheStats),
    /// What the process took of the machine.
    Process {
        read_bytes: u64,
        minor_faults: u64,
        major_faults: u64,
        resident_bytes: u64,
        peak_bytes: u64,
    },
}

/// A count, or zero where it is not known.
pub open spec fn known(count: Option<u64>) -> u64 {
    match count {
        Some(count) => count,
        None => 0,
    }
}

/// A count, or zero where it is not known.
fn or_zero(count: Option<u64>) -> (n: u64)
    ensures
        n == known(count),
{
    match count {
        Some(count) => count,
        None => 0,
    }
}

/// The passes that decoding took: the first token comes from the prompt's own
/// pass.
pub open spec fn passes(generated_tokens: usize) -> usize {
    if generated_tokens > 0 {
        (generated_tokens - 1) as usize
    } else {
        0
    }
}

/// The passes that decoding took.
pub fn decode_passes(generated_tokens: usize) -> (count: usize)
    ensures
        count == passes(generated_tokens),
{
    generated_tokens.saturating_sub(1)
}

/// Whether two lists of token ids are the same.
pub fn same_tokens(a: &[u32], b: &[u32]) -> (same: bool)
    ensures
        same == (a@ == b@),
{
    let n: usize = a.len();
    if n != b.len() {
        return false;
    }
    let mut i: usize = 0;
    while i < n
        invariant
            n == a@.len(),
            n == b@.len(),
            i <= n,
            a@.take(i as int) == b@.take(i as int),
        decreases n - i,
    {
        if a[i] != b[i] {
            return false;
        }
        proof {
            assert(a@.take(i + 1) =~= a@.take(i as int).push(a@[i as int]));
            assert(b@.take(i + 1) =~= b@.take(i as int).push(b@[i as int]));
        }
        i += 1;
    }
    proof {
        assert(a@.take(n as int) =~= a@);
        assert(b@.take(n as int) =~= b@);
    }
    true
}

impl RunCounts {
    /// The lines that speak of n-gram drafts.
    pub open spec fn ngram_lines(&self) -> Seq<ReportLine<'_>> {
        if self.ngram.max_draft_tokens > 0 {
            seq![
                ReportLine::Ngram(self.ngram),
                ReportLine::NgramPositions {
                    accepted: &self.accepted_by_position,
                    proposed: &self.proposed_by_position,
                },
                ReportLine::NgramMatches(&self.matches_by_len),
                ReportLine::NgramOutcomes(self.ngram_outcomes),
            ]
        } else {
            Seq::empty()
        }
    }

    /// The lines before those of the draft sources.
    pub open spec fn first_lines(&self, context_tokens: usize) -> Seq<ReportLine<'_>> {
        seq![ReportLine::PromptIds(&self.prompt_token_ids)] + line_if(
            self.evaluated_input_token_ids@ != self.prompt_token_ids@,
            ReportLine::EvaluatedIds(&self.evaluated_input_token_ids),
        ) + seq![
            ReportLine::GeneratedIds(&self.generated_token_ids),
            ReportLine::Speed {
                input_tokens: self.evaluated_input_tokens,
                prefill_nanos: self.prefill_nanos,
                decode_passes: passes(self.generated_tokens),
                decode_nanos: self.decode_nanos,
                context_tokens,
            },
        ] + line_if(self.mtp.max_draft_tokens > 0, ReportLine::Mtp(self.mtp)) + self.ngram_lines()
    }

    /// The lines of the draft sources.
    pub open spec fn policy_lines(&self) -> Seq<ReportLine<'_>> {
        self.policy.summary().map_values(|line: PolicyLine| ReportLine::Policy(line))
    }

    /// The lines after those of the draft sources.
    pub open spec fn last_lines(&self, process: ProcessDelta) -> Seq<ReportLine<'_>> {
        line_if(
            self.thinking.budget is Some,
            ReportLine::Thinking {
                committed_tokens: self.thinking.committed_thinking_tokens,
                budget: self.thinking.budget->Some_0,
                forced_closures: self.thinking.forced_closures,
            },
        ) + seq![
            ReportLine::ExpertCache(self.expert_cache),
            ReportLine::Process {
                read_bytes: known(process.read_bytes),
                minor_faults: known(process.minor_faults),
                major_faults: known(process.major_faults),
                resident_bytes: known(process.resident_bytes_after),
                peak_bytes: known(process.peak_resident_bytes),
            },
        ]
    }

    /// The lines before those of the draft sources.
    fn begin_report(&self, context_tokens: usize) -> (lines: Vec<ReportLine<'_>>)
        ensures
            lines@ == self.first_lines(context_tokens),
    {
        let mut lines: Vec<ReportLine<'_>> = Vec::new();
        lines.push(ReportLine::PromptIds(&self.prompt_token_ids));
        if !same_tokens(
            self.evaluated_input_token_ids.as_slice(),
            self.prompt_token_ids.as_slice(),
        ) {
            lines.push(ReportLine::EvaluatedIds(&self.evaluated_input_token_ids));
        }
        lines.push(ReportLine::GeneratedIds(&self.generated_token_ids));
        lines.push(
            ReportLine::Speed {
                input_tokens: self.evaluated_input_tokens,
                prefill_nanos: self.prefill_nanos,
                decode_passes: decode_passes(self.generated_tokens),
                decode_nanos: self.decode_nanos,
                context_tokens,
            },
        );
        if self.mtp.max_draft_tokens > 0 {
            lines.push(ReportLine::Mtp(self.mtp));
        }
        let ghost so_far = lines@;
        proof {
            assert(so_far + self.ngram_lines() =~= self.first_lines(context_tokens));
        }
        if self.ngram.max_draft_tokens > 0 {
            lines.push(ReportLine::Ngram(self.ngram));
            lines.push(
                ReportLine::NgramPositions {
                    accepted: &self.accepted_by_position,
                    proposed: &self.proposed_by_position,
                },
            );
            lines.push(ReportLine::NgramMatches(&self.matches_by_len));
            lines.push(ReportLine::NgramOutcomes(self.ngram_outcomes));
        }
        proof {
            assert(lines@ =~= so_far + self.ngram_lines());
        }
        lines
    }

    /// Appends the lines after those of the draft sources.
    fn end_report<'a>(&'a self, process: &ProcessDelta, lines: &mut Vec<ReportLine<'a>>)
        ensures
            final(lines)@ == old(lines)@ + self.last_lines(*process),
    {
        if let Some(budget) = self.thinking.budget {
            lines.push(
                ReportLine::Thinking {
                    committed_tokens: self.thinking.committed_thinking_tokens,
                    budget,
                    forced_closures: self.thinking.forced_closures,
                },
            );
        }
        lines.push(ReportLine::ExpertCache(self.expert_cache));
        lines.push(
            ReportLine::Process {
                read_bytes: or_zero(process.read_bytes),
                minor_faults: or_zero(process.minor_faults),
                major_faults: or_zero(process.major_faults),
                resident_bytes: or_zero(process.resident_bytes_after),
                peak_bytes: or_zero(process.peak_resident_bytes),
            },
        );
        proof {
            assert(lines@ =~= old(lines)@ + self.last_lines(*process));
        }
    }

    /// The lines of the report.
    pub fn report<'a>(&'a self, context_tokens: usize, process: &ProcessDelta) -> (lines: Vec<
        ReportLine<'a>,
    >)
        requires
            self.policy.reported() ==> self.policy.consistent(),
        ensures
            lines@ == self.first_lines(context_tokens) + self.policy_lines() + self.last_lines(
                *process,
            ),
    {
        let mut lines: Vec<ReportLine<'a>> = self.begin_report(context_tokens);
        let policy: Vec<PolicyLine> = self.policy.report_policy();
        let count: usize = policy.len();
        let ghost head = lines@;
        let ghost whole = self.policy_lines();
        let mut i: usize = 0;
        while i < count
            invariant
                i <= count,
                count == policy@.len(),
                policy@ == self.policy.summary(),
                whole == self.policy_lines(),
                lines@ == head + whole.take(i as int),
            decreases count - i,
        {
            proof {
                assert(head + whole.take(i + 1) =~= (head + whole.take(i as int)).push(
                    ReportLine::Policy(policy@[i as int]),
                ));
            }
            lines.push(ReportLine::Policy(policy[i]));
            i += 1;
        }
        proof {
            assert(whole.take(count as int) =~= whole);
        }
        self.end_report(process, &mut lines);
        lines
    }

    /// How many drafted tokens were accepted at each position.
    pub fn positions(&self) -> (shares: Vec<Share>)
        requires
            self.accepted_by_position@.len() == self.proposed_by_position@.len(),
        ensures
            shares@ == Seq::new(
                self.proposed_by_position@.len(),
                |i: int|
                    Share {
                        index: i as usize,
                        part: self.accepted_by_position@[i],
                        whole: self.proposed_by_position@[i],
                    },
            ),
    {
        let count: usize = self.proposed_by_position.len();
        let mut shares: Vec<Share> = Vec::new();
        let mut i: usize = 0;
        while i < count
            invariant
                i <= count,
                count == self.proposed_by_position@.len(),
                self.accepted_by_position@.len() == count,
                shares@ == Seq::new(
                    i as nat,
                    |i: int|
                        Share {
                            index: i as usize,
                            part: self.accepted_by_position@[i],
                            whole: self.proposed_by_position@[i],
                        },
                ),
            decreases count - i,
        {
            shares.push(
                Share {
                    index: i,
                    part: self.accepted_by_position[i],
                    whole: self.proposed_by_position[i],
                },
            );
            i += 1;
            proof {
                assert(shares@ =~= Seq::new(
                    i as nat,
                    |i: int|
                        Share {
                            index: i as usize,
                            part: self.accepted_by_position@[i],
                            whole: self.proposed_by_position@[i],
                        },
                ));
            }
        }
        shares
    }
}

/// Whether a warmup says how far it is: after every few tensors, and at the end.
pub fn announces(completed: usize, total: usize, every: usize) -> (says: bool)
    requires
        every > 0,
    ensures
        says == (completed as int % every as int == 0 || completed == total),
{
    completed % every == 0 || completed == total
}

/// What one decoding step did. Averages are given as they are to be printed.
#[derive(Debug, Clone, PartialEq, Eq)]
pub struct StepRecord {
    pub step: usize,
    pub committed_before: usize,
    pub arm: String,
    pub proposed: usize,
    pub accepted: usize,
    pub ngram_len: usize,
    pub mtp_depth: usize,
    pub ngram_ewma: String,
    pub mtp_ewma: String,
    pub ngram_suspended: bool,
    pub mtp_suspended: bool,
    pub ngram_match_len: usize,
    pub resync_tokens: usize,
}

/// A truth value in words.
pub open spec fn truth(value: bool) -> Seq<char> {
    if value {
        "true"@
    } else {
        "false"@
    }
}

/// A truth value in words.
fn truth_text(value: bool) -> (text: &'static str)
    ensures
        text@ == truth(value),
{
    if value {
        "true"
    } else {
        "false"
    }
}

impl StepRecord {
    /// The record as an object of a JSON Lines file.
    pub open spec fn text(&self) -> Seq<char> {
        "{\"step\":"@ + decimal(self.step as nat) + ",\"committed\":"@ + decimal(
            self.committed_before as nat,
        ) + ",\"arm\":\""@ + self.arm@ + "\",\"proposed\":"@ + decimal(self.proposed as nat)
            + ",\"accepted\":"@ + decimal(self.accepted as nat) + ",\"ngram_len\":"@ + decimal(
            self.ngram_len as nat,
        ) + ",\"mtp_depth\":"@ + decimal(self.mtp_depth as nat) + ",\"ngram_ewma\":"@
            + self.ngram_ewma@ + ",\"mtp_ewma\":"@ + self.mtp_ewma@ + ",\"ngram_suspended\":"@
            + truth(self.ngram_suspended) + ",\"mtp_suspended\":"@ + truth(self.mtp_suspended)
            + ",\"ngram_match_len\":"@ + decimal(self.ngram_match_len as nat)
            + ",\"resync_tokens\":"@ + decimal(self.resync_tokens as nat) + "}"@
    }

    /// The record as an object of a JSON Lines file.
    pub fn line(&self) -> (text: String)
        ensures
            text@ == self.text(),
    {
        let mut text = "{\"step\":".to_owned();
        text.append(decimal_text(self.step).as_str());
        text.append(",\"committed\":");
        text.append(decimal_text(self.committed_before).as_str());
        text.append(",\"arm\":\"");
        text.append(self.arm.as_str());
        text.append("\",\"proposed\":");
        text.append(decimal_text(self.proposed).as_str());
        text.append(",\"accepted\":");
        text.append(decimal_text(self.accepted).as_str());
        text.append(",\"ngram_len\":");
        text.append(decimal_text(self.ngram_len).as_str());
        text.append(",\"mtp_depth\":");
        text.append(decimal_text(self.mtp_depth).as_str());
        text.append(",\"ngram_ewma\":");
        text.append(self.ngram_ewma.as_str());
        text.append(",\"mtp_ewma\":");
        text.append(self.mtp_ewma.as_str());
        text.append(",\"ngram_suspended\":");
        text.append(truth_text(self.ngram_suspended));
        text.append(",\"mtp_suspended\":");
        text.append(truth_text(self.mtp_suspended));
        text.append(",\"ngram_match_len\":");
        text.append(decimal_text(self.ngram_match_len).as_str());
        text.append(",\"resync_tokens\":");
        text.append(decimal_text(self.resync_tokens).as_str());
        text.append("}");
        text
    }
}

/// What became of one drafted token. Fractions are given as they are to be
/// printed.
#[derive(Debug, Clone, PartialEq, Eq)]
pub struct DraftObservation {
    pub depth: usize,
    pub logit_margin: String,
    pub probability: String,
    pub accepted: bool,
    pub gated: bool,
}

impl DraftObservation {
    /// The observation as an object of a JSON Lines file.
    pub open spec fn text(&self) -> Seq<char> {
        "{\"depth\":"@ + decimal(self.depth as nat) + ",\"margin\":"@ + self.logit_margin@
            + ",\"probability\":"@ + self.probability@ + ",\"accepted\":"@ + truth(self.accepted)
            + ",\"gated\":"@ + truth(self.gated) + "}"@
    }

    /// The observation as an object of a JSON Lines file.
    pub fn line(&self) -> (text: String)
        ensures
            text@ == self.text(),
    {
        let mut text = "{\"depth\":".to_owned();
        text.append(decimal_text(self.depth).as_str());
        text.append(",\"margin\":");
        text.append(self.logit_margin.as_str());
        text.append(",\"probability\":");
        text.append(self.probability.as_str());
        text.append(",\"accepted\":");
        text.append(truth_text(self.accepted));
        text.append(",\"gated\":");
        text.append(truth_text(self.gated));
        text.append("}");
        text
    }
}

} // verus!
