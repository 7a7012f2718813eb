//! What an inference run decides: whether its arguments go together, what the
//! decoder is asked for, how an interactive session goes on from one line to
//! the next, and which experts a census warms.

use crate::options::{
    effective_cap, effective_floor, DraftLimits, GenerationOptions, PolicyTuning, SpeculativeMode,
};
use crate::text::{chars_of, decimal, decimal_text, same_chars};
use crate::words::{trim, trimmed};
use vstd::prelude::*;

verus! {

/// What a run is started with.
#[derive(Debug, Clone)]
pub struct InferArgs<S: Copy, D: Copy> {
    pub prompt: Option<String>,
    pub max_new_tokens: usize,
    pub interactive: bool,
    pub no_thinking: bool,
    pub thinking_budget: Option<usize>,
    pub routing_trace: Option<String>,
    pub trace_router_logits: bool,
    pub routing_census: Option<String>,
    pub speculative: SpeculativeMode,
    /// Deprecated: selects the multi-token-prediction arm and its cap.
    pub speculative_mtp: usize,
    pub speculative_mtp_min_margin: Option<S>,
    pub mtp_draft_vocab: usize,
    pub mtp_min_confidence: S,
    /// Deprecated: selects the n-gram arm and its cap.
    pub speculative_ngram: usize,
    pub ngram_min_match: usize,
    pub ngram_draft_cap: usize,
    pub ngram_draft_floor: usize,
    pub mtp_depth_cap: usize,
    pub mtp_depth_floor: usize,
    pub mtp_depth_start: usize,
    pub ngram_suspend_below: D,
    pub mtp_suspend_below: D,
    pub ewma_alpha: D,
    pub backoff_tokens: usize,
    pub backoff_cap: usize,
    pub no_span_continuation: bool,
    pub no_adaptive_length: bool,
    pub no_ewma_backoff: bool,
    pub eager_mtp_resync: bool,
    pub speculative_trace: Option<String>,
    pub draft_calibration: Option<String>,
}

/// Why a run does not start.
#[derive(Debug, Clone, Copy, PartialEq, Eq, Structural)]
pub enum InferError {
    NoNewTokens,
    NoPrompt,
    LogitsWithoutTrace,
    MtpAliasForAnotherMode,
    NgramAliasForAnotherMode,
    MarginWithoutMtp,
    RoutingWhileSpeculating,
    TraceWithoutSpeculation,
    CalibrationWithoutMtp,
    NoDraftCap,
    ThinkingUnsupported,
    NoWarmExperts,
    EmptyCensus,
    WarmupTooLarge,
}

impl InferError {
    /// What is wrong, in words.
    pub open spec fn text(self) -> Seq<char> {
        match self {
            InferError::NoNewTokens => "--max-new-tokens must be at least one"@,
            InferError::NoPrompt => "--prompt is required unless --interactive is used"@,
            InferError::LogitsWithoutTrace => "--trace-router-logits requires --routing-trace"@,
            InferError::MtpAliasForAnotherMode =>
                "--speculative-mtp is a deprecated alias for --speculative mtp and cannot select another mode"@,
            InferError::NgramAliasForAnotherMode =>
                "--speculative-ngram is a deprecated alias for --speculative ngram and cannot select another mode"@,
            InferError::MarginWithoutMtp =>
                "--speculative-mtp-min-margin requires a mode that uses the MTP arm"@,
            InferError::RoutingWhileSpeculating =>
                "speculative decoding does not support routing traces or censuses"@,
            InferError::TraceWithoutSpeculation =>
                "--speculative-trace requires a speculative mode"@,
            InferError::CalibrationWithoutMtp =>
                "--draft-calibration requires a mode that uses the MTP arm"@,
            InferError::NoDraftCap => "draft caps must be at least one"@,
            InferError::ThinkingUnsupported =>
                "--no-thinking and --thinking-budget require a Qwen chat template with thinking support"@,
            InferError::NoWarmExperts => "--warmup-experts-per-layer must be at least one"@,
            InferError::EmptyCensus => "routing census contains no layers"@,
            InferError::WarmupTooLarge => "expert warmup byte count overflowed"@,
        }
    }

    /// What is wrong, in words.
    pub fn message(&self) -> (text: &'static str)
        ensures
            text@ == self.text(),
    {
        match self {
            InferError::NoNewTokens => "--max-new-tokens must be at least one",
            InferError::NoPrompt => "--prompt is required unless --interactive is used",
            InferError::LogitsWithoutTrace => "--trace-router-logits requires --routing-trace",
            InferError::MtpAliasForAnotherMode =>
                "--speculative-mtp is a deprecated alias for --speculative mtp and cannot select another mode",
            InferError::NgramAliasForAnotherMode =>
                "--speculative-ngram is a deprecated alias for --speculative ngram and cannot select another mode",
            InferError::MarginWithoutMtp =>
                "--speculative-mtp-min-margin requires a mode that uses the MTP arm",
            InferError::RoutingWhileSpeculating =>
                "speculative decoding does not support routing traces or censuses",
            InferError::TraceWithoutSpeculation =>
                "--speculative-trace requires a speculative mode",
            InferError::CalibrationWithoutMtp =>
                "--draft-calibration requires a mode that uses the MTP arm",
            InferError::NoDraftCap => "draft caps must be at least one",
            InferError::ThinkingUnsupported =>
                "--no-thinking and --thinking-budget require a Qwen chat template with thinking support",
            InferError::NoWarmExperts => "--warmup-experts-per-layer must be at least one",
            InferError::EmptyCensus => "routing census contains no layers",
            InferError::WarmupTooLarge => "expert warmup byte count overflowed",
        }
    }
}

/// What a run is warned of.
#[derive(Debug, Clone, Copy, PartialEq, Eq, Structural)]
pub enum Warning {
    /// The deprecated cap of the multi-token-prediction arm was used.
    DeprecatedMtp(usize),
    /// The deprecated cap of the n-gram arm was used.
    DeprecatedNgram(usize),
    /// A controller's floor was above its cap; both floors as they stand now.
    ClampedFloors { ngram: usize, mtp: usize },
}

impl Warning {
    /// The warning in words.
    pub open spec fn text(self) -> Seq<char> {
        match self {
            Warning::DeprecatedMtp(cap) =>
                "warning: --speculative-mtp is deprecated; use --speculative mtp --mtp-depth-cap "@
                    + decimal(cap as nat),
            Warning::DeprecatedNgram(cap) =>
                "warning: --speculative-ngram is deprecated; use --speculative ngram --ngram-draft-cap "@
                    + decimal(cap as nat),
            Warning::ClampedFloors { ngram, mtp } =>
                "warning: clamping controller floors to their caps (n-gram "@ + decimal(
                    ngram as nat,
                ) + ", MTP "@ + decimal(mtp as nat) + ")"@,
        }
    }

    /// The warning in words.
    pub fn message(&self) -> (text: String)
        ensures
            text@ == self.text(),
    {
        match self {
            Warning::DeprecatedMtp(cap) => {
                let mut text =
                    "warning: --speculative-mtp is deprecated; use --speculative mtp --mtp-depth-cap ".to_owned();
                text.append(decimal_text(*cap).as_str());
                text
            },
            Warning::DeprecatedNgram(cap) => {
                let mut text =
                    "warning: --speculative-ngram is deprecated; use --speculative ngram --ngram-draft-cap ".to_owned();
                text.append(decimal_text(*cap).as_str());
                text
            },
            Warning::ClampedFloors { ngram, mtp } => {
                let mut text =
                    "warning: clamping controller floors to their caps (n-gram ".to_owned();
                text.append(decimal_text(*ngram).as_str());
                text.append(", MTP ");
                text.append(decimal_text(*mtp).as_str());
                text.append(")");
                text
            },
        }
    }
}

/// The draft sources and their caps as the arguments settle them.
#[derive(Debug, Clone, Copy, PartialEq, Eq, Structural)]
pub struct DraftPlan {
    pub mode: SpeculativeMode,
    pub ngram_cap: usize,
    pub mtp_cap: usize,
}

/// What came of looking at the arguments. The warnings stand whether or not the
/// run starts.
#[derive(Debug)]
pub struct Resolution {
    pub warnings: Vec<Warning>,
    pub plan: Result<DraftPlan, InferError>,
}

impl<S: Copy, D: Copy> InferArgs<S, D> {
    /// The mode once the first deprecated flag has been looked at.
    pub open spec fn mode_after_mtp(&self) -> SpeculativeMode {
        if self.speculative_mtp > 0 {
            SpeculativeMode::Mtp
        } else {
            self.speculative
        }
    }

    /// The draft sources and their caps: each deprecated flag selects its arm
    /// and that arm's cap.
    pub open spec fn drafts(&self) -> DraftPlan {
        DraftPlan {
            mode: if self.speculative_ngram > 0 {
                SpeculativeMode::Ngram
            } else {
                self.mode_after_mtp()
            },
            ngram_cap: if self.speculative_ngram > 0 {
                self.speculative_ngram
            } else {
                self.ngram_draft_cap
            },
            mtp_cap: if self.speculative_mtp > 0 {
                self.speculative_mtp
            } else {
                self.mtp_depth_cap
            },
        }
    }

    /// What is wrong with the arguments apart from the draft sources.
    pub open spec fn first_problem(&self) -> Option<InferError> {
        if self.max_new_tokens == 0 {
            Some(InferError::NoNewTokens)
        } else if !self.interactive && self.prompt is None {
            Some(InferError::NoPrompt)
        } else if self.routing_trace is None && self.trace_router_logits {
            Some(InferError::LogitsWithoutTrace)
        } else {
            None
        }
    }

    /// Whether the multi-token-prediction alias stands against another mode.
    pub open spec fn mtp_alias_misused(&self) -> bool {
        self.speculative_mtp > 0 && self.speculative != SpeculativeMode::Off && self.speculative
            != SpeculativeMode::Mtp
    }

    /// Whether the n-gram alias stands against another mode.
    pub open spec fn ngram_alias_misused(&self) -> bool {
        self.speculative_ngram > 0 && self.mode_after_mtp() != SpeculativeMode::Off
            && self.mode_after_mtp() != SpeculativeMode::Ngram
    }

    /// What is wrong with the arguments given the draft sources they select.
    pub open spec fn draft_problem(&self) -> Option<InferError> {
        let plan = self.drafts();
        if self.speculative_mtp_min_margin is Some && !plan.mode.drafts_with_mtp() {
            Some(InferError::MarginWithoutMtp)
        } else if plan.mode.speculates() && (self.routing_trace is Some || self.routing_census
            is Some) {
            Some(InferError::RoutingWhileSpeculating)
        } else if self.speculative_trace is Some && !plan.mode.speculates() {
            Some(InferError::TraceWithoutSpeculation)
        } else if self.draft_calibration is Some && !plan.mode.drafts_with_mtp() {
            Some(InferError::CalibrationWithoutMtp)
        } else if plan.ngram_cap == 0 || plan.mtp_cap == 0 {
            Some(InferError::NoDraftCap)
        } else {
            None
        }
    }

    /// The first thing wrong with the arguments.
    pub open spec fn problem(&self) -> Option<InferError> {
        if self.first_problem() is Some {
            self.first_problem()
        } else if self.mtp_alias_misused() {
            Some(InferError::MtpAliasForAnotherMode)
        } else if self.ngram_alias_misused() {
            Some(InferError::NgramAliasForAnotherMode)
        } else {
            self.draft_problem()
        }
    }

    /// Whether a controller's floor is above its cap.
    pub open spec fn floors_too_high(&self) -> bool {
        self.ngram_draft_floor > self.drafts().ngram_cap || self.mtp_depth_floor
            > self.drafts().mtp_cap
    }

    /// What the run is warned of, up to the first thing that is wrong.
    pub open spec fn warned(&self) -> Seq<Warning> {
        if self.first_problem() is Some || self.mtp_alias_misused() {
            Seq::empty()
        } else {
            let first = if self.speculative_mtp > 0 {
                seq![Warning::DeprecatedMtp(self.speculative_mtp)]
            } else {
                Seq::empty()
            };
            if self.ngram_alias_misused() {
                first
            } else {
                let second = if self.speculative_ngram > 0 {
                    first.push(Warning::DeprecatedNgram(self.speculative_ngram))
                } else {
                    first
                };
                if self.draft_problem() is None && self.floors_too_high() {
                    second.push(
                        Warning::ClampedFloors {
                            ngram: crate::options::least(
                                self.ngram_draft_floor,
                                self.drafts().ngram_cap,
                            ),
                            mtp: crate::options::least(
                                self.mtp_depth_floor,
                                self.drafts().mtp_cap,
                            ),
                        },
                    )
                } else {
                    second
                }
            }
        }
    }

    /// Settles the draft sources, or says what is wrong with the arguments.
    pub fn resolve(&self) -> (resolution: Resolution)
        ensures
            resolution.warnings@ == self.warned(),
            match resolution.plan {
                Ok(plan) => self.problem() is None && plan == self.drafts(),
                Err(error) => self.problem() == Some(error),
            },
    {
        let mut warnings: Vec<Warning> = Vec::new();
        if self.max_new_tokens == 0 {
            return Resolution { warnings, plan: Err(InferError::NoNewTokens) };
        }
        if !self.interactive && self.prompt.is_none() {
            return Resolution { warnings, plan: Err(InferError::NoPrompt) };
        }
        if self.routing_trace.is_none() && self.trace_router_logits {
            return Resolution { warnings, plan: Err(InferError::LogitsWithoutTrace) };
        }
        let mut mode: SpeculativeMode = self.speculative;
        let mut ngram_cap: usize = self.ngram_draft_cap;
        let mut mtp_cap: usize = self.mtp_depth_cap;
        if self.speculative_mtp > 0 {
            if mode != SpeculativeMode::Off && mode != SpeculativeMode::Mtp {
                return Resolution { warnings, plan: Err(InferError::MtpAliasForAnotherMode) };
            }
            warnings.push(Warning::DeprecatedMtp(self.speculative_mtp));
            mode = SpeculativeMode::Mtp;
            mtp_cap = self.speculative_mtp;
        }
        proof {
            assert(warnings@ =~= if self.speculative_mtp > 0 {
                seq![Warning::DeprecatedMtp(self.speculative_mtp)]
            } else {
                Seq::empty()
            });
        }
        if self.speculative_ngram > 0 {
            if mode != SpeculativeMode::Off && mode != SpeculativeMode::Ngram {
                return Resolution { warnings, plan: Err(InferError::NgramAliasForAnotherMode) };
            }
            warnings.push(Warning::DeprecatedNgram(self.speculative_ngram));
            mode = SpeculativeMode::Ngram;
            ngram_cap = self.speculative_ngram;
        }
        if self.speculative_mtp_min_margin.is_some() && !mode.allows_mtp() {
            return Resolution { warnings, plan: Err(InferError::MarginWithoutMtp) };
        }
        if mode.is_speculative() && (self.routing_trace.is_some() || self.routing_census.is_some())
        {
            return Resolution { warnings, plan: Err(InferError::RoutingWhileSpeculating) };
        }
        if self.speculative_trace.is_some() && !mode.is_speculative() {
            return Resolution { warnings, plan: Err(InferError::TraceWithoutSpeculation) };
        }
        if self.draft_calibration.is_some() && !mode.allows_mtp() {
            return Resolution { warnings, plan: Err(InferError::CalibrationWithoutMtp) };
        }
        if ngram_cap == 0 || mtp_cap == 0 {
            return Resolution { warnings, plan: Err(InferError::NoDraftCap) };
        }
        if self.ngram_draft_floor > ngram_cap || self.mtp_depth_floor > mtp_cap {
            let ngram: usize = if self.ngram_draft_floor <= ngram_cap {
                self.ngram_draft_floor
            } else {
                ngram_cap
            };
            let mtp: usize = if self.mtp_depth_floor <= mtp_cap {
                self.mtp_depth_floor
            } else {
                mtp_cap
            };
            warnings.push(Warning::ClampedFloors { ngram, mtp });
        }
        Resolution { warnings, plan: Ok(DraftPlan { mode, ngram_cap, mtp_cap }) }
    }

    /// What the decoder is asked for, over the settings that no argument names.
    pub open spec fn asked(
        &self,
        plan: DraftPlan,
        base: GenerationOptions<S, D>,
    ) -> GenerationOptions<S, D> {
        GenerationOptions {
            max_new_tokens: self.max_new_tokens,
            speculative_mode: plan.mode,
            policy: PolicyTuning {
                ngram_draft_floor: effective_floor(
                    plan.mode,
                    self.ngram_draft_floor,
                    plan.ngram_cap,
                ),
                mtp_depth_floor: effective_floor(plan.mode, self.mtp_depth_floor, plan.mtp_cap),
                mtp_depth_start: self.mtp_depth_start,
                ngram_suspend_below: self.ngram_suspend_below,
                mtp_suspend_below: self.mtp_suspend_below,
                ewma_alpha: self.ewma_alpha,
                backoff_tokens: self.backoff_tokens,
                backoff_cap: self.backoff_cap,
                span_continuation: !self.no_span_continuation,
                adaptive_length: !self.no_adaptive_length,
                ewma_backoff: !self.no_ewma_backoff,
                eager_mtp_resync: self.eager_mtp_resync,
            },
            speculative_mtp_draft_tokens: effective_cap(plan.mode, plan.mtp_cap),
            speculative_mtp_min_margin: self.speculative_mtp_min_margin,
            mtp_draft_vocab: self.mtp_draft_vocab,
            mtp_min_confidence: self.mtp_min_confidence,
            speculative_ngram_draft_tokens: effective_cap(plan.mode, plan.ngram_cap),
            ngram_min_match: self.ngram_min_match,
            thinking_budget: self.thinking_budget,
            sampling: base.sampling,
            stop_tokens: base.stop_tokens,
            add_special_tokens: base.add_special_tokens,
        }
    }

    /// What the decoder is asked for.
    pub fn options(&self, plan: DraftPlan, base: GenerationOptions<S, D>) -> (options:
        GenerationOptions<S, D>)
        ensures
            options == self.asked(plan, base),
    {
        let limits: DraftLimits = DraftLimits {
            ngram_cap: plan.ngram_cap,
            ngram_floor: self.ngram_draft_floor,
            mtp_cap: plan.mtp_cap,
            mtp_floor: self.mtp_depth_floor,
        }.within(plan.mode);
        GenerationOptions {
            max_new_tokens: self.max_new_tokens,
            speculative_mode: plan.mode,
            policy: PolicyTuning {
                ngram_draft_floor: limits.ngram_floor,
                mtp_depth_floor: limits.mtp_floor,
                mtp_depth_start: self.mtp_depth_start,
                ngram_suspend_below: self.ngram_suspend_below,
                mtp_suspend_below: self.mtp_suspend_below,
                ewma_alpha: self.ewma_alpha,
                backoff_tokens: self.backoff_tokens,
                backoff_cap: self.backoff_cap,
                span_continuation: !self.no_span_continuation,
                adaptive_length: !self.no_adaptive_length,
                ewma_backoff: !self.no_ewma_backoff,
                eager_mtp_resync: self.eager_mtp_resync,
            },
            speculative_mtp_draft_tokens: limits.mtp_cap,
            speculative_mtp_min_margin: self.speculative_mtp_min_margin,
            mtp_draft_vocab: self.mtp_draft_vocab,
            mtp_min_confidence: self.mtp_min_confidence,
            speculative_ngram_draft_tokens: limits.ngram_cap,
            ngram_min_match: self.ngram_min_match,
            thinking_budget: self.thinking_budget,
            sampling: base.sampling,
            stop_tokens: base.stop_tokens,
            add_special_tokens: base.add_special_tokens,
        }
    }

    /// Whether the chat template can do what is asked of thinking.
    pub fn check_thinking(&self, supported: bool) -> (result: Result<(), InferError>)
        ensures
            result == if (self.no_thinking || self.thinking_budget is Some) && !supported {
                Err::<(), InferError>(InferError::ThinkingUnsupported)
            } else {
                Ok::<(), InferError>(())
            },
    {
        if (self.no_thinking || self.thinking_budget.is_some()) && !supported {
            return Err(InferError::ThinkingUnsupported);
        }
        Ok(())
    }
}

/// A deprecated flag means what it always meant: its arm alone, capped at its
/// value, with a floor that the cap does not leave behind.
pub proof fn deprecated_caps_keep_their_meaning<S: Copy, D: Copy>(
    args: InferArgs<S, D>,
    base: GenerationOptions<S, D>,
)
    requires
        args.problem() is None,
    ensures
        args.speculative_mtp > 0 ==> {
            let asked = args.asked(args.drafts(), base);
            &&& asked.speculative_mode == SpeculativeMode::Mtp
            &&& asked.speculative_mtp_draft_tokens == args.speculative_mtp
            &&& asked.policy.mtp_depth_floor <= args.speculative_mtp
        },
        args.speculative_ngram > 0 ==> {
            let asked = args.asked(args.drafts(), base);
            &&& asked.speculative_mode == SpeculativeMode::Ngram
            &&& asked.speculative_ngram_draft_tokens == args.speculative_ngram
            &&& asked.policy.ngram_draft_floor <= args.speculative_ngram
        },
{
}

/// What a line typed into an interactive session asks for.
#[derive(Debug, Clone, Copy, PartialEq, Eq, Structural)]
pub enum Command {
    /// Nothing: the line is blank.
    Skip,
    /// The end of the session.
    Quit,
    /// A fresh sequence.
    Reset,
    /// A turn whose text is the line.
    Turn,
}

/// What a line asks for: white space around it does not count, and a command
/// stands alone.
pub open spec fn asked_of(line: Seq<char>) -> Command {
    let line = trimmed(line);
    if line == ""@ {
        Command::Skip
    } else if line == "/quit"@ || line == "/exit"@ {
        Command::Quit
    } else if line == "/reset"@ {
        Command::Reset
    } else {
        Command::Turn
    }
}

/// Whether characters spell the given text.
fn spells(characters: &[char], text: &str) -> (same: bool)
    ensures
        same == (characters@ == text@),
{
    let wanted: Vec<char> = chars_of(text);
    same_chars(characters, wanted.as_slice())
}

/// What a line asks for.
pub fn command(line: &str) -> (command: Command)
    ensures
        command == asked_of(line@),
{
    let characters: Vec<char> = chars_of(line);
    let line: Vec<char> = trim(characters.as_slice());
    if spells(line.as_slice(), "") {
        Command::Skip
    } else if spells(line.as_slice(), "/quit") || spells(line.as_slice(), "/exit") {
        Command::Quit
    } else if spells(line.as_slice(), "/reset") {
        Command::Reset
    } else {
        Command::Turn
    }
}

/// How a turn's text becomes a prompt.
#[derive(Debug, Clone, Copy, PartialEq, Eq, Structural)]
pub enum TurnPrompt {
    /// As it stands.
    Raw,
    /// As the first turn of a chat.
    Opening,
    /// As a later turn of a chat, after an assistant turn that was closed or
    /// not.
    Continuation { assistant_closed: bool },
}

/// Whether a generation ended with the given token.
pub open spec fn ended_with(end: Option<u32>, generated: Seq<u32>) -> bool {
    end is Some && generated.len() > 0 && generated.last() == end->Some_0
}

/// Whether a generation ended with the token that closes a turn.
pub fn emitted_im_end(im_end: Option<u32>, generated: &[u32]) -> (closed: bool)
    ensures
        closed == ended_with(im_end, generated@),
{
    match im_end {
        Some(im_end) => generated.len() > 0 && generated[generated.len() - 1] == im_end,
        None => false,
    }
}

/// A session of one sequence: what the next turn has to know of the turns
/// before it.
#[derive(Debug, Clone, Copy, PartialEq, Eq, Structural)]
pub struct Session {
    pub first_turn: bool,
    pub assistant_closed: bool,
}

impl Session {
    /// A session in which nothing was said yet.
    pub open spec fn fresh() -> Session {
        Session { first_turn: true, assistant_closed: false }
    }

    /// How the next turn becomes a prompt.
    pub open spec fn next_prompt(self, chat: bool) -> TurnPrompt {
        if !chat {
            TurnPrompt::Raw
        } else if self.first_turn {
            TurnPrompt::Opening
        } else {
            TurnPrompt::Continuation { assistant_closed: self.assistant_closed }
        }
    }

    /// A session in which nothing was said yet.
    pub fn new() -> (session: Session)
        ensures
            session == Session::fresh(),
    {
        Session { first_turn: true, assistant_closed: false }
    }

    /// How the next turn becomes a prompt.
    pub fn user_turn_prompt(&self, chat: bool) -> (prompt: TurnPrompt)
        ensures
            prompt == self.next_prompt(chat),
    {
        if !chat {
            return TurnPrompt::Raw;
        }
        if self.first_turn {
            TurnPrompt::Opening
        } else {
            TurnPrompt::Continuation { assistant_closed: self.assistant_closed }
        }
    }

    /// Goes on after a turn.
    pub fn answered(&mut self, im_end: Option<u32>, generated: &[u32])
        ensures
            *final(self) == (Session {
                first_turn: false,
                assistant_closed: ended_with(im_end, generated@),
            }),
    {
        self.assistant_closed = emitted_im_end(im_end, generated);
        self.first_turn = false;
    }

    /// Starts over.
    pub fn reset(&mut self)
        ensures
            *final(self) == Session::fresh(),
    {
        self.first_turn = true;
        self.assistant_closed = false;
    }
}

/// What a chat prompt without a template's help holds.
pub open spec fn plain_chat(prompt: Seq<char>) -> Seq<char> {
    "<|im_start|>user\n"@ + prompt + "<|im_end|>\n<|im_start|>assistant\n"@
}

/// A prompt as the one user turn of a chat, or as it stands.
pub fn chat_prompt(prompt: &str, chat: bool) -> (text: String)
    ensures
        text@ == if chat {
            plain_chat(prompt@)
        } else {
            prompt@
        },
{
    if !chat {
        return prompt.to_owned();
    }
    let mut text = "<|im_start|>user\n".to_owned();
    text.append(prompt);
    text.append("<|im_end|>\n<|im_start|>assistant\n");
    text
}

/// The hottest experts of one layer.
#[derive(Debug, Clone, PartialEq, Eq)]
pub struct HotLayer {
    pub layer: usize,
    pub experts: Vec<usize>,
}

/// How many experts the first `n` layers list.
pub open spec fn experts_listed(layers: Seq<HotLayer>, n: int) -> int
    decreases n,
{
    if n <= 0 {
        0
    } else {
        experts_listed(layers, n - 1) + layers[n - 1].experts@.len()
    }
}

/// What the caller does next while a census warms experts.
#[derive(Debug, Clone, Copy, PartialEq, Eq, Structural)]
pub enum CensusAction {
    /// Reads one expert.
    Warm { layer: usize, expert: usize },
    /// Reports a layer whose experts are all read.
    Report { layer: usize, experts: usize, completed: usize, total: usize },
    /// Stops.
    Finish,
}

/// A warmup of the experts that a census lists, layer by layer in its order.
#[derive(Debug, Clone)]
pub struct CensusWarmup {
    pub layers: Vec<HotLayer>,
    /// The layer that is being read.
    pub at: usize,
    /// How many of its experts were read.
    pub within: usize,
    /// How many experts were read in all.
    pub experts: usize,
    /// How many bytes they hold.
    pub bytes: usize,
}

impl CensusWarmup {
    /// Whether the position and the count of experts fit together.
    pub open spec fn wf(&self) -> bool {
        &&& self.at <= self.layers@.len()
        &&& self.at < self.layers@.len() ==> self.within <= self.layers@[self.at as int].experts@.len()
        &&& self.at == self.layers@.len() ==> self.within == 0
        &&& self.experts == experts_listed(self.layers@, self.at as int) + self.within
    }

    /// Starts a warmup of a census's choice.
    pub fn begin(experts_per_layer: usize, layers: Vec<HotLayer>) -> (warmup: Result<
        CensusWarmup,
        InferError,
    >)
        ensures
            match warmup {
                Ok(warmup) => {
                    &&& experts_per_layer > 0
                    &&& layers@.len() > 0
                    &&& warmup.wf()
                    &&& warmup.layers == layers
                    &&& warmup.at == 0
                    &&& warmup.within == 0
                    &&& warmup.bytes == 0
                },
                Err(InferError::NoWarmExperts) => experts_per_layer == 0,
                Err(InferError::EmptyCensus) => experts_per_layer > 0 && layers@.len() == 0,
                Err(_) => false,
            },
    {
        if experts_per_layer == 0 {
            return Err(InferError::NoWarmExperts);
        }
        if layers.len() == 0 {
            return Err(InferError::EmptyCensus);
        }
        Ok(CensusWarmup { layers, at: 0, within: 0, experts: 0, bytes: 0 })
    }

    /// What comes next.
    pub open spec fn next(&self) -> CensusAction {
        if self.at >= self.layers@.len() {
            CensusAction::Finish
        } else if self.within < self.layers@[self.at as int].experts@.len() {
            CensusAction::Warm {
                layer: self.layers@[self.at as int].layer,
                expert: self.layers@[self.at as int].experts@[self.within as int],
            }
        } else {
            CensusAction::Report {
                layer: self.layers@[self.at as int].layer,
                experts: self.layers@[self.at as int].experts@.len() as usize,
                completed: (self.at + 1) as usize,
                total: self.layers@.len() as usize,
            }
        }
    }

    /// What comes next.
    pub fn action(&self) -> (action: CensusAction)
        requires
            self.wf(),
        ensures
            action == self.next(),
    {
        let total: usize = self.layers.len();
        if self.at >= total {
            return CensusAction::Finish;
        }
        let layer: &HotLayer = &self.layers[self.at];
        let count: usize = layer.experts.len();
        if self.within < count {
            CensusAction::Warm { layer: layer.layer, expert: layer.experts[self.within] }
        } else {
            CensusAction::Report {
                layer: layer.layer,
                experts: count,
                completed: self.at + 1,
                total,
            }
        }
    }

    /// Counts an expert that was read. A count of bytes that does not fit ends
    /// the warmup and leaves what was counted.
    pub fn warmed(&mut self, bytes: usize) -> (result: Result<(), InferError>)
        requires
            old(self).wf(),
            old(self).next() is Warm,
            old(self).experts < usize::MAX,
        ensures
            final(self).wf(),
            final(self).layers == old(self).layers,
            final(self).at == old(self).at,
            match result {
                Ok(_) => {
                    &&& final(self).bytes == old(self).bytes + bytes
                    &&& final(self).within == old(self).within + 1
                },
                Err(error) => {
                    &&& error == InferError::WarmupTooLarge
                    &&& old(self).bytes + bytes > usize::MAX
                    &&& *final(self) == *old(self)
                },
            },
    {
        match self.bytes.checked_add(bytes) {
            Some(sum) => {
                proof {
                    let listed = &self.layers@[self.at as int].experts;
                    assert(listed.len() == listed@.len());
                }
                self.bytes = sum;
                self.experts = self.experts + 1;
                self.within = self.within + 1;
                Ok(())
            },
            None => Err(InferError::WarmupTooLarge),
        }
    }

    /// Goes on to the next layer.
    pub fn reported(&mut self)
        requires
            old(self).wf(),
            old(self).next() is Report,
        ensures
            final(self).wf(),
            final(self).layers == old(self).layers,
            final(self).at == old(self).at + 1,
            final(self).within == 0,
            final(self).experts == old(self).experts,
            final(self).bytes == old(self).bytes,
    {
        proof {
            assert(self.layers.len() == self.layers@.len());
        }
        self.at = self.at + 1;
        self.within = 0;
    }
}

/// A warmup that stops has read every expert that the census lists.
pub proof fn a_finished_warmup_read_every_expert(warmup: CensusWarmup)
    requires
        warmup.wf(),
        warmup.next() is Finish,
    ensures
        warmup.experts == experts_listed(warmup.layers@, warmup.layers@.len() as int),
{
}

} // verus!
