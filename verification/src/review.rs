//! The decisions of a review run: the reduced budgets tried when the
//! provider is under pressure, how a prompt is trimmed to a budget, how the
//! outcome is classified, and which prior findings have gone stale.
use vstd::prelude::*;
use crate::config::{ReviewInconclusiveMode, SnifConfig};
use crate::context::{estimate_tokens, sat_add, sat_sub, token_count};
use crate::decimal::{decimal, usize_to_string};
use crate::execution::{failure_text, LlmRetryFailure, LlmRetryFailureKind};
use crate::integrity::{reason_text, InconclusiveReason, ParsedResponse};
use crate::parser::{has_chain_of_thought, has_cot_spec};
use crate::split::{lines, lines_spec, views};
use crate::text::{append_chars, append_str, chars_of, is_blank, string_of, trim_spec};
use crate::prompts::{render_system_prompt, render_user_prompt, system_prompt_spec, user_prompt_spec, user_prompt_view};
use crate::summary::ReviewOutcome;
use crate::types::{ChangeMetadata, ContentTier, ContextFile, ContextPackage, FileView, Finding, Fingerprint, file_view};
use crate::verify::{byte_len, lemma_byte_len_concat, prefix_byte_len};

verus! {

/// Prompt budgets tried in turn when the provider is under pressure.
pub const REVIEW_PROVIDER_PRESSURE_PROMPT_TARGETS: [usize; 6] = [64_000, 48_000, 32_000, 16_000, 8_000, 4_000];
/// The smallest answer a reduced retry asks for.
pub const REVIEW_PROVIDER_PRESSURE_MIN_OUTPUT_TOKENS: usize = 1_024;
/// Ends a diff that was cut to fit a reduced budget.
pub const DIFF_TRUNCATION_NOTICE: &'static str =
    "\n[Diff truncated after provider pressure to fit a reduced review budget.]\n";
/// Stands in for the content of a changed file reduced to its diff.
pub const CONTENT_DIFF_ONLY_PLACEHOLDER: &'static str = "[See diff for changes to this file.]";
/// The reason given when an inconclusive review names none.
pub const UNTRUSTED_OUTPUT_REASON: &'static str = "review output could not be trusted";
/// Starts the message of a run that fails on an inconclusive review.
pub const INCONCLUSIVE_PREFIX: &'static str = "Review inconclusive: ";

// ---------------------------------------------------------------------------
// Reduced budgets
// ---------------------------------------------------------------------------

/// The reduced prompt budgets below the current prompt's size, largest
/// first.
pub open spec fn fallback_targets_spec(current_prompt_tokens: usize) -> Seq<usize> {
    REVIEW_PROVIDER_PRESSURE_PROMPT_TARGETS@.filter(|t: usize| t < current_prompt_tokens)
}

/// The reduced prompt budgets to retry with: those smaller than the prompt
/// that was refused, in decreasing order.
pub fn fallback_prompt_targets(current_prompt_tokens: usize) -> (r: Vec<usize>)
    ensures
        r@ == fallback_targets_spec(current_prompt_tokens),
{
    let mut r: Vec<usize> = Vec::new();
    let mut i: usize = 0;
    while i < REVIEW_PROVIDER_PRESSURE_PROMPT_TARGETS.len()
        invariant
            i <= REVIEW_PROVIDER_PRESSURE_PROMPT_TARGETS@.len(),
            r@ == REVIEW_PROVIDER_PRESSURE_PROMPT_TARGETS@.take(i as int).filter(
                |t: usize| t < current_prompt_tokens,
            ),
        decreases REVIEW_PROVIDER_PRESSURE_PROMPT_TARGETS@.len() - i,
    {
        let t = REVIEW_PROVIDER_PRESSURE_PROMPT_TARGETS[i];
        proof {
            let s = REVIEW_PROVIDER_PRESSURE_PROMPT_TARGETS@;
            assert(s.take(i + 1) =~= s.take(i as int).push(t));
            reveal(Seq::filter);
            assert(s.take(i + 1).drop_last() =~= s.take(i as int));
        }
        if t < current_prompt_tokens {
            r.push(t);
        }
        i = i + 1;
    }
    assert(REVIEW_PROVIDER_PRESSURE_PROMPT_TARGETS@.take(6) =~= REVIEW_PROVIDER_PRESSURE_PROMPT_TARGETS@);
    r
}

/// The answer budget of a review: the configured reserve, at least one,
/// and never above the prompt budget (itself taken as at least one).
pub open spec fn output_cap(reserve: usize, prompt_budget: usize) -> usize {
    let a: usize = if reserve < 1 { 1 } else { reserve };
    let b: usize = if prompt_budget < 1 { 1 } else { prompt_budget };
    if a < b { a } else { b }
}

/// The answer budget of a review at a prompt budget.
pub fn review_output_max_tokens(config: &SnifConfig, prompt_budget: usize) -> (r: usize)
    ensures
        r == output_cap(config.context.output_reserve_tokens, prompt_budget),
{
    let reserve = config.context.output_reserve_tokens;
    let a: usize = if reserve < 1 { 1 } else { reserve };
    let b: usize = if prompt_budget < 1 { 1 } else { prompt_budget };
    if a < b { a } else { b }
}

/// The answer budget of a reduced retry: the review's cap, but no more
/// than a quarter of the prompt budget unless that is below the minimum.
pub open spec fn fallback_output_cap(reserve: usize, prompt_budget: usize) -> usize {
    let reduced: usize = if prompt_budget / 4 < REVIEW_PROVIDER_PRESSURE_MIN_OUTPUT_TOKENS {
        REVIEW_PROVIDER_PRESSURE_MIN_OUTPUT_TOKENS
    } else {
        (prompt_budget / 4) as usize
    };
    let cap = output_cap(reserve, prompt_budget);
    if cap < reduced { cap } else { reduced }
}

/// The answer budget of a reduced retry at a prompt budget.
pub fn fallback_output_max_tokens(config: &SnifConfig, prompt_budget: usize) -> (r: usize)
    ensures
        r == fallback_output_cap(config.context.output_reserve_tokens, prompt_budget),
{
    let q = prompt_budget / 4;
    let reduced: usize = if q < REVIEW_PROVIDER_PRESSURE_MIN_OUTPUT_TOKENS {
        REVIEW_PROVIDER_PRESSURE_MIN_OUTPUT_TOKENS
    } else {
        q
    };
    let cap = review_output_max_tokens(config, prompt_budget);
    if cap < reduced { cap } else { reduced }
}

/// A retry is worth sending only when it asks for less: a smaller prompt or
/// a smaller answer.
pub fn fallback_reduces_request(
    previous_prompt_tokens: usize,
    previous_output_max_tokens: usize,
    next_prompt_tokens: usize,
    next_output_max_tokens: usize,
) -> (b: bool)
    ensures
        b == (next_prompt_tokens < previous_prompt_tokens || next_output_max_tokens
            < previous_output_max_tokens),
{
    next_prompt_tokens < previous_prompt_tokens || next_output_max_tokens < previous_output_max_tokens
}

/// Where the reduced-context retries of a review stand.
#[derive(Debug, Clone, Copy, PartialEq, Eq, Structural)]
pub struct FallbackState {
    /// How many of the reduced budgets were taken up.
    pub tried: usize,
    /// The size of the prompts rendered last.
    pub prompt_tokens: usize,
    /// The answer budget of the last request sent.
    pub output_max_tokens: usize,
}

/// What happened since the last step of the reduced-context retries.
#[derive(Debug, Clone, Copy, PartialEq, Eq, Structural)]
pub enum FallbackEvent {
    /// The prompts for the current budget were rendered at this size.
    Rendered { prompt_tokens: usize },
    /// The request sent was refused for a reason that a smaller request
    /// may avoid (rate limit or provider pressure).
    Refused,
}

/// What to do next in the reduced-context retries.
#[derive(Debug, Clone, Copy, PartialEq, Eq, Structural)]
pub enum FallbackAction {
    /// Render the prompts for this prompt budget.
    Render { target: usize },
    /// Send the prompts just rendered, asking for at most this many answer
    /// tokens.
    Send { output_max_tokens: usize },
    /// Every reduced budget was tried: the review fails.
    Exhausted,
}

/// The next budget to render, or the end when none is left.
pub open spec fn next_fallback_action(targets: Seq<usize>, tried: int) -> FallbackAction {
    if 0 <= tried < targets.len() {
        FallbackAction::Render { target: targets[tried] }
    } else {
        FallbackAction::Exhausted
    }
}

/// The reduced-context retries begin after a request with prompts of
/// `prompt_tokens` tokens and an answer budget of `output_max_tokens` was
/// refused: with the first reduced budget, or at the end when none is
/// smaller.
pub fn fallback_start(targets: &Vec<usize>, prompt_tokens: usize, output_max_tokens: usize) -> (r: (
    FallbackState,
    FallbackAction,
))
    ensures
        r.0 == (FallbackState { tried: 0, prompt_tokens, output_max_tokens }),
        r.1 == next_fallback_action(targets@, 0),
{
    let action = if targets.len() > 0 {
        FallbackAction::Render { target: targets[0] }
    } else {
        FallbackAction::Exhausted
    };
    (FallbackState { tried: 0, prompt_tokens, output_max_tokens }, action)
}

/// One step of the reduced-context retries. Prompts rendered for the
/// current budget are sent only when they ask for less than the last
/// request (a smaller prompt or a smaller answer budget); otherwise, and
/// after a refusal, the next budget is taken up, until none is left.
pub fn fallback_step(config: &SnifConfig, targets: &Vec<usize>, state: FallbackState, event: FallbackEvent) -> (r: (
    FallbackState,
    FallbackAction,
))
    requires
        state.tried < targets@.len(),
    ensures
        ({
            let out = fallback_output_cap(config.context.output_reserve_tokens, targets@[state.tried as int]);
            match event {
                FallbackEvent::Rendered { prompt_tokens } => if prompt_tokens < state.prompt_tokens || out
                    < state.output_max_tokens {
                    r == (FallbackState { prompt_tokens, ..state }, FallbackAction::Send { output_max_tokens: out })
                } else {
                    r == (FallbackState { tried: (state.tried + 1) as usize, prompt_tokens, ..state }, next_fallback_action(
                        targets@,
                        state.tried + 1,
                    ))
                },
                FallbackEvent::Refused => r == (FallbackState {
                    tried: (state.tried + 1) as usize,
                    output_max_tokens: out,
                    ..state
                }, next_fallback_action(targets@, state.tried + 1)),
            }
        }),
{
    let out = fallback_output_max_tokens(config, targets[state.tried]);
    let n = targets.len();
    let next = state.tried + 1;
    let after = if next < n {
        FallbackAction::Render { target: targets[next] }
    } else {
        FallbackAction::Exhausted
    };
    match event {
        FallbackEvent::Rendered { prompt_tokens } => {
            if fallback_reduces_request(state.prompt_tokens, state.output_max_tokens, prompt_tokens, out) {
                (FallbackState { prompt_tokens, ..state }, FallbackAction::Send { output_max_tokens: out })
            } else {
                (FallbackState { tried: next, prompt_tokens, ..state }, after)
            }
        },
        FallbackEvent::Refused => (FallbackState { tried: next, output_max_tokens: out, ..state }, after),
    }
}

// ---------------------------------------------------------------------------
// Diff truncation
// ---------------------------------------------------------------------------

/// The leading lines, from line `i` on, that fit in `limit` bytes once
/// `used` are spent, each with its newline; the first line that does not
/// fit ends the text.
pub open spec fn kept_lines(ls: Seq<Seq<char>>, i: int, used: nat, limit: nat) -> Seq<char>
    decreases ls.len() - i,
{
    if i < 0 || i >= ls.len() || used + byte_len(ls[i]) + 1 > limit {
        Seq::empty()
    } else {
        ls[i] + seq!['\n'] + kept_lines(ls, i + 1, used + byte_len(ls[i]) + 1, limit)
    }
}

/// A diff cut to a token budget: `None` when it already fits; otherwise its
/// leading lines within the budget less the notice (at least one token's
/// worth), the first line when nothing but whitespace would be kept, and
/// the truncation notice.
pub open spec fn truncate_diff_spec(diff: Seq<char>, token_budget: nat) -> Option<Seq<char>> {
    if token_count(diff) <= token_budget {
        None
    } else {
        let effective_budget = sat_sub(token_budget, token_count(DIFF_TRUNCATION_NOTICE@));
        let effective_budget = if effective_budget < 1 { 1 } else { effective_budget };
        let ls = lines_spec(diff);
        let kept = kept_lines(ls, 0, 0, effective_budget * 3);
        let kept = if trim_spec(kept).len() == 0 {
            kept + (if ls.len() > 0 { ls[0] } else { Seq::empty() }) + seq!['\n']
        } else {
            kept
        };
        Some(kept + DIFF_TRUNCATION_NOTICE@)
    }
}

/// Cuts a diff at line boundaries to fit a token budget, ending it with a
/// notice; `None` when the diff already fits.
pub fn truncate_diff_to_token_budget(diff: &str, token_budget: usize) -> (r: Option<String>)
    ensures
        match r {
            Some(s) => truncate_diff_spec(diff@, token_budget as nat) == Some(s@),
            None => truncate_diff_spec(diff@, token_budget as nat) is None,
        },
        r is None ==> token_count(diff@) <= token_budget,
        ({
            let tn = token_count(DIFF_TRUNCATION_NOTICE@);
            let ls = lines_spec(diff@);
            (ls.len() > 0 && trim_spec(ls[0]).len() > 0 && byte_len(ls[0]) + 1 <= 3 * (if token_budget > tn + 1 {
                token_budget - tn
            } else {
                1
            }) && r is Some) ==> token_count(r.unwrap()@) <= (if token_budget > tn + 1 {
                token_budget as nat
            } else {
                tn + 1
            })
        }),
{
    proof {
        if lines_spec(diff@).len() > 0 && trim_spec(lines_spec(diff@)[0]).len() > 0 {
            let tn = token_count(DIFF_TRUNCATION_NOTICE@);
            if byte_len(lines_spec(diff@)[0]) + 1 <= 3 * (if token_budget > tn + 1 { token_budget - tn } else { 1 }) {
                law_truncated_diff_fits_budget(diff@, token_budget as nat);
            }
        }
    }
    let current_tokens = estimate_tokens(diff);
    if current_tokens <= token_budget {
        return None;
    }
    let notice_tokens = estimate_tokens(DIFF_TRUNCATION_NOTICE);
    let e0: usize = if token_budget >= notice_tokens { token_budget - notice_tokens } else { 0 };
    let effective_budget: usize = if e0 < 1 { 1 } else { e0 };
    let effective_bytes: u128 = (effective_budget as u128) * 3;
    let cs = chars_of(diff);
    let ls = lines(cs.as_slice());
    let ghost lv = lines_spec(diff@);
    let mut kept: Vec<char> = Vec::new();
    let mut used: u128 = 0;
    let mut i: usize = 0;
    let ghost limit: nat = (effective_budget * 3) as nat;
    while i < ls.len()
        invariant_except_break
            i <= ls@.len(),
            views(ls@) == lv,
            effective_bytes == limit,
            limit <= 3 * usize::MAX,
            used <= limit,
            kept@ + kept_lines(lv, i as int, used as nat, limit) == kept_lines(lv, 0, 0, limit),
        ensures
            kept@ == kept_lines(lv, 0, 0, limit),
        decreases ls@.len() - i,
    {
        let line = &ls[i];
        let lb = prefix_byte_len(line.as_slice(), line.len());
        assert(line@.take(line@.len() as int) =~= line@);
        assert(line@ == lv[i as int]);
        if used + lb + 1 > effective_bytes {
            assert(kept_lines(lv, i as int, used as nat, limit) =~= Seq::<char>::empty());
            assert(kept@ =~= kept_lines(lv, 0, 0, limit));
            break;
        }
        let ghost before = kept@;
        let mut k: usize = 0;
        while k < line.len()
            invariant
                k <= line@.len(),
                kept@ == before + line@.take(k as int),
            decreases line@.len() - k,
        {
            kept.push(line[k]);
            k = k + 1;
            assert(kept@ =~= before + line@.take(k as int));
        }
        kept.push('\n');
        assert(kept@ =~= before + lv[i as int] + seq!['\n']);
        used = used + lb + 1;
        i = i + 1;
    }
    proof {
        if i >= ls@.len() {
            assert(kept_lines(lv, i as int, used as nat, limit) =~= Seq::<char>::empty());
            assert(kept@ =~= kept_lines(lv, 0, 0, limit));
        }
    }
    let ghost k0 = kept@;
    if is_blank(kept.as_slice()) {
        if ls.len() > 0 {
            let first = &ls[0];
            let ghost b0 = kept@;
            let mut k: usize = 0;
            while k < first.len()
                invariant
                    k <= first@.len(),
                    kept@ == b0 + first@.take(k as int),
                decreases first@.len() - k,
            {
                kept.push(first[k]);
                k = k + 1;
                assert(kept@ =~= b0 + first@.take(k as int));
            }
            assert(first@.take(first@.len() as int) =~= first@);
            assert(first@ == lv[0]);
        }
        kept.push('\n');
        assert(kept@ =~= k0 + (if lv.len() > 0 { lv[0] } else { Seq::<char>::empty() }) + seq!['\n']);
    }
    let mut out = string_of(kept.as_slice());
    append_str(&mut out, DIFF_TRUNCATION_NOTICE);
    Some(out)
}


// ---------------------------------------------------------------------------
// Trimming a prompt to a budget
// ---------------------------------------------------------------------------

/// What trimming did to a prompt.
#[derive(Debug, Clone, Copy, PartialEq, Eq, Structural)]
pub struct PromptTrimStats {
    pub related_files_removed: usize,
    pub changed_files_degraded: usize,
    pub diff_truncated: bool,
}

/// Nothing trimmed.
pub open spec fn no_trim() -> PromptTrimStats {
    PromptTrimStats { related_files_removed: 0, changed_files_degraded: 0, diff_truncated: false }
}

impl Default for PromptTrimStats {
    fn default() -> (r: Self)
        ensures
            r == no_trim(),
    {
        PromptTrimStats { related_files_removed: 0, changed_files_degraded: 0, diff_truncated: false }
    }
}

/// The prompts of a review, their token count, how many related files they
/// carry and what was trimmed to fit.
pub struct RenderedReviewPrompts {
    pub system_prompt: String,
    pub user_prompt: String,
    pub prompt_tokens: usize,
    pub related_files: usize,
    pub trim_stats: PromptTrimStats,
}

/// The parts of a prompt that trimming changes, and what it did so far.
pub struct TrimState {
    pub diff: Seq<char>,
    pub changed: Seq<FileView>,
    pub related: Seq<FileView>,
    pub stats: PromptTrimStats,
}

/// A context package's trimmable parts.
pub open spec fn trim_state(c: ContextPackage, stats: PromptTrimStats) -> TrimState {
    TrimState {
        diff: c.diff@,
        changed: c.changed_files@.map_values(|f: ContextFile| file_view(f)),
        related: c.related_files@.map_values(|f: ContextFile| file_view(f)),
        stats,
    }
}

/// The estimated tokens of a system prompt and the user prompt of a state.
pub open spec fn prompt_tokens_of(sys: Seq<char>, m: ChangeMetadata, st: TrimState) -> nat {
    token_count(sys) + token_count(user_prompt_view(m, st.diff, st.changed, st.related))
}

/// Some changed file is still shown in full.
pub open spec fn has_full(cs: Seq<FileView>) -> bool {
    exists|i: int| 0 <= i < cs.len() && cs[i].tier == ContentTier::Full
}

/// File `i` is the largest file shown in full, by UTF-8 length, and the
/// last of the largest.
pub open spec fn largest_full(cs: Seq<FileView>, i: int) -> bool {
    &&& 0 <= i < cs.len()
    &&& cs[i].tier == ContentTier::Full
    &&& forall|j: int| 0 <= j < cs.len() && cs[j].tier == ContentTier::Full ==> byte_len(#[trigger] cs[j].content) <= byte_len(cs[i].content)
    &&& forall|j: int| i < j < cs.len() && cs[j].tier == ContentTier::Full ==> byte_len(#[trigger] cs[j].content) < byte_len(cs[i].content)
}

/// A changed file reduced to the diff: a placeholder for content, no
/// summary.
pub open spec fn degrade(f: FileView) -> FileView {
    FileView { content: CONTENT_DIFF_ONLY_PLACEHOLDER@, summary: None, tier: ContentTier::DiffOnly, ..f }
}

/// One trimming step of a prompt over budget: drop the last related file;
/// else reduce the largest changed file shown in full to the diff; else,
/// when allowed and not yet done, cut the diff by the overflow and a margin.
/// `None` when the prompt fits or nothing is left to trim.
pub open spec fn trim_step(sys: Seq<char>, m: ChangeMetadata, st: TrimState, budget: nat, allow_diff_truncation: bool) -> Option<TrimState> {
    let tokens = prompt_tokens_of(sys, m, st);
    if tokens <= budget {
        None
    } else if st.related.len() > 0 {
        Some(TrimState {
            related: st.related.drop_last(),
            stats: PromptTrimStats { related_files_removed: (st.stats.related_files_removed + 1) as usize, ..st.stats },
            ..st
        })
    } else if has_full(st.changed) {
        let i = choose|i: int| largest_full(st.changed, i);
        Some(TrimState {
            changed: st.changed.update(i, degrade(st.changed[i])),
            stats: PromptTrimStats { changed_files_degraded: (st.stats.changed_files_degraded + 1) as usize, ..st.stats },
            ..st
        })
    } else if allow_diff_truncation && !st.stats.diff_truncated {
        let overflow = sat_sub(tokens, budget);
        let target = sat_sub(token_count(st.diff), sat_add(overflow, 256));
        match truncate_diff_spec(st.diff, target) {
            Some(d) => Some(TrimState {
                diff: d,
                stats: PromptTrimStats { diff_truncated: true, ..st.stats },
                ..st
            }),
            None => None,
        }
    } else {
        None
    }
}

/// The state after at most `n` trimming steps.
pub open spec fn trim_iter(sys: Seq<char>, m: ChangeMetadata, st: TrimState, budget: nat, allow_diff_truncation: bool, n: nat) -> TrimState
    decreases n,
{
    if n == 0 {
        st
    } else {
        match trim_step(sys, m, st, budget, allow_diff_truncation) {
            None => st,
            Some(next) => trim_iter(sys, m, next, budget, allow_diff_truncation, (n - 1) as nat),
        }
    }
}

/// `fin` is where trimming from `init` stops: reached by trimming steps,
/// and no further step applies.
pub open spec fn trim_result(sys: Seq<char>, m: ChangeMetadata, init: TrimState, budget: nat, allow_diff_truncation: bool, fin: TrimState) -> bool {
    &&& exists|n: nat| fin == trim_iter(sys, m, init, budget, allow_diff_truncation, n)
    &&& trim_step(sys, m, fin, budget, allow_diff_truncation) is None
}

proof fn lemma_trim_iter_next(sys: Seq<char>, m: ChangeMetadata, st: TrimState, budget: nat, allow: bool, n: nat, next: TrimState)
    requires
        trim_step(sys, m, trim_iter(sys, m, st, budget, allow, n), budget, allow) == Some(next),
    ensures
        trim_iter(sys, m, st, budget, allow, n + 1) == next,
    decreases n,
{
    if n == 0 {
        assert(trim_iter(sys, m, next, budget, allow, 0) == next);
    } else {
        match trim_step(sys, m, st, budget, allow) {
            None => {},
            Some(s2) => {
                lemma_trim_iter_next(sys, m, s2, budget, allow, (n - 1) as nat, next);
                assert((n - 1 + 1) as nat == n);
            },
        }
    }
}

/// The number of changed files shown in full.
pub open spec fn full_count(cs: Seq<FileView>) -> nat
    decreases cs.len(),
{
    if cs.len() == 0 {
        0
    } else {
        full_count(cs.drop_last()) + (if cs.last().tier == ContentTier::Full { 1nat } else { 0nat })
    }
}

proof fn lemma_full_count_degrade(cs: Seq<FileView>, i: int, f: FileView)
    requires
        0 <= i < cs.len(),
        cs[i].tier == ContentTier::Full,
        f.tier != ContentTier::Full,
    ensures
        full_count(cs.update(i, f)) + 1 == full_count(cs),
    decreases cs.len(),
{
    let u = cs.update(i, f);
    if i == cs.len() - 1 {
        assert(u.drop_last() =~= cs.drop_last());
    } else {
        assert(u.drop_last() =~= cs.drop_last().update(i, f));
        lemma_full_count_degrade(cs.drop_last(), i, f);
    }
}

proof fn lemma_full_count_bound(cs: Seq<FileView>)
    ensures
        full_count(cs) <= cs.len(),
    decreases cs.len(),
{
    if cs.len() > 0 {
        lemma_full_count_bound(cs.drop_last());
    }
}

/// How much trimming is left to do at most: related files, files shown in
/// full, and one diff cut.
pub open spec fn trim_measure(st: TrimState) -> nat {
    st.related.len() + full_count(st.changed) + (if st.stats.diff_truncated { 0nat } else { 1nat })
}

fn largest_full_index(files: &Vec<ContextFile>) -> (r: Option<usize>)
    ensures
        ({
            let cs = files@.map_values(|f: ContextFile| file_view(f));
            match r {
                Some(i) => largest_full(cs, i as int),
                None => !has_full(cs),
            }
        }),
{
    let ghost cs = files@.map_values(|f: ContextFile| file_view(f));
    let mut best: Option<usize> = None;
    let mut best_len: usize = 0;
    let mut j: usize = 0;
    while j < files.len()
        invariant
            j <= files@.len(),
            cs == files@.map_values(|f: ContextFile| file_view(f)),
            match best {
                Some(b) => b < j && largest_full(cs.take(j as int), b as int) && best_len == byte_len(cs[b as int].content),
                None => forall|q: int| 0 <= q < j ==> cs[q].tier != ContentTier::Full,
            },
        decreases files@.len() - j,
    {
        let is_full = match files[j].content_tier {
            ContentTier::Full => true,
            _ => false,
        };
        if is_full {
            let l = crate::verify::str_byte_len(files[j].content.as_str());
            let take_it = match best {
                None => true,
                Some(_) => l >= best_len,
            };
            if take_it {
                best = Some(j);
                best_len = l;
            }
        }
        proof {
            let t1 = cs.take(j + 1);
            assert forall|q: int| 0 <= q < j + 1 implies t1[q] == cs[q] by {}
            match best {
                Some(b) => {
                    assert(largest_full(t1, b as int));
                },
                None => {},
            }
        }
        j = j + 1;
    }
    proof {
        assert(cs.take(files@.len() as int) =~= cs);
    }
    best
}


/// Renders the review prompts and trims the context until they fit the
/// budget: related files go first, last first; then changed files shown in
/// full are reduced to the diff, largest first; then, when allowed, the
/// diff is cut once. What cannot be trimmed further is rendered as it is.
pub fn render_prompts_for_prompt_budget(
    config: &SnifConfig,
    context: &mut ContextPackage,
    prompt_budget: usize,
    allow_diff_truncation: bool,
) -> (r: RenderedReviewPrompts)
    ensures
        final(context).metadata == old(context).metadata,
        final(context).omissions == old(context).omissions,
        final(context).budget == old(context).budget,
        trim_result(
            system_prompt_spec(config.filter.suppress_style_only, None, None),
            old(context).metadata,
            trim_state(*old(context), no_trim()),
            prompt_budget as nat,
            allow_diff_truncation,
            trim_state(*final(context), r.trim_stats),
        ),
        r.system_prompt@ == system_prompt_spec(config.filter.suppress_style_only, None, None),
        r.user_prompt@ == user_prompt_spec(*final(context)),
        r.prompt_tokens == prompt_tokens_of(
            r.system_prompt@,
            final(context).metadata,
            trim_state(*final(context), r.trim_stats),
        ),
        r.related_files == final(context).related_files@.len(),
{
    let system_prompt = render_system_prompt(config);
    let ghost sys = system_prompt@;
    let ghost m = context.metadata;
    let mut trim_stats = PromptTrimStats::default();
    let ghost init = trim_state(*context, trim_stats);
    let ghost mut n: nat = 0;
    let sys_tokens = estimate_tokens(system_prompt.as_str());
    let sys_bytes = crate::verify::str_byte_len(system_prompt.as_str());
    let rl0 = context.related_files.len();
    let cl0 = context.changed_files.len();
    proof {
        lemma_full_count_bound(init.changed);
    }
    loop
        invariant
            sys == system_prompt@,
            sys == system_prompt_spec(config.filter.suppress_style_only, None, None),
            sys_tokens == token_count(sys),
            sys_bytes == byte_len(sys),
            m == old(context).metadata,
            context.metadata == m,
            context.omissions == old(context).omissions,
            context.budget == old(context).budget,
            init == trim_state(*old(context), no_trim()),
            trim_state(*context, trim_stats) == trim_iter(sys, m, init, prompt_budget as nat, allow_diff_truncation, n),
            trim_stats.related_files_removed + context.related_files@.len() == init.related.len(),
            trim_stats.changed_files_degraded + full_count(trim_state(*context, trim_stats).changed) == full_count(init.changed),
            full_count(init.changed) <= init.changed.len(),
            init.changed.len() == cl0,
            init.related.len() == rl0,
        decreases trim_measure(trim_state(*context, trim_stats)),
    {
        let ghost st = trim_state(*context, trim_stats);
        let user_prompt = render_user_prompt(context);
        let user_bytes = crate::verify::str_byte_len(user_prompt.as_str());
        let user_tokens = estimate_tokens(user_prompt.as_str());
        assert(user_prompt@ == user_prompt_view(m, st.diff, st.changed, st.related));
        let prompt_tokens = sys_tokens + user_tokens;
        if prompt_tokens <= prompt_budget {
            let related_files = context.related_files.len();
            proof {
                assert(trim_step(sys, m, st, prompt_budget as nat, allow_diff_truncation) is None);
            }
            return RenderedReviewPrompts { system_prompt, user_prompt, prompt_tokens, related_files, trim_stats };
        }
        if context.related_files.len() > 0 {
            context.related_files.pop();
            trim_stats.related_files_removed = trim_stats.related_files_removed + 1;
            proof {
                let nx = trim_state(*context, trim_stats);
                assert(nx.related =~= st.related.drop_last());
                assert(trim_step(sys, m, st, prompt_budget as nat, allow_diff_truncation) == Some(nx));
                lemma_trim_iter_next(sys, m, init, prompt_budget as nat, allow_diff_truncation, n, nx);
                n = n + 1;
            }
            continue;
        }
        match largest_full_index(&context.changed_files) {
            Some(idx) => {
                let path = context.changed_files[idx].path.clone();
                let score = crate::types::copy_opt_string(&context.changed_files[idx].retrieval_score);
                let ghost old_files = context.changed_files@;
                context.changed_files.set(idx, ContextFile {
                    path,
                    content: String::from_str(CONTENT_DIFF_ONLY_PLACEHOLDER),
                    summary: None,
                    retrieval_score: score,
                    content_tier: ContentTier::DiffOnly,
                });
                proof {
                    lemma_full_count_degrade(st.changed, idx as int, degrade(st.changed[idx as int]));
                }
                trim_stats.changed_files_degraded = trim_stats.changed_files_degraded + 1;
                proof {
                    let nx = trim_state(*context, trim_stats);
                    let i = choose|i: int| largest_full(st.changed, i);
                    assert(largest_full(st.changed, idx as int));
                    assert(i == idx as int) by {
                        if i < idx {
                            assert(byte_len(st.changed[idx as int].content) < byte_len(st.changed[i].content));
                        } else if i > idx {
                            assert(byte_len(st.changed[i].content) < byte_len(st.changed[idx as int].content));
                        }
                    }
                    assert(nx.changed =~= st.changed.update(i, degrade(st.changed[i])));
                    assert(trim_step(sys, m, st, prompt_budget as nat, allow_diff_truncation) == Some(nx));
                    lemma_trim_iter_next(sys, m, init, prompt_budget as nat, allow_diff_truncation, n, nx);
                    lemma_full_count_degrade(st.changed, i, degrade(st.changed[i]));
                    n = n + 1;
                }
                continue;
            },
            None => {},
        }
        if allow_diff_truncation && !trim_stats.diff_truncated {
            let overflow = prompt_tokens - prompt_budget;
            let current_diff_tokens = estimate_tokens(context.diff.as_str());
            let margin: usize = if overflow > usize::MAX - 256 { usize::MAX } else { overflow + 256 };
            let target: usize = if current_diff_tokens >= margin { current_diff_tokens - margin } else { 0 };
            match truncate_diff_to_token_budget(context.diff.as_str(), target) {
                Some(truncated) => {
                    context.diff = truncated;
                    trim_stats.diff_truncated = true;
                    proof {
                        let nx = trim_state(*context, trim_stats);
                        assert(trim_step(sys, m, st, prompt_budget as nat, allow_diff_truncation) == Some(nx));
                        lemma_trim_iter_next(sys, m, init, prompt_budget as nat, allow_diff_truncation, n, nx);
                        n = n + 1;
                    }
                    continue;
                },
                None => {},
            }
        }
        let related_files = context.related_files.len();
        proof {
            assert(trim_step(sys, m, st, prompt_budget as nat, allow_diff_truncation) is None);
        }
        return RenderedReviewPrompts { system_prompt, user_prompt, prompt_tokens, related_files, trim_stats };
    }
}


/// What holds of every state that trimming reaches from an untrimmed
/// prompt: related files are dropped from the end and counted; changed files
/// keep their order and paths and are each either untouched or reduced to the
/// diff; no changed file is reduced while a related file remains; the diff
/// is cut only when allowed, once every related file is gone and no changed
/// file is shown in full, and is otherwise untouched.
pub open spec fn trim_reachable(init: TrimState, st: TrimState, allow_diff_truncation: bool) -> bool {
    &&& st.related.len() <= init.related.len()
    &&& st.related == init.related.take(st.related.len() as int)
    &&& st.stats.related_files_removed == init.related.len() - st.related.len()
    &&& st.changed.len() == init.changed.len()
    &&& forall|i: int| 0 <= i < st.changed.len() ==> #[trigger] st.changed[i] == init.changed[i] || st.changed[i] == degrade(init.changed[i])
    &&& (st.stats.changed_files_degraded > 0 ==> st.related.len() == 0)
    &&& (st.stats.diff_truncated ==> allow_diff_truncation && st.related.len() == 0 && !has_full(st.changed))
    &&& (!st.stats.diff_truncated ==> st.diff == init.diff)
}

proof fn lemma_largest_full_exists(cs: Seq<FileView>)
    requires
        has_full(cs),
    ensures
        exists|i: int| largest_full(cs, i),
    decreases cs.len(),
{
    let k = cs.len() - 1;
    let pre = cs.drop_last();
    if has_full(pre) {
        lemma_largest_full_exists(pre);
        let i0 = choose|i: int| largest_full(pre, i);
        if cs[k].tier == ContentTier::Full && byte_len(cs[k].content) >= byte_len(pre[i0].content) {
            assert forall|j: int| 0 <= j < cs.len() && cs[j].tier == ContentTier::Full implies byte_len(#[trigger] cs[j].content) <= byte_len(cs[k].content) by {
                if j < k {
                    assert(cs[j] == pre[j]);
                }
            }
            assert(largest_full(cs, k));
        } else {
            assert forall|j: int| 0 <= j < cs.len() && cs[j].tier == ContentTier::Full implies byte_len(#[trigger] cs[j].content) <= byte_len(cs[i0].content) by {
                if j < k {
                    assert(cs[j] == pre[j]);
                }
            }
            assert forall|j: int| i0 < j < cs.len() && cs[j].tier == ContentTier::Full implies byte_len(#[trigger] cs[j].content) < byte_len(cs[i0].content) by {
                if j < k {
                    assert(cs[j] == pre[j]);
                }
            }
            assert(largest_full(cs, i0));
        }
    } else {
        let w = choose|i: int| 0 <= i < cs.len() && cs[i].tier == ContentTier::Full;
        if w < k {
            assert(pre[w] == cs[w]);
        }
        assert forall|j: int| 0 <= j < cs.len() && cs[j].tier == ContentTier::Full implies byte_len(#[trigger] cs[j].content) <= byte_len(cs[k].content) by {
            if j < k {
                assert(pre[j] == cs[j]);
            }
        }
        assert(largest_full(cs, k));
    }
}

proof fn lemma_trim_step_keeps(sys: Seq<char>, m: ChangeMetadata, init: TrimState, st: TrimState, budget: nat, allow: bool)
    requires
        init.related.len() <= usize::MAX,
        trim_reachable(init, st, allow),
        trim_step(sys, m, st, budget, allow) is Some,
    ensures
        trim_reachable(init, trim_step(sys, m, st, budget, allow).unwrap(), allow),
{
    let nx = trim_step(sys, m, st, budget, allow).unwrap();
    if st.related.len() > 0 {
        assert(nx.related =~= init.related.take(nx.related.len() as int));
    } else if has_full(st.changed) {
        lemma_largest_full_exists(st.changed);
        let i = choose|i: int| largest_full(st.changed, i);
        assert(st.changed[i] == init.changed[i]);
        assert forall|j: int| 0 <= j < nx.changed.len() implies #[trigger] nx.changed[j] == init.changed[j] || nx.changed[j] == degrade(init.changed[j]) by {
            if j != i {
                assert(nx.changed[j] == st.changed[j]);
            }
        }
    }
}

proof fn lemma_trim_iter_keeps(sys: Seq<char>, m: ChangeMetadata, init: TrimState, st: TrimState, budget: nat, allow: bool, n: nat)
    requires
        init.related.len() <= usize::MAX,
        trim_reachable(init, st, allow),
    ensures
        trim_reachable(init, trim_iter(sys, m, st, budget, allow, n), allow),
    decreases n,
{
    if n > 0 {
        match trim_step(sys, m, st, budget, allow) {
            None => {},
            Some(nx) => {
                lemma_trim_step_keeps(sys, m, init, st, budget, allow);
                lemma_trim_iter_keeps(sys, m, init, nx, budget, allow, (n - 1) as nat);
            },
        }
    }
}

/// Trimming order: from an untrimmed prompt, every state trimming reaches
/// drops related files from the end before any changed file is reduced to
/// the diff, reduces changed files in place, and cuts the diff only when
/// allowed and nothing else is left to trim.
pub proof fn law_trimming_order(
    sys: Seq<char>,
    m: ChangeMetadata,
    init: TrimState,
    budget: nat,
    allow_diff_truncation: bool,
    n: nat,
)
    requires
        init.stats == no_trim(),
        init.related.len() <= usize::MAX,
    ensures
        trim_reachable(init, trim_iter(sys, m, init, budget, allow_diff_truncation, n), allow_diff_truncation),
{
    assert(init.related.take(init.related.len() as int) =~= init.related);
    lemma_trim_iter_keeps(sys, m, init, init, budget, allow_diff_truncation, n);
}

/// A trimmed prompt stops at the budget: where trimming ends, either the
/// prompt fits, or no related file is left, no changed file is shown in
/// full, and the diff was already cut or may not be.
pub proof fn law_trimming_stops_only_when_fitting_or_exhausted(
    sys: Seq<char>,
    m: ChangeMetadata,
    init: TrimState,
    budget: nat,
    allow_diff_truncation: bool,
    fin: TrimState,
)
    requires
        trim_result(sys, m, init, budget, allow_diff_truncation, fin),
    ensures
        prompt_tokens_of(sys, m, fin) <= budget || (fin.related.len() == 0 && !has_full(fin.changed) && (
        !allow_diff_truncation || fin.stats.diff_truncated || truncate_diff_spec(
            fin.diff,
            sat_sub(token_count(fin.diff), sat_add(sat_sub(prompt_tokens_of(sys, m, fin), budget), 256)),
        ) is None)),
{
}


// ---------------------------------------------------------------------------
// Outcome
// ---------------------------------------------------------------------------

/// Separates context notes.
pub const NOTE_SEPARATOR: char = ' ';

/// The notes after adding one: appended after a space, or the first.
pub open spec fn note_after(note: Option<String>, new_note: Seq<char>) -> Seq<char> {
    match note {
        Some(existing) => existing@ + seq![NOTE_SEPARATOR] + new_note,
        None => new_note,
    }
}

/// Adds a note about the review's context, after any earlier ones.
pub fn push_context_note(note: &mut Option<String>, new_note: &str)
    ensures
        *final(note) is Some,
        (*final(note)).unwrap()@ == note_after(*old(note), new_note@),
{
    match note {
        Some(existing) => {
            crate::text::push_char(existing, NOTE_SEPARATOR);
            append_str(existing, new_note);
        },
        None => {
            *note = Some(String::from_str(new_note));
        },
    }
}

/// How a provider failure is named in notes and errors.
pub open spec fn failure_reason_spec(error: Option<LlmRetryFailure>) -> Seq<char> {
    match error {
        Some(f) => match f.kind {
            LlmRetryFailureKind::RateLimited => "provider rate limiting"@,
            LlmRetryFailureKind::ProviderPressure => "provider pressure"@,
            _ => "provider failure"@,
        },
        None => "provider failure"@,
    }
}

/// Names the provider failure behind an error (`None` for an error that is
/// no model request failure).
pub fn provider_failure_reason(error: Option<&LlmRetryFailure>) -> (r: &'static str)
    ensures
        r@ == failure_reason_spec(match error { Some(f) => Some(*f), None => None }),
{
    if crate::execution::is_rate_limit_error(error) {
        "provider rate limiting"
    } else if crate::execution::is_provider_pressure_error(error) {
        "provider pressure"
    } else {
        "provider failure"
    }
}

/// The note left when a reduced request went through.
pub open spec fn reduced_note_spec(reason: Seq<char>, original: usize, prompt: usize, diff_truncated: bool) -> Seq<char> {
    "Context was reduced after "@ + reason + " (prompt tokens "@ + decimal(original as nat) + " -> "@
        + decimal(prompt as nat) + ")."@ + (if diff_truncated {
        " Diff was truncated to fit the reduced provider-pressure budget."@
    } else {
        Seq::empty()
    })
}

/// The context note of a review that succeeded with a reduced request,
/// naming the provider failure that forced it and the prompt sizes.
pub fn reduced_context_note(
    failure: Option<&LlmRetryFailure>,
    original_prompt_tokens: usize,
    prompt_tokens: usize,
    diff_truncated: bool,
) -> (r: String)
    ensures
        r@ == reduced_note_spec(
            failure_reason_spec(match failure { Some(f) => Some(*f), None => None }),
            original_prompt_tokens,
            prompt_tokens,
            diff_truncated,
        ),
{
    let mut r = String::from_str("Context was reduced after ");
    append_str(&mut r, provider_failure_reason(failure));
    append_str(&mut r, " (prompt tokens ");
    let a = usize_to_string(original_prompt_tokens);
    append_str(&mut r, a.as_str());
    append_str(&mut r, " -> ");
    let b = usize_to_string(prompt_tokens);
    append_str(&mut r, b.as_str());
    append_str(&mut r, ").");
    if diff_truncated {
        append_str(&mut r, " Diff was truncated to fit the reduced provider-pressure budget.");
    }
    assert(r@ =~= reduced_note_spec(
        failure_reason_spec(match failure { Some(f) => Some(*f), None => None }),
        original_prompt_tokens,
        prompt_tokens,
        diff_truncated,
    ));
    r
}

/// The error of a review whose every reduced request failed under provider
/// pressure.
pub open spec fn fallback_exhausted_spec(last: LlmRetryFailure) -> Seq<char> {
    "Review request failed after reduced-context retries due to "@ + failure_reason_spec(Some(last))
        + ". Last error: "@ + failure_text(last)
        + ". Try lowering context.max_tokens and/or context.summarizer_concurrency."@
}

/// The message a review fails with when no reduced request went through.
pub fn fallback_exhausted_message(last: &LlmRetryFailure) -> (r: String)
    ensures
        r@ == fallback_exhausted_spec(*last),
{
    let mut r = String::from_str("Review request failed after reduced-context retries due to ");
    append_str(&mut r, provider_failure_reason(Some(last)));
    append_str(&mut r, ". Last error: ");
    let d = last.describe();
    append_str(&mut r, d.as_str());
    append_str(&mut r, ". Try lowering context.max_tokens and/or context.summarizer_concurrency.");
    assert(r@ =~= fallback_exhausted_spec(*last));
    r
}

/// A response is sent back for repair when nothing was read from it, or
/// when it leaks the model's reasoning.
pub fn review_needs_repair(parsed: &ParsedResponse, response: &str) -> (b: bool)
    ensures
        b == (parsed.findings@.len() == 0 || has_cot_spec(response@)),
{
    parsed.findings.len() == 0 || has_chain_of_thought(response)
}

/// A review's outcome: inconclusive when its output was not trusted; with
/// findings when any survived; otherwise clean, limited when its context
/// was.
pub open spec fn outcome_spec(inconclusive: bool, findings: nat, context_limited: bool) -> ReviewOutcome {
    if inconclusive {
        ReviewOutcome::Inconclusive
    } else if findings > 0 {
        ReviewOutcome::Findings
    } else if context_limited {
        ReviewOutcome::LimitedClean
    } else {
        ReviewOutcome::Clean
    }
}

/// Classifies how a review ended.
pub fn classify_review_outcome(
    inconclusive_reason: Option<InconclusiveReason>,
    findings: &[Finding],
    context_limited: bool,
) -> (r: ReviewOutcome)
    ensures
        r == outcome_spec(inconclusive_reason is Some, findings@.len(), context_limited),
        inconclusive_reason is Some <==> r == ReviewOutcome::Inconclusive,
        (r == ReviewOutcome::Clean || r == ReviewOutcome::LimitedClean) ==> findings@.len() == 0,
        inconclusive_reason is None && findings@.len() > 0 ==> r == ReviewOutcome::Findings,
        r == ReviewOutcome::LimitedClean ==> context_limited,
{
    if inconclusive_reason.is_some() {
        ReviewOutcome::Inconclusive
    } else if findings.len() > 0 {
        ReviewOutcome::Findings
    } else if context_limited {
        ReviewOutcome::LimitedClean
    } else {
        ReviewOutcome::Clean
    }
}

/// Whether the review saw less than its full context: something was
/// trimmed, or a note says so.
pub fn context_was_limited(rendered: &RenderedReviewPrompts, review_context_note: &Option<String>) -> (b: bool)
    ensures
        b == (rendered.trim_stats != no_trim() || review_context_note is Some),
{
    let t = rendered.trim_stats;
    t.related_files_removed != 0 || t.changed_files_degraded != 0 || t.diff_truncated || review_context_note.is_some()
}

/// The message of a run that fails on an inconclusive review.
pub open spec fn inconclusive_message_spec(reason: Option<InconclusiveReason>) -> Seq<char> {
    INCONCLUSIVE_PREFIX@ + match reason {
        Some(r) => reason_text(r),
        None => UNTRUSTED_OUTPUT_REASON@,
    }
}

/// The message a run fails with when its review was inconclusive.
pub fn inconclusive_message(reason: Option<InconclusiveReason>) -> (r: String)
    ensures
        r@ == inconclusive_message_spec(reason),
{
    let mut m = String::from_str(INCONCLUSIVE_PREFIX);
    match reason {
        Some(r) => append_str(&mut m, r.message()),
        None => append_str(&mut m, UNTRUSTED_OUTPUT_REASON),
    }
    m
}

/// An inconclusive review fails the run only in the failing mode.
pub fn should_fail_inconclusive_review(outcome: ReviewOutcome, mode: ReviewInconclusiveMode) -> (b: bool)
    ensures
        b == (outcome == ReviewOutcome::Inconclusive && mode == ReviewInconclusiveMode::Fail),
{
    match (outcome, mode) {
        (ReviewOutcome::Inconclusive, ReviewInconclusiveMode::Fail) => true,
        _ => false,
    }
}

// ---------------------------------------------------------------------------
// Platform and target
// ---------------------------------------------------------------------------

/// The platform name for GitLab.
pub const PLATFORM_GITLAB: &'static str = "gitlab";
/// The platform name for GitHub.
pub const PLATFORM_GITHUB: &'static str = "github";

/// The platform a review posts to: the one asked for; else the one the
/// environment names; else GitLab inside a GitLab pipeline, GitHub inside
/// a GitHub workflow; else the configured one.
pub open spec fn platform_spec(
    explicit: Option<Seq<char>>,
    env_platform: Option<Seq<char>>,
    in_gitlab_ci: bool,
    in_github_ci: bool,
    config_default: Seq<char>,
) -> Seq<char> {
    match explicit {
        Some(p) => p,
        None => match env_platform {
            Some(p) => p,
            None => if in_gitlab_ci {
                PLATFORM_GITLAB@
            } else if in_github_ci {
                PLATFORM_GITHUB@
            } else {
                config_default
            },
        },
    }
}

/// Decides the platform from the command line, the environment
/// (`SNIF_PLATFORM`, and whether `CI_PROJECT_PATH` or `GITHUB_REPOSITORY`
/// is set) and the configuration.
pub fn detect_platform(
    explicit: Option<&str>,
    env_platform: Option<&str>,
    in_gitlab_ci: bool,
    in_github_ci: bool,
    config_default: &str,
) -> (r: String)
    ensures
        r@ == platform_spec(
            match explicit { Some(p) => Some(p@), None => None },
            match env_platform { Some(p) => Some(p@), None => None },
            in_gitlab_ci,
            in_github_ci,
            config_default@,
        ),
{
    if let Some(p) = explicit {
        return String::from_str(p);
    }
    if let Some(p) = env_platform {
        return String::from_str(p);
    }
    if in_gitlab_ci {
        return String::from_str(PLATFORM_GITLAB);
    }
    if in_github_ci {
        return String::from_str(PLATFORM_GITHUB);
    }
    String::from_str(config_default)
}

/// Where a review is posted.
pub enum AdapterTarget {
    GitLab { project_path: String, mr_iid: u64, api_base: Option<String> },
    GitHub { owner: String, repo: String, pr_number: u64 },
}

/// Why no target could be decided.
#[derive(Debug, Clone, Copy, PartialEq, Eq, Structural)]
pub enum AdapterTargetError {
    GitLabProjectPathRequired,
    GitLabMrIidRequired,
    GitHubRepositoryRequired,
    PrNumberRequired,
    RepoFormat,
}

/// The message of each error.
pub open spec fn target_error_text(e: AdapterTargetError) -> Seq<char> {
    match e {
        AdapterTargetError::GitLabProjectPathRequired => "--project, --repo or CI_PROJECT_PATH required for GitLab"@,
        AdapterTargetError::GitLabMrIidRequired => "--pr or CI_MERGE_REQUEST_IID required for GitLab"@,
        AdapterTargetError::GitHubRepositoryRequired => "--repo or GITHUB_REPOSITORY required for GitHub"@,
        AdapterTargetError::PrNumberRequired => "--pr or SNIF_PR_NUMBER required for GitHub"@,
        AdapterTargetError::RepoFormat => "--repo must be in owner/repo format"@,
    }
}

impl AdapterTargetError {
    /// What went wrong, for the user.
    pub fn message(&self) -> (r: &'static str)
        ensures
            r@ == target_error_text(*self),
    {
        match self {
            AdapterTargetError::GitLabProjectPathRequired => "--project, --repo or CI_PROJECT_PATH required for GitLab",
            AdapterTargetError::GitLabMrIidRequired => "--pr or CI_MERGE_REQUEST_IID required for GitLab",
            AdapterTargetError::GitHubRepositoryRequired => "--repo or GITHUB_REPOSITORY required for GitHub",
            AdapterTargetError::PrNumberRequired => "--pr or SNIF_PR_NUMBER required for GitHub",
            AdapterTargetError::RepoFormat => "--repo must be in owner/repo format",
        }
    }
}

/// The first of two optional texts that is present.
pub open spec fn first_of(a: Option<Seq<char>>, b: Option<Seq<char>>) -> Option<Seq<char>> {
    match a {
        Some(x) => Some(x),
        None => b,
    }
}

/// The first of two optional numbers that is present.
pub open spec fn first_num(a: Option<u64>, b: Option<u64>) -> Option<u64> {
    match a {
        Some(x) => Some(x),
        None => b,
    }
}

/// An optional text's view.
pub open spec fn opt_str(o: Option<&str>) -> Option<Seq<char>> {
    match o {
        Some(s) => Some(s@),
        None => None,
    }
}

/// An optional owned text's view.
pub open spec fn opt_string(o: Option<String>) -> Option<Seq<char>> {
    match o {
        Some(s) => Some(s@),
        None => None,
    }
}

/// The target a review posts to, from the platform, the command line and
/// the environment (`CI_PROJECT_PATH`, `CI_MERGE_REQUEST_IID`,
/// `CI_API_V4_URL`, `GITHUB_REPOSITORY` and `SNIF_PR_NUMBER`, the numbers
/// already read as numbers). GitLab needs a project and a merge request;
/// anything else is GitHub, which needs `owner/repo` and a pull request.
pub open spec fn target_ok(
    platform: Seq<char>,
    repo: Option<Seq<char>>,
    pr: Option<u64>,
    project: Option<Seq<char>>,
    api_base: Option<Seq<char>>,
    env_project_path: Option<Seq<char>>,
    env_mr_iid: Option<u64>,
    env_api_url: Option<Seq<char>>,
    env_repository: Option<Seq<char>>,
    env_pr_number: Option<u64>,
) -> Result<(Seq<char>, Seq<char>, u64, Option<Seq<char>>), AdapterTargetError> {
    if platform == PLATFORM_GITLAB@ {
        match first_of(first_of(project, repo), env_project_path) {
            None => Err(AdapterTargetError::GitLabProjectPathRequired),
            Some(path) => match first_num(pr, env_mr_iid) {
                None => Err(AdapterTargetError::GitLabMrIidRequired),
                Some(iid) => Ok((path, Seq::empty(), iid, first_of(api_base, env_api_url))),
            },
        }
    } else {
        match first_of(repo, env_repository) {
            None => Err(AdapterTargetError::GitHubRepositoryRequired),
            Some(r) => match first_num(pr, env_pr_number) {
                None => Err(AdapterTargetError::PrNumberRequired),
                Some(n) => match crate::parser::find_spec_char(r, '/') {
                    None => Err(AdapterTargetError::RepoFormat),
                    Some(k) => Ok((r.subrange(0, k), r.subrange(k + 1, r.len() as int), n, None)),
                },
            },
        }
    }
}

/// A target's view: project or owner, repository (empty for GitLab),
/// number, and GitLab's API base.
pub open spec fn target_view(t: AdapterTarget) -> (Seq<char>, Seq<char>, u64, Option<Seq<char>>) {
    match t {
        AdapterTarget::GitLab { project_path, mr_iid, api_base } => (project_path@, Seq::empty(), mr_iid, opt_string(api_base)),
        AdapterTarget::GitHub { owner, repo, pr_number } => (owner@, repo@, pr_number, None),
    }
}

fn first_text(a: Option<&str>, b: Option<&str>) -> (r: Option<String>)
    ensures
        opt_string(r) == first_of(opt_str(a), opt_str(b)),
{
    match a {
        Some(x) => Some(String::from_str(x)),
        None => match b {
            Some(y) => Some(String::from_str(y)),
            None => None,
        },
    }
}

/// Decides where a review is posted, or why it cannot be.
pub fn resolve_adapter_target(
    platform: &str,
    repo: Option<&str>,
    pr: Option<u64>,
    project: Option<&str>,
    api_base: Option<&str>,
    env_project_path: Option<&str>,
    env_mr_iid: Option<u64>,
    env_api_url: Option<&str>,
    env_repository: Option<&str>,
    env_pr_number: Option<u64>,
) -> (r: Result<AdapterTarget, AdapterTargetError>)
    ensures
        ({
            let spec = target_ok(
                platform@,
                opt_str(repo),
                pr,
                opt_str(project),
                opt_str(api_base),
                opt_str(env_project_path),
                env_mr_iid,
                opt_str(env_api_url),
                opt_str(env_repository),
                env_pr_number,
            );
            match r {
                Ok(t) => spec == Ok::<_, AdapterTargetError>(target_view(t)) && (t is GitLab <==> platform@ == PLATFORM_GITLAB@),
                Err(e) => spec == Err::<(Seq<char>, Seq<char>, u64, Option<Seq<char>>), AdapterTargetError>(e),
            }
        }),
{
    let pc = chars_of(platform);
    let gl = chars_of(PLATFORM_GITLAB);
    let mut is_gitlab = pc.len() == gl.len();
    let mut i: usize = 0;
    while is_gitlab && i < pc.len()
        invariant
            i <= pc@.len(),
            pc@ == platform@,
            gl@ == PLATFORM_GITLAB@,
            is_gitlab ==> pc@.len() == gl@.len() && forall|j: int| 0 <= j < i ==> pc@[j] == gl@[j],
            !is_gitlab ==> pc@ != gl@,
        decreases pc@.len() - i,
    {
        if pc[i] != gl[i] {
            is_gitlab = false;
        }
        i = i + 1;
    }
    proof {
        if is_gitlab {
            assert(pc@ =~= gl@);
        }
    }
    if is_gitlab {
        let p1 = match project {
            Some(x) => Some(x),
            None => repo,
        };
        let path = match first_text(p1, env_project_path) {
            Some(p) => p,
            None => return Err(AdapterTargetError::GitLabProjectPathRequired),
        };
        let iid = match pr {
            Some(n) => n,
            None => match env_mr_iid {
                Some(n) => n,
                None => return Err(AdapterTargetError::GitLabMrIidRequired),
            },
        };
        let base = first_text(api_base, env_api_url);
        Ok(AdapterTarget::GitLab { project_path: path, mr_iid: iid, api_base: base })
    } else {
        let repo_str = match first_text(repo, env_repository) {
            Some(r) => r,
            None => return Err(AdapterTargetError::GitHubRepositoryRequired),
        };
        let number = match pr {
            Some(n) => n,
            None => match env_pr_number {
                Some(n) => n,
                None => return Err(AdapterTargetError::PrNumberRequired),
            },
        };
        let rc = chars_of(repo_str.as_str());
        let rlen = rc.len();
        match crate::parser::find_char(rc.as_slice(), '/') {
            None => Err(AdapterTargetError::RepoFormat),
            Some(k) => {
                let owner = crate::text::string_of_range(rc.as_slice(), 0, k);
                let name = crate::text::string_of_range(rc.as_slice(), k + 1, rlen);
                Ok(AdapterTarget::GitHub { owner, repo: name, pr_number: number })
            },
        }
    }
}

// ---------------------------------------------------------------------------
// Stale findings
// ---------------------------------------------------------------------------

/// A fingerprint's two identities.
pub open spec fn fp_view(f: Fingerprint) -> (Seq<char>, Seq<char>) {
    (f.id@, f.line_id@)
}

/// The identities of the current findings: content and line identities of
/// every fingerprinted finding.
pub open spec fn current_ids(findings: Seq<Finding>) -> Set<Seq<char>> {
    Set::new(|x: Seq<char>| exists|i: int| 0 <= i < findings.len() && #[trigger] has_identity(findings[i], x))
}

/// A finding's fingerprint has `x` as its content or line identity.
pub open spec fn has_identity(f: Finding, x: Seq<char>) -> bool {
    match f.fingerprint {
        Some(fp) => fp.id@ == x || fp.line_id@ == x,
        None => false,
    }
}

/// A prior finding is stale when neither of its identities is an
/// identity of a current finding.
pub open spec fn is_stale(p: (Seq<char>, Seq<char>), ids: Set<Seq<char>>) -> bool {
    !ids.contains(p.0) && !ids.contains(p.1)
}

fn id_matches(id: &String, findings: &[Finding]) -> (b: bool)
    ensures
        b == current_ids(findings@).contains(id@),
{
    let mut i: usize = 0;
    while i < findings.len()
        invariant
            i <= findings@.len(),
            forall|q: int| 0 <= q < i ==> !has_identity(#[trigger] findings@[q], id@),
        decreases findings@.len() - i,
    {
        match &findings[i].fingerprint {
            Some(fp) => {
                if fp.id == *id || fp.line_id == *id {
                    assert(has_identity(findings@[i as int], id@));
                    return true;
                }
            },
            None => {},
        }
        i = i + 1;
    }
    false
}

/// The prior findings to resolve. None when the current review is clean
/// (a missed finding should stay visible); otherwise, in order, those
/// whose content and line identities both match no identity of a current
/// finding.
pub fn select_stale_fingerprints(prior: Vec<Fingerprint>, findings: &[Finding]) -> (r: Vec<Fingerprint>)
    ensures
        findings@.len() == 0 ==> r@.len() == 0,
        findings@.len() > 0 ==> r@.map_values(|f: Fingerprint| fp_view(f)) == prior@.map_values(
            |f: Fingerprint| fp_view(f),
        ).filter(|p: (Seq<char>, Seq<char>)| is_stale(p, current_ids(findings@))),
{
    let mut r: Vec<Fingerprint> = Vec::new();
    if findings.len() == 0 {
        return r;
    }
    let ghost ids = current_ids(findings@);
    let ghost pv = prior@.map_values(|f: Fingerprint| fp_view(f));
    let mut i: usize = 0;
    while i < prior.len()
        invariant
            i <= prior@.len(),
            ids == current_ids(findings@),
            pv == prior@.map_values(|f: Fingerprint| fp_view(f)),
            r@.map_values(|f: Fingerprint| fp_view(f)) == pv.take(i as int).filter(|p: (Seq<char>, Seq<char>)| is_stale(p, ids)),
        decreases prior@.len() - i,
    {
        let fp = &prior[i];
        let stale = !id_matches(&fp.id, findings) && !id_matches(&fp.line_id, findings);
        proof {
            assert(pv.take(i + 1) =~= pv.take(i as int).push(pv[i as int]));
            reveal(Seq::filter);
            assert(pv.take(i + 1).drop_last() =~= pv.take(i as int));
        }
        if stale {
            let ghost before = r@;
            r.push(fp.duplicate());
            assert(r@.map_values(|f: Fingerprint| fp_view(f)) =~= before.map_values(|f: Fingerprint| fp_view(f)).push(pv[i as int]));
        }
        i = i + 1;
    }
    assert(pv.take(prior@.len() as int) =~= pv);
    r
}


/// Reruns do not churn comments: a prior finding whose content or line
/// identity the current review reports again is never among those
/// resolved.
pub proof fn law_reported_again_not_stale(prior: Seq<Fingerprint>, findings: Seq<Finding>, p: Fingerprint, i: int)
    requires
        0 <= i < findings.len(),
        has_identity(findings[i], p.id@) || has_identity(findings[i], p.line_id@),
    ensures
        !prior.map_values(|f: Fingerprint| fp_view(f)).filter(
            |q: (Seq<char>, Seq<char>)| is_stale(q, current_ids(findings)),
        ).contains(fp_view(p)),
{
    let pred = |q: (Seq<char>, Seq<char>)| is_stale(q, current_ids(findings));
    let st = prior.map_values(|f: Fingerprint| fp_view(f)).filter(pred);
    assert(current_ids(findings).contains(p.id@) || current_ids(findings).contains(p.line_id@));
    if st.contains(fp_view(p)) {
        let k = choose|k: int| 0 <= k < st.len() && st[k] == fp_view(p);
        prior.map_values(|f: Fingerprint| fp_view(f)).lemma_filter_pred(pred, k);
    }
}


proof fn lemma_kept_lines_fit(ls: Seq<Seq<char>>, i: int, used: nat, limit: nat)
    requires
        used <= limit,
    ensures
        used + byte_len(kept_lines(ls, i, used, limit)) <= limit,
    decreases ls.len() - i,
{
    if !(i < 0 || i >= ls.len() || used + byte_len(ls[i]) + 1 > limit) {
        let next = used + byte_len(ls[i]) + 1;
        lemma_kept_lines_fit(ls, i + 1, next, limit);
        let rest = kept_lines(ls, i + 1, next, limit);
        assert(byte_len(seq!['\n']) == 1) by {
            let nl = seq!['\n'];
            assert(nl.drop_last() =~= Seq::<char>::empty());
            assert(byte_len(Seq::<char>::empty()) == 0);
            assert(nl.last() == '\n');
            assert(('\n' as u32) < 0x80);
            assert(crate::verify::utf8_len('\n') == 1);
        }
        lemma_byte_len_concat(ls[i], seq!['\n']);
        lemma_byte_len_concat(ls[i] + seq!['\n'], rest);
    }
}

/// Diff truncation keeps whole leading lines within the byte budget: the
/// kept lines, each with its newline, never take more than the budget.
pub proof fn law_kept_lines_fit_budget(diff: Seq<char>, limit: nat)
    ensures
        byte_len(kept_lines(lines_spec(diff), 0, 0, limit)) <= limit,
{
    lemma_kept_lines_fit(lines_spec(diff), 0, 0, limit);
}

/// A cut diff keeps to its token budget: when the diff's first line is not
/// blank and fits in the budget left after the notice, the cut diff with
/// its notice takes no more tokens than the budget (or than the notice and
/// one token, for a budget smaller than that).
pub proof fn law_truncated_diff_fits_budget(diff: Seq<char>, token_budget: nat)
    requires
        lines_spec(diff).len() > 0,
        trim_spec(lines_spec(diff)[0]).len() > 0,
        byte_len(lines_spec(diff)[0]) + 1 <= 3 * (if token_budget > token_count(DIFF_TRUNCATION_NOTICE@) + 1 {
            token_budget - token_count(DIFF_TRUNCATION_NOTICE@)
        } else {
            1
        }),
    ensures
        truncate_diff_spec(diff, token_budget) matches Some(s) ==> token_count(s) <= (if token_budget
            > token_count(DIFF_TRUNCATION_NOTICE@) + 1 {
            token_budget
        } else {
            token_count(DIFF_TRUNCATION_NOTICE@) + 1
        }),
{
    let tn = token_count(DIFF_TRUNCATION_NOTICE@);
    if token_count(diff) > token_budget {
        let e0 = sat_sub(token_budget, tn);
        let e = if e0 < 1 { 1 } else { e0 };
        let ls = lines_spec(diff);
        let limit = e * 3;
        let kept = kept_lines(ls, 0, 0, limit);
        assert(kept == ls[0] + seq!['\n'] + kept_lines(ls, 1, byte_len(ls[0]) + 1, limit));
        let first = ls[0];
        assert(trim_spec(first).len() > 0);
        crate::text::lemma_trim_has_nonspace(first);
        let k = choose|k: int| 0 <= k < first.len() && !crate::text::char_is_whitespace(first[k]);
        assert(kept[k] == first[k]);
        crate::text::lemma_trim_nonempty(kept, k);
        lemma_kept_lines_fit(ls, 0, 0, limit);
        let s = kept + DIFF_TRUNCATION_NOTICE@;
        crate::verify::lemma_byte_len_concat(kept, DIFF_TRUNCATION_NOTICE@);
        assert(byte_len(s) <= 3 * e + byte_len(DIFF_TRUNCATION_NOTICE@));
        assert(byte_len(s) / 3 <= e + byte_len(DIFF_TRUNCATION_NOTICE@) / 3) by (nonlinear_arith)
            requires
                byte_len(s) <= 3 * e + byte_len(DIFF_TRUNCATION_NOTICE@),
        ;
    }
}

/// A prior comment is resolved when nothing reported now carries either of
/// its identities: its fingerprint is among the stale ones.
pub proof fn law_unreported_prior_is_stale(prior: Seq<Fingerprint>, findings: Seq<Finding>, k: int)
    requires
        0 <= k < prior.len(),
        forall|i: int|
            0 <= i < findings.len() ==> match (#[trigger] findings[i]).fingerprint {
                Some(fp) => fp.id@ != prior[k].id@ && fp.line_id@ != prior[k].id@ && fp.id@ != prior[k].line_id@
                    && fp.line_id@ != prior[k].line_id@,
                None => true,
            },
    ensures
        prior.map_values(|f: Fingerprint| fp_view(f)).filter(
            |q: (Seq<char>, Seq<char>)| is_stale(q, current_ids(findings)),
        ).contains(fp_view(prior[k])),
{
    let pred = |q: (Seq<char>, Seq<char>)| is_stale(q, current_ids(findings));
    let pv = prior.map_values(|f: Fingerprint| fp_view(f));
    assert(pv[k] == fp_view(prior[k]));
    assert(!current_ids(findings).contains(prior[k].id@)) by {
        if current_ids(findings).contains(prior[k].id@) {
            let i = choose|i: int| 0 <= i < findings.len() && #[trigger] has_identity(findings[i], prior[k].id@);
            assert(findings[i].fingerprint is Some);
        }
    }
    assert(!current_ids(findings).contains(prior[k].line_id@)) by {
        if current_ids(findings).contains(prior[k].line_id@) {
            let i = choose|i: int| 0 <= i < findings.len() && #[trigger] has_identity(findings[i], prior[k].line_id@);
            assert(findings[i].fingerprint is Some);
        }
    }
    pv.lemma_filter_contains(pred, k);
}

} // verus!
