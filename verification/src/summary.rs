//! The summary comment posted on a change: the outcome, the files, the
//! context the review saw and its statistics.
use vstd::prelude::*;
use crate::decimal::{decimal, u64_to_string, usize_to_string};
use crate::text::append_str;
use crate::types::{Finding, RetrievalResults};

verus! {

/// How a review ended.
#[derive(Debug, Clone, Copy, PartialEq, Eq, Structural)]
pub enum ReviewOutcome {
    Findings,
    Clean,
    LimitedClean,
    Inconclusive,
}

/// Opens the summary comment.
pub const PR_SUMMARY_HEADER: &'static str = "## Snif Review\n\n";
/// Said of a review whose output could not be trusted.
pub const INCONCLUSIVE_REVIEW: &'static str =
    "**Review inconclusive.** The review output could not be trusted, so no result is reported.\n";
/// Said of a clean review whose context was limited.
pub const LIMITED_NO_FINDINGS: &'static str =
    "**No reportable issues found in analyzed context.** Some context was limited; see the details.\n";
/// Said of a clean review.
pub const NO_FINDINGS: &'static str = "**No issues found.** Change looks clean.\n";
/// Opens the count of findings.
pub const FINDINGS_FOUND_PREFIX: &'static str = "**Found ";
/// Closes the count of one finding.
pub const FINDINGS_FOUND_SUFFIX_SINGULAR: &'static str = " issue.**\n";
/// Closes the count of several findings.
pub const FINDINGS_FOUND_SUFFIX_PLURAL: &'static str = " issues.**\n";
/// Opens the collapsed details.
pub const COLLAPSIBLE_DETAILS_OPENER: &'static str = "\n<details>\n<summary>Review details</summary>\n\n";
/// Closes the collapsed details.
pub const COLLAPSIBLE_DETAILS_CLOSER: &'static str = "\n</details>\n";
/// Heads the list of changed files.
pub const CHANGED_FILES_HEADER: &'static str = "**Changed files:**\n";
/// Opens a changed file's line.
pub const CHANGED_FILE_OPEN: &'static str = "- `";
/// Closes a changed file's line.
pub const CHANGED_FILE_CLOSE: &'static str = "`\n";
/// Heads the context line.
pub const CONTEXT_ANALYZED_HEADER: &'static str = "\n**Context analyzed:** ";
/// Follows a count of one related file.
pub const CONTEXT_ANALYZED_FILE_SUFFIX_SINGULAR: &'static str = " related file";
/// Follows a count of several related files.
pub const CONTEXT_ANALYZED_FILES_SUFFIX_PLURAL: &'static str = " related files";
/// Said when fewer related files went in than were retrieved.
pub const CONTEXT_ANALYZED_TRIMMED_SUFFIX: &'static str = " included after trimming";
/// Follows the count of files found through dependencies.
pub const STRUCTURAL_RETRIEVAL_LABEL: &'static str = " structural";
/// Follows the count of files found through summary embeddings.
pub const SEMANTIC_RETRIEVAL_LABEL: &'static str = " semantic";
/// Follows the count of files found through code embeddings.
pub const CODE_SEMANTIC_RETRIEVAL_LABEL: &'static str = " code-semantic";
/// Follows the count of files found through keywords.
pub const KEYWORD_RETRIEVAL_LABEL: &'static str = " keyword";
/// Separates retrieval methods.
pub const METHODS_SEPARATOR: &'static str = ", ";
/// Opens the list of retrieval methods.
pub const METHODS_OPEN: &'static str = " (";
/// Closes the list of retrieval methods.
pub const METHODS_CLOSE: &'static str = ")";
/// Ends the context line.
pub const CONTEXT_LINE_END: &'static str = ".\n";
/// Opens the context note.
pub const CONTEXT_NOTE_HEADER: &'static str = "\n**Context note:** ";
/// Ends a line.
pub const LINE_END: &'static str = "\n";
/// Separates the walkthrough from the outcome.
pub const WALKTHROUGH_END: &'static str = "\n\n";
/// Opens the statistics line.
pub const STATS_LINE_PREFIX: &'static str = "\n*Reviewed ";
/// Follows the diff line count.
pub const STATS_LINE_SUFFIX: &'static str = " diff lines with ";
/// Follows the model name.
pub const STATS_LINE_MODEL_SUFFIX: &'static str = " in ";
/// Follows the duration.
pub const STATS_LINE_SECONDS_SUFFIX: &'static str = "s.*\n";

/// What the summary comment is made from.
pub struct ReviewSummaryInput<'a> {
    pub change_summary: &'a str,
    pub findings: &'a [Finding],
    pub outcome: ReviewOutcome,
    pub changed_paths: &'a [String],
    pub retrieval_results: &'a RetrievalResults,
    pub related_files_analyzed: usize,
    pub diff_lines: usize,
    pub model_name: &'a str,
    pub duration_secs: u64,
    pub context_note: Option<&'a str>,
}

/// The outcome line: inconclusive whatever was found; the limited or plain
/// clean wording when nothing was found; the count when findings were
/// reported; the clean wording for any other combination.
pub open spec fn outcome_text(outcome: ReviewOutcome, n: nat) -> Seq<char> {
    match outcome {
        ReviewOutcome::Inconclusive => INCONCLUSIVE_REVIEW@,
        ReviewOutcome::LimitedClean if n == 0 => LIMITED_NO_FINDINGS@,
        ReviewOutcome::Clean if n == 0 => NO_FINDINGS@,
        ReviewOutcome::Findings if n > 0 => FINDINGS_FOUND_PREFIX@ + decimal(n) + (if n == 1 {
            FINDINGS_FOUND_SUFFIX_SINGULAR@
        } else {
            FINDINGS_FOUND_SUFFIX_PLURAL@
        }),
        _ => NO_FINDINGS@,
    }
}

/// The list of changed files, one code-quoted path per line.
pub open spec fn changed_list(paths: Seq<String>) -> Seq<char> {
    paths.map_values(|p: String| CHANGED_FILE_OPEN@ + p@ + CHANGED_FILE_CLOSE@).flatten()
}

/// One retrieval method's part of the method list (empty when it found
/// nothing).
pub open spec fn method_part(count: usize, label: Seq<char>) -> Seq<Seq<char>> {
    if count > 0 {
        seq![decimal(count as nat) + label]
    } else {
        Seq::empty()
    }
}

/// The parts of the method list: each method that found files, with its
/// count.
pub open spec fn method_parts(r: RetrievalResults) -> Seq<Seq<char>> {
    method_part(r.structural_count, STRUCTURAL_RETRIEVAL_LABEL@) + method_part(r.semantic_count, SEMANTIC_RETRIEVAL_LABEL@)
        + method_part(r.code_semantic_count, CODE_SEMANTIC_RETRIEVAL_LABEL@) + method_part(r.keyword_count, KEYWORD_RETRIEVAL_LABEL@)
}

/// The context line: how many related files went in and, when all that
/// were retrieved went in, how they were found; otherwise that they were
/// trimmed. Nothing when no related file went in.
pub open spec fn context_line(related: usize, r: RetrievalResults) -> Seq<char> {
    if related == 0 {
        Seq::empty()
    } else {
        CONTEXT_ANALYZED_HEADER@ + decimal(related as nat) + (if related == 1 {
            CONTEXT_ANALYZED_FILE_SUFFIX_SINGULAR@
        } else {
            CONTEXT_ANALYZED_FILES_SUFFIX_PLURAL@
        }) + (if related == r.results@.len() {
            if method_parts(r).len() > 0 {
                METHODS_OPEN@ + crate::split::join_spec(method_parts(r), METHODS_SEPARATOR@) + METHODS_CLOSE@
            } else {
                Seq::empty()
            }
        } else {
            CONTEXT_ANALYZED_TRIMMED_SUFFIX@
        }) + CONTEXT_LINE_END@
    }
}

/// The summary comment: header; the walkthrough unless the review was
/// inconclusive or it is empty; the outcome; then, folded away, the changed
/// files, the context line, the context note and the statistics.
pub open spec fn pr_summary_spec(input: ReviewSummaryInput) -> Seq<char> {
    PR_SUMMARY_HEADER@ + (if input.outcome != ReviewOutcome::Inconclusive && input.change_summary@.len() > 0 {
        input.change_summary@ + WALKTHROUGH_END@
    } else {
        Seq::empty()
    }) + outcome_text(input.outcome, input.findings@.len()) + COLLAPSIBLE_DETAILS_OPENER@ + CHANGED_FILES_HEADER@
        + changed_list(input.changed_paths@) + context_line(input.related_files_analyzed, *input.retrieval_results) + (
    match input.context_note {
        Some(n) => CONTEXT_NOTE_HEADER@ + n@ + LINE_END@,
        None => Seq::empty(),
    }) + STATS_LINE_PREFIX@ + decimal(input.diff_lines as nat) + STATS_LINE_SUFFIX@ + input.model_name@
        + STATS_LINE_MODEL_SUFFIX@ + decimal(input.duration_secs as nat) + STATS_LINE_SECONDS_SUFFIX@
        + COLLAPSIBLE_DETAILS_CLOSER@
}

fn push_method(parts: &mut Vec<String>, count: usize, label: &str)
    ensures
        crate::sorted::string_views(final(parts)@) == crate::sorted::string_views(old(parts)@) + method_part(count, label@),
{
    let ghost o = parts@;
    if count > 0 {
        let mut t = usize_to_string(count);
        append_str(&mut t, label);
        parts.push(t);
        assert(crate::sorted::string_views(parts@) =~= crate::sorted::string_views(o) + method_part(count, label@));
    } else {
        assert(crate::sorted::string_views(parts@) =~= crate::sorted::string_views(o) + method_part(count, label@));
    }
}

fn append_context_line(out: &mut String, related: usize, r: &RetrievalResults)
    ensures
        final(out)@ == old(out)@ + context_line(related, *r),
{
    if related == 0 {
        assert(old(out)@ + context_line(related, *r) =~= old(out)@);
        return;
    }
    let ghost o = out@;
    append_str(out, CONTEXT_ANALYZED_HEADER);
    let n = usize_to_string(related);
    append_str(out, n.as_str());
    if related == 1 {
        append_str(out, CONTEXT_ANALYZED_FILE_SUFFIX_SINGULAR);
    } else {
        append_str(out, CONTEXT_ANALYZED_FILES_SUFFIX_PLURAL);
    }
    let ghost mid = out@;
    if related == r.results.len() {
        let mut parts: Vec<String> = Vec::new();
        push_method(&mut parts, r.structural_count, STRUCTURAL_RETRIEVAL_LABEL);
        push_method(&mut parts, r.semantic_count, SEMANTIC_RETRIEVAL_LABEL);
        push_method(&mut parts, r.code_semantic_count, CODE_SEMANTIC_RETRIEVAL_LABEL);
        push_method(&mut parts, r.keyword_count, KEYWORD_RETRIEVAL_LABEL);
        assert(crate::sorted::string_views(parts@) =~= method_parts(*r));
        if parts.len() > 0 {
            append_str(out, METHODS_OPEN);
            let mut pv: Vec<Vec<char>> = Vec::new();
            let mut k: usize = 0;
            while k < parts.len()
                invariant
                    k <= parts@.len(),
                    crate::split::views(pv@) == crate::sorted::string_views(parts@).take(k as int),
                decreases parts@.len() - k,
            {
                let ghost old_p = pv@;
                let c = crate::text::chars_of(parts[k].as_str());
                pv.push(c);
                assert(crate::split::views(pv@) =~= crate::split::views(old_p).push(c@));
                assert(crate::sorted::string_views(parts@).take(k + 1) =~= crate::sorted::string_views(parts@).take(
                    k as int,
                ).push(c@));
                k = k + 1;
            }
            assert(crate::sorted::string_views(parts@).take(parts@.len() as int) =~= crate::sorted::string_views(parts@));
            let sep = crate::text::chars_of(METHODS_SEPARATOR);
            let joined = crate::split::join_chars(&pv, sep.as_slice());
            crate::text::append_chars(out, joined.as_slice());
            append_str(out, METHODS_CLOSE);
        }
    } else {
        append_str(out, CONTEXT_ANALYZED_TRIMMED_SUFFIX);
    }
    append_str(out, CONTEXT_LINE_END);
    assert(out@ =~= o + context_line(related, *r));
}

fn append_outcome(out: &mut String, outcome: ReviewOutcome, n: usize)
    ensures
        final(out)@ == old(out)@ + outcome_text(outcome, n as nat),
{
    let ghost o = out@;
    match outcome {
        ReviewOutcome::Inconclusive => append_str(out, INCONCLUSIVE_REVIEW),
        ReviewOutcome::LimitedClean if n == 0 => append_str(out, LIMITED_NO_FINDINGS),
        ReviewOutcome::Clean if n == 0 => append_str(out, NO_FINDINGS),
        ReviewOutcome::Findings if n > 0 => {
            append_str(out, FINDINGS_FOUND_PREFIX);
            let d = usize_to_string(n);
            append_str(out, d.as_str());
            if n == 1 {
                append_str(out, FINDINGS_FOUND_SUFFIX_SINGULAR);
            } else {
                append_str(out, FINDINGS_FOUND_SUFFIX_PLURAL);
            }
        },
        _ => append_str(out, NO_FINDINGS),
    }
    assert(out@ =~= o + outcome_text(outcome, n as nat));
}

fn append_changed_list(out: &mut String, paths: &[String])
    ensures
        final(out)@ == old(out)@ + changed_list(paths@),
{
    let ghost base = out@;
    let ghost items = paths@.map_values(|p: String| CHANGED_FILE_OPEN@ + p@ + CHANGED_FILE_CLOSE@);
    let mut i: usize = 0;
    while i < paths.len()
        invariant
            i <= paths@.len(),
            items == paths@.map_values(|p: String| CHANGED_FILE_OPEN@ + p@ + CHANGED_FILE_CLOSE@),
            out@ == base + items.take(i as int).flatten(),
        decreases paths@.len() - i,
    {
        append_str(out, CHANGED_FILE_OPEN);
        append_str(out, paths[i].as_str());
        append_str(out, CHANGED_FILE_CLOSE);
        proof {
            assert(items.take(i + 1) =~= items.take(i as int).push(items[i as int]));
            items.take(i as int).lemma_flatten_push(items[i as int]);
        }
        i = i + 1;
    }
    assert(items.take(paths@.len() as int) =~= items);
}

fn append_stats(out: &mut String, diff_lines: usize, model_name: &str, duration_secs: u64)
    ensures
        final(out)@ == old(out)@ + STATS_LINE_PREFIX@ + decimal(diff_lines as nat) + STATS_LINE_SUFFIX@ + model_name@
            + STATS_LINE_MODEL_SUFFIX@ + decimal(duration_secs as nat) + STATS_LINE_SECONDS_SUFFIX@
            + COLLAPSIBLE_DETAILS_CLOSER@,
{
    let ghost o = out@;
    append_str(out, STATS_LINE_PREFIX);
    let dl = usize_to_string(diff_lines);
    append_str(out, dl.as_str());
    append_str(out, STATS_LINE_SUFFIX);
    append_str(out, model_name);
    append_str(out, STATS_LINE_MODEL_SUFFIX);
    let ds = u64_to_string(duration_secs);
    append_str(out, ds.as_str());
    append_str(out, STATS_LINE_SECONDS_SUFFIX);
    append_str(out, COLLAPSIBLE_DETAILS_CLOSER);
    assert(out@ =~= o + STATS_LINE_PREFIX@ + decimal(diff_lines as nat) + STATS_LINE_SUFFIX@ + model_name@
        + STATS_LINE_MODEL_SUFFIX@ + decimal(duration_secs as nat) + STATS_LINE_SECONDS_SUFFIX@
        + COLLAPSIBLE_DETAILS_CLOSER@);
}

/// Formats the summary comment of a review.
pub fn format_pr_summary(input: &ReviewSummaryInput) -> (r: String)
    ensures
        r@ == pr_summary_spec(*input),
        input.outcome != ReviewOutcome::Inconclusive && input.change_summary@.len() > 0 ==> (PR_SUMMARY_HEADER@
            + input.change_summary@ + WALKTHROUGH_END@).is_prefix_of(r@),
{
    proof {
        if input.outcome != ReviewOutcome::Inconclusive && input.change_summary@.len() > 0 {
            law_conclusive_summary_opens_with_walkthrough(*input);
        }
    }
    let mut s = String::from_str(PR_SUMMARY_HEADER);
    let inconclusive = match input.outcome {
        ReviewOutcome::Inconclusive => true,
        _ => false,
    };
    if !inconclusive && !input.change_summary.is_empty() {
        append_str(&mut s, input.change_summary);
        append_str(&mut s, WALKTHROUGH_END);
    }
    let ghost s1 = s@;
    append_outcome(&mut s, input.outcome, input.findings.len());
    append_str(&mut s, COLLAPSIBLE_DETAILS_OPENER);
    append_str(&mut s, CHANGED_FILES_HEADER);
    append_changed_list(&mut s, input.changed_paths);
    append_context_line(&mut s, input.related_files_analyzed, input.retrieval_results);
    let ghost s2 = s@;
    match input.context_note {
        Some(note) => {
            append_str(&mut s, CONTEXT_NOTE_HEADER);
            append_str(&mut s, note);
            append_str(&mut s, LINE_END);
        },
        None => {},
    }
    append_stats(&mut s, input.diff_lines, input.model_name, input.duration_secs);
    assert(s@ =~= pr_summary_spec(*input));
    s
}


/// The folded details of a summary: changed files, context, note and
/// statistics.
pub open spec fn details_spec(input: ReviewSummaryInput) -> Seq<char> {
    COLLAPSIBLE_DETAILS_OPENER@ + CHANGED_FILES_HEADER@ + changed_list(input.changed_paths@) + context_line(
        input.related_files_analyzed,
        *input.retrieval_results,
    ) + (match input.context_note {
        Some(n) => CONTEXT_NOTE_HEADER@ + n@ + LINE_END@,
        None => Seq::empty(),
    }) + STATS_LINE_PREFIX@ + decimal(input.diff_lines as nat) + STATS_LINE_SUFFIX@ + input.model_name@
        + STATS_LINE_MODEL_SUFFIX@ + decimal(input.duration_secs as nat) + STATS_LINE_SECONDS_SUFFIX@
        + COLLAPSIBLE_DETAILS_CLOSER@
}

/// An inconclusive review never reports a result or repeats the untrusted
/// walkthrough: its summary is the header, the inconclusive notice, and the
/// details, whatever the findings and the walkthrough.
pub proof fn law_inconclusive_summary_is_notice_and_details(input: ReviewSummaryInput)
    requires
        input.outcome == ReviewOutcome::Inconclusive,
    ensures
        pr_summary_spec(input) == PR_SUMMARY_HEADER@ + INCONCLUSIVE_REVIEW@ + details_spec(input),
{
    assert(pr_summary_spec(input) =~= PR_SUMMARY_HEADER@ + INCONCLUSIVE_REVIEW@ + details_spec(input));
}

/// Every review that is not inconclusive opens with its walkthrough: after
/// the header come the change summary and a blank line, whether findings
/// were reported or the change is clean.
pub proof fn law_conclusive_summary_opens_with_walkthrough(input: ReviewSummaryInput)
    requires
        input.outcome != ReviewOutcome::Inconclusive,
        input.change_summary@.len() > 0,
    ensures
        (PR_SUMMARY_HEADER@ + input.change_summary@ + WALKTHROUGH_END@).is_prefix_of(pr_summary_spec(input)),
{
    let p = PR_SUMMARY_HEADER@ + input.change_summary@ + WALKTHROUGH_END@;
    let whole = pr_summary_spec(input);
    assert(whole.subrange(0, p.len() as int) =~= p);
}

} // verus!
