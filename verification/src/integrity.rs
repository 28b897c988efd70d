//! Integrity checks on an empty review: does the model's own text claim
//! issues that its structured findings do not carry?
use vstd::prelude::*;
use crate::split::{collapse_ws, collapse_ws_spec};
use crate::text::{
    ascii_lower_seq, ascii_lowercase_chars, chars_of, contains, is_blank, seq_contains, trim_spec,
};
use crate::types::Finding;

verus! {

/// Phrases that say a review found nothing.
pub const NEGATIVE_PATTERNS: [&'static str; 17] = [
    "no issue",
    "no issues",
    "no bug",
    "no bugs",
    "no finding",
    "no findings",
    "no problem",
    "no problems",
    "no concern",
    "no concerns",
    "no reportable",
    "without issue",
    "without issues",
    "nothing actionable",
    "looks clean",
    "change looks clean",
    "clean change",
];

/// Phrases that claim a review found something.
pub const CLAIM_PATTERNS: [&'static str; 64] = [
    "issue found",
    "issues found",
    "found issue",
    "found an issue",
    "found a bug",
    "bug found",
    "security concern found",
    "security concerns found",
    "security concern identified",
    "security concerns identified",
    "security concern detected",
    "security concerns detected",
    "security concern flagged",
    "security concerns flagged",
    "concern found",
    "concerns found",
    "found concern",
    "found concerns",
    "vulnerability found",
    "vulnerabilities found",
    "found vulnerability",
    "found vulnerabilities",
    "regression found",
    "regressions found",
    "found regression",
    "found regressions",
    "risk found",
    "risks found",
    "found risk",
    "found risks",
    "problem found",
    "problems found",
    "found problem",
    "found problems",
    "concerns identified",
    "issues identified",
    "bugs identified",
    "vulnerabilities identified",
    "regressions identified",
    "risks identified",
    "problems identified",
    "identified concerns",
    "identified issues",
    "identified bugs",
    "identified vulnerabilities",
    "identified regressions",
    "identified risks",
    "identified problems",
    "detected concern",
    "detected concerns",
    "detected issue",
    "detected issues",
    "detected bug",
    "detected bugs",
    "detected vulnerability",
    "detected vulnerabilities",
    "flagged concern",
    "flagged concerns",
    "flagged issue",
    "flagged issues",
    "flagged bug",
    "flagged bugs",
    "flagged vulnerability",
    "flagged vulnerabilities",
];

/// The texts of a list of patterns.
pub open spec fn pattern_views(ps: Seq<&str>) -> Seq<Seq<char>> {
    ps.map_values(|p: &str| p@)
}

/// Some pattern of the list occurs in the text.
pub open spec fn any_pattern_in(text: Seq<char>, ps: Seq<&str>) -> bool {
    exists|k: int| 0 <= k < ps.len() && seq_contains(text, #[trigger] ps[k]@)
}

/// Whether some pattern of the list occurs in the text.
pub fn any_pattern_found(text: &[char], ps: &[&str]) -> (b: bool)
    ensures
        b == any_pattern_in(text@, ps@),
{
    let mut k: usize = 0;
    while k < ps.len()
        invariant
            k <= ps@.len(),
            forall|j: int| 0 <= j < k ==> !seq_contains(text@, #[trigger] ps@[j]@),
        decreases ps@.len() - k,
    {
        let p = chars_of(ps[k]);
        if contains(text, p.as_slice()) {
            return true;
        }
        k = k + 1;
    }
    false
}

/// The text a claim check reads: ASCII lower-cased, whitespace collapsed.
pub open spec fn claim_text(text: Seq<char>) -> Seq<char> {
    collapse_ws_spec(ascii_lower_seq(text))
}

/// A text claims findings when, lower-cased and with whitespace collapsed,
/// it is not blank, holds no phrase saying nothing was found, and holds a
/// phrase claiming something was found.
pub open spec fn claims_findings(text: Seq<char>) -> bool {
    let n = claim_text(text);
    &&& trim_spec(n).len() != 0
    &&& !any_pattern_in(n, NEGATIVE_PATTERNS@)
    &&& any_pattern_in(n, CLAIM_PATTERNS@)
}

/// Whether a text claims that issues were found.
pub fn contains_finding_claim(text: &str) -> (b: bool)
    ensures
        b == claims_findings(text@),
{
    let chars = chars_of(text);
    let lower = ascii_lowercase_chars(chars.as_slice());
    let normalized = collapse_ws(lower.as_slice());
    if is_blank(normalized.as_slice()) {
        return false;
    }
    if any_pattern_found(normalized.as_slice(), &NEGATIVE_PATTERNS) {
        return false;
    }
    any_pattern_found(normalized.as_slice(), &CLAIM_PATTERNS)
}

/// Whether a review summary claims that issues were found.
pub fn summary_claims_findings(text: &str) -> (b: bool)
    ensures
        b == claims_findings(text@),
{
    contains_finding_claim(text)
}

/// How well a response could be read as a structured review.
#[derive(Debug, Clone, Copy, PartialEq, Eq, Structural)]
pub enum ParseQuality {
    /// The response held the expected review object.
    Strict,
    /// A review object was found by searching the response's JSON.
    Flexible,
    /// Only a bare array of findings could be read.
    Array,
    /// Nothing structured could be read; findings, if any, were salvaged.
    Malformed,
}

/// What was read from a review response.
#[derive(Debug)]
pub struct ParsedResponse {
    pub summary: String,
    pub findings: Vec<Finding>,
    pub quality: ParseQuality,
}

/// Why an empty review cannot be trusted as clean.
#[derive(Debug, Clone, Copy, PartialEq, Eq, Structural)]
pub enum InconclusiveReason {
    SummaryClaimsFindings,
    MalformedResponseContainsFindingLanguage,
    RepairDidNotProduceStructuredReview,
}

/// The sentence that explains an inconclusive reason.
pub open spec fn reason_text(r: InconclusiveReason) -> Seq<char> {
    match r {
        InconclusiveReason::SummaryClaimsFindings =>
            "review summary claims issues but findings are empty"@,
        InconclusiveReason::MalformedResponseContainsFindingLanguage =>
            "malformed review text appears to contain issues but no findings were parsed"@,
        InconclusiveReason::RepairDidNotProduceStructuredReview =>
            "repair did not produce a structured review response"@,
    }
}

impl InconclusiveReason {
    /// The sentence that explains the reason.
    pub fn message(&self) -> (r: &'static str)
        ensures
            r@ == reason_text(*self),
    {
        match self {
            InconclusiveReason::SummaryClaimsFindings => {
                "review summary claims issues but findings are empty"
            },
            InconclusiveReason::MalformedResponseContainsFindingLanguage => {
                "malformed review text appears to contain issues but no findings were parsed"
            },
            InconclusiveReason::RepairDidNotProduceStructuredReview => {
                "repair did not produce a structured review response"
            },
        }
    }
}

/// The verdict on an empty review, given the first parse, the raw response
/// and, when a repair was run, the repaired response and its parse.
pub open spec fn inconclusive_spec(
    raw: Seq<char>,
    first_summary: Seq<char>,
    first_quality: ParseQuality,
    final_response: Seq<char>,
    final_summary: Seq<char>,
    final_quality: ParseQuality,
    final_has_findings: bool,
    repaired: bool,
) -> Option<InconclusiveReason> {
    if final_has_findings {
        None
    } else if claims_findings(first_summary) || claims_findings(final_summary) {
        Some(InconclusiveReason::SummaryClaimsFindings)
    } else if repaired && !(final_quality == ParseQuality::Strict || final_quality
        == ParseQuality::Flexible) {
        Some(InconclusiveReason::RepairDidNotProduceStructuredReview)
    } else if first_quality == ParseQuality::Malformed && (claims_findings(raw) || claims_findings(
        final_response,
    )) {
        Some(InconclusiveReason::MalformedResponseContainsFindingLanguage)
    } else {
        None
    }
}

/// Decides whether a review that ended with no findings is inconclusive:
/// its summary claims issues, a repair produced no structured review, or a
/// malformed response talks about issues.
pub fn empty_review_inconclusive_reason(
    raw_response: &str,
    parsed: &ParsedResponse,
    repaired: Option<(&str, &ParsedResponse)>,
) -> (r: Option<InconclusiveReason>)
    ensures
        r == (match repaired {
            Some((resp, rp)) => inconclusive_spec(
                raw_response@,
                parsed.summary@,
                parsed.quality,
                resp@,
                rp.summary@,
                rp.quality,
                rp.findings@.len() > 0,
                true,
            ),
            None => inconclusive_spec(
                raw_response@,
                parsed.summary@,
                parsed.quality,
                raw_response@,
                parsed.summary@,
                parsed.quality,
                parsed.findings@.len() > 0,
                false,
            ),
        }),
{
    let (final_response, final_parsed, was_repaired) = match repaired {
        Some((resp, rp)) => (resp, rp, true),
        None => (raw_response, parsed, false),
    };
    if final_parsed.findings.len() > 0 {
        return None;
    }
    if summary_claims_findings(parsed.summary.as_str()) || summary_claims_findings(
        final_parsed.summary.as_str(),
    ) {
        return Some(InconclusiveReason::SummaryClaimsFindings);
    }
    if was_repaired && !(final_parsed.quality == ParseQuality::Strict || final_parsed.quality
        == ParseQuality::Flexible) {
        return Some(InconclusiveReason::RepairDidNotProduceStructuredReview);
    }
    if parsed.quality == ParseQuality::Malformed && (contains_finding_claim(raw_response)
        || contains_finding_claim(final_response)) {
        return Some(InconclusiveReason::MalformedResponseContainsFindingLanguage);
    }
    None
}

} // verus!
