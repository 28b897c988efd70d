//! The SARIF report of a review: one rule per category, and one result per
//! finding with its level by confidence.
use vstd::prelude::*;
use crate::text::append_str;
use crate::types::{category_name, copy_opt_string, f64_bits_ge, f64_ge_spec, Finding};

verus! {

/// The rules of the report: identifier, name and description.
pub const SARIF_RULES: [(&'static str, &'static str, &'static str); 6] = [
    ("snif/logic", "Logic Error", "Bug or incorrect behavior in code logic"),
    ("snif/security", "Security Vulnerability", "Code that introduces a security risk"),
    ("snif/convention", "Convention Violation", "Violation of project or language conventions"),
    ("snif/performance", "Performance Issue", "Code that may cause performance degradation"),
    ("snif/style", "Style Issue", "Code style or formatting concern"),
    ("snif/other", "Other Issue", "Issue that does not fit other categories"),
];

/// Starts every rule identifier.
pub const RULE_ID_PREFIX: &'static str = "snif/";
/// Bits of 0.9, the confidence from which a finding is an error.
pub const ERROR_CONFIDENCE_BITS: u64 = 0x3feccccccccccccd;
/// Bits of 0.7, the confidence from which a finding is a warning.
pub const WARNING_CONFIDENCE_BITS: u64 = 0x3fe6666666666666;

/// How serious a result is.
#[derive(Debug, Clone, Copy, PartialEq, Eq, Structural)]
pub enum SarifLevel {
    Error,
    Warning,
    Note,
}

/// The level's name in SARIF.
pub open spec fn level_name(l: SarifLevel) -> Seq<char> {
    match l {
        SarifLevel::Error => "error"@,
        SarifLevel::Warning => "warning"@,
        SarifLevel::Note => "note"@,
    }
}

impl SarifLevel {
    /// The level's name in SARIF.
    pub fn as_str(&self) -> (r: &'static str)
        ensures
            r@ == level_name(*self),
    {
        match self {
            SarifLevel::Error => "error",
            SarifLevel::Warning => "warning",
            SarifLevel::Note => "note",
        }
    }
}

/// A finding's level: an error from confidence 0.9, a warning from 0.7, a
/// note below (or when the confidence is not a number).
pub open spec fn level_spec(confidence_bits: u64) -> SarifLevel {
    if f64_ge_spec(confidence_bits, ERROR_CONFIDENCE_BITS) {
        SarifLevel::Error
    } else if f64_ge_spec(confidence_bits, WARNING_CONFIDENCE_BITS) {
        SarifLevel::Warning
    } else {
        SarifLevel::Note
    }
}

/// The level of a finding with the given confidence.
pub fn level_for(confidence_bits: u64) -> (l: SarifLevel)
    ensures
        l == level_spec(confidence_bits),
{
    if f64_bits_ge(confidence_bits, ERROR_CONFIDENCE_BITS) {
        SarifLevel::Error
    } else if f64_bits_ge(confidence_bits, WARNING_CONFIDENCE_BITS) {
        SarifLevel::Warning
    } else {
        SarifLevel::Note
    }
}

/// One result of the report, as plain values.
pub struct SarifResult {
    pub rule_id: String,
    pub level: SarifLevel,
    pub message: String,
    pub uri: String,
    pub start_line: usize,
    pub end_line: Option<usize>,
    pub snippet: String,
    pub fingerprint: Option<String>,
    pub confidence_bits: u64,
    pub impact: String,
    pub evidence: String,
    pub suggestion: Option<String>,
}

/// A finding's result: its category's rule, its level, its explanation as
/// the message, its file and lines, its evidence as the snippet, its content
/// fingerprint, and its confidence, impact, evidence and suggestion.
pub open spec fn result_matches(r: SarifResult, f: Finding) -> bool {
    &&& r.rule_id@ == RULE_ID_PREFIX@ + category_name(f.category)
    &&& r.level == level_spec(f.confidence_bits)
    &&& r.message@ == f.explanation@
    &&& r.uri@ == f.location.file@
    &&& r.start_line == f.location.start_line
    &&& r.end_line == f.location.end_line
    &&& r.snippet@ == f.evidence@
    &&& r.fingerprint == (match f.fingerprint {
        Some(fp) => Some(fp.id),
        None => None::<String>,
    })
    &&& r.confidence_bits == f.confidence_bits
    &&& r.impact@ == f.impact@
    &&& r.evidence@ == f.evidence@
    &&& r.suggestion == f.suggestion
}

/// The report result of one finding.
pub fn sarif_result(f: &Finding) -> (r: SarifResult)
    ensures
        result_matches(r, *f),
{
    let mut rule_id = String::from_str(RULE_ID_PREFIX);
    append_str(&mut rule_id, f.category.as_str());
    SarifResult {
        rule_id,
        level: level_for(f.confidence_bits),
        message: f.explanation.clone(),
        uri: f.location.file.clone(),
        start_line: f.location.start_line,
        end_line: f.location.end_line,
        snippet: f.evidence.clone(),
        fingerprint: match &f.fingerprint {
            Some(fp) => Some(fp.id.clone()),
            None => None,
        },
        confidence_bits: f.confidence_bits,
        impact: f.impact.clone(),
        evidence: f.evidence.clone(),
        suggestion: copy_opt_string(&f.suggestion),
    }
}

/// The report results of the findings, in order.
pub fn sarif_results(findings: &[Finding]) -> (r: Vec<SarifResult>)
    ensures
        r@.len() == findings@.len(),
        forall|i: int| 0 <= i < findings@.len() ==> result_matches(#[trigger] r@[i], findings@[i]),
{
    let mut r: Vec<SarifResult> = Vec::new();
    let mut i: usize = 0;
    while i < findings.len()
        invariant
            i <= findings@.len(),
            r@.len() == i,
            forall|j: int| 0 <= j < i ==> result_matches(#[trigger] r@[j], findings@[j]),
        decreases findings@.len() - i,
    {
        r.push(sarif_result(&findings[i]));
        i = i + 1;
    }
    r
}

} // verus!
