//! The review model: findings, their locations and fingerprints, and the
//! context package that a review prompt is rendered from.
use vstd::prelude::*;

verus! {

/// What kind of issue a finding reports.
#[derive(Debug, Clone, Copy, PartialEq, Eq, Structural)]
pub enum FindingCategory {
    Logic,
    Security,
    Convention,
    Performance,
    Style,
    Other,
}

/// The lower-case name of a category, as findings and rule ids spell it.
pub open spec fn category_name(c: FindingCategory) -> Seq<char> {
    match c {
        FindingCategory::Logic => "logic"@,
        FindingCategory::Security => "security"@,
        FindingCategory::Convention => "convention"@,
        FindingCategory::Performance => "performance"@,
        FindingCategory::Style => "style"@,
        FindingCategory::Other => "other"@,
    }
}

impl FindingCategory {
    /// The category's lower-case name.
    pub fn as_str(&self) -> (r: &'static str)
        ensures
            r@ == category_name(*self),
    {
        match self {
            FindingCategory::Logic => "logic",
            FindingCategory::Security => "security",
            FindingCategory::Convention => "convention",
            FindingCategory::Performance => "performance",
            FindingCategory::Style => "style",
            FindingCategory::Other => "other",
        }
    }
}

/// Where a finding points: a file and a line range.
#[derive(Debug)]
pub struct FileLocation {
    pub file: String,
    pub start_line: usize,
    pub end_line: Option<usize>,
}

/// A finding's stable identities: one from its content, one from its lines.
#[derive(Debug)]
pub struct Fingerprint {
    pub id: String,
    pub line_id: String,
}

/// A copy of an optional text.
pub fn copy_opt_string(s: &Option<String>) -> (r: Option<String>)
    ensures
        r == *s,
{
    match s {
        Some(t) => Some(t.clone()),
        None => None,
    }
}

impl FileLocation {
    /// An equal copy.
    pub fn duplicate(&self) -> (r: FileLocation)
        ensures
            r == *self,
    {
        FileLocation { file: self.file.clone(), start_line: self.start_line, end_line: self.end_line }
    }
}

impl Fingerprint {
    /// An equal copy.
    pub fn duplicate(&self) -> (r: Fingerprint)
        ensures
            r == *self,
    {
        Fingerprint { id: self.id.clone(), line_id: self.line_id.clone() }
    }
}

/// A copy of an optional fingerprint.
pub fn copy_opt_fingerprint(f: &Option<Fingerprint>) -> (r: Option<Fingerprint>)
    ensures
        r == *f,
{
    match f {
        Some(x) => Some(x.duplicate()),
        None => None,
    }
}

/// One reported issue. The confidence score is carried as the bit pattern
/// of the model's floating-point score (`f64::to_bits`); for the
/// non-negative scores that reviews produce, the integer order of the bit
/// patterns is the numeric order of the scores.
#[derive(Debug)]
pub struct Finding {
    pub location: FileLocation,
    pub category: FindingCategory,
    pub confidence_bits: u64,
    pub evidence: String,
    pub explanation: String,
    pub impact: String,
    pub suggestion: Option<String>,
    pub fingerprint: Option<Fingerprint>,
}

/// How much of a file's content a prompt carries.
#[derive(Debug, Clone, Copy, PartialEq, Eq, Structural)]
pub enum ContentTier {
    Full,
    SummaryOnly,
    DiffOnly,
}

/// A file as it appears in a review prompt. The retrieval score, when the
/// file came from retrieval, is carried as the text it is rendered with
/// (two decimals).
#[derive(Debug)]
pub struct ContextFile {
    pub path: String,
    pub content: String,
    pub summary: Option<String>,
    pub retrieval_score: Option<String>,
    pub content_tier: ContentTier,
}

/// Metadata of the change under review.
#[derive(Debug)]
pub struct ChangeMetadata {
    pub title: Option<String>,
    pub description: Option<String>,
    pub author: Option<String>,
    pub base_branch: Option<String>,
    pub labels: Vec<String>,
    pub commit_messages: Vec<String>,
}

impl ChangeMetadata {
    /// Metadata with nothing known.
    pub fn empty() -> (m: ChangeMetadata)
        ensures
            m.title is None,
            m.description is None,
            m.author is None,
            m.base_branch is None,
            m.labels@.len() == 0,
            m.commit_messages@.len() == 0,
    {
        ChangeMetadata {
            title: None,
            description: None,
            author: None,
            base_branch: None,
            labels: Vec::new(),
            commit_messages: Vec::new(),
        }
    }
}

/// A file left out of the prompt, or reduced, and why. The score is the bit
/// pattern of the retrieval score (zero for changed files).
#[derive(Debug)]
pub struct Omission {
    pub path: String,
    pub score_bits: u64,
    pub reason: String,
}

/// How the token budget of a prompt was spent.
#[derive(Debug, Clone, Copy)]
pub struct BudgetReport {
    pub total_budget: usize,
    pub diff_tokens: usize,
    pub changed_files_tokens: usize,
    pub related_files_tokens: usize,
    pub remaining_tokens: usize,
    pub files_included: usize,
    pub files_omitted: usize,
    pub files_full: usize,
    pub files_summary_only: usize,
    pub files_diff_only: usize,
}

/// Everything a review prompt is rendered from.
#[derive(Debug)]
pub struct ContextPackage {
    pub metadata: ChangeMetadata,
    pub diff: String,
    pub changed_files: Vec<ContextFile>,
    pub related_files: Vec<ContextFile>,
    pub omissions: Vec<Omission>,
    pub budget: BudgetReport,
}

/// How a related file was found.
#[derive(Debug, Clone, Copy, PartialEq, Eq, Structural)]
pub enum RetrievalMethod {
    /// Found through imports, reverse imports or symbol references.
    Dependency,
    Semantic,
    CodeSemantic,
    Keyword,
}

/// One retrieved related file. The score is carried as its bit pattern and
/// as its two-decimal rendering.
#[derive(Debug)]
pub struct RetrievalResult {
    pub path: String,
    pub score_bits: u64,
    pub score_text: String,
    pub method: RetrievalMethod,
}

/// The related files retrieval found, with a count per method.
#[derive(Debug)]
pub struct RetrievalResults {
    pub results: Vec<RetrievalResult>,
    pub structural_count: usize,
    pub semantic_count: usize,
    pub code_semantic_count: usize,
    pub keyword_count: usize,
}

impl Finding {
    /// An equal copy.
    pub fn duplicate(&self) -> (r: Finding)
        ensures
            r == *self,
    {
        Finding {
            location: self.location.duplicate(),
            category: self.category,
            confidence_bits: self.confidence_bits,
            evidence: self.evidence.clone(),
            explanation: self.explanation.clone(),
            impact: self.impact.clone(),
            suggestion: copy_opt_string(&self.suggestion),
            fingerprint: copy_opt_fingerprint(&self.fingerprint),
        }
    }
}

/// A context file seen as texts.
pub struct FileView {
    pub path: Seq<char>,
    pub content: Seq<char>,
    pub summary: Option<Seq<char>>,
    pub score: Option<Seq<char>>,
    pub tier: ContentTier,
}

/// An optional text's view.
pub open spec fn opt_view(o: Option<String>) -> Option<Seq<char>> {
    match o {
        Some(s) => Some(s@),
        None => None,
    }
}

/// The view of a context file.
pub open spec fn file_view(f: ContextFile) -> FileView {
    FileView { path: f.path@, content: f.content@, summary: opt_view(f.summary), score: opt_view(f.retrieval_score), tier: f.content_tier }
}



/// The sign bit of an `f64` bit pattern.
pub const F64_SIGN_BIT: u64 = 0x8000_0000_0000_0000;
/// The bit pattern of positive infinity.
pub const F64_INFINITY_BITS: u64 = 0x7ff0_0000_0000_0000;

/// The magnitude part of an `f64` bit pattern (sign cleared).
pub open spec fn f64_magnitude(a: u64) -> u64 {
    if a >= F64_SIGN_BIT { (a - F64_SIGN_BIT) as u64 } else { a }
}

/// IEEE 754 `<` on two `f64` values given by their bit patterns: false when
/// either is NaN or both are zeros; otherwise a negative value is below a
/// non-negative one, non-negative values order by magnitude, and negative
/// values by reversed magnitude.
pub open spec fn f64_lt_spec(a: u64, b: u64) -> bool {
    let ma = f64_magnitude(a);
    let mb = f64_magnitude(b);
    let na = a >= F64_SIGN_BIT;
    let nb = b >= F64_SIGN_BIT;
    &&& ma <= F64_INFINITY_BITS
    &&& mb <= F64_INFINITY_BITS
    &&& !(ma == 0 && mb == 0)
    &&& if !na && !nb {
        ma < mb
    } else if na && nb {
        ma > mb
    } else {
        na
    }
}

/// Compares two `f64` values given by their bit patterns with `<`.
pub fn f64_bits_lt(a: u64, b: u64) -> (r: bool)
    ensures
        r == f64_lt_spec(a, b),
{
    let ma = if a >= F64_SIGN_BIT { a - F64_SIGN_BIT } else { a };
    let mb = if b >= F64_SIGN_BIT { b - F64_SIGN_BIT } else { b };
    let na = a >= F64_SIGN_BIT;
    let nb = b >= F64_SIGN_BIT;
    if ma > F64_INFINITY_BITS || mb > F64_INFINITY_BITS {
        return false;
    }
    if ma == 0 && mb == 0 {
        return false;
    }
    if !na && !nb {
        ma < mb
    } else if na && nb {
        ma > mb
    } else {
        na
    }
}


/// An `f64` bit pattern is a NaN.
pub open spec fn f64_is_nan(a: u64) -> bool {
    f64_magnitude(a) > F64_INFINITY_BITS
}

/// IEEE 754 `>=` on two `f64` values given by their bit patterns: false
/// when either is NaN, else not below.
pub open spec fn f64_ge_spec(a: u64, b: u64) -> bool {
    !f64_is_nan(a) && !f64_is_nan(b) && !f64_lt_spec(a, b)
}

/// Compares two `f64` values given by their bit patterns with `>=`.
pub fn f64_bits_ge(a: u64, b: u64) -> (r: bool)
    ensures
        r == f64_ge_spec(a, b),
{
    let ma = if a >= F64_SIGN_BIT { a - F64_SIGN_BIT } else { a };
    let mb = if b >= F64_SIGN_BIT { b - F64_SIGN_BIT } else { b };
    if ma > F64_INFINITY_BITS || mb > F64_INFINITY_BITS {
        return false;
    }
    !f64_bits_lt(a, b)
}

} // verus!
