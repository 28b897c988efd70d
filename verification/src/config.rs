//! Repository configuration: its defaults, the environment overrides, and
//! where the embedding cache lives. Scores and weights are carried as the
//! bit patterns of their floating-point values (`f64::to_bits`).
use vstd::prelude::*;
use crate::text::{chars_of, string_of, to_ascii_lower, trim_chars, trim_spec, ascii_lower_seq};

verus! {

/// The embedding cache directory used when none is configured.
pub const DEFAULT_CACHE_DIR: &'static str = ".fastembed_cache";
/// The index database used when none is configured.
pub const DEFAULT_DB_PATH: &'static str = ".snif/index.db";
/// The platform used when none is configured or detected.
pub const DEFAULT_PROVIDER: &'static str = "github";
/// Tokens a review prompt may use by default.
pub const DEFAULT_MAX_TOKENS: usize = 128_000;
/// Tokens kept back for the model's answer by default.
pub const DEFAULT_OUTPUT_RESERVE_TOKENS: usize = 32_000;
/// Related files a prompt may carry by default.
pub const DEFAULT_MAX_FILES: usize = 50;
/// Summaries generated at once by default.
pub const DEFAULT_SUMMARIZER_CONCURRENCY: usize = 3;
/// Dimension of the embedding vectors.
pub const DEFAULT_EMBEDDING_DIMENSION: usize = 384;
/// Signals of feedback needed before feedback filters findings.
pub const FEEDBACK_MIN_SIGNALS: usize = 20;
/// Bits of the default minimum confidence, 0.7.
pub const MIN_CONFIDENCE_DEFAULT_BITS: u64 = 0x3fe6666666666666;
/// Bits of 1.0, the default weight of dependency retrieval.
pub const WEIGHT_STRUCTURAL_BITS: u64 = 0x3ff0000000000000;
/// Bits of 0.7, the default weight of summary-embedding retrieval.
pub const WEIGHT_SEMANTIC_BITS: u64 = 0x3fe6666666666666;
/// Bits of 0.4, the default weight of code-embedding retrieval.
pub const WEIGHT_CODE_SEMANTIC_BITS: u64 = 0x3fd999999999999a;
/// Bits of 0.3, the default weight of keyword retrieval.
pub const WEIGHT_KEYWORD_BITS: u64 = 0x3fd3333333333333;

/// Where reviews are posted.
pub struct PlatformConfig {
    pub provider: String,
    pub api_base: Option<String>,
}

/// The models and the endpoint that serves them.
pub struct ModelConfig {
    pub review_model: String,
    pub summary_model: String,
    pub endpoint: String,
}

/// The repository index.
pub struct IndexConfig {
    pub db_path: String,
    pub embedding_cache_dir: String,
    pub embedding_dimension: usize,
    pub languages: Vec<String>,
    pub exclude_patterns: Vec<String>,
}

/// How much each retrieval method counts (bit patterns of the weights).
#[derive(Debug, Clone, Copy, PartialEq, Eq, Structural)]
pub struct RetrievalWeights {
    pub structural_bits: u64,
    pub semantic_bits: u64,
    pub code_semantic_bits: u64,
    pub keyword_bits: u64,
}

/// The prompt budget.
pub struct ContextConfig {
    pub max_tokens: usize,
    pub max_files: usize,
    pub output_reserve_tokens: usize,
    pub summarizer_concurrency: usize,
    pub retrieval_weights: RetrievalWeights,
}

/// What an inconclusive review does to the run.
#[derive(Debug, Clone, Copy, PartialEq, Eq, Structural)]
pub enum ReviewInconclusiveMode {
    Fail,
    Warn,
}

/// Review behaviour.
#[derive(Debug, Clone, Copy, PartialEq, Eq, Structural)]
pub struct ReviewConfig {
    pub inconclusive_mode: ReviewInconclusiveMode,
}

/// Which findings are kept.
#[derive(Debug, Clone, Copy, PartialEq, Eq, Structural)]
pub struct FilterConfig {
    pub min_confidence_bits: u64,
    pub suppress_style_only: bool,
    pub feedback_min_signals: usize,
}

/// The whole configuration of a repository.
pub struct SnifConfig {
    pub platform: PlatformConfig,
    pub model: ModelConfig,
    pub index: IndexConfig,
    pub context: ContextConfig,
    pub review: ReviewConfig,
    pub filter: FilterConfig,
    pub conventions_paths: Vec<String>,
    pub eval_fixtures_path: Option<String>,
}

impl Default for PlatformConfig {
    fn default() -> (r: Self)
        ensures
            r.provider@ == DEFAULT_PROVIDER@,
            r.api_base is None,
    {
        PlatformConfig { provider: String::from_str(DEFAULT_PROVIDER), api_base: None }
    }
}

impl Default for ModelConfig {
    fn default() -> (r: Self)
        ensures
            r.review_model@.len() == 0,
            r.summary_model@.len() == 0,
            r.endpoint@.len() == 0,
    {
        ModelConfig { review_model: String::new(), summary_model: String::new(), endpoint: String::new() }
    }
}

impl Default for IndexConfig {
    fn default() -> (r: Self)
        ensures
            r.db_path@ == DEFAULT_DB_PATH@,
            r.embedding_cache_dir@ == DEFAULT_CACHE_DIR@,
            r.embedding_dimension == DEFAULT_EMBEDDING_DIMENSION,
            r.languages@.len() == 4,
            r.languages@[0]@ == "rust"@,
            r.languages@[1]@ == "typescript"@,
            r.languages@[2]@ == "python"@,
            r.languages@[3]@ == "java"@,
            r.exclude_patterns@.len() == 7,
            r.exclude_patterns@[0]@ == "target"@,
            r.exclude_patterns@[1]@ == "node_modules"@,
            r.exclude_patterns@[2]@ == "vendor"@,
            r.exclude_patterns@[3]@ == ".git"@,
            r.exclude_patterns@[4]@ == "build"@,
            r.exclude_patterns@[5]@ == ".gradle"@,
            r.exclude_patterns@[6]@ == ".mvn"@,
    {
        IndexConfig {
            db_path: String::from_str(DEFAULT_DB_PATH),
            embedding_cache_dir: String::from_str(DEFAULT_CACHE_DIR),
            embedding_dimension: DEFAULT_EMBEDDING_DIMENSION,
            languages: vec![
                String::from_str("rust"),
                String::from_str("typescript"),
                String::from_str("python"),
                String::from_str("java"),
            ],
            exclude_patterns: vec![
                String::from_str("target"),
                String::from_str("node_modules"),
                String::from_str("vendor"),
                String::from_str(".git"),
                String::from_str("build"),
                String::from_str(".gradle"),
                String::from_str(".mvn"),
            ],
        }
    }
}

impl Default for RetrievalWeights {
    fn default() -> (r: Self)
        ensures
            r == (RetrievalWeights {
                structural_bits: WEIGHT_STRUCTURAL_BITS,
                semantic_bits: WEIGHT_SEMANTIC_BITS,
                code_semantic_bits: WEIGHT_CODE_SEMANTIC_BITS,
                keyword_bits: WEIGHT_KEYWORD_BITS,
            }),
    {
        RetrievalWeights {
            structural_bits: WEIGHT_STRUCTURAL_BITS,
            semantic_bits: WEIGHT_SEMANTIC_BITS,
            code_semantic_bits: WEIGHT_CODE_SEMANTIC_BITS,
            keyword_bits: WEIGHT_KEYWORD_BITS,
        }
    }
}

impl Default for ContextConfig {
    fn default() -> (r: Self)
        ensures
            r.max_tokens == DEFAULT_MAX_TOKENS,
            r.max_files == DEFAULT_MAX_FILES,
            r.output_reserve_tokens == DEFAULT_OUTPUT_RESERVE_TOKENS,
            r.summarizer_concurrency == DEFAULT_SUMMARIZER_CONCURRENCY,
            r.retrieval_weights == (RetrievalWeights {
                structural_bits: WEIGHT_STRUCTURAL_BITS,
                semantic_bits: WEIGHT_SEMANTIC_BITS,
                code_semantic_bits: WEIGHT_CODE_SEMANTIC_BITS,
                keyword_bits: WEIGHT_KEYWORD_BITS,
            }),
    {
        ContextConfig {
            max_tokens: DEFAULT_MAX_TOKENS,
            max_files: DEFAULT_MAX_FILES,
            output_reserve_tokens: DEFAULT_OUTPUT_RESERVE_TOKENS,
            summarizer_concurrency: DEFAULT_SUMMARIZER_CONCURRENCY,
            retrieval_weights: RetrievalWeights::default(),
        }
    }
}

impl Default for ReviewConfig {
    fn default() -> (r: Self)
        ensures
            r.inconclusive_mode == ReviewInconclusiveMode::Fail,
    {
        ReviewConfig { inconclusive_mode: ReviewInconclusiveMode::Fail }
    }
}

impl Default for ReviewInconclusiveMode {
    fn default() -> (r: Self)
        ensures
            r == ReviewInconclusiveMode::Fail,
    {
        ReviewInconclusiveMode::Fail
    }
}

impl Default for FilterConfig {
    fn default() -> (r: Self)
        ensures
            r.min_confidence_bits == MIN_CONFIDENCE_DEFAULT_BITS,
            r.suppress_style_only,
            r.feedback_min_signals == FEEDBACK_MIN_SIGNALS,
    {
        FilterConfig {
            min_confidence_bits: MIN_CONFIDENCE_DEFAULT_BITS,
            suppress_style_only: true,
            feedback_min_signals: FEEDBACK_MIN_SIGNALS,
        }
    }
}

/// The mode a configuration text names, ignoring surrounding whitespace
/// and ASCII case.
pub open spec fn mode_named(value: Seq<char>) -> Option<ReviewInconclusiveMode> {
    let t = ascii_lower_seq(trim_spec(value));
    if t == "fail"@ {
        Some(ReviewInconclusiveMode::Fail)
    } else if t == "warn"@ {
        Some(ReviewInconclusiveMode::Warn)
    } else {
        None
    }
}

fn chars_equal(a: &[char], b: &str) -> (r: bool)
    ensures
        r == (a@ == b@),
{
    let bc = chars_of(b);
    if a.len() != bc.len() {
        return false;
    }
    let mut i: usize = 0;
    while i < a.len()
        invariant
            i <= a@.len(),
            a@.len() == bc@.len(),
            bc@ == b@,
            forall|j: int| 0 <= j < i ==> a@[j] == bc@[j],
        decreases a@.len() - i,
    {
        if a[i] != bc[i] {
            return false;
        }
        i = i + 1;
    }
    assert(a@ =~= b@);
    true
}

impl ReviewInconclusiveMode {
    /// Reads a mode from a configuration text: `fail` or `warn`, in any
    /// ASCII case and with surrounding whitespace; anything else is none.
    pub fn parse(value: &str) -> (r: Option<ReviewInconclusiveMode>)
        ensures
            r == mode_named(value@),
    {
        let cs = chars_of(value);
        let t = trim_chars(cs.as_slice());
        let mut low: Vec<char> = Vec::new();
        let mut i: usize = 0;
        while i < t.len()
            invariant
                i <= t@.len(),
                t@ == trim_spec(value@),
                low@ == ascii_lower_seq(t@.take(i as int)),
            decreases t@.len() - i,
        {
            let c = to_ascii_lower(t[i]);
            low.push(c);
            assert(ascii_lower_seq(t@.take(i + 1)) =~= ascii_lower_seq(t@.take(i as int)).push(c));
            i = i + 1;
        }
        assert(t@.take(t@.len() as int) =~= t@);
        if chars_equal(low.as_slice(), "fail") {
            Some(ReviewInconclusiveMode::Fail)
        } else if chars_equal(low.as_slice(), "warn") {
            Some(ReviewInconclusiveMode::Warn)
        } else {
            None
        }
    }
}

impl Default for SnifConfig {
    fn default() -> (r: Self)
        ensures
            r.platform.provider@ == DEFAULT_PROVIDER@,
            r.platform.api_base is None,
            r.model.review_model@.len() == 0,
            r.model.summary_model@.len() == 0,
            r.model.endpoint@.len() == 0,
            r.index.db_path@ == DEFAULT_DB_PATH@,
            r.index.embedding_cache_dir@ == DEFAULT_CACHE_DIR@,
            r.index.embedding_dimension == DEFAULT_EMBEDDING_DIMENSION,
            r.context.max_tokens == DEFAULT_MAX_TOKENS,
            r.context.max_files == DEFAULT_MAX_FILES,
            r.context.output_reserve_tokens == DEFAULT_OUTPUT_RESERVE_TOKENS,
            r.context.summarizer_concurrency == DEFAULT_SUMMARIZER_CONCURRENCY,
            r.review.inconclusive_mode == ReviewInconclusiveMode::Fail,
            r.filter.min_confidence_bits == MIN_CONFIDENCE_DEFAULT_BITS,
            r.filter.suppress_style_only,
            r.filter.feedback_min_signals == FEEDBACK_MIN_SIGNALS,
            r.conventions_paths@.len() == 0,
            r.eval_fixtures_path is None,
    {
        SnifConfig {
            platform: PlatformConfig::default(),
            model: ModelConfig::default(),
            index: IndexConfig::default(),
            context: ContextConfig::default(),
            review: ReviewConfig::default(),
            filter: FilterConfig::default(),
            conventions_paths: Vec::new(),
            eval_fixtures_path: None,
        }
    }
}

/// The embedding cache directory after the environment: the dedicated
/// variable wins over the embedding library's own, which wins over the file.
pub open spec fn cache_dir_after(current: Seq<char>, fastembed: Option<String>, snif: Option<String>) -> Seq<char> {
    match snif {
        Some(s) => s@,
        None => match fastembed {
            Some(f) => f@,
            None => current,
        },
    }
}

/// Joins a directory onto a root as a path does: an absolute directory
/// stands alone; otherwise one separator goes between them, unless the root
/// is empty or already ends with one.
pub open spec fn join_path(root: Seq<char>, dir: Seq<char>) -> Seq<char> {
    if dir.len() > 0 && dir[0] == '/' {
        dir
    } else if root.len() == 0 || root.last() == '/' {
        root + dir
    } else {
        root + seq!['/'] + dir
    }
}

impl SnifConfig {
    /// Applies the values read from the environment: the endpoint, the
    /// database path, the embedding cache directory and the inconclusive
    /// mode (only when it names a mode).
    pub fn merge_env_values(
        &mut self,
        endpoint: Option<String>,
        db_path: Option<String>,
        fastembed_cache_dir: Option<String>,
        snif_embedding_cache_dir: Option<String>,
        inconclusive_mode: Option<String>,
    )
        ensures
            final(self).model.endpoint@ == (match endpoint { Some(e) => e@, None => old(self).model.endpoint@ }),
            final(self).model.review_model == old(self).model.review_model,
            final(self).model.summary_model == old(self).model.summary_model,
            final(self).index.db_path@ == (match db_path { Some(d) => d@, None => old(self).index.db_path@ }),
            final(self).index.embedding_cache_dir@ == cache_dir_after(
                old(self).index.embedding_cache_dir@,
                fastembed_cache_dir,
                snif_embedding_cache_dir,
            ),
            final(self).index.embedding_dimension == old(self).index.embedding_dimension,
            final(self).review.inconclusive_mode == (match inconclusive_mode {
                Some(m) => match mode_named(m@) {
                    Some(x) => x,
                    None => old(self).review.inconclusive_mode,
                },
                None => old(self).review.inconclusive_mode,
            }),
            final(self).platform == old(self).platform,
            final(self).context == old(self).context,
            final(self).filter == old(self).filter,
            final(self).conventions_paths == old(self).conventions_paths,
            final(self).eval_fixtures_path == old(self).eval_fixtures_path,
    {
        if let Some(v) = endpoint {
            self.model.endpoint = v;
        }
        if let Some(v) = db_path {
            self.index.db_path = v;
        }
        if let Some(v) = fastembed_cache_dir {
            self.index.embedding_cache_dir = v;
        }
        if let Some(v) = snif_embedding_cache_dir {
            self.index.embedding_cache_dir = v;
        }
        if let Some(v) = inconclusive_mode {
            if let Some(mode) = ReviewInconclusiveMode::parse(v.as_str()) {
                self.review.inconclusive_mode = mode;
            }
        }
    }

    /// The embedding cache directory as a path: kept when absolute, else
    /// joined onto the repository root.
    pub fn resolved_embedding_cache_dir(&self, repo_root: &str) -> (r: String)
        ensures
            r@ == join_path(repo_root@, self.index.embedding_cache_dir@),
    {
        let dir = chars_of(self.index.embedding_cache_dir.as_str());
        if dir.len() > 0 && dir[0] == '/' {
            return self.index.embedding_cache_dir.clone();
        }
        let root = chars_of(repo_root);
        let mut out: Vec<char> = Vec::new();
        let mut i: usize = 0;
        while i < root.len()
            invariant
                i <= root@.len(),
                out@ == root@.take(i as int),
            decreases root@.len() - i,
        {
            out.push(root[i]);
            i = i + 1;
            assert(out@ =~= root@.take(i as int));
        }
        assert(root@.take(root@.len() as int) =~= root@);
        if root.len() > 0 && root[root.len() - 1] != '/' {
            out.push('/');
        }
        let ghost mid = out@;
        let mut i: usize = 0;
        while i < dir.len()
            invariant
                i <= dir@.len(),
                out@ == mid + dir@.take(i as int),
            decreases dir@.len() - i,
        {
            out.push(dir[i]);
            i = i + 1;
            assert(out@ =~= mid + dir@.take(i as int));
        }
        assert(dir@.take(dir@.len() as int) =~= dir@);
        assert(out@ =~= join_path(repo_root@, self.index.embedding_cache_dir@));
        string_of(out.as_slice())
    }
}


/// A path lies strictly inside a root when the root's components are a
/// proper prefix of the path's.
pub open spec fn strictly_inside(root: Seq<Seq<char>>, path: Seq<Seq<char>>) -> bool {
    root.len() < path.len() && path.take(root.len() as int) == root
}

/// Whether a path, given by its components, lies strictly inside a root
/// (the root itself does not count).
pub fn is_strictly_inside(root: &Vec<String>, path: &Vec<String>) -> (b: bool)
    ensures
        b == strictly_inside(crate::sorted::string_views(root@), crate::sorted::string_views(path@)),
{
    let ghost rs = crate::sorted::string_views(root@);
    let ghost ps = crate::sorted::string_views(path@);
    if root.len() >= path.len() {
        return false;
    }
    let mut i: usize = 0;
    while i < root.len()
        invariant
            i <= root@.len(),
            root@.len() < path@.len(),
            rs == crate::sorted::string_views(root@),
            ps == crate::sorted::string_views(path@),
            forall|j: int| 0 <= j < i ==> rs[j] == ps[j],
        decreases root@.len() - i,
    {
        if root[i] != path[i] {
            assert(rs[i as int] != ps[i as int]);
            assert(ps.take(rs.len() as int)[i as int] != rs[i as int]);
            return false;
        }
        i = i + 1;
    }
    assert(ps.take(rs.len() as int) =~= rs);
    true
}

} // verus!
