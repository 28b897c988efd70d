//! Why the embedding model failed to load: a rate limit of the model host,
//! which a review can work around, or anything else.
use vstd::prelude::*;
use crate::split::join_spec;
use crate::text::{append_str, ascii_lower_seq, chars_of, contains, seq_contains, to_ascii_lower};

verus! {

#[verifier::external_type_specification]
#[verifier::external_body]
pub struct ExAnyhowError(anyhow::Error);

/// Phrases in a load error that mean the model host rate-limited the
/// download.
pub const RATE_LIMIT_MARKERS: [&'static str; 3] = ["status code 429", "429 too many requests", "too many requests"];

/// The kind of an embedding model load failure.
#[derive(Debug, Clone, Copy, PartialEq, Eq, Structural)]
pub enum EmbedderLoadFailureKind {
    RateLimited,
    Other,
}

/// The messages of an error's chain: the error and each error that caused
/// it, outermost first, each as its `Display` writes it.
pub uninterp spec fn chain_messages_of(error: anyhow::Error) -> Seq<Seq<char>>;

/// The text an error's `Display` writes (its outermost message).
pub uninterp spec fn display_of(error: anyhow::Error) -> Seq<char>;

/// `anyhow::Error::chain`, each cause written with `to_string`. The
/// contract claims that the texts are the named messages of the error's
/// chain, a function of the error value alone; what they say comes from
/// the causes' own `Display` implementations and is not stated.
#[verifier::external_body]
fn error_chain_messages(error: &anyhow::Error) -> (r: Vec<String>)
    ensures
        crate::sorted::string_views(r@) == chain_messages_of(*error),
{
    error.chain().map(|cause| cause.to_string()).collect()
}

/// `anyhow::Error`'s `to_string` (its `Display`, the outermost message).
/// The contract claims that the text is the named display of the error.
#[verifier::external_body]
fn error_text(error: &anyhow::Error) -> (r: String)
    ensures
        r@ == display_of(*error),
{
    error.to_string()
}

/// A load failure is a rate limit when the error messages, joined by line
/// feeds and lower-cased in ASCII, mention one of the rate-limit phrases.
pub open spec fn load_failure_kind_spec(messages: Seq<Seq<char>>) -> EmbedderLoadFailureKind {
    let text = ascii_lower_seq(join_spec(messages, seq!['\n']));
    if exists|k: int| 0 <= k < RATE_LIMIT_MARKERS@.len() && seq_contains(text, #[trigger] RATE_LIMIT_MARKERS@[k]@) {
        EmbedderLoadFailureKind::RateLimited
    } else {
        EmbedderLoadFailureKind::Other
    }
}

/// Classifies a load failure from the messages of its error chain.
pub fn classify_messages(messages: &Vec<String>) -> (k: EmbedderLoadFailureKind)
    ensures
        k == load_failure_kind_spec(crate::sorted::string_views(messages@)),
{
    let parts = crate::sorted::char_vecs(messages);
    let sep = chars_of("\n");
    proof {
        reveal_strlit("\n");
    }
    assert(sep@ =~= seq!['\n']);
    let joined = crate::split::join_chars(&parts, sep.as_slice());
    let mut low: Vec<char> = Vec::new();
    let mut i: usize = 0;
    while i < joined.len()
        invariant
            i <= joined@.len(),
            low@ == ascii_lower_seq(joined@.take(i as int)),
        decreases joined@.len() - i,
    {
        let c = to_ascii_lower(joined[i]);
        low.push(c);
        assert(ascii_lower_seq(joined@.take(i + 1)) =~= ascii_lower_seq(joined@.take(i as int)).push(c));
        i = i + 1;
    }
    assert(joined@.take(joined@.len() as int) =~= joined@);
    if crate::integrity::any_pattern_found(low.as_slice(), &RATE_LIMIT_MARKERS) {
        EmbedderLoadFailureKind::RateLimited
    } else {
        EmbedderLoadFailureKind::Other
    }
}

/// Classifies an embedding model load error by the messages of its chain.
pub fn classify_embedder_load_error(error: &anyhow::Error) -> (k: EmbedderLoadFailureKind)
    ensures
        k == load_failure_kind_spec(chain_messages_of(*error)),
{
    let messages = error_chain_messages(error);
    classify_messages(&messages)
}

/// A failure to load the embedding model, with its kind and its error.
pub struct EmbedderLoadError {
    pub kind: EmbedderLoadFailureKind,
    pub source: anyhow::Error,
}

/// Explains a rate-limited download.
pub const RATE_LIMITED_PREFIX: &'static str = "Embedding model download was rate-limited by Hugging Face/FastEmbed: ";
/// Tells what to do about a rate-limited download.
pub const RATE_LIMITED_ADVICE: &'static str = ". This is model acquisition, not the review LLM provider. Restore or cache the FastEmbed model cache, run `snif warm-embeddings`, or retry after the Hugging Face resolver rate-limit window resets.";
/// Explains any other failure.
pub const OTHER_FAILURE_PREFIX: &'static str = "Failed to load embedding model: ";

/// The description of a load failure around its error's text.
pub open spec fn load_error_text(kind: EmbedderLoadFailureKind, source_text: Seq<char>) -> Seq<char> {
    match kind {
        EmbedderLoadFailureKind::RateLimited => RATE_LIMITED_PREFIX@ + source_text + RATE_LIMITED_ADVICE@,
        EmbedderLoadFailureKind::Other => OTHER_FAILURE_PREFIX@ + source_text,
    }
}

impl EmbedderLoadError {
    /// A load failure, classified by its error.
    pub fn new(source: anyhow::Error) -> (r: EmbedderLoadError)
        ensures
            r.kind == load_failure_kind_spec(chain_messages_of(source)),
            r.source == source,
    {
        let kind = classify_embedder_load_error(&source);
        EmbedderLoadError { kind, source }
    }

    /// The kind of failure.
    pub fn kind(&self) -> (k: EmbedderLoadFailureKind)
        ensures
            k == self.kind,
    {
        self.kind
    }

    /// Whether the model host rate-limited the download.
    pub fn is_rate_limited(&self) -> (b: bool)
        ensures
            b == (self.kind == EmbedderLoadFailureKind::RateLimited),
    {
        match self.kind {
            EmbedderLoadFailureKind::RateLimited => true,
            EmbedderLoadFailureKind::Other => false,
        }
    }

    /// Describes the failure for the user.
    pub fn describe(&self) -> (r: String)
        ensures
            r@ == load_error_text(self.kind, display_of(self.source)),
    {
        let text = error_text(&self.source);
        match self.kind {
            EmbedderLoadFailureKind::RateLimited => {
                let mut m = String::from_str(RATE_LIMITED_PREFIX);
                append_str(&mut m, text.as_str());
                append_str(&mut m, RATE_LIMITED_ADVICE);
                assert(m@ == load_error_text(self.kind, text@));
                m
            },
            EmbedderLoadFailureKind::Other => {
                let mut m = String::from_str(OTHER_FAILURE_PREFIX);
                append_str(&mut m, text.as_str());
                assert(m@ == load_error_text(self.kind, text@));
                m
            },
        }
    }
}

/// Whether some stored summary has no embedding yet, given the ids of the
/// summaries and of the embedded ones.
pub fn has_summaries_missing_embeddings(summary_ids: &Vec<i64>, embedded_ids: &Vec<i64>) -> (b: bool)
    ensures
        b == exists|i: int| 0 <= i < summary_ids@.len() && !embedded_ids@.contains(#[trigger] summary_ids@[i]),
{
    let mut i: usize = 0;
    while i < summary_ids.len()
        invariant
            i <= summary_ids@.len(),
            forall|q: int| 0 <= q < i ==> embedded_ids@.contains(#[trigger] summary_ids@[q]),
        decreases summary_ids@.len() - i,
    {
        let id = summary_ids[i];
        let mut found = false;
        let mut j: usize = 0;
        while j < embedded_ids.len()
            invariant
                j <= embedded_ids@.len(),
                i < summary_ids@.len(),
                id == summary_ids@[i as int],
                found ==> embedded_ids@.contains(id),
                !found ==> forall|q: int| 0 <= q < j ==> embedded_ids@[q] != id,
            decreases embedded_ids@.len() - j,
        {
            if embedded_ids[j] == id {
                found = true;
            }
            j = j + 1;
        }
        if !found {
            assert(!embedded_ids@.contains(summary_ids@[i as int]));
            return true;
        }
        i = i + 1;
    }
    false
}

} // verus!
