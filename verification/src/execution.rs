//! The review model's request policy: which provider replies are retried,
//! how long to wait, how failures are classified and described, and which
//! text of a reply is the review.
use vstd::prelude::*;
use crate::decimal::{decimal, u64_to_string};
use crate::text::{append_chars, append_str, chars_of, is_blank, string_of, trim_chars, trim_spec};

verus! {

/// Attempts after the first one.
pub const LLM_MAX_RETRIES: u32 = 5;
/// The base of the exponential backoff, in seconds.
pub const LLM_RETRY_BASE_DELAY_SECS: u64 = 2;
/// Too Many Requests.
pub const STATUS_TOO_MANY_REQUESTS: u16 = 429;
/// Request Timeout.
pub const STATUS_REQUEST_TIMEOUT: u16 = 408;
/// The most characters of a provider body that logs and messages show.
pub const MAX_LOG_CHARS: usize = 500;

/// Why the model request failed after its retries.
#[derive(Debug, Clone, Copy, PartialEq, Eq, Structural)]
pub enum LlmRetryFailureKind {
    /// The provider kept answering 429.
    RateLimited,
    /// The provider was overloaded or timed out; callers that learn this
    /// from elsewhere record it with this kind.
    ProviderPressure,
    /// The provider kept answering with another server error.
    RetryableServerError,
    /// The request could not be sent.
    RequestFailed,
}

/// A model request that failed after exhausting its retries.
#[derive(Debug)]
pub struct LlmRetryFailure {
    pub kind: LlmRetryFailureKind,
    pub max_retries: u32,
    pub status: Option<u16>,
    pub retry_after: Option<String>,
    pub body: Option<String>,
    pub message: String,
}

/// A reply status that is worth retrying: a server error, 429 or 408.
pub open spec fn retryable_status_spec(status: u16) -> bool {
    (500 <= status && status <= 599) || status == STATUS_TOO_MANY_REQUESTS || status
        == STATUS_REQUEST_TIMEOUT
}

/// Whether a reply status is retried.
pub fn is_retryable_status(status: u16) -> (b: bool)
    ensures
        b == retryable_status_spec(status),
{
    (500 <= status && status <= 599) || status == STATUS_TOO_MANY_REQUESTS || status
        == STATUS_REQUEST_TIMEOUT
}

/// 2 to the power `n`.
pub open spec fn pow2(n: nat) -> nat
    decreases n,
{
    if n == 0 {
        1
    } else {
        2 * pow2((n - 1) as nat)
    }
}

proof fn lemma_pow2_small(k: nat)
    requires
        k <= 5,
    ensures
        pow2(k) <= 32,
        k <= 4 ==> pow2(k) <= 16,
        k <= 3 ==> pow2(k) <= 8,
        k <= 2 ==> pow2(k) <= 4,
        k <= 1 ==> pow2(k) <= 2,
    decreases k,
{
    if k > 0 {
        lemma_pow2_small((k - 1) as nat);
    }
}

/// The wait before retry `attempt` (counted from one): `2^attempt` seconds.
pub fn retry_delay_secs(attempt: u32) -> (d: u64)
    requires
        attempt <= LLM_MAX_RETRIES,
    ensures
        d == pow2(attempt as nat),
{
    let mut d: u64 = 1;
    let mut k: u32 = 0;
    while k < attempt
        invariant
            k <= attempt <= LLM_MAX_RETRIES,
            d == pow2(k as nat),
        decreases attempt - k,
    {
        proof {
            lemma_pow2_small(k as nat);
        }
        d = d * LLM_RETRY_BASE_DELAY_SECS;
        k = k + 1;
    }
    d
}

/// The kind a retryable reply status means: a rate limit for 429, a
/// retryable server error for every other status.
pub open spec fn status_kind(status: u16) -> LlmRetryFailureKind {
    if status == STATUS_TOO_MANY_REQUESTS {
        LlmRetryFailureKind::RateLimited
    } else {
        LlmRetryFailureKind::RetryableServerError
    }
}

/// A text as logs show it: trimmed, and cut to its first 500 characters
/// followed by `...` when longer.
pub open spec fn log_text(text: Seq<char>) -> Seq<char> {
    let t = trim_spec(text);
    if t.len() <= MAX_LOG_CHARS {
        t
    } else {
        t.take(MAX_LOG_CHARS as int) + "..."@
    }
}

/// Shortens a provider body for logs and messages.
pub fn truncate_for_log(text: &str) -> (r: String)
    ensures
        r@ == log_text(text@),
{
    let cs = chars_of(text);
    let t = trim_chars(cs.as_slice());
    if t.len() <= MAX_LOG_CHARS {
        string_of(t.as_slice())
    } else {
        let mut r = crate::text::string_of_range(t.as_slice(), 0, MAX_LOG_CHARS);
        append_str(&mut r, "...");
        assert(t@.subrange(0, MAX_LOG_CHARS as int) =~= t@.take(MAX_LOG_CHARS as int));
        r
    }
}

impl LlmRetryFailure {
    /// The failure of a request that could not be sent.
    pub fn request_failed(max_retries: u32, message: String) -> (r: LlmRetryFailure)
        ensures
            r.kind == LlmRetryFailureKind::RequestFailed,
            r.max_retries == max_retries,
            r.status is None,
            r.retry_after is None,
            r.body is None,
            r.message == message,
    {
        LlmRetryFailure {
            kind: LlmRetryFailureKind::RequestFailed,
            max_retries,
            status: None,
            retry_after: None,
            body: None,
            message,
        }
    }

    /// The failure of a request whose last reply had a retryable status.
    pub fn retryable_response(
        max_retries: u32,
        status: u16,
        retry_after: Option<String>,
        body: String,
    ) -> (r: LlmRetryFailure)
        ensures
            r.kind == status_kind(status),
            r.max_retries == max_retries,
            r.status == Some(status),
            r.retry_after == retry_after,
            r.body == Some(body),
            r.message@ == (if trim_spec(body@).len() == 0 {
                "Server error "@ + decimal(status as nat)
            } else {
                "Server error "@ + decimal(status as nat) + ": "@ + log_text(body@)
            }),
    {
        let kind = if status == STATUS_TOO_MANY_REQUESTS {
            LlmRetryFailureKind::RateLimited
        } else {
            LlmRetryFailureKind::RetryableServerError
        };
        let mut message = String::new();
        append_str(&mut message, "Server error ");
        let code = u64_to_string(status as u64);
        append_str(&mut message, code.as_str());
        let bc = chars_of(body.as_str());
        if !is_blank(bc.as_slice()) {
            append_str(&mut message, ": ");
            let t = truncate_for_log(body.as_str());
            append_str(&mut message, t.as_str());
        }
        LlmRetryFailure { kind, max_retries, status: Some(status), retry_after, body: Some(body), message }
    }

    /// The provider rate-limited the request.
    pub fn is_rate_limited(&self) -> (b: bool)
        ensures
            b == (self.kind == LlmRetryFailureKind::RateLimited),
    {
        self.kind == LlmRetryFailureKind::RateLimited
    }

    /// The provider was overloaded or timed out.
    pub fn is_provider_pressure(&self) -> (b: bool)
        ensures
            b == (self.kind == LlmRetryFailureKind::ProviderPressure),
    {
        self.kind == LlmRetryFailureKind::ProviderPressure
    }

    /// A smaller request may succeed: rate limiting or provider pressure.
    pub fn is_reducible(&self) -> (b: bool)
        ensures
            b == (self.kind == LlmRetryFailureKind::RateLimited || self.kind
                == LlmRetryFailureKind::ProviderPressure),
    {
        self.kind == LlmRetryFailureKind::RateLimited || self.kind
            == LlmRetryFailureKind::ProviderPressure
    }
}

/// The message of a retry failure, as its `Display` writes it.
pub open spec fn failure_text(f: LlmRetryFailure) -> Seq<char> {
    (if f.kind == LlmRetryFailureKind::RateLimited {
        "LLM request was rate-limited after "@
    } else {
        "LLM request failed after "@
    }) + decimal(f.max_retries as nat) + " retries"@ + (match f.status {
        Some(s) => ": status "@ + decimal(s as nat),
        None => if f.message@.len() > 0 {
            ": "@ + f.message@
        } else {
            Seq::empty()
        },
    }) + (match f.retry_after {
        Some(r) => ", retry_after="@ + r@,
        None => Seq::empty(),
    }) + (match f.body {
        Some(b) => if trim_spec(b@).len() != 0 {
            ", provider_body="@ + log_text(b@)
        } else {
            Seq::empty()
        },
        None => Seq::empty(),
    }) + (if f.kind == LlmRetryFailureKind::RateLimited {
        ". Reduce context.max_tokens, lower context.summarizer_concurrency, or retry after provider quota resets."@
    } else {
        Seq::empty()
    })
}

impl LlmRetryFailure {
    /// The failure's message.
    pub fn describe(&self) -> (r: String)
        ensures
            r@ == failure_text(*self),
    {
        let mut r = String::new();
        if self.is_rate_limited() {
            append_str(&mut r, "LLM request was rate-limited after ");
        } else {
            append_str(&mut r, "LLM request failed after ");
        }
        let n = u64_to_string(self.max_retries as u64);
        append_str(&mut r, n.as_str());
        append_str(&mut r, " retries");
        match self.status {
            Some(s) => {
                append_str(&mut r, ": status ");
                let c = u64_to_string(s as u64);
                append_str(&mut r, c.as_str());
            },
            None => {
                if !self.message.as_str().is_empty() {
                    append_str(&mut r, ": ");
                    append_str(&mut r, self.message.as_str());
                }
            },
        }
        match &self.retry_after {
            Some(ra) => {
                append_str(&mut r, ", retry_after=");
                append_str(&mut r, ra.as_str());
            },
            None => {},
        }
        match &self.body {
            Some(b) => {
                let bc = chars_of(b.as_str());
                if !is_blank(bc.as_slice()) {
                    append_str(&mut r, ", provider_body=");
                    let t = truncate_for_log(b.as_str());
                    append_str(&mut r, t.as_str());
                }
            },
            None => {},
        }
        if self.is_rate_limited() {
            append_str(
                &mut r,
                ". Reduce context.max_tokens, lower context.summarizer_concurrency, or retry after provider quota resets.",
            );
        }
        assert(r@ =~= failure_text(*self));
        r
    }
}

/// Whether an error is a retry failure caused by rate limiting.
pub fn is_rate_limit_error(error: Option<&LlmRetryFailure>) -> (b: bool)
    ensures
        b == (match error {
            Some(f) => f.kind == LlmRetryFailureKind::RateLimited,
            None => false,
        }),
{
    match error {
        Some(f) => f.is_rate_limited(),
        None => false,
    }
}

/// Whether an error is a retry failure caused by provider pressure.
pub fn is_provider_pressure_error(error: Option<&LlmRetryFailure>) -> (b: bool)
    ensures
        b == (match error {
            Some(f) => f.kind == LlmRetryFailureKind::ProviderPressure,
            None => false,
        }),
{
    match error {
        Some(f) => f.is_provider_pressure(),
        None => false,
    }
}

/// Whether a smaller request might get past an error.
pub fn is_reducible_provider_error(error: Option<&LlmRetryFailure>) -> (b: bool)
    ensures
        b == (match error {
            Some(f) => f.kind == LlmRetryFailureKind::RateLimited || f.kind
                == LlmRetryFailureKind::ProviderPressure,
            None => false,
        }),
{
    match error {
        Some(f) => f.is_reducible(),
        None => false,
    }
}

/// The review text of a reply: its content when not blank, else its
/// reasoning content when not blank, trimmed; nothing when both are blank.
pub open spec fn reply_text_spec(content: Option<Seq<char>>, reasoning: Option<Seq<char>>) -> Option<Seq<char>> {
    match content {
        Some(c) if trim_spec(c).len() != 0 => Some(trim_spec(c)),
        _ => match reasoning {
            Some(r) if trim_spec(r).len() != 0 => Some(trim_spec(r)),
            _ => None,
        },
    }
}

/// Picks the review text of a model reply.
pub fn reply_text(content: Option<&str>, reasoning: Option<&str>) -> (r: Option<String>)
    ensures
        match r {
            Some(t) => reply_text_spec(
                match content { Some(c) => Some(c@), None => None },
                match reasoning { Some(x) => Some(x@), None => None },
            ) == Some(t@),
            None => reply_text_spec(
                match content { Some(c) => Some(c@), None => None },
                match reasoning { Some(x) => Some(x@), None => None },
            ) is None,
        },
{
    match content {
        Some(c) => {
            let cc = chars_of(c);
            let t = trim_chars(cc.as_slice());
            if t.len() != 0 {
                return Some(string_of(t.as_slice()));
            }
        },
        None => {},
    }
    match reasoning {
        Some(x) => {
            let xc = chars_of(x);
            let t = trim_chars(xc.as_slice());
            if t.len() != 0 {
                return Some(string_of(t.as_slice()));
            }
        },
        None => {},
    }
    None
}

/// The system prompt of the repair pass.
pub const REPAIR_SYSTEM_PROMPT: &'static str =
    "You repair code review responses. Convert the input into exactly one valid JSON object of the form {\"summary\": string, \"findings\": array}. Keep only findings that cite concrete evidence. Drop reasoning narration. Output only the JSON object.";

/// Introduces the raw response in the repair request.
pub const REPAIR_USER_PROMPT_INTRO: &'static str =
    "Convert this code review response into the required JSON object:\n\n";

/// The user prompt of the repair pass: the introduction, then the raw
/// response.
pub fn repair_user_prompt(raw_response: &str) -> (r: String)
    ensures
        r@ == REPAIR_USER_PROMPT_INTRO@ + raw_response@,
{
    let mut r = String::new();
    append_str(&mut r, REPAIR_USER_PROMPT_INTRO);
    append_str(&mut r, raw_response);
    r
}

/// The endpoint without trailing slashes.
pub open spec fn trim_end_slashes(s: Seq<char>) -> Seq<char>
    decreases s.len(),
{
    if s.len() > 0 && s.last() == '/' {
        trim_end_slashes(s.drop_last())
    } else {
        s
    }
}

/// Removes trailing slashes from an endpoint.
pub fn normalize_endpoint(endpoint: &str) -> (r: String)
    ensures
        r@ == trim_end_slashes(endpoint@),
{
    let cs = chars_of(endpoint);
    let mut n = cs.len();
    assert(cs@.take(cs@.len() as int) =~= cs@);
    while n > 0 && cs[n - 1] == '/'
        invariant
            n <= cs@.len(),
            trim_end_slashes(cs@) == trim_end_slashes(cs@.take(n as int)),
        decreases n,
    {
        assert(cs@.take(n as int).drop_last() =~= cs@.take(n - 1));
        n = n - 1;
    }
    assert(cs@.take(cs@.len() as int) =~= cs@);
    crate::text::string_of_range(cs.as_slice(), 0, n)
}

/// What came of one attempt of a chat request.
pub enum ChatOutcome {
    /// The request could not be sent.
    SendFailed { message: String },
    /// The provider answered with a status that is not a success, with its
    /// `Retry-After` header and its body.
    Status { status: u16, retry_after: Option<String>, body: String },
    /// The provider answered with success; its first choice held these texts.
    Reply { content: Option<String>, reasoning: Option<String> },
}

/// What to do after an attempt of a chat request.
pub enum ChatAction {
    /// Wait `delay_secs` seconds, then send the request again; `failure` is
    /// what went wrong this time.
    Retry { failure: LlmRetryFailure, delay_secs: u64 },
    /// The request is answered with this text.
    Answered { text: String },
    /// The reply held no text in either field.
    EmptyReply,
    /// The provider refused the request with a status that is not retried.
    Refused { status: u16, body: String },
    /// The request failed for good.
    GaveUp { failure: LlmRetryFailure },
}

/// `f` records a request that could not be sent.
pub open spec fn is_send_failure(f: LlmRetryFailure, message: Seq<char>) -> bool {
    &&& f.kind == LlmRetryFailureKind::RequestFailed
    &&& f.max_retries == LLM_MAX_RETRIES
    &&& f.status is None
    &&& f.retry_after is None
    &&& f.body is None
    &&& f.message@ == message
}

/// `f` records a reply with the retryable status `status`.
pub open spec fn is_status_failure(
    f: LlmRetryFailure,
    status: u16,
    retry_after: Option<String>,
    body: String,
) -> bool {
    &&& f.kind == status_kind(status)
    &&& f.max_retries == LLM_MAX_RETRIES
    &&& f.status == Some(status)
    &&& f.retry_after == retry_after
    &&& f.body == Some(body)
    &&& f.message@ == (if trim_spec(body@).len() == 0 {
        "Server error "@ + decimal(status as nat)
    } else {
        "Server error "@ + decimal(status as nat) + ": "@ + log_text(body@)
    })
}

/// A failed attempt `attempt` is retried after `2^(attempt + 1)` seconds
/// while retries are left; the last one gives up.
pub open spec fn retries_or_gives_up(
    attempt: u32,
    a: ChatAction,
    recorded: spec_fn(LlmRetryFailure) -> bool,
) -> bool {
    match a {
        ChatAction::Retry { failure, delay_secs } => attempt < LLM_MAX_RETRIES && delay_secs == pow2(
            (attempt + 1) as nat,
        ) && recorded(failure),
        ChatAction::GaveUp { failure } => attempt == LLM_MAX_RETRIES && recorded(failure),
        _ => false,
    }
}

/// Decides what follows attempt `attempt` (counted from zero) of a chat
/// request, given what came of it. With `surface_reducible`, a rate limit
/// ends the request at once, so that the caller can retry with a smaller
/// one.
pub fn chat_step(attempt: u32, outcome: ChatOutcome, surface_reducible: bool) -> (a: ChatAction)
    requires
        attempt <= LLM_MAX_RETRIES,
    ensures
        match outcome {
            ChatOutcome::SendFailed { message } => retries_or_gives_up(
                attempt,
                a,
                |f: LlmRetryFailure| is_send_failure(f, message@),
            ),
            ChatOutcome::Status { status, retry_after, body } => if !retryable_status_spec(status) {
                a == ChatAction::Refused { status, body }
            } else if surface_reducible && status == STATUS_TOO_MANY_REQUESTS {
                a matches ChatAction::GaveUp { failure } && is_status_failure(
                    failure,
                    status,
                    retry_after,
                    body,
                )
            } else {
                retries_or_gives_up(
                    attempt,
                    a,
                    |f: LlmRetryFailure| is_status_failure(f, status, retry_after, body),
                )
            },
            ChatOutcome::Reply { content, reasoning } => {
                let expected = reply_text_spec(
                    match content {
                        Some(c) => Some(c@),
                        None => None,
                    },
                    match reasoning {
                        Some(x) => Some(x@),
                        None => None,
                    },
                );
                match a {
                    ChatAction::Answered { text } => expected == Some(text@),
                    ChatAction::EmptyReply => expected is None,
                    _ => false,
                }
            },
        },
{
    let failure = match outcome {
        ChatOutcome::SendFailed { message } => LlmRetryFailure::request_failed(LLM_MAX_RETRIES, message),
        ChatOutcome::Status { status, retry_after, body } => {
            if !is_retryable_status(status) {
                return ChatAction::Refused { status, body };
            }
            let f = LlmRetryFailure::retryable_response(LLM_MAX_RETRIES, status, retry_after, body);
            if surface_reducible && f.is_reducible() {
                return ChatAction::GaveUp { failure: f };
            }
            f
        },
        ChatOutcome::Reply { content, reasoning } => {
            let c = match &content {
                Some(c) => Some(c.as_str()),
                None => None,
            };
            let r = match &reasoning {
                Some(x) => Some(x.as_str()),
                None => None,
            };
            return match reply_text(c, r) {
                Some(text) => ChatAction::Answered { text },
                None => ChatAction::EmptyReply,
            };
        },
    };
    if attempt < LLM_MAX_RETRIES {
        let delay_secs = retry_delay_secs(attempt + 1);
        ChatAction::Retry { failure, delay_secs }
    } else {
        ChatAction::GaveUp { failure }
    }
}

} // verus!
