//! Naming an evaluation experiment: the short commit and the run's time,
//! parsed and formatted with `chrono`.
use vstd::prelude::*;
use crate::text::{append_str, chars_of};
use crate::verify::{byte_len, prefix_byte_len};

verus! {

/// Starts every experiment name.
pub const EXPERIMENT_PREFIX: &'static str = "snif-eval-";
/// Separates the commit from the time.
pub const EXPERIMENT_SEPARATOR: &'static str = "-";
/// The compact time format of experiment names.
pub const COMPACT_TIME_FORMAT: &'static str = "%Y%m%d-%H%M%S";
/// A timestamp with a `T`, fractional seconds and a numeric offset.
pub const TIMESTAMP_FORMAT_T: &'static str = "%Y-%m-%dT%H:%M:%S%.f%z";
/// A timestamp with a space, fractional seconds and a numeric offset.
pub const TIMESTAMP_FORMAT_SPACE: &'static str = "%Y-%m-%d %H:%M:%S%.f%z";
/// Bytes of a commit hash kept in a name.
pub const SHA_SHORT_BYTES: usize = 7;

/// A timestamp read as RFC 3339 and written back in `out_layout`, or none
/// when it does not read.
pub uninterp spec fn rfc3339_reformat_spec(timestamp: Seq<char>, out_layout: Seq<char>) -> Option<Seq<char>>;

/// A timestamp read with `layout` and written back in `out_layout`, or none
/// when it does not read.
pub uninterp spec fn layout_reformat_spec(timestamp: Seq<char>, layout: Seq<char>, out_layout: Seq<char>) -> Option<
    Seq<char>,
>;

/// An output layout that `chrono`'s `format` writes without error (a
/// layout it cannot write makes `to_string` panic): the compact layout.
pub open spec fn writable_layout(out_layout: Seq<char>) -> bool {
    out_layout == COMPACT_TIME_FORMAT@
}

/// `chrono::DateTime::parse_from_rfc3339`, the time written back with
/// `format(out_layout)`. The contract claims that the result is the named
/// function of the timestamp and the output layout (it depends on nothing
/// else).
#[verifier::external_body]
fn rfc3339_reformat(timestamp: &str, out_layout: &str) -> (r: Option<String>)
    requires
        writable_layout(out_layout@),
    ensures
        match r {
            Some(s) => rfc3339_reformat_spec(timestamp@, out_layout@) == Some(s@),
            None => rfc3339_reformat_spec(timestamp@, out_layout@) is None,
        },
{
    match chrono::DateTime::parse_from_rfc3339(timestamp) {
        Ok(t) => Some(t.format(out_layout).to_string()),
        Err(_) => None,
    }
}

/// `chrono::DateTime::parse_from_str` with `layout`, the time written back
/// with `format(out_layout)`. The contract claims that the result is the
/// named function of the timestamp and the two layouts.
#[verifier::external_body]
fn layout_reformat(timestamp: &str, layout: &str, out_layout: &str) -> (r: Option<String>)
    requires
        writable_layout(out_layout@),
    ensures
        match r {
            Some(s) => layout_reformat_spec(timestamp@, layout@, out_layout@) == Some(s@),
            None => layout_reformat_spec(timestamp@, layout@, out_layout@) is None,
        },
{
    match chrono::DateTime::parse_from_str(timestamp, layout) {
        Ok(t) => Some(t.format(out_layout).to_string()),
        Err(_) => None,
    }
}

/// `chrono::Utc::now`, written with `format(layout)`; the current time, of
/// which nothing is claimed.
#[verifier::external_body]
fn now_formatted(layout: &str) -> String
    requires
        writable_layout(layout@),
{
    chrono::Utc::now().format(layout).to_string()
}

/// The compact time a timestamp reads as: RFC 3339 first, then the two
/// other layouts in turn; none when no layout reads it.
pub open spec fn timestamp_compact(timestamp: Seq<char>) -> Option<Seq<char>> {
    match rfc3339_reformat_spec(timestamp, COMPACT_TIME_FORMAT@) {
        Some(t) => Some(t),
        None => match layout_reformat_spec(timestamp, TIMESTAMP_FORMAT_T@, COMPACT_TIME_FORMAT@) {
            Some(t) => Some(t),
            None => layout_reformat_spec(timestamp, TIMESTAMP_FORMAT_SPACE@, COMPACT_TIME_FORMAT@),
        },
    }
}

/// The compact time of a timestamp, when one of the layouts reads it.
pub fn compact_time(timestamp: &str) -> (r: Option<String>)
    ensures
        match r {
            Some(s) => timestamp_compact(timestamp@) == Some(s@),
            None => timestamp_compact(timestamp@) is None,
        },
{
    match rfc3339_reformat(timestamp, COMPACT_TIME_FORMAT) {
        Some(t) => Some(t),
        None => match layout_reformat(timestamp, TIMESTAMP_FORMAT_T, COMPACT_TIME_FORMAT) {
            Some(t) => Some(t),
            None => layout_reformat(timestamp, TIMESTAMP_FORMAT_SPACE, COMPACT_TIME_FORMAT),
        },
    }
}

/// The short commit: its first seven bytes when they end on a character
/// boundary, otherwise the whole text (`str::get(..7)`, else the text).
pub open spec fn sha_short_spec(git_sha: Seq<char>) -> Seq<char> {
    if exists|k: int| 0 <= k <= git_sha.len() && byte_len(git_sha.take(k)) == SHA_SHORT_BYTES {
        git_sha.take(choose|k: int| 0 <= k <= git_sha.len() && byte_len(git_sha.take(k)) == SHA_SHORT_BYTES)
    } else {
        git_sha
    }
}

proof fn lemma_prefix_len_strict(s: Seq<char>, i: int, j: int)
    requires
        0 <= i < j <= s.len(),
    ensures
        byte_len(s.take(i)) < byte_len(s.take(j)),
    decreases j - i,
{
    assert(s.take(j).drop_last() =~= s.take(j - 1));
    if i < j - 1 {
        lemma_prefix_len_strict(s, i, j - 1);
    }
}

/// The short form of a commit hash.
pub fn sha_short(git_sha: &str) -> (r: String)
    ensures
        r@ == sha_short_spec(git_sha@),
{
    let cs = chars_of(git_sha);
    let mut k: usize = 0;
    while k < cs.len() && prefix_byte_len(cs.as_slice(), k) < SHA_SHORT_BYTES as u128
        invariant
            k <= cs@.len(),
            cs@ == git_sha@,
            forall|j: int| 0 <= j < k ==> byte_len(#[trigger] cs@.take(j)) < SHA_SHORT_BYTES,
        decreases cs@.len() - k,
    {
        k = k + 1;
    }
    let n = prefix_byte_len(cs.as_slice(), k);
    proof {
        if exists|j: int| 0 <= j <= cs@.len() && byte_len(cs@.take(j)) == SHA_SHORT_BYTES {
            let c = choose|j: int| 0 <= j <= cs@.len() && byte_len(cs@.take(j)) == SHA_SHORT_BYTES;
            if n == SHA_SHORT_BYTES as u128 {
                if c < k {
                    lemma_prefix_len_strict(cs@, c, k as int);
                } else if c > k {
                    lemma_prefix_len_strict(cs@, k as int, c);
                }
            } else {
                if c > k {
                    if k < cs@.len() {
                        lemma_prefix_len_strict(cs@, k as int, c);
                    }
                }
                assert(c != k);
                if c < k {
                    assert(byte_len(cs@.take(c)) < SHA_SHORT_BYTES);
                }
            }
        }
    }
    if n == SHA_SHORT_BYTES as u128 {
        crate::text::string_of_range(cs.as_slice(), 0, k)
    } else {
        String::from_str(git_sha)
    }
}

/// An experiment's name from its commit and its formatted time.
pub open spec fn experiment_name_spec(git_sha: Seq<char>, time: Seq<char>) -> Seq<char> {
    EXPERIMENT_PREFIX@ + sha_short_spec(git_sha) + EXPERIMENT_SEPARATOR@ + time
}

/// Names an experiment from its commit and the compact form of its time.
pub fn experiment_name(git_sha: &str, formatted_time: &str) -> (r: String)
    ensures
        r@ == experiment_name_spec(git_sha@, formatted_time@),
{
    let mut name = String::from_str(EXPERIMENT_PREFIX);
    let s = sha_short(git_sha);
    append_str(&mut name, s.as_str());
    append_str(&mut name, EXPERIMENT_SEPARATOR);
    append_str(&mut name, formatted_time);
    name
}

/// Names an experiment `snif-eval-{short commit}-{YYYYMMDD-HHMMSS}`: the
/// time is the timestamp's own when one of the layouts reads it, and the
/// current UTC time otherwise.
pub fn generate_experiment_name(git_sha: &str, timestamp: &str) -> (r: String)
    ensures
        match timestamp_compact(timestamp@) {
            Some(t) => r@ == experiment_name_spec(git_sha@, t),
            None => exists|time: Seq<char>| r@ == experiment_name_spec(git_sha@, time),
        },
{
    let formatted = match compact_time(timestamp) {
        Some(t) => t,
        None => now_formatted(COMPACT_TIME_FORMAT),
    };
    experiment_name(git_sha, formatted.as_str())
}

/// Retries of a monitoring request after its first attempt.
pub const MONITOR_MAX_RETRIES: u32 = 5;
/// The wait before the first retry of a monitoring request, in seconds;
/// each later wait doubles.
pub const MONITOR_RETRY_BASE_DELAY_SECS: u64 = 1;

/// What follows an attempt of a monitoring request.
#[derive(Debug, Clone, Copy, PartialEq, Eq, Structural)]
pub enum MonitorAction {
    /// The request succeeded; its result is the answer.
    Done,
    /// Wait this many seconds, then try again.
    Retry { delay_secs: u64 },
    /// The request failed for good; its last error is the answer.
    GiveUp,
}

/// Decides what follows attempt `attempt` (from zero) of a monitoring
/// request: a success ends it; a failure is retried after
/// `2^attempt` seconds while retries are left, and ends it after the last.
pub fn monitor_step(attempt: u32, succeeded: bool) -> (a: MonitorAction)
    requires
        attempt <= MONITOR_MAX_RETRIES,
    ensures
        succeeded ==> a == MonitorAction::Done,
        !succeeded && attempt < MONITOR_MAX_RETRIES ==> a == (MonitorAction::Retry {
            delay_secs: (MONITOR_RETRY_BASE_DELAY_SECS * crate::execution::pow2(attempt as nat)) as u64,
        }),
        !succeeded && attempt == MONITOR_MAX_RETRIES ==> a == MonitorAction::GiveUp,
{
    if succeeded {
        MonitorAction::Done
    } else if attempt < MONITOR_MAX_RETRIES {
        let d = crate::execution::retry_delay_secs(attempt);
        MonitorAction::Retry { delay_secs: MONITOR_RETRY_BASE_DELAY_SECS * d }
    } else {
        MonitorAction::GiveUp
    }
}

} // verus!
