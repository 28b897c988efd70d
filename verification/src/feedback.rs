//! Team feedback on earlier findings: how a finding is described for
//! similarity search, and what the similar signals decide about it.
use vstd::prelude::*;
use crate::text::append_str;
use crate::types::{f64_lt_spec, f64_bits_lt, Finding};

verus! {

/// How a team reacted to a posted finding.
#[derive(Debug, Clone, Copy, PartialEq, Eq, Structural)]
pub enum SignalType {
    Accepted,
    Dismissed,
    Ignored,
}

/// The stored name of a signal type.
pub open spec fn signal_name(s: SignalType) -> Seq<char> {
    match s {
        SignalType::Accepted => "accepted"@,
        SignalType::Dismissed => "dismissed"@,
        SignalType::Ignored => "ignored"@,
    }
}

impl SignalType {
    /// The signal type's stored name.
    pub fn as_str(&self) -> (r: &'static str)
        ensures
            r@ == signal_name(*self),
    {
        match self {
            SignalType::Accepted => "accepted",
            SignalType::Dismissed => "dismissed",
            SignalType::Ignored => "ignored",
        }
    }
}

/// Separates a finding's file from its explanation.
pub const SIGNAL_FILE_SEPARATOR: &'static str = ": ";
/// Separates a finding's explanation from its impact.
pub const SIGNAL_IMPACT_SEPARATOR: &'static str = " \u{2014} ";

/// The text a finding is embedded as: file, explanation and impact.
pub open spec fn signal_text_spec(f: Finding) -> Seq<char> {
    f.location.file@ + SIGNAL_FILE_SEPARATOR@ + f.explanation@ + SIGNAL_IMPACT_SEPARATOR@ + f.impact@
}

/// Describes a finding for similarity search among signals.
pub fn finding_signal_text(finding: &Finding) -> (r: String)
    ensures
        r@ == signal_text_spec(*finding),
{
    let mut t = finding.location.file.clone();
    append_str(&mut t, SIGNAL_FILE_SEPARATOR);
    append_str(&mut t, finding.explanation.as_str());
    append_str(&mut t, SIGNAL_IMPACT_SEPARATOR);
    append_str(&mut t, finding.impact.as_str());
    t
}

/// Bits of 0.3, the largest distance at which a signal counts as similar.
pub const MAX_SIMILAR_DISTANCE_BITS: u64 = 0x3fd3333333333333;
/// Similar dismissals that suppress a finding.
pub const DISMISSED_SUPPRESSION_THRESHOLD: usize = 3;
/// Similar acceptances that raise a finding's confidence.
pub const ACCEPTED_BOOST_THRESHOLD: usize = 3;

/// What feedback does to a finding.
#[derive(Debug, Clone, Copy, PartialEq, Eq, Structural)]
pub enum FeedbackVerdict {
    /// Enough similar findings were dismissed: drop it.
    Suppress,
    /// Enough similar findings were accepted: raise its confidence.
    Boost,
    /// Keep it as it is.
    Keep,
}

/// A signal is close enough when its distance is not above the limit.
pub open spec fn is_close(distance_bits: u64) -> bool {
    !f64_lt_spec(MAX_SIMILAR_DISTANCE_BITS, distance_bits)
}

/// How many of the signals are close and named `name`.
pub open spec fn close_count(signals: Seq<(String, u64)>, name: Seq<char>) -> nat {
    signals.filter(|s: (String, u64)| is_close(s.1) && s.0@ == name).len()
}

/// The verdict from the similar signals (their type names and distances):
/// suppressed with enough close dismissals, boosted with enough close
/// acceptances, kept otherwise.
pub open spec fn verdict_spec(signals: Seq<(String, u64)>) -> FeedbackVerdict {
    if close_count(signals, "dismissed"@) >= DISMISSED_SUPPRESSION_THRESHOLD {
        FeedbackVerdict::Suppress
    } else if close_count(signals, "accepted"@) >= ACCEPTED_BOOST_THRESHOLD {
        FeedbackVerdict::Boost
    } else {
        FeedbackVerdict::Keep
    }
}

fn count_close(signals: &[(String, u64)], name: &str) -> (n: usize)
    ensures
        n == close_count(signals@, name@),
{
    let mut n: usize = 0;
    let mut i: usize = 0;
    while i < signals.len()
        invariant
            i <= signals@.len(),
            n == close_count(signals@.take(i as int), name@),
            n <= i,
        decreases signals@.len() - i,
    {
        proof {
            reveal(Seq::filter);
            assert(signals@.take(i + 1).drop_last() =~= signals@.take(i as int));
        }
        let close = !f64_bits_lt(MAX_SIMILAR_DISTANCE_BITS, signals[i].1);
        if close && crate::text::str_equal(signals[i].0.as_str(), name) {
            n = n + 1;
        }
        i = i + 1;
    }
    assert(signals@.take(signals@.len() as int) =~= signals@);
    n
}

/// Decides what feedback does to a finding from its similar signals.
pub fn feedback_verdict(signals: &[(String, u64)]) -> (v: FeedbackVerdict)
    ensures
        v == verdict_spec(signals@),
{
    let dismissed = count_close(signals, SignalType::Dismissed.as_str());
    if dismissed >= DISMISSED_SUPPRESSION_THRESHOLD {
        return FeedbackVerdict::Suppress;
    }
    let accepted = count_close(signals, SignalType::Accepted.as_str());
    if accepted >= ACCEPTED_BOOST_THRESHOLD {
        FeedbackVerdict::Boost
    } else {
        FeedbackVerdict::Keep
    }
}

} // verus!
