//! Finding fingerprints: a content identity that survives edits elsewhere
//! in the file, and a line identity compatible with earlier runs.
use vstd::prelude::*;
use crate::decimal::{decimal, digit_char, usize_to_string};
use crate::hashing::{sha256_hex, sha256_hex_spec};
use crate::split::{join_chars, join_spec, views, words, words_spec};
use crate::text::{append_str, chars_of, string_of, to_lowercase, unicode_lowercase};
use crate::types::{category_name, Finding, Fingerprint, copy_opt_string};

verus! {

/// Hex characters kept of a digest.
pub const FINGERPRINT_HASH_LENGTH: usize = 16;
/// Separates a repeated content identity from its repetition count.
pub const FINGERPRINT_DISAMBIGUATION_SEPARATOR: &'static str = "-";

/// Evidence normalised for hashing: words separated by single spaces,
/// lower-cased.
pub open spec fn normalize_spec(evidence: Seq<char>) -> Seq<char> {
    unicode_lowercase(join_spec(words_spec(evidence), seq![' ']))
}

/// Normalises evidence text for stable hashing: collapse whitespace,
/// trim, lower-case.
pub fn normalize_evidence(evidence: &str) -> (r: String)
    ensures
        r@ == normalize_spec(evidence@),
{
    let cs = chars_of(evidence);
    let ws = words(cs.as_slice());
    let sep = chars_of(" ");
    proof {
        reveal_strlit(" ");
    }
    assert(sep@ =~= seq![' ']);
    let joined = join_chars(&ws, sep.as_slice());
    let js = string_of(joined.as_slice());
    to_lowercase(js.as_str())
}

/// The content identity: the first 16 hex characters of the digest of the
/// file, the category and the normalised evidence.
pub open spec fn content_hash_spec(file: Seq<char>, category: Seq<char>, evidence: Seq<char>) -> Seq<char> {
    sha256_hex_spec(file + category + normalize_spec(evidence)).take(FINGERPRINT_HASH_LENGTH as int)
}

/// The line identity: the first 16 hex characters of the digest of the
/// file, the first line, the last line when given, and the category.
pub open spec fn line_hash_spec(file: Seq<char>, start_line: usize, end_line: Option<usize>, category: Seq<char>) -> Seq<char> {
    sha256_hex_spec(file + decimal(start_line as nat) + (match end_line {
        Some(e) => decimal(e as nat),
        None => Seq::empty(),
    }) + category).take(FINGERPRINT_HASH_LENGTH as int)
}

/// A finding's content identity.
pub open spec fn finding_content_hash(f: Finding) -> Seq<char> {
    content_hash_spec(f.location.file@, category_name(f.category), f.evidence@)
}

/// A finding's line identity.
pub open spec fn finding_line_hash(f: Finding) -> Seq<char> {
    line_hash_spec(f.location.file@, f.location.start_line, f.location.end_line, category_name(f.category))
}

fn first_hex(h: String) -> (r: String)
    requires
        h@.len() == 64,
    ensures
        r@ == h@.take(FINGERPRINT_HASH_LENGTH as int),
{
    let cs = chars_of(h.as_str());
    crate::text::string_of_range(cs.as_slice(), 0, FINGERPRINT_HASH_LENGTH)
}

/// Computes a finding's content identity.
pub fn compute_content_hash(finding: &Finding) -> (r: String)
    ensures
        r@ == finding_content_hash(*finding),
        r@.len() == FINGERPRINT_HASH_LENGTH,
{
    let mut text = finding.location.file.clone();
    append_str(&mut text, finding.category.as_str());
    let n = normalize_evidence(finding.evidence.as_str());
    append_str(&mut text, n.as_str());
    first_hex(sha256_hex(text.as_str()))
}

/// Computes a finding's line identity.
pub fn compute_line_hash(finding: &Finding) -> (r: String)
    ensures
        r@ == finding_line_hash(*finding),
        r@.len() == FINGERPRINT_HASH_LENGTH,
{
    let mut text = finding.location.file.clone();
    let s = usize_to_string(finding.location.start_line);
    append_str(&mut text, s.as_str());
    match finding.location.end_line {
        Some(e) => {
            let es = usize_to_string(e);
            append_str(&mut text, es.as_str());
        },
        None => {},
    }
    append_str(&mut text, finding.category.as_str());
    proof {
        assert(text@ =~= finding.location.file@ + decimal(finding.location.start_line as nat) + (match finding.location.end_line {
            Some(e) => decimal(e as nat),
            None => Seq::empty(),
        }) + category_name(finding.category));
    }
    first_hex(sha256_hex(text.as_str()))
}

/// How many findings before position `k` share its content identity.
pub open spec fn earlier_same(hs: Seq<Seq<char>>, k: int) -> nat {
    count_eq(hs.take(k), hs[k])
}

/// How many entries of a list equal `x`.
pub open spec fn count_eq(s: Seq<Seq<char>>, x: Seq<char>) -> nat {
    s.filter(|h: Seq<char>| h == x).len()
}

proof fn lemma_count_step(hs: Seq<Seq<char>>, n: int, x: Seq<char>)
    requires
        0 <= n < hs.len(),
    ensures
        count_eq(hs.take(n + 1), x) == count_eq(hs.take(n), x) + (if hs[n] == x { 1nat } else { 0nat }),
{
    reveal(Seq::filter);
    assert(hs.take(n + 1).drop_last() =~= hs.take(n));
}

/// A content identity made unique: the first occurrence keeps the hash,
/// later ones add the separator and their count of earlier occurrences.
pub open spec fn disambiguated(h: Seq<char>, count: nat) -> Seq<char> {
    if count == 0 {
        h
    } else {
        h + FINGERPRINT_DISAMBIGUATION_SEPARATOR@ + decimal(count)
    }
}

/// The fingerprint identities of the findings, in order: content identity
/// (made unique by repetition counts) and line identity.
pub open spec fn fingerprints_spec(fs: Seq<Finding>) -> Seq<(Seq<char>, Seq<char>)> {
    let hs = fs.map_values(|f: Finding| finding_content_hash(f));
    Seq::new(fs.len(), |k: int| (disambiguated(hs[k], earlier_same(hs, k)), finding_line_hash(fs[k])))
}

/// A finding's fingerprint identities, when it has a fingerprint.
pub open spec fn fingerprint_pair(f: Finding) -> Option<(Seq<char>, Seq<char>)> {
    match f.fingerprint {
        Some(fp) => Some((fp.id@, fp.line_id@)),
        None => None,
    }
}

/// A finding with everything but its fingerprint equal to another.
pub open spec fn same_but_fingerprint(a: Finding, b: Finding) -> bool {
    a == Finding { fingerprint: a.fingerprint, ..b }
}

/// Gives every finding its fingerprint: the content identity, with a
/// repetition count after the first finding sharing it, and the line
/// identity. Everything else of each finding stays as it was; the content
/// identities are distinct, and computing the fingerprints again over the
/// result gives the ones it holds.
pub fn compute_fingerprints(findings: &mut Vec<Finding>)
    ensures
        final(findings)@.len() == old(findings)@.len(),
        forall|k: int| 0 <= k < final(findings)@.len() ==> same_but_fingerprint(#[trigger] final(findings)@[k], old(findings)@[k]),
        forall|k: int| 0 <= k < final(findings)@.len() ==> fingerprint_pair(#[trigger] final(findings)@[k]) == Some(fingerprints_spec(old(findings)@)[k]),
        forall|i: int, j: int|
            #![trigger final(findings)@[i], final(findings)@[j]]
            0 <= i < j < final(findings)@.len() ==> fingerprint_pair(final(findings)@[i]).unwrap().0
                != fingerprint_pair(final(findings)@[j]).unwrap().0,
        forall|k: int| 0 <= k < final(findings)@.len() ==> fingerprint_pair(#[trigger] final(findings)@[k]) == Some(fingerprints_spec(final(findings)@)[k]),
{
    let ghost orig = findings@;
    let ghost hs = orig.map_values(|f: Finding| finding_content_hash(f));
    let mut seen: Vec<String> = Vec::new();
    let mut k: usize = 0;
    while k < findings.len()
        invariant
            k <= findings@.len(),
            findings@.len() == orig.len(),
            hs == orig.map_values(|f: Finding| finding_content_hash(f)),
            crate::sorted::string_views(seen@) == hs.take(k as int),
            seen@.len() == k,
            forall|q: int| k <= q < findings@.len() ==> #[trigger] findings@[q] == orig[q],
            forall|q: int| 0 <= q < k ==> same_but_fingerprint(#[trigger] findings@[q], orig[q]),
            forall|q: int| 0 <= q < k ==> fingerprint_pair(#[trigger] findings@[q]) == Some(fingerprints_spec(orig)[q]),
            forall|q: int| 0 <= q < k ==> (#[trigger] finding_content_hash(orig[q])).len() == FINGERPRINT_HASH_LENGTH,
        decreases findings@.len() - k,
    {
        let h = compute_content_hash(&findings[k]);
        let line = compute_line_hash(&findings[k]);
        let mut count: usize = 0;
        let mut j: usize = 0;
        while j < k
            invariant
                j <= k < orig.len(),
                hs == orig.map_values(|f: Finding| finding_content_hash(f)),
                crate::sorted::string_views(seen@) == hs.take(k as int),
                h@ == hs[k as int],
                count == count_eq(hs.take(j as int), hs[k as int]),
                count <= j,
                seen@.len() == k,
            decreases k - j,
        {
            proof {
                lemma_count_step(hs, j as int, hs[k as int]);
                assert(crate::sorted::string_views(seen@)[j as int] == hs.take(k as int)[j as int]);
            }
            if seen[j] == h {
                count = count + 1;
            }
            j = j + 1;
        }
        assert(hs.take(k as int).take(k as int) =~= hs.take(k as int));
        let id = if count == 0 {
            h.clone()
        } else {
            let mut t = h.clone();
            append_str(&mut t, FINGERPRINT_DISAMBIGUATION_SEPARATOR);
            let c = usize_to_string(count);
            append_str(&mut t, c.as_str());
            t
        };
        let f = &findings[k];
        let updated = Finding {
            location: f.location.duplicate(),
            category: f.category,
            confidence_bits: f.confidence_bits,
            evidence: f.evidence.clone(),
            explanation: f.explanation.clone(),
            impact: f.impact.clone(),
            suggestion: copy_opt_string(&f.suggestion),
            fingerprint: Some(Fingerprint { id, line_id: line }),
        };
        let ghost before_seen = seen@;
        seen.push(h);
        findings.set(k, updated);
        proof {
            assert(crate::sorted::string_views(seen@) =~= hs.take(k + 1));
            assert(fingerprints_spec(orig)[k as int] == (disambiguated(hs[k as int], earlier_same(hs, k as int)), finding_line_hash(orig[k as int])));
        }
        k = k + 1;
    }
    proof {
        assert forall|i: int, j: int|
            #![trigger findings@[i], findings@[j]]
            0 <= i < j < findings@.len() implies fingerprint_pair(findings@[i]).unwrap().0
                != fingerprint_pair(findings@[j]).unwrap().0 by {
            law_fingerprint_ids_distinct(orig, i, j);
        }
        law_rerun_keeps_fingerprints(orig, findings@);
    }
}

// ---------------------------------------------------------------------------
// Laws
// ---------------------------------------------------------------------------

/// Content identities survive moves: two findings in the same file, of the
/// same category, whose evidence reads the same once whitespace and case
/// are normalised, have the same content identity, whatever their lines.
pub proof fn law_content_hash_ignores_lines_and_spacing(a: Finding, b: Finding)
    requires
        a.location.file@ == b.location.file@,
        a.category == b.category,
        normalize_spec(a.evidence@) == normalize_spec(b.evidence@),
    ensures
        finding_content_hash(a) == finding_content_hash(b),
{
}

proof fn lemma_decimal_nonempty(n: nat)
    ensures
        decimal(n).len() >= 1,
    decreases n,
{
    if n >= 10 {
        lemma_decimal_nonempty(n / 10);
    }
}

proof fn lemma_decimal_injective(a: nat, b: nat)
    requires
        decimal(a) == decimal(b),
    ensures
        a == b,
    decreases a + b,
{
    if a < 10 && b < 10 {
        assert(decimal(a)[0] == digit_char(a));
        assert(decimal(b)[0] == digit_char(b));
    } else if a < 10 {
        lemma_decimal_nonempty(b / 10);
        assert(decimal(b).len() >= 2);
    } else if b < 10 {
        lemma_decimal_nonempty(a / 10);
        assert(decimal(a).len() >= 2);
    } else {
        assert(decimal(a).last() == digit_char(a % 10));
        assert(decimal(b).last() == digit_char(b % 10));
        assert(decimal(a).drop_last() =~= decimal(a / 10));
        assert(decimal(b).drop_last() =~= decimal(b / 10));
        lemma_decimal_injective(a / 10, b / 10);
    }
}

proof fn lemma_count_mono(hs: Seq<Seq<char>>, i: int, j: int, x: Seq<char>)
    requires
        0 <= i <= j <= hs.len(),
    ensures
        count_eq(hs.take(i), x) <= count_eq(hs.take(j), x),
    decreases j - i,
{
    if i < j {
        lemma_count_mono(hs, i, j - 1, x);
        lemma_count_step(hs, j - 1, x);
    }
}

proof fn lemma_earlier_same_grows(hs: Seq<Seq<char>>, i: int, j: int)
    requires
        0 <= i < j < hs.len(),
        hs[i] == hs[j],
    ensures
        earlier_same(hs, i) < earlier_same(hs, j),
{
    lemma_count_step(hs, i, hs[j]);
    lemma_count_mono(hs, i + 1, j, hs[j]);
}

/// Fingerprint identities are unique within a review: no two findings get
/// the same content identity.
pub proof fn law_fingerprint_ids_distinct(fs: Seq<Finding>, i: int, j: int)
    requires
        0 <= i < j < fs.len(),
        forall|k: int| 0 <= k < fs.len() ==> (#[trigger] finding_content_hash(fs[k])).len() == FINGERPRINT_HASH_LENGTH,
    ensures
        fingerprints_spec(fs)[i].0 != fingerprints_spec(fs)[j].0,
{
    let hs = fs.map_values(|f: Finding| finding_content_hash(f));
    let ci = earlier_same(hs, i);
    let cj = earlier_same(hs, j);
    let a = disambiguated(hs[i], ci);
    let b = disambiguated(hs[j], cj);
    assert(hs[i] == finding_content_hash(fs[i]));
    assert(hs[j] == finding_content_hash(fs[j]));
    if a == b {
        if ci == 0 && cj == 0 {
            if hs[i] == hs[j] {
                lemma_earlier_same_grows(hs, i, j);
            }
        } else if ci == 0 {
            lemma_decimal_nonempty(cj);
            assert(a.len() == 16);
        } else if cj == 0 {
            lemma_decimal_nonempty(ci);
            assert(b.len() == 16);
        } else {
            reveal_strlit("-");
            assert(a.take(16) =~= hs[i]);
            assert(b.take(16) =~= hs[j]);
            assert(hs[i] == hs[j]);
            assert(a.skip(17) =~= decimal(ci));
            assert(b.skip(17) =~= decimal(cj));
            lemma_decimal_injective(ci, cj);
            lemma_earlier_same_grows(hs, i, j);
        }
    }
}


/// Fingerprints depend on nothing an earlier run wrote: findings that
/// differ only in their fingerprints get the same fingerprints.
pub proof fn law_fingerprints_ignore_previous(fs: Seq<Finding>, gs: Seq<Finding>)
    requires
        fs.len() == gs.len(),
        forall|k: int| 0 <= k < fs.len() ==> same_but_fingerprint(#[trigger] fs[k], gs[k]),
    ensures
        fingerprints_spec(fs) == fingerprints_spec(gs),
{
    let hf = fs.map_values(|f: Finding| finding_content_hash(f));
    let hg = gs.map_values(|f: Finding| finding_content_hash(f));
    assert forall|k: int| 0 <= k < fs.len() implies hf[k] == hg[k] && finding_line_hash(fs[k])
        == finding_line_hash(gs[k]) by {
        assert(same_but_fingerprint(fs[k], gs[k]));
    }
    assert(hf =~= hg);
    assert(fingerprints_spec(fs) =~= fingerprints_spec(gs));
}

/// Re-running changes nothing: once findings hold their fingerprints,
/// computing the fingerprints again from them gives the ones they hold.
pub proof fn law_rerun_keeps_fingerprints(before: Seq<Finding>, after: Seq<Finding>)
    requires
        after.len() == before.len(),
        forall|k: int| 0 <= k < after.len() ==> same_but_fingerprint(#[trigger] after[k], before[k]),
        forall|k: int| 0 <= k < after.len() ==> fingerprint_pair(#[trigger] after[k]) == Some(
            fingerprints_spec(before)[k],
        ),
    ensures
        forall|k: int| 0 <= k < after.len() ==> fingerprint_pair(#[trigger] after[k]) == Some(
            fingerprints_spec(after)[k],
        ),
{
    law_fingerprints_ignore_previous(after, before);
}

} // verus!
