//! The static filters a finding must pass before it is posted, and the
//! removal of duplicates at one location.
use vstd::prelude::*;
use crate::config::FilterConfig;
use crate::integrity::{any_pattern_found, any_pattern_in};
use crate::text::{append_str, chars_of, contains, is_blank, seq_contains, to_lowercase, trim_spec, unicode_lowercase};
use crate::types::{f64_bits_lt, f64_lt_spec, Finding, FindingCategory};

verus! {

/// Phrases with which the model talks itself out of a finding.
pub const DISMISSAL_PATTERNS: [&'static str; 14] = [
    "no bug",
    "not a bug",
    "not actually a bug",
    "i will remove",
    "i will lower the confidence",
    "i will look for",
    "i'll remove",
    "acceptable behavior",
    "acceptable behaviour",
    "no real issue",
    "not a real issue",
    "false positive",
    "works as intended",
    "is correct as written",
];

/// Phrases that declare the impact to be nothing.
pub const IMPACT_NONE_PATTERNS: [&'static str; 3] = ["impact: none", "impact is none", "no impact"];

/// Phrases that play the impact down: the first always, the second unless
/// it qualifies what the impact is on.
pub const MINIMAL_IMPACT_PATTERNS: [&'static str; 2] = ["minimal security impact", "minimal impact"];

/// The qualifier under which "minimal impact" is a real statement.
pub const MINIMAL_IMPACT_QUALIFIER: &'static str = "minimal impact on";

/// The text in which dismissals are looked for: explanation and impact,
/// lower-cased, joined by a space.
pub open spec fn dismissal_body(f: Finding) -> Seq<char> {
    unicode_lowercase(f.explanation@) + seq![' '] + unicode_lowercase(f.impact@)
}

/// A finding the model reasoned away: a dismissal phrase, an impact of
/// none, or a minimal impact (unless it says what the impact is on, in
/// which case only a minimal security impact counts).
pub open spec fn self_dismissed_spec(f: Finding) -> bool {
    let body = dismissal_body(f);
    any_pattern_in(body, DISMISSAL_PATTERNS@) || any_pattern_in(body, IMPACT_NONE_PATTERNS@)
        || seq_contains(body, MINIMAL_IMPACT_PATTERNS@[0]@) || (seq_contains(body, MINIMAL_IMPACT_PATTERNS@[1]@)
        && !seq_contains(body, MINIMAL_IMPACT_QUALIFIER@))
}

/// Whether the model talked itself out of a finding in its explanation
/// or impact.
pub fn is_self_dismissed(finding: &Finding) -> (b: bool)
    ensures
        b == self_dismissed_spec(*finding),
{
    let mut body = to_lowercase(finding.explanation.as_str());
    crate::text::push_char(&mut body, ' ');
    let imp = to_lowercase(finding.impact.as_str());
    append_str(&mut body, imp.as_str());
    assert(body@ =~= dismissal_body(*finding));
    let bc = chars_of(body.as_str());
    if any_pattern_found(bc.as_slice(), &DISMISSAL_PATTERNS) {
        return true;
    }
    if any_pattern_found(bc.as_slice(), &IMPACT_NONE_PATTERNS) {
        return true;
    }
    let m0 = chars_of(MINIMAL_IMPACT_PATTERNS[0]);
    let m1 = chars_of(MINIMAL_IMPACT_PATTERNS[1]);
    let q = chars_of(MINIMAL_IMPACT_QUALIFIER);
    contains(bc.as_slice(), m0.as_slice()) || (contains(bc.as_slice(), m1.as_slice()) && !contains(
        bc.as_slice(),
        q.as_slice(),
    ))
}

/// A finding passes the static filters: confidence not below the minimum,
/// evidence and impact not blank, not reasoned away, and not a style
/// finding when those are suppressed.
pub open spec fn keep_spec(f: Finding, c: FilterConfig) -> bool {
    &&& !f64_lt_spec(f.confidence_bits, c.min_confidence_bits)
    &&& trim_spec(f.evidence@).len() > 0
    &&& trim_spec(f.impact@).len() > 0
    &&& !self_dismissed_spec(f)
    &&& !(c.suppress_style_only && f.category == FindingCategory::Style)
}

/// Whether a finding passes the static filters.
pub fn passes_filters(f: &Finding, config: &FilterConfig) -> (b: bool)
    ensures
        b == keep_spec(*f, *config),
        b ==> trim_spec(f.evidence@).len() > 0 && trim_spec(f.impact@).len() > 0,
        b ==> !f64_lt_spec(f.confidence_bits, config.min_confidence_bits),
        trim_spec(f.evidence@).len() == 0 ==> !b,
{
    if f64_bits_lt(f.confidence_bits, config.min_confidence_bits) {
        return false;
    }
    let ev = chars_of(f.evidence.as_str());
    if is_blank(ev.as_slice()) {
        return false;
    }
    let im = chars_of(f.impact.as_str());
    if is_blank(im.as_slice()) {
        return false;
    }
    if is_self_dismissed(f) {
        return false;
    }
    let is_style = match f.category {
        FindingCategory::Style => true,
        _ => false,
    };
    !(config.suppress_style_only && is_style)
}

/// Two findings point at the same place: same file, same first line, same
/// category.
pub open spec fn same_slot(a: Finding, b: Finding) -> bool {
    a.location.file@ == b.location.file@ && a.location.start_line == b.location.start_line && a.category == b.category
}

/// No two findings of a list are at the same place.
pub open spec fn distinct_slots(r: Seq<Finding>) -> bool {
    forall|i: int, j: int| 0 <= i < j < r.len() ==> !same_slot(#[trigger] r[i], #[trigger] r[j])
}

/// Adds a finding to the deduplicated list: it replaces the finding at its
/// place when its confidence is strictly higher, is dropped when not, and
/// is appended when its place is new.
pub open spec fn dedup_step(r: Seq<Finding>, f: Finding) -> Seq<Finding> {
    if exists|i: int| 0 <= i < r.len() && same_slot(r[i], f) {
        let i = choose|i: int| 0 <= i < r.len() && same_slot(r[i], f);
        if f64_lt_spec(r[i].confidence_bits, f.confidence_bits) {
            r.update(i, f)
        } else {
            r
        }
    } else {
        r.push(f)
    }
}

/// The deduplicated list of the first `k` findings.
pub open spec fn dedup_upto(fs: Seq<Finding>, k: int) -> Seq<Finding>
    decreases k,
{
    if k <= 0 {
        Seq::empty()
    } else {
        dedup_step(dedup_upto(fs, k - 1), fs[k - 1])
    }
}

/// The findings that pass the filters, deduplicated by place.
pub open spec fn filtered_spec(fs: Seq<Finding>, c: FilterConfig) -> Seq<Finding> {
    let kept = fs.filter(|f: Finding| keep_spec(f, c));
    dedup_upto(kept, kept.len() as int)
}

proof fn lemma_dedup_step_distinct(r: Seq<Finding>, f: Finding)
    requires
        distinct_slots(r),
    ensures
        distinct_slots(dedup_step(r, f)),
{
    if exists|i: int| 0 <= i < r.len() && same_slot(r[i], f) {
        let i = choose|i: int| 0 <= i < r.len() && same_slot(r[i], f);
        let u = r.update(i, f);
        assert forall|a: int, b: int| 0 <= a < b < u.len() implies !same_slot(#[trigger] u[a], #[trigger] u[b]) by {
            if a == i {
                assert(!same_slot(r[a], r[b]));
            } else if b == i {
                assert(!same_slot(r[a], r[b]));
            }
        }
    }
}

proof fn lemma_dedup_distinct(fs: Seq<Finding>, k: int)
    ensures
        distinct_slots(dedup_upto(fs, k)),
    decreases k,
{
    if k > 0 {
        lemma_dedup_distinct(fs, k - 1);
        lemma_dedup_step_distinct(dedup_upto(fs, k - 1), fs[k - 1]);
    }
}

fn same_slot_exec(a: &Finding, b: &Finding) -> (r: bool)
    ensures
        r == same_slot(*a, *b),
{
    a.location.file == b.location.file && a.location.start_line == b.location.start_line && a.category == b.category
}

/// Keeps one finding per place (file, first line, category): the one with
/// the highest confidence, the earliest among equals, at the position where
/// its place first appeared.
pub fn deduplicate(findings: Vec<Finding>) -> (r: Vec<Finding>)
    ensures
        r@ == dedup_upto(findings@, findings@.len() as int),
{
    let mut result: Vec<Finding> = Vec::new();
    let mut k: usize = 0;
    while k < findings.len()
        invariant
            k <= findings@.len(),
            result@ == dedup_upto(findings@, k as int),
        decreases findings@.len() - k,
    {
        proof {
            lemma_dedup_distinct(findings@, k as int);
        }
        let f = &findings[k];
        let mut found: Option<usize> = None;
        let mut j: usize = 0;
        while j < result.len()
            invariant
                j <= result@.len(),
                found is None ==> forall|q: int| 0 <= q < j ==> !same_slot(#[trigger] result@[q], *f),
                found matches Some(x) ==> x < result@.len() && same_slot(result@[x as int], *f),
            decreases result@.len() - j,
        {
            if found.is_none() && same_slot_exec(&result[j], f) {
                found = Some(j);
            }
            j = j + 1;
        }
        match found {
            Some(x) => {
                proof {
                    let r0 = dedup_upto(findings@, k as int);
                    let i = choose|i: int| 0 <= i < r0.len() && same_slot(r0[i], *f);
                    if i != x {
                        assert(same_slot(r0[i], r0[x as int]));
                        if i < x {
                            assert(!same_slot(r0[i], r0[x as int]));
                        } else {
                            assert(!same_slot(r0[x as int], r0[i]));
                        }
                    }
                    assert(findings@[k as int] == *f);
                    assert(k + 1 - 1 == k);
                }
                if f64_bits_lt(result[x].confidence_bits, f.confidence_bits) {
                    result.set(x, f.duplicate());
                }
            },
            None => {
                proof {
                    assert(findings@[k as int] == *f);
                }
                result.push(f.duplicate());
            },
        }
        k = k + 1;
    }
    result
}

/// Applies the static filters and keeps one finding per place.
pub fn apply_filters(findings: Vec<Finding>, config: &FilterConfig) -> (r: Vec<Finding>)
    ensures
        r@ == filtered_spec(findings@, *config),
        forall|k: int| 0 <= k < r@.len() ==> trim_spec((#[trigger] r@[k]).evidence@).len() > 0 && trim_spec(
            r@[k].impact@,
        ).len() > 0 && !f64_lt_spec(r@[k].confidence_bits, config.min_confidence_bits),
        forall|i: int, j: int|
            0 <= i < r@.len() && 0 <= j < findings@.len() && keep_spec(findings@[j], *config) && same_slot(
                #[trigger] r@[i],
                #[trigger] findings@[j],
            ) ==> !f64_lt_spec(r@[i].confidence_bits, findings@[j].confidence_bits),
{
    proof {
        law_filtered_findings_are_grounded(findings@, *config);
        law_dedup_keeps_most_confident(findings@, *config);
        let kept = findings@.filter(|f: Finding| keep_spec(f, *config));
        assert forall|i: int, j: int|
            0 <= i < filtered_spec(findings@, *config).len() && 0 <= j < findings@.len() && keep_spec(findings@[j], *config)
                && same_slot(
                #[trigger] filtered_spec(findings@, *config)[i],
                #[trigger] findings@[j],
            ) implies !f64_lt_spec(filtered_spec(findings@, *config)[i].confidence_bits, findings@[j].confidence_bits) by {
            findings@.lemma_filter_contains(|f: Finding| keep_spec(f, *config), j);
            let q = choose|q: int| 0 <= q < kept.len() && kept[q] == findings@[j];
            assert(same_slot(filtered_spec(findings@, *config)[i], kept[q]));
        }
    }
    let mut kept: Vec<Finding> = Vec::new();
    let mut i: usize = 0;
    while i < findings.len()
        invariant
            i <= findings@.len(),
            kept@ == findings@.take(i as int).filter(|f: Finding| keep_spec(f, *config)),
        decreases findings@.len() - i,
    {
        proof {
            reveal(Seq::filter);
            assert(findings@.take(i + 1).drop_last() =~= findings@.take(i as int));
        }
        if passes_filters(&findings[i], config) {
            kept.push(findings[i].duplicate());
        }
        i = i + 1;
    }
    assert(findings@.take(findings@.len() as int) =~= findings@);
    deduplicate(kept)
}

/// Deduplication keeps one finding per place: no two findings of the
/// result share file, first line and category.
pub proof fn law_dedup_distinct_places(fs: Seq<Finding>)
    ensures
        distinct_slots(dedup_upto(fs, fs.len() as int)),
{
    lemma_dedup_distinct(fs, fs.len() as int);
}


proof fn lemma_dedup_keeps_pred(fs: Seq<Finding>, k: int, c: FilterConfig)
    requires
        0 <= k <= fs.len(),
        forall|j: int| 0 <= j < fs.len() ==> keep_spec(#[trigger] fs[j], c),
    ensures
        forall|i: int| 0 <= i < dedup_upto(fs, k).len() ==> keep_spec(#[trigger] dedup_upto(fs, k)[i], c),
    decreases k,
{
    if k > 0 {
        lemma_dedup_keeps_pred(fs, k - 1, c);
        let r = dedup_upto(fs, k - 1);
        let f = fs[k - 1];
        let u = dedup_upto(fs, k);
        assert(keep_spec(f, c));
        assert forall|i: int| 0 <= i < u.len() implies keep_spec(#[trigger] u[i], c) by {
            if exists|q: int| 0 <= q < r.len() && same_slot(r[q], f) {
                let q = choose|q: int| 0 <= q < r.len() && same_slot(r[q], f);
                if i != q {
                    assert(keep_spec(r[i], c));
                }
            } else {
                if i < r.len() {
                    assert(keep_spec(r[i], c));
                }
            }
        }
    }
}

/// Every finding that comes out of the filters passes them: confidence
/// not below the minimum, evidence and impact not blank, not reasoned
/// away, and not a suppressed style finding.
pub proof fn law_filtered_findings_pass(fs: Seq<Finding>, c: FilterConfig)
    ensures
        forall|i: int| 0 <= i < filtered_spec(fs, c).len() ==> keep_spec(#[trigger] filtered_spec(fs, c)[i], c),
{
    let kept = fs.filter(|f: Finding| keep_spec(f, c));
    assert forall|j: int| 0 <= j < kept.len() implies keep_spec(#[trigger] kept[j], c) by {
        fs.lemma_filter_pred(|f: Finding| keep_spec(f, c), j);
    }
    lemma_dedup_keeps_pred(kept, kept.len() as int, c);
}

/// Every finding the filters let through quotes evidence and states an
/// impact (each non-blank once whitespace is trimmed), and is at least as
/// confident as the configured minimum: a finding with blank evidence is
/// never reported.
pub proof fn law_filtered_findings_are_grounded(fs: Seq<Finding>, c: FilterConfig)
    ensures
        forall|k: int| 0 <= k < filtered_spec(fs, c).len() ==> {
            let g = #[trigger] filtered_spec(fs, c)[k];
            &&& trim_spec(g.evidence@).len() > 0
            &&& trim_spec(g.impact@).len() > 0
            &&& !f64_lt_spec(g.confidence_bits, c.min_confidence_bits)
        },
{
    law_filtered_findings_pass(fs, c);
}

proof fn lemma_f64_lt_trans(a: u64, b: u64, c: u64)
    requires
        f64_lt_spec(a, b),
        f64_lt_spec(b, c),
    ensures
        f64_lt_spec(a, c),
{
}

proof fn lemma_f64_lt_irrefl(a: u64)
    ensures
        !f64_lt_spec(a, a),
{
}

/// Every place among the first `k` findings holds a finding of the
/// deduplicated list, and no finding seen at a place is strictly more
/// confident than the one kept there.
pub open spec fn keeps_most_confident(r: Seq<Finding>, fs: Seq<Finding>, k: int) -> bool {
    &&& forall|j: int| 0 <= j < k ==> exists|i: int| 0 <= i < r.len() && same_slot(r[i], #[trigger] fs[j])
    &&& forall|i: int, j: int|
        0 <= i < r.len() && 0 <= j < k && same_slot(#[trigger] r[i], #[trigger] fs[j]) ==> !f64_lt_spec(
            r[i].confidence_bits,
            fs[j].confidence_bits,
        )
}

proof fn lemma_dedup_most_confident(fs: Seq<Finding>, k: int)
    requires
        0 <= k <= fs.len(),
    ensures
        keeps_most_confident(dedup_upto(fs, k), fs, k),
    decreases k,
{
    if k > 0 {
        lemma_dedup_most_confident(fs, k - 1);
        lemma_dedup_distinct(fs, k - 1);
        let r = dedup_upto(fs, k - 1);
        let f = fs[k - 1];
        let u = dedup_step(r, f);
        assert(u == dedup_upto(fs, k));
        lemma_f64_lt_irrefl(f.confidence_bits);
        if exists|i: int| 0 <= i < r.len() && same_slot(r[i], f) {
            let i = choose|i: int| 0 <= i < r.len() && same_slot(r[i], f);
            if f64_lt_spec(r[i].confidence_bits, f.confidence_bits) {
                assert forall|j: int| 0 <= j < k implies exists|x: int| 0 <= x < u.len() && same_slot(u[x], #[trigger] fs[j]) by {
                    if j < k - 1 {
                        let x = choose|x: int| 0 <= x < r.len() && same_slot(r[x], fs[j]);
                        if x == i {
                            assert(same_slot(u[i], fs[j]));
                        } else {
                            assert(u[x] == r[x]);
                        }
                    } else {
                        assert(same_slot(u[i], fs[j]));
                    }
                }
                assert forall|x: int, j: int|
                    0 <= x < u.len() && 0 <= j < k && same_slot(#[trigger] u[x], #[trigger] fs[j]) implies !f64_lt_spec(
                        u[x].confidence_bits,
                        fs[j].confidence_bits,
                    ) by {
                    if x == i {
                        if j < k - 1 {
                            assert(same_slot(r[i], fs[j]));
                            if f64_lt_spec(f.confidence_bits, fs[j].confidence_bits) {
                                lemma_f64_lt_trans(r[i].confidence_bits, f.confidence_bits, fs[j].confidence_bits);
                            }
                        }
                    } else {
                        assert(u[x] == r[x]);
                        if j == k - 1 {
                            assert(!same_slot(r[x], r[i]));
                        }
                    }
                }
            } else {
                assert forall|x: int, j: int|
                    0 <= x < u.len() && 0 <= j < k && same_slot(#[trigger] u[x], #[trigger] fs[j]) implies !f64_lt_spec(
                        u[x].confidence_bits,
                        fs[j].confidence_bits,
                    ) by {
                    if j == k - 1 && x != i {
                        assert(!same_slot(r[x], r[i]));
                    }
                }
                assert forall|j: int| 0 <= j < k implies exists|x: int| 0 <= x < u.len() && same_slot(u[x], #[trigger] fs[j]) by {
                    if j == k - 1 {
                        assert(same_slot(u[i], fs[j]));
                    }
                }
            }
        } else {
            assert forall|j: int| 0 <= j < k implies exists|x: int| 0 <= x < u.len() && same_slot(u[x], #[trigger] fs[j]) by {
                if j < k - 1 {
                    let x = choose|x: int| 0 <= x < r.len() && same_slot(r[x], fs[j]);
                    assert(u[x] == r[x]);
                } else {
                    assert(same_slot(u[r.len() as int], fs[j]));
                }
            }
            assert forall|x: int, j: int|
                0 <= x < u.len() && 0 <= j < k && same_slot(#[trigger] u[x], #[trigger] fs[j]) implies !f64_lt_spec(
                    u[x].confidence_bits,
                    fs[j].confidence_bits,
                ) by {
                if x < r.len() {
                    assert(u[x] == r[x]);
                } else if j < k - 1 {
                    let y = choose|y: int| 0 <= y < r.len() && same_slot(r[y], fs[j]);
                    assert(same_slot(r[y], f));
                }
            }
        }
    }
}

/// Deduplication keeps, at each place, a finding that no other finding at
/// that place beats on confidence, and loses no place: every place among
/// the findings that pass the filters holds a kept finding.
pub proof fn law_dedup_keeps_most_confident(fs: Seq<Finding>, c: FilterConfig)
    ensures
        ({
            let kept = fs.filter(|f: Finding| keep_spec(f, c));
            let r = filtered_spec(fs, c);
            &&& forall|j: int| 0 <= j < kept.len() ==> exists|i: int| 0 <= i < r.len() && same_slot(r[i], #[trigger] kept[j])
            &&& forall|i: int, j: int|
                0 <= i < r.len() && 0 <= j < kept.len() && same_slot(#[trigger] r[i], #[trigger] kept[j]) ==> !f64_lt_spec(
                    r[i].confidence_bits,
                    kept[j].confidence_bits,
                )
        }),
{
    let kept = fs.filter(|f: Finding| keep_spec(f, c));
    lemma_dedup_most_confident(kept, kept.len() as int);
}

} // verus!
