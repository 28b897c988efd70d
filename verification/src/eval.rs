//! Evaluation bookkeeping: matching a review's findings against a
//! fixture's expected findings, totals over fixtures, agreement across
//! repeated runs, and per-fixture regressions between two evaluations.
use vstd::prelude::*;
use crate::decimal::{decimal, usize_to_string};
use crate::sorted::string_views;
use crate::text::append_str;
use crate::types::{category_name, BudgetReport, ChangeMetadata, ContentTier, ContextFile, ContextPackage, Finding, FindingCategory};

verus! {

/// Pairs of categories that count as the same when matching findings.
pub const CATEGORY_ALIASES: [(&'static str, &'static str); 7] = [
    ("security", "logic"),
    ("performance", "logic"),
    ("performance", "security"),
    ("convention", "style"),
    ("other", "logic"),
    ("other", "security"),
    ("other", "performance"),
];

/// Lines a found issue may be away from the expected one and still match.
pub const EVAL_LINE_TOLERANCE: usize = 5;

/// An actual category matches an expected one: equal, listed as
/// acceptable by the fixture, or an alias pair in either order.
pub open spec fn categories_match_spec(actual: Seq<char>, expected: Seq<char>, acceptable: Seq<Seq<char>>) -> bool {
    actual == expected || acceptable.contains(actual) || exists|k: int|
        0 <= k < CATEGORY_ALIASES@.len() && ((actual == (#[trigger] CATEGORY_ALIASES@[k]).0@ && expected
            == CATEGORY_ALIASES@[k].1@) || (actual == CATEGORY_ALIASES@[k].1@ && expected == CATEGORY_ALIASES@[k].0@))
}

fn str_eq(a: &str, b: &str) -> (r: bool)
    ensures
        r == (a@ == b@),
{
    let ac = crate::text::chars_of(a);
    let bc = crate::text::chars_of(b);
    crate::sorted::chars_eq(ac.as_slice(), bc.as_slice())
}

/// Whether an actual category matches an expected one.
pub fn categories_match(actual: &str, expected: &str, acceptable: &[String]) -> (b: bool)
    ensures
        b == categories_match_spec(actual@, expected@, string_views(acceptable@)),
{
    if str_eq(actual, expected) {
        return true;
    }
    let mut i: usize = 0;
    while i < acceptable.len()
        invariant
            i <= acceptable@.len(),
            forall|q: int| 0 <= q < i ==> acceptable@[q]@ != actual@,
        decreases acceptable@.len() - i,
    {
        if str_eq(acceptable[i].as_str(), actual) {
            assert(string_views(acceptable@)[i as int] == actual@);
            return true;
        }
        i = i + 1;
    }
    assert(!string_views(acceptable@).contains(actual@)) by {
        if string_views(acceptable@).contains(actual@) {
            let q = choose|q: int| 0 <= q < string_views(acceptable@).len() && string_views(acceptable@)[q] == actual@;
            assert(acceptable@[q]@ == actual@);
        }
    }
    let mut k: usize = 0;
    while k < CATEGORY_ALIASES.len()
        invariant
            k <= CATEGORY_ALIASES@.len(),
            forall|q: int| 0 <= q < k ==> !((actual@ == (#[trigger] CATEGORY_ALIASES@[q]).0@ && expected@
                == CATEGORY_ALIASES@[q].1@) || (actual@ == CATEGORY_ALIASES@[q].1@ && expected@ == CATEGORY_ALIASES@[q].0@)),
        decreases CATEGORY_ALIASES@.len() - k,
    {
        let (a, b) = CATEGORY_ALIASES[k];
        if (str_eq(actual, a) && str_eq(expected, b)) || (str_eq(actual, b) && str_eq(expected, a)) {
            return true;
        }
        k = k + 1;
    }
    false
}

/// A finding a fixture expects.
pub struct ExpectedFinding {
    pub file: String,
    pub start_line: usize,
    pub category: String,
    pub acceptable_categories: Vec<String>,
}

/// How a review did on one fixture.
pub struct FixtureResult {
    pub fixture_name: String,
    pub expected: usize,
    pub actual: usize,
    pub true_positives: usize,
    pub false_positives: usize,
    pub false_negatives: usize,
}

/// The distance between two line numbers.
pub open spec fn line_distance(a: usize, b: usize) -> nat {
    if a >= b { (a - b) as nat } else { (b - a) as nat }
}

/// An actual finding matches an expected one: same file, matching
/// category, and lines within the tolerance.
pub open spec fn pair_matches(a: Finding, e: ExpectedFinding, tolerance: usize) -> bool {
    &&& a.location.file@ == e.file@
    &&& categories_match_spec(category_name(a.category), e.category@, string_views(e.acceptable_categories@))
    &&& line_distance(a.location.start_line, e.start_line) <= tolerance
}

/// Expected finding `e` is the first still unmatched one that `a` matches.
pub open spec fn first_free_match(matched: Seq<bool>, expected: Seq<ExpectedFinding>, a: Finding, tolerance: usize, e: int) -> bool {
    &&& 0 <= e < expected.len()
    &&& !matched[e]
    &&& pair_matches(a, expected[e], tolerance)
    &&& forall|q: int| 0 <= q < e ==> matched[q] || !pair_matches(a, #[trigger] expected[q], tolerance)
}

/// Greedy matching of the first `k` actual findings: each takes the first
/// still unmatched expected finding it matches. Gives which expected and
/// which actual findings were matched.
pub open spec fn greedy_match(actual: Seq<Finding>, expected: Seq<ExpectedFinding>, tolerance: usize, k: int) -> (Seq<bool>, Seq<bool>)
    decreases k,
{
    if k <= 0 {
        (Seq::new(expected.len(), |i: int| false), Seq::empty())
    } else {
        let (me, ma) = greedy_match(actual, expected, tolerance, k - 1);
        let a = actual[k - 1];
        if exists|e: int| first_free_match(me, expected, a, tolerance, e) {
            let e = choose|e: int| first_free_match(me, expected, a, tolerance, e);
            (me.update(e, true), ma.push(true))
        } else {
            (me, ma.push(false))
        }
    }
}

/// How many entries are `b`.
pub open spec fn count_bool(s: Seq<bool>, b: bool) -> nat {
    s.filter(|x: bool| x == b).len()
}

/// The result of a fixture: counts of expected and actual findings, the
/// actual findings matched (true positives), the unmatched actual ones
/// (false positives), and the unmatched expected ones (false negatives).
pub open spec fn fixture_result_spec(actual: Seq<Finding>, expected: Seq<ExpectedFinding>, tolerance: usize) -> (nat, nat, nat) {
    let (me, ma) = greedy_match(actual, expected, tolerance, actual.len() as int);
    (count_bool(ma, true), count_bool(ma, false), count_bool(me, false))
}

fn pair_matches_exec(a: &Finding, e: &ExpectedFinding, tolerance: usize) -> (r: bool)
    ensures
        r == pair_matches(*a, *e, tolerance),
{
    if a.location.file != e.file {
        return false;
    }
    if !categories_match(a.category.as_str(), e.category.as_str(), e.acceptable_categories.as_slice()) {
        return false;
    }
    let d = if a.location.start_line >= e.start_line {
        a.location.start_line - e.start_line
    } else {
        e.start_line - a.location.start_line
    };
    d <= tolerance
}

proof fn lemma_count_push(s: Seq<bool>, x: bool, b: bool)
    ensures
        count_bool(s.push(x), b) == count_bool(s, b) + (if x == b { 1nat } else { 0nat }),
{
    reveal(Seq::filter);
    assert(s.push(x).drop_last() =~= s);
}

proof fn lemma_count_update(s: Seq<bool>, i: int)
    requires
        0 <= i < s.len(),
        !s[i],
    ensures
        count_bool(s.update(i, true), false) + 1 == count_bool(s, false),
        count_bool(s.update(i, true), true) == count_bool(s, true) + 1,
    decreases s.len(),
{
    let u = s.update(i, true);
    if i == s.len() - 1 {
        assert(u =~= s.drop_last().push(true));
        assert(s =~= s.drop_last().push(false));
        lemma_count_push(s.drop_last(), true, false);
        lemma_count_push(s.drop_last(), true, true);
        lemma_count_push(s.drop_last(), false, false);
        lemma_count_push(s.drop_last(), false, true);
    } else {
        lemma_count_update(s.drop_last(), i);
        assert(u =~= s.drop_last().update(i, true).push(s.last()));
        assert(s =~= s.drop_last().push(s.last()));
        lemma_count_push(s.drop_last().update(i, true), s.last(), false);
        lemma_count_push(s.drop_last().update(i, true), s.last(), true);
        lemma_count_push(s.drop_last(), s.last(), false);
        lemma_count_push(s.drop_last(), s.last(), true);
    }
}

proof fn lemma_count_split(s: Seq<bool>)
    ensures
        count_bool(s, true) + count_bool(s, false) == s.len(),
    decreases s.len(),
{
    if s.len() > 0 {
        lemma_count_split(s.drop_last());
        assert(s =~= s.drop_last().push(s.last()));
        lemma_count_push(s.drop_last(), s.last(), true);
        lemma_count_push(s.drop_last(), s.last(), false);
    }
}

proof fn lemma_all_false(n: nat)
    ensures
        count_bool(Seq::new(n, |i: int| false), false) == n,
        count_bool(Seq::new(n, |i: int| false), true) == 0,
    decreases n,
{
    if n > 0 {
        lemma_all_false((n - 1) as nat);
        assert(Seq::new(n, |i: int| false) =~= Seq::new((n - 1) as nat, |i: int| false).push(false));
        lemma_count_push(Seq::new((n - 1) as nat, |i: int| false), false, false);
        lemma_count_push(Seq::new((n - 1) as nat, |i: int| false), false, true);
    }
}

proof fn lemma_greedy_counts(actual: Seq<Finding>, expected: Seq<ExpectedFinding>, tolerance: usize, k: int)
    requires
        0 <= k <= actual.len(),
    ensures
        ({
            let (me, ma) = greedy_match(actual, expected, tolerance, k);
            &&& me.len() == expected.len()
            &&& ma.len() == k
            &&& count_bool(ma, true) == count_bool(me, true)
        }),
    decreases k,
{
    if k == 0 {
        lemma_all_false(expected.len());
        assert(count_bool(Seq::<bool>::empty(), true) == 0) by {
            reveal(Seq::filter);
        }
    } else {
        lemma_greedy_counts(actual, expected, tolerance, k - 1);
        let (me, ma) = greedy_match(actual, expected, tolerance, k - 1);
        let a = actual[k - 1];
        if exists|e: int| first_free_match(me, expected, a, tolerance, e) {
            let e = choose|e: int| first_free_match(me, expected, a, tolerance, e);
            lemma_count_update(me, e);
            lemma_count_push(ma, true, true);
        } else {
            lemma_count_push(ma, false, true);
        }
    }
}

/// No actual finding lies within `tolerance` lines of an expected finding
/// in the same file.
pub open spec fn no_close_pair(actual: Seq<Finding>, expected: Seq<ExpectedFinding>, tolerance: usize) -> bool {
    forall|i: int, j: int|
        0 <= i < actual.len() && 0 <= j < expected.len() ==> (#[trigger] actual[i]).location.file@
            != (#[trigger] expected[j]).file@ || actual[i].location.start_line > expected[j].start_line
            + tolerance || expected[j].start_line > actual[i].location.start_line + tolerance
}

proof fn lemma_count_all_false(n: nat)
    ensures
        count_bool(Seq::new(n, |i: int| false), true) == 0,
        count_bool(Seq::new(n, |i: int| false), false) == n,
    decreases n,
{
    if n > 0 {
        lemma_count_all_false((n - 1) as nat);
        assert(Seq::new(n, |i: int| false) =~= Seq::new((n - 1) as nat, |i: int| false).push(false));
        lemma_count_push(Seq::new((n - 1) as nat, |i: int| false), false, true);
        lemma_count_push(Seq::new((n - 1) as nat, |i: int| false), false, false);
    }
}

proof fn lemma_no_close_pair_no_match(actual: Seq<Finding>, expected: Seq<ExpectedFinding>, tolerance: usize, k: int)
    requires
        0 <= k <= actual.len(),
        no_close_pair(actual, expected, tolerance),
    ensures
        greedy_match(actual, expected, tolerance, k) == (Seq::new(expected.len(), |i: int| false), Seq::new(
            k as nat,
            |i: int| false,
        )),
    decreases k,
{
    if k > 0 {
        lemma_no_close_pair_no_match(actual, expected, tolerance, k - 1);
        let (me, ma) = greedy_match(actual, expected, tolerance, k - 1);
        let a = actual[k - 1];
        assert forall|e: int| !first_free_match(me, expected, a, tolerance, e) by {
            if 0 <= e < expected.len() {
                assert(a == actual[k - 1]);
                let x = expected[e];
                assert(a.location.file@ != x.file@ || a.location.start_line > x.start_line + tolerance
                    || x.start_line > a.location.start_line + tolerance);
            }
        }
        assert(ma.push(false) =~= Seq::new(k as nat, |i: int| false));
    } else {
        assert(Seq::<bool>::empty() =~= Seq::new(0nat, |i: int| false));
    }
}

/// A finding counts as found only when it lies within the line tolerance
/// of an expected finding in its file: when no actual finding does, there
/// are no true positives, every actual finding is a false positive and
/// every expected one a false negative.
pub proof fn law_distant_findings_never_match(actual: Seq<Finding>, expected: Seq<ExpectedFinding>, tolerance: usize)
    requires
        no_close_pair(actual, expected, tolerance),
    ensures
        fixture_result_spec(actual, expected, tolerance) == (0nat, actual.len(), expected.len()),
{
    lemma_no_close_pair_no_match(actual, expected, tolerance, actual.len() as int);
    lemma_count_all_false(actual.len());
    lemma_count_all_false(expected.len());
}

/// Matching accounts for every finding: true positives and false
/// positives make up the actual findings, true positives and false
/// negatives the expected ones.
pub proof fn law_fixture_counts_add_up(actual: Seq<Finding>, expected: Seq<ExpectedFinding>, tolerance: usize)
    ensures
        ({
            let (tp, fp, fneg) = fixture_result_spec(actual, expected, tolerance);
            &&& tp + fp == actual.len()
            &&& tp + fneg == expected.len()
        }),
{
    lemma_greedy_counts(actual, expected, tolerance, actual.len() as int);
    let (me, ma) = greedy_match(actual, expected, tolerance, actual.len() as int);
    lemma_count_split(me);
    lemma_count_split(ma);
}

fn count_flags(s: &Vec<bool>, b: bool) -> (n: usize)
    ensures
        n == count_bool(s@, b),
{
    let mut n: usize = 0;
    let mut i: usize = 0;
    while i < s.len()
        invariant
            i <= s@.len(),
            n == count_bool(s@.take(i as int), b),
            n <= i,
        decreases s@.len() - i,
    {
        proof {
            assert(s@.take(i + 1) =~= s@.take(i as int).push(s@[i as int]));
            lemma_count_push(s@.take(i as int), s@[i as int], b);
        }
        if s[i] == b {
            n = n + 1;
        }
        i = i + 1;
    }
    assert(s@.take(s@.len() as int) =~= s@);
    n
}

/// Scores a review's findings against a fixture's expected findings.
pub fn compute_fixture_result(
    fixture_name: &str,
    expected: &[ExpectedFinding],
    actual: &[Finding],
    line_tolerance: usize,
) -> (r: FixtureResult)
    ensures
        r.fixture_name@ == fixture_name@,
        r.expected == expected@.len(),
        r.actual == actual@.len(),
        (r.true_positives as nat, r.false_positives as nat, r.false_negatives as nat) == fixture_result_spec(
            actual@,
            expected@,
            line_tolerance,
        ),
        no_close_pair(actual@, expected@, line_tolerance) ==> r.true_positives == 0 && r.false_positives
            == actual@.len() && r.false_negatives == expected@.len(),
{
    proof {
        if no_close_pair(actual@, expected@, line_tolerance) {
            law_distant_findings_never_match(actual@, expected@, line_tolerance);
        }
    }
    let mut matched_expected: Vec<bool> = Vec::new();
    let mut i: usize = 0;
    while i < expected.len()
        invariant
            i <= expected@.len(),
            matched_expected@ == Seq::new(i as nat, |q: int| false),
        decreases expected@.len() - i,
    {
        matched_expected.push(false);
        i = i + 1;
        assert(matched_expected@ =~= Seq::new(i as nat, |q: int| false));
    }
    let mut matched_actual: Vec<bool> = Vec::new();
    let mut ai: usize = 0;
    while ai < actual.len()
        invariant
            ai <= actual@.len(),
            (matched_expected@, matched_actual@) == greedy_match(actual@, expected@, line_tolerance, ai as int),
            matched_expected@.len() == expected@.len(),
        decreases actual@.len() - ai,
    {
        let ghost me = matched_expected@;
        let a = &actual[ai];
        let mut found: Option<usize> = None;
        let mut ei: usize = 0;
        while ei < expected.len()
            invariant
                ei <= expected@.len(),
                matched_expected@ == me,
                me.len() == expected@.len(),
                found is None ==> forall|q: int| 0 <= q < ei ==> me[q] || !pair_matches(*a, #[trigger] expected@[q], line_tolerance),
                found matches Some(e) ==> first_free_match(me, expected@, *a, line_tolerance, e as int),
            decreases expected@.len() - ei,
        {
            if found.is_none() && !matched_expected[ei] && pair_matches_exec(a, &expected[ei], line_tolerance) {
                found = Some(ei);
            }
            ei = ei + 1;
        }
        proof {
            assert(actual@[ai as int] == *a);
            assert((ai + 1) - 1 == ai);
        }
        match found {
            Some(e) => {
                proof {
                    let c = choose|c: int| first_free_match(me, expected@, *a, line_tolerance, c);
                    if c < e {
                        assert(me[c] || !pair_matches(*a, expected@[c], line_tolerance));
                    } else if c > e {
                        assert(me[e as int] || !pair_matches(*a, expected@[e as int], line_tolerance));
                    }
                }
                matched_expected.set(e, true);
                matched_actual.push(true);
            },
            None => {
                proof {
                    if exists|c: int| first_free_match(me, expected@, *a, line_tolerance, c) {
                        let c = choose|c: int| first_free_match(me, expected@, *a, line_tolerance, c);
                        assert(me[c] || !pair_matches(*a, expected@[c], line_tolerance));
                    }
                }
                matched_actual.push(false);
            },
        }
        ai = ai + 1;
    }
    let tp = count_flags(&matched_actual, true);
    let fp = count_flags(&matched_actual, false);
    let fneg = count_flags(&matched_expected, false);
    FixtureResult {
        fixture_name: String::from_str(fixture_name),
        expected: expected.len(),
        actual: actual.len(),
        true_positives: tp,
        false_positives: fp,
        false_negatives: fneg,
    }
}

// ---------------------------------------------------------------------------
// Totals over fixtures
// ---------------------------------------------------------------------------

/// Counts summed over fixtures.
#[derive(Debug, Clone, Copy, PartialEq, Eq, Structural)]
pub struct AggregateTotals {
    pub total_fixtures: usize,
    pub total_expected: usize,
    pub total_actual: usize,
    pub total_tp: usize,
    pub total_fp: usize,
    pub total_fn: usize,
}

/// The sum of one count over the first `k` fixture results.
pub open spec fn sum_of(rs: Seq<FixtureResult>, k: int, field: spec_fn(FixtureResult) -> usize) -> nat
    decreases k,
{
    if k <= 0 {
        0
    } else {
        sum_of(rs, k - 1, field) + field(rs[k - 1]) as nat
    }
}

/// The expected count of a result.
pub open spec fn expected_of(r: FixtureResult) -> usize {
    r.expected
}

/// The actual count of a result.
pub open spec fn actual_of(r: FixtureResult) -> usize {
    r.actual
}

/// The true positives of a result.
pub open spec fn tp_of(r: FixtureResult) -> usize {
    r.true_positives
}

/// The false positives of a result.
pub open spec fn fp_of(r: FixtureResult) -> usize {
    r.false_positives
}

/// The false negatives of a result.
pub open spec fn fn_of(r: FixtureResult) -> usize {
    r.false_negatives
}

/// Every total fits a `usize` (the sums would overflow otherwise).
pub open spec fn totals_fit(rs: Seq<FixtureResult>) -> bool {
    &&& sum_of(rs, rs.len() as int, |r: FixtureResult| expected_of(r)) <= usize::MAX
    &&& sum_of(rs, rs.len() as int, |r: FixtureResult| actual_of(r)) <= usize::MAX
    &&& sum_of(rs, rs.len() as int, |r: FixtureResult| tp_of(r)) <= usize::MAX
    &&& sum_of(rs, rs.len() as int, |r: FixtureResult| fp_of(r)) <= usize::MAX
    &&& sum_of(rs, rs.len() as int, |r: FixtureResult| fn_of(r)) <= usize::MAX
}

proof fn lemma_sum_mono(rs: Seq<FixtureResult>, i: int, j: int, field: spec_fn(FixtureResult) -> usize)
    requires
        0 <= i <= j <= rs.len(),
    ensures
        sum_of(rs, i, field) <= sum_of(rs, j, field),
    decreases j - i,
{
    if i < j {
        lemma_sum_mono(rs, i, j - 1, field);
    }
}

/// Sums the counts of the fixture results; precision, recall and the noise
/// rate are ratios of these totals.
pub fn aggregate_totals(results: &[FixtureResult]) -> (t: AggregateTotals)
    requires
        totals_fit(results@),
    ensures
        t.total_fixtures == results@.len(),
        t.total_expected == sum_of(results@, results@.len() as int, |r: FixtureResult| expected_of(r)),
        t.total_actual == sum_of(results@, results@.len() as int, |r: FixtureResult| actual_of(r)),
        t.total_tp == sum_of(results@, results@.len() as int, |r: FixtureResult| tp_of(r)),
        t.total_fp == sum_of(results@, results@.len() as int, |r: FixtureResult| fp_of(r)),
        t.total_fn == sum_of(results@, results@.len() as int, |r: FixtureResult| fn_of(r)),
{
    let ghost rs = results@;
    let ghost n = rs.len() as int;
    let mut t = AggregateTotals {
        total_fixtures: results.len(),
        total_expected: 0,
        total_actual: 0,
        total_tp: 0,
        total_fp: 0,
        total_fn: 0,
    };
    let mut i: usize = 0;
    while i < results.len()
        invariant
            i <= rs.len(),
            rs == results@,
            n == rs.len(),
            totals_fit(rs),
            t.total_fixtures == rs.len(),
            t.total_expected == sum_of(rs, i as int, |r: FixtureResult| expected_of(r)),
            t.total_actual == sum_of(rs, i as int, |r: FixtureResult| actual_of(r)),
            t.total_tp == sum_of(rs, i as int, |r: FixtureResult| tp_of(r)),
            t.total_fp == sum_of(rs, i as int, |r: FixtureResult| fp_of(r)),
            t.total_fn == sum_of(rs, i as int, |r: FixtureResult| fn_of(r)),
        decreases rs.len() - i,
    {
        proof {
            lemma_sum_mono(rs, i + 1, n, |r: FixtureResult| expected_of(r));
            lemma_sum_mono(rs, i + 1, n, |r: FixtureResult| actual_of(r));
            lemma_sum_mono(rs, i + 1, n, |r: FixtureResult| tp_of(r));
            lemma_sum_mono(rs, i + 1, n, |r: FixtureResult| fp_of(r));
            lemma_sum_mono(rs, i + 1, n, |r: FixtureResult| fn_of(r));
        }
        let r = &results[i];
        t.total_expected = t.total_expected + r.expected;
        t.total_actual = t.total_actual + r.actual;
        t.total_tp = t.total_tp + r.true_positives;
        t.total_fp = t.total_fp + r.false_positives;
        t.total_fn = t.total_fn + r.false_negatives;
        i = i + 1;
    }
    t
}


// ---------------------------------------------------------------------------
// Agreement across repeated runs
// ---------------------------------------------------------------------------

/// Two findings are the same issue across runs: same file and category,
/// lines within the tolerance.
pub open spec fn findings_match_spec(left: Finding, right: Finding, tolerance: usize) -> bool {
    &&& left.location.file@ == right.location.file@
    &&& left.category == right.category
    &&& line_distance(left.location.start_line, right.location.start_line) <= tolerance
}

/// Whether two findings from different runs report the same issue.
pub fn findings_match(left: &Finding, right: &Finding, line_tolerance: usize) -> (b: bool)
    ensures
        b == findings_match_spec(*left, *right, line_tolerance),
{
    let d = if left.location.start_line >= right.location.start_line {
        left.location.start_line - right.location.start_line
    } else {
        right.location.start_line - left.location.start_line
    };
    left.location.file == right.location.file && left.category == right.category && d <= line_tolerance
}

/// Findings grouped across runs: the first finding of the group, how many
/// runs reported it, and the last run that did.
pub struct FindingGroup {
    pub representative: Finding,
    pub run_count: usize,
    pub last_seen_run: Option<usize>,
}

/// Group `i` is the first whose representative matches `f`.
pub open spec fn first_group(gs: Seq<FindingGroup>, f: Finding, tolerance: usize, i: int) -> bool {
    &&& 0 <= i < gs.len()
    &&& findings_match_spec(gs[i].representative, f, tolerance)
    &&& forall|q: int| 0 <= q < i ==> !findings_match_spec(#[trigger] gs[q].representative, f, tolerance)
}

/// Adds a finding of run `run`: the first matching group counts the run
/// once; with no matching group the finding starts one.
pub open spec fn group_step(gs: Seq<FindingGroup>, f: Finding, run: usize, tolerance: usize) -> Seq<FindingGroup> {
    if exists|i: int| first_group(gs, f, tolerance, i) {
        let i = choose|i: int| first_group(gs, f, tolerance, i);
        if gs[i].last_seen_run != Some(run) {
            gs.update(i, FindingGroup { run_count: (gs[i].run_count + 1) as usize, last_seen_run: Some(run), ..gs[i] })
        } else {
            gs
        }
    } else {
        gs.push(FindingGroup { representative: f, run_count: 1, last_seen_run: Some(run) })
    }
}

/// The groups after the first `j` findings of run `run`.
pub open spec fn groups_in_run(gs: Seq<FindingGroup>, fs: Seq<Finding>, run: usize, tolerance: usize, j: int) -> Seq<FindingGroup>
    decreases j,
{
    if j <= 0 {
        gs
    } else {
        group_step(groups_in_run(gs, fs, run, tolerance, j - 1), fs[j - 1], run, tolerance)
    }
}

/// The groups after the first `i` runs.
pub open spec fn groups_after(runs: Seq<Vec<Finding>>, tolerance: usize, i: int) -> Seq<FindingGroup>
    decreases i,
{
    if i <= 0 {
        Seq::empty()
    } else {
        let gs = groups_after(runs, tolerance, i - 1);
        groups_in_run(gs, runs[i - 1]@, (i - 1) as usize, tolerance, runs[i - 1]@.len() as int)
    }
}

/// The findings several runs agree on: the representatives, in order of
/// first appearance, of the groups reported by at least `threshold` runs
/// (at least one).
pub open spec fn aggregate_spec(runs: Seq<Vec<Finding>>, threshold: usize, tolerance: usize) -> Seq<Finding> {
    let t: usize = if threshold < 1 { 1 } else { threshold };
    groups_after(runs, tolerance, runs.len() as int).filter(|g: FindingGroup| g.run_count >= t).map_values(
        |g: FindingGroup| g.representative,
    )
}

/// Every group was last seen in a run up to `run` and counted at most
/// once per run up to then.
pub open spec fn groups_bounded(gs: Seq<FindingGroup>, run: int) -> bool {
    forall|q: int| 0 <= q < gs.len() ==> group_bounded(#[trigger] gs[q], run)
}

/// A group was last seen in a run up to `run`, and counted at most once per
/// run up to its last.
pub open spec fn group_bounded(g: FindingGroup, run: int) -> bool {
    match g.last_seen_run {
        Some(r) => r <= run && g.run_count <= r + 1,
        None => false,
    }
}

proof fn lemma_group_step_bounded(gs: Seq<FindingGroup>, f: Finding, run: usize, tolerance: usize)
    requires
        groups_bounded(gs, run as int),
    ensures
        groups_bounded(group_step(gs, f, run, tolerance), run as int),
{
    if exists|i: int| first_group(gs, f, tolerance, i) {
        let i = choose|i: int| first_group(gs, f, tolerance, i);
        let g = gs[i];
        if g.last_seen_run != Some(run) {
            let u = group_step(gs, f, run, tolerance);
            assert forall|q: int| 0 <= q < u.len() implies group_bounded(#[trigger] u[q], run as int) by {
                if q != i {
                    assert(u[q] == gs[q]);
                }
            }
        }
    } else {
        let u = group_step(gs, f, run, tolerance);
        assert forall|q: int| 0 <= q < u.len() implies group_bounded(#[trigger] u[q], run as int) by {
            if q < gs.len() {
                assert(u[q] == gs[q]);
            }
        }
    }
}

proof fn lemma_groups_in_run_bounded(gs: Seq<FindingGroup>, fs: Seq<Finding>, run: usize, tolerance: usize, j: int)
    requires
        groups_bounded(gs, run as int),
    ensures
        groups_bounded(groups_in_run(gs, fs, run, tolerance, j), run as int),
    decreases j,
{
    if j > 0 {
        lemma_groups_in_run_bounded(gs, fs, run, tolerance, j - 1);
        lemma_group_step_bounded(groups_in_run(gs, fs, run, tolerance, j - 1), fs[j - 1], run, tolerance);
    }
}

proof fn lemma_bounded_later(gs: Seq<FindingGroup>, a: int, b: int)
    requires
        groups_bounded(gs, a),
        a <= b,
    ensures
        groups_bounded(gs, b),
{
    assert forall|q: int| 0 <= q < gs.len() implies group_bounded(#[trigger] gs[q], b) by {
        assert(group_bounded(gs[q], a));
    }
}

proof fn lemma_groups_after_bounded(runs: Seq<Vec<Finding>>, tolerance: usize, i: int)
    requires
        0 <= i <= runs.len(),
        runs.len() <= usize::MAX,
    ensures
        groups_bounded(groups_after(runs, tolerance, i), i - 1),
    decreases i,
{
    if i > 0 {
        lemma_groups_after_bounded(runs, tolerance, i - 1);
        let gs = groups_after(runs, tolerance, i - 1);
        lemma_bounded_later(gs, i - 2, i - 1);
        lemma_groups_in_run_bounded(gs, runs[i - 1]@, (i - 1) as usize, tolerance, runs[i - 1]@.len() as int);
    }
}

/// A group is counted at most once per run: no group's run count exceeds
/// the number of runs.
pub proof fn law_group_counts_bounded_by_runs(runs: Seq<Vec<Finding>>, tolerance: usize)
    requires
        runs.len() <= usize::MAX,
    ensures
        forall|q: int| 0 <= q < groups_after(runs, tolerance, runs.len() as int).len() ==> (#[trigger] groups_after(
            runs,
            tolerance,
            runs.len() as int,
        )[q]).run_count <= runs.len(),
{
    lemma_groups_after_bounded(runs, tolerance, runs.len() as int);
    let gs = groups_after(runs, tolerance, runs.len() as int);
    assert forall|q: int| 0 <= q < gs.len() implies (#[trigger] gs[q]).run_count <= runs.len() by {
        assert(group_bounded(gs[q], runs.len() - 1));
    }
}

fn find_group(groups: &Vec<FindingGroup>, f: &Finding, tolerance: usize) -> (r: Option<usize>)
    ensures
        match r {
            Some(i) => first_group(groups@, *f, tolerance, i as int),
            None => !exists|i: int| first_group(groups@, *f, tolerance, i),
        },
{
    let mut i: usize = 0;
    while i < groups.len()
        invariant
            i <= groups@.len(),
            forall|q: int| 0 <= q < i ==> !findings_match_spec(#[trigger] groups@[q].representative, *f, tolerance),
        decreases groups@.len() - i,
    {
        if findings_match(&groups[i].representative, f, tolerance) {
            return Some(i);
        }
        i = i + 1;
    }
    proof {
        if exists|i: int| first_group(groups@, *f, tolerance, i) {
            let c = choose|i: int| first_group(groups@, *f, tolerance, i);
            assert(!findings_match_spec(groups@[c].representative, *f, tolerance));
        }
    }
    None
}

/// The findings that at least `threshold` runs (at least one) agree on,
/// each as first reported, in order of first appearance.
pub fn aggregate_findings(all_runs: &[Vec<Finding>], threshold: usize, line_tolerance: usize) -> (r: Vec<Finding>)
    ensures
        r@ == aggregate_spec(all_runs@, threshold, line_tolerance),
        threshold >= 2 && runs_disagree(all_runs@, line_tolerance) ==> r@.len() == 0,
{
    let t: usize = if threshold < 1 { 1 } else { threshold };
    let mut groups: Vec<FindingGroup> = Vec::new();
    let nruns = all_runs.len();
    proof {
        if threshold >= 2 && runs_disagree(all_runs@, line_tolerance) {
            law_disagreeing_runs_accept_nothing(all_runs@, threshold, line_tolerance);
        }
    }
    let mut run: usize = 0;
    while run < nruns
        invariant
            run <= nruns,
            nruns == all_runs@.len(),
            groups@ == groups_after(all_runs@, line_tolerance, run as int),
        decreases nruns - run,
    {
        let fs = &all_runs[run];
        let ghost g0 = groups@;
        proof {
            lemma_groups_after_bounded(all_runs@, line_tolerance, run as int);
            lemma_bounded_later(g0, run - 1, run as int);
        }
        let mut j: usize = 0;
        while j < fs.len()
            invariant
                j <= fs@.len(),
                run < nruns,
                nruns == all_runs@.len(),
                *fs == all_runs@[run as int],
                groups_bounded(g0, run as int),
                groups@ == groups_in_run(g0, fs@, run, line_tolerance, j as int),
            decreases fs@.len() - j,
        {
            proof {
                lemma_groups_in_run_bounded(g0, fs@, run, line_tolerance, j as int);
            }
            let f = &fs[j];
            match find_group(&groups, f, line_tolerance) {
                Some(i) => {
                    let seen = match groups[i].last_seen_run {
                        Some(x) => x == run,
                        None => false,
                    };
                    if !seen {
                        let old_g = &groups[i];
                        let ng = FindingGroup {
                            representative: old_g.representative.duplicate(),
                            run_count: old_g.run_count + 1,
                            last_seen_run: Some(run),
                        };
                        groups.set(i, ng);
                    }
                },
                None => {
                    groups.push(FindingGroup { representative: f.duplicate(), run_count: 1, last_seen_run: Some(run) });
                },
            }
            proof {
                assert(fs@[j as int] == *f);
                assert((j + 1) - 1 == j);
            }
            j = j + 1;
        }
        proof {
            assert((run + 1) - 1 == run);
        }
        run = run + 1;
    }
    let ghost gs = groups@;
    let mut r: Vec<Finding> = Vec::new();
    let mut k: usize = 0;
    while k < groups.len()
        invariant
            k <= groups@.len(),
            gs == groups@,
            r@ == gs.take(k as int).filter(|g: FindingGroup| g.run_count >= t).map_values(|g: FindingGroup| g.representative),
        decreases groups@.len() - k,
    {
        proof {
            reveal(Seq::filter);
            assert(gs.take(k + 1).drop_last() =~= gs.take(k as int));
        }
        if groups[k].run_count >= t {
            let ghost before = r@;
            r.push(groups[k].representative.duplicate());
            proof {
                let fl = gs.take(k as int).filter(|g: FindingGroup| g.run_count >= t);
                assert(gs.take(k + 1).filter(|g: FindingGroup| g.run_count >= t) == fl.push(gs[k as int]));
                assert(fl.push(gs[k as int]).map_values(|g: FindingGroup| g.representative) =~= fl.map_values(|g: FindingGroup| g.representative).push(gs[k as int].representative));
            }
        }
        k = k + 1;
    }
    assert(gs.take(gs.len() as int) =~= gs);
    r
}


// ---------------------------------------------------------------------------
// Regressions between two evaluations
// ---------------------------------------------------------------------------

/// One fixture's counts as stored in the evaluation history.
pub struct FixtureRecord {
    pub name: String,
    pub expected: usize,
    pub actual: usize,
    pub tp: usize,
    pub fp: usize,
    pub fn_count: usize,
}

/// A warning about a regression.
pub struct RegressionWarning {
    pub message: String,
}

/// The record of the fixture named `name` in the previous evaluation: the
/// last one with that name.
pub open spec fn previous_record(prev: Seq<FixtureRecord>, name: Seq<char>) -> Option<FixtureRecord> {
    if exists|i: int| 0 <= i < prev.len() && prev[i].name@ == name {
        let i = choose|i: int| 0 <= i < prev.len() && prev[i].name@ == name && forall|j: int| i < j < prev.len() ==> prev[j].name@ != name;
        Some(prev[i])
    } else {
        None
    }
}

/// The warning of a fixture that found its issue before and finds nothing
/// now.
pub open spec fn lost_detection_text(name: Seq<char>, previous_tp: usize) -> Seq<char> {
    "Fixture '"@ + name + "': lost detection (TP "@ + decimal(previous_tp as nat) + " -> 0)"@
}

/// The warning of a fixture that had no false positives and has some now.
pub open spec fn new_false_positives_text(name: Seq<char>, current_fp: usize) -> Seq<char> {
    "Fixture '"@ + name + "': new false positives (FP 0 -> "@ + decimal(current_fp as nat) + ")"@
}

/// The warnings of one fixture against its previous record.
pub open spec fn fixture_warnings(cur: FixtureRecord, prev: Option<FixtureRecord>) -> Seq<Seq<char>> {
    match prev {
        None => Seq::empty(),
        Some(p) => (if p.tp > 0 && cur.tp == 0 {
            seq![lost_detection_text(cur.name@, p.tp)]
        } else {
            Seq::empty()
        }) + (if p.fp == 0 && cur.fp > 0 {
            seq![new_false_positives_text(cur.name@, cur.fp)]
        } else {
            Seq::empty()
        }),
    }
}

/// The per-fixture warnings, in the order of the current fixtures.
pub open spec fn fixture_regressions_spec(current: Seq<FixtureRecord>, previous: Seq<FixtureRecord>) -> Seq<Seq<char>> {
    current.map_values(|c: FixtureRecord| fixture_warnings(c, previous_record(previous, c.name@))).flatten()
}

fn find_previous(previous: &[FixtureRecord], name: &String) -> (r: Option<usize>)
    ensures
        match r {
            Some(i) => i < previous@.len() && previous_record(previous@, name@) == Some(previous@[i as int]),
            None => previous_record(previous@, name@) is None,
        },
{
    let mut found: Option<usize> = None;
    let mut i: usize = 0;
    while i < previous.len()
        invariant
            i <= previous@.len(),
            match found {
                Some(x) => x < i && previous@[x as int].name@ == name@ && forall|j: int| x < j < i ==> previous@[j].name@ != name@,
                None => forall|j: int| 0 <= j < i ==> previous@[j].name@ != name@,
            },
        decreases previous@.len() - i,
    {
        if previous[i].name == *name {
            found = Some(i);
        }
        i = i + 1;
    }
    proof {
        match found {
            Some(x) => {
                let c = choose|c: int| 0 <= c < previous@.len() && previous@[c].name@ == name@ && forall|j: int| c < j < previous@.len() ==> previous@[j].name@ != name@;
                if c < x {
                    assert(previous@[x as int].name@ != name@);
                } else if c > x {
                    assert(previous@[c].name@ != name@);
                }
            },
            None => {},
        }
    }
    found
}

/// The fixtures that regressed since the previous evaluation: a fixture
/// that had true positives and has none now, and one that had no false
/// positives and has some now.
pub fn fixture_regressions(current: &[FixtureRecord], previous: &[FixtureRecord]) -> (r: Vec<RegressionWarning>)
    ensures
        r@.map_values(|w: RegressionWarning| w.message@) == fixture_regressions_spec(current@, previous@),
{
    let ghost items = current@.map_values(|c: FixtureRecord| fixture_warnings(c, previous_record(previous@, c.name@)));
    let mut r: Vec<RegressionWarning> = Vec::new();
    let mut k: usize = 0;
    while k < current.len()
        invariant
            k <= current@.len(),
            items == current@.map_values(|c: FixtureRecord| fixture_warnings(c, previous_record(previous@, c.name@))),
            r@.map_values(|w: RegressionWarning| w.message@) == items.take(k as int).flatten(),
        decreases current@.len() - k,
    {
        let c = &current[k];
        let ghost before = r@.map_values(|w: RegressionWarning| w.message@);
        match find_previous(previous, &c.name) {
            Some(pi) => {
                let p = &previous[pi];
                if p.tp > 0 && c.tp == 0 {
                    let mut m = String::from_str("Fixture '");
                    append_str(&mut m, c.name.as_str());
                    append_str(&mut m, "': lost detection (TP ");
                    let d = usize_to_string(p.tp);
                    append_str(&mut m, d.as_str());
                    append_str(&mut m, " -> 0)");
                    r.push(RegressionWarning { message: m });
                }
                let ghost mid = r@.map_values(|w: RegressionWarning| w.message@);
                if p.fp == 0 && c.fp > 0 {
                    let mut m = String::from_str("Fixture '");
                    append_str(&mut m, c.name.as_str());
                    append_str(&mut m, "': new false positives (FP 0 -> ");
                    let d = usize_to_string(c.fp);
                    append_str(&mut m, d.as_str());
                    append_str(&mut m, ")");
                    r.push(RegressionWarning { message: m });
                }
                proof {
                    assert(r@.map_values(|w: RegressionWarning| w.message@) =~= before + items[k as int]);
                }
            },
            None => {
                assert(r@.map_values(|w: RegressionWarning| w.message@) =~= before + items[k as int]);
            },
        }
        proof {
            assert(items.take(k + 1) =~= items.take(k as int).push(items[k as int]));
            items.take(k as int).lemma_flatten_push(items[k as int]);
        }
        k = k + 1;
    }
    assert(items.take(current@.len() as int) =~= items);
    r
}


// ---------------------------------------------------------------------------
// Running a fixture
// ---------------------------------------------------------------------------

/// The token budget a fixture's prompt is reported against.
pub const FIXTURE_TOTAL_BUDGET: usize = 128_000;

/// A benchmark fixture: a change, the files it touches, and the findings a
/// review should report.
pub struct Fixture {
    pub name: String,
    pub description: String,
    pub diff: String,
    pub files: Vec<(String, String)>,
    pub conventions: Option<String>,
    pub expected_findings: Vec<ExpectedFinding>,
    pub retry_count: u32,
}

/// The outcome of an evaluation: each fixture's counts, their totals, and
/// whether the quality gates passed.
pub struct EvalResult {
    pub fixture_results: Vec<FixtureResult>,
    pub totals: AggregateTotals,
    pub gates_passed: bool,
}

/// A fixture file as a changed file of the prompt: its whole text, no
/// summary, no score.
pub open spec fn fixture_file_ok(f: ContextFile, file: (String, String)) -> bool {
    &&& f.path@ == file.0@
    &&& f.content@ == file.1@
    &&& f.summary is None
    &&& f.retrieval_score is None
    &&& f.content_tier == ContentTier::Full
}

/// The review context of a fixture: its diff and every file in full, with
/// no related files, omissions or metadata, and a budget report that counts
/// every file as included in full.
pub fn fixture_context(fixture: &Fixture) -> (c: ContextPackage)
    ensures
        c.diff@ == fixture.diff@,
        c.changed_files@.len() == fixture.files@.len(),
        forall|i: int| 0 <= i < fixture.files@.len() ==> fixture_file_ok(#[trigger] c.changed_files@[i], fixture.files@[i]),
        c.related_files@.len() == 0,
        c.omissions@.len() == 0,
        c.metadata.title is None,
        c.metadata.description is None,
        c.metadata.author is None,
        c.metadata.base_branch is None,
        c.metadata.labels@.len() == 0,
        c.metadata.commit_messages@.len() == 0,
        c.budget == (BudgetReport {
            total_budget: FIXTURE_TOTAL_BUDGET,
            diff_tokens: 0,
            changed_files_tokens: 0,
            related_files_tokens: 0,
            remaining_tokens: FIXTURE_TOTAL_BUDGET,
            files_included: fixture.files@.len() as usize,
            files_omitted: 0,
            files_full: fixture.files@.len() as usize,
            files_summary_only: 0,
            files_diff_only: 0,
        }),
{
    let mut changed_files: Vec<ContextFile> = Vec::new();
    let mut i: usize = 0;
    while i < fixture.files.len()
        invariant
            i <= fixture.files@.len(),
            changed_files@.len() == i,
            forall|j: int| 0 <= j < i ==> fixture_file_ok(#[trigger] changed_files@[j], fixture.files@[j]),
        decreases fixture.files@.len() - i,
    {
        let (path, content) = &fixture.files[i];
        changed_files.push(ContextFile {
            path: path.clone(),
            content: content.clone(),
            summary: None,
            retrieval_score: None,
            content_tier: ContentTier::Full,
        });
        i = i + 1;
    }
    let n = fixture.files.len();
    ContextPackage {
        metadata: ChangeMetadata::empty(),
        diff: fixture.diff.clone(),
        changed_files,
        related_files: Vec::new(),
        omissions: Vec::new(),
        budget: BudgetReport {
            total_budget: FIXTURE_TOTAL_BUDGET,
            diff_tokens: 0,
            changed_files_tokens: 0,
            related_files_tokens: 0,
            remaining_tokens: FIXTURE_TOTAL_BUDGET,
            files_included: n,
            files_omitted: 0,
            files_full: n,
            files_summary_only: 0,
            files_diff_only: 0,
        },
    }
}

/// Runs that must agree on a finding: a majority, rounded up.
pub open spec fn majority(retry_count: u32) -> usize {
    ((retry_count as nat + 1) / 2) as usize
}

/// The findings a fixture is scored on: those of its single run, or those
/// a majority of its runs agree on.
pub open spec fn fixture_findings_spec(all_runs: Seq<Vec<Finding>>, retry_count: u32) -> Seq<Finding> {
    if retry_count == 1 {
        if all_runs.len() > 0 {
            all_runs.last()@
        } else {
            Seq::empty()
        }
    } else {
        aggregate_spec(all_runs, majority(retry_count), EVAL_LINE_TOLERANCE)
    }
}

/// Picks the findings of a fixture from the findings of its runs.
pub fn fixture_findings(all_runs: Vec<Vec<Finding>>, retry_count: u32) -> (r: Vec<Finding>)
    ensures
        r@ == fixture_findings_spec(all_runs@, retry_count),
{
    if retry_count == 1 {
        let mut runs = all_runs;
        match runs.pop() {
            Some(last) => last,
            None => Vec::new(),
        }
    } else {
        let threshold: usize = ((retry_count as u64 + 1) / 2) as usize;
        aggregate_findings(all_runs.as_slice(), threshold, EVAL_LINE_TOLERANCE)
    }
}

/// No finding of one run lies within `tolerance` lines of a finding of
/// another run in the same file with the same category.
pub open spec fn runs_disagree(runs: Seq<Vec<Finding>>, tolerance: usize) -> bool {
    forall|r1: int, r2: int, i: int, j: int|
        0 <= r1 < r2 < runs.len() && 0 <= i < runs[r1]@.len() && 0 <= j < runs[r2]@.len() ==> {
            let a = #[trigger] runs[r1]@[i];
            let b = #[trigger] runs[r2]@[j];
            a.location.file@ != b.location.file@ || a.category != b.category || a.location.start_line
                > b.location.start_line + tolerance || b.location.start_line > a.location.start_line + tolerance
        }
}

/// Every group was started by a finding of a run up to `cur`, was last
/// seen in that run, and was counted once.
pub open spec fn groups_single(gs: Seq<FindingGroup>, runs: Seq<Vec<Finding>>, cur: int) -> bool {
    forall|q: int|
        0 <= q < gs.len() ==> {
            let g = #[trigger] gs[q];
            &&& g.run_count == 1
            &&& g.last_seen_run is Some
            &&& 0 <= g.last_seen_run.unwrap() <= cur
            &&& g.last_seen_run.unwrap() < runs.len()
            &&& runs[g.last_seen_run.unwrap() as int]@.contains(g.representative)
        }
}

proof fn lemma_group_step_single(gs: Seq<FindingGroup>, runs: Seq<Vec<Finding>>, cur: usize, j: int, tolerance: usize)
    requires
        cur < runs.len(),
        0 <= j < runs[cur as int]@.len(),
        groups_single(gs, runs, cur as int),
        runs_disagree(runs, tolerance),
    ensures
        groups_single(group_step(gs, runs[cur as int]@[j], cur, tolerance), runs, cur as int),
{
    let f = runs[cur as int]@[j];
    if exists|i: int| first_group(gs, f, tolerance, i) {
        let i = choose|i: int| first_group(gs, f, tolerance, i);
        let g = gs[i];
        let r = g.last_seen_run.unwrap();
        if r != cur {
            let k = choose|k: int| 0 <= k < runs[r as int]@.len() && runs[r as int]@[k] == g.representative;
            assert(r < cur);
            let a = runs[r as int]@[k];
            let b = runs[cur as int]@[j];
            assert(findings_match_spec(a, b, tolerance));
            assert(false);
        }
    } else {
        let u = group_step(gs, f, cur, tolerance);
        assert forall|q: int| 0 <= q < u.len() implies {
            let g = #[trigger] u[q];
            &&& g.run_count == 1
            &&& g.last_seen_run is Some
            &&& 0 <= g.last_seen_run.unwrap() <= cur
            &&& g.last_seen_run.unwrap() < runs.len()
            &&& runs[g.last_seen_run.unwrap() as int]@.contains(g.representative)
        } by {
            if q < gs.len() {
                assert(u[q] == gs[q]);
            } else {
                assert(u[q].representative == f);
                assert(runs[cur as int]@[j] == f);
            }
        }
    }
}

proof fn lemma_groups_in_run_single(gs: Seq<FindingGroup>, runs: Seq<Vec<Finding>>, cur: usize, tolerance: usize, j: int)
    requires
        cur < runs.len(),
        0 <= j <= runs[cur as int]@.len(),
        groups_single(gs, runs, cur as int),
        runs_disagree(runs, tolerance),
    ensures
        groups_single(groups_in_run(gs, runs[cur as int]@, cur, tolerance, j), runs, cur as int),
    decreases j,
{
    if j > 0 {
        lemma_groups_in_run_single(gs, runs, cur, tolerance, j - 1);
        lemma_group_step_single(groups_in_run(gs, runs[cur as int]@, cur, tolerance, j - 1), runs, cur, j - 1, tolerance);
    }
}

proof fn lemma_groups_after_single(runs: Seq<Vec<Finding>>, tolerance: usize, i: int)
    requires
        0 <= i <= runs.len(),
        runs.len() <= usize::MAX,
        runs_disagree(runs, tolerance),
    ensures
        groups_single(groups_after(runs, tolerance, i), runs, i - 1),
    decreases i,
{
    if i > 0 {
        lemma_groups_after_single(runs, tolerance, i - 1);
        let gs = groups_after(runs, tolerance, i - 1);
        assert(groups_single(gs, runs, i - 1)) by {
            assert forall|q: int| 0 <= q < gs.len() implies #[trigger] gs[q].run_count == 1 && gs[q].last_seen_run is Some
                && 0 <= gs[q].last_seen_run.unwrap() <= i - 1 by {
                assert(groups_single(gs, runs, i - 2));
            }
        }
        lemma_groups_in_run_single(gs, runs, (i - 1) as usize, tolerance, runs[i - 1]@.len() as int);
    }
}

/// Agreement needs several runs to report the same issue: when no run
/// reports a finding within the line tolerance of another run's finding in
/// the same file and category, every group is seen in one run only, and
/// with a threshold of two or more no finding is accepted.
pub proof fn law_disagreeing_runs_accept_nothing(runs: Seq<Vec<Finding>>, threshold: usize, tolerance: usize)
    requires
        runs.len() <= usize::MAX,
        threshold >= 2,
        runs_disagree(runs, tolerance),
    ensures
        aggregate_spec(runs, threshold, tolerance).len() == 0,
        forall|q: int| 0 <= q < groups_after(runs, tolerance, runs.len() as int).len() ==> (#[trigger] groups_after(
            runs,
            tolerance,
            runs.len() as int,
        )[q]).run_count == 1,
{
    lemma_groups_after_single(runs, tolerance, runs.len() as int);
    let gs = groups_after(runs, tolerance, runs.len() as int);
    let p = |g: FindingGroup| g.run_count >= threshold;
    if gs.filter(p).len() > 0 {
        gs.lemma_filter_pred(p, 0);
        gs.lemma_filter_contains_rev(p, gs.filter(p)[0]);
        let q = choose|q: int| 0 <= q < gs.len() && gs[q] == gs.filter(p)[0];
        assert(gs[q].run_count == 1);
    }
}

} // verus!
