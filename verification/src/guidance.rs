//! Guidance for the next review run, drawn from recent evaluation records:
//! trend lines chosen from the metric trends, and the fixtures whose false
//! positives or misses keep coming back.
use vstd::prelude::*;
use crate::decimal::{decimal, usize_to_string};
use crate::eval::FixtureRecord;
use crate::sorted::{char_vecs, string_views};
use crate::split::{join_chars, join_spec, views};
use crate::text::{append_chars, append_str, string_of};

verus! {

/// Records needed before trends are read.
pub const MIN_RECORDS_FOR_TREND: usize = 2;

/// Runs of a fixture needed before its pattern counts as persistent.
pub const MIN_RUNS_FOR_PATTERN: usize = 3;

/// Fixture names listed in one guidance line at most.
pub const MAX_FIXTURE_NAMES_IN_GUIDANCE: usize = 3;

pub const GUIDANCE_HEADER: &'static str = "## Recent Evaluation Feedback\n\nBased on analysis of recent evaluation runs, adjust your review approach:";

pub const GUIDANCE_PRECISION_DECLINED: &'static str = "- Precision has declined recently. Be more conservative — only report findings with clear, concrete evidence and user-visible impact. When in doubt, stay quiet.";

pub const GUIDANCE_PRECISION_STRONG: &'static str = "- Precision is strong and trending up. Maintain this level of rigor.";

pub const GUIDANCE_RECALL_DECLINED: &'static str = "- Recall has declined — findings are being missed. Be more thorough, especially around error handling, resource management, and edge cases.";

pub const GUIDANCE_RECALL_STRONG: &'static str = "- Recall is strong and trending up.";

pub const GUIDANCE_NOISE_RISING: &'static str = "- Noise rate (false positives) is rising. Avoid flagging speculative issues, code style, or patterns that don't have a clear behavioral impact.";

pub const PERSISTENT_FP_INTRO: &'static str = "- The following fixtures have produced persistent false positives: ";

pub const PERSISTENT_FP_OUTRO: &'static str = ". These are likely clean or stylistic changes. Only report findings if you identify a clear bug with concrete evidence.";

pub const PERSISTENT_FN_INTRO: &'static str = "- The following fixtures have had findings missed in recent runs: ";

pub const PERSISTENT_FN_OUTRO: &'static str = ". Pay close attention to these patterns — they contain real bugs.";

/// Guidance text for the system prompt; empty when there is none.
#[derive(Debug)]
pub struct EvalGuidance {
    pub prompt_augmentation: String,
}

/// Which trend lines apply, read from the metric trends of the recent
/// records (newest minus oldest) against their thresholds.
#[derive(Debug, Clone, Copy)]
pub struct TrendSignals {
    pub precision_declined: bool,
    pub precision_strong: bool,
    pub recall_declined: bool,
    pub recall_strong: bool,
    pub noise_rising: bool,
}

/// All fixture entries of the recent records, in order.
pub open spec fn flat_entries(recent: Seq<Vec<FixtureRecord>>) -> Seq<FixtureRecord>
    decreases recent.len(),
{
    if recent.len() == 0 {
        Seq::empty()
    } else {
        flat_entries(recent.drop_last()) + recent.last()@
    }
}

/// How often a fixture ran, and its false positives and misses added up.
pub open spec fn tally(es: Seq<FixtureRecord>, name: Seq<char>) -> (nat, nat, nat)
    decreases es.len(),
{
    if es.len() == 0 {
        (0, 0, 0)
    } else {
        let t = tally(es.drop_last(), name);
        let e = es.last();
        if e.name@ == name {
            (t.0 + 1, t.1 + e.fp as nat, t.2 + e.fn_count as nat)
        } else {
            t
        }
    }
}

/// The false positives and misses of all entries added up.
pub open spec fn totals(es: Seq<FixtureRecord>) -> (nat, nat)
    decreases es.len(),
{
    if es.len() == 0 {
        (0, 0)
    } else {
        let t = totals(es.drop_last());
        (t.0 + es.last().fp as nat, t.1 + es.last().fn_count as nat)
    }
}

/// The fixture names in the order they first appear.
pub open spec fn names_upto(es: Seq<FixtureRecord>, k: int) -> Seq<Seq<char>>
    decreases k,
{
    if k <= 0 {
        Seq::empty()
    } else {
        let p = names_upto(es, k - 1);
        if p.contains(es[k - 1].name@) {
            p
        } else {
            p.push(es[k - 1].name@)
        }
    }
}

/// A fixture's issue is persistent when it ran often enough and the issue
/// count is above three fifths of its runs.
pub open spec fn persistent(runs: nat, count: nat) -> bool {
    runs >= MIN_RUNS_FOR_PATTERN && 5 * count > 3 * runs
}

/// The fixtures with persistent false positives (`fp`) or misses (`!fp`).
pub open spec fn persistent_names(es: Seq<FixtureRecord>, fp: bool) -> Seq<Seq<char>> {
    names_upto(es, es.len() as int).filter(
        |n: Seq<char>|
            {
                let t = tally(es, n);
                persistent(t.0, if fp { t.1 } else { t.2 })
            },
    )
}

/// The guidance line naming persistent fixtures: at most three names, and
/// how many more there are.
pub open spec fn names_line_spec(intro: Seq<char>, names: Seq<Seq<char>>, outro: Seq<char>) -> Seq<char> {
    let shown = if names.len() > MAX_FIXTURE_NAMES_IN_GUIDANCE {
        names.take(MAX_FIXTURE_NAMES_IN_GUIDANCE as int)
    } else {
        names
    };
    intro + join_spec(shown, ", "@) + (if names.len() > MAX_FIXTURE_NAMES_IN_GUIDANCE {
        " and "@ + decimal((names.len() - MAX_FIXTURE_NAMES_IN_GUIDANCE) as nat) + " more"@
    } else {
        Seq::empty()
    }) + outro
}

/// The lines about persistent fixtures.
pub open spec fn pattern_lines(es: Seq<FixtureRecord>) -> Seq<Seq<char>> {
    let fps = persistent_names(es, true);
    let fns = persistent_names(es, false);
    (if fps.len() > 0 {
        seq![names_line_spec(PERSISTENT_FP_INTRO@, fps, PERSISTENT_FP_OUTRO@)]
    } else {
        Seq::empty()
    }) + (if fns.len() > 0 {
        seq![names_line_spec(PERSISTENT_FN_INTRO@, fns, PERSISTENT_FN_OUTRO@)]
    } else {
        Seq::empty()
    })
}

/// The fixture-pattern guidance of the recent records.
pub open spec fn pattern_guidance_spec(recent: Seq<Vec<FixtureRecord>>) -> Seq<char> {
    join_spec(pattern_lines(flat_entries(recent)), "\n"@)
}

/// The false positives and misses of the recent records fit in a machine
/// word.
pub open spec fn tallies_fit(recent: Seq<Vec<FixtureRecord>>) -> bool {
    let t = totals(flat_entries(recent));
    t.0 <= usize::MAX && t.1 <= usize::MAX
}

proof fn lemma_tally_bounded(es: Seq<FixtureRecord>, name: Seq<char>)
    ensures
        tally(es, name).0 <= es.len(),
        tally(es, name).1 <= totals(es).0,
        tally(es, name).2 <= totals(es).1,
    decreases es.len(),
{
    if es.len() > 0 {
        lemma_tally_bounded(es.drop_last(), name);
    }
}

proof fn lemma_totals_prefix(es: Seq<FixtureRecord>, k: int)
    requires
        0 <= k <= es.len(),
    ensures
        totals(es.take(k)).0 <= totals(es).0,
        totals(es.take(k)).1 <= totals(es).1,
    decreases es.len() - k,
{
    if k < es.len() {
        lemma_totals_prefix(es, k + 1);
        assert(es.take(k + 1).drop_last() =~= es.take(k));
    } else {
        assert(es.take(k) =~= es);
    }
}

proof fn lemma_names_upto_distinct(es: Seq<FixtureRecord>, k: int)
    requires
        0 <= k <= es.len(),
    ensures
        names_upto(es, k).no_duplicates(),
        forall|n: Seq<char>| #[trigger] names_upto(es, k).contains(n) <==> exists|i: int| 0 <= i < k && es[i].name@ == n,
    decreases k,
{
    if k > 0 {
        lemma_names_upto_distinct(es, k - 1);
        let p = names_upto(es, k - 1);
        let x = es[k - 1].name@;
        let q = p.push(x);
        assert forall|n: Seq<char>| #[trigger] names_upto(es, k).contains(n) <==> exists|i: int| 0 <= i < k && es[i].name@ == n by {
            if exists|i: int| 0 <= i < k && es[i].name@ == n {
                let i = choose|i: int| 0 <= i < k && es[i].name@ == n;
                if i < k - 1 {
                    assert(p.contains(n));
                    if !p.contains(x) {
                        let j = choose|j: int| 0 <= j < p.len() && #[trigger] p[j] == n;
                        assert(q[j] == n);
                    }
                } else if !p.contains(x) {
                    assert(q[p.len() as int] == n);
                }
            }
            if names_upto(es, k).contains(n) && !p.contains(x) {
                let j = choose|j: int| 0 <= j < q.len() && #[trigger] q[j] == n;
                if j < p.len() {
                    assert(p[j] == n);
                    assert(p.contains(n));
                }
            }
        }
    }
}

/// Flattens the fixture entries of the records.
fn flatten_records(recent: &[Vec<FixtureRecord>]) -> (r: Vec<FixtureRecord>)
    ensures
        r@ == flat_entries(recent@),
{
    let mut r: Vec<FixtureRecord> = Vec::new();
    let mut i: usize = 0;
    while i < recent.len()
        invariant
            i <= recent@.len(),
            r@ == flat_entries(recent@.take(i as int)),
        decreases recent@.len() - i,
    {
        let ghost before = r@;
        let mut j: usize = 0;
        while j < recent[i].len()
            invariant
                i < recent@.len(),
                j <= recent@[i as int]@.len(),
                r@ == before + recent@[i as int]@.take(j as int),
            decreases recent@[i as int]@.len() - j,
        {
            let e = &recent[i][j];
            r.push(FixtureRecord {
                name: e.name.clone(),
                expected: e.expected,
                actual: e.actual,
                tp: e.tp,
                fp: e.fp,
                fn_count: e.fn_count,
            });
            j = j + 1;
            assert(r@ =~= before + recent@[i as int]@.take(j as int));
        }
        assert(recent@.take(i as int + 1).drop_last() =~= recent@.take(i as int));
        assert(recent@[i as int]@.take(j as int) =~= recent@[i as int]@);
        i = i + 1;
    }
    assert(recent@.take(recent@.len() as int) =~= recent@);
    r
}


/// One fixture's runs, false positives and misses over the recent records.
struct FixtureTally {
    name: String,
    runs: usize,
    fp: usize,
    fn_count: usize,
}

spec fn tally_is(t: FixtureTally, x: (nat, nat, nat)) -> bool {
    t.runs == x.0 && t.fp == x.1 && t.fn_count == x.2
}

spec fn tally_names(ts: Seq<FixtureTally>) -> Seq<Seq<char>> {
    ts.map_values(|t: FixtureTally| t.name@)
}

proof fn lemma_tally_step(es: Seq<FixtureRecord>, k: int, n: Seq<char>)
    requires
        0 <= k < es.len(),
    ensures
        tally(es.take(k + 1), n) == {
            let t = tally(es.take(k), n);
            if es[k].name@ == n {
                (t.0 + 1, t.1 + es[k].fp as nat, t.2 + es[k].fn_count as nat)
            } else {
                t
            }
        },
        totals(es.take(k + 1)) == (totals(es.take(k)).0 + es[k].fp as nat, totals(es.take(k)).1 + es[k].fn_count as nat),
{
    assert(es.take(k + 1).drop_last() =~= es.take(k));
}

proof fn lemma_tally_absent(es: Seq<FixtureRecord>, n: Seq<char>)
    requires
        forall|i: int| 0 <= i < es.len() ==> es[i].name@ != n,
    ensures
        tally(es, n) == (0nat, 0nat, 0nat),
    decreases es.len(),
{
    if es.len() > 0 {
        lemma_tally_absent(es.drop_last(), n);
    }
}

fn find_tally(ts: &Vec<FixtureTally>, name: &String) -> (r: Option<usize>)
    ensures
        match r {
            Some(j) => j < ts@.len() && ts@[j as int].name@ == name@,
            None => forall|j: int| 0 <= j < ts@.len() ==> ts@[j].name@ != name@,
        },
{
    let mut j: usize = 0;
    while j < ts.len()
        invariant
            j <= ts@.len(),
            forall|i: int| 0 <= i < j ==> ts@[i].name@ != name@,
        decreases ts@.len() - j,
    {
        if ts[j].name == *name {
            return Some(j);
        }
        j = j + 1;
    }
    None
}

/// Counts, per fixture name in first-appearance order, its runs, false
/// positives and misses.
fn tally_fixtures(es: &Vec<FixtureRecord>) -> (r: Vec<FixtureTally>)
    requires
        totals(es@).0 <= usize::MAX,
        totals(es@).1 <= usize::MAX,
    ensures
        tally_names(r@) == names_upto(es@, es@.len() as int),
        forall|i: int| 0 <= i < r@.len() ==> tally_is(#[trigger] r@[i], tally(es@, r@[i].name@)),
{
    let mut r: Vec<FixtureTally> = Vec::new();
    let mut k: usize = 0;
    while k < es.len()
        invariant
            k <= es@.len(),
            totals(es@).0 <= usize::MAX,
            totals(es@).1 <= usize::MAX,
            tally_names(r@) == names_upto(es@, k as int),
            forall|i: int| 0 <= i < r@.len() ==> tally_is(#[trigger] r@[i], tally(es@.take(k as int), r@[i].name@)),
        decreases es@.len() - k,
    {
        let e = &es[k];
        proof {
            lemma_names_upto_distinct(es@, k as int);
            lemma_totals_prefix(es@, k as int + 1);
            lemma_tally_step(es@, k as int, e.name@);
            lemma_tally_bounded(es@.take(k as int + 1), e.name@);
            assert forall|n: Seq<char>| n != e.name@ implies tally(es@.take(k + 1), n) == tally(es@.take(k as int), n) by {
                lemma_tally_step(es@, k as int, n);
            }
        }
        let ghost old_r = r@;
        match find_tally(&r, &e.name) {
            Some(j) => {
                proof {
                    assert(tally_names(r@)[j as int] == e.name@);
                    assert(names_upto(es@, k as int).contains(e.name@));
                    lemma_tally_bounded(es@.take(k as int), e.name@);
                }
                let t = FixtureTally {
                    name: r[j].name.clone(),
                    runs: r[j].runs + 1,
                    fp: r[j].fp + e.fp,
                    fn_count: r[j].fn_count + e.fn_count,
                };
                r.set(j, t);
                proof {
                    assert(tally_names(r@) =~= tally_names(old_r));
                    assert forall|i: int| 0 <= i < r@.len() implies tally_is(#[trigger] r@[i], tally(es@.take(k + 1), r@[i].name@)) by {
                        if i != j {
                            assert(old_r[i].name@ != e.name@) by {
                                assert(names_upto(es@, k as int).no_duplicates());
                                assert(tally_names(old_r)[i] == old_r[i].name@);
                                assert(tally_names(old_r)[j as int] == old_r[j as int].name@);
                            }
                        }
                    }
                }
            },
            None => {
                proof {
                    assert(!names_upto(es@, k as int).contains(e.name@)) by {
                        if names_upto(es@, k as int).contains(e.name@) {
                            let j = choose|j: int| 0 <= j < names_upto(es@, k as int).len() && names_upto(es@, k as int)[j] == e.name@;
                            assert(tally_names(r@)[j] == r@[j].name@);
                        }
                    }
                    assert forall|i: int| 0 <= i < es@.take(k as int).len() implies es@.take(k as int)[i].name@ != e.name@ by {
                        assert(es@.take(k as int)[i] == es@[i]);
                    }
                    lemma_tally_absent(es@.take(k as int), e.name@);
                }
                r.push(FixtureTally { name: e.name.clone(), runs: 1, fp: e.fp, fn_count: e.fn_count });
                proof {
                    assert(tally_names(r@) =~= tally_names(old_r).push(e.name@));
                    assert forall|i: int| 0 <= i < r@.len() implies tally_is(#[trigger] r@[i], tally(es@.take(k + 1), r@[i].name@)) by {
                        if i < old_r.len() {
                            assert(r@[i] == old_r[i]);
                            assert(tally_names(old_r)[i] == old_r[i].name@);
                        }
                    }
                }
            },
        }
        k = k + 1;
    }
    assert(es@.take(es@.len() as int) =~= es@);
    r
}

/// The names of the tallied fixtures whose false positives (`fp`) or
/// misses (`!fp`) persist.
fn persistent_fixture_names(ts: &Vec<FixtureTally>, fp: bool, Ghost(es): Ghost<Seq<FixtureRecord>>) -> (r: Vec<String>)
    requires
        tally_names(ts@) == names_upto(es, es.len() as int),
        forall|i: int| 0 <= i < ts@.len() ==> tally_is(#[trigger] ts@[i], tally(es, ts@[i].name@)),
    ensures
        string_views(r@) == persistent_names(es, fp),
{
    let ghost ns = names_upto(es, es.len() as int);
    let ghost pred = |n: Seq<char>| {
        let t = tally(es, n);
        persistent(t.0, if fp { t.1 } else { t.2 })
    };
    let mut r: Vec<String> = Vec::new();
    let mut i: usize = 0;
    while i < ts.len()
        invariant
            i <= ts@.len(),
            ns == names_upto(es, es.len() as int),
            tally_names(ts@) == ns,
            forall|j: int| 0 <= j < ts@.len() ==> tally_is(#[trigger] ts@[j], tally(es, ts@[j].name@)),
            pred == (|n: Seq<char>| {
                let t = tally(es, n);
                persistent(t.0, if fp { t.1 } else { t.2 })
            }),
            string_views(r@) == ns.take(i as int).filter(pred),
        decreases ts@.len() - i,
    {
        proof {
            reveal(Seq::filter);
            assert(ns.take(i + 1).drop_last() =~= ns.take(i as int));
            assert(tally_names(ts@)[i as int] == ts@[i as int].name@);
        }
        let t = &ts[i];
        let count: usize = if fp { t.fp } else { t.fn_count };
        if t.runs >= MIN_RUNS_FOR_PATTERN && (count as u128) * 5 > (t.runs as u128) * 3 {
            let ghost before = r@;
            r.push(t.name.clone());
            assert(string_views(r@) =~= string_views(before).push(t.name@));
        }
        i = i + 1;
    }
    assert(ns.take(ns.len() as int) =~= ns);
    r
}

/// The guidance line about persistent fixtures.
fn names_line(intro: &str, names: &Vec<String>, outro: &str) -> (r: String)
    ensures
        r@ == names_line_spec(intro@, string_views(names@), outro@),
{
    let mut shown: Vec<String> = Vec::new();
    let limit: usize = if names.len() > MAX_FIXTURE_NAMES_IN_GUIDANCE { MAX_FIXTURE_NAMES_IN_GUIDANCE } else { names.len() };
    let mut i: usize = 0;
    while i < limit
        invariant
            i <= limit,
            limit <= names@.len(),
            string_views(shown@) == string_views(names@).take(i as int),
        decreases limit - i,
    {
        let ghost before = shown@;
        shown.push(names[i].clone());
        assert(string_views(shown@) =~= string_views(before).push(names@[i as int]@));
        i = i + 1;
        assert(string_views(shown@) =~= string_views(names@).take(i as int));
    }
    proof {
        if names@.len() <= MAX_FIXTURE_NAMES_IN_GUIDANCE {
            assert(string_views(names@).take(limit as int) =~= string_views(names@));
        }
    }
    let cv = char_vecs(&shown);
    let sep: Vec<char> = vec![',', ' '];
    assert(sep@ =~= ", "@) by {
        reveal_strlit(", ");
    }
    let joined = join_chars(&cv, sep.as_slice());
    let mut r = String::from_str(intro);
    append_chars(&mut r, joined.as_slice());
    if names.len() > MAX_FIXTURE_NAMES_IN_GUIDANCE {
        append_str(&mut r, " and ");
        let more = usize_to_string(names.len() - MAX_FIXTURE_NAMES_IN_GUIDANCE);
        append_str(&mut r, more.as_str());
        append_str(&mut r, " more");
    }
    append_str(&mut r, outro);
    assert(r@ =~= names_line_spec(intro@, string_views(names@), outro@));
    r
}

fn push_line(lines: &mut Vec<String>, line: String)
    ensures
        string_views(final(lines)@) == string_views(old(lines)@).push(line@),
{
    lines.push(line);
    assert(string_views(lines@) =~= string_views(old(lines)@).push(line@));
}

/// Joins lines with newlines.
fn join_lines(lines: &Vec<String>) -> (r: String)
    ensures
        r@ == join_spec(string_views(lines@), "\n"@),
{
    let cv = char_vecs(lines);
    let sep: Vec<char> = vec!['\n'];
    assert(sep@ =~= "\n"@) by {
        reveal_strlit("\n");
    }
    let joined = join_chars(&cv, sep.as_slice());
    string_of(joined.as_slice())
}

/// The lines about persistent fixtures.
fn fixture_pattern_lines(recent: &[Vec<FixtureRecord>]) -> (r: Vec<String>)
    requires
        tallies_fit(recent@),
    ensures
        string_views(r@) == pattern_lines(flat_entries(recent@)),
{
    let es = flatten_records(recent);
    let ts = tally_fixtures(&es);
    let fps = persistent_fixture_names(&ts, true, Ghost(es@));
    let fns = persistent_fixture_names(&ts, false, Ghost(es@));
    let mut lines: Vec<String> = Vec::new();
    if fps.len() > 0 {
        lines.push(names_line(PERSISTENT_FP_INTRO, &fps, PERSISTENT_FP_OUTRO));
    }
    let ghost mid = lines@;
    if fns.len() > 0 {
        lines.push(names_line(PERSISTENT_FN_INTRO, &fns, PERSISTENT_FN_OUTRO));
    }
    assert(string_views(lines@) =~= pattern_lines(flat_entries(recent@)));
    lines
}

/// The guidance about fixtures whose false positives or misses persist
/// over the recent records: one line for each kind that has any, naming
/// up to three fixtures in the order they first appear.
pub fn fixture_pattern_guidance(recent: &[Vec<FixtureRecord>]) -> (g: EvalGuidance)
    requires
        tallies_fit(recent@),
    ensures
        g.prompt_augmentation@ == pattern_guidance_spec(recent@),
{
    let lines = fixture_pattern_lines(recent);
    EvalGuidance { prompt_augmentation: join_lines(&lines) }
}

/// The trend lines that apply.
pub open spec fn trend_lines(s: TrendSignals) -> Seq<Seq<char>> {
    (if s.precision_declined { seq![GUIDANCE_PRECISION_DECLINED@] } else { Seq::empty() })
        + (if s.precision_strong { seq![GUIDANCE_PRECISION_STRONG@] } else { Seq::empty() })
        + (if s.recall_declined { seq![GUIDANCE_RECALL_DECLINED@] } else { Seq::empty() })
        + (if s.recall_strong { seq![GUIDANCE_RECALL_STRONG@] } else { Seq::empty() })
        + (if s.noise_rising { seq![GUIDANCE_NOISE_RISING@] } else { Seq::empty() })
}

/// The guidance drawn from the recent records: none without records; only
/// the fixture patterns below the trend minimum; otherwise a header, the
/// trend lines and the fixture patterns, or nothing when only the header
/// would remain.
pub open spec fn history_guidance_spec(recent: Seq<Vec<FixtureRecord>>, s: TrendSignals) -> Seq<char> {
    if recent.len() == 0 {
        Seq::empty()
    } else if recent.len() < MIN_RECORDS_FOR_TREND {
        pattern_guidance_spec(recent)
    } else {
        let p = pattern_guidance_spec(recent);
        let lines = seq![GUIDANCE_HEADER@] + trend_lines(s) + (if p.len() > 0 { seq![p] } else { Seq::empty() });
        if lines.len() > 1 {
            join_spec(lines, "\n"@)
        } else {
            Seq::empty()
        }
    }
}

/// Guidance for the next run from the recent records, newest first, and
/// the trend lines that their metrics call for.
pub fn analyze_history(recent: &[Vec<FixtureRecord>], signals: TrendSignals) -> (g: EvalGuidance)
    requires
        tallies_fit(recent@),
    ensures
        g.prompt_augmentation@ == history_guidance_spec(recent@, signals),
{
    if recent.len() == 0 {
        return EvalGuidance { prompt_augmentation: String::new() };
    }
    if recent.len() < MIN_RECORDS_FOR_TREND {
        return fixture_pattern_guidance(recent);
    }
    let mut lines: Vec<String> = Vec::new();
    push_line(&mut lines, String::from_str(GUIDANCE_HEADER));
    let ghost t = seq![GUIDANCE_HEADER@];
    assert(string_views(lines@) =~= t);
    if signals.precision_declined {
        push_line(&mut lines, String::from_str(GUIDANCE_PRECISION_DECLINED));
    }
    let ghost t1 = t + (if signals.precision_declined { seq![GUIDANCE_PRECISION_DECLINED@] } else { Seq::empty() });
    assert(string_views(lines@) =~= t1);
    if signals.precision_strong {
        push_line(&mut lines, String::from_str(GUIDANCE_PRECISION_STRONG));
    }
    let ghost t2 = t1 + (if signals.precision_strong { seq![GUIDANCE_PRECISION_STRONG@] } else { Seq::empty() });
    assert(string_views(lines@) =~= t2);
    if signals.recall_declined {
        push_line(&mut lines, String::from_str(GUIDANCE_RECALL_DECLINED));
    }
    let ghost t3 = t2 + (if signals.recall_declined { seq![GUIDANCE_RECALL_DECLINED@] } else { Seq::empty() });
    assert(string_views(lines@) =~= t3);
    if signals.recall_strong {
        push_line(&mut lines, String::from_str(GUIDANCE_RECALL_STRONG));
    }
    let ghost t4 = t3 + (if signals.recall_strong { seq![GUIDANCE_RECALL_STRONG@] } else { Seq::empty() });
    assert(string_views(lines@) =~= t4);
    if signals.noise_rising {
        push_line(&mut lines, String::from_str(GUIDANCE_NOISE_RISING));
    }
    let ghost t5 = t4 + (if signals.noise_rising { seq![GUIDANCE_NOISE_RISING@] } else { Seq::empty() });
    assert(string_views(lines@) =~= t5);
    assert(t5 =~= seq![GUIDANCE_HEADER@] + trend_lines(signals));
    let patterns = fixture_pattern_guidance(recent);
    if !patterns.prompt_augmentation.as_str().is_empty() {
        push_line(&mut lines, patterns.prompt_augmentation);
    }
    let ghost p = pattern_guidance_spec(recent@);
    assert(string_views(lines@) =~= seq![GUIDANCE_HEADER@] + trend_lines(signals) + (if p.len() > 0 { seq![p] } else { Seq::empty() }));
    if lines.len() > 1 {
        EvalGuidance { prompt_augmentation: join_lines(&lines) }
    } else {
        EvalGuidance { prompt_augmentation: String::new() }
    }
}


/// Only fixtures that ran at least three times, with their issue in more
/// than three fifths of the runs, are named as persistent.
pub proof fn law_persistent_fixtures_ran_often(es: Seq<FixtureRecord>, fp: bool, k: int)
    requires
        0 <= k < persistent_names(es, fp).len(),
    ensures
        tally(es, persistent_names(es, fp)[k]).0 >= MIN_RUNS_FOR_PATTERN,
        ({
            let t = tally(es, persistent_names(es, fp)[k]);
            5 * (if fp { t.1 } else { t.2 }) > 3 * t.0
        }),
{
    let pred = |n: Seq<char>| {
        let t = tally(es, n);
        persistent(t.0, if fp { t.1 } else { t.2 })
    };
    names_upto(es, es.len() as int).lemma_filter_pred(pred, k);
}

} // verus!
