//! Assembling the review context within a token budget: which changed
//! files are shown in full, as summaries or as placeholders, and which
//! related files fit.
use vstd::prelude::*;
use crate::integrity::any_pattern_in;
use crate::split::{lines, lines_spec, views};
use crate::text::{chars_of, occurs_at, string_of};
use crate::types::{
    BudgetReport, ChangeMetadata, ContentTier, ContextFile, ContextPackage, FileView, Omission,
    file_view, opt_view,
};
use crate::verify::{byte_len, prefix_byte_len};

verus! {

/// Characters of text per estimated token.
pub const TOKENS_PER_CHAR_RATIO: usize = 3;

/// The estimated token count of a text: its UTF-8 length divided by three
/// (saturating at the largest `usize`).
pub open spec fn token_count(s: Seq<char>) -> nat {
    let t = byte_len(s) / 3;
    if t <= usize::MAX {
        t
    } else {
        usize::MAX as nat
    }
}

/// Estimates the tokens of a character text.
pub fn estimate_tokens_chars(cs: &[char]) -> (t: usize)
    ensures
        t == token_count(cs@),
{
    let n = prefix_byte_len(cs, cs.len());
    assert(cs@.take(cs@.len() as int) =~= cs@);
    let q = n / 3;
    if q > usize::MAX as u128 {
        usize::MAX
    } else {
        q as usize
    }
}

/// Conservative token estimate for code: about three bytes per token.
pub fn estimate_tokens(text: &str) -> (t: usize)
    ensures
        t == token_count(text@),
{
    let cs = chars_of(text);
    estimate_tokens_chars(cs.as_slice())
}

/// Adds without overflow, stopping at the largest `usize`.
pub open spec fn sat_add(a: nat, b: nat) -> nat {
    if a + b <= usize::MAX {
        a + b
    } else {
        usize::MAX as nat
    }
}

/// Subtracts, stopping at zero.
pub open spec fn sat_sub(a: nat, b: nat) -> nat {
    if a >= b {
        (a - b) as nat
    } else {
        0
    }
}

// ---------------------------------------------------------------------------
// Files that are never reviewed in full
// ---------------------------------------------------------------------------

/// Lock files and other generated files.
pub const NON_REVIEWABLE_FILES: [&'static str; 9] = [
    "pnpm-lock.yaml",
    "package-lock.json",
    "yarn.lock",
    "Cargo.lock",
    "Gemfile.lock",
    "poetry.lock",
    "composer.lock",
    "go.sum",
    "flake.lock",
];

/// Extensions of generated files.
pub const NON_REVIEWABLE_EXTENSIONS: [&'static str; 4] = [".lock", ".min.js", ".min.css", ".bundle.js"];

/// The last `/`-separated component of a path.
pub open spec fn file_name(p: Seq<char>) -> Seq<char> {
    if exists|i: int| 0 <= i < p.len() && p[i] == '/' {
        let i = choose|i: int| 0 <= i < p.len() && p[i] == '/' && forall|j: int| i < j < p.len() ==> p[j] != '/';
        p.subrange(i + 1, p.len() as int)
    } else {
        p
    }
}

/// `s` ends with `suffix`.
pub open spec fn ends_with(s: Seq<char>, suffix: Seq<char>) -> bool {
    suffix.len() <= s.len() && occurs_at(s, suffix, s.len() - suffix.len())
}

/// A file whose content never goes into a prompt: a known lock file, or a
/// name with a generated-file extension.
pub open spec fn non_reviewable_spec(path: Seq<char>) -> bool {
    let name = file_name(path);
    (exists|k: int| 0 <= k < NON_REVIEWABLE_FILES@.len() && NON_REVIEWABLE_FILES@[k]@ == name)
        || (exists|k: int| 0 <= k < NON_REVIEWABLE_EXTENSIONS@.len() && ends_with(name, #[trigger] NON_REVIEWABLE_EXTENSIONS@[k]@))
}

/// Whether a file's content is left out of review prompts.
pub fn is_non_reviewable(path: &str) -> (b: bool)
    ensures
        b == non_reviewable_spec(path@),
{
    let p = chars_of(path);
    let name = match crate::parser::rfind_char(p.as_slice(), '/') {
        Some(i) => {
            proof {
                let w = choose|w: int| 0 <= w < p@.len() && p@[w] == '/' && forall|j: int| w < j < p@.len() ==> p@[j] != '/';
                if w < i {
                    assert(p@[i as int] != '/');
                } else if w > i {
                    assert(p@[w] != '/');
                }
            }
            assert(p@.len() == p.len());
            crate::split::copy_range(p.as_slice(), i + 1, p.len())
        },
        None => p,
    };
    assert(name@ == file_name(path@));
    let mut k: usize = 0;
    while k < NON_REVIEWABLE_FILES.len()
        invariant
            name@ == file_name(path@),
            k <= NON_REVIEWABLE_FILES@.len(),
            forall|j: int| 0 <= j < k ==> NON_REVIEWABLE_FILES@[j]@ != name@,
        decreases NON_REVIEWABLE_FILES@.len() - k,
    {
        let f = chars_of(NON_REVIEWABLE_FILES[k]);
        if crate::sorted::chars_eq(f.as_slice(), name.as_slice()) {
            assert(NON_REVIEWABLE_FILES@[k as int]@ == name@);
            return true;
        }
        k = k + 1;
    }
    let mut k: usize = 0;
    while k < NON_REVIEWABLE_EXTENSIONS.len()
        invariant
            name@ == file_name(path@),
            forall|j: int| 0 <= j < NON_REVIEWABLE_FILES@.len() ==> NON_REVIEWABLE_FILES@[j]@ != name@,
            k <= NON_REVIEWABLE_EXTENSIONS@.len(),
            forall|j: int| 0 <= j < k ==> !ends_with(name@, #[trigger] NON_REVIEWABLE_EXTENSIONS@[j]@),
        decreases NON_REVIEWABLE_EXTENSIONS@.len() - k,
    {
        let e = chars_of(NON_REVIEWABLE_EXTENSIONS[k]);
        if e.len() <= name.len() && crate::text::matches_at(name.as_slice(), e.as_slice(), name.len() - e.len()) {
            assert(ends_with(name@, NON_REVIEWABLE_EXTENSIONS@[k as int]@));
            return true;
        }
        k = k + 1;
    }
    false
}

// ---------------------------------------------------------------------------
// Hunks per file
// ---------------------------------------------------------------------------

/// The path a `+++` line names (`+++ b/`, `+++ a/` or `+++ ` stripped).
pub open spec fn plus_path(line: Seq<char>) -> Option<Seq<char>> {
    if occurs_at(line, "+++ b/"@, 0) {
        Some(line.subrange(6, line.len() as int))
    } else if occurs_at(line, "+++ a/"@, 0) {
        Some(line.subrange(6, line.len() as int))
    } else if occurs_at(line, "+++ "@, 0) {
        Some(line.subrange(4, line.len() as int))
    } else {
        None
    }
}

/// Scanning lines `0..k`: the file being read and the hunks counted so far.
pub open spec fn hunk_scan(ls: Seq<Seq<char>>, k: int) -> (Option<Seq<char>>, Map<Seq<char>, nat>)
    decreases k,
{
    if k <= 0 {
        (None, Map::empty())
    } else {
        let (cur, counts) = hunk_scan(ls, k - 1);
        let line = ls[k - 1];
        match plus_path(line) {
            Some(p) => if p != "/dev/null"@ {
                (Some(p), counts)
            } else {
                (cur, counts)
            },
            None => if occurs_at(line, "@@"@, 0) {
                match cur {
                    Some(f) => (cur, counts.insert(f, (if counts.contains_key(f) { counts[f] } else { 0 }) + 1)),
                    None => (cur, counts),
                }
            } else {
                (cur, counts)
            },
        }
    }
}

/// The number of hunks a diff has per file.
pub open spec fn hunk_counts_spec(diff: Seq<char>) -> Map<Seq<char>, nat> {
    hunk_scan(lines_spec(diff), lines_spec(diff).len() as int).1
}

/// A file and its number of hunks.
pub struct HunkCount {
    pub path: String,
    pub hunks: usize,
}

/// The map a list of hunk counts stands for.
pub open spec fn hunk_map(v: Seq<HunkCount>) -> Map<Seq<char>, nat>
    decreases v.len(),
{
    if v.len() == 0 {
        Map::empty()
    } else {
        hunk_map(v.drop_last()).insert(v.last().path@, v.last().hunks as nat)
    }
}

/// No path occurs twice.
pub open spec fn distinct_paths(v: Seq<HunkCount>) -> bool {
    forall|i: int, j: int| 0 <= i < j < v.len() ==> v[i].path@ != v[j].path@
}

proof fn lemma_hunk_map_update(v: Seq<HunkCount>, i: int, n: nat)
    requires
        0 <= i < v.len(),
        distinct_paths(v),
    ensures
        hunk_map(v.update(i, HunkCount { path: v[i].path, hunks: n as usize })) == hunk_map(v).insert(v[i].path@, n as usize as nat),
        distinct_paths(v.update(i, HunkCount { path: v[i].path, hunks: n as usize })),
    decreases v.len(),
{
    let w = v.update(i, HunkCount { path: v[i].path, hunks: n as usize });
    if i == v.len() - 1 {
        assert(w.drop_last() =~= v.drop_last());
        assert(hunk_map(w) =~= hunk_map(v).insert(v[i].path@, n as usize as nat)) by {
            assert(hunk_map(v) == hunk_map(v.drop_last()).insert(v.last().path@, v.last().hunks as nat));
        }
    } else {
        lemma_hunk_map_update(v.drop_last(), i, n);
        assert(w.drop_last() =~= v.drop_last().update(i, HunkCount { path: v[i].path, hunks: n as usize }));
        assert(v.last().path@ != v[i].path@);
        assert(hunk_map(w) =~= hunk_map(v).insert(v[i].path@, n as usize as nat));
    }
}

proof fn lemma_hunk_map_keys(v: Seq<HunkCount>)
    ensures
        forall|p: Seq<char>| hunk_map(v).contains_key(p) <==> exists|i: int| 0 <= i < v.len() && v[i].path@ == p,
        forall|i: int| 0 <= i < v.len() && distinct_paths(v) ==> hunk_map(v)[v[i].path@] == v[i].hunks as nat,
    decreases v.len(),
{
    if v.len() > 0 {
        lemma_hunk_map_keys(v.drop_last());
        assert forall|p: Seq<char>| hunk_map(v).contains_key(p) <==> exists|i: int| 0 <= i < v.len() && v[i].path@ == p by {
            let dl = v.drop_last();
            if hunk_map(v).contains_key(p) && p != v.last().path@ {
                assert(hunk_map(dl).contains_key(p));
                let j = choose|j: int| 0 <= j < dl.len() && dl[j].path@ == p;
                assert(dl[j] == v[j]);
                assert(v[j].path@ == p);
            }
            if hunk_map(v).contains_key(p) && p == v.last().path@ {
                assert(v[v.len() - 1].path@ == p);
            }
            if exists|i: int| 0 <= i < v.len() && v[i].path@ == p {
                let j = choose|j: int| 0 <= j < v.len() && v[j].path@ == p;
                if j < v.len() - 1 {
                    assert(dl[j].path@ == p);
                    assert(hunk_map(dl).contains_key(p));
                    assert(hunk_map(v).contains_key(p));
                } else {
                    assert(p == v.last().path@);
                }
            }
        }
        assert forall|i: int| 0 <= i < v.len() && distinct_paths(v) implies hunk_map(v)[v[i].path@] == v[i].hunks as nat by {
            if i < v.len() - 1 {
                assert(v.drop_last()[i] == v[i]);
                assert(distinct_paths(v.drop_last()));
            }
        }
    }
}

fn find_path(counts: &Vec<HunkCount>, f: &[char]) -> (r: Option<usize>)
    ensures
        match r {
            Some(i) => i < counts@.len() && counts@[i as int].path@ == f@,
            None => forall|j: int| 0 <= j < counts@.len() ==> counts@[j].path@ != f@,
        },
{
    let mut idx: usize = 0;
    while idx < counts.len()
        invariant
            idx <= counts@.len(),
            forall|j: int| 0 <= j < idx ==> counts@[j].path@ != f@,
        decreases counts@.len() - idx,
    {
        let pc = chars_of(counts[idx].path.as_str());
        if crate::sorted::chars_eq(pc.as_slice(), f) {
            return Some(idx);
        }
        idx = idx + 1;
    }
    None
}

/// Counts the hunks of a unified diff per new-side path. Lines `+++ b/p`,
/// `+++ a/p` and `+++ p` start file `p` (`/dev/null` starts none); each
/// `@@` line counts one hunk for the current file.
pub fn count_hunks_per_file(diff: &str) -> (r: Vec<HunkCount>)
    ensures
        distinct_paths(r@),
        hunk_map(r@) == hunk_counts_spec(diff@),
{
    let d = chars_of(diff);
    let ls = lines(d.as_slice());
    let b_prefix = chars_of("+++ b/");
    let a_prefix = chars_of("+++ a/");
    let plain_prefix = chars_of("+++ ");
    let null = chars_of("/dev/null");
    let at = chars_of("@@");
    proof {
        reveal_strlit("+++ b/");
        reveal_strlit("+++ a/");
        reveal_strlit("+++ ");
    }
    let mut counts: Vec<HunkCount> = Vec::new();
    let mut current: Option<Vec<char>> = None;
    let mut k: usize = 0;
    while k < ls.len()
        invariant
            k <= ls@.len(),
            views(ls@) == lines_spec(d@),
            d@ == diff@,
            b_prefix@ == "+++ b/"@,
            a_prefix@ == "+++ a/"@,
            plain_prefix@ == "+++ "@,
            b_prefix@.len() == 6,
            a_prefix@.len() == 6,
            plain_prefix@.len() == 4,
            null@ == "/dev/null"@,
            at@ == "@@"@,
            distinct_paths(counts@),
            hunk_map(counts@) == hunk_scan(views(ls@), k as int).1,
            (match current {
                Some(c) => hunk_scan(views(ls@), k as int).0 == Some(c@),
                None => hunk_scan(views(ls@), k as int).0 is None,
            }),
            forall|i: int| 0 <= i < counts@.len() ==> counts@[i].hunks <= k,
        decreases ls@.len() - k,
    {
        let line = &ls[k];
        assert(views(ls@)[k as int] == line@);
        let path: Option<Vec<char>> = if crate::text::starts_with(line.as_slice(), b_prefix.as_slice()) {
            Some(crate::split::copy_range(line.as_slice(), 6, line.len()))
        } else if crate::text::starts_with(line.as_slice(), a_prefix.as_slice()) {
            Some(crate::split::copy_range(line.as_slice(), 6, line.len()))
        } else if crate::text::starts_with(line.as_slice(), plain_prefix.as_slice()) {
            Some(crate::split::copy_range(line.as_slice(), 4, line.len()))
        } else {
            None
        };
        assert(match path { Some(p) => plus_path(line@) == Some(p@), None => plus_path(line@) is None });
        match path {
            Some(p) => {
                if !crate::sorted::chars_eq(p.as_slice(), null.as_slice()) {
                    current = Some(p);
                }
            },
            None => {
                if crate::text::starts_with(line.as_slice(), at.as_slice()) {
                    match &current {
                        Some(f) => {
                            let found_idx = find_path(&counts, f.as_slice());
                            proof {
                                lemma_hunk_map_keys(counts@);
                            }
                            if let Some(idx) = found_idx {
                                let n = counts[idx].hunks + 1;
                                let pth = counts[idx].path.clone();
                                proof {
                                    lemma_hunk_map_update(counts@, idx as int, n as nat);
                                }
                                counts.set(idx, HunkCount { path: pth, hunks: n });
                            } else {
                                let ghost old_c = counts@;
                                counts.push(HunkCount { path: string_of(f.as_slice()), hunks: 1 });
                                assert(counts@.drop_last() =~= old_c);
                                assert(!hunk_map(old_c).contains_key(f@));
                                assert(distinct_paths(counts@));
                            }
                        },
                        None => {},
                    }
                }
            },
        }
        k = k + 1;
    }
    counts
}

} // verus!

verus! {

// ---------------------------------------------------------------------------
// Ordering changed files: most hunks first, stable
// ---------------------------------------------------------------------------

/// Item `a` comes before item `b`: more hunks, or as many and earlier.
pub open spec fn hunk_before(keys: Seq<usize>, a: int, b: int) -> bool {
    keys[a] > keys[b] || (keys[a] == keys[b] && a < b)
}

/// `order` lists every index of `keys` once, most hunks first, ties in
/// their original order (what a stable sort by descending key gives).
pub open spec fn stable_desc_order(keys: Seq<usize>, order: Seq<usize>) -> bool {
    &&& order.len() == keys.len()
    &&& forall|i: int| 0 <= i < order.len() ==> order[i] < keys.len()
    &&& forall|x: usize| x < keys.len() ==> #[trigger] order.contains(x)
    &&& forall|i: int, j: int| 0 <= i < j < order.len() ==> hunk_before(keys, order[i] as int, order[j] as int)
}

/// Orders indices by descending key, keeping ties in index order.
pub fn stable_order_desc(keys: &Vec<usize>) -> (order: Vec<usize>)
    ensures
        stable_desc_order(keys@, order@),
{
    let mut order: Vec<usize> = Vec::new();
    let mut i: usize = 0;
    while i < keys.len()
        invariant
            i <= keys@.len(),
            order@.len() == i,
            forall|q: int| 0 <= q < order@.len() ==> order@[q] < i,
            forall|x: usize| x < i ==> #[trigger] order@.contains(x),
            forall|a: int, b: int| 0 <= a < b < order@.len() ==> hunk_before(keys@, order@[a] as int, order@[b] as int),
        decreases keys@.len() - i,
    {
        let mut p: usize = 0;
        while p < order.len() && keys[order[p]] >= keys[i]
            invariant
                p <= order@.len(),
                forall|q: int| 0 <= q < order@.len() ==> order@[q] < i,
                i < keys@.len(),
                forall|q: int| 0 <= q < p ==> hunk_before(keys@, #[trigger] order@[q] as int, i as int),
            decreases order@.len() - p,
        {
            p = p + 1;
        }
        let ghost old_o = order@;
        proof {
            if p < old_o.len() {
                assert(!(keys@[old_o[p as int] as int] >= keys@[i as int]));
                assert forall|q: int| p <= q < old_o.len() implies hunk_before(keys@, i as int, #[trigger] old_o[q] as int) by {
                    if q > p {
                        assert(hunk_before(keys@, old_o[p as int] as int, old_o[q] as int));
                    }
                }
            }
        }
        order.insert(p, i);
        proof {
            assert(order@ =~= old_o.insert(p as int, i));
            assert forall|a: int, b: int| 0 <= a < b < order@.len() implies hunk_before(keys@, order@[a] as int, order@[b] as int) by {
                if a < p && b == p {
                } else if a < p && b > p {
                    assert(order@[b] == old_o[b - 1]);
                } else if a == p {
                    assert(order@[b] == old_o[b - 1]);
                } else if a > p {
                    assert(order@[a] == old_o[a - 1]);
                    assert(order@[b] == old_o[b - 1]);
                }
            }
            assert forall|x: usize| x < i + 1 implies #[trigger] order@.contains(x) by {
                if x == i {
                    assert(order@[p as int] == i);
                } else {
                    assert(old_o.contains(x));
                    let q = choose|q: int| 0 <= q < old_o.len() && old_o[q] == x;
                    if q < p {
                        assert(order@[q] == x);
                    } else {
                        assert(order@[q + 1] == x);
                    }
                }
            }
        }
        i = i + 1;
    }
    order
}

// ---------------------------------------------------------------------------
// Budget allocation
// ---------------------------------------------------------------------------

/// Changed files larger than this are shown as placeholders.
pub const MAX_CHANGED_FILE_BYTES: usize = 50_000;
/// Stands in for excluded content (large or generated files).
pub const CONTENT_EXCLUDED_PLACEHOLDER: &'static str =
    "[File content excluded \u{2014} large or generated file. See diff for changes.]";
/// Stands in for content reduced to the diff.
pub const CONTENT_DIFF_ONLY_PLACEHOLDER: &'static str = "[See diff for changes to this file.]";
/// Prefixes a summary shown in place of content.
pub const SUMMARY_ONLY_CONTENT_PREFIX: &'static str = "[Summary \u{2014} full content omitted.]\n";
/// Omission reason: content reduced to its summary.
pub const REASON_CONTENT_DEGRADED_TO_SUMMARY: &'static str = "content_degraded_to_summary";
/// Omission reason: content reduced to the diff.
pub const REASON_CONTENT_DEGRADED_TO_DIFF_ONLY: &'static str = "content_degraded_to_diff_only";
/// Omission reason: too many related files.
pub const REASON_MAX_FILES_EXCEEDED: &'static str = "max_files_exceeded";
/// Omission reason: a related file did not fit the budget.
pub const REASON_TOKEN_BUDGET_EXCEEDED: &'static str = "token_budget_exceeded";

/// A changed file as read from the repository: its size on disk, its text
/// (empty when unreadable) and its indexed summary.
pub struct ChangedFileInput {
    pub path: String,
    pub file_size: usize,
    pub content: String,
    pub summary: Option<String>,
}

/// A retrieved related file: its text when it could be read, its indexed
/// summary, and its retrieval score (bits and two-decimal rendering).
pub struct RelatedFileInput {
    pub path: String,
    pub content: Option<String>,
    pub summary: Option<String>,
    pub score_bits: u64,
    pub score_text: String,
}

/// An omission seen as texts.
pub struct OmissionView {
    pub path: Seq<char>,
    pub score_bits: u64,
    pub reason: Seq<char>,
}

/// The view of an omission.
pub open spec fn omission_view(o: Omission) -> OmissionView {
    OmissionView { path: o.path@, score_bits: o.score_bits, reason: o.reason@ }
}

/// The state of the allocation: budget left, tokens spent on changed files,
/// counts per tier, files placed and omissions noted.
pub struct AllocState {
    pub remaining: nat,
    pub changed_tokens: nat,
    pub full: nat,
    pub summary_only: nat,
    pub diff_only: nat,
    pub files: Seq<FileView>,
    pub omissions: Seq<OmissionView>,
}

/// A changed file is shown as a placeholder regardless of budget: it is
/// generated, or larger than the limit.
pub open spec fn forced_exclude(c: ChangedFileInput) -> bool {
    non_reviewable_spec(c.path@) || c.file_size > MAX_CHANGED_FILE_BYTES
}

/// The tokens a changed file costs in full: content plus summary.
pub open spec fn full_cost(c: ChangedFileInput) -> nat {
    sat_add(token_count(c.content@), match c.summary { Some(s) => token_count(s@), None => 0 })
}

/// Places one changed file: a placeholder when forced; in full when the
/// budget allows; as its summary when that fits; else as a placeholder.
pub open spec fn changed_step(st: AllocState, c: ChangedFileInput) -> AllocState {
    if forced_exclude(c) {
        let t = token_count(CONTENT_EXCLUDED_PLACEHOLDER@);
        AllocState {
            remaining: sat_sub(st.remaining, t),
            changed_tokens: sat_add(st.changed_tokens, t),
            diff_only: st.diff_only + 1,
            files: st.files.push(FileView { path: c.path@, content: CONTENT_EXCLUDED_PLACEHOLDER@, summary: None, score: None, tier: ContentTier::DiffOnly }),
            ..st
        }
    } else if st.remaining >= full_cost(c) {
        AllocState {
            remaining: (st.remaining - full_cost(c)) as nat,
            changed_tokens: sat_add(st.changed_tokens, full_cost(c)),
            full: st.full + 1,
            files: st.files.push(FileView { path: c.path@, content: c.content@, summary: opt_view(c.summary), score: None, tier: ContentTier::Full }),
            ..st
        }
    } else if c.summary is Some && st.remaining >= token_count(c.summary.unwrap()@) {
        let s = c.summary.unwrap()@;
        AllocState {
            remaining: (st.remaining - token_count(s)) as nat,
            changed_tokens: sat_add(st.changed_tokens, token_count(s)),
            summary_only: st.summary_only + 1,
            files: st.files.push(FileView { path: c.path@, content: SUMMARY_ONLY_CONTENT_PREFIX@ + s, summary: None, score: None, tier: ContentTier::SummaryOnly }),
            omissions: st.omissions.push(OmissionView { path: c.path@, score_bits: 0, reason: REASON_CONTENT_DEGRADED_TO_SUMMARY@ }),
            ..st
        }
    } else {
        let t = token_count(CONTENT_DIFF_ONLY_PLACEHOLDER@);
        AllocState {
            remaining: sat_sub(st.remaining, t),
            changed_tokens: sat_add(st.changed_tokens, t),
            diff_only: st.diff_only + 1,
            files: st.files.push(FileView { path: c.path@, content: CONTENT_DIFF_ONLY_PLACEHOLDER@, summary: None, score: None, tier: ContentTier::DiffOnly }),
            omissions: st.omissions.push(OmissionView { path: c.path@, score_bits: 0, reason: REASON_CONTENT_DEGRADED_TO_DIFF_ONLY@ }),
            ..st
        }
    }
}

/// The allocation after placing the first `k` changed files in order.
pub open spec fn changed_alloc(cs: Seq<ChangedFileInput>, k: int, init: AllocState) -> AllocState
    decreases k,
{
    if k <= 0 {
        init
    } else {
        changed_step(changed_alloc(cs, k - 1, init), cs[k - 1])
    }
}

/// The state of related-file placement: budget left, tokens spent, files
/// included, files placed and omissions noted.
pub struct RelatedState {
    pub remaining: nat,
    pub related_tokens: nat,
    pub included: nat,
    pub files: Seq<FileView>,
    pub omissions: Seq<OmissionView>,
}

/// Places one related file: omitted when the file limit is reached;
/// skipped when unreadable; omitted when it does not fit; else included.
pub open spec fn related_step(st: RelatedState, r: RelatedFileInput, max_files: nat) -> RelatedState {
    if st.included >= max_files {
        RelatedState { omissions: st.omissions.push(OmissionView { path: r.path@, score_bits: r.score_bits, reason: REASON_MAX_FILES_EXCEEDED@ }), ..st }
    } else {
        match r.content {
            None => st,
            Some(content) => {
                let t = token_count(content@);
                if t > st.remaining {
                    RelatedState { omissions: st.omissions.push(OmissionView { path: r.path@, score_bits: r.score_bits, reason: REASON_TOKEN_BUDGET_EXCEEDED@ }), ..st }
                } else {
                    RelatedState {
                        remaining: (st.remaining - t) as nat,
                        related_tokens: st.related_tokens + t,
                        included: st.included + 1,
                        files: st.files.push(FileView { path: r.path@, content: content@, summary: opt_view(r.summary), score: Some(r.score_text@), tier: ContentTier::Full }),
                        ..st
                    }
                }
            },
        }
    }
}

/// The related-file state after the first `k` results.
pub open spec fn related_alloc(rs: Seq<RelatedFileInput>, k: int, init: RelatedState, max_files: nat) -> RelatedState
    decreases k,
{
    if k <= 0 {
        init
    } else {
        related_step(related_alloc(rs, k - 1, init, max_files), rs[k - 1], max_files)
    }
}

/// The hunk count of a path.
pub open spec fn hunks_of(m: Map<Seq<char>, nat>, p: Seq<char>) -> nat {
    if m.contains_key(p) { m[p] } else { 0 }
}

fn push_view_file(files: &mut Vec<ContextFile>, f: ContextFile)
    ensures
        final(files)@.map_values(|x: ContextFile| file_view(x)) == old(files)@.map_values(|x: ContextFile| file_view(x)).push(file_view(f)),
{
    let ghost o = files@;
    files.push(f);
    assert(files@.map_values(|x: ContextFile| file_view(x)) =~= o.map_values(|x: ContextFile| file_view(x)).push(file_view(f)));
}

fn push_view_omission(oms: &mut Vec<Omission>, om: Omission)
    ensures
        final(oms)@.map_values(|x: Omission| omission_view(x)) == old(oms)@.map_values(|x: Omission| omission_view(x)).push(omission_view(om)),
{
    let ghost o = oms@;
    oms.push(om);
    assert(oms@.map_values(|x: Omission| omission_view(x)) =~= o.map_values(|x: Omission| omission_view(x)).push(omission_view(om)));
}

fn sat_add_exec(a: usize, b: usize) -> (r: usize)
    ensures
        r == sat_add(a as nat, b as nat),
{
    if a > usize::MAX - b { usize::MAX } else { a + b }
}

fn sat_sub_exec(a: usize, b: usize) -> (r: usize)
    ensures
        r == sat_sub(a as nat, b as nat),
{
    if a >= b { a - b } else { 0 }
}

/// The context a review is built from: the diff, the changed files placed
/// by budget in order of most hunks (ties in the given order), and the
/// related files that fit, in retrieval order, with a report of the budget.
pub open spec fn context_spec(
    diff: Seq<char>,
    changed: Seq<ChangedFileInput>,
    order: Seq<usize>,
    related: Seq<RelatedFileInput>,
    max_tokens: nat,
    output_reserve_tokens: nat,
    max_files: nat,
) -> (AllocState, RelatedState) {
    let total = sat_sub(max_tokens, output_reserve_tokens);
    let init = AllocState {
        remaining: sat_sub(total, token_count(diff)),
        changed_tokens: 0,
        full: 0,
        summary_only: 0,
        diff_only: 0,
        files: Seq::empty(),
        omissions: Seq::empty(),
    };
    let sorted = order.map_values(|i: usize| changed[i as int]);
    let a = changed_alloc(sorted, sorted.len() as int, init);
    let rinit = RelatedState { remaining: a.remaining, related_tokens: 0, included: 0, files: Seq::empty(), omissions: a.omissions };
    (a, related_alloc(related, related.len() as int, rinit, max_files))
}

/// Builds the review context from the diff, the changed files as read and
/// the related files retrieval found.
pub fn build_context(
    diff: &str,
    changed: Vec<ChangedFileInput>,
    related: Vec<RelatedFileInput>,
    max_tokens: usize,
    output_reserve_tokens: usize,
    max_files: usize,
    metadata: ChangeMetadata,
) -> (r: ContextPackage)
    ensures
        ({
            let hunks = hunk_counts_spec(diff@);
            let keys = changed@.map_values(|c: ChangedFileInput| hunks_of(hunks, c.path@) as usize);
            exists|order: Seq<usize>| {
                &&& stable_desc_order(keys, order)
                &&& ({
                    let (a, rl) = context_spec(diff@, changed@, order, related@, max_tokens as nat, output_reserve_tokens as nat, max_files as nat);
                    &&& r.changed_files@.map_values(|x: ContextFile| file_view(x)) == a.files
                    &&& r.related_files@.map_values(|x: ContextFile| file_view(x)) == rl.files
                    &&& r.omissions@.map_values(|x: Omission| omission_view(x)) == rl.omissions
                    &&& r.budget.total_budget == sat_sub(max_tokens as nat, output_reserve_tokens as nat)
                    &&& r.budget.diff_tokens == token_count(diff@)
                    &&& r.budget.changed_files_tokens == a.changed_tokens
                    &&& r.budget.related_files_tokens == rl.related_tokens
                    &&& r.budget.remaining_tokens == rl.remaining
                    &&& r.budget.files_included == sat_add(a.files.len(), rl.included)
                    &&& r.budget.files_omitted == rl.omissions.len()
                    &&& r.budget.files_full == a.full
                    &&& r.budget.files_summary_only == a.summary_only
                    &&& r.budget.files_diff_only == a.diff_only
                })
            }
        }),
        r.diff@ == diff@,
        r.metadata == metadata,
        (forall|i: int| 0 <= i < changed@.len() ==> cost_fits(#[trigger] changed@[i])) ==> full_files_tokens(
            r.changed_files@.map_values(|x: ContextFile| file_view(x)),
        ) + r.budget.related_files_tokens <= sat_sub(
            sat_sub(max_tokens as nat, output_reserve_tokens as nat),
            token_count(diff@),
        ),
{
    let total = sat_sub_exec(max_tokens, output_reserve_tokens);
    let diff_tokens = estimate_tokens(diff);
    let counts = count_hunks_per_file(diff);
    proof {
        lemma_hunk_map_keys(counts@);
    }
    let ghost hunks = hunk_counts_spec(diff@);
    let mut keys: Vec<usize> = Vec::new();
    let mut i: usize = 0;
    while i < changed.len()
        invariant
            i <= changed@.len(),
            hunk_map(counts@) == hunks,
            distinct_paths(counts@),
            forall|p: Seq<char>| hunk_map(counts@).contains_key(p) <==> exists|q: int| 0 <= q < counts@.len() && counts@[q].path@ == p,
            forall|q: int| 0 <= q < counts@.len() ==> hunk_map(counts@)[counts@[q].path@] == counts@[q].hunks as nat,
            keys@ == changed@.map_values(|c: ChangedFileInput| hunks_of(hunks, c.path@) as usize).take(i as int),
        decreases changed@.len() - i,
    {
        let pc = chars_of(changed[i].path.as_str());
        let h = match find_path(&counts, pc.as_slice()) {
            Some(q) => counts[q].hunks,
            None => 0,
        };
        assert(h == hunks_of(hunks, changed@[i as int].path@) as usize);
        keys.push(h);
        assert(keys@ =~= changed@.map_values(|c: ChangedFileInput| hunks_of(hunks, c.path@) as usize).take(i + 1));
        i = i + 1;
    }
    assert(keys@ =~= changed@.map_values(|c: ChangedFileInput| hunks_of(hunks, c.path@) as usize));
    let order = stable_order_desc(&keys);
    let ghost sorted = order@.map_values(|q: usize| changed@[q as int]);
    let ghost init = AllocState {
        remaining: sat_sub(total as nat, token_count(diff@)),
        changed_tokens: 0,
        full: 0,
        summary_only: 0,
        diff_only: 0,
        files: Seq::empty(),
        omissions: Seq::empty(),
    };
    let mut remaining = sat_sub_exec(total, diff_tokens);
    let mut changed_tokens: usize = 0;
    let mut files_full: usize = 0;
    let mut files_summary_only: usize = 0;
    let mut files_diff_only: usize = 0;
    let mut changed_files: Vec<ContextFile> = Vec::new();
    let mut omissions: Vec<Omission> = Vec::new();
    let excluded_tokens = estimate_tokens(CONTENT_EXCLUDED_PLACEHOLDER);
    let diff_only_tokens = estimate_tokens(CONTENT_DIFF_ONLY_PLACEHOLDER);
    let mut k: usize = 0;
    while k < order.len()
        invariant
            k <= order@.len(),
            order@.len() == changed@.len(),
            forall|q: int| 0 <= q < order@.len() ==> order@[q] < changed@.len(),
            sorted == order@.map_values(|q: usize| changed@[q as int]),
            excluded_tokens == token_count(CONTENT_EXCLUDED_PLACEHOLDER@),
            diff_only_tokens == token_count(CONTENT_DIFF_ONLY_PLACEHOLDER@),
            files_full <= k,
            files_summary_only <= k,
            files_diff_only <= k,
            ({
                let st = changed_alloc(sorted, k as int, init);
                &&& st.remaining == remaining
                &&& st.changed_tokens == changed_tokens
                &&& st.full == files_full
                &&& st.summary_only == files_summary_only
                &&& st.diff_only == files_diff_only
                &&& st.files == changed_files@.map_values(|x: ContextFile| file_view(x))
                &&& st.omissions == omissions@.map_values(|x: Omission| omission_view(x))
            }),
        decreases order@.len() - k,
    {
        let c = &changed[order[k]];
        assert(sorted[k as int] == *c);
        let forced = is_non_reviewable(c.path.as_str()) || c.file_size > MAX_CHANGED_FILE_BYTES;
        let content_tokens = estimate_tokens(c.content.as_str());
        let summary_tokens = match &c.summary {
            Some(s) => estimate_tokens(s.as_str()),
            None => 0,
        };
        let full_tokens = sat_add_exec(content_tokens, summary_tokens);
        if forced {
            remaining = sat_sub_exec(remaining, excluded_tokens);
            changed_tokens = sat_add_exec(changed_tokens, excluded_tokens);
            files_diff_only = files_diff_only + 1;
            push_view_file(&mut changed_files, ContextFile {
                path: c.path.clone(),
                content: String::from_str(CONTENT_EXCLUDED_PLACEHOLDER),
                summary: None,
                retrieval_score: None,
                content_tier: ContentTier::DiffOnly,
            });
        } else if remaining >= full_tokens {
            remaining = remaining - full_tokens;
            changed_tokens = sat_add_exec(changed_tokens, full_tokens);
            files_full = files_full + 1;
            push_view_file(&mut changed_files, ContextFile {
                path: c.path.clone(),
                content: c.content.clone(),
                summary: crate::types::copy_opt_string(&c.summary),
                retrieval_score: None,
                content_tier: ContentTier::Full,
            });
        } else {
            match &c.summary {
                Some(s) if remaining >= summary_tokens => {
                    remaining = remaining - summary_tokens;
                    changed_tokens = sat_add_exec(changed_tokens, summary_tokens);
                    files_summary_only = files_summary_only + 1;
                    push_view_omission(&mut omissions, Omission {
                        path: c.path.clone(),
                        score_bits: 0,
                        reason: String::from_str(REASON_CONTENT_DEGRADED_TO_SUMMARY),
                    });
                    let mut content = String::from_str(SUMMARY_ONLY_CONTENT_PREFIX);
                    crate::text::append_str(&mut content, s.as_str());
                    push_view_file(&mut changed_files, ContextFile {
                        path: c.path.clone(),
                        content,
                        summary: None,
                        retrieval_score: None,
                        content_tier: ContentTier::SummaryOnly,
                    });
                },
                _ => {
                    remaining = sat_sub_exec(remaining, diff_only_tokens);
                    changed_tokens = sat_add_exec(changed_tokens, diff_only_tokens);
                    files_diff_only = files_diff_only + 1;
                    push_view_omission(&mut omissions, Omission {
                        path: c.path.clone(),
                        score_bits: 0,
                        reason: String::from_str(REASON_CONTENT_DEGRADED_TO_DIFF_ONLY),
                    });
                    push_view_file(&mut changed_files, ContextFile {
                        path: c.path.clone(),
                        content: String::from_str(CONTENT_DIFF_ONLY_PLACEHOLDER),
                        summary: None,
                        retrieval_score: None,
                        content_tier: ContentTier::DiffOnly,
                    });
                },
            }
        }
        k = k + 1;
    }
    let ghost a = changed_alloc(sorted, sorted.len() as int, init);
    let ghost rinit = RelatedState { remaining: a.remaining, related_tokens: 0, included: 0, files: Seq::empty(), omissions: a.omissions };
    let mut related_files: Vec<ContextFile> = Vec::new();
    let mut related_tokens: usize = 0;
    let mut included: usize = 0;
    let ghost rem0 = remaining;
    let mut k: usize = 0;
    while k < related.len()
        invariant
            k <= related@.len(),
            included <= k,
            related_tokens + remaining <= rem0,
            a == changed_alloc(sorted, sorted.len() as int, init),
            a.files == changed_files@.map_values(|x: ContextFile| file_view(x)),
            a.changed_tokens == changed_tokens,
            a.full == files_full,
            a.summary_only == files_summary_only,
            a.diff_only == files_diff_only,
            ({
                let st = related_alloc(related@, k as int, rinit, max_files as nat);
                &&& st.remaining == remaining
                &&& st.related_tokens == related_tokens
                &&& st.included == included
                &&& st.files == related_files@.map_values(|x: ContextFile| file_view(x))
                &&& st.omissions == omissions@.map_values(|x: Omission| omission_view(x))
            }),
        decreases related@.len() - k,
    {
        let rf = &related[k];
        if included >= max_files {
            push_view_omission(&mut omissions, Omission {
                path: rf.path.clone(),
                score_bits: rf.score_bits,
                reason: String::from_str(REASON_MAX_FILES_EXCEEDED),
            });
        } else {
            match &rf.content {
                None => {},
                Some(content) => {
                    let t = estimate_tokens(content.as_str());
                    if t > remaining {
                        push_view_omission(&mut omissions, Omission {
                            path: rf.path.clone(),
                            score_bits: rf.score_bits,
                            reason: String::from_str(REASON_TOKEN_BUDGET_EXCEEDED),
                        });
                    } else {
                        remaining = remaining - t;
                        related_tokens = related_tokens + t;
                        included = included + 1;
                        push_view_file(&mut related_files, ContextFile {
                            path: rf.path.clone(),
                            content: content.clone(),
                            summary: crate::types::copy_opt_string(&rf.summary),
                            retrieval_score: Some(rf.score_text.clone()),
                            content_tier: ContentTier::Full,
                        });
                    }
                },
            }
        }
        k = k + 1;
    }
    let budget = BudgetReport {
        total_budget: total,
        diff_tokens,
        changed_files_tokens: changed_tokens,
        related_files_tokens: related_tokens,
        remaining_tokens: remaining,
        files_included: sat_add_exec(changed_files.len(), included),
        files_omitted: omissions.len(),
        files_full,
        files_summary_only,
        files_diff_only,
    };
    proof {
        assert(changed_files@.len() == a.files.len()) by {
            assert(changed_files@.map_values(|x: ContextFile| file_view(x)).len() == changed_files@.len());
        }
        assert(omissions@.len() == omissions@.map_values(|x: Omission| omission_view(x)).len());
    }
    let r = ContextPackage {
        metadata,
        diff: String::from_str(diff),
        changed_files,
        related_files,
        omissions,
        budget,
    };
    proof {
        let keys = changed@.map_values(|c: ChangedFileInput| hunks_of(hunks, c.path@) as usize);
        assert(stable_desc_order(keys, order@));
        let (a2, rl) = context_spec(diff@, changed@, order@, related@, max_tokens as nat, output_reserve_tokens as nat, max_files as nat);
        assert(a2 == a);
        assert(rl == related_alloc(related@, related@.len() as int, rinit, max_files as nat));
        assert(r.changed_files@.map_values(|x: ContextFile| file_view(x)) == a.files);
        assert(r.related_files@.map_values(|x: ContextFile| file_view(x)) == rl.files);
        assert(r.omissions@.map_values(|x: Omission| omission_view(x)) == rl.omissions);
        assert(r.budget.total_budget == sat_sub(max_tokens as nat, output_reserve_tokens as nat));
        assert(r.budget.diff_tokens == token_count(diff@));
        assert(r.budget.changed_files_tokens == a.changed_tokens);
        assert(r.budget.related_files_tokens == rl.related_tokens);
        assert(r.budget.remaining_tokens == rl.remaining);
        assert(r.budget.files_included == sat_add(a.files.len(), rl.included));
        assert(r.budget.files_omitted == rl.omissions.len());
        assert(r.budget.files_full == a.full);
        assert(r.budget.files_summary_only == a.summary_only);
        assert(r.budget.files_diff_only == a.diff_only);
        if forall|i: int| 0 <= i < changed@.len() ==> cost_fits(#[trigger] changed@[i]) {
            law_full_files_within_budget(diff@, changed@, order@, related@, max_tokens as nat, output_reserve_tokens as nat, max_files as nat);
        }
    }
    r
}


proof fn lemma_related_alloc_conserves(rs: Seq<RelatedFileInput>, k: int, init: RelatedState, max_files: nat)
    requires
        init.included <= max_files,
    ensures
        ({
            let st = related_alloc(rs, k, init, max_files);
            &&& st.related_tokens + st.remaining == init.related_tokens + init.remaining
            &&& st.included + init.files.len() == st.files.len() + init.included
            &&& st.included <= max_files
            &&& st.files.len() >= init.files.len()
        }),
    decreases k,
{
    if k > 0 {
        lemma_related_alloc_conserves(rs, k - 1, init, max_files);
    }
}

/// Related files never overspend: the tokens they take and the tokens left
/// add up to what the changed files left, every included file is counted,
/// and no more than `max_files` are included.
pub proof fn law_related_files_within_budget(
    diff: Seq<char>,
    changed: Seq<ChangedFileInput>,
    order: Seq<usize>,
    related: Seq<RelatedFileInput>,
    max_tokens: nat,
    output_reserve_tokens: nat,
    max_files: nat,
)
    ensures
        ({
            let (a, rl) = context_spec(diff, changed, order, related, max_tokens, output_reserve_tokens, max_files);
            &&& rl.related_tokens + rl.remaining == a.remaining
            &&& rl.included == rl.files.len()
            &&& rl.included <= max_files
        }),
{
    let total = sat_sub(max_tokens, output_reserve_tokens);
    let init = AllocState {
        remaining: sat_sub(total, token_count(diff)),
        changed_tokens: 0,
        full: 0,
        summary_only: 0,
        diff_only: 0,
        files: Seq::empty(),
        omissions: Seq::empty(),
    };
    let sorted = order.map_values(|i: usize| changed[i as int]);
    let a = changed_alloc(sorted, sorted.len() as int, init);
    let rinit = RelatedState { remaining: a.remaining, related_tokens: 0, included: 0, files: Seq::empty(), omissions: a.omissions };
    lemma_related_alloc_conserves(related, related.len() as int, rinit, max_files);
}

/// The tokens a file shows in a prompt: its content and its summary.
pub open spec fn shown_tokens(f: FileView) -> nat {
    token_count(f.content) + match f.summary {
        Some(t) => token_count(t),
        None => 0,
    }
}

/// The tokens shown by the files placed in full.
pub open spec fn full_files_tokens(fs: Seq<FileView>) -> nat
    decreases fs.len(),
{
    if fs.len() == 0 {
        0
    } else {
        full_files_tokens(fs.drop_last()) + if fs.last().tier == ContentTier::Full {
            shown_tokens(fs.last())
        } else {
            0
        }
    }
}

/// A changed file's content and summary tokens together fit a `usize`.
pub open spec fn cost_fits(c: ChangedFileInput) -> bool {
    token_count(c.content@) + match c.summary {
        Some(t) => token_count(t@),
        None => 0,
    } <= usize::MAX
}

proof fn lemma_changed_alloc_full_within(cs: Seq<ChangedFileInput>, k: int, init: AllocState)
    requires
        0 <= k <= cs.len(),
        forall|i: int| 0 <= i < cs.len() ==> cost_fits(#[trigger] cs[i]),
    ensures
        ({
            let st = changed_alloc(cs, k, init);
            full_files_tokens(st.files) + st.remaining <= full_files_tokens(init.files) + init.remaining
        }),
    decreases k,
{
    if k > 0 {
        lemma_changed_alloc_full_within(cs, k - 1, init);
        let st = changed_alloc(cs, k - 1, init);
        let c = cs[k - 1];
        assert(cost_fits(c));
        let nx = changed_step(st, c);
        assert(nx.files.drop_last() =~= st.files);
    }
}

/// Files placed in full never overspend the budget: the tokens they show
/// (content and summary), with the tokens of the related files, fit in
/// what the total budget leaves after the diff.
pub proof fn law_full_files_within_budget(
    diff: Seq<char>,
    changed: Seq<ChangedFileInput>,
    order: Seq<usize>,
    related: Seq<RelatedFileInput>,
    max_tokens: nat,
    output_reserve_tokens: nat,
    max_files: nat,
)
    requires
        forall|i: int| 0 <= i < order.len() ==> order[i] < changed.len(),
        forall|i: int| 0 <= i < changed.len() ==> cost_fits(#[trigger] changed[i]),
    ensures
        ({
            let (a, rl) = context_spec(diff, changed, order, related, max_tokens, output_reserve_tokens, max_files);
            full_files_tokens(a.files) + rl.related_tokens <= sat_sub(
                sat_sub(max_tokens, output_reserve_tokens),
                token_count(diff),
            )
        }),
{
    let total = sat_sub(max_tokens, output_reserve_tokens);
    let init = AllocState {
        remaining: sat_sub(total, token_count(diff)),
        changed_tokens: 0,
        full: 0,
        summary_only: 0,
        diff_only: 0,
        files: Seq::empty(),
        omissions: Seq::empty(),
    };
    let sorted = order.map_values(|i: usize| changed[i as int]);
    assert forall|i: int| 0 <= i < sorted.len() implies cost_fits(#[trigger] sorted[i]) by {
        assert(sorted[i] == changed[order[i] as int]);
    }
    lemma_changed_alloc_full_within(sorted, sorted.len() as int, init);
    law_related_files_within_budget(diff, changed, order, related, max_tokens, output_reserve_tokens, max_files);
}

} // verus!
