//! Reading which files changed together from `git log --name-only
//! --format=%H` output.
use vstd::prelude::*;
use crate::split::{lines, lines_spec, views};
use crate::text::{string_of, trim_chars, trim_spec};

verus! {

/// An ASCII hexadecimal digit, in either case.
pub open spec fn is_hex_digit(c: char) -> bool {
    ('0' <= c && c <= '9') || ('a' <= c && c <= 'f') || ('A' <= c && c <= 'F')
}

/// A commit line: forty hexadecimal digits.
pub open spec fn is_commit_line(l: Seq<char>) -> bool {
    l.len() == 40 && forall|i: int| 0 <= i < l.len() ==> is_hex_digit(#[trigger] l[i])
}

/// The commits read so far, the files of the commit being read, and
/// whether file names are being read.
pub struct LogState {
    pub commits: Seq<Seq<Seq<char>>>,
    pub current: Seq<Seq<char>>,
    pub in_files: bool,
}

/// The commits with the current one added when it has files.
pub open spec fn flush(commits: Seq<Seq<Seq<char>>>, current: Seq<Seq<char>>) -> Seq<Seq<Seq<char>>> {
    if current.len() > 0 { commits.push(current) } else { commits }
}

/// Reads one line (trimmed): a blank line ends a commit's files; a commit
/// line ends the previous commit and starts reading files; any other line
/// is a file of the current commit while files are being read.
pub open spec fn log_step(st: LogState, line: Seq<char>) -> LogState {
    let l = trim_spec(line);
    if l.len() == 0 {
        LogState { commits: flush(st.commits, st.current), current: Seq::empty(), in_files: false }
    } else if is_commit_line(l) {
        LogState { commits: flush(st.commits, st.current), current: Seq::empty(), in_files: true }
    } else if st.in_files {
        LogState { current: st.current.push(l), ..st }
    } else {
        st
    }
}

/// The state after the first `k` lines.
pub open spec fn log_upto(ls: Seq<Seq<char>>, k: int) -> LogState
    decreases k,
{
    if k <= 0 {
        LogState { commits: Seq::empty(), current: Seq::empty(), in_files: false }
    } else {
        log_step(log_upto(ls, k - 1), ls[k - 1])
    }
}

/// The files changed by each commit of the log, in log order; commits that
/// list no file are left out.
pub open spec fn git_log_spec(output: Seq<char>) -> Seq<Seq<Seq<char>>> {
    let ls = lines_spec(output);
    let st = log_upto(ls, ls.len() as int);
    flush(st.commits, st.current)
}

/// The views of a list of commits' file lists.
pub open spec fn commit_views(cs: Seq<Vec<String>>) -> Seq<Seq<Seq<char>>> {
    cs.map_values(|c: Vec<String>| crate::sorted::string_views(c@))
}

fn is_commit_line_exec(l: &Vec<char>) -> (b: bool)
    ensures
        b == is_commit_line(l@),
{
    if l.len() != 40 {
        return false;
    }
    let mut i: usize = 0;
    while i < l.len()
        invariant
            i <= l@.len(),
            forall|j: int| 0 <= j < i ==> is_hex_digit(#[trigger] l@[j]),
        decreases l@.len() - i,
    {
        let c = l[i];
        if !(('0' <= c && c <= '9') || ('a' <= c && c <= 'f') || ('A' <= c && c <= 'F')) {
            return false;
        }
        i = i + 1;
    }
    true
}

fn flush_exec(commits: &mut Vec<Vec<String>>, current: &mut Vec<String>)
    ensures
        commit_views(final(commits)@) == flush(commit_views(old(commits)@), crate::sorted::string_views(old(current)@)),
        final(current)@.len() == 0,
{
    if current.len() > 0 {
        let mut c: Vec<String> = Vec::new();
        std::mem::swap(&mut c, current);
        let ghost before = commits@;
        commits.push(c);
        assert(commit_views(commits@) =~= commit_views(before).push(crate::sorted::string_views(c@)));
    } else {
        assert(crate::sorted::string_views(current@) =~= Seq::<Seq<char>>::empty());
    }
}

/// The files changed by each commit, from the output of
/// `git log --name-only --format=%H`.
pub fn parse_git_log_output(output: &str) -> (r: Vec<Vec<String>>)
    ensures
        commit_views(r@) == git_log_spec(output@),
{
    let cs = crate::text::chars_of(output);
    let ls = lines(cs.as_slice());
    let ghost lv = lines_spec(output@);
    let mut commits: Vec<Vec<String>> = Vec::new();
    let mut current: Vec<String> = Vec::new();
    let mut in_files = false;
    let mut k: usize = 0;
    while k < ls.len()
        invariant
            k <= ls@.len(),
            views(ls@) == lv,
            ({
                let st = log_upto(lv, k as int);
                &&& commit_views(commits@) == st.commits
                &&& crate::sorted::string_views(current@) == st.current
                &&& in_files == st.in_files
            }),
        decreases ls@.len() - k,
    {
        let l = trim_chars(ls[k].as_slice());
        proof {
            assert(ls@[k as int]@ == lv[k as int]);
            assert((k + 1) - 1 == k);
        }
        if l.len() == 0 {
            flush_exec(&mut commits, &mut current);
            in_files = false;
        } else if is_commit_line_exec(&l) {
            flush_exec(&mut commits, &mut current);
            in_files = true;
        } else if in_files {
            let ghost before = current@;
            current.push(string_of(l.as_slice()));
            assert(crate::sorted::string_views(current@) =~= crate::sorted::string_views(before).push(l@));
        }
        k = k + 1;
    }
    flush_exec(&mut commits, &mut current);
    commits
}


// ---------------------------------------------------------------------------
// Counting which files change together
// ---------------------------------------------------------------------------

/// What a co-change analysis did: the commits it read and the file pairs it
/// kept.
pub struct CochangeStats {
    pub commits_analyzed: usize,
    pub pairs_stored: usize,
}

/// A file and the number of commits that changed it.
pub struct FileCount {
    pub path: String,
    pub count: usize,
}

/// Two files, in lexicographic order, and the number of commits that
/// changed both.
pub struct PairCount {
    pub first: String,
    pub second: String,
    pub count: usize,
}

/// How often files changed, alone and in pairs.
pub struct CochangeCounts {
    pub files: Vec<FileCount>,
    pub pairs: Vec<PairCount>,
}

/// The files of a commit that are indexed, in order.
pub open spec fn known_files(commit: Seq<Seq<char>>, indexed: Seq<Seq<char>>) -> Seq<Seq<char>> {
    commit.filter(|f: Seq<char>| indexed.contains(f))
}

/// How often `f` occurs in a list.
pub open spec fn count_in(s: Seq<Seq<char>>, f: Seq<char>) -> nat
    decreases s.len(),
{
    if s.len() == 0 {
        0
    } else {
        count_in(s.drop_last(), f) + if s.last() == f { 1nat } else { 0nat }
    }
}

/// Two files in lexicographic order.
pub open spec fn ordered(x: Seq<char>, y: Seq<char>) -> (Seq<char>, Seq<char>) {
    if crate::sorted::lex_lt(x, y) {
        (x, y)
    } else {
        (y, x)
    }
}

/// How many of the files in `prefix` form the pair `p` with `y`.
pub open spec fn pairs_with(prefix: Seq<Seq<char>>, y: Seq<char>, p: (Seq<char>, Seq<char>)) -> nat
    decreases prefix.len(),
{
    if prefix.len() == 0 {
        0
    } else {
        pairs_with(prefix.drop_last(), y, p) + if ordered(prefix.last(), y) == p { 1nat } else { 0nat }
    }
}

/// How many position pairs `i < j` of a list form the pair `p`.
pub open spec fn pairs_in(s: Seq<Seq<char>>, p: (Seq<char>, Seq<char>)) -> nat
    decreases s.len(),
{
    if s.len() == 0 {
        0
    } else {
        pairs_in(s.drop_last(), p) + pairs_with(s.drop_last(), s.last(), p)
    }
}

/// How often each indexed file changed over the commits.
pub open spec fn changes_of(commits: Seq<Seq<Seq<char>>>, indexed: Seq<Seq<char>>, f: Seq<char>) -> nat
    decreases commits.len(),
{
    if commits.len() == 0 {
        0
    } else {
        changes_of(commits.drop_last(), indexed, f) + count_in(known_files(commits.last(), indexed), f)
    }
}

/// How often each pair of indexed files changed together over the commits.
pub open spec fn cochanges_of(commits: Seq<Seq<Seq<char>>>, indexed: Seq<Seq<char>>, p: (Seq<char>, Seq<char>)) -> nat
    decreases commits.len(),
{
    if commits.len() == 0 {
        0
    } else {
        cochanges_of(commits.drop_last(), indexed, p) + pairs_in(known_files(commits.last(), indexed), p)
    }
}

/// The count a list of file counts holds for `f` (0 when absent).
pub open spec fn file_lookup(fs: Seq<FileCount>, f: Seq<char>) -> nat {
    if exists|i: int| 0 <= i < fs.len() && fs[i].path@ == f {
        fs[choose|i: int| 0 <= i < fs.len() && fs[i].path@ == f].count as nat
    } else {
        0
    }
}

/// The count a list of pair counts holds for `p` (0 when absent).
pub open spec fn pair_key(c: PairCount) -> (Seq<char>, Seq<char>) {
    (c.first@, c.second@)
}

pub open spec fn pair_lookup(ps: Seq<PairCount>, p: (Seq<char>, Seq<char>)) -> nat {
    if exists|i: int| 0 <= i < ps.len() && pair_key(ps[i]) == p {
        ps[choose|i: int| 0 <= i < ps.len() && pair_key(ps[i]) == p].count as nat
    } else {
        0
    }
}

/// No file is listed twice, and every listed count is positive.
pub open spec fn files_wf(fs: Seq<FileCount>) -> bool {
    &&& forall|i: int, j: int| 0 <= i < j < fs.len() ==> fs[i].path@ != fs[j].path@
    &&& forall|i: int| 0 <= i < fs.len() ==> fs[i].count > 0
}

/// No pair is listed twice, and every listed count is positive.
pub open spec fn pairs_wf(ps: Seq<PairCount>) -> bool {
    &&& forall|i: int, j: int| 0 <= i < j < ps.len() ==> pair_key(ps[i]) != pair_key(ps[j])
    &&& forall|i: int| 0 <= i < ps.len() ==> ps[i].count > 0
}

proof fn lemma_file_lookup_at(fs: Seq<FileCount>, k: int)
    requires
        files_wf(fs),
        0 <= k < fs.len(),
    ensures
        file_lookup(fs, fs[k].path@) == fs[k].count,
{
    let f = fs[k].path@;
    let i = choose|i: int| 0 <= i < fs.len() && fs[i].path@ == f;
    if i < k {
        assert(fs[i].path@ != fs[k].path@);
    } else if i > k {
        assert(fs[k].path@ != fs[i].path@);
    }
}

proof fn lemma_pair_lookup_at(ps: Seq<PairCount>, k: int)
    requires
        pairs_wf(ps),
        0 <= k < ps.len(),
    ensures
        pair_lookup(ps, pair_key(ps[k])) == ps[k].count,
{
    let p = pair_key(ps[k]);
    let i = choose|i: int| 0 <= i < ps.len() && pair_key(ps[i]) == p;
    if i < k {
        assert(pair_key(ps[i]) != pair_key(ps[k]));
    } else if i > k {
        assert(pair_key(ps[k]) != pair_key(ps[i]));
    }
}

/// Adds one to the count of a file.
fn bump_file(fs: &mut Vec<FileCount>, path: &String, Ghost(bound): Ghost<nat>)
    requires
        files_wf(old(fs)@),
        forall|f: Seq<char>| file_lookup(old(fs)@, f) <= bound,
        bound < usize::MAX,
    ensures
        files_wf(final(fs)@),
        forall|f: Seq<char>| #[trigger] file_lookup(final(fs)@, f) == file_lookup(old(fs)@, f) + if f == path@ { 1nat } else { 0nat },
{
    let ghost before = fs@;
    let mut k: usize = 0;
    while k < fs.len()
        invariant
            k <= fs@.len(),
            fs@ == before,
            before == old(fs)@,
            files_wf(before),
            forall|f: Seq<char>| file_lookup(before, f) <= bound,
            bound < usize::MAX,
            forall|j: int| 0 <= j < k ==> fs@[j].path@ != path@,
        decreases fs@.len() - k,
    {
        if fs[k].path == *path {
            proof {
                lemma_file_lookup_at(before, k as int);
            }
            let c = fs[k].count + 1;
            fs.set(k, FileCount { path: path.clone(), count: c });
            proof {
                assert forall|i: int, j: int| 0 <= i < j < fs@.len() implies fs@[i].path@ != fs@[j].path@ by {
                    assert(before[i].path@ != before[j].path@);
                }
                assert forall|f: Seq<char>| #[trigger] file_lookup(fs@, f) == file_lookup(before, f) + if f == path@ { 1nat } else { 0nat } by {
                    if f == path@ {
                        lemma_file_lookup_at(fs@, k as int);
                    } else if exists|i: int| 0 <= i < fs@.len() && fs@[i].path@ == f {
                        let i = choose|i: int| 0 <= i < fs@.len() && fs@[i].path@ == f;
                        lemma_file_lookup_at(fs@, i);
                        lemma_file_lookup_at(before, i);
                    } else {
                        assert(!exists|i: int| 0 <= i < before.len() && before[i].path@ == f) by {
                            if exists|i: int| 0 <= i < before.len() && before[i].path@ == f {
                                let i = choose|i: int| 0 <= i < before.len() && before[i].path@ == f;
                                assert(fs@[i].path@ == f);
                            }
                        }
                    }
                }
            }
            return;
        }
        k = k + 1;
    }
    fs.push(FileCount { path: path.clone(), count: 1 });
    proof {
        assert forall|f: Seq<char>| #[trigger] file_lookup(fs@, f) == file_lookup(before, f) + if f == path@ { 1nat } else { 0nat } by {
            if f == path@ {
                lemma_file_lookup_at(fs@, before.len() as int);
                assert(!exists|i: int| 0 <= i < before.len() && before[i].path@ == f);
            } else if exists|i: int| 0 <= i < fs@.len() && fs@[i].path@ == f {
                let i = choose|i: int| 0 <= i < fs@.len() && fs@[i].path@ == f;
                lemma_file_lookup_at(fs@, i);
                lemma_file_lookup_at(before, i);
            } else {
                assert(!exists|i: int| 0 <= i < before.len() && before[i].path@ == f) by {
                    if exists|i: int| 0 <= i < before.len() && before[i].path@ == f {
                        let i = choose|i: int| 0 <= i < before.len() && before[i].path@ == f;
                        assert(fs@[i].path@ == f);
                    }
                }
            }
        }
    }
}

/// Adds one to the count of a pair.
fn bump_pair(ps: &mut Vec<PairCount>, first: &String, second: &String, Ghost(bound): Ghost<nat>)
    requires
        pairs_wf(old(ps)@),
        forall|p: (Seq<char>, Seq<char>)| pair_lookup(old(ps)@, p) <= bound,
        bound < usize::MAX,
    ensures
        pairs_wf(final(ps)@),
        forall|p: (Seq<char>, Seq<char>)| #[trigger] pair_lookup(final(ps)@, p) == pair_lookup(old(ps)@, p) + if p == (first@, second@) { 1nat } else { 0nat },
{
    let ghost before = ps@;
    let ghost key = (first@, second@);
    let mut k: usize = 0;
    while k < ps.len()
        invariant
            k <= ps@.len(),
            ps@ == before,
            before == old(ps)@,
            pairs_wf(before),
            forall|p: (Seq<char>, Seq<char>)| pair_lookup(before, p) <= bound,
            bound < usize::MAX,
            key == (first@, second@),
            forall|j: int| 0 <= j < k ==> pair_key(ps@[j]) != key,
        decreases ps@.len() - k,
    {
        if ps[k].first == *first && ps[k].second == *second {
            proof {
                lemma_pair_lookup_at(before, k as int);
            }
            let c = ps[k].count + 1;
            ps.set(k, PairCount { first: first.clone(), second: second.clone(), count: c });
            proof {
                assert forall|i: int, j: int| 0 <= i < j < ps@.len() implies pair_key(ps@[i]) != pair_key(ps@[j]) by {
                    assert(pair_key(before[i]) != pair_key(before[j]));
                }
                assert forall|p: (Seq<char>, Seq<char>)| #[trigger] pair_lookup(ps@, p) == pair_lookup(before, p) + if p == key { 1nat } else { 0nat } by {
                    if p == key {
                        lemma_pair_lookup_at(ps@, k as int);
                    } else if exists|i: int| 0 <= i < ps@.len() && pair_key(ps@[i]) == p {
                        let i = choose|i: int| 0 <= i < ps@.len() && pair_key(ps@[i]) == p;
                        lemma_pair_lookup_at(ps@, i);
                        lemma_pair_lookup_at(before, i);
                    } else {
                        assert(!exists|i: int| 0 <= i < before.len() && pair_key(before[i]) == p) by {
                            if exists|i: int| 0 <= i < before.len() && pair_key(before[i]) == p {
                                let i = choose|i: int| 0 <= i < before.len() && pair_key(before[i]) == p;
                                assert(pair_key(ps@[i]) == p);
                            }
                        }
                    }
                }
            }
            return;
        }
        k = k + 1;
    }
    ps.push(PairCount { first: first.clone(), second: second.clone(), count: 1 });
    proof {
        assert forall|p: (Seq<char>, Seq<char>)| #[trigger] pair_lookup(ps@, p) == pair_lookup(before, p) + if p == key { 1nat } else { 0nat } by {
            if p == key {
                lemma_pair_lookup_at(ps@, before.len() as int);
                assert(!exists|i: int| 0 <= i < before.len() && pair_key(before[i]) == p);
            } else if exists|i: int| 0 <= i < ps@.len() && pair_key(ps@[i]) == p {
                let i = choose|i: int| 0 <= i < ps@.len() && pair_key(ps@[i]) == p;
                lemma_pair_lookup_at(ps@, i);
                lemma_pair_lookup_at(before, i);
            } else {
                assert(!exists|i: int| 0 <= i < before.len() && pair_key(before[i]) == p) by {
                    if exists|i: int| 0 <= i < before.len() && pair_key(before[i]) == p {
                        let i = choose|i: int| 0 <= i < before.len() && pair_key(before[i]) == p;
                        assert(pair_key(ps@[i]) == p);
                    }
                }
            }
        }
    }
}


/// The file entries of all commits: a bound on any file's count.
pub open spec fn entry_work(commits: Seq<Seq<Seq<char>>>) -> nat
    decreases commits.len(),
{
    if commits.len() == 0 {
        0
    } else {
        entry_work(commits.drop_last()) + commits.last().len()
    }
}

/// The squared sizes of all commits: a bound on any pair's count.
pub open spec fn pair_work(commits: Seq<Seq<Seq<char>>>) -> nat
    decreases commits.len(),
{
    if commits.len() == 0 {
        0
    } else {
        pair_work(commits.drop_last()) + commits.last().len() * commits.last().len()
    }
}

proof fn lemma_work_prefix(commits: Seq<Seq<Seq<char>>>, k: int)
    requires
        0 <= k <= commits.len(),
    ensures
        entry_work(commits.take(k)) <= entry_work(commits),
        pair_work(commits.take(k)) <= pair_work(commits),
    decreases commits.len() - k,
{
    if k < commits.len() {
        lemma_work_prefix(commits, k + 1);
        assert(commits.take(k + 1).drop_last() =~= commits.take(k));
    } else {
        assert(commits.take(k) =~= commits);
    }
}

proof fn lemma_filter_len(s: Seq<Seq<char>>, indexed: Seq<Seq<char>>)
    ensures
        known_files(s, indexed).len() <= s.len(),
    decreases s.len(),
{
    reveal(Seq::filter);
    if s.len() > 0 {
        lemma_filter_len(s.drop_last(), indexed);
    }
}

fn is_indexed(indexed: &Vec<String>, f: &String) -> (b: bool)
    ensures
        b == crate::sorted::string_views(indexed@).contains(f@),
{
    let ghost iv = crate::sorted::string_views(indexed@);
    let mut k: usize = 0;
    while k < indexed.len()
        invariant
            k <= indexed@.len(),
            iv == crate::sorted::string_views(indexed@),
            forall|j: int| 0 <= j < k ==> iv[j] != f@,
        decreases indexed@.len() - k,
    {
        if indexed[k] == *f {
            assert(iv[k as int] == f@);
            return true;
        }
        k = k + 1;
    }
    false
}

/// The indexed files of a commit, in order.
fn known_of(commit: &Vec<String>, indexed: &Vec<String>) -> (r: Vec<String>)
    ensures
        crate::sorted::string_views(r@) == known_files(crate::sorted::string_views(commit@), crate::sorted::string_views(indexed@)),
{
    let ghost cv = crate::sorted::string_views(commit@);
    let ghost iv = crate::sorted::string_views(indexed@);
    let mut r: Vec<String> = Vec::new();
    let mut k: usize = 0;
    while k < commit.len()
        invariant
            k <= commit@.len(),
            cv == crate::sorted::string_views(commit@),
            iv == crate::sorted::string_views(indexed@),
            crate::sorted::string_views(r@) == known_files(cv.take(k as int), iv),
        decreases commit@.len() - k,
    {
        proof {
            reveal(Seq::filter);
            assert(cv.take(k + 1).drop_last() =~= cv.take(k as int));
        }
        if is_indexed(indexed, &commit[k]) {
            let ghost before = r@;
            r.push(commit[k].clone());
            assert(crate::sorted::string_views(r@) =~= crate::sorted::string_views(before).push(cv[k as int]));
        }
        k = k + 1;
    }
    assert(cv.take(commit@.len() as int) =~= cv);
    r
}

/// Counts, over the commits, how often each indexed file changed and how
/// often each pair of indexed files (in lexicographic order) changed in the
/// same commit. Files that are not indexed are left out before counting.
pub fn count_cochanges(commits: &Vec<Vec<String>>, indexed: &Vec<String>) -> (r: CochangeCounts)
    requires
        entry_work(commit_views(commits@)) < usize::MAX,
        pair_work(commit_views(commits@)) < usize::MAX,
    ensures
        files_wf(r.files@),
        pairs_wf(r.pairs@),
        forall|f: Seq<char>| #[trigger] file_lookup(r.files@, f) == changes_of(commit_views(commits@), crate::sorted::string_views(indexed@), f),
        forall|p: (Seq<char>, Seq<char>)| #[trigger] pair_lookup(r.pairs@, p) == cochanges_of(commit_views(commits@), crate::sorted::string_views(indexed@), p),
{
    let ghost cv = commit_views(commits@);
    let ghost iv = crate::sorted::string_views(indexed@);
    let mut files: Vec<FileCount> = Vec::new();
    let mut pairs: Vec<PairCount> = Vec::new();
    let mut ci: usize = 0;
    while ci < commits.len()
        invariant
            ci <= commits@.len(),
            cv == commit_views(commits@),
            iv == crate::sorted::string_views(indexed@),
            entry_work(cv) < usize::MAX,
            pair_work(cv) < usize::MAX,
            files_wf(files@),
            pairs_wf(pairs@),
            forall|f: Seq<char>| #[trigger] file_lookup(files@, f) == changes_of(cv.take(ci as int), iv, f),
            forall|p: (Seq<char>, Seq<char>)| #[trigger] pair_lookup(pairs@, p) == cochanges_of(cv.take(ci as int), iv, p),
            forall|f: Seq<char>| #[trigger] file_lookup(files@, f) <= entry_work(cv.take(ci as int)),
            forall|p: (Seq<char>, Seq<char>)| #[trigger] pair_lookup(pairs@, p) <= pair_work(cv.take(ci as int)),
        decreases commits@.len() - ci,
    {
        let known = known_of(&commits[ci], indexed);
        let ghost c = cv[ci as int];
        let ghost kv = crate::sorted::string_views(known@);
        let ghost ebase = entry_work(cv.take(ci as int));
        let ghost pbase = pair_work(cv.take(ci as int));
        let ghost prev = cv.take(ci as int);
        proof {
            assert(cv.take(ci + 1).drop_last() =~= prev);
            assert(c == crate::sorted::string_views(commits@[ci as int]@));
            lemma_filter_len(c, iv);
            lemma_work_prefix(cv, ci + 1);
            assert(kv.len() <= c.len());
            assert(ebase + c.len() == entry_work(cv.take(ci + 1)));
            assert(pbase + c.len() * c.len() == pair_work(cv.take(ci + 1)));
        }
        let n = known.len();
        // Single files.
        let mut k: usize = 0;
        while k < n
            invariant
                k <= n,
                n == known@.len(),
                kv == crate::sorted::string_views(known@),
                kv.len() <= c.len(),
                ebase + c.len() < usize::MAX,
                files_wf(files@),
                forall|f: Seq<char>| #[trigger] file_lookup(files@, f) == changes_of(prev, iv, f) + count_in(kv.take(k as int), f),
                forall|f: Seq<char>| #[trigger] file_lookup(files@, f) <= ebase + k,
            decreases n - k,
        {
            bump_file(&mut files, &known[k], Ghost((ebase + k) as nat));
            proof {
                assert(kv.take(k + 1).drop_last() =~= kv.take(k as int));
                assert(kv.take(k + 1).last() == known@[k as int]@);
            }
            k = k + 1;
        }
        // Pairs: each position j with every earlier position i.
        let ghost mut done: nat = 0;
        let mut j: usize = 0;
        while j < n
            invariant
                j <= n,
                n == known@.len(),
                kv == crate::sorted::string_views(known@),
                kv.len() <= c.len(),
                pbase + c.len() * c.len() < usize::MAX,
                done <= j * n,
                pairs_wf(pairs@),
                forall|p: (Seq<char>, Seq<char>)| #[trigger] pair_lookup(pairs@, p) == cochanges_of(prev, iv, p) + pairs_in(kv.take(j as int), p),
                forall|p: (Seq<char>, Seq<char>)| #[trigger] pair_lookup(pairs@, p) <= pbase + done,
            decreases n - j,
        {
            let ys = crate::text::chars_of(known[j].as_str());
            let mut i: usize = 0;
            while i < j
                invariant
                    i <= j < n,
                    n == known@.len(),
                    kv == crate::sorted::string_views(known@),
                    kv.len() <= c.len(),
                    ys@ == kv[j as int],
                    pbase + c.len() * c.len() < usize::MAX,
                    done <= j * n + i,
                    pairs_wf(pairs@),
                    forall|p: (Seq<char>, Seq<char>)| #[trigger] pair_lookup(pairs@, p) == cochanges_of(prev, iv, p) + pairs_in(kv.take(j as int), p) + pairs_with(kv.take(i as int), kv[j as int], p),
                    forall|p: (Seq<char>, Seq<char>)| #[trigger] pair_lookup(pairs@, p) <= pbase + done,
                decreases j - i,
            {
                proof {
                    assert(j * n + i + 1 <= n * n) by (nonlinear_arith)
                        requires
                            i < j,
                            j < n,
                    {
                        assert((j + 1) * n <= n * n);
                    }
                    assert(n * n <= c.len() * c.len()) by (nonlinear_arith)
                        requires
                            n <= c.len(),
                    ;
                }
                let xs = crate::text::chars_of(known[i].as_str());
                if crate::sorted::lex_less(xs.as_slice(), ys.as_slice()) {
                    bump_pair(&mut pairs, &known[i], &known[j], Ghost(pbase + done));
                } else {
                    bump_pair(&mut pairs, &known[j], &known[i], Ghost(pbase + done));
                }
                proof {
                    done = done + 1;
                    assert(kv.take(i + 1).drop_last() =~= kv.take(i as int));
                    assert(kv.take(i + 1).last() == kv[i as int]);
                    assert(kv[i as int] == known@[i as int]@);
                    assert(kv[j as int] == known@[j as int]@);
                }
                i = i + 1;
            }
            proof {
                assert(kv.take(j + 1).drop_last() =~= kv.take(j as int));
                assert(kv.take(j + 1).last() == kv[j as int]);
                assert(kv.take(j as int).len() == j);
                assert(kv.take(j as int) =~= kv.take(i as int));
                assert(j * n + j <= (j + 1) * n) by (nonlinear_arith)
                    requires
                        j < n,
                ;
            }
            j = j + 1;
        }
        proof {
            assert(kv.take(n as int) =~= kv);
            assert(n * n <= c.len() * c.len()) by (nonlinear_arith)
                requires
                    n <= c.len(),
            ;
            assert(done <= n * n);
            assert(cv.take(ci + 1).last() == c);
        }
        ci = ci + 1;
    }
    assert(cv.take(commits@.len() as int) =~= cv);
    CochangeCounts { files, pairs }
}


/// A pair of files that changed together often enough to be weighed, with
/// the change counts its correlation is computed from.
pub struct CochangeCandidate {
    pub first: String,
    pub second: String,
    pub cochanges: usize,
    pub first_changes: usize,
    pub second_changes: usize,
}

/// A file's change count, taken as one when it has none.
pub open spec fn changes_or_one(fs: Seq<FileCount>, f: Seq<char>) -> nat {
    if file_lookup(fs, f) == 0 {
        1
    } else {
        file_lookup(fs, f)
    }
}

/// A candidate as plain values.
pub open spec fn candidate_view(c: CochangeCandidate) -> (Seq<char>, Seq<char>, nat, nat, nat) {
    (c.first@, c.second@, c.cochanges as nat, c.first_changes as nat, c.second_changes as nat)
}

/// The candidate a pair count gives.
pub open spec fn candidate_of(fs: Seq<FileCount>, p: PairCount) -> (Seq<char>, Seq<char>, nat, nat, nat) {
    (p.first@, p.second@, p.count as nat, changes_or_one(fs, p.first@), changes_or_one(fs, p.second@))
}

fn changes_for(files: &Vec<FileCount>, path: &String) -> (n: usize)
    requires
        files_wf(files@),
    ensures
        n == changes_or_one(files@, path@),
{
    let mut k: usize = 0;
    while k < files.len()
        invariant
            k <= files@.len(),
            files_wf(files@),
            forall|j: int| 0 <= j < k ==> files@[j].path@ != path@,
        decreases files@.len() - k,
    {
        if files[k].path == *path {
            proof {
                lemma_file_lookup_at(files@, k as int);
            }
            return files[k].count;
        }
        k = k + 1;
    }
    1
}

/// The pairs that changed together in at least `min_commits` commits, in
/// the order they were counted, each with both files' change counts.
pub fn cochange_candidates(counts: &CochangeCounts, min_commits: usize) -> (r: Vec<CochangeCandidate>)
    requires
        files_wf(counts.files@),
    ensures
        r@.map_values(|c: CochangeCandidate| candidate_view(c)) == counts.pairs@.filter(
            |p: PairCount| p.count >= min_commits,
        ).map_values(|p: PairCount| candidate_of(counts.files@, p)),
{
    let ghost ps = counts.pairs@;
    let ghost fs = counts.files@;
    let mut r: Vec<CochangeCandidate> = Vec::new();
    let mut i: usize = 0;
    while i < counts.pairs.len()
        invariant
            i <= ps.len(),
            ps == counts.pairs@,
            fs == counts.files@,
            files_wf(fs),
            r@.map_values(|c: CochangeCandidate| candidate_view(c)) == ps.take(i as int).filter(
                |p: PairCount| p.count >= min_commits,
            ).map_values(|p: PairCount| candidate_of(fs, p)),
        decreases ps.len() - i,
    {
        proof {
            reveal(Seq::filter);
            assert(ps.take(i + 1).drop_last() =~= ps.take(i as int));
        }
        let p = &counts.pairs[i];
        if p.count >= min_commits {
            let ghost before = r@;
            let a = changes_for(&counts.files, &p.first);
            let b = changes_for(&counts.files, &p.second);
            r.push(CochangeCandidate {
                first: p.first.clone(),
                second: p.second.clone(),
                cochanges: p.count,
                first_changes: a,
                second_changes: b,
            });
            proof {
                let fl = ps.take(i as int).filter(|p: PairCount| p.count >= min_commits);
                assert(ps.take(i + 1).filter(|p: PairCount| p.count >= min_commits) == fl.push(ps[i as int]));
                assert(r@.map_values(|c: CochangeCandidate| candidate_view(c)) =~= before.map_values(
                    |c: CochangeCandidate| candidate_view(c),
                ).push(candidate_of(fs, ps[i as int])));
                assert(fl.push(ps[i as int]).map_values(|p: PairCount| candidate_of(fs, p)) =~= fl.map_values(
                    |p: PairCount| candidate_of(fs, p),
                ).push(candidate_of(fs, ps[i as int])));
            }
        }
        i = i + 1;
    }
    assert(ps.take(ps.len() as int) =~= ps);
    r
}


proof fn lemma_ordered_match(x: Seq<char>, a: Seq<char>, b: Seq<char>)
    requires
        a != b,
    ensures
        (ordered(x, a) == ordered(a, b)) == (x == b),
{
    crate::sorted::lemma_lex_asym(a, b);
    crate::sorted::lemma_lex_total(a, b);
}

proof fn lemma_count_in_distinct(s: Seq<Seq<char>>, f: Seq<char>)
    requires
        s.no_duplicates(),
    ensures
        count_in(s, f) == if s.contains(f) { 1nat } else { 0nat },
    decreases s.len(),
{
    if s.len() > 0 {
        let t = s.drop_last();
        assert(t.no_duplicates());
        lemma_count_in_distinct(t, f);
        if s.last() == f {
            assert(!t.contains(f)) by {
                if t.contains(f) {
                    let i = choose|i: int| 0 <= i < t.len() && t[i] == f;
                    assert(s[i] == s[s.len() - 1]);
                }
            }
            assert(s[s.len() - 1] == f);
        } else {
            assert(s.contains(f) == t.contains(f)) by {
                if s.contains(f) {
                    let i = choose|i: int| 0 <= i < s.len() && s[i] == f;
                    assert(i < s.len() - 1);
                    assert(t[i] == f);
                }
                if t.contains(f) {
                    let i = choose|i: int| 0 <= i < t.len() && t[i] == f;
                    assert(s[i] == f);
                }
            }
        }
    }
}

proof fn lemma_pairs_with_is_count(prefix: Seq<Seq<char>>, a: Seq<char>, b: Seq<char>)
    requires
        a != b,
    ensures
        pairs_with(prefix, a, ordered(a, b)) == count_in(prefix, b),
        pairs_with(prefix, b, ordered(a, b)) == count_in(prefix, a),
    decreases prefix.len(),
{
    if prefix.len() > 0 {
        lemma_pairs_with_is_count(prefix.drop_last(), a, b);
        lemma_ordered_match(prefix.last(), a, b);
        lemma_ordered_match(prefix.last(), b, a);
        crate::sorted::lemma_lex_asym(a, b);
        crate::sorted::lemma_lex_total(a, b);
        assert(ordered(b, a) == ordered(a, b));
    }
}

proof fn lemma_pairs_with_other(prefix: Seq<Seq<char>>, y: Seq<char>, a: Seq<char>, b: Seq<char>)
    requires
        y != a,
        y != b,
    ensures
        pairs_with(prefix, y, ordered(a, b)) == 0,
    decreases prefix.len(),
{
    if prefix.len() > 0 {
        lemma_pairs_with_other(prefix.drop_last(), y, a, b);
    }
}

proof fn lemma_pairs_in_distinct(s: Seq<Seq<char>>, a: Seq<char>, b: Seq<char>)
    requires
        s.no_duplicates(),
        a != b,
    ensures
        pairs_in(s, ordered(a, b)) == if s.contains(a) && s.contains(b) { 1nat } else { 0nat },
    decreases s.len(),
{
    if s.len() > 0 {
        let t = s.drop_last();
        let y = s.last();
        assert(t.no_duplicates());
        lemma_pairs_in_distinct(t, a, b);
        lemma_count_in_distinct(t, a);
        lemma_count_in_distinct(t, b);
        assert(!t.contains(y)) by {
            if t.contains(y) {
                let i = choose|i: int| 0 <= i < t.len() && t[i] == y;
                assert(s[i] == s[s.len() - 1]);
            }
        }
        assert forall|f: Seq<char>| f != y implies s.contains(f) == t.contains(f) by {
            if s.contains(f) {
                let i = choose|i: int| 0 <= i < s.len() && s[i] == f;
                assert(i < s.len() - 1);
                assert(t[i] == f);
            }
            if t.contains(f) {
                let i = choose|i: int| 0 <= i < t.len() && t[i] == f;
                assert(s[i] == f);
            }
        }
        assert(s.contains(y)) by {
            assert(s[s.len() - 1] == y);
        }
        if y == a {
            lemma_pairs_with_is_count(t, a, b);
        } else if y == b {
            lemma_pairs_with_is_count(t, a, b);
        } else {
            lemma_pairs_with_other(t, y, a, b);
        }
    }
}

proof fn lemma_filter_distinct(c: Seq<Seq<char>>, indexed: Seq<Seq<char>>)
    requires
        c.no_duplicates(),
    ensures
        known_files(c, indexed).no_duplicates(),
        forall|f: Seq<char>| #[trigger] known_files(c, indexed).contains(f) ==> c.contains(f),
    decreases c.len(),
{
    reveal(Seq::filter);
    if c.len() > 0 {
        let t = c.drop_last();
        assert(t.no_duplicates());
        lemma_filter_distinct(t, indexed);
        let kt = known_files(t, indexed);
        assert(!t.contains(c.last())) by {
            if t.contains(c.last()) {
                let i = choose|i: int| 0 <= i < t.len() && t[i] == c.last();
                assert(c[i] == c[c.len() - 1]);
            }
        }
        assert forall|f: Seq<char>| #[trigger] kt.contains(f) implies c.contains(f) by {
            let i = choose|i: int| 0 <= i < t.len() && t[i] == f;
            assert(c[i] == f);
        }
        assert(c.contains(c.last())) by {
            assert(c[c.len() - 1] == c.last());
        }
        if indexed.contains(c.last()) {
            let k = known_files(c, indexed);
            assert(k == kt.push(c.last()));
            assert forall|i: int, j: int| 0 <= i < j < k.len() implies k[i] != k[j] by {
                if j == k.len() - 1 {
                    if k[i] == k[j] {
                        assert(kt.contains(c.last()));
                    }
                }
            }
            assert forall|f: Seq<char>| #[trigger] k.contains(f) implies c.contains(f) by {
                let i = choose|i: int| 0 <= i < k.len() && k[i] == f;
                if i < kt.len() {
                    assert(kt[i] == f);
                    assert(kt.contains(f));
                }
            }
        }
    }
}

/// A commit lists each file once.
pub open spec fn commits_distinct(commits: Seq<Seq<Seq<char>>>) -> bool {
    forall|i: int| 0 <= i < commits.len() ==> (#[trigger] commits[i]).no_duplicates()
}

/// When no commit lists a file twice, two different files never changed
/// together more often than either of them changed.
pub proof fn law_cochanges_bounded_by_changes(
    commits: Seq<Seq<Seq<char>>>,
    indexed: Seq<Seq<char>>,
    a: Seq<char>,
    b: Seq<char>,
)
    requires
        commits_distinct(commits),
        a != b,
    ensures
        cochanges_of(commits, indexed, ordered(a, b)) <= changes_of(commits, indexed, a),
        cochanges_of(commits, indexed, ordered(a, b)) <= changes_of(commits, indexed, b),
    decreases commits.len(),
{
    if commits.len() > 0 {
        let t = commits.drop_last();
        assert(commits_distinct(t)) by {
            assert forall|i: int| 0 <= i < t.len() implies (#[trigger] t[i]).no_duplicates() by {
                assert(t[i] == commits[i]);
            }
        }
        law_cochanges_bounded_by_changes(t, indexed, a, b);
        assert(commits.last() == commits[commits.len() - 1]);
        let k = known_files(commits.last(), indexed);
        lemma_filter_distinct(commits.last(), indexed);
        lemma_pairs_in_distinct(k, a, b);
        lemma_count_in_distinct(k, a);
        lemma_count_in_distinct(k, b);
    }
}

} // verus!
