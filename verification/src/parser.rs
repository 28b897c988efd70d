//! Reading a model's review response: finding the JSON it holds despite
//! surrounding prose, salvaging complete objects from a truncated response,
//! and stripping leaked reasoning from finding texts.
use vstd::prelude::*;
use crate::integrity::{any_pattern_found, any_pattern_in, ParseQuality, ParsedResponse};
use crate::text::{
    chars_of, char_is_alphabetic, find, find_from, first_occurrence, is_alphabetic, occurs_at,
    seq_contains, skip_ws, string_of, string_of_range, to_lowercase, trim_bounds, trim_chars,
    trim_spec, unicode_lowercase, append_chars, push_char,
};
use crate::types::Finding;

verus! {

/// Phrases that betray leaked chain-of-thought reasoning.
pub const COT_PATTERNS: [&'static str; 37] = [
    "let me think",
    "let's look",
    "let me analyze",
    "actually,",
    "wait,",
    "however, there is",
    "however, the",
    "i need to",
    "i should",
    "i will",
    "the code slices",
    "the real issue",
    "more critically",
    "more significantly",
    "let's look closer",
    "looking at",
    "examining",
    "checking",
    "the most concrete",
    "the most significant",
    "a more significant",
    "a potential panic",
    "potential panic",
    "this is likely",
    "this is technically",
    "while this is",
    "if this is",
    "if the",
    "if git_sha",
    "if record",
    "but the",
    "but if",
    "so the",
    "so no",
    "so it",
    "wait,",
    "actually",
];

/// A response leaks reasoning when its lower-cased text holds a reasoning
/// phrase.
pub open spec fn has_cot_spec(text: Seq<char>) -> bool {
    any_pattern_in(unicode_lowercase(text), COT_PATTERNS@)
}

/// Whether a response holds leaked chain-of-thought phrases.
pub fn contains_cot_patterns(response: &str) -> (b: bool)
    ensures
        b == has_cot_spec(response@),
{
    let lower = to_lowercase(response);
    let lc = chars_of(lower.as_str());
    any_pattern_found(lc.as_slice(), &COT_PATTERNS)
}

/// Whether a raw response shows chain-of-thought leakage that warrants a
/// repair pass.
pub fn has_chain_of_thought(response: &str) -> (b: bool)
    ensures
        b == has_cot_spec(response@),
{
    contains_cot_patterns(response)
}

// ---------------------------------------------------------------------------
// The brace scanner
// ---------------------------------------------------------------------------

/// The state of a scan for balanced braces outside JSON strings.
pub struct ScanState {
    pub depth: nat,
    pub in_string: bool,
    pub escape: bool,
}

/// One step of the brace scanner: inside a string, a backslash escapes the
/// next character and an unescaped quote ends the string; outside, a quote
/// starts a string and braces open and close (a close at depth zero is
/// ignored).
pub open spec fn scan_step(st: ScanState, c: char) -> ScanState {
    if st.in_string {
        if st.escape {
            ScanState { escape: false, ..st }
        } else if c == '\\' {
            ScanState { escape: true, ..st }
        } else if c == '"' {
            ScanState { in_string: false, ..st }
        } else {
            st
        }
    } else if c == '"' {
        ScanState { in_string: true, ..st }
    } else if c == '{' {
        ScanState { depth: st.depth + 1, ..st }
    } else if c == '}' && st.depth > 0 {
        ScanState { depth: (st.depth - 1) as nat, ..st }
    } else {
        st
    }
}

/// The scanner's state after reading `s[from..k]` from a fresh start.
pub open spec fn scan_to(s: Seq<char>, from: int, k: int) -> ScanState
    decreases k - from,
{
    if k <= from {
        ScanState { depth: 0, in_string: false, escape: false }
    } else {
        scan_step(scan_to(s, from, k - 1), s[k - 1])
    }
}

/// Reading `s[k]` from `from` closes the outermost object: the character is
/// a closing brace outside a string at depth one.
pub open spec fn closes_at(s: Seq<char>, from: int, k: int) -> bool {
    let st = scan_to(s, from, k);
    !st.in_string && s[k] == '}' && st.depth == 1
}

/// The outermost balanced object starting at the first opening brace, if it
/// closes.
pub open spec fn json_object_spec(s: Seq<char>) -> Option<Seq<char>> {
    match find_spec_char(s, '{') {
        None => None,
        Some(a) => if exists|k: int| a <= k < s.len() && closes_at(s, a, k) {
            let e = choose|k: int|
                a <= k < s.len() && closes_at(s, a, k) && forall|j: int|
                    a <= j < k ==> !closes_at(s, a, j);
            Some(s.subrange(a, e + 1))
        } else {
            None
        },
    }
}

/// The first index of a character.
pub open spec fn find_spec_char(s: Seq<char>, c: char) -> Option<int> {
    if exists|i: int| 0 <= i < s.len() && s[i] == c {
        Some(choose|i: int| 0 <= i < s.len() && s[i] == c && forall|j: int| 0 <= j < i ==> s[j] != c)
    } else {
        None
    }
}

/// The first index of a character in a slice.
pub fn find_char(s: &[char], c: char) -> (r: Option<usize>)
    ensures
        r matches Some(i) ==> i < s@.len() && s@[i as int] == c && forall|j: int|
            0 <= j < i ==> s@[j] != c,
        r matches Some(i) ==> find_spec_char(s@, c) == Some(i as int),
        r is None ==> find_spec_char(s@, c) is None,
{
    let mut i: usize = 0;
    while i < s.len()
        invariant
            i <= s@.len(),
            forall|j: int| 0 <= j < i ==> s@[j] != c,
        decreases s@.len() - i,
    {
        if s[i] == c {
            proof {
                let w = choose|w: int|
                    0 <= w < s@.len() && s@[w] == c && forall|j: int| 0 <= j < w ==> s@[j] != c;
                if w < i {
                } else if w > i {
                    assert(s@[i as int] == c);
                }
            }
            return Some(i);
        }
        i = i + 1;
    }
    None
}

/// The last index of a character in a slice.
pub fn rfind_char(s: &[char], c: char) -> (r: Option<usize>)
    ensures
        r matches Some(i) ==> i < s@.len() && s@[i as int] == c && forall|j: int|
            i < j < s@.len() ==> s@[j] != c,
        r is None ==> forall|j: int| 0 <= j < s@.len() ==> s@[j] != c,
{
    let mut i: usize = s.len();
    while i > 0
        invariant
            i <= s@.len(),
            forall|j: int| i <= j < s@.len() ==> s@[j] != c,
        decreases i,
    {
        if s[i - 1] == c {
            return Some(i - 1);
        }
        i = i - 1;
    }
    None
}

fn step_exec(depth: usize, in_string: bool, escape: bool, c: char, Ghost(st): Ghost<ScanState>) -> (r: (usize, bool, bool))
    requires
        st.depth == depth,
        st.in_string == in_string,
        st.escape == escape,
        depth < usize::MAX,
    ensures
        scan_step(st, c).depth == r.0,
        scan_step(st, c).in_string == r.1,
        scan_step(st, c).escape == r.2,
{
    if in_string {
        if escape {
            (depth, in_string, false)
        } else if c == '\\' {
            (depth, in_string, true)
        } else if c == '"' {
            (depth, false, escape)
        } else {
            (depth, in_string, escape)
        }
    } else if c == '"' {
        (depth, true, escape)
    } else if c == '{' {
        (depth + 1, in_string, escape)
    } else if c == '}' && depth > 0 {
        (depth - 1, in_string, escape)
    } else {
        (depth, in_string, escape)
    }
}

proof fn lemma_scan_depth_bound(s: Seq<char>, from: int, k: int)
    requires
        from <= k,
    ensures
        scan_to(s, from, k).depth <= k - from,
    decreases k - from,
{
    if k > from {
        lemma_scan_depth_bound(s, from, k - 1);
    }
}

proof fn lemma_first_close(s: Seq<char>, a: int, k: int)
    requires
        0 <= a <= k < s.len(),
        find_spec_char(s, '{') == Some(a),
        closes_at(s, a, k),
        forall|j: int| a <= j < k ==> !closes_at(s, a, j),
    ensures
        json_object_spec(s) == Some(s.subrange(a, k + 1)),
{
    let e = choose|e: int|
        a <= e < s.len() && closes_at(s, a, e) && forall|j: int| a <= j < e ==> !closes_at(s, a, j);
    if e < k {
    } else if e > k {
        assert(!closes_at(s, a, k));
    }
}

/// The outermost balanced JSON object of a response that may carry prose
/// around it: from the first `{` to the brace that closes it.
#[verifier::rlimit(40)]
#[verifier::spinoff_prover]
pub fn extract_json_object(input: &[char]) -> (r: Option<Vec<char>>)
    ensures
        match r {
            Some(v) => json_object_spec(input@) == Some(v@),
            None => json_object_spec(input@) is None,
        },
{
    let start = match find_char(input, '{') {
        None => return None,
        Some(a) => a,
    };
    let mut depth: usize = 0;
    let mut in_string = false;
    let mut escape = false;
    let mut k: usize = start;
    while k < input.len()
        invariant
            start <= k <= input@.len(),
            find_spec_char(input@, '{') == Some(start as int),
            scan_to(input@, start as int, k as int).depth == depth,
            scan_to(input@, start as int, k as int).in_string == in_string,
            scan_to(input@, start as int, k as int).escape == escape,
            forall|j: int| start <= j < k ==> !closes_at(input@, start as int, j),
        decreases input@.len() - k,
    {
        let c = input[k];
        if !in_string && c == '}' && depth == 1 {
            proof {
                lemma_first_close(input@, start as int, k as int);
            }
            let out = crate::split::copy_range(input, start, k + 1);
            return Some(out);
        }
        proof {
            lemma_scan_depth_bound(input@, start as int, k as int);
        }
        let ghost st = scan_to(input@, start as int, k as int);
        let (d2, s2, e2) = step_exec(depth, in_string, escape, c, Ghost(st));
        depth = d2;
        in_string = s2;
        escape = e2;
        k = k + 1;
    }
    None
}

// ---------------------------------------------------------------------------
// Salvaging complete objects
// ---------------------------------------------------------------------------

/// The balanced objects found in `s[0..k]`, and where an unfinished one
/// starts, by the same scanner (objects are closed at depth one; stray
/// closing braces at depth zero are skipped).
pub open spec fn objects_to(s: Seq<char>, k: int) -> (Seq<Seq<char>>, Option<int>)
    decreases k,
{
    if k <= 0 {
        (Seq::empty(), None)
    } else {
        let prev = objects_to(s, k - 1);
        let st = scan_to(s, 0, k - 1);
        let c = s[k - 1];
        if !st.in_string && c == '{' && st.depth == 0 {
            (prev.0, Some(k - 1))
        } else if !st.in_string && c == '}' && st.depth == 1 {
            match prev.1 {
                Some(a) => (prev.0.push(s.subrange(a, k)), None),
                None => prev,
            }
        } else {
            prev
        }
    }
}

/// Every complete, balanced `{...}` object of a text, in order.
pub open spec fn balanced_objects_spec(s: Seq<char>) -> Seq<Seq<char>> {
    objects_to(s, s.len() as int).0
}

proof fn lemma_objects_start(s: Seq<char>, k: int)
    requires
        0 <= k <= s.len(),
    ensures
        objects_to(s, k).1 matches Some(a) ==> 0 <= a < k,
    decreases k,
{
    if k > 0 {
        lemma_objects_start(s, k - 1);
    }
}

/// All complete balanced objects of a text.
pub fn extract_balanced_objects(input: &[char]) -> (r: Vec<Vec<char>>)
    ensures
        r@.map_values(|v: Vec<char>| v@) == balanced_objects_spec(input@),
{
    let mut objects: Vec<Vec<char>> = Vec::new();
    let mut start: Option<usize> = None;
    let mut depth: usize = 0;
    let mut in_string = false;
    let mut escape = false;
    let mut k: usize = 0;
    while k < input.len()
        invariant
            k <= input@.len(),
            scan_to(input@, 0, k as int).depth == depth,
            scan_to(input@, 0, k as int).in_string == in_string,
            scan_to(input@, 0, k as int).escape == escape,
            objects@.map_values(|v: Vec<char>| v@) == objects_to(input@, k as int).0,
            start == (match objects_to(input@, k as int).1 {
                Some(a) => Some(a as usize),
                None => None::<usize>,
            }),
        decreases input@.len() - k,
    {
        let c = input[k];
        proof {
            lemma_scan_depth_bound(input@, 0, k as int);
            lemma_objects_start(input@, k as int);
        }
        if !in_string && c == '{' && depth == 0 {
            start = Some(k);
        } else if !in_string && c == '}' && depth == 1 {
            match start {
                Some(a) => {
                    let piece = crate::split::copy_range(input, a, k + 1);
                    let ghost old_objs = objects@;
                    objects.push(piece);
                    assert(objects@.map_values(|v: Vec<char>| v@) =~= old_objs.map_values(
                        |v: Vec<char>| v@,
                    ).push(input@.subrange(a as int, k + 1)));
                    start = None;
                },
                None => {},
            }
        }
        let ghost st = scan_to(input@, 0, k as int);
        let (d2, s2, e2) = step_exec(depth, in_string, escape, c, Ghost(st));
        depth = d2;
        in_string = s2;
        escape = e2;
        k = k + 1;
    }
    objects
}

// ---------------------------------------------------------------------------
// Sanitising finding texts
// ---------------------------------------------------------------------------

/// Sentence delimiters for sanitising.
pub open spec fn is_sentence_break(c: char) -> bool {
    c == '.' || c == '!' || c == '?' || c == '\n'
}

/// Index of the first sentence break at or after `i`, or the length.
pub open spec fn next_break(s: Seq<char>, i: int) -> int
    decreases s.len() - i,
{
    if i < 0 {
        next_break(s, 0)
    } else if i >= s.len() {
        s.len() as int
    } else if is_sentence_break(s[i]) {
        i
    } else {
        next_break(s, i + 1)
    }
}

pub proof fn lemma_next_break(s: Seq<char>, i: int)
    requires
        0 <= i <= s.len(),
    ensures
        i <= next_break(s, i) <= s.len(),
        next_break(s, i) < s.len() ==> is_sentence_break(s[next_break(s, i)]),
    decreases s.len() - i,
{
    if i < s.len() && !is_sentence_break(s[i]) {
        lemma_next_break(s, i + 1);
    }
}

/// The pieces of `s` between sentence breaks from index `i` on (empty
/// pieces included, as `str::split` yields them).
pub open spec fn sentences_from(s: Seq<char>, i: int) -> Seq<Seq<char>>
    decreases s.len() + 1 - i,
{
    if i < 0 || i > s.len() {
        Seq::empty()
    } else {
        let e = next_break(s, i);
        proof {
            lemma_next_break(s, i);
        }
        if e >= s.len() {
            seq![s.subrange(i, s.len() as int)]
        } else {
            seq![s.subrange(i, e)] + sentences_from(s, e + 1)
        }
    }
}

/// Index of the first alphabetic character at or after `i`, or the length.
pub open spec fn skip_non_alpha(s: Seq<char>, i: int) -> int
    decreases s.len() - i,
{
    if i < 0 {
        skip_non_alpha(s, 0)
    } else if i >= s.len() {
        s.len() as int
    } else if char_is_alphabetic(s[i]) {
        i
    } else {
        skip_non_alpha(s, i + 1)
    }
}

/// `trim_start_matches(|c| !c.is_alphabetic())` followed by `trim`.
pub open spec fn clean_start(s: Seq<char>) -> Seq<char> {
    trim_spec(s.subrange(skip_non_alpha(s, 0), s.len() as int))
}

pub proof fn lemma_skip_non_alpha(s: Seq<char>, i: int)
    requires
        0 <= i <= s.len(),
    ensures
        i <= skip_non_alpha(s, i) <= s.len(),
    decreases s.len() - i,
{
    if i < s.len() && !char_is_alphabetic(s[i]) {
        lemma_skip_non_alpha(s, i + 1);
    }
}

/// The first sentence without reasoning phrases, in the list from `k` on.
pub open spec fn first_clean_sentence(ss: Seq<Seq<char>>, k: int) -> Option<Seq<char>>
    decreases ss.len() - k,
{
    if k < 0 || k >= ss.len() {
        None
    } else {
        let s = trim_spec(ss[k]);
        if s.len() != 0 && !has_cot_spec(s) {
            Some(s)
        } else {
            first_clean_sentence(ss, k + 1)
        }
    }
}

/// The text after the first reasoning phrase (pattern order) whose cleaned
/// remainder is longer than five bytes in UTF-8, scanning patterns from
/// `k`. A phrase is found in the lower-cased text and the cut is made at
/// the same character position of the text as it stands; where
/// lower-casing changes the number of characters before the phrase, that
/// position no longer follows the phrase, and a cut past the text's end is
/// no cut.
pub open spec fn tail_after_pattern(
    trimmed: Seq<char>,
    lower: Seq<char>,
    k: int,
) -> Option<Seq<char>>
    decreases COT_PATTERNS@.len() - k,
{
    if k < 0 || k >= COT_PATTERNS@.len() {
        None
    } else {
        let p = COT_PATTERNS@[k]@;
        match crate::text::find_spec(lower, p) {
            Some(pos) => {
                let cut = pos + p.len();
                if cut <= trimmed.len() && crate::verify::byte_len(
                    clean_start(trimmed.subrange(cut, trimmed.len() as int)),
                ) > 5 {
                    Some(clean_start(trimmed.subrange(cut, trimmed.len() as int)))
                } else {
                    tail_after_pattern(trimmed, lower, k + 1)
                }
            },
            None => tail_after_pattern(trimmed, lower, k + 1),
        }
    }
}

/// What sanitising leaves of a text: the trimmed text when it holds no
/// reasoning phrase; otherwise its first clean sentence (cleaned, with a
/// full stop), else the substantial text after the first reasoning phrase
/// that has some (see `tail_after_pattern` for where it is cut), else the
/// trimmed text.
pub open spec fn sanitize_spec(text: Seq<char>) -> Seq<char> {
    let trimmed = trim_spec(text);
    let lower = unicode_lowercase(trimmed);
    if trimmed.len() == 0 {
        Seq::empty()
    } else if !any_pattern_in(lower, COT_PATTERNS@) {
        trimmed
    } else {
        match first_clean_sentence(sentences_from(trimmed, 0), 0) {
            Some(s) => clean_start(s).push('.'),
            None => match tail_after_pattern(trimmed, lower, 0) {
                Some(t) => t,
                None => trimmed,
            },
        }
    }
}

/// `clean_start` on characters.
fn clean_start_exec(s: &[char]) -> (r: Vec<char>)
    ensures
        r@ == clean_start(s@),
{
    let mut i: usize = 0;
    proof {
        lemma_skip_non_alpha(s@, 0);
    }
    while i < s.len() && !is_alphabetic(s[i])
        invariant
            i <= s@.len(),
            skip_non_alpha(s@, 0) == skip_non_alpha(s@, i as int),
        decreases s@.len() - i,
    {
        i = i + 1;
    }
    let rest = crate::split::copy_range(s, i, s.len());
    trim_chars(rest.as_slice())
}

/// Sentence pieces of a text, split at `.`, `!`, `?` and line feeds.
fn sentences(s: &[char]) -> (r: Vec<Vec<char>>)
    ensures
        r@.map_values(|v: Vec<char>| v@) == sentences_from(s@, 0),
{
    let mut r: Vec<Vec<char>> = Vec::new();
    let mut i: usize = 0;
    loop
        invariant
            i <= s@.len(),
            r@.map_values(|v: Vec<char>| v@) + sentences_from(s@, i as int) == sentences_from(
                s@,
                0,
            ),
        decreases s@.len() - i,
    {
        proof {
            lemma_next_break(s@, i as int);
        }
        let mut e = i;
        while e < s.len() && !(s[e] == '.' || s[e] == '!' || s[e] == '?' || s[e] == '\n')
            invariant
                i <= e <= s@.len(),
                next_break(s@, i as int) == next_break(s@, e as int),
            decreases s@.len() - e,
        {
            e = e + 1;
        }
        let piece = crate::split::copy_range(s, i, e);
        let ghost old_r = r@;
        r.push(piece);
        assert(r@.map_values(|v: Vec<char>| v@) =~= old_r.map_values(|v: Vec<char>| v@).push(
            s@.subrange(i as int, e as int),
        ));
        if e >= s.len() {
            assert(sentences_from(s@, i as int) == seq![s@.subrange(i as int, s@.len() as int)]);
            assert(r@.map_values(|v: Vec<char>| v@) =~= sentences_from(s@, 0));
            return r;
        }
        assert(sentences_from(s@, i as int) == seq![s@.subrange(i as int, e as int)]
            + sentences_from(s@, e + 1));
        assert(r@.map_values(|v: Vec<char>| v@) + sentences_from(s@, e + 1) =~= sentences_from(
            s@,
            0,
        ));
        i = e + 1;
    }
}

/// Removes leaked chain-of-thought narration from a finding's text.
pub fn sanitize_text(text: &str) -> (r: String)
    ensures
        r@ == sanitize_spec(text@),
{
    let chars = chars_of(text);
    let trimmed = trim_chars(chars.as_slice());
    if trimmed.len() == 0 {
        return String::new();
    }
    let trimmed_s = string_of(trimmed.as_slice());
    let lower_s = to_lowercase(trimmed_s.as_str());
    let lower = chars_of(lower_s.as_str());
    assert(trimmed@ == trim_spec(text@));
    assert(lower@ == unicode_lowercase(trimmed@));
    if !any_pattern_found(lower.as_slice(), &COT_PATTERNS) {
        return trimmed_s;
    }
    let ss = sentences(trimmed.as_slice());
    let mut k: usize = 0;
    while k < ss.len()
        invariant
            trimmed@ == trim_spec(text@),
            lower@ == unicode_lowercase(trimmed@),
            any_pattern_in(lower@, COT_PATTERNS@),
            trimmed@.len() != 0,
            k <= ss@.len(),
            ss@.map_values(|v: Vec<char>| v@) == sentences_from(trimmed@, 0),
            first_clean_sentence(sentences_from(trimmed@, 0), 0) == first_clean_sentence(
                sentences_from(trimmed@, 0),
                k as int,
            ),
        decreases ss@.len() - k,
    {
        let s = trim_chars(ss[k].as_slice());
        assert(ss@[k as int]@ == sentences_from(trimmed@, 0)[k as int]);
        if s.len() != 0 {
            let s_str = string_of(s.as_slice());
            let s_lower = to_lowercase(s_str.as_str());
            let slc = chars_of(s_lower.as_str());
            if !any_pattern_found(slc.as_slice(), &COT_PATTERNS) {
                assert(first_clean_sentence(sentences_from(trimmed@, 0), k as int) == Some(s@));
                let mut out = clean_start_exec(s.as_slice());
                out.push('.');
                assert(any_pattern_in(unicode_lowercase(trim_spec(text@)), COT_PATTERNS@));
                assert(trim_spec(text@).len() != 0);
                assert(sentences_from(trim_spec(text@), 0) == sentences_from(trimmed@, 0));
                assert(sanitize_spec(text@) == clean_start(s@).push('.'));
                return string_of(out.as_slice());
            }
        }
        k = k + 1;
    }
    assert(first_clean_sentence(sentences_from(trimmed@, 0), 0) is None);
    let mut p: usize = 0;
    while p < COT_PATTERNS.len()
        invariant
            trimmed@ == trim_spec(text@),
            lower@ == unicode_lowercase(trimmed@),
            any_pattern_in(lower@, COT_PATTERNS@),
            trimmed@.len() != 0,
            first_clean_sentence(sentences_from(trimmed@, 0), 0) is None,
            p <= COT_PATTERNS@.len(),
            tail_after_pattern(trimmed@, lower@, 0) == tail_after_pattern(
                trimmed@,
                lower@,
                p as int,
            ),
        decreases COT_PATTERNS@.len() - p,
    {
        let pat = chars_of(COT_PATTERNS[p]);
        match find(lower.as_slice(), pat.as_slice()) {
            Some(pos) => {
                if pos <= trimmed.len() && pat.len() <= trimmed.len() - pos {
                    let cut = pos + pat.len();
                    let after = crate::split::copy_range(trimmed.as_slice(), cut, trimmed.len());
                    let clean = clean_start_exec(after.as_slice());
                    let clean_bytes = crate::verify::prefix_byte_len(clean.as_slice(), clean.len());
                    assert(clean@.take(clean@.len() as int) =~= clean@);
                    if clean_bytes > 5 {
                        assert(tail_after_pattern(trimmed@, lower@, p as int) == Some(clean@));
                        return string_of(clean.as_slice());
                    }
                }
            },
            None => {},
        }
        p = p + 1;
    }
    assert(tail_after_pattern(trimmed@, lower@, 0) is None);
    trimmed_s
}

/// Sanitises every text of every finding.
pub fn sanitize_findings(findings: &mut Vec<Finding>)
    ensures
        final(findings)@.len() == old(findings)@.len(),
        forall|i: int|
            0 <= i < final(findings)@.len() ==> {
                let f = #[trigger] final(findings)@[i];
                let g = old(findings)@[i];
                &&& f.explanation@ == sanitize_spec(g.explanation@)
                &&& f.impact@ == sanitize_spec(g.impact@)
                &&& f.evidence@ == sanitize_spec(g.evidence@)
                &&& (match (f.suggestion, g.suggestion) {
                    (Some(a), Some(b)) => a@ == sanitize_spec(b@),
                    (None, None) => true,
                    _ => false,
                })
                &&& f.location == g.location
                &&& f.category == g.category
                &&& f.confidence_bits == g.confidence_bits
                &&& f.fingerprint == g.fingerprint
            },
{
    let mut out: Vec<Finding> = Vec::new();
    let mut i: usize = 0;
    while i < findings.len()
        invariant
            i <= findings@.len(),
            findings@ == old(findings)@,
            out@.len() == i,
            forall|j: int|
                0 <= j < i ==> {
                    let f = #[trigger] out@[j];
                    let g = old(findings)@[j];
                    &&& f.explanation@ == sanitize_spec(g.explanation@)
                    &&& f.impact@ == sanitize_spec(g.impact@)
                    &&& f.evidence@ == sanitize_spec(g.evidence@)
                    &&& (match (f.suggestion, g.suggestion) {
                        (Some(a), Some(b)) => a@ == sanitize_spec(b@),
                        (None, None) => true,
                        _ => false,
                    })
                    &&& f.location == g.location
                    &&& f.category == g.category
                    &&& f.confidence_bits == g.confidence_bits
                    &&& f.fingerprint == g.fingerprint
                },
        decreases findings@.len() - i,
    {
        let g = &findings[i];
        let suggestion = match &g.suggestion {
            Some(s) => Some(sanitize_text(s.as_str())),
            None => None,
        };
        let f = Finding {
            location: g.location.duplicate(),
            category: g.category,
            confidence_bits: g.confidence_bits,
            evidence: sanitize_text(g.evidence.as_str()),
            explanation: sanitize_text(g.explanation.as_str()),
            impact: sanitize_text(g.impact.as_str()),
            suggestion,
            fingerprint: crate::types::copy_opt_fingerprint(&g.fingerprint),
        };
        out.push(f);
        i = i + 1;
    }
    *findings = out;
}

} // verus!

verus! {

// ---------------------------------------------------------------------------
// Where the structured parts of a response are read from
// ---------------------------------------------------------------------------

/// The text the review object is decoded from: the trimmed response,
/// narrowed to its outermost balanced object when it has one.
pub open spec fn json_candidate_spec(response: Seq<char>) -> Seq<char> {
    let t = trim_spec(response);
    match json_object_spec(t) {
        Some(o) => o,
        None => t,
    }
}

/// The text a response's review object is decoded from.
pub fn json_candidate(response: &str) -> (r: String)
    ensures
        r@ == json_candidate_spec(response@),
{
    let cs = chars_of(response);
    let t = trim_chars(cs.as_slice());
    match extract_json_object(t.as_slice()) {
        Some(o) => string_of(o.as_slice()),
        None => string_of(t.as_slice()),
    }
}

/// The last index of a character.
pub open spec fn rfind_spec_char(s: Seq<char>, c: char) -> Option<int> {
    if exists|i: int| 0 <= i < s.len() && s[i] == c {
        Some(choose|i: int| 0 <= i < s.len() && s[i] == c && forall|j: int| i < j < s.len() ==> s[j] != c)
    } else {
        None
    }
}

/// Cutting from the first `[` to the last `]` is possible: not both are
/// present with the last `]` before the first `[`.
pub open spec fn array_cut_ok(j: Seq<char>) -> bool {
    match (find_spec_char(j, '['), rfind_spec_char(j, ']')) {
        (Some(a), Some(b)) => a <= b,
        _ => true,
    }
}

/// The text read as a bare array of findings: from the first `[` to the
/// last `]` when both are present, else the whole text.
pub open spec fn array_candidate_spec(j: Seq<char>) -> Seq<char> {
    match (find_spec_char(j, '['), rfind_spec_char(j, ']')) {
        (Some(a), Some(b)) => j.subrange(a, b + 1),
        _ => j,
    }
}

proof fn lemma_rfind_is(s: Seq<char>, c: char, i: int)
    requires
        0 <= i < s.len(),
        s[i] == c,
        forall|j: int| i < j < s.len() ==> s[j] != c,
    ensures
        rfind_spec_char(s, c) == Some(i),
{
    let w = choose|w: int| 0 <= w < s.len() && s[w] == c && forall|j: int| w < j < s.len() ==> s[j] != c;
    if w < i {
        assert(s[i] != c);
    } else if w > i {
        assert(s[w] != c);
    }
}

/// The text a response is read from as a bare array of findings.
pub fn array_candidate(json: &str) -> (r: String)
    requires
        array_cut_ok(json@),
    ensures
        r@ == array_candidate_spec(json@),
{
    let cs = chars_of(json);
    match find_char(cs.as_slice(), '[') {
        Some(a) => match rfind_char(cs.as_slice(), ']') {
            Some(b) => {
                proof {
                    lemma_rfind_is(cs@, ']', b as int);
                    assert(cs@.len() == cs.len());
                }
                string_of_range(cs.as_slice(), a, b + 1)
            },
            None => {
                proof {
                    if exists|i: int| 0 <= i < cs@.len() && cs@[i] == ']' {
                        let i = choose|i: int| 0 <= i < cs@.len() && cs@[i] == ']';
                        assert(cs@[i] != ']');
                    }
                }
                json.to_owned()
            },
        },
        None => json.to_owned(),
    }
}

/// The part of a truncated response salvage reads: from the first `[` after
/// the first `"findings"` key, or the whole text when there is none.
pub open spec fn salvage_region_spec(r: Seq<char>) -> Seq<char> {
    match crate::text::find_spec(r, "\"findings\""@) {
        Some(i) => match find_spec_char(r.subrange(i, r.len() as int), '[') {
            Some(o) => r.subrange(i + o, r.len() as int),
            None => r,
        },
        None => r,
    }
}

/// The complete objects of a truncated response, in order, each a
/// candidate finding: the balanced objects of the salvage region of the
/// trimmed response.
pub open spec fn salvage_candidates_spec(response: Seq<char>) -> Seq<Seq<char>> {
    balanced_objects_spec(salvage_region_spec(trim_spec(response)))
}

/// The complete objects a truncated response still holds.
pub fn salvage_candidates(response: &str) -> (r: Vec<String>)
    ensures
        crate::sorted::string_views(r@) == salvage_candidates_spec(response@),
{
    let cs = chars_of(response);
    let t = trim_chars(cs.as_slice());
    let key = chars_of("\"findings\"");
    let region = match find(t.as_slice(), key.as_slice()) {
        Some(i) => {
            let rest = crate::split::copy_range(t.as_slice(), i, t.len());
            match find_char(rest.as_slice(), '[') {
                Some(o) => crate::split::copy_range(t.as_slice(), i + o, t.len()),
                None => t,
            }
        },
        None => t,
    };
    let objs = extract_balanced_objects(region.as_slice());
    assert(objs@.map_values(|v: Vec<char>| v@) == crate::split::views(objs@));
    crate::sorted::to_strings(&objs)
}

// ---------------------------------------------------------------------------
// Searching decoded JSON for a review
// ---------------------------------------------------------------------------

/// The shape of a decoded JSON value, as far as the search for a review
/// reads it: objects keep their entries in order, arrays keep the items
/// that decode as findings, and strings keep their text.
pub enum JsonNode {
    Object(Vec<(String, JsonNode)>),
    Array(Vec<Finding>),
    Text(String),
    Other,
}

/// A review found in a JSON value: its summary and findings.
pub struct FoundReview {
    pub summary: String,
    pub findings: Vec<Finding>,
}

/// The value stored under `key` in an object's entries (the first entry
/// with that key).
pub open spec fn entry_of(entries: Seq<(String, JsonNode)>, key: Seq<char>) -> Option<JsonNode>
    decreases entries.len(),
{
    if entries.len() == 0 {
        None
    } else if entries[0].0@ == key {
        Some(entries[0].1)
    } else {
        entry_of(entries.drop_first(), key)
    }
}

/// The summary text of an object: the string under `"summary"`, else empty.
pub open spec fn summary_of(entries: Seq<(String, JsonNode)>) -> Seq<char> {
    match entry_of(entries, "summary"@) {
        Some(JsonNode::Text(t)) => t@,
        _ => Seq::empty(),
    }
}

/// The first of the keys `findings`, `issues`, `results` (from `k` on) whose
/// value is an array that yields findings or accompanies a summary.
pub open spec fn keyed_review(entries: Seq<(String, JsonNode)>, summary: Seq<char>, k: int) -> Option<(Seq<char>, Seq<Finding>)>
    decreases 3 - k,
{
    if k < 0 || k >= 3 {
        None
    } else {
        let key = if k == 0 { "findings"@ } else if k == 1 { "issues"@ } else { "results"@ };
        match entry_of(entries, key) {
            Some(JsonNode::Array(fs)) => if fs@.len() > 0 || summary.len() > 0 {
                Some((summary, fs@))
            } else {
                keyed_review(entries, summary, k + 1)
            },
            _ => keyed_review(entries, summary, k + 1),
        }
    }
}

/// The review found in a JSON value: an object with a review array under a
/// known key, else the first entry (in order) that holds a review (the
/// object's own summary, when present, replacing that review's); a non-empty
/// array of findings; nothing otherwise.
pub open spec fn review_in(n: JsonNode) -> Option<(Seq<char>, Seq<Finding>)>
    decreases n,
{
    match n {
        JsonNode::Object(entries) => {
            let summary = summary_of(entries@);
            match keyed_review(entries@, summary, 0) {
                Some(r) => Some(r),
                None => review_in_entries(entries@, summary, 0),
            }
        },
        JsonNode::Array(fs) => if fs@.len() > 0 {
            Some((Seq::empty(), fs@))
        } else {
            None
        },
        _ => None,
    }
}

/// The first entry from `k` on whose value holds a review.
pub open spec fn review_in_entries(entries: Seq<(String, JsonNode)>, summary: Seq<char>, k: int) -> Option<(Seq<char>, Seq<Finding>)>
    decreases entries, entries.len() - k,
{
    if k < 0 || k >= entries.len() {
        None
    } else {
        match review_in(entries[k].1) {
            Some(r) => Some((if summary.len() > 0 { summary } else { r.0 }, r.1)),
            None => review_in_entries(entries, summary, k + 1),
        }
    }
}

} // verus!

verus! {

/// A copy of a list of findings.
pub fn copy_findings(fs: &Vec<Finding>) -> (r: Vec<Finding>)
    ensures
        r@ == fs@,
{
    let mut r: Vec<Finding> = Vec::new();
    let mut i: usize = 0;
    while i < fs.len()
        invariant
            i <= fs@.len(),
            r@ == fs@.take(i as int),
        decreases fs@.len() - i,
    {
        r.push(fs[i].duplicate());
        i = i + 1;
        assert(r@ =~= fs@.take(i as int));
    }
    assert(fs@.take(fs@.len() as int) =~= fs@);
    r
}

/// The value stored under a key in an object's entries.
fn entry_lookup<'a>(entries: &'a Vec<(String, JsonNode)>, key: &str) -> (r: Option<&'a JsonNode>)
    ensures
        match r {
            Some(n) => entry_of(entries@, key@) == Some(*n),
            None => entry_of(entries@, key@) is None,
        },
{
    let kc = chars_of(key);
    assert(entries@.skip(0) =~= entries@);
    let mut i: usize = 0;
    while i < entries.len()
        invariant
            i <= entries@.len(),
            kc@ == key@,
            entry_of(entries@, key@) == entry_of(entries@.skip(i as int), key@),
        decreases entries@.len() - i,
    {
        let ec = chars_of(entries[i].0.as_str());
        assert(entries@.skip(i as int).drop_first() =~= entries@.skip(i + 1));
        if crate::sorted::chars_eq(ec.as_slice(), kc.as_slice()) {
            return Some(&entries[i].1);
        }
        i = i + 1;
    }
    None
}

/// Searches a decoded JSON value for a review, as `review_in` describes.
pub fn review_from_json(n: &JsonNode) -> (r: Option<FoundReview>)
    ensures
        match r {
            Some(f) => review_in(*n) == Some((f.summary@, f.findings@)),
            None => review_in(*n) is None,
        },
    decreases n,
{
    match n {
        JsonNode::Object(entries) => {
            let summary = match entry_lookup(entries, "summary") {
                Some(JsonNode::Text(t)) => t.clone(),
                _ => String::new(),
            };
            assert(summary@ == summary_of(entries@));
            let keys: [&'static str; 3] = ["findings", "issues", "results"];
            let mut k: usize = 0;
            while k < 3
                invariant
                    k <= 3,
                    keys@ == seq!["findings", "issues", "results"],
                    keyed_review(entries@, summary@, 0) == keyed_review(entries@, summary@, k as int),
                    *n == JsonNode::Object(*entries),
                    summary@ == summary_of(entries@),
                decreases 3 - k,
            {
                let key = keys[k];
                assert(key@ == (if k == 0 { "findings"@ } else if k == 1 { "issues"@ } else { "results"@ }));
                match entry_lookup(entries, key) {
                    Some(JsonNode::Array(fs)) => {
                        if fs.len() > 0 || !summary.as_str().is_empty() {
                            assert(keyed_review(entries@, summary@, k as int) == Some((summary@, fs@)));
                            assert(review_in(*n) == Some((summary@, fs@)));
                            return Some(FoundReview { summary, findings: copy_findings(fs) });
                        }
                    },
                    _ => {},
                }
                k = k + 1;
            }
            let mut i: usize = 0;
            while i < entries.len()
                invariant
                    i <= entries@.len(),
                    keyed_review(entries@, summary@, 0) is None,
                    review_in(*n) == review_in_entries(entries@, summary@, i as int),
                    *n == JsonNode::Object(*entries),
                    summary@ == summary_of(entries@),
                decreases entries@.len() - i,
            {
                assert(decreases_to!(*n => entries@[i as int].1)) by {
                    assert(decreases_to!(*n => *entries));
                    assert(decreases_to!(*entries => entries@));
                    assert(decreases_to!(entries@ => entries@[i as int]));
                    assert(decreases_to!(entries@[i as int] => entries@[i as int].1));
                }
                match review_from_json(&entries[i].1) {
                    Some(found) => {
                        let s = if !summary.as_str().is_empty() { summary } else { found.summary };
                        return Some(FoundReview { summary: s, findings: found.findings });
                    },
                    None => {},
                }
                i = i + 1;
            }
            None
        },
        JsonNode::Array(fs) => {
            if fs.len() > 0 {
                Some(FoundReview { summary: String::new(), findings: copy_findings(fs) })
            } else {
                None
            }
        },
        _ => None,
    }
}

/// What decoding produced at each stage of reading a response, in the
/// order the stages are tried.
pub struct DecodeAttempts {
    /// The candidate decoded as the review object (its optional summary and
    /// its findings).
    pub strict: Option<(Option<String>, Vec<Finding>)>,
    /// The candidate decoded as JSON of any shape.
    pub json: Option<JsonNode>,
    /// The array candidate decoded as a list of findings.
    pub array: Option<Vec<Finding>>,
    /// The salvage candidates that decode as findings, in order.
    pub salvaged: Vec<Finding>,
}

/// The parse a response yields, given what each decoding stage produced:
/// the review object when it decodes (strict); else a review found in the
/// decoded JSON (flexible); else a bare array (array); else the salvaged
/// findings (malformed). Finding texts are sanitised in every case.
pub open spec fn assemble_spec(
    strict: Option<(Option<Seq<char>>, Seq<Finding>)>,
    flexible: Option<(Seq<char>, Seq<Finding>)>,
    array: Option<Seq<Finding>>,
    salvaged: Seq<Finding>,
) -> (Seq<char>, Seq<Finding>, ParseQuality) {
    match strict {
        Some((s, fs)) => (match s { Some(t) => t, None => Seq::empty() }, fs, ParseQuality::Strict),
        None => match flexible {
            Some((s, fs)) => (s, fs, ParseQuality::Flexible),
            None => match array {
                Some(fs) => (Seq::empty(), fs, ParseQuality::Array),
                None => (Seq::empty(), salvaged, ParseQuality::Malformed),
            },
        },
    }
}

/// A finding equals another up to sanitising of its texts.
pub open spec fn sanitized_from(f: Finding, g: Finding) -> bool {
    &&& f.explanation@ == sanitize_spec(g.explanation@)
    &&& f.impact@ == sanitize_spec(g.impact@)
    &&& f.evidence@ == sanitize_spec(g.evidence@)
    &&& (match (f.suggestion, g.suggestion) {
        (Some(a), Some(b)) => a@ == sanitize_spec(b@),
        (None, None) => true,
        _ => false,
    })
    &&& f.location == g.location
    &&& f.category == g.category
    &&& f.confidence_bits == g.confidence_bits
    &&& f.fingerprint == g.fingerprint
}

/// Builds the parsed response from the outcomes of the decoding stages.
pub fn assemble_parsed_response(attempts: DecodeAttempts) -> (r: ParsedResponse)
    ensures
        ({
            let flexible = match attempts.json {
                Some(n) => review_in(n),
                None => None,
            };
            let strict = match attempts.strict {
                Some((s, fs)) => Some((match s { Some(t) => Some(t@), None => None }, fs@)),
                None => None,
            };
            let array = match attempts.array {
                Some(fs) => Some(fs@),
                None => None,
            };
            let e = assemble_spec(strict, flexible, array, attempts.salvaged@);
            &&& r.summary@ == e.0
            &&& r.quality == e.2
            &&& r.findings@.len() == e.1.len()
            &&& forall|i: int| 0 <= i < e.1.len() ==> sanitized_from(#[trigger] r.findings@[i], e.1[i])
        }),
{
    let DecodeAttempts { strict, json, array, salvaged } = attempts;
    let (summary, mut findings, quality) = match strict {
        Some((s, fs)) => (match s { Some(t) => t, None => String::new() }, fs, ParseQuality::Strict),
        None => {
            let flexible = match &json {
                Some(n) => review_from_json(n),
                None => None,
            };
            match flexible {
                Some(found) => (found.summary, found.findings, ParseQuality::Flexible),
                None => match array {
                    Some(fs) => (String::new(), fs, ParseQuality::Array),
                    None => (String::new(), salvaged, ParseQuality::Malformed),
                },
            }
        },
    };
    sanitize_findings(&mut findings);
    ParsedResponse { summary, findings, quality }
}

} // verus!
