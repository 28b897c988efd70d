//! Checking a finding's evidence against the source it cites: the code
//! references an evidence text makes, and whether any appears in the file.
use vstd::prelude::*;
use vstd::string::StrSliceExecFns;
use crate::integrity::pattern_views;
use crate::sorted::{sort_dedup, string_views, strictly_sorted, to_strings};
use crate::split::views;
use crate::text::{
    char_is_uppercase, char_is_whitespace, chars_of, contains, is_uppercase, is_whitespace,
    seq_contains, trim_chars, trim_spec,
};

verus! {

// ---------------------------------------------------------------------------
// UTF-8 lengths
// ---------------------------------------------------------------------------

/// The number of bytes UTF-8 uses for a character (`char::len_utf8`).
pub open spec fn utf8_len(c: char) -> nat {
    let u = c as u32;
    if u < 0x80 {
        1
    } else if u < 0x800 {
        2
    } else if u < 0x10000 {
        3
    } else {
        4
    }
}

/// The number of bytes UTF-8 uses for a text.
pub open spec fn byte_len(s: Seq<char>) -> nat
    decreases s.len(),
{
    if s.len() == 0 {
        0
    } else {
        byte_len(s.drop_last()) + utf8_len(s.last())
    }
}

/// The UTF-8 length of a concatenation is the sum of the lengths.
pub proof fn lemma_byte_len_concat(a: Seq<char>, b: Seq<char>)
    ensures
        byte_len(a + b) == byte_len(a) + byte_len(b),
    decreases b.len(),
{
    if b.len() == 0 {
        assert(a + b =~= a);
    } else {
        assert((a + b).drop_last() =~= a + b.drop_last());
        lemma_byte_len_concat(a, b.drop_last());
    }
}

/// The UTF-8 length of a text is the length of its encoding (and so of a
/// string slice's bytes).
pub proof fn lemma_byte_len_is_encoding_len(s: Seq<char>)
    ensures
        byte_len(s) == vstd::utf8::encode_utf8(s).len(),
    decreases s.len(),
{
    if s.len() > 0 {
        lemma_byte_len_is_encoding_len(s.drop_first());
        assert(s =~= seq![s[0]] + s.drop_first());
        lemma_byte_len_concat(seq![s[0]], s.drop_first());
        assert(seq![s[0]].drop_last() =~= Seq::<char>::empty());
        vstd::utf8::char_is_scalar(s[0]);
        assert(vstd::utf8::encode_scalar(s[0] as u32).len() == utf8_len(s[0]));
        let one = seq![s[0]];
        assert(one.drop_last() =~= Seq::<char>::empty());
        assert(one.last() == s[0]);
        assert(byte_len(Seq::<char>::empty()) == 0);
        assert(byte_len(one) == byte_len(one.drop_last()) + utf8_len(one.last()));
        assert(byte_len(seq![s[0]]) == utf8_len(s[0]));
        assert(vstd::utf8::encode_utf8(s) == vstd::utf8::encode_scalar(s[0] as u32) + vstd::utf8::encode_utf8(s.drop_first()));
    }
}

/// The UTF-8 length of a string slice (`str::len`), which fits a `usize`.
pub fn str_byte_len(s: &str) -> (n: usize)
    ensures
        n == byte_len(s@),
{
    let b = s.as_bytes();
    proof {
        lemma_byte_len_is_encoding_len(s@);
    }
    b.len()
}

/// `char::len_utf8`.
pub fn char_utf8_len(c: char) -> (n: usize)
    ensures
        n == utf8_len(c),
{
    let u = c as u32;
    if u < 0x80 {
        1
    } else if u < 0x800 {
        2
    } else if u < 0x10000 {
        3
    } else {
        4
    }
}

proof fn lemma_byte_len_bound(s: Seq<char>)
    ensures
        byte_len(s) <= 4 * s.len(),
    decreases s.len(),
{
    if s.len() > 0 {
        lemma_byte_len_bound(s.drop_last());
    }
}

/// The UTF-8 length of `s[0..k]`.
pub fn prefix_byte_len(s: &[char], k: usize) -> (n: u128)
    requires
        k <= s@.len(),
    ensures
        n == byte_len(s@.take(k as int)),
        n <= 4 * k,
{
    proof {
        lemma_byte_len_bound(s@.take(k as int));
    }
    let mut n: u128 = 0;
    let mut i: usize = 0;
    while i < k
        invariant
            i <= k <= s@.len(),
            n == byte_len(s@.take(i as int)),
        decreases k - i,
    {
        let l = char_utf8_len(s[i]);
        assert(s@.take(i + 1).drop_last() =~= s@.take(i as int));
        proof {
            lemma_byte_len_bound(s@.take(i as int));
        }
        n = n + l as u128;
        i = i + 1;
    }
    n
}

// ---------------------------------------------------------------------------
// Truncation at a character boundary
// ---------------------------------------------------------------------------

/// How many leading characters start at a byte offset of at most `max`.
pub open spec fn chars_starting_within(s: Seq<char>, max: nat) -> nat
    decreases s.len(),
{
    if s.len() == 0 {
        0
    } else if byte_len(s.drop_last()) <= max {
        (chars_starting_within(s.drop_last(), max) + 1) as nat
    } else {
        chars_starting_within(s.drop_last(), max)
    }
}

/// `truncate(s, max)`: the text itself when it fits in `max` bytes; else the
/// characters that start within the first `max` bytes (the last of them may
/// end past `max`, never in the middle of a character).
pub open spec fn truncate_spec(s: Seq<char>, max: nat) -> Seq<char> {
    if byte_len(s) <= max {
        s
    } else {
        s.take(chars_starting_within(s, max) as int)
    }
}

proof fn lemma_byte_len_prefix_mono(s: Seq<char>, i: int, j: int)
    requires
        0 <= i <= j <= s.len(),
    ensures
        byte_len(s.take(i)) <= byte_len(s.take(j)),
    decreases j - i,
{
    if i < j {
        assert(s.take(j).drop_last() =~= s.take(j - 1));
        lemma_byte_len_prefix_mono(s, i, j - 1);
    }
}

proof fn lemma_chars_within(s: Seq<char>, max: nat, k: int)
    requires
        0 <= k <= s.len(),
        k == s.len() || byte_len(s.take(k)) > max,
        forall|j: int| 0 <= j < k ==> byte_len(#[trigger] s.take(j)) <= max,
    ensures
        chars_starting_within(s, max) == k,
    decreases s.len(),
{
    if s.len() > 0 {
        let t = s.drop_last();
        assert(s.take(s.len() - 1) =~= t);
        if k == s.len() {
            assert(byte_len(s.take(s.len() - 1)) <= max);
            assert forall|j: int| 0 <= j < k - 1 implies byte_len(#[trigger] t.take(j)) <= max by {
                assert(t.take(j) =~= s.take(j));
            }
            assert(t.take(k - 1) =~= t);
            lemma_chars_within(t, max, k - 1);
        } else {
            assert(byte_len(s.take(s.len() - 1)) > max) by {
                lemma_byte_len_prefix_mono(s, k, s.len() - 1);
            }
            assert forall|j: int| 0 <= j < k implies byte_len(#[trigger] t.take(j)) <= max by {
                assert(t.take(j) =~= s.take(j));
            }
            if k == t.len() {
            } else {
                assert(t.take(k) =~= s.take(k));
            }
            lemma_chars_within(t, max, k);
        }
    }
}

/// Shortens a text to about `max_len` bytes without splitting a character.
pub fn truncate(s: &str, max_len: usize) -> (r: &str)
    ensures
        r@ == truncate_spec(s@, max_len as nat),
{
    let cs = chars_of(s);
    let total = prefix_byte_len(cs.as_slice(), cs.len());
    assert(cs@.take(cs@.len() as int) =~= cs@);
    if total <= max_len as u128 {
        return s;
    }
    let mut k: usize = 0;
    while k < cs.len() && prefix_byte_len(cs.as_slice(), k) <= max_len as u128
        invariant
            k <= cs@.len(),
            cs@ == s@,
            forall|j: int| 0 <= j < k ==> byte_len(#[trigger] cs@.take(j)) <= max_len,
        decreases cs@.len() - k,
    {
        k = k + 1;
    }
    proof {
        lemma_chars_within(cs@, max_len as nat, k as int);
    }
    s.substring_char(0, k)
}

// ---------------------------------------------------------------------------
// Code references in evidence
// ---------------------------------------------------------------------------

/// Words that never count as code references.
pub const COMMON_WORDS: [&'static str; 38] = [
    "the", "for", "and", "not", "but", "has", "can", "will", "may", "its", "are", "all", "was",
    "this", "that", "with", "from", "when", "then", "than", "also", "into", "does", "only",
    "The", "This", "That", "These", "Those", "When", "Then", "Each", "Every", "Both", "Either",
    "Neither", "Such", "Then",
];

/// The spans quoted in backticks, as scanning `s[0..k]` finds them: each
/// closing backtick contributes the trimmed span when it has at least two
/// bytes. The state is (inside a span, the span so far, spans found).
pub open spec fn ticks_to(s: Seq<char>, k: int) -> (bool, Seq<char>, Seq<Seq<char>>)
    decreases k,
{
    if k <= 0 {
        (false, Seq::empty(), Seq::empty())
    } else {
        let (inside, cur, found) = ticks_to(s, k - 1);
        let c = s[k - 1];
        if c == '`' {
            if inside {
                let t = trim_spec(cur);
                (false, Seq::empty(), if byte_len(t) >= 2 { found.push(t) } else { found })
            } else {
                (true, cur, found)
            }
        } else if inside {
            (inside, cur.push(c), found)
        } else {
            (inside, cur, found)
        }
    }
}

/// Separators between evidence words.
pub open spec fn is_word_sep(c: char) -> bool {
    char_is_whitespace(c) || c == ',' || c == '.' || c == ';' || c == ':' || c == '(' || c == ')'
        || c == '[' || c == ']' || c == '{' || c == '}' || c == '=' || c == '<' || c == '>' || c
        == '!' || c == '&' || c == '|' || c == '"' || c == '\''
}

/// The pieces of `s` between word separators (empty pieces included).
pub open spec fn word_pieces_to(s: Seq<char>, k: int) -> (Seq<char>, Seq<Seq<char>>)
    decreases k,
{
    if k <= 0 {
        (Seq::empty(), Seq::empty())
    } else {
        let (cur, found) = word_pieces_to(s, k - 1);
        let c = s[k - 1];
        if is_word_sep(c) {
            (Seq::empty(), found.push(cur))
        } else {
            (cur.push(c), found)
        }
    }
}

/// All pieces: those closed by a separator, and the final one.
pub open spec fn word_pieces(s: Seq<char>) -> Seq<Seq<char>> {
    let (cur, found) = word_pieces_to(s, s.len() as int);
    found.push(cur)
}

/// Index of the first character that is not a backtick, from `i`.
pub open spec fn skip_ticks(s: Seq<char>, i: int) -> int
    decreases s.len() - i,
{
    if i < 0 || i >= s.len() {
        if i < 0 { 0 } else { s.len() as int }
    } else if s[i] == '`' {
        skip_ticks(s, i + 1)
    } else {
        i
    }
}

/// Index after the last character before `j` that is not a backtick.
pub open spec fn back_ticks(s: Seq<char>, j: int) -> int
    decreases j,
{
    if j <= 0 {
        0
    } else if j > s.len() {
        back_ticks(s, s.len() as int)
    } else if s[j - 1] == '`' {
        back_ticks(s, j - 1)
    } else {
        j
    }
}

/// `trim_matches('`')`: the word without leading and trailing backticks.
pub open spec fn strip_ticks(s: Seq<char>) -> Seq<char> {
    let a = skip_ticks(s, 0);
    let b = back_ticks(s, s.len() as int);
    if a < b {
        s.subrange(a, b)
    } else {
        Seq::empty()
    }
}

/// A word looks like code: at least three bytes, not a common word, and it
/// holds an underscore, an upper-case letter or a dot.
pub open spec fn code_like(w: Seq<char>) -> bool {
    &&& byte_len(w) >= 3
    &&& !pattern_views(COMMON_WORDS@).contains(w)
    &&& exists|i: int| 0 <= i < w.len() && (w[i] == '_' || char_is_uppercase(w[i]) || w[i] == '.')
}

/// Every code reference an evidence text makes: its backtick spans, then its
/// code-like words.
pub open spec fn code_refs(evidence: Seq<char>) -> Seq<Seq<char>> {
    ticks_to(evidence, evidence.len() as int).2 + word_pieces(evidence).map_values(
        |w: Seq<char>| strip_ticks(w),
    ).filter(|w: Seq<char>| code_like(w))
}

fn strip_ticks_exec(s: &[char]) -> (r: Vec<char>)
    ensures
        r@ == strip_ticks(s@),
{
    let mut a: usize = 0;
    while a < s.len() && s[a] == '`'
        invariant
            a <= s@.len(),
            skip_ticks(s@, 0) == skip_ticks(s@, a as int),
        decreases s@.len() - a,
    {
        a = a + 1;
    }
    let mut b: usize = s.len();
    while b > 0 && s[b - 1] == '`'
        invariant
            b <= s@.len(),
            back_ticks(s@, s@.len() as int) == back_ticks(s@, b as int),
        decreases b,
    {
        b = b - 1;
    }
    if a < b {
        crate::split::copy_range(s, a, b)
    } else {
        Vec::new()
    }
}

fn code_like_exec(w: &[char]) -> (b: bool)
    ensures
        b == code_like(w@),
{
    let n = prefix_byte_len(w, w.len());
    assert(w@.take(w@.len() as int) =~= w@);
    if n < 3 {
        return false;
    }
    let mut k: usize = 0;
    while k < COMMON_WORDS.len()
        invariant
            k <= COMMON_WORDS@.len(),
            forall|j: int| 0 <= j < k ==> COMMON_WORDS@[j]@ != w@,
        decreases COMMON_WORDS@.len() - k,
    {
        let cw = chars_of(COMMON_WORDS[k]);
        if crate::sorted::chars_eq(cw.as_slice(), w) {
            assert(pattern_views(COMMON_WORDS@)[k as int] == w@);
            return false;
        }
        k = k + 1;
    }
    assert(!pattern_views(COMMON_WORDS@).contains(w@)) by {
        if pattern_views(COMMON_WORDS@).contains(w@) {
            let j = choose|j: int| 0 <= j < COMMON_WORDS@.len() && pattern_views(COMMON_WORDS@)[j] == w@;
        }
    }
    let mut i: usize = 0;
    while i < w.len()
        invariant
            i <= w@.len(),
            byte_len(w@) >= 3,
            !pattern_views(COMMON_WORDS@).contains(w@),
            forall|j: int| 0 <= j < i ==> !(w@[j] == '_' || char_is_uppercase(w@[j]) || w@[j] == '.'),
        decreases w@.len() - i,
    {
        let c = w[i];
        if c == '_' || is_uppercase(c) || c == '.' {
            assert(w@[i as int] == c);
            return true;
        }
        i = i + 1;
    }
    false
}

/// The code references of an evidence text, sorted and without duplicates.
pub fn extract_code_candidates(evidence: &str) -> (r: Vec<String>)
    ensures
        strictly_sorted(string_views(r@)),
        string_views(r@).to_set() == code_refs(evidence@).to_set(),
{
    let s = chars_of(evidence);
    let mut found: Vec<Vec<char>> = Vec::new();
    let mut inside = false;
    let mut cur: Vec<char> = Vec::new();
    let mut k: usize = 0;
    while k < s.len()
        invariant
            k <= s@.len(),
            ticks_to(s@, k as int) == (inside, cur@, views(found@)),
        decreases s@.len() - k,
    {
        let c = s[k];
        if c == '`' {
            if inside {
                let t = trim_chars(cur.as_slice());
                let n = prefix_byte_len(t.as_slice(), t.len());
                assert(t@.take(t@.len() as int) =~= t@);
                if n >= 2 {
                    let ghost old_found = found@;
                    found.push(t);
                    assert(views(found@) =~= views(old_found).push(trim_spec(cur@)));
                }
                cur = Vec::new();
            }
            inside = !inside;
        } else if inside {
            cur.push(c);
        }
        k = k + 1;
    }
    let tick_count = found.len();
    let mut pieces: Vec<Vec<char>> = Vec::new();
    let mut cur2: Vec<char> = Vec::new();
    let mut k: usize = 0;
    while k < s.len()
        invariant
            k <= s@.len(),
            word_pieces_to(s@, k as int) == (cur2@, views(pieces@)),
        decreases s@.len() - k,
    {
        let c = s[k];
        let sep = is_whitespace(c) || c == ',' || c == '.' || c == ';' || c == ':' || c == '('
            || c == ')' || c == '[' || c == ']' || c == '{' || c == '}' || c == '=' || c == '<'
            || c == '>' || c == '!' || c == '&' || c == '|' || c == '"' || c == '\'';
        if sep {
            let ghost old_p = pieces@;
            let done = cur2;
            pieces.push(done);
            assert(views(pieces@) =~= views(old_p).push(done@));
            cur2 = Vec::new();
        } else {
            cur2.push(c);
        }
        k = k + 1;
    }
    let ghost old_p = pieces@;
    pieces.push(cur2);
    assert(views(pieces@) =~= word_pieces(s@));
    let ghost ticks = views(found@);
    let ghost stripped = word_pieces(s@).map_values(|w: Seq<char>| strip_ticks(w));
    let mut i: usize = 0;
    while i < pieces.len()
        invariant
            i <= pieces@.len(),
            views(pieces@) == word_pieces(s@),
            stripped == word_pieces(s@).map_values(|w: Seq<char>| strip_ticks(w)),
            views(found@) == ticks + stripped.take(i as int).filter(|w: Seq<char>| code_like(w)),
        decreases pieces@.len() - i,
    {
        let w = strip_ticks_exec(pieces[i].as_slice());
        assert(stripped.take(i + 1).drop_last() =~= stripped.take(i as int));
        assert(stripped[i as int] == w@);
        if code_like_exec(w.as_slice()) {
            let ghost old_found = found@;
            found.push(w);
            assert(views(found@) =~= views(old_found).push(w@));
        }
        proof {
            reveal(Seq::filter);
            assert(stripped.take(i + 1).filter(|w: Seq<char>| code_like(w)) == (if code_like(w@) {
                stripped.take(i as int).filter(|w: Seq<char>| code_like(w)).push(w@)
            } else {
                stripped.take(i as int).filter(|w: Seq<char>| code_like(w))
            }));
        }
        i = i + 1;
    }
    assert(stripped.take(pieces@.len() as int) =~= stripped);
    let sorted = sort_dedup(&found);
    to_strings(&sorted)
}

/// Evidence is found in a file when it makes no code reference (nothing to
/// check) or some reference occurs in the file's text.
pub open spec fn evidence_found_spec(evidence: Seq<char>, content: Seq<char>) -> bool {
    let refs = code_refs(evidence);
    refs.len() == 0 || exists|i: int| 0 <= i < refs.len() && seq_contains(content, #[trigger] refs[i])
}

/// Whether a finding's evidence can be found in the file it cites.
pub fn is_evidence_found(evidence: &str, file_content: &str) -> (b: bool)
    ensures
        b == evidence_found_spec(evidence@, file_content@),
{
    let cands = extract_code_candidates(evidence);
    let content = chars_of(file_content);
    proof {
        let refs = code_refs(evidence@);
        if refs.len() > 0 {
            assert(refs.to_set().contains(refs[0]));
        }
        if string_views(cands@).len() > 0 {
            assert(string_views(cands@).to_set().contains(string_views(cands@)[0]));
        }
    }
    if cands.len() == 0 {
        proof {
            let refs = code_refs(evidence@);
            if refs.len() > 0 {
                assert(refs.to_set().contains(refs[0]));
                assert(string_views(cands@).to_set().contains(refs[0]));
                let j = choose|j: int| 0 <= j < string_views(cands@).len() && string_views(cands@)[j] == refs[0];
            }
        }
        return true;
    }
    let mut i: usize = 0;
    while i < cands.len()
        invariant
            i <= cands@.len(),
            content@ == file_content@,
            string_views(cands@).to_set() == code_refs(evidence@).to_set(),
            forall|j: int| 0 <= j < i ==> !seq_contains(content@, #[trigger] string_views(cands@)[j]),
        decreases cands@.len() - i,
    {
        let c = chars_of(cands[i].as_str());
        if contains(content.as_slice(), c.as_slice()) {
            proof {
                let refs = code_refs(evidence@);
                assert(string_views(cands@)[i as int] == c@);
                assert(string_views(cands@).to_set().contains(c@));
                assert(refs.to_set().contains(c@));
                let j = choose|j: int| 0 <= j < refs.len() && refs[j] == c@;
                assert(seq_contains(file_content@, refs[j]));
            }
            return true;
        }
        i = i + 1;
    }
    proof {
        let refs = code_refs(evidence@);
        assert(refs.len() > 0) by {
            assert(string_views(cands@).to_set().contains(string_views(cands@)[0]));
            assert(refs.to_set().contains(string_views(cands@)[0]));
        }
        assert forall|j: int| 0 <= j < refs.len() implies !seq_contains(file_content@, #[trigger] refs[j]) by {
            assert(refs.to_set().contains(refs[j]));
            assert(string_views(cands@).to_set().contains(refs[j]));
            let q = choose|q: int| 0 <= q < string_views(cands@).len() && string_views(cands@)[q] == refs[j];
        }
    }
    false
}

/// What checking a finding's evidence against its file concluded.
#[derive(Debug, Clone, Copy, PartialEq, Eq, Structural)]
pub enum EvidenceCheck {
    /// The evidence was found (or cites no code): confidence stays.
    Verified,
    /// The file was read but the evidence's code is not in it.
    NotFoundInFile,
    /// The cited file could not be read.
    FileMissing,
}

/// The verdict on a finding's evidence, given the cited file's text when it
/// could be read.
pub fn check_evidence(evidence: &str, file_content: Option<&str>) -> (r: EvidenceCheck)
    ensures
        r == (match file_content {
            None => EvidenceCheck::FileMissing,
            Some(c) => if evidence_found_spec(evidence@, c@) {
                EvidenceCheck::Verified
            } else {
                EvidenceCheck::NotFoundInFile
            },
        }),
{
    match file_content {
        None => EvidenceCheck::FileMissing,
        Some(c) => if is_evidence_found(evidence, c) {
            EvidenceCheck::Verified
        } else {
            EvidenceCheck::NotFoundInFile
        },
    }
}

} // verus!
