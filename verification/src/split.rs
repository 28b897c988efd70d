//! Splitting text into lines, words and pieces, joining pieces, and the
//! sorted, duplicate-free lists that several extractors return.
use vstd::prelude::*;
use crate::text::{char_is_whitespace, is_whitespace, skip_ws};

verus! {

/// The character views of a list of character vectors.
pub open spec fn views(v: Seq<Vec<char>>) -> Seq<Seq<char>> {
    v.map_values(|x: Vec<char>| x@)
}

// ---------------------------------------------------------------------------
// Lines (as `str::lines` splits them)
// ---------------------------------------------------------------------------

/// Index of the first line feed at or after `i`, or the length.
pub open spec fn next_nl(s: Seq<char>, i: int) -> int
    decreases s.len() - i,
{
    if i < 0 {
        next_nl(s, 0)
    } else if i >= s.len() {
        s.len() as int
    } else if s[i] == '\n' {
        i
    } else {
        next_nl(s, i + 1)
    }
}

pub proof fn lemma_next_nl(s: Seq<char>, i: int)
    requires
        0 <= i <= s.len(),
    ensures
        i <= next_nl(s, i) <= s.len(),
        next_nl(s, i) < s.len() ==> s[next_nl(s, i)] == '\n',
        forall|k: int| i <= k < next_nl(s, i) ==> s[k] != '\n',
    decreases s.len() - i,
{
    if i < s.len() && s[i] != '\n' {
        lemma_next_nl(s, i + 1);
    }
}

/// A line that ended with a line feed loses one trailing carriage return.
pub open spec fn strip_cr(l: Seq<char>) -> Seq<char> {
    if l.len() > 0 && l.last() == '\r' {
        l.drop_last()
    } else {
        l
    }
}

/// The lines of `s` from index `i` on.
pub open spec fn lines_from(s: Seq<char>, i: int) -> Seq<Seq<char>>
    decreases s.len() - i,
{
    if i < 0 || i >= s.len() {
        Seq::empty()
    } else {
        let e = next_nl(s, i);
        proof {
            lemma_next_nl(s, i);
        }
        if e >= s.len() {
            seq![s.subrange(i, e)]
        } else {
            seq![strip_cr(s.subrange(i, e))] + lines_from(s, e + 1)
        }
    }
}

/// `str::lines`: split at line feeds, drop a carriage return before a line
/// feed, and yield no empty line after a final line feed.
pub open spec fn lines_spec(s: Seq<char>) -> Seq<Seq<char>> {
    lines_from(s, 0)
}

/// Scans to the next line feed.
pub fn next_newline(s: &[char], i: usize) -> (e: usize)
    requires
        i <= s@.len(),
    ensures
        e as int == next_nl(s@, i as int),
        i <= e <= s@.len(),
{
    proof {
        lemma_next_nl(s@, i as int);
    }
    let mut e = i;
    while e < s.len() && s[e] != '\n'
        invariant
            i <= e <= s@.len(),
            next_nl(s@, i as int) == next_nl(s@, e as int),
        decreases s@.len() - e,
    {
        e = e + 1;
    }
    e
}

/// Copies `s[a..b]`.
pub fn copy_range(s: &[char], a: usize, b: usize) -> (r: Vec<char>)
    requires
        a <= b <= s@.len(),
    ensures
        r@ == s@.subrange(a as int, b as int),
{
    line_piece(s, a, b, false)
}

/// Copies `s[a..b]`, dropping one trailing carriage return when `strip` holds.
fn line_piece(s: &[char], a: usize, b: usize, strip: bool) -> (r: Vec<char>)
    requires
        a <= b <= s@.len(),
    ensures
        strip ==> r@ == strip_cr(s@.subrange(a as int, b as int)),
        !strip ==> r@ == s@.subrange(a as int, b as int),
{
    let mut end = b;
    if strip && b > a && s[b - 1] == '\r' {
        end = b - 1;
    }
    let mut r: Vec<char> = Vec::new();
    let mut k = a;
    while k < end
        invariant
            a <= k <= end <= b <= s@.len(),
            r@ == s@.subrange(a as int, k as int),
        decreases end - k,
    {
        r.push(s[k]);
        k = k + 1;
        assert(r@ =~= s@.subrange(a as int, k as int));
    }
    assert(strip ==> r@ =~= strip_cr(s@.subrange(a as int, b as int)));
    r
}

/// The lines of a text, as `str::lines` yields them.
pub fn lines(s: &[char]) -> (r: Vec<Vec<char>>)
    ensures
        views(r@) == lines_spec(s@),
{
    let mut r: Vec<Vec<char>> = Vec::new();
    let mut i: usize = 0;
    while i < s.len()
        invariant
            i <= s@.len(),
            views(r@) + lines_from(s@, i as int) == lines_spec(s@),
        decreases s@.len() - i,
    {
        let e = next_newline(s, i);
        if e >= s.len() {
            let piece = line_piece(s, i, e, false);
            proof {
                assert(lines_from(s@, i as int) == seq![s@.subrange(i as int, e as int)]);
                assert(lines_from(s@, e as int) =~= Seq::<Seq<char>>::empty());
            }
            r.push(piece);
            assert(views(r@) + lines_from(s@, e as int) =~= lines_spec(s@));
            i = e;
        } else {
            let piece = line_piece(s, i, e, true);
            proof {
                assert(lines_from(s@, i as int) == seq![strip_cr(s@.subrange(i as int, e as int))]
                    + lines_from(s@, e + 1));
            }
            r.push(piece);
            assert(views(r@) + lines_from(s@, e + 1) =~= lines_spec(s@));
            i = e + 1;
        }
    }
    assert(lines_from(s@, i as int) =~= Seq::<Seq<char>>::empty());
    assert(views(r@) =~= views(r@) + lines_from(s@, i as int));
    r
}

// ---------------------------------------------------------------------------
// Whitespace-separated words (as `str::split_whitespace` yields them)
// ---------------------------------------------------------------------------

/// Index of the first whitespace character at or after `i`, or the length.
pub open spec fn next_ws(s: Seq<char>, i: int) -> int
    decreases s.len() - i,
{
    if i < 0 {
        next_ws(s, 0)
    } else if i >= s.len() {
        s.len() as int
    } else if char_is_whitespace(s[i]) {
        i
    } else {
        next_ws(s, i + 1)
    }
}

pub proof fn lemma_next_ws(s: Seq<char>, i: int)
    requires
        0 <= i <= s.len(),
    ensures
        i <= next_ws(s, i) <= s.len(),
        forall|k: int| i <= k < next_ws(s, i) ==> !char_is_whitespace(s[k]),
        i < s.len() && !char_is_whitespace(s[i]) ==> next_ws(s, i) > i,
    decreases s.len() - i,
{
    if i < s.len() && !char_is_whitespace(s[i]) {
        lemma_next_ws(s, i + 1);
    }
}

pub proof fn lemma_skip_ws(s: Seq<char>, i: int)
    requires
        0 <= i <= s.len(),
    ensures
        i <= skip_ws(s, i) <= s.len(),
        skip_ws(s, i) < s.len() ==> !char_is_whitespace(s[skip_ws(s, i)]),
    decreases s.len() - i,
{
    if i < s.len() && char_is_whitespace(s[i]) {
        lemma_skip_ws(s, i + 1);
    }
}

/// The words of `s` from index `i` on.
pub open spec fn words_from(s: Seq<char>, i: int) -> Seq<Seq<char>>
    decreases s.len() - i,
{
    if i < 0 || i >= s.len() {
        Seq::empty()
    } else {
        let a = skip_ws(s, i);
        proof {
            lemma_skip_ws(s, i);
        }
        if a >= s.len() {
            Seq::empty()
        } else {
            let e = next_ws(s, a);
            proof {
                lemma_next_ws(s, a);
            }
            seq![s.subrange(a, e)] + words_from(s, e)
        }
    }
}

/// `str::split_whitespace`: the maximal runs of non-whitespace characters.
pub open spec fn words_spec(s: Seq<char>) -> Seq<Seq<char>> {
    words_from(s, 0)
}

/// The whitespace-separated words of a text.
pub fn words(s: &[char]) -> (r: Vec<Vec<char>>)
    ensures
        views(r@) == words_spec(s@),
{
    let mut r: Vec<Vec<char>> = Vec::new();
    let mut i: usize = 0;
    while i < s.len()
        invariant
            i <= s@.len(),
            views(r@) + words_from(s@, i as int) == words_spec(s@),
        decreases s@.len() - i,
    {
        let mut a = i;
        proof {
            lemma_skip_ws(s@, i as int);
        }
        while a < s.len() && is_whitespace(s[a])
            invariant
                i <= a <= s@.len(),
                skip_ws(s@, i as int) == skip_ws(s@, a as int),
            decreases s@.len() - a,
        {
            a = a + 1;
        }
        if a >= s.len() {
            assert(words_from(s@, i as int) =~= Seq::<Seq<char>>::empty());
            assert(views(r@) =~= words_spec(s@));
            i = a;
            assert(words_from(s@, i as int) =~= Seq::<Seq<char>>::empty());
        } else {
            proof {
                lemma_next_ws(s@, a as int);
            }
            let mut e = a;
            while e < s.len() && !is_whitespace(s[e])
                invariant
                    a <= e <= s@.len(),
                    next_ws(s@, a as int) == next_ws(s@, e as int),
                decreases s@.len() - e,
            {
                e = e + 1;
            }
            let piece = line_piece(s, a, e, false);
            assert(words_from(s@, i as int) == seq![s@.subrange(a as int, e as int)]
                + words_from(s@, e as int));
            r.push(piece);
            assert(views(r@) + words_from(s@, e as int) =~= words_spec(s@));
            i = e;
        }
    }
    assert(words_from(s@, i as int) =~= Seq::<Seq<char>>::empty());
    assert(views(r@) =~= views(r@) + words_from(s@, i as int));
    r
}

// ---------------------------------------------------------------------------
// Joining
// ---------------------------------------------------------------------------

/// `[T]::join`: the pieces with `sep` between consecutive ones.
pub open spec fn join_spec(parts: Seq<Seq<char>>, sep: Seq<char>) -> Seq<char>
    decreases parts.len(),
{
    if parts.len() == 0 {
        Seq::empty()
    } else if parts.len() == 1 {
        parts[0]
    } else {
        join_spec(parts.drop_last(), sep) + sep + parts.last()
    }
}

/// Joins character pieces with a separator.
pub fn join_chars(parts: &Vec<Vec<char>>, sep: &[char]) -> (r: Vec<char>)
    ensures
        r@ == join_spec(views(parts@), sep@),
{
    let mut r: Vec<char> = Vec::new();
    let mut i: usize = 0;
    while i < parts.len()
        invariant
            i <= parts@.len(),
            r@ == join_spec(views(parts@).take(i as int), sep@),
        decreases parts@.len() - i,
    {
        let ghost before = r@;
        if i > 0 {
            let mut k: usize = 0;
            while k < sep.len()
                invariant
                    k <= sep@.len(),
                    r@ == before + sep@.take(k as int),
                decreases sep@.len() - k,
            {
                r.push(sep[k]);
                k = k + 1;
                assert(r@ =~= before + sep@.take(k as int));
            }
            assert(sep@.take(sep@.len() as int) =~= sep@);
        }
        let ghost mid = r@;
        let p = &parts[i];
        let mut k: usize = 0;
        while k < p.len()
            invariant
                k <= p@.len(),
                r@ == mid + p@.take(k as int),
            decreases p@.len() - k,
        {
            r.push(p[k]);
            k = k + 1;
            assert(r@ =~= mid + p@.take(k as int));
        }
        assert(p@.take(p@.len() as int) =~= p@);
        proof {
            let t = views(parts@).take(i + 1);
            assert(t.drop_last() =~= views(parts@).take(i as int));
            assert(t.last() == p@);
            if i == 0 {
                assert(t.len() == 1);
                assert(r@ =~= join_spec(t, sep@));
            }
        }
        i = i + 1;
    }
    assert(views(parts@).take(parts@.len() as int) =~= views(parts@));
    r
}

/// The text with runs of whitespace collapsed to single spaces and no
/// leading or trailing whitespace.
pub open spec fn collapse_ws_spec(s: Seq<char>) -> Seq<char> {
    join_spec(words_spec(s), seq![' '])
}

/// Collapses whitespace: `split_whitespace` joined by single spaces.
pub fn collapse_ws(s: &[char]) -> (r: Vec<char>)
    ensures
        r@ == collapse_ws_spec(s@),
{
    let w = words(s);
    let sp: Vec<char> = vec![' '];
    assert(sp@ =~= seq![' ']);
    join_chars(&w, sp.as_slice())
}

} // verus!
