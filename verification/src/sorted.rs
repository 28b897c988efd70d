//! Lexicographic order on texts and sorted, duplicate-free text lists
//! (what `sort` followed by `dedup` leaves of a list of strings).
use vstd::prelude::*;
use crate::split::views;
use crate::text::string_of;

verus! {

/// `k` is where `a` and `b` first differ: they agree before `k`, and at `k`
/// one of them ends or their characters differ.
pub open spec fn differ_at(a: Seq<char>, b: Seq<char>, k: int) -> bool {
    &&& 0 <= k <= a.len()
    &&& k <= b.len()
    &&& forall|j: int| 0 <= j < k ==> a[j] == b[j]
    &&& (k == a.len() || k == b.len() || a[k] != b[k])
}

/// Lexicographic order by code point, which is the order of `String`'s
/// `Ord` (byte order of UTF-8 agrees with code point order).
pub open spec fn lex_lt(a: Seq<char>, b: Seq<char>) -> bool {
    exists|k: int|
        #![trigger differ_at(a, b, k)]
        differ_at(a, b, k) && ((k == a.len() && k < b.len()) || (k < a.len() && k < b.len()
            && a[k] < b[k]))
}

/// Strictly increasing in lexicographic order (sorted, no duplicates).
pub open spec fn strictly_sorted(s: Seq<Seq<char>>) -> bool {
    forall|i: int, j: int| 0 <= i < j < s.len() ==> lex_lt(#[trigger] s[i], #[trigger] s[j])
}

/// The views of a list of strings.
pub open spec fn string_views(v: Seq<String>) -> Seq<Seq<char>> {
    v.map_values(|s: String| s@)
}

proof fn lemma_differ_unique(a: Seq<char>, b: Seq<char>, k1: int, k2: int)
    requires
        differ_at(a, b, k1),
        differ_at(a, b, k2),
    ensures
        k1 == k2,
{
    if k1 < k2 {
        assert(a[k1] == b[k1]);
    } else if k2 < k1 {
        assert(a[k2] == b[k2]);
    }
}

proof fn lemma_differ_exists(a: Seq<char>, b: Seq<char>) -> (k: int)
    ensures
        differ_at(a, b, k),
    decreases a.len(),
{
    if a.len() == 0 || b.len() == 0 || a[0] != b[0] {
        0
    } else {
        let k = lemma_differ_exists(a.drop_first(), b.drop_first());
        assert forall|j: int| 0 <= j < k + 1 implies a[j] == b[j] by {
            if j > 0 {
                assert(a.drop_first()[j - 1] == b.drop_first()[j - 1]);
            }
        }
        assert(differ_at(a, b, k + 1));
        k + 1
    }
}

/// Lexicographic order is irreflexive and asymmetric.
pub proof fn lemma_lex_asym(a: Seq<char>, b: Seq<char>)
    ensures
        !(lex_lt(a, b) && lex_lt(b, a)),
        !lex_lt(a, a),
{
    if lex_lt(a, b) && lex_lt(b, a) {
        let k1 = choose|k: int| #![trigger differ_at(a, b, k)] differ_at(a, b, k) && ((k == a.len() && k < b.len()) || (k < a.len() && k < b.len() && a[k] < b[k]));
        let k2 = choose|k: int| #![trigger differ_at(b, a, k)] differ_at(b, a, k) && ((k == b.len() && k < a.len()) || (k < b.len() && k < a.len() && b[k] < a[k]));
        assert(differ_at(a, b, k2));
        lemma_differ_unique(a, b, k1, k2);
    }
    if lex_lt(a, a) {
        let k1 = choose|k: int| #![trigger differ_at(a, a, k)] differ_at(a, a, k) && ((k == a.len() && k < a.len()) || (k < a.len() && k < a.len() && a[k] < a[k]));
    }
}

/// Lexicographic order is total on distinct texts.
pub proof fn lemma_lex_total(a: Seq<char>, b: Seq<char>)
    ensures
        a == b || lex_lt(a, b) || lex_lt(b, a),
{
    let k = lemma_differ_exists(a, b);
    assert(differ_at(b, a, k));
    if k == a.len() && k == b.len() {
        assert(a =~= b);
    } else if k == a.len() {
        assert(lex_lt(a, b));
    } else if k == b.len() {
        assert(lex_lt(b, a));
    } else if a[k] < b[k] {
        assert(lex_lt(a, b));
    } else {
        assert(a[k] != b[k]);
        assert(lex_lt(b, a));
    }
}

/// Lexicographic order is transitive.
pub proof fn lemma_lex_trans(a: Seq<char>, b: Seq<char>, c: Seq<char>)
    requires
        lex_lt(a, b),
        lex_lt(b, c),
    ensures
        lex_lt(a, c),
{
    let k1 = choose|k: int| #![trigger differ_at(a, b, k)] differ_at(a, b, k) && ((k == a.len() && k < b.len()) || (k < a.len() && k < b.len() && a[k] < b[k]));
    let k2 = choose|k: int| #![trigger differ_at(b, c, k)] differ_at(b, c, k) && ((k == b.len() && k < c.len()) || (k < b.len() && k < c.len() && b[k] < c[k]));
    if k1 < k2 {
        assert(differ_at(a, c, k1));
    } else if k2 < k1 {
        assert(differ_at(a, c, k2));
    } else {
        assert(differ_at(a, c, k1));
    }
}

/// Decides `lex_lt(a, b)`.
pub fn lex_less(a: &[char], b: &[char]) -> (r: bool)
    ensures
        r == lex_lt(a@, b@),
{
    let mut k: usize = 0;
    while k < a.len() && k < b.len() && a[k] == b[k]
        invariant
            k <= a@.len(),
            k <= b@.len(),
            forall|j: int| 0 <= j < k ==> a@[j] == b@[j],
        decreases a@.len() - k,
    {
        k = k + 1;
    }
    assert(differ_at(a@, b@, k as int));
    let r = if k == a.len() {
        k < b.len()
    } else if k == b.len() {
        false
    } else {
        a[k] < b[k]
    };
    proof {
        if !r && lex_lt(a@, b@) {
            let k2 = choose|j: int| #![trigger differ_at(a@, b@, j)] differ_at(a@, b@, j) && ((j == a@.len() && j < b@.len()) || (j < a@.len() && j < b@.len() && a@[j] < b@[j]));
            lemma_differ_unique(a@, b@, k as int, k2);
        }
    }
    r
}

/// Decides equality of two texts.
pub fn chars_eq(a: &[char], b: &[char]) -> (r: bool)
    ensures
        r == (a@ == b@),
{
    if a.len() != b.len() {
        return false;
    }
    let mut k: usize = 0;
    while k < a.len()
        invariant
            a@.len() == b@.len(),
            k <= a@.len(),
            forall|j: int| 0 <= j < k ==> a@[j] == b@[j],
        decreases a@.len() - k,
    {
        if a[k] != b[k] {
            return false;
        }
        k = k + 1;
    }
    assert(a@ =~= b@);
    true
}

/// Copies a character vector.
pub fn copy_chars(a: &Vec<char>) -> (r: Vec<char>)
    ensures
        r@ == a@,
{
    let mut r: Vec<char> = Vec::new();
    let mut k: usize = 0;
    while k < a.len()
        invariant
            k <= a@.len(),
            r@ == a@.take(k as int),
        decreases a@.len() - k,
    {
        r.push(a[k]);
        k = k + 1;
        assert(r@ =~= a@.take(k as int));
    }
    assert(a@.take(a@.len() as int) =~= a@);
    r
}

/// Sorts a list of texts and removes duplicates: the result is strictly
/// increasing and holds exactly the texts of the input.
pub fn sort_dedup(v: &Vec<Vec<char>>) -> (r: Vec<Vec<char>>)
    ensures
        strictly_sorted(views(r@)),
        views(r@).to_set() == views(v@).to_set(),
{
    let mut r: Vec<Vec<char>> = Vec::new();
    let mut i: usize = 0;
    while i < v.len()
        invariant
            i <= v@.len(),
            strictly_sorted(views(r@)),
            views(r@).to_set() == views(v@).take(i as int).to_set(),
        decreases v@.len() - i,
    {
        let x = &v[i];
        let mut p: usize = 0;
        while p < r.len() && lex_less(r[p].as_slice(), x.as_slice())
            invariant
                p <= r@.len(),
                forall|q: int| 0 <= q < p ==> lex_lt(#[trigger] views(r@)[q], x@),
            decreases r@.len() - p,
        {
            p = p + 1;
        }
        let ghost old_r = views(r@);
        let present = p < r.len() && chars_eq(r[p].as_slice(), x.as_slice());
        if !present {
            proof {
                if p < r@.len() {
                    assert(!lex_lt(old_r[p as int], x@));
                    lemma_lex_total(old_r[p as int], x@);
                    assert(lex_lt(x@, old_r[p as int]));
                    assert forall|q: int| p < q < old_r.len() implies lex_lt(x@, #[trigger] old_r[q]) by {
                        lemma_lex_trans(x@, old_r[p as int], old_r[q]);
                    }
                }
            }
            let c = copy_chars(x);
            r.insert(p, c);
            proof {
                assert(views(r@) =~= old_r.insert(p as int, x@));
                assert forall|a: int, b: int| 0 <= a < b < views(r@).len() implies lex_lt(
                    #[trigger] views(r@)[a],
                    #[trigger] views(r@)[b],
                ) by {
                    if a < p && b < p {
                    } else if a < p && b == p {
                    } else if a < p && b > p {
                        assert(views(r@)[b] == old_r[b - 1]);
                    } else if a == p {
                        assert(views(r@)[b] == old_r[b - 1]);
                    } else {
                        assert(views(r@)[a] == old_r[a - 1]);
                        assert(views(r@)[b] == old_r[b - 1]);
                    }
                }
                assert(views(r@).to_set() =~= old_r.to_set().insert(x@)) by {
                    assert forall|y: Seq<char>| views(r@).to_set().contains(y) <==> old_r.to_set().insert(x@).contains(y) by {
                        if views(r@).contains(y) {
                            let q = choose|q: int| 0 <= q < views(r@).len() && views(r@)[q] == y;
                            if q < p { assert(old_r[q] == y); } else if q > p { assert(old_r[q - 1] == y); }
                        }
                        if old_r.contains(y) {
                            let q = choose|q: int| 0 <= q < old_r.len() && old_r[q] == y;
                            if q < p { assert(views(r@)[q] == y); } else { assert(views(r@)[q + 1] == y); }
                        }
                        if y == x@ { assert(views(r@)[p as int] == y); }
                    }
                }
            }
        }
        proof {
            let t = views(v@).take(i + 1);
            assert(t =~= views(v@).take(i as int) + seq![x@]);
            vstd::seq::Seq::<Seq<char>>::lemma_to_set_insert_commutes(views(v@).take(i as int), x@);
            assert(t.to_set() =~= views(v@).take(i as int).to_set().insert(x@));
            if present {
                assert(old_r[p as int] == x@);
                assert(old_r.contains(x@));
                assert(old_r.to_set().contains(x@));
                assert(views(r@).to_set() =~= t.to_set());
            } else {
                assert(views(r@).to_set() =~= t.to_set());
            }
        }
        i = i + 1;
    }
    assert(views(v@).take(v@.len() as int) =~= views(v@));
    r
}

/// Converts character vectors to strings, keeping order.
pub fn to_strings(v: &Vec<Vec<char>>) -> (r: Vec<String>)
    ensures
        string_views(r@) == views(v@),
{
    let mut r: Vec<String> = Vec::new();
    let mut i: usize = 0;
    while i < v.len()
        invariant
            i <= v@.len(),
            string_views(r@) == views(v@).take(i as int),
        decreases v@.len() - i,
    {
        let s = string_of(v[i].as_slice());
        let ghost sv = s@;
        let ghost old_r = r@;
        r.push(s);
        proof {
            assert(r@ == old_r.push(s));
            assert(string_views(old_r).len() == old_r.len());
            assert(old_r.len() == i);
            assert(string_views(r@).len() == r@.len());
            assert(sv == views(v@)[i as int]);
            assert forall|q: int| 0 <= q < i + 1 implies #[trigger] string_views(r@)[q] == views(v@).take(i + 1)[q] by {
                if q < i {
                    assert(string_views(old_r)[q] == views(v@).take(i as int)[q]);
                    assert(r@[q] == old_r[q]);
                } else {
                    assert(r@[q] == s);
                }
            }
            assert(string_views(r@) =~= views(v@).take(i + 1));
        }
        i = i + 1;
    }
    assert(views(v@).take(v@.len() as int) =~= views(v@));
    r
}


/// A strictly increasing list has as many distinct texts as entries.
pub proof fn lemma_strictly_sorted_card(s: Seq<Seq<char>>)
    requires
        strictly_sorted(s),
    ensures
        s.to_set().len() == s.len(),
{
    assert forall|i: int, j: int| 0 <= i < s.len() && 0 <= j < s.len() && i != j implies s[i] != s[j] by {
        if i < j {
            lemma_lex_asym(s[i], s[j]);
        } else {
            lemma_lex_asym(s[j], s[i]);
        }
    }
    s.unique_seq_to_set();
}

/// The characters of each text of a list.
pub fn char_vecs(v: &Vec<String>) -> (r: Vec<Vec<char>>)
    ensures
        views(r@) == string_views(v@),
{
    let mut r: Vec<Vec<char>> = Vec::new();
    let mut i: usize = 0;
    while i < v.len()
        invariant
            i <= v@.len(),
            views(r@) == string_views(v@).take(i as int),
        decreases v@.len() - i,
    {
        let ghost before = r@;
        let c = crate::text::chars_of(v[i].as_str());
        r.push(c);
        assert(views(r@) =~= views(before).push(c@));
        assert(string_views(v@).take(i + 1) =~= string_views(v@).take(i as int).push(v@[i as int]@));
        i = i + 1;
    }
    assert(string_views(v@).take(v@.len() as int) =~= string_views(v@));
    r
}

} // verus!
