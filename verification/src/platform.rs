//! What the review bot writes to and reads from a code host: comment
//! bodies with hidden fingerprint markers, and the paths and identifiers a
//! unified diff touches.
use vstd::prelude::*;
use crate::sorted::{sort_dedup, string_views, strictly_sorted, to_strings};
use crate::split::{lines, lines_spec, views};
use crate::text::{
    append_str, char_is_alphabetic, char_is_alphanumeric, chars_of, find, find_spec, is_alphabetic,
    is_alphanumeric, occurs_at, string_of, trim_chars, trim_spec,
};
use crate::types::{category_name, Finding, Fingerprint};
use crate::verify::byte_len;

verus! {

/// Marks every comment the bot writes.
pub const BOT_MARKER: &'static str = "<!-- snif-bot -->";
/// Opens the hidden content fingerprint of a finding comment.
pub const FINGERPRINT_MARKER: &'static str = "<!-- snif:fingerprint:";
/// Opens the hidden line fingerprint of a finding comment.
pub const LINE_FINGERPRINT_MARKER: &'static str = "<!-- snif:line-fingerprint:";
/// Closes a hidden fingerprint.
pub const FINGERPRINT_END: &'static str = " -->";
/// Starts the old-path line of a unified diff header.
pub const DIFF_OLD_PREFIX: &'static str = "--- a/";
/// Starts the new-path line of a unified diff header.
pub const DIFF_NEW_PREFIX: &'static str = "+++ b/";
/// Starts any new-path line of a unified diff.
pub const DIFF_HUNK_PREFIX: &'static str = "+++";
/// The path a diff names for a file that does not exist on one side.
pub const NULL_PATH: &'static str = "/dev/null";

/// The body of the summary comment: the bot marker, a blank line, the text.
pub fn format_summary_body(summary: &str) -> (r: String)
    ensures
        r@ == BOT_MARKER@ + "\n\n"@ + summary@,
{
    let mut r = String::new();
    append_str(&mut r, BOT_MARKER);
    append_str(&mut r, "\n\n");
    append_str(&mut r, summary);
    r
}

/// The sentence that marks a finding resolved.
pub const RESOLVED_TEXT: &'static str =
    "**Resolved** \u{2014} this issue is no longer present in the current change.";

/// The body that replaces a resolved finding's comment.
pub fn format_resolved_body() -> (r: String)
    ensures
        r@ == BOT_MARKER@ + "\n\n"@ + RESOLVED_TEXT@,
{
    format_summary_body(RESOLVED_TEXT)
}

/// A unified diff header for one file followed by its hunks.
pub fn format_diff_header(old_path: &str, new_path: &str, diff: &str) -> (r: String)
    ensures
        r@ == DIFF_OLD_PREFIX@ + old_path@ + "\n"@ + DIFF_NEW_PREFIX@ + new_path@ + "\n"@ + diff@
            + "\n"@,
{
    let mut r = String::new();
    append_str(&mut r, DIFF_OLD_PREFIX);
    append_str(&mut r, old_path);
    append_str(&mut r, "\n");
    append_str(&mut r, DIFF_NEW_PREFIX);
    append_str(&mut r, new_path);
    append_str(&mut r, "\n");
    append_str(&mut r, diff);
    append_str(&mut r, "\n");
    r
}

/// The hidden fingerprint tags of a finding comment (empty without one).
pub open spec fn fingerprint_tags(fp: Option<Fingerprint>) -> Seq<char> {
    match fp {
        Some(f) => FINGERPRINT_MARKER@ + f.id@ + FINGERPRINT_END@ + "\n"@ + LINE_FINGERPRINT_MARKER@
            + f.line_id@ + FINGERPRINT_END@,
        None => Seq::empty(),
    }
}

/// The comment posted for a finding: marker, fingerprint tags, category and
/// confidence (given as its rendered percentage), explanation, impact,
/// evidence in a code block and the suggestion when there is one.
pub open spec fn finding_body_spec(f: Finding, percent: Seq<char>) -> Seq<char> {
    BOT_MARKER@ + "\n"@ + fingerprint_tags(f.fingerprint) + "\n"@ + "**["@ + category_name(
        f.category,
    ) + "]** (confidence: "@ + percent + "%)\n\n"@ + f.explanation@ + "\n\n**Impact:** "@
        + f.impact@ + "\n\n**Evidence:**\n```\n"@ + f.evidence@ + "\n```"@ + (match f.suggestion {
        Some(s) => "\n\n**Suggestion:** "@ + s@,
        None => Seq::empty(),
    }) + "\n"@
}

/// Formats the comment body of a finding; `percent` is the confidence as a
/// whole percentage.
pub fn format_finding_body(finding: &Finding, percent: &str) -> (r: String)
    ensures
        r@ == finding_body_spec(*finding, percent@),
{
    let mut r = String::new();
    append_str(&mut r, BOT_MARKER);
    append_str(&mut r, "\n");
    match &finding.fingerprint {
        Some(fp) => {
            append_str(&mut r, FINGERPRINT_MARKER);
            append_str(&mut r, fp.id.as_str());
            append_str(&mut r, FINGERPRINT_END);
            append_str(&mut r, "\n");
            append_str(&mut r, LINE_FINGERPRINT_MARKER);
            append_str(&mut r, fp.line_id.as_str());
            append_str(&mut r, FINGERPRINT_END);
        },
        None => {},
    }
    append_str(&mut r, "\n");
    append_str(&mut r, "**[");
    append_str(&mut r, finding.category.as_str());
    append_str(&mut r, "]** (confidence: ");
    append_str(&mut r, percent);
    append_str(&mut r, "%)\n\n");
    append_str(&mut r, finding.explanation.as_str());
    append_str(&mut r, "\n\n**Impact:** ");
    append_str(&mut r, finding.impact.as_str());
    append_str(&mut r, "\n\n**Evidence:**\n```\n");
    append_str(&mut r, finding.evidence.as_str());
    append_str(&mut r, "\n```");
    match &finding.suggestion {
        Some(s) => {
            append_str(&mut r, "\n\n**Suggestion:** ");
            append_str(&mut r, s.as_str());
        },
        None => {},
    }
    append_str(&mut r, "\n");
    assert(r@ =~= finding_body_spec(*finding, percent@));
    r
}

/// The value a marker tags in a comment body: the trimmed text between the
/// first occurrence of the marker and the next end tag, when not empty.
pub open spec fn marker_value_spec(body: Seq<char>, marker: Seq<char>) -> Option<Seq<char>> {
    match find_spec(body, marker) {
        None => None,
        Some(start) => {
            let after = body.subrange(start + marker.len(), body.len() as int);
            match find_spec(after, FINGERPRINT_END@) {
                None => None,
                Some(end) => {
                    let v = trim_spec(after.subrange(0, end));
                    if v.len() == 0 {
                        None
                    } else {
                        Some(v)
                    }
                },
            }
        },
    }
}

/// Reads the value a marker tags in a comment body.
pub fn extract_marker_value(body: &str, marker: &str) -> (r: Option<String>)
    ensures
        match r {
            Some(v) => marker_value_spec(body@, marker@) == Some(v@),
            None => marker_value_spec(body@, marker@) is None,
        },
{
    let b = chars_of(body);
    let m = chars_of(marker);
    match find(b.as_slice(), m.as_slice()) {
        None => None,
        Some(start) => {
            assert(occurs_at(b@, m@, start as int));
            assert(b@.len() == b.len());
            let after = crate::split::copy_range(b.as_slice(), start + m.len(), b.len());
            let e = chars_of(FINGERPRINT_END);
            match find(after.as_slice(), e.as_slice()) {
                None => None,
                Some(end) => {
                    let piece = crate::split::copy_range(after.as_slice(), 0, end);
                    let v = trim_chars(piece.as_slice());
                    if v.len() == 0 {
                        None
                    } else {
                        Some(string_of(v.as_slice()))
                    }
                },
            }
        },
    }
}

/// Reads both fingerprints of a comment body: (content id, line id). Either
/// may be missing in comments written by older versions.
pub fn extract_fingerprints(body: &str) -> (r: (Option<String>, Option<String>))
    ensures
        match r.0 {
            Some(v) => marker_value_spec(body@, FINGERPRINT_MARKER@) == Some(v@),
            None => marker_value_spec(body@, FINGERPRINT_MARKER@) is None,
        },
        match r.1 {
            Some(v) => marker_value_spec(body@, LINE_FINGERPRINT_MARKER@) == Some(v@),
            None => marker_value_spec(body@, LINE_FINGERPRINT_MARKER@) is None,
        },
{
    (extract_marker_value(body, FINGERPRINT_MARKER), extract_marker_value(body, LINE_FINGERPRINT_MARKER))
}

/// The fingerprint a prior bot comment carries: both ids when present; a
/// lone content id (older comments) standing for both; none otherwise, and
/// none for comments the bot did not write.
pub open spec fn prior_fingerprint_spec(body: Seq<char>) -> Option<(Seq<char>, Seq<char>)> {
    if !crate::text::seq_contains(body, BOT_MARKER@) {
        None
    } else {
        match (marker_value_spec(body, FINGERPRINT_MARKER@), marker_value_spec(body, LINE_FINGERPRINT_MARKER@)) {
            (Some(c), Some(l)) => Some((c, l)),
            (Some(c), None) => Some((c, c)),
            _ => None,
        }
    }
}

/// The fingerprints of prior bot comments, in comment order.
pub fn prior_fingerprints(bodies: &Vec<String>) -> (r: Vec<Fingerprint>)
    ensures
        r@.map_values(|f: Fingerprint| (f.id@, f.line_id@)) == bodies@.map_values(
            |b: String| b@,
        ).filter_map(|b: Seq<char>| prior_fingerprint_spec(b)),
{
    let mut r: Vec<Fingerprint> = Vec::new();
    let ghost bs = bodies@.map_values(|b: String| b@);
    let marker = chars_of(BOT_MARKER);
    let mut i: usize = 0;
    while i < bodies.len()
        invariant
            i <= bodies@.len(),
            bs == bodies@.map_values(|b: String| b@),
            marker@ == BOT_MARKER@,
            r@.map_values(|f: Fingerprint| (f.id@, f.line_id@)) == bs.take(i as int).filter_map(
                |b: Seq<char>| prior_fingerprint_spec(b),
            ),
        decreases bodies@.len() - i,
    {
        let body = bodies[i].as_str();
        let bc = chars_of(body);
        let ghost old_r = r@;
        proof {
            assert(bs.take(i + 1).drop_last() =~= bs.take(i as int));
            assert(bs.take(i + 1).last() == body@);
            bs.take(i + 1).lemma_filter_map_take_succ(|b: Seq<char>| prior_fingerprint_spec(b), i as int);
        }
        if crate::text::contains(bc.as_slice(), marker.as_slice()) {
            let (c, l) = extract_fingerprints(body);
            match c {
                Some(cid) => {
                    let line_id = match l {
                        Some(lid) => lid,
                        None => cid.clone(),
                    };
                    r.push(Fingerprint { id: cid, line_id });
                    assert(r@.map_values(|f: Fingerprint| (f.id@, f.line_id@)) =~= old_r.map_values(
                        |f: Fingerprint| (f.id@, f.line_id@),
                    ).push(prior_fingerprint_spec(body@).unwrap()));
                },
                None => {},
            }
        }
        i = i + 1;
    }
    assert(bs.take(bodies@.len() as int) =~= bs);
    r
}

/// Whether a discussion note is a bot comment whose content fingerprint is
/// among the stale ones.
pub open spec fn note_is_stale_spec(body: Seq<char>, stale_ids: Seq<Seq<char>>) -> bool {
    crate::text::seq_contains(body, BOT_MARKER@) && match marker_value_spec(body, FINGERPRINT_MARKER@) {
        Some(id) => stale_ids.contains(id),
        None => false,
    }
}

/// Decides whether a discussion note belongs to a stale finding.
pub fn note_is_stale(body: &str, stale: &Vec<Fingerprint>) -> (b: bool)
    ensures
        b == note_is_stale_spec(body@, stale@.map_values(|f: Fingerprint| f.id@)),
{
    let bc = chars_of(body);
    let marker = chars_of(BOT_MARKER);
    if !crate::text::contains(bc.as_slice(), marker.as_slice()) {
        return false;
    }
    match extract_marker_value(body, FINGERPRINT_MARKER) {
        None => false,
        Some(id) => {
            let ic = chars_of(id.as_str());
            let ghost ids = stale@.map_values(|f: Fingerprint| f.id@);
            let mut k: usize = 0;
            while k < stale.len()
                invariant
                    k <= stale@.len(),
                    ids == stale@.map_values(|f: Fingerprint| f.id@),
                    marker_value_spec(body@, FINGERPRINT_MARKER@) == Some(ic@),
                    crate::text::seq_contains(body@, BOT_MARKER@),
                    forall|j: int| 0 <= j < k ==> ids[j] != ic@,
                decreases stale@.len() - k,
            {
                let sc = chars_of(stale[k].id.as_str());
                if crate::sorted::chars_eq(sc.as_slice(), ic.as_slice()) {
                    assert(ids[k as int] == ic@);
                    return true;
                }
                k = k + 1;
            }
            assert(!ids.contains(ic@)) by {
                if ids.contains(ic@) {
                    let j = choose|j: int| 0 <= j < ids.len() && ids[j] == ic@;
                }
            }
            false
        },
    }
}

// ---------------------------------------------------------------------------
// Reading diffs
// ---------------------------------------------------------------------------

/// The new-side path a diff line names, when it is a `+++ b/` line of an
/// existing file.
pub open spec fn changed_path_of(line: Seq<char>) -> Option<Seq<char>> {
    if occurs_at(line, DIFF_NEW_PREFIX@, 0) {
        let p = line.subrange(DIFF_NEW_PREFIX@.len() as int, line.len() as int);
        if p != NULL_PATH@ {
            Some(p)
        } else {
            None
        }
    } else {
        None
    }
}

/// The changed paths a diff names, sorted and without duplicates.
pub fn parse_changed_paths_from_diff(diff: &str) -> (r: Vec<String>)
    ensures
        strictly_sorted(string_views(r@)),
        string_views(r@).to_set() == lines_spec(diff@).filter_map(|l: Seq<char>| changed_path_of(l)).to_set(),
{
    let d = chars_of(diff);
    let ls = lines(d.as_slice());
    let prefix = chars_of(DIFF_NEW_PREFIX);
    let null = chars_of(NULL_PATH);
    let mut paths: Vec<Vec<char>> = Vec::new();
    let ghost lv = views(ls@);
    let mut i: usize = 0;
    while i < ls.len()
        invariant
            i <= ls@.len(),
            lv == views(ls@),
            lv == lines_spec(d@),
            d@ == diff@,
            prefix@ == DIFF_NEW_PREFIX@,
            null@ == NULL_PATH@,
            views(paths@) == lv.take(i as int).filter_map(|l: Seq<char>| changed_path_of(l)),
        decreases ls@.len() - i,
    {
        let line = &ls[i];
        proof {
            assert(lv.take(i + 1).drop_last() =~= lv.take(i as int));
            assert(lv.take(i + 1).last() == line@);
            lv.take(i + 1).lemma_filter_map_take_succ(|l: Seq<char>| changed_path_of(l), i as int);
        }
        if crate::text::starts_with(line.as_slice(), prefix.as_slice()) {
            let p = crate::split::copy_range(line.as_slice(), prefix.len(), line.len());
            if !crate::sorted::chars_eq(p.as_slice(), null.as_slice()) {
                let ghost old_p = paths@;
                paths.push(p);
                assert(views(paths@) =~= views(old_p).push(changed_path_of(line@).unwrap()));
            }
        }
        i = i + 1;
    }
    assert(lv.take(ls@.len() as int) =~= lv);
    let sorted = sort_dedup(&paths);
    to_strings(&sorted)
}

/// Separates identifier pieces: anything but letters, digits and `_`.
pub open spec fn is_ident_sep(c: char) -> bool {
    !char_is_alphanumeric(c) && c != '_'
}

/// The pieces of `s` between identifier separators (empty pieces included).
pub open spec fn ident_pieces_to(s: Seq<char>, k: int) -> (Seq<char>, Seq<Seq<char>>)
    decreases k,
{
    if k <= 0 {
        (Seq::empty(), Seq::empty())
    } else {
        let (cur, found) = ident_pieces_to(s, k - 1);
        let c = s[k - 1];
        if is_ident_sep(c) {
            (Seq::empty(), found.push(cur))
        } else {
            (cur.push(c), found)
        }
    }
}

/// All identifier pieces of a text.
pub open spec fn ident_pieces(s: Seq<char>) -> Seq<Seq<char>> {
    let (cur, found) = ident_pieces_to(s, s.len() as int);
    found.push(cur)
}

/// A piece counts as an identifier when, trimmed, it has more than two bytes
/// and starts with a letter.
pub open spec fn identifier_word(w: Seq<char>) -> bool {
    let t = trim_spec(w);
    byte_len(t) > 2 && t.len() > 0 && char_is_alphabetic(t[0])
}

/// The identifiers an added diff line (`+` but not `+++`) contributes.
pub open spec fn added_line_identifiers(line: Seq<char>) -> Seq<Seq<char>> {
    if line.len() > 0 && line[0] == '+' && !occurs_at(line, DIFF_HUNK_PREFIX@, 0) {
        ident_pieces(line.subrange(1, line.len() as int)).filter(|w: Seq<char>| identifier_word(w)).map_values(
            |w: Seq<char>| trim_spec(w),
        )
    } else {
        Seq::empty()
    }
}

fn ident_words(s: &[char]) -> (r: Vec<Vec<char>>)
    ensures
        views(r@) == ident_pieces(s@).filter(|w: Seq<char>| identifier_word(w)).map_values(
            |w: Seq<char>| trim_spec(w),
        ),
{
    let mut pieces: Vec<Vec<char>> = Vec::new();
    let mut cur: Vec<char> = Vec::new();
    let mut k: usize = 0;
    while k < s.len()
        invariant
            k <= s@.len(),
            ident_pieces_to(s@, k as int) == (cur@, views(pieces@)),
        decreases s@.len() - k,
    {
        let c = s[k];
        if !is_alphanumeric(c) && c != '_' {
            let ghost old_p = pieces@;
            let done = cur;
            pieces.push(done);
            assert(views(pieces@) =~= views(old_p).push(done@));
            cur = Vec::new();
        } else {
            cur.push(c);
        }
        k = k + 1;
    }
    let ghost old_p = pieces@;
    pieces.push(cur);
    assert(views(pieces@) =~= ident_pieces(s@));
    let ghost pv = ident_pieces(s@);
    let mut out: Vec<Vec<char>> = Vec::new();
    let mut i: usize = 0;
    while i < pieces.len()
        invariant
            i <= pieces@.len(),
            views(pieces@) == pv,
            pv == ident_pieces(s@),
            views(out@) == pv.take(i as int).filter(|w: Seq<char>| identifier_word(w)).map_values(
                |w: Seq<char>| trim_spec(w),
            ),
        decreases pieces@.len() - i,
    {
        let t = trim_chars(pieces[i].as_slice());
        let n = crate::verify::prefix_byte_len(t.as_slice(), t.len());
        assert(t@.take(t@.len() as int) =~= t@);
        let keep = n > 2 && t.len() > 0 && is_alphabetic(t[0]);
        proof {
            reveal(Seq::filter);
            assert(pv.take(i + 1).drop_last() =~= pv.take(i as int));
            assert(pv.take(i + 1).last() == pieces@[i as int]@);
        }
        if keep {
            let ghost old_out = out@;
            out.push(t);
            assert(views(out@) =~= views(old_out).push(trim_spec(pieces@[i as int]@)));
        }
        i = i + 1;
    }
    assert(pv.take(pieces@.len() as int) =~= pv);
    out
}

/// The identifiers added lines of a diff mention, sorted and without
/// duplicates.
pub fn extract_identifiers_from_diff(diff: &str) -> (r: Vec<String>)
    ensures
        strictly_sorted(string_views(r@)),
        string_views(r@).to_set() == lines_spec(diff@).map_values(|l: Seq<char>| added_line_identifiers(l)).flatten().to_set(),
{
    let d = chars_of(diff);
    let ls = lines(d.as_slice());
    let hunk = chars_of(DIFF_HUNK_PREFIX);
    let mut ids: Vec<Vec<char>> = Vec::new();
    let ghost lv = views(ls@);
    let mut i: usize = 0;
    while i < ls.len()
        invariant
            i <= ls@.len(),
            lv == views(ls@),
            lv == lines_spec(d@),
            d@ == diff@,
            hunk@ == DIFF_HUNK_PREFIX@,
            views(ids@) == lv.take(i as int).map_values(|l: Seq<char>| added_line_identifiers(l)).flatten(),
        decreases ls@.len() - i,
    {
        let line = &ls[i];
        let ghost before = views(ids@);
        if line.len() > 0 && line[0] == '+' && !crate::text::starts_with(line.as_slice(), hunk.as_slice()) {
            let content = crate::split::copy_range(line.as_slice(), 1, line.len());
            let words = ident_words(content.as_slice());
            let mut k: usize = 0;
            while k < words.len()
                invariant
                    k <= words@.len(),
                    views(ids@) == before + views(words@).take(k as int),
                decreases words@.len() - k,
            {
                let ghost prev = views(ids@);
                let c = crate::sorted::copy_chars(&words[k]);
                assert(c@ == views(words@)[k as int]);
                ids.push(c);
                assert(views(ids@) =~= prev.push(c@));
                assert(views(words@).take(k + 1) =~= views(words@).take(k as int).push(c@));
                assert(views(ids@) =~= before + views(words@).take(k + 1));
                k = k + 1;
            }
            assert(views(words@).take(words@.len() as int) =~= views(words@));
            assert(added_line_identifiers(line@) == views(words@));
        } else {
            assert(added_line_identifiers(line@) =~= Seq::<Seq<char>>::empty());
        }
        proof {
            let m = lv.take(i + 1).map_values(|l: Seq<char>| added_line_identifiers(l));
            assert(m =~= lv.take(i as int).map_values(|l: Seq<char>| added_line_identifiers(l)).push(added_line_identifiers(line@)));
            m.drop_last().lemma_flatten_push(added_line_identifiers(line@));
            assert(m.drop_last() =~= lv.take(i as int).map_values(|l: Seq<char>| added_line_identifiers(l)));
        }
        i = i + 1;
    }
    assert(lv.take(ls@.len() as int) =~= lv);
    let sorted = sort_dedup(&ids);
    to_strings(&sorted)
}


// ---------------------------------------------------------------------------
// Merge request data as the code host hands it over
// ---------------------------------------------------------------------------

/// The path shown for a change whose path the host left out.
pub const UNKNOWN_PATH: &'static str = "unknown";

/// Where the host's REST API lives when none is configured.
pub const DEFAULT_GITLAB_API_BASE: &'static str = "https://gitlab.com/api/v4";

/// How a project path is written inside an API path.
pub const ENCODED_SLASH: &'static str = "%2F";

/// One changed file of a merge request, as the host reports it.
pub struct DiffChange {
    pub old_path: Option<String>,
    pub new_path: Option<String>,
    pub diff: Option<String>,
}

/// A field's text, or a fallback when the host left it out.
pub open spec fn or_text(o: Option<String>, fallback: Seq<char>) -> Seq<char> {
    match o {
        Some(t) => t@,
        None => fallback,
    }
}

/// Whether a diff, after leading whitespace, already starts with its
/// header.
pub open spec fn has_diff_header(d: Seq<char>) -> bool {
    occurs_at(d, "---"@, crate::text::skip_ws(d, 0))
}

/// One change in unified form: its diff as given when it carries a
/// header, else a header made from its paths followed by the diff.
pub open spec fn change_text(c: DiffChange) -> Seq<char> {
    let d = or_text(c.diff, Seq::empty());
    if has_diff_header(d) {
        d + "\n"@
    } else {
        DIFF_OLD_PREFIX@ + or_text(c.old_path, UNKNOWN_PATH@) + "\n"@ + DIFF_NEW_PREFIX@ + or_text(
            c.new_path,
            UNKNOWN_PATH@,
        ) + "\n"@ + d + "\n"@
    }
}

/// The unified diff of the changes, in order.
pub open spec fn merge_request_diff_spec(cs: Seq<DiffChange>) -> Seq<char>
    decreases cs.len(),
{
    if cs.len() == 0 {
        Seq::empty()
    } else {
        merge_request_diff_spec(cs.drop_last()) + change_text(cs.last())
    }
}

fn starts_with_header(d: &str) -> (b: bool)
    ensures
        b == has_diff_header(d@),
{
    let cs = chars_of(d);
    let mut a: usize = 0;
    while a < cs.len() && crate::text::is_whitespace(cs[a])
        invariant
            a <= cs@.len(),
            crate::text::skip_ws(cs@, 0) == crate::text::skip_ws(cs@, a as int),
        decreases cs@.len() - a,
    {
        a = a + 1;
    }
    let dashes: Vec<char> = vec!['-', '-', '-'];
    assert(dashes@ =~= "---"@) by {
        reveal_strlit("---");
    }
    crate::text::matches_at(cs.as_slice(), dashes.as_slice(), a)
}

/// Builds one unified diff from a merge request's changes.
pub fn merge_request_diff(changes: &Vec<DiffChange>) -> (r: String)
    ensures
        r@ == merge_request_diff_spec(changes@),
{
    let mut r = String::new();
    let mut i: usize = 0;
    while i < changes.len()
        invariant
            i <= changes@.len(),
            r@ == merge_request_diff_spec(changes@.take(i as int)),
        decreases changes@.len() - i,
    {
        let c = &changes[i];
        let d: &str = match &c.diff {
            Some(t) => t.as_str(),
            None => "",
        };
        proof {
            assert(changes@.take(i + 1).drop_last() =~= changes@.take(i as int));
            assert(changes@.take(i + 1).last() == changes@[i as int]);
            reveal_strlit("");
            assert(d@ =~= or_text(c.diff, Seq::empty()));
        }
        if starts_with_header(d) {
            append_str(&mut r, d);
            append_str(&mut r, "\n");
        } else {
            let old_path: &str = match &c.old_path {
                Some(t) => t.as_str(),
                None => UNKNOWN_PATH,
            };
            let new_path: &str = match &c.new_path {
                Some(t) => t.as_str(),
                None => UNKNOWN_PATH,
            };
            let h = format_diff_header(old_path, new_path, d);
            append_str(&mut r, h.as_str());
        }
        assert(r@ =~= merge_request_diff_spec(changes@.take(i + 1)));
        i = i + 1;
    }
    assert(changes@.take(changes@.len() as int) =~= changes@);
    r
}

/// A project path with every `/` written as `%2F`.
pub open spec fn encode_path_spec(p: Seq<char>) -> Seq<char>
    decreases p.len(),
{
    if p.len() == 0 {
        Seq::empty()
    } else {
        encode_path_spec(p.drop_last()) + if p.last() == '/' {
            ENCODED_SLASH@
        } else {
            seq![p.last()]
        }
    }
}

/// Encodes a project path for use inside an API path.
pub fn encode_project_path(project_path: &str) -> (r: String)
    ensures
        r@ == encode_path_spec(project_path@),
{
    let cs = chars_of(project_path);
    let mut r = String::new();
    let mut i: usize = 0;
    while i < cs.len()
        invariant
            i <= cs@.len(),
            cs@ == project_path@,
            r@ == encode_path_spec(cs@.take(i as int)),
        decreases cs@.len() - i,
    {
        assert(cs@.take(i + 1).drop_last() =~= cs@.take(i as int));
        if cs[i] == '/' {
            append_str(&mut r, ENCODED_SLASH);
        } else {
            crate::text::push_char(&mut r, cs[i]);
        }
        i = i + 1;
    }
    assert(cs@.take(cs@.len() as int) =~= cs@);
    r
}

/// The API base to use: the configured one, else the public host's, with
/// trailing slashes removed.
pub fn gitlab_api_base(api_base: Option<&str>) -> (r: String)
    ensures
        r@ == crate::execution::trim_end_slashes(
            match api_base {
                Some(b) => b@,
                None => DEFAULT_GITLAB_API_BASE@,
            },
        ),
{
    match api_base {
        Some(b) => crate::execution::normalize_endpoint(b),
        None => crate::execution::normalize_endpoint(DEFAULT_GITLAB_API_BASE),
    }
}

/// The first line of a text, or the text itself when it has no lines.
pub open spec fn first_line_spec(s: Seq<char>) -> Seq<char> {
    if lines_spec(s).len() > 0 {
        lines_spec(s)[0]
    } else {
        s
    }
}

/// The subject line of a commit message.
pub fn first_line(s: &str) -> (r: String)
    ensures
        r@ == first_line_spec(s@),
{
    let cs = chars_of(s);
    let ls = lines(cs.as_slice());
    if ls.len() > 0 {
        proof {
            assert(views(ls@)[0] == ls@[0]@);
        }
        string_of(ls[0].as_slice())
    } else {
        String::from_str(s)
    }
}

/// The page of notes to fetch after `page`: the host's next page when it
/// lies ahead and within the page limit; none otherwise.
pub fn next_notes_page(page: usize, next_page: Option<usize>, max_pages: usize) -> (r: Option<usize>)
    ensures
        r == (match next_page {
            Some(p) => if p > page && p <= max_pages { Some(p) } else { None },
            None => None,
        }),
{
    match next_page {
        Some(p) => {
            if p > page && p <= max_pages {
                Some(p)
            } else {
                None
            }
        },
        None => None,
    }
}

} // verus!
