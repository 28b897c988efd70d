//! The review prompts: the system prompt with its rules, and the user
//! prompt that carries the change's metadata, diff and file contents.
use vstd::prelude::*;
use crate::decimal::{decimal, decimal_chars, pad_left, pad_left_chars};
use crate::split::{join_chars, join_spec, lines, lines_spec, views};
use crate::text::{append_chars, append_str, chars_of, find_from, occurs_at, string_of};
use crate::config::SnifConfig;
use crate::types::{ChangeMetadata, ContentTier, ContextFile, ContextPackage, FileView, file_view};

verus! {


pub const SYSTEM_PROMPT_INTRO: &'static str =
    "You are a strict, precision-focused code review agent. Your job is to find real issues \
     in code changes \u{2014} bugs, security vulnerabilities, logic errors, and convention \
     violations that have concrete impact.";

pub const SYSTEM_PROMPT_JSON_INSTRUCTION: &'static str =
    "Return ONLY one valid JSON object. Do not output markdown fences, analysis, \
     step-by-step reasoning, or any text before or after the JSON. Your first character \
     must be '{' and your last character must be '}'.";

pub const SYSTEM_PROMPT_RULES: [&'static str; 17] = [
    "- Bias toward false negatives over false positives. If you are not confident, stay quiet.",
    "- Keep reasoning internal. Never expose chain-of-thought.",
    "- Do NOT include a finding if you are uncertain or conclude there is no real issue.",
    "- A finding is only valid when you are confident it represents a concrete problem \
      with specific user-visible impact. Uncertainty = empty findings array.",
    "- Never include phrases like \"no bug\", \"no issue\", \"acceptable\", \"I will\", \
      or reasoning narration in the explanation or impact fields.",
    "- If you start analyzing something and decide it is not a bug, omit it entirely. \
      Do NOT include a finding whose purpose is to explain why there is no bug.",
    "- Every finding MUST cite specific evidence from the provided code.",
    "- Every finding MUST explain the user-relevant impact \u{2014} what breaks, what is at risk.",
    "- Do NOT flag speculative or hypothetical issues.",
    "- Do NOT flag issues you cannot ground in the provided context.",
    "- Prefer one finding per distinct root cause. Do not split one underlying bug into \
      multiple overlapping findings.",
    "- Do NOT flag micro-optimizations (unnecessary allocations, format patterns, iterator \
      vs collect, clone vs borrow) unless the code is in a measured hot path or processes \
      unbounded input. Focus on bugs that break correctness or security.",
    "- Treat database queries inside loops as real performance bugs.",
    "- Treat reading or collecting unbounded user-controlled input into memory without \
      size limits as a real performance bug.",
    "- Treat joining user-controlled path segments onto a base directory without validation \
      or normalization as a security bug.",
    "- Treat recursive or generic merges of user-controlled objects into plain objects \
      without blocking \"__proto__\", \"prototype\", or \"constructor\" keys as a \
      security bug (prototype pollution).",
    "- If full file content is not provided for a changed file, use the diff hunks to review \
      that file's changes.",
];

pub const SYSTEM_PROMPT_STYLE_SUPPRESSION: &'static str =
    "- Do NOT flag style-only issues (formatting, naming preferences) \
     unless they violate an explicit project convention.";

pub const SYSTEM_PROMPT_CONVENTION_INSTRUCTION: &'static str = "\n\n## Project Conventions\n";

pub const SYSTEM_PROMPT_CONVENTION_FOOTER: &'static str =
    "\n\nFlag violations of these conventions with category \"convention\".\n";

pub const SYSTEM_PROMPT_RESPONSE_FORMAT: &'static str = "\
\nRespond with a JSON object containing two fields:

1. \"summary\": A 1-2 sentence walkthrough of what this change does and why. \
   Describe the intent and impact on the codebase, not the individual files.

2. \"findings\": A JSON array of issues found. If the change is clean, \
   use an empty array. If you are unsure about the format, return \
   {\"summary\":\"\",\"findings\":[]} exactly.

Line numbers MUST refer to the line numbers in the file content \
provided in the Changed Files section. If file content is omitted, \
use the line numbers from the diff hunks.

Response format:
{
  \"summary\": \"<1-2 sentence walkthrough of the change>\",
  \"findings\": [
{
  \"file\": \"path/to/file\",
  \"start_line\": <line number in the file>,
  \"end_line\": <line number in the file or null>,
  \"category\": \"logic\" | \"security\" | \"convention\" | \"performance\" | \"style\" | \"other\",
  \"confidence\": <0.0 to 1.0>,
  \"evidence\": \"<quoted code from the diff or context>\",
  \"explanation\": \"<what is wrong and why>\",
  \"impact\": \"<what happens if this is not fixed>\",
  \"suggestion\": \"<optional fix suggestion or null>\"
}
  ]
}
";


pub const USER_PROMPT_DIFF_HEADER: &'static str = "\n\n## Diff\n\n```diff\n";
pub const USER_PROMPT_DIFF_FOOTER: &'static str = "\n```\n\n";
pub const USER_PROMPT_CHANGED_FILES_HEADER: &'static str = "\n\n## Changed Files\n\n";
pub const USER_PROMPT_RELATED_FILES_HEADER: &'static str = "\n\n## Related Files (for context)\n\n";
pub const USER_PROMPT_LINE_FORMAT: &'static str = "{:>4} | {}\n";
pub const USER_PROMPT_DIFF_ONLY_CONTENT: &'static str = "*{}*\n\n";
pub const USER_PROMPT_RELEVANCE_FORMAT: &'static str = " (relevance: {:.2})";
pub const USER_PROMPT_FINAL_INSTRUCTION: &'static str = "\
\nReview the diff above. Return only the JSON object described in the system prompt. \
Do not include markdown fences, analysis, or any extra text. Your first character \
must be '{' and your last character must be '}'. If you are unsure, return \
{\"summary\":\"\",\"findings\":[]} exactly.
";

/// Separates the prompt's introduction from its instructions.
pub const SECTION_SEPARATOR: &'static str = "\n\n";
/// Heads the list of review rules.
pub const RULES_HEADER: &'static str = "\n\nRules:\n";
/// A line break.
pub const NEWLINE: &'static str = "\n";
/// Opens a block of numbered file lines.
pub const CODE_FENCE_OPEN: &'static str = "```\n";
/// Closes a block of numbered file lines.
pub const CODE_FENCE_CLOSE: &'static str = "```\n\n";
/// Wraps a related file's content.
pub const CODE_FENCE_WRAPPER: &'static str = "```\n{}\n```\n\n";
/// The change title line.
pub const METADATA_CHANGE_LABEL: &'static str = "Change: {}\n";
/// The author line.
pub const METADATA_AUTHOR_LABEL: &'static str = "Author: {}\n";
/// The base branch line.
pub const METADATA_BRANCH_LABEL: &'static str = "Base branch: {}\n";
/// The description block.
pub const METADATA_DESCRIPTION_HEADER: &'static str = "\n\nDescription:\n{}\n";
/// The labels line.
pub const METADATA_LABELS_HEADER: &'static str = "\n\nLabels: {}\n";
/// Heads the commit list.
pub const METADATA_COMMITS_HEADER: &'static str = "\n\nCommits:\n";
/// One commit message.
pub const METADATA_COMMIT_ITEM: &'static str = "- {}\n";
/// Heads one file.
pub const METADATA_FILE_HEADER: &'static str = "### {}\n";
/// A file's summary line.
pub const METADATA_SUMMARY_LABEL: &'static str = "Summary: {}\n";

// ---------------------------------------------------------------------------
// Templates
// ---------------------------------------------------------------------------

/// The first placeholder `{}` at or after `i`.
#[verifier::opaque]
pub open spec fn next_placeholder(t: Seq<char>, i: int) -> Option<int> {
    if exists|j: int| i <= j && occurs_at(t, "{}"@, j) {
        Some(choose|j: int| i <= j && occurs_at(t, "{}"@, j) && forall|m: int| i <= m < j ==> !occurs_at(t, "{}"@, m))
    } else {
        None
    }
}

/// `str::replace("{}", v)` on `t[i..]`: every placeholder, left to right,
/// replaced by the value.
#[verifier::opaque]
pub open spec fn fill_from(t: Seq<char>, v: Seq<char>, i: int) -> Seq<char>
    decreases t.len() + 2 - i,
{
    if i < 0 || i > t.len() {
        Seq::empty()
    } else {
        match next_placeholder(t, i) {
            Some(j) => if i <= j && j + 2 <= t.len() {
                t.subrange(i, j) + v + fill_from(t, v, j + 2)
            } else {
                Seq::empty()
            },
            None => t.subrange(i, t.len() as int),
        }
    }
}

/// A template with every `{}` replaced by a value.
pub open spec fn fill_spec(t: Seq<char>, v: Seq<char>) -> Seq<char> {
    fill_from(t, v, 0)
}

proof fn lemma_next_placeholder(t: Seq<char>, i: int, j: int)
    requires
        i <= j,
        occurs_at(t, "{}"@, j),
        forall|m: int| i <= m < j ==> !occurs_at(t, "{}"@, m),
    ensures
        next_placeholder(t, i) == Some(j),
{
    reveal(next_placeholder);
    let w = choose|w: int| i <= w && occurs_at(t, "{}"@, w) && forall|m: int| i <= m < w ==> !occurs_at(t, "{}"@, m);
    if w < j {
    } else if w > j {
        assert(!occurs_at(t, "{}"@, j));
    }
}

/// Appends `t[a..b]` to `out`.
pub fn push_range(out: &mut Vec<char>, t: &[char], a: usize, b: usize)
    requires
        a <= b <= t@.len(),
    ensures
        final(out)@ == old(out)@ + t@.subrange(a as int, b as int),
{
    let ghost o = out@;
    let mut k = a;
    while k < b
        invariant
            a <= k <= b <= t@.len(),
            out@ == o + t@.subrange(a as int, k as int),
        decreases b - k,
    {
        out.push(t[k]);
        k = k + 1;
        assert(out@ =~= o + t@.subrange(a as int, k as int));
    }
}

proof fn lemma_fill_step(t: Seq<char>, v: Seq<char>, i: int, j: int)
    requires
        0 <= i <= j,
        occurs_at(t, "{}"@, j),
        forall|m: int| i <= m < j ==> !occurs_at(t, "{}"@, m),
        "{}"@.len() == 2,
    ensures
        fill_from(t, v, i) == t.subrange(i, j) + v + fill_from(t, v, j + 2),
{
    lemma_next_placeholder(t, i, j);
    reveal(fill_from);
}

proof fn lemma_fill_last(t: Seq<char>, v: Seq<char>, i: int)
    requires
        0 <= i <= t.len(),
        forall|m: int| i <= m ==> !occurs_at(t, "{}"@, m),
    ensures
        fill_from(t, v, i) == t.subrange(i, t.len() as int),
{
    reveal(next_placeholder);
    reveal(fill_from);
}

/// Fills a template's `{}` placeholders with a value.
pub fn fill_template(template: &str, value: &str) -> (r: String)
    ensures
        r@ == fill_spec(template@, value@),
{
    let t = chars_of(template);
    let v = chars_of(value);
    let ph = chars_of("{}");
    proof {
        reveal_strlit("{}");
    }
    let mut out: Vec<char> = Vec::new();
    let mut i: usize = 0;
    loop
        invariant
            i <= t@.len(),
            ph@ == "{}"@,
            "{}"@.len() == 2,
            out@ + fill_from(t@, v@, i as int) == fill_spec(t@, v@),
            t@ == template@,
            v@ == value@,
        decreases t@.len() - i,
    {
        match find_from(t.as_slice(), ph.as_slice(), i) {
            Some(j) => {
                proof {
                    lemma_fill_step(t@, v@, i as int, j as int);
                    assert(occurs_at(t@, ph@, j as int));
                    assert(j + 2 <= t@.len());
                    assert(t@.len() == t.len());
                }
                let ghost o = out@;
                push_range(&mut out, t.as_slice(), i, j);
                push_range(&mut out, v.as_slice(), 0, v.len());
                assert(v@.subrange(0, v@.len() as int) =~= v@);
                assert(out@ + fill_from(t@, v@, j + 2) =~= o + fill_from(t@, v@, i as int));
                i = j + 2;
            },
            None => {
                proof {
                    lemma_fill_last(t@, v@, i as int);
                }
                push_range(&mut out, t.as_slice(), i, t.len());
                return string_of(out.as_slice());
            },
        }
    }
}

// ---------------------------------------------------------------------------
// The system prompt
// ---------------------------------------------------------------------------

/// The review rules, each on its own line, from rule `k` on.
pub open spec fn rules_from(k: int) -> Seq<char>
    decreases SYSTEM_PROMPT_RULES@.len() - k,
{
    if k < 0 || k >= SYSTEM_PROMPT_RULES@.len() {
        Seq::empty()
    } else {
        SYSTEM_PROMPT_RULES@[k]@ + NEWLINE@ + rules_from(k + 1)
    }
}

/// The system prompt: introduction, output instruction, rules, the style
/// rule when style-only findings are suppressed, the project conventions
/// and the evaluation guidance when given, and the response format.
pub open spec fn system_prompt_spec(
    suppress_style_only: bool,
    conventions: Option<Seq<char>>,
    guidance: Option<Seq<char>>,
) -> Seq<char> {
    SYSTEM_PROMPT_INTRO@ + SECTION_SEPARATOR@ + SYSTEM_PROMPT_JSON_INSTRUCTION@ + RULES_HEADER@
        + rules_from(0) + (if suppress_style_only {
        SYSTEM_PROMPT_STYLE_SUPPRESSION@ + NEWLINE@
    } else {
        Seq::empty()
    }) + (match conventions {
        Some(c) => NEWLINE@ + SYSTEM_PROMPT_CONVENTION_INSTRUCTION@ + c + SYSTEM_PROMPT_CONVENTION_FOOTER@,
        None => Seq::empty(),
    }) + (match guidance {
        Some(g) => NEWLINE@ + g + NEWLINE@,
        None => Seq::empty(),
    }) + SYSTEM_PROMPT_RESPONSE_FORMAT@
}

/// Renders the system prompt with optional conventions and guidance.
pub fn render_system_prompt_with_conventions(
    config: &SnifConfig,
    conventions: Option<&str>,
    guidance: Option<&str>,
) -> (r: String)
    ensures
        r@ == system_prompt_spec(
            config.filter.suppress_style_only,
            match conventions { Some(c) => Some(c@), None => None },
            match guidance { Some(g) => Some(g@), None => None },
        ),
{
    let mut p = String::new();
    let suppress_style_only = config.filter.suppress_style_only;
    append_str(&mut p, SYSTEM_PROMPT_INTRO);
    append_str(&mut p, SECTION_SEPARATOR);
    append_str(&mut p, SYSTEM_PROMPT_JSON_INSTRUCTION);
    append_str(&mut p, RULES_HEADER);
    let ghost head = p@;
    let mut k: usize = 0;
    while k < SYSTEM_PROMPT_RULES.len()
        invariant
            k <= SYSTEM_PROMPT_RULES@.len(),
            p@ + rules_from(k as int) == head + rules_from(0),
        decreases SYSTEM_PROMPT_RULES@.len() - k,
    {
        append_str(&mut p, SYSTEM_PROMPT_RULES[k]);
        append_str(&mut p, NEWLINE);
        assert(p@ + rules_from(k + 1) =~= head + rules_from(0));
        k = k + 1;
    }
    assert(p@ =~= head + rules_from(0));
    if suppress_style_only {
        append_str(&mut p, SYSTEM_PROMPT_STYLE_SUPPRESSION);
        append_str(&mut p, NEWLINE);
    }
    match conventions {
        Some(c) => {
            append_str(&mut p, NEWLINE);
            append_str(&mut p, SYSTEM_PROMPT_CONVENTION_INSTRUCTION);
            append_str(&mut p, c);
            append_str(&mut p, SYSTEM_PROMPT_CONVENTION_FOOTER);
        },
        None => {},
    }
    match guidance {
        Some(g) => {
            append_str(&mut p, NEWLINE);
            append_str(&mut p, g);
            append_str(&mut p, NEWLINE);
        },
        None => {},
    }
    append_str(&mut p, SYSTEM_PROMPT_RESPONSE_FORMAT);
    assert(p@ =~= system_prompt_spec(
        suppress_style_only,
        match conventions { Some(c) => Some(c@), None => None },
        match guidance { Some(g) => Some(g@), None => None },
    ));
    p
}

/// Renders the system prompt without conventions or guidance.
pub fn render_system_prompt(config: &SnifConfig) -> (r: String)
    ensures
        r@ == system_prompt_spec(config.filter.suppress_style_only, None, None),
{
    render_system_prompt_with_conventions(config, None, None)
}

// ---------------------------------------------------------------------------
// The user prompt
// ---------------------------------------------------------------------------

/// A template filled with an optional value (nothing when absent).
pub open spec fn opt_fill(t: Seq<char>, o: Option<String>) -> Seq<char> {
    match o {
        Some(x) => fill_spec(t, x@),
        None => Seq::empty(),
    }
}

/// The commit list lines.
pub open spec fn commit_items(msgs: Seq<String>) -> Seq<char> {
    msgs.map_values(|m: String| fill_spec(METADATA_COMMIT_ITEM@, m@)).flatten()
}

/// The metadata block: title, author, base branch, description, labels and
/// commits, each only when present.
pub open spec fn metadata_spec(m: ChangeMetadata) -> Seq<char> {
    opt_fill(METADATA_CHANGE_LABEL@, m.title) + opt_fill(METADATA_AUTHOR_LABEL@, m.author) + opt_fill(
        METADATA_BRANCH_LABEL@,
        m.base_branch,
    ) + opt_fill(METADATA_DESCRIPTION_HEADER@, m.description) + (if m.labels@.len() > 0 {
        fill_spec(
            METADATA_LABELS_HEADER@,
            join_spec(crate::sorted::string_views(m.labels@), ", "@),
        )
    } else {
        Seq::empty()
    }) + (if m.commit_messages@.len() > 0 {
        METADATA_COMMITS_HEADER@ + commit_items(m.commit_messages@)
    } else {
        Seq::empty()
    })
}

/// One numbered line of a file listing (`{:>4} | {}` filled into the line
/// template).
pub open spec fn numbered_line(i: int, line: Seq<char>) -> Seq<char> {
    fill_spec(USER_PROMPT_LINE_FORMAT@, pad_left(decimal((i + 1) as nat), 4) + " | "@ + line)
}

/// A file's lines, numbered from one.
pub open spec fn numbered_lines(content: Seq<char>) -> Seq<char> {
    lines_spec(content).map(|i: int, l: Seq<char>| numbered_line(i, l)).flatten()
}

/// A template filled with an optional text (nothing when absent).
pub open spec fn opt_fill_view(t: Seq<char>, o: Option<Seq<char>>) -> Seq<char> {
    match o {
        Some(x) => fill_spec(t, x),
        None => Seq::empty(),
    }
}

/// How a changed file appears: its header, its summary, and its numbered
/// lines (full tier) or its placeholder content (other tiers).
pub open spec fn changed_block(f: FileView) -> Seq<char> {
    fill_spec(METADATA_FILE_HEADER@, f.path) + opt_fill_view(METADATA_SUMMARY_LABEL@, f.summary) + (
    if f.tier == ContentTier::Full {
        CODE_FENCE_OPEN@ + numbered_lines(f.content) + CODE_FENCE_CLOSE@
    } else {
        fill_spec(USER_PROMPT_DIFF_ONLY_CONTENT@, f.content)
    })
}

/// How a related file appears: header, relevance, summary, content.
pub open spec fn related_block(f: FileView) -> Seq<char> {
    fill_spec(METADATA_FILE_HEADER@, f.path) + opt_fill_view(USER_PROMPT_RELEVANCE_FORMAT@, f.score)
        + NEWLINE@ + opt_fill_view(METADATA_SUMMARY_LABEL@, f.summary) + fill_spec(
        CODE_FENCE_WRAPPER@,
        f.content,
    )
}

/// The user prompt rendered from metadata, a diff, and the changed and
/// related files.
pub open spec fn user_prompt_view(m: ChangeMetadata, diff: Seq<char>, changed: Seq<FileView>, related: Seq<FileView>) -> Seq<char> {
    metadata_spec(m) + NEWLINE@ + USER_PROMPT_DIFF_HEADER@ + diff + USER_PROMPT_DIFF_FOOTER@
        + USER_PROMPT_CHANGED_FILES_HEADER@ + changed.map_values(|f: FileView| changed_block(f)).flatten()
        + (if related.len() > 0 {
        USER_PROMPT_RELATED_FILES_HEADER@ + related.map_values(|f: FileView| related_block(f)).flatten()
    } else {
        Seq::empty()
    }) + USER_PROMPT_FINAL_INSTRUCTION@
}

/// The user prompt rendered from a context package.
pub open spec fn user_prompt_spec(c: ContextPackage) -> Seq<char> {
    user_prompt_view(
        c.metadata,
        c.diff@,
        c.changed_files@.map_values(|f: ContextFile| file_view(f)),
        c.related_files@.map_values(|f: ContextFile| file_view(f)),
    )
}

/// Appends a filled template.
pub fn append_fill(out: &mut String, t: &str, v: &str)
    ensures
        final(out)@ == old(out)@ + fill_spec(t@, v@),
{
    let f = fill_template(t, v);
    append_str(out, f.as_str());
}

/// Appends a template filled with an optional value.
pub fn append_opt_fill(out: &mut String, t: &str, v: &Option<String>)
    ensures
        final(out)@ == old(out)@ + opt_fill(t@, *v),
{
    match v {
        Some(x) => append_fill(out, t, x.as_str()),
        None => {
            assert(old(out)@ + opt_fill(t@, *v) =~= old(out)@);
        },
    }
}

fn append_metadata(out: &mut String, m: &ChangeMetadata)
    ensures
        final(out)@ == old(out)@ + metadata_spec(*m),
{
    let ghost o = out@;
    append_opt_fill(out, METADATA_CHANGE_LABEL, &m.title);
    append_opt_fill(out, METADATA_AUTHOR_LABEL, &m.author);
    append_opt_fill(out, METADATA_BRANCH_LABEL, &m.base_branch);
    append_opt_fill(out, METADATA_DESCRIPTION_HEADER, &m.description);
    let ghost after_opts = out@;
    if m.labels.len() > 0 {
        let mut parts: Vec<Vec<char>> = Vec::new();
        let mut k: usize = 0;
        while k < m.labels.len()
            invariant
                k <= m.labels@.len(),
                views(parts@) == crate::sorted::string_views(m.labels@).take(k as int),
            decreases m.labels@.len() - k,
        {
            let ghost old_p = parts@;
            let lc = chars_of(m.labels[k].as_str());
            parts.push(lc);
            proof {
                assert(views(parts@) =~= views(old_p).push(lc@));
                assert(lc@ == crate::sorted::string_views(m.labels@)[k as int]);
                assert(crate::sorted::string_views(m.labels@).take(k + 1) =~= crate::sorted::string_views(m.labels@).take(k as int).push(lc@));
            }
            k = k + 1;
        }
        assert(crate::sorted::string_views(m.labels@).take(m.labels@.len() as int) =~= crate::sorted::string_views(m.labels@));
        let sep = chars_of(", ");
        let joined = join_chars(&parts, sep.as_slice());
        let js = string_of(joined.as_slice());
        append_fill(out, METADATA_LABELS_HEADER, js.as_str());
    }
    let ghost after_labels = out@;
    if m.commit_messages.len() > 0 {
        append_str(out, METADATA_COMMITS_HEADER);
        let ghost base = out@;
        let ghost items = m.commit_messages@.map_values(|x: String| fill_spec(METADATA_COMMIT_ITEM@, x@));
        let mut k: usize = 0;
        while k < m.commit_messages.len()
            invariant
                k <= m.commit_messages@.len(),
                items == m.commit_messages@.map_values(|x: String| fill_spec(METADATA_COMMIT_ITEM@, x@)),
                out@ == base + items.take(k as int).flatten(),
            decreases m.commit_messages@.len() - k,
        {
            append_fill(out, METADATA_COMMIT_ITEM, m.commit_messages[k].as_str());
            proof {
                assert(items.take(k + 1) =~= items.take(k as int).push(items[k as int]));
                items.take(k as int).lemma_flatten_push(items[k as int]);
            }
            k = k + 1;
        }
        assert(items.take(m.commit_messages@.len() as int) =~= items);
    }
    assert(out@ =~= o + metadata_spec(*m));
}

fn append_numbered_lines(out: &mut String, content: &str)
    ensures
        final(out)@ == old(out)@ + numbered_lines(content@),
{
    let cs = chars_of(content);
    let ls = lines(cs.as_slice());
    let ghost base = out@;
    let ghost items = lines_spec(content@).map(|i: int, l: Seq<char>| numbered_line(i, l));
    let sep = chars_of(" | ");
    let mut i: usize = 0;
    while i < ls.len()
        invariant
            i <= ls@.len(),
            views(ls@) == lines_spec(content@),
            sep@ == " | "@,
            items == lines_spec(content@).map(|i: int, l: Seq<char>| numbered_line(i, l)),
            out@ == base + items.take(i as int).flatten(),
        decreases ls@.len() - i,
    {
        let num = decimal_chars((i as u64) + 1);
        let mut cell = pad_left_chars(num.as_slice(), 4);
        let ghost c0 = cell@;
        let mut k: usize = 0;
        while k < sep.len()
            invariant
                k <= sep@.len(),
                cell@ == c0 + sep@.take(k as int),
            decreases sep@.len() - k,
        {
            cell.push(sep[k]);
            k = k + 1;
            assert(cell@ =~= c0 + sep@.take(k as int));
        }
        assert(sep@.take(sep@.len() as int) =~= sep@);
        let ghost c1 = cell@;
        let line = &ls[i];
        let mut k: usize = 0;
        while k < line.len()
            invariant
                k <= line@.len(),
                cell@ == c1 + line@.take(k as int),
            decreases line@.len() - k,
        {
            cell.push(line[k]);
            k = k + 1;
            assert(cell@ =~= c1 + line@.take(k as int));
        }
        assert(line@.take(line@.len() as int) =~= line@);
        assert(line@ == lines_spec(content@)[i as int]);
        let cell_s = string_of(cell.as_slice());
        append_fill(out, USER_PROMPT_LINE_FORMAT, cell_s.as_str());
        proof {
            assert(cell@ == pad_left(decimal((i + 1) as nat), 4) + " | "@ + line@);
            assert(items[i as int] == numbered_line(i as int, lines_spec(content@)[i as int]));
            assert(items.take(i + 1) =~= items.take(i as int).push(items[i as int]));
            items.take(i as int).lemma_flatten_push(items[i as int]);
        }
        i = i + 1;
    }
    assert(items.take(ls@.len() as int) =~= items);
}

fn append_changed_block(out: &mut String, f: &ContextFile)
    ensures
        final(out)@ == old(out)@ + changed_block(file_view(*f)),
{
    let ghost o = out@;
    append_fill(out, METADATA_FILE_HEADER, f.path.as_str());
    append_opt_fill(out, METADATA_SUMMARY_LABEL, &f.summary);
    match f.content_tier {
        ContentTier::Full => {
            append_str(out, CODE_FENCE_OPEN);
            append_numbered_lines(out, f.content.as_str());
            append_str(out, CODE_FENCE_CLOSE);
        },
        _ => {
            append_fill(out, USER_PROMPT_DIFF_ONLY_CONTENT, f.content.as_str());
        },
    }
    assert(out@ =~= o + changed_block(file_view(*f)));
}

fn append_related_block(out: &mut String, f: &ContextFile)
    ensures
        final(out)@ == old(out)@ + related_block(file_view(*f)),
{
    let ghost o = out@;
    append_fill(out, METADATA_FILE_HEADER, f.path.as_str());
    append_opt_fill(out, USER_PROMPT_RELEVANCE_FORMAT, &f.retrieval_score);
    append_str(out, NEWLINE);
    append_opt_fill(out, METADATA_SUMMARY_LABEL, &f.summary);
    append_fill(out, CODE_FENCE_WRAPPER, f.content.as_str());
    assert(out@ =~= o + related_block(file_view(*f)));
}

/// Renders the user prompt of a review from its context package.
pub fn render_user_prompt(context: &ContextPackage) -> (r: String)
    ensures
        r@ == user_prompt_spec(*context),
{
    let mut p = String::new();
    append_metadata(&mut p, &context.metadata);
    append_str(&mut p, NEWLINE);
    append_str(&mut p, USER_PROMPT_DIFF_HEADER);
    append_str(&mut p, context.diff.as_str());
    append_str(&mut p, USER_PROMPT_DIFF_FOOTER);
    append_str(&mut p, USER_PROMPT_CHANGED_FILES_HEADER);
    let ghost base = p@;
    let ghost items = context.changed_files@.map_values(|f: ContextFile| file_view(f)).map_values(|f: FileView| changed_block(f));
    let mut i: usize = 0;
    while i < context.changed_files.len()
        invariant
            i <= context.changed_files@.len(),
            items == context.changed_files@.map_values(|f: ContextFile| file_view(f)).map_values(|f: FileView| changed_block(f)),
            p@ == base + items.take(i as int).flatten(),
        decreases context.changed_files@.len() - i,
    {
        append_changed_block(&mut p, &context.changed_files[i]);
        proof {
            assert(items.take(i + 1) =~= items.take(i as int).push(items[i as int]));
            items.take(i as int).lemma_flatten_push(items[i as int]);
        }
        i = i + 1;
    }
    assert(items.take(context.changed_files@.len() as int) =~= items);
    let ghost mid = p@;
    if context.related_files.len() > 0 {
        append_str(&mut p, USER_PROMPT_RELATED_FILES_HEADER);
        let ghost base2 = p@;
        let ghost items2 = context.related_files@.map_values(|f: ContextFile| file_view(f)).map_values(|f: FileView| related_block(f));
        let mut i: usize = 0;
        while i < context.related_files.len()
            invariant
                i <= context.related_files@.len(),
                items2 == context.related_files@.map_values(|f: ContextFile| file_view(f)).map_values(|f: FileView| related_block(f)),
                p@ == base2 + items2.take(i as int).flatten(),
            decreases context.related_files@.len() - i,
        {
            append_related_block(&mut p, &context.related_files[i]);
            proof {
                assert(items2.take(i + 1) =~= items2.take(i as int).push(items2[i as int]));
                items2.take(i as int).lemma_flatten_push(items2[i as int]);
            }
            i = i + 1;
        }
        assert(items2.take(context.related_files@.len() as int) =~= items2);
    }
    append_str(&mut p, USER_PROMPT_FINAL_INSTRUCTION);
    assert(p@ =~= user_prompt_spec(*context));
    p
}

} // verus!
