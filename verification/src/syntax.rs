//! What the indexer reads out of source files: the imports, symbols and
//! call references of Rust, Python and Java code, and the syntax errors,
//! from the matches of tree-sitter queries.
use vstd::prelude::*;
use tree_sitter::{Parser, Query, QueryCursor, StreamingIterator};
use crate::text::{append_str, chars_of, string_of};

verus! {

/// A language the indexer parses.
#[derive(Debug, Clone, Copy, PartialEq, Eq, Structural)]
pub enum Language {
    Rust,
    Python,
    Java,
}

/// A capture as tree-sitter reports it: the capture's name, the node's
/// kind, the row and column where the node starts and the row where it
/// ends (from zero, the column in bytes), and its text when that is UTF-8.
pub open spec fn raw_view<'a>(c: (String, &'static str, usize, usize, usize, Option<&'a str>)) -> (Seq<char>, Seq<char>, usize, usize, usize, Option<Seq<char>>) {
    (c.0@, c.1@, c.2, c.3, c.4, match c.5 {
        Some(t) => Some(t@),
        None => None,
    })
}

/// The matches of a query as plain values.
pub open spec fn raw_matches_view<'a>(r: Option<Vec<Vec<(String, &'static str, usize, usize, usize, Option<&'a str>)>>>) -> Option<
    Seq<Seq<(Seq<char>, Seq<char>, usize, usize, usize, Option<Seq<char>>)>>,
> {
    match r {
        Some(ms) => Some(
            ms@.map_values(
                |m: Vec<(String, &'static str, usize, usize, usize, Option<&'a str>)>|
                    m@.map_values(|c: (String, &'static str, usize, usize, usize, Option<&'a str>)| raw_view(c)),
            ),
        ),
        None => None,
    }
}

/// What tree-sitter's Rust grammar yields for a query over a source: per
/// match, per capture, the capture name, node kind, start row and column,
/// end row and text; nothing when the query does not compile or the source
/// does not parse.
pub uninterp spec fn rust_query_matches(query: Seq<char>, source: Seq<u8>) -> Option<
    Seq<Seq<(Seq<char>, Seq<char>, usize, usize, usize, Option<Seq<char>>)>>,
>;

/// The same for tree-sitter's Python grammar.
pub uninterp spec fn python_query_matches(query: Seq<char>, source: Seq<u8>) -> Option<
    Seq<Seq<(Seq<char>, Seq<char>, usize, usize, usize, Option<Seq<char>>)>>,
>;

/// The same for tree-sitter's Java grammar.
pub uninterp spec fn java_query_matches(query: Seq<char>, source: Seq<u8>) -> Option<
    Seq<Seq<(Seq<char>, Seq<char>, usize, usize, usize, Option<Seq<char>>)>>,
>;

/// Parses `source` with `tree_sitter_rust::LANGUAGE` (`Parser::parse`)
/// and runs `query` over the tree (`QueryCursor::matches`), listing each
/// match's captures with the node's start and end positions. The contract
/// only names the result as a function of the query and the source.
#[verifier::external_body]
fn rust_matches<'a>(query: &str, source: &'a [u8]) -> (r: Option<Vec<Vec<(String, &'static str, usize, usize, usize, Option<&'a str>)>>>)
    ensures
        raw_matches_view(r) == rust_query_matches(query@, source@),
{
    let g = tree_sitter_rust::LANGUAGE.into();
    let mut p = Parser::new();
    p.set_language(&g).ok()?;
    let t = p.parse(source, None)?;
    let q = Query::new(&g, query).ok()?;
    let mut c = QueryCursor::new();
    let ms = c.matches(&q, t.root_node(), source).map_deref(|m| m.captures.iter().map(|x| (q.capture_names()[x.index as usize].to_string(), x.node.kind(), x.node.start_position().row, x.node.start_position().column, x.node.end_position().row, x.node.utf8_text(source).ok())).collect());
    Some(ms.collect())
}

/// As `rust_matches`, with `tree_sitter_python::LANGUAGE`.
#[verifier::external_body]
fn python_matches<'a>(query: &str, source: &'a [u8]) -> (r: Option<Vec<Vec<(String, &'static str, usize, usize, usize, Option<&'a str>)>>>)
    ensures
        raw_matches_view(r) == python_query_matches(query@, source@),
{
    let g = tree_sitter_python::LANGUAGE.into();
    let mut p = Parser::new();
    p.set_language(&g).ok()?;
    let t = p.parse(source, None)?;
    let q = Query::new(&g, query).ok()?;
    let mut c = QueryCursor::new();
    let ms = c.matches(&q, t.root_node(), source).map_deref(|m| m.captures.iter().map(|x| (q.capture_names()[x.index as usize].to_string(), x.node.kind(), x.node.start_position().row, x.node.start_position().column, x.node.end_position().row, x.node.utf8_text(source).ok())).collect());
    Some(ms.collect())
}

/// As `rust_matches`, with `tree_sitter_java::LANGUAGE`.
#[verifier::external_body]
fn java_matches<'a>(query: &str, source: &'a [u8]) -> (r: Option<Vec<Vec<(String, &'static str, usize, usize, usize, Option<&'a str>)>>>)
    ensures
        raw_matches_view(r) == java_query_matches(query@, source@),
{
    let g = tree_sitter_java::LANGUAGE.into();
    let mut p = Parser::new();
    p.set_language(&g).ok()?;
    let t = p.parse(source, None)?;
    let q = Query::new(&g, query).ok()?;
    let mut c = QueryCursor::new();
    let ms = c.matches(&q, t.root_node(), source).map_deref(|m| m.captures.iter().map(|x| (q.capture_names()[x.index as usize].to_string(), x.node.kind(), x.node.start_position().row, x.node.start_position().column, x.node.end_position().row, x.node.utf8_text(source).ok())).collect());
    Some(ms.collect())
}


// ---------------------------------------------------------------------------
// Captures with line positions
// ---------------------------------------------------------------------------

/// The text shown for a node whose bytes are not UTF-8.
pub const INVALID_UTF8_TEXT: &'static str = "<invalid utf8>";

/// A capture of a query match: its name, the node's kind, where the node
/// starts (row and column, from zero) and ends (row), and its text.
#[derive(Debug)]
pub struct QueryCapture {
    pub name: String,
    pub kind: String,
    pub start_row: usize,
    pub start_column: usize,
    pub end_row: usize,
    pub text: String,
}

/// A capture as plain values: name, kind, start row, start column, end row
/// and text.
pub open spec fn capture_view(c: QueryCapture) -> (Seq<char>, Seq<char>, nat, nat, nat, Seq<char>) {
    (c.name@, c.kind@, c.start_row as nat, c.start_column as nat, c.end_row as nat, c.text@)
}

/// The capture a tree-sitter capture gives: its positions as reported, and
/// a placeholder for text that is not UTF-8.
pub open spec fn capture_spec(raw: (Seq<char>, Seq<char>, usize, usize, usize, Option<Seq<char>>)) -> (
    Seq<char>,
    Seq<char>,
    nat,
    nat,
    nat,
    Seq<char>,
) {
    (raw.0, raw.1, raw.2 as nat, raw.3 as nat, raw.4 as nat, match raw.5 {
        Some(t) => t,
        None => INVALID_UTF8_TEXT@,
    })
}

/// The matches of a query as captures with positions.
pub open spec fn matches_spec(
    raw: Option<Seq<Seq<(Seq<char>, Seq<char>, usize, usize, usize, Option<Seq<char>>)>>>,
) -> Option<Seq<Seq<(Seq<char>, Seq<char>, nat, nat, nat, Seq<char>)>>> {
    match raw {
        Some(ms) => Some(
            ms.map_values(
                |m: Seq<(Seq<char>, Seq<char>, usize, usize, usize, Option<Seq<char>>)>|
                    m.map_values(|c: (Seq<char>, Seq<char>, usize, usize, usize, Option<Seq<char>>)| capture_spec(c)),
            ),
        ),
        None => None,
    }
}

/// The matches of a list of captures as plain values.
pub open spec fn captures_view(ms: Seq<Vec<QueryCapture>>) -> Seq<Seq<(Seq<char>, Seq<char>, nat, nat, nat, Seq<char>)>> {
    ms.map_values(|m: Vec<QueryCapture>| m@.map_values(|c: QueryCapture| capture_view(c)))
}

/// What the grammar of a language yields for a query over a source.
pub open spec fn language_matches(language: Language, query: Seq<char>, source: Seq<u8>) -> Option<
    Seq<Seq<(Seq<char>, Seq<char>, usize, usize, usize, Option<Seq<char>>)>>,
> {
    match language {
        Language::Rust => rust_query_matches(query, source),
        Language::Python => python_query_matches(query, source),
        Language::Java => java_query_matches(query, source),
    }
}

/// Turns tree-sitter matches into captures: each keeps its name, kind and
/// positions, and its text, with a placeholder where the node's bytes are
/// not UTF-8.
pub fn captures_from_matches<'a>(ms: &Vec<Vec<(String, &'static str, usize, usize, usize, Option<&'a str>)>>) -> (r: Vec<Vec<QueryCapture>>)
    ensures
        matches_spec(raw_matches_view(Some(*ms))) == Some(captures_view(r@)),
{
    let ghost rms = ms@.map_values(
        |m: Vec<(String, &'static str, usize, usize, usize, Option<&'a str>)>|
            m@.map_values(|c: (String, &'static str, usize, usize, usize, Option<&'a str>)| raw_view(c)),
    );
    let mut out: Vec<Vec<QueryCapture>> = Vec::new();
    let mut i: usize = 0;
    while i < ms.len()
        invariant
            i <= ms@.len(),
            rms == ms@.map_values(
                |m: Vec<(String, &'static str, usize, usize, usize, Option<&'a str>)>|
                    m@.map_values(|c: (String, &'static str, usize, usize, usize, Option<&'a str>)| raw_view(c)),
            ),
            captures_view(out@) == rms.take(i as int).map_values(
                |m: Seq<(Seq<char>, Seq<char>, usize, usize, usize, Option<Seq<char>>)>|
                    m.map_values(|c: (Seq<char>, Seq<char>, usize, usize, usize, Option<Seq<char>>)| capture_spec(c)),
            ),
        decreases ms@.len() - i,
    {
        let m = &ms[i];
        let mut caps: Vec<QueryCapture> = Vec::new();
        let mut j: usize = 0;
        while j < m.len()
            invariant
                j <= m@.len(),
                caps@.map_values(|c: QueryCapture| capture_view(c)) == m@.take(j as int).map_values(
                    |c: (String, &'static str, usize, usize, usize, Option<&'a str>)| capture_spec(raw_view(c)),
                ),
            decreases m@.len() - j,
        {
            let c = &m[j];
            let text = match c.5 {
                Some(t) => String::from_str(t),
                None => String::from_str(INVALID_UTF8_TEXT),
            };
            let ghost before = caps@;
            caps.push(QueryCapture {
                name: c.0.clone(),
                kind: String::from_str(c.1),
                start_row: c.2,
                start_column: c.3,
                end_row: c.4,
                text,
            });
            proof {
                assert(caps@.map_values(|c: QueryCapture| capture_view(c)) =~= before.map_values(
                    |c: QueryCapture| capture_view(c),
                ).push(capture_spec(raw_view(m@[j as int]))));
                assert(m@.take(j + 1).map_values(
                    |c: (String, &'static str, usize, usize, usize, Option<&'a str>)| capture_spec(raw_view(c)),
                ) =~= m@.take(j as int).map_values(
                    |c: (String, &'static str, usize, usize, usize, Option<&'a str>)| capture_spec(raw_view(c)),
                ).push(capture_spec(raw_view(m@[j as int]))));
            }
            j = j + 1;
        }
        proof {
            assert(m@.take(m@.len() as int) =~= m@);
            assert(m@.map_values(|c: (String, &'static str, usize, usize, usize, Option<&'a str>)| capture_spec(raw_view(c)))
                =~= rms[i as int].map_values(|c: (Seq<char>, Seq<char>, usize, usize, usize, Option<Seq<char>>)| capture_spec(c)));
        }
        let ghost before_out = out@;
        out.push(caps);
        proof {
            assert(captures_view(out@) =~= captures_view(before_out).push(rms[i as int].map_values(
                |c: (Seq<char>, Seq<char>, usize, usize, usize, Option<Seq<char>>)| capture_spec(c),
            )));
            assert(rms.take(i + 1).map_values(
                |m: Seq<(Seq<char>, Seq<char>, usize, usize, usize, Option<Seq<char>>)>|
                    m.map_values(|c: (Seq<char>, Seq<char>, usize, usize, usize, Option<Seq<char>>)| capture_spec(c)),
            ) =~= rms.take(i as int).map_values(
                |m: Seq<(Seq<char>, Seq<char>, usize, usize, usize, Option<Seq<char>>)>|
                    m.map_values(|c: (Seq<char>, Seq<char>, usize, usize, usize, Option<Seq<char>>)| capture_spec(c)),
            ).push(rms[i as int].map_values(
                |c: (Seq<char>, Seq<char>, usize, usize, usize, Option<Seq<char>>)| capture_spec(c),
            )));
        }
        i = i + 1;
    }
    proof {
        assert(rms.take(rms.len() as int) =~= rms);
    }
    out
}

/// Runs a query over a source with the grammar of `language`, listing each
/// match's captures with their positions; `None` when the query does not
/// compile or the source does not parse.
pub fn query_captures(language: Language, query: &str, source: &[u8]) -> (r: Option<Vec<Vec<QueryCapture>>>)
    ensures
        (match r {
            Some(ms) => Some(captures_view(ms@)),
            None => None,
        }) == matches_spec(language_matches(language, query@, source@)),
{
    let raw = match language {
        Language::Rust => rust_matches(query, source),
        Language::Python => python_matches(query, source),
        Language::Java => java_matches(query, source),
    };
    match raw {
        Some(ms) => Some(captures_from_matches(&ms)),
        None => None,
    }
}



// ---------------------------------------------------------------------------
// What is extracted
// ---------------------------------------------------------------------------

/// The kind of a symbol.
#[derive(Debug, Clone, Copy, PartialEq, Eq, Structural)]
pub enum SymbolKind {
    Function,
    Method,
    Class,
    Struct,
    Enum,
    Trait,
    Interface,
    TypeAlias,
    Module,
    Constant,
}

/// A definition found in a file.
#[derive(Debug)]
pub struct Symbol {
    pub name: String,
    pub kind: SymbolKind,
    pub start_line: usize,
    pub end_line: usize,
    pub signature: Option<String>,
    pub body_text: String,
    pub children: Vec<Symbol>,
}

/// An import of a file: the module imported from, the names it imports,
/// and its line.
#[derive(Debug)]
pub struct Import {
    pub source: String,
    pub names: Vec<String>,
    pub line: usize,
    pub alias: Option<String>,
}

/// A call of a name, and its line.
#[derive(Debug)]
pub struct Reference {
    pub name: String,
    pub line: usize,
    pub context: String,
}

/// A syntax error: its line (from one), column (bytes, from zero) and
/// message.
#[derive(Debug)]
pub struct ParseError {
    pub line: usize,
    pub column: usize,
    pub message: String,
}

/// Everything read out of one file.
#[derive(Debug)]
pub struct FileExtraction {
    pub path: String,
    pub language: Language,
    pub imports: Vec<Import>,
    pub symbols: Vec<Symbol>,
    pub references: Vec<Reference>,
    pub parse_errors: Vec<ParseError>,
}

// ---------------------------------------------------------------------------
// Which files are parsed
// ---------------------------------------------------------------------------

/// Bytes of a file read to tell text from binary.
pub const TEXT_DETECTION_SAMPLE_SIZE: usize = 512;

/// Largest file the indexer parses, in bytes.
pub const MAX_FILE_SIZE_BYTES: usize = 1_000_000;

/// The extension of a path: what follows the last `.` of its last
/// component, when that `.` is not the component's first character.
pub open spec fn extension_spec(path: Seq<char>) -> Option<Seq<char>> {
    let name = crate::context::file_name(path);
    match crate::parser::rfind_spec_char(name, '.') {
        Some(d) => if d > 0 { Some(name.subrange(d + 1, name.len() as int)) } else { None },
        None => None,
    }
}

/// The language of a file extension.
pub open spec fn language_for_extension(ext: Seq<char>) -> Option<Language> {
    if ext == "rs"@ {
        Some(Language::Rust)
    } else if ext == "py"@ {
        Some(Language::Python)
    } else if ext == "java"@ {
        Some(Language::Java)
    } else {
        None
    }
}

/// The language a path is parsed as, by its extension.
pub open spec fn detect_language_spec(path: Seq<char>) -> Option<Language> {
    match extension_spec(path) {
        Some(e) => language_for_extension(e),
        None => None,
    }
}

proof fn lemma_last_index_unique(p: Seq<char>, c: char, i: int)
    requires
        0 <= i < p.len(),
        p[i] == c,
        forall|j: int| i < j < p.len() ==> p[j] != c,
    ensures
        crate::parser::rfind_spec_char(p, c) == Some(i),
        c == '/' ==> crate::context::file_name(p) == p.subrange(i + 1, p.len() as int),
{
    let k = choose|k: int| 0 <= k < p.len() && p[k] == c && forall|j: int| k < j < p.len() ==> p[j] != c;
    if k < i {
        assert(p[i] != c);
    } else if k > i {
        assert(p[k] != c);
    }
}

fn is_word(cs: &[char], w: &str) -> (b: bool)
    ensures
        b == (cs@ == w@),
{
    let wc = chars_of(w);
    crate::sorted::chars_eq(cs, wc.as_slice())
}

/// Picks the language of a file by its extension; `None` for files that
/// are not parsed.
pub fn detect_language(path: &str) -> (r: Option<Language>)
    ensures
        r == detect_language_spec(path@),
{
    let cs = chars_of(path);
    let len = cs.len();
    let slash = crate::parser::rfind_char(cs.as_slice(), '/');
    let start: usize = match slash {
        Some(i) => {
            assert(i < len);
            proof {
                lemma_last_index_unique(cs@, '/', i as int);
            }
            i + 1
        },
        None => 0,
    };
    let name = crate::split::copy_range(cs.as_slice(), start, cs.len());
    proof {
        if start == 0 {
            assert(name@ =~= cs@);
        }
        assert(name@ =~= crate::context::file_name(path@));
    }
    match crate::parser::rfind_char(name.as_slice(), '.') {
        Some(d) => {
            proof {
                lemma_last_index_unique(name@, '.', d as int);
            }
            if d == 0 {
                return None;
            }
            let ext = crate::split::copy_range(name.as_slice(), d + 1, name.len());
            if is_word(ext.as_slice(), "rs") {
                Some(Language::Rust)
            } else if is_word(ext.as_slice(), "py") {
                Some(Language::Python)
            } else if is_word(ext.as_slice(), "java") {
                Some(Language::Java)
            } else {
                None
            }
        },
        None => None,
    }
}

/// A file looks like text when its first bytes (up to the sample size)
/// hold no zero byte.
pub open spec fn likely_text_spec(data: Seq<u8>) -> bool {
    let n = if data.len() < TEXT_DETECTION_SAMPLE_SIZE { data.len() as int } else { TEXT_DETECTION_SAMPLE_SIZE as int };
    forall|i: int| 0 <= i < n ==> data[i] != 0u8
}

/// Tells text from binary by the first bytes.
pub fn is_likely_text(data: &[u8]) -> (b: bool)
    ensures
        b == likely_text_spec(data@),
{
    let n: usize = if data.len() < TEXT_DETECTION_SAMPLE_SIZE { data.len() } else { TEXT_DETECTION_SAMPLE_SIZE };
    let mut i: usize = 0;
    while i < n
        invariant
            i <= n,
            n <= data@.len(),
            n == (if data@.len() < TEXT_DETECTION_SAMPLE_SIZE { data@.len() as int } else { TEXT_DETECTION_SAMPLE_SIZE as int }),
            forall|j: int| 0 <= j < i ==> data@[j] != 0u8,
        decreases n - i,
    {
        if data[i] == 0u8 {
            return false;
        }
        i = i + 1;
    }
    true
}

/// A file is parsed when its language is known, it is not larger than the
/// limit, and it looks like text.
pub open spec fn parse_candidate_spec(path: Seq<char>, data: Seq<u8>) -> Option<Language> {
    match detect_language_spec(path) {
        Some(l) => if data.len() <= MAX_FILE_SIZE_BYTES && likely_text_spec(data) { Some(l) } else { None },
        None => None,
    }
}

/// The language to parse a file's bytes as, or `None` when the file is
/// skipped.
pub fn parse_candidate(path: &str, data: &[u8]) -> (r: Option<Language>)
    ensures
        r == parse_candidate_spec(path@, data@),
{
    match detect_language(path) {
        Some(l) => {
            if data.len() <= MAX_FILE_SIZE_BYTES && is_likely_text(data) {
                Some(l)
            } else {
                None
            }
        },
        None => None,
    }
}


// ---------------------------------------------------------------------------
// References and syntax errors
// ---------------------------------------------------------------------------

/// The query that finds syntax errors: error nodes and missing nodes.
pub const ERROR_QUERY: &'static str = "(ERROR) @error (MISSING) @missing";

/// Every capture starts on a row after which a line number still fits.
pub open spec fn rows_fit(ms: Seq<Seq<(Seq<char>, Seq<char>, nat, nat, nat, Seq<char>)>>) -> bool {
    forall|i: int, j: int| 0 <= i < ms.len() && 0 <= j < ms[i].len() ==> #[trigger] ms[i][j].2 < usize::MAX && ms[i][j].4 < usize::MAX
}

/// A call reference from a `ref_name` capture: its text and line.
pub open spec fn match_references(m: Seq<(Seq<char>, Seq<char>, nat, nat, nat, Seq<char>)>) -> Seq<(Seq<char>, nat)> {
    m.filter(|c: (Seq<char>, Seq<char>, nat, nat, nat, Seq<char>)| c.0 == "ref_name"@).map_values(
        |c: (Seq<char>, Seq<char>, nat, nat, nat, Seq<char>)| (c.5, c.2 + 1),
    )
}

/// The references of all matches, in order.
pub open spec fn references_spec(ms: Seq<Seq<(Seq<char>, Seq<char>, nat, nat, nat, Seq<char>)>>) -> Seq<(Seq<char>, nat)> {
    ms.map_values(|m: Seq<(Seq<char>, Seq<char>, nat, nat, nat, Seq<char>)>| match_references(m)).flatten()
}

/// A reference as plain values (its context is always empty).
pub open spec fn reference_view(r: Reference) -> (Seq<char>, nat) {
    (r.name@, r.line as nat)
}

/// The syntax error a capture reports: its line, column, and `missing`
/// with the node's kind for a missing node, `syntax error` otherwise.
pub open spec fn error_of(c: (Seq<char>, Seq<char>, nat, nat, nat, Seq<char>)) -> (nat, nat, Seq<char>) {
    (c.2 + 1, c.3, if c.0 == "missing"@ { "missing "@ + c.1 } else { "syntax error"@ })
}

/// The syntax errors of all matches, in order.
pub open spec fn errors_spec(ms: Seq<Seq<(Seq<char>, Seq<char>, nat, nat, nat, Seq<char>)>>) -> Seq<(nat, nat, Seq<char>)> {
    ms.map_values(
        |m: Seq<(Seq<char>, Seq<char>, nat, nat, nat, Seq<char>)>|
            m.map_values(|c: (Seq<char>, Seq<char>, nat, nat, nat, Seq<char>)| error_of(c)),
    ).flatten()
}

/// An error as plain values.
pub open spec fn error_view(e: ParseError) -> (nat, nat, Seq<char>) {
    (e.line as nat, e.column as nat, e.message@)
}

/// Collects the call references of reference-query matches: one per
/// `ref_name` capture, with its text and line.
pub fn extract_references(matches: &Vec<Vec<QueryCapture>>) -> (r: Vec<Reference>)
    requires
        rows_fit(captures_view(matches@)),
    ensures
        r@.map_values(|x: Reference| reference_view(x)) == references_spec(captures_view(matches@)),
        forall|k: int| 0 <= k < r@.len() ==> (#[trigger] r@[k]).context@.len() == 0,
{
    let ghost ms = captures_view(matches@);
    let ghost items = ms.map_values(|m: Seq<(Seq<char>, Seq<char>, nat, nat, nat, Seq<char>)>| match_references(m));
    let mut r: Vec<Reference> = Vec::new();
    let mut i: usize = 0;
    while i < matches.len()
        invariant
            i <= matches@.len(),
            ms == captures_view(matches@),
            rows_fit(ms),
            items == ms.map_values(|m: Seq<(Seq<char>, Seq<char>, nat, nat, nat, Seq<char>)>| match_references(m)),
            r@.map_values(|x: Reference| reference_view(x)) == items.take(i as int).flatten(),
            forall|k: int| 0 <= k < r@.len() ==> (#[trigger] r@[k]).context@.len() == 0,
        decreases matches@.len() - i,
    {
        let m = &matches[i];
        let ghost mv = ms[i as int];
        let ghost base = r@.map_values(|x: Reference| reference_view(x));
        let mut j: usize = 0;
        while j < m.len()
            invariant
                i < matches@.len(),
                j <= m@.len(),
                ms == captures_view(matches@),
                rows_fit(ms),
                mv == ms[i as int],
                mv == m@.map_values(|c: QueryCapture| capture_view(c)),
                r@.map_values(|x: Reference| reference_view(x)) == base + match_references(mv.take(j as int)),
                forall|k: int| 0 <= k < r@.len() ==> (#[trigger] r@[k]).context@.len() == 0,
            decreases m@.len() - j,
        {
            proof {
                reveal(Seq::filter);
                assert(mv.take(j + 1).drop_last() =~= mv.take(j as int));
                assert(mv[j as int] == capture_view(m@[j as int]));
                assert(ms[i as int][j as int].2 < usize::MAX);
            }
            let c = &m[j];
            if is_word(chars_of(c.name.as_str()).as_slice(), "ref_name") {
                let ghost before = r@.map_values(|x: Reference| reference_view(x));
                r.push(Reference { name: c.text.clone(), line: c.start_row + 1, context: String::new() });
                proof {
                    assert(r@.map_values(|x: Reference| reference_view(x)) =~= before.push((c.text@, (c.start_row + 1) as nat)));
                    let fl = mv.take(j as int).filter(|c: (Seq<char>, Seq<char>, nat, nat, nat, Seq<char>)| c.0 == "ref_name"@);
                    assert(mv.take(j + 1).filter(|c: (Seq<char>, Seq<char>, nat, nat, nat, Seq<char>)| c.0 == "ref_name"@) == fl.push(mv[j as int]));
                    assert(fl.push(mv[j as int]).map_values(|c: (Seq<char>, Seq<char>, nat, nat, nat, Seq<char>)| (c.5, c.2 + 1)) =~= fl.map_values(
                        |c: (Seq<char>, Seq<char>, nat, nat, nat, Seq<char>)| (c.5, c.2 + 1),
                    ).push((c.text@, (c.start_row + 1) as nat)));
                    assert(base + match_references(mv.take(j + 1)) =~= (base + match_references(mv.take(j as int))).push((c.text@, (c.start_row + 1) as nat)));
                }
            }
            j = j + 1;
        }
        proof {
            assert(mv.take(m@.len() as int) =~= mv);
            assert(items.take(i + 1) =~= items.take(i as int).push(items[i as int]));
            items.take(i as int).lemma_flatten_push(items[i as int]);
        }
        i = i + 1;
    }
    assert(items.take(matches@.len() as int) =~= items);
    r
}

/// Lists the syntax errors of error-query matches.
pub fn extract_errors(matches: &Vec<Vec<QueryCapture>>) -> (r: Vec<ParseError>)
    requires
        rows_fit(captures_view(matches@)),
    ensures
        r@.map_values(|x: ParseError| error_view(x)) == errors_spec(captures_view(matches@)),
{
    let ghost ms = captures_view(matches@);
    let ghost items = ms.map_values(
        |m: Seq<(Seq<char>, Seq<char>, nat, nat, nat, Seq<char>)>|
            m.map_values(|c: (Seq<char>, Seq<char>, nat, nat, nat, Seq<char>)| error_of(c)),
    );
    let mut r: Vec<ParseError> = Vec::new();
    let mut i: usize = 0;
    while i < matches.len()
        invariant
            i <= matches@.len(),
            ms == captures_view(matches@),
            rows_fit(ms),
            items == ms.map_values(
                |m: Seq<(Seq<char>, Seq<char>, nat, nat, nat, Seq<char>)>|
                    m.map_values(|c: (Seq<char>, Seq<char>, nat, nat, nat, Seq<char>)| error_of(c)),
            ),
            r@.map_values(|x: ParseError| error_view(x)) == items.take(i as int).flatten(),
        decreases matches@.len() - i,
    {
        let m = &matches[i];
        let ghost mv = ms[i as int];
        let ghost base = r@.map_values(|x: ParseError| error_view(x));
        let mut j: usize = 0;
        while j < m.len()
            invariant
                i < matches@.len(),
                j <= m@.len(),
                ms == captures_view(matches@),
                rows_fit(ms),
                mv == ms[i as int],
                mv == m@.map_values(|c: QueryCapture| capture_view(c)),
                r@.map_values(|x: ParseError| error_view(x)) == base + mv.take(j as int).map_values(
                    |c: (Seq<char>, Seq<char>, nat, nat, nat, Seq<char>)| error_of(c),
                ),
            decreases m@.len() - j,
        {
            proof {
                assert(mv[j as int] == capture_view(m@[j as int]));
                assert(ms[i as int][j as int].2 < usize::MAX);
            }
            let c = &m[j];
            let message = if is_word(chars_of(c.name.as_str()).as_slice(), "missing") {
                let mut t = String::from_str("missing ");
                append_str(&mut t, c.kind.as_str());
                t
            } else {
                String::from_str("syntax error")
            };
            let ghost before = r@.map_values(|x: ParseError| error_view(x));
            r.push(ParseError { line: c.start_row + 1, column: c.start_column, message });
            proof {
                assert(r@.map_values(|x: ParseError| error_view(x)) =~= before.push(error_of(mv[j as int])));
                assert(mv.take(j + 1).map_values(|c: (Seq<char>, Seq<char>, nat, nat, nat, Seq<char>)| error_of(c)) =~= mv.take(
                    j as int,
                ).map_values(|c: (Seq<char>, Seq<char>, nat, nat, nat, Seq<char>)| error_of(c)).push(error_of(mv[j as int])));
            }
            j = j + 1;
        }
        proof {
            assert(mv.take(m@.len() as int) =~= mv);
            assert(items.take(i + 1) =~= items.take(i as int).push(items[i as int]));
            items.take(i as int).lemma_flatten_push(items[i as int]);
        }
        i = i + 1;
    }
    assert(items.take(matches@.len() as int) =~= items);
    r
}


// ---------------------------------------------------------------------------
// Symbols
// ---------------------------------------------------------------------------

/// Captures that hold a symbol's name.
pub open spec fn name_capture(l: Language, n: Seq<char>) -> bool {
    match l {
        Language::Rust => n == "name"@ || n == "mod_name"@ || n == "const_name"@ || n == "static_name"@,
        _ => n == "name"@,
    }
}

/// Captures that hold a whole definition, and the kind they give.
pub open spec fn kind_capture(l: Language, n: Seq<char>) -> Option<SymbolKind> {
    match l {
        Language::Rust => if n == "function"@ {
            Some(SymbolKind::Function)
        } else if n == "struct"@ {
            Some(SymbolKind::Struct)
        } else if n == "enum"@ {
            Some(SymbolKind::Enum)
        } else if n == "trait"@ {
            Some(SymbolKind::Trait)
        } else if n == "type_alias"@ {
            Some(SymbolKind::TypeAlias)
        } else if n == "module"@ {
            Some(SymbolKind::Module)
        } else if n == "constant"@ || n == "static_item"@ {
            Some(SymbolKind::Constant)
        } else {
            None
        },
        Language::Python => if n == "function"@ {
            Some(SymbolKind::Function)
        } else if n == "class"@ {
            Some(SymbolKind::Class)
        } else {
            None
        },
        Language::Java => if n == "class"@ || n == "record"@ {
            Some(SymbolKind::Class)
        } else if n == "interface"@ {
            Some(SymbolKind::Interface)
        } else if n == "enum"@ {
            Some(SymbolKind::Enum)
        } else if n == "method"@ || n == "constructor"@ {
            Some(SymbolKind::Method)
        } else {
            None
        },
    }
}

/// The kind a symbol has when no definition capture names one.
pub open spec fn default_kind(l: Language) -> SymbolKind {
    match l {
        Language::Java => SymbolKind::Class,
        _ => SymbolKind::Function,
    }
}

/// What the first `k` captures of a match say of a symbol: the last name
/// captured, and the kind, lines (from one) and text of the last
/// definition captured.
pub open spec fn symbol_scan(l: Language, m: Seq<(Seq<char>, Seq<char>, nat, nat, nat, Seq<char>)>, k: int) -> (
    Seq<char>,
    SymbolKind,
    nat,
    nat,
    Seq<char>,
)
    decreases k,
{
    if k <= 0 {
        (Seq::empty(), default_kind(l), 0, 0, Seq::empty())
    } else {
        let st = symbol_scan(l, m, k - 1);
        let c = m[k - 1];
        if name_capture(l, c.0) {
            (c.5, st.1, st.2, st.3, st.4)
        } else {
            match kind_capture(l, c.0) {
                Some(kd) => (st.0, kd, c.2 + 1, c.4 + 1, c.5),
                None => st,
            }
        }
    }
}

/// The symbol of a match, when it names one.
pub open spec fn symbol_of(l: Language, m: Seq<(Seq<char>, Seq<char>, nat, nat, nat, Seq<char>)>) -> Option<
    (Seq<char>, SymbolKind, nat, nat, Seq<char>),
> {
    let st = symbol_scan(l, m, m.len() as int);
    if st.0.len() > 0 {
        Some(st)
    } else {
        None
    }
}

/// The symbols of all matches, in order.
pub open spec fn symbols_spec(l: Language, ms: Seq<Seq<(Seq<char>, Seq<char>, nat, nat, nat, Seq<char>)>>) -> Seq<
    (Seq<char>, SymbolKind, nat, nat, Seq<char>),
> {
    ms.filter_map(|m: Seq<(Seq<char>, Seq<char>, nat, nat, nat, Seq<char>)>| symbol_of(l, m))
}

/// A symbol as plain values.
pub open spec fn symbol_view(s: Symbol) -> (Seq<char>, SymbolKind, nat, nat, Seq<char>) {
    (s.name@, s.kind, s.start_line as nat, s.end_line as nat, s.body_text@)
}

fn is_name_capture(l: Language, n: &str) -> (b: bool)
    ensures
        b == name_capture(l, n@),
{
    let cs = chars_of(n);
    match l {
        Language::Rust => is_word(cs.as_slice(), "name") || is_word(cs.as_slice(), "mod_name") || is_word(
            cs.as_slice(),
            "const_name",
        ) || is_word(cs.as_slice(), "static_name"),
        _ => is_word(cs.as_slice(), "name"),
    }
}

fn kind_of_capture(l: Language, n: &str) -> (r: Option<SymbolKind>)
    ensures
        r == kind_capture(l, n@),
{
    let cs = chars_of(n);
    let w = cs.as_slice();
    match l {
        Language::Rust => if is_word(w, "function") {
            Some(SymbolKind::Function)
        } else if is_word(w, "struct") {
            Some(SymbolKind::Struct)
        } else if is_word(w, "enum") {
            Some(SymbolKind::Enum)
        } else if is_word(w, "trait") {
            Some(SymbolKind::Trait)
        } else if is_word(w, "type_alias") {
            Some(SymbolKind::TypeAlias)
        } else if is_word(w, "module") {
            Some(SymbolKind::Module)
        } else if is_word(w, "constant") || is_word(w, "static_item") {
            Some(SymbolKind::Constant)
        } else {
            None
        },
        Language::Python => if is_word(w, "function") {
            Some(SymbolKind::Function)
        } else if is_word(w, "class") {
            Some(SymbolKind::Class)
        } else {
            None
        },
        Language::Java => if is_word(w, "class") || is_word(w, "record") {
            Some(SymbolKind::Class)
        } else if is_word(w, "interface") {
            Some(SymbolKind::Interface)
        } else if is_word(w, "enum") {
            Some(SymbolKind::Enum)
        } else if is_word(w, "method") || is_word(w, "constructor") {
            Some(SymbolKind::Method)
        } else {
            None
        },
    }
}

/// Collects the symbols of symbol-query matches: for each match that
/// captures a name, the last name captured and the kind, lines and text of
/// the last definition captured.
pub fn extract_symbols(language: Language, matches: &Vec<Vec<QueryCapture>>) -> (r: Vec<Symbol>)
    requires
        rows_fit(captures_view(matches@)),
    ensures
        r@.map_values(|x: Symbol| symbol_view(x)) == symbols_spec(language, captures_view(matches@)),
        forall|k: int| 0 <= k < r@.len() ==> (#[trigger] r@[k]).signature is None && r@[k].children@.len() == 0,
{
    let ghost ms = captures_view(matches@);
    let mut r: Vec<Symbol> = Vec::new();
    let mut i: usize = 0;
    while i < matches.len()
        invariant
            i <= matches@.len(),
            ms == captures_view(matches@),
            rows_fit(ms),
            r@.map_values(|x: Symbol| symbol_view(x)) == ms.take(i as int).filter_map(
                |m: Seq<(Seq<char>, Seq<char>, nat, nat, nat, Seq<char>)>| symbol_of(language, m),
            ),
            forall|k: int| 0 <= k < r@.len() ==> (#[trigger] r@[k]).signature is None && r@[k].children@.len() == 0,
        decreases matches@.len() - i,
    {
        let m = &matches[i];
        let ghost mv = ms[i as int];
        let mut name = String::new();
        let mut kind = match language {
            Language::Java => SymbolKind::Class,
            _ => SymbolKind::Function,
        };
        let mut start_line: usize = 0;
        let mut end_line: usize = 0;
        let mut body_text = String::new();
        let mut j: usize = 0;
        while j < m.len()
            invariant
                i < matches@.len(),
                j <= m@.len(),
                ms == captures_view(matches@),
                rows_fit(ms),
                mv == ms[i as int],
                mv == m@.map_values(|c: QueryCapture| capture_view(c)),
                symbol_scan(language, mv, j as int) == (name@, kind, start_line as nat, end_line as nat, body_text@),
            decreases m@.len() - j,
        {
            proof {
                assert(mv[j as int] == capture_view(m@[j as int]));
                assert(ms[i as int][j as int].2 < usize::MAX);
                assert(ms[i as int][j as int].4 < usize::MAX);
            }
            let c = &m[j];
            if is_name_capture(language, c.name.as_str()) {
                name = c.text.clone();
            } else {
                match kind_of_capture(language, c.name.as_str()) {
                    Some(kd) => {
                        kind = kd;
                        start_line = c.start_row + 1;
                        end_line = c.end_row + 1;
                        body_text = c.text.clone();
                    },
                    None => {},
                }
            }
            j = j + 1;
        }
        proof {
            ms.take(i + 1).lemma_filter_map_take_succ(
                |m: Seq<(Seq<char>, Seq<char>, nat, nat, nat, Seq<char>)>| symbol_of(language, m),
                i as int,
            );
            assert(ms.take(i + 1).take(i as int) =~= ms.take(i as int));
            assert(ms.take(i + 1)[i as int] == mv);
        }
        if !name.as_str().is_empty() {
            let ghost before = r@.map_values(|x: Symbol| symbol_view(x));
            r.push(Symbol {
                name,
                kind,
                start_line,
                end_line,
                signature: None,
                body_text,
                children: Vec::new(),
            });
            assert(r@.map_values(|x: Symbol| symbol_view(x)) =~= before + seq![symbol_of(language, mv).unwrap()]);
        }
        i = i + 1;
    }
    assert(ms.take(matches@.len() as int) =~= ms);
    r
}


// ---------------------------------------------------------------------------
// Import paths
// ---------------------------------------------------------------------------

/// A text without its trailing colons.
pub open spec fn trim_end_colons(s: Seq<char>) -> Seq<char>
    decreases s.len(),
{
    if s.len() > 0 && s.last() == ':' {
        trim_end_colons(s.drop_last())
    } else {
        s
    }
}

/// Splitting the first `k` characters at `sep`: the finished pieces and
/// the piece being read.
pub open spec fn split_scan(s: Seq<char>, sep: char, k: int) -> (Seq<Seq<char>>, Seq<char>)
    decreases k,
{
    if k <= 0 {
        (Seq::empty(), Seq::empty())
    } else {
        let st = split_scan(s, sep, k - 1);
        if s[k - 1] == sep {
            (st.0.push(st.1), Seq::empty())
        } else {
            (st.0, st.1.push(s[k - 1]))
        }
    }
}

/// The pieces of a text between separators (`str::split`).
pub open spec fn split_spec(s: Seq<char>, sep: char) -> Seq<Seq<char>> {
    let st = split_scan(s, sep, s.len() as int);
    st.0.push(st.1)
}

/// The names of a braced import list: its comma-separated pieces, trimmed,
/// without empty ones.
pub open spec fn list_names(content: Seq<char>) -> Seq<Seq<char>> {
    split_spec(content, ',').map_values(|p: Seq<char>| crate::text::trim_spec(p)).filter(|p: Seq<char>| p.len() > 0)
}

/// The last place `::` occurs.
pub open spec fn last_double_colon(c: Seq<char>) -> Option<int> {
    if exists|i: int| crate::text::occurs_at(c, "::"@, i) {
        Some(choose|i: int| crate::text::occurs_at(c, "::"@, i) && forall|j: int| i < j ==> !crate::text::occurs_at(c, "::"@, j))
    } else {
        None
    }
}

/// A use path can be split without cutting a character: a braced list
/// has something after its `{` and ends with a one-byte character (the
/// list's last byte is dropped as its closing brace).
pub open spec fn use_path_ok(path: Seq<char>) -> bool {
    let c = crate::text::trim_spec(path);
    match crate::parser::find_spec_char(c, '{') {
        Some(b) => b + 1 < c.len() && crate::verify::utf8_len(c.last()) == 1,
        None => true,
    }
}

/// A Rust use path as the module it imports from and the names it imports:
/// `a::b::{c, d}` gives `a::b` and `c`, `d`; `a::b::c` gives `a::b` and
/// `c`; a plain name gives itself and no names.
pub open spec fn use_path_spec(path: Seq<char>) -> (Seq<char>, Seq<Seq<char>>) {
    let c = crate::text::trim_spec(path);
    match crate::parser::find_spec_char(c, '{') {
        Some(b) => (trim_end_colons(c.take(b)), list_names(c.subrange(b + 1, c.len() - 1))),
        None => match last_double_colon(c) {
            Some(i) => (c.take(i), seq![c.skip(i + 2)]),
            None => (c, Seq::empty()),
        },
    }
}

/// A Java import as its package and the class it names: `a.b.C` gives
/// `a.b` and `C`; a wildcard or a name without a dot names no class.
pub open spec fn java_import_spec(path: Seq<char>) -> (Seq<char>, Seq<Seq<char>>) {
    let c = crate::text::trim_spec(path);
    match crate::parser::rfind_spec_char(c, '.') {
        Some(d) => {
            let name = c.skip(d + 1);
            (c.take(d), if name == "*"@ { Seq::empty() } else { seq![name] })
        },
        None => (c, Seq::empty()),
    }
}

fn drop_trailing_colons(cs: &[char], end: usize) -> (r: Vec<char>)
    requires
        end <= cs@.len(),
    ensures
        r@ == trim_end_colons(cs@.take(end as int)),
{
    let mut n = end;
    assert(cs@.take(end as int).take(n as int) =~= cs@.take(end as int));
    while n > 0 && cs[n - 1] == ':'
        invariant
            n <= end <= cs@.len(),
            trim_end_colons(cs@.take(end as int)) == trim_end_colons(cs@.take(n as int)),
        decreases n,
    {
        assert(cs@.take(n as int).drop_last() =~= cs@.take(n - 1));
        n = n - 1;
    }
    let r = crate::split::copy_range(cs, 0, n);
    assert(r@ =~= cs@.take(n as int));
    r
}

fn split_names(content: &[char]) -> (r: Vec<String>)
    ensures
        crate::sorted::string_views(r@) == list_names(content@),
{
    let ghost pred = |p: Seq<char>| p.len() > 0;
    let mut pieces: Vec<Vec<char>> = Vec::new();
    let mut current: Vec<char> = Vec::new();
    let mut k: usize = 0;
    while k < content.len()
        invariant
            k <= content@.len(),
            crate::split::views(pieces@) == split_scan(content@, ',', k as int).0,
            current@ == split_scan(content@, ',', k as int).1,
        decreases content@.len() - k,
    {
        if content[k] == ',' {
            let ghost before = crate::split::views(pieces@);
            let mut done: Vec<char> = Vec::new();
            std::mem::swap(&mut done, &mut current);
            pieces.push(done);
            assert(crate::split::views(pieces@) =~= before.push(done@));
        } else {
            current.push(content[k]);
        }
        k = k + 1;
    }
    let ghost before = crate::split::views(pieces@);
    pieces.push(current);
    assert(crate::split::views(pieces@) =~= split_spec(content@, ','));
    let ghost ps = split_spec(content@, ',');
    let mut r: Vec<String> = Vec::new();
    let mut i: usize = 0;
    while i < pieces.len()
        invariant
            i <= pieces@.len(),
            crate::split::views(pieces@) == ps,
            crate::sorted::string_views(r@) == ps.take(i as int).map_values(|p: Seq<char>| crate::text::trim_spec(p)).filter(
                |p: Seq<char>| p.len() > 0,
            ),
        decreases pieces@.len() - i,
    {
        let t = crate::text::trim_chars(pieces[i].as_slice());
        proof {
            reveal(Seq::filter);
            let tm = ps.take(i + 1).map_values(|p: Seq<char>| crate::text::trim_spec(p));
            assert(tm.drop_last() =~= ps.take(i as int).map_values(|p: Seq<char>| crate::text::trim_spec(p)));
            assert(tm.last() == crate::text::trim_spec(ps[i as int]));
            assert(ps[i as int] == pieces@[i as int]@);
        }
        if t.len() > 0 {
            let ghost before = r@;
            r.push(string_of(t.as_slice()));
            assert(crate::sorted::string_views(r@) =~= crate::sorted::string_views(before).push(t@));
        }
        i = i + 1;
    }
    assert(ps.take(ps.len() as int) =~= ps);
    r
}

fn rfind_double_colon(c: &[char]) -> (r: Option<usize>)
    ensures
        match r {
            Some(i) => last_double_colon(c@) == Some(i as int) && i + 2 <= c@.len(),
            None => last_double_colon(c@) is None,
        },
{
    let ghost dc = "::"@;
    proof {
        reveal_strlit("::");
    }
    let n = c.len();
    let mut i: usize = n;
    while i >= 2
        invariant
            i <= n,
            n == c@.len(),
            dc == "::"@,
            dc.len() == 2 && dc[0] == ':' && dc[1] == ':',
            forall|j: int| i - 1 <= j ==> !crate::text::occurs_at(c@, dc, j),
        decreases i,
    {
        if c[i - 2] == ':' && c[i - 1] == ':' {
            let k = i - 2;
            proof {
                assert(c@.subrange(k as int, k + 2) =~= dc);
                assert forall|j: int| k < j implies !crate::text::occurs_at(c@, dc, j) by {
                    if j == k + 1 && crate::text::occurs_at(c@, dc, j) {
                        assert(c@.subrange(j, j + 2)[0] == c@[j]);
                    }
                }
                let w = choose|w: int| crate::text::occurs_at(c@, dc, w) && forall|j: int| w < j ==> !crate::text::occurs_at(c@, dc, j);
                if w < k {
                    assert(crate::text::occurs_at(c@, dc, k as int));
                } else if w > k {
                    assert(!crate::text::occurs_at(c@, dc, w));
                }
            }
            return Some(k);
        }
        proof {
            assert(!crate::text::occurs_at(c@, dc, i - 2)) by {
                if crate::text::occurs_at(c@, dc, i - 2) {
                    assert(c@.subrange(i - 2, i as int)[0] == c@[i - 2]);
                    assert(c@.subrange(i - 2, i as int)[1] == c@[i - 1]);
                }
            }
        }
        i = i - 1;
    }
    proof {
        assert forall|j: int| !crate::text::occurs_at(c@, dc, j) by {
            if crate::text::occurs_at(c@, dc, j) {
                assert(j + 2 <= n);
            }
        }
    }
    None
}

/// Splits a Rust use path into the module imported from and the names
/// imported.
pub fn parse_use_path(path: &str) -> (r: (String, Vec<String>))
    requires
        use_path_ok(path@),
    ensures
        (r.0@, crate::sorted::string_views(r.1@)) == use_path_spec(path@),
{
    let raw = chars_of(path);
    let c = crate::text::trim_chars(raw.as_slice());
    match crate::parser::find_char(c.as_slice(), '{') {
        Some(b) => {
            let n = c.len();
            assert(b + 1 < n);
            let prefix = drop_trailing_colons(c.as_slice(), b);
            let content = crate::split::copy_range(c.as_slice(), b + 1, n - 1);
            let names = split_names(content.as_slice());
            (string_of(prefix.as_slice()), names)
        },
        None => match rfind_double_colon(c.as_slice()) {
            Some(i) => {
                let n = c.len();
                assert(i + 2 <= n);
                let before = crate::split::copy_range(c.as_slice(), 0, i);
                let after = crate::split::copy_range(c.as_slice(), i + 2, c.len());
                let mut names: Vec<String> = Vec::new();
                names.push(string_of(after.as_slice()));
                assert(before@ =~= c@.take(i as int));
                assert(after@ =~= c@.skip(i + 2));
                assert(crate::sorted::string_views(names@) =~= seq![after@]);
                (string_of(before.as_slice()), names)
            },
            None => {
                let names: Vec<String> = Vec::new();
                assert(crate::sorted::string_views(names@) =~= Seq::<Seq<char>>::empty());
                (string_of(c.as_slice()), names)
            },
        },
    }
}

/// Splits a Java import into its package and the class it names.
pub fn parse_java_import(path: &str) -> (r: (String, Vec<String>))
    ensures
        (r.0@, crate::sorted::string_views(r.1@)) == java_import_spec(path@),
{
    let raw = chars_of(path);
    let c = crate::text::trim_chars(raw.as_slice());
    let n = c.len();
    match crate::parser::rfind_char(c.as_slice(), '.') {
        Some(d) => {
            assert(d < n);
            proof {
                lemma_last_index_unique(c@, '.', d as int);
            }
            let package = crate::split::copy_range(c.as_slice(), 0, d);
            let name = crate::split::copy_range(c.as_slice(), d + 1, n);
            assert(package@ =~= c@.take(d as int));
            assert(name@ =~= c@.skip(d + 1));
            let mut names: Vec<String> = Vec::new();
            if is_word(name.as_slice(), "*") {
                assert(crate::sorted::string_views(names@) =~= Seq::<Seq<char>>::empty());
            } else {
                names.push(string_of(name.as_slice()));
                assert(crate::sorted::string_views(names@) =~= seq![name@]);
            }
            (string_of(package.as_slice()), names)
        },
        None => {
            let names: Vec<String> = Vec::new();
            assert(crate::sorted::string_views(names@) =~= Seq::<Seq<char>>::empty());
            (string_of(c.as_slice()), names)
        },
    }
}


// ---------------------------------------------------------------------------
// Imports
// ---------------------------------------------------------------------------

/// Captures that hold an import's path.
pub open spec fn path_capture(l: Language, n: Seq<char>) -> bool {
    match l {
        Language::Rust => n == "path"@,
        Language::Python => n == "module"@,
        Language::Java => n == "import_path"@ || n == "package_name"@,
    }
}

/// Captures of a whole import statement (they give the line, and mark the
/// match as an import).
pub open spec fn statement_capture(l: Language, n: Seq<char>) -> bool {
    match l {
        Language::Python => n == "import"@ || n == "from_import"@,
        _ => n == "import"@,
    }
}

/// Captures of a package declaration (Java): they give the line only.
pub open spec fn package_capture(l: Language, n: Seq<char>) -> bool {
    l == Language::Java && n == "package"@
}

/// What the first `k` captures of a match say of an import: the last path
/// captured, the line of the last statement captured, and whether an
/// import statement was captured.
pub open spec fn import_scan(l: Language, m: Seq<(Seq<char>, Seq<char>, nat, nat, nat, Seq<char>)>, k: int) -> (
    Seq<char>,
    nat,
    bool,
)
    decreases k,
{
    if k <= 0 {
        (Seq::empty(), 0, false)
    } else {
        let st = import_scan(l, m, k - 1);
        let c = m[k - 1];
        if path_capture(l, c.0) {
            (c.5, st.1, st.2)
        } else if statement_capture(l, c.0) {
            (st.0, c.2 + 1, true)
        } else if package_capture(l, c.0) {
            (st.0, c.2 + 1, st.2)
        } else {
            st
        }
    }
}

/// The module an import path imports from and the names it imports.
pub open spec fn split_import(l: Language, path: Seq<char>) -> (Seq<char>, Seq<Seq<char>>) {
    match l {
        Language::Rust => use_path_spec(path),
        Language::Python => (path, Seq::empty()),
        Language::Java => java_import_spec(path),
    }
}

/// The import of a match: one with a path (and, in Java, an import
/// statement rather than a package declaration).
pub open spec fn import_of(l: Language, m: Seq<(Seq<char>, Seq<char>, nat, nat, nat, Seq<char>)>) -> Option<
    (Seq<char>, Seq<Seq<char>>, nat),
> {
    let st = import_scan(l, m, m.len() as int);
    if st.0.len() > 0 && (l != Language::Java || st.2) {
        let (source, names) = split_import(l, st.0);
        Some((source, names, st.1))
    } else {
        None
    }
}

/// The imports of all matches, in order.
pub open spec fn imports_spec(l: Language, ms: Seq<Seq<(Seq<char>, Seq<char>, nat, nat, nat, Seq<char>)>>) -> Seq<
    (Seq<char>, Seq<Seq<char>>, nat),
> {
    ms.filter_map(|m: Seq<(Seq<char>, Seq<char>, nat, nat, nat, Seq<char>)>| import_of(l, m))
}

/// Every Rust use path found can be split (see `use_path_ok`).
pub open spec fn imports_ok(l: Language, ms: Seq<Seq<(Seq<char>, Seq<char>, nat, nat, nat, Seq<char>)>>) -> bool {
    l == Language::Rust ==> forall|i: int|
        0 <= i < ms.len() ==> {
            let st = #[trigger] import_scan(l, ms[i], ms[i].len() as int);
            st.0.len() > 0 ==> use_path_ok(st.0)
        }
}

/// An import as plain values (it never has an alias).
pub open spec fn import_view(x: Import) -> (Seq<char>, Seq<Seq<char>>, nat) {
    (x.source@, crate::sorted::string_views(x.names@), x.line as nat)
}

fn is_path_capture(l: Language, n: &str) -> (b: bool)
    ensures
        b == path_capture(l, n@),
{
    let cs = chars_of(n);
    match l {
        Language::Rust => is_word(cs.as_slice(), "path"),
        Language::Python => is_word(cs.as_slice(), "module"),
        Language::Java => is_word(cs.as_slice(), "import_path") || is_word(cs.as_slice(), "package_name"),
    }
}

fn is_statement_capture(l: Language, n: &str) -> (b: bool)
    ensures
        b == statement_capture(l, n@),
{
    let cs = chars_of(n);
    match l {
        Language::Python => is_word(cs.as_slice(), "import") || is_word(cs.as_slice(), "from_import"),
        _ => is_word(cs.as_slice(), "import"),
    }
}

fn is_package_capture(l: Language, n: &str) -> (b: bool)
    ensures
        b == package_capture(l, n@),
{
    match l {
        Language::Java => is_word(chars_of(n).as_slice(), "package"),
        _ => false,
    }
}

/// Reads a match's import path, line and statement flag.
fn scan_import(language: Language, m: &Vec<QueryCapture>) -> (r: (String, usize, bool))
    requires
        forall|j: int| 0 <= j < m@.len() ==> #[trigger] capture_view(m@[j]).2 < usize::MAX,
    ensures
        (r.0@, r.1 as nat, r.2) == import_scan(language, m@.map_values(|c: QueryCapture| capture_view(c)), m@.len() as int),
{
    let ghost mv = m@.map_values(|c: QueryCapture| capture_view(c));
    let mut path = String::new();
    let mut line: usize = 0;
    let mut is_import = false;
    let mut j: usize = 0;
    while j < m.len()
        invariant
            j <= m@.len(),
            mv == m@.map_values(|c: QueryCapture| capture_view(c)),
            forall|j: int| 0 <= j < m@.len() ==> #[trigger] capture_view(m@[j]).2 < usize::MAX,
            import_scan(language, mv, j as int) == (path@, line as nat, is_import),
        decreases m@.len() - j,
    {
        proof {
            assert(mv[j as int] == capture_view(m@[j as int]));
            assert(capture_view(m@[j as int]).2 < usize::MAX);
        }
        let c = &m[j];
        if is_path_capture(language, c.name.as_str()) {
            path = c.text.clone();
        } else if is_statement_capture(language, c.name.as_str()) {
            line = c.start_row + 1;
            is_import = true;
        } else if is_package_capture(language, c.name.as_str()) {
            line = c.start_row + 1;
        }
        j = j + 1;
    }
    (path, line, is_import)
}

/// Collects the imports of import-query matches.
pub fn extract_imports(language: Language, matches: &Vec<Vec<QueryCapture>>) -> (r: Vec<Import>)
    requires
        rows_fit(captures_view(matches@)),
        imports_ok(language, captures_view(matches@)),
    ensures
        r@.map_values(|x: Import| import_view(x)) == imports_spec(language, captures_view(matches@)),
        forall|k: int| 0 <= k < r@.len() ==> (#[trigger] r@[k]).alias is None,
{
    let ghost ms = captures_view(matches@);
    let mut r: Vec<Import> = Vec::new();
    let mut i: usize = 0;
    while i < matches.len()
        invariant
            i <= matches@.len(),
            ms == captures_view(matches@),
            rows_fit(ms),
            imports_ok(language, ms),
            r@.map_values(|x: Import| import_view(x)) == ms.take(i as int).filter_map(
                |m: Seq<(Seq<char>, Seq<char>, nat, nat, nat, Seq<char>)>| import_of(language, m),
            ),
            forall|k: int| 0 <= k < r@.len() ==> (#[trigger] r@[k]).alias is None,
        decreases matches@.len() - i,
    {
        let m = &matches[i];
        let ghost mv = ms[i as int];
        proof {
            assert(mv == m@.map_values(|c: QueryCapture| capture_view(c)));
            assert forall|j: int| 0 <= j < m@.len() implies #[trigger] capture_view(m@[j]).2 < usize::MAX by {
                assert(mv[j] == capture_view(m@[j]));
                assert(ms[i as int][j].2 < usize::MAX);
            }
        }
        let (path, line, is_import) = scan_import(language, m);
        proof {
            ms.take(i + 1).lemma_filter_map_take_succ(
                |m: Seq<(Seq<char>, Seq<char>, nat, nat, nat, Seq<char>)>| import_of(language, m),
                i as int,
            );
            assert(ms.take(i + 1).take(i as int) =~= ms.take(i as int));
            assert(ms.take(i + 1)[i as int] == mv);
        }
        let keep = !path.as_str().is_empty() && match language {
            Language::Java => is_import,
            _ => true,
        };
        if keep {
            let (source, names) = match language {
                Language::Rust => parse_use_path(path.as_str()),
                Language::Python => {
                    let names: Vec<String> = Vec::new();
                    assert(crate::sorted::string_views(names@) =~= Seq::<Seq<char>>::empty());
                    (path.clone(), names)
                },
                Language::Java => parse_java_import(path.as_str()),
            };
            let ghost before = r@.map_values(|x: Import| import_view(x));
            r.push(Import { source, names, line, alias: None });
            assert(r@.map_values(|x: Import| import_view(x)) =~= before + seq![import_of(language, mv).unwrap()]);
        }
        i = i + 1;
    }
    assert(ms.take(matches@.len() as int) =~= ms);
    r
}


// ---------------------------------------------------------------------------
// Parsing a file
// ---------------------------------------------------------------------------

pub const RUST_IMPORT_QUERY: &'static str = "(use_declaration argument: (_) @path) @import";

pub const RUST_SYMBOL_QUERY: &'static str = "(function_item name: (identifier) @name) @function
(struct_item name: (type_identifier) @name) @struct
(enum_item name: (type_identifier) @name) @enum
(trait_item name: (type_identifier) @name) @trait
(type_item name: (type_identifier) @name) @type_alias
(mod_item name: (identifier) @mod_name) @module
(const_item name: (identifier) @const_name) @constant
(static_item name: (identifier) @static_name) @static_item";

pub const RUST_REFERENCE_QUERY: &'static str = "(call_expression
    function: [
        (identifier) @ref_name
        (field_expression field: (field_identifier) @ref_name)
        (scoped_identifier name: (identifier) @ref_name)
    ]) @call";

pub const PYTHON_IMPORT_QUERY: &'static str = "(import_statement name: (dotted_name) @module) @import
(import_from_statement module_name: (dotted_name) @module) @from_import";

pub const PYTHON_SYMBOL_QUERY: &'static str = "(function_definition name: (identifier) @name) @function
(class_definition name: (identifier) @name) @class";

pub const PYTHON_REFERENCE_QUERY: &'static str = "(call
    function: [
        (identifier) @ref_name
        (attribute attribute: (identifier) @ref_name)
    ]
) @call";

pub const JAVA_IMPORT_QUERY: &'static str = "(package_declaration (scoped_identifier) @package_name) @package
(import_declaration
  [
    (scoped_identifier) @import_path
    (identifier) @import_path
  ]
) @import";

pub const JAVA_SYMBOL_QUERY: &'static str = "(class_declaration name: (identifier) @name) @class
(interface_declaration name: (identifier) @name) @interface
(enum_declaration name: (identifier) @name) @enum
(record_declaration name: (identifier) @name) @record
(method_declaration name: (identifier) @name) @method
(constructor_declaration name: (identifier) @name) @constructor";

pub const JAVA_REFERENCE_QUERY: &'static str = "(method_invocation name: (identifier) @ref_name) @call
(object_creation_expression type: (type_identifier) @ref_name) @ctor_call";

/// A language's import, symbol and reference queries.
pub open spec fn queries(l: Language) -> (Seq<char>, Seq<char>, Seq<char>) {
    match l {
        Language::Rust => (RUST_IMPORT_QUERY@, RUST_SYMBOL_QUERY@, RUST_REFERENCE_QUERY@),
        Language::Python => (PYTHON_IMPORT_QUERY@, PYTHON_SYMBOL_QUERY@, PYTHON_REFERENCE_QUERY@),
        Language::Java => (JAVA_IMPORT_QUERY@, JAVA_SYMBOL_QUERY@, JAVA_REFERENCE_QUERY@),
    }
}

fn language_queries(l: Language) -> (r: (&'static str, &'static str, &'static str))
    ensures
        (r.0@, r.1@, r.2@) == queries(l),
{
    match l {
        Language::Rust => (RUST_IMPORT_QUERY, RUST_SYMBOL_QUERY, RUST_REFERENCE_QUERY),
        Language::Python => (PYTHON_IMPORT_QUERY, PYTHON_SYMBOL_QUERY, PYTHON_REFERENCE_QUERY),
        Language::Java => (JAVA_IMPORT_QUERY, JAVA_SYMBOL_QUERY, JAVA_REFERENCE_QUERY),
    }
}

fn use_path_splits(path: &str) -> (b: bool)
    ensures
        b == use_path_ok(path@),
{
    let raw = chars_of(path);
    let c = crate::text::trim_chars(raw.as_slice());
    let n = c.len();
    match crate::parser::find_char(c.as_slice(), '{') {
        Some(b) => b + 1 < n && crate::verify::char_utf8_len(c[n - 1]) == 1,
        None => true,
    }
}

/// Whether every Rust use path among the matches can be split.
fn import_paths_split(language: Language, matches: &Vec<Vec<QueryCapture>>) -> (b: bool)
    requires
        rows_fit(captures_view(matches@)),
    ensures
        b == imports_ok(language, captures_view(matches@)),
{
    let ghost ms = captures_view(matches@);
    match language {
        Language::Rust => {},
        _ => {
            return true;
        },
    }
    let mut i: usize = 0;
    while i < matches.len()
        invariant
            i <= matches@.len(),
            ms == captures_view(matches@),
            rows_fit(ms),
            language == Language::Rust,
            forall|k: int|
                0 <= k < i ==> {
                    let st = #[trigger] import_scan(language, ms[k], ms[k].len() as int);
                    st.0.len() > 0 ==> use_path_ok(st.0)
                },
        decreases matches@.len() - i,
    {
        let m = &matches[i];
        let ghost mv = ms[i as int];
        proof {
            assert(mv == m@.map_values(|c: QueryCapture| capture_view(c)));
            assert forall|j: int| 0 <= j < m@.len() implies #[trigger] capture_view(m@[j]).2 < usize::MAX by {
                assert(mv[j] == capture_view(m@[j]));
                assert(ms[i as int][j].2 < usize::MAX);
            }
        }
        let (path, _line, _is_import) = scan_import(language, m);
        proof {
            assert(import_scan(language, ms[i as int], ms[i as int].len() as int).0 == path@);
        }
        if !path.as_str().is_empty() && !use_path_splits(path.as_str()) {
            return false;
        }
        i = i + 1;
    }
    true
}

/// The extraction of a file from the matches of its queries.
pub open spec fn extraction_spec(
    l: Language,
    imports: Seq<Seq<(Seq<char>, Seq<char>, nat, nat, nat, Seq<char>)>>,
    symbols: Seq<Seq<(Seq<char>, Seq<char>, nat, nat, nat, Seq<char>)>>,
    references: Seq<Seq<(Seq<char>, Seq<char>, nat, nat, nat, Seq<char>)>>,
    errors: Seq<Seq<(Seq<char>, Seq<char>, nat, nat, nat, Seq<char>)>>,
    x: FileExtraction,
) -> bool {
    &&& x.language == l
    &&& x.imports@.map_values(|i: Import| import_view(i)) == imports_spec(l, imports)
    &&& x.symbols@.map_values(|s: Symbol| symbol_view(s)) == symbols_spec(l, symbols)
    &&& x.references@.map_values(|r: Reference| reference_view(r)) == references_spec(references)
    &&& x.parse_errors@.map_values(|e: ParseError| error_view(e)) == errors_spec(errors)
}

/// Builds a file's extraction from the matches of its import, symbol,
/// reference and error queries.
pub fn extraction_from_matches(
    language: Language,
    path: &str,
    imports: &Vec<Vec<QueryCapture>>,
    symbols: &Vec<Vec<QueryCapture>>,
    references: &Vec<Vec<QueryCapture>>,
    errors: &Vec<Vec<QueryCapture>>,
) -> (x: FileExtraction)
    requires
        rows_fit(captures_view(imports@)),
        rows_fit(captures_view(symbols@)),
        rows_fit(captures_view(references@)),
        rows_fit(captures_view(errors@)),
        imports_ok(language, captures_view(imports@)),
    ensures
        x.path@ == path@,
        extraction_spec(
            language,
            captures_view(imports@),
            captures_view(symbols@),
            captures_view(references@),
            captures_view(errors@),
            x,
        ),
{
    FileExtraction {
        path: String::from_str(path),
        language,
        imports: extract_imports(language, imports),
        symbols: extract_symbols(language, symbols),
        references: extract_references(references),
        parse_errors: extract_errors(errors),
    }
}

/// Whether every capture starts and ends on a row after which a line
/// number still fits.
fn all_rows_fit(ms: &Vec<Vec<QueryCapture>>) -> (b: bool)
    ensures
        b == rows_fit(captures_view(ms@)),
{
    let ghost v = captures_view(ms@);
    let mut i: usize = 0;
    while i < ms.len()
        invariant
            i <= ms@.len(),
            v == captures_view(ms@),
            forall|p: int, q: int| 0 <= p < i && 0 <= q < v[p].len() ==> #[trigger] v[p][q].2 < usize::MAX
                && v[p][q].4 < usize::MAX,
        decreases ms@.len() - i,
    {
        let m = &ms[i];
        let mut j: usize = 0;
        while j < m.len()
            invariant
                i < ms@.len(),
                m@ == ms@[i as int]@,
                j <= m@.len(),
                v == captures_view(ms@),
                v[i as int] == m@.map_values(|c: QueryCapture| capture_view(c)),
                forall|q: int| 0 <= q < j ==> #[trigger] v[i as int][q].2 < usize::MAX && v[i as int][q].4
                    < usize::MAX,
            decreases m@.len() - j,
        {
            assert(v[i as int][j as int] == capture_view(m@[j as int]));
            if m[j].start_row == usize::MAX || m[j].end_row == usize::MAX {
                assert(!(v[i as int][j as int].2 < usize::MAX && v[i as int][j as int].4 < usize::MAX));
                assert(!rows_fit(v));
                return false;
            }
            j = j + 1;
        }
        i = i + 1;
    }
    true
}

/// The extraction a source gives: present when every query runs and every
/// Rust use path can be split.
pub open spec fn parse_file_spec(l: Language, source: Seq<u8>, x: Option<FileExtraction>) -> bool {
    let q = queries(l);
    let im = matches_spec(language_matches(l, q.0, source));
    let sy = matches_spec(language_matches(l, q.1, source));
    let re = matches_spec(language_matches(l, q.2, source));
    let er = matches_spec(language_matches(l, ERROR_QUERY@, source));
    match x {
        Some(x) => {
            &&& im is Some && sy is Some && re is Some && er is Some
            &&& imports_ok(l, im.unwrap())
            &&& extraction_spec(l, im.unwrap(), sy.unwrap(), re.unwrap(), er.unwrap(), x)
        },
        None => im is None || sy is None || re is None || er is None || !rows_fit(im.unwrap()) || !rows_fit(
            sy.unwrap(),
        ) || !rows_fit(re.unwrap()) || !rows_fit(er.unwrap()) || !imports_ok(l, im.unwrap()),
    }
}

/// Parses a source file of a language and reads out its imports, symbols,
/// call references and syntax errors. `None` when tree-sitter cannot run a
/// query, when tree-sitter reports a row after which no line number fits a
/// `usize`, and when a Rust use path cannot be split (a braced list cut off
/// right after its `{`, or ending in a character of more than one byte).
pub fn parse_file(language: Language, path: &str, source: &[u8]) -> (r: Option<FileExtraction>)
    ensures
        parse_file_spec(language, source@, r),
        r matches Some(x) ==> x.path@ == path@,
{
    let (iq, sq, rq) = language_queries(language);
    let errors = match query_captures(language, ERROR_QUERY, source) {
        Some(m) => m,
        None => {
            return None;
        },
    };
    let imports = match query_captures(language, iq, source) {
        Some(m) => m,
        None => {
            return None;
        },
    };
    let symbols = match query_captures(language, sq, source) {
        Some(m) => m,
        None => {
            return None;
        },
    };
    let references = match query_captures(language, rq, source) {
        Some(m) => m,
        None => {
            return None;
        },
    };
    if !(all_rows_fit(&imports) && all_rows_fit(&symbols) && all_rows_fit(&references) && all_rows_fit(&errors)) {
        return None;
    }
    if !import_paths_split(language, &imports) {
        return None;
    }
    Some(extraction_from_matches(language, path, &imports, &symbols, &references, &errors))
}

/// Every symbol read out of a file has a name.
pub proof fn law_symbols_are_named(l: Language, ms: Seq<Seq<(Seq<char>, Seq<char>, nat, nat, nat, Seq<char>)>>, k: int)
    requires
        0 <= k < symbols_spec(l, ms).len(),
    ensures
        symbols_spec(l, ms)[k].0.len() > 0,
    decreases ms.len(),
{
    let f = |m: Seq<(Seq<char>, Seq<char>, nat, nat, nat, Seq<char>)>| symbol_of(l, m);
    if ms.len() > 0 {
        let rest = ms.drop_last();
        assert(symbols_spec(l, ms) == ms.filter_map(f));
        assert(symbols_spec(l, rest) == rest.filter_map(f));
        if k < rest.filter_map(f).len() {
            law_symbols_are_named(l, rest, k);
            match f(ms.last()) {
                Some(x) => {
                    assert(ms.filter_map(f) == rest.filter_map(f) + seq![x]);
                },
                None => {},
            }
        } else {
            match f(ms.last()) {
                Some(x) => {
                    assert(ms.filter_map(f) == rest.filter_map(f) + seq![x]);
                    assert(ms.filter_map(f)[k] == x);
                },
                None => {},
            }
        }
    }
}

} // verus!
