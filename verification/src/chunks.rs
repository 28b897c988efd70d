//! Splitting source files into overlapping line chunks for embedding, and
//! deciding when a file's chunks are unchanged.
use vstd::prelude::*;
use crate::hashing::{sha256_hex, sha256_hex_spec};
use crate::split::{join_spec, lines, lines_spec, views};
use crate::text::{chars_of, string_of};

verus! {

/// Lines per chunk.
pub const CHUNK_SIZE: usize = 60;
/// Lines shared by consecutive chunks.
pub const CHUNK_OVERLAP: usize = 10;
/// Files larger than this many bytes are not chunked.
pub const MAX_FILE_SIZE_BYTES: usize = 1_000_000;

/// What chunking the repository did.
#[derive(Debug, Clone, Copy, PartialEq, Eq, Structural)]
pub struct ChunkStats {
    pub chunks_created: usize,
    pub chunks_skipped_unchanged: usize,
    pub files_processed: usize,
    pub files_skipped: usize,
}

/// The SHA-256 content hash of a chunk, in lower-case hexadecimal.
pub fn content_hash(content: &str) -> (r: String)
    ensures
        r@ == sha256_hex_spec(content@),
        r@.len() == 64,
{
    sha256_hex(content)
}

/// The chunks from line `start` on: each starts `step` lines after the
/// previous, covers up to `size` lines, and is given with its first and
/// last line numbers (from one) and its lines joined by line feeds.
pub open spec fn chunks_from(ls: Seq<Seq<char>>, start: int, size: nat, step: nat) -> Seq<(int, int, Seq<char>)>
    decreases ls.len() - start,
{
    if start < 0 || start >= ls.len() || step == 0 {
        Seq::empty()
    } else {
        let end = if start + size < ls.len() { start + size } else { ls.len() as int };
        seq![(start + 1, end, join_spec(ls.subrange(start, end), seq!['\n']))] + (if start + step < ls.len() {
            chunks_from(ls, start + step, size, step)
        } else {
            Seq::empty()
        })
    }
}

/// A file's chunks: none for a file without lines; the whole file as one
/// chunk when the overlap leaves no step; otherwise overlapping chunks of
/// `chunk_size` lines, `chunk_size - overlap` apart.
pub open spec fn chunk_spec(content: Seq<char>, chunk_size: nat, overlap: nat) -> Seq<(int, int, Seq<char>)> {
    let ls = lines_spec(content);
    if ls.len() == 0 {
        Seq::empty()
    } else if chunk_size <= overlap {
        seq![(1int, ls.len() as int, content)]
    } else {
        chunks_from(ls, 0, chunk_size, (chunk_size - overlap) as nat)
    }
}

/// A chunk's view.
pub open spec fn chunk_view(c: (i64, i64, String)) -> (int, int, Seq<char>) {
    (c.0 as int, c.1 as int, c.2@)
}

proof fn lemma_lines_from_len(s: Seq<char>, i: int)
    requires
        0 <= i <= s.len(),
    ensures
        crate::split::lines_from(s, i).len() <= s.len() - i,
    decreases s.len() - i,
{
    if i < s.len() {
        let e = crate::split::next_nl(s, i);
        crate::split::lemma_next_nl(s, i);
        if e < s.len() {
            lemma_lines_from_len(s, e + 1);
        }
    }
}

fn join_lines(ls: &Vec<Vec<char>>, start: usize, end: usize) -> (r: String)
    requires
        start < end <= ls@.len(),
    ensures
        r@ == join_spec(views(ls@).subrange(start as int, end as int), seq!['\n']),
{
    let ghost lv = views(ls@);
    let mut out: Vec<char> = Vec::new();
    let mut j: usize = start;
    while j < end
        invariant
            start <= j <= end <= ls@.len(),
            lv == views(ls@),
            out@ == join_spec(lv.subrange(start as int, j as int), seq!['\n']),
        decreases end - j,
    {
        let ghost before = out@;
        if j > start {
            out.push('\n');
        }
        let line = &ls[j];
        let ghost mid = out@;
        let mut k: usize = 0;
        while k < line.len()
            invariant
                k <= line@.len(),
                out@ == mid + line@.take(k as int),
            decreases line@.len() - k,
        {
            out.push(line[k]);
            k = k + 1;
            assert(out@ =~= mid + line@.take(k as int));
        }
        assert(line@.take(line@.len() as int) =~= line@);
        proof {
            let p = lv.subrange(start as int, j + 1);
            assert(p.drop_last() =~= lv.subrange(start as int, j as int));
            assert(p.last() == line@);
            if j == start {
                assert(p.len() == 1);
                assert(out@ =~= p[0]);
            } else {
                assert(out@ =~= before + seq!['\n'] + line@);
            }
        }
        j = j + 1;
    }
    string_of(out.as_slice())
}

/// Splits a file's content into overlapping line chunks: (first line, last
/// line, text), line numbers from one and inclusive.
pub fn chunk_content(content: &str, chunk_size: usize, overlap: usize) -> (r: Vec<(i64, i64, String)>)
    requires
        content@.len() <= i64::MAX,
    ensures
        r@.map_values(|c: (i64, i64, String)| chunk_view(c)) == chunk_spec(content@, chunk_size as nat, overlap as nat),
{
    let cs = chars_of(content);
    let ls = lines(cs.as_slice());
    let ghost lv = lines_spec(content@);
    proof {
        lemma_lines_from_len(content@, 0);
    }
    let n = ls.len();
    let mut result: Vec<(i64, i64, String)> = Vec::new();
    if n == 0 {
        assert(result@.map_values(|c: (i64, i64, String)| chunk_view(c)) =~= chunk_spec(content@, chunk_size as nat, overlap as nat));
        return result;
    }
    if chunk_size <= overlap {
        result.push((1, n as i64, String::from_str(content)));
        assert(result@.map_values(|c: (i64, i64, String)| chunk_view(c)) =~= chunk_spec(content@, chunk_size as nat, overlap as nat));
        return result;
    }
    let step = chunk_size - overlap;
    let mut start: usize = 0;
    loop
        invariant_except_break
            start < n,
            n == ls@.len(),
            n <= i64::MAX,
            views(ls@) == lv,
            step == chunk_size - overlap,
            step > 0,
            result@.map_values(|c: (i64, i64, String)| chunk_view(c)) + chunks_from(lv, start as int, chunk_size as nat, step as nat)
                == chunks_from(lv, 0, chunk_size as nat, step as nat),
        ensures
            result@.map_values(|c: (i64, i64, String)| chunk_view(c)) == chunks_from(lv, 0, chunk_size as nat, step as nat),
        decreases n - start,
    {
        let end: usize = if chunk_size < n - start { start + chunk_size } else { n };
        let text = join_lines(&ls, start, end);
        let ghost before = result@.map_values(|c: (i64, i64, String)| chunk_view(c));
        result.push(((start + 1) as i64, end as i64, text));
        proof {
            assert(result@.map_values(|c: (i64, i64, String)| chunk_view(c)) =~= before.push(
                (start + 1, end as int, join_spec(lv.subrange(start as int, end as int), seq!['\n'])),
            ));
        }
        if step >= n - start {
            proof {
                assert(chunks_from(lv, start + step, chunk_size as nat, step as nat) =~= Seq::<(int, int, Seq<char>)>::empty());
                assert(result@.map_values(|c: (i64, i64, String)| chunk_view(c)) =~= chunks_from(lv, 0, chunk_size as nat, step as nat));
            }
            break;
        }
        start = start + step;
    }
    assert(result@.map_values(|c: (i64, i64, String)| chunk_view(c)) =~= chunk_spec(content@, chunk_size as nat, overlap as nat));
    result
}

/// A file is unchanged when its new chunk hashes and its stored ones are
/// as many distinct values and every new one is stored.
pub open spec fn unchanged_spec(new_hashes: Seq<Seq<char>>, existing_hashes: Seq<Seq<char>>) -> bool {
    new_hashes.to_set().len() == existing_hashes.to_set().len() && new_hashes.to_set().subset_of(existing_hashes.to_set())
}

/// Whether a file's chunks need no re-indexing.
pub fn chunks_unchanged(new_hashes: &Vec<String>, existing_hashes: &Vec<String>) -> (b: bool)
    ensures
        b == unchanged_spec(crate::sorted::string_views(new_hashes@), crate::sorted::string_views(existing_hashes@)),
{
    let nc = crate::sorted::char_vecs(new_hashes);
    let ec = crate::sorted::char_vecs(existing_hashes);
    let nd = crate::sorted::sort_dedup(&nc);
    let ed = crate::sorted::sort_dedup(&ec);
    proof {
        crate::sorted::lemma_strictly_sorted_card(views(nd@));
        crate::sorted::lemma_strictly_sorted_card(views(ed@));
    }
    if nd.len() != ed.len() {
        return false;
    }
    let mut i: usize = 0;
    while i < new_hashes.len()
        invariant
            i <= new_hashes@.len(),
            forall|q: int| 0 <= q < i ==> crate::sorted::string_views(existing_hashes@).to_set().contains(#[trigger] crate::sorted::string_views(new_hashes@)[q]),
        decreases new_hashes@.len() - i,
    {
        let mut found = false;
        let mut j: usize = 0;
        while j < existing_hashes.len()
            invariant
                j <= existing_hashes@.len(),
                i < new_hashes@.len(),
                found ==> crate::sorted::string_views(existing_hashes@).to_set().contains(crate::sorted::string_views(new_hashes@)[i as int]),
                !found ==> forall|q: int| 0 <= q < j ==> existing_hashes@[q]@ != new_hashes@[i as int]@,
            decreases existing_hashes@.len() - j,
        {
            if existing_hashes[j] == new_hashes[i] {
                assert(crate::sorted::string_views(existing_hashes@)[j as int] == crate::sorted::string_views(new_hashes@)[i as int]);
                found = true;
            }
            j = j + 1;
        }
        if !found {
            proof {
                let ev = crate::sorted::string_views(existing_hashes@);
                let x = crate::sorted::string_views(new_hashes@)[i as int];
                if ev.to_set().contains(x) {
                    let q = choose|q: int| 0 <= q < ev.len() && ev[q] == x;
                    assert(existing_hashes@[q]@ == new_hashes@[i as int]@);
                }
                assert(crate::sorted::string_views(new_hashes@).to_set().contains(x));
            }
            return false;
        }
        i = i + 1;
    }
    proof {
        let nv = crate::sorted::string_views(new_hashes@);
        let ev = crate::sorted::string_views(existing_hashes@);
        assert forall|x: Seq<char>| nv.to_set().contains(x) implies ev.to_set().contains(x) by {
            let q = choose|q: int| 0 <= q < nv.len() && nv[q] == x;
            assert(ev.to_set().contains(nv[q]));
        }
    }
    true
}



/// The language a stored file was indexed with names one.
pub open spec fn has_language(language: Option<Seq<char>>) -> bool {
    match language {
        Some(l) => l.len() > 0,
        None => false,
    }
}

/// A text's view, where there is one.
pub open spec fn opt_view(s: Option<&str>) -> Option<Seq<char>> {
    match s {
        Some(t) => Some(t@),
        None => None,
    }
}

/// What chunking does with one stored file.
pub enum FileChunking {
    /// The file has no language, could not be read inside the repository,
    /// or is too large.
    Skipped,
    /// The file has no lines, so no chunks.
    NoChunks,
    /// Its chunks are those already stored; this many are left as they are.
    Unchanged { count: usize },
    /// Its stored chunks are replaced by these, each with its content hash.
    Replace { chunks: Vec<(i64, i64, String)>, hashes: Vec<String> },
}

proof fn lemma_byte_len_at_least_len(s: Seq<char>)
    ensures
        crate::verify::byte_len(s) >= s.len(),
    decreases s.len(),
{
    if s.len() > 0 {
        lemma_byte_len_at_least_len(s.drop_last());
    }
}

/// The chunk hashes of a file's content.
pub open spec fn chunk_hashes(content: Seq<char>) -> Seq<Seq<char>> {
    chunk_spec(content, CHUNK_SIZE as nat, CHUNK_OVERLAP as nat).map_values(
        |c: (int, int, Seq<char>)| sha256_hex_spec(c.2),
    )
}

/// Decides what chunking does with one stored file, given its language,
/// its content (`None` where it could not be resolved inside the
/// repository or read) and the hashes of its stored chunks.
pub fn plan_file_chunks(language: Option<&str>, content: Option<&str>, existing_hashes: &Vec<String>) -> (r: FileChunking)
    ensures
        !has_language(opt_view(language)) ==> r is Skipped,
        match content {
            None => r is Skipped,
            Some(c) => if !has_language(opt_view(language)) || crate::verify::byte_len(c@)
                > MAX_FILE_SIZE_BYTES {
                r is Skipped
            } else {
                let cs = chunk_spec(c@, CHUNK_SIZE as nat, CHUNK_OVERLAP as nat);
                if cs.len() == 0 {
                    r is NoChunks
                } else if unchanged_spec(chunk_hashes(c@), crate::sorted::string_views(existing_hashes@)) {
                    r == FileChunking::Unchanged { count: cs.len() as usize }
                } else {
                    r matches FileChunking::Replace { chunks, hashes } && chunks@.map_values(
                        |x: (i64, i64, String)| chunk_view(x),
                    ) == cs && crate::sorted::string_views(hashes@) == chunk_hashes(c@)
                }
            },
        },
{
    let named = match language {
        Some(l) => !l.is_empty(),
        None => false,
    };
    if !named {
        return FileChunking::Skipped;
    }
    let c = match content {
        Some(c) => c,
        None => return FileChunking::Skipped,
    };
    if crate::verify::str_byte_len(c) > MAX_FILE_SIZE_BYTES {
        return FileChunking::Skipped;
    }
    proof {
        lemma_byte_len_at_least_len(c@);
    }
    let chunks = chunk_content(c, CHUNK_SIZE, CHUNK_OVERLAP);
    let ghost cs = chunk_spec(c@, CHUNK_SIZE as nat, CHUNK_OVERLAP as nat);
    assert(chunks@.map_values(|x: (i64, i64, String)| chunk_view(x)).len() == chunks@.len());
    if chunks.len() == 0 {
        return FileChunking::NoChunks;
    }
    let mut hashes: Vec<String> = Vec::new();
    let mut i: usize = 0;
    while i < chunks.len()
        invariant
            i <= chunks@.len(),
            chunks@.map_values(|x: (i64, i64, String)| chunk_view(x)) == cs,
            crate::sorted::string_views(hashes@) == cs.take(i as int).map_values(
                |x: (int, int, Seq<char>)| sha256_hex_spec(x.2),
            ),
        decreases chunks@.len() - i,
    {
        let h = content_hash(chunks[i].2.as_str());
        let ghost prev = hashes@;
        hashes.push(h);
        proof {
            assert(hashes@ =~= prev.push(h));
            assert(crate::sorted::string_views(hashes@) =~= crate::sorted::string_views(prev).push(h@));
            assert(chunks@.map_values(|x: (i64, i64, String)| chunk_view(x))[i as int] == chunk_view(chunks@[i as int]));
            assert(cs[i as int] == chunk_view(chunks@[i as int]));
            assert(crate::sorted::string_views(hashes@) =~= cs.take(i + 1).map_values(
                |x: (int, int, Seq<char>)| sha256_hex_spec(x.2),
            ));
        }
        i = i + 1;
    }
    assert(cs.take(cs.len() as int) =~= cs);
    if chunks_unchanged(&hashes, existing_hashes) {
        FileChunking::Unchanged { count: chunks.len() }
    } else {
        FileChunking::Replace { chunks, hashes }
    }
}

/// The counts after one more file was chunked as `plan` says.
pub open spec fn stats_after(s: ChunkStats, plan: FileChunking) -> ChunkStats {
    match plan {
        FileChunking::Skipped => ChunkStats { files_skipped: (s.files_skipped + 1) as usize, ..s },
        FileChunking::NoChunks => s,
        FileChunking::Unchanged { count } => ChunkStats {
            files_processed: (s.files_processed + 1) as usize,
            chunks_skipped_unchanged: (s.chunks_skipped_unchanged + count) as usize,
            ..s
        },
        FileChunking::Replace { chunks, .. } => ChunkStats {
            files_processed: (s.files_processed + 1) as usize,
            chunks_created: (s.chunks_created + chunks@.len()) as usize,
            ..s
        },
    }
}

/// The counts fit after recording `plan`.
pub open spec fn stats_fit(s: ChunkStats, plan: FileChunking) -> bool {
    match plan {
        FileChunking::Skipped => s.files_skipped < usize::MAX,
        FileChunking::NoChunks => true,
        FileChunking::Unchanged { count } => s.files_processed < usize::MAX && s.chunks_skipped_unchanged
            + count <= usize::MAX,
        FileChunking::Replace { chunks, .. } => s.files_processed < usize::MAX && s.chunks_created
            + chunks@.len() <= usize::MAX,
    }
}

impl ChunkStats {
    /// No file chunked yet.
    pub fn new() -> (s: ChunkStats)
        ensures
            s == (ChunkStats { chunks_created: 0, chunks_skipped_unchanged: 0, files_processed: 0, files_skipped: 0 }),
    {
        ChunkStats { chunks_created: 0, chunks_skipped_unchanged: 0, files_processed: 0, files_skipped: 0 }
    }

    /// Counts one more chunked file.
    pub fn record(&mut self, plan: &FileChunking)
        requires
            stats_fit(*old(self), *plan),
        ensures
            *final(self) == stats_after(*old(self), *plan),
    {
        match plan {
            FileChunking::Skipped => {
                self.files_skipped = self.files_skipped + 1;
            },
            FileChunking::NoChunks => {},
            FileChunking::Unchanged { count } => {
                self.files_processed = self.files_processed + 1;
                self.chunks_skipped_unchanged = self.chunks_skipped_unchanged + *count;
            },
            FileChunking::Replace { chunks, .. } => {
                self.files_processed = self.files_processed + 1;
                self.chunks_created = self.chunks_created + chunks.len();
            },
        }
    }
}

proof fn lemma_chunks_from_shape(ls: Seq<Seq<char>>, start: int, size: nat, step: nat)
    requires
        0 <= start < ls.len(),
        0 < step <= size,
    ensures
        ({
            let r = chunks_from(ls, start, size, step);
            &&& r.len() >= 1
            &&& r[0].0 == start + 1
            &&& r.last().1 == ls.len()
            &&& forall|i: int| 0 <= i < r.len() ==> (#[trigger] r[i]).1 == (if r[i].0 - 1 + size < ls.len() { r[i].0 - 1 + size } else { ls.len() as int })
            &&& forall|i: int| 0 <= i < r.len() - 1 ==> (#[trigger] r[i + 1]).0 == r[i].0 + step
        }),
    decreases ls.len() - start,
{
    let r = chunks_from(ls, start, size, step);
    let end = if start + size < ls.len() { start + size } else { ls.len() as int };
    let head = seq![(start + 1, end, join_spec(ls.subrange(start, end), seq!['\n']))];
    if start + step < ls.len() {
        lemma_chunks_from_shape(ls, start + step, size, step);
        let rest = chunks_from(ls, start + step, size, step);
        assert(r == head + rest);
        assert forall|i: int| 0 <= i < r.len() implies (#[trigger] r[i]).1 == (if r[i].0 - 1 + size < ls.len() { r[i].0 - 1 + size } else { ls.len() as int }) by {
            if i > 0 {
                assert(r[i] == rest[i - 1]);
            }
        }
        assert forall|i: int| 0 <= i < r.len() - 1 implies (#[trigger] r[i + 1]).0 == r[i].0 + step by {
            assert(r[i + 1] == rest[i]);
            if i > 0 {
                assert(r[i] == rest[i - 1]);
                assert(rest[(i - 1) + 1].0 == rest[i - 1].0 + step);
            } else {
                assert(rest[0].0 == start + step + 1);
                assert(r[0].0 == start + 1);
            }
        }
        assert(r.last() == rest.last());
    } else {
        assert(r == head);
    }
}

/// Chunks cover the whole file and overlap as configured: the first starts
/// at line one, the last ends at the last line, each covers `chunk_size`
/// lines or runs to the end, and each starts `chunk_size - overlap` lines
/// after the previous one, so consecutive full chunks share `overlap` lines.
pub proof fn law_chunks_cover_and_overlap(content: Seq<char>, chunk_size: nat, overlap: nat)
    requires
        overlap < chunk_size,
        lines_spec(content).len() > 0,
    ensures
        ({
            let n = lines_spec(content).len() as int;
            let r = chunk_spec(content, chunk_size, overlap);
            let step = chunk_size - overlap;
            &&& r.len() >= 1
            &&& r[0].0 == 1
            &&& r.last().1 == n
            &&& forall|i: int| 0 <= i < r.len() ==> (#[trigger] r[i]).1 == (if r[i].0 - 1 + chunk_size < n { r[i].0 - 1 + chunk_size } else { n })
            &&& forall|i: int| 0 <= i < r.len() - 1 ==> (#[trigger] r[i + 1]).0 == r[i].0 + step
        }),
{
    lemma_chunks_from_shape(lines_spec(content), 0, chunk_size, (chunk_size - overlap) as nat);
}

} // verus!
