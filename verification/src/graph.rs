//! Which parsed files the structural graph stores again, and what it counts:
//! a file is stored when its content hash differs from the stored one.
use vstd::prelude::*;
use crate::hashing::{sha256_hex, sha256_hex_spec};
use crate::syntax::{FileExtraction, SymbolKind};
use crate::text::append_str;

verus! {

/// What building the graph did.
#[derive(Debug, Clone, Copy, PartialEq, Eq, Structural)]
pub struct GraphStats {
    pub files_indexed: usize,
    pub files_skipped: usize,
    pub symbols_extracted: usize,
    pub imports_extracted: usize,
    pub references_extracted: usize,
}

/// The name a symbol kind is stored under.
pub open spec fn kind_name(k: SymbolKind) -> Seq<char> {
    match k {
        SymbolKind::Function => "function"@,
        SymbolKind::Method => "method"@,
        SymbolKind::Class => "class"@,
        SymbolKind::Struct => "struct"@,
        SymbolKind::Enum => "enum"@,
        SymbolKind::Trait => "trait"@,
        SymbolKind::Interface => "interface"@,
        SymbolKind::TypeAlias => "type_alias"@,
        SymbolKind::Module => "module"@,
        SymbolKind::Constant => "constant"@,
    }
}

impl SymbolKind {
    /// The kind's stored name.
    pub fn as_str(&self) -> (r: &'static str)
        ensures
            r@ == kind_name(*self),
    {
        match self {
            SymbolKind::Function => "function",
            SymbolKind::Method => "method",
            SymbolKind::Class => "class",
            SymbolKind::Struct => "struct",
            SymbolKind::Enum => "enum",
            SymbolKind::Trait => "trait",
            SymbolKind::Interface => "interface",
            SymbolKind::TypeAlias => "type_alias",
            SymbolKind::Module => "module",
            SymbolKind::Constant => "constant",
        }
    }
}

/// The text a file's structure hash is taken over: its path, each
/// symbol's name and kind, and each import's source, in order.
pub open spec fn structure_text(x: FileExtraction) -> Seq<char> {
    x.path@ + x.symbols@.map_values(|s: crate::syntax::Symbol| s.name@ + kind_name(s.kind)).flatten()
        + x.imports@.map_values(|i: crate::syntax::Import| i.source@).flatten()
}

/// The structure hash of a parsed file.
pub fn compute_hash(extraction: &FileExtraction) -> (r: String)
    ensures
        r@ == sha256_hex_spec(structure_text(*extraction)),
{
    let ghost syms = extraction.symbols@.map_values(|s: crate::syntax::Symbol| s.name@ + kind_name(s.kind));
    let ghost imps = extraction.imports@.map_values(|i: crate::syntax::Import| i.source@);
    let mut text = String::from_str(extraction.path.as_str());
    let ghost base = text@;
    let mut i: usize = 0;
    while i < extraction.symbols.len()
        invariant
            i <= extraction.symbols@.len(),
            base == extraction.path@,
            syms == extraction.symbols@.map_values(|s: crate::syntax::Symbol| s.name@ + kind_name(s.kind)),
            text@ == base + syms.take(i as int).flatten(),
        decreases extraction.symbols@.len() - i,
    {
        let s = &extraction.symbols[i];
        append_str(&mut text, s.name.as_str());
        append_str(&mut text, s.kind.as_str());
        proof {
            assert(syms.take(i + 1) =~= syms.take(i as int).push(syms[i as int]));
            syms.take(i as int).lemma_flatten_push(syms[i as int]);
            assert(text@ =~= base + syms.take(i + 1).flatten());
        }
        i = i + 1;
    }
    assert(syms.take(syms.len() as int) =~= syms);
    let ghost mid = text@;
    let mut j: usize = 0;
    while j < extraction.imports.len()
        invariant
            j <= extraction.imports@.len(),
            imps == extraction.imports@.map_values(|i: crate::syntax::Import| i.source@),
            text@ == mid + imps.take(j as int).flatten(),
        decreases extraction.imports@.len() - j,
    {
        append_str(&mut text, extraction.imports[j].source.as_str());
        proof {
            assert(imps.take(j + 1) =~= imps.take(j as int).push(imps[j as int]));
            imps.take(j as int).lemma_flatten_push(imps[j as int]);
            assert(text@ =~= mid + imps.take(j + 1).flatten());
        }
        j = j + 1;
    }
    assert(imps.take(imps.len() as int) =~= imps);
    assert(text@ =~= structure_text(*extraction));
    sha256_hex(text.as_str())
}

/// A file is stored again unless its stored hash equals its new one.
pub open spec fn needs_store(existing: Option<String>, x: FileExtraction) -> bool {
    match existing {
        Some(h) => h@ != sha256_hex_spec(structure_text(x)),
        None => true,
    }
}

/// The counts after the first `k` files.
pub open spec fn stats_upto(xs: Seq<FileExtraction>, existing: Seq<Option<String>>, k: int) -> (nat, nat, nat, nat, nat)
    decreases k,
{
    if k <= 0 {
        (0, 0, 0, 0, 0)
    } else {
        let s = stats_upto(xs, existing, k - 1);
        let x = xs[k - 1];
        if needs_store(existing[k - 1], x) {
            (s.0 + 1, s.1, s.2 + x.symbols@.len(), s.3 + x.imports@.len(), s.4 + x.references@.len())
        } else {
            (s.0, s.1 + 1, s.2, s.3, s.4)
        }
    }
}

/// The extracted items of all files fit the counters.
pub open spec fn items_fit(xs: Seq<FileExtraction>) -> bool {
    &&& xs.map_values(|x: FileExtraction| x.symbols@.len() as int).fold_left(0int, |a: int, b: int| a + b) <= usize::MAX
    &&& xs.map_values(|x: FileExtraction| x.imports@.len() as int).fold_left(0int, |a: int, b: int| a + b) <= usize::MAX
    &&& xs.map_values(|x: FileExtraction| x.references@.len() as int).fold_left(0int, |a: int, b: int| a + b) <= usize::MAX
}

/// What building the graph decides for parsed files, given each file's
/// stored hash: the files to store (with their new hashes), in order, and
/// the counts of stored and skipped files and of the items stored.
pub struct GraphPlan {
    pub stats: GraphStats,
    pub to_store: Vec<(usize, String)>,
}

proof fn lemma_stats_bounded(xs: Seq<FileExtraction>, existing: Seq<Option<String>>, k: int)
    requires
        0 <= k <= xs.len(),
        existing.len() == xs.len(),
    ensures
        stats_upto(xs, existing, k).0 + stats_upto(xs, existing, k).1 == k,
        stats_upto(xs, existing, k).2 <= xs.take(k).map_values(|x: FileExtraction| x.symbols@.len() as int).fold_left(
            0int,
            |a: int, b: int| a + b,
        ),
        stats_upto(xs, existing, k).3 <= xs.take(k).map_values(|x: FileExtraction| x.imports@.len() as int).fold_left(
            0int,
            |a: int, b: int| a + b,
        ),
        stats_upto(xs, existing, k).4 <= xs.take(k).map_values(|x: FileExtraction| x.references@.len() as int).fold_left(
            0int,
            |a: int, b: int| a + b,
        ),
    decreases k,
{
    if k > 0 {
        lemma_stats_bounded(xs, existing, k - 1);
        assert(xs.take(k).drop_last() =~= xs.take(k - 1));
        let f1 = |x: FileExtraction| x.symbols@.len() as int;
        let f2 = |x: FileExtraction| x.imports@.len() as int;
        let f3 = |x: FileExtraction| x.references@.len() as int;
        assert(xs.take(k).map_values(f1).drop_last() =~= xs.take(k - 1).map_values(f1));
        assert(xs.take(k).map_values(f2).drop_last() =~= xs.take(k - 1).map_values(f2));
        assert(xs.take(k).map_values(f3).drop_last() =~= xs.take(k - 1).map_values(f3));
    }
}

proof fn lemma_fold_prefix(s: Seq<int>, k: int)
    requires
        0 <= k <= s.len(),
        forall|i: int| 0 <= i < s.len() ==> s[i] >= 0,
    ensures
        s.take(k).fold_left(0int, |a: int, b: int| a + b) <= s.fold_left(0int, |a: int, b: int| a + b),
    decreases s.len() - k,
{
    if k < s.len() {
        lemma_fold_prefix(s, k + 1);
        assert(s.take(k + 1).drop_last() =~= s.take(k));
    } else {
        assert(s.take(k) =~= s);
    }
}

/// Decides which parsed files to store and counts what building the graph
/// does, given each file's stored hash (`None` for a new file).
pub fn plan_graph(extractions: &Vec<FileExtraction>, existing: &Vec<Option<String>>) -> (r: GraphPlan)
    requires
        existing@.len() == extractions@.len(),
        items_fit(extractions@),
    ensures
        ({
            let s = stats_upto(extractions@, existing@, extractions@.len() as int);
            &&& r.stats.files_indexed == s.0
            &&& r.stats.files_skipped == s.1
            &&& r.stats.symbols_extracted == s.2
            &&& r.stats.imports_extracted == s.3
            &&& r.stats.references_extracted == s.4
        }),
        forall|k: int| 0 <= k < r.to_store@.len() ==> {
            let (i, h) = #[trigger] r.to_store@[k];
            &&& i < extractions@.len()
            &&& h@ == sha256_hex_spec(structure_text(extractions@[i as int]))
            &&& needs_store(existing@[i as int], extractions@[i as int])
        },
        r.to_store@.map_values(|p: (usize, String)| p.0 as int) == Seq::new(extractions@.len(), |i: int| i).filter(
            |i: int| needs_store(existing@[i], extractions@[i]),
        ),
{
    let ghost xs = extractions@;
    let ghost ex = existing@;
    let ghost idx = Seq::new(extractions@.len(), |i: int| i);
    let ghost pred = |i: int| needs_store(existing@[i], extractions@[i]);
    let mut stats = GraphStats { files_indexed: 0, files_skipped: 0, symbols_extracted: 0, imports_extracted: 0, references_extracted: 0 };
    let mut to_store: Vec<(usize, String)> = Vec::new();
    let mut k: usize = 0;
    while k < extractions.len()
        invariant
            k <= xs.len(),
            xs == extractions@,
            ex == existing@,
            ex.len() == xs.len(),
            items_fit(xs),
            idx == Seq::new(xs.len(), |i: int| i),
            pred == (|i: int| needs_store(existing@[i], extractions@[i])),
            ({
                let s = stats_upto(xs, ex, k as int);
                &&& stats.files_indexed == s.0
                &&& stats.files_skipped == s.1
                &&& stats.symbols_extracted == s.2
                &&& stats.imports_extracted == s.3
                &&& stats.references_extracted == s.4
            }),
            forall|q: int| 0 <= q < to_store@.len() ==> {
                let (i, h) = #[trigger] to_store@[q];
                &&& i < xs.len()
                &&& h@ == sha256_hex_spec(structure_text(xs[i as int]))
                &&& needs_store(ex[i as int], xs[i as int])
            },
            to_store@.map_values(|p: (usize, String)| p.0 as int) == idx.take(k as int).filter(pred),
        decreases xs.len() - k,
    {
        let x = &extractions[k];
        let h = compute_hash(x);
        let store = match &existing[k] {
            Some(old) => *old != h,
            None => true,
        };
        proof {
            reveal(Seq::filter);
            assert(idx.take(k + 1).drop_last() =~= idx.take(k as int));
            assert(idx.take(k + 1).last() == k as int);
            lemma_stats_bounded(xs, ex, k + 1);
            let f1 = |x: FileExtraction| x.symbols@.len() as int;
            let f2 = |x: FileExtraction| x.imports@.len() as int;
            let f3 = |x: FileExtraction| x.references@.len() as int;
            assert forall|i: int| 0 <= i < xs.map_values(f1).len() implies xs.map_values(f1)[i] >= 0 by {}
            assert forall|i: int| 0 <= i < xs.map_values(f2).len() implies xs.map_values(f2)[i] >= 0 by {}
            assert forall|i: int| 0 <= i < xs.map_values(f3).len() implies xs.map_values(f3)[i] >= 0 by {}
            lemma_fold_prefix(xs.map_values(f1), k + 1);
            lemma_fold_prefix(xs.map_values(f2), k + 1);
            lemma_fold_prefix(xs.map_values(f3), k + 1);
            assert(xs.map_values(f1).take(k + 1) =~= xs.take(k + 1).map_values(f1));
            assert(xs.map_values(f2).take(k + 1) =~= xs.take(k + 1).map_values(f2));
            assert(xs.map_values(f3).take(k + 1) =~= xs.take(k + 1).map_values(f3));
        }
        if store {
            stats.files_indexed = stats.files_indexed + 1;
            stats.symbols_extracted = stats.symbols_extracted + x.symbols.len();
            stats.imports_extracted = stats.imports_extracted + x.imports.len();
            stats.references_extracted = stats.references_extracted + x.references.len();
            let ghost before = to_store@;
            to_store.push((k, h));
            proof {
                assert(to_store@.map_values(|p: (usize, String)| p.0 as int) =~= before.map_values(
                    |p: (usize, String)| p.0 as int,
                ).push(k as int));
            }
        } else {
            stats.files_skipped = stats.files_skipped + 1;
        }
        k = k + 1;
    }
    assert(idx.take(xs.len() as int) =~= idx);
    GraphPlan { stats, to_store }
}

} // verus!
