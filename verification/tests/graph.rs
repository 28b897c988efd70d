use sha2::Digest;
use snif::graph::{compute_hash, plan_graph};
use snif::syntax::{FileExtraction, Import, Language, Reference, Symbol, SymbolKind};

fn symbol(name: &str, kind: SymbolKind) -> Symbol {
    Symbol { name: name.to_string(), kind, start_line: 1, end_line: 2, signature: None, body_text: String::new(), children: vec![] }
}

fn extraction(path: &str) -> FileExtraction {
    FileExtraction {
        path: path.to_string(),
        language: Language::Rust,
        imports: vec![Import { source: "std::fmt".to_string(), names: vec![], line: 1, alias: None }],
        symbols: vec![symbol("Store", SymbolKind::Struct), symbol("run", SymbolKind::Function)],
        references: vec![Reference { name: "go".to_string(), line: 3, context: String::new() }],
        parse_errors: vec![],
    }
}

fn hex_sha256(text: &str) -> String {
    let digest = sha2::Sha256::digest(text.as_bytes());
    digest.iter().map(|b| format!("{:02x}", b)).collect()
}

#[test]
fn structure_hash_covers_path_symbols_and_imports() {
    let x = extraction("src/a.rs");
    assert_eq!(compute_hash(&x), hex_sha256("src/a.rsStorestructrunfunctionstd::fmt"));
}

#[test]
fn unchanged_files_are_skipped() {
    let xs = vec![extraction("src/a.rs"), extraction("src/b.rs")];
    let existing = vec![Some(compute_hash(&xs[0])), Some("stale".to_string())];
    let plan = plan_graph(&xs, &existing);
    assert_eq!(plan.stats.files_skipped, 1);
    assert_eq!(plan.stats.files_indexed, 1);
    assert_eq!(plan.stats.symbols_extracted, 2);
    assert_eq!(plan.stats.imports_extracted, 1);
    assert_eq!(plan.stats.references_extracted, 1);
    assert_eq!(plan.to_store.len(), 1);
    assert_eq!(plan.to_store[0].0, 1);
    assert_eq!(plan.to_store[0].1, compute_hash(&xs[1]));
}
