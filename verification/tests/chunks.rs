use snif::chunks::{chunk_content, chunks_unchanged, content_hash, plan_file_chunks, ChunkStats, FileChunking};

#[test]
fn chunk_content_basic() {
    let content = "line1\nline2\nline3\nline4\nline5\nline6\nline7\nline8\nline9\nline10";
    let chunks = chunk_content(content, 5, 2);

    assert_eq!(chunks.len(), 4);
    assert_eq!(chunks[0].0, 1);
    assert_eq!(chunks[0].1, 5);
    assert_eq!(chunks[1].0, 4);
    assert_eq!(chunks[1].1, 8);
    assert_eq!(chunks[2].0, 7);
    assert_eq!(chunks[2].1, 10);
    assert_eq!(chunks[3].0, 10);
    assert_eq!(chunks[3].1, 10);
}

#[test]
fn chunk_content_single_chunk() {
    let content = "line1\nline2\nline3";
    let chunks = chunk_content(content, 10, 2);

    assert_eq!(chunks.len(), 1);
    assert_eq!(chunks[0].0, 1);
    assert_eq!(chunks[0].1, 3);
}

#[test]
fn chunk_content_empty() {
    let content = "";
    let chunks = chunk_content(content, 10, 2);
    assert!(chunks.is_empty());
}

#[test]
fn content_hash_deterministic() {
    let hash1 = content_hash("fn main() {}");
    let hash2 = content_hash("fn main() {}");
    assert_eq!(hash1, hash2);

    let hash3 = content_hash("fn other() {}");
    assert_ne!(hash1, hash3);
}

#[test]
fn chunk_content_overlap_preserves_content() {
    let content: Vec<String> = (1..=20).map(|i| format!("line {i}")).collect();
    let content_str = content.join("\n");
    let chunks = chunk_content(&content_str, 10, 3);

    assert!(chunks.len() > 1);
    for i in 1..chunks.len() {
        let prev_end = chunks[i - 1].2.clone();
        let curr_start = chunks[i].2.clone();

        let prev_lines: Vec<&str> = prev_end.lines().collect();
        let curr_lines: Vec<&str> = curr_start.lines().collect();
        assert_eq!(prev_lines[prev_lines.len() - 3..], curr_lines[..3]);
    }
}

#[test]
fn content_hash_is_sha256_lower_hex() {
    assert_eq!(
        content_hash(""),
        "e3b0c44298fc1c149afbf4c8996fb92427ae41e4649b934ca495991b7852b855"
    );
    assert_eq!(
        content_hash("abc"),
        "ba7816bf8f01cfea414140de5dae2223b00361a396177a9cb410ff61f20015ad"
    );
}

#[test]
fn chunk_content_degenerate_overlap_is_whole_file() {
    let chunks = chunk_content("a\nb\nc\n", 2, 2);
    assert_eq!(chunks.len(), 1);
    assert_eq!(chunks[0].0, 1);
    assert_eq!(chunks[0].1, 3);
    assert_eq!(chunks[0].2, "a\nb\nc\n");
}

#[test]
fn chunk_text_joins_lines_without_carriage_returns() {
    let chunks = chunk_content("a\r\nb\r\nc", 2, 0);
    assert_eq!(chunks.len(), 2);
    assert_eq!(chunks[0].2, "a\nb");
    assert_eq!(chunks[1].2, "c");
    assert_eq!((chunks[1].0, chunks[1].1), (3, 3));
}

#[test]
fn unchanged_chunks_compare_as_sets() {
    let a = vec!["x".to_string(), "y".to_string(), "x".to_string()];
    let b = vec!["y".to_string(), "x".to_string()];
    assert!(chunks_unchanged(&a, &b));
    let c = vec!["y".to_string(), "z".to_string()];
    assert!(!chunks_unchanged(&a, &c));
    let d = vec!["x".to_string()];
    assert!(!chunks_unchanged(&a, &d));
    assert!(chunks_unchanged(&Vec::new(), &Vec::new()));
}

#[test]
fn files_without_language_or_content_are_skipped() {
    let none: Vec<String> = Vec::new();
    assert!(matches!(plan_file_chunks(None, Some("fn main() {}"), &none), FileChunking::Skipped));
    assert!(matches!(plan_file_chunks(Some(""), Some("fn main() {}"), &none), FileChunking::Skipped));
    assert!(matches!(plan_file_chunks(Some("rust"), None, &none), FileChunking::Skipped));
    let big = "x".repeat(1_000_001);
    assert!(matches!(plan_file_chunks(Some("rust"), Some(&big), &none), FileChunking::Skipped));
    assert!(matches!(plan_file_chunks(Some("rust"), Some(""), &none), FileChunking::NoChunks));
}

#[test]
fn changed_file_is_rechunked_and_unchanged_file_is_left() {
    let none: Vec<String> = Vec::new();
    let plan = plan_file_chunks(Some("rust"), Some("fn a() {}\nfn b() {}\n"), &none);
    let hashes = match plan {
        FileChunking::Replace { chunks, hashes } => {
            assert_eq!(chunks.len(), 1);
            assert_eq!(chunks[0], (1, 2, "fn a() {}\nfn b() {}".to_string()));
            assert_eq!(hashes, vec![content_hash("fn a() {}\nfn b() {}")]);
            hashes
        }
        _ => panic!("expected new chunks"),
    };
    let again = plan_file_chunks(Some("rust"), Some("fn a() {}\nfn b() {}\n"), &hashes);
    assert!(matches!(again, FileChunking::Unchanged { count: 1 }));

    let mut stats = ChunkStats::new();
    stats.record(&again);
    stats.record(&FileChunking::Skipped);
    stats.record(&plan_file_chunks(Some("rust"), Some("x\n"), &hashes));
    assert_eq!(stats.files_processed, 2);
    assert_eq!(stats.chunks_skipped_unchanged, 1);
    assert_eq!(stats.chunks_created, 1);
    assert_eq!(stats.files_skipped, 1);
}
