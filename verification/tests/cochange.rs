use snif::cochange::{cochange_candidates, count_cochanges, parse_git_log_output};

fn strings(xs: &[&str]) -> Vec<String> {
    xs.iter().map(|s| s.to_string()).collect()
}

fn file_count(counts: &snif::cochange::CochangeCounts, path: &str) -> usize {
    counts.files.iter().find(|f| f.path == path).map(|f| f.count).unwrap_or(0)
}

fn pair_count(counts: &snif::cochange::CochangeCounts, a: &str, b: &str) -> usize {
    counts.pairs.iter().find(|p| p.first == a && p.second == b).map(|p| p.count).unwrap_or(0)
}

#[test]
fn git_log_output_groups_files_by_commit() {
    let out = "0123456789abcdef0123456789abcdef01234567\nsrc/a.rs\n src/b.rs \n\nfedcba9876543210fedcba9876543210fedcba98\nsrc/a.rs\n";
    let commits = parse_git_log_output(out);
    assert_eq!(commits, vec![strings(&["src/a.rs", "src/b.rs"]), strings(&["src/a.rs"])]);
    // a blank line ends a commit's file list
    let out = "0123456789abcdef0123456789abcdef01234567\n\nsrc/a.rs\n";
    assert!(parse_git_log_output(out).is_empty());
}

#[test]
fn counts_files_and_pairs_among_indexed_files() {
    let commits = vec![
        strings(&["b.rs", "a.rs", "vendor.js"]),
        strings(&["a.rs", "b.rs", "c.rs"]),
        strings(&["c.rs"]),
    ];
    let indexed = strings(&["a.rs", "b.rs", "c.rs"]);
    let counts = count_cochanges(&commits, &indexed);
    assert_eq!(file_count(&counts, "a.rs"), 2);
    assert_eq!(file_count(&counts, "b.rs"), 2);
    assert_eq!(file_count(&counts, "c.rs"), 2);
    assert_eq!(file_count(&counts, "vendor.js"), 0);
    assert_eq!(pair_count(&counts, "a.rs", "b.rs"), 2);
    assert_eq!(pair_count(&counts, "b.rs", "a.rs"), 0);
    assert_eq!(pair_count(&counts, "a.rs", "c.rs"), 1);
    assert_eq!(pair_count(&counts, "b.rs", "c.rs"), 1);
    assert_eq!(counts.pairs.len(), 3);
}

#[test]
fn candidates_need_enough_shared_commits() {
    let commits = vec![strings(&["a.rs", "b.rs"]), strings(&["a.rs", "b.rs"]), strings(&["a.rs", "c.rs"])];
    let indexed = strings(&["a.rs", "b.rs", "c.rs"]);
    let counts = count_cochanges(&commits, &indexed);
    let c = cochange_candidates(&counts, 2);
    assert_eq!(c.len(), 1);
    assert_eq!((c[0].first.as_str(), c[0].second.as_str()), ("a.rs", "b.rs"));
    assert_eq!((c[0].cochanges, c[0].first_changes, c[0].second_changes), (2, 3, 2));
}
