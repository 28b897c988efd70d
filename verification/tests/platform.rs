use snif::platform::{
    encode_project_path, first_line, gitlab_api_base, merge_request_diff, next_notes_page, DiffChange,
};

#[test]
fn merge_request_diff_adds_missing_headers() {
    let changes = vec![
        DiffChange {
            old_path: Some("a.rs".to_string()),
            new_path: Some("b.rs".to_string()),
            diff: Some("@@ -1 +1 @@\n-x\n+y".to_string()),
        },
        DiffChange {
            old_path: Some("c.rs".to_string()),
            new_path: Some("c.rs".to_string()),
            diff: Some("  --- a/c.rs\n+++ b/c.rs".to_string()),
        },
        DiffChange { old_path: None, new_path: None, diff: None },
    ];
    assert_eq!(
        merge_request_diff(&changes),
        "--- a/a.rs\n+++ b/b.rs\n@@ -1 +1 @@\n-x\n+y\n  --- a/c.rs\n+++ b/c.rs\n--- a/unknown\n+++ b/unknown\n\n"
    );
}

#[test]
fn project_paths_are_encoded() {
    assert_eq!(encode_project_path("group/sub/project"), "group%2Fsub%2Fproject");
    assert_eq!(encode_project_path("plain"), "plain");
}

#[test]
fn api_base_defaults_and_loses_trailing_slashes() {
    assert_eq!(gitlab_api_base(None), "https://gitlab.com/api/v4");
    assert_eq!(gitlab_api_base(Some("https://git.example.com/api/v4//")), "https://git.example.com/api/v4");
}

#[test]
fn commit_subject_is_first_line() {
    assert_eq!(first_line("Fix bug\r\n\nDetails"), "Fix bug");
    assert_eq!(first_line(""), "");
    assert_eq!(first_line("single"), "single");
}

#[test]
fn notes_pages_advance_within_limit() {
    assert_eq!(next_notes_page(1, Some(2), 100), Some(2));
    assert_eq!(next_notes_page(2, Some(2), 100), None);
    assert_eq!(next_notes_page(100, Some(101), 100), None);
    assert_eq!(next_notes_page(3, None, 100), None);
}
