use snif::syntax::{
    captures_from_matches, detect_language, is_likely_text, parse_candidate, parse_file, parse_java_import, parse_use_path, Language,
    SymbolKind,
};

fn strs(v: &[&str]) -> Vec<String> {
    v.iter().map(|s| s.to_string()).collect()
}

#[test]
fn languages_come_from_extensions() {
    assert_eq!(detect_language("src/lib.rs"), Some(Language::Rust));
    assert_eq!(detect_language("pkg/mod.py"), Some(Language::Python));
    assert_eq!(detect_language("A.java"), Some(Language::Java));
    assert_eq!(detect_language("notes.txt"), None);
    assert_eq!(detect_language("dir.rs/.rs"), None);
    assert_eq!(detect_language("Makefile"), None);
}

#[test]
fn binary_files_are_skipped() {
    assert!(is_likely_text(b"fn main() {}"));
    assert!(!is_likely_text(b"\x7fELF\x00\x01"));
    let mut late_zero = vec![b'a'; 600];
    late_zero[550] = 0;
    assert!(is_likely_text(&late_zero));
    assert_eq!(parse_candidate("a.rs", b"\x00"), None);
    assert_eq!(parse_candidate("a.rs", b"fn f() {}"), Some(Language::Rust));
}

#[test]
fn use_paths_split_into_module_and_names() {
    assert_eq!(parse_use_path("std::collections::{HashMap, HashSet}"), ("std::collections".to_string(), strs(&["HashMap", "HashSet"])));
    assert_eq!(parse_use_path("crate::a::b"), ("crate::a".to_string(), strs(&["b"])));
    assert_eq!(parse_use_path("serde"), ("serde".to_string(), vec![]));
    assert_eq!(parse_use_path(" a::{ x , , y }"), ("a".to_string(), strs(&["x", "y"])));
}

#[test]
fn java_imports_split_into_package_and_class() {
    assert_eq!(parse_java_import("java.util.List"), ("java.util".to_string(), strs(&["List"])));
    assert_eq!(parse_java_import("java.util.*"), ("java.util".to_string(), vec![]));
    assert_eq!(parse_java_import("Single"), ("Single".to_string(), vec![]));
}

#[test]
fn rust_file_yields_imports_symbols_and_references() {
    let src = b"use std::collections::{HashMap, HashSet};\nuse crate::config::load;\n\nstruct Store;\n\nfn run() {\n    load();\n    helper::go();\n}\n";
    let x = parse_file(Language::Rust, "src/main.rs", src).expect("parses");
    assert_eq!(x.path, "src/main.rs");
    assert_eq!(x.imports.len(), 2);
    assert_eq!(x.imports[0].source, "std::collections");
    assert_eq!(x.imports[0].names, strs(&["HashMap", "HashSet"]));
    assert_eq!(x.imports[0].line, 1);
    assert_eq!(x.imports[1].source, "crate::config");
    assert_eq!(x.imports[1].line, 2);
    let names: Vec<(&str, SymbolKind, usize, usize)> =
        x.symbols.iter().map(|s| (s.name.as_str(), s.kind, s.start_line, s.end_line)).collect();
    assert_eq!(names, vec![("Store", SymbolKind::Struct, 4, 4), ("run", SymbolKind::Function, 6, 9)]);
    let refs: Vec<(&str, usize)> = x.references.iter().map(|r| (r.name.as_str(), r.line)).collect();
    assert_eq!(refs, vec![("load", 7), ("go", 8)]);
    assert!(x.parse_errors.is_empty());
}

#[test]
fn python_file_yields_imports_and_symbols() {
    let src = b"import os\nfrom pkg.sub import thing\n\nclass Box:\n    def open(self):\n        os.path.join('a')\n";
    let x = parse_file(Language::Python, "m.py", src).expect("parses");
    let imports: Vec<(&str, usize)> = x.imports.iter().map(|i| (i.source.as_str(), i.line)).collect();
    assert_eq!(imports, vec![("os", 1), ("pkg.sub", 2)]);
    let symbols: Vec<(&str, SymbolKind)> = x.symbols.iter().map(|s| (s.name.as_str(), s.kind)).collect();
    assert_eq!(symbols, vec![("Box", SymbolKind::Class), ("open", SymbolKind::Function)]);
    assert!(x.references.iter().any(|r| r.name == "join" && r.line == 6));
}

#[test]
fn java_file_skips_package_and_reads_imports() {
    let src = b"package com.example;\n\nimport java.util.List;\nimport java.io.*;\n\npublic class App {\n    void run() { new Thing(); list.add(1); }\n}\n";
    let x = parse_file(Language::Java, "App.java", src).expect("parses");
    let imports: Vec<(&str, Vec<String>, usize)> = x.imports.iter().map(|i| (i.source.as_str(), i.names.clone(), i.line)).collect();
    // the grammar captures the name before `.*`, so a wildcard import reads as a class import
    assert_eq!(imports, vec![("java.util", strs(&["List"]), 3), ("java", strs(&["io"]), 4)]);
    let symbols: Vec<(&str, SymbolKind)> = x.symbols.iter().map(|s| (s.name.as_str(), s.kind)).collect();
    assert_eq!(symbols, vec![("App", SymbolKind::Class), ("run", SymbolKind::Method)]);
    let refs: Vec<&str> = x.references.iter().map(|r| r.name.as_str()).collect();
    assert_eq!(refs, vec!["Thing", "add"]);
}

#[test]
fn syntax_errors_are_reported_with_positions() {
    let x = parse_file(Language::Rust, "bad.rs", b"fn main() {\n    let x = ;\n}\n").expect("parses");
    assert!(!x.parse_errors.is_empty());
    assert_eq!(x.parse_errors[0].line, 2);
}

#[test]
fn captures_keep_positions_and_mark_invalid_text() {
    let matches = vec![vec![
        ("name".to_string(), "identifier", 1usize, 3usize, 1usize, Some("b")),
        ("body".to_string(), "block", 0usize, 7usize, 1usize, None),
    ]];
    let caps = captures_from_matches(&matches);
    assert_eq!(caps.len(), 1);
    assert_eq!(caps[0][0].name, "name");
    assert_eq!(caps[0][0].kind, "identifier");
    assert_eq!((caps[0][0].start_row, caps[0][0].start_column, caps[0][0].end_row), (1, 3, 1));
    assert_eq!(caps[0][0].text, "b");
    assert_eq!((caps[0][1].start_row, caps[0][1].start_column, caps[0][1].end_row), (0, 7, 1));
    assert_eq!(caps[0][1].text, "<invalid utf8>");
}
