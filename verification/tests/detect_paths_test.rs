use lsproxy::api_types::SupportedLanguages;
use lsproxy::detect::{detect_language, detect_language_string, extension_of, has_sorbet_type_annotation};
use lsproxy::paths::{
    absolute_path_to_relative_path_string, find_workspace_folders, join_path,
    nearest_ancestor_with, parent_of, uri_to_relative_path_string,
};

fn no_lines() -> Vec<String> {
    Vec::new()
}

fn lines(ls: &[&str]) -> Vec<String> {
    ls.iter().map(|s| s.to_string()).collect()
}

#[test]
fn detect_by_extension() {
    assert_eq!(
        detect_language("src/main.py", &no_lines()).unwrap(),
        SupportedLanguages::Python
    );
    assert_eq!(
        detect_language("a/b/lib.rs", &no_lines()).unwrap(),
        SupportedLanguages::Rust
    );
    assert_eq!(
        detect_language("web/app.tsx", &no_lines()).unwrap(),
        SupportedLanguages::TypeScriptJavaScript
    );
    assert_eq!(
        detect_language("kernel/x.cc", &no_lines()).unwrap(),
        SupportedLanguages::CPP
    );
    assert_eq!(
        detect_language("Main.java", &no_lines()).unwrap(),
        SupportedLanguages::Java
    );
}

#[test]
fn detect_same_extension_same_tag() {
    // Two paths with one extension always land on one tag.
    let a = detect_language("one/two/x.go", &no_lines()).unwrap();
    let b = detect_language("y.go", &no_lines()).unwrap();
    assert_eq!(a, b);
    assert_eq!(a, SupportedLanguages::Golang);
}

#[test]
fn detect_rejects_unknown_extension() {
    assert!(detect_language("notes.txt", &no_lines()).is_err());
    assert!(detect_language("no_extension", &no_lines()).is_err());
    assert!(detect_language(".bashrc", &no_lines()).is_err());
}

#[test]
fn detect_ruby_without_annotation() {
    assert_eq!(
        detect_language("app/model.rb", &no_lines()).unwrap(),
        SupportedLanguages::Ruby
    );
    assert_eq!(
        detect_language("app/model.rb", &lines(&["# frozen_string_literal: true"])).unwrap(),
        SupportedLanguages::Ruby
    );
}

#[test]
fn detect_ruby_with_strict_annotation() {
    for level in ["true", "strict", "strong"] {
        let head = lines(&["# frozen_string_literal: true", &format!("# typed: {}", level)]);
        assert_eq!(
            detect_language("app/model.rb", &head).unwrap(),
            SupportedLanguages::RubySorbet
        );
    }
    // Weaker levels stay on the plain variant.
    let head = lines(&["# typed: false"]);
    assert_eq!(
        detect_language("app/model.rb", &head).unwrap(),
        SupportedLanguages::Ruby
    );
}

#[test]
fn sorbet_annotation_only_in_first_ten_lines() {
    let mut far = Vec::new();
    for _ in 0..10 {
        far.push("# filler".to_string());
    }
    far.push("# typed: strict".to_string());
    assert!(!has_sorbet_type_annotation(&far));
    let mut near = Vec::new();
    for _ in 0..9 {
        near.push("# filler".to_string());
    }
    near.push("# typed: strict".to_string());
    assert!(has_sorbet_type_annotation(&near));
}

#[test]
fn language_identifier_strings() {
    assert_eq!(detect_language_string("m.py").unwrap(), "python");
    assert_eq!(detect_language_string("m.ts").unwrap(), "typescript");
    assert_eq!(detect_language_string("m.tsx").unwrap(), "typescriptreact");
    assert_eq!(detect_language_string("m.js").unwrap(), "javascript");
    assert_eq!(detect_language_string("m.jsx").unwrap(), "javascriptreact");
    assert_eq!(detect_language_string("m.c").unwrap(), "c");
    assert_eq!(detect_language_string("m.cpp").unwrap(), "cpp");
    assert_eq!(detect_language_string("m.rb").unwrap(), "ruby");
    assert!(detect_language_string("m.unknown").is_err());
}

#[test]
fn extension_extraction() {
    assert_eq!(extension_of("a/b/c.tar.gz").unwrap(), "gz");
    assert_eq!(extension_of("x.py").unwrap(), "py");
    assert!(extension_of("dir.d/noext").is_none());
    assert!(extension_of(".hidden").is_none());
}

#[test]
fn relative_paths_strip_the_mount() {
    assert_eq!(
        absolute_path_to_relative_path_string("/mnt/workspace/src/main.py", "/mnt/workspace"),
        "src/main.py"
    );
    assert_eq!(
        absolute_path_to_relative_path_string("/mnt/workspace", "/mnt/workspace"),
        ""
    );
    assert_eq!(
        absolute_path_to_relative_path_string("/elsewhere/x.py", "/mnt/workspace"),
        "/elsewhere/x.py"
    );
}

#[test]
fn parents_and_joins() {
    assert_eq!(parent_of("/a/b/c").unwrap(), "/a/b");
    assert_eq!(parent_of("/a").unwrap(), "/");
    assert_eq!(parent_of("name").unwrap(), "");
    assert!(parent_of("/").is_none());
    assert!(parent_of("").is_none());
    assert_eq!(join_path("/a/b", "go.mod"), "/a/b/go.mod");
    assert_eq!(join_path("/", "go.mod"), "/go.mod");
    assert_eq!(join_path("", "go.mod"), "go.mod");
}

#[test]
fn nearest_ancestor_finds_the_closest_marker() {
    let files = vec![
        "/w/go.mod".to_string(),
        "/w/sub/mod/go.mod".to_string(),
        "/w/other.txt".to_string(),
    ];
    assert_eq!(
        nearest_ancestor_with("/w/sub/mod", "go.mod", &files).unwrap(),
        "/w/sub/mod"
    );
    assert_eq!(
        nearest_ancestor_with("/w/sub", "go.mod", &files).unwrap(),
        "/w"
    );
    assert!(nearest_ancestor_with("/w/sub", "go.work", &files).is_none());
}

#[test]
fn workspace_folder_prefers_the_multi_module_marker() {
    // A multi-module marker at depth 1, module markers at depth 2: the
    // analyzer is told exactly one folder, the depth-1 root.
    let files = vec![
        "/w/repo/go.work".to_string(),
        "/w/repo/svc-a/go.mod".to_string(),
        "/w/repo/svc-b/go.mod".to_string(),
    ];
    let folders = find_workspace_folders("/w/repo/svc-a", "go.work", "go.mod", &files);
    assert_eq!(folders.len(), 1);
    assert_eq!(folders[0], "/w/repo");
}

#[test]
fn workspace_folder_falls_back_to_module_then_root() {
    let files = vec!["/w/repo/svc-a/go.mod".to_string()];
    let folders = find_workspace_folders("/w/repo/svc-a", "go.work", "go.mod", &files);
    assert_eq!(folders, vec!["/w/repo/svc-a".to_string()]);
    let folders = find_workspace_folders("/w/plain", "go.work", "go.mod", &Vec::new());
    assert_eq!(folders, vec!["/w/plain".to_string()]);
}

#[test]
fn uri_conversion_strips_the_mount() {
    let u = url::Url::parse("file:///mnt/workspace/src/main.py").unwrap();
    assert_eq!(
        uri_to_relative_path_string(&u, "/mnt/workspace"),
        "src/main.py"
    );
    // A URI outside the mount comes back as its own absolute path.
    let u = url::Url::parse("file:///elsewhere/x.py").unwrap();
    assert_eq!(
        uri_to_relative_path_string(&u, "/mnt/workspace"),
        "/elsewhere/x.py"
    );
}
