use lsproxy::scan::{any_pattern_matches, filter_walk_entries, FileType, WalkEntry};

fn file(path: &str) -> WalkEntry {
    WalkEntry {
        path: path.to_string(),
        is_dir: false,
        is_file: true,
    }
}

fn dir(path: &str) -> WalkEntry {
    WalkEntry {
        path: path.to_string(),
        is_dir: true,
        is_file: false,
    }
}

/// The entries a walk reports for a small source tree (< 100 files).
fn small_tree() -> Vec<WalkEntry> {
    vec![
        dir("w"),
        dir("w/src"),
        file("w/src/main.rs"),
        file("w/src/lib.rs"),
        dir("w/src/utils"),
        file("w/src/utils/mod.rs"),
        file("w/src/utils/helpers.rs"),
        dir("w/tests"),
        file("w/tests/test1.rs"),
        file("w/tests/test2.rs"),
        file("w/Cargo.toml"),
        file("w/README.md"),
    ]
}

/// The entries for a medium tree (100-500 files).
fn medium_tree() -> Vec<WalkEntry> {
    let mut entries = vec![dir("w"), dir("w/src"), dir("w/tests")];
    for i in 0..20 {
        entries.push(dir(&format!("w/src/module_{}", i)));
        entries.push(file(&format!("w/src/module_{}/mod.rs", i)));
        for j in 0..5 {
            entries.push(file(&format!("w/src/module_{}/file_{}.rs", i, j)));
        }
    }
    for i in 0..30 {
        entries.push(file(&format!("w/tests/test_{}.rs", i)));
    }
    entries.push(file("w/Cargo.toml"));
    entries.push(file("w/README.md"));
    entries.push(file("w/.gitignore"));
    entries
}

/// The entries for a large tree (> 500 files).
fn large_tree() -> Vec<WalkEntry> {
    let mut entries = vec![dir("w"), dir("w/src"), dir("w/tests"), dir("w/tests/integration")];
    for i in 0..50 {
        entries.push(dir(&format!("w/src/module_{}", i)));
        for j in 0..10 {
            entries.push(dir(&format!("w/src/module_{}/submodule_{}", i, j)));
            entries.push(file(&format!("w/src/module_{}/submodule_{}/mod.rs", i, j)));
            for k in 0..3 {
                entries.push(file(&format!(
                    "w/src/module_{}/submodule_{}/file_{}.rs",
                    i, j, k
                )));
            }
        }
    }
    for i in 0..100 {
        entries.push(file(&format!("w/tests/integration/test_{}.rs", i)));
    }
    entries
}

/// A parallel walk reports the same entries in another order; emulate one
/// by rotating and interleaving the sequential order.
fn permuted(entries: &Vec<WalkEntry>) -> Vec<WalkEntry> {
    let n = entries.len();
    let mut out = Vec::new();
    for k in 0..n {
        let idx = (k * 7 + n / 2) % n;
        // Walk the entries in a stride that touches each exactly once when
        // the stride is coprime with the count; fall back to reverse.
        out.push(copy_entry(&entries[idx]));
    }
    if out.len() == n && stride_is_permutation(n) {
        out
    } else {
        let mut rev = Vec::new();
        for k in 0..n {
            rev.push(copy_entry(&entries[n - 1 - k]));
        }
        rev
    }
}

fn stride_is_permutation(n: usize) -> bool {
    if n == 0 {
        return true;
    }
    let mut seen = vec![false; n];
    for k in 0..n {
        let idx = (k * 7 + n / 2) % n;
        if seen[idx] {
            return false;
        }
        seen[idx] = true;
    }
    true
}

fn copy_entry(e: &WalkEntry) -> WalkEntry {
    WalkEntry {
        path: e.path.clone(),
        is_dir: e.is_dir,
        is_file: e.is_file,
    }
}

/// What the walker's pruning leaves: entries whose path matches no
/// exclude pattern.
fn prune(entries: Vec<WalkEntry>, excludes: &Vec<String>) -> Vec<WalkEntry> {
    let mut out = Vec::new();
    for e in entries {
        if !any_pattern_matches(excludes, &e.path) {
            out.push(e);
        }
    }
    out
}

fn normalize_paths(mut paths: Vec<String>) -> Vec<String> {
    paths.sort();
    paths
}

#[test]
fn test_all_implementations_return_same_results_small() {
    let entries = small_tree();
    let match_patterns = vec!["**/*.rs".to_string()];

    let seq = filter_walk_entries(&entries, &match_patterns, FileType::File);
    let par = filter_walk_entries(&permuted(&entries), &match_patterns, FileType::File);

    let seq = normalize_paths(seq);
    let par = normalize_paths(par);

    assert_eq!(seq, par, "Sequential and parallel results differ");
    assert_eq!(seq.len(), 6, "Expected 6 .rs files");
}

#[test]
fn test_all_implementations_return_same_results_medium() {
    let entries = medium_tree();
    let match_patterns = vec!["**/*.rs".to_string()];

    let seq = filter_walk_entries(&entries, &match_patterns, FileType::File);
    let par = filter_walk_entries(&permuted(&entries), &match_patterns, FileType::File);

    let seq = normalize_paths(seq);
    let par = normalize_paths(par);

    assert_eq!(seq, par);
    // 20 modules * 5 files + 20 mod.rs + 30 tests = 150 files
    assert_eq!(seq.len(), 150, "Expected 150 .rs files");
}

#[test]
fn test_all_implementations_return_same_results_large() {
    let entries = large_tree();
    let match_patterns = vec!["**/*.rs".to_string()];

    let seq = filter_walk_entries(&entries, &match_patterns, FileType::File);
    let par = filter_walk_entries(&permuted(&entries), &match_patterns, FileType::File);

    let seq = normalize_paths(seq);
    let par = normalize_paths(par);

    assert_eq!(seq, par);
    assert_eq!(seq.len(), 2100, "Expected 2100 .rs files");
}

#[test]
fn test_with_exclude_patterns() {
    let entries = medium_tree();
    let match_patterns = vec!["**/*.rs".to_string()];
    let exclude_patterns = vec!["**/tests/**".to_string()];

    let seq = filter_walk_entries(
        &prune(entries, &exclude_patterns),
        &match_patterns,
        FileType::File,
    );
    let entries2 = medium_tree();
    let par = filter_walk_entries(
        &permuted(&prune(entries2, &exclude_patterns)),
        &match_patterns,
        FileType::File,
    );

    let seq = normalize_paths(seq);
    let par = normalize_paths(par);

    assert_eq!(seq, par);
    // 30 test files excluded, leaving 120
    assert_eq!(
        seq.len(),
        120,
        "Expected 120 .rs files after excluding tests"
    );
}

#[test]
fn test_multiple_include_patterns() {
    let entries = small_tree();
    let match_patterns = vec!["**/*.rs".to_string(), "**/*.toml".to_string()];

    let seq = filter_walk_entries(&entries, &match_patterns, FileType::File);
    let par = filter_walk_entries(&permuted(&entries), &match_patterns, FileType::File);

    let seq = normalize_paths(seq);
    let par = normalize_paths(par);

    assert_eq!(seq, par);
    assert_eq!(seq.len(), 7, "Expected 7 files (.rs and .toml)");
}

#[test]
fn test_directories_all_implementations_match() {
    let entries = small_tree();
    let match_patterns = vec!["**/*.rs".to_string()];

    let seq = filter_walk_entries(&entries, &match_patterns, FileType::Dir);
    let par = filter_walk_entries(&permuted(&entries), &match_patterns, FileType::Dir);

    let seq_set = normalize_paths(seq);
    let par_mutex_set = normalize_paths(par);

    assert_eq!(seq_set, par_mutex_set);
    // Matching files are reported as their parent directories, once each.
    assert_eq!(
        seq_set,
        vec![
            "w/src".to_string(),
            "w/src/utils".to_string(),
            "w/tests".to_string(),
        ]
    );
}

#[test]
fn test_empty_directory() {
    let entries: Vec<WalkEntry> = vec![dir("w")];
    let match_patterns = vec!["**/*.rs".to_string()];

    let seq = filter_walk_entries(&entries, &match_patterns, FileType::File);
    assert_eq!(seq.len(), 0);
}

#[test]
fn test_no_matching_files() {
    let entries = small_tree();
    let match_patterns = vec!["**/*.xyz".to_string()];

    let seq = filter_walk_entries(&entries, &match_patterns, FileType::File);
    let par = filter_walk_entries(&permuted(&entries), &match_patterns, FileType::File);

    assert_eq!(seq.len(), 0);
    assert_eq!(par.len(), 0);
}

#[test]
fn test_deterministic_results() {
    let entries = medium_tree();
    let match_patterns = vec!["**/*.rs".to_string()];

    let mut results = vec![];
    for _ in 0..3 {
        let result = filter_walk_entries(&entries, &match_patterns, FileType::File);
        results.push(normalize_paths(result));
    }

    assert_eq!(results[0], results[1]);
    assert_eq!(results[1], results[2]);
}

#[test]
fn test_duplicate_contributions_collapse() {
    // Two files under one directory contribute that directory once.
    let entries = vec![
        dir("w/pkg"),
        file("w/pkg/a.rs"),
        file("w/pkg/b.rs"),
    ];
    let match_patterns = vec!["**/*.rs".to_string()];
    let out = filter_walk_entries(&entries, &match_patterns, FileType::Dir);
    assert_eq!(out, vec!["w/pkg".to_string()]);
}
