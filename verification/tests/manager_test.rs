use lsproxy::api_types::{FilePosition, Location, LspManagerError, Position, Range};
use lsproxy::manager::{
    file_in_list, find_definition, find_referenced_symbols, find_references,
    get_symbol_from_position, list_files, read_source_code, sort_definition_response,
    GotoDefinitionResponse, LocationLink, ReferenceSite, Symbol,
};
use lsproxy::manager::sort_locations;

fn pos(line: u32, character: u32) -> Position {
    Position { line, character }
}

fn range(a: (u32, u32), b: (u32, u32)) -> Range {
    Range {
        start: pos(a.0, a.1),
        end: pos(b.0, b.1),
    }
}

fn loc(path: &str, line: u32, character: u32) -> Location {
    Location {
        path: path.to_string(),
        range: range((line, character), (line, character)),
    }
}

#[test]
fn definitions_sort_by_path_line_character() {
    let input = vec![
        loc("search.py", 5, 0),
        loc("graph.py", 2, 4),
        loc("graph.py", 2, 1),
        loc("graph.py", 0, 9),
        loc("main.py", 6, 4),
    ];
    let sorted = sort_definition_response(GotoDefinitionResponse::Array(input));
    match sorted {
        GotoDefinitionResponse::Array(v) => {
            let keys: Vec<(String, u32, u32)> = v
                .iter()
                .map(|l| (l.path.clone(), l.range.start.line, l.range.start.character))
                .collect();
            assert_eq!(
                keys,
                vec![
                    ("graph.py".to_string(), 0, 9),
                    ("graph.py".to_string(), 2, 1),
                    ("graph.py".to_string(), 2, 4),
                    ("main.py".to_string(), 6, 4),
                    ("search.py".to_string(), 5, 0),
                ]
            );
        }
        _ => panic!("expected an array response"),
    }
}

#[test]
fn links_sort_by_target() {
    let mk = |p: &str, line: u32| LocationLink {
        target_path: p.to_string(),
        target_range: range((line, 0), (line, 1)),
        target_selection_range: range((line, 0), (line, 1)),
    };
    let sorted = sort_definition_response(GotoDefinitionResponse::Links(vec![
        mk("b.rs", 3),
        mk("a.rs", 9),
        mk("a.rs", 2),
    ]));
    match sorted {
        GotoDefinitionResponse::Links(v) => {
            let keys: Vec<(String, u32)> = v
                .iter()
                .map(|l| (l.target_path.clone(), l.target_range.start.line))
                .collect();
            assert_eq!(
                keys,
                vec![
                    ("a.rs".to_string(), 2),
                    ("a.rs".to_string(), 9),
                    ("b.rs".to_string(), 3),
                ]
            );
        }
        _ => panic!("expected a links response"),
    }
}

#[test]
fn scalar_definition_is_unchanged() {
    let sorted = sort_definition_response(GotoDefinitionResponse::Scalar(loc("main.py", 5, 0)));
    match sorted {
        GotoDefinitionResponse::Scalar(l) => {
            assert_eq!(l.path, "main.py");
            assert_eq!(l.range.start.line, 5);
        }
        _ => panic!("expected a scalar response"),
    }
}

#[test]
fn list_files_sorts_and_dedups() {
    let merged = list_files(vec![
        "search.py".to_string(),
        "main.py".to_string(),
        "decorators.py".to_string(),
        "graph.py".to_string(),
        "main.py".to_string(),
        "__init__.py".to_string(),
    ]);
    assert_eq!(
        merged,
        vec![
            "__init__.py".to_string(),
            "decorators.py".to_string(),
            "graph.py".to_string(),
            "main.py".to_string(),
            "search.py".to_string(),
        ]
    );
    // Unchanged across repeated calls on the same inputs.
    let again = list_files(merged.clone());
    assert_eq!(again, merged);
}

#[test]
fn file_presence_check() {
    let files = vec!["a.py".to_string(), "b/c.py".to_string()];
    assert!(file_in_list(&files, "b/c.py"));
    assert!(!file_in_list(&files, "missing.py"));
}

#[test]
fn read_source_whole_file() {
    let content = "alpha\nbeta\ngamma\n";
    let r = read_source_code(content, None).unwrap();
    assert_eq!(r, content);
}

#[test]
fn read_source_line_range_is_inclusive() {
    let content = "l0\nl1\nl2\nl3\nl4";
    let r = read_source_code(content, Some(range((1, 0), (3, 0)))).unwrap();
    assert_eq!(r, "l1\nl2\nl3");
}

#[test]
fn read_source_clamps_end_to_last_line() {
    let content = "one\ntwo\nthree\n";
    let r = read_source_code(content, Some(range((1, 0), (99, 0)))).unwrap();
    assert_eq!(r, "two\nthree");
}

#[test]
fn read_source_strips_carriage_returns() {
    let content = "a\r\nb\r\nc\r\n";
    let r = read_source_code(content, Some(range((0, 0), (1, 0)))).unwrap();
    assert_eq!(r, "a\nb");
}

#[test]
fn read_source_start_out_of_bounds() {
    let content = "only\n";
    match read_source_code(content, Some(range((7, 0), (9, 0)))) {
        Err(LspManagerError::InternalError(m)) => {
            assert_eq!(m, "Start line 7 is out of bounds");
        }
        _ => panic!("expected an out-of-bounds error"),
    }
}

fn site(name: &str, line: u32) -> ReferenceSite {
    ReferenceSite {
        name: name.to_string(),
        range: range((line, 0), (line, 4)),
    }
}

#[test]
fn referenced_symbols_skip_failed_sites() {
    // Five reference sites; three definition lookups fail; the two
    // successes come back, in the scanner's emission order.
    let sites = vec![
        site("a", 0),
        site("b", 1),
        site("c", 2),
        site("d", 3),
        site("e", 4),
    ];
    let outcomes = vec![
        None,
        Some(GotoDefinitionResponse::Scalar(loc("x.py", 1, 0))),
        None,
        Some(GotoDefinitionResponse::Scalar(loc("y.py", 9, 2))),
        None,
    ];
    let pairs = find_referenced_symbols(sites, outcomes).unwrap();
    assert_eq!(pairs.len(), 2);
    assert_eq!(pairs[0].0.name, "b");
    assert_eq!(pairs[1].0.name, "d");
}

#[test]
fn referenced_symbols_fail_only_when_nothing_resolves() {
    let sites = vec![site("a", 0), site("b", 1)];
    let outcomes: Vec<Option<GotoDefinitionResponse>> = vec![None, None];
    match find_referenced_symbols(sites, outcomes) {
        Err(LspManagerError::InternalError(m)) => {
            assert_eq!(
                m,
                "Failed to retrieve any definitions for the referenced symbols"
            );
        }
        _ => panic!("expected the all-failed error"),
    }
    // An empty reference set succeeds with no pairs.
    let pairs = find_referenced_symbols(Vec::new(), Vec::new()).unwrap();
    assert_eq!(pairs.len(), 0);
}

#[test]
fn error_messages_are_single_line_diagnostics() {
    let e = LspManagerError::FileNotFound("main.py".to_string());
    assert_eq!(e.message(), "File 'main.py' not found in workspace");
    let e = LspManagerError::UnsupportedFileType("x.bin".to_string());
    assert_eq!(e.message(), "Unsupported file type: x.bin");
    let e = LspManagerError::NotImplemented("soon".to_string());
    assert_eq!(e.message(), "Not implemented: soon");
    let e = LspManagerError::NoLspClientAvailable;
    assert_eq!(e.message(), "No LSP client available for language");
}

#[test]
fn symbol_from_position_picks_the_innermost() {
    let sym = |name: &str, start: (u32, u32), end: (u32, u32)| Symbol {
        name: name.to_string(),
        kind: "function".to_string(),
        identifier_position: FilePosition {
            path: "main.py".to_string(),
            position: pos(start.0, start.1),
        },
        identifier_range: range(start, end),
        range: range(start, end),
    };
    let symbols = vec![
        sym("outer", (0, 0), (20, 0)),
        sym("inner", (5, 0), (10, 0)),
        sym("other", (30, 0), (40, 0)),
    ];
    // Inside both outer and inner: the innermost (latest-opening) wins.
    let i = get_symbol_from_position(&symbols, pos(6, 2)).unwrap();
    assert_eq!(symbols[i].name, "inner");
    // Inside outer only.
    let i = get_symbol_from_position(&symbols, pos(15, 0)).unwrap();
    assert_eq!(symbols[i].name, "outer");
    // Outside every range.
    assert!(get_symbol_from_position(&symbols, pos(25, 0)).is_none());
}

#[test]
fn find_definition_checks_the_file_list_then_sorts() {
    let files = vec!["main.py".to_string()];
    let raw = GotoDefinitionResponse::Array(vec![loc("b.py", 2, 0), loc("a.py", 1, 0)]);
    match find_definition(&files, "main.py", raw).unwrap() {
        GotoDefinitionResponse::Array(v) => {
            assert_eq!(v[0].path, "a.py");
            assert_eq!(v[1].path, "b.py");
        }
        _ => panic!("expected an array response"),
    }
    let raw = GotoDefinitionResponse::Array(Vec::new());
    match find_definition(&files, "absent.py", raw) {
        Err(LspManagerError::FileNotFound(p)) => assert_eq!(p, "absent.py"),
        _ => panic!("expected file-not-found"),
    }
}

#[test]
fn find_references_checks_the_file_list_then_sorts() {
    let files = vec!["main.py".to_string()];
    let raw = vec![loc("z.py", 9, 9), loc("a.py", 0, 0), loc("a.py", 0, 5)];
    let sorted = find_references(&files, "main.py", raw).unwrap();
    let keys: Vec<(String, u32, u32)> = sorted
        .iter()
        .map(|l| (l.path.clone(), l.range.start.line, l.range.start.character))
        .collect();
    assert_eq!(
        keys,
        vec![
            ("a.py".to_string(), 0, 0),
            ("a.py".to_string(), 0, 5),
            ("z.py".to_string(), 9, 9),
        ]
    );
    match find_references(&files, "absent.py", Vec::new()) {
        Err(LspManagerError::FileNotFound(p)) => assert_eq!(p, "absent.py"),
        _ => panic!("expected file-not-found"),
    }
}

#[test]
fn sorting_keeps_duplicate_keys_and_is_strict_without_them() {
    // Duplicate keys survive the sort (the permutation keeps them)...
    let twice = vec![loc("a.py", 1, 1), loc("a.py", 1, 1), loc("b.py", 0, 0)];
    let sorted = sort_locations(twice);
    assert_eq!(sorted.len(), 3);
    assert_eq!(sorted[0].path, "a.py");
    assert_eq!(sorted[1].path, "a.py");
    // ...and a key-distinct input comes back strictly sorted: every
    // adjacent pair differs in its key.
    let distinct = vec![loc("b.py", 0, 0), loc("a.py", 1, 1), loc("a.py", 1, 2)];
    let sorted = sort_locations(distinct);
    for w in sorted.windows(2) {
        let same_key = w[0].path == w[1].path
            && w[0].range.start.line == w[1].range.start.line
            && w[0].range.start.character == w[1].range.start.character;
        assert!(!same_key);
    }
}
