use lsproxy::rpc::{
    build_notification_json, build_request_json, definition_params_json, did_close_params_json,
    did_open_params_json, initialize_params_json, json_escape, parse_rpc_fields,
    references_params_json,
};
use lsproxy::text::{dec_string, lower_str, parse_decimal, split_lines, trim_str};
use lsproxy::ruby::{choose_ruby_version, detect_project_ruby_version, rbenv_global,
    rbenv_version_installed};

#[test]
fn project_version_from_version_file() {
    let rv = "3.1.2\n".to_string();
    let v = detect_project_ruby_version(Some(&rv), None).unwrap();
    assert_eq!(v, "3.1.2");
    // A blank version file falls through to the lockfile.
    let blank = "  \n".to_string();
    let lock = "GEM\n\nRUBY VERSION\n   ruby 3.0.4p208\n\nBUNDLED WITH\n".to_string();
    let v = detect_project_ruby_version(Some(&blank), Some(&lock)).unwrap();
    assert_eq!(v, "3.0.4");
}

#[test]
fn project_version_from_lockfile_only() {
    let lock = "RUBY VERSION\n  ruby 3.1.2p20\n".to_string();
    let v = detect_project_ruby_version(None, Some(&lock)).unwrap();
    assert_eq!(v, "3.1.2");
    let no_section = "GEM\n  specs:\n".to_string();
    assert!(detect_project_ruby_version(None, Some(&no_section)).is_none());
    assert!(detect_project_ruby_version(None, None).is_none());
}

#[test]
fn choose_version_prefers_installed_pin() {
    let installed = vec!["3.1.2".to_string(), "3.2.0".to_string()];
    let pin = "3.1.2".to_string();
    let global = "3.2.0".to_string();
    assert_eq!(
        choose_ruby_version(Some(&pin), &installed, Some(&global)).unwrap(),
        "3.1.2"
    );
    // A pin that is not installed falls back to the global version.
    let missing = "2.7.0".to_string();
    assert_eq!(
        choose_ruby_version(Some(&missing), &installed, Some(&global)).unwrap(),
        "3.2.0"
    );
    // With neither, the system interpreter is used.
    assert!(choose_ruby_version(Some(&missing), &installed, None).is_none());
    assert!(choose_ruby_version(None, &installed, Some(&global)).is_none());
}

#[test]
fn rbenv_helpers() {
    let installed = vec!["3.1.2".to_string()];
    assert!(rbenv_version_installed("3.1.2", &installed));
    assert!(!rbenv_version_installed("3.9.9", &installed));
    assert_eq!(rbenv_global(Some(&"3.1.2\n".to_string())).unwrap(), "3.1.2");
    assert!(rbenv_global(Some(&"\n".to_string())).is_none());
    assert!(rbenv_global(None).is_none());
}

#[test]
fn escaping_covers_quotes_backslashes_and_controls() {
    assert_eq!(json_escape("plain"), "plain");
    assert_eq!(json_escape("a\"b"), "a\\\"b");
    assert_eq!(json_escape("a\\b"), "a\\\\b");
    assert_eq!(json_escape("a\nb\tc"), "a\\u000ab\\u0009c");
}

#[test]
fn request_bodies_have_exact_shape() {
    assert_eq!(
        build_request_json(1, "initialize", "{}"),
        "{\"jsonrpc\":\"2.0\",\"id\":1,\"method\":\"initialize\",\"params\":{}}"
    );
    assert_eq!(
        build_notification_json("initialized", "{}"),
        "{\"jsonrpc\":\"2.0\",\"method\":\"initialized\",\"params\":{}}"
    );
}

#[test]
fn position_params_have_exact_shape() {
    assert_eq!(
        definition_params_json("file:///w/main.py", 6, 4),
        "{\"textDocument\":{\"uri\":\"file:///w/main.py\"},\"position\":{\"line\":6,\"character\":4}}"
    );
    assert_eq!(
        references_params_json("file:///w/main.py", 6, 4),
        "{\"textDocument\":{\"uri\":\"file:///w/main.py\"},\"position\":{\"line\":6,\"character\":4},\"context\":{\"includeDeclaration\":true}}"
    );
}

#[test]
fn initialize_params_carry_pid_root_and_folders() {
    let p = initialize_params_json(4242, "file:///w");
    assert!(p.starts_with("{\"processId\":4242,\"rootUri\":\"file:///w\","));
    assert!(p.contains("\"hierarchicalDocumentSymbolSupport\":true"));
    assert!(p.ends_with("\"workspaceFolders\":[{\"uri\":\"file:///w\",\"name\":\"workspace\"}]}"));
    // The built params parse as JSON.
    let body = build_request_json(1, "initialize", &p);
    let fields = parse_rpc_fields(&body).unwrap();
    assert_eq!(fields.id, Some(1));
    assert_eq!(fields.method.as_deref(), Some("initialize"));
}

#[test]
fn parser_extracts_routing_fields() {
    let fields =
        parse_rpc_fields("{\"jsonrpc\":\"2.0\",\"id\":3,\"result\":{\"ok\":true}}").unwrap();
    assert_eq!(fields.id, Some(3));
    assert!(fields.result.is_some());
    assert!(fields.error.is_none());
    let fields = parse_rpc_fields("{\"jsonrpc\":\"2.0\",\"method\":\"window/logMessage\"}").unwrap();
    assert_eq!(fields.id, None);
    assert_eq!(fields.method.as_deref(), Some("window/logMessage"));
    assert!(parse_rpc_fields("not json").is_none());
    // An escaped quote in a string member does not confuse the parser.
    let tricky = build_request_json(9, "m", "{\"s\":\"a\\\"id\\\":7\"}");
    let fields = parse_rpc_fields(&tricky).unwrap();
    assert_eq!(fields.id, Some(9));
}

#[test]
fn document_lifecycle_params() {
    assert_eq!(
        did_open_params_json("file:///w/a.py", "python", 0, "x = 1\n"),
        "{\"textDocument\":{\"uri\":\"file:///w/a.py\",\"languageId\":\"python\",\"version\":0,\"text\":\"x = 1\\u000a\"}}"
    );
    assert_eq!(
        did_close_params_json("file:///w/a.py"),
        "{\"textDocument\":{\"uri\":\"file:///w/a.py\"}}"
    );
}

#[test]
fn decimal_conversions_round_trip() {
    assert_eq!(dec_string(0), "0");
    assert_eq!(dec_string(18446744073709551615), "18446744073709551615");
    assert_eq!(parse_decimal("0"), Some(0));
    assert_eq!(parse_decimal("30000"), Some(30000));
    assert_eq!(parse_decimal(&dec_string(987654321)), Some(987654321));
    assert_eq!(parse_decimal(""), None);
    assert_eq!(parse_decimal("12x"), None);
    assert_eq!(parse_decimal("99999999999999999999999"), None);
}

#[test]
fn text_helpers_trim_and_fold() {
    assert_eq!(trim_str("  mixed Case\t"), "mixed Case");
    assert_eq!(lower_str("MiXeD 42!"), "mixed 42!");
    assert_eq!(split_lines("a\nb\r\nc\n"), vec!["a", "b", "c"]);
    assert_eq!(split_lines(""), Vec::<String>::new());
    assert_eq!(split_lines("\n"), vec![""]);
}
